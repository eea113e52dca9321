use diff_test::html::{
    canonicalize, collapse_tag_space, fmt_html, is_html, pre_diff_element_massaging_handlers,
    remove_empty_paragraphs, squeeze, Action,
};
use diff_test::options::{DiffError, DiffOptions};

fn options(check_dts: bool, ignore_ps: bool) -> DiffOptions {
    DiffOptions { fast: false, sidebars: false, check_dts, ignore_ps }
}

#[test]
fn is_html_looks_at_both_ends() {
    assert!(is_html("<p>hello</p>"));
    assert!(is_html("  \n<p>hello</p>\n "));
    assert!(is_html("<>"));
    assert!(!is_html("<p>hello"));
    assert!(!is_html("hello</p>"));
    assert!(!is_html(""));
    assert!(!is_html("   "));
    assert!(!is_html("<"));
    assert!(!is_html(">"));
    assert!(!is_html("a<p></p>"));
}

#[test]
fn tag_space_is_collapsed() {
    assert_eq!(collapse_tag_space("<p>\n  hello\n</p>"), Ok("<p>hello</p>".to_string()));
    assert_eq!(collapse_tag_space("<p> a <b> b </b> c </p>"), Ok("<p>a <b>b</b>c</p>".to_string()));
    assert_eq!(collapse_tag_space("<p>\ta</p>"), Ok("<p>\ta</p>".to_string()));
    assert_eq!(collapse_tag_space("a > b"), Ok("a >b".to_string()));
    assert_eq!(collapse_tag_space("<br>  <br>"), Ok("<br><br>".to_string()));
    assert_eq!(collapse_tag_space(""), Ok(String::new()));
}

#[test]
fn empty_paragraphs_are_removed() {
    assert_eq!(remove_empty_paragraphs("<p></p>"), Ok(String::new()));
    assert_eq!(remove_empty_paragraphs("a<p> \n </p>b<p>c</p>"), Ok("ab<p>c</p>".to_string()));
    assert_eq!(remove_empty_paragraphs("<p>\t</p>"), Ok("<p>\t</p>".to_string()));
    assert_eq!(remove_empty_paragraphs("<p class=\"x\"></p>"), Ok("<p class=\"x\"></p>".to_string()));
}

#[test]
fn fmt_html_puts_tags_on_their_own_lines() {
    assert_eq!(fmt_html("<p>hello</p><b>x</b>"), "<p>\nhello\n</p>\n<b>\nx\n</b>");
    assert_eq!(fmt_html("<p>\nhello\n</p>"), "<p>\nhello\n</p>");
    assert_eq!(fmt_html("text"), "text");
    assert_eq!(fmt_html(""), "");
    assert_eq!(fmt_html("<"), "<");
    assert_eq!(fmt_html("a<b"), "a\n<b");
    assert_eq!(fmt_html("<br><br>"), "<br>\n<br>");
}

#[test]
fn canonical_form_tolerates_whitespace_and_empty_paragraphs() {
    let o = DiffOptions::new();
    assert_eq!(canonicalize("<p>\n  hello\n</p>", &o), Ok("<p>\nhello\n</p>".to_string()));
    assert_eq!(canonicalize("<p>\n  hello\n</p>", &o), canonicalize("<p>hello</p>", &o));
    assert_eq!(canonicalize("<p></p>", &o), Ok(String::new()));
    assert_eq!(canonicalize("<p></p>", &o), canonicalize("", &o));
}

#[test]
fn canonical_form_applies_the_rules() {
    let source = "<div class=\"notecard\" id=\"Foo\" data-flaw=\"x\" data-flaw-src=\"y\"><dt id=\"A_b\"><a href=\"#a_b\">x</a></dt><a class=\"page-not-created\" href=\"/z\">z</a><span id=\"ABC\">y</span><p>q</p></div>";
    assert_eq!(
        canonicalize(source, &options(false, false)),
        Ok("<div class=\"notecard\">\n<dt>\nx\n</dt>\n<a href=\"/z\">\nz\n</a>\n<span id=\"abc\">\ny\n</span>\n<p>\nq\n</p>\n</div>".to_string())
    );
    assert_eq!(
        canonicalize(source, &options(true, false)),
        Ok("<div class=\"notecard\">\n<dt id=\"a_b\">\n<a href=\"#a_b\">\nx\n</a>\n</dt>\n<a href=\"/z\">\nz\n</a>\n<span id=\"abc\">\ny\n</span>\n<p>\nq\n</p>\n</div>".to_string())
    );
    assert_eq!(
        canonicalize(source, &options(false, true)),
        Ok("<div class=\"notecard\">\n<dt>\nx\n</dt>\n<a href=\"/z\">\nz\n</a>\n<span id=\"abc\">\ny\n</span>\nq\n</div>".to_string())
    );
}

#[test]
fn rules_follow_the_options() {
    let rules = pre_diff_element_massaging_handlers(&options(true, false));
    let selectors: Vec<&str> = rules.iter().map(|r| r.selector.as_str()).collect();
    assert_eq!(
        selectors,
        vec![
            "*[data-flaw-src]",
            "*[data-flaw]",
            "*.page-not-created",
            "*[id]",
            "div.notecard, div.example-header, div.code-example",
        ]
    );
    let attributes: Vec<&str> = rules.iter().map(|r| r.attribute.as_str()).collect();
    assert_eq!(attributes, vec!["data-flaw-src", "data-flaw", "class", "id", "id"]);
    let actions: Vec<Action> = rules.iter().map(|r| r.action).collect();
    assert_eq!(
        actions,
        vec![
            Action::RemoveAttribute,
            Action::RemoveAttribute,
            Action::RemoveAttribute,
            Action::LowercaseAttribute,
            Action::RemoveAttribute,
        ]
    );
    let rules = pre_diff_element_massaging_handlers(&options(true, true));
    assert_eq!(rules.len(), 6);
    assert_eq!(rules[5].selector, "p");
    assert_eq!(rules[5].action, Action::Unwrap);
    let rules = pre_diff_element_massaging_handlers(&options(false, true));
    assert_eq!(rules.len(), 8);
    assert_eq!(rules[6].selector, "dt");
    assert_eq!(rules[6].attribute, "id");
    assert_eq!(rules[6].action, Action::RemoveAttribute);
    assert_eq!(rules[7].selector, "dt > a[href^=\"#\"]");
    assert_eq!(rules[7].action, Action::Unwrap);
    assert_eq!(pre_diff_element_massaging_handlers(&options(false, false)).len(), 7);
}

#[test]
fn squeeze_minifies() {
    assert_eq!(squeeze("<p>  a   b </p>"), Ok("<p>a b</p>".to_string()));
    assert_eq!(squeeze("<p>\n a</p>\n\n<p>b</p>"), Ok("<p>a</p><p>b</p>".to_string()));
    assert_eq!(squeeze(""), Ok(String::new()));
}

#[test]
fn broken_markup_is_an_error() {
    let o = DiffOptions::new();
    assert_eq!(canonicalize("<script>", &o), Err(DiffError::Minify));
    assert_eq!(canonicalize("<p", &o), Err(DiffError::Minify));
    assert_eq!(squeeze("<!-- x >"), Err(DiffError::Minify));
    assert_eq!(
        canonicalize("<select><xmp><script>\"use strict\";</script></select>", &o),
        Err(DiffError::Rewrite)
    );
}

#[test]
fn ids_of_containers_do_not_count() {
    let o = DiffOptions::new();
    assert_eq!(
        canonicalize("<div class=\"notecard\" id=\"Note\"><p>x</p></div>", &o),
        canonicalize("<div class=\"notecard\"><p>x</p></div>", &o)
    );
    assert_eq!(
        canonicalize("<div class=\"code-example\" id=\"a\">x</div>", &o),
        Ok("<div class=\"code-example\">\nx\n</div>".to_string())
    );
    assert_eq!(
        canonicalize("<div class=\"other\" id=\"A\">x</div>", &o),
        Ok("<div class=\"other\" id=\"a\">\nx\n</div>".to_string())
    );
}
