use diff_test::links::FeatureStatus::{Deprecated, Experimental, NonStandard};
use diff_test::links::{
    badges_in_order, link_content, page_to_ask, render_internal_link, render_link_via_page,
    render_plain_link, resolve_link, split_anchor, BadgeMarkup, FeatureStatus, LinkModifier,
    PageInfo,
};
use diff_test::resolve::{
    build_url, classify_url, slug_to_ask, split_first_segment, url_path_to_path_buf,
    url_segments, url_to_path_buf, LocaleKind, PageCategory, StoreAnswer, UrlError, UrlKind,
};

fn markup() -> BadgeMarkup {
    BadgeMarkup {
        experimental: Ok("<abbr class=\"icon icon-experimental\"></abbr>".to_string()),
        non_standard: Ok("<abbr class=\"icon icon-nonstandard\"></abbr>".to_string()),
        deprecated: Ok("<abbr class=\"icon icon-deprecated\"></abbr>".to_string()),
    }
}

fn modifier(code: bool, only_en_us: bool) -> LinkModifier {
    LinkModifier { badges: Vec::new(), badge_markup: markup(), code, only_en_us }
}

fn with_badges(badges: Vec<FeatureStatus>, badge_markup: BadgeMarkup) -> LinkModifier {
    LinkModifier { badges, badge_markup, code: false, only_en_us: false }
}

fn page(url: &str, locale: &str, status: Vec<FeatureStatus>) -> PageInfo {
    PageInfo {
        url: url.to_string(),
        title: "The <dialog> element".to_string(),
        short_title: None,
        status,
        locale: locale.to_string(),
        anchor_id: "see_also".to_string(),
        badge_markup: markup(),
    }
}

#[test]
fn internal_link_is_an_anchor_element() {
    let mut out = String::from(">");
    let done =
        render_internal_link(&mut out, "/en-US/docs/Web", None, "Web", None, &modifier(false, false));
    assert_eq!(done, Ok(()));
    assert_eq!(out, "><a href=\"/en-US/docs/Web\">Web</a>");
    let mut out = String::new();
    let _ = render_internal_link(
        &mut out,
        "/fr/docs/Web/API",
        Some("see_also"),
        "API",
        Some("The \"API\" & <more>"),
        &modifier(true, true),
    );
    assert_eq!(
        out,
        "<a href=\"/fr/docs/Web/API#see_also\" title=\"The &quot;API&quot; &amp; &lt;more&gt;\" class=\"only-in-en-us\"><code>API</code></a>"
    );
    let mut out = String::new();
    let _ = render_internal_link(&mut out, "/x", None, "a/b", Some("it's a/b"), &modifier(true, false));
    assert_eq!(out, "<a href=\"/x\" title=\"it&#x27;s a/b\"><code>a/b</code></a>");
}

#[test]
fn titles_are_decoded_and_encoded() {
    assert_eq!(link_content("a &lt;b&gt; c"), "a &lt;b&gt; c");
    assert_eq!(link_content("<input>"), "&lt;input&gt;");
    assert_eq!(link_content("a/b \"c\" 'd' &amp; e"), "a&#x2F;b &quot;c&quot; &#x27;d&#x27; &amp; e");
    assert_eq!(link_content("plain"), "plain");
}

#[test]
fn badges_are_written_in_one_order() {
    assert_eq!(badges_in_order(&vec![Deprecated, Experimental]), vec![Experimental, Deprecated]);
    assert_eq!(
        badges_in_order(&vec![Deprecated, NonStandard, Experimental, Deprecated]),
        vec![Experimental, NonStandard, Deprecated]
    );
    assert_eq!(badges_in_order(&vec![NonStandard]), vec![NonStandard]);
    assert_eq!(badges_in_order(&Vec::new()), Vec::<FeatureStatus>::new());
}

#[test]
fn badges_follow_the_link_in_one_order() {
    let mut out = String::new();
    let done = render_internal_link(
        &mut out,
        "/en-US/docs/Web/API/X",
        None,
        "X",
        None,
        &with_badges(vec![Deprecated, Experimental], markup()),
    );
    assert_eq!(done, Ok(()));
    assert_eq!(
        out,
        "<a href=\"/en-US/docs/Web/API/X\">X</a><abbr class=\"icon icon-experimental\"></abbr><abbr class=\"icon icon-deprecated\"></abbr>"
    );
    let mut out = String::new();
    let done = render_internal_link(
        &mut out,
        "/x",
        None,
        "X",
        None,
        &with_badges(vec![Deprecated, NonStandard, Deprecated, Experimental, NonStandard], markup()),
    );
    assert_eq!(done, Ok(()));
    assert_eq!(
        out,
        "<a href=\"/x\">X</a><abbr class=\"icon icon-experimental\"></abbr><abbr class=\"icon icon-nonstandard\"></abbr><abbr class=\"icon icon-deprecated\"></abbr>"
    );
    let mut out = String::new();
    let done = render_internal_link(&mut out, "/x", None, "X", None, &with_badges(Vec::new(), markup()));
    assert_eq!(done, Ok(()));
    assert_eq!(out, "<a href=\"/x\">X</a>");
}

#[test]
fn error_of_a_badge_writer_is_returned() {
    let failing = || BadgeMarkup {
        experimental: Ok("<e/>".to_string()),
        non_standard: Err("no template".to_string()),
        deprecated: Err("never reached".to_string()),
    };
    let mut out = String::from("-");
    let done = render_internal_link(
        &mut out,
        "/x",
        None,
        "X",
        None,
        &with_badges(vec![Deprecated, NonStandard, Experimental], failing()),
    );
    assert_eq!(done, Err("no template".to_string()));
    assert_eq!(out, "-<a href=\"/x\">X</a><e/>");
    let mut out = String::new();
    let done =
        render_internal_link(&mut out, "/x", None, "X", None, &with_badges(vec![Experimental], failing()));
    assert_eq!(done, Ok(()));
    assert_eq!(out, "<a href=\"/x\">X</a><e/>");
    let mut out = String::new();
    let done =
        render_internal_link(&mut out, "/x", None, "X", None, &with_badges(vec![Deprecated], failing()));
    assert_eq!(done, Err("never reached".to_string()));
    assert_eq!(out, "<a href=\"/x\">X</a>");
}

#[test]
fn page_store_is_asked_for_the_url_without_anchor() {
    assert_eq!(page_to_ask("/Web/API#x", Some("fr"), "en-US"), Some("/fr/docs/Web/API".to_string()));
    assert_eq!(page_to_ask("/en-US/docs/Web#x#y", Some("fr"), "en-US"), Some("/en-US/docs/Web".to_string()));
    assert_eq!(page_to_ask("/Web/API", None, "en-US"), Some("/Web/API".to_string()));
    assert_eq!(page_to_ask("https://example.com/#x", Some("fr"), "en-US"), None);
    assert_eq!(page_to_ask("", None, "en-US"), None);
}

#[test]
fn link_is_written_by_way_of_its_page() {
    let found = page("/fr/docs/Web/HTML/Element/dialog", "fr", vec![Deprecated, Experimental]);
    let mut out = String::new();
    let done = render_link_via_page(
        &mut out,
        "/Web/HTML/Element/dialog#liens",
        Some("fr"),
        "en-US",
        None,
        true,
        Some("un \"titre\""),
        true,
        Some(&found),
    );
    assert_eq!(done, Ok(()));
    assert_eq!(
        out,
        "<a href=\"/fr/docs/Web/HTML/Element/dialog#see_also\" title=\"un &quot;titre&quot;\"><code>The &lt;dialog&gt; element</code></a><abbr class=\"icon icon-experimental\"></abbr><abbr class=\"icon icon-deprecated\"></abbr>"
    );
    // without badges, with content, without anchor, and a page of another locale
    let found = page("/en-US/docs/Web/HTML/Element/dialog", "en-US", vec![Deprecated]);
    let mut out = String::new();
    let done = render_link_via_page(
        &mut out,
        "/Web/HTML/Element/dialog#",
        Some("fr"),
        "en-US",
        Some("<dialog>"),
        false,
        None,
        false,
        Some(&found),
    );
    assert_eq!(done, Ok(()));
    assert_eq!(
        out,
        "<a href=\"/en-US/docs/Web/HTML/Element/dialog\" class=\"only-in-en-us\"><dialog></a>"
    );
    // the short title is shown where the page has one; no locale means the default one
    let mut found = page("/en-US/docs/Web/API/Window", "en-US", Vec::new());
    found.short_title = Some("Window & co".to_string());
    let mut out = String::new();
    let done =
        render_link_via_page(&mut out, "/en-US/docs/Web/API/Window", None, "en-US", None, false, None, true, Some(&found));
    assert_eq!(done, Ok(()));
    assert_eq!(out, "<a href=\"/en-US/docs/Web/API/Window\">Window &amp; co</a>");
}

#[test]
fn link_without_a_page_is_written_plainly() {
    let mut out = String::new();
    let done =
        render_link_via_page(&mut out, "/Web/Missing#x", Some("fr"), "en-US", None, false, None, true, None);
    assert_eq!(done, Ok(()));
    assert_eq!(out, "<a href=\"/fr/docs/Web/Missing#x\">/Missing#x</a>");
    // a link that cannot lead to a page of the site is never written by way of a page
    let found = page("/en-US/docs/Web", "en-US", vec![Deprecated]);
    let mut out = String::new();
    let done = render_link_via_page(
        &mut out,
        "https://example.com/a",
        Some("fr"),
        "en-US",
        None,
        true,
        None,
        true,
        Some(&found),
    );
    assert_eq!(done, Ok(()));
    assert_eq!(
        out,
        "<a href=\"https://example.com/a\"><code>https:&#x2F;&#x2F;example.com&#x2F;a</code></a>"
    );
}

#[test]
fn badge_error_comes_back_from_a_link_by_way_of_its_page() {
    let mut found = page("/en-US/docs/Web", "en-US", vec![NonStandard]);
    found.badge_markup.non_standard = Err("no template".to_string());
    let mut out = String::new();
    let done = render_link_via_page(&mut out, "/en-US/docs/Web", None, "en-US", Some("Web"), false, None, true, Some(&found));
    assert_eq!(done, Err("no template".to_string()));
    assert_eq!(out, "<a href=\"/en-US/docs/Web\">Web</a>");
    let mut out = String::new();
    let done = render_link_via_page(&mut out, "/en-US/docs/Web", None, "en-US", Some("Web"), false, None, false, Some(&found));
    assert_eq!(done, Ok(()));
    assert_eq!(out, "<a href=\"/en-US/docs/Web\">Web</a>");
}

#[test]
fn plain_link_shows_content_or_url() {
    let mut out = String::new();
    render_plain_link(&mut out, "/en-US/docs/Web/Missing", None, false, None);
    assert_eq!(out, "<a href=\"/en-US/docs/Web/Missing\">/Missing</a>");
    let mut out = String::new();
    render_plain_link(&mut out, "https://example.com/a?b=\"c\"", None, true, Some("t"));
    assert_eq!(
        out,
        "<a href=\"https://example.com/a?b=\"c\"\" title=\"t\"><code>https:&#x2F;&#x2F;example.com&#x2F;a?b=&quot;c&quot;</code></a>"
    );
    let mut out = String::new();
    render_plain_link(&mut out, "/x/y", Some("<y>"), false, None);
    assert_eq!(out, "<a href=\"/x/y\">&lt;y&gt;</a>");
    let mut out = String::new();
    render_plain_link(&mut out, "/", None, false, None);
    assert_eq!(out, "<a href=\"/\">/</a>");
}

#[test]
fn slugs_are_resolved_in_the_locale_of_the_page() {
    assert_eq!(resolve_link("/Web/API", Some("fr"), "en-US"), "/fr/docs/Web/API");
    assert_eq!(resolve_link("/en-US/docs/Web", Some("fr"), "en-US"), "/en-US/docs/Web");
    assert_eq!(resolve_link("/Web/API", None, "en-US"), "/Web/API");
    assert_eq!(resolve_link("https://example.com", Some("fr"), "en-US"), "https://example.com");
    assert_eq!(resolve_link("/", Some("de"), "en-US"), "/de/docs/");
    assert_eq!(resolve_link("", Some("de"), "en-US"), "");
}

#[test]
fn anchors_are_split_off() {
    assert_eq!(split_anchor("/a/b#c"), ("/a/b".to_string(), "c".to_string()));
    assert_eq!(split_anchor("/a/b#c#d"), ("/a/b".to_string(), "c#d".to_string()));
    assert_eq!(split_anchor("/a/b"), ("/a/b".to_string(), String::new()));
    assert_eq!(split_anchor("/a/b#"), ("/a/b".to_string(), String::new()));
    assert_eq!(split_anchor("#x"), (String::new(), "x".to_string()));
    assert_eq!(split_anchor(""), (String::new(), String::new()));
}

#[test]
fn urls_are_built_by_kind() {
    let url = |slug: &str, locale: &str, typ: PageCategory, spa: Option<&str>| {
        build_url(slug, locale, typ, spa).map_err(|e| (e.slug, e.category))
    };
    assert_eq!(url("Web/API", "en-US", PageCategory::Doc, None), Ok("/en-US/docs/Web/API".to_string()));
    assert_eq!(url("post", "en-US", PageCategory::BlogPost, None), Ok("/en-US/blog/post/".to_string()));
    assert_eq!(url("core", "fr", PageCategory::Curriculum, None), Ok("/fr/curriculum/core/".to_string()));
    assert_eq!(
        url("jane", "en-US", PageCategory::ContributorSpotlight, Some("/unread")),
        Ok("/en-US/community/spotlight/jane".to_string())
    );
    assert_eq!(url("about", "de", PageCategory::GenericPage, None), Ok("/de/about".to_string()));
    assert_eq!(url("play", "en-US", PageCategory::SPA, Some("/en-US/play")), Ok("/en-US/play".to_string()));
    assert_eq!(url("play", "en-US", PageCategory::SPA, None), Err(("play".to_string(), PageCategory::SPA)));
}

fn place(url: &str, locale: LocaleKind, store: StoreAnswer) -> Result<(String, String, PageCategory), UrlError> {
    url_path_to_path_buf(url, locale, store).map(|found| (found.path, found.slug, found.category))
}

#[test]
fn page_of_a_url_path_is_located() {
    let at = |path: &str, slug: &str, category: PageCategory| Ok((path.to_string(), slug.to_string(), category));
    assert_eq!(
        place("/en-US/docs/Web/HTML", LocaleKind::Default, StoreAnswer::Neither),
        at("web/html", "Web/HTML", PageCategory::Doc)
    );
    assert_eq!(
        place("/fr/docs/Web/API/Foo::bar?*#anchor", LocaleKind::Other, StoreAnswer::Spa),
        at("web/api/foo_doublecolon_bar_question__star_", "Web/API/Foo::bar?*", PageCategory::Doc)
    );
    assert_eq!(place("/en-US/blog/", LocaleKind::Default, StoreAnswer::Neither), at("blog", "blog", PageCategory::SPA));
    assert_eq!(
        place("/en-US/blog/a-post/", LocaleKind::Default, StoreAnswer::Neither),
        at("a-post/", "a-post/", PageCategory::BlogPost)
    );
    assert_eq!(place("/en-US/play", LocaleKind::Default, StoreAnswer::Spa), at("play", "play", PageCategory::SPA));
    assert_eq!(
        place("/de/About/Us", LocaleKind::Other, StoreAnswer::Generic),
        at("about/us", "About/Us", PageCategory::GenericPage)
    );
    assert_eq!(place("/de/about", LocaleKind::Other, StoreAnswer::Neither), Err(UrlError::InvalidUrl));
    assert_eq!(place("/fr/blog/a-post/", LocaleKind::Other, StoreAnswer::Neither), Err(UrlError::InvalidUrl));
    assert_eq!(place("/en-US/community/other", LocaleKind::Default, StoreAnswer::Spa), Err(UrlError::InvalidUrl));
    assert_eq!(place("/xx/docs/Web", LocaleKind::Unknown, StoreAnswer::Spa), Err(UrlError::Locale));
    assert_eq!(slug_to_ask("/de/About/Us"), "About/Us");
    assert_eq!(slug_to_ask("/en-US"), "");
    assert_eq!(slug_to_ask("x/y"), "x/y");
}

fn kind(url: &str, default_locale: bool) -> (String, String) {
    let (locale, following) = url_segments(url);
    let what = match classify_url(&following, url, default_locale) {
        UrlKind::Page { category, slug } => format!("{category:?} {slug}"),
        UrlKind::Ask { slug } => format!("ask {slug}"),
        UrlKind::Invalid => "invalid".to_string(),
    };
    (locale, what)
}

#[test]
fn url_of_a_document_names_locale_and_slug() {
    let url = "/en-US/docs/Web/HTML";
    let (locale, following) = url_segments(url);
    assert_eq!(locale, "en-US");
    assert_eq!(following, vec!["docs".to_string(), "Web/HTML".to_string()]);
    match classify_url(&following, url, true) {
        UrlKind::Page { category, slug } => {
            assert_eq!(category, PageCategory::Doc);
            assert_eq!(slug, "Web/HTML");
            assert_eq!(url_to_path_buf(&slug), "web/html");
        },
        _ => panic!("the URL names a document"),
    }
}

#[test]
fn locale_is_split_from_a_url() {
    let url = "/en-US/docs/Web";
    let (locale, rest) = split_first_segment(url).unwrap();
    assert_eq!(locale, "en-US");
    assert_eq!(rest, "/docs/Web");
}

#[test]
fn urls_are_classified() {
    let k = |locale: &str, what: &str| (locale.to_string(), what.to_string());
    assert_eq!(kind("/fr/docs/Web/API#anchor", false), k("fr", "Doc Web/API"));
    assert_eq!(kind("/en-US/blog", true), k("en-US", "SPA blog"));
    assert_eq!(kind("/en-US/blog/", true), k("en-US", "SPA blog"));
    assert_eq!(kind("/en-US/blog/a-post/", true), k("en-US", "BlogPost a-post/"));
    assert_eq!(kind("/fr/blog/a-post/", false), k("fr", "ask blog/a-post/"));
    assert_eq!(kind("/en-US/curriculum/core/", true), k("en-US", "Curriculum core/"));
    assert_eq!(
        kind("/en-US/community/spotlight/jane", true),
        k("en-US", "ContributorSpotlight spotlight/jane")
    );
    assert_eq!(kind("/en-US/community/other", true), k("en-US", "invalid"));
    assert_eq!(kind("/fr/community/spotlight/jane", false), k("fr", "invalid"));
    assert_eq!(kind("/en-US/community", true), k("en-US", "invalid"));
    assert_eq!(kind("/en-US/play", true), k("en-US", "ask play"));
    assert_eq!(kind("/en-US/docs", true), k("en-US", "ask docs"));
    assert_eq!(kind("/en-US", true), k("en-US", "ask "));
    assert_eq!(kind("/", true), k("", "ask "));
    assert_eq!(kind("", true), k("", "ask "));
    assert_eq!(kind("en-US/docs/x", true), k("docs", "ask en-US/docs/x"));
}

#[test]
fn folder_of_a_slug_holds_no_reserved_character() {
    assert_eq!(url_to_path_buf("A*B:C?D::E"), "a_star_b_colon_c_question_d_doublecolon_e");
    assert_eq!(url_to_path_buf("Web/API/Foo:::bar"), "web/api/foo_doublecolon__colon_bar");
    assert_eq!(url_to_path_buf("AZ az @[`{ 09"), "az az @[`{ 09");
    assert_eq!(url_to_path_buf(""), "");
    let folder = url_to_path_buf("Web/CSS/::Before?*:Z");
    assert!(!folder.contains(['*', ':', '?']));
    assert!(!folder.chars().any(|c| c.is_ascii_uppercase()));
}
