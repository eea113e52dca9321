//! The canonical form of an HTML fragment: what is left of it once the
//! differences that do not change its meaning are taken out.
use vstd::prelude::*;
use crate::options::{DiffError, DiffOptions};
use crate::text::{
    chars_of, first_visible, first_visible_char, last_visible, last_visible_char, lowercase,
    string_of,
};
use lol_html::html_content::Element;
use lol_html::{rewrite_str, ElementContentHandlers, RewriteStrSettings, Selector};
use std::borrow::Cow;

verus! {

/// `regex::Error`: why a pattern was not accepted. Nothing is read from it.
#[verifier::external_type_specification]
#[verifier::external_body]
pub struct ExRegexError(regex::Error);

/// `html_minifier::HTMLMinifierError`: why markup could not be minified.
/// Nothing is read from it.
#[verifier::external_type_specification]
#[verifier::external_body]
pub struct ExMinifierError(html_minifier::HTMLMinifierError);

/// White space right after the `>` that ends a tag, or right before the
/// `</` that begins a closing tag.
pub const WS_PATTERN: &'static str = "(?<x>>)[\\n ]+|[\\n ]+(?<y></)";

/// What a match of [`WS_PATTERN`] is replaced by: the `>` or `</` alone.
pub const WS_REPLACEMENT: &'static str = "$x$y";

/// A paragraph that holds nothing but white space.
pub const EMPTY_P_PATTERN: &'static str = "<p>[\\n ]*</p>";

/// Whether the `regex` crate accepts the pattern.
pub uninterp spec fn regex_valid(pattern: Seq<char>) -> bool;

/// What `Regex::replace_all` returns for a pattern that the crate accepts:
/// the text with each match, taken from the left and without overlap,
/// replaced by the expansion of `rep`.
pub uninterp spec fn regex_replaced(pattern: Seq<char>, text: Seq<char>, rep: Seq<char>) -> Seq<
    char,
>;

/// Compiles the pattern with `Regex::new` and calls `Regex::replace_all`.
/// Claimed: it fails where the pattern is not accepted, and only there, and
/// the result depends on pattern, text and replacement alone.
#[verifier::external_body]
fn regex_replace_all(pattern: &str, text: &str, rep: &str) -> (out: Result<String, regex::Error>)
    ensures
        out is Ok <==> regex_valid(pattern@),
        out matches Ok(s) ==> s@ == regex_replaced(pattern@, text@, rep@),
{
    Ok(regex::Regex::new(pattern)?.replace_all(text, rep).into_owned())
}

/// What a rule does to the elements that its selector matches.
#[derive(Clone, Copy, Debug, PartialEq, Eq, Structural)]
pub enum Action {
    /// Remove the attribute.
    RemoveAttribute,
    /// Write the value of the attribute in lowercase.
    LowercaseAttribute,
    /// Remove the tags of the element and keep what it holds.
    Unwrap,
}

/// One rule of the rewriting step: a CSS selector and what is done to the
/// elements that it matches.
pub struct RewriteRule {
    pub selector: String,
    /// The attribute that the action speaks of; empty for [`Action::Unwrap`].
    pub attribute: String,
    pub action: Action,
}

/// The mathematical value of a [`RewriteRule`].
pub struct RuleView {
    pub selector: Seq<char>,
    pub attribute: Seq<char>,
    pub action: Action,
}

impl View for RewriteRule {
    type V = RuleView;

    open spec fn view(&self) -> RuleView {
        RuleView { selector: self.selector@, attribute: self.attribute@, action: self.action }
    }
}

/// The rules of a list, as mathematical values.
pub open spec fn rules_view(rules: Seq<RewriteRule>) -> Seq<RuleView> {
    Seq::new(rules.len(), |i: int| rules[i]@)
}

/// What `lol_html::rewrite_str` returns for a fragment when each rule is
/// handed to it as an element handler, in the order of the list; `None`
/// where a selector is not accepted or the rewriter fails.
pub uninterp spec fn html_rewritten(text: Seq<char>, rules: Seq<RuleView>) -> Option<Seq<char>>;

/// What `html_minifier::minify` returns for a fragment; `None` where it
/// fails.
pub uninterp spec fn html_minified(text: Seq<char>) -> Option<Seq<char>>;

/// Parses each selector, makes of each rule an element handler, and calls
/// `lol_html::rewrite_str` with the handlers in the order of the rules. The
/// handler of a rule calls `Element::remove_attribute` to remove its
/// attribute, `Element::set_attribute` with the lowercase of what
/// `Element::get_attribute` gives (the empty text for an attribute that is
/// not there) to write it in lowercase, and
/// `Element::remove_and_keep_content` to unwrap. Claimed: whether there is
/// a result, and which, depends on the fragment and the rules alone.
#[verifier::external_body]
fn rewrite(text: &str, rules: &Vec<RewriteRule>) -> (out: Option<String>)
    ensures
        out is Some <==> html_rewritten(text@, rules_view(rules@)) is Some,
        out matches Some(s) ==> html_rewritten(text@, rules_view(rules@)) == Some(s@),
{
    let mut handlers = Vec::new();
    for rule in rules.iter() {
        let selector = rule.selector.parse::<Selector>().ok()?;
        let handler = move |el: &mut Element| {
            let name = rule.attribute.as_str();
            match rule.action {
                Action::RemoveAttribute => el.remove_attribute(name),
                Action::LowercaseAttribute => el.set_attribute(name, &lowercase(&el.get_attribute(name).unwrap_or_default()))?,
                Action::Unwrap => el.remove_and_keep_content(),
            }
            Ok(())
        };
        handlers.push((Cow::Owned(selector), ElementContentHandlers::default().element(handler)));
    }
    rewrite_str(text, RewriteStrSettings { element_content_handlers: handlers, ..RewriteStrSettings::new() }).ok()
}

/// Calls `html_minifier::minify`. Claimed: whether it succeeds, and with
/// what, depends on the fragment alone.
#[verifier::external_body]
fn minify(text: &str) -> (out: Result<String, html_minifier::HTMLMinifierError>)
    ensures
        out is Ok <==> html_minified(text@) is Some,
        out matches Ok(s) ==> html_minified(text@) == Some(s@),
{
    html_minifier::minify(text)
}

/// Whether a text looks like an HTML fragment: white space aside, it begins
/// with `<` and ends with `>`.
pub open spec fn looks_like_html(s: Seq<char>) -> bool {
    first_visible(s) == Some('<') && last_visible(s) == Some('>')
}

/// Whether a text looks like an HTML fragment.
pub fn is_html(s: &str) -> (r: bool)
    ensures
        r == looks_like_html(s@),
{
    let chars = chars_of(s);
    is_html_chars(&chars)
}

/// Whether a text looks like an HTML fragment.
pub fn is_html_chars(chars: &Vec<char>) -> (r: bool)
    ensures
        r == looks_like_html(chars@),
{
    let first = first_visible_char(chars);
    let last = last_visible_char(chars);
    match (first, last) {
        (Some(a), Some(b)) => a == '<' && b == '>',
        _ => false,
    }
}

/// One rule as a mathematical value.
pub open spec fn rule(selector: Seq<char>, attribute: Seq<char>, action: Action) -> RuleView {
    RuleView { selector, attribute, action }
}

/// The rules that are applied whatever the options: the attributes that
/// record flaws of the build and the class that marks a missing page are
/// removed, ids are written in lowercase, and note cards, example headers
/// and code examples lose theirs. The rules for one element are carried
/// out in this order, so an id that is removed is not written again.
pub open spec fn base_rules() -> Seq<RuleView> {
    seq![
        rule("*[data-flaw-src]"@, "data-flaw-src"@, Action::RemoveAttribute),
        rule("*[data-flaw]"@, "data-flaw"@, Action::RemoveAttribute),
        rule("*.page-not-created"@, "class"@, Action::RemoveAttribute),
        rule("*[id]"@, "id"@, Action::LowercaseAttribute),
        rule(
            "div.notecard, div.example-header, div.code-example"@,
            "id"@,
            Action::RemoveAttribute,
        ),
    ]
}

/// The rule that drops paragraph tags, where the options ask for it.
pub open spec fn paragraph_rules(options: DiffOptions) -> Seq<RuleView> {
    if options.ignore_ps {
        seq![rule("p"@, ""@, Action::Unwrap)]
    } else {
        Seq::empty()
    }
}

/// The rules for definition terms, unless the options ask to check them:
/// a term loses its id, and an anchor in it that points into the page is
/// replaced by what it holds.
pub open spec fn term_rules(options: DiffOptions) -> Seq<RuleView> {
    if options.check_dts {
        Seq::empty()
    } else {
        seq![
            rule("dt"@, "id"@, Action::RemoveAttribute),
            rule("dt > a[href^=\"#\"]"@, ""@, Action::Unwrap),
        ]
    }
}

/// The rules of the rewriting step for the given options, in their order.
pub open spec fn massaging_rules(options: DiffOptions) -> Seq<RuleView> {
    base_rules() + paragraph_rules(options) + term_rules(options)
}

fn push_rule(rules: &mut Vec<RewriteRule>, selector: &str, attribute: &str, action: Action)
    ensures
        rules_view(final(rules)@) == rules_view(old(rules)@).push(
            rule(selector@, attribute@, action),
        ),
{
    rules.push(
        RewriteRule {
            selector: String::from_str(selector),
            attribute: String::from_str(attribute),
            action,
        },
    );
    proof {
        assert(rules_view(rules@) =~= rules_view(old(rules)@).push(
            rule(selector@, attribute@, action),
        ));
    }
}

/// The rules by which a fragment is cleaned before it is minified and
/// compared.
pub fn pre_diff_element_massaging_handlers(args: &DiffOptions) -> (rules: Vec<RewriteRule>)
    ensures
        rules_view(rules@) == massaging_rules(*args),
{
    let mut rules: Vec<RewriteRule> = Vec::new();
    proof {
        assert(rules_view(rules@) =~= Seq::<RuleView>::empty());
    }
    push_rule(&mut rules, "*[data-flaw-src]", "data-flaw-src", Action::RemoveAttribute);
    push_rule(&mut rules, "*[data-flaw]", "data-flaw", Action::RemoveAttribute);
    push_rule(&mut rules, "*.page-not-created", "class", Action::RemoveAttribute);
    push_rule(&mut rules, "*[id]", "id", Action::LowercaseAttribute);
    push_rule(
        &mut rules,
        "div.notecard, div.example-header, div.code-example",
        "id",
        Action::RemoveAttribute,
    );
    proof {
        assert(rules_view(rules@) =~= base_rules());
    }
    if args.ignore_ps {
        push_rule(&mut rules, "p", "", Action::Unwrap);
    }
    proof {
        assert(rules_view(rules@) =~= base_rules() + paragraph_rules(*args));
    }
    if !args.check_dts {
        push_rule(&mut rules, "dt", "id", Action::RemoveAttribute);
        push_rule(&mut rules, "dt > a[href^=\"#\"]", "", Action::Unwrap);
    }
    proof {
        assert(rules_view(rules@) =~= massaging_rules(*args));
    }
    rules
}

/// Whether a line break belongs between two neighbouring characters: the
/// first ends a tag or the second begins one, and neither is a line break.
pub open spec fn breaks_between(c: char, d: char) -> bool {
    c != '\n' && d != '\n' && (c == '>' || d == '<')
}

/// The fragment with every tag and every run of text on lines of their own.
pub open spec fn broken_lines(s: Seq<char>) -> Seq<char>
    decreases s.len(),
{
    if s.len() <= 1 {
        s
    } else if breaks_between(s[0], s[1]) {
        seq![s[0], '\n'] + broken_lines(s.skip(1))
    } else {
        seq![s[0]] + broken_lines(s.skip(1))
    }
}

/// Puts every tag and every run of text of a fragment on lines of their
/// own, so that a difference shows on the line where it is.
pub fn fmt_html(html: &str) -> (out: String)
    ensures
        out@ == broken_lines(html@),
{
    let s = chars_of(html);
    let mut out: Vec<char> = Vec::new();
    let mut i: usize = 0;
    proof {
        assert(s@.skip(0) == s@);
        assert(Seq::<char>::empty() + broken_lines(s@) == broken_lines(s@));
    }
    while i < s.len()
        invariant
            i <= s.len(),
            out@ + broken_lines(s@.skip(i as int)) == broken_lines(s@),
        decreases s.len() - i,
    {
        let ghost rest = s@.skip(i as int);
        let ghost before = out@;
        proof {
            assert(rest[0] == s@[i as int]);
            assert(rest.skip(1) == s@.skip(i + 1));
        }
        out.push(s[i]);
        if i + 1 < s.len() {
            proof {
                assert(rest[1] == s@[i + 1]);
            }
            let c = s[i];
            let d = s[i + 1];
            if c != '\n' && d != '\n' && (c == '>' || d == '<') {
                out.push('\n');
                proof {
                    assert(out@ + broken_lines(s@.skip(i + 1)) == before + (seq![rest[0], '\n']
                        + broken_lines(rest.skip(1))));
                }
            } else {
                proof {
                    assert(out@ + broken_lines(s@.skip(i + 1)) == before + (seq![rest[0]]
                        + broken_lines(rest.skip(1))));
                }
            }
        } else {
            proof {
                assert(rest =~= seq![s@[i as int]]);
                assert(s@.skip(i + 1).len() == 0);
                assert(out@ + broken_lines(s@.skip(i + 1)) == before + rest);
            }
        }
        i = i + 1;
    }
    proof {
        assert(s@.skip(s@.len() as int).len() == 0);
        assert(out@ + Seq::<char>::empty() == out@);
    }
    string_of(&out)
}

/// The fragment without the white space right inside its tags.
pub open spec fn tag_space_collapsed(text: Seq<char>) -> Result<Seq<char>, DiffError> {
    if regex_valid(WS_PATTERN@) {
        Ok(regex_replaced(WS_PATTERN@, text, WS_REPLACEMENT@))
    } else {
        Err(DiffError::Pattern)
    }
}

/// The fragment without its empty paragraphs.
pub open spec fn empty_paragraphs_removed(text: Seq<char>) -> Result<Seq<char>, DiffError> {
    if regex_valid(EMPTY_P_PATTERN@) {
        Ok(regex_replaced(EMPTY_P_PATTERN@, text, ""@))
    } else {
        Err(DiffError::Pattern)
    }
}

/// The canonical form of a fragment, step by step: white space right inside
/// tags goes, empty paragraphs go, the rules of the options are applied, the
/// markup is minified, and the result is laid out one tag to a line. The
/// first step that fails gives the error.
pub open spec fn canonical_html(text: Seq<char>, options: DiffOptions) -> Result<
    Seq<char>,
    DiffError,
> {
    match tag_space_collapsed(text) {
        Err(e) => Err(e),
        Ok(collapsed) => match empty_paragraphs_removed(collapsed) {
            Err(e) => Err(e),
            Ok(trimmed) => match html_rewritten(trimmed, massaging_rules(options)) {
                None => Err(DiffError::Rewrite),
                Some(rewritten) => match html_minified(rewritten) {
                    None => Err(DiffError::Minify),
                    Some(minified) => Ok(broken_lines(minified)),
                },
            },
        },
    }
}

/// Whether a result holds the text that a specification gives.
pub open spec fn gives(out: Result<String, DiffError>, wanted: Result<Seq<char>, DiffError>) -> bool {
    match out {
        Ok(s) => wanted == Ok::<Seq<char>, DiffError>(s@),
        Err(e) => wanted == Err::<Seq<char>, DiffError>(e),
    }
}

/// Removes the white space right after the `>` of a tag and right before
/// the `</` of a closing tag.
pub fn collapse_tag_space(text: &str) -> (out: Result<String, DiffError>)
    ensures
        gives(out, tag_space_collapsed(text@)),
{
    match regex_replace_all(WS_PATTERN, text, WS_REPLACEMENT) {
        Ok(s) => Ok(s),
        Err(_) => Err(DiffError::Pattern),
    }
}

/// Removes the paragraphs that hold nothing but white space.
pub fn remove_empty_paragraphs(text: &str) -> (out: Result<String, DiffError>)
    ensures
        gives(out, empty_paragraphs_removed(text@)),
{
    match regex_replace_all(EMPTY_P_PATTERN, text, "") {
        Ok(s) => Ok(s),
        Err(_) => Err(DiffError::Pattern),
    }
}

/// Brings an HTML fragment into its canonical form.
pub fn canonicalize(text: &str, options: &DiffOptions) -> (out: Result<String, DiffError>)
    ensures
        gives(out, canonical_html(text@, *options)),
{
    let collapsed = match collapse_tag_space(text) {
        Ok(s) => s,
        Err(e) => {
            return Err(e);
        },
    };
    let trimmed = match remove_empty_paragraphs(collapsed.as_str()) {
        Ok(s) => s,
        Err(e) => {
            return Err(e);
        },
    };
    let rules = pre_diff_element_massaging_handlers(options);
    let rewritten = match rewrite(trimmed.as_str(), &rules) {
        Some(s) => s,
        None => {
            return Err(DiffError::Rewrite);
        },
    };
    let minified = match minify(rewritten.as_str()) {
        Ok(s) => s,
        Err(_) => {
            return Err(DiffError::Minify);
        },
    };
    Ok(fmt_html(minified.as_str()))
}

/// The fragment without the white space right inside its tags, minified.
pub open spec fn squeezed(text: Seq<char>) -> Result<Seq<char>, DiffError> {
    match tag_space_collapsed(text) {
        Err(e) => Err(e),
        Ok(collapsed) => match html_minified(collapsed) {
            None => Err(DiffError::Minify),
            Some(minified) => Ok(minified),
        },
    }
}

/// Removes the white space right inside the tags of a fragment and
/// minifies it: the form in which whole documents are compared as markup.
pub fn squeeze(text: &str) -> (out: Result<String, DiffError>)
    ensures
        gives(out, squeezed(text@)),
{
    let collapsed = match collapse_tag_space(text) {
        Ok(s) => s,
        Err(e) => {
            return Err(e);
        },
    };
    match minify(collapsed.as_str()) {
        Ok(s) => Ok(s),
        Err(_) => Err(DiffError::Minify),
    }
}

} // verus!
