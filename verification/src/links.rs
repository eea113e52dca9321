//! Links to pages, written as markup.
use vstd::prelude::*;
use crate::report::position_of;
use crate::text::{append, append_str, chars_of, same_text, starts_with, string_of};

verus! {

/// What `html_escape::decode_html_entities` makes of a text: the text with
/// its character references replaced by the characters that they name.
pub uninterp spec fn entities_decoded(s: Seq<char>) -> Seq<char>;

/// How a character is written in markup: the characters that markup
/// reserves as character references, the slash too where `slash` holds, and
/// every other character as it is.
pub open spec fn escaped_char(c: char, slash: bool) -> Seq<char> {
    if c == '&' {
        "&amp;"@
    } else if c == '<' {
        "&lt;"@
    } else if c == '>' {
        "&gt;"@
    } else if c == '"' {
        "&quot;"@
    } else if c == '\'' {
        "&#x27;"@
    } else if c == '/' && slash {
        "&#x2F;"@
    } else {
        seq![c]
    }
}

/// A text with each of its characters written as markup writes it.
pub open spec fn escaped(s: Seq<char>, slash: bool) -> Seq<char>
    decreases s.len(),
{
    if s.len() == 0 {
        Seq::empty()
    } else {
        escaped_char(s[0], slash) + escaped(s.skip(1), slash)
    }
}

/// Calls `html_escape::encode_quoted_attribute`. Claimed, as its
/// documentation says: `&`, `<`, `>`, `"` and `'` are written as character
/// references, every other character as it is.
#[verifier::external_body]
fn encode_quoted_attribute(s: &str) -> (out: String)
    ensures
        out@ == escaped(s@, false),
{
    html_escape::encode_quoted_attribute(s).into_owned()
}

/// Calls `html_escape::encode_safe`. Claimed, as its documentation says:
/// `&`, `<`, `>`, `"`, `'` and `/` are written as character references,
/// every other character as it is.
#[verifier::external_body]
fn encode_safe(s: &str) -> (out: String)
    ensures
        out@ == escaped(s@, true),
{
    html_escape::encode_safe(s).into_owned()
}

/// Calls `html_escape::decode_html_entities`. Claimed: the result depends
/// on the text alone.
#[verifier::external_body]
fn decode_html_entities(s: &str) -> (out: String)
    ensures
        out@ == entities_decoded(s@),
{
    html_escape::decode_html_entities(s).into_owned()
}

/// A status of a feature that a badge behind a link shows.
#[derive(Clone, Copy, Debug, PartialEq, Eq, Structural)]
pub enum FeatureStatus {
    Experimental,
    NonStandard,
    Deprecated,
}

/// The markup of the badges, as the badge writers give it in the locale in
/// which the badges are read: for each status the markup, or the error with
/// which its writer failed.
pub struct BadgeMarkup {
    pub experimental: Result<String, String>,
    pub non_standard: Result<String, String>,
    pub deprecated: Result<String, String>,
}

/// How a link to a page is written.
pub struct LinkModifier {
    /// The statuses of the page, of which each is shown by a badge.
    pub badges: Vec<FeatureStatus>,
    /// The markup of the badges.
    pub badge_markup: BadgeMarkup,
    /// Whether what the link shows is code.
    pub code: bool,
    /// Whether the page exists in the default locale only.
    pub only_en_us: bool,
}

/// The text of a title as a link shows it: character references are
/// resolved, and what markup reserves is written as character references.
pub open spec fn shown_title(title: Seq<char>) -> Seq<char> {
    escaped(entities_decoded(title), true)
}

/// The text of a title as a link shows it.
pub fn link_content(title: &str) -> (out: String)
    ensures
        out@ == shown_title(title@),
{
    let decoded = decode_html_entities(title);
    encode_safe(decoded.as_str())
}

/// The view of a text that may be absent.
pub open spec fn text_view(s: Option<&str>) -> Option<Seq<char>> {
    match s {
        Some(s) => Some(s@),
        None => None,
    }
}

/// What stands at the place of something that may be absent.
pub open spec fn or_nothing(present: bool, s: Seq<char>) -> Seq<char> {
    if present {
        s
    } else {
        Seq::empty()
    }
}

/// The markup of a link to a page: the anchor element with the URL, the
/// id of the anchor behind a `#` where there is one, the title as an attribute where
/// there is one, the class that marks a page of the default locale only,
/// and what the link shows, as code where that is asked for.
pub open spec fn internal_link(
    url: Seq<char>,
    anchor: Option<Seq<char>>,
    content: Seq<char>,
    title: Option<Seq<char>>,
    code: bool,
    only_en_us: bool,
) -> Seq<char> {
    "<a href=\""@ + url + (match anchor {
        Some(anchor) => "#"@ + anchor,
        None => Seq::empty(),
    }) + (match title {
        Some(title) => "\" title=\""@ + escaped(title, false),
        None => Seq::empty(),
    }) + or_nothing(only_en_us, "\" class=\"only-in-en-us"@) + "\">"@ + or_nothing(
        code,
        "<code>"@,
    ) + content + or_nothing(code, "</code>"@) + "</a>"@
}

/// Whether the list holds the status.
pub open spec fn has_status(badges: Seq<FeatureStatus>, status: FeatureStatus) -> bool {
    exists|i: int| 0 <= i < badges.len() && #[trigger] badges[i] == status
}

/// The statuses whose badges stand behind a link, in the order in which
/// they are written: experimental, non-standard, deprecated, each where
/// the page has it.
pub open spec fn ordered_badges(badges: Seq<FeatureStatus>) -> Seq<FeatureStatus> {
    (if has_status(badges, FeatureStatus::Experimental) {
        seq![FeatureStatus::Experimental]
    } else {
        Seq::empty()
    }) + (if has_status(badges, FeatureStatus::NonStandard) {
        seq![FeatureStatus::NonStandard]
    } else {
        Seq::empty()
    }) + (if has_status(badges, FeatureStatus::Deprecated) {
        seq![FeatureStatus::Deprecated]
    } else {
        Seq::empty()
    })
}

fn holds_status(badges: &Vec<FeatureStatus>, status: FeatureStatus) -> (r: bool)
    ensures
        r == has_status(badges@, status),
{
    let mut i: usize = 0;
    while i < badges.len()
        invariant
            i <= badges.len(),
            forall|j: int| 0 <= j < i ==> badges@[j] != status,
        decreases badges.len() - i,
    {
        if badges[i] == status {
            return true;
        }
        i = i + 1;
    }
    false
}

/// The statuses whose badges stand behind a link, in the order in which
/// they are written.
pub fn badges_in_order(badges: &Vec<FeatureStatus>) -> (out: Vec<FeatureStatus>)
    ensures
        out@ == ordered_badges(badges@),
{
    let mut out: Vec<FeatureStatus> = Vec::new();
    if holds_status(badges, FeatureStatus::Experimental) {
        out.push(FeatureStatus::Experimental);
    }
    if holds_status(badges, FeatureStatus::NonStandard) {
        out.push(FeatureStatus::NonStandard);
    }
    if holds_status(badges, FeatureStatus::Deprecated) {
        out.push(FeatureStatus::Deprecated);
    }
    proof {
        assert(out@ =~= ordered_badges(badges@));
    }
    out
}

/// The markup of the badge of a status, or the error of its writer.
pub open spec fn badge_of(markup: BadgeMarkup, status: FeatureStatus) -> Result<
    Seq<char>,
    Seq<char>,
> {
    let given = match status {
        FeatureStatus::Experimental => markup.experimental,
        FeatureStatus::NonStandard => markup.non_standard,
        FeatureStatus::Deprecated => markup.deprecated,
    };
    match given {
        Ok(text) => Ok(text@),
        Err(error) => Err(error@),
    }
}

/// What writing badges leaves: the markup that was written, and the error
/// that ended the writing, if one did.
pub struct Written {
    pub text: Seq<char>,
    pub error: Option<Seq<char>>,
}

/// What writing the badges of the statuses leaves, one behind the other:
/// the markup of each, up to the first whose writer failed.
pub open spec fn badges_written(order: Seq<FeatureStatus>, markup: BadgeMarkup) -> Written
    decreases order.len(),
{
    if order.len() == 0 {
        Written { text: Seq::empty(), error: None }
    } else {
        match badge_of(markup, order[0]) {
            Ok(text) => {
                let rest = badges_written(order.skip(1), markup);
                Written { text: text + rest.text, error: rest.error }
            },
            Err(error) => Written { text: Seq::empty(), error: Some(error) },
        }
    }
}

/// What stands behind a link to a page: the badges of the statuses that the
/// page has, the experimental one first, then the non-standard one, then
/// the deprecated one, each once.
pub open spec fn link_badges(badges: Seq<FeatureStatus>, markup: BadgeMarkup) -> Written {
    badges_written(ordered_badges(badges), markup)
}

fn write_anchor(
    out: &mut Vec<char>,
    url: &str,
    anchor: Option<&str>,
    content: &str,
    title: Option<&str>,
    code: bool,
    only_en_us: bool,
)
    ensures
        final(out)@ == old(out)@ + internal_link(
            url@,
            text_view(anchor),
            content@,
            text_view(title),
            code,
            only_en_us,
        ),
{
    let mut link: Vec<char> = Vec::new();
    append_str(&mut link, "<a href=\"");
    append_str(&mut link, url);
    match anchor {
        Some(anchor) => {
            append_str(&mut link, "#");
            append_str(&mut link, anchor);
        },
        None => {},
    }
    let ghost with_anchor = link@;
    match title {
        Some(title) => {
            append_str(&mut link, "\" title=\"");
            let quoted = encode_quoted_attribute(title);
            append_str(&mut link, quoted.as_str());
        },
        None => {},
    }
    let ghost with_title = link@;
    if only_en_us {
        append_str(&mut link, "\" class=\"only-in-en-us");
    }
    append_str(&mut link, "\">");
    if code {
        append_str(&mut link, "<code>");
    }
    append_str(&mut link, content);
    if code {
        append_str(&mut link, "</code>");
    }
    append_str(&mut link, "</a>");
    proof {
        let a = match text_view(anchor) {
            Some(anchor) => "#"@ + anchor,
            None => Seq::<char>::empty(),
        };
        let t = match text_view(title) {
            Some(title) => "\" title=\""@ + escaped(title, false),
            None => Seq::<char>::empty(),
        };
        assert(with_anchor =~= "<a href=\""@ + url@ + a);
        assert(with_title =~= with_anchor + t);
        assert(link@ =~= internal_link(
            url@,
            text_view(anchor),
            content@,
            text_view(title),
            code,
            only_en_us,
        ));
    }
    append(out, &link);
}

fn write_badges(out: &mut Vec<char>, badges: &Vec<FeatureStatus>, markup: &BadgeMarkup) -> (r: Result<
    (),
    String,
>)
    ensures
        final(out)@ == old(out)@ + link_badges(badges@, *markup).text,
        match r {
            Ok(_) => link_badges(badges@, *markup).error is None,
            Err(error) => link_badges(badges@, *markup).error == Some(error@),
        },
{
    let order = badges_in_order(badges);
    let ghost all = badges_written(order@, *markup);
    let ghost start = out@;
    let mut i: usize = 0;
    proof {
        assert(order@.skip(0) == order@);
        assert(start.skip(start.len() as int) =~= Seq::<char>::empty());
        assert(Seq::<char>::empty() + all.text =~= all.text);
    }
    while i < order.len()
        invariant
            i <= order.len(),
            start == old(out)@,
            order@ == ordered_badges(badges@),
            all == badges_written(order@, *markup),
            start.len() <= out@.len(),
            out@.take(start.len() as int) == start,
            all.text == out@.skip(start.len() as int) + badges_written(
                order@.skip(i as int),
                *markup,
            ).text,
            all.error == badges_written(order@.skip(i as int), *markup).error,
        decreases order.len() - i,
    {
        let ghost rest = order@.skip(i as int);
        let ghost before = out@;
        proof {
            assert(rest[0] == order@[i as int]);
            assert(rest.skip(1) == order@.skip(i + 1));
        }
        let given = match order[i] {
            FeatureStatus::Experimental => &markup.experimental,
            FeatureStatus::NonStandard => &markup.non_standard,
            FeatureStatus::Deprecated => &markup.deprecated,
        };
        match given {
            Ok(text) => {
                append_str(out, text.as_str());
                proof {
                    assert(out@.skip(start.len() as int) =~= before.skip(start.len() as int)
                        + text@);
                    assert(out@.take(start.len() as int) =~= before.take(start.len() as int));
                    assert(all.text =~= out@.skip(start.len() as int) + badges_written(
                        order@.skip(i + 1),
                        *markup,
                    ).text);
                }
            },
            Err(error) => {
                proof {
                    assert(out@ =~= start + out@.skip(start.len() as int));
                    assert(all.text =~= out@.skip(start.len() as int));
                }
                return Err(error.clone());
            },
        }
        i = i + 1;
    }
    proof {
        assert(order@.skip(order@.len() as int).len() == 0);
        assert(out@ =~= start + out@.skip(start.len() as int));
        assert(all.text =~= out@.skip(start.len() as int));
    }
    Ok(())
}

fn write_link(
    out: &mut String,
    url: &str,
    anchor: Option<&str>,
    content: &str,
    title: Option<&str>,
    code: bool,
    only_en_us: bool,
    badges: &Vec<FeatureStatus>,
    markup: &BadgeMarkup,
) -> (r: Result<(), String>)
    ensures
        final(out)@ == old(out)@ + internal_link(
            url@,
            text_view(anchor),
            content@,
            text_view(title),
            code,
            only_en_us,
        ) + link_badges(badges@, *markup).text,
        match r {
            Ok(_) => link_badges(badges@, *markup).error is None,
            Err(error) => link_badges(badges@, *markup).error == Some(error@),
        },
{
    let mut link: Vec<char> = Vec::new();
    write_anchor(&mut link, url, anchor, content, title, code, only_en_us);
    let written = write_badges(&mut link, badges, markup);
    let text = string_of(&link);
    out.append(text.as_str());
    proof {
        let anchor_text = internal_link(
            url@,
            text_view(anchor),
            content@,
            text_view(title),
            code,
            only_en_us,
        );
        assert(Seq::<char>::empty() + anchor_text =~= anchor_text);
        assert(out@ =~= old(out)@ + anchor_text + link_badges(badges@, *markup).text);
    }
    written
}

/// Writes a link to a page behind what `out` holds, and behind the link the
/// badges of the statuses of the page. `anchor_id` is the id that the
/// anchor of the link names in the page: the caller makes it of the anchor
/// as the page makes the ids of its headings, and it is written as it is
/// given. Where the writer of a badge failed, its error is returned, and
/// `out` holds the link and the badges before that one.
pub fn render_internal_link(
    out: &mut String,
    url: &str,
    anchor_id: Option<&str>,
    content: &str,
    title: Option<&str>,
    modifier: &LinkModifier,
) -> (r: Result<(), String>)
    ensures
        final(out)@ == old(out)@ + internal_link(
            url@,
            text_view(anchor_id),
            content@,
            text_view(title),
            modifier.code,
            modifier.only_en_us,
        ) + link_badges(modifier.badges@, modifier.badge_markup).text,
        match r {
            Ok(_) => link_badges(modifier.badges@, modifier.badge_markup).error is None,
            Err(error) => link_badges(modifier.badges@, modifier.badge_markup).error == Some(
                error@,
            ),
        },
{
    write_link(
        out,
        url,
        anchor_id,
        content,
        title,
        modifier.code,
        modifier.only_en_us,
        &modifier.badges,
        &modifier.badge_markup,
    )
}

/// With one more status in front whose badge was written, the badges are
/// its badge and then the others.
proof fn lemma_one_badge(
    present: bool,
    status: FeatureStatus,
    rest: Seq<FeatureStatus>,
    markup: BadgeMarkup,
)
    requires
        badge_of(markup, status) is Ok,
    ensures
        badges_written(
            (if present {
                seq![status]
            } else {
                Seq::empty()
            }) + rest,
            markup,
        ) == (Written {
            text: or_nothing(present, badge_of(markup, status)->Ok_0) + badges_written(
                rest,
                markup,
            ).text,
            error: badges_written(rest, markup).error,
        }),
{
    if present {
        let all = seq![status] + rest;
        assert(all[0] == status);
        assert(all.skip(1) =~= rest);
    } else {
        assert(Seq::<FeatureStatus>::empty() + rest =~= rest);
        assert(Seq::<char>::empty() + badges_written(rest, markup).text =~= badges_written(
            rest,
            markup,
        ).text);
    }
}

/// Where every badge writer succeeded, what stands behind a link is the
/// experimental badge, then the non-standard one, then the deprecated one,
/// each exactly where the page has the status: in whatever order the list
/// names the statuses and however often. A page without a status has no
/// badge behind its link.
pub proof fn lemma_badges_in_fixed_order(badges: Seq<FeatureStatus>, markup: BadgeMarkup)
    requires
        markup.experimental is Ok,
        markup.non_standard is Ok,
        markup.deprecated is Ok,
    ensures
        link_badges(badges, markup).error is None,
        link_badges(badges, markup).text == or_nothing(
            has_status(badges, FeatureStatus::Experimental),
            markup.experimental->Ok_0@,
        ) + or_nothing(has_status(badges, FeatureStatus::NonStandard), markup.non_standard->Ok_0@)
            + or_nothing(has_status(badges, FeatureStatus::Deprecated), markup.deprecated->Ok_0@),
{
    let e = has_status(badges, FeatureStatus::Experimental);
    let n = has_status(badges, FeatureStatus::NonStandard);
    let d = has_status(badges, FeatureStatus::Deprecated);
    let sn = if n {
        seq![FeatureStatus::NonStandard]
    } else {
        Seq::empty()
    };
    let sd = if d {
        seq![FeatureStatus::Deprecated]
    } else {
        Seq::empty()
    };
    let se = if e {
        seq![FeatureStatus::Experimental]
    } else {
        Seq::empty()
    };
    let none = Seq::<FeatureStatus>::empty();
    assert(ordered_badges(badges) =~= se + (sn + (sd + none)));
    lemma_one_badge(d, FeatureStatus::Deprecated, none, markup);
    lemma_one_badge(n, FeatureStatus::NonStandard, sd + none, markup);
    lemma_one_badge(e, FeatureStatus::Experimental, sn + (sd + none), markup);
    let te = or_nothing(e, markup.experimental->Ok_0@);
    let tn = or_nothing(n, markup.non_standard->Ok_0@);
    let td = or_nothing(d, markup.deprecated->Ok_0@);
    assert(te + (tn + (td + Seq::<char>::empty())) =~= te + tn + td);
}

/// Where the last slash of a text stands; 0 where it has none.
pub open spec fn last_slash(s: Seq<char>) -> int
    decreases s.len(),
{
    if s.len() == 0 {
        0
    } else if s.last() == '/' {
        s.len() - 1
    } else {
        last_slash(s.drop_last())
    }
}

/// What a link shows where no page stands behind it: the content that was
/// given, as a title is shown; for a URL of this site without content, the
/// URL from its last slash on; for any other URL, the URL as markup writes
/// it.
pub open spec fn plain_link_content(url: Seq<char>, content: Option<Seq<char>>) -> Seq<char> {
    match content {
        Some(content) => shown_title(content),
        None => if url.len() > 0 && url[0] == '/' {
            url.skip(last_slash(url))
        } else {
            escaped(url, true)
        },
    }
}

/// The markup of a link where no page stands behind it.
pub open spec fn plain_link(
    url: Seq<char>,
    content: Option<Seq<char>>,
    code: bool,
    title: Option<Seq<char>>,
) -> Seq<char> {
    internal_link(url, None, plain_link_content(url, content), title, code, false)
}

/// Writes a link where no page stands behind the URL, behind what `out`
/// holds.
pub fn render_plain_link(
    out: &mut String,
    url: &str,
    content: Option<&str>,
    code: bool,
    title: Option<&str>,
)
    ensures
        final(out)@ == old(out)@ + plain_link(url@, text_view(content), code, text_view(title)),
{
    let chars = chars_of(url);
    let shown = match content {
        Some(content) => link_content(content),
        None => {
            if chars.len() > 0 && chars[0] == '/' {
                let mut at: usize = chars.len();
                proof {
                    assert(chars@.take(chars@.len() as int) == chars@);
                }
                while at > 0 && chars[at - 1] != '/'
                    invariant
                        at <= chars.len(),
                        last_slash(chars@) == last_slash(chars@.take(at as int)),
                    decreases at,
                {
                    proof {
                        assert(chars@.take(at as int).last() == chars@[at - 1]);
                        assert(chars@.take(at as int).drop_last() == chars@.take(at - 1));
                    }
                    at = at - 1;
                }
                proof {
                    if at > 0 {
                        assert(chars@.take(at as int).last() == chars@[at - 1]);
                    }
                }
                let from = if at > 0 {
                    at - 1
                } else {
                    0
                };
                let mut tail: Vec<char> = Vec::new();
                let mut i: usize = from;
                while i < chars.len()
                    invariant
                        from <= i <= chars.len(),
                        tail@ == chars@.subrange(from as int, i as int),
                    decreases chars.len() - i,
                {
                    tail.push(chars[i]);
                    proof {
                        assert(chars@.subrange(from as int, i + 1) == chars@.subrange(
                            from as int,
                            i as int,
                        ).push(chars@[i as int]));
                    }
                    i = i + 1;
                }
                proof {
                    assert(tail@ =~= chars@.skip(from as int));
                }
                string_of(&tail)
            } else {
                encode_safe(url)
            }
        },
    };
    let mut link: Vec<char> = Vec::new();
    write_anchor(&mut link, url, None, shown.as_str(), title, code, false);
    let text = string_of(&link);
    out.append(text.as_str());
    proof {
        let wanted = plain_link(url@, text_view(content), code, text_view(title));
        assert(Seq::<char>::empty() + wanted =~= wanted);
    }
}

/// The URL that a link given in a page stands for. A link that begins with
/// a slash and then neither with the URL segment of the default locale is
/// a slug: it stands for the document of that slug in the locale of the
/// page, where one is given. Any other link stands for itself.
pub open spec fn link_url(link: Seq<char>, locale: Option<Seq<char>>, default_locale: Seq<char>) -> Seq<
    char,
> {
    match locale {
        Some(locale) => if link.len() > 0 && link[0] == '/' && !default_locale.is_prefix_of(
            link.skip(1),
        ) {
            "/"@ + locale + "/docs/"@ + link.skip(1)
        } else {
            link
        },
        None => link,
    }
}

/// The URL that a link given in a page stands for. `locale` and
/// `default_locale` are the segments by which URLs name the locale of the
/// page and the default locale.
pub fn resolve_link(link: &str, locale: Option<&str>, default_locale: &str) -> (out: String)
    ensures
        out@ == link_url(link@, text_view(locale), default_locale@),
{
    let chars = chars_of(link);
    match locale {
        Some(locale) => {
            if chars.len() > 0 && chars[0] == '/' {
                let mut rest: Vec<char> = Vec::new();
                let mut i: usize = 1;
                while i < chars.len()
                    invariant
                        1 <= i <= chars.len(),
                        rest@ == chars@.subrange(1, i as int),
                    decreases chars.len() - i,
                {
                    rest.push(chars[i]);
                    proof {
                        assert(chars@.subrange(1, i + 1) == chars@.subrange(1, i as int).push(
                            chars@[i as int],
                        ));
                    }
                    i = i + 1;
                }
                proof {
                    assert(rest@ =~= chars@.skip(1));
                }
                if !starts_with(&rest, &chars_of(default_locale)) {
                    let mut out: Vec<char> = Vec::new();
                    append_str(&mut out, "/");
                    append_str(&mut out, locale);
                    append_str(&mut out, "/docs/");
                    append(&mut out, &rest);
                    return string_of(&out);
                }
            }
            String::from_str(link)
        },
        None => String::from_str(link),
    }
}

/// Splits a URL at its first `#`: what stands before it, and the anchor
/// behind it, which is empty where the URL has none.
pub fn split_anchor(url: &str) -> (out: (String, String))
    ensures
        position_of(url@, '#') <= url@.len(),
        out.0@ == url@.take(position_of(url@, '#')),
        out.1@ == if position_of(url@, '#') < url@.len() {
            url@.skip(position_of(url@, '#') + 1)
        } else {
            Seq::empty()
        },
{
    let chars = chars_of(url);
    let mut at: usize = 0;
    proof {
        assert(chars@.skip(0) == chars@);
    }
    while at < chars.len() && chars[at] != '#'
        invariant
            at <= chars.len(),
            position_of(chars@, '#') == at + position_of(chars@.skip(at as int), '#'),
        decreases chars.len() - at,
    {
        proof {
            let rest = chars@.skip(at as int);
            assert(rest[0] == chars@[at as int]);
            assert(rest.skip(1) == chars@.skip(at + 1));
        }
        at = at + 1;
    }
    proof {
        let rest = chars@.skip(at as int);
        if at < chars.len() {
            assert(rest[0] == chars@[at as int]);
        }
    }
    let mut before: Vec<char> = Vec::new();
    let mut i: usize = 0;
    while i < at
        invariant
            i <= at <= chars.len(),
            before@ == chars@.take(i as int),
        decreases at - i,
    {
        before.push(chars[i]);
        proof {
            assert(chars@.take(i + 1) == chars@.take(i as int).push(chars@[i as int]));
        }
        i = i + 1;
    }
    let mut anchor: Vec<char> = Vec::new();
    if at < chars.len() {
        let mut j: usize = at + 1;
        while j < chars.len()
            invariant
                at + 1 <= j <= chars.len(),
                anchor@ == chars@.subrange(at + 1, j as int),
            decreases chars.len() - j,
        {
            anchor.push(chars[j]);
            proof {
                assert(chars@.subrange(at + 1, j + 1) == chars@.subrange(at + 1, j as int).push(
                    chars@[j as int],
                ));
            }
            j = j + 1;
        }
    }
    proof {
        if at < chars.len() {
            assert(anchor@ =~= chars@.skip(at + 1));
        }
    }
    (string_of(&before), string_of(&anchor))
}

/// The anchor of a URL: what stands behind its first `#`, empty where it
/// has none.
pub open spec fn anchor_of(url: Seq<char>) -> Seq<char> {
    if position_of(url, '#') < url.len() {
        url.skip(position_of(url, '#') + 1)
    } else {
        Seq::empty()
    }
}

/// Whether a link begins with a slash: only such a link can lead to a page
/// of this site.
pub open spec fn is_local(link: Seq<char>) -> bool {
    link.len() > 0 && link[0] == '/'
}

/// The URL of the page that the page store is asked for: the URL that the
/// link stands for, without its anchor. None for a link that cannot lead to
/// a page of this site.
pub open spec fn asked_page(
    link: Seq<char>,
    locale: Option<Seq<char>>,
    default_locale: Seq<char>,
) -> Option<Seq<char>> {
    if is_local(link) {
        let url = link_url(link, locale, default_locale);
        Some(url.take(position_of(url, '#')))
    } else {
        None
    }
}

/// The URL of the page that the page store is asked for before a link is
/// written.
pub fn page_to_ask(link: &str, locale: Option<&str>, default_locale: &str) -> (out: Option<String>)
    ensures
        out is Some <==> asked_page(link@, text_view(locale), default_locale@) is Some,
        out matches Some(url) ==> asked_page(link@, text_view(locale), default_locale@) == Some(
            url@,
        ),
{
    let chars = chars_of(link);
    if chars.len() > 0 && chars[0] == '/' {
        let url = resolve_link(link, locale, default_locale);
        let (page, _) = split_anchor(url.as_str());
        Some(page)
    } else {
        None
    }
}

/// What the page store knows of the page behind a link.
pub struct PageInfo {
    /// The URL of the page.
    pub url: String,
    /// The title of the page.
    pub title: String,
    /// The short title of the page, where it has one.
    pub short_title: Option<String>,
    /// The statuses of the page.
    pub status: Vec<FeatureStatus>,
    /// The segment by which URLs name the locale of the page.
    pub locale: String,
    /// The id that the anchor of the link names in the page; read only
    /// where the link has an anchor.
    pub anchor_id: String,
    /// The markup of the badges, in the locale of the link where one is
    /// given, else in that of the page.
    pub badge_markup: BadgeMarkup,
}

/// The page that a reference leads to, if there is one.
pub open spec fn page_of(page: Option<&PageInfo>) -> Option<PageInfo> {
    match page {
        Some(page) => Some(*page),
        None => None,
    }
}

/// What a link to a found page shows: the content that was given, as it is;
/// else the short title of the page, or its title where it has none, as a
/// title is shown.
pub open spec fn page_link_content(content: Option<Seq<char>>, page: PageInfo) -> Seq<char> {
    match content {
        Some(content) => content,
        None => shown_title(
            match page.short_title {
                Some(short) => short@,
                None => page.title@,
            },
        ),
    }
}

/// What writing a link to a found page leaves. The link leads to the URL
/// of the page, with the anchor where the URL that was asked for has one
/// that is not empty; it is marked where the locale of the page is not the
/// one of the link, which is the default locale where none is given; and
/// the badges of the page follow where they are asked for.
pub open spec fn found_page_link(
    url: Seq<char>,
    locale: Option<Seq<char>>,
    default_locale: Seq<char>,
    content: Option<Seq<char>>,
    code: bool,
    title: Option<Seq<char>>,
    with_badges: bool,
    page: PageInfo,
) -> Written {
    let anchor = if anchor_of(url).len() > 0 {
        Some(page.anchor_id@)
    } else {
        None
    };
    let wanted = match locale {
        Some(locale) => locale,
        None => default_locale,
    };
    let badges = link_badges(
        if with_badges {
            page.status@
        } else {
            Seq::empty()
        },
        page.badge_markup,
    );
    Written {
        text: internal_link(
            page.url@,
            anchor,
            page_link_content(content, page),
            title,
            code,
            page.locale@ != wanted,
        ) + badges.text,
        error: badges.error,
    }
}

/// What writing a link by way of its page leaves. Where the link can lead
/// to a page of this site and the page store has found the page, it is a
/// link to that page, as [`found_page_link`] says. Everywhere else the link
/// is written as one with no page behind it.
pub open spec fn via_page_link(
    link: Seq<char>,
    locale: Option<Seq<char>>,
    default_locale: Seq<char>,
    content: Option<Seq<char>>,
    code: bool,
    title: Option<Seq<char>>,
    with_badges: bool,
    page: Option<PageInfo>,
) -> Written {
    let url = link_url(link, locale, default_locale);
    match page {
        Some(page) if is_local(link) => found_page_link(
            url,
            locale,
            default_locale,
            content,
            code,
            title,
            with_badges,
            page,
        ),
        _ => Written { text: plain_link(url, content, code, title), error: None },
    }
}

#[verifier::spinoff_prover]
fn write_found_page_link(
    out: &mut String,
    url: &str,
    locale: Option<&str>,
    default_locale: &str,
    content: Option<&str>,
    code: bool,
    title: Option<&str>,
    with_badges: bool,
    page: &PageInfo,
) -> (r: Result<(), String>)
    ensures
        final(out)@ == old(out)@ + found_page_link(
            url@,
            text_view(locale),
            default_locale@,
            text_view(content),
            code,
            text_view(title),
            with_badges,
            *page,
        ).text,
        match r {
            Ok(_) => found_page_link(
                url@,
                text_view(locale),
                default_locale@,
                text_view(content),
                code,
                text_view(title),
                with_badges,
                *page,
            ).error is None,
            Err(error) => found_page_link(
                url@,
                text_view(locale),
                default_locale@,
                text_view(content),
                code,
                text_view(title),
                with_badges,
                *page,
            ).error == Some(error@),
        },
{
    let (_, anchor) = split_anchor(url);
    let anchor_id = if anchor.as_str().unicode_len() > 0 {
        Some(page.anchor_id.as_str())
    } else {
        None
    };
    let shown = match content {
        Some(content) => String::from_str(content),
        None => match &page.short_title {
            Some(short) => link_content(short.as_str()),
            None => link_content(page.title.as_str()),
        },
    };
    let wanted = match locale {
        Some(locale) => locale,
        None => default_locale,
    };
    let only_en_us = !same_text(&chars_of(page.locale.as_str()), &chars_of(wanted));
    let none: Vec<FeatureStatus> = Vec::new();
    let badges = if with_badges {
        &page.status
    } else {
        &none
    };
    write_link(
        out,
        page.url.as_str(),
        anchor_id,
        shown.as_str(),
        title,
        code,
        only_en_us,
        badges,
        &page.badge_markup,
    )
}

/// Writes a link behind what `out` holds, by way of the page that it leads
/// to. `page` is what the page store answered when asked for the URL that
/// [`page_to_ask`] gives; `locale` and `default_locale` are the segments by
/// which URLs name the locale of the link and the default locale. Where
/// the writer of a badge failed, its error is returned, and `out` holds the
/// link and the badges before that one.
#[verifier::spinoff_prover]
pub fn render_link_via_page(
    out: &mut String,
    link: &str,
    locale: Option<&str>,
    default_locale: &str,
    content: Option<&str>,
    code: bool,
    title: Option<&str>,
    with_badges: bool,
    page: Option<&PageInfo>,
) -> (r: Result<(), String>)
    ensures
        final(out)@ == old(out)@ + via_page_link(
            link@,
            text_view(locale),
            default_locale@,
            text_view(content),
            code,
            text_view(title),
            with_badges,
            page_of(page),
        ).text,
        match r {
            Ok(_) => via_page_link(
                link@,
                text_view(locale),
                default_locale@,
                text_view(content),
                code,
                text_view(title),
                with_badges,
                page_of(page),
            ).error is None,
            Err(error) => via_page_link(
                link@,
                text_view(locale),
                default_locale@,
                text_view(content),
                code,
                text_view(title),
                with_badges,
                page_of(page),
            ).error == Some(error@),
        },
{
    let url = resolve_link(link, locale, default_locale);
    let chars = chars_of(link);
    let local = chars.len() > 0 && chars[0] == '/';
    match page {
        Some(page) if local => write_found_page_link(
            out,
            url.as_str(),
            locale,
            default_locale,
            content,
            code,
            title,
            with_badges,
            page,
        ),
        _ => {
            render_plain_link(out, url.as_str(), content, code, title);
            Ok(())
        },
    }
}

} // verus!
