//! From the URL of a page to the place of its source.
use vstd::prelude::*;
use crate::links::{split_anchor, text_view};
use crate::report::{head, position_of, tail};
use crate::text::{
    append_str, chars_of, ends_with, is_ascii, is_capital, lemma_replaced_keeps,
    lemma_replaced_removes, lowercase, lowercased, replace_all, replaced, same_text, small,
    starts_with, string_of, texts_view,
};

verus! {

/// The folder of a page with the given slug, stated over texts: the
/// characters that a file name cannot hold are written out, and the whole
/// is in lowercase.
pub open spec fn slug_folder(slug: Seq<char>) -> Seq<char> {
    let starred = replaced(slug, "*"@, "_star_"@);
    let doubled = replaced(starred, "::"@, "_doublecolon_"@);
    let coloned = replaced(doubled, ":"@, "_colon_"@);
    let questioned = replaced(coloned, "?"@, "_question_"@);
    lowercased(questioned)
}

/// Whether a character can stand in the folder of a page: it is none of
/// `*`, `:` and `?`, which a file name cannot hold, and no capital letter
/// from `A` to `Z`.
pub open spec fn folder_char(c: char) -> bool {
    c != '*' && c != ':' && c != '?' && !is_capital(c)
}

/// The folder of the page with the given slug, below the root of its
/// locale. The folder of a slug of ASCII characters holds none of `*`, `:`
/// and `?` and no capital letter.
pub fn url_to_path_buf(slug: &str) -> (folder: String)
    ensures
        folder@ == slug_folder(slug@),
        is_ascii(slug@) ==> forall|i: int|
            0 <= i < folder@.len() ==> folder_char(#[trigger] folder@[i]),
{
    let starred = replace_all(&chars_of(slug), &chars_of("*"), &chars_of("_star_"));
    let doubled = replace_all(&starred, &chars_of("::"), &chars_of("_doublecolon_"));
    let coloned = replace_all(&doubled, &chars_of(":"), &chars_of("_colon_"));
    let questioned = replace_all(&coloned, &chars_of("?"), &chars_of("_question_"));
    let text = string_of(&questioned);
    let folder = lowercase(text.as_str());
    proof {
        if is_ascii(slug@) {
            reveal_strlit("*");
            reveal_strlit("_star_");
            reveal_strlit("::");
            reveal_strlit("_doublecolon_");
            reveal_strlit(":");
            reveal_strlit("_colon_");
            reveal_strlit("?");
            reveal_strlit("_question_");
            assert("*"@ =~= seq!['*']);
            assert(":"@ =~= seq![':']);
            assert("?"@ =~= seq!['?']);
            let ascii = |c: char| (c as nat) < 128;
            let no_star = |c: char| (c as nat) < 128 && c != '*';
            let no_colon = |c: char| (c as nat) < 128 && c != '*' && c != ':';
            lemma_replaced_keeps(slug@, "*"@, "_star_"@, ascii);
            lemma_replaced_removes(slug@, '*', "_star_"@);
            assert forall|i: int| 0 <= i < starred@.len() implies no_star(#[trigger] starred@[i]) by {
                assert(ascii(starred@[i]));
            }
            lemma_replaced_keeps(starred@, "::"@, "_doublecolon_"@, no_star);
            lemma_replaced_keeps(doubled@, ":"@, "_colon_"@, no_star);
            lemma_replaced_removes(doubled@, ':', "_colon_"@);
            assert forall|i: int| 0 <= i < coloned@.len() implies no_colon(#[trigger] coloned@[i]) by {
                assert(no_star(coloned@[i]));
            }
            lemma_replaced_keeps(coloned@, "?"@, "_question_"@, no_colon);
            lemma_replaced_removes(coloned@, '?', "_question_"@);
            assert forall|i: int| 0 <= i < questioned@.len() implies ascii(
                #[trigger] questioned@[i],
            ) by {
                assert(no_colon(questioned@[i]));
            }
            assert(is_ascii(questioned@));
            assert forall|i: int| 0 <= i < folder@.len() implies folder_char(
                #[trigger] folder@[i],
            ) by {
                let c = questioned@[i];
                assert(no_colon(c));
                assert(folder@[i] == small(c));
                if is_capital(c) {
                    lemma_small_letter(c);
                }
            }
        }
    }
    folder
}

/// The small letter of a capital letter is no capital letter and none of
/// `*`, `:` and `?`.
proof fn lemma_small_letter(c: char)
    requires
        is_capital(c),
    ensures
        !is_capital(small(c)),
        small(c) != '*',
        small(c) != ':',
        small(c) != '?',
{
    let n = c as u8;
    assert(65 <= n <= 90);
    assert(((n + 32) as u8) as char as nat == n + 32);
}

/// The name of the file that holds a page as JSON.
pub const INDEX_FILE: &'static str = "index.json";

/// The URL of the page that a request for its JSON asks for: the URL
/// without the name of the index file where it ends in it.
pub open spec fn page_url_of(url: Seq<char>) -> Seq<char> {
    if INDEX_FILE@.is_suffix_of(url) {
        url.take(url.len() - INDEX_FILE@.len())
    } else {
        url
    }
}

/// The URL of the page that a request for its JSON asks for.
pub fn page_url(url: &str) -> (out: String)
    ensures
        out@ == page_url_of(url@),
{
    let chars = chars_of(url);
    let suffix = chars_of(INDEX_FILE);
    if ends_with(&chars, &suffix) {
        let mut out: Vec<char> = Vec::new();
        let end = chars.len() - suffix.len();
        let mut i: usize = 0;
        while i < end
            invariant
                i <= end <= chars.len(),
                out@ == chars@.take(i as int),
            decreases end - i,
        {
            out.push(chars[i]);
            proof {
                assert(chars@.take(i + 1) == chars@.take(i as int).push(chars@[i as int]));
            }
            i = i + 1;
        }
        string_of(&out)
    } else {
        String::from_str(url)
    }
}

/// Whether a URL begins with a slash and a first segment that may name a
/// locale.
pub open spec fn has_first_segment(url: Seq<char>) -> bool {
    url.len() >= 2 && url[0] == '/'
}

/// Where the first segment of a URL ends: the place of the first slash
/// behind the one that the URL begins with, or the end of the URL.
pub open spec fn first_segment_end(url: Seq<char>) -> int {
    1 + position_of(url.skip(1), '/')
}

/// Splits a URL behind its first segment: `/en-US/docs/Web` gives the
/// segment `en-US` and the rest `/docs/Web`. The segment is what may name
/// the locale of the page; the rest begins with the slash that ended the
/// segment, or is empty. A URL that does not begin with a slash, or holds
/// nothing behind it, has no first segment.
pub fn split_first_segment(url: &str) -> (out: Option<(String, String)>)
    ensures
        out is Some <==> has_first_segment(url@),
        match out {
            None => true,
            Some((segment, rest)) => {
                &&& url@ == seq!['/'] + segment@ + rest@
                &&& !segment@.contains('/')
                &&& (rest@.len() == 0 || rest@[0] == '/')
                &&& 1 <= first_segment_end(url@) <= url@.len()
                &&& segment@ == url@.subrange(1, first_segment_end(url@))
                &&& rest@ == url@.skip(first_segment_end(url@))
            },
        },
{
    let chars = chars_of(url);
    if chars.len() < 2 || chars[0] != '/' {
        return None;
    }
    let mut segment: Vec<char> = Vec::new();
    let mut i: usize = 1;
    proof {
        assert(chars@.skip(1).skip(0) == chars@.skip(1));
    }
    while i < chars.len() && chars[i] != '/'
        invariant
            1 <= i <= chars.len(),
            segment@ == chars@.subrange(1, i as int),
            !segment@.contains('/'),
            position_of(chars@.skip(1), '/') == (i - 1) + position_of(chars@.skip(i as int), '/'),
        decreases chars.len() - i,
    {
        let ghost before = segment@;
        segment.push(chars[i]);
        proof {
            assert(chars@.subrange(1, i + 1) == before.push(chars@[i as int]));
            assert forall|k: int| 0 <= k < segment@.len() implies segment@[k] != '/' by {
                if k < before.len() {
                    assert(before.contains(before[k]));
                }
            }
            let rest = chars@.skip(i as int);
            assert(rest[0] == chars@[i as int]);
            assert(rest.skip(1) == chars@.skip(i + 1));
        }
        i = i + 1;
    }
    proof {
        let rest = chars@.skip(i as int);
        if i < chars.len() {
            assert(rest[0] == chars@[i as int]);
        }
        assert(first_segment_end(chars@) == i);
    }
    let mut rest: Vec<char> = Vec::new();
    let mut j: usize = i;
    while j < chars.len()
        invariant
            i <= j <= chars.len(),
            rest@ == chars@.subrange(i as int, j as int),
        decreases chars.len() - j,
    {
        rest.push(chars[j]);
        proof {
            assert(chars@.subrange(i as int, j + 1) == chars@.subrange(i as int, j as int).push(
                chars@[j as int],
            ));
        }
        j = j + 1;
    }
    proof {
        assert(chars@ =~= seq!['/'] + segment@ + rest@);
        assert(rest@ =~= chars@.skip(i as int));
        if rest@.len() > 0 {
            assert(rest@[0] == chars@[i as int]);
        }
    }
    Some((string_of(&segment), string_of(&rest)))
}

/// The kinds of pages.
#[derive(Clone, Copy, Debug, PartialEq, Eq, Structural)]
pub enum PageCategory {
    Doc,
    BlogPost,
    SPA,
    Curriculum,
    ContributorSpotlight,
    GenericPage,
}

/// The URL of the page of a kind with the given slug, below the URL
/// segment of its locale. A single-page application has the URL that the
/// page store knows for it, and none where the store knows no such page.
pub open spec fn page_url_for(
    slug: Seq<char>,
    locale: Seq<char>,
    typ: PageCategory,
    spa_url: Option<Seq<char>>,
) -> Option<Seq<char>> {
    match typ {
        PageCategory::Doc => Some("/"@ + locale + "/docs/"@ + slug),
        PageCategory::BlogPost => Some("/"@ + locale + "/blog/"@ + slug + "/"@),
        PageCategory::SPA => spa_url,
        PageCategory::Curriculum => Some("/"@ + locale + "/curriculum/"@ + slug + "/"@),
        PageCategory::ContributorSpotlight => Some(
            "/"@ + locale + "/community/spotlight/"@ + slug,
        ),
        PageCategory::GenericPage => Some("/"@ + locale + "/"@ + slug),
    }
}

/// The page that was asked for is not there.
pub struct PageNotFound {
    pub slug: String,
    pub category: PageCategory,
}

/// Builds the URL of the page of a kind with the given slug. `locale` is
/// the segment by which URLs name the locale of the page, and `spa_url` the
/// URL of the single-page application with that slug in that locale, as
/// the page store gives it; it is read for a single-page application only.
pub fn build_url(slug: &str, locale: &str, typ: PageCategory, spa_url: Option<&str>) -> (out: Result<
    String,
    PageNotFound,
>)
    ensures
        match out {
            Ok(url) => page_url_for(slug@, locale@, typ, text_view(spa_url)) == Some(url@),
            Err(error) => page_url_for(slug@, locale@, typ, text_view(spa_url)) is None
                && error.slug@ == slug@ && error.category == typ,
        },
{
    let (middle, end) = match typ {
        PageCategory::Doc => ("/docs/", ""),
        PageCategory::BlogPost => ("/blog/", "/"),
        PageCategory::SPA => {
            return match spa_url {
                Some(url) => Ok(String::from_str(url)),
                None => Err(PageNotFound { slug: String::from_str(slug), category: typ }),
            };
        },
        PageCategory::Curriculum => ("/curriculum/", "/"),
        PageCategory::ContributorSpotlight => ("/community/spotlight/", ""),
        PageCategory::GenericPage => ("/", ""),
    };
    let mut out: Vec<char> = Vec::new();
    append_str(&mut out, "/");
    append_str(&mut out, locale);
    append_str(&mut out, middle);
    append_str(&mut out, slug);
    append_str(&mut out, end);
    proof {
        reveal_strlit("");
        assert(""@ =~= Seq::<char>::empty());
        assert(out@ =~= "/"@ + locale@ + middle@ + slug@ + end@);
        assert("/"@ + locale@ + middle@ + slug@ + Seq::<char>::empty() =~= "/"@ + locale@
            + middle@ + slug@);
    }
    Ok(string_of(&out))
}

/// The segment of a URL path that names its locale: the second of the
/// parts between its slashes, or the empty text where it has none. What
/// follows a `#` is no part of the path.
pub open spec fn locale_segment(url_path: Seq<char>) -> Seq<char> {
    match tail(url_path.take(position_of(url_path, '#'))) {
        Some(below) => head(below),
        None => Seq::empty(),
    }
}

/// What follows the locale in a URL path: its next segment, and behind it
/// all that is left, slashes and all; fewer where the path ends earlier.
pub open spec fn path_tail(url_path: Seq<char>) -> Seq<Seq<char>> {
    match tail(url_path.take(position_of(url_path, '#'))) {
        Some(below) => match tail(below) {
            Some(deeper) => match tail(deeper) {
                Some(rest) => seq![head(deeper), rest],
                None => seq![head(deeper)],
            },
            None => Seq::empty(),
        },
        None => Seq::empty(),
    }
}

/// The part of `s` from `from` up to the next slash, and where what
/// follows that slash begins, if there is one.
fn next_part(s: &Vec<char>, from: usize) -> (out: (Vec<char>, Option<usize>))
    requires
        from <= s.len(),
    ensures
        out.0@ == head(s@.skip(from as int)),
        match out.1 {
            Some(next) => from < next <= s.len() && tail(s@.skip(from as int)) == Some(
                s@.skip(next as int),
            ),
            None => tail(s@.skip(from as int)) is None,
        },
{
    let ghost rest = s@.skip(from as int);
    let mut end = from;
    proof {
        assert(rest.skip(0) == rest);
    }
    while end < s.len() && s[end] != '/'
        invariant
            from <= end <= s.len(),
            rest == s@.skip(from as int),
            position_of(rest, '/') == (end - from) + position_of(s@.skip(end as int), '/'),
        decreases s.len() - end,
    {
        proof {
            let here = s@.skip(end as int);
            assert(here[0] == s@[end as int]);
            assert(here.skip(1) == s@.skip(end + 1));
        }
        end = end + 1;
    }
    proof {
        let here = s@.skip(end as int);
        if end < s.len() {
            assert(here[0] == s@[end as int]);
        }
        assert(position_of(rest, '/') == end - from);
    }
    let mut part: Vec<char> = Vec::new();
    let mut i = from;
    while i < end
        invariant
            from <= i <= end <= s.len(),
            part@ == s@.subrange(from as int, i as int),
        decreases end - i,
    {
        part.push(s[i]);
        proof {
            assert(s@.subrange(from as int, i + 1) == s@.subrange(from as int, i as int).push(
                s@[i as int],
            ));
        }
        i = i + 1;
    }
    proof {
        assert(part@ =~= rest.take(end - from));
        if end < s.len() {
            assert(rest.skip(end - from + 1) =~= s@.skip(end + 1));
        }
    }
    if end < s.len() {
        (part, Some(end + 1))
    } else {
        (part, None)
    }
}

/// The segment of a URL path that names its locale, and what follows it.
pub fn url_segments(url_path: &str) -> (out: (String, Vec<String>))
    ensures
        out.0@ == locale_segment(url_path@),
        texts_view(out.1@) == path_tail(url_path@),
{
    let (before, _) = split_anchor(url_path);
    let path = chars_of(before.as_str());
    let mut following: Vec<String> = Vec::new();
    proof {
        assert(path@.skip(0) == path@);
        assert(texts_view(following@) =~= Seq::<Seq<char>>::empty());
    }
    let (_, below) = next_part(&path, 0);
    let below = match below {
        Some(below) => below,
        None => {
            return (String::new(), following);
        },
    };
    let (locale, deeper) = next_part(&path, below);
    let deeper = match deeper {
        Some(deeper) => deeper,
        None => {
            return (string_of(&locale), following);
        },
    };
    let (third, rest) = next_part(&path, deeper);
    following.push(string_of(&third));
    match rest {
        Some(rest) => {
            let mut left: Vec<char> = Vec::new();
            let mut i: usize = rest;
            while i < path.len()
                invariant
                    rest <= i <= path.len(),
                    left@ == path@.subrange(rest as int, i as int),
                decreases path.len() - i,
            {
                left.push(path[i]);
                proof {
                    assert(path@.subrange(rest as int, i + 1) == path@.subrange(
                        rest as int,
                        i as int,
                    ).push(path@[i as int]));
                }
                i = i + 1;
            }
            proof {
                assert(left@ =~= path@.skip(rest as int));
            }
            following.push(string_of(&left));
            proof {
                assert(texts_view(following@) =~= seq![third@, left@]);
            }
        },
        None => {
            proof {
                assert(texts_view(following@) =~= seq![third@]);
            }
        },
    }
    (string_of(&locale), following)
}

/// What a URL path names.
pub enum UrlKind {
    /// A page of the kind, with the slug.
    Page { category: PageCategory, slug: String },
    /// A page that only the page store can tell: a single-page application
    /// or a generic page with the slug, or none.
    Ask { slug: String },
    /// No page.
    Invalid,
}

/// The mathematical value of a [`UrlKind`].
pub enum UrlKindView {
    Page { category: PageCategory, slug: Seq<char> },
    Ask { slug: Seq<char> },
    Invalid,
}

impl View for UrlKind {
    type V = UrlKindView;

    open spec fn view(&self) -> UrlKindView {
        match self {
            UrlKind::Page { category, slug } => UrlKindView::Page {
                category: *category,
                slug: slug@,
            },
            UrlKind::Ask { slug } => UrlKindView::Ask { slug: slug@ },
            UrlKind::Invalid => UrlKindView::Invalid,
        }
    }
}

/// The slug that the page store is asked about: the URL path behind its
/// first segment, without the slash that it then begins with.
pub open spec fn asked_slug(url_path: Seq<char>) -> Seq<char> {
    let rest = if has_first_segment(url_path) {
        url_path.skip(first_segment_end(url_path))
    } else {
        url_path
    };
    if rest.len() > 0 && rest[0] == '/' {
        rest.skip(1)
    } else {
        rest
    }
}

/// What a URL path names, by what follows its locale. Documents are in
/// every locale; the blog, the curriculum and the contributor spotlights in
/// the default locale only. Anything else below `community` is no page, and
/// for every other path the page store is asked.
pub open spec fn url_kind(following: Seq<Seq<char>>, url_path: Seq<char>, default_locale: bool) -> UrlKindView {
    if following.len() == 2 && following[0] == "docs"@ {
        UrlKindView::Page { category: PageCategory::Doc, slug: following[1] }
    } else if default_locale && following.len() >= 1 && following[0] == "blog"@ && (
    following.len() == 1 || following[1] == ""@) {
        UrlKindView::Page { category: PageCategory::SPA, slug: "blog"@ }
    } else if default_locale && following.len() == 2 && following[0] == "blog"@ {
        UrlKindView::Page { category: PageCategory::BlogPost, slug: following[1] }
    } else if default_locale && following.len() == 2 && following[0] == "curriculum"@ {
        UrlKindView::Page { category: PageCategory::Curriculum, slug: following[1] }
    } else if default_locale && following.len() == 2 && following[0] == "community"@
        && "spotlight"@.is_prefix_of(following[1]) {
        UrlKindView::Page { category: PageCategory::ContributorSpotlight, slug: following[1] }
    } else if following.len() >= 1 && following[0] == "community"@ {
        UrlKindView::Invalid
    } else {
        UrlKindView::Ask { slug: asked_slug(url_path) }
    }
}

fn is_text(s: &String, wanted: &str) -> (r: bool)
    ensures
        r == (s@ == wanted@),
{
    same_text(&chars_of(s.as_str()), &chars_of(wanted))
}

/// Tells what a URL path names. `following` is what follows the locale in
/// the path, as [`url_segments`] gives it; `default_locale` says whether
/// the locale of the path is the default one.
pub fn classify_url(following: &Vec<String>, url_path: &str, default_locale: bool) -> (out: UrlKind)
    ensures
        out@ == url_kind(texts_view(following@), url_path@, default_locale),
{
    let ghost texts = texts_view(following@);
    let n = following.len();
    proof {
        if n >= 1 {
            assert(texts[0] == following@[0]@);
        }
        if n >= 2 {
            assert(texts[1] == following@[1]@);
        }
    }
    if n == 2 && is_text(&following[0], "docs") {
        return UrlKind::Page { category: PageCategory::Doc, slug: following[1].clone() };
    }
    if default_locale && n >= 1 && is_text(&following[0], "blog") && (n == 1 || is_text(
        &following[1],
        "",
    )) {
        return UrlKind::Page { category: PageCategory::SPA, slug: String::from_str("blog") };
    }
    if default_locale && n == 2 && is_text(&following[0], "blog") {
        return UrlKind::Page { category: PageCategory::BlogPost, slug: following[1].clone() };
    }
    if default_locale && n == 2 && is_text(&following[0], "curriculum") {
        return UrlKind::Page { category: PageCategory::Curriculum, slug: following[1].clone() };
    }
    if default_locale && n == 2 && is_text(&following[0], "community") && starts_with(
        &chars_of(following[1].as_str()),
        &chars_of("spotlight"),
    ) {
        return UrlKind::Page {
            category: PageCategory::ContributorSpotlight,
            slug: following[1].clone(),
        };
    }
    if n >= 1 && is_text(&following[0], "community") {
        return UrlKind::Invalid;
    }
    UrlKind::Ask { slug: slug_to_ask(url_path) }
}

/// The slug that the page store is asked about where the path itself does
/// not tell what it names.
pub fn slug_to_ask(url_path: &str) -> (out: String)
    ensures
        out@ == asked_slug(url_path@),
{
    let rest = match split_first_segment(url_path) {
        Some((_, rest)) => rest,
        None => String::from_str(url_path),
    };
    let chars = chars_of(rest.as_str());
    if chars.len() > 0 && chars[0] == '/' {
        let mut slug: Vec<char> = Vec::new();
        let mut i: usize = 1;
        while i < chars.len()
            invariant
                1 <= i <= chars.len(),
                slug@ == chars@.subrange(1, i as int),
            decreases chars.len() - i,
        {
            slug.push(chars[i]);
            proof {
                assert(chars@.subrange(1, i + 1) == chars@.subrange(1, i as int).push(
                    chars@[i as int],
                ));
            }
            i = i + 1;
        }
        proof {
            assert(slug@ =~= chars@.skip(1));
        }
        string_of(&slug)
    } else {
        rest
    }
}


/// What the first segment of a URL path names.
#[derive(Clone, Copy, Debug, PartialEq, Eq, Structural)]
pub enum LocaleKind {
    /// The default locale.
    Default,
    /// Another locale.
    Other,
    /// No locale.
    Unknown,
}

/// What the page store says of a slug in a locale.
#[derive(Clone, Copy, Debug, PartialEq, Eq, Structural)]
pub enum StoreAnswer {
    /// A single-page application has the slug.
    Spa,
    /// A generic page has the slug, and no single-page application.
    Generic,
    /// No page has it.
    Neither,
}

/// Why a URL path leads to no page.
#[derive(Clone, Copy, Debug, PartialEq, Eq, Structural)]
pub enum UrlError {
    /// The path names no page.
    InvalidUrl,
    /// The first segment of the path names no locale.
    Locale,
}

/// Where a page is: its folder below the root of its locale, its slug and
/// its kind.
pub struct Located {
    pub path: String,
    pub slug: String,
    pub category: PageCategory,
}

/// The mathematical value of a [`Located`].
pub struct LocatedView {
    pub path: Seq<char>,
    pub slug: Seq<char>,
    pub category: PageCategory,
}

impl View for Located {
    type V = LocatedView;

    open spec fn view(&self) -> LocatedView {
        LocatedView { path: self.path@, slug: self.slug@, category: self.category }
    }
}

/// The page of a kind with a slug, in its folder.
pub open spec fn page_at(category: PageCategory, slug: Seq<char>) -> LocatedView {
    LocatedView { path: slug_folder(slug), slug, category }
}

/// Where the page of a URL path is. A path whose first segment names no
/// locale leads nowhere. Else the path tells the kind and the slug of the
/// page by what follows the locale, as [`url_kind`] says; where the path
/// does not tell, the page is what the page store says of the slug that it
/// was asked about, and there is none where the store knows neither.
pub open spec fn located(url_path: Seq<char>, locale: LocaleKind, store: StoreAnswer) -> Result<
    LocatedView,
    UrlError,
> {
    if locale == LocaleKind::Unknown {
        Err(UrlError::Locale)
    } else {
        match url_kind(path_tail(url_path), url_path, locale == LocaleKind::Default) {
            UrlKindView::Page { category, slug } => Ok(page_at(category, slug)),
            UrlKindView::Ask { slug } => match store {
                StoreAnswer::Spa => Ok(page_at(PageCategory::SPA, slug)),
                StoreAnswer::Generic => Ok(page_at(PageCategory::GenericPage, slug)),
                StoreAnswer::Neither => Err(UrlError::InvalidUrl),
            },
            UrlKindView::Invalid => Err(UrlError::InvalidUrl),
        }
    }
}

/// Finds where the page of a URL path is. `locale` is what the segment
/// that [`url_segments`] gives names, and `store` what the page store says
/// of the slug that [`slug_to_ask`] gives, in that locale; it is read only
/// where the path does not tell what it names.
pub fn url_path_to_path_buf(url_path: &str, locale: LocaleKind, store: StoreAnswer) -> (out: Result<
    Located,
    UrlError,
>)
    ensures
        match out {
            Ok(found) => located(url_path@, locale, store) == Ok::<LocatedView, UrlError>(found@),
            Err(error) => located(url_path@, locale, store) == Err::<LocatedView, UrlError>(error),
        },
{
    if locale == LocaleKind::Unknown {
        return Err(UrlError::Locale);
    }
    let (_, following) = url_segments(url_path);
    let (category, slug) = match classify_url(
        &following,
        url_path,
        locale == LocaleKind::Default,
    ) {
        UrlKind::Page { category, slug } => (category, slug),
        UrlKind::Ask { slug } => match store {
            StoreAnswer::Spa => (PageCategory::SPA, slug),
            StoreAnswer::Generic => (PageCategory::GenericPage, slug),
            StoreAnswer::Neither => {
                return Err(UrlError::InvalidUrl);
            },
        },
        UrlKind::Invalid => {
            return Err(UrlError::InvalidUrl);
        },
    };
    let path = url_to_path_buf(slug.as_str());
    Ok(Located { path, slug, category })
}

} // verus!
