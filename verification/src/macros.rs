//! What takes the place of the macros that pages no longer use.
use vstd::prelude::*;
use crate::html::regex_valid;
use crate::report::position_of;
use crate::text::{
    append, append_str, chars_of, decimal, is_whitespace, lowercase, lowercased, push_decimal,
    replace_all, replaced, same_text, starts_with, string_of, texts_view, whitespace,
};

verus! {

/// What is taken off the ends of a text: white space, or one character.
#[derive(Clone, Copy, Debug, PartialEq, Eq, Structural)]
pub enum Strip {
    Space,
    Char(char),
}

/// Whether the character is one that is taken off.
pub open spec fn strips(strip: Strip, c: char) -> bool {
    match strip {
        Strip::Space => is_whitespace(c),
        Strip::Char(d) => c == d,
    }
}

/// The text without the characters to take off at its end.
pub open spec fn without_trailing(s: Seq<char>, strip: Strip) -> Seq<char>
    decreases s.len(),
{
    if s.len() > 0 && strips(strip, s.last()) {
        without_trailing(s.drop_last(), strip)
    } else {
        s
    }
}

/// The text without the characters to take off at its beginning.
pub open spec fn without_leading(s: Seq<char>, strip: Strip) -> Seq<char>
    decreases s.len(),
{
    if s.len() > 0 && strips(strip, s[0]) {
        without_leading(s.skip(1), strip)
    } else {
        s
    }
}

fn is_stripped(strip: Strip, c: char) -> (r: bool)
    ensures
        r == strips(strip, c),
{
    match strip {
        Strip::Space => whitespace(c),
        Strip::Char(d) => c == d,
    }
}

/// The characters of `s` from `from` up to `to`.
fn slice(s: &Vec<char>, from: usize, to: usize) -> (out: Vec<char>)
    requires
        from <= to <= s.len(),
    ensures
        out@ == s@.subrange(from as int, to as int),
{
    let mut out: Vec<char> = Vec::new();
    let mut i = from;
    while i < to
        invariant
            from <= i <= to <= s.len(),
            out@ == s@.subrange(from as int, i as int),
        decreases to - i,
    {
        out.push(s[i]);
        proof {
            assert(s@.subrange(from as int, i + 1) == s@.subrange(from as int, i as int).push(
                s@[i as int],
            ));
        }
        i = i + 1;
    }
    out
}

/// Takes the characters off the end of a text.
pub fn strip_end(s: &Vec<char>, strip: Strip) -> (out: Vec<char>)
    ensures
        out@ == without_trailing(s@, strip),
{
    let mut end: usize = s.len();
    proof {
        assert(s@.take(s@.len() as int) == s@);
    }
    while end > 0 && is_stripped(strip, s[end - 1])
        invariant
            end <= s.len(),
            without_trailing(s@, strip) == without_trailing(s@.take(end as int), strip),
        decreases end,
    {
        proof {
            assert(s@.take(end as int).last() == s@[end - 1]);
            assert(s@.take(end as int).drop_last() == s@.take(end - 1));
        }
        end = end - 1;
    }
    proof {
        if end > 0 {
            assert(s@.take(end as int).last() == s@[end - 1]);
        }
        assert(s@.take(end as int) == s@.subrange(0, end as int));
    }
    slice(s, 0, end)
}

/// Takes the characters off the beginning of a text.
pub fn strip_start(s: &Vec<char>, strip: Strip) -> (out: Vec<char>)
    ensures
        out@ == without_leading(s@, strip),
{
    let mut start: usize = 0;
    proof {
        assert(s@.skip(0) == s@);
    }
    while start < s.len() && is_stripped(strip, s[start])
        invariant
            start <= s.len(),
            without_leading(s@, strip) == without_leading(s@.skip(start as int), strip),
        decreases s.len() - start,
    {
        proof {
            assert(s@.skip(start as int)[0] == s@[start as int]);
            assert(s@.skip(start as int).skip(1) == s@.skip(start + 1));
        }
        start = start + 1;
    }
    proof {
        if start < s.len() {
            assert(s@.skip(start as int)[0] == s@[start as int]);
        }
        assert(s@.skip(start as int) == s@.subrange(start as int, s@.len() as int));
    }
    slice(s, start, s.len())
}

/// The parts of a text between its commas; a text without a comma is its
/// one part.
pub open spec fn comma_parts(s: Seq<char>) -> Seq<Seq<char>>
    decreases s.len(),
{
    let at = position_of(s, ',');
    if 0 <= at < s.len() {
        seq![s.take(at)] + comma_parts(s.skip(at + 1))
    } else {
        seq![s]
    }
}

/// The argument that a part of the list stands for: without white space
/// around it and without the quotes around it.
pub open spec fn argument(part: Seq<char>) -> Seq<char> {
    let bare = without_leading(without_trailing(part, Strip::Space), Strip::Space);
    let single = without_trailing(without_leading(bare, Strip::Char('\'')), Strip::Char('\''));
    without_trailing(without_leading(single, Strip::Char('"')), Strip::Char('"'))
}

/// The list of arguments without white space and parentheses around it.
pub open spec fn argument_list(text: Seq<char>) -> Seq<char> {
    let bare = without_leading(without_trailing(text, Strip::Space), Strip::Space);
    let once = without_leading(without_trailing(bare, Strip::Char(')')), Strip::Char('('));
    without_leading(without_trailing(once, Strip::Char(')')), Strip::Char('('))
}

/// The arguments of a macro call, from the text between its name and its
/// end.
pub open spec fn arguments(text: Seq<char>) -> Seq<Seq<char>> {
    let parts = comma_parts(argument_list(text));
    Seq::new(parts.len(), |i: int| argument(parts[i]))
}

fn argument_of(part: &Vec<char>) -> (out: String)
    ensures
        out@ == argument(part@),
{
    let bare = strip_start(&strip_end(part, Strip::Space), Strip::Space);
    let single = strip_end(&strip_start(&bare, Strip::Char('\'')), Strip::Char('\''));
    let double = strip_end(&strip_start(&single, Strip::Char('"')), Strip::Char('"'));
    string_of(&double)
}

/// The arguments of a macro call, from the text between its name and its
/// end: the list is freed of white space and parentheses around it and
/// split at its commas, and each part of white space and quotes around it.
/// There is always at least one argument, which may be empty.
pub fn collect_args(text: &str) -> (out: Vec<String>)
    ensures
        texts_view(out@) == arguments(text@),
        out@.len() > 0,
{
    let chars = chars_of(text);
    let bare = strip_start(&strip_end(&chars, Strip::Space), Strip::Space);
    let once = strip_start(&strip_end(&bare, Strip::Char(')')), Strip::Char('('));
    let list = strip_start(&strip_end(&once, Strip::Char(')')), Strip::Char('('));
    let ghost parts = comma_parts(list@);
    let mut out: Vec<String> = Vec::new();
    let mut from: usize = 0;
    let mut i: usize = 0;
    proof {
        assert(list@.skip(0) == list@);
        assert(texts_view(out@) =~= Seq::<Seq<char>>::empty());
    }
    while i < list.len()
        invariant
            from <= i <= list.len(),
            forall|k: int| from <= k < i ==> list@[k] != ',',
            Seq::new(parts.len(), |k: int| argument(parts[k])) == texts_view(out@) + Seq::new(
                comma_parts(list@.skip(from as int)).len(),
                |k: int| argument(comma_parts(list@.skip(from as int))[k]),
            ),
            parts == comma_parts(list@),
        decreases list.len() - i,
    {
        if list[i] == ',' {
            let ghost rest = list@.skip(from as int);
            let ghost done = texts_view(out@);
            let part = slice(&list, from, i);
            proof {
                assert forall|k: int| 0 <= k < i - from implies rest[k] != ',' by {
                    assert(rest[k] == list@[from + k]);
                }
                assert(rest[i - from] == ',');
                lemma_position(rest, ',', i - from);
                assert(rest.take(i - from) == part@);
                assert(rest.skip(i - from + 1) == list@.skip(i + 1));
                let tail = comma_parts(list@.skip(i + 1));
                assert(comma_parts(rest) == seq![part@] + tail);
                assert(Seq::new(comma_parts(rest).len(), |k: int| argument(comma_parts(rest)[k]))
                    =~= seq![argument(part@)] + Seq::new(tail.len(), |k: int| argument(tail[k])));
            }
            let arg = argument_of(&part);
            out.push(arg);
            proof {
                let tail = comma_parts(list@.skip(i + 1));
                assert(texts_view(out@) =~= done.push(argument(part@)));
                assert(done + (seq![argument(part@)] + Seq::new(
                    tail.len(),
                    |k: int| argument(tail[k]),
                )) =~= texts_view(out@) + Seq::new(tail.len(), |k: int| argument(tail[k])));
            }
            from = i + 1;
        }
        i = i + 1;
    }
    let ghost rest = list@.skip(from as int);
    let ghost done = texts_view(out@);
    let part = slice(&list, from, list.len());
    proof {
        assert forall|k: int| 0 <= k < rest.len() implies rest[k] != ',' by {
            assert(rest[k] == list@[from + k]);
        }
        lemma_no_position(rest, ',');
        assert(part@ == rest);
        assert(comma_parts(rest) == seq![rest]);
        assert(Seq::new(comma_parts(rest).len(), |k: int| argument(comma_parts(rest)[k])) =~= seq![
            argument(rest),
        ]);
    }
    let arg = argument_of(&part);
    out.push(arg);
    proof {
        assert(texts_view(out@) =~= done + seq![argument(rest)]);
    }
    out
}

proof fn lemma_position(s: Seq<char>, c: char, n: int)
    requires
        0 <= n < s.len(),
        s[n] == c,
        forall|i: int| 0 <= i < n ==> s[i] != c,
    ensures
        position_of(s, c) == n,
    decreases n,
{
    if n > 0 {
        let rest = s.skip(1);
        assert(rest[n - 1] == s[n]);
        assert forall|i: int| 0 <= i < n - 1 implies rest[i] != c by {
            assert(rest[i] == s[i + 1]);
        }
        lemma_position(rest, c, n - 1);
    }
}

proof fn lemma_no_position(s: Seq<char>, c: char)
    requires
        forall|i: int| 0 <= i < s.len() ==> s[i] != c,
    ensures
        position_of(s, c) == s.len(),
    decreases s.len(),
{
    if s.len() > 0 {
        let rest = s.skip(1);
        assert forall|i: int| 0 <= i < rest.len() implies rest[i] != c by {
            assert(rest[i] == s[i + 1]);
        }
        lemma_no_position(rest, c);
    }
}

/// What takes the place of a call of the `todo` macro.
pub fn process_todo_macro() -> (out: String)
    ensures
        out@ == "<! TODO: add content -->"@,
{
    String::from_str("<! TODO: add content -->")
}

/// What takes the place of a call of the `page` macro: the macro for the
/// specifications or for the compatibility table where the second argument
/// asks for that section, whatever its case; a note that the call is not
/// supported, with the call without its braces, for any other section; and
/// nothing where there is no second argument.
pub open spec fn page_replacement(call: Seq<char>, args: Seq<Seq<char>>) -> Seq<char> {
    if args.len() < 2 {
        Seq::empty()
    } else if lowercased(args[1]) == "specifications"@ {
        "{{Specifications}}"@
    } else if lowercased(args[1]) == "browser_compatibility"@ {
        "{{Compat}}"@
    } else {
        "<!-- TODO: page macro not supported: "@ + replaced(
            replaced(call, "{"@, ""@),
            "}"@,
            ""@,
        ) + " -->"@
    }
}

/// What takes the place of a call of the `page` macro. `call` is the whole
/// call, `args` its arguments.
pub fn process_page_macro(call: &str, args: &Vec<String>) -> (out: String)
    ensures
        out@ == page_replacement(call@, texts_view(args@)),
{
    if args.len() < 2 {
        return String::new();
    }
    let section = lowercase(args[1].as_str());
    let section_chars = chars_of(section.as_str());
    if same_text(&section_chars, &chars_of("specifications")) {
        String::from_str("{{Specifications}}")
    } else if same_text(&section_chars, &chars_of("browser_compatibility")) {
        String::from_str("{{Compat}}")
    } else {
        let nothing = chars_of("");
        let open = replace_all(&chars_of(call), &chars_of("{"), &nothing);
        let bare = replace_all(&open, &chars_of("}"), &nothing);
        let mut out: Vec<char> = Vec::new();
        append_str(&mut out, "<!-- TODO: page macro not supported: ");
        append(&mut out, &bare);
        append_str(&mut out, " -->");
        string_of(&out)
    }
}

/// The URL of the page of an event, before redirects: below the events of
/// the web in the documents of the locale, under the first argument.
pub open spec fn event_page_url(locale: Seq<char>, args: Seq<Seq<char>>) -> Seq<char> {
    "/"@ + locale + "/docs/Web/Events/"@ + args[0]
}

/// The URL of the page of an event, before redirects. `locale` is the
/// segment by which URLs name the locale.
pub fn event_url(locale: &str, args: &Vec<String>) -> (out: String)
    requires
        args@.len() > 0,
    ensures
        out@ == event_page_url(locale@, texts_view(args@)),
{
    let mut out: Vec<char> = Vec::new();
    append_str(&mut out, "/");
    append_str(&mut out, locale);
    append_str(&mut out, "/docs/Web/Events/");
    append_str(&mut out, args[0].as_str());
    string_of(&out)
}

/// What takes the place of a call of the `event` macro: a link in
/// Markdown to the page of the event. It shows the second argument, or the
/// name of the event where there is none; a third argument is an anchor,
/// which is shown behind a dot and added to the URL behind a `#`.
pub open spec fn event_replacement(args: Seq<Seq<char>>, url: Seq<char>) -> Seq<char> {
    let shown = if args.len() > 1 {
        args[1]
    } else {
        args[0]
    };
    let anchor = if args.len() > 2 {
        args[2]
    } else {
        Seq::empty()
    };
    if anchor.len() == 0 {
        "[`"@ + shown + "`]("@ + url + ")"@
    } else {
        "[`"@ + shown + "."@ + anchor + "`]("@ + url + "#"@ + anchor + ")"@
    }
}

/// What takes the place of a call of the `event` macro. `url` is the URL
/// of the page of the event, after redirects.
pub fn process_event_macro(args: &Vec<String>, url: &str) -> (out: String)
    requires
        args@.len() > 0,
    ensures
        out@ == event_replacement(texts_view(args@), url@),
{
    let shown = if args.len() > 1 {
        &args[1]
    } else {
        &args[0]
    };
    let mut out: Vec<char> = Vec::new();
    append_str(&mut out, "[`");
    append_str(&mut out, shown.as_str());
    if args.len() > 2 && args[2].as_str().unicode_len() > 0 {
        append_str(&mut out, ".");
        append_str(&mut out, args[2].as_str());
        append_str(&mut out, "`](");
        append_str(&mut out, url);
        append_str(&mut out, "#");
        append_str(&mut out, args[2].as_str());
        append_str(&mut out, ")");
    } else {
        append_str(&mut out, "`](");
        append_str(&mut out, url);
        append_str(&mut out, ")");
    }
    string_of(&out)
}

/// The locales in which pages are written.
#[derive(Clone, Copy, Debug, PartialEq, Eq, Structural)]
pub enum Locale {
    EnUs,
    De,
    Fr,
    Es,
    Ja,
    Ko,
    PtBr,
    ZhCn,
    Ru,
    ZhTw,
}

/// The sentence that says, in a locale, that neither tag of an element may
/// be left out.
pub open spec fn no_tag_omission(locale: Locale) -> Seq<char> {
    match locale {
        Locale::EnUs => "None, both the starting and ending tag are mandatory."@,
        Locale::De => "Keine, sowohl das Start- als auch das End-Tag sind obligatorisch."@,
        Locale::Fr => "Aucune, la balise d'ouverture et la balise de fermeture sont obligatoires."@,
        Locale::Es => "Ninguna, tanto la etiqueta inicial como la final son obligatorias."@,
        Locale::Ja => "不可。開始と終了タグの両方が必要。"@,
        Locale::Ko => "불가능, 시작과 끝에 태그를 추가하는것은 필수입니다."@,
        Locale::PtBr => "Nenhuma, tanto a tag inicial quanto a final são obrigatórias."@,
        Locale::ZhCn => "不允许，开始标签和结束标签都不能省略。"@,
        Locale::Ru => "Нет, открывающий и закрывающий теги обязательны."@,
        Locale::ZhTw => "不允许，开始标签和结束标签都不能省略。"@,
    }
}

/// What takes the place of a call of the `no_tag_omission` macro in a page
/// of the locale.
pub fn process_no_tag_omission_macro(locale: Locale) -> (out: String)
    ensures
        out@ == no_tag_omission(locale),
{
    match locale {
        Locale::EnUs => String::from_str("None, both the starting and ending tag are mandatory."),
        Locale::De => String::from_str(
            "Keine, sowohl das Start- als auch das End-Tag sind obligatorisch.",
        ),
        Locale::Fr => String::from_str(
            "Aucune, la balise d'ouverture et la balise de fermeture sont obligatoires.",
        ),
        Locale::Es => String::from_str(
            "Ninguna, tanto la etiqueta inicial como la final son obligatorias.",
        ),
        Locale::Ja => String::from_str("不可。開始と終了タグの両方が必要。"),
        Locale::Ko => String::from_str("불가능, 시작과 끝에 태그를 추가하는것은 필수입니다."),
        Locale::PtBr => String::from_str(
            "Nenhuma, tanto a tag inicial quanto a final são obrigatórias.",
        ),
        Locale::ZhCn => String::from_str("不允许，开始标签和结束标签都不能省略。"),
        Locale::Ru => String::from_str("Нет, открывающий и закрывающий теги обязательны."),
        Locale::ZhTw => String::from_str("不允许，开始标签和结束标签都不能省略。"),
    }
}

/// Whether a file belongs to the pages of a locale: its path, without the
/// root of the translated pages and the separators that then begin it,
/// begins in lowercase with the folder of the locale.
pub open spec fn belongs_to_folder(
    path: Seq<char>,
    root: Seq<char>,
    separator: char,
    folder: Seq<char>,
) -> bool {
    folder.is_prefix_of(
        lowercased(without_leading(replaced(path, root, Seq::empty()), Strip::Char(separator))),
    )
}

/// Whether a file belongs to the pages of a locale. `root` is the root of
/// the translated pages, `separator` what separates the folders of a path,
/// and `folder` the folder of the locale.
pub fn in_locale_folder(path: &str, root: &str, separator: char, folder: &str) -> (r: bool)
    ensures
        r == belongs_to_folder(path@, root@, separator, folder@),
{
    let nothing: Vec<char> = Vec::new();
    let local = replace_all(&chars_of(path), &chars_of(root), &nothing);
    let bare = strip_start(&local, Strip::Char(separator));
    let lower = lowercase(string_of(&bare).as_str());
    starts_with(&chars_of(lower.as_str()), &chars_of(folder))
}

/// What `Regex::captures_iter` gives for a pattern that is accepted: for
/// each match of the pattern in the text, in their order and none inside
/// another, the text of the match and the text of its first group, empty
/// where the group is not there. These are the matches that
/// `Regex::replace_all` replaces.
pub uninterp spec fn regex_matches(pattern: Seq<char>, text: Seq<char>) -> Seq<
    (Seq<char>, Seq<char>),
>;

/// What `Regex::replace_all` makes of a text, for a pattern that is
/// accepted and with a function as the replacer: the text with each match
/// of the pattern, in their order, replaced by the text that the function
/// gave for it.
pub uninterp spec fn regex_replaced_each(
    pattern: Seq<char>,
    text: Seq<char>,
    with: Seq<Seq<char>>,
) -> Seq<char>;

/// A redirect of the site: from a URL in lowercase to the URL that stands
/// for it now.
pub struct Redirect {
    pub from: String,
    pub to: String,
}

impl Redirect {
    /// The redirect from a URL, in whatever case it is written, to another.
    pub fn new(from: &str, to: &str) -> (out: Redirect)
        ensures
            out.from@ == lowercased(from@),
            out.to@ == to@,
    {
        Redirect { from: lowercase(from), to: String::from_str(to) }
    }
}

/// Whether redirect `i` is the first one from the URL.
pub open spec fn redirects_at(redirects: Seq<Redirect>, url: Seq<char>, i: int) -> bool {
    &&& 0 <= i < redirects.len()
    &&& redirects[i].from@ == url
    &&& forall|j: int| 0 <= j < i ==> redirects[j].from@ != url
}

/// The URL that stands for a URL now: where the first redirect from its
/// lowercase form leads, or the URL itself where there is none.
pub open spec fn redirected(redirects: Seq<Redirect>, url: Seq<char>) -> Seq<char> {
    if exists|i: int| redirects_at(redirects, lowercased(url), i) {
        redirects[choose|i: int| redirects_at(redirects, lowercased(url), i)].to@
    } else {
        url
    }
}

/// The URL that stands for a URL now.
pub fn follow_redirect(redirects: &Vec<Redirect>, url: &str) -> (out: String)
    ensures
        out@ == redirected(redirects@, url@),
{
    let wanted = chars_of(lowercase(url).as_str());
    let mut i: usize = 0;
    while i < redirects.len()
        invariant
            i <= redirects.len(),
            wanted@ == lowercased(url@),
            forall|j: int| 0 <= j < i ==> redirects@[j].from@ != wanted@,
        decreases redirects.len() - i,
    {
        if same_text(&chars_of(redirects[i].from.as_str()), &wanted) {
            proof {
                assert(redirects_at(redirects@, wanted@, i as int));
                let k = choose|k: int| redirects_at(redirects@, wanted@, k);
                assert(k == i);
            }
            return redirects[i].to.clone();
        }
        i = i + 1;
    }
    String::from_str(url)
}

/// The macros that pages no longer use.
#[derive(Clone, Copy, Debug, PartialEq, Eq, Structural)]
pub enum Macro {
    Event,
    NoTagOmission,
    Page,
    Todo,
}

/// The pattern of the calls of a macro, whatever the case of its name.
pub open spec fn macro_pattern(kind: Macro) -> Seq<char> {
    match kind {
        Macro::Event => "(?i)\\{\\{\\s*event([^}]*)\\s*\\}\\}"@,
        Macro::NoTagOmission => "(?i)\\{\\{\\s*no_tag_omission\\s*\\}\\}"@,
        Macro::Page => "(?i)\\{\\{\\s*page(\\([^}]*)\\s*\\}\\}"@,
        Macro::Todo => "(?i)\\{\\{\\s*todo[^}]*\\s*\\}\\}"@,
    }
}

/// What takes the place of one call of a macro in a page of the locale.
/// `locale_url` is the segment by which URLs name the locale.
pub open spec fn call_replacement(
    kind: Macro,
    call: (Seq<char>, Seq<char>),
    locale: Locale,
    locale_url: Seq<char>,
    redirects: Seq<Redirect>,
) -> Seq<char> {
    match kind {
        Macro::Event => event_replacement(
            arguments(call.1),
            redirected(redirects, event_page_url(locale_url, arguments(call.1))),
        ),
        Macro::NoTagOmission => no_tag_omission(locale),
        Macro::Page => page_replacement(call.0, arguments(call.1)),
        Macro::Todo => "<! TODO: add content -->"@,
    }
}

/// What takes the place of each call of a macro, in the order of the
/// calls.
pub open spec fn replacements(
    kind: Macro,
    calls: Seq<(Seq<char>, Seq<char>)>,
    locale: Locale,
    locale_url: Seq<char>,
    redirects: Seq<Redirect>,
) -> Seq<Seq<char>> {
    Seq::new(calls.len(), |i: int| call_replacement(kind, calls[i], locale, locale_url, redirects))
}

/// A text with every call of one macro replaced by what takes its place;
/// none where the pattern of the macro is not accepted.
pub open spec fn macro_replaced(
    kind: Macro,
    text: Seq<char>,
    locale: Locale,
    locale_url: Seq<char>,
    redirects: Seq<Redirect>,
) -> Option<Seq<char>> {
    if regex_valid(macro_pattern(kind)) {
        Some(
            regex_replaced_each(
                macro_pattern(kind),
                text,
                replacements(
                    kind,
                    regex_matches(macro_pattern(kind), text),
                    locale,
                    locale_url,
                    redirects,
                ),
            ),
        )
    } else {
        None
    }
}

fn pattern_of(kind: Macro) -> (out: &'static str)
    ensures
        out@ == macro_pattern(kind),
{
    match kind {
        Macro::Event => "(?i)\\{\\{\\s*event([^}]*)\\s*\\}\\}",
        Macro::NoTagOmission => "(?i)\\{\\{\\s*no_tag_omission\\s*\\}\\}",
        Macro::Page => "(?i)\\{\\{\\s*page(\\([^}]*)\\s*\\}\\}",
        Macro::Todo => "(?i)\\{\\{\\s*todo[^}]*\\s*\\}\\}",
    }
}

/// What takes the place of one call of a macro. `whole` is the call, and
/// `group` what the first group of the pattern holds of it.
pub fn replace_call(
    kind: Macro,
    whole: &str,
    group: &str,
    locale: Locale,
    locale_url: &str,
    redirects: &Vec<Redirect>,
) -> (out: String)
    ensures
        out@ == call_replacement(kind, (whole@, group@), locale, locale_url@, redirects@),
{
    match kind {
        Macro::Event => {
            let args = collect_args(group);
            let url = event_url(locale_url, &args);
            let target = follow_redirect(redirects, url.as_str());
            process_event_macro(&args, target.as_str())
        },
        Macro::NoTagOmission => process_no_tag_omission_macro(locale),
        Macro::Page => {
            let args = collect_args(group);
            process_page_macro(whole, &args)
        },
        Macro::Todo => process_todo_macro(),
    }
}

/// Compiles the pattern with `Regex::new` and calls `Regex::replace_all`
/// on the text, with [`replace_call`] as the function that replaces a
/// match. Claimed: it fails where the pattern is not accepted, and only
/// there; the function is asked once for each match that
/// `Regex::captures_iter` gives, in their order, with the text of the match
/// and of its first group; and what comes out depends on the pattern, the
/// text and what the function gave alone.
#[verifier::external_body]
fn replace_calls(
    pattern: &str,
    text: &str,
    kind: Macro,
    locale: Locale,
    locale_url: &str,
    redirects: &Vec<Redirect>,
) -> (out: Result<String, regex::Error>)
    ensures
        out is Ok <==> regex_valid(pattern@),
        out matches Ok(replaced) ==> replaced@ == regex_replaced_each(
            pattern@,
            text@,
            replacements(kind, regex_matches(pattern@, text@), locale, locale_url@, redirects@),
        ),
{
    let re = regex::Regex::new(pattern)?;
    let replace = |caps: &regex::Captures| {
        let whole = caps.get(0).map_or("", |m| m.as_str());
        let group = caps.get(1).map_or("", |m| m.as_str());
        replace_call(kind, whole, group, locale, locale_url, redirects)
    };
    Ok(re.replace_all(text, replace).into_owned())
}

/// Replaces every call of one macro in a text; none where the pattern of
/// the macro is not accepted.
pub fn replace_macro(
    kind: Macro,
    text: &str,
    locale: Locale,
    locale_url: &str,
    redirects: &Vec<Redirect>,
) -> (out: Option<String>)
    ensures
        out is Some <==> macro_replaced(kind, text@, locale, locale_url@, redirects@) is Some,
        out matches Some(s) ==> macro_replaced(kind, text@, locale, locale_url@, redirects@)
            == Some(s@),
{
    match replace_calls(pattern_of(kind), text, kind, locale, locale_url, redirects) {
        Ok(replaced) => Some(replaced),
        Err(_) => None,
    }
}

/// A page with the calls of the macros that pages no longer use replaced:
/// first those of `event`, then of `no_tag_omission`, of `page` and of
/// `todo`. None where a pattern is not accepted.
pub open spec fn macros_replaced(
    content: Seq<char>,
    locale: Locale,
    locale_url: Seq<char>,
    redirects: Seq<Redirect>,
) -> Option<Seq<char>> {
    match macro_replaced(Macro::Event, content, locale, locale_url, redirects) {
        None => None,
        Some(a) => match macro_replaced(Macro::NoTagOmission, a, locale, locale_url, redirects) {
            None => None,
            Some(b) => match macro_replaced(Macro::Page, b, locale, locale_url, redirects) {
                None => None,
                Some(c) => macro_replaced(Macro::Todo, c, locale, locale_url, redirects),
            },
        },
    }
}

/// Replaces the calls of the macros that pages no longer use in the
/// content of a page.
pub fn replace_macros(
    content: &str,
    locale: Locale,
    locale_url: &str,
    redirects: &Vec<Redirect>,
) -> (out: Option<String>)
    ensures
        out is Some <==> macros_replaced(content@, locale, locale_url@, redirects@) is Some,
        out matches Some(s) ==> macros_replaced(content@, locale, locale_url@, redirects@)
            == Some(s@),
{
    let a = match replace_macro(Macro::Event, content, locale, locale_url, redirects) {
        Some(a) => a,
        None => {
            return None;
        },
    };
    let b = match replace_macro(Macro::NoTagOmission, a.as_str(), locale, locale_url, redirects) {
        Some(b) => b,
        None => {
            return None;
        },
    };
    let c = match replace_macro(Macro::Page, b.as_str(), locale, locale_url, redirects) {
        Some(c) => c,
        None => {
            return None;
        },
    };
    replace_macro(Macro::Todo, c.as_str(), locale, locale_url, redirects)
}

/// The file of a page: its path and its content.
pub struct PageFile {
    pub path: String,
    pub content: String,
}

/// The files of a list, as pairs of path and content.
pub open spec fn files_view(files: Seq<PageFile>) -> Seq<(Seq<char>, Seq<char>)> {
    Seq::new(files.len(), |i: int| (files[i].path@, files[i].content@))
}

/// What is written back for a page: its content with the calls replaced,
/// where that differs from the content; nothing where it does not.
pub open spec fn page_rewritten(
    content: Seq<char>,
    locale: Locale,
    locale_url: Seq<char>,
    redirects: Seq<Redirect>,
) -> Option<Seq<char>> {
    match macros_replaced(content, locale, locale_url, redirects) {
        Some(replaced) if replaced != content => Some(replaced),
        _ => None,
    }
}

/// What became of a page when the calls in it were replaced.
pub enum Rewrite {
    /// The page holds no such call: it stays as it is.
    Unchanged,
    /// The page is written back with this content.
    Changed(String),
    /// A pattern was not accepted.
    Failed,
}

/// Replaces the calls of the macros that pages no longer use in the
/// content of a page, and tells whether the page is to be written back: it
/// is where the new content differs from the old, and then with the new
/// content.
pub fn rewrite_page(content: &str, locale: Locale, locale_url: &str, redirects: &Vec<Redirect>) -> (out:
    Rewrite)
    ensures
        out is Failed <==> macros_replaced(content@, locale, locale_url@, redirects@) is None,
        out is Unchanged <==> macros_replaced(content@, locale, locale_url@, redirects@) == Some(
            content@,
        ),
        out matches Rewrite::Changed(new) ==> page_rewritten(
            content@,
            locale,
            locale_url@,
            redirects@,
        ) == Some(new@),
{
    match replace_macros(content, locale, locale_url, redirects) {
        None => Rewrite::Failed,
        Some(replaced) => {
            if same_text(&chars_of(replaced.as_str()), &chars_of(content)) {
                Rewrite::Unchanged
            } else {
                Rewrite::Changed(replaced)
            }
        },
    }
}

/// The files that are written back, as pairs of path and new content, in
/// the order of the files: each file whose content changes when the calls
/// in it are replaced, and no other.
pub open spec fn rewritten_files(
    files: Seq<PageFile>,
    locale: Locale,
    locale_url: Seq<char>,
    redirects: Seq<Redirect>,
) -> Seq<(Seq<char>, Seq<char>)>
    decreases files.len(),
{
    if files.len() == 0 {
        Seq::empty()
    } else {
        let before = rewritten_files(files.drop_last(), locale, locale_url, redirects);
        match page_rewritten(files.last().content@, locale, locale_url, redirects) {
            Some(new) => before.push((files.last().path@, new)),
            None => before,
        }
    }
}

/// A file is written back exactly where its content changes, and then
/// with its changed content: a path and a text are among what is written
/// exactly where a file has the path and the text is what its content
/// becomes, being another than the content.
pub proof fn lemma_written_where_changed(
    files: Seq<PageFile>,
    locale: Locale,
    locale_url: Seq<char>,
    redirects: Seq<Redirect>,
    path: Seq<char>,
    new: Seq<char>,
)
    ensures
        rewritten_files(files, locale, locale_url, redirects).contains((path, new)) <==> exists|
            i: int,
        |
            0 <= i < files.len() && (#[trigger] files[i]).path@ == path && page_rewritten(
                files[i].content@,
                locale,
                locale_url,
                redirects,
            ) == Some(new),
        rewritten_files(files, locale, locale_url, redirects).len() <= files.len(),
    decreases files.len(),
{
    let written = rewritten_files(files, locale, locale_url, redirects);
    if files.len() > 0 {
        let front = files.drop_last();
        let before = rewritten_files(front, locale, locale_url, redirects);
        let last = files.last();
        lemma_written_where_changed(front, locale, locale_url, redirects, path, new);
        let here = page_rewritten(last.content@, locale, locale_url, redirects);
        if written.contains((path, new)) {
            let k = choose|k: int| 0 <= k < written.len() && written[k] == (path, new);
            if here is Some && k == before.len() {
                assert(files[files.len() - 1] == last);
            } else {
                assert(before[k] == (path, new));
                assert(before.contains((path, new)));
                let i = choose|i: int|
                    0 <= i < front.len() && (#[trigger] front[i]).path@ == path && page_rewritten(
                        front[i].content@,
                        locale,
                        locale_url,
                        redirects,
                    ) == Some(new);
                assert(files[i] == front[i]);
            }
        }
        if exists|i: int|
            0 <= i < files.len() && (#[trigger] files[i]).path@ == path && page_rewritten(
                files[i].content@,
                locale,
                locale_url,
                redirects,
            ) == Some(new) {
            let i = choose|i: int|
                0 <= i < files.len() && (#[trigger] files[i]).path@ == path && page_rewritten(
                    files[i].content@,
                    locale,
                    locale_url,
                    redirects,
                ) == Some(new);
            if i == files.len() - 1 {
                assert(written[before.len() as int] == (path, new));
            } else {
                assert(front[i] == files[i]);
                assert(before.contains((path, new)));
                let k = choose|k: int| 0 <= k < before.len() && before[k] == (path, new);
                assert(written[k] == (path, new));
            }
        }
    }
}

/// Whether the calls can be replaced in every file: no pattern is refused.
pub open spec fn all_replaceable(
    files: Seq<PageFile>,
    locale: Locale,
    locale_url: Seq<char>,
    redirects: Seq<Redirect>,
) -> bool {
    forall|i: int|
        0 <= i < files.len() ==> macros_replaced(
            #[trigger] files[i].content@,
            locale,
            locale_url,
            redirects,
        ) is Some
}

/// Replaces the calls of the macros that pages no longer use in the files
/// of a locale, and gives the files that are to be written back, each with
/// its new content: a file is among them exactly where its content
/// changed. Their number is the number of files changed. None where a
/// pattern is not accepted.
pub fn replace_deprecated_macros(
    files: &Vec<PageFile>,
    locale: Locale,
    locale_url: &str,
    redirects: &Vec<Redirect>,
) -> (out: Option<Vec<PageFile>>)
    ensures
        out is Some <==> all_replaceable(files@, locale, locale_url@, redirects@),
        out matches Some(written) ==> files_view(written@) == rewritten_files(
            files@,
            locale,
            locale_url@,
            redirects@,
        ),
{
    let mut written: Vec<PageFile> = Vec::new();
    let mut i: usize = 0;
    proof {
        assert(files@.take(0) =~= Seq::<PageFile>::empty());
        assert(files_view(written@) =~= Seq::<(Seq<char>, Seq<char>)>::empty());
    }
    while i < files.len()
        invariant
            i <= files.len(),
            all_replaceable(files@.take(i as int), locale, locale_url@, redirects@),
            files_view(written@) == rewritten_files(
                files@.take(i as int),
                locale,
                locale_url@,
                redirects@,
            ),
        decreases files.len() - i,
    {
        let ghost before = files_view(written@);
        proof {
            assert(files@.take(i + 1).drop_last() == files@.take(i as int));
            assert(files@.take(i + 1).last() == files@[i as int]);
        }
        match rewrite_page(files[i].content.as_str(), locale, locale_url, redirects) {
            Rewrite::Failed => {
                return None;
            },
            Rewrite::Unchanged => {},
            Rewrite::Changed(new) => {
                written.push(PageFile { path: files[i].path.clone(), content: new });
                proof {
                    assert(files_view(written@) =~= before.push((files@[i as int].path@, new@)));
                }
            },
        }
        proof {
            assert forall|j: int| 0 <= j < i + 1 implies macros_replaced(
                #[trigger] files@.take(i + 1)[j].content@,
                locale,
                locale_url@,
                redirects@,
            ) is Some by {
                if j < i {
                    assert(files@.take(i + 1)[j] == files@.take(i as int)[j]);
                }
            }
        }
        i = i + 1;
    }
    proof {
        assert(files@.take(files@.len() as int) == files@);
    }
    Some(written)
}

/// The line that tells how many files were changed.
pub open spec fn changed_line(count: nat) -> Seq<char> {
    "Changed "@ + decimal(count) + " files"@
}

/// The line that tells how many files were changed.
pub fn changed_files_line(count: usize) -> (out: String)
    ensures
        out@ == changed_line(count as nat),
{
    let mut out: Vec<char> = Vec::new();
    append_str(&mut out, "Changed ");
    push_decimal(&mut out, count);
    append_str(&mut out, " files");
    string_of(&out)
}

} // verus!
