//! Text as sequences of characters: the conversions between `String` and
//! `Vec<char>`, and the few string operations the rest of the crate is built on.
use vstd::prelude::*;

verus! {

/// `String::push` appends one character to the end of the string.
pub assume_specification[ String::push ](s: &mut String, c: char)
    ensures
        final(s)@ == old(s)@.push(c),
;

/// What `str::to_lowercase` returns for a text: its lowercase form by the
/// Unicode case tables.
pub uninterp spec fn lowercased(s: Seq<char>) -> Seq<char>;

/// Whether every character of a text is an ASCII character.
pub open spec fn is_ascii(s: Seq<char>) -> bool {
    forall|i: int| 0 <= i < s.len() ==> (#[trigger] s[i] as nat) < 128
}

/// Whether the character is one of the capital letters `A` to `Z`.
pub open spec fn is_capital(c: char) -> bool {
    65 <= (c as nat) <= 90
}

/// The small letter of one of the capital letters `A` to `Z`; every other
/// character is itself.
pub open spec fn small(c: char) -> char {
    if is_capital(c) {
        ((c as u8 + 32) as u8) as char
    } else {
        c
    }
}

/// A text with each of the capital letters `A` to `Z` replaced by its small
/// letter.
pub open spec fn small_letters(s: Seq<char>) -> Seq<char> {
    Seq::new(s.len(), |i: int| small(s[i]))
}

/// Calls `str::to_lowercase`. Claimed: the result depends on the text
/// alone; and of a text of ASCII characters alone it is the text with each
/// of the capital letters `A` to `Z` replaced by its small letter, which is
/// what the Unicode case tables have for these characters.
#[verifier::external_body]
pub(crate) fn lowercase(s: &str) -> (out: String)
    ensures
        out@ == lowercased(s@),
        is_ascii(s@) ==> out@ == small_letters(s@),
{
    s.to_lowercase()
}

/// The characters of a string slice, in order.
pub fn chars_of(s: &str) -> (out: Vec<char>)
    ensures
        out@ == s@,
{
    broadcast use vstd::string::group_string_axioms;

    let mut out: Vec<char> = Vec::new();
    for c in it: s.chars()
        invariant
            it.seq() == s@,
            out@ == it.seq().take(it.index()),
    {
        out.push(c);
    }
    out
}

/// The string made of the given characters, in order.
pub fn string_of(chars: &Vec<char>) -> (out: String)
    ensures
        out@ == chars@,
{
    let mut out = String::new();
    let mut i: usize = 0;
    while i < chars.len()
        invariant
            i <= chars.len(),
            out@ == chars@.subrange(0, i as int),
        decreases chars.len() - i,
    {
        out.push(chars[i]);
        i = i + 1;
    }
    proof {
        assert(chars@.subrange(0, chars@.len() as int) == chars@);
    }
    out
}

/// Appends all of `tail` to `out`.
pub fn append(out: &mut Vec<char>, tail: &Vec<char>)
    ensures
        final(out)@ == old(out)@ + tail@,
{
    let mut i: usize = 0;
    while i < tail.len()
        invariant
            i <= tail.len(),
            out@ == old(out)@ + tail@.subrange(0, i as int),
        decreases tail.len() - i,
    {
        out.push(tail[i]);
        i = i + 1;
    }
    proof {
        assert(tail@.subrange(0, tail@.len() as int) == tail@);
    }
}

/// Appends the characters of `tail` to `out`.
pub fn append_str(out: &mut Vec<char>, tail: &str)
    ensures
        final(out)@ == old(out)@ + tail@,
{
    let chars = chars_of(tail);
    append(out, &chars);
}

/// Whether the two texts hold the same characters.
pub fn same_text(a: &Vec<char>, b: &Vec<char>) -> (r: bool)
    ensures
        r == (a@ == b@),
{
    if a.len() != b.len() {
        return false;
    }
    let mut i: usize = 0;
    while i < a.len()
        invariant
            a.len() == b.len(),
            i <= a.len(),
            a@.subrange(0, i as int) == b@.subrange(0, i as int),
        decreases a.len() - i,
    {
        if a[i] != b[i] {
            return false;
        }
        proof {
            assert(a@.subrange(0, i + 1) == a@.subrange(0, i as int).push(a@[i as int]));
            assert(b@.subrange(0, i + 1) == b@.subrange(0, i as int).push(b@[i as int]));
        }
        i = i + 1;
    }
    proof {
        assert(a@.subrange(0, a@.len() as int) == a@);
        assert(b@.subrange(0, b@.len() as int) == b@);
    }
    true
}

/// Whether `pat` occurs in `s` at position `at`.
pub open spec fn occurs_at(s: Seq<char>, pat: Seq<char>, at: int) -> bool {
    &&& 0 <= at
    &&& at + pat.len() <= s.len()
    &&& s.subrange(at, at + pat.len()) == pat
}

/// Whether `pat` occurs in `s` at position `at`.
pub fn matches_at(s: &Vec<char>, pat: &Vec<char>, at: usize) -> (r: bool)
    ensures
        r == occurs_at(s@, pat@, at as int),
{
    if at > s.len() || pat.len() > s.len() - at {
        return false;
    }
    let mut i: usize = 0;
    while i < pat.len()
        invariant
            at + pat.len() <= s.len(),
            i <= pat.len(),
            s@.subrange(at as int, at + i) == pat@.subrange(0, i as int),
        decreases pat.len() - i,
    {
        if s[at + i] != pat[i] {
            proof {
                assert(s@.subrange(at as int, at + pat.len())[i as int] == s@[at + i]);
            }
            return false;
        }
        proof {
            assert(s@.subrange(at as int, at + i + 1) == s@.subrange(at as int, at + i).push(
                s@[at + i],
            ));
            assert(pat@.subrange(0, i + 1) == pat@.subrange(0, i as int).push(pat@[i as int]));
        }
        i = i + 1;
    }
    proof {
        assert(pat@.subrange(0, pat@.len() as int) == pat@);
    }
    true
}

/// Whether `s` begins with `prefix`.
pub fn starts_with(s: &Vec<char>, prefix: &Vec<char>) -> (r: bool)
    ensures
        r == prefix@.is_prefix_of(s@),
{
    let r = matches_at(s, prefix, 0);
    proof {
        if prefix@.len() <= s@.len() {
            assert(s@.subrange(0, prefix@.len() as int) == prefix@ <==> prefix@.is_prefix_of(s@));
        }
    }
    r
}

/// Whether `s` ends with `suffix`.
pub fn ends_with(s: &Vec<char>, suffix: &Vec<char>) -> (r: bool)
    ensures
        r == suffix@.is_suffix_of(s@),
{
    if suffix.len() > s.len() {
        return false;
    }
    let r = matches_at(s, suffix, s.len() - suffix.len());
    proof {
        assert(s@.subrange(s@.len() - suffix@.len(), s@.len() as int) == suffix@
            <==> suffix@.is_suffix_of(s@));
    }
    r
}

/// The text with every occurrence of `pat` replaced by `rep`, scanning from
/// the left and never matching inside what an earlier match covered. With an
/// empty `pat` the text is unchanged.
pub open spec fn replaced(s: Seq<char>, pat: Seq<char>, rep: Seq<char>) -> Seq<char>
    decreases s.len(),
{
    if pat.len() == 0 || s.len() == 0 {
        s
    } else if occurs_at(s, pat, 0) {
        rep + replaced(s.skip(pat.len() as int), pat, rep)
    } else {
        seq![s[0]] + replaced(s.skip(1), pat, rep)
    }
}

/// What holds of every character of a text and of the replacement holds of
/// every character of the text after replacing.
pub proof fn lemma_replaced_keeps(
    s: Seq<char>,
    pat: Seq<char>,
    rep: Seq<char>,
    holds: spec_fn(char) -> bool,
)
    requires
        forall|i: int| 0 <= i < s.len() ==> holds(#[trigger] s[i]),
        forall|i: int| 0 <= i < rep.len() ==> holds(#[trigger] rep[i]),
    ensures
        forall|i: int|
            0 <= i < replaced(s, pat, rep).len() ==> holds(#[trigger] replaced(s, pat, rep)[i]),
    decreases s.len(),
{
    let out = replaced(s, pat, rep);
    if pat.len() == 0 || s.len() == 0 {
    } else {
        let (front, rest) = if occurs_at(s, pat, 0) {
            (rep, s.skip(pat.len() as int))
        } else {
            (seq![s[0]], s.skip(1))
        };
        assert forall|i: int| 0 <= i < rest.len() implies holds(#[trigger] rest[i]) by {
            assert(rest[i] == s[i + (s.len() - rest.len())]);
        }
        lemma_replaced_keeps(rest, pat, rep, holds);
        let tail = replaced(rest, pat, rep);
        assert(out == front + tail);
        assert forall|i: int| 0 <= i < out.len() implies holds(#[trigger] out[i]) by {
            if i < front.len() {
                assert(out[i] == front[i]);
            } else {
                assert(out[i] == tail[i - front.len()]);
            }
        }
    }
}

/// Where a character is replaced by a text that does not hold it, the text
/// after replacing does not hold it.
pub proof fn lemma_replaced_removes(s: Seq<char>, c: char, rep: Seq<char>)
    requires
        forall|i: int| 0 <= i < rep.len() ==> #[trigger] rep[i] != c,
    ensures
        forall|i: int|
            0 <= i < replaced(s, seq![c], rep).len() ==> #[trigger] replaced(s, seq![c], rep)[i]
                != c,
    decreases s.len(),
{
    let pat = seq![c];
    let out = replaced(s, pat, rep);
    if s.len() > 0 {
        let front = if occurs_at(s, pat, 0) {
            rep
        } else {
            seq![s[0]]
        };
        if s[0] == c {
            assert(s.subrange(0, 1) =~= pat);
        } else {
            assert(s.subrange(0, 1)[0] == s[0]);
        }
        lemma_replaced_removes(s.skip(1), c, rep);
        let tail = replaced(s.skip(1), pat, rep);
        assert(out == front + tail);
        assert forall|i: int| 0 <= i < out.len() implies #[trigger] out[i] != c by {
            if i < front.len() {
                assert(out[i] == front[i]);
            } else {
                assert(out[i] == tail[i - front.len()]);
            }
        }
    }
}

/// Replaces every occurrence of `pat` in `s` by `rep`.
pub fn replace_all(s: &Vec<char>, pat: &Vec<char>, rep: &Vec<char>) -> (out: Vec<char>)
    ensures
        out@ == replaced(s@, pat@, rep@),
{
    let mut out: Vec<char> = Vec::new();
    if pat.len() == 0 {
        append(&mut out, s);
        return out;
    }
    let mut i: usize = 0;
    proof {
        assert(s@.skip(0) == s@);
        assert(Seq::<char>::empty() + s@ == s@);
        assert(out@ + replaced(s@, pat@, rep@) == replaced(s@, pat@, rep@));
    }
    while i < s.len()
        invariant
            pat.len() > 0,
            i <= s.len(),
            out@ + replaced(s@.skip(i as int), pat@, rep@) == replaced(s@, pat@, rep@),
        decreases s.len() - i,
    {
        let ghost rest = s@.skip(i as int);
        let ghost before = out@;
        if matches_at(s, pat, i) {
            proof {
                assert(rest.subrange(0, pat@.len() as int) == s@.subrange(
                    i as int,
                    i + pat@.len(),
                ));
                assert(occurs_at(rest, pat@, 0));
                assert(rest.skip(pat@.len() as int) == s@.skip(i + pat@.len()));
            }
            append(&mut out, rep);
            i = i + pat.len();
            proof {
                assert(out@ + replaced(s@.skip(i as int), pat@, rep@) == before + (rep@ + replaced(
                    s@.skip(i as int),
                    pat@,
                    rep@,
                )));
            }
        } else {
            proof {
                if i + pat@.len() <= s@.len() {
                    assert(rest.subrange(0, pat@.len() as int) == s@.subrange(
                        i as int,
                        i + pat@.len(),
                    ));
                }
                assert(!occurs_at(rest, pat@, 0));
                assert(rest.skip(1) == s@.skip(i + 1));
                assert(rest[0] == s@[i as int]);
            }
            out.push(s[i]);
            i = i + 1;
            proof {
                assert(out@ + replaced(s@.skip(i as int), pat@, rep@) == before + (seq![
                    s@[i - 1],
                ] + replaced(s@.skip(i as int), pat@, rep@)));
            }
        }
    }
    proof {
        assert(s@.skip(s@.len() as int).len() == 0);
        assert(out@ + Seq::<char>::empty() == out@);
    }
    out
}

/// Whether a generated heading id may end in this character without the
/// ending counting: an underscore or an ASCII digit.
pub open spec fn is_id_tail(c: char) -> bool {
    c == '_' || ('0' <= c && c <= '9')
}

/// The text without its longest ending made of underscores and ASCII digits.
pub open spec fn without_id_tail(s: Seq<char>) -> Seq<char>
    decreases s.len(),
{
    if s.len() > 0 && is_id_tail(s.last()) {
        without_id_tail(s.drop_last())
    } else {
        s
    }
}

/// Removes the underscores and ASCII digits that end the text.
pub fn strip_id_tail(s: &Vec<char>) -> (out: Vec<char>)
    ensures
        out@ == without_id_tail(s@),
{
    let mut end: usize = s.len();
    proof {
        assert(s@.take(s@.len() as int) == s@);
    }
    while end > 0 && (s[end - 1] == '_' || (s[end - 1] >= '0' && s[end - 1] <= '9'))
        invariant
            end <= s.len(),
            without_id_tail(s@) == without_id_tail(s@.take(end as int)),
        decreases end,
    {
        proof {
            assert(s@.take(end as int).last() == s@[end - 1]);
            assert(s@.take(end as int).drop_last() == s@.take(end - 1));
        }
        end = end - 1;
    }
    proof {
        assert(s@.take(s@.len() as int) == s@);
        if end > 0 {
            assert(s@.take(end as int).last() == s@[end - 1]);
        }
    }
    let mut out: Vec<char> = Vec::new();
    let mut i: usize = 0;
    while i < end
        invariant
            i <= end <= s.len(),
            out@ == s@.take(i as int),
        decreases end - i,
    {
        out.push(s[i]);
        proof {
            assert(s@.take(i + 1) == s@.take(i as int).push(s@[i as int]));
        }
        i = i + 1;
    }
    out
}

/// The character that writes the decimal digit `d`.
pub open spec fn digit_char(d: nat) -> char {
    if d == 0 {
        '0'
    } else if d == 1 {
        '1'
    } else if d == 2 {
        '2'
    } else if d == 3 {
        '3'
    } else if d == 4 {
        '4'
    } else if d == 5 {
        '5'
    } else if d == 6 {
        '6'
    } else if d == 7 {
        '7'
    } else if d == 8 {
        '8'
    } else {
        '9'
    }
}

/// The decimal writing of a natural number, without leading zeros.
pub open spec fn decimal(n: nat) -> Seq<char>
    decreases n,
{
    if n < 10 {
        seq![digit_char(n)]
    } else {
        decimal(n / 10).push(digit_char(n % 10))
    }
}

fn digit(d: usize) -> (c: char)
    requires
        d < 10,
    ensures
        c == digit_char(d as nat),
{
    if d == 0 {
        '0'
    } else if d == 1 {
        '1'
    } else if d == 2 {
        '2'
    } else if d == 3 {
        '3'
    } else if d == 4 {
        '4'
    } else if d == 5 {
        '5'
    } else if d == 6 {
        '6'
    } else if d == 7 {
        '7'
    } else if d == 8 {
        '8'
    } else {
        '9'
    }
}

/// Appends the decimal writing of `n` to `out`.
pub fn push_decimal(out: &mut Vec<char>, n: usize)
    ensures
        final(out)@ == old(out)@ + decimal(n as nat),
    decreases n,
{
    if n < 10 {
        out.push(digit(n));
        proof {
            assert(old(out)@.push(digit_char(n as nat)) == old(out)@ + seq![digit_char(n as nat)]);
        }
    } else {
        push_decimal(out, n / 10);
        out.push(digit(n % 10));
        proof {
            assert((old(out)@ + decimal((n / 10) as nat)).push(digit_char((n % 10) as nat))
                == old(out)@ + decimal((n / 10) as nat).push(digit_char((n % 10) as nat)));
        }
    }
}

/// Whether the character is white space in the sense of Unicode's
/// `White_Space` property, which is what `str::trim` removes.
pub open spec fn is_whitespace(c: char) -> bool {
    ||| ('\u{9}' <= c && c <= '\u{d}')
    ||| c == ' '
    ||| c == '\u{85}'
    ||| c == '\u{a0}'
    ||| c == '\u{1680}'
    ||| ('\u{2000}' <= c && c <= '\u{200a}')
    ||| c == '\u{2028}'
    ||| c == '\u{2029}'
    ||| c == '\u{202f}'
    ||| c == '\u{205f}'
    ||| c == '\u{3000}'
}

/// Whether the character is white space.
pub fn whitespace(c: char) -> (r: bool)
    ensures
        r == is_whitespace(c),
{
    (c >= '\u{9}' && c <= '\u{d}') || c == ' ' || c == '\u{85}' || c == '\u{a0}' || c
        == '\u{1680}' || (c >= '\u{2000}' && c <= '\u{200a}') || c == '\u{2028}' || c
        == '\u{2029}' || c == '\u{202f}' || c == '\u{205f}' || c == '\u{3000}'
}

/// The first character of the text that is not white space, if it has one.
pub open spec fn first_visible(s: Seq<char>) -> Option<char>
    decreases s.len(),
{
    if s.len() == 0 {
        None
    } else if is_whitespace(s[0]) {
        first_visible(s.skip(1))
    } else {
        Some(s[0])
    }
}

/// The last character of the text that is not white space, if it has one.
pub open spec fn last_visible(s: Seq<char>) -> Option<char>
    decreases s.len(),
{
    if s.len() == 0 {
        None
    } else if is_whitespace(s.last()) {
        last_visible(s.drop_last())
    } else {
        Some(s.last())
    }
}

/// Finds the first character that is not white space.
pub fn first_visible_char(s: &Vec<char>) -> (r: Option<char>)
    ensures
        r == first_visible(s@),
{
    let mut i: usize = 0;
    proof {
        assert(s@.skip(0) == s@);
    }
    while i < s.len()
        invariant
            i <= s.len(),
            first_visible(s@) == first_visible(s@.skip(i as int)),
        decreases s.len() - i,
    {
        proof {
            assert(s@.skip(i as int)[0] == s@[i as int]);
            assert(s@.skip(i as int).skip(1) == s@.skip(i + 1));
        }
        if !whitespace(s[i]) {
            return Some(s[i]);
        }
        i = i + 1;
    }
    None
}

/// Finds the last character that is not white space.
pub fn last_visible_char(s: &Vec<char>) -> (r: Option<char>)
    ensures
        r == last_visible(s@),
{
    let mut end: usize = s.len();
    proof {
        assert(s@.take(s@.len() as int) == s@);
    }
    while end > 0
        invariant
            end <= s.len(),
            last_visible(s@) == last_visible(s@.take(end as int)),
        decreases end,
    {
        proof {
            assert(s@.take(end as int).last() == s@[end - 1]);
            assert(s@.take(end as int).drop_last() == s@.take(end - 1));
        }
        if !whitespace(s[end - 1]) {
            return Some(s[end - 1]);
        }
        end = end - 1;
    }
    None
}

/// The parts written one after the other, with `sep` between each two.
pub open spec fn joined(parts: Seq<Seq<char>>, sep: Seq<char>) -> Seq<char>
    decreases parts.len(),
{
    if parts.len() == 0 {
        Seq::empty()
    } else if parts.len() == 1 {
        parts[0]
    } else {
        joined(parts.drop_last(), sep) + sep + parts.last()
    }
}

/// Joining one more part: the separator comes first unless it is the first part.
pub proof fn lemma_joined_push(parts: Seq<Seq<char>>, sep: Seq<char>, part: Seq<char>)
    ensures
        joined(parts.push(part), sep) == if parts.len() == 0 {
            part
        } else {
            joined(parts, sep) + sep + part
        },
{
    assert(parts.push(part).drop_last() == parts);
    assert(parts.push(part).last() == part);
}

/// The views of a list of texts.
pub open spec fn texts_view(texts: Seq<String>) -> Seq<Seq<char>> {
    Seq::new(texts.len(), |i: int| texts[i]@)
}

} // verus!
