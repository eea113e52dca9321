//! JSON documents as plain values.
use vstd::prelude::*;
use crate::order::{
    increasing, lemma_increasing_distinct, lemma_increasing_from_adjacent, rank, text_lt, Rank,
};
use crate::text::{append_str, chars_of, digit_char, joined, lemma_joined_push, same_text};

verus! {

/// A JSON value. A number is held as the text that writes it; the members of
/// an object are held in increasing order of their keys.
pub enum Json {
    Null,
    Bool(bool),
    Number(String),
    Text(String),
    Array(Vec<Json>),
    Object(Vec<Member>),
}

/// One member of a JSON object.
pub struct Member {
    pub key: String,
    pub value: Json,
}

/// The mathematical value of a [`Json`].
pub enum JsonView {
    Null,
    Bool(bool),
    Number(Seq<char>),
    Text(Seq<char>),
    Array(Seq<JsonView>),
    Object(Seq<(Seq<char>, JsonView)>),
}

/// The mathematical value of a [`Json`]: strings become sequences of
/// characters, vectors become sequences.
pub open spec fn json_view(j: Json) -> JsonView
    decreases j,
{
    match j {
        Json::Null => JsonView::Null,
        Json::Bool(b) => JsonView::Bool(b),
        Json::Number(n) => JsonView::Number(n@),
        Json::Text(s) => JsonView::Text(s@),
        Json::Array(items) => JsonView::Array(
            Seq::new(
                items@.len(),
                |i: int|
                    if 0 <= i < items@.len() {
                        json_view(items@[i])
                    } else {
                        JsonView::Null
                    },
            ),
        ),
        Json::Object(members) => JsonView::Object(
            Seq::new(
                members@.len(),
                |i: int|
                    if 0 <= i < members@.len() {
                        (members@[i].key@, json_view(members@[i].value))
                    } else {
                        (Seq::empty(), JsonView::Null)
                    },
            ),
        ),
    }
}

impl View for Json {
    type V = JsonView;

    open spec fn view(&self) -> JsonView {
        json_view(*self)
    }
}

/// The keys of an object's members, in their order.
pub open spec fn member_keys(members: Seq<(Seq<char>, JsonView)>) -> Seq<Seq<char>> {
    Seq::new(members.len(), |i: int| members[i].0)
}

/// Whether member `i` has the key `key`.
pub open spec fn keyed_at(members: Seq<(Seq<char>, JsonView)>, key: Seq<char>, i: int) -> bool {
    0 <= i < members.len() && members[i].0 == key
}

/// Whether some member has the key `key`.
pub open spec fn has_key(members: Seq<(Seq<char>, JsonView)>, key: Seq<char>) -> bool {
    exists|i: int| keyed_at(members, key, i)
}

/// The value of the member with the key `key`, or null where there is none.
pub open spec fn lookup(members: Seq<(Seq<char>, JsonView)>, key: Seq<char>) -> JsonView {
    if has_key(members, key) {
        members[choose|i: int| keyed_at(members, key, i)].1
    } else {
        JsonView::Null
    }
}

/// Every object in the value holds its members in strictly increasing order
/// of their keys, so no key occurs twice.
pub open spec fn well_formed(v: JsonView) -> bool
    decreases v,
{
    match v {
        JsonView::Array(items) => forall|i: int|
            0 <= i < items.len() ==> well_formed(#[trigger] items[i]),
        JsonView::Object(members) => {
            &&& increasing(member_keys(members))
            &&& forall|i: int| 0 <= i < members.len() ==> well_formed((#[trigger] members[i]).1)
        },
        _ => true,
    }
}

/// In a well-formed object a member is found again by its key.
pub proof fn lemma_lookup(members: Seq<(Seq<char>, JsonView)>, i: int)
    requires
        increasing(member_keys(members)),
        0 <= i < members.len(),
    ensures
        has_key(members, members[i].0),
        lookup(members, members[i].0) == members[i].1,
{
    let key = members[i].0;
    assert(keyed_at(members, key, i));
    let j = choose|j: int| keyed_at(members, key, j);
    lemma_increasing_distinct(member_keys(members));
    if i != j {
        assert(member_keys(members)[i] != member_keys(members)[j]);
    }
}

/// The digit of a number below sixteen in hexadecimal writing, with small
/// letters.
pub open spec fn hex_digit(n: nat) -> char {
    if n < 10 {
        digit_char(n)
    } else if n == 10 {
        'a'
    } else if n == 11 {
        'b'
    } else if n == 12 {
        'c'
    } else if n == 13 {
        'd'
    } else if n == 14 {
        'e'
    } else {
        'f'
    }
}

/// How a character stands in a JSON string: the double quote and the
/// backslash behind a backslash; backspace, tab, line feed, form feed and
/// carriage return by their letters; every other control character below
/// the space by its number in four hexadecimal digits; and every other
/// character as it is.
pub open spec fn json_escaped_char(c: char) -> Seq<char> {
    if c == '"' {
        seq!['\\', '"']
    } else if c == '\\' {
        seq!['\\', '\\']
    } else if c == '\u{8}' {
        seq!['\\', 'b']
    } else if c == '\t' {
        seq!['\\', 't']
    } else if c == '\n' {
        seq!['\\', 'n']
    } else if c == '\u{c}' {
        seq!['\\', 'f']
    } else if c == '\r' {
        seq!['\\', 'r']
    } else if (c as nat) < 32 {
        seq!['\\', 'u', '0', '0', hex_digit((c as nat) / 16), hex_digit((c as nat) % 16)]
    } else {
        seq![c]
    }
}

/// A text with each of its characters as it stands in a JSON string.
pub open spec fn json_escaped(s: Seq<char>) -> Seq<char>
    decreases s.len(),
{
    if s.len() == 0 {
        Seq::empty()
    } else {
        json_escaped_char(s[0]) + json_escaped(s.skip(1))
    }
}

/// A text as a JSON string: between double quotes, each character as it
/// stands in a JSON string.
pub open spec fn json_quoted(s: Seq<char>) -> Seq<char> {
    seq!['"'] + json_escaped(s) + seq!['"']
}

/// Writes a string as a JSON string, by `serde_json`'s `Display` for
/// `Value::String`. Claimed, as its writer of strings shows: the text
/// stands between double quotes; the double quote, the backslash and the
/// control characters below the space are escaped, the latter by their
/// letter or by four hexadecimal digits with small letters; every other
/// character is written as it is.
#[verifier::external_body]
pub(crate) fn quote(s: &str) -> (out: String)
    ensures
        out@ == json_quoted(s@),
{
    serde_json::Value::String(s.to_owned()).to_string()
}

/// The compact JSON text of element `i`, for `i` inside the array.
pub open spec fn item_texts(items: Seq<JsonView>) -> Seq<Seq<char>>
    decreases items, 0int,
{
    Seq::new(
        items.len(),
        |i: int|
            if 0 <= i < items.len() {
                json_text(items[i])
            } else {
                Seq::empty()
            },
    )
}

/// The compact JSON text of each member: the quoted key, a colon, the value.
pub open spec fn member_texts(members: Seq<(Seq<char>, JsonView)>) -> Seq<Seq<char>>
    decreases members, 0int,
{
    Seq::new(
        members.len(),
        |i: int|
            if 0 <= i < members.len() {
                json_quoted(members[i].0) + seq![':'] + json_text(members[i].1)
            } else {
                Seq::empty()
            },
    )
}

/// The compact JSON text of a value: no white space, members in their order.
pub open spec fn json_text(v: JsonView) -> Seq<char>
    decreases v, 1int,
{
    match v {
        JsonView::Null => seq!['n', 'u', 'l', 'l'],
        JsonView::Bool(b) => if b {
            seq!['t', 'r', 'u', 'e']
        } else {
            seq!['f', 'a', 'l', 's', 'e']
        },
        JsonView::Number(n) => n,
        JsonView::Text(s) => json_quoted(s),
        JsonView::Array(items) => seq!['['] + joined(item_texts(items), seq![',']) + seq![']'],
        JsonView::Object(members) => seq!['{'] + joined(member_texts(members), seq![','])
            + seq!['}'],
    }
}

/// The text of a number as the comparison holds it. A zero is the same
/// number with and without a sign, so the zero that is written with one is
/// held as the zero without it; every other number is held as it is
/// written.
pub open spec fn number_text(text: Seq<char>) -> Seq<char> {
    if text == "-0.0"@ {
        "0.0"@
    } else {
        text
    }
}

impl Json {
    /// The number that the text writes.
    pub fn number(text: &str) -> (out: Json)
        ensures
            out@ == JsonView::Number(number_text(text@)),
    {
        if same_text(&chars_of(text), &chars_of("-0.0")) {
            Json::Number(String::from_str("0.0"))
        } else {
            Json::Number(String::from_str(text))
        }
    }

    /// Every object in the value holds its members in strictly increasing
    /// order of their keys.
    pub open spec fn wf(&self) -> bool {
        well_formed(self@)
    }

    /// Whether the two values are the same JSON value.
    pub fn same(&self, other: &Json) -> (r: bool)
        ensures
            r == (self@ == other@),
        decreases self,
    {
        match (self, other) {
            (Json::Null, Json::Null) => true,
            (Json::Bool(a), Json::Bool(b)) => *a == *b,
            (Json::Number(a), Json::Number(b)) => {
                let r = same_text(&chars_of(a.as_str()), &chars_of(b.as_str()));
                r
            },
            (Json::Text(a), Json::Text(b)) => {
                let r = same_text(&chars_of(a.as_str()), &chars_of(b.as_str()));
                r
            },
            (Json::Array(a), Json::Array(b)) => {
                if a.len() != b.len() {
                    proof {
                        assert(self@->Array_0.len() != other@->Array_0.len());
                    }
                    return false;
                }
                let mut i: usize = 0;
                while i < a.len()
                    invariant
                        *self == Json::Array(*a),
                        *other == Json::Array(*b),
                        a.len() == b.len(),
                        i <= a.len(),
                        forall|j: int| 0 <= j < i ==> a@[j]@ == b@[j]@,
                    decreases a.len() - i,
                {
                    if !a[i].same(&b[i]) {
                        proof {
                            assert(self@->Array_0[i as int] == a@[i as int]@);
                            assert(other@->Array_0[i as int] == b@[i as int]@);
                        }
                        return false;
                    }
                    i = i + 1;
                }
                proof {
                    assert(self@->Array_0 =~= other@->Array_0);
                }
                true
            },
            (Json::Object(a), Json::Object(b)) => {
                if a.len() != b.len() {
                    proof {
                        assert(self@->Object_0.len() != other@->Object_0.len());
                    }
                    return false;
                }
                let mut i: usize = 0;
                while i < a.len()
                    invariant
                        *self == Json::Object(*a),
                        *other == Json::Object(*b),
                        a.len() == b.len(),
                        i <= a.len(),
                        forall|j: int|
                            0 <= j < i ==> a@[j].key@ == b@[j].key@ && a@[j].value@ == b@[j].value@,
                    decreases a.len() - i,
                {
                    let same_key = same_text(
                        &chars_of(a[i].key.as_str()),
                        &chars_of(b[i].key.as_str()),
                    );
                    if !same_key || !a[i].value.same(&b[i].value) {
                        proof {
                            assert(self@->Object_0[i as int] == (
                                a@[i as int].key@,
                                a@[i as int].value@,
                            ));
                            assert(other@->Object_0[i as int] == (
                                b@[i as int].key@,
                                b@[i as int].value@,
                            ));
                        }
                        return false;
                    }
                    i = i + 1;
                }
                proof {
                    assert(self@->Object_0 =~= other@->Object_0);
                }
                true
            },
            _ => false,
        }
    }

    /// Checks that every object holds its members in strictly increasing
    /// order of their keys.
    pub fn is_wf(&self) -> (r: bool)
        ensures
            r == self.wf(),
        decreases self,
    {
        match self {
            Json::Array(items) => {
                let mut i: usize = 0;
                while i < items.len()
                    invariant
                        *self == Json::Array(*items),
                        i <= items.len(),
                        forall|j: int| 0 <= j < i ==> well_formed(items@[j]@),
                    decreases items.len() - i,
                {
                    if !items[i].is_wf() {
                        proof {
                            assert(self@->Array_0[i as int] == items@[i as int]@);
                        }
                        return false;
                    }
                    i = i + 1;
                }
                proof {
                    assert forall|j: int| 0 <= j < self@->Array_0.len() implies well_formed(
                        #[trigger] self@->Array_0[j],
                    ) by {
                        assert(self@->Array_0[j] == items@[j]@);
                    }
                }
                true
            },
            Json::Object(members) => {
                let ghost keys = member_keys(self@->Object_0);
                let mut i: usize = 0;
                while i < members.len()
                    invariant
                        *self == Json::Object(*members),
                        keys == member_keys(self@->Object_0),
                        i <= members.len(),
                        forall|j: int| 0 <= j < i ==> well_formed(members@[j].value@),
                        forall|j: int| 0 < j < i ==> text_lt(keys[j - 1], #[trigger] keys[j]),
                    decreases members.len() - i,
                {
                    if !members[i].value.is_wf() {
                        proof {
                            assert(self@->Object_0[i as int].1 == members@[i as int].value@);
                        }
                        return false;
                    }
                    if i > 0 {
                        let before = chars_of(members[i - 1].key.as_str());
                        let here = chars_of(members[i].key.as_str());
                        proof {
                            assert(keys[i - 1] == before@);
                            assert(keys[i as int] == here@);
                        }
                        match rank(&before, &here) {
                            Rank::Before => {},
                            _ => {
                                return false;
                            },
                        }
                    }
                    i = i + 1;
                }
                proof {
                    lemma_increasing_from_adjacent(keys);
                    assert forall|j: int| 0 <= j < self@->Object_0.len() implies well_formed(
                        (#[trigger] self@->Object_0[j]).1,
                    ) by {
                        assert(self@->Object_0[j].1 == members@[j].value@);
                    }
                }
                true
            },
            _ => true,
        }
    }

    /// Appends the compact JSON text of the value to `out`.
    pub fn write_text(&self, out: &mut Vec<char>)
        ensures
            final(out)@ == old(out)@ + json_text(self@),
        decreases self,
    {
        match self {
            Json::Null => {
                out.push('n');
                out.push('u');
                out.push('l');
                out.push('l');
                proof {
                    assert(out@ == old(out)@ + seq!['n', 'u', 'l', 'l']);
                }
            },
            Json::Bool(b) => {
                if *b {
                    out.push('t');
                    out.push('r');
                    out.push('u');
                    out.push('e');
                    proof {
                        assert(out@ == old(out)@ + seq!['t', 'r', 'u', 'e']);
                    }
                } else {
                    out.push('f');
                    out.push('a');
                    out.push('l');
                    out.push('s');
                    out.push('e');
                    proof {
                        assert(out@ == old(out)@ + seq!['f', 'a', 'l', 's', 'e']);
                    }
                }
            },
            Json::Number(n) => {
                append_str(out, n.as_str());
            },
            Json::Text(s) => {
                let quoted = quote(s.as_str());
                append_str(out, quoted.as_str());
            },
            Json::Array(items) => {
                let ghost parts = item_texts(self@->Array_0);
                let ghost start = old(out)@ + seq!['['];
                out.push('[');
                let mut i: usize = 0;
                proof {
                    assert(parts.take(0) == Seq::<Seq<char>>::empty());
                    assert(start + Seq::<char>::empty() == start);
                }
                while i < items.len()
                    invariant
                        *self == Json::Array(*items),
                        parts == item_texts(self@->Array_0),
                        i <= items.len(),
                        out@ == start + joined(parts.take(i as int), seq![',']),
                    decreases items.len() - i,
                {
                    let ghost before = out@;
                    if i > 0 {
                        out.push(',');
                    }
                    items[i].write_text(out);
                    proof {
                        let part = parts[i as int];
                        assert(part == json_text(items@[i as int]@));
                        assert(parts.take(i + 1) == parts.take(i as int).push(part));
                        lemma_joined_push(parts.take(i as int), seq![','], part);
                        if i > 0 {
                            assert(out@ == before.push(',') + part);
                            assert(before.push(',') + part == start + (joined(
                                parts.take(i as int),
                                seq![','],
                            ) + seq![','] + part));
                        } else {
                            assert(joined(parts.take(0), seq![',']) == Seq::<char>::empty());
                            assert(out@ == start + part);
                        }
                    }
                    i = i + 1;
                }
                out.push(']');
                proof {
                    assert(parts.take(parts.len() as int) == parts);
                    assert(out@ == old(out)@ + (seq!['['] + joined(parts, seq![',']) + seq![']']));
                }
            },
            Json::Object(members) => {
                let ghost parts = member_texts(self@->Object_0);
                let ghost start = old(out)@ + seq!['{'];
                out.push('{');
                let mut i: usize = 0;
                proof {
                    assert(parts.take(0) == Seq::<Seq<char>>::empty());
                    assert(start + Seq::<char>::empty() == start);
                }
                while i < members.len()
                    invariant
                        *self == Json::Object(*members),
                        parts == member_texts(self@->Object_0),
                        i <= members.len(),
                        out@ == start + joined(parts.take(i as int), seq![',']),
                    decreases members.len() - i,
                {
                    let ghost before = out@;
                    if i > 0 {
                        out.push(',');
                    }
                    let ghost mid = out@;
                    let quoted = quote(members[i].key.as_str());
                    append_str(out, quoted.as_str());
                    out.push(':');
                    members[i].value.write_text(out);
                    proof {
                        let part = parts[i as int];
                        assert(self@->Object_0[i as int] == (
                            members@[i as int].key@,
                            members@[i as int].value@,
                        ));
                        assert(part == json_quoted(members@[i as int].key@) + seq![':']
                            + json_text(members@[i as int].value@));
                        assert(out@ == mid + part);
                        assert(parts.take(i + 1) == parts.take(i as int).push(part));
                        lemma_joined_push(parts.take(i as int), seq![','], part);
                        if i > 0 {
                            assert(before.push(',') + part == start + (joined(
                                parts.take(i as int),
                                seq![','],
                            ) + seq![','] + part));
                        } else {
                            assert(joined(parts.take(0), seq![',']) == Seq::<char>::empty());
                            assert(out@ == start + part);
                        }
                    }
                    i = i + 1;
                }
                out.push('}');
                proof {
                    assert(parts.take(parts.len() as int) == parts);
                    assert(out@ == old(out)@ + (seq!['{'] + joined(parts, seq![',']) + seq!['}']));
                }
            },
        }
    }

    /// The compact JSON text of the value.
    pub fn to_text(&self) -> (out: Vec<char>)
        ensures
            out@ == json_text(self@),
    {
        let mut out: Vec<char> = Vec::new();
        self.write_text(&mut out);
        proof {
            assert(Seq::<char>::empty() + json_text(self@) == json_text(self@));
        }
        out
    }
}

/// Finds the member with the key `key`.
pub fn find_member(members: &Vec<Member>, key: &Vec<char>) -> (r: Option<usize>)
    ensures
        match r {
            Some(i) => i < members@.len() && members@[i as int].key@ == key@,
            None => forall|i: int| 0 <= i < members@.len() ==> members@[i].key@ != key@,
        },
{
    let mut i: usize = 0;
    while i < members.len()
        invariant
            i <= members.len(),
            forall|j: int| 0 <= j < i ==> members@[j].key@ != key@,
        decreases members.len() - i,
    {
        let here = chars_of(members[i].key.as_str());
        if same_text(&here, key) {
            return Some(i);
        }
        i = i + 1;
    }
    None
}

} // verus!
