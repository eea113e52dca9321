//! Paths into a JSON document and the dotted keys that name them.
use vstd::prelude::*;
use crate::text::{append, chars_of, decimal, joined, lemma_joined_push, push_decimal};

verus! {

/// One step from a JSON node to a child: the key of an object member or the
/// index of an array element.
#[derive(Debug)]
pub enum PathIndex {
    Object(String),
    Array(usize),
}

/// The mathematical value of a [`PathIndex`].
pub enum Step {
    Key(Seq<char>),
    Index(nat),
}

impl View for PathIndex {
    type V = Step;

    open spec fn view(&self) -> Step {
        match self {
            PathIndex::Object(key) => Step::Key(key@),
            PathIndex::Array(index) => Step::Index(*index as nat),
        }
    }
}

/// The steps of a path, as mathematical values.
pub open spec fn steps(path: Seq<PathIndex>) -> Seq<Step> {
    Seq::new(path.len(), |i: int| path[i]@)
}

/// How a step is written in a dotted key: a key as it is, an index in decimal.
pub open spec fn step_text(step: Step) -> Seq<char> {
    match step {
        Step::Key(key) => key,
        Step::Index(index) => decimal(index),
    }
}

/// The dotted key of a path: its steps joined by dots.
pub open spec fn key_of(path: Seq<Step>) -> Seq<char> {
    joined(Seq::new(path.len(), |i: int| step_text(path[i])), seq!['.'])
}

/// Appends the text of one step to `out`.
pub fn write_step(out: &mut Vec<char>, step: &PathIndex)
    ensures
        final(out)@ == old(out)@ + step_text(step@),
{
    match step {
        PathIndex::Object(key) => {
            let chars = chars_of(key.as_str());
            append(out, &chars);
        },
        PathIndex::Array(index) => {
            push_decimal(out, *index);
        },
    }
}

/// The dotted key of a path, as characters.
pub fn key_chars(path: &Vec<PathIndex>) -> (out: Vec<char>)
    ensures
        out@ == key_of(steps(path@)),
{
    let ghost parts = Seq::new(path@.len(), |i: int| step_text(steps(path@)[i]));
    let mut out: Vec<char> = Vec::new();
    let mut i: usize = 0;
    proof {
        assert(parts.take(0) == Seq::<Seq<char>>::empty());
    }
    while i < path.len()
        invariant
            i <= path.len(),
            parts == Seq::new(path@.len(), |i: int| step_text(steps(path@)[i])),
            out@ == joined(parts.take(i as int), seq!['.']),
        decreases path.len() - i,
    {
        let ghost before = out@;
        if i > 0 {
            out.push('.');
        }
        write_step(&mut out, &path[i]);
        proof {
            let part = parts[i as int];
            assert(part == step_text(path@[i as int]@));
            assert(parts.take(i + 1) == parts.take(i as int).push(part));
            lemma_joined_push(parts.take(i as int), seq!['.'], part);
            if i > 0 {
                assert(out@ == before + seq!['.'] + part);
            } else {
                assert(before == Seq::<char>::empty());
                assert(out@ == part);
            }
        }
        i = i + 1;
    }
    proof {
        assert(parts.take(parts.len() as int) == parts);
    }
    out
}

/// The dotted key of a path.
pub fn make_key(path: &Vec<PathIndex>) -> (key: String)
    ensures
        key@ == key_of(steps(path@)),
{
    let chars = key_chars(path);
    crate::text::string_of(&chars)
}

/// A copy of one step.
pub fn copy_step(step: &PathIndex) -> (out: PathIndex)
    ensures
        out@ == step@,
{
    match step {
        PathIndex::Object(key) => PathIndex::Object(key.clone()),
        PathIndex::Array(index) => PathIndex::Array(*index),
    }
}

/// The path that goes one step further than `path`.
pub fn extended(path: &Vec<PathIndex>, step: PathIndex) -> (out: Vec<PathIndex>)
    ensures
        steps(out@) == steps(path@).push(step@),
{
    let mut out: Vec<PathIndex> = Vec::new();
    let mut i: usize = 0;
    while i < path.len()
        invariant
            i <= path.len(),
            out@.len() == i,
            forall|j: int| 0 <= j < i ==> out@[j]@ == path@[j]@,
        decreases path.len() - i,
    {
        out.push(copy_step(&path[i]));
        i = i + 1;
    }
    out.push(step);
    proof {
        assert(steps(out@) =~= steps(path@).push(step@));
    }
    out
}

} // verus!
