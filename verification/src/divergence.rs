//! The divergences found in one document: a map from the dotted path of a
//! JSON node to the rendered difference found there, kept in the order of
//! the paths.
use vstd::prelude::*;
use crate::order::{
    increasing, lemma_increasing_distinct, lemma_lt_transitive, rank, text_lt, Rank,
};
use crate::text::{chars_of, same_text};

verus! {

/// One reported difference: where it was found and how it is shown.
pub struct Divergence {
    /// The dotted path of the node inside the document.
    pub path: String,
    /// The rendered difference, or a reference to an earlier rendering.
    pub text: String,
}

/// The divergences of one document, in increasing order of their paths.
pub struct DivergenceMap {
    pub entries: Vec<Divergence>,
}

impl DivergenceMap {
    /// The paths of the entries, in the order in which they are stored.
    pub open spec fn paths(&self) -> Seq<Seq<char>> {
        Seq::new(self.entries@.len(), |i: int| self.entries@[i].path@)
    }

    /// The paths are strictly increasing, so each occurs once.
    pub open spec fn wf(&self) -> bool {
        increasing(self.paths())
    }

    /// Whether entry `i` is the one stored for `path`.
    pub open spec fn holds_at(&self, path: Seq<char>, i: int) -> bool {
        0 <= i < self.entries@.len() && self.entries@[i].path@ == path
    }

    /// The map from path to rendered text.
    pub open spec fn view(&self) -> Map<Seq<char>, Seq<char>> {
        Map::new(
            |path: Seq<char>| exists|i: int| self.holds_at(path, i),
            |path: Seq<char>| self.entries@[choose|i: int| self.holds_at(path, i)].text@,
        )
    }

    /// In a well-formed map, entry `i` is what the view holds for its path.
    pub proof fn lemma_entry(&self, i: int)
        requires
            self.wf(),
            0 <= i < self.entries@.len(),
        ensures
            self@.contains_key(self.entries@[i].path@),
            self@[self.entries@[i].path@] == self.entries@[i].text@,
    {
        let path = self.entries@[i].path@;
        assert(self.holds_at(path, i));
        let j = choose|j: int| self.holds_at(path, j);
        lemma_increasing_distinct(self.paths());
        if i != j {
            assert(self.paths()[i] != self.paths()[j]);
        }
    }

    /// The view of a well-formed map has exactly one key for each entry.
    pub proof fn lemma_size(&self)
        requires
            self.wf(),
        ensures
            self@.dom().finite(),
            self@.dom().len() == self.entries@.len(),
            self@.dom() == self.paths().to_set(),
    {
        lemma_increasing_distinct(self.paths());
        let paths = self.paths();
        assert(self@.dom() =~= paths.to_set()) by {
            assert forall|k: Seq<char>| self@.dom().contains(k) implies paths.to_set().contains(
                k,
            ) by {
                let i = choose|i: int| self.holds_at(k, i);
                assert(paths[i] == k);
            }
            assert forall|k: Seq<char>| paths.to_set().contains(k) implies self@.dom().contains(
                k,
            ) by {
                let i = choose|i: int| 0 <= i < paths.len() && paths[i] == k;
                assert(self.holds_at(k, i));
            }
        }
        assert(paths.no_duplicates());
        paths.unique_seq_to_set();
    }

    /// A well-formed map has no entry exactly where its view is empty.
    pub proof fn lemma_empty(&self)
        requires
            self.wf(),
        ensures
            self.entries@.len() == 0 <==> self@ == Map::<Seq<char>, Seq<char>>::empty(),
    {
        if self.entries@.len() == 0 {
            assert(self@ =~= Map::<Seq<char>, Seq<char>>::empty());
        } else {
            self.lemma_entry(0);
        }
    }

    /// A map without entries.
    pub fn new() -> (out: DivergenceMap)
        ensures
            out.wf(),
            out@ == Map::<Seq<char>, Seq<char>>::empty(),
            out.entries@.len() == 0,
    {
        let out = DivergenceMap { entries: Vec::new() };
        proof {
            assert(out@ =~= Map::<Seq<char>, Seq<char>>::empty());
        }
        out
    }

    /// The number of divergences.
    pub fn len(&self) -> (n: usize)
        ensures
            n == self.entries@.len(),
    {
        self.entries.len()
    }

    /// Whether there is no divergence.
    pub fn is_empty(&self) -> (r: bool)
        ensures
            r == (self.entries@.len() == 0),
    {
        self.entries.len() == 0
    }

    /// The rendered text stored for `path`, if there is one.
    pub fn get(&self, path: &str) -> (r: Option<&String>)
        requires
            self.wf(),
        ensures
            r is Some <==> self@.contains_key(path@),
            r matches Some(text) ==> text@ == self@[path@],
    {
        let wanted = chars_of(path);
        let mut i: usize = 0;
        while i < self.entries.len()
            invariant
                self.wf(),
                wanted@ == path@,
                i <= self.entries@.len(),
                forall|j: int| 0 <= j < i ==> self.entries@[j].path@ != path@,
            decreases self.entries@.len() - i,
        {
            let here = chars_of(self.entries[i].path.as_str());
            if same_text(&here, &wanted) {
                proof {
                    self.lemma_entry(i as int);
                }
                return Some(&self.entries[i].text);
            }
            i = i + 1;
        }
        proof {
            assert forall|j: int| !self.holds_at(path@, j) by {}
        }
        None
    }

    /// Stores `text` for `path`, in place of what was stored for it before.
    pub fn insert(&mut self, path: String, text: String)
        requires
            old(self).wf(),
        ensures
            final(self).wf(),
            final(self)@ == old(self)@.insert(path@, text@),
    {
        let wanted = chars_of(path.as_str());
        let mut i: usize = 0;
        let mut found = false;
        while i < self.entries.len()
            invariant_except_break
                !found,
                i <= self.entries@.len(),
                forall|j: int| 0 <= j < i ==> text_lt(self.entries@[j].path@, path@),
            invariant
                *self == *old(self),
                self.wf(),
                wanted@ == path@,
            ensures
                i <= self.entries@.len(),
                forall|j: int| 0 <= j < i ==> text_lt(self.entries@[j].path@, path@),
                found ==> i < self.entries@.len() && self.entries@[i as int].path@ == path@,
                !found && i < self.entries@.len() ==> text_lt(path@, self.entries@[i as int].path@),
            decreases self.entries@.len() - i,
        {
            let here = chars_of(self.entries[i].path.as_str());
            match rank(&here, &wanted) {
                Rank::Before => {
                    i = i + 1;
                },
                Rank::Same => {
                    found = true;
                    break ;
                },
                Rank::After => {
                    break ;
                },
            }
        }
        let ghost before = *self;
        let ghost at = i as int;
        if found {
            self.entries.remove(i);
        }
        self.entries.insert(i, Divergence { path, text });
        proof {
            let old_paths = before.paths();
            let new_paths = self.paths();
            let shift: int = if found {
                0
            } else {
                1
            };
            assert(self.entries@.len() == before.entries@.len() + shift);
            assert forall|j: int| 0 <= j < at implies self.entries@[j] == before.entries@[j] by {}
            assert forall|j: int| at < j < self.entries@.len() implies self.entries@[j]
                == before.entries@[j - shift] by {}
            assert forall|a: int, b: int| 0 <= a < b < new_paths.len() implies text_lt(
                #[trigger] new_paths[a],
                #[trigger] new_paths[b],
            ) by {
                let pa = new_paths[a];
                let pb = new_paths[b];
                if b < at {
                    assert(text_lt(old_paths[a], old_paths[b]));
                } else if b == at {
                    assert(text_lt(before.entries@[a].path@, path@));
                } else if a == at {
                    // what follows the new entry came after the old one at `at`
                    if found {
                        assert(text_lt(old_paths[at], old_paths[b]));
                    } else {
                        if b - 1 > at {
                            assert(text_lt(old_paths[at], old_paths[b - 1]));
                            lemma_lt_transitive(path@, old_paths[at], old_paths[b - 1]);
                        } else {
                            assert(old_paths[b - 1] == before.entries@[at].path@);
                        }
                    }
                } else if a < at {
                    assert(text_lt(old_paths[a], old_paths[b - shift]));
                } else {
                    assert(text_lt(old_paths[a - shift], old_paths[b - shift]));
                }
            }
            assert(self.wf());
            let goal = before@.insert(path@, text@);
            assert forall|k: Seq<char>| self@.contains_key(k) <==> goal.contains_key(k) by {
                if self@.contains_key(k) {
                    let j = choose|j: int| self.holds_at(k, j);
                    if j < at {
                        assert(before.holds_at(k, j));
                    } else if j > at {
                        assert(before.holds_at(k, j - shift));
                    }
                }
                if goal.contains_key(k) {
                    if k == path@ {
                        assert(self.holds_at(k, at));
                    } else {
                        let j = choose|j: int| before.holds_at(k, j);
                        if j < at {
                            assert(self.holds_at(k, j));
                        } else {
                            assert(self.holds_at(k, j + shift));
                        }
                    }
                }
            }
            assert forall|k: Seq<char>| self@.contains_key(k) implies self@[k] == goal[k] by {
                let j = choose|j: int| self.holds_at(k, j);
                self.lemma_entry(j);
                if j < at {
                    before.lemma_entry(j);
                } else if j > at {
                    before.lemma_entry(j - shift);
                    lemma_increasing_distinct(self.paths());
                    assert(self.paths()[j] != self.paths()[at]);
                }
            }
            assert(self@ =~= goal);
        }
    }
}

} // verus!
