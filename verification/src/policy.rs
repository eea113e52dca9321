//! The decision tables of the comparison: which documents are skipped, which
//! places are exempt, and which keys are never reported.
use vstd::prelude::*;
use crate::allowlist::{push_standard_allowlist, standard_allowlist};
use crate::path::Step;
use crate::text::{chars_of, same_text, starts_with};

verus! {

/// An accepted exemption: differences at this place of this document are
/// known and are not reported.
pub struct AllowEntry {
    /// The document, by its path below the root of the corpus.
    pub file: Vec<char>,
    /// The dotted key of the place inside the document.
    pub path: Vec<char>,
}

/// The tables that say where differences are not reported.
pub struct Policy {
    /// A key that begins with one of these is never reported.
    pub ignored_keys: Vec<Vec<char>>,
    /// A document whose path begins with one of these is skipped whole.
    pub skipped_prefixes: Vec<Vec<char>>,
    /// The exempt places, each matched exactly.
    pub allowlist: Vec<AllowEntry>,
}

/// The exempt places of a list, as pairs of document and dotted key.
pub open spec fn entries_view(list: Seq<AllowEntry>) -> Seq<(Seq<char>, Seq<char>)> {
    Seq::new(list.len(), |i: int| (list[i].file@, list[i].path@))
}

/// The texts of a table.
pub open spec fn table_view(table: Seq<Vec<char>>) -> Seq<Seq<char>> {
    Seq::new(table.len(), |i: int| table[i]@)
}

/// The key prefixes that are never reported: fields that change from one
/// build to the next.
pub open spec fn standard_ignored_keys() -> Seq<Seq<char>> {
    seq![
        "doc.flaws"@,
        "blogMeta.readTime"@,
        "doc.modified"@,
        "doc.popularity"@,
        "doc.source.github_url"@,
        "doc.source.last_commit_url"@,
        "doc.sidebarMacro"@,
        "doc.hasMathML"@,
        "doc.other_translations"@,
        "doc.summary"@,
    ]
}

/// The beginnings of the paths of the documents that are skipped whole.
pub open spec fn standard_skipped_prefixes() -> Seq<Seq<char>> {
    seq![
        "docs/mdn/writing_guidelines/"@,
        "docs/mozilla/add-ons/webextensions/"@,
        "docs/mozilla/firefox/releases/"@,
    ]
}

/// Whether the path is the key `url` at the root of the document.
pub open spec fn is_root_url(path: Seq<Step>) -> bool {
    path.len() == 1 && path[0] == Step::Key("url"@)
}

impl Policy {
    /// Whether table entry `i` is a beginning of `file`.
    pub open spec fn skips_at(&self, file: Seq<char>, i: int) -> bool {
        0 <= i < self.skipped_prefixes@.len() && self.skipped_prefixes@[i]@.is_prefix_of(file)
    }

    /// Whether the document is skipped whole.
    pub open spec fn skips_file(&self, file: Seq<char>) -> bool {
        exists|i: int| self.skips_at(file, i)
    }

    /// Whether entry `i` of the allow-list names this place.
    pub open spec fn allows_at(&self, file: Seq<char>, key: Seq<char>, i: int) -> bool {
        0 <= i < self.allowlist@.len() && self.allowlist@[i].file@ == file
            && self.allowlist@[i].path@ == key
    }

    /// Whether the place is exempt by the allow-list.
    pub open spec fn allows(&self, file: Seq<char>, key: Seq<char>) -> bool {
        exists|i: int| self.allows_at(file, key, i)
    }

    /// Whether table entry `i` is a beginning of `key`.
    pub open spec fn ignores_at(&self, key: Seq<char>, i: int) -> bool {
        0 <= i < self.ignored_keys@.len() && self.ignored_keys@[i]@.is_prefix_of(key)
    }

    /// Whether the key is one that is never reported.
    pub open spec fn ignores_key(&self, key: Seq<char>) -> bool {
        exists|i: int| self.ignores_at(key, i)
    }

    /// Whether the document is skipped whole.
    pub fn is_skipped_file(&self, file: &Vec<char>) -> (r: bool)
        ensures
            r == self.skips_file(file@),
    {
        let mut i: usize = 0;
        while i < self.skipped_prefixes.len()
            invariant
                i <= self.skipped_prefixes@.len(),
                forall|j: int| 0 <= j < i ==> !self.skips_at(file@, j),
            decreases self.skipped_prefixes@.len() - i,
        {
            if starts_with(file, &self.skipped_prefixes[i]) {
                proof {
                    assert(self.skips_at(file@, i as int));
                }
                return true;
            }
            i = i + 1;
        }
        false
    }

    /// Whether the place is exempt by the allow-list.
    pub fn is_allowed(&self, file: &Vec<char>, key: &Vec<char>) -> (r: bool)
        ensures
            r == self.allows(file@, key@),
    {
        let mut i: usize = 0;
        while i < self.allowlist.len()
            invariant
                i <= self.allowlist@.len(),
                forall|j: int| 0 <= j < i ==> !self.allows_at(file@, key@, j),
            decreases self.allowlist@.len() - i,
        {
            if same_text(&self.allowlist[i].path, key) && same_text(&self.allowlist[i].file, file) {
                proof {
                    assert(self.allows_at(file@, key@, i as int));
                }
                return true;
            }
            i = i + 1;
        }
        false
    }

    /// Whether the key is one that is never reported.
    pub fn is_ignored_key(&self, key: &Vec<char>) -> (r: bool)
        ensures
            r == self.ignores_key(key@),
    {
        let mut i: usize = 0;
        while i < self.ignored_keys.len()
            invariant
                i <= self.ignored_keys@.len(),
                forall|j: int| 0 <= j < i ==> !self.ignores_at(key@, j),
            decreases self.ignored_keys@.len() - i,
        {
            if starts_with(key, &self.ignored_keys[i]) {
                proof {
                    assert(self.ignores_at(key@, i as int));
                }
                return true;
            }
            i = i + 1;
        }
        false
    }

    /// A policy with empty tables: nothing is skipped, exempt or ignored.
    pub fn new() -> (out: Policy)
        ensures
            out.ignored_keys@.len() == 0,
            out.skipped_prefixes@.len() == 0,
            out.allowlist@.len() == 0,
    {
        Policy { ignored_keys: Vec::new(), skipped_prefixes: Vec::new(), allowlist: Vec::new() }
    }

    /// Adds a key prefix that is never reported.
    pub fn ignore_key(&mut self, prefix: &str)
        ensures
            table_view(final(self).ignored_keys@) == table_view(old(self).ignored_keys@).push(
                prefix@,
            ),
            final(self).skipped_prefixes == old(self).skipped_prefixes,
            final(self).allowlist == old(self).allowlist,
    {
        self.ignored_keys.push(chars_of(prefix));
        proof {
            assert(table_view(self.ignored_keys@) =~= table_view(old(self).ignored_keys@).push(
                prefix@,
            ));
        }
    }

    /// Adds the beginning of the paths of documents that are skipped whole.
    pub fn skip_prefix(&mut self, prefix: &str)
        ensures
            table_view(final(self).skipped_prefixes@) == table_view(
                old(self).skipped_prefixes@,
            ).push(prefix@),
            final(self).ignored_keys == old(self).ignored_keys,
            final(self).allowlist == old(self).allowlist,
    {
        self.skipped_prefixes.push(chars_of(prefix));
        proof {
            assert(table_view(self.skipped_prefixes@) =~= table_view(
                old(self).skipped_prefixes@,
            ).push(prefix@));
        }
    }

    /// Adds an exempt place.
    pub fn allow(&mut self, file: &str, path: &str)
        ensures
            entries_view(final(self).allowlist@) == entries_view(old(self).allowlist@).push(
                (file@, path@),
            ),
            final(self).ignored_keys == old(self).ignored_keys,
            final(self).skipped_prefixes == old(self).skipped_prefixes,
    {
        self.allowlist.push(AllowEntry { file: chars_of(file), path: chars_of(path) });
        proof {
            assert(entries_view(self.allowlist@) =~= entries_view(old(self).allowlist@).push(
                (file@, path@),
            ));
        }
    }

    /// The policy of the comparison between the two generations of the
    /// documentation: its ignored keys, its skipped documents and its
    /// allow-list.
    pub fn standard() -> (out: Policy)
        ensures
            table_view(out.ignored_keys@) == standard_ignored_keys(),
            table_view(out.skipped_prefixes@) == standard_skipped_prefixes(),
            entries_view(out.allowlist@) == standard_allowlist(),
    {
        let mut out = Policy::new();
        proof {
            assert(table_view(out.ignored_keys@) =~= Seq::<Seq<char>>::empty());
            assert(table_view(out.skipped_prefixes@) =~= Seq::<Seq<char>>::empty());
            assert(entries_view(out.allowlist@) =~= Seq::<(Seq<char>, Seq<char>)>::empty());
        }
        out.ignore_key("doc.flaws");
        out.ignore_key("blogMeta.readTime");
        out.ignore_key("doc.modified");
        out.ignore_key("doc.popularity");
        out.ignore_key("doc.source.github_url");
        out.ignore_key("doc.source.last_commit_url");
        out.ignore_key("doc.sidebarMacro");
        out.ignore_key("doc.hasMathML");
        out.ignore_key("doc.other_translations");
        out.ignore_key("doc.summary");
        out.skip_prefix("docs/mdn/writing_guidelines/");
        out.skip_prefix("docs/mozilla/add-ons/webextensions/");
        out.skip_prefix("docs/mozilla/firefox/releases/");
        push_standard_allowlist(&mut out.allowlist);
        proof {
            assert(Seq::<(Seq<char>, Seq<char>)>::empty() + standard_allowlist()
                =~= standard_allowlist());
        }
        out
    }
}

} // verus!
