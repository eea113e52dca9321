//! What the comparison of two JSON documents finds, stated as mathematics:
//! the places where the documents differ, in the order in which they are
//! visited, and what becomes of the divergence map and of the cache as each
//! place is reported.
use vstd::prelude::*;
use crate::dedup::pair_digest;
use crate::html::{canonical_html, looks_like_html};
use crate::json::{has_key, json_text, lookup, JsonView};
use crate::options::{DiffError, DiffOptions};
use crate::path::{key_of, Step};
use crate::policy::{is_root_url, Policy};
use crate::render::rendered_diff;
use crate::sorting::{identity_order, sort_order};
use crate::text::{lowercased, replaced, without_id_tail};

verus! {

/// The key under which the markup of the sidebar is kept.
pub const SIDEBAR_KEY: &'static str = "doc.sidebarHTML";

/// The key whose text is compared without regard to case.
pub const SIDEBAR_MACRO_KEY: &'static str = "doc.sidebarMacro";

/// The key whose text is compared without regard to indentation.
pub const SUMMARY_KEY: &'static str = "doc.summary";

/// A line break followed by an indentation of two spaces.
pub const INDENTED_BREAK: &'static str = "\n  ";

/// The line break that an indented one is compared as.
pub const PLAIN_BREAK: &'static str = "\n";

/// How the keys of generated ids begin.
pub const DOC_PREFIX: &'static str = "doc.";

/// How the keys of generated ids end.
pub const ID_SUFFIX: &'static str = "value.id";

/// Arrays under keys that end like this are compared sorted.
pub const SPECIFICATIONS_SUFFIX: &'static str = "specifications";

/// The field of an element by which such arrays are sorted.
pub const SORT_FIELD: &'static str = "bcdSpecificationURL";

/// What is stored in the cache for a difference that was rendered.
pub const MARKER: &'static str = "somewhere else";

/// How a reference to an earlier rendering begins.
pub const SEE: &'static str = "See ";

/// What differs at one place.
pub enum Delta {
    /// Two texts that differ, after the normalisation that their key asks
    /// for and, where both are markup, in canonical form.
    Text { lhs: Seq<char>, rhs: Seq<char> },
    /// Two values of which at least one is no text and which are not both
    /// arrays or both objects, each as compact JSON.
    Other { lhs: Seq<char>, rhs: Seq<char> },
    /// Markup that could not be brought into canonical form.
    Broken { error: DiffError },
}

/// One place where the two documents differ.
pub struct Finding {
    pub key: Seq<char>,
    pub delta: Delta,
}

/// Whether nothing is reported at or below a place: it is the `url` at the
/// root, the document is skipped, the place is exempt, the two values are
/// equal, or the key is one that is never reported.
pub open spec fn suppressed(
    lhs: JsonView,
    rhs: JsonView,
    file: Seq<char>,
    path: Seq<Step>,
    policy: Policy,
    options: DiffOptions,
) -> bool {
    let key = key_of(path);
    ||| is_root_url(path)
    ||| policy.skips_file(file)
    ||| policy.allows(file, key)
    ||| lhs == rhs
    ||| policy.ignores_key(key)
    ||| (key == SIDEBAR_KEY@ && !options.sidebars)
}

/// The text as it is compared under the given key: in lowercase for the
/// sidebar macro, without indentation after line breaks for the summary,
/// without the counter that ends a generated id, and unchanged elsewhere.
pub open spec fn normalized(key: Seq<char>, s: Seq<char>) -> Seq<char> {
    if key == SIDEBAR_MACRO_KEY@ {
        lowercased(s)
    } else if key == SUMMARY_KEY@ {
        replaced(s, INDENTED_BREAK@, PLAIN_BREAK@)
    } else if DOC_PREFIX@.is_prefix_of(key) && ID_SUFFIX@.is_suffix_of(key) {
        without_id_tail(s)
    } else {
        s
    }
}

/// The finding for two texts in their final form: none where they are
/// equal.
pub open spec fn differing_text(key: Seq<char>, lhs: Seq<char>, rhs: Seq<char>) -> Seq<Finding> {
    if lhs == rhs {
        Seq::empty()
    } else {
        seq![Finding { key, delta: Delta::Text { lhs, rhs } }]
    }
}

/// What is found for two texts under a key.
pub open spec fn text_findings(
    key: Seq<char>,
    lhs: Seq<char>,
    rhs: Seq<char>,
    options: DiffOptions,
) -> Seq<Finding> {
    let l = normalized(key, lhs);
    let r = normalized(key, rhs);
    if looks_like_html(l) && looks_like_html(r) {
        match canonical_html(l, options) {
            Err(error) => seq![Finding { key, delta: Delta::Broken { error } }],
            Ok(l2) => match canonical_html(r, options) {
                Err(error) => seq![Finding { key, delta: Delta::Broken { error } }],
                Ok(r2) => differing_text(key, l2, r2),
            },
        }
    } else {
        differing_text(key, l, r)
    }
}

/// What is found for two values that are compared as compact JSON.
pub open spec fn other_findings(key: Seq<char>, lhs: JsonView, rhs: JsonView) -> Seq<Finding> {
    let l = json_text(lhs);
    let r = json_text(rhs);
    if l == r {
        Seq::empty()
    } else {
        seq![Finding { key, delta: Delta::Other { lhs: l, rhs: r } }]
    }
}

/// What is found at a place without going below it: two texts are compared
/// as texts, everything else as compact JSON.
pub open spec fn shallow_findings(
    lhs: JsonView,
    rhs: JsonView,
    file: Seq<char>,
    path: Seq<Step>,
    policy: Policy,
    options: DiffOptions,
) -> Seq<Finding> {
    if suppressed(lhs, rhs, file, path, policy, options) {
        Seq::empty()
    } else {
        match (lhs, rhs) {
            (JsonView::Text(l), JsonView::Text(r)) => text_findings(key_of(path), l, r, options),
            _ => other_findings(key_of(path), lhs, rhs),
        }
    }
}

/// The member `name` of an object; null for what is no object or has no
/// such member.
pub open spec fn field(v: JsonView, name: Seq<char>) -> JsonView {
    match v {
        JsonView::Object(members) => lookup(members, name),
        _ => JsonView::Null,
    }
}

/// The text by which an element of a sorted array is ordered.
pub open spec fn sort_key(v: JsonView) -> Seq<char> {
    json_text(field(v, SORT_FIELD@))
}

/// The texts by which the elements of an array are ordered.
pub open spec fn sort_keys(items: Seq<JsonView>) -> Seq<Seq<char>> {
    Seq::new(items.len(), |i: int| sort_key(items[i]))
}

/// The order in which the elements of an array are taken: sorted by their
/// sort keys where `sorted` holds, as they stand otherwise.
pub open spec fn arrangement(items: Seq<JsonView>, sorted: bool) -> Seq<int> {
    if sorted {
        sort_order(sort_keys(items))
    } else {
        identity_order(items.len())
    }
}

/// Element `i` of an array in the given order, or null past its end.
pub open spec fn arranged_item(items: Seq<JsonView>, order: Seq<int>, i: int) -> JsonView {
    if 0 <= i < order.len() && 0 <= order[i] < items.len() {
        items[order[i]]
    } else {
        JsonView::Null
    }
}

/// What is found in the first `n` positions of two arrays, each taken in
/// its order. A position that one array lacks is compared against null.
pub open spec fn array_findings(
    a: Seq<JsonView>,
    b: Seq<JsonView>,
    order_a: Seq<int>,
    order_b: Seq<int>,
    file: Seq<char>,
    path: Seq<Step>,
    policy: Policy,
    options: DiffOptions,
    n: nat,
) -> Seq<Finding>
    decreases a, n,
{
    if n == 0 {
        Seq::empty()
    } else {
        let i = n - 1;
        let child = path.push(Step::Index(i as nat));
        let right = arranged_item(b, order_b, i);
        let here = if 0 <= i < order_a.len() && 0 <= order_a[i] < a.len() {
            findings(a[order_a[i]], right, file, child, policy, options)
        } else {
            shallow_findings(JsonView::Null, right, file, child, policy, options)
        };
        array_findings(a, b, order_a, order_b, file, path, policy, options, i as nat) + here
    }
}

/// What is found under the first `n` members of the left object, each
/// compared with the member of the same key on the right, or with null.
pub open spec fn left_findings(
    a: Seq<(Seq<char>, JsonView)>,
    b: Seq<(Seq<char>, JsonView)>,
    file: Seq<char>,
    path: Seq<Step>,
    policy: Policy,
    options: DiffOptions,
    n: nat,
) -> Seq<Finding>
    decreases a, n,
{
    if n == 0 {
        Seq::empty()
    } else {
        let i = n - 1;
        let here = if 0 <= i < a.len() {
            findings(
                a[i].1,
                lookup(b, a[i].0),
                file,
                path.push(Step::Key(a[i].0)),
                policy,
                options,
            )
        } else {
            Seq::empty()
        };
        left_findings(a, b, file, path, policy, options, i as nat) + here
    }
}

/// What is found under the first `n` members of the right object that the
/// left object lacks, each compared with null.
pub open spec fn right_findings(
    a: Seq<(Seq<char>, JsonView)>,
    b: Seq<(Seq<char>, JsonView)>,
    file: Seq<char>,
    path: Seq<Step>,
    policy: Policy,
    options: DiffOptions,
    n: nat,
) -> Seq<Finding>
    decreases n,
{
    if n == 0 {
        Seq::empty()
    } else {
        let i = n - 1;
        let here = if 0 <= i < b.len() && !has_key(a, b[i].0) {
            shallow_findings(
                JsonView::Null,
                b[i].1,
                file,
                path.push(Step::Key(b[i].0)),
                policy,
                options,
            )
        } else {
            Seq::empty()
        };
        right_findings(a, b, file, path, policy, options, i as nat) + here
    }
}

/// The larger of two lengths.
pub open spec fn longer(a: nat, b: nat) -> nat {
    if a >= b {
        a
    } else {
        b
    }
}

/// Everything that is found when `lhs` and `rhs`, which stand at `path` in
/// the document `file`, are compared: the findings of two arrays position by
/// position, those of two objects member by member, first the members of
/// the left and then those that only the right has, and those of any other
/// pair at the place itself.
pub open spec fn findings(
    lhs: JsonView,
    rhs: JsonView,
    file: Seq<char>,
    path: Seq<Step>,
    policy: Policy,
    options: DiffOptions,
) -> Seq<Finding>
    decreases lhs, 0nat,
{
    if suppressed(lhs, rhs, file, path, policy, options) {
        Seq::empty()
    } else {
        match (lhs, rhs) {
            (JsonView::Array(a), JsonView::Array(b)) => {
                let sorted = SPECIFICATIONS_SUFFIX@.is_suffix_of(key_of(path));
                array_findings(
                    a,
                    b,
                    arrangement(a, sorted),
                    arrangement(b, sorted),
                    file,
                    path,
                    policy,
                    options,
                    longer(a.len(), b.len()),
                )
            },
            (JsonView::Object(a), JsonView::Object(b)) => left_findings(
                a,
                b,
                file,
                path,
                policy,
                options,
                a.len(),
            ) + right_findings(a, b, file, path, policy, options, b.len()),
            _ => shallow_findings(lhs, rhs, file, path, policy, options),
        }
    }
}

/// The divergence map and the cache while findings are reported, and the
/// error that stopped the reporting, if one did.
pub struct Progress {
    pub map: Map<Seq<char>, Seq<char>>,
    pub cache: Map<Seq<char>, Seq<char>>,
    pub error: Option<DiffError>,
}

/// The text that refers to an earlier rendering.
pub open spec fn back_reference(marker: Seq<char>) -> Seq<char> {
    SEE@ + marker
}

/// The progress with the rendering stored under the key, or with the error.
pub open spec fn stored(p: Progress, key: Seq<char>, text: Result<Seq<char>, DiffError>) -> Progress {
    match text {
        Ok(text) => Progress { map: p.map.insert(key, text), ..p },
        Err(error) => Progress { error: Some(error), ..p },
    }
}

/// What reporting one finding makes of the progress. After an error
/// nothing changes any more. A text whose digest the cache knows is stored
/// as a reference to the marker found there; one that it does not know is
/// remembered, where the cache is enabled, and rendered in full.
pub open spec fn step(p: Progress, f: Finding, fast: bool, enabled: bool) -> Progress {
    if p.error is Some {
        p
    } else {
        match f.delta {
            Delta::Broken { error } => Progress { error: Some(error), ..p },
            Delta::Other { lhs, rhs } => stored(p, f.key, rendered_diff(lhs, rhs, false)),
            Delta::Text { lhs, rhs } => {
                let digest = pair_digest(lhs, rhs);
                if p.cache.contains_key(digest) {
                    stored(p, f.key, Ok(back_reference(p.cache[digest])))
                } else {
                    let cache = if enabled {
                        p.cache.insert(digest, MARKER@)
                    } else {
                        p.cache
                    };
                    stored(Progress { cache, ..p }, f.key, rendered_diff(lhs, rhs, fast))
                }
            },
        }
    }
}

/// What reporting the findings one after the other makes of the progress.
pub open spec fn run(p: Progress, found: Seq<Finding>, fast: bool, enabled: bool) -> Progress
    decreases found.len(),
{
    if found.len() == 0 {
        p
    } else {
        step(run(p, found.drop_last(), fast, enabled), found.last(), fast, enabled)
    }
}

/// Whether the new map and cache and the result are what reporting the
/// findings makes of the old map and cache.
pub open spec fn reported(
    old_map: Map<Seq<char>, Seq<char>>,
    old_cache: Map<Seq<char>, Seq<char>>,
    found: Seq<Finding>,
    fast: bool,
    enabled: bool,
    new_map: Map<Seq<char>, Seq<char>>,
    new_cache: Map<Seq<char>, Seq<char>>,
    out: Result<(), DiffError>,
) -> bool {
    let end = run(Progress { map: old_map, cache: old_cache, error: None }, found, fast, enabled);
    &&& new_map == end.map
    &&& new_cache == end.cache
    &&& match out {
        Ok(_) => end.error is None,
        Err(e) => end.error == Some(e),
    }
}

/// After an error nothing changes any more.
pub proof fn lemma_run_after_error(p: Progress, found: Seq<Finding>, fast: bool, enabled: bool)
    requires
        p.error is Some,
    ensures
        run(p, found, fast, enabled) == p,
    decreases found.len(),
{
    if found.len() > 0 {
        lemma_run_after_error(p, found.drop_last(), fast, enabled);
    }
}

/// Reporting two lists one after the other is reporting their concatenation.
pub proof fn lemma_run_concat(
    p: Progress,
    a: Seq<Finding>,
    b: Seq<Finding>,
    fast: bool,
    enabled: bool,
)
    ensures
        run(p, a + b, fast, enabled) == run(run(p, a, fast, enabled), b, fast, enabled),
    decreases b.len(),
{
    if b.len() == 0 {
        assert(a + b == a);
    } else {
        assert((a + b).drop_last() == a + b.drop_last());
        assert((a + b).last() == b.last());
        lemma_run_concat(p, a, b.drop_last(), fast, enabled);
    }
}

} // verus!
