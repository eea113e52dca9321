//! What holds of every comparison, whatever the documents.
use vstd::prelude::*;
use crate::corpus::{
    counted, fresh_tally, paired, tallied, verdict, CompareMode, Pair, ReportItem, Tally,
};
use crate::dedup::{
    base64_no_pad, lemma_pair_bytes_determine_pair, pair_bytes, pair_digest, sha256,
};
use crate::differ::{answers, settled_all, told_all};
use crate::findings::{
    array_findings, arranged_item, arrangement, back_reference, findings, left_findings,
    longer, right_findings, run, shallow_findings, sort_key, sort_keys, step, suppressed, Delta,
    Finding, Progress, MARKER, SPECIFICATIONS_SUFFIX,
};
use crate::json::{has_key, lookup, JsonView};
use crate::options::DiffOptions;
use crate::order::{
    increasing, lemma_lt_irreflexive, lemma_lt_total, lemma_lt_transitive, text_lt,
};
use crate::path::{key_of, Step};
use crate::policy::Policy;
use crate::render::rendered_diff;
use crate::report::{category, grouped, item_markup, placed, GroupView};
use crate::sorting::{arranged_keys, lemma_sort_order_upto, lemma_sorted_keys_agree, sort_order};

verus! {

/// Whether a place may be reported at all: it is not exempt by the
/// allow-list, its document is not skipped, and its key is not ignored.
pub open spec fn reportable(policy: Policy, file: Seq<char>, key: Seq<char>) -> bool {
    &&& !policy.allows(file, key)
    &&& !policy.skips_file(file)
    &&& !policy.ignores_key(key)
}

/// Whether every finding of a list is at a place that may be reported.
pub open spec fn all_reportable(found: Seq<Finding>, policy: Policy, file: Seq<char>) -> bool {
    forall|i: int| 0 <= i < found.len() ==> reportable(policy, file, (#[trigger] found[i]).key)
}

/// A value compared with itself gives no finding.
pub proof fn lemma_same_value_no_findings(
    v: JsonView,
    file: Seq<char>,
    path: Seq<Step>,
    policy: Policy,
    options: DiffOptions,
)
    ensures
        findings(v, v, file, path, policy, options) == Seq::<Finding>::empty(),
{
}

/// Nothing is found at a place that the allow-list exempts, in a document
/// that is skipped, or under a key that is ignored: every finding of the
/// places compared without going below them may be reported.
pub proof fn lemma_shallow_reportable(
    lhs: JsonView,
    rhs: JsonView,
    file: Seq<char>,
    path: Seq<Step>,
    policy: Policy,
    options: DiffOptions,
)
    ensures
        all_reportable(shallow_findings(lhs, rhs, file, path, policy, options), policy, file),
        forall|i: int|
            0 <= i < shallow_findings(lhs, rhs, file, path, policy, options).len() ==> (
            #[trigger] shallow_findings(lhs, rhs, file, path, policy, options)[i]).key == key_of(
                path,
            ),
{
}

proof fn lemma_concat_reportable(
    a: Seq<Finding>,
    b: Seq<Finding>,
    policy: Policy,
    file: Seq<char>,
)
    requires
        all_reportable(a, policy, file),
        all_reportable(b, policy, file),
    ensures
        all_reportable(a + b, policy, file),
{
    assert forall|i: int| 0 <= i < (a + b).len() implies reportable(
        policy,
        file,
        (#[trigger] (a + b)[i]).key,
    ) by {
        if i < a.len() {
            assert((a + b)[i] == a[i]);
        } else {
            assert((a + b)[i] == b[i - a.len()]);
        }
    }
}

proof fn lemma_array_reportable(
    a: Seq<JsonView>,
    b: Seq<JsonView>,
    order_a: Seq<int>,
    order_b: Seq<int>,
    file: Seq<char>,
    path: Seq<Step>,
    policy: Policy,
    options: DiffOptions,
    n: nat,
)
    ensures
        all_reportable(
            array_findings(a, b, order_a, order_b, file, path, policy, options, n),
            policy,
            file,
        ),
    decreases a, n,
{
    if n > 0 {
        let i = n - 1;
        let child = path.push(Step::Index(i as nat));
        let right = arranged_item(b, order_b, i);
        lemma_array_reportable(a, b, order_a, order_b, file, path, policy, options, i as nat);
        let rest = array_findings(a, b, order_a, order_b, file, path, policy, options, i as nat);
        if 0 <= i < order_a.len() && 0 <= order_a[i] < a.len() {
            lemma_findings_reportable(a[order_a[i]], right, file, child, policy, options);
            lemma_concat_reportable(
                rest,
                findings(a[order_a[i]], right, file, child, policy, options),
                policy,
                file,
            );
        } else {
            lemma_shallow_reportable(JsonView::Null, right, file, child, policy, options);
            lemma_concat_reportable(
                rest,
                shallow_findings(JsonView::Null, right, file, child, policy, options),
                policy,
                file,
            );
        }
    }
}

proof fn lemma_left_reportable(
    a: Seq<(Seq<char>, JsonView)>,
    b: Seq<(Seq<char>, JsonView)>,
    file: Seq<char>,
    path: Seq<Step>,
    policy: Policy,
    options: DiffOptions,
    n: nat,
)
    ensures
        all_reportable(left_findings(a, b, file, path, policy, options, n), policy, file),
    decreases a, n,
{
    if n > 0 {
        let i = n - 1;
        lemma_left_reportable(a, b, file, path, policy, options, i as nat);
        let rest = left_findings(a, b, file, path, policy, options, i as nat);
        if 0 <= i < a.len() {
            let right = lookup(b, a[i].0);
            let child = path.push(Step::Key(a[i].0));
            lemma_findings_reportable(a[i].1, right, file, child, policy, options);
            lemma_concat_reportable(
                rest,
                findings(a[i].1, right, file, child, policy, options),
                policy,
                file,
            );
        } else {
            assert(rest + Seq::<Finding>::empty() == rest);
        }
    }
}

proof fn lemma_right_reportable(
    a: Seq<(Seq<char>, JsonView)>,
    b: Seq<(Seq<char>, JsonView)>,
    file: Seq<char>,
    path: Seq<Step>,
    policy: Policy,
    options: DiffOptions,
    n: nat,
)
    ensures
        all_reportable(right_findings(a, b, file, path, policy, options, n), policy, file),
    decreases n,
{
    if n > 0 {
        let i = n - 1;
        lemma_right_reportable(a, b, file, path, policy, options, i as nat);
        let rest = right_findings(a, b, file, path, policy, options, i as nat);
        if 0 <= i < b.len() && !has_key(a, b[i].0) {
            let child = path.push(Step::Key(b[i].0));
            lemma_shallow_reportable(JsonView::Null, b[i].1, file, child, policy, options);
            lemma_concat_reportable(
                rest,
                shallow_findings(JsonView::Null, b[i].1, file, child, policy, options),
                policy,
                file,
            );
        } else {
            assert(rest + Seq::<Finding>::empty() == rest);
        }
    }
}

/// Every finding of a comparison is at a place that may be reported: none
/// is at a place that the allow-list exempts, in a document that is
/// skipped, or under a key that is ignored, however the values differ.
pub proof fn lemma_findings_reportable(
    lhs: JsonView,
    rhs: JsonView,
    file: Seq<char>,
    path: Seq<Step>,
    policy: Policy,
    options: DiffOptions,
)
    ensures
        all_reportable(findings(lhs, rhs, file, path, policy, options), policy, file),
    decreases lhs, 0nat,
{
    if !suppressed(lhs, rhs, file, path, policy, options) {
        match (lhs, rhs) {
            (JsonView::Array(a), JsonView::Array(b)) => {
                let sorted = SPECIFICATIONS_SUFFIX@.is_suffix_of(key_of(path));
                lemma_array_reportable(
                    a,
                    b,
                    arrangement(a, sorted),
                    arrangement(b, sorted),
                    file,
                    path,
                    policy,
                    options,
                    longer(a.len(), b.len()),
                );
            },
            (JsonView::Object(a), JsonView::Object(b)) => {
                lemma_left_reportable(a, b, file, path, policy, options, a.len());
                lemma_right_reportable(a, b, file, path, policy, options, b.len());
                lemma_concat_reportable(
                    left_findings(a, b, file, path, policy, options, a.len()),
                    right_findings(a, b, file, path, policy, options, b.len()),
                    policy,
                    file,
                );
            },
            _ => {
                lemma_shallow_reportable(lhs, rhs, file, path, policy, options);
            },
        }
    }
}

/// Whether some finding of the list is at the key.
pub open spec fn found_at(found: Seq<Finding>, key: Seq<char>) -> bool {
    exists|i: int| 0 <= i < found.len() && (#[trigger] found[i]).key == key
}

/// Reporting changes the divergence map only at the keys of the findings.
pub proof fn lemma_run_touches_found_keys(
    p: Progress,
    found: Seq<Finding>,
    fast: bool,
    enabled: bool,
    key: Seq<char>,
)
    requires
        !found_at(found, key),
    ensures
        run(p, found, fast, enabled).map.contains_key(key) == p.map.contains_key(key),
        p.map.contains_key(key) ==> run(p, found, fast, enabled).map[key] == p.map[key],
    decreases found.len(),
{
    if found.len() > 0 {
        let front = found.drop_last();
        assert(!found_at(front, key)) by {
            if found_at(front, key) {
                let i = choose|i: int| 0 <= i < front.len() && (#[trigger] front[i]).key == key;
                assert(found[i].key == key);
            }
        }
        lemma_run_touches_found_keys(p, front, fast, enabled, key);
        assert(found[found.len() - 1].key != key);
    }
}

/// Where reporting ends without an error, the divergence map holds a key
/// exactly where it held one before or a finding is at that key: the keys
/// that a comparison adds to an empty map are the keys of the places where
/// something was found, no more and no fewer.
pub proof fn lemma_reported_keys_are_found_keys(
    p: Progress,
    found: Seq<Finding>,
    fast: bool,
    enabled: bool,
)
    requires
        run(p, found, fast, enabled).error is None,
    ensures
        p.error is None,
        forall|key: Seq<char>|
            #[trigger] run(p, found, fast, enabled).map.contains_key(key) <==> p.map.contains_key(
                key,
            ) || found_at(found, key),
    decreases found.len(),
{
    if found.len() > 0 {
        let front = found.drop_last();
        let last = found.last();
        let before = run(p, front, fast, enabled);
        lemma_reported_keys_are_found_keys(p, front, fast, enabled);
        assert forall|key: Seq<char>|
            #[trigger] run(p, found, fast, enabled).map.contains_key(key) <==> p.map.contains_key(
                key,
            ) || found_at(found, key) by {
            if found_at(front, key) {
                let i = choose|i: int| 0 <= i < front.len() && (#[trigger] front[i]).key == key;
                assert(found[i].key == key);
            }
            if found_at(found, key) && !found_at(front, key) {
                let i = choose|i: int| 0 <= i < found.len() && (#[trigger] found[i]).key == key;
                if i < front.len() {
                    assert(front[i].key == key);
                }
                assert(last.key == key);
            }
            if last.key == key {
                assert(found[found.len() - 1].key == key);
            }
        }
    } else {
        assert forall|key: Seq<char>| !found_at(found, key) by {}
    }
}

/// An exempt place never enters the divergence map: where the allow-list
/// names a place of the document, the map holds for its key after the
/// comparison exactly what it held before, however the two values differ.
pub proof fn lemma_exempt_never_reported(
    lhs: JsonView,
    rhs: JsonView,
    file: Seq<char>,
    path: Seq<Step>,
    policy: Policy,
    options: DiffOptions,
    p: Progress,
    enabled: bool,
    key: Seq<char>,
)
    requires
        policy.allows(file, key),
    ensures
        ({
            let end = run(
                p,
                findings(lhs, rhs, file, path, policy, options),
                options.fast,
                enabled,
            );
            &&& end.map.contains_key(key) == p.map.contains_key(key)
            &&& p.map.contains_key(key) ==> end.map[key] == p.map[key]
        }),
{
    let found = findings(lhs, rhs, file, path, policy, options);
    lemma_findings_reportable(lhs, rhs, file, path, policy, options);
    if found_at(found, key) {
        let i = choose|i: int| 0 <= i < found.len() && (#[trigger] found[i]).key == key;
        assert(reportable(policy, file, found[i].key));
    }
    lemma_run_touches_found_keys(p, found, options.fast, enabled, key);
}

/// Each document of a corpus paired with itself.
pub open spec fn self_pairs(a: Seq<(Seq<char>, JsonView)>) -> Seq<Pair> {
    Seq::new(a.len(), |i: int| Pair { file: a[i].0, left: a[i].1, right: a[i].1 })
}

proof fn lemma_paired_with_itself(a: Seq<(Seq<char>, JsonView)>, k: int)
    requires
        0 <= k <= a.len(),
    ensures
        paired(a.skip(k), a.skip(k)) == self_pairs(a).skip(k),
    decreases a.len() - k,
{
    let rest = a.skip(k);
    if k < a.len() {
        lemma_lt_irreflexive(rest[0].0);
        lemma_paired_with_itself(a, k + 1);
        assert(rest.skip(1) == a.skip(k + 1));
        assert(rest[0] == a[k]);
        assert(self_pairs(a).skip(k) =~= seq![self_pairs(a)[k]] + self_pairs(a).skip(k + 1));
    } else {
        assert(self_pairs(a).skip(k) =~= Seq::<Pair>::empty());
    }
}

proof fn lemma_tally_of_equal_pairs(
    a: Seq<(Seq<char>, JsonView)>,
    n: int,
    mode: CompareMode,
    policy: Policy,
    options: DiffOptions,
    cache: Map<Seq<char>, Seq<char>>,
    enabled: bool,
)
    requires
        0 <= n <= a.len(),
    ensures
        tallied(fresh_tally(cache), self_pairs(a).take(n), mode, policy, options, enabled) == (
        Tally { items: Seq::empty(), same: n as nat, cache, error: None }),
    decreases n,
{
    let pairs = self_pairs(a).take(n);
    if n > 0 {
        lemma_tally_of_equal_pairs(a, n - 1, mode, policy, options, cache, enabled);
        assert(pairs.drop_last() == self_pairs(a).take(n - 1));
        let pair = pairs.last();
        assert(pair == self_pairs(a)[n - 1]);
        assert(pair.left == pair.right);
        lemma_same_value_no_findings(pair.left, pair.file, Seq::empty(), policy, options);
        let before = Tally { items: Seq::empty(), same: (n - 1) as nat, cache, error: None };
        let v = verdict(mode, cache, pair, policy, options, enabled);
        assert(v.error is None && v.body is None && v.cache == cache);
        assert(counted(before, pair, mode, policy, options, enabled) == (Tally {
            items: Seq::empty(),
            same: n as nat,
            cache,
            error: None,
        }));
    }
}

/// A corpus compared with itself gives no item: every path is counted as
/// the same, there is no error, and the cache is left as it was.
pub proof fn lemma_corpus_against_itself(
    a: Seq<(Seq<char>, JsonView)>,
    mode: CompareMode,
    policy: Policy,
    options: DiffOptions,
    cache: Map<Seq<char>, Seq<char>>,
    enabled: bool,
)
    ensures
        paired(a, a).len() == a.len(),
        tallied(fresh_tally(cache), paired(a, a), mode, policy, options, enabled) == (Tally {
            items: Seq::empty(),
            same: a.len(),
            cache,
            error: None,
        }),
{
    lemma_paired_with_itself(a, 0);
    assert(a.skip(0) == a);
    assert(self_pairs(a).skip(0) == self_pairs(a));
    assert(self_pairs(a).take(a.len() as int) == self_pairs(a));
    lemma_tally_of_equal_pairs(a, a.len() as int, mode, policy, options, cache, enabled);
}

proof fn lemma_equal_positions_no_findings(
    a: Seq<JsonView>,
    b: Seq<JsonView>,
    order_a: Seq<int>,
    order_b: Seq<int>,
    file: Seq<char>,
    path: Seq<Step>,
    policy: Policy,
    options: DiffOptions,
    n: nat,
)
    requires
        n <= order_a.len(),
        order_a.len() == order_b.len(),
        forall|i: int|
            0 <= i < order_a.len() ==> 0 <= #[trigger] order_a[i] < a.len() && 0 <= order_b[i]
                < b.len() && a[order_a[i]] == b[order_b[i]],
    ensures
        array_findings(a, b, order_a, order_b, file, path, policy, options, n) == Seq::<
            Finding,
        >::empty(),
    decreases n,
{
    if n > 0 {
        let i = n - 1;
        lemma_equal_positions_no_findings(
            a,
            b,
            order_a,
            order_b,
            file,
            path,
            policy,
            options,
            i as nat,
        );
        assert(0 <= order_a[i] < a.len());
        assert(arranged_item(b, order_b, i) == a[order_a[i]]);
        lemma_same_value_no_findings(
            a[order_a[i]],
            file,
            path.push(Step::Index(i as nat)),
            policy,
            options,
        );
    }
}

/// Two arrays of specifications that differ only in the order of their
/// elements give no finding: where the key of the place ends in
/// `specifications`, the two arrays hold the same sort keys, however
/// ordered, and elements with the same sort key are equal, nothing is
/// reported.
pub proof fn lemma_reordered_specifications(
    a: Seq<JsonView>,
    b: Seq<JsonView>,
    file: Seq<char>,
    path: Seq<Step>,
    policy: Policy,
    options: DiffOptions,
)
    requires
        SPECIFICATIONS_SUFFIX@.is_suffix_of(key_of(path)),
        sort_keys(a).to_multiset() == sort_keys(b).to_multiset(),
        forall|i: int, j: int|
            0 <= i < a.len() && 0 <= j < b.len() && sort_key(a[i])
                == sort_key(b[j]) ==> a[i] == b[j],
    ensures
        findings(JsonView::Array(a), JsonView::Array(b), file, path, policy, options) == Seq::<
            Finding,
        >::empty(),
{
    let ka = sort_keys(a);
    let kb = sort_keys(b);
    let oa = sort_order(ka);
    let ob = sort_order(kb);
    lemma_sorted_keys_agree(ka, kb);
    lemma_sort_order_upto(ka, ka.len());
    lemma_sort_order_upto(kb, kb.len());
    assert forall|i: int| 0 <= i < oa.len() implies 0 <= #[trigger] oa[i] < a.len() && 0 <= ob[i]
        < b.len() && a[oa[i]] == b[ob[i]] by {
        assert(0 <= ob[i] < kb.len());
        assert(arranged_keys(ka, oa)[i] == ka[oa[i]]);
        assert(arranged_keys(kb, ob)[i] == kb[ob[i]]);
    }
    lemma_equal_positions_no_findings(a, b, oa, ob, file, path, policy, options, a.len());
}

/// Storing findings reads of the markers only those of the findings.
proof fn lemma_settled_all_agree(
    map: Map<Seq<char>, Seq<char>>,
    found: Seq<Finding>,
    k1: Seq<Option<Seq<char>>>,
    k2: Seq<Option<Seq<char>>>,
    fast: bool,
)
    requires
        forall|i: int| 0 <= i < found.len() ==> k1[i] == k2[i],
    ensures
        settled_all(map, found, k1, fast) == settled_all(map, found, k2, fast),
    decreases found.len(),
{
    if found.len() > 0 {
        lemma_settled_all_agree(map, found.drop_last(), k1, k2, fast);
    }
}

/// Asking and telling the cache of all findings first and storing them
/// afterwards gives the divergence map and the result that reporting them
/// one by one gives; and where no error ends the reporting, the same cache.
pub proof fn lemma_record_then_store(
    map: Map<Seq<char>, Seq<char>>,
    cache: Map<Seq<char>, Seq<char>>,
    found: Seq<Finding>,
    fast: bool,
    enabled: bool,
)
    ensures
        ({
            let end = run(Progress { map, cache, error: None }, found, fast, enabled);
            let stored = settled_all(map, found, answers(cache, found, enabled), fast);
            &&& stored.map == end.map
            &&& stored.error == end.error
            &&& end.error is None ==> told_all(cache, found, enabled) == end.cache
        }),
    decreases found.len(),
{
    if found.len() > 0 {
        let front = found.drop_last();
        let known = answers(cache, found, enabled);
        lemma_record_then_store(map, cache, front, fast, enabled);
        assert forall|i: int| 0 <= i < front.len() implies known[i] == answers(
            cache,
            front,
            enabled,
        )[i] by {
            assert(front.take(i) == found.take(i));
        }
        lemma_settled_all_agree(map, front, known, answers(cache, front, enabled), fast);
        assert(found.take(found.len() - 1) == front);
    }
}

/// A difference that the cache knows is reported as a reference to the
/// marker of its first occurrence: it is not rendered again, and the cache
/// stays as it is.
pub proof fn lemma_known_difference_is_referenced(
    p: Progress,
    key: Seq<char>,
    lhs: Seq<char>,
    rhs: Seq<char>,
    fast: bool,
    enabled: bool,
)
    requires
        p.error is None,
        p.cache.contains_key(pair_digest(lhs, rhs)),
    ensures
        ({
            let after = step(p, Finding { key, delta: Delta::Text { lhs, rhs } }, fast, enabled);
            &&& after.error is None
            &&& after.cache == p.cache
            &&& after.map == p.map.insert(key, back_reference(p.cache[pair_digest(lhs, rhs)]))
        }),
{
}

/// A difference that the cache does not know is rendered in full, and an
/// enabled cache knows it afterwards, under the marker of a first
/// occurrence; a disabled cache stays as it is.
pub proof fn lemma_new_difference_is_rendered(
    p: Progress,
    key: Seq<char>,
    lhs: Seq<char>,
    rhs: Seq<char>,
    fast: bool,
    enabled: bool,
)
    requires
        p.error is None,
        !p.cache.contains_key(pair_digest(lhs, rhs)),
    ensures
        ({
            let after = step(p, Finding { key, delta: Delta::Text { lhs, rhs } }, fast, enabled);
            &&& after.cache == if enabled {
                p.cache.insert(pair_digest(lhs, rhs), MARKER@)
            } else {
                p.cache
            }
            &&& match rendered_diff(lhs, rhs, fast) {
                Ok(text) => after.error is None && after.map == p.map.insert(key, text),
                Err(e) => after.error == Some(e) && after.map == p.map,
            }
        }),
{
}

/// Two different differences share a digest only where the hash gives the
/// same result for different bytes: the bytes that are hashed tell the two
/// pairs of texts apart, whatever the texts are.
pub proof fn lemma_shared_digest_is_a_collision(
    l1: Seq<char>,
    r1: Seq<char>,
    l2: Seq<char>,
    r2: Seq<char>,
)
    requires
        l1 != l2 || r1 != r2,
    ensures
        pair_bytes(l1, r1) != pair_bytes(l2, r2),
        pair_digest(l1, r1) == pair_digest(l2, r2) ==> base64_no_pad(sha256(pair_bytes(l1, r1)))
            == base64_no_pad(sha256(pair_bytes(l2, r2))),
{
    if pair_bytes(l1, r1) == pair_bytes(l2, r2) {
        lemma_pair_bytes_determine_pair(l1, r1, l2, r2);
    }
}

/// The cache only grows: what it knows before findings are reported it
/// knows afterwards, under the same marker. The first to record a digest
/// wins.
pub proof fn lemma_cache_only_grows(
    p: Progress,
    found: Seq<Finding>,
    fast: bool,
    enabled: bool,
    digest: Seq<char>,
)
    requires
        p.cache.contains_key(digest),
    ensures
        run(p, found, fast, enabled).cache.contains_key(digest),
        run(p, found, fast, enabled).cache[digest] == p.cache[digest],
    decreases found.len(),
{
    if found.len() > 0 {
        lemma_cache_only_grows(p, found.drop_last(), fast, enabled, digest);
    }
}

/// A disabled cache that holds nothing never holds anything: every
/// difference is rendered in full, however often it occurs.
pub proof fn lemma_disabled_cache_stays_empty(p: Progress, found: Seq<Finding>, fast: bool)
    requires
        p.cache == Map::<Seq<char>, Seq<char>>::empty(),
    ensures
        run(p, found, fast, false).cache == p.cache,
    decreases found.len(),
{
    if found.len() > 0 {
        lemma_disabled_cache_stays_empty(p, found.drop_last(), fast);
    }
}

/// The categories of the groups, in their order.
pub open spec fn group_categories(groups: Seq<GroupView>) -> Seq<Seq<char>> {
    Seq::new(groups.len(), |i: int| groups[i].category)
}

/// How many entries the groups hold together.
pub open spec fn entries_in(groups: Seq<GroupView>) -> nat
    decreases groups.len(),
{
    if groups.len() == 0 {
        0
    } else {
        entries_in(groups.drop_last()) + groups.last().items.len()
    }
}

proof fn lemma_placed(groups: Seq<GroupView>, category: Seq<char>, entry: Seq<char>)
    requires
        increasing(group_categories(groups)),
    ensures
        increasing(group_categories(placed(groups, category, entry))),
        entries_in(placed(groups, category, entry)) == entries_in(groups) + 1,
        forall|i: int|
            0 <= i < placed(groups, category, entry).len() ==> (#[trigger] placed(
                groups,
                category,
                entry,
            )[i]).category == category || exists|j: int|
                0 <= j < groups.len() && groups[j].category == placed(
                    groups,
                    category,
                    entry,
                )[i].category,
    decreases groups.len(),
{
    let out = placed(groups, category, entry);
    let cats = group_categories(groups);
    let new_cats = group_categories(out);
    let new_group = GroupView { category, items: seq![entry] };
    if groups.len() == 0 {
        assert(out.drop_last() == Seq::<GroupView>::empty());
        assert(entries_in(out.drop_last()) == 0);
    } else {
        let last = groups.last();
        let front = groups.drop_last();
        assert forall|i: int, j: int| 0 <= i < j < front.len() implies text_lt(
            #[trigger] group_categories(front)[i],
            #[trigger] group_categories(front)[j],
        ) by {
            assert(text_lt(cats[i], cats[j]));
        }
        if last.category == category {
            let updated = GroupView { category, items: last.items.push(entry) };
            assert(out == front.push(updated));
            assert(out.drop_last() == front);
            assert(new_cats =~= cats);
            assert forall|i: int| 0 <= i < out.len() implies (#[trigger] out[i]).category
                == category || exists|j: int|
                0 <= j < groups.len() && groups[j].category == out[i].category by {
                if i < front.len() {
                    assert(groups[i].category == out[i].category);
                }
            }
        } else if text_lt(last.category, category) {
            assert(out == groups.push(new_group));
            assert(out.drop_last() == groups);
            assert forall|i: int, j: int| 0 <= i < j < new_cats.len() implies text_lt(
                #[trigger] new_cats[i],
                #[trigger] new_cats[j],
            ) by {
                if j < groups.len() {
                    assert(text_lt(cats[i], cats[j]));
                } else if i < groups.len() - 1 {
                    assert(text_lt(cats[i], cats[groups.len() - 1]));
                    lemma_lt_transitive(cats[i], last.category, category);
                } else {
                    assert(new_cats[i] == last.category);
                }
            }
            assert forall|i: int| 0 <= i < out.len() implies (#[trigger] out[i]).category
                == category || exists|j: int|
                0 <= j < groups.len() && groups[j].category == out[i].category by {
                if i < groups.len() {
                    assert(groups[i].category == out[i].category);
                }
            }
        } else {
            lemma_placed(front, category, entry);
            let inner = placed(front, category, entry);
            assert(out == inner.push(last));
            assert(out.drop_last() == inner);
            lemma_lt_total(last.category, category);
            assert(text_lt(category, last.category));
            assert forall|i: int, j: int| 0 <= i < j < new_cats.len() implies text_lt(
                #[trigger] new_cats[i],
                #[trigger] new_cats[j],
            ) by {
                if j < inner.len() {
                    assert(text_lt(group_categories(inner)[i], group_categories(inner)[j]));
                } else {
                    assert(new_cats[j] == last.category);
                    assert(new_cats[i] == inner[i].category);
                    if inner[i].category != category {
                        let k = choose|k: int|
                            0 <= k < front.len() && front[k].category == inner[i].category;
                        assert(text_lt(cats[k], cats[groups.len() - 1]));
                    }
                }
            }
            assert forall|i: int| 0 <= i < out.len() implies (#[trigger] out[i]).category
                == category || exists|j: int|
                0 <= j < groups.len() && groups[j].category == out[i].category by {
                if i < inner.len() {
                    if inner[i].category != category {
                        let k = choose|k: int|
                            0 <= k < front.len() && front[k].category == inner[i].category;
                        assert(groups[k].category == out[i].category);
                    }
                } else {
                    assert(groups[groups.len() - 1].category == out[i].category);
                }
            }
        }
    }
}

/// The groups of a report stand in strictly increasing order of their
/// categories, so no category has two groups, and together they hold one
/// entry for each document that differs.
pub proof fn lemma_groups_sorted_and_complete(items: Seq<ReportItem>)
    ensures
        increasing(group_categories(grouped(items))),
        entries_in(grouped(items)) == items.len(),
    decreases items.len(),
{
    if items.len() > 0 {
        lemma_groups_sorted_and_complete(items.drop_last());
        lemma_placed(
            grouped(items.drop_last()),
            category(items.last().file@),
            item_markup(items.last()),
        );
    }
}

} // verus!
