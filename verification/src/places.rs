//! Different places of a document have different dotted keys, as long as
//! no key of an object holds a dot: every place that differs then has an
//! entry of its own in the divergence map.
use vstd::prelude::*;
use crate::findings::{
    array_findings, arranged_item, arrangement, findings, left_findings, longer,
    right_findings, run, shallow_findings, suppressed, Finding, Progress,
    SPECIFICATIONS_SUFFIX,
};
use crate::json::{has_key, keyed_at, lookup, member_keys, well_formed, JsonView};
use crate::laws::{found_at, lemma_reported_keys_are_found_keys};
use crate::options::DiffOptions;
use crate::order::{increasing, lemma_increasing_distinct};
use crate::path::{key_of, step_text, Step};
use crate::policy::Policy;
use crate::report::position_of;
use crate::text::{decimal, digit_char, lemma_joined_push};

verus! {

/// Whether a text holds no dot.
pub open spec fn dot_free(s: Seq<char>) -> bool {
    forall|i: int| 0 <= i < s.len() ==> s[i] != '.'
}

/// Whether no key of an object anywhere in the value holds a dot.
pub open spec fn dotless(v: JsonView) -> bool
    decreases v,
{
    match v {
        JsonView::Array(items) => forall|i: int| 0 <= i < items.len() ==> dotless(#[trigger] items[i]),
        JsonView::Object(members) => forall|i: int|
            0 <= i < members.len() ==> dot_free((#[trigger] members[i]).0) && dotless(members[i].1),
        _ => true,
    }
}

/// What the keys of the places below a path begin with: the key of the
/// path and a dot, or nothing at the root.
pub open spec fn child_prefix(path: Seq<Step>) -> Seq<char> {
    if path.len() == 0 {
        Seq::empty()
    } else {
        key_of(path) + seq!['.']
    }
}

/// Whether a key is the key of the path or of a place below it.
pub open spec fn below(key: Seq<char>, path: Seq<Step>) -> bool {
    key == key_of(path) || child_prefix(path).is_prefix_of(key)
}

/// The part of a key that names the step behind its first `n` characters:
/// what stands there up to the next dot.
pub open spec fn part_at(key: Seq<char>, n: int) -> Seq<char> {
    key.skip(n).take(position_of(key.skip(n), '.'))
}

/// Whether a key names, behind the prefix of the path, the step with the
/// given text.
pub open spec fn names_step(key: Seq<char>, path: Seq<Step>, text: Seq<char>) -> bool {
    child_prefix(path).is_prefix_of(key) && part_at(key, child_prefix(path).len() as int) == text
}

/// The key of a path that is one step longer.
pub proof fn lemma_child_key(path: Seq<Step>, step: Step)
    ensures
        key_of(path.push(step)) == child_prefix(path) + step_text(step),
{
    let parts = Seq::new(path.len(), |i: int| step_text(path[i]));
    let longer = path.push(step);
    assert(Seq::new(longer.len(), |i: int| step_text(longer[i])) == parts.push(step_text(step)));
    lemma_joined_push(parts, seq!['.'], step_text(step));
    if path.len() == 0 {
        assert(child_prefix(path) + step_text(step) == step_text(step));
    }
}

proof fn lemma_first_dot(s: Seq<char>, n: int)
    requires
        0 <= n <= s.len(),
        forall|i: int| 0 <= i < n ==> s[i] != '.',
        n < s.len() ==> s[n] == '.',
    ensures
        position_of(s, '.') == n,
    decreases n,
{
    if n > 0 {
        let rest = s.skip(1);
        assert forall|i: int| 0 <= i < n - 1 implies rest[i] != '.' by {
            assert(rest[i] == s[i + 1]);
        }
        if n < s.len() {
            assert(rest[n - 1] == s[n]);
        }
        lemma_first_dot(rest, n - 1);
    }
}

/// A key at or below the place that a step leads to names that step, where
/// the text of the step holds no dot.
pub proof fn lemma_below_names_step(key: Seq<char>, path: Seq<Step>, step: Step)
    requires
        below(key, path.push(step)),
        dot_free(step_text(step)),
    ensures
        names_step(key, path, step_text(step)),
{
    let prefix = child_prefix(path);
    let text = step_text(step);
    let child = path.push(step);
    lemma_child_key(path, step);
    let rest = key.skip(prefix.len() as int);
    if key == key_of(child) {
        assert(rest =~= text);
        assert(prefix.is_prefix_of(key));
        lemma_first_dot(rest, text.len() as int);
        assert(rest.take(text.len() as int) =~= text);
    } else {
        let deeper = child_prefix(child);
        assert(deeper == prefix + text + seq!['.']);
        assert(deeper.is_prefix_of(key));
        assert forall|i: int| 0 <= i < deeper.len() implies key[i] == deeper[i] by {
            assert(key.subrange(0, deeper.len() as int)[i] == deeper[i]);
        }
        assert(prefix.is_prefix_of(key)) by {
            assert(key.subrange(0, prefix.len() as int) =~= prefix) by {
                assert forall|i: int| 0 <= i < prefix.len() implies key[i] == prefix[i] by {
                    assert(deeper[i] == prefix[i]);
                }
            }
        }
        assert forall|i: int| 0 <= i < text.len() implies rest[i] != '.' by {
            assert(rest[i] == key[prefix.len() + i]);
            assert(deeper[prefix.len() + i] == text[i]);
        }
        assert(rest[text.len() as int] == '.') by {
            assert(rest[text.len() as int] == key[(prefix.len() + text.len()) as int]);
            assert(deeper[(prefix.len() + text.len()) as int] == '.');
        }
        lemma_first_dot(rest, text.len() as int);
        assert(rest.take(text.len() as int) =~= text) by {
            assert forall|i: int| 0 <= i < text.len() implies rest[i] == text[i] by {
                assert(rest[i] == key[prefix.len() + i]);
                assert(deeper[prefix.len() + i] == text[i]);
            }
        }
    }
}

/// A key at or below the place that a step leads to is below the place
/// that the step leaves.
pub proof fn lemma_below_parent(key: Seq<char>, path: Seq<Step>, step: Step)
    requires
        below(key, path.push(step)),
    ensures
        below(key, path),
{
    let prefix = child_prefix(path);
    let child = path.push(step);
    lemma_child_key(path, step);
    if key == key_of(child) {
        assert(key.subrange(0, prefix.len() as int) =~= prefix);
    } else {
        let deeper = child_prefix(child);
        assert(deeper == prefix + step_text(step) + seq!['.']);
        assert forall|i: int| 0 <= i < deeper.len() implies key[i] == deeper[i] by {
            assert(key.subrange(0, deeper.len() as int)[i] == deeper[i]);
        }
        assert(key.subrange(0, prefix.len() as int) =~= prefix) by {
            assert forall|i: int| 0 <= i < prefix.len() implies key[i] == prefix[i] by {
                assert(deeper[i] == prefix[i]);
            }
        }
    }
}

/// The decimal writing of a number holds digits only, and at least one.
pub proof fn lemma_decimal_digits(n: nat)
    ensures
        decimal(n).len() >= 1,
        n >= 10 ==> decimal(n).len() >= 2,
        dot_free(decimal(n)),
    decreases n,
{
    if n >= 10 {
        lemma_decimal_digits(n / 10);
        let front = decimal(n / 10);
        assert forall|i: int| 0 <= i < decimal(n).len() implies decimal(n)[i] != '.' by {
            if i < front.len() {
                assert(decimal(n)[i] == front[i]);
            }
        }
    }
}

/// Different numbers are written differently.
pub proof fn lemma_decimal_injective(a: nat, b: nat)
    requires
        decimal(a) == decimal(b),
    ensures
        a == b,
    decreases a,
{
    lemma_decimal_digits(a);
    lemma_decimal_digits(b);
    if a < 10 {
        assert(decimal(a).len() == 1);
        assert(b < 10);
        assert(decimal(a)[0] == digit_char(a));
        assert(decimal(b)[0] == digit_char(b));
    } else {
        assert(b >= 10);
        let fa = decimal(a / 10);
        let fb = decimal(b / 10);
        assert(decimal(a).drop_last() == fa);
        assert(decimal(b).drop_last() == fb);
        assert(decimal(a).last() == digit_char(a % 10));
        assert(decimal(b).last() == digit_char(b % 10));
        lemma_decimal_injective(a / 10, b / 10);
        assert(a % 10 == b % 10);
    }
}

/// Whether every finding of the list is at or below the path.
pub open spec fn all_below(found: Seq<Finding>, path: Seq<Step>) -> bool {
    forall|i: int| 0 <= i < found.len() ==> below((#[trigger] found[i]).key, path)
}

/// Whether no two findings of the list are at the same key.
pub open spec fn distinct_keys(found: Seq<Finding>) -> bool {
    forall|i: int, j: int|
        0 <= i < j < found.len() ==> (#[trigger] found[i]).key != (#[trigger] found[j]).key
}

/// Whether the key names one of the first `n` positions of an array.
pub open spec fn names_index(key: Seq<char>, path: Seq<Step>, n: nat) -> bool {
    exists|i: nat| i < n && names_step(key, path, #[trigger] decimal(i))
}

/// Whether the key names one of the first `n` members.
pub open spec fn names_member(
    key: Seq<char>,
    path: Seq<Step>,
    members: Seq<(Seq<char>, JsonView)>,
    n: nat,
) -> bool {
    exists|i: int| 0 <= i < n && i < members.len() && names_step(key, path, (#[trigger] members[i]).0)
}

/// Whether the elements of an array are well formed and hold no key with a
/// dot.
pub open spec fn items_plain(items: Seq<JsonView>) -> bool {
    forall|i: int| 0 <= i < items.len() ==> well_formed(#[trigger] items[i]) && dotless(items[i])
}

/// Whether the members of an object stand in order, are well formed and
/// hold no key with a dot.
pub open spec fn members_plain(members: Seq<(Seq<char>, JsonView)>) -> bool {
    &&& increasing(member_keys(members))
    &&& forall|i: int|
        0 <= i < members.len() ==> dot_free((#[trigger] members[i]).0) && well_formed(
            members[i].1,
        ) && dotless(members[i].1)
}

proof fn lemma_concat(a: Seq<Finding>, b: Seq<Finding>, path: Seq<Step>)
    requires
        all_below(a, path),
        all_below(b, path),
        distinct_keys(a),
        distinct_keys(b),
        forall|i: int, j: int|
            0 <= i < a.len() && 0 <= j < b.len() ==> (#[trigger] a[i]).key != (#[trigger] b[j]).key,
    ensures
        all_below(a + b, path),
        distinct_keys(a + b),
{
    let all = a + b;
    assert forall|i: int| 0 <= i < all.len() implies below((#[trigger] all[i]).key, path) by {
        if i < a.len() {
            assert(all[i] == a[i]);
        } else {
            assert(all[i] == b[i - a.len()]);
        }
    }
    assert forall|i: int, j: int| 0 <= i < j < all.len() implies (#[trigger] all[i]).key != (
    #[trigger] all[j]).key by {
        if j < a.len() {
            assert(all[i] == a[i] && all[j] == a[j]);
        } else if i >= a.len() {
            assert(all[i] == b[i - a.len()] && all[j] == b[j - a.len()]);
        } else {
            assert(all[i] == a[i] && all[j] == b[j - a.len()]);
        }
    }
}

proof fn lemma_shallow(
    lhs: JsonView,
    rhs: JsonView,
    file: Seq<char>,
    path: Seq<Step>,
    policy: Policy,
    options: DiffOptions,
)
    ensures
        shallow_findings(lhs, rhs, file, path, policy, options).len() <= 1,
        all_below(shallow_findings(lhs, rhs, file, path, policy, options), path),
        distinct_keys(shallow_findings(lhs, rhs, file, path, policy, options)),
{
}

proof fn lemma_lookup_plain(members: Seq<(Seq<char>, JsonView)>, key: Seq<char>)
    requires
        members_plain(members),
    ensures
        well_formed(lookup(members, key)),
        dotless(lookup(members, key)),
{
    if has_key(members, key) {
        let i = choose|i: int| keyed_at(members, key, i);
        assert(well_formed(members[i].1));
    }
}

/// The findings of a child, which stand at or below the place that the
/// step leads to, all name the step.
proof fn lemma_child(here: Seq<Finding>, path: Seq<Step>, step: Step)
    requires
        all_below(here, path.push(step)),
        dot_free(step_text(step)),
    ensures
        all_below(here, path),
        forall|k: int|
            0 <= k < here.len() ==> names_step((#[trigger] here[k]).key, path, step_text(step)),
{
    assert forall|k: int| 0 <= k < here.len() implies below((#[trigger] here[k]).key, path)
        && names_step(here[k].key, path, step_text(step)) by {
        lemma_below_parent(here[k].key, path, step);
        lemma_below_names_step(here[k].key, path, step);
    }
}

proof fn lemma_array_places(
    a: Seq<JsonView>,
    b: Seq<JsonView>,
    order_a: Seq<int>,
    order_b: Seq<int>,
    file: Seq<char>,
    path: Seq<Step>,
    policy: Policy,
    options: DiffOptions,
    n: nat,
)
    requires
        items_plain(a),
        items_plain(b),
    ensures
        all_below(array_findings(a, b, order_a, order_b, file, path, policy, options, n), path),
        distinct_keys(array_findings(a, b, order_a, order_b, file, path, policy, options, n)),
        forall|k: int|
            0 <= k < array_findings(a, b, order_a, order_b, file, path, policy, options, n).len()
                ==> names_index(
                (#[trigger] array_findings(
                    a,
                    b,
                    order_a,
                    order_b,
                    file,
                    path,
                    policy,
                    options,
                    n,
                )[k]).key,
                path,
                n,
            ),
    decreases a, n,
{
    if n > 0 {
        let i = (n - 1) as nat;
        let step = Step::Index(i);
        let child = path.push(step);
        let right = arranged_item(b, order_b, i as int);
        let rest = array_findings(a, b, order_a, order_b, file, path, policy, options, i);
        let all = array_findings(a, b, order_a, order_b, file, path, policy, options, n);
        lemma_array_places(a, b, order_a, order_b, file, path, policy, options, i);
        let here = if 0 <= i < order_a.len() && 0 <= order_a[i as int] < a.len() {
            findings(a[order_a[i as int]], right, file, child, policy, options)
        } else {
            shallow_findings(JsonView::Null, right, file, child, policy, options)
        };
        assert(all == rest + here);
        if 0 <= i < order_a.len() && 0 <= order_a[i as int] < a.len() {
            assert(well_formed(a[order_a[i as int]]));
            lemma_findings_places(a[order_a[i as int]], right, file, child, policy, options);
        } else {
            lemma_shallow(JsonView::Null, right, file, child, policy, options);
        }
        lemma_decimal_digits(i);
        lemma_child(here, path, step);
        assert forall|x: int, y: int| 0 <= x < rest.len() && 0 <= y < here.len() implies (
        #[trigger] rest[x]).key != (#[trigger] here[y]).key by {
            assert(names_index(rest[x].key, path, i));
            let other = choose|other: nat|
                other < i && names_step(rest[x].key, path, #[trigger] decimal(other));
            assert(names_step(here[y].key, path, decimal(i)));
            if rest[x].key == here[y].key {
                lemma_decimal_injective(other, i);
            }
        }
        lemma_concat(rest, here, path);
        assert forall|k: int| 0 <= k < all.len() implies names_index(
            (#[trigger] all[k]).key,
            path,
            n,
        ) by {
            if k < rest.len() {
                assert(all[k] == rest[k]);
                assert(names_index(rest[k].key, path, i));
                let other = choose|other: nat|
                    other < i && names_step(rest[k].key, path, #[trigger] decimal(other));
                assert(other < n && names_step(all[k].key, path, decimal(other)));
            } else {
                assert(all[k] == here[k - rest.len()]);
                assert(i < n && names_step(all[k].key, path, decimal(i)));
            }
        }
    }
}

proof fn lemma_left_places(
    a: Seq<(Seq<char>, JsonView)>,
    b: Seq<(Seq<char>, JsonView)>,
    file: Seq<char>,
    path: Seq<Step>,
    policy: Policy,
    options: DiffOptions,
    n: nat,
)
    requires
        members_plain(a),
        members_plain(b),
    ensures
        all_below(left_findings(a, b, file, path, policy, options, n), path),
        distinct_keys(left_findings(a, b, file, path, policy, options, n)),
        forall|k: int|
            0 <= k < left_findings(a, b, file, path, policy, options, n).len() ==> names_member(
                (#[trigger] left_findings(a, b, file, path, policy, options, n)[k]).key,
                path,
                a,
                n,
            ),
    decreases a, n,
{
    if n > 0 {
        let i = n - 1;
        let rest = left_findings(a, b, file, path, policy, options, i as nat);
        let all = left_findings(a, b, file, path, policy, options, n);
        lemma_left_places(a, b, file, path, policy, options, i as nat);
        if 0 <= i < a.len() {
            let step = Step::Key(a[i].0);
            let child = path.push(step);
            let right = lookup(b, a[i].0);
            let here = findings(a[i].1, right, file, child, policy, options);
            assert(all == rest + here);
            lemma_lookup_plain(b, a[i].0);
            assert(well_formed(a[i].1) && dotless(a[i].1) && dot_free(a[i].0));
            lemma_findings_places(a[i].1, right, file, child, policy, options);
            lemma_child(here, path, step);
            lemma_increasing_distinct(member_keys(a));
            assert forall|x: int, y: int| 0 <= x < rest.len() && 0 <= y < here.len() implies (
            #[trigger] rest[x]).key != (#[trigger] here[y]).key by {
                assert(names_member(rest[x].key, path, a, i as nat));
                let other = choose|other: int|
                    0 <= other < i && other < a.len() && names_step(
                        rest[x].key,
                        path,
                        (#[trigger] a[other]).0,
                    );
                assert(names_step(here[y].key, path, a[i].0));
                assert(member_keys(a)[other] != member_keys(a)[i]);
            }
            lemma_concat(rest, here, path);
            assert forall|k: int| 0 <= k < all.len() implies names_member(
                (#[trigger] all[k]).key,
                path,
                a,
                n,
            ) by {
                if k < rest.len() {
                    assert(all[k] == rest[k]);
                    assert(names_member(rest[k].key, path, a, i as nat));
                    let other = choose|other: int|
                        0 <= other < i && other < a.len() && names_step(
                            rest[k].key,
                            path,
                            (#[trigger] a[other]).0,
                        );
                    assert(0 <= other < n && names_step(all[k].key, path, a[other].0));
                } else {
                    assert(all[k] == here[k - rest.len()]);
                    assert(0 <= i < n && names_step(all[k].key, path, a[i].0));
                }
            }
        } else {
            assert(all == rest + Seq::<Finding>::empty());
            assert(all == rest);
            assert forall|k: int| 0 <= k < all.len() implies names_member(
                (#[trigger] all[k]).key,
                path,
                a,
                n,
            ) by {
                assert(names_member(rest[k].key, path, a, i as nat));
                let other = choose|other: int|
                    0 <= other < i && other < a.len() && names_step(
                        rest[k].key,
                        path,
                        (#[trigger] a[other]).0,
                    );
                assert(0 <= other < n && names_step(all[k].key, path, a[other].0));
            }
        }
    }
}

/// Whether the key names one of the first `n` members of `b` that `a`
/// lacks.
pub open spec fn names_new_member(
    key: Seq<char>,
    path: Seq<Step>,
    a: Seq<(Seq<char>, JsonView)>,
    b: Seq<(Seq<char>, JsonView)>,
    n: nat,
) -> bool {
    exists|j: int|
        0 <= j < n && j < b.len() && !has_key(a, (#[trigger] b[j]).0) && names_step(
            key,
            path,
            b[j].0,
        )
}

proof fn lemma_right_places(
    a: Seq<(Seq<char>, JsonView)>,
    b: Seq<(Seq<char>, JsonView)>,
    file: Seq<char>,
    path: Seq<Step>,
    policy: Policy,
    options: DiffOptions,
    n: nat,
)
    requires
        members_plain(b),
    ensures
        all_below(right_findings(a, b, file, path, policy, options, n), path),
        distinct_keys(right_findings(a, b, file, path, policy, options, n)),
        forall|k: int|
            0 <= k < right_findings(a, b, file, path, policy, options, n).len()
                ==> names_new_member(
                (#[trigger] right_findings(a, b, file, path, policy, options, n)[k]).key,
                path,
                a,
                b,
                n,
            ),
    decreases n,
{
    if n > 0 {
        let j = n - 1;
        let rest = right_findings(a, b, file, path, policy, options, j as nat);
        let all = right_findings(a, b, file, path, policy, options, n);
        lemma_right_places(a, b, file, path, policy, options, j as nat);
        if 0 <= j < b.len() && !has_key(a, b[j].0) {
            let step = Step::Key(b[j].0);
            let child = path.push(step);
            let here = shallow_findings(JsonView::Null, b[j].1, file, child, policy, options);
            assert(all == rest + here);
            lemma_shallow(JsonView::Null, b[j].1, file, child, policy, options);
            assert(dot_free(b[j].0));
            lemma_child(here, path, step);
            lemma_increasing_distinct(member_keys(b));
            assert forall|x: int, y: int| 0 <= x < rest.len() && 0 <= y < here.len() implies (
            #[trigger] rest[x]).key != (#[trigger] here[y]).key by {
                assert(names_new_member(rest[x].key, path, a, b, j as nat));
                let other = choose|other: int|
                    0 <= other < j && other < b.len() && !has_key(a, (#[trigger] b[other]).0)
                        && names_step(rest[x].key, path, b[other].0);
                assert(names_step(here[y].key, path, b[j].0));
                assert(member_keys(b)[other] != member_keys(b)[j]);
            }
            lemma_concat(rest, here, path);
            assert forall|k: int| 0 <= k < all.len() implies names_new_member(
                (#[trigger] all[k]).key,
                path,
                a,
                b,
                n,
            ) by {
                if k < rest.len() {
                    assert(all[k] == rest[k]);
                    assert(names_new_member(rest[k].key, path, a, b, j as nat));
                    let other = choose|other: int|
                        0 <= other < j && other < b.len() && !has_key(a, (#[trigger] b[other]).0)
                            && names_step(rest[k].key, path, b[other].0);
                    assert(0 <= other < n && !has_key(a, b[other].0) && names_step(
                        all[k].key,
                        path,
                        b[other].0,
                    ));
                } else {
                    assert(all[k] == here[k - rest.len()]);
                    assert(0 <= j < n && !has_key(a, b[j].0) && names_step(
                        all[k].key,
                        path,
                        b[j].0,
                    ));
                }
            }
        } else {
            assert(all == rest + Seq::<Finding>::empty());
            assert(all == rest);
            assert forall|k: int| 0 <= k < all.len() implies names_new_member(
                (#[trigger] all[k]).key,
                path,
                a,
                b,
                n,
            ) by {
                assert(names_new_member(rest[k].key, path, a, b, j as nat));
                let other = choose|other: int|
                    0 <= other < j && other < b.len() && !has_key(a, (#[trigger] b[other]).0)
                        && names_step(rest[k].key, path, b[other].0);
                assert(0 <= other < n && !has_key(a, b[other].0) && names_step(
                    all[k].key,
                    path,
                    b[other].0,
                ));
            }
        }
    }
}

/// Every finding of a comparison stands at or below the place where the
/// comparison began, and no two findings share a key: where no key of an
/// object holds a dot, every place that differs has a dotted key of its
/// own.
pub proof fn lemma_findings_places(
    lhs: JsonView,
    rhs: JsonView,
    file: Seq<char>,
    path: Seq<Step>,
    policy: Policy,
    options: DiffOptions,
)
    requires
        well_formed(lhs),
        well_formed(rhs),
        dotless(lhs),
        dotless(rhs),
    ensures
        all_below(findings(lhs, rhs, file, path, policy, options), path),
        distinct_keys(findings(lhs, rhs, file, path, policy, options)),
    decreases lhs, 0nat,
{
    if !suppressed(lhs, rhs, file, path, policy, options) {
        match (lhs, rhs) {
            (JsonView::Array(a), JsonView::Array(b)) => {
                let sorted = SPECIFICATIONS_SUFFIX@.is_suffix_of(key_of(path));
                lemma_array_places(
                    a,
                    b,
                    arrangement(a, sorted),
                    arrangement(b, sorted),
                    file,
                    path,
                    policy,
                    options,
                    longer(a.len(), b.len()),
                );
            },
            (JsonView::Object(a), JsonView::Object(b)) => {
                let left = left_findings(a, b, file, path, policy, options, a.len());
                let right = right_findings(a, b, file, path, policy, options, b.len());
                lemma_left_places(a, b, file, path, policy, options, a.len());
                lemma_right_places(a, b, file, path, policy, options, b.len());
                assert forall|x: int, y: int| 0 <= x < left.len() && 0 <= y < right.len() implies (
                #[trigger] left[x]).key != (#[trigger] right[y]).key by {
                    assert(names_member(left[x].key, path, a, a.len()));
                    let i = choose|i: int|
                        0 <= i < a.len() && i < a.len() && names_step(
                            left[x].key,
                            path,
                            (#[trigger] a[i]).0,
                        );
                    assert(names_new_member(right[y].key, path, a, b, b.len()));
                    let j = choose|j: int|
                        0 <= j < b.len() && j < b.len() && !has_key(a, (#[trigger] b[j]).0)
                            && names_step(right[y].key, path, b[j].0);
                    assert(keyed_at(a, a[i].0, i));
                }
                lemma_concat(left, right, path);
            },
            _ => {
                lemma_shallow(lhs, rhs, file, path, policy, options);
            },
        }
    }
}

/// The keys of the findings, in their order.
pub open spec fn found_keys(found: Seq<Finding>) -> Seq<Seq<char>> {
    Seq::new(found.len(), |i: int| found[i].key)
}

/// Where no two findings share a key and reporting into an empty map ends
/// without an error, the map holds exactly the keys of the findings, one
/// entry for each finding.
pub proof fn lemma_one_entry_for_each_finding(
    found: Seq<Finding>,
    cache: Map<Seq<char>, Seq<char>>,
    fast: bool,
    enabled: bool,
)
    requires
        distinct_keys(found),
        run(Progress { map: Map::empty(), cache, error: None }, found, fast, enabled).error
            is None,
    ensures
        ({
            let end = run(
                Progress { map: Map::empty(), cache, error: None },
                found,
                fast,
                enabled,
            );
            &&& end.map.dom() == found_keys(found).to_set()
            &&& end.map.dom().finite()
            &&& end.map.dom().len() == found.len()
        }),
{
    let start = Progress { map: Map::empty(), cache, error: None };
    let end = run(start, found, fast, enabled);
    let keys = found_keys(found);
    lemma_reported_keys_are_found_keys(start, found, fast, enabled);
    assert(keys.no_duplicates()) by {
        assert forall|i: int, j: int| 0 <= i < keys.len() && 0 <= j < keys.len() && i != j implies keys[i]
            != keys[j] by {
            if i < j {
                assert(found[i].key != found[j].key);
            } else {
                assert(found[j].key != found[i].key);
            }
        }
    }
    assert(end.map.dom() =~= keys.to_set()) by {
        assert forall|key: Seq<char>| end.map.dom().contains(key) <==> keys.to_set().contains(
            key,
        ) by {
            if end.map.contains_key(key) {
                assert(found_at(found, key));
                let i = choose|i: int| 0 <= i < found.len() && (#[trigger] found[i]).key == key;
                assert(keys[i] == key);
            }
            if keys.to_set().contains(key) {
                let i = choose|i: int| 0 <= i < keys.len() && keys[i] == key;
                assert(found[i].key == key);
                assert(found_at(found, key));
            }
        }
    }
    keys.unique_seq_to_set();
}

/// A comparison of two documents whose objects hold no key with a dot
/// stores, where it ends without an error, one entry for each place that
/// differs: the divergence map of the document has as many entries as the
/// comparison has findings, under the dotted keys of their places.
pub proof fn lemma_one_entry_for_each_place(
    lhs: JsonView,
    rhs: JsonView,
    file: Seq<char>,
    path: Seq<Step>,
    policy: Policy,
    options: DiffOptions,
    cache: Map<Seq<char>, Seq<char>>,
    enabled: bool,
)
    requires
        well_formed(lhs),
        well_formed(rhs),
        dotless(lhs),
        dotless(rhs),
        run(
            Progress { map: Map::empty(), cache, error: None },
            findings(lhs, rhs, file, path, policy, options),
            options.fast,
            enabled,
        ).error is None,
    ensures
        ({
            let found = findings(lhs, rhs, file, path, policy, options);
            let end = run(
                Progress { map: Map::empty(), cache, error: None },
                found,
                options.fast,
                enabled,
            );
            &&& end.map.dom() == found_keys(found).to_set()
            &&& end.map.dom().len() == found.len()
            &&& all_below(found, path)
        }),
{
    lemma_findings_places(lhs, rhs, file, path, policy, options);
    lemma_one_entry_for_each_finding(
        findings(lhs, rhs, file, path, policy, options),
        cache,
        options.fast,
        enabled,
    );
}

} // verus!
