//! The comparison of two JSON documents: a walk down both trees that finds,
//! place by place, what differs, and the reporting of what was found.
use vstd::prelude::*;
use vstd::string::StringExecFns;
use crate::dedup::{digest_pair, pair_digest, DedupCache, Seen};
use crate::divergence::DivergenceMap;
use crate::findings::{
    arranged_item, arrangement, array_findings, back_reference, differing_text, findings,
    left_findings, longer, normalized, other_findings, reported, right_findings, run,
    shallow_findings, sort_key, sort_keys, step, suppressed, text_findings, Delta, Finding,
    Progress, DOC_PREFIX, ID_SUFFIX, INDENTED_BREAK, MARKER, PLAIN_BREAK, SEE, SIDEBAR_KEY,
    SIDEBAR_MACRO_KEY, SORT_FIELD, SPECIFICATIONS_SUFFIX, SUMMARY_KEY,
};
use crate::html::{canonicalize, is_html};
use crate::json::{
    find_member, has_key, keyed_at, lemma_lookup, lookup, well_formed, Json, JsonView,
};
use crate::options::{DiffError, DiffOptions};
use crate::path::{extended, key_chars, key_of, steps, PathIndex, Step};
use crate::policy::{is_root_url, Policy};
use crate::render::{render_diff, rendered_diff};
use crate::sorting::{identity_indices, keys_view, order_view, sort_indices};
use crate::text::{
    chars_of, ends_with, lowercase, replace_all, same_text, starts_with, string_of,
    strip_id_tail,
};

verus! {

/// Whether the path is the key `url` at the root of the document.
fn at_root_url(path: &Vec<PathIndex>) -> (r: bool)
    ensures
        r == is_root_url(steps(path@)),
{
    if path.len() != 1 {
        return false;
    }
    match &path[0] {
        PathIndex::Object(key) => {
            let r = same_text(&chars_of(key.as_str()), &chars_of("url"));
            proof {
                assert(steps(path@)[0] == Step::Key(key@));
            }
            r
        },
        PathIndex::Array(index) => {
            proof {
                assert(steps(path@)[0] == Step::Index(*index as nat));
            }
            false
        },
    }
}

/// Whether nothing is reported at or below the place.
fn is_suppressed(
    lhs: &Json,
    rhs: &Json,
    file: &str,
    path: &Vec<PathIndex>,
    key: &Vec<char>,
    policy: &Policy,
    args: &DiffOptions,
) -> (r: bool)
    requires
        key@ == key_of(steps(path@)),
    ensures
        r == suppressed(lhs@, rhs@, file@, steps(path@), *policy, *args),
{
    if at_root_url(path) {
        return true;
    }
    let file_chars = chars_of(file);
    if policy.is_skipped_file(&file_chars) {
        return true;
    }
    if policy.is_allowed(&file_chars, key) {
        return true;
    }
    if lhs.same(rhs) {
        return true;
    }
    if policy.is_ignored_key(key) {
        return true;
    }
    same_text(key, &chars_of(SIDEBAR_KEY)) && !args.sidebars
}

/// Brings a text into the form in which it is compared under the key.
pub fn normalize(key: &Vec<char>, s: &str) -> (out: String)
    ensures
        out@ == normalized(key@, s@),
{
    if same_text(key, &chars_of(SIDEBAR_MACRO_KEY)) {
        lowercase(s)
    } else if same_text(key, &chars_of(SUMMARY_KEY)) {
        let out = replace_all(&chars_of(s), &chars_of(INDENTED_BREAK), &chars_of(PLAIN_BREAK));
        string_of(&out)
    } else if starts_with(key, &chars_of(DOC_PREFIX)) && ends_with(key, &chars_of(ID_SUFFIX)) {
        let out = strip_id_tail(&chars_of(s));
        string_of(&out)
    } else {
        String::from_str(s)
    }
}

/// What differs at one place, as it was found.
pub enum Difference {
    /// Two texts that differ, in the form in which they were compared.
    Text { lhs: String, rhs: String },
    /// Two values that were compared as compact JSON.
    Other { lhs: String, rhs: String },
    /// Markup that could not be brought into canonical form.
    Broken { error: DiffError },
}

/// One place where the two documents differ, as it was found.
pub struct Found {
    /// The dotted key of the place.
    pub key: String,
    pub difference: Difference,
}

impl View for Found {
    type V = Finding;

    open spec fn view(&self) -> Finding {
        Finding {
            key: self.key@,
            delta: match self.difference {
                Difference::Text { lhs, rhs } => Delta::Text { lhs: lhs@, rhs: rhs@ },
                Difference::Other { lhs, rhs } => Delta::Other { lhs: lhs@, rhs: rhs@ },
                Difference::Broken { error } => Delta::Broken { error },
            },
        }
    }
}

/// The findings of a list, as mathematical values.
pub open spec fn found_view(found: Seq<Found>) -> Seq<Finding> {
    Seq::new(found.len(), |i: int| found[i]@)
}

fn push_found(out: &mut Vec<Found>, found: Found)
    ensures
        found_view(final(out)@) == found_view(old(out)@).push(found@),
{
    out.push(found);
    proof {
        assert(found_view(out@) =~= found_view(old(out)@).push(found@));
    }
}

/// Notes two texts in their final form under the key, where they differ.
fn find_differing(key: &Vec<char>, lhs: String, rhs: String, out: &mut Vec<Found>)
    ensures
        found_view(final(out)@) == found_view(old(out)@) + differing_text(key@, lhs@, rhs@),
{
    if same_text(&chars_of(lhs.as_str()), &chars_of(rhs.as_str())) {
        proof {
            assert(found_view(out@) + Seq::<Finding>::empty() == found_view(out@));
        }
    } else {
        let found = Found { key: string_of(key), difference: Difference::Text { lhs, rhs } };
        proof {
            assert(found_view(out@).push(found@) == found_view(out@) + seq![found@]);
        }
        push_found(out, found);
    }
}

fn find_broken(key: &Vec<char>, error: DiffError, out: &mut Vec<Found>)
    ensures
        found_view(final(out)@) == found_view(old(out)@) + seq![
            Finding { key: key@, delta: Delta::Broken { error } },
        ],
{
    let found = Found { key: string_of(key), difference: Difference::Broken { error } };
    proof {
        assert(found_view(out@).push(found@) == found_view(out@) + seq![found@]);
    }
    push_found(out, found);
}

/// Compares two texts under the key and notes what is found: the texts are
/// brought into the form that the key asks for and, where both are markup,
/// into canonical form.
pub fn find_text(key: &Vec<char>, lhs: &str, rhs: &str, args: &DiffOptions, out: &mut Vec<Found>)
    ensures
        found_view(final(out)@) == found_view(old(out)@) + text_findings(
            key@,
            lhs@,
            rhs@,
            *args,
        ),
{
    let l = normalize(key, lhs);
    let r = normalize(key, rhs);
    if is_html(l.as_str()) && is_html(r.as_str()) {
        match canonicalize(l.as_str(), args) {
            Err(e) => find_broken(key, e, out),
            Ok(l2) => match canonicalize(r.as_str(), args) {
                Err(e) => find_broken(key, e, out),
                Ok(r2) => find_differing(key, l2, r2, out),
            },
        }
    } else {
        find_differing(key, l, r, out)
    }
}

/// Compares two values as compact JSON under the key and notes what is
/// found.
pub fn find_other(key: &Vec<char>, lhs: &Json, rhs: &Json, out: &mut Vec<Found>)
    ensures
        found_view(final(out)@) == found_view(old(out)@) + other_findings(key@, lhs@, rhs@),
{
    let l = lhs.to_text();
    let r = rhs.to_text();
    if same_text(&l, &r) {
        proof {
            assert(found_view(out@) + Seq::<Finding>::empty() == found_view(out@));
        }
    } else {
        let found = Found {
            key: string_of(key),
            difference: Difference::Other { lhs: string_of(&l), rhs: string_of(&r) },
        };
        proof {
            assert(found_view(out@).push(found@) == found_view(out@) + seq![found@]);
        }
        push_found(out, found);
    }
}

/// Compares two values at a place without going below it, and notes what
/// is found there: two texts are compared as texts, everything else as
/// compact JSON.
pub fn find_shallow(
    lhs: &Json,
    rhs: &Json,
    file: &str,
    path: &Vec<PathIndex>,
    args: &DiffOptions,
    policy: &Policy,
    out: &mut Vec<Found>,
)
    ensures
        found_view(final(out)@) == found_view(old(out)@) + shallow_findings(
            lhs@,
            rhs@,
            file@,
            steps(path@),
            *policy,
            *args,
        ),
{
    let key = key_chars(path);
    if is_suppressed(lhs, rhs, file, path, &key, policy, args) {
        proof {
            assert(found_view(out@) + Seq::<Finding>::empty() == found_view(out@));
        }
        return ;
    }
    match (lhs, rhs) {
        (Json::Text(l), Json::Text(r)) => find_text(&key, l.as_str(), r.as_str(), args, out),
        _ => find_other(&key, lhs, rhs, out),
    }
}

/// The text by which an element of a sorted array is ordered.
fn sort_key_of(item: &Json) -> (out: Vec<char>)
    requires
        item.wf(),
    ensures
        out@ == sort_key(item@),
{
    let null = Json::Null;
    match item {
        Json::Object(members) => {
            let name = chars_of(SORT_FIELD);
            match find_member(members, &name) {
                Some(j) => {
                    proof {
                        let view = item@->Object_0;
                        assert(view[j as int] == (members@[j as int].key@, members@[j as int].value@));
                        lemma_lookup(view, j as int);
                    }
                    members[j].value.to_text()
                },
                None => {
                    proof {
                        let view = item@->Object_0;
                        if has_key(view, name@) {
                            let k = choose|k: int| keyed_at(view, name@, k);
                            assert(view[k].0 == members@[k].key@);
                        }
                    }
                    null.to_text()
                },
            }
        },
        _ => null.to_text(),
    }
}

/// The order in which the elements of an array are taken.
fn arrange(whole: &Json, items: &Vec<Json>, sorted: bool) -> (order: Vec<usize>)
    requires
        *whole == Json::Array(*items),
        whole.wf(),
    ensures
        order_view(order@) == arrangement(whole@->Array_0, sorted),
        order@.len() == items@.len(),
        forall|i: int| 0 <= i < order@.len() ==> #[trigger] order@[i] < items@.len(),
{
    if !sorted {
        return identity_indices(items.len());
    }
    let ghost view = whole@->Array_0;
    let mut keys: Vec<Vec<char>> = Vec::new();
    let mut i: usize = 0;
    while i < items.len()
        invariant
            *whole == Json::Array(*items),
            whole.wf(),
            view == whole@->Array_0,
            i <= items.len(),
            keys@.len() == i,
            forall|j: int| 0 <= j < i ==> (#[trigger] keys@[j])@ == sort_key(view[j]),
        decreases items.len() - i,
    {
        proof {
            assert(view[i as int] == items@[i as int]@);
            assert(well_formed(view[i as int]));
        }
        keys.push(sort_key_of(&items[i]));
        i = i + 1;
    }
    proof {
        assert(keys_view(keys@) =~= sort_keys(view));
    }
    sort_indices(&keys)
}

/// Walks `lhs` and `rhs`, which stand at `path` in the document `file`, and
/// notes behind what `out` holds every place at or below them where they
/// differ, in the order of the walk.
pub fn find_all(
    lhs: &Json,
    rhs: &Json,
    file: &str,
    path: &Vec<PathIndex>,
    args: &DiffOptions,
    policy: &Policy,
    out: &mut Vec<Found>,
)
    requires
        lhs.wf(),
        rhs.wf(),
    ensures
        found_view(final(out)@) == found_view(old(out)@) + findings(
            lhs@,
            rhs@,
            file@,
            steps(path@),
            *policy,
            *args,
        ),
    decreases lhs,
{
    let ghost base = found_view(out@);
    let ghost here_path = steps(path@);
    match (lhs, rhs) {
        (Json::Array(a), Json::Array(b)) => {
            let key = key_chars(path);
            if is_suppressed(lhs, rhs, file, path, &key, policy, args) {
                proof {
                    assert(base + Seq::<Finding>::empty() == base);
                }
                return ;
            }
            let sorted = ends_with(&key, &chars_of(SPECIFICATIONS_SUFFIX));
            let order_a = arrange(lhs, a, sorted);
            let order_b = arrange(rhs, b, sorted);
            let n = if a.len() >= b.len() {
                a.len()
            } else {
                b.len()
            };
            let ghost av = lhs@->Array_0;
            let ghost bv = rhs@->Array_0;
            let ghost oa = order_view(order_a@);
            let ghost ob = order_view(order_b@);
            let null = Json::Null;
            let mut i: usize = 0;
            proof {
                assert(base + Seq::<Finding>::empty() == base);
            }
            while i < n
                invariant
                    *lhs == Json::Array(*a),
                    *rhs == Json::Array(*b),
                    lhs.wf(),
                    rhs.wf(),
                    null == Json::Null,
                    av == lhs@->Array_0,
                    bv == rhs@->Array_0,
                    oa == order_view(order_a@),
                    ob == order_view(order_b@),
                    order_a@.len() == a@.len(),
                    order_b@.len() == b@.len(),
                    forall|k: int| 0 <= k < order_a@.len() ==> #[trigger] order_a@[k] < a@.len(),
                    forall|k: int| 0 <= k < order_b@.len() ==> #[trigger] order_b@[k] < b@.len(),
                    n == longer(a@.len(), b@.len()),
                    i <= n,
                    here_path == steps(path@),
                    found_view(out@) == base + array_findings(
                        av,
                        bv,
                        oa,
                        ob,
                        file@,
                        here_path,
                        *policy,
                        *args,
                        i as nat,
                    ),
                decreases n - i,
            {
                let ghost prefix = array_findings(
                    av,
                    bv,
                    oa,
                    ob,
                    file@,
                    here_path,
                    *policy,
                    *args,
                    i as nat,
                );
                let ghost child_path = here_path.push(Step::Index(i as nat));
                let ghost right_view = arranged_item(bv, ob, i as int);
                let ghost here = if i < a@.len() {
                    findings(av[oa[i as int]], right_view, file@, child_path, *policy, *args)
                } else {
                    shallow_findings(
                        JsonView::Null,
                        right_view,
                        file@,
                        child_path,
                        *policy,
                        *args,
                    )
                };
                proof {
                    if i < a@.len() {
                        assert(oa[i as int] == order_a@[i as int]);
                    }
                    assert(array_findings(
                        av,
                        bv,
                        oa,
                        ob,
                        file@,
                        here_path,
                        *policy,
                        *args,
                        (i + 1) as nat,
                    ) == prefix + here);
                    assert((base + prefix) + here == base + (prefix + here));
                }
                let child = extended(path, PathIndex::Array(i));
                let right: &Json = if i < b.len() {
                    proof {
                        assert(ob[i as int] == order_b@[i as int]);
                        assert(bv[ob[i as int]] == b@[order_b@[i as int] as int]@);
                        assert(well_formed(bv[ob[i as int]]));
                    }
                    &b[order_b[i]]
                } else {
                    &null
                };
                if i < a.len() {
                    proof {
                        assert(av[oa[i as int]] == a@[order_a@[i as int] as int]@);
                        assert(well_formed(av[oa[i as int]]));
                    }
                    find_all(&a[order_a[i]], right, file, &child, args, policy, out);
                } else {
                    find_shallow(&null, right, file, &child, args, policy, out);
                }
                i = i + 1;
            }
        },
        (Json::Object(a), Json::Object(b)) => {
            let key = key_chars(path);
            if is_suppressed(lhs, rhs, file, path, &key, policy, args) {
                proof {
                    assert(base + Seq::<Finding>::empty() == base);
                }
                return ;
            }
            let ghost av = lhs@->Object_0;
            let ghost bv = rhs@->Object_0;
            let null = Json::Null;
            let mut i: usize = 0;
            proof {
                assert(base + Seq::<Finding>::empty() == base);
            }
            while i < a.len()
                invariant
                    *lhs == Json::Object(*a),
                    *rhs == Json::Object(*b),
                    lhs.wf(),
                    rhs.wf(),
                    null == Json::Null,
                    av == lhs@->Object_0,
                    bv == rhs@->Object_0,
                    i <= a.len(),
                    here_path == steps(path@),
                    found_view(out@) == base + left_findings(
                        av,
                        bv,
                        file@,
                        here_path,
                        *policy,
                        *args,
                        i as nat,
                    ),
                decreases a.len() - i,
            {
                let ghost prefix = left_findings(
                    av,
                    bv,
                    file@,
                    here_path,
                    *policy,
                    *args,
                    i as nat,
                );
                let ghost here = findings(
                    av[i as int].1,
                    lookup(bv, av[i as int].0),
                    file@,
                    here_path.push(Step::Key(av[i as int].0)),
                    *policy,
                    *args,
                );
                proof {
                    assert(av[i as int] == (a@[i as int].key@, a@[i as int].value@));
                    assert(left_findings(
                        av,
                        bv,
                        file@,
                        here_path,
                        *policy,
                        *args,
                        (i + 1) as nat,
                    ) == prefix + here);
                    assert((base + prefix) + here == base + (prefix + here));
                }
                let name = chars_of(a[i].key.as_str());
                let child = extended(path, PathIndex::Object(a[i].key.clone()));
                let right: &Json = match find_member(b, &name) {
                    Some(j) => {
                        proof {
                            assert(bv[j as int] == (b@[j as int].key@, b@[j as int].value@));
                            lemma_lookup(bv, j as int);
                            assert(well_formed(bv[j as int].1));
                        }
                        &b[j].value
                    },
                    None => {
                        proof {
                            if has_key(bv, name@) {
                                let k = choose|k: int| keyed_at(bv, name@, k);
                                assert(bv[k].0 == b@[k].key@);
                            }
                        }
                        &null
                    },
                };
                proof {
                    assert(well_formed(av[i as int].1));
                }
                find_all(&a[i].value, right, file, &child, args, policy, out);
                i = i + 1;
            }
            let ghost left = left_findings(av, bv, file@, here_path, *policy, *args, av.len());
            let mut j: usize = 0;
            proof {
                assert(left + Seq::<Finding>::empty() == left);
            }
            while j < b.len()
                invariant
                    *lhs == Json::Object(*a),
                    *rhs == Json::Object(*b),
                    null == Json::Null,
                    av == lhs@->Object_0,
                    bv == rhs@->Object_0,
                    j <= b.len(),
                    here_path == steps(path@),
                    found_view(out@) == base + (left + right_findings(
                        av,
                        bv,
                        file@,
                        here_path,
                        *policy,
                        *args,
                        j as nat,
                    )),
                decreases b.len() - j,
            {
                let ghost prefix = right_findings(
                    av,
                    bv,
                    file@,
                    here_path,
                    *policy,
                    *args,
                    j as nat,
                );
                let ghost here = if !has_key(av, bv[j as int].0) {
                    shallow_findings(
                        JsonView::Null,
                        bv[j as int].1,
                        file@,
                        here_path.push(Step::Key(bv[j as int].0)),
                        *policy,
                        *args,
                    )
                } else {
                    Seq::<Finding>::empty()
                };
                proof {
                    assert(bv[j as int] == (b@[j as int].key@, b@[j as int].value@));
                    assert(right_findings(
                        av,
                        bv,
                        file@,
                        here_path,
                        *policy,
                        *args,
                        (j + 1) as nat,
                    ) == prefix + here);
                    assert((base + (left + prefix)) + here == base + (left + (prefix + here)));
                }
                let name = chars_of(b[j].key.as_str());
                match find_member(a, &name) {
                    Some(k) => {
                        proof {
                            assert(av[k as int] == (a@[k as int].key@, a@[k as int].value@));
                            assert(keyed_at(av, name@, k as int));
                            assert(found_view(out@) + here == found_view(out@));
                        }
                    },
                    None => {
                        proof {
                            if has_key(av, name@) {
                                let k = choose|k: int| keyed_at(av, name@, k);
                                assert(av[k].0 == a@[k].key@);
                            }
                        }
                        let child = extended(path, PathIndex::Object(b[j].key.clone()));
                        find_shallow(&null, &b[j].value, file, &child, args, policy, out);
                    },
                }
                j = j + 1;
            }
        },
        _ => find_shallow(lhs, rhs, file, path, args, policy, out),
    }
}

/// Everything that is found when `lhs` and `rhs`, which stand at `path` in
/// the document `file`, are compared, in the order of the walk. Nothing is
/// rendered and no cache is asked.
pub fn collect_findings(
    lhs: &Json,
    rhs: &Json,
    file: &str,
    path: &Vec<PathIndex>,
    args: &DiffOptions,
    policy: &Policy,
) -> (out: Vec<Found>)
    requires
        lhs.wf(),
        rhs.wf(),
    ensures
        found_view(out@) == findings(lhs@, rhs@, file@, steps(path@), *policy, *args),
{
    let mut out: Vec<Found> = Vec::new();
    proof {
        assert(found_view(out@) =~= Seq::<Finding>::empty());
    }
    find_all(lhs, rhs, file, path, args, policy, &mut out);
    proof {
        let found = findings(lhs@, rhs@, file@, steps(path@), *policy, *args);
        assert(Seq::<Finding>::empty() + found == found);
    }
    out
}

/// The digest that the cache is asked about before a finding is stored:
/// that of the two texts of a text finding; none for any other finding.
pub open spec fn digest_needed(f: Finding) -> Option<Seq<char>> {
    match f.delta {
        Delta::Text { lhs, rhs } => Some(pair_digest(lhs, rhs)),
        _ => None,
    }
}

/// The digest that the cache is asked about before the finding is stored.
pub fn pending_digest(found: &Found) -> (out: Option<String>)
    ensures
        match out {
            Some(digest) => digest_needed(found@) == Some(digest@),
            None => digest_needed(found@) is None,
        },
{
    match &found.difference {
        Difference::Text { lhs, rhs } => Some(digest_pair(lhs.as_str(), rhs.as_str())),
        _ => None,
    }
}

/// The marker of the first occurrence, where the cache said that there
/// was one.
pub open spec fn known_marker(seen: Option<Seen>) -> Option<Seq<char>> {
    match seen {
        Some(Seen::Already(marker)) => Some(marker@),
        _ => None,
    }
}

/// What storing a finding makes of a divergence map, given the marker of an
/// earlier occurrence where the cache knew one: markup that is broken is
/// the error; values compared as JSON are rendered word by word; texts are
/// stored as a reference to the marker, or rendered in full where there is
/// none.
pub open spec fn settled(
    map: Map<Seq<char>, Seq<char>>,
    f: Finding,
    known: Option<Seq<char>>,
    fast: bool,
) -> Result<Map<Seq<char>, Seq<char>>, DiffError> {
    match f.delta {
        Delta::Broken { error } => Err(error),
        Delta::Other { lhs, rhs } => match rendered_diff(lhs, rhs, false) {
            Ok(text) => Ok(map.insert(f.key, text)),
            Err(e) => Err(e),
        },
        Delta::Text { lhs, rhs } => match known {
            Some(marker) => Ok(map.insert(f.key, back_reference(marker))),
            None => match rendered_diff(lhs, rhs, fast) {
                Ok(text) => Ok(map.insert(f.key, text)),
                Err(e) => Err(e),
            },
        },
    }
}

/// The marker that a reference names, where there is one.
pub open spec fn marker_view(known: Option<&str>) -> Option<Seq<char>> {
    match known {
        Some(marker) => Some(marker@),
        None => None,
    }
}

fn marker_of(seen: &Option<Seen>) -> (known: Option<&str>)
    ensures
        marker_view(known) == known_marker(*seen),
{
    match seen {
        Some(Seen::Already(marker)) => Some(marker.as_str()),
        _ => None,
    }
}

fn store_known(found: &Found, known: Option<&str>, diff: &mut DivergenceMap, fast: bool) -> (out:
    Result<(), DiffError>)
    requires
        old(diff).wf(),
    ensures
        final(diff).wf(),
        match out {
            Ok(_) => settled(old(diff)@, found@, marker_view(known), fast) == Ok::<
                Map<Seq<char>, Seq<char>>,
                DiffError,
            >(final(diff)@),
            Err(e) => final(diff)@ == old(diff)@ && settled(
                old(diff)@,
                found@,
                marker_view(known),
                fast,
            ) == Err::<Map<Seq<char>, Seq<char>>, DiffError>(e),
        },
{
    match &found.difference {
        Difference::Broken { error } => Err(*error),
        Difference::Other { lhs, rhs } => {
            match render_diff(lhs.as_str(), rhs.as_str(), false) {
                Ok(text) => {
                    diff.insert(found.key.clone(), text);
                    Ok(())
                },
                Err(e) => Err(e),
            }
        },
        Difference::Text { lhs, rhs } => {
            match known {
                Some(marker) => {
                    let mut text = String::from_str(SEE);
                    text.append(marker);
                    diff.insert(found.key.clone(), text);
                    Ok(())
                },
                None => {
                    match render_diff(lhs.as_str(), rhs.as_str(), fast) {
                        Ok(text) => {
                            diff.insert(found.key.clone(), text);
                            Ok(())
                        },
                        Err(e) => Err(e),
                    }
                },
            }
        },
    }
}

/// Stores a finding in the divergence map, given what the cache said of
/// its digest: a reference where the difference was seen before, the
/// rendering otherwise. On an error the map stays as it is.
pub fn store_found(found: &Found, seen: Option<Seen>, diff: &mut DivergenceMap, fast: bool) -> (out:
    Result<(), DiffError>)
    requires
        old(diff).wf(),
    ensures
        final(diff).wf(),
        match out {
            Ok(_) => settled(old(diff)@, found@, known_marker(seen), fast) == Ok::<
                Map<Seq<char>, Seq<char>>,
                DiffError,
            >(final(diff)@),
            Err(e) => final(diff)@ == old(diff)@ && settled(
                old(diff)@,
                found@,
                known_marker(seen),
                fast,
            ) == Err::<Map<Seq<char>, Seq<char>>, DiffError>(e),
        },
{
    store_known(found, marker_of(&seen), diff, fast)
}

/// Reports the findings one after the other into `diff`: for each text
/// finding the cache is asked and told of its digest, then the finding is
/// stored. The first error ends the reporting; what was reported before it
/// stays.
pub fn report_findings(
    found: &Vec<Found>,
    diff: &mut DivergenceMap,
    args: &DiffOptions,
    cache: &mut DedupCache,
) -> (out: Result<(), DiffError>)
    requires
        old(diff).wf(),
    ensures
        final(diff).wf(),
        final(cache).enabled() == old(cache).enabled(),
        reported(
            old(diff)@,
            old(cache)@.entries,
            found_view(found@),
            args.fast,
            old(cache).enabled(),
            final(diff)@,
            final(cache)@.entries,
            out,
        ),
{
    let ghost all = found_view(found@);
    let ghost fast = args.fast;
    let ghost enabled = cache.enabled();
    let ghost start = Progress { map: diff@, cache: cache@.entries, error: None };
    let mut k: usize = 0;
    proof {
        assert(all.take(0) == Seq::<Finding>::empty());
    }
    while k < found.len()
        invariant
            all == found_view(found@),
            fast == args.fast,
            enabled == old(cache).enabled(),
            start == (Progress { map: old(diff)@, cache: old(cache)@.entries, error: None }),
            k <= found.len(),
            diff.wf(),
            cache.enabled() == enabled,
            run(start, all.take(k as int), fast, enabled) == (Progress {
                map: diff@,
                cache: cache@.entries,
                error: None,
            }),
        decreases found.len() - k,
    {
        let ghost before = Progress { map: diff@, cache: cache@.entries, error: None };
        let ghost finding = all[k as int];
        proof {
            assert(finding == found@[k as int]@);
            assert(all.take(k + 1).drop_last() == all.take(k as int));
            assert(all.take(k + 1).last() == finding);
        }
        let seen = match pending_digest(&found[k]) {
            Some(digest) => Some(cache.record(digest.as_str(), MARKER)),
            None => None,
        };
        match store_found(&found[k], seen, diff, args.fast) {
            Ok(_) => {},
            Err(e) => {
                proof {
                    let failed = step(before, finding, fast, enabled);
                    assert(failed.error == Some(e));
                    assert(failed.map == diff@ && failed.cache == cache@.entries);
                    assert(all == all.take(k + 1) + all.skip(k + 1));
                    crate::findings::lemma_run_concat(
                        start,
                        all.take(k + 1),
                        all.skip(k + 1),
                        fast,
                        enabled,
                    );
                    crate::findings::lemma_run_after_error(
                        failed,
                        all.skip(k + 1),
                        fast,
                        enabled,
                    );
                }
                return Err(e);
            },
        }
        k = k + 1;
    }
    proof {
        assert(all.take(all.len() as int) == all);
    }
    Ok(())
}

/// What the cache knows of a finding before it is told of it: the marker
/// stored for the digest of a text finding; nothing for a digest that it
/// does not know, and for any other finding.
pub open spec fn known_before(cache: Map<Seq<char>, Seq<char>>, f: Finding) -> Option<Seq<char>> {
    match digest_needed(f) {
        Some(digest) => if cache.contains_key(digest) {
            Some(cache[digest])
        } else {
            None
        },
        None => None,
    }
}

/// The cache after it was told of a finding: an enabled cache remembers
/// the digest of a text finding that it did not know, under the marker of
/// a first occurrence; everything else leaves the cache as it is.
pub open spec fn told(cache: Map<Seq<char>, Seq<char>>, f: Finding, enabled: bool) -> Map<
    Seq<char>,
    Seq<char>,
> {
    match digest_needed(f) {
        Some(digest) => if !cache.contains_key(digest) && enabled {
            cache.insert(digest, MARKER@)
        } else {
            cache
        },
        None => cache,
    }
}

/// The cache after it was told of the findings, one after the other.
pub open spec fn told_all(cache: Map<Seq<char>, Seq<char>>, found: Seq<Finding>, enabled: bool) -> Map<
    Seq<char>,
    Seq<char>,
>
    decreases found.len(),
{
    if found.len() == 0 {
        cache
    } else {
        told(told_all(cache, found.drop_last(), enabled), found.last(), enabled)
    }
}

/// What the cache knew of each finding when it was told of them one after
/// the other.
pub open spec fn answers(cache: Map<Seq<char>, Seq<char>>, found: Seq<Finding>, enabled: bool) -> Seq<
    Option<Seq<char>>,
> {
    Seq::new(
        found.len(),
        |i: int| known_before(told_all(cache, found.take(i), enabled), found[i]),
    )
}

/// The markers of the first occurrences, where the cache said that there
/// was one.
pub open spec fn markers(seen: Seq<Option<Seen>>) -> Seq<Option<Seq<char>>> {
    Seq::new(seen.len(), |i: int| known_marker(seen[i]))
}

/// Asks and tells the cache of the findings, one after the other, and
/// gives what it said of each. Nothing is rendered here, so that workers
/// who share a cache need it for this call alone.
pub fn record_findings(found: &Vec<Found>, cache: &mut DedupCache) -> (seen: Vec<Option<Seen>>)
    ensures
        final(cache).enabled() == old(cache).enabled(),
        seen@.len() == found@.len(),
        markers(seen@) == answers(old(cache)@.entries, found_view(found@), old(cache).enabled()),
        final(cache)@.entries == told_all(
            old(cache)@.entries,
            found_view(found@),
            old(cache).enabled(),
        ),
{
    let ghost all = found_view(found@);
    let ghost start = cache@.entries;
    let ghost enabled = cache.enabled();
    let mut seen: Vec<Option<Seen>> = Vec::new();
    let mut k: usize = 0;
    proof {
        assert(all.take(0) == Seq::<Finding>::empty());
    }
    while k < found.len()
        invariant
            all == found_view(found@),
            start == old(cache)@.entries,
            enabled == old(cache).enabled(),
            cache.enabled() == enabled,
            k <= found.len(),
            seen@.len() == k,
            cache@.entries == told_all(start, all.take(k as int), enabled),
            forall|i: int|
                0 <= i < k ==> known_marker(#[trigger] seen@[i]) == known_before(
                    told_all(start, all.take(i), enabled),
                    all[i],
                ),
        decreases found.len() - k,
    {
        proof {
            assert(all[k as int] == found@[k as int]@);
            assert(all.take(k + 1).drop_last() == all.take(k as int));
            assert(all.take(k + 1).last() == all[k as int]);
        }
        let answer = match pending_digest(&found[k]) {
            Some(digest) => Some(cache.record(digest.as_str(), MARKER)),
            None => None,
        };
        seen.push(answer);
        k = k + 1;
    }
    proof {
        assert(all.take(all.len() as int) == all);
        assert(markers(seen@) =~= answers(start, all, enabled));
    }
    seen
}

/// A divergence map after findings were stored in it, with the error that
/// ended the storing, if one did.
pub struct Stored {
    pub map: Map<Seq<char>, Seq<char>>,
    pub error: Option<DiffError>,
}

/// What storing the findings one after the other makes of a divergence
/// map, given for each the marker of an earlier occurrence where the cache
/// knew one. The first error ends the storing; what was stored before it
/// stays.
pub open spec fn settled_all(
    map: Map<Seq<char>, Seq<char>>,
    found: Seq<Finding>,
    known: Seq<Option<Seq<char>>>,
    fast: bool,
) -> Stored
    decreases found.len(),
{
    if found.len() == 0 {
        Stored { map, error: None }
    } else {
        let before = settled_all(map, found.drop_last(), known, fast);
        if before.error is Some {
            before
        } else {
            match settled(before.map, found.last(), known[found.len() - 1], fast) {
                Ok(map) => Stored { map, error: None },
                Err(error) => Stored { map: before.map, error: Some(error) },
            }
        }
    }
}

/// Stores the findings in the divergence map, one after the other, given
/// what the cache said of each: `seen` is what [`record_findings`] gave for
/// these findings. The first error ends the storing; what was stored
/// before it stays.
pub fn store_findings(
    found: &Vec<Found>,
    seen: &Vec<Option<Seen>>,
    diff: &mut DivergenceMap,
    fast: bool,
) -> (out: Result<(), DiffError>)
    requires
        old(diff).wf(),
        seen@.len() == found@.len(),
    ensures
        final(diff).wf(),
        final(diff)@ == settled_all(old(diff)@, found_view(found@), markers(seen@), fast).map,
        match out {
            Ok(_) => settled_all(old(diff)@, found_view(found@), markers(seen@), fast).error
                is None,
            Err(e) => settled_all(old(diff)@, found_view(found@), markers(seen@), fast).error
                == Some(e),
        },
{
    let ghost all = found_view(found@);
    let ghost known = markers(seen@);
    let ghost start = diff@;
    let mut k: usize = 0;
    proof {
        assert(all.take(0) == Seq::<Finding>::empty());
    }
    while k < found.len()
        invariant
            all == found_view(found@),
            known == markers(seen@),
            start == old(diff)@,
            seen@.len() == found@.len(),
            k <= found.len(),
            diff.wf(),
            settled_all(start, all.take(k as int), known, fast) == (Stored {
                map: diff@,
                error: None,
            }),
        decreases found.len() - k,
    {
        proof {
            assert(all[k as int] == found@[k as int]@);
            assert(all.take(k + 1).drop_last() == all.take(k as int));
            assert(all.take(k + 1).last() == all[k as int]);
            assert(known[k as int] == known_marker(seen@[k as int]));
        }
        match store_known(&found[k], marker_of(&seen[k]), diff, fast) {
            Ok(_) => {},
            Err(e) => {
                proof {
                    assert(settled_all(start, all.take(k + 1), known, fast) == (Stored {
                        map: diff@,
                        error: Some(e),
                    }));
                    lemma_settled_after_error(start, all, known, fast, k + 1);
                }
                return Err(e);
            },
        }
        k = k + 1;
    }
    proof {
        assert(all.take(all.len() as int) == all);
    }
    Ok(())
}

/// After an error nothing is stored any more.
proof fn lemma_settled_after_error(
    map: Map<Seq<char>, Seq<char>>,
    found: Seq<Finding>,
    known: Seq<Option<Seq<char>>>,
    fast: bool,
    k: int,
)
    requires
        0 <= k <= found.len(),
        settled_all(map, found.take(k), known, fast).error is Some,
    ensures
        settled_all(map, found, known, fast) == settled_all(map, found.take(k), known, fast),
    decreases found.len() - k,
{
    if k < found.len() {
        assert(found.take(k + 1).drop_last() == found.take(k));
        lemma_settled_after_error(map, found, known, fast, k + 1);
    } else {
        assert(found.take(k) == found);
    }
}

/// Compares two values at a place without going below it, and reports what
/// is found there: two texts are compared as texts, everything else as
/// compact JSON.
pub fn shallow_diff(
    lhs: &Json,
    rhs: &Json,
    file: &str,
    path: &Vec<PathIndex>,
    diff: &mut DivergenceMap,
    args: &DiffOptions,
    policy: &Policy,
    cache: &mut DedupCache,
) -> (out: Result<(), DiffError>)
    requires
        old(diff).wf(),
    ensures
        final(diff).wf(),
        final(cache).enabled() == old(cache).enabled(),
        reported(
            old(diff)@,
            old(cache)@.entries,
            shallow_findings(lhs@, rhs@, file@, steps(path@), *policy, *args),
            args.fast,
            old(cache).enabled(),
            final(diff)@,
            final(cache)@.entries,
            out,
        ),
{
    let mut found: Vec<Found> = Vec::new();
    proof {
        assert(found_view(found@) =~= Seq::<Finding>::empty());
    }
    find_shallow(lhs, rhs, file, path, args, policy, &mut found);
    proof {
        let all = shallow_findings(lhs@, rhs@, file@, steps(path@), *policy, *args);
        assert(Seq::<Finding>::empty() + all == all);
    }
    report_findings(&found, diff, args, cache)
}

/// Compares `lhs` and `rhs`, which stand at `path` in the document `file`,
/// and reports every place at or below them where they differ: into
/// `diff`, under the dotted key of the place.
///
/// Two arrays are compared position by position, two objects member by
/// member, two texts as texts and anything else as compact JSON. Nothing is
/// reported where the policy or the options say so, nor where the two
/// values are equal. A text whose difference the cache knows is reported as
/// a reference to its first rendering. The first place that cannot be
/// brought into canonical form or rendered ends the comparison with its
/// error; what was reported before it stays.
pub fn full_diff(
    lhs: &Json,
    rhs: &Json,
    file: &str,
    path: &Vec<PathIndex>,
    diff: &mut DivergenceMap,
    args: &DiffOptions,
    policy: &Policy,
    cache: &mut DedupCache,
) -> (out: Result<(), DiffError>)
    requires
        lhs.wf(),
        rhs.wf(),
        old(diff).wf(),
    ensures
        final(diff).wf(),
        final(cache).enabled() == old(cache).enabled(),
        reported(
            old(diff)@,
            old(cache)@.entries,
            findings(lhs@, rhs@, file@, steps(path@), *policy, *args),
            args.fast,
            old(cache).enabled(),
            final(diff)@,
            final(cache)@.entries,
            out,
        ),
{
    let found = collect_findings(lhs, rhs, file, path, args, policy);
    report_findings(&found, diff, args, cache)
}

} // verus!
