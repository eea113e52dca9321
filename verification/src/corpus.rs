//! Two generations of a corpus of documents, compared document by
//! document.
use vstd::prelude::*;
use crate::dedup::DedupCache;
use crate::differ::full_diff;
use crate::divergence::DivergenceMap;
use crate::findings::{findings, run, Progress};
use crate::html::{gives, squeeze, squeezed};
use crate::json::{well_formed, Json, JsonView};
use crate::options::{DiffError, DiffOptions};
use crate::order::{increasing, rank, text_lt, Rank};
use crate::path::{steps, PathIndex, Step};
use crate::policy::Policy;
use crate::text::{chars_of, same_text};

verus! {

/// One document of a corpus: its path below the root, and what it holds.
pub struct Document {
    pub path: String,
    pub value: Json,
}

/// The documents of one generation, in increasing order of their paths.
pub struct Corpus {
    pub documents: Vec<Document>,
}

/// The documents as mathematical values: path and content.
pub open spec fn docs_view(docs: Seq<Document>) -> Seq<(Seq<char>, JsonView)> {
    Seq::new(docs.len(), |i: int| (docs[i].path@, docs[i].value@))
}

/// The paths of the documents, in their order.
pub open spec fn doc_paths(docs: Seq<(Seq<char>, JsonView)>) -> Seq<Seq<char>> {
    Seq::new(docs.len(), |i: int| docs[i].0)
}

/// Whether the documents stand in strictly increasing order of their paths
/// and each is a well-formed value.
pub open spec fn docs_wf(docs: Seq<(Seq<char>, JsonView)>) -> bool {
    &&& increasing(doc_paths(docs))
    &&& forall|i: int| 0 <= i < docs.len() ==> well_formed((#[trigger] docs[i]).1)
}

impl Corpus {
    /// The documents as mathematical values.
    pub open spec fn view(&self) -> Seq<(Seq<char>, JsonView)> {
        docs_view(self.documents@)
    }

    /// The paths are strictly increasing and every document is well formed.
    pub open spec fn wf(&self) -> bool {
        docs_wf(self@)
    }

    /// A corpus without documents.
    pub fn new() -> (out: Corpus)
        ensures
            out.wf(),
            out@.len() == 0,
    {
        Corpus { documents: Vec::new() }
    }

    /// The number of documents.
    pub fn len(&self) -> (n: usize)
        ensures
            n == self@.len(),
    {
        self.documents.len()
    }

    /// Adds a document behind the others. It is added only where its path
    /// comes after the path of the last document and its content is well
    /// formed; the result says whether it was.
    pub fn push(&mut self, path: String, value: Json) -> (added: bool)
        requires
            old(self).wf(),
        ensures
            final(self).wf(),
            added == (value.wf() && (old(self)@.len() == 0 || text_lt(
                old(self)@.last().0,
                path@,
            ))),
            added ==> final(self)@ == old(self)@.push((path@, value@)),
            !added ==> final(self)@ == old(self)@,
    {
        if !value.is_wf() {
            return false;
        }
        let n = self.documents.len();
        if n > 0 {
            let last = chars_of(self.documents[n - 1].path.as_str());
            let new = chars_of(path.as_str());
            proof {
                assert(self@[n - 1] == (self.documents@[n - 1].path@, self.documents@[n - 1].value@));
            }
            match rank(&last, &new) {
                Rank::Before => {},
                _ => {
                    return false;
                },
            }
        }
        let ghost before = self@;
        self.documents.push(Document { path, value });
        proof {
            assert(self@ =~= before.push((path@, value@)));
            let paths = doc_paths(self@);
            let old_paths = doc_paths(before);
            assert forall|i: int, j: int| 0 <= i < j < paths.len() implies text_lt(
                #[trigger] paths[i],
                #[trigger] paths[j],
            ) by {
                if j < n {
                    assert(text_lt(old_paths[i], old_paths[j]));
                } else if i < n - 1 {
                    assert(text_lt(old_paths[i], old_paths[n - 1]));
                    crate::order::lemma_lt_transitive(paths[i], old_paths[n - 1], paths[j]);
                } else {
                    assert(paths[i] == before[n - 1].0);
                }
            }
            assert forall|i: int| 0 <= i < self@.len() implies well_formed(
                (#[trigger] self@[i]).1,
            ) by {
                if i < n {
                    assert(self@[i] == before[i]);
                }
            }
        }
        true
    }
}

/// What a projection makes of a document: the first value that it finds
/// there, or null where it finds none, so that a document that lacks what
/// is looked for can still be compared.
pub fn first_or_null(found: Vec<Json>) -> (out: Json)
    ensures
        out@ == if found@.len() > 0 {
            found@[0]@
        } else {
            JsonView::Null
        },
        (forall|i: int| 0 <= i < found@.len() ==> (#[trigger] found@[i]).wf()) ==> out.wf(),
{
    let mut found = found;
    if found.len() > 0 {
        found.swap_remove(0)
    } else {
        Json::Null
    }
}

/// One path of the two generations with what each holds under it; null
/// stands for a generation that has no document there.
pub struct Pair {
    pub file: Seq<char>,
    pub left: JsonView,
    pub right: JsonView,
}

/// The paths of both generations, each once and in increasing order, with
/// the documents that the two generations hold under them.
pub open spec fn paired(a: Seq<(Seq<char>, JsonView)>, b: Seq<(Seq<char>, JsonView)>) -> Seq<Pair>
    decreases a.len() + b.len(),
{
    if a.len() == 0 && b.len() == 0 {
        Seq::empty()
    } else if b.len() == 0 || (a.len() > 0 && text_lt(a[0].0, b[0].0)) {
        seq![Pair { file: a[0].0, left: a[0].1, right: JsonView::Null }] + paired(a.skip(1), b)
    } else if a.len() == 0 || text_lt(b[0].0, a[0].0) {
        seq![Pair { file: b[0].0, left: JsonView::Null, right: b[0].1 }] + paired(a, b.skip(1))
    } else {
        seq![Pair { file: a[0].0, left: a[0].1, right: b[0].1 }] + paired(a.skip(1), b.skip(1))
    }
}

/// How two documents are compared.
#[derive(Clone, Copy, Debug, PartialEq, Eq, Structural)]
pub enum CompareMode {
    /// As JSON trees, place by place.
    Tree,
    /// As texts: a document that is no text counts as the empty text. Where
    /// `ignore_html_whitespace` holds the texts are compared as markup,
    /// minified and without the white space right inside their tags.
    Plain { ignore_html_whitespace: bool },
}

/// What is shown for a document that differs.
pub enum BodyView {
    /// The divergences found in it, by dotted key.
    Divergences(Map<Seq<char>, Seq<char>>),
    /// The two texts, side by side.
    Panes(Seq<char>, Seq<char>),
}

/// What the comparison of one pair gives: what is shown for it, if it
/// differs; the cache afterwards; the error that stopped it, if one did.
pub struct Verdict {
    pub body: Option<BodyView>,
    pub cache: Map<Seq<char>, Seq<char>>,
    pub error: Option<DiffError>,
}

/// The verdict of the comparison of two documents as JSON trees: they
/// differ where the walk from the root reports a divergence.
pub open spec fn structural_verdict(
    cache: Map<Seq<char>, Seq<char>>,
    pair: Pair,
    policy: Policy,
    options: DiffOptions,
    enabled: bool,
) -> Verdict {
    let end = run(
        Progress { map: Map::empty(), cache, error: None },
        findings(pair.left, pair.right, pair.file, Seq::empty(), policy, options),
        options.fast,
        enabled,
    );
    Verdict {
        body: if end.error is None && end.map != Map::<Seq<char>, Seq<char>>::empty() {
            Some(BodyView::Divergences(end.map))
        } else {
            None
        },
        cache: end.cache,
        error: end.error,
    }
}

/// The text that a document is compared as in plain mode.
pub open spec fn plain_text(v: JsonView) -> Seq<char> {
    match v {
        JsonView::Text(s) => s,
        _ => Seq::empty(),
    }
}

/// What is shown for two texts: nothing where they are equal.
pub open spec fn panes(left: Seq<char>, right: Seq<char>) -> Option<BodyView> {
    if left == right {
        None
    } else {
        Some(BodyView::Panes(left, right))
    }
}

/// The verdict of the comparison of two documents as texts.
pub open spec fn plain_verdict(
    cache: Map<Seq<char>, Seq<char>>,
    pair: Pair,
    ignore_html_whitespace: bool,
) -> Verdict {
    let same = Verdict { body: None, cache, error: None };
    let left = plain_text(pair.left);
    let right = plain_text(pair.right);
    if pair.left == pair.right {
        same
    } else if ignore_html_whitespace {
        match squeezed(left) {
            Err(e) => Verdict { error: Some(e), ..same },
            Ok(l) => match squeezed(right) {
                Err(e) => Verdict { error: Some(e), ..same },
                Ok(r) => Verdict { body: panes(l, r), ..same },
            },
        }
    } else {
        Verdict { body: panes(left, right), ..same }
    }
}

/// The verdict of the comparison of one pair in the given mode.
pub open spec fn verdict(
    mode: CompareMode,
    cache: Map<Seq<char>, Seq<char>>,
    pair: Pair,
    policy: Policy,
    options: DiffOptions,
    enabled: bool,
) -> Verdict {
    match mode {
        CompareMode::Tree => structural_verdict(cache, pair, policy, options, enabled),
        CompareMode::Plain { ignore_html_whitespace } => plain_verdict(
            cache,
            pair,
            ignore_html_whitespace,
        ),
    }
}

/// What is shown for a document that differs.
pub enum ItemBody {
    /// The divergences found in it.
    Divergences(DivergenceMap),
    /// The two texts, side by side.
    Panes { left: String, right: String },
}

impl ItemBody {
    /// The divergence map of the body, where it has one, is well formed.
    pub open spec fn wf(&self) -> bool {
        match self {
            ItemBody::Divergences(map) => map.wf(),
            ItemBody::Panes { .. } => true,
        }
    }
}

impl View for ItemBody {
    type V = BodyView;

    open spec fn view(&self) -> BodyView {
        match self {
            ItemBody::Divergences(map) => BodyView::Divergences(map@),
            ItemBody::Panes { left, right } => BodyView::Panes(left@, right@),
        }
    }
}

/// Whether the result of a comparison is what the verdict says.
pub open spec fn passes(out: Result<Option<ItemBody>, DiffError>, v: Verdict) -> bool {
    match out {
        Err(e) => v.error == Some(e),
        Ok(None) => v.error is None && v.body is None,
        Ok(Some(body)) => v.error is None && v.body == Some(body@) && body.wf(),
    }
}

/// Compares two documents as texts.
pub fn compare_plain(left: &Json, right: &Json, ignore_html_whitespace: bool) -> (out: Result<
    Option<ItemBody>,
    DiffError,
>)
    ensures
        forall|cache: Map<Seq<char>, Seq<char>>, file: Seq<char>|
            passes(
                out,
                #[trigger] plain_verdict(
                    cache,
                    Pair { file, left: left@, right: right@ },
                    ignore_html_whitespace,
                ),
            ),
{
    if left.same(right) {
        return Ok(None);
    }
    let empty = String::new();
    let l = match left {
        Json::Text(s) => s,
        _ => &empty,
    };
    let r = match right {
        Json::Text(s) => s,
        _ => &empty,
    };
    if ignore_html_whitespace {
        let l2 = match squeeze(l.as_str()) {
            Ok(s) => s,
            Err(e) => {
                return Err(e);
            },
        };
        let r2 = match squeeze(r.as_str()) {
            Ok(s) => s,
            Err(e) => {
                return Err(e);
            },
        };
        if same_text(&chars_of(l2.as_str()), &chars_of(r2.as_str())) {
            Ok(None)
        } else {
            Ok(Some(ItemBody::Panes { left: l2, right: r2 }))
        }
    } else if same_text(&chars_of(l.as_str()), &chars_of(r.as_str())) {
        Ok(None)
    } else {
        Ok(Some(ItemBody::Panes { left: l.clone(), right: r.clone() }))
    }
}

/// Compares two documents as JSON trees, from their roots.
pub fn compare_structural(
    file: &str,
    left: &Json,
    right: &Json,
    args: &DiffOptions,
    policy: &Policy,
    cache: &mut DedupCache,
) -> (out: Result<Option<ItemBody>, DiffError>)
    requires
        left.wf(),
        right.wf(),
    ensures
        final(cache).enabled() == old(cache).enabled(),
        ({
            let v = structural_verdict(
                old(cache)@.entries,
                Pair { file: file@, left: left@, right: right@ },
                *policy,
                *args,
                old(cache).enabled(),
            );
            passes(out, v) && final(cache)@.entries == v.cache
        }),
{
    let mut diff = DivergenceMap::new();
    let path: Vec<PathIndex> = Vec::new();
    proof {
        assert(steps(path@) =~= Seq::<Step>::empty());
    }
    match full_diff(left, right, file, &path, &mut diff, args, policy, cache) {
        Err(e) => Err(e),
        Ok(_) => {
            proof {
                diff.lemma_empty();
            }
            if diff.is_empty() {
                Ok(None)
            } else {
                Ok(Some(ItemBody::Divergences(diff)))
            }
        },
    }
}

/// Compares the two documents found under one path.
pub fn compare_document(
    mode: CompareMode,
    file: &str,
    left: &Json,
    right: &Json,
    args: &DiffOptions,
    policy: &Policy,
    cache: &mut DedupCache,
) -> (out: Result<Option<ItemBody>, DiffError>)
    requires
        left.wf(),
        right.wf(),
    ensures
        final(cache).enabled() == old(cache).enabled(),
        ({
            let v = verdict(
                mode,
                old(cache)@.entries,
                Pair { file: file@, left: left@, right: right@ },
                *policy,
                *args,
                old(cache).enabled(),
            );
            passes(out, v) && final(cache)@.entries == v.cache
        }),
{
    match mode {
        CompareMode::Tree => compare_structural(file, left, right, args, policy, cache),
        CompareMode::Plain { ignore_html_whitespace } => compare_plain(
            left,
            right,
            ignore_html_whitespace,
        ),
    }
}

/// One document that differs, with what is shown for it.
pub struct ReportItem {
    pub file: String,
    pub body: ItemBody,
}

/// What a comparison of two generations found.
pub struct Report {
    /// The documents that differ, in increasing order of their paths.
    pub items: Vec<ReportItem>,
    /// How many paths hold nothing that is reported.
    pub same: usize,
    /// How many paths the two generations have together.
    pub total: usize,
}

/// The items as mathematical values: path and what is shown.
pub open spec fn items_view(items: Seq<ReportItem>) -> Seq<(Seq<char>, BodyView)> {
    Seq::new(items.len(), |i: int| (items[i].file@, items[i].body@))
}

/// Whether every item holds a well-formed body.
pub open spec fn items_wf(items: Seq<ReportItem>) -> bool {
    forall|i: int| 0 <= i < items.len() ==> (#[trigger] items[i]).body.wf()
}

/// The count of a comparison as it goes from pair to pair.
pub struct Tally {
    pub items: Seq<(Seq<char>, BodyView)>,
    pub same: nat,
    pub cache: Map<Seq<char>, Seq<char>>,
    pub error: Option<DiffError>,
}

/// The tally before the first pair.
pub open spec fn fresh_tally(cache: Map<Seq<char>, Seq<char>>) -> Tally {
    Tally { items: Seq::empty(), same: 0, cache, error: None }
}

/// The tally after one more pair: a pair that differs becomes an item, one
/// that does not is counted as the same. After an error nothing changes.
pub open spec fn counted(
    t: Tally,
    pair: Pair,
    mode: CompareMode,
    policy: Policy,
    options: DiffOptions,
    enabled: bool,
) -> Tally {
    if t.error is Some {
        t
    } else {
        let v = verdict(mode, t.cache, pair, policy, options, enabled);
        match v.error {
            Some(e) => Tally { cache: v.cache, error: Some(e), ..t },
            None => match v.body {
                None => Tally { same: t.same + 1, cache: v.cache, ..t },
                Some(body) => Tally { items: t.items.push((pair.file, body)), cache: v.cache, ..t },
            },
        }
    }
}

/// The tally after the pairs, taken one after the other.
pub open spec fn tallied(
    t: Tally,
    pairs: Seq<Pair>,
    mode: CompareMode,
    policy: Policy,
    options: DiffOptions,
    enabled: bool,
) -> Tally
    decreases pairs.len(),
{
    if pairs.len() == 0 {
        t
    } else {
        counted(
            tallied(t, pairs.drop_last(), mode, policy, options, enabled),
            pairs.last(),
            mode,
            policy,
            options,
            enabled,
        )
    }
}

/// One path of the two generations, by the places of its documents in the
/// two corpora.
#[derive(Clone, Copy, Debug, PartialEq, Eq, Structural)]
pub enum Pairing {
    /// Only the first generation has a document under the path.
    Left(usize),
    /// Only the second generation has a document under the path.
    Right(usize),
    /// Both generations have one.
    Both(usize, usize),
}

impl Pairing {
    /// The place of the document in the first corpus, if it has one.
    pub open spec fn left_place(self) -> Option<usize> {
        match self {
            Pairing::Left(l) => Some(l),
            Pairing::Right(_) => None,
            Pairing::Both(l, _) => Some(l),
        }
    }

    /// The place of the document in the second corpus, if it has one.
    pub open spec fn right_place(self) -> Option<usize> {
        match self {
            Pairing::Left(_) => None,
            Pairing::Right(r) => Some(r),
            Pairing::Both(_, r) => Some(r),
        }
    }

    /// The place of the document in the first corpus, if it has one.
    #[verifier::when_used_as_spec(left_place)]
    pub fn left(self) -> (out: Option<usize>)
        ensures
            out == self.left_place(),
    {
        match self {
            Pairing::Left(l) => Some(l),
            Pairing::Right(_) => None,
            Pairing::Both(l, _) => Some(l),
        }
    }

    /// The place of the document in the second corpus, if it has one.
    #[verifier::when_used_as_spec(right_place)]
    pub fn right(self) -> (out: Option<usize>)
        ensures
            out == self.right_place(),
    {
        match self {
            Pairing::Left(_) => None,
            Pairing::Right(r) => Some(r),
            Pairing::Both(_, r) => Some(r),
        }
    }
}

/// Whether a pairing names documents that the corpora have.
pub open spec fn pairing_wf(
    p: Pairing,
    a: Seq<(Seq<char>, JsonView)>,
    b: Seq<(Seq<char>, JsonView)>,
) -> bool {
    &&& p.left_place() matches Some(l) ==> l < a.len()
    &&& p.right_place() matches Some(r) ==> r < b.len()
}

/// The path and the two documents that a pairing names.
pub open spec fn pairing_view(
    p: Pairing,
    a: Seq<(Seq<char>, JsonView)>,
    b: Seq<(Seq<char>, JsonView)>,
) -> Pair {
    match p {
        Pairing::Both(l, r) => Pair {
            file: a[l as int].0,
            left: a[l as int].1,
            right: b[r as int].1,
        },
        Pairing::Left(l) => Pair { file: a[l as int].0, left: a[l as int].1, right: JsonView::Null },
        Pairing::Right(r) => Pair { file: b[r as int].0, left: JsonView::Null, right: b[r as int].1 },
    }
}

/// What the pairings of a list name.
pub open spec fn pairings_view(
    pairings: Seq<Pairing>,
    a: Seq<(Seq<char>, JsonView)>,
    b: Seq<(Seq<char>, JsonView)>,
) -> Seq<Pair> {
    Seq::new(pairings.len(), |i: int| pairing_view(pairings[i], a, b))
}

/// The paths of both generations, each once and in increasing order, each
/// with the places of the documents that the generations hold under it.
pub fn pair_up(a: &Corpus, b: &Corpus) -> (out: Vec<Pairing>)
    requires
        a.wf(),
        b.wf(),
    ensures
        pairings_view(out@, a@, b@) == paired(a@, b@),
        forall|i: int| 0 <= i < out@.len() ==> pairing_wf(#[trigger] out@[i], a@, b@),
{
    let ghost av = a@;
    let ghost bv = b@;
    let mut out: Vec<Pairing> = Vec::new();
    let mut i: usize = 0;
    let mut j: usize = 0;
    proof {
        assert(av.skip(0) == av);
        assert(bv.skip(0) == bv);
        assert(pairings_view(out@, av, bv) =~= Seq::<Pair>::empty());
        assert(Seq::<Pair>::empty() + paired(av, bv) == paired(av, bv));
    }
    while i < a.documents.len() || j < b.documents.len()
        invariant
            av == a@,
            bv == b@,
            i <= a.documents@.len(),
            j <= b.documents@.len(),
            pairings_view(out@, av, bv) + paired(av.skip(i as int), bv.skip(j as int)) == paired(
                av,
                bv,
            ),
            forall|k: int| 0 <= k < out@.len() ==> pairing_wf(#[trigger] out@[k], av, bv),
        decreases (a.documents@.len() - i) + (b.documents@.len() - j),
    {
        let ghost rest_a = av.skip(i as int);
        let ghost rest_b = bv.skip(j as int);
        let ghost done = pairings_view(out@, av, bv);
        let pairing = if j >= b.documents.len() {
            Pairing::Left(i)
        } else if i >= a.documents.len() {
            Pairing::Right(j)
        } else {
            let left_path = chars_of(a.documents[i].path.as_str());
            let right_path = chars_of(b.documents[j].path.as_str());
            proof {
                assert(rest_a[0] == av[i as int]);
                assert(rest_b[0] == bv[j as int]);
                assert(av[i as int].0 == left_path@);
                assert(bv[j as int].0 == right_path@);
            }
            match rank(&left_path, &right_path) {
                Rank::Before => Pairing::Left(i),
                Rank::After => Pairing::Right(j),
                Rank::Same => Pairing::Both(i, j),
            }
        };
        let next_i = match pairing {
            Pairing::Right(_) => i,
            _ => i + 1,
        };
        let next_j = match pairing {
            Pairing::Left(_) => j,
            _ => j + 1,
        };
        let ghost pair = pairing_view(pairing, av, bv);
        proof {
            if i < av.len() {
                assert(rest_a[0] == av[i as int]);
                assert(rest_a.skip(1) == av.skip(i + 1));
            }
            if j < bv.len() {
                assert(rest_b[0] == bv[j as int]);
                assert(rest_b.skip(1) == bv.skip(j + 1));
            }
            assert(paired(rest_a, rest_b) == seq![pair] + paired(
                av.skip(next_i as int),
                bv.skip(next_j as int),
            ));
            assert(done.push(pair) + paired(av.skip(next_i as int), bv.skip(next_j as int))
                == done + (seq![pair] + paired(av.skip(next_i as int), bv.skip(next_j as int))));
        }
        out.push(pairing);
        proof {
            assert(pairings_view(out@, av, bv) =~= done.push(pair));
        }
        i = next_i;
        j = next_j;
    }
    proof {
        assert(av.skip(av.len() as int).len() == 0);
        assert(bv.skip(bv.len() as int).len() == 0);
        assert(paired(av.skip(i as int), bv.skip(j as int)) == Seq::<Pair>::empty());
        assert(pairings_view(out@, av, bv) + Seq::<Pair>::empty() == pairings_view(out@, av, bv));
    }
    out
}

/// The path that a pairing names.
pub fn pairing_file<'a>(a: &'a Corpus, b: &'a Corpus, pairing: &Pairing) -> (file: &'a String)
    requires
        pairing_wf(*pairing, a@, b@),
    ensures
        file@ == pairing_view(*pairing, a@, b@).file,
{
    match pairing {
        Pairing::Left(l) | Pairing::Both(l, _) => {
            proof {
                assert(a@[*l as int] == (a.documents@[*l as int].path@, a.documents@[*l as int].value@));
            }
            &a.documents[*l].path
        },
        Pairing::Right(r) => {
            proof {
                assert(b@[*r as int] == (b.documents@[*r as int].path@, b.documents@[*r as int].value@));
            }
            &b.documents[*r].path
        },
    }
}

impl Corpus {
    /// The document of the corpus at the given place, or `null` for none.
    pub fn document_or<'a>(&'a self, place: Option<usize>, null: &'a Json) -> (value: &'a Json)
        requires
            self.wf(),
            place matches Some(i) ==> i < self@.len(),
            null@ == JsonView::Null,
        ensures
            value.wf(),
            value@ == match place {
                Some(i) => self@[i as int].1,
                None => JsonView::Null,
            },
    {
        match place {
            Some(i) => {
                proof {
                    assert(self@[i as int] == (
                        self.documents@[i as int].path@,
                        self.documents@[i as int].value@,
                    ));
                    assert(well_formed(self@[i as int].1));
                }
                &self.documents[i].value
            },
            None => null,
        }
    }
}

/// Compares two generations of a corpus, path by path in increasing order:
/// every path that either generation has is compared once, a document that
/// one generation lacks against null. A pair that differs becomes an item
/// of the report; the others are counted. The first error ends the
/// comparison.
pub fn compare_corpora(
    a: &Corpus,
    b: &Corpus,
    mode: CompareMode,
    args: &DiffOptions,
    policy: &Policy,
    cache: &mut DedupCache,
) -> (out: Result<Report, DiffError>)
    requires
        a.wf(),
        b.wf(),
    ensures
        final(cache).enabled() == old(cache).enabled(),
        ({
            let t = tallied(
                fresh_tally(old(cache)@.entries),
                paired(a@, b@),
                mode,
                *policy,
                *args,
                old(cache).enabled(),
            );
            &&& final(cache)@.entries == t.cache
            &&& match out {
                Ok(report) => {
                    &&& t.error is None
                    &&& items_view(report.items@) == t.items
                    &&& items_wf(report.items@)
                    &&& report.same == t.same
                    &&& report.total == paired(a@, b@).len()
                    &&& report.same + report.items@.len() == report.total
                },
                Err(e) => t.error == Some(e),
            }
        }),
{
    let ghost enabled = cache.enabled();
    let ghost start = fresh_tally(cache@.entries);
    let ghost pairs = paired(a@, b@);
    let pairings = pair_up(a, b);
    let null = Json::Null;
    let mut items: Vec<ReportItem> = Vec::new();
    let mut same: usize = 0;
    let mut failed: Option<DiffError> = None;
    let mut k: usize = 0;
    proof {
        assert(pairs.take(0) == Seq::<Pair>::empty());
        assert(items_view(items@) =~= Seq::<(Seq<char>, BodyView)>::empty());
    }
    while k < pairings.len()
        invariant
            a.wf(),
            b.wf(),
            null@ == JsonView::Null,
            pairs == paired(a@, b@),
            pairings_view(pairings@, a@, b@) == pairs,
            forall|i: int| 0 <= i < pairings@.len() ==> pairing_wf(#[trigger] pairings@[i], a@, b@),
            k <= pairings@.len(),
            cache.enabled() == enabled,
            same <= k,
            failed is None ==> same + items@.len() == k,
            items_wf(items@),
            tallied(start, pairs.take(k as int), mode, *policy, *args, enabled) == (Tally {
                items: items_view(items@),
                same: same as nat,
                cache: cache@.entries,
                error: failed,
            }),
        decreases pairings@.len() - k,
    {
        let pairing = &pairings[k];
        let ghost pair = pairs[k as int];
        proof {
            assert(pair == pairing_view(*pairing, a@, b@));
            assert(pairing_wf(*pairing, a@, b@));
            assert(pairs.take(k + 1).drop_last() == pairs.take(k as int));
            assert(pairs.take(k + 1).last() == pair);
        }
        match failed {
            Some(_) => {},
            None => {
                let file = pairing_file(a, b, pairing);
                let left = a.document_or(pairing.left(), &null);
                let right = b.document_or(pairing.right(), &null);
                let ghost old_items = items_view(items@);
                match compare_document(mode, file.as_str(), left, right, args, policy, cache) {
                    Err(e) => {
                        failed = Some(e);
                    },
                    Ok(None) => {
                        same = same + 1;
                    },
                    Ok(Some(body)) => {
                        items.push(ReportItem { file: file.clone(), body });
                        proof {
                            assert(items_view(items@) =~= old_items.push((pair.file, body@)));
                        }
                    },
                }
            },
        }
        k = k + 1;
    }
    proof {
        assert(pairs.take(pairs.len() as int) == pairs);
    }
    match failed {
        Some(e) => Err(e),
        None => Ok(Report { items, same, total: pairings.len() }),
    }
}

} // verus!
