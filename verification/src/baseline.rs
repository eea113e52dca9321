//! The baseline status of web features: which features the browsers
//! support, since when, and what that says of one compatibility key.
use vstd::prelude::*;
use crate::json::Json;
use crate::text::{chars_of, same_text};
use indexmap::IndexMap;
use std::hash::RandomState;

verus! {

/// `indexmap::IndexMap`, held as it is; what it holds is spoken of by
/// [`features_of`].
#[verifier::external_type_specification]
#[verifier::external_body]
#[verifier::reject_recursive_types(K)]
#[verifier::reject_recursive_types(V)]
#[verifier::reject_recursive_types(S)]
pub struct ExIndexMap<K, V, S>(IndexMap<K, V, S>);

/// A browser whose support is recorded.
#[derive(Clone, Copy, Debug, Hash, PartialEq, Eq, PartialOrd, Ord, Structural)]
pub enum BrowserIdentifier {
    Chrome,
    ChromeAndroid,
    Edge,
    Firefox,
    FirefoxAndroid,
    Safari,
    SafariIos,
}

/// Whether a feature is baseline, and how widely.
#[derive(Clone, Copy, Debug, PartialEq, Eq, Structural)]
pub enum BaselineHighLow {
    High,
    Low,
    /// Not baseline; the value is the one that was recorded.
    False(bool),
}

/// The version of one browser that introduced a feature.
#[derive(Debug)]
pub struct BrowserVersion {
    pub browser: BrowserIdentifier,
    pub version: String,
}

/// The support status of a feature or of one of its keys.
#[derive(Debug)]
pub struct SupportStatus {
    /// Whether the feature is baseline, high or low, or not.
    pub baseline: Option<BaselineHighLow>,
    /// The date on which the feature became baseline low.
    pub baseline_low_date: Option<String>,
    /// The date on which the feature became baseline high.
    pub baseline_high_date: Option<String>,
    /// The browser versions that most recently introduced the feature.
    pub support: Vec<BrowserVersion>,
}

/// The support status of one compatibility key of a feature.
#[derive(Debug)]
pub struct KeyStatus {
    pub key: String,
    pub status: SupportStatus,
}

/// The support status of a feature, with the status of each of its
/// compatibility keys where that is recorded.
#[derive(Debug)]
pub struct SupportStatusWithByKey {
    /// Whether the feature is baseline, high or low, or not.
    pub baseline: Option<BaselineHighLow>,
    /// The date on which the feature became baseline low.
    pub baseline_low_date: Option<String>,
    /// The date on which the feature became baseline high.
    pub baseline_high_date: Option<String>,
    /// The browser versions that most recently introduced the feature.
    pub support: Vec<BrowserVersion>,
    /// The status of each compatibility key.
    pub by_compat_key: Option<Vec<KeyStatus>>,
}

/// What is recorded of one web feature.
pub struct FeatureData {
    /// The specifications of the feature, as URLs.
    pub spec: Vec<String>,
    /// The identifiers of the feature at caniuse.com.
    pub caniuse: Vec<String>,
    /// Whether the feature is baseline, and since when.
    pub status: Option<SupportStatusWithByKey>,
    /// The compatibility keys whose support data the feature rests on.
    pub compat_features: Vec<String>,
    pub description: String,
    pub description_html: String,
    pub group: Vec<String>,
    pub name: String,
    pub snapshot: Vec<String>,
    /// Set where developers are formally discouraged from using the feature.
    pub discouraged: Option<Json>,
}

/// The web features, each under its identifier, in the order in which they
/// were recorded.
pub struct WebFeatures {
    features: IndexMap<String, FeatureData, RandomState>,
}

/// What a map of features holds: its entries, in their order.
pub uninterp spec fn features_of(map: IndexMap<String, FeatureData, RandomState>) -> Seq<
    (Seq<char>, FeatureData),
>;

/// Calls `IndexMap::new`. Claimed: the new map has no entries.
#[verifier::external_body]
fn features_new() -> (out: IndexMap<String, FeatureData, RandomState>)
    ensures
        features_of(out).len() == 0,
{
    IndexMap::new()
}

/// Calls `IndexMap::len`. Claimed: the result is the number of entries.
#[verifier::external_body]
fn features_len(map: &IndexMap<String, FeatureData, RandomState>) -> (out: usize)
    ensures
        out == features_of(*map).len(),
{
    map.len()
}

/// Indexes the `IndexMap` by position. Claimed: the result is the value of
/// entry `i`; a position past the end is left out, where indexing panics.
#[verifier::external_body]
fn feature_at(map: &IndexMap<String, FeatureData, RandomState>, i: usize) -> (out: &FeatureData)
    requires
        i < features_of(*map).len(),
    ensures
        *out == features_of(*map)[i as int].1,
{
    &map[i]
}

/// Where an identifier stands among the entries, if it does.
pub open spec fn entry_index(entries: Seq<(Seq<char>, FeatureData)>, id: Seq<char>) -> Option<int> {
    if exists|i: int| 0 <= i < entries.len() && (#[trigger] entries[i]).0 == id {
        Some(choose|i: int| 0 <= i < entries.len() && (#[trigger] entries[i]).0 == id)
    } else {
        None
    }
}

/// The entries after one is put in: in the place of the entry with the same
/// identifier where there is one, at the end otherwise.
pub open spec fn with_entry(
    entries: Seq<(Seq<char>, FeatureData)>,
    id: Seq<char>,
    data: FeatureData,
) -> Seq<(Seq<char>, FeatureData)> {
    match entry_index(entries, id) {
        Some(i) => entries.update(i, (id, data)),
        None => entries.push((id, data)),
    }
}

/// Calls `IndexMap::insert`. Claimed: an entry with an equal key keeps its
/// place and gets the new value; a new key goes last.
#[verifier::external_body]
fn features_insert(map: &mut IndexMap<String, FeatureData, RandomState>, id: String, data: FeatureData)
    ensures
        features_of(*final(map)) == with_entry(features_of(*old(map)), id@, data),
{
    map.insert(id, data);
}

/// Whether entry `i` of the list is the status recorded for the key.
pub open spec fn status_at(by_key: Seq<KeyStatus>, key: Seq<char>, i: int) -> bool {
    &&& 0 <= i < by_key.len()
    &&& by_key[i].key@ == key
    &&& forall|j: int| 0 <= j < i ==> by_key[j].key@ != key
}

/// Whether one of the texts is the key.
pub open spec fn names_key(keys: Seq<String>, key: Seq<char>) -> bool {
    exists|i: int| 0 <= i < keys.len() && (#[trigger] keys[i])@ == key
}

/// Whether a feature answers for a compatibility key: it has a status, it
/// rests on the key, it is not discouraged, and the status recorded for the
/// key has the same baseline as the feature.
pub open spec fn answers_for(data: FeatureData, key: Seq<char>) -> bool {
    &&& data.status is Some
    &&& names_key(data.compat_features@, key)
    &&& data.discouraged is None
    &&& data.status->0.by_compat_key is Some
    &&& exists|i: int|
        status_at(data.status->0.by_compat_key->0@, key, i)
            && data.status->0.by_compat_key->0@[i].status.baseline == data.status->0.baseline
}

/// Whether the list of texts holds the key.
fn holds_key(keys: &Vec<String>, key: &Vec<char>) -> (r: bool)
    ensures
        r == names_key(keys@, key@),
{
    let mut i: usize = 0;
    while i < keys.len()
        invariant
            i <= keys.len(),
            forall|j: int| 0 <= j < i ==> (#[trigger] keys@[j])@ != key@,
        decreases keys.len() - i,
    {
        if same_text(&chars_of(keys[i].as_str()), key) {
            return true;
        }
        i = i + 1;
    }
    false
}

/// Whether two baselines are the same.
fn same_baseline(a: &Option<BaselineHighLow>, b: &Option<BaselineHighLow>) -> (r: bool)
    ensures
        r == (*a == *b),
{
    match (a, b) {
        (None, None) => true,
        (Some(x), Some(y)) => *x == *y,
        _ => false,
    }
}

/// Whether a feature answers for a compatibility key.
fn feature_answers(data: &FeatureData, key: &Vec<char>) -> (r: bool)
    ensures
        r == answers_for(*data, key@),
{
    let status = match &data.status {
        Some(status) => status,
        None => {
            return false;
        },
    };
    if !holds_key(&data.compat_features, key) {
        return false;
    }
    if data.discouraged.is_some() {
        return false;
    }
    let by_key = match &status.by_compat_key {
        Some(by_key) => by_key,
        None => {
            return false;
        },
    };
    proof {
        assert(data.status == Some(*status));
        assert(status.by_compat_key == Some(*by_key));
    }
    let mut i: usize = 0;
    while i < by_key.len()
        invariant
            data.status == Some(*status),
            status.by_compat_key == Some(*by_key),
            names_key(data.compat_features@, key@),
            data.discouraged is None,
            i <= by_key.len(),
            forall|j: int| 0 <= j < i ==> by_key@[j].key@ != key@,
        decreases by_key.len() - i,
    {
        if same_text(&chars_of(by_key[i].key.as_str()), key) {
            let r = same_baseline(&by_key[i].status.baseline, &status.baseline);
            proof {
                assert(status_at(by_key@, key@, i as int));
            }
            return r;
        }
        i = i + 1;
    }
    false
}

impl WebFeatures {
    /// The features, each with its identifier, in their order.
    pub closed spec fn view(&self) -> Seq<(Seq<char>, FeatureData)> {
        features_of(self.features)
    }

    /// No features.
    pub fn new() -> (out: WebFeatures)
        ensures
            out@.len() == 0,
    {
        WebFeatures { features: features_new() }
    }

    /// The number of features.
    pub fn len(&self) -> (n: usize)
        ensures
            n == self@.len(),
    {
        features_len(&self.features)
    }

    /// Records a feature under its identifier: in the place of the feature
    /// recorded under it before, or behind all others.
    pub fn insert(&mut self, id: String, data: FeatureData)
        ensures
            final(self)@ == with_entry(old(self)@, id@, data),
    {
        features_insert(&mut self.features, id, data);
    }

    /// The status of the first feature that answers for the compatibility
    /// key: that has a status, rests on the key, is not discouraged, and
    /// records for the key the baseline that it has itself.
    pub fn feature_status(&self, bcd_key: &str) -> (out: Option<&SupportStatusWithByKey>)
        ensures
            match out {
                Some(status) => exists|i: int|
                    {
                        &&& 0 <= i < self@.len()
                        &&& answers_for(self@[i].1, bcd_key@)
                        &&& forall|j: int| 0 <= j < i ==> !answers_for(self@[j].1, bcd_key@)
                        &&& self@[i].1.status == Some(*status)
                    },
                None => forall|i: int| 0 <= i < self@.len() ==> !answers_for(self@[i].1, bcd_key@),
            },
    {
        let key = chars_of(bcd_key);
        let n = features_len(&self.features);
        let mut i: usize = 0;
        while i < n
            invariant
                n == self@.len(),
                key@ == bcd_key@,
                i <= n,
                forall|j: int| 0 <= j < i ==> !answers_for(self@[j].1, bcd_key@),
            decreases n - i,
        {
            let data = feature_at(&self.features, i);
            if feature_answers(data, &key) {
                match &data.status {
                    Some(status) => {
                        proof {
                            assert(self@[i as int].1.status == Some(*status));
                        }
                        return Some(status);
                    },
                    None => {},
                }
            }
            i = i + 1;
        }
        None
    }
}

} // verus!
