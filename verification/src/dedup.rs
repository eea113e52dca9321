//! The cache that lets each distinct textual difference be rendered once: a
//! table from the digest of a difference to the marker left by its first
//! occurrence.
use vstd::prelude::*;
use base64::Engine;
use dashmap::DashMap;
use sha2::Digest;
use std::hash::RandomState;

verus! {

/// `dashmap::DashMap`, held as it is; what it holds is spoken of by
/// [`table_entries`].
#[verifier::external_type_specification]
#[verifier::external_body]
#[verifier::reject_recursive_types(K)]
#[verifier::reject_recursive_types(V)]
#[verifier::reject_recursive_types(S)]
pub struct ExDashMap<K, V, S>(DashMap<K, V, S>);

/// What a table of digests holds: the marker stored for each digest.
pub uninterp spec fn table_entries(table: DashMap<String, String, RandomState>) -> Map<
    Seq<char>,
    Seq<char>,
>;

/// What SHA-256 gives for a sequence of bytes: its digest of 32 bytes.
pub uninterp spec fn sha256(bytes: Seq<u8>) -> Seq<u8>;

/// What the standard base64 alphabet without padding gives for a sequence of
/// bytes.
pub uninterp spec fn base64_no_pad(bytes: Seq<u8>) -> Seq<char>;

/// The contents of a table that holds nothing.
pub open spec fn no_entries() -> Map<Seq<char>, Seq<char>> {
    Map::empty()
}

/// Calls `DashMap::new`. Claimed: the new table holds nothing.
#[verifier::external_body]
fn table_new() -> (out: DashMap<String, String, RandomState>)
    ensures
        table_entries(out) == no_entries(),
{
    DashMap::new()
}

/// Calls `DashMap::get` and copies the value out. Claimed: the result is
/// the marker that the table holds for the digest, if it holds one.
#[verifier::external_body]
fn table_get(table: &DashMap<String, String, RandomState>, digest: &str) -> (out: Option<String>)
    ensures
        out is Some <==> table_entries(*table).contains_key(digest@),
        out matches Some(m) ==> m@ == table_entries(*table)[digest@],
{
    table.get(digest).map(|entry| entry.value().clone())
}

/// Calls `DashMap::insert`. Claimed: afterwards the table holds the marker
/// for the digest, and for every other digest what it held before.
#[verifier::external_body]
fn table_insert(table: &mut DashMap<String, String, RandomState>, digest: String, marker: String)
    ensures
        table_entries(*final(table)) == table_entries(*old(table)).insert(digest@, marker@),
{
    table.insert(digest, marker);
}

/// Calls `Sha256::digest`. Claimed: the digest depends on the bytes alone.
#[verifier::external_body]
fn sha256_of(bytes: &Vec<u8>) -> (digest: Vec<u8>)
    ensures
        digest@ == sha256(bytes@),
{
    sha2::Sha256::digest(bytes).to_vec()
}

/// Calls `Engine::encode` of `BASE64_STANDARD_NO_PAD`. Claimed: the text
/// depends on the bytes alone.
#[verifier::external_body]
fn base64_of(bytes: &Vec<u8>) -> (text: String)
    ensures
        text@ == base64_no_pad(bytes@),
{
    base64::prelude::BASE64_STANDARD_NO_PAD.encode(bytes)
}

/// The byte that stands between the two texts of a pair. It occurs in the
/// UTF-8 encoding of no text.
pub const SEPARATOR: u8 = 0xFF;

/// The bytes that stand for a pair of texts: the bytes of the first, the
/// separator, the bytes of the second. Different pairs have different bytes.
pub open spec fn pair_bytes(lhs: Seq<char>, rhs: Seq<char>) -> Seq<u8> {
    vstd::utf8::encode_utf8(lhs) + seq![SEPARATOR] + vstd::utf8::encode_utf8(rhs)
}

/// The digest under which a difference between two texts is remembered: the
/// SHA-256 of the bytes of the pair, written in base64.
pub open spec fn pair_digest(lhs: Seq<char>, rhs: Seq<char>) -> Seq<char> {
    base64_no_pad(sha256(pair_bytes(lhs, rhs)))
}

proof fn lemma_encoded_bytes(s: u32)
    by (bit_vector)
    ensures
        (s & 0x7F) as u8 != 0xFFu8,
        0xC0u8 | ((s >> 6) & 0x1F) as u8 != 0xFFu8,
        0xE0u8 | ((s >> 12) & 0x0F) as u8 != 0xFFu8,
        0xF0u8 | ((s >> 18) & 0x7) as u8 != 0xFFu8,
        0x80u8 | (s & 0x3F) as u8 != 0xFFu8,
        0x80u8 | ((s >> 6) & 0x3F) as u8 != 0xFFu8,
        0x80u8 | ((s >> 12) & 0x3F) as u8 != 0xFFu8,
{
}

/// The separator occurs in the UTF-8 encoding of no text.
pub proof fn lemma_no_separator_in_text(chars: Seq<char>)
    ensures
        forall|i: int|
            0 <= i < vstd::utf8::encode_utf8(chars).len() ==> #[trigger] vstd::utf8::encode_utf8(
                chars,
            )[i] != SEPARATOR,
    decreases chars.len(),
{
    if chars.len() > 0 {
        let first = vstd::utf8::encode_scalar(chars[0] as u32);
        let rest = vstd::utf8::encode_utf8(chars.drop_first());
        lemma_encoded_bytes(chars[0] as u32);
        lemma_no_separator_in_text(chars.drop_first());
        assert forall|i: int| 0 <= i < (first + rest).len() implies #[trigger] (first + rest)[i]
            != SEPARATOR by {
            if i >= first.len() {
                assert((first + rest)[i] == rest[i - first.len()]);
            }
        }
    }
}

/// Different pairs of texts have different bytes: the bytes of a pair
/// determine both of its texts.
pub proof fn lemma_pair_bytes_determine_pair(
    l1: Seq<char>,
    r1: Seq<char>,
    l2: Seq<char>,
    r2: Seq<char>,
)
    requires
        pair_bytes(l1, r1) == pair_bytes(l2, r2),
    ensures
        l1 == l2,
        r1 == r2,
{
    let bytes = pair_bytes(l1, r1);
    let a1 = vstd::utf8::encode_utf8(l1);
    let a2 = vstd::utf8::encode_utf8(l2);
    let b1 = vstd::utf8::encode_utf8(r1);
    let b2 = vstd::utf8::encode_utf8(r2);
    lemma_no_separator_in_text(l1);
    lemma_no_separator_in_text(l2);
    assert(bytes == a1 + seq![SEPARATOR] + b1);
    assert(bytes == a2 + seq![SEPARATOR] + b2);
    assert(bytes[a1.len() as int] == SEPARATOR);
    assert(bytes[a2.len() as int] == SEPARATOR);
    if a1.len() < a2.len() {
        assert(bytes[a1.len() as int] == a2[a1.len() as int]);
    }
    if a2.len() < a1.len() {
        assert(bytes[a2.len() as int] == a1[a2.len() as int]);
    }
    let n = a1.len() as int;
    assert(a1 =~= bytes.take(n));
    assert(a2 =~= bytes.take(n));
    assert(b1 =~= bytes.skip(n + 1));
    assert(b2 =~= bytes.skip(n + 1));
    vstd::utf8::encode_utf8_decode_utf8(l1);
    vstd::utf8::encode_utf8_decode_utf8(l2);
    vstd::utf8::encode_utf8_decode_utf8(r1);
    vstd::utf8::encode_utf8_decode_utf8(r2);
}

/// Computes the digest of a difference between two texts.
pub fn digest_pair(lhs: &str, rhs: &str) -> (digest: String)
    ensures
        digest@ == pair_digest(lhs@, rhs@),
{
    let mut bytes = lhs.as_bytes_vec();
    let mut tail = rhs.as_bytes_vec();
    bytes.push(SEPARATOR);
    bytes.append(&mut tail);
    proof {
        assert(bytes@ =~= pair_bytes(lhs@, rhs@));
    }
    let hash = sha256_of(&bytes);
    base64_of(&hash)
}

/// What the cache says of a digest that is handed to it.
pub enum Seen {
    /// The digest was not known: the caller renders the difference in full.
    First,
    /// The digest was known: the caller refers to the first occurrence by
    /// the marker that was stored with it.
    Already(String),
}

/// The cache of the digests of the differences rendered so far.
pub struct DedupCache {
    table: DashMap<String, String, RandomState>,
    enabled: bool,
}

/// The mathematical value of a [`DedupCache`].
pub struct CacheView {
    /// The marker stored for each digest that the cache knows.
    pub entries: Map<Seq<char>, Seq<char>>,
    /// Whether the cache remembers what it is handed.
    pub enabled: bool,
}

impl View for DedupCache {
    type V = CacheView;

    closed spec fn view(&self) -> CacheView {
        CacheView { entries: table_entries(self.table), enabled: self.enabled }
    }
}

impl DedupCache {
    /// Whether the cache remembers what it is handed.
    pub open spec fn enabled(&self) -> bool {
        self@.enabled
    }

    /// An empty cache.
    pub fn new() -> (cache: DedupCache)
        ensures
            cache@.entries == no_entries(),
            cache.enabled(),
    {
        DedupCache { table: table_new(), enabled: true }
    }

    /// A cache that never remembers: every difference is rendered in full.
    pub fn disabled() -> (cache: DedupCache)
        ensures
            cache@.entries == no_entries(),
            !cache.enabled(),
    {
        DedupCache { table: table_new(), enabled: false }
    }

    /// Whether the cache knows the digest.
    pub fn contains(&self, digest: &str) -> (r: bool)
        ensures
            r == self@.entries.contains_key(digest@),
    {
        table_get(&self.table, digest).is_some()
    }

    /// Looks the digest up and, where it is new and the cache is enabled,
    /// stores the marker for it. The first to record a digest wins: a later
    /// call leaves the stored marker as it is and hands it back.
    pub fn record(&mut self, digest: &str, marker: &str) -> (seen: Seen)
        ensures
            final(self).enabled() == old(self).enabled(),
            match seen {
                Seen::Already(m) => {
                    &&& old(self)@.entries.contains_key(digest@)
                    &&& m@ == old(self)@.entries[digest@]
                    &&& final(self)@.entries == old(self)@.entries
                },
                Seen::First => {
                    &&& !old(self)@.entries.contains_key(digest@)
                    &&& final(self)@.entries == if old(self).enabled() {
                        old(self)@.entries.insert(digest@, marker@)
                    } else {
                        old(self)@.entries
                    }
                },
            },
    {
        match table_get(&self.table, digest) {
            Some(found) => Seen::Already(found),
            None => {
                if self.enabled {
                    table_insert(
                        &mut self.table,
                        String::from_str(digest),
                        String::from_str(marker),
                    );
                }
                Seen::First
            },
        }
    }
}

} // verus!
