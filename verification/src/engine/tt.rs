//! The transposition table: a fixed-capacity cache from 64-bit position
//! hashes to search results, backed by `chess::CacheTable`.
//!
//! Each slot of the backing table is addressed by `hash & mask`, remembers
//! the full hash it was written under, and is unconditionally overwritten by
//! a later write to the same slot. Its contents are modelled as a map from
//! full hash to stored word: a probe is answered from that map alone, so an
//! entry left by a position with a different hash can never be consulted.
//! A search result is packed into one `u64` word — biased score, depth
//! searched and bound kind — and unpacked into a [`TTEntry`] on probing.

use vstd::prelude::*;

use crate::position::SCORE_INF;
use vstd::map::*;

verus! {

/// A cached search result, as the search engine consumes it.
#[derive(Eq, PartialEq, Copy, Clone, Debug)]
pub struct TTEntry {
    pub score: i32,
    pub zobrist_key: u64,
    pub depth: u8,
    pub flag: TTFlag,
}

/// What a cached score means: the true value of the stored search, or only
/// a floor or ceiling established by a cutoff.
#[derive(Eq, PartialEq, Copy, Clone, Debug)]
pub enum TTFlag {
    Exact,
    LowerBound,
    UpperBound,
}

/// The numeric code a bound kind is stored under.
pub open spec fn flag_code(f: TTFlag) -> u64 {
    match f {
        TTFlag::Exact => 0,
        TTFlag::LowerBound => 1,
        TTFlag::UpperBound => 2,
    }
}

/// An entry whose score a search can actually produce.
pub open spec fn entry_valid(e: TTEntry) -> bool {
    -SCORE_INF <= e.score <= SCORE_INF
}

/// The word an entry is stored as: the score biased into a 16-bit field,
/// the depth above it, the bound code above that. The hash is not part of
/// the word; the backing table keys by it.
pub open spec fn encode_spec(e: TTEntry) -> u64 {
    (((e.score + SCORE_INF) as u64) | ((e.depth as u64) << 16)) | (flag_code(e.flag) << 24)
}

/// The entry read back from a stored word under a given hash. A biased
/// score beyond the representable range (impossible for a word this module
/// wrote) reads as `SCORE_INF`; an unknown bound code reads as `Exact`.
pub open spec fn decode_spec(hash: u64, w: u64) -> TTEntry {
    TTEntry {
        score: (if (w & 0xFFFF) > 40000 {
            SCORE_INF as int
        } else {
            (w & 0xFFFF) - SCORE_INF
        }) as i32,
        zobrist_key: hash,
        depth: ((w >> 16) & 0xFF) as u8,
        flag: if (w >> 24) & 0xFF == 1 {
            TTFlag::LowerBound
        } else if (w >> 24) & 0xFF == 2 {
            TTFlag::UpperBound
        } else {
            TTFlag::Exact
        },
    }
}

/// Decoding is left inverse to encoding: a stored search result is read
/// back exactly, with the hash it was stored under.
pub proof fn lemma_entry_roundtrip(e: TTEntry)
    requires
        entry_valid(e),
    ensures
        decode_spec(e.zobrist_key, encode_spec(e)) == e,
{
    let b: u64 = (e.score + SCORE_INF) as u64;
    let d: u64 = e.depth as u64;
    let c: u64 = flag_code(e.flag);
    assert(b <= 40000 && d < 256 && c < 4 ==> (((b | (d << 16)) | (c << 24)) & 0xFFFF) == b
        && ((((b | (d << 16)) | (c << 24)) >> 16) & 0xFF) == d && ((((b | (d << 16)) | (c << 24))
        >> 24) & 0xFF) == c) by (bit_vector);
}

/// A decoded entry always carries a representable score.
pub proof fn lemma_decode_valid(hash: u64, w: u64)
    ensures
        entry_valid(decode_spec(hash, w)),
        decode_spec(hash, w).zobrist_key == hash,
{
    assert(w & 0xFFFF >= 0) by (bit_vector);
}

/// What the backing table holds, as a map from full hash to stored word:
/// exactly the entries a probe can still see.
pub uninterp spec fn cache_contents(t: chess::CacheTable<u64>) -> Map<u64, u64>;

/// The slot mask the backing table was built with (its capacity less one).
pub uninterp spec fn cache_mask(t: chess::CacheTable<u64>) -> u64;

/// How a write changes the visible contents: the written hash maps to the
/// new word, and whatever shared its slot — any hash equal under the mask —
/// is gone.
pub open spec fn store_update(m: Map<u64, u64>, mask: u64, hash: u64, w: u64) -> Map<u64, u64> {
    m.remove_keys(Set::new(|k: u64| k & mask == hash & mask)).insert(hash, w)
}

#[verifier::external_type_specification]
#[verifier::external_body]
#[verifier::reject_recursive_types(T)]
pub struct ExCacheTable<T: Copy + Clone + PartialEq + PartialOrd>(chess::CacheTable<T>);

/// Relies on chess::CacheTable::new: builds a table of `size` slots (`size`
/// a power of two, else it panics), every slot holding hash zero and the
/// default entry, so only hash zero is initially visible to a probe.
#[verifier::external_body]
fn cache_new(size: usize, default: u64) -> (table: chess::CacheTable<u64>)
    requires
        size > 0,
        size & ((size - 1) as usize) == 0,
    ensures
        cache_contents(table) == map![0u64 => default],
        cache_mask(table) == (size - 1) as u64,
{
    chess::CacheTable::new(size, default)
}

/// Relies on chess::CacheTable::get: returns the word in the slot `hash`
/// maps to exactly when that slot was last written under this very hash.
#[verifier::external_body]
fn cache_get(t: &chess::CacheTable<u64>, hash: u64) -> (r: Option<u64>)
    ensures
        r == if cache_contents(*t).contains_key(hash) {
            Some(cache_contents(*t)[hash])
        } else {
            None::<u64>
        },
{
    t.get(hash)
}

/// Relies on chess::CacheTable::add: unconditionally overwrites the slot
/// `hash` maps to with the word and the hash, evicting whatever hash shared
/// that slot.
#[verifier::external_body]
fn cache_add(t: &mut chess::CacheTable<u64>, hash: u64, w: u64)
    ensures
        cache_mask(*final(t)) == cache_mask(*old(t)),
        cache_contents(*final(t)) == store_update(
            cache_contents(*old(t)),
            cache_mask(*old(t)),
            hash,
            w,
        ),
{
    t.add(hash, w)
}

/// What a probe of the table answers, as a function of the visible
/// contents and the queried hash alone.
pub open spec fn probe_view(m: Map<u64, u64>, hash: u64) -> Option<TTEntry> {
    if m.contains_key(hash) {
        Some(decode_spec(hash, m[hash]))
    } else {
        None
    }
}

/// Two table contents agreeing at a key: both hold it with the same word,
/// or neither holds it.
pub open spec fn agree_at(m1: Map<u64, u64>, m2: Map<u64, u64>, k: u64) -> bool {
    (m1.contains_key(k) <==> m2.contains_key(k)) && (m1.contains_key(k) ==> m1[k] == m2[k])
}

/// Two tables that agree on the queried hash answer a probe identically:
/// entries stored under any other hash — stale leftovers from unrelated
/// positions — never influence the answer.
pub proof fn lemma_probe_ignores_stale(m1: Map<u64, u64>, m2: Map<u64, u64>, hash: u64)
    requires
        agree_at(m1, m2, hash),
    ensures
        probe_view(m1, hash) == probe_view(m2, hash),
{
}

/// Writing the same word under the same hash into two tables keeps them
/// agreeing at every key they agreed at.
pub proof fn lemma_store_keeps_agreement(
    m1: Map<u64, u64>,
    m2: Map<u64, u64>,
    mask: u64,
    hash: u64,
    w: u64,
    k: u64,
)
    requires
        agree_at(m1, m2, k),
    ensures
        agree_at(store_update(m1, mask, hash, w), store_update(m2, mask, hash, w), k),
{
}

/// The word every slot of a fresh table holds: a zero score stored exactly
/// at depth zero under hash zero.
pub open spec fn fresh_word() -> u64 {
    encode_spec(TTEntry { score: 0, zobrist_key: 0, depth: 0, flag: TTFlag::Exact })
}

/// Build a fresh transposition table with `size` slots (a power of two),
/// every slot initialized the way the engine's searches expect.
pub fn tt_new(size: usize) -> (t: chess::CacheTable<u64>)
    requires
        size > 0,
        size & ((size - 1) as usize) == 0,
    ensures
        cache_contents(t) == map![0u64 => fresh_word()],
        cache_mask(t) == (size - 1) as u64,
{
    let default = encode_entry(
        &TTEntry { score: 0, zobrist_key: 0, depth: 0, flag: TTFlag::Exact },
    );
    cache_new(size, default)
}

/// Pack a search result for storage.
pub fn encode_entry(e: &TTEntry) -> (w: u64)
    requires
        entry_valid(*e),
    ensures
        w == encode_spec(*e),
{
    let biased: u64 = (e.score + SCORE_INF) as u64;
    let flag_bits: u64 = match e.flag {
        TTFlag::Exact => 0,
        TTFlag::LowerBound => 1,
        TTFlag::UpperBound => 2,
    };
    (biased | ((e.depth as u64) << 16)) | (flag_bits << 24)
}

/// Unpack a stored word read under `hash`.
pub fn decode_entry(hash: u64, w: u64) -> (e: TTEntry)
    ensures
        e == decode_spec(hash, w),
        entry_valid(e),
{
    proof {
        lemma_decode_valid(hash, w);
    }
    let biased: u64 = w & 0xFFFF;
    let score: i32 = if biased > 40000 {
        SCORE_INF
    } else {
        (biased as i32) - SCORE_INF
    };
    let flag_bits: u64 = (w >> 24) & 0xFF;
    TTEntry {
        score,
        zobrist_key: hash,
        depth: ((w >> 16) & 0xFF) as u8,
        flag: if flag_bits == 1 {
            TTFlag::LowerBound
        } else if flag_bits == 2 {
            TTFlag::UpperBound
        } else {
            TTFlag::Exact
        },
    }
}

/// Look up the entry stored under `hash`, if that exact hash is the last
/// writer of its slot.
pub fn tt_probe(tt: &chess::CacheTable<u64>, hash: u64) -> (r: Option<TTEntry>)
    ensures
        r == probe_view(cache_contents(*tt), hash),
        r.is_some() ==> entry_valid(r.unwrap()) && r.unwrap().zobrist_key == hash,
{
    match cache_get(tt, hash) {
        Some(w) => {
            proof {
                lemma_decode_valid(hash, w);
            }
            Some(decode_entry(hash, w))
        },
        None => None,
    }
}

/// Store a search result under `hash`, overwriting whatever occupied its
/// slot.
pub fn tt_store(tt: &mut chess::CacheTable<u64>, hash: u64, depth: u8, score: i32, flag: TTFlag)
    requires
        -SCORE_INF <= score <= SCORE_INF,
    ensures
        cache_mask(*final(tt)) == cache_mask(*old(tt)),
        cache_contents(*final(tt)) == store_update(
            cache_contents(*old(tt)),
            cache_mask(*old(tt)),
            hash,
            encode_spec(TTEntry { score, zobrist_key: hash, depth, flag }),
        ),
{
    let w = encode_entry(&TTEntry { score, zobrist_key: hash, depth, flag });
    cache_add(tt, hash, w);
}

} // verus!
