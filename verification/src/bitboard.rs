//! Bitboard helpers: single-bit membership tests and enumeration of the set
//! bits of a 64-bit square-set.

use vstd::prelude::*;

verus! {

/// Whether bit `i` of `bb` is set.
pub open spec fn bit(bb: u64, i: u64) -> bool {
    (bb >> i) & 1 == 1
}

/// The indices below `n` whose bits are set in `bb`, in increasing order.
pub open spec fn mask_seq(bb: u64, n: int) -> Seq<u64>
    decreases n,
{
    if n <= 0 {
        Seq::empty()
    } else if bit(bb, (n - 1) as u64) {
        mask_seq(bb, n - 1) + seq![(n - 1) as u64]
    } else {
        mask_seq(bb, n - 1)
    }
}

/// Membership in `mask_seq` is exactly "index in range and bit set".
pub proof fn lemma_mask_seq_contains(bb: u64, n: int, m: u64)
    requires
        0 <= n <= 64,
    ensures
        mask_seq(bb, n).contains(m) <==> (m < n && bit(bb, m)),
    decreases n,
{
    if n > 0 {
        lemma_mask_seq_contains(bb, n - 1, m);
        let s = mask_seq(bb, n);
        let s0 = mask_seq(bb, n - 1);
        if bit(bb, (n - 1) as u64) {
            if s.contains(m) {
                let i = choose|i: int| 0 <= i < s.len() && s[i] == m;
                if i < s0.len() {
                    assert(s0[i] == m);
                    assert(s0.contains(m));
                } else {
                    assert(m == (n - 1) as u64);
                }
            }
            if m < n && bit(bb, m) {
                if m < n - 1 {
                    let j = choose|j: int| 0 <= j < s0.len() && s0[j] == m;
                    assert(s[j] == m);
                } else {
                    assert(s[s.len() - 1] == m);
                }
                assert(s.contains(m));
            }
        } else {
            assert(s == s0);
            if s.contains(m) {
                assert(m < n - 1 && bit(bb, m));
            }
        }
    }
}

/// Enumerate the set bits of `bb`, in increasing order.
pub fn bits_of(bb: u64) -> (v: Vec<u64>)
    ensures
        v@ == mask_seq(bb, 64),
{
    let mut v: Vec<u64> = Vec::new();
    let mut i: u64 = 0;
    while i < 64
        invariant
            i <= 64,
            v@ == mask_seq(bb, i as int),
        decreases 64 - i,
    {
        if (bb >> i) & 1 == 1 {
            v.push(i);
        }
        i = i + 1;
    }
    v
}

} // verus!
