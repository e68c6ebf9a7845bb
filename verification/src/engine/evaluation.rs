//! Static board evaluation: material counts plus piece-square tables, from
//! the perspective of the side to move.
//!
//! The board arrives as plain bitboards — one 64-bit square-set per piece
//! type and color — so the whole computation is arithmetic on words. One
//! table per piece type is stored, in white's orientation; black reads the
//! same table through the vertical mirror (rank flipped, file kept), which
//! is also what makes the color-mirror symmetry of the evaluation a theorem
//! rather than a property of eight separate arrays.

use vstd::prelude::*;

use crate::bitboard::bit;

verus! {

/// The piece bitboards of a position, with the side to move.
#[derive(Clone, Copy, PartialEq, Eq, Structural)]
pub struct PieceBitboards {
    pub white_pawns: u64,
    pub black_pawns: u64,
    pub white_knights: u64,
    pub black_knights: u64,
    pub white_bishops: u64,
    pub black_bishops: u64,
    pub white_rooks: u64,
    pub black_rooks: u64,
    pub white_queens: u64,
    pub black_queens: u64,
    pub white_to_move: bool,
}

pub const PAWN_SQUARES: [i8; 64] = [
    0, 0, 0, 0, 0, 0, 0, 0, 5, 10, 10, -20, -20, 10, 10, 5, 5, -5, -10, 0, 0, -10, -5, 5, 0, 0, 0,
    20, 20, 0, 0, 0, 5, 5, 10, 25, 25, 10, 5, 5, 10, 10, 20, 30, 30, 20, 10, 10, 50, 50, 50, 50,
    50, 50, 50, 50, 0, 0, 0, 0, 0, 0, 0, 0,
];

pub const KNIGHT_SQUARES: [i8; 64] = [
    -50, -40, -30, -30, -30, -30, -40, -50, -40, -20, 0, 5, 5, 0, -20, -40, -30, 5, 10, 15, 15,
    10, 5, -30, -30, 0, 15, 20, 20, 15, 0, -30, -30, 5, 15, 20, 20, 15, 5, -30, -30, 0, 10, 15,
    15, 10, 0, -30, -40, -20, 0, 0, 0, 0, -20, -40, -50, -40, -30, -30, -30, -30, -40, -50,
];

pub const BISHOP_SQUARES: [i8; 64] = [
    -20, -10, -10, -10, -10, -10, -10, -20, -10, 5, 0, 0, 0, 0, 5, -10, -10, 10, 10, 10, 10, 10,
    10, -10, -10, 0, 10, 10, 10, 10, 0, -10, -10, 5, 5, 10, 10, 5, 5, -10, -10, 0, 5, 10, 10, 5,
    0, -10, -10, 0, 0, 0, 0, 0, 0, -10, -20, -10, -10, -10, -10, -10, -10, -20,
];

pub const ROOK_SQUARES: [i8; 64] = [
    0, 0, 0, 5, 5, 0, 0, 0, -5, 0, 0, 0, 0, 0, 0, -5, -5, 0, 0, 0, 0, 0, 0, -5, -5, 0, 0, 0, 0,
    0, 0, -5, -5, 0, 0, 0, 0, 0, 0, -5, -5, 0, 0, 0, 0, 0, 0, -5, 5, 10, 10, 10, 10, 10, 10, 5,
    0, 0, 0, 0, 0, 0, 0, 0,
];

/// The number of set bits of `bb` with index in `[lo, hi)`.
pub open spec fn pcount(bb: u64, lo: int, hi: int) -> int
    decreases hi - lo,
{
    if hi <= lo {
        0
    } else {
        pcount(bb, lo, hi - 1) + if bit(bb, (hi - 1) as u64) {
            1int
        } else {
            0int
        }
    }
}

/// The sum of `t[j]` over the set bits `j` of `bb` with `lo <= j < hi`.
pub open spec fn psum(bb: u64, t: Seq<i8>, lo: int, hi: int) -> int
    decreases hi - lo,
{
    if hi <= lo {
        0
    } else {
        psum(bb, t, lo, hi - 1) + if bit(bb, (hi - 1) as u64) {
            t[hi - 1] as int
        } else {
            0int
        }
    }
}

/// The same sum with the table read through the vertical mirror: `t[j ^ 56]`
/// over the set bits `j` of `bb`.
pub open spec fn mirror_psum(bb: u64, t: Seq<i8>, lo: int, hi: int) -> int
    decreases hi - lo,
{
    if hi <= lo {
        0
    } else {
        mirror_psum(bb, t, lo, hi - 1) + if bit(bb, (hi - 1) as u64) {
            t[(((hi - 1) as u64) ^ 56) as int] as int
        } else {
            0int
        }
    }
}

/// A bit count lies between zero and the width of its range.
pub proof fn lemma_pcount_range(bb: u64, lo: int, hi: int)
    requires
        lo <= hi,
    ensures
        0 <= pcount(bb, lo, hi) <= hi - lo,
    decreases hi - lo,
{
    if lo < hi {
        lemma_pcount_range(bb, lo, hi - 1);
    }
}

/// A table sum is bounded by the extreme table values times the width of
/// its range.
pub proof fn lemma_psum_range(bb: u64, t: Seq<i8>, lo: int, hi: int)
    requires
        lo <= hi,
    ensures
        -128 * (hi - lo) <= psum(bb, t, lo, hi) <= 127 * (hi - lo),
    decreases hi - lo,
{
    if lo < hi {
        lemma_psum_range(bb, t, lo, hi - 1);
    }
}

/// So is a mirrored table sum.
pub proof fn lemma_mirror_psum_range(bb: u64, t: Seq<i8>, lo: int, hi: int)
    requires
        lo <= hi,
    ensures
        -128 * (hi - lo) <= mirror_psum(bb, t, lo, hi) <= 127 * (hi - lo),
    decreases hi - lo,
{
    if lo < hi {
        lemma_mirror_psum_range(bb, t, lo, hi - 1);
    }
}

/// The material balance, in white's favor: pawn 100, knight 320, bishop
/// 330, rook 500, queen 900; kings carry no material term.
pub open spec fn material_score(b: PieceBitboards) -> int {
    (pcount(b.white_pawns, 0, 64) - pcount(b.black_pawns, 0, 64)) * 100 + (pcount(
        b.white_knights,
        0,
        64,
    ) - pcount(b.black_knights, 0, 64)) * 320 + (pcount(b.white_bishops, 0, 64) - pcount(
        b.black_bishops,
        0,
        64,
    )) * 330 + (pcount(b.white_rooks, 0, 64) - pcount(b.black_rooks, 0, 64)) * 500 + (pcount(
        b.white_queens,
        0,
        64,
    ) - pcount(b.black_queens, 0, 64)) * 900
}

/// The positional balance, in white's favor: piece-square bonuses for
/// pawns, knights, bishops and rooks; queens and kings have no table.
pub open spec fn positional_score(b: PieceBitboards) -> int {
    psum(b.white_pawns, PAWN_SQUARES@, 0, 64) - mirror_psum(b.black_pawns, PAWN_SQUARES@, 0, 64)
        + psum(b.white_knights, KNIGHT_SQUARES@, 0, 64) - mirror_psum(
        b.black_knights,
        KNIGHT_SQUARES@,
        0,
        64,
    ) + psum(b.white_bishops, BISHOP_SQUARES@, 0, 64) - mirror_psum(
        b.black_bishops,
        BISHOP_SQUARES@,
        0,
        64,
    ) + psum(b.white_rooks, ROOK_SQUARES@, 0, 64) - mirror_psum(
        b.black_rooks,
        ROOK_SQUARES@,
        0,
        64,
    )
}

/// The full static evaluation: material plus positional balance, negated
/// when black is to move, so the score is always from the perspective of
/// the side about to move.
pub open spec fn board_eval(b: PieceBitboards) -> int {
    (material_score(b) + positional_score(b)) * (if b.white_to_move {
        1int
    } else {
        -1int
    })
}

/// Count the pieces on a square-set.
pub fn popcount(bb: u64) -> (c: i32)
    ensures
        c as int == pcount(bb, 0, 64),
        0 <= c <= 64,
{
    proof {
        lemma_pcount_range(bb, 0, 64);
    }
    let mut c: i32 = 0;
    let mut i: usize = 0;
    while i < 64
        invariant
            i <= 64,
            c as int == pcount(bb, 0, i as int),
            0 <= c <= i,
        decreases 64 - i,
    {
        proof {
            lemma_pcount_range(bb, 0, i as int);
        }
        if (bb >> (i as u64)) & 1 == 1 {
            c = c + 1;
        }
        i = i + 1;
    }
    c
}

/// Evaluate piece positions as specified in a piece-square table: the sum
/// of the table entries on the occupied squares.
pub fn positional_evaluation(pieces: u64, piece_square_table: &[i8; 64]) -> (sum: i32)
    ensures
        sum as int == psum(pieces, piece_square_table@, 0, 64),
{
    let mut sum: i32 = 0;
    let mut i: usize = 0;
    while i < 64
        invariant
            i <= 64,
            sum as int == psum(pieces, piece_square_table@, 0, i as int),
            -128 * (i as int) <= sum as int <= 127 * (i as int),
        decreases 64 - i,
    {
        proof {
            lemma_psum_range(pieces, piece_square_table@, 0, i as int);
        }
        if (pieces >> (i as u64)) & 1 == 1 {
            sum = sum + (piece_square_table[i] as i32);
        }
        i = i + 1;
    }
    sum
}

/// The same, with the table read through the vertical mirror: how black's
/// pieces are scored against a table stored in white's orientation.
pub fn mirror_positional_evaluation(pieces: u64, piece_square_table: &[i8; 64]) -> (sum: i32)
    ensures
        sum as int == mirror_psum(pieces, piece_square_table@, 0, 64),
{
    let mut sum: i32 = 0;
    let mut i: usize = 0;
    while i < 64
        invariant
            i <= 64,
            sum as int == mirror_psum(pieces, piece_square_table@, 0, i as int),
            -128 * (i as int) <= sum as int <= 127 * (i as int),
        decreases 64 - i,
    {
        proof {
            lemma_mirror_psum_range(pieces, piece_square_table@, 0, i as int);
        }
        if (pieces >> (i as u64)) & 1 == 1 {
            let mi = (i as u64) ^ 56;
            proof {
                assert((i as u64) < 64 ==> ((i as u64) ^ 56) < 64) by (bit_vector);
            }
            sum = sum + (piece_square_table[mi as usize] as i32);
        }
        i = i + 1;
    }
    sum
}

/// Evaluate the board as seen from the perspective of the player whose
/// side it is to move: material and piece-square terms for both colors,
/// negated when black is the mover.
pub fn evaluate_board(board: &PieceBitboards) -> (score: i32)
    ensures
        score as int == board_eval(*board),
{
    let side: i32 = if board.white_to_move {
        1
    } else {
        -1
    };
    let white_pawns = popcount(board.white_pawns);
    let black_pawns = popcount(board.black_pawns);
    let white_knights = popcount(board.white_knights);
    let black_knights = popcount(board.black_knights);
    let white_bishops = popcount(board.white_bishops);
    let black_bishops = popcount(board.black_bishops);
    let white_rooks = popcount(board.white_rooks);
    let black_rooks = popcount(board.black_rooks);
    let white_queens = popcount(board.white_queens);
    let black_queens = popcount(board.black_queens);

    proof {
        lemma_psum_range(board.white_pawns, PAWN_SQUARES@, 0, 64);
        lemma_mirror_psum_range(board.black_pawns, PAWN_SQUARES@, 0, 64);
        lemma_psum_range(board.white_knights, KNIGHT_SQUARES@, 0, 64);
        lemma_mirror_psum_range(board.black_knights, KNIGHT_SQUARES@, 0, 64);
        lemma_psum_range(board.white_bishops, BISHOP_SQUARES@, 0, 64);
        lemma_mirror_psum_range(board.black_bishops, BISHOP_SQUARES@, 0, 64);
        lemma_psum_range(board.white_rooks, ROOK_SQUARES@, 0, 64);
        lemma_mirror_psum_range(board.black_rooks, ROOK_SQUARES@, 0, 64);
    }
    let mut positional_value: i32 = 0;
    positional_value = positional_value - mirror_positional_evaluation(
        board.black_pawns,
        &PAWN_SQUARES,
    );
    positional_value = positional_value + positional_evaluation(board.white_pawns, &PAWN_SQUARES);
    positional_value = positional_value - mirror_positional_evaluation(
        board.black_knights,
        &KNIGHT_SQUARES,
    );
    positional_value = positional_value + positional_evaluation(
        board.white_knights,
        &KNIGHT_SQUARES,
    );
    positional_value = positional_value - mirror_positional_evaluation(
        board.black_bishops,
        &BISHOP_SQUARES,
    );
    positional_value = positional_value + positional_evaluation(
        board.white_bishops,
        &BISHOP_SQUARES,
    );
    positional_value = positional_value - mirror_positional_evaluation(
        board.black_rooks,
        &ROOK_SQUARES,
    );
    positional_value = positional_value + positional_evaluation(board.white_rooks, &ROOK_SQUARES);

    ((white_pawns - black_pawns) * 100 + (white_knights - black_knights) * 320 + (white_bishops
        - black_bishops) * 330 + (white_rooks - black_rooks) * 500 + (white_queens - black_queens)
        * 900 + positional_value) * side
}

/// The vertical mirror of a square-set: rank flipped, file kept, so byte
/// `k` becomes byte `7 - k`.
pub open spec fn vflip(bb: u64) -> u64 {
    ((bb & 0xFF) << 56) | (((bb >> 8) & 0xFF) << 48) | (((bb >> 16) & 0xFF) << 40) | (((bb >> 24)
        & 0xFF) << 32) | (((bb >> 32) & 0xFF) << 24) | (((bb >> 40) & 0xFF) << 16) | (((bb >> 48)
        & 0xFF) << 8) | ((bb >> 56) & 0xFF)
}

/// Bit `j` of the mirror is bit `j ^ 56` of the original.
pub proof fn lemma_bit_vflip(bb: u64, j: u64)
    requires
        j < 64,
    ensures
        bit(vflip(bb), j) == bit(bb, j ^ 56),
{
    assert(j < 64 ==> ((((bb & 0xFF) << 56) | (((bb >> 8) & 0xFF) << 48) | (((bb >> 16) & 0xFF)
        << 40) | (((bb >> 24) & 0xFF) << 32) | (((bb >> 32) & 0xFF) << 24) | (((bb >> 40) & 0xFF)
        << 16) | (((bb >> 48) & 0xFF) << 8) | ((bb >> 56) & 0xFF)) >> j) & 1 == (bb >> (j ^ 56))
        & 1) by (bit_vector);
}

proof fn lemma_pcount_transfer(x: u64, y: u64, lox: int, loy: int, len: int)
    requires
        0 <= lox,
        0 <= loy,
        0 <= len,
        forall|u: int| 0 <= u < len ==> #[trigger] bit(x, (lox + u) as u64) == bit(y, (loy + u) as u64),
    ensures
        pcount(x, lox, lox + len) == pcount(y, loy, loy + len),
    decreases len,
{
    if len > 0 {
        lemma_pcount_transfer(x, y, lox, loy, len - 1);
        assert(bit(x, (lox + len - 1) as u64) == bit(y, (loy + len - 1) as u64));
    }
}

proof fn lemma_pcount_split(bb: u64, lo: int, mid: int, hi: int)
    requires
        lo <= mid <= hi,
    ensures
        pcount(bb, lo, hi) == pcount(bb, lo, mid) + pcount(bb, mid, hi),
    decreases hi - mid,
{
    if mid < hi {
        lemma_pcount_split(bb, lo, mid, hi - 1);
    }
}

proof fn lemma_vflip_byte_bits(bb: u64, k: int)
    requires
        0 <= k < 8,
    ensures
        forall|u: int|
            0 <= u < 8 ==> #[trigger] bit(vflip(bb), (8 * k + u) as u64) == bit(
                bb,
                (56 - 8 * k + u) as u64,
            ),
{
    assert forall|u: int|
        0 <= u < 8 implies #[trigger] bit(vflip(bb), (8 * k + u) as u64) == bit(
        bb,
        (56 - 8 * k + u) as u64,
    ) by {
        let kk = k as u64;
        let uu = u as u64;
        lemma_bit_vflip(bb, (8 * k + u) as u64);
        assert(kk < 8 && uu < 8 ==> (((8 * kk + uu) as u64) ^ 56) == 56 - 8 * kk + uu)
            by (bit_vector);
        assert((8 * k + u) as u64 == (8 * kk + uu) as u64);
    }
}

proof fn lemma_pcount_vflip_assemble(bb: u64, k: int)
    requires
        0 <= k <= 8,
    ensures
        pcount(vflip(bb), 0, 8 * k) == pcount(bb, 64 - 8 * k, 64),
    decreases k,
{
    if k > 0 {
        lemma_pcount_vflip_assemble(bb, k - 1);
        lemma_vflip_byte_bits(bb, k - 1);
        lemma_pcount_transfer(vflip(bb), bb, 8 * (k - 1), 56 - 8 * (k - 1), 8);
        lemma_pcount_split(vflip(bb), 0, 8 * (k - 1), 8 * k);
        lemma_pcount_split(bb, 64 - 8 * k, 64 - 8 * (k - 1), 64);
    }
}

/// Mirroring a square-set does not change how many pieces stand on it.
pub proof fn lemma_pcount_vflip(bb: u64)
    ensures
        pcount(vflip(bb), 0, 64) == pcount(bb, 0, 64),
{
    lemma_pcount_vflip_assemble(bb, 8);
}

proof fn lemma_psum_transfer(x: u64, y: u64, tx: Seq<i8>, ty: Seq<i8>, lox: int, loy: int, len: int)
    requires
        0 <= lox,
        0 <= loy,
        0 <= len,
        forall|u: int| 0 <= u < len ==> #[trigger] bit(x, (lox + u) as u64) == bit(y, (loy + u) as u64),
        forall|u: int| 0 <= u < len ==> #[trigger] tx[lox + u] == ty[loy + u],
    ensures
        psum(x, tx, lox, lox + len) == psum(y, ty, loy, loy + len),
    decreases len,
{
    if len > 0 {
        lemma_psum_transfer(x, y, tx, ty, lox, loy, len - 1);
        assert(bit(x, (lox + len - 1) as u64) == bit(y, (loy + len - 1) as u64));
        assert(tx[lox + len - 1] == ty[loy + len - 1]);
    }
}

proof fn lemma_psum_split(bb: u64, t: Seq<i8>, lo: int, mid: int, hi: int)
    requires
        lo <= mid <= hi,
    ensures
        psum(bb, t, lo, hi) == psum(bb, t, lo, mid) + psum(bb, t, mid, hi),
    decreases hi - mid,
{
    if mid < hi {
        lemma_psum_split(bb, t, lo, mid, hi - 1);
    }
}

/// The table as black reads it: entry `i` is the original's entry `i ^ 56`.
pub open spec fn mirror_table(t: Seq<i8>) -> Seq<i8> {
    Seq::new(64, |i: int| t[((i as u64) ^ 56) as int])
}

proof fn lemma_mirror_psum_as_psum(bb: u64, t: Seq<i8>, lo: int, hi: int)
    requires
        0 <= lo <= hi <= 64,
    ensures
        mirror_psum(bb, t, lo, hi) == psum(bb, mirror_table(t), lo, hi),
    decreases hi - lo,
{
    if lo < hi {
        lemma_mirror_psum_as_psum(bb, t, lo, hi - 1);
        assert(mirror_table(t)[hi - 1] == t[(((hi - 1) as u64) ^ 56) as int]);
    }
}

proof fn lemma_psum_vflip_assemble(bb: u64, t: Seq<i8>, k: int)
    requires
        0 <= k <= 8,
        t.len() == 64,
    ensures
        psum(vflip(bb), t, 0, 8 * k) == psum(bb, mirror_table(t), 64 - 8 * k, 64),
    decreases k,
{
    if k > 0 {
        lemma_psum_vflip_assemble(bb, t, k - 1);
        lemma_vflip_byte_bits(bb, k - 1);
        assert forall|u: int|
            0 <= u < 8 implies #[trigger] t[8 * (k - 1) + u] == mirror_table(t)[56 - 8 * (k - 1)
            + u] by {
            let kk = (k - 1) as u64;
            let uu = u as u64;
            assert(kk < 8 && uu < 8 ==> (((56 - 8 * kk + uu) as u64) ^ 56) == 8 * kk + uu)
                by (bit_vector);
            assert(mirror_table(t)[56 - 8 * (k - 1) + u] == t[(((56 - 8 * (k - 1) + u) as u64)
                ^ 56) as int]);
            assert((56 - 8 * (k - 1) + u) as u64 == (56 - 8 * kk + uu) as u64);
        }
        lemma_psum_transfer(
            vflip(bb),
            bb,
            t,
            mirror_table(t),
            8 * (k - 1),
            56 - 8 * (k - 1),
            8,
        );
        lemma_psum_split(vflip(bb), t, 0, 8 * (k - 1), 8 * k);
        lemma_psum_split(bb, mirror_table(t), 64 - 8 * k, 64 - 8 * (k - 1), 64);
    }
}

/// Scoring a mirrored square-set against a table is scoring the original
/// set against the table read through the mirror.
pub proof fn lemma_psum_vflip(bb: u64, t: Seq<i8>)
    requires
        t.len() == 64,
    ensures
        psum(vflip(bb), t, 0, 64) == mirror_psum(bb, t, 0, 64),
{
    lemma_psum_vflip_assemble(bb, t, 8);
    lemma_mirror_psum_as_psum(bb, t, 0, 64);
}

proof fn lemma_mirror_table_involutive(t: Seq<i8>)
    requires
        t.len() == 64,
    ensures
        mirror_table(mirror_table(t)) == t,
{
    assert forall|i: int| 0 <= i < 64 implies mirror_table(mirror_table(t))[i] == t[i] by {
        let ii = i as u64;
        assert(ii < 64 ==> ((ii ^ 56) ^ 56) == ii && (ii ^ 56) < 64) by (bit_vector);
        assert(mirror_table(mirror_table(t))[i] == mirror_table(t)[((i as u64) ^ 56) as int]);
        assert(mirror_table(t)[((i as u64) ^ 56) as int] == t[((((i as u64) ^ 56) as u64)
            ^ 56) as int]);
    }
    assert(mirror_table(mirror_table(t)) =~= t);
}

/// And the other way round: reading the table through the mirror while
/// also mirroring the square-set is the plain score of the original.
pub proof fn lemma_mirror_psum_vflip(bb: u64, t: Seq<i8>)
    requires
        t.len() == 64,
    ensures
        mirror_psum(vflip(bb), t, 0, 64) == psum(bb, t, 0, 64),
{
    lemma_mirror_psum_as_psum(vflip(bb), t, 0, 64);
    lemma_psum_vflip(bb, mirror_table(t));
    lemma_mirror_psum_as_psum(bb, mirror_table(t), 0, 64);
    lemma_mirror_table_involutive(t);
}

/// The color-mirrored counterpart of a board: colors swapped, every
/// square-set vertically flipped, and the side to move swapped.
pub open spec fn mirrored(b: PieceBitboards) -> PieceBitboards {
    PieceBitboards {
        white_pawns: vflip(b.black_pawns),
        black_pawns: vflip(b.white_pawns),
        white_knights: vflip(b.black_knights),
        black_knights: vflip(b.white_knights),
        white_bishops: vflip(b.black_bishops),
        black_bishops: vflip(b.white_bishops),
        white_rooks: vflip(b.black_rooks),
        black_rooks: vflip(b.white_rooks),
        white_queens: vflip(b.black_queens),
        black_queens: vflip(b.white_queens),
        white_to_move: !b.white_to_move,
    }
}

/// Evaluation symmetry: a position and its color-mirrored counterpart —
/// board flipped, colors swapped, side to move swapped — evaluate to the
/// same score, since the score is always taken from the mover's
/// perspective.
pub proof fn lemma_eval_mirror(b: PieceBitboards)
    ensures
        board_eval(mirrored(b)) == board_eval(b),
{
    lemma_pcount_vflip(b.white_pawns);
    lemma_pcount_vflip(b.black_pawns);
    lemma_pcount_vflip(b.white_knights);
    lemma_pcount_vflip(b.black_knights);
    lemma_pcount_vflip(b.white_bishops);
    lemma_pcount_vflip(b.black_bishops);
    lemma_pcount_vflip(b.white_rooks);
    lemma_pcount_vflip(b.black_rooks);
    lemma_pcount_vflip(b.white_queens);
    lemma_pcount_vflip(b.black_queens);
    assert(PAWN_SQUARES@.len() == 64);
    assert(KNIGHT_SQUARES@.len() == 64);
    assert(BISHOP_SQUARES@.len() == 64);
    assert(ROOK_SQUARES@.len() == 64);
    lemma_psum_vflip(b.black_pawns, PAWN_SQUARES@);
    lemma_mirror_psum_vflip(b.white_pawns, PAWN_SQUARES@);
    lemma_psum_vflip(b.black_knights, KNIGHT_SQUARES@);
    lemma_mirror_psum_vflip(b.white_knights, KNIGHT_SQUARES@);
    lemma_psum_vflip(b.black_bishops, BISHOP_SQUARES@);
    lemma_mirror_psum_vflip(b.white_bishops, BISHOP_SQUARES@);
    lemma_psum_vflip(b.black_rooks, ROOK_SQUARES@);
    lemma_mirror_psum_vflip(b.white_rooks, ROOK_SQUARES@);
    assert(material_score(mirrored(b)) == -material_score(b));
    assert(positional_score(mirrored(b)) == -positional_score(b));
    let m = material_score(b) + positional_score(b);
    assert(material_score(mirrored(b)) + positional_score(mirrored(b)) == -m);
    if b.white_to_move {
        assert(board_eval(b) == m * 1);
        assert(board_eval(mirrored(b)) == (-m) * -1);
    } else {
        assert(board_eval(b) == m * -1);
        assert(board_eval(mirrored(b)) == (-m) * 1);
    }
}

proof fn lemma_pcount_empty(lo: int, hi: int)
    requires
        lo <= hi,
    ensures
        pcount(0u64, lo, hi) == 0,
    decreases hi - lo,
{
    if lo < hi {
        lemma_pcount_empty(lo, hi - 1);
        let j = (hi - 1) as u64;
        assert((0u64 >> j) & 1 == 0) by (bit_vector);
    }
}

proof fn lemma_psum_empty(t: Seq<i8>, lo: int, hi: int)
    requires
        lo <= hi,
    ensures
        psum(0u64, t, lo, hi) == 0,
        mirror_psum(0u64, t, lo, hi) == 0,
    decreases hi - lo,
{
    if lo < hi {
        lemma_psum_empty(t, lo, hi - 1);
        let j = (hi - 1) as u64;
        assert((0u64 >> j) & 1 == 0) by (bit_vector);
    }
}

/// Material-only sanity: on a board holding nothing but the kings and one
/// white queen, the evaluation is exactly a queen in white's favor —
/// positive when white is to move, negative when black is. Kings carry no
/// material or positional term, so they do not appear in the bitboards the
/// evaluator reads.
pub proof fn lemma_eval_lone_queen(b: PieceBitboards)
    requires
        pcount(b.white_queens, 0, 64) == 1,
        b.white_pawns == 0,
        b.black_pawns == 0,
        b.white_knights == 0,
        b.black_knights == 0,
        b.white_bishops == 0,
        b.black_bishops == 0,
        b.white_rooks == 0,
        b.black_rooks == 0,
        b.black_queens == 0,
    ensures
        b.white_to_move ==> board_eval(b) == 900,
        !b.white_to_move ==> board_eval(b) == -900,
{
    lemma_pcount_empty(0, 64);
    lemma_psum_empty(PAWN_SQUARES@, 0, 64);
    lemma_psum_empty(KNIGHT_SQUARES@, 0, 64);
    lemma_psum_empty(BISHOP_SQUARES@, 0, 64);
    lemma_psum_empty(ROOK_SQUARES@, 0, 64);
    assert(material_score(b) == 900);
    assert(positional_score(b) == 0);
    if b.white_to_move {
        assert(board_eval(b) == 900 * 1);
    } else {
        assert(board_eval(b) == 900 * -1);
    }
}

} // verus!
