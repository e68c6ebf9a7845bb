//! The interface the search engine demands of a game-rules backend, and the
//! score conventions shared by every part of the engine.

use vstd::prelude::*;

// The mathematical types the trait's ghost members are written in, under
// names a rules backend outside this crate can spell: such a backend stubs
// the erased ghost members out, and needs their types in its signatures.
pub use vstd::prelude::int as MathInt;
pub use vstd::prelude::nat as MathNat;
pub use vstd::prelude::Seq as MathSeq;

verus! {

/// Sentinel standing in for "infinity" in search windows: strictly wider
/// than any attainable static evaluation, so a full window
/// `(-SCORE_INF, SCORE_INF)` can never cause a false cutoff at the root.
pub const SCORE_INF: i32 = 20000;

/// Every static evaluation of a well-formed position lies within
/// `[-MAX_EVAL, MAX_EVAL]`; kept strictly below `SCORE_INF` so that a real
/// evaluation is never confused with the sentinel.
pub const MAX_EVAL: i32 = 19000;

/// Fail-hard clamping of a score into a search window: the value itself when
/// it lies strictly inside `(lo, hi)`, else the bound it falls on or beyond.
pub open spec fn clamp(v: int, lo: int, hi: int) -> int {
    if v <= lo {
        lo
    } else if v >= hi {
        hi
    } else {
        v
    }
}

/// A game position as the search engine sees it.
///
/// Moves are opaque `u64` codes whose meaning belongs to the backend; the
/// engine only ever hands back a code the backend itself enumerated. Each
/// spec function is the mathematical shadow of the exec method above it, and
/// the lemmas are the obligations a backend must discharge: evaluations stay
/// in range, applying an enumerated move preserves well-formedness, and a
/// capture strictly shrinks the capture measure (so quiescence terminates).
pub trait Position: Sized {
    /// Well-formedness of a position; every other contract assumes it.
    spec fn wf(&self) -> bool;

    /// The static evaluation, from the perspective of the side to move.
    spec fn eval_spec(&self) -> int;

    /// The legal capturing moves, in the backend's enumeration order.
    spec fn captures_spec(&self) -> Seq<u64>;

    /// The remaining (non-capturing) legal moves, in enumeration order.
    spec fn quiets_spec(&self) -> Seq<u64>;

    /// The position reached by playing move `m`.
    spec fn apply_spec(&self, m: u64) -> Self;

    /// The position with the side to move passed, when passing is legal.
    spec fn null_spec(&self) -> Option<Self>;

    /// The position's hash code.
    spec fn hash_spec(&self) -> u64;

    /// A measure that strictly decreases across every capture; it bounds
    /// the length of any capture chain out of this position.
    spec fn qmeasure(&self) -> nat;

    proof fn lemma_eval_bounded(&self)
        requires
            self.wf(),
        ensures
            -(MAX_EVAL as int) <= self.eval_spec() <= MAX_EVAL as int,
    ;

    proof fn lemma_apply_wf(&self, m: u64)
        requires
            self.wf(),
            self.captures_spec().contains(m) || self.quiets_spec().contains(m),
        ensures
            self.apply_spec(m).wf(),
    ;

    proof fn lemma_capture_qmeasure(&self, m: u64)
        requires
            self.wf(),
            self.captures_spec().contains(m),
        ensures
            self.apply_spec(m).qmeasure() < self.qmeasure(),
    ;

    proof fn lemma_null_wf(&self)
        requires
            self.wf(),
            self.null_spec().is_some(),
        ensures
            self.null_spec().unwrap().wf(),
    ;

    /// Statically evaluate the position.
    fn eval(&self) -> (s: i32)
        requires
            self.wf(),
        ensures
            s as int == self.eval_spec(),
    ;

    /// Enumerate the legal capturing moves.
    fn capture_moves(&self) -> (v: Vec<u64>)
        requires
            self.wf(),
        ensures
            v@ == self.captures_spec(),
    ;

    /// Enumerate the remaining legal moves.
    fn quiet_moves(&self) -> (v: Vec<u64>)
        requires
            self.wf(),
        ensures
            v@ == self.quiets_spec(),
    ;

    /// Play an enumerated move, yielding the successor position.
    fn apply(&self, m: u64) -> (q: Self)
        requires
            self.wf(),
            self.captures_spec().contains(m) || self.quiets_spec().contains(m),
        ensures
            q == self.apply_spec(m),
    ;

    /// Pass the move, when the backend can represent that.
    fn null_move(&self) -> (q: Option<Self>)
        requires
            self.wf(),
        ensures
            q == self.null_spec(),
    ;

    /// The position's hash code.
    fn hash(&self) -> (h: u64)
        requires
            self.wf(),
        ensures
            h == self.hash_spec(),
    ;
}

/// All legal moves of a position in search order: captures first, then the
/// quiet moves.
pub open spec fn all_moves<P: Position>(p: P) -> Seq<u64> {
    p.captures_spec() + p.quiets_spec()
}

/// Every entry of `all_moves` is an enumerated capture or an enumerated
/// quiet move, so it may be handed to `Position::apply`.
pub proof fn lemma_all_moves_member<P: Position>(p: P, i: int)
    requires
        0 <= i < all_moves(p).len(),
    ensures
        p.captures_spec().contains(all_moves(p)[i]) || p.quiets_spec().contains(all_moves(p)[i]),
{
    let caps = p.captures_spec();
    let qs = p.quiets_spec();
    if i < caps.len() {
        assert(all_moves(p)[i] == caps[i]);
        assert(caps.contains(all_moves(p)[i]));
    } else {
        assert(all_moves(p)[i] == qs[i - caps.len()]);
        assert(qs.contains(all_moves(p)[i]));
    }
}

} // verus!
