//! The plain engine: NegaMax with alpha-beta pruning and capture-first move
//! ordering, with the static evaluation at the horizon. Its central theorem
//! is that pruning is invisible: within any window the search returns
//! exactly the exhaustive NegaMax value clamped to that window, so with a
//! full window it returns the exhaustive value itself.

use vstd::prelude::*;

use crate::engine::evaluation::{material_score, popcount, PieceBitboards};
use crate::position::{all_moves, clamp, lemma_all_moves_member, Position, SCORE_INF};

verus! {

/// The material-only evaluation, from the perspective of the side to move:
/// the piece-value balance with no positional term.
pub open spec fn material_eval(b: PieceBitboards) -> int {
    material_score(b) * (if b.white_to_move {
        1int
    } else {
        -1int
    })
}

/// Evaluate the board as seen from the perspective of the player whose side
/// it is to move, counting material alone.
pub fn evaluate_board(board: &PieceBitboards) -> (score: i32)
    ensures
        score as int == material_eval(*board),
{
    let side: i32 = if board.white_to_move {
        1
    } else {
        -1
    };
    let white_pawns = popcount(board.white_pawns);
    let black_pawns = popcount(board.black_pawns);
    let white_knights = popcount(board.white_knights);
    let black_knights = popcount(board.black_knights);
    let white_bishops = popcount(board.white_bishops);
    let black_bishops = popcount(board.black_bishops);
    let white_rooks = popcount(board.white_rooks);
    let black_rooks = popcount(board.black_rooks);
    let white_queens = popcount(board.white_queens);
    let black_queens = popcount(board.black_queens);
    ((white_pawns - black_pawns) * 100 + (white_knights - black_knights) * 320 + (white_bishops
        - black_bishops) * 330 + (white_rooks - black_rooks) * 500 + (white_queens - black_queens)
        * 900) * side
}

/// The exhaustive NegaMax value of a position: the static evaluation at
/// depth zero, otherwise the best over all legal moves of the negated value
/// of the successor at one less depth. A position whose side to move has no
/// legal moves takes the value `-SCORE_INF` — checkmate and stalemate
/// alike, since the engine scores a move-less node only through the bounds
/// it was entered with and never tells the two apart.
pub open spec fn negamax<P: Position>(p: P, depth: nat) -> int
    decreases depth, 1nat, 0nat,
{
    if depth == 0 {
        p.eval_spec()
    } else {
        best_upto(p, all_moves(p), all_moves(p).len() as int, (depth - 1) as nat)
    }
}

/// The largest negated child value over the first `i` moves of `ms`, each
/// child valued at depth `depth`; `-SCORE_INF` over no moves.
pub open spec fn best_upto<P: Position>(p: P, ms: Seq<u64>, i: int, depth: nat) -> int
    decreases depth + 1, 0nat, i,
{
    if i <= 0 {
        -(SCORE_INF as int)
    } else {
        vstd::math::max(
            best_upto(p, ms, i - 1, depth),
            -negamax(p.apply_spec(ms[i - 1]), depth),
        )
    }
}

/// Taking more moves into account can only improve the best value.
pub proof fn lemma_best_upto_mono<P: Position>(p: P, ms: Seq<u64>, i: int, k: int, depth: nat)
    requires
        i <= k,
    ensures
        best_upto(p, ms, i, depth) <= best_upto(p, ms, k, depth),
    decreases k - i,
{
    if i < k {
        lemma_best_upto_mono(p, ms, i, k - 1, depth);
    }
}

/// The NegaMax value of a well-formed position never escapes the sentinel
/// window `[-SCORE_INF, SCORE_INF]`.
pub proof fn lemma_negamax_in_window<P: Position>(p: P, depth: nat)
    requires
        p.wf(),
    ensures
        -(SCORE_INF as int) <= negamax(p, depth) <= SCORE_INF as int,
    decreases depth, 1nat, 0nat,
{
    if depth == 0 {
        p.lemma_eval_bounded();
    } else {
        lemma_best_upto_in_window(p, all_moves(p).len() as int, (depth - 1) as nat);
    }
}

/// Alpha-beta equivalence: the NegaMax value never escapes the sentinel
/// window, so there the clamp is the identity — a pruning search of a
/// well-formed position with the full window returns exactly the value of
/// the exhaustive, unpruned NegaMax search of the same depth.
pub proof fn lemma_full_window_equivalence<P: Position>(p: P, depth: nat)
    requires
        p.wf(),
    ensures
        clamp(negamax(p, depth), -(SCORE_INF as int), SCORE_INF as int) == negamax(p, depth),
{
    lemma_negamax_in_window(p, depth);
}

proof fn lemma_best_upto_in_window<P: Position>(p: P, i: int, depth: nat)
    requires
        p.wf(),
        i <= all_moves(p).len(),
    ensures
        -(SCORE_INF as int) <= best_upto(p, all_moves(p), i, depth) <= SCORE_INF as int,
    decreases depth + 1, 0nat, i,
{
    if i > 0 {
        lemma_best_upto_in_window(p, i - 1, depth);
        lemma_all_moves_member(p, i - 1);
        p.lemma_apply_wf(all_moves(p)[i - 1]);
        lemma_negamax_in_window(p.apply_spec(all_moves(p)[i - 1]), depth);
    }
}

/// Search the move tree below `board` with a NegaMax strategy and alpha-beta
/// pruning, capturing moves iterated first, the static evaluation at the
/// horizon. Within the window the result is exactly the exhaustive NegaMax
/// value; a value at or beyond a bound is reported as that bound.
pub fn alpha_beta_nega<P: Position>(board: &P, depth: u8, alpha: i32, beta: i32) -> (r: i32)
    requires
        board.wf(),
        -SCORE_INF <= alpha,
        alpha < beta,
        beta <= SCORE_INF,
    ensures
        depth == 0 ==> r as int == negamax(*board, depth as nat),
        depth >= 1 ==> r as int == clamp(negamax(*board, depth as nat), alpha as int, beta as int),
    decreases depth,
{
    if depth == 0 {
        return board.eval();
    }
    let caps = board.capture_moves();
    let quiets = board.quiet_moves();
    let ghost ms = all_moves(*board);
    let ghost d = (depth - 1) as nat;
    let mut new_alpha = alpha;
    let mut i: usize = 0;
    while i < caps.len()
        invariant
            board.wf(),
            depth >= 1,
            caps@ == board.captures_spec(),
            quiets@ == board.quiets_spec(),
            ms == all_moves(*board),
            d == (depth - 1) as nat,
            i <= caps.len(),
            -SCORE_INF <= alpha,
            alpha <= new_alpha,
            (new_alpha as int) < beta as int,
            beta <= SCORE_INF,
            new_alpha as int == vstd::math::max(alpha as int, best_upto(*board, ms, i as int, d)),
            best_upto(*board, ms, i as int, d) < beta as int,
        decreases caps.len() - i,
    {
        let m = caps[i];
        proof {
            assert(ms[i as int] == caps@[i as int]);
            assert(board.captures_spec().contains(m));
            board.lemma_apply_wf(m);
        }
        let child = board.apply(m);
        let ghost w = negamax(board.apply_spec(m), d);
        proof {
            if depth == 1 {
                child.lemma_eval_bounded();
            }
        }
        let t = alpha_beta_nega(&child, depth - 1, -beta, -new_alpha);
        let s = -t;
        proof {
            assert(s as int == clamp(-w, new_alpha as int, beta as int) || s as int == -w);
        }
        if s >= beta {
            proof {
                assert(-w >= beta as int);
                assert(best_upto(*board, ms, i + 1, d) >= beta as int);
                lemma_best_upto_mono(*board, ms, i + 1, ms.len() as int, d);
            }
            return beta;
        }
        if s > new_alpha {
            new_alpha = s;
        }
        proof {
            assert(-w < beta as int);
            assert(best_upto(*board, ms, i + 1, d) == vstd::math::max(
                best_upto(*board, ms, i as int, d),
                -w,
            ));
        }
        i = i + 1;
    }
    let mut j: usize = 0;
    while j < quiets.len()
        invariant
            board.wf(),
            depth >= 1,
            caps@ == board.captures_spec(),
            quiets@ == board.quiets_spec(),
            ms == all_moves(*board),
            d == (depth - 1) as nat,
            j <= quiets.len(),
            -SCORE_INF <= alpha,
            alpha <= new_alpha,
            (new_alpha as int) < beta as int,
            beta <= SCORE_INF,
            new_alpha as int == vstd::math::max(
                alpha as int,
                best_upto(*board, ms, caps@.len() + j as int, d),
            ),
            best_upto(*board, ms, caps@.len() + j as int, d) < beta as int,
        decreases quiets.len() - j,
    {
        let m = quiets[j];
        let ghost g = caps@.len() + j as int;
        proof {
            assert(ms[g] == quiets@[j as int]);
            assert(board.quiets_spec().contains(m));
            board.lemma_apply_wf(m);
        }
        let child = board.apply(m);
        let ghost w = negamax(board.apply_spec(m), d);
        proof {
            if depth == 1 {
                child.lemma_eval_bounded();
            }
        }
        let t = alpha_beta_nega(&child, depth - 1, -beta, -new_alpha);
        let s = -t;
        proof {
            assert(s as int == clamp(-w, new_alpha as int, beta as int) || s as int == -w);
        }
        if s >= beta {
            proof {
                assert(-w >= beta as int);
                assert(best_upto(*board, ms, g + 1, d) >= beta as int);
                lemma_best_upto_mono(*board, ms, g + 1, ms.len() as int, d);
            }
            return beta;
        }
        if s > new_alpha {
            new_alpha = s;
        }
        proof {
            assert(-w < beta as int);
            assert(best_upto(*board, ms, g + 1, d) == vstd::math::max(
                best_upto(*board, ms, g, d),
                -w,
            ));
        }
        j = j + 1;
    }
    proof {
        assert(caps@.len() + quiets@.len() == ms.len());
    }
    new_alpha
}

/// The score the root sees for its `i`-th move: the negated exhaustive
/// NegaMax value of the successor, one ply shallower.
pub open spec fn root_score<P: Position>(p: P, depth: nat, i: int) -> int {
    -negamax(p.apply_spec(all_moves(p)[i]), (depth - 1) as nat)
}

/// `i` indexes the move the root settles on: its score improves on the
/// `-SCORE_INF` sentinel, every earlier move scores strictly worse, and no
/// later move scores better — the first maximum, so ties keep the earliest
/// move, and captures are enumerated first.
pub open spec fn chosen_at<P: Position>(p: P, depth: nat, i: int) -> bool {
    &&& 0 <= i < all_moves(p).len()
    &&& root_score(p, depth, i) > -(SCORE_INF as int)
    &&& forall|j: int| 0 <= j < i ==> root_score(p, depth, j) < root_score(p, depth, i)
    &&& forall|j: int|
        i < j < all_moves(p).len() ==> root_score(p, depth, j) <= root_score(p, depth, i)
}

/// At most one move can be the root's settled choice.
pub proof fn lemma_chosen_unique<P: Position>(p: P, depth: nat, i: int, k: int)
    requires
        chosen_at(p, depth, i),
        chosen_at(p, depth, k),
    ensures
        i == k,
{
}

/// Root of the alpha-beta search: score every legal move by searching its
/// successor with a full window one ply shallower, and keep the first move
/// whose score beats every other. The caller must rule out the degenerate
/// case in which every move scores `-SCORE_INF` (every line loses to a
/// forced capture sequence of the opponent at this horizon): there, no move
/// ever improves on the sentinel and no choice is made.
pub fn find_move<P: Position>(board: &P, depth: u8) -> (m: u64)
    requires
        board.wf(),
        depth >= 1,
        all_moves(*board).len() > 0,
        exists|i: int| chosen_at(*board, depth as nat, i),
    ensures
        exists|i: int| chosen_at(*board, depth as nat, i) && m == all_moves(*board)[i],
        all_moves(*board).contains(m),
{
    let caps = board.capture_moves();
    let quiets = board.quiet_moves();
    let ghost ms = all_moves(*board);
    let ghost d = depth as nat;
    let mut best_move: Option<u64> = None;
    let mut best_move_score: i32 = -SCORE_INF;
    let ghost mut bi: int = 0;
    let mut i: usize = 0;
    while i < caps.len()
        invariant
            board.wf(),
            depth >= 1,
            caps@ == board.captures_spec(),
            quiets@ == board.quiets_spec(),
            ms == all_moves(*board),
            d == depth as nat,
            i <= caps.len(),
            best_move.is_none() ==> best_move_score == -SCORE_INF && (forall|j: int|
                0 <= j < i ==> root_score(*board, d, j) <= -(SCORE_INF as int)),
            best_move.is_some() ==> {
                &&& 0 <= bi < i as int
                &&& best_move.unwrap() == ms[bi]
                &&& best_move_score as int == root_score(*board, d, bi)
                &&& best_move_score > -SCORE_INF
                &&& forall|j: int| 0 <= j < bi ==> root_score(*board, d, j) < root_score(*board, d, bi)
                &&& forall|j: int|
                    bi < j < i as int ==> root_score(*board, d, j) <= root_score(*board, d, bi)
            },
        decreases caps.len() - i,
    {
        let m = caps[i];
        proof {
            assert(ms[i as int] == caps@[i as int]);
            assert(board.captures_spec().contains(m));
            board.lemma_apply_wf(m);
        }
        let child = board.apply(m);
        proof {
            lemma_negamax_in_window(board.apply_spec(m), (d - 1) as nat);
        }
        let t = alpha_beta_nega(&child, depth - 1, -SCORE_INF, SCORE_INF);
        let score = -t;
        proof {
            assert(score as int == root_score(*board, d, i as int));
        }
        if score > best_move_score {
            best_move = Some(m);
            best_move_score = score;
            proof {
                bi = i as int;
            }
        }
        i = i + 1;
    }
    let mut j: usize = 0;
    while j < quiets.len()
        invariant
            board.wf(),
            depth >= 1,
            caps@ == board.captures_spec(),
            quiets@ == board.quiets_spec(),
            ms == all_moves(*board),
            d == depth as nat,
            j <= quiets.len(),
            best_move.is_none() ==> best_move_score == -SCORE_INF && (forall|jj: int|
                0 <= jj < caps@.len() + j as int ==> root_score(*board, d, jj) <= -(
                SCORE_INF as int)),
            best_move.is_some() ==> {
                &&& 0 <= bi < caps@.len() + j as int
                &&& best_move.unwrap() == ms[bi]
                &&& best_move_score as int == root_score(*board, d, bi)
                &&& best_move_score > -SCORE_INF
                &&& forall|jj: int|
                    0 <= jj < bi ==> root_score(*board, d, jj) < root_score(*board, d, bi)
                &&& forall|jj: int|
                    bi < jj < caps@.len() + j as int ==> root_score(*board, d, jj) <= root_score(
                        *board,
                        d,
                        bi,
                    )
            },
        decreases quiets.len() - j,
    {
        let m = quiets[j];
        let ghost g = caps@.len() + j as int;
        proof {
            assert(ms[g] == quiets@[j as int]);
            assert(board.quiets_spec().contains(m));
            board.lemma_apply_wf(m);
        }
        let child = board.apply(m);
        proof {
            lemma_negamax_in_window(board.apply_spec(m), (d - 1) as nat);
        }
        let t = alpha_beta_nega(&child, depth - 1, -SCORE_INF, SCORE_INF);
        let score = -t;
        proof {
            assert(score as int == root_score(*board, d, g));
        }
        if score > best_move_score {
            best_move = Some(m);
            best_move_score = score;
            proof {
                bi = g;
            }
        }
        j = j + 1;
    }
    proof {
        assert(caps@.len() + quiets@.len() == ms.len());
        if best_move.is_none() {
            let i0 = choose|i0: int| chosen_at(*board, d, i0);
            assert(root_score(*board, d, i0) <= -(SCORE_INF as int));
            assert(false);
        }
        assert(chosen_at(*board, d, bi));
    }
    best_move.unwrap()
}

} // verus!
