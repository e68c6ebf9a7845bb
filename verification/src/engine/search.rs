//! The main engine: NegaMax alpha-beta search with null-move pruning and a
//! quiescence extension at the horizon.
//!
//! Quiescence is specified exactly: within any window it returns the
//! quiescence value [`qval`] clamped to the window. The pruning search is
//! specified by the recursive function [`ab_value`], which pins the result
//! exactly — null-move pruning is a deliberately unsound heuristic (it can
//! prune a best line in zugzwang), so no window-independent game value can
//! describe it; what is proved instead is that the result is exactly the
//! value of the algorithm, and that it never escapes its window.

use vstd::prelude::*;

use crate::engine::tt::{agree_at, cache_contents, cache_mask, encode_spec, lemma_probe_ignores_stale, lemma_store_keeps_agreement, probe_view, store_update, tt_probe, tt_store, TTEntry, TTFlag};
use crate::position::{all_moves, clamp, lemma_all_moves_member, Position, SCORE_INF};

verus! {

/// The quiescence value of a position: the better of standing pat on the
/// static evaluation and the best capture continuation.
pub open spec fn qval<P: Position>(p: P) -> int
    decreases p.qmeasure(), 1nat, 0nat,
    when p.wf()
{
    vstd::math::max(p.eval_spec(), qbest_upto(p, p.captures_spec().len() as int))
}

/// The largest negated quiescence value over the first `i` capturing moves;
/// `-SCORE_INF` over no captures.
pub open spec fn qbest_upto<P: Position>(p: P, i: int) -> int
    decreases p.qmeasure(), 0nat, i,
    when p.wf() && i <= p.captures_spec().len()
{
    if i <= 0 {
        -(SCORE_INF as int)
    } else {
        proof {
            assert(p.captures_spec().contains(p.captures_spec()[i - 1]));
            p.lemma_capture_qmeasure(p.captures_spec()[i - 1]);
            p.lemma_apply_wf(p.captures_spec()[i - 1]);
        }
        vstd::math::max(qbest_upto(p, i - 1), -qval(p.apply_spec(p.captures_spec()[i - 1])))
    }
}

/// Looking at more captures can only improve the best value.
pub proof fn lemma_qbest_upto_mono<P: Position>(p: P, i: int, k: int)
    requires
        p.wf(),
        i <= k,
        k <= p.captures_spec().len(),
    ensures
        qbest_upto(p, i) <= qbest_upto(p, k),
    decreases k - i,
{
    if i < k {
        lemma_qbest_upto_mono(p, i, k - 1);
    }
}

/// The quiescence value of a well-formed position never escapes the
/// sentinel window.
pub proof fn lemma_qval_in_window<P: Position>(p: P)
    requires
        p.wf(),
    ensures
        -(SCORE_INF as int) < qval(p) <= SCORE_INF as int,
        qval(p) >= p.eval_spec(),
    decreases p.qmeasure(), 1nat, 0nat,
{
    p.lemma_eval_bounded();
    lemma_qbest_in_window(p, p.captures_spec().len() as int);
}

proof fn lemma_qbest_in_window<P: Position>(p: P, i: int)
    requires
        p.wf(),
        i <= p.captures_spec().len(),
    ensures
        -(SCORE_INF as int) <= qbest_upto(p, i) <= SCORE_INF as int,
    decreases p.qmeasure(), 0nat, i,
{
    if i > 0 {
        lemma_qbest_in_window(p, i - 1);
        let m = p.captures_spec()[i - 1];
        assert(p.captures_spec().contains(m));
        p.lemma_capture_qmeasure(m);
        p.lemma_apply_wf(m);
        lemma_qval_in_window(p.apply_spec(m));
    }
}

/// With no capture available, quiescence stands pat: its value is the static
/// evaluation, and within a window whose ceiling the evaluation does not
/// reach, the clamped result is exactly the better of the window floor and
/// the evaluation.
pub proof fn lemma_quiescence_quiet<P: Position>(p: P, alpha: int, beta: int)
    requires
        p.wf(),
        p.captures_spec().len() == 0,
        alpha < beta,
    ensures
        qval(p) == p.eval_spec(),
        p.eval_spec() < beta ==> clamp(qval(p), alpha, beta) == vstd::math::max(
            alpha,
            p.eval_spec(),
        ),
{
    p.lemma_eval_bounded();
}

/// Resolve captures until the position is quiet, so the horizon never cuts
/// a capture sequence in half. Fail-hard: the result is the quiescence
/// value clamped to the window.
pub fn quiescence_search<P: Position>(board: &P, alpha: i32, beta: i32) -> (r: i32)
    requires
        board.wf(),
        -SCORE_INF <= alpha,
        alpha < beta,
        beta <= SCORE_INF,
    ensures
        r as int == clamp(qval(*board), alpha as int, beta as int),
    decreases board.qmeasure(),
{
    let stand_pat = board.eval();
    proof {
        board.lemma_eval_bounded();
        lemma_qval_in_window(*board);
    }
    let mut new_alpha = alpha;
    if stand_pat >= beta {
        return beta;
    }
    if new_alpha < stand_pat {
        new_alpha = stand_pat;
    }
    let caps = board.capture_moves();
    let mut i: usize = 0;
    while i < caps.len()
        invariant
            board.wf(),
            caps@ == board.captures_spec(),
            i <= caps.len(),
            -SCORE_INF <= alpha,
            alpha <= new_alpha,
            (new_alpha as int) < beta as int,
            beta <= SCORE_INF,
            stand_pat as int == board.eval_spec(),
            (stand_pat as int) < beta as int,
            new_alpha as int == vstd::math::max(
                alpha as int,
                vstd::math::max(board.eval_spec(), qbest_upto(*board, i as int)),
            ),
            qbest_upto(*board, i as int) < beta as int,
        decreases caps.len() - i,
    {
        let m = caps[i];
        proof {
            assert(caps@[i as int] == m);
            assert(board.captures_spec().contains(m));
            board.lemma_apply_wf(m);
            board.lemma_capture_qmeasure(m);
        }
        let child = board.apply(m);
        let ghost qc = qval(board.apply_spec(m));
        let t = quiescence_search(&child, -beta, -new_alpha);
        let s = -t;
        proof {
            assert(s as int == clamp(-qc, new_alpha as int, beta as int));
            assert(qbest_upto(*board, i + 1) == vstd::math::max(qbest_upto(*board, i as int), -qc));
        }
        if s >= beta {
            proof {
                assert(-qc >= beta as int);
                lemma_qbest_upto_mono(*board, i + 1, caps@.len() as int);
            }
            return beta;
        }
        if s > new_alpha {
            new_alpha = s;
        }
        proof {
            assert(-qc < beta as int);
        }
        i = i + 1;
    }
    new_alpha
}

/// The depth at which the position after a null move is re-searched: two
/// plies shallower than the node when there is room, with a floor of one
/// ply.
pub open spec fn null_reduced(depth: nat) -> nat {
    if depth < 4 {
        1
    } else {
        (depth - 2) as nat
    }
}

/// The value computed by the pruning search: quiescence at the horizon;
/// otherwise a null-move cutoff when giving the opponent a free tempo still
/// refutes the position at reduced depth; otherwise the fail-hard move loop.
pub open spec fn ab_value<P: Position>(
    p: P,
    depth: nat,
    alpha: int,
    beta: int,
    can_null: bool,
) -> int
    decreases depth, (if can_null { 3int } else { 1int }), 0int,
{
    if depth == 0 {
        clamp(qval(p), alpha, beta)
    } else if can_null && p.null_spec().is_some() && -ab_value(
        p.null_spec().unwrap(),
        null_reduced(depth),
        -beta,
        -alpha,
        false,
    ) >= beta {
        beta
    } else {
        ab_loop(p, 0, depth, alpha, beta, can_null)
    }
}

/// The fail-hard move loop from move `i` on, entered with window floor
/// `alpha`: cut off at `beta` as soon as a move refutes the window, else
/// ratchet the floor and continue; the floor when moves run out.
pub open spec fn ab_loop<P: Position>(
    p: P,
    i: int,
    depth: nat,
    alpha: int,
    beta: int,
    can_null: bool,
) -> int
    decreases depth, (if can_null { 2int } else { 0int }), all_moves(p).len() - i,
    when depth >= 1
{
    if i < 0 || i >= all_moves(p).len() {
        alpha
    } else {
        let s = -ab_value(p.apply_spec(all_moves(p)[i]), (depth - 1) as nat, -beta, -alpha, can_null);
        if s >= beta {
            beta
        } else {
            ab_loop(p, i + 1, depth, vstd::math::max(alpha, s), beta, can_null)
        }
    }
}

/// The NegaMax value with quiescence at the horizon: what the main search
/// computes once the null-move heuristic is out of the picture. A position
/// whose side to move has no legal moves takes the value `-SCORE_INF`.
pub open spec fn nmq<P: Position>(p: P, depth: nat) -> int
    decreases depth, 1nat, 0nat,
    when p.wf()
{
    if depth == 0 {
        qval(p)
    } else {
        nmq_best(p, 0, (depth - 1) as nat)
    }
}

/// The largest negated [`nmq`] value over the moves of `p` from index `i`
/// on; `-SCORE_INF` over no moves.
pub open spec fn nmq_best<P: Position>(p: P, i: int, depth: nat) -> int
    decreases depth + 1, 0nat, all_moves(p).len() - i,
    when p.wf()
{
    if i < 0 || i >= all_moves(p).len() {
        -(SCORE_INF as int)
    } else {
        proof {
            lemma_all_moves_member(p, i);
            p.lemma_apply_wf(all_moves(p)[i]);
        }
        vstd::math::max(-nmq(p.apply_spec(all_moves(p)[i]), depth), nmq_best(p, i + 1, depth))
    }
}

/// With null-move pruning disabled the main search is fail-hard exact:
/// within any window, [`ab_value`] is the quiescence-extended NegaMax value
/// clamped to the window. Only the null-move heuristic separates the
/// engine from that window-independent meaning.
pub proof fn lemma_ab_value_without_null<P: Position>(p: P, depth: nat, alpha: int, beta: int)
    requires
        p.wf(),
        -(SCORE_INF as int) <= alpha < beta <= SCORE_INF as int,
    ensures
        ab_value(p, depth, alpha, beta, false) == clamp(nmq(p, depth), alpha, beta),
    decreases depth, 1nat, 0nat,
{
    if depth == 0 {
    } else {
        lemma_ab_loop_without_null(p, 0, depth, alpha, alpha, beta);
    }
}

/// The loop part of the equivalence: entered at move `i` with a ratcheted
/// floor `a` that already accounts for the moves before `i`, the fail-hard
/// loop computes the clamp of the best of `a` and the remaining moves.
proof fn lemma_ab_loop_without_null<P: Position>(
    p: P,
    i: int,
    depth: nat,
    alpha: int,
    a: int,
    beta: int,
)
    requires
        p.wf(),
        depth >= 1,
        -(SCORE_INF as int) <= alpha <= a < beta <= SCORE_INF as int,
    ensures
        ab_loop(p, i, depth, a, beta, false) == (if vstd::math::max(
            a,
            nmq_best(p, i, (depth - 1) as nat),
        ) >= beta {
            beta
        } else {
            vstd::math::max(a, nmq_best(p, i, (depth - 1) as nat))
        }),
    decreases depth, 0nat, all_moves(p).len() - i,
{
    if 0 <= i < all_moves(p).len() {
        lemma_all_moves_member(p, i);
        p.lemma_apply_wf(all_moves(p)[i]);
        let child = p.apply_spec(all_moves(p)[i]);
        let d1 = (depth - 1) as nat;
        lemma_ab_value_without_null(child, d1, -beta, -a);
        let nc = nmq(child, d1);
        let s = -ab_value(child, d1, -beta, -a, false);
        assert(s == clamp(-nc, a, beta));
        assert(nmq_best(p, i, d1) == vstd::math::max(-nc, nmq_best(p, i + 1, d1)));
        if s >= beta {
            assert(-nc >= beta);
            assert(ab_loop(p, i, depth, a, beta, false) == beta);
        } else {
            assert(s == vstd::math::max(a, -nc) || s == a);
            lemma_ab_loop_without_null(p, i + 1, depth, alpha, vstd::math::max(a, s), beta);
            assert(vstd::math::max(vstd::math::max(a, s), nmq_best(p, i + 1, d1))
                == vstd::math::max(a, nmq_best(p, i, d1)));
        }
    }
}

/// The pruning search never escapes its window.
pub proof fn lemma_ab_value_in_window<P: Position>(
    p: P,
    depth: nat,
    alpha: int,
    beta: int,
    can_null: bool,
)
    requires
        alpha < beta,
    ensures
        alpha <= ab_value(p, depth, alpha, beta, can_null) <= beta,
    decreases depth, 1nat, 0nat,
{
    if depth == 0 {
    } else if can_null && p.null_spec().is_some() && -ab_value(
        p.null_spec().unwrap(),
        null_reduced(depth),
        -beta,
        -alpha,
        false,
    ) >= beta {
    } else {
        lemma_ab_loop_in_window(p, 0, depth, alpha, beta, can_null);
    }
}

proof fn lemma_ab_loop_in_window<P: Position>(
    p: P,
    i: int,
    depth: nat,
    alpha: int,
    beta: int,
    can_null: bool,
)
    requires
        alpha < beta,
        depth >= 1,
    ensures
        alpha <= ab_loop(p, i, depth, alpha, beta, can_null) <= beta,
    decreases depth, 0nat, all_moves(p).len() - i,
{
    if 0 <= i < all_moves(p).len() {
        let s = -ab_value(p.apply_spec(all_moves(p)[i]), (depth - 1) as nat, -beta, -alpha, can_null);
        if s < beta {
            lemma_ab_loop_in_window(p, i + 1, depth, vstd::math::max(alpha, s), beta, can_null);
        }
    }
}

/// Recursively search the move tree with NegaMax alpha-beta, null-move
/// pruning (disabled for the reply to a null move) and capture-first move
/// ordering, extending the horizon with a quiescence search. The result is
/// exactly the value of that algorithm, [`ab_value`].
pub fn alpha_beta_search<P: Position>(
    board: &P,
    depth: u8,
    alpha: i32,
    beta: i32,
    can_null: bool,
) -> (r: i32)
    requires
        board.wf(),
        -SCORE_INF <= alpha,
        alpha < beta,
        beta <= SCORE_INF,
    ensures
        r as int == ab_value(*board, depth as nat, alpha as int, beta as int, can_null),
    decreases depth, (if can_null { 1int } else { 0int }),
{
    let ghost dn = depth as nat;
    if depth == 0 {
        return quiescence_search(board, alpha, beta);
    }
    if can_null {
        if let Some(resulting_board) = board.null_move() {
            proof {
                board.lemma_null_wf();
                lemma_ab_value_in_window(
                    board.null_spec().unwrap(),
                    null_reduced(dn),
                    -(beta as int),
                    -(alpha as int),
                    false,
                );
            }
            let adjusted_depth: u8 = if depth < 4 {
                1
            } else {
                depth - 2
            };
            let t = alpha_beta_search(&resulting_board, adjusted_depth, -beta, -alpha, false);
            let score = -t;
            proof {
                assert(adjusted_depth as nat == null_reduced(dn));
            }
            if score >= beta {
                return beta;
            }
        }
    }
    proof {
        assert(ab_value(*board, dn, alpha as int, beta as int, can_null) == ab_loop(
            *board,
            0,
            dn,
            alpha as int,
            beta as int,
            can_null,
        ));
    }
    let caps = board.capture_moves();
    let quiets = board.quiet_moves();
    let ghost ms = all_moves(*board);
    let mut new_alpha = alpha;
    let mut i: usize = 0;
    while i < caps.len()
        invariant
            board.wf(),
            depth >= 1,
            dn == depth as nat,
            caps@ == board.captures_spec(),
            quiets@ == board.quiets_spec(),
            ms == all_moves(*board),
            i <= caps.len(),
            -SCORE_INF <= alpha,
            alpha <= new_alpha,
            (new_alpha as int) < beta as int,
            beta <= SCORE_INF,
            ab_value(*board, dn, alpha as int, beta as int, can_null) == ab_loop(
                *board,
                i as int,
                dn,
                new_alpha as int,
                beta as int,
                can_null,
            ),
        decreases caps.len() - i,
    {
        let m = caps[i];
        proof {
            assert(ms[i as int] == caps@[i as int]);
            assert(board.captures_spec().contains(m));
            board.lemma_apply_wf(m);
            lemma_ab_value_in_window(
                board.apply_spec(m),
                (dn - 1) as nat,
                -(beta as int),
                -(new_alpha as int),
                can_null,
            );
        }
        let child = board.apply(m);
        let t = alpha_beta_search(&child, depth - 1, -beta, -new_alpha, can_null);
        let s = -t;
        if s >= beta {
            return beta;
        }
        if s > new_alpha {
            new_alpha = s;
        }
        i = i + 1;
    }
    let mut j: usize = 0;
    while j < quiets.len()
        invariant
            board.wf(),
            depth >= 1,
            dn == depth as nat,
            caps@ == board.captures_spec(),
            quiets@ == board.quiets_spec(),
            ms == all_moves(*board),
            j <= quiets.len(),
            -SCORE_INF <= alpha,
            alpha <= new_alpha,
            (new_alpha as int) < beta as int,
            beta <= SCORE_INF,
            ab_value(*board, dn, alpha as int, beta as int, can_null) == ab_loop(
                *board,
                caps@.len() + j as int,
                dn,
                new_alpha as int,
                beta as int,
                can_null,
            ),
        decreases quiets.len() - j,
    {
        let m = quiets[j];
        let ghost g = caps@.len() + j as int;
        proof {
            assert(ms[g] == quiets@[j as int]);
            assert(board.quiets_spec().contains(m));
            board.lemma_apply_wf(m);
            lemma_ab_value_in_window(
                board.apply_spec(m),
                (dn - 1) as nat,
                -(beta as int),
                -(new_alpha as int),
                can_null,
            );
        }
        let child = board.apply(m);
        let t = alpha_beta_search(&child, depth - 1, -beta, -new_alpha, can_null);
        let s = -t;
        if s >= beta {
            return beta;
        }
        if s > new_alpha {
            new_alpha = s;
        }
        j = j + 1;
    }
    proof {
        assert(caps@.len() + quiets@.len() == ms.len());
    }
    new_alpha
}

/// The score the root sees for its `i`-th move: the negated value of the
/// pruning search on the successor, one ply shallower, with a full window
/// and null-move pruning enabled.
pub open spec fn root_score<P: Position>(p: P, depth: nat, i: int) -> int {
    -ab_value(
        p.apply_spec(all_moves(p)[i]),
        (depth - 1) as nat,
        -(SCORE_INF as int),
        SCORE_INF as int,
        true,
    )
}

/// `i` indexes the move the root settles on: its score improves on the
/// `-SCORE_INF` sentinel, every earlier move scores strictly worse, and no
/// later move scores better — the first maximum, so ties keep the earliest
/// move, and captures are enumerated first.
pub open spec fn chosen_at<P: Position>(p: P, depth: nat, i: int) -> bool {
    &&& 0 <= i < all_moves(p).len()
    &&& root_score(p, depth, i) > -(SCORE_INF as int)
    &&& forall|j: int| 0 <= j < i ==> root_score(p, depth, j) < root_score(p, depth, i)
    &&& forall|j: int|
        i < j < all_moves(p).len() ==> root_score(p, depth, j) <= root_score(p, depth, i)
}

/// At most one move can be the root's settled choice, so the root search is
/// a function of the position and depth alone: two searches of the same
/// position at the same depth settle on the same move.
pub proof fn lemma_chosen_unique<P: Position>(p: P, depth: nat, i: int, k: int)
    requires
        chosen_at(p, depth, i),
        chosen_at(p, depth, k),
    ensures
        i == k,
{
}

/// Root of the search: score every legal move by searching its successor
/// and keep the first move whose score beats every other. When no move
/// improves on the `-SCORE_INF` sentinel (every reply runs into a refuted
/// window at this horizon), fall back to the first enumerated move.
pub fn find_move<P: Position>(board: &P, depth: u8) -> (m: u64)
    requires
        board.wf(),
        depth >= 1,
        all_moves(*board).len() > 0,
    ensures
        (exists|i: int| chosen_at(*board, depth as nat, i)) ==> (exists|i: int|
            chosen_at(*board, depth as nat, i) && m == all_moves(*board)[i]),
        !(exists|i: int| chosen_at(*board, depth as nat, i)) ==> m == all_moves(*board)[0],
        all_moves(*board).contains(m),
{
    let caps = board.capture_moves();
    let quiets = board.quiet_moves();
    let ghost ms = all_moves(*board);
    let ghost d = depth as nat;
    let mut best_move: Option<u64> = None;
    let mut best_move_score: i32 = -SCORE_INF;
    let ghost mut bi: int = 0;
    let mut i: usize = 0;
    while i < caps.len()
        invariant
            board.wf(),
            depth >= 1,
            caps@ == board.captures_spec(),
            quiets@ == board.quiets_spec(),
            ms == all_moves(*board),
            d == depth as nat,
            i <= caps.len(),
            best_move.is_none() ==> best_move_score == -SCORE_INF && (forall|j: int|
                0 <= j < i ==> root_score(*board, d, j) <= -(SCORE_INF as int)),
            best_move.is_some() ==> {
                &&& 0 <= bi < i as int
                &&& best_move.unwrap() == ms[bi]
                &&& best_move_score as int == root_score(*board, d, bi)
                &&& best_move_score > -SCORE_INF
                &&& forall|j: int| 0 <= j < bi ==> root_score(*board, d, j) < root_score(*board, d, bi)
                &&& forall|j: int|
                    bi < j < i as int ==> root_score(*board, d, j) <= root_score(*board, d, bi)
            },
        decreases caps.len() - i,
    {
        let m = caps[i];
        proof {
            assert(ms[i as int] == caps@[i as int]);
            assert(board.captures_spec().contains(m));
            board.lemma_apply_wf(m);
            lemma_ab_value_in_window(
                board.apply_spec(m),
                (d - 1) as nat,
                -(SCORE_INF as int),
                SCORE_INF as int,
                true,
            );
        }
        let child = board.apply(m);
        let t = alpha_beta_search(&child, depth - 1, -SCORE_INF, SCORE_INF, true);
        let score = -t;
        proof {
            assert(score as int == root_score(*board, d, i as int));
        }
        if score > best_move_score {
            best_move = Some(m);
            best_move_score = score;
            proof {
                bi = i as int;
            }
        }
        i = i + 1;
    }
    let mut j: usize = 0;
    while j < quiets.len()
        invariant
            board.wf(),
            depth >= 1,
            caps@ == board.captures_spec(),
            quiets@ == board.quiets_spec(),
            ms == all_moves(*board),
            d == depth as nat,
            j <= quiets.len(),
            best_move.is_none() ==> best_move_score == -SCORE_INF && (forall|jj: int|
                0 <= jj < caps@.len() + j as int ==> root_score(*board, d, jj) <= -(
                SCORE_INF as int)),
            best_move.is_some() ==> {
                &&& 0 <= bi < caps@.len() + j as int
                &&& best_move.unwrap() == ms[bi]
                &&& best_move_score as int == root_score(*board, d, bi)
                &&& best_move_score > -SCORE_INF
                &&& forall|jj: int|
                    0 <= jj < bi ==> root_score(*board, d, jj) < root_score(*board, d, bi)
                &&& forall|jj: int|
                    bi < jj < caps@.len() + j as int ==> root_score(*board, d, jj) <= root_score(
                        *board,
                        d,
                        bi,
                    )
            },
        decreases quiets.len() - j,
    {
        let m = quiets[j];
        let ghost g = caps@.len() + j as int;
        proof {
            assert(ms[g] == quiets@[j as int]);
            assert(board.quiets_spec().contains(m));
            board.lemma_apply_wf(m);
            lemma_ab_value_in_window(
                board.apply_spec(m),
                (d - 1) as nat,
                -(SCORE_INF as int),
                SCORE_INF as int,
                true,
            );
        }
        let child = board.apply(m);
        let t = alpha_beta_search(&child, depth - 1, -SCORE_INF, SCORE_INF, true);
        let score = -t;
        proof {
            assert(score as int == root_score(*board, d, g));
        }
        if score > best_move_score {
            best_move = Some(m);
            best_move_score = score;
            proof {
                bi = g;
            }
        }
        j = j + 1;
    }
    proof {
        assert(caps@.len() + quiets@.len() == ms.len());
    }
    match best_move {
        Some(chosen_move) => {
            proof {
                assert(chosen_at(*board, d, bi));
                assert(ms.contains(chosen_move)) by { assert(ms[bi] == chosen_move); }
            }
            chosen_move
        },
        // If checkmate is inevitable, no move will have been selected: any
        // legal move does, so take the first enumerated one.
        None => {
            proof {
                assert(ms[0] == if caps@.len() > 0 {
                    caps@[0]
                } else {
                    quiets@[0]
                });
                assert(ms.contains(ms[0]));
            }
            if caps.len() > 0 {
                caps[0]
            } else {
                quiets[0]
            }
        },
    }
}

/// What a probe contributes at a node: the entry stored under the node's
/// hash, provided it was searched at least as deep as the node has
/// remaining; anything shallower is unusable and ignored.
pub open spec fn usable_hit(m: Map<u64, u64>, h: u64, depth: nat) -> Option<TTEntry> {
    match probe_view(m, h) {
        Some(e) => if e.depth >= depth {
            Some(e)
        } else {
            None::<TTEntry>
        },
        None => None,
    }
}

/// The word a node stores on exit: its score, the depth it searched, and
/// the bound kind, keyed by its hash.
pub open spec fn exit_word(score: int, depth: nat, flag: TTFlag, h: u64) -> u64 {
    encode_spec(TTEntry { score: score as i32, zobrist_key: h, depth: depth as u8, flag })
}

/// The table-augmented search as a mathematical function of the position,
/// window, null flag and table model: the score it returns, the visible
/// contents it leaves behind, and the set of hashes it probed on the way.
/// A usable exact entry answers the node outright; usable bounds narrow the
/// window, a cutoff from the cached bound returns the stored score; else
/// the node runs the null-move step and the move loop of the plain search
/// on the narrowed window, threading the table through every child, and
/// stores its result classified against the windows it was entered with.
pub open spec fn tt_ab_spec<P: Position>(
    p: P,
    depth: nat,
    alpha: int,
    beta: int,
    can_null: bool,
    m: Map<u64, u64>,
    mask: u64,
) -> (int, Map<u64, u64>, Set<u64>)
    decreases depth, (if can_null { 3int } else { 1int }), 0int,
{
    if depth == 0 {
        (clamp(qval(p), alpha, beta), m, Set::empty())
    } else {
        let h = p.hash_spec();
        let hit = usable_hit(m, h, depth);
        if hit.is_some() && hit.unwrap().flag == TTFlag::Exact {
            (hit.unwrap().score as int, m, set![h])
        } else {
            let la = if hit.is_some() && hit.unwrap().flag == TTFlag::LowerBound
                && hit.unwrap().score > alpha {
                hit.unwrap().score as int
            } else {
                alpha
            };
            let lb = if hit.is_some() && hit.unwrap().flag == TTFlag::UpperBound
                && hit.unwrap().score < beta {
                hit.unwrap().score as int
            } else {
                beta
            };
            if la >= lb {
                (hit.unwrap().score as int, m, set![h])
            } else if can_null && p.null_spec().is_some() {
                let nres = tt_ab_spec(
                    p.null_spec().unwrap(),
                    null_reduced(depth),
                    -lb,
                    -la,
                    false,
                    m,
                    mask,
                );
                if -nres.0 >= lb {
                    (
                        lb,
                        store_update(nres.1, mask, h, exit_word(lb, depth, TTFlag::LowerBound, h)),
                        set![h].union(nres.2),
                    )
                } else {
                    let lres = tt_loop(p, 0, depth, alpha, la, lb, can_null, nres.1, mask, h);
                    (lres.0, lres.1, set![h].union(nres.2).union(lres.2))
                }
            } else {
                let lres = tt_loop(p, 0, depth, alpha, la, lb, can_null, m, mask, h);
                (lres.0, lres.1, set![h].union(lres.2))
            }
        }
    }
}

/// The table-threading move loop from move `i` on: floor `a` so far within
/// ceiling `b`, `alpha0` the floor the node was entered with (it decides
/// the bound kind of the final store). A refutation stores and returns the
/// ceiling as a lower bound; exhausted moves store the floor, as exact when
/// it rose above `alpha0` and as an upper bound otherwise.
pub open spec fn tt_loop<P: Position>(
    p: P,
    i: int,
    depth: nat,
    alpha0: int,
    a: int,
    b: int,
    can_null: bool,
    m: Map<u64, u64>,
    mask: u64,
    h: u64,
) -> (int, Map<u64, u64>, Set<u64>)
    decreases depth, (if can_null { 2int } else { 0int }), all_moves(p).len() - i,
    when depth >= 1
{
    let ms = all_moves(p);
    if i < 0 || i >= ms.len() {
        let flag = if a <= alpha0 {
            TTFlag::UpperBound
        } else {
            TTFlag::Exact
        };
        (a, store_update(m, mask, h, exit_word(a, depth, flag, h)), Set::empty())
    } else {
        let rec = tt_ab_spec(p.apply_spec(ms[i]), (depth - 1) as nat, -b, -a, can_null, m, mask);
        let s = -rec.0;
        if s >= b {
            (
                b,
                store_update(rec.1, mask, h, exit_word(b, depth, TTFlag::LowerBound, h)),
                rec.2,
            )
        } else {
            let next = tt_loop(
                p,
                i + 1,
                depth,
                alpha0,
                vstd::math::max(a, s),
                b,
                can_null,
                rec.1,
                mask,
                h,
            );
            (next.0, next.1, rec.2.union(next.2))
        }
    }
}

/// Stale entries never steer the table search: two tables that agree on
/// every hash the search probes yield the same score and probe the same
/// hashes — entries under any other hash, left by unrelated positions, are
/// invisible — and the tables left behind still agree wherever the starting
/// tables did.
pub proof fn lemma_tt_search_ignores_stale<P: Position>(
    p: P,
    depth: nat,
    alpha: int,
    beta: int,
    can_null: bool,
    m1: Map<u64, u64>,
    m2: Map<u64, u64>,
    mask: u64,
)
    requires
        forall|k: u64|
            #[trigger] tt_ab_spec(p, depth, alpha, beta, can_null, m1, mask).2.contains(k)
                ==> agree_at(m1, m2, k),
    ensures
        tt_ab_spec(p, depth, alpha, beta, can_null, m1, mask).0 == tt_ab_spec(
            p,
            depth,
            alpha,
            beta,
            can_null,
            m2,
            mask,
        ).0,
        tt_ab_spec(p, depth, alpha, beta, can_null, m1, mask).2 == tt_ab_spec(
            p,
            depth,
            alpha,
            beta,
            can_null,
            m2,
            mask,
        ).2,
        forall|k: u64|
            agree_at(m1, m2, k) ==> #[trigger] agree_at(
                tt_ab_spec(p, depth, alpha, beta, can_null, m1, mask).1,
                tt_ab_spec(p, depth, alpha, beta, can_null, m2, mask).1,
                k,
            ),
    decreases depth, (if can_null { 3int } else { 1int }), 0int,
{
    if depth == 0 {
        return ;
    }
    let h = p.hash_spec();
    let res1 = tt_ab_spec(p, depth, alpha, beta, can_null, m1, mask);
    assert(res1.2.contains(h));
    lemma_probe_ignores_stale(m1, m2, h);
    let hit = usable_hit(m1, h, depth);
    if hit.is_some() && hit.unwrap().flag == TTFlag::Exact {
        return ;
    }
    let la = if hit.is_some() && hit.unwrap().flag == TTFlag::LowerBound && hit.unwrap().score
        > alpha {
        hit.unwrap().score as int
    } else {
        alpha
    };
    let lb = if hit.is_some() && hit.unwrap().flag == TTFlag::UpperBound && hit.unwrap().score
        < beta {
        hit.unwrap().score as int
    } else {
        beta
    };
    if la >= lb {
        return ;
    }
    if can_null && p.null_spec().is_some() {
        let np = p.null_spec().unwrap();
        let nres1 = tt_ab_spec(np, null_reduced(depth), -lb, -la, false, m1, mask);
        let nres2 = tt_ab_spec(np, null_reduced(depth), -lb, -la, false, m2, mask);
        assert(forall|k: u64| #[trigger] nres1.2.contains(k) ==> res1.2.contains(k));
        lemma_tt_search_ignores_stale(np, null_reduced(depth), -lb, -la, false, m1, m2, mask);
        if -nres1.0 >= lb {
            let w = exit_word(lb, depth, TTFlag::LowerBound, h);
            assert forall|k: u64| agree_at(m1, m2, k) implies #[trigger] agree_at(
                store_update(nres1.1, mask, h, w),
                store_update(nres2.1, mask, h, w),
                k,
            ) by {
                lemma_store_keeps_agreement(nres1.1, nres2.1, mask, h, w, k);
            }
        } else {
            let lres1 = tt_loop(p, 0, depth, alpha, la, lb, can_null, nres1.1, mask, h);
            assert(forall|k: u64| #[trigger] lres1.2.contains(k) ==> res1.2.contains(k));
            lemma_tt_loop_ignores_stale(
                p,
                0,
                depth,
                alpha,
                la,
                lb,
                can_null,
                nres1.1,
                nres2.1,
                mask,
                h,
            );
        }
    } else {
        let lres1 = tt_loop(p, 0, depth, alpha, la, lb, can_null, m1, mask, h);
        assert(forall|k: u64| #[trigger] lres1.2.contains(k) ==> res1.2.contains(k));
        lemma_tt_loop_ignores_stale(p, 0, depth, alpha, la, lb, can_null, m1, m2, mask, h);
    }
}

proof fn lemma_tt_loop_ignores_stale<P: Position>(
    p: P,
    i: int,
    depth: nat,
    alpha0: int,
    a: int,
    b: int,
    can_null: bool,
    m1: Map<u64, u64>,
    m2: Map<u64, u64>,
    mask: u64,
    h: u64,
)
    requires
        depth >= 1,
        forall|k: u64|
            #[trigger] tt_loop(p, i, depth, alpha0, a, b, can_null, m1, mask, h).2.contains(k)
                ==> agree_at(m1, m2, k),
    ensures
        tt_loop(p, i, depth, alpha0, a, b, can_null, m1, mask, h).0 == tt_loop(
            p,
            i,
            depth,
            alpha0,
            a,
            b,
            can_null,
            m2,
            mask,
            h,
        ).0,
        tt_loop(p, i, depth, alpha0, a, b, can_null, m1, mask, h).2 == tt_loop(
            p,
            i,
            depth,
            alpha0,
            a,
            b,
            can_null,
            m2,
            mask,
            h,
        ).2,
        forall|k: u64|
            agree_at(m1, m2, k) ==> #[trigger] agree_at(
                tt_loop(p, i, depth, alpha0, a, b, can_null, m1, mask, h).1,
                tt_loop(p, i, depth, alpha0, a, b, can_null, m2, mask, h).1,
                k,
            ),
    decreases depth, (if can_null { 2int } else { 0int }), all_moves(p).len() - i,
{
    let ms = all_moves(p);
    let lres1 = tt_loop(p, i, depth, alpha0, a, b, can_null, m1, mask, h);
    if i < 0 || i >= ms.len() {
        let flag = if a <= alpha0 {
            TTFlag::UpperBound
        } else {
            TTFlag::Exact
        };
        let w = exit_word(a, depth, flag, h);
        assert forall|k: u64| agree_at(m1, m2, k) implies #[trigger] agree_at(
            store_update(m1, mask, h, w),
            store_update(m2, mask, h, w),
            k,
        ) by {
            lemma_store_keeps_agreement(m1, m2, mask, h, w, k);
        }
    } else {
        let child = p.apply_spec(ms[i]);
        let rec1 = tt_ab_spec(child, (depth - 1) as nat, -b, -a, can_null, m1, mask);
        let rec2 = tt_ab_spec(child, (depth - 1) as nat, -b, -a, can_null, m2, mask);
        assert(forall|k: u64| #[trigger] rec1.2.contains(k) ==> lres1.2.contains(k));
        lemma_tt_search_ignores_stale(child, (depth - 1) as nat, -b, -a, can_null, m1, m2, mask);
        let s = -rec1.0;
        if s >= b {
            let w = exit_word(b, depth, TTFlag::LowerBound, h);
            assert forall|k: u64| agree_at(m1, m2, k) implies #[trigger] agree_at(
                store_update(rec1.1, mask, h, w),
                store_update(rec2.1, mask, h, w),
                k,
            ) by {
                lemma_store_keeps_agreement(rec1.1, rec2.1, mask, h, w, k);
            }
        } else {
            let next1 = tt_loop(
                p,
                i + 1,
                depth,
                alpha0,
                vstd::math::max(a, s),
                b,
                can_null,
                rec1.1,
                mask,
                h,
            );
            assert forall|k: u64| #[trigger] next1.2.contains(k) implies agree_at(
                rec1.1,
                rec2.1,
                k,
            ) by {
                assert(lres1.2.contains(k));
                assert(agree_at(m1, m2, k));
            }
            lemma_tt_loop_ignores_stale(
                p,
                i + 1,
                depth,
                alpha0,
                vstd::math::max(a, s),
                b,
                can_null,
                rec1.1,
                rec2.1,
                mask,
                h,
            );
        }
    }
}

/// The same search as [`alpha_beta_search`], augmented with the
/// transposition table: on entry the table is probed, and a stored result
/// for this very hash, searched at least as deep as the depth remaining
/// here, may short-circuit the node or narrow its window; on exit the
/// result is stored, classified against the window it was computed in.
/// The result and the table left behind are exactly those of [`tt_ab_spec`]
/// on the table's visible contents.
///
/// A stored score substitutes for a search of whatever position produced
/// it — possibly searched deeper than asked, and, on a hash collision, a
/// different position altogether — so no window-independent value describes
/// the result; [`tt_ab_spec`] over the table model is its meaning.
pub fn tt_alpha_beta<P: Position>(
    board: &P,
    depth: u8,
    alpha: i32,
    beta: i32,
    can_null: bool,
    tt: &mut chess::CacheTable<u64>,
) -> (r: i32)
    requires
        board.wf(),
        -SCORE_INF <= alpha,
        alpha < beta,
        beta <= SCORE_INF,
    ensures
        cache_mask(*final(tt)) == cache_mask(*old(tt)),
        r as int == tt_ab_spec(
            *board,
            depth as nat,
            alpha as int,
            beta as int,
            can_null,
            cache_contents(*old(tt)),
            cache_mask(*old(tt)),
        ).0,
        cache_contents(*final(tt)) == tt_ab_spec(
            *board,
            depth as nat,
            alpha as int,
            beta as int,
            can_null,
            cache_contents(*old(tt)),
            cache_mask(*old(tt)),
        ).1,
        -SCORE_INF <= r <= SCORE_INF,
    decreases depth, (if can_null { 1int } else { 0int }),
{
    let ghost dn = depth as nat;
    let ghost m0 = cache_contents(*tt);
    let ghost mask = cache_mask(*tt);
    let ghost target = tt_ab_spec(*board, dn, alpha as int, beta as int, can_null, m0, mask);
    if depth == 0 {
        return quiescence_search(board, alpha, beta);
    }
    let hash = board.hash();
    let ghost hit = usable_hit(m0, hash, dn);
    let mut local_alpha = alpha;
    let mut local_beta = beta;
    if let Some(entry) = tt_probe(tt, hash) {
        if entry.depth >= depth {
            proof {
                assert(hit == Some(entry));
            }
            match entry.flag {
                TTFlag::Exact => {
                    return entry.score;
                },
                TTFlag::LowerBound => {
                    if entry.score > local_alpha {
                        local_alpha = entry.score;
                    }
                },
                TTFlag::UpperBound => {
                    if entry.score < local_beta {
                        local_beta = entry.score;
                    }
                },
            }
            if local_alpha >= local_beta {
                return entry.score;
            }
        }
    }
    let ghost la = local_alpha as int;
    let ghost lb = local_beta as int;
    if can_null {
        if let Some(resulting_board) = board.null_move() {
            proof {
                board.lemma_null_wf();
            }
            let adjusted_depth: u8 = if depth < 4 {
                1
            } else {
                depth - 2
            };
            proof {
                assert(adjusted_depth as nat == null_reduced(dn));
            }
            let t = tt_alpha_beta(
                &resulting_board,
                adjusted_depth,
                -local_beta,
                -local_alpha,
                false,
                tt,
            );
            let ghost nres = tt_ab_spec(
                board.null_spec().unwrap(),
                null_reduced(dn),
                -lb,
                -la,
                false,
                m0,
                mask,
            );
            let score = -t;
            if score >= local_beta {
                tt_store(tt, hash, depth, local_beta, TTFlag::LowerBound);
                proof {
                    assert(cache_contents(*tt) == store_update(
                        nres.1,
                        mask,
                        hash,
                        exit_word(lb, dn, TTFlag::LowerBound, hash),
                    ));
                }
                return local_beta;
            }
        }
    }
    let caps = board.capture_moves();
    let quiets = board.quiet_moves();
    let mut new_alpha = local_alpha;
    proof {
        assert(target.0 == tt_loop(
            *board,
            0,
            dn,
            alpha as int,
            new_alpha as int,
            lb,
            can_null,
            cache_contents(*tt),
            mask,
            hash,
        ).0 && target.1 == tt_loop(
            *board,
            0,
            dn,
            alpha as int,
            new_alpha as int,
            lb,
            can_null,
            cache_contents(*tt),
            mask,
            hash,
        ).1);
    }
    let mut i: usize = 0;
    while i < caps.len()
        invariant
            board.wf(),
            depth >= 1,
            dn == depth as nat,
            caps@ == board.captures_spec(),
            quiets@ == board.quiets_spec(),
            i <= caps.len(),
            -SCORE_INF <= alpha,
            -SCORE_INF <= local_alpha,
            local_alpha <= new_alpha,
            (new_alpha as int) < lb,
            lb == local_beta as int,
            local_beta <= SCORE_INF,
            hash == board.hash_spec(),
            mask == cache_mask(*tt),
            m0 == cache_contents(*old(tt)),
            mask == cache_mask(*old(tt)),
            -SCORE_INF <= beta <= SCORE_INF,
            target == tt_ab_spec(*board, dn, alpha as int, beta as int, can_null, m0, mask),
            target.0 == tt_loop(
                *board,
                i as int,
                dn,
                alpha as int,
                new_alpha as int,
                lb,
                can_null,
                cache_contents(*tt),
                mask,
                hash,
            ).0,
            target.1 == tt_loop(
                *board,
                i as int,
                dn,
                alpha as int,
                new_alpha as int,
                lb,
                can_null,
                cache_contents(*tt),
                mask,
                hash,
            ).1,
        decreases caps.len() - i,
    {
        let m = caps[i];
        let ghost mtab = cache_contents(*tt);
        proof {
            assert(all_moves(*board)[i as int] == caps@[i as int]);
            assert(board.captures_spec().contains(m));
            board.lemma_apply_wf(m);
        }
        let child = board.apply(m);
        let t = tt_alpha_beta(&child, depth - 1, -local_beta, -new_alpha, can_null, tt);
        let ghost rec = tt_ab_spec(
            board.apply_spec(m),
            (dn - 1) as nat,
            -lb,
            -(new_alpha as int),
            can_null,
            mtab,
            mask,
        );
        let s = -t;
        if s >= local_beta {
            tt_store(tt, hash, depth, local_beta, TTFlag::LowerBound);
            proof {
                assert(cache_contents(*tt) == store_update(
                    rec.1,
                    mask,
                    hash,
                    exit_word(lb, dn, TTFlag::LowerBound, hash),
                ));
            }
            return local_beta;
        }
        if s > new_alpha {
            new_alpha = s;
        }
        i = i + 1;
    }
    let mut j: usize = 0;
    while j < quiets.len()
        invariant
            board.wf(),
            depth >= 1,
            dn == depth as nat,
            caps@ == board.captures_spec(),
            quiets@ == board.quiets_spec(),
            j <= quiets.len(),
            -SCORE_INF <= alpha,
            -SCORE_INF <= local_alpha,
            local_alpha <= new_alpha,
            (new_alpha as int) < lb,
            lb == local_beta as int,
            local_beta <= SCORE_INF,
            hash == board.hash_spec(),
            mask == cache_mask(*tt),
            m0 == cache_contents(*old(tt)),
            mask == cache_mask(*old(tt)),
            -SCORE_INF <= beta <= SCORE_INF,
            target == tt_ab_spec(*board, dn, alpha as int, beta as int, can_null, m0, mask),
            target.0 == tt_loop(
                *board,
                caps@.len() + j as int,
                dn,
                alpha as int,
                new_alpha as int,
                lb,
                can_null,
                cache_contents(*tt),
                mask,
                hash,
            ).0,
            target.1 == tt_loop(
                *board,
                caps@.len() + j as int,
                dn,
                alpha as int,
                new_alpha as int,
                lb,
                can_null,
                cache_contents(*tt),
                mask,
                hash,
            ).1,
        decreases quiets.len() - j,
    {
        let m = quiets[j];
        let ghost g = caps@.len() + j as int;
        let ghost mtab = cache_contents(*tt);
        proof {
            assert(all_moves(*board)[g] == quiets@[j as int]);
            assert(board.quiets_spec().contains(m));
            board.lemma_apply_wf(m);
        }
        let child = board.apply(m);
        let t = tt_alpha_beta(&child, depth - 1, -local_beta, -new_alpha, can_null, tt);
        let ghost rec = tt_ab_spec(
            board.apply_spec(m),
            (dn - 1) as nat,
            -lb,
            -(new_alpha as int),
            can_null,
            mtab,
            mask,
        );
        let s = -t;
        if s >= local_beta {
            tt_store(tt, hash, depth, local_beta, TTFlag::LowerBound);
            proof {
                assert(cache_contents(*tt) == store_update(
                    rec.1,
                    mask,
                    hash,
                    exit_word(lb, dn, TTFlag::LowerBound, hash),
                ));
            }
            return local_beta;
        }
        if s > new_alpha {
            new_alpha = s;
        }
        j = j + 1;
    }
    proof {
        assert(caps@.len() + quiets@.len() == all_moves(*board).len());
    }
    // Classify against the window the node was entered with: a result not
    // above the original floor is only a ceiling on the true value; anything
    // strictly inside the window is exact.
    if new_alpha <= alpha {
        tt_store(tt, hash, depth, new_alpha, TTFlag::UpperBound);
        proof {
            assert(exit_word(new_alpha as int, dn, TTFlag::UpperBound, hash) == encode_spec(
                TTEntry { score: new_alpha, zobrist_key: hash, depth, flag: TTFlag::UpperBound },
            ));
        }
    } else {
        tt_store(tt, hash, depth, new_alpha, TTFlag::Exact);
        proof {
            assert(exit_word(new_alpha as int, dn, TTFlag::Exact, hash) == encode_spec(
                TTEntry { score: new_alpha, zobrist_key: hash, depth, flag: TTFlag::Exact },
            ));
        }
    }
    new_alpha
}

/// The root choice of the table search as a function of the starting
/// table: each move is scored by [`tt_ab_spec`] with the full window on the
/// table the previous scores left behind, the first strict improvement on
/// `best_score` is kept, and the first enumerated move stands in when no
/// score ever improves on the sentinel. Returns the chosen move and the
/// table left behind.
pub open spec fn tt_choice<P: Position>(
    p: P,
    depth: nat,
    i: int,
    best: Option<u64>,
    best_score: int,
    m: Map<u64, u64>,
    mask: u64,
) -> (u64, Map<u64, u64>, Set<u64>)
    decreases all_moves(p).len() - i,
{
    let ms = all_moves(p);
    if i < 0 || i >= ms.len() {
        (
            match best {
                Some(mv) => mv,
                None => ms[0],
            },
            m,
            Set::empty(),
        )
    } else {
        let rec = tt_ab_spec(
            p.apply_spec(ms[i]),
            (depth - 1) as nat,
            -(SCORE_INF as int),
            SCORE_INF as int,
            true,
            m,
            mask,
        );
        let s = -rec.0;
        let next = if s > best_score {
            tt_choice(p, depth, i + 1, Some(ms[i]), s, rec.1, mask)
        } else {
            tt_choice(p, depth, i + 1, best, best_score, rec.1, mask)
        };
        (next.0, next.1, rec.2.union(next.2))
    }
}

/// Stale entries never steer the root either: two starting tables that
/// agree on every hash the whole root search probes settle on the same
/// move.
pub proof fn lemma_tt_choice_ignores_stale<P: Position>(
    p: P,
    depth: nat,
    i: int,
    best: Option<u64>,
    best_score: int,
    m1: Map<u64, u64>,
    m2: Map<u64, u64>,
    mask: u64,
)
    requires
        forall|k: u64|
            #[trigger] tt_choice(p, depth, i, best, best_score, m1, mask).2.contains(k)
                ==> agree_at(m1, m2, k),
    ensures
        tt_choice(p, depth, i, best, best_score, m1, mask).0 == tt_choice(
            p,
            depth,
            i,
            best,
            best_score,
            m2,
            mask,
        ).0,
        tt_choice(p, depth, i, best, best_score, m1, mask).2 == tt_choice(
            p,
            depth,
            i,
            best,
            best_score,
            m2,
            mask,
        ).2,
    decreases all_moves(p).len() - i,
{
    let ms = all_moves(p);
    if 0 <= i < ms.len() {
        let cres1 = tt_choice(p, depth, i, best, best_score, m1, mask);
        let child = p.apply_spec(ms[i]);
        let rec1 = tt_ab_spec(
            child,
            (depth - 1) as nat,
            -(SCORE_INF as int),
            SCORE_INF as int,
            true,
            m1,
            mask,
        );
        let rec2 = tt_ab_spec(
            child,
            (depth - 1) as nat,
            -(SCORE_INF as int),
            SCORE_INF as int,
            true,
            m2,
            mask,
        );
        assert(forall|k: u64| #[trigger] rec1.2.contains(k) ==> cres1.2.contains(k));
        lemma_tt_search_ignores_stale(
            child,
            (depth - 1) as nat,
            -(SCORE_INF as int),
            SCORE_INF as int,
            true,
            m1,
            m2,
            mask,
        );
        let s = -rec1.0;
        let (nb, nbs) = if s > best_score {
            (Some(ms[i]), s)
        } else {
            (best, best_score)
        };
        let next1 = tt_choice(p, depth, i + 1, nb, nbs, rec1.1, mask);
        assert forall|k: u64| #[trigger] next1.2.contains(k) implies agree_at(
            rec1.1,
            rec2.1,
            k,
        ) by {
            assert(cres1.2.contains(k));
            assert(agree_at(m1, m2, k));
        }
        lemma_tt_choice_ignores_stale(p, depth, i + 1, nb, nbs, rec1.1, rec2.1, mask);
    }
}

/// Root of the transposition-table search: like [`find_move`], but every
/// successor is scored by [`tt_alpha_beta`] sharing one table across the
/// whole move loop. The chosen move and the table left behind are exactly
/// [`tt_choice`] of the table's starting contents: the first move whose
/// table-search score strictly beats every earlier one and is matched by no
/// later one, or the first enumerated move when no score improves on the
/// sentinel.
pub fn tt_find_move<P: Position>(board: &P, depth: u8, tt: &mut chess::CacheTable<u64>) -> (m:
    u64)
    requires
        board.wf(),
        depth >= 1,
        all_moves(*board).len() > 0,
    ensures
        all_moves(*board).contains(m),
        cache_mask(*final(tt)) == cache_mask(*old(tt)),
        m == tt_choice(
            *board,
            depth as nat,
            0,
            None::<u64>,
            -(SCORE_INF as int),
            cache_contents(*old(tt)),
            cache_mask(*old(tt)),
        ).0,
        cache_contents(*final(tt)) == tt_choice(
            *board,
            depth as nat,
            0,
            None::<u64>,
            -(SCORE_INF as int),
            cache_contents(*old(tt)),
            cache_mask(*old(tt)),
        ).1,
{
    let ghost dn = depth as nat;
    let ghost m0 = cache_contents(*tt);
    let ghost mask = cache_mask(*tt);
    let ghost target = tt_choice(*board, dn, 0, None::<u64>, -(SCORE_INF as int), m0, mask);
    let caps = board.capture_moves();
    let quiets = board.quiet_moves();
    let ghost ms = all_moves(*board);
    let mut best_move: Option<u64> = None;
    let mut best_move_score: i32 = -SCORE_INF;
    let mut i: usize = 0;
    while i < caps.len()
        invariant
            board.wf(),
            depth >= 1,
            dn == depth as nat,
            caps@ == board.captures_spec(),
            quiets@ == board.quiets_spec(),
            ms == all_moves(*board),
            ms.len() > 0,
            i <= caps.len(),
            mask == cache_mask(*tt),
            m0 == cache_contents(*old(tt)),
            mask == cache_mask(*old(tt)),
            best_move.is_none() ==> best_move_score == -SCORE_INF,
            best_move.is_some() ==> ms.contains(best_move.unwrap()),
            target == tt_choice(*board, dn, 0, None::<u64>, -(SCORE_INF as int), m0, mask),
            target.0 == tt_choice(
                *board,
                dn,
                i as int,
                best_move,
                best_move_score as int,
                cache_contents(*tt),
                mask,
            ).0,
            target.1 == tt_choice(
                *board,
                dn,
                i as int,
                best_move,
                best_move_score as int,
                cache_contents(*tt),
                mask,
            ).1,
        decreases caps.len() - i,
    {
        let m = caps[i];
        proof {
            assert(ms[i as int] == caps@[i as int]);
            assert(board.captures_spec().contains(m));
            board.lemma_apply_wf(m);
        }
        let child = board.apply(m);
        let t = tt_alpha_beta(&child, depth - 1, -SCORE_INF, SCORE_INF, true, tt);
        let score = -t;
        if score > best_move_score {
            proof {
                assert(ms.contains(m)) by { assert(ms[i as int] == m); }
            }
            best_move = Some(m);
            best_move_score = score;
        }
        i = i + 1;
    }
    let mut j: usize = 0;
    while j < quiets.len()
        invariant
            board.wf(),
            depth >= 1,
            dn == depth as nat,
            caps@ == board.captures_spec(),
            quiets@ == board.quiets_spec(),
            ms == all_moves(*board),
            ms.len() > 0,
            j <= quiets.len(),
            mask == cache_mask(*tt),
            m0 == cache_contents(*old(tt)),
            mask == cache_mask(*old(tt)),
            best_move.is_none() ==> best_move_score == -SCORE_INF,
            best_move.is_some() ==> ms.contains(best_move.unwrap()),
            target == tt_choice(*board, dn, 0, None::<u64>, -(SCORE_INF as int), m0, mask),
            target.0 == tt_choice(
                *board,
                dn,
                caps@.len() + j as int,
                best_move,
                best_move_score as int,
                cache_contents(*tt),
                mask,
            ).0,
            target.1 == tt_choice(
                *board,
                dn,
                caps@.len() + j as int,
                best_move,
                best_move_score as int,
                cache_contents(*tt),
                mask,
            ).1,
        decreases quiets.len() - j,
    {
        let m = quiets[j];
        let ghost g = caps@.len() + j as int;
        proof {
            assert(ms[g] == quiets@[j as int]);
            assert(board.quiets_spec().contains(m));
            board.lemma_apply_wf(m);
        }
        let child = board.apply(m);
        let t = tt_alpha_beta(&child, depth - 1, -SCORE_INF, SCORE_INF, true, tt);
        let score = -t;
        if score > best_move_score {
            proof {
                assert(ms.contains(m)) by { assert(ms[g] == m); }
            }
            best_move = Some(m);
            best_move_score = score;
        }
        j = j + 1;
    }
    proof {
        assert(caps@.len() + quiets@.len() == ms.len());
    }
    match best_move {
        Some(chosen_move) => chosen_move,
        // If checkmate is inevitable, no move will have been selected: any
        // legal move does, so take the first enumerated one.
        None => {
            proof {
                assert(ms[0] == if caps@.len() > 0 {
                    caps@[0]
                } else {
                    quiets@[0]
                });
                assert(ms.contains(ms[0]));
            }
            if caps.len() > 0 {
                caps[0]
            } else {
                quiets[0]
            }
        },
    }
}

} // verus!
