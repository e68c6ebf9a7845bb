//! Players: anything that can choose a legal move for a position.

use vstd::prelude::*;

use crate::engine::search::{chosen_at, find_move, tt_choice, tt_find_move};
use crate::engine::tt::{cache_contents, cache_mask, fresh_word, tt_new};
use crate::position::{all_moves, Position, SCORE_INF};
use vstd::map::*;

verus! {

/// A trait representing some entity that can play the game: asked for a
/// position with at least one legal move, it hands back one of them.
pub trait Player<P: Position>: Sized {
    /// Whether this player is set up to be asked for a move.
    spec fn ready(&self) -> bool;

    /// Choose a legal move for the given position.
    fn choose_move(&mut self, board: &P) -> (m: u64)
        requires
            old(self).ready(),
            board.wf(),
            all_moves(*board).len() > 0,
        ensures
            final(self).ready(),
            all_moves(*board).contains(m),
    ;
}

/// A player representing an AI, finding its moves through searching the
/// game tree.
pub struct Bot {
    pub depth: u8,
}

impl Bot {
    /// The engine's settled choice for this position: exactly the root
    /// search's move — the first move whose score beats every earlier one
    /// and is matched by no later one, or the first enumerated move when no
    /// score improves on the sentinel.
    pub fn pick_move<P: Position>(&self, board: &P) -> (m: u64)
        requires
            self.depth >= 1,
            board.wf(),
            all_moves(*board).len() > 0,
        ensures
            (exists|i: int| chosen_at(*board, self.depth as nat, i)) ==> (exists|i: int|
                chosen_at(*board, self.depth as nat, i) && m == all_moves(*board)[i]),
            !(exists|i: int| chosen_at(*board, self.depth as nat, i)) ==> m == all_moves(
                *board,
            )[0],
            all_moves(*board).contains(m),
    {
        find_move(board, self.depth)
    }
}

impl<P: Position> Player<P> for Bot {
    open spec fn ready(&self) -> bool {
        self.depth >= 1
    }

    fn choose_move(&mut self, board: &P) -> (m: u64)
        ensures
            final(self).depth == old(self).depth,
            (exists|i: int| chosen_at(*board, old(self).depth as nat, i)) ==> (exists|i: int|
                chosen_at(*board, old(self).depth as nat, i) && m == all_moves(*board)[i]),
            !(exists|i: int| chosen_at(*board, old(self).depth as nat, i)) ==> m == all_moves(
                *board,
            )[0],
    {
        self.pick_move(board)
    }
}

/// A player representing an AI, finding its moves through searching the
/// game tree with a transposition table kept across positions.
pub struct TTBot {
    pub depth: u8,
    pub tt: chess::CacheTable<u64>,
}

impl TTBot {
    /// Build a bot searching to `depth` with a fresh transposition table of
    /// `tt_size` slots; the slot count must be a power of two.
    pub fn new(depth: u8, tt_size: usize) -> (r: TTBot)
        requires
            tt_size > 0,
            tt_size & ((tt_size - 1) as usize) == 0,
        ensures
            r.depth == depth,
            cache_contents(r.tt) == map![0u64 => fresh_word()],
            cache_mask(r.tt) == (tt_size - 1) as u64,
    {
        TTBot { depth, tt: tt_new(tt_size) }
    }

    /// The table search's settled choice for this position, over this bot's
    /// own table: exactly [`tt_choice`] of the table's contents before the
    /// call, which also pins the contents the search leaves behind.
    pub fn pick_move<P: Position>(&mut self, board: &P) -> (m: u64)
        requires
            old(self).depth >= 1,
            board.wf(),
            all_moves(*board).len() > 0,
        ensures
            final(self).depth == old(self).depth,
            cache_mask(final(self).tt) == cache_mask(old(self).tt),
            all_moves(*board).contains(m),
            m == tt_choice(
                *board,
                old(self).depth as nat,
                0,
                None::<u64>,
                -(SCORE_INF as int),
                cache_contents(old(self).tt),
                cache_mask(old(self).tt),
            ).0,
            cache_contents(final(self).tt) == tt_choice(
                *board,
                old(self).depth as nat,
                0,
                None::<u64>,
                -(SCORE_INF as int),
                cache_contents(old(self).tt),
                cache_mask(old(self).tt),
            ).1,
    {
        tt_find_move(board, self.depth, &mut self.tt)
    }
}

impl<P: Position> Player<P> for TTBot {
    open spec fn ready(&self) -> bool {
        self.depth >= 1
    }

    fn choose_move(&mut self, board: &P) -> (m: u64)
        ensures
            final(self).depth == old(self).depth,
            cache_mask(final(self).tt) == cache_mask(old(self).tt),
            m == tt_choice(
                *board,
                old(self).depth as nat,
                0,
                None::<u64>,
                -(SCORE_INF as int),
                cache_contents(old(self).tt),
                cache_mask(old(self).tt),
            ).0,
            cache_contents(final(self).tt) == tt_choice(
                *board,
                old(self).depth as nat,
                0,
                None::<u64>,
                -(SCORE_INF as int),
                cache_contents(old(self).tt),
                cache_mask(old(self).tt),
            ).1,
    {
        self.pick_move(board)
    }
}

/// A player representing a human. Reading a move from a terminal is I/O the
/// verified core does not perform: the surrounding program implements
/// [`Player`] for its own input handle and validates what is typed. This
/// marker keeps the human in the player vocabulary the engines share.
pub struct Human {}

} // verus!
