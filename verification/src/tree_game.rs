//! A small, fully verified game backend: the whole game is given up front as
//! a table of at most 64 nodes, and a position is an index into that table.
//! Edges are bitmasks over node indices, so every position value is `Copy`.
//!
//! This backend exists so that the engine can be exercised against a game
//! whose exact tree is known: brute-force values of tiny trees are easy to
//! write down in a test and compare against the search.

use vstd::prelude::*;

use crate::bitboard::{bit, bits_of, lemma_mask_seq_contains, mask_seq};
use crate::position::{Position, MAX_EVAL};

verus! {

/// One node of the game table. `caps` and `quiets` are bitmasks over node
/// indices: bit `t` set means there is a capturing (resp. quiet) move from
/// this node to node `t`, encoded as the move code `t`. `pass` is the node
/// reached by passing, where passing is representable.
#[derive(Clone, Copy)]
pub struct TreeNode {
    pub score: i32,
    pub level: u8,
    pub caps: u64,
    pub quiets: u64,
    pub pass: Option<u8>,
}

/// A position in a table-driven game: the table plus the current node.
#[derive(Clone, Copy)]
pub struct TreeGame {
    pub nodes: [TreeNode; 64],
    pub at: usize,
}

/// Well-formedness of one node of the table: its score is a real evaluation,
/// every capture edge strictly lowers `level`, and a pass edge stays in the
/// table.
pub open spec fn node_wf(ns: Seq<TreeNode>, k: int) -> bool {
    &&& -(MAX_EVAL as int) <= ns[k].score as int <= MAX_EVAL as int
    &&& forall|c: u64|
        c < 64 && #[trigger] bit(ns[k].caps, c) ==> (ns[c as int].level as nat) < (
        ns[k].level as nat)
    &&& (ns[k].pass.is_some() ==> (ns[k].pass.unwrap() as int) < 64)
}

impl Position for TreeGame {
    open spec fn wf(&self) -> bool {
        &&& self.at < 64
        &&& forall|k: int| 0 <= k < 64 ==> node_wf(self.nodes@, k)
    }

    open spec fn eval_spec(&self) -> int {
        self.nodes@[self.at as int].score as int
    }

    open spec fn captures_spec(&self) -> Seq<u64> {
        mask_seq(self.nodes@[self.at as int].caps, 64)
    }

    open spec fn quiets_spec(&self) -> Seq<u64> {
        mask_seq(self.nodes@[self.at as int].quiets, 64)
    }

    open spec fn apply_spec(&self, m: u64) -> Self {
        TreeGame { nodes: self.nodes, at: m as usize }
    }

    open spec fn null_spec(&self) -> Option<Self> {
        match self.nodes@[self.at as int].pass {
            Some(t) => Some(TreeGame { nodes: self.nodes, at: t as usize }),
            None => None,
        }
    }

    open spec fn hash_spec(&self) -> u64 {
        self.at as u64
    }

    open spec fn qmeasure(&self) -> nat {
        self.nodes@[self.at as int].level as nat
    }

    proof fn lemma_eval_bounded(&self) {
        assert(node_wf(self.nodes@, self.at as int));
    }

    proof fn lemma_apply_wf(&self, m: u64) {
        let node = self.nodes@[self.at as int];
        lemma_mask_seq_contains(node.caps, 64, m);
        lemma_mask_seq_contains(node.quiets, 64, m);
    }

    proof fn lemma_capture_qmeasure(&self, m: u64) {
        let node = self.nodes@[self.at as int];
        lemma_mask_seq_contains(node.caps, 64, m);
        assert(node_wf(self.nodes@, self.at as int));
    }

    proof fn lemma_null_wf(&self) {
        assert(node_wf(self.nodes@, self.at as int));
    }

    fn eval(&self) -> (s: i32) {
        self.nodes[self.at].score
    }

    fn capture_moves(&self) -> (v: Vec<u64>) {
        bits_of(self.nodes[self.at].caps)
    }

    fn quiet_moves(&self) -> (v: Vec<u64>) {
        bits_of(self.nodes[self.at].quiets)
    }

    fn apply(&self, m: u64) -> (q: Self) {
        proof {
            let node = self.nodes@[self.at as int];
            lemma_mask_seq_contains(node.caps, 64, m);
            lemma_mask_seq_contains(node.quiets, 64, m);
        }
        TreeGame { nodes: self.nodes, at: m as usize }
    }

    fn null_move(&self) -> (q: Option<Self>) {
        match self.nodes[self.at].pass {
            Some(t) => Some(TreeGame { nodes: self.nodes, at: t as usize }),
            None => None,
        }
    }

    fn hash(&self) -> (h: u64) {
        self.at as u64
    }
}

} // verus!
