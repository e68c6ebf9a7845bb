use std::str::FromStr;

use chess::{Board, ChessMove, Color, MoveGen, Piece, Square, ALL_SQUARES};
use stonksfich::engine::evaluation::{evaluate_board, PieceBitboards};
use stonksfich::engine::player::{Bot, Player, TTBot};
use stonksfich::engine::search::{find_move, tt_find_move};
use stonksfich::engine::tt::tt_new;
use stonksfich::position::Position;

/// The real rules backend: a `chess::Board` driving the verified engine.
#[derive(Clone)]
struct LiveBoard(Board);

fn encode_move(m: ChessMove) -> u64 {
    let promo: u64 = match m.get_promotion() {
        None => 0,
        Some(Piece::Knight) => 1,
        Some(Piece::Bishop) => 2,
        Some(Piece::Rook) => 3,
        Some(Piece::Queen) => 4,
        Some(_) => 5,
    };
    m.get_source().to_index() as u64 | ((m.get_dest().to_index() as u64) << 6) | (promo << 12)
}

fn decode_move(code: u64) -> ChessMove {
    let from: Square = ALL_SQUARES[(code & 63) as usize];
    let to: Square = ALL_SQUARES[((code >> 6) & 63) as usize];
    let promo = match (code >> 12) & 15 {
        1 => Some(Piece::Knight),
        2 => Some(Piece::Bishop),
        3 => Some(Piece::Rook),
        4 => Some(Piece::Queen),
        _ => None,
    };
    ChessMove::new(from, to, promo)
}

fn bitboards_of(b: &Board) -> PieceBitboards {
    PieceBitboards {
        white_pawns: (b.pieces(Piece::Pawn) & b.color_combined(Color::White)).0,
        black_pawns: (b.pieces(Piece::Pawn) & b.color_combined(Color::Black)).0,
        white_knights: (b.pieces(Piece::Knight) & b.color_combined(Color::White)).0,
        black_knights: (b.pieces(Piece::Knight) & b.color_combined(Color::Black)).0,
        white_bishops: (b.pieces(Piece::Bishop) & b.color_combined(Color::White)).0,
        black_bishops: (b.pieces(Piece::Bishop) & b.color_combined(Color::Black)).0,
        white_rooks: (b.pieces(Piece::Rook) & b.color_combined(Color::White)).0,
        black_rooks: (b.pieces(Piece::Rook) & b.color_combined(Color::Black)).0,
        white_queens: (b.pieces(Piece::Queen) & b.color_combined(Color::White)).0,
        black_queens: (b.pieces(Piece::Queen) & b.color_combined(Color::Black)).0,
        white_to_move: b.side_to_move() == Color::White,
    }
}

impl Position for LiveBoard {
    // The ghost members of the trait — the specification shadows and the
    // proof obligations — are erased at runtime and never called; a rules
    // backend outside the verified crate stubs them out.
    fn wf(&self) -> bool {
        unreachable!()
    }

    fn eval_spec(&self) -> stonksfich::position::MathInt {
        unreachable!()
    }

    fn captures_spec(&self) -> stonksfich::position::MathSeq<u64> {
        unreachable!()
    }

    fn quiets_spec(&self) -> stonksfich::position::MathSeq<u64> {
        unreachable!()
    }

    fn apply_spec(&self, _m: u64) -> Self {
        unreachable!()
    }

    fn null_spec(&self) -> Option<Self> {
        unreachable!()
    }

    fn hash_spec(&self) -> u64 {
        unreachable!()
    }

    fn qmeasure(&self) -> stonksfich::position::MathNat {
        unreachable!()
    }

    fn lemma_eval_bounded(&self) {
        unreachable!()
    }

    fn lemma_apply_wf(&self, _m: u64) {
        unreachable!()
    }

    fn lemma_capture_qmeasure(&self, _m: u64) {
        unreachable!()
    }

    fn lemma_null_wf(&self) {
        unreachable!()
    }

    fn eval(&self) -> i32 {
        evaluate_board(&bitboards_of(&self.0))
    }

    fn capture_moves(&self) -> Vec<u64> {
        let mut movegen = MoveGen::new_legal(&self.0);
        let targets = *self.0.color_combined(!self.0.side_to_move());
        movegen.set_iterator_mask(targets);
        movegen.map(encode_move).collect()
    }

    fn quiet_moves(&self) -> Vec<u64> {
        let mut movegen = MoveGen::new_legal(&self.0);
        let targets = *self.0.color_combined(!self.0.side_to_move());
        movegen.set_iterator_mask(!targets);
        movegen.map(encode_move).collect()
    }

    fn apply(&self, m: u64) -> Self {
        LiveBoard(self.0.make_move_new(decode_move(m)))
    }

    fn null_move(&self) -> Option<Self> {
        self.0.null_move().map(LiveBoard)
    }

    fn hash(&self) -> u64 {
        self.0.get_hash()
    }
}

#[test]
fn starting_position_yields_a_legal_move() {
    let board = Board::default();
    let code = find_move(&LiveBoard(board), 1);
    let m = decode_move(code);
    assert!(board.legal(m));
}

#[test]
fn starting_position_depth_two_yields_a_legal_move() {
    let board = Board::default();
    let code = find_move(&LiveBoard(board), 2);
    assert!(board.legal(decode_move(code)));
}

#[test]
fn hanging_queen_is_captured() {
    // White rook on d1 can take the undefended black queen on d5.
    let board = Board::from_str("k7/8/8/3q4/8/8/8/3R3K w - - 0 1").unwrap();
    for depth in 2..=4u8 {
        let m = decode_move(find_move(&LiveBoard(board), depth));
        assert_eq!(m.get_source(), Square::D1, "depth {}", depth);
        assert_eq!(m.get_dest(), Square::D5, "depth {}", depth);
    }
}

#[test]
fn hanging_queen_is_captured_with_table() {
    let board = Board::from_str("k7/8/8/3q4/8/8/8/3R3K w - - 0 1").unwrap();
    let mut tt = tt_new(4096);
    let m = decode_move(tt_find_move(&LiveBoard(board), 3, &mut tt));
    assert_eq!(m.get_source(), Square::D1);
    assert_eq!(m.get_dest(), Square::D5);
}

#[test]
fn bots_play_legal_chess_moves() {
    let board = Board::default();
    let mut bot = Bot { depth: 2 };
    let code = bot.choose_move(&LiveBoard(board));
    assert!(board.legal(decode_move(code)));

    let mut ttbot = TTBot::new(2, 4096);
    let code = ttbot.choose_move(&LiveBoard(board));
    assert!(board.legal(decode_move(code)));
}

#[test]
fn evaluation_matches_for_real_boards() {
    // The starting position is balanced. After 1. e4 white's pawn moves
    // from the -20 e2 square to the +20 e4 square, so the mover (black)
    // sees -40.
    let board = Board::default();
    assert_eq!(evaluate_board(&bitboards_of(&board)), 0);
    let after_e4 = board.make_move_new(ChessMove::new(Square::E2, Square::E4, None));
    assert_eq!(evaluate_board(&bitboards_of(&after_e4)), -40);
}
