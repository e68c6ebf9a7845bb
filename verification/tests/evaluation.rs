use stonksfich::engine::evaluation::{
    evaluate_board, mirror_positional_evaluation, popcount, positional_evaluation,
    PieceBitboards, KNIGHT_SQUARES, PAWN_SQUARES,
};

fn empty_board(white_to_move: bool) -> PieceBitboards {
    PieceBitboards {
        white_pawns: 0,
        black_pawns: 0,
        white_knights: 0,
        black_knights: 0,
        white_bishops: 0,
        black_bishops: 0,
        white_rooks: 0,
        black_rooks: 0,
        white_queens: 0,
        black_queens: 0,
        white_to_move,
    }
}

fn starting_board() -> PieceBitboards {
    PieceBitboards {
        white_pawns: 0x0000_0000_0000_FF00,
        black_pawns: 0x00FF_0000_0000_0000,
        white_knights: 0x0000_0000_0000_0042,
        black_knights: 0x4200_0000_0000_0000,
        white_bishops: 0x0000_0000_0000_0024,
        black_bishops: 0x2400_0000_0000_0000,
        white_rooks: 0x0000_0000_0000_0081,
        black_rooks: 0x8100_0000_0000_0000,
        white_queens: 0x0000_0000_0000_0008,
        black_queens: 0x0800_0000_0000_0000,
        white_to_move: true,
    }
}

#[test]
fn popcount_counts_bits() {
    assert_eq!(popcount(0), 0);
    assert_eq!(popcount(1), 1);
    assert_eq!(popcount(0xFF00), 8);
    assert_eq!(popcount(u64::MAX), 64);
}

#[test]
fn starting_position_is_balanced() {
    assert_eq!(evaluate_board(&starting_board()), 0);
    let mut black_view = starting_board();
    black_view.white_to_move = false;
    assert_eq!(evaluate_board(&black_view), 0);
}

#[test]
fn pawn_table_rewards_central_pawn() {
    // A lone white pawn on e4 (square index 28): 100 material plus the
    // 20-point piece-square bonus of the fourth-rank center.
    assert_eq!(positional_evaluation(1u64 << 28, &PAWN_SQUARES), 20);
    let mut b = empty_board(true);
    b.white_pawns = 1u64 << 28;
    assert_eq!(evaluate_board(&b), 120);
    b.white_to_move = false;
    assert_eq!(evaluate_board(&b), -120);
}

#[test]
fn mirror_table_reads_black_squares() {
    // A black pawn on e5 (square index 36) reads the white table at
    // 36 ^ 56 == 28, the e4 entry.
    assert_eq!(mirror_positional_evaluation(1u64 << 36, &PAWN_SQUARES), 20);
    // A black knight on b8 (square 57) reads the white b1 entry (57 ^ 56 == 1).
    assert_eq!(mirror_positional_evaluation(1u64 << 57, &KNIGHT_SQUARES), -40);
}

#[test]
fn lone_white_queen_scores_a_queen() {
    // Only kings and one extra white queen: exactly a queen in white's
    // favor, from whichever side is to move.
    let mut b = empty_board(true);
    b.white_queens = 1u64 << 3;
    assert_eq!(evaluate_board(&b), 900);
    b.white_to_move = false;
    assert_eq!(evaluate_board(&b), -900);
}

#[test]
fn mirrored_position_evaluates_equal() {
    // Color-mirror a small middlegame-ish position: every set vertically
    // flipped, colors swapped, mover swapped. The evaluation is unchanged.
    let mut b = empty_board(true);
    b.white_pawns = (1u64 << 28) | (1u64 << 11);
    b.black_pawns = 1u64 << 50;
    b.white_knights = 1u64 << 21;
    b.black_rooks = 1u64 << 63;
    b.white_queens = 1u64 << 3;

    let m = PieceBitboards {
        white_pawns: b.black_pawns.swap_bytes(),
        black_pawns: b.white_pawns.swap_bytes(),
        white_knights: b.black_knights.swap_bytes(),
        black_knights: b.white_knights.swap_bytes(),
        white_bishops: b.black_bishops.swap_bytes(),
        black_bishops: b.white_bishops.swap_bytes(),
        white_rooks: b.black_rooks.swap_bytes(),
        black_rooks: b.white_rooks.swap_bytes(),
        white_queens: b.black_queens.swap_bytes(),
        black_queens: b.white_queens.swap_bytes(),
        white_to_move: !b.white_to_move,
    };
    assert_eq!(evaluate_board(&b), evaluate_board(&m));
}

#[test]
fn material_only_evaluation_ignores_squares() {
    let mut b = empty_board(true);
    b.white_pawns = 1u64 << 28;
    assert_eq!(stonksfich::engines::simple_engine::evaluate_board(&b), 100);
    b.white_to_move = false;
    assert_eq!(stonksfich::engines::simple_engine::evaluate_board(&b), -100);
}
