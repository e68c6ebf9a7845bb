use stonksfich::engine::player::{Bot, Player, TTBot};
use stonksfich::engine::search::{alpha_beta_search, find_move, quiescence_search, tt_find_move};
use stonksfich::engine::tt::{tt_new, tt_store, TTFlag};
use stonksfich::engines::simple_engine;
use stonksfich::tree_game::{TreeGame, TreeNode};

fn leaf(score: i32) -> TreeNode {
    TreeNode { score, level: 0, caps: 0, quiets: 0, pass: None }
}

fn blank() -> [TreeNode; 64] {
    [leaf(0); 64]
}

/// Root 0 with quiet moves to 1 and 2; 1 is much better for the mover at
/// the root (the opponent stands at -50 there).
fn two_reply_game() -> TreeGame {
    let mut nodes = blank();
    nodes[0] = TreeNode { score: 0, level: 0, caps: 0, quiets: 0b110, pass: None };
    nodes[1] = leaf(-50);
    nodes[2] = leaf(30);
    TreeGame { nodes, at: 0 }
}

/// A two-ply tree: 0 -> {1, 2}, 1 -> {3, 4}, 2 -> {5, 6}, with leaf scores
/// from the leaf mover's perspective.
fn two_ply_game() -> TreeGame {
    let mut nodes = blank();
    nodes[0] = TreeNode { score: 0, level: 0, caps: 0, quiets: 0b110, pass: None };
    nodes[1] = TreeNode { score: 0, level: 0, caps: 0, quiets: 0b11000, pass: None };
    nodes[2] = TreeNode { score: 0, level: 0, caps: 0, quiets: 0b1100000, pass: None };
    nodes[3] = leaf(10);
    nodes[4] = leaf(-20);
    nodes[5] = leaf(7);
    nodes[6] = leaf(40);
    TreeGame { nodes, at: 0 }
}

#[test]
fn depth_one_picks_best_reply() {
    let g = two_reply_game();
    assert_eq!(simple_engine::find_move(&g, 1), 1);
    assert_eq!(find_move(&g, 1), 1);
}

#[test]
fn pruning_search_equals_exhaustive_negamax() {
    // By hand: negamax(1, 1) = max(-10, 20) = 20, negamax(2, 1) =
    // max(-7, -40) = -7, so negamax(0, 2) = max(-20, 7) = 7. The pruning
    // search with the full window must return exactly that.
    let g = two_ply_game();
    assert_eq!(simple_engine::alpha_beta_nega(&g, 2, -20000, 20000), 7);
}

#[test]
fn narrow_windows_clamp_the_value() {
    let g = two_ply_game();
    assert_eq!(simple_engine::alpha_beta_nega(&g, 2, 0, 5), 5);
    assert_eq!(simple_engine::alpha_beta_nega(&g, 2, 10, 20), 10);
    assert_eq!(simple_engine::alpha_beta_nega(&g, 2, -5, 20), 7);
}

#[test]
fn main_engine_agrees_where_the_tree_is_quiet() {
    // No captures and no pass edges anywhere: quiescence stands pat at
    // every leaf and null-move pruning never arms, so the main engine
    // computes the same exhaustive value as the plain one.
    let g = two_ply_game();
    assert_eq!(alpha_beta_search(&g, 2, -20000, 20000, true), 7);
    assert_eq!(alpha_beta_search(&g, 2, 0, 5, true), 5);
}

#[test]
fn depth_two_picks_the_better_line() {
    let g = two_ply_game();
    // Root scores: move 1 -> -20, move 2 -> 7.
    assert_eq!(simple_engine::find_move(&g, 2), 2);
    assert_eq!(find_move(&g, 2), 2);
}

#[test]
fn quiescence_stands_pat_without_captures() {
    let mut nodes = blank();
    nodes[0] = leaf(15);
    let g = TreeGame { nodes, at: 0 };
    assert_eq!(quiescence_search(&g, -100, 100), 15);
    assert_eq!(quiescence_search(&g, 30, 100), 30);
    assert_eq!(quiescence_search(&g, -100, 10), 10);
}

#[test]
fn quiescence_resolves_a_capture() {
    let mut nodes = blank();
    nodes[0] = TreeNode { score: 0, level: 1, caps: 0b10, quiets: 0, pass: None };
    nodes[1] = leaf(-30);
    let g = TreeGame { nodes, at: 0 };
    // Standing pat scores 0, but capturing reaches a node worth -30 for
    // the opponent: the quiescence value is 30.
    assert_eq!(quiescence_search(&g, -100, 100), 30);
}

#[test]
fn null_move_pruning_can_cut_where_plain_search_does_not() {
    let mut nodes = blank();
    nodes[0] = TreeNode { score: 0, level: 0, caps: 0, quiets: 0b10, pass: Some(9) };
    nodes[1] = leaf(-5);
    nodes[9] = leaf(-50);
    let g = TreeGame { nodes, at: 0 };
    // Passing leaves the opponent at -50: even a free tempo refutes the
    // window ceiling, so the null-move search fails high at beta.
    assert_eq!(alpha_beta_search(&g, 1, -10, 10, true), 10);
    // The plain search scores the single quiet reply: 5.
    assert_eq!(alpha_beta_search(&g, 1, -10, 10, false), 5);
}

#[test]
fn repeated_queries_choose_the_same_move() {
    let g = two_ply_game();
    let mut bot = Bot { depth: 2 };
    let first = bot.choose_move(&g);
    let second = bot.choose_move(&g);
    assert_eq!(first, second);
    assert_eq!(first, 2);
}

#[test]
fn transposition_table_is_transparent_here() {
    let g = two_ply_game();
    let plain = find_move(&g, 2);
    let mut tt = tt_new(256);
    assert_eq!(tt_find_move(&g, 2, &mut tt), plain);
    // A second query against the now-populated table agrees too.
    assert_eq!(tt_find_move(&g, 2, &mut tt), plain);
}

#[test]
fn stale_entries_from_unrelated_positions_are_ignored() {
    let g = two_ply_game();
    let plain = find_move(&g, 2);
    let mut tt = tt_new(256);
    // Seed the table with entries under hashes no node of this game has:
    // they share slots with real hashes only by masking, and a probe
    // checks the full hash, so they must never be consulted.
    tt_store(&mut tt, 999, 7, 12345, TTFlag::Exact);
    tt_store(&mut tt, 64, 7, -9999, TTFlag::Exact);
    tt_store(&mut tt, 65, 7, 11111, TTFlag::LowerBound);
    assert_eq!(tt_find_move(&g, 2, &mut tt), plain);
}

#[test]
fn tt_bot_agrees_with_plain_bot() {
    let g = two_ply_game();
    let mut bot = Bot { depth: 2 };
    let mut ttbot = TTBot::new(2, 1024);
    assert_eq!(ttbot.choose_move(&g), bot.choose_move(&g));
}

#[test]
fn inherent_picks_agree_with_the_player_interface() {
    let g = two_ply_game();
    let bot = Bot { depth: 2 };
    assert_eq!(bot.pick_move(&g), 2);
    let mut ttbot = TTBot::new(2, 512);
    assert_eq!(ttbot.pick_move(&g), 2);
}

#[test]
fn fresh_tables_give_the_same_answer() {
    // Two searches of the same position and depth, each from a freshly
    // built empty table, settle on the same move.
    let g = two_ply_game();
    let mut first = TTBot::new(2, 512);
    let mut second = TTBot::new(2, 512);
    assert_eq!(first.choose_move(&g), second.choose_move(&g));
}
