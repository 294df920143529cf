use std::str::FromStr;

use chess::{Board, MoveGen};
use tinyccrl_engine::nnue::{Nnue, NnueWeights};
use tinyccrl_engine::position::Move;
use tinyccrl_engine::search::{stable_order, Searcher, TtFlag};

fn text(mv: &Move) -> String {
    String::from_utf8(mv.uci_text()).unwrap()
}

#[test]
fn search_returns_legal_move() {
    let nnue = Nnue::new(NnueWeights::zero(256, 32));
    let mut searcher = Searcher::new(&nnue);
    let board = Board::default();
    let (mv, _) = searcher.best_move(board.to_string().as_bytes(), 3).unwrap();
    let legal: Vec<String> = MoveGen::new_legal(&board).map(|m| m.to_string()).collect();
    assert!(legal.contains(&text(&mv)));
}

#[test]
fn search_stays_within_the_node_budget() {
    let nnue = Nnue::new(NnueWeights::zero(8, 4));
    for budget in [1u64, 25, 100, 500] {
        let mut searcher = Searcher::new(&nnue).with_max_nodes(budget);
        let board = Board::from_str(
            "r3k2r/p1ppqpb1/bn2pnp1/3PN3/1p2P3/2N2Q1p/PPPBBPPP/R3K2R w KQkq - 0 1",
        )
        .unwrap();
        let result = searcher.best_move(board.to_string().as_bytes(), 20);
        assert!(result.is_some());
        assert!(searcher.nodes() <= budget);
        assert_eq!(searcher.nodes(), budget);
    }
}

#[test]
fn search_without_legal_moves_returns_none() {
    let nnue = Nnue::new(NnueWeights::zero(8, 4));
    let mut searcher = Searcher::new(&nnue);
    // Black is checkmated.
    let board = Board::from_str("7k/6Q1/6K1/8/8/8/8/8 b - - 0 1").unwrap();
    assert!(searcher.best_move(board.to_string().as_bytes(), 3).is_none());
}

#[test]
fn search_finds_mate_in_one() {
    let nnue = Nnue::new(NnueWeights::zero(8, 4));
    let mut searcher = Searcher::new(&nnue);
    let board = Board::from_str("6k1/5ppp/8/8/8/8/8/R5K1 w - - 0 1").unwrap();
    let (mv, score) = searcher.best_move(board.to_string().as_bytes(), 2).unwrap();
    assert_eq!(text(&mv), "a1a8");
    assert_eq!(score, 100_000);
}

#[test]
fn transposition_table_reads_back_what_was_stored() {
    let nnue = Nnue::new(NnueWeights::zero(8, 4));
    let mut searcher = Searcher::new(&nnue);
    let key = 0x1234_5678_9abc_def0u64;
    assert_eq!(searcher.probe_tt(key, 0, -10, 10), None);
    searcher.store_tt(key, 5, TtFlag::Exact, 42, None);
    assert_eq!(searcher.probe_tt(key, 5, -10, 10), Some(42));
    assert_eq!(searcher.probe_tt(key, 3, -10, 10), Some(42));
    assert_eq!(searcher.probe_tt(key, 6, -10, 10), None);
    // Same slot, other key: no answer.
    assert_eq!(searcher.probe_tt(key ^ (1 << 40), 0, -10, 10), None);
    searcher.store_tt(key, 5, TtFlag::Lower, 30, None);
    assert_eq!(searcher.probe_tt(key, 5, -10, 30), Some(30));
    assert_eq!(searcher.probe_tt(key, 5, -10, 31), None);
    searcher.store_tt(key, 5, TtFlag::Upper, -20, None);
    assert_eq!(searcher.probe_tt(key, 5, -20, 30), Some(-20));
    assert_eq!(searcher.probe_tt(key, 5, -21, 30), None);
}

#[test]
fn stable_order_sorts_by_key_keeping_ties_in_place() {
    assert_eq!(stable_order(&vec![]), Vec::<usize>::new());
    assert_eq!(stable_order(&vec![3, 1, 2, 1, 3, 0]), vec![5, 1, 3, 2, 0, 4]);
    assert_eq!(stable_order(&vec![7, 7, 7]), vec![0, 1, 2]);
    assert_eq!(stable_order(&vec![i32::MAX, i32::MIN, 0]), vec![1, 2, 0]);
}

#[test]
fn without_depth_or_budget_the_first_legal_move_comes_back_unsearched() {
    let nnue = Nnue::new(NnueWeights::zero(8, 4));
    let board = Board::default();
    let first = MoveGen::new_legal(&board).next().unwrap().to_string();
    let mut searcher = Searcher::new(&nnue);
    let (mv, score) = searcher.best_move(board.to_string().as_bytes(), 0).unwrap();
    assert_eq!(text(&mv), first);
    assert_eq!(score, i32::MIN + 1);
    assert_eq!(searcher.nodes(), 0);
    let mut searcher = Searcher::new(&nnue).with_max_nodes(0);
    let (mv, score) = searcher.best_move(board.to_string().as_bytes(), 5).unwrap();
    assert_eq!(text(&mv), first);
    assert_eq!(score, i32::MIN + 1);
    assert_eq!(searcher.nodes(), 0);
}

#[test]
fn stalemate_has_no_move() {
    let nnue = Nnue::new(NnueWeights::zero(8, 4));
    let mut searcher = Searcher::new(&nnue);
    assert!(searcher.best_move(b"7k/5Q2/6K1/8/8/8/8/8 b - - 0 1", 3).is_none());
}
