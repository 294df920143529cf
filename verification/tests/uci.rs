use tinyccrl_engine::nnue::NnueWeights;
use tinyccrl_engine::nnue::Nnue;
use tinyccrl_engine::position::Move;
use tinyccrl_engine::uci::{best_move_text, parse_u64, split_words, Uci, UciReply};

fn words(line: &str) -> Vec<String> {
    split_words(line.as_bytes()).into_iter().map(|w| String::from_utf8(w).unwrap()).collect()
}

#[test]
fn split_words_splits_on_whitespace() {
    assert_eq!(words("  position startpos\tmoves e2e4\r\n"), vec!["position", "startpos", "moves", "e2e4"]);
    assert!(words("").is_empty());
    assert!(words(" \t \n").is_empty());
    assert_eq!(words("go"), vec!["go"]);
}

#[test]
fn parse_u64_reads_decimal_numbers() {
    assert_eq!(parse_u64(&b"100".to_vec()), Some(100));
    assert_eq!(parse_u64(&b"0".to_vec()), Some(0));
    assert_eq!(parse_u64(&b"18446744073709551615".to_vec()), Some(u64::MAX));
    assert_eq!(parse_u64(&b"18446744073709551616".to_vec()), None);
    assert_eq!(parse_u64(&b"".to_vec()), None);
    assert_eq!(parse_u64(&b"12a".to_vec()), None);
    assert_eq!(parse_u64(&b"-1".to_vec()), None);
}

#[test]
fn uci_identifies_itself() {
    let mut uci = Uci::new(NnueWeights::zero(8, 4));
    assert_eq!(uci.name(), "TinyCCRL");
    assert_eq!(uci.author(), "Hansel");
    assert!(matches!(uci.handle_line(b"uci"), UciReply::Identify));
    assert!(matches!(uci.handle_line(b"isready"), UciReply::ReadyOk));
    assert!(matches!(uci.handle_line(b"  "), UciReply::Nothing));
    assert!(matches!(uci.handle_line(b"ucinewgame"), UciReply::Nothing));
    assert!(matches!(uci.handle_line(b"quit"), UciReply::Quit));
}

fn go(uci: &mut Uci, line: &str) -> (u64, Option<String>) {
    match uci.handle_line(line.as_bytes()) {
        UciReply::BestMove { nodes, best } => {
            (nodes, best.map(|m: Move| String::from_utf8(m.uci_text()).unwrap()))
        }
        _ => panic!("go gives a best move"),
    }
}

#[test]
fn go_nodes_searches_within_the_budget() {
    let mut uci = Uci::new(NnueWeights::zero(8, 4));
    assert!(matches!(uci.handle_line(b"position startpos"), UciReply::Nothing));
    let (nodes, best) = go(&mut uci, "go nodes 100");
    assert_eq!(nodes, 100);
    assert!(best.is_some());
}

#[test]
fn position_fen_and_moves_set_up_the_board() {
    let mut uci = Uci::new(NnueWeights::zero(8, 4));
    // The moves lead back to the FEN position, where Ra8 mates.
    uci.handle_line(b"position fen 6k1/5ppp/8/8/8/8/8/R5K1 w - - 0 1 moves a1b1 g8h8 b1a1 h8g8");
    let (_, best) = go(&mut uci, "go depth 2");
    assert_eq!(best.as_deref(), Some("a1a8"));
    // A word that names no legal move (h2h4) is passed over: the king goes
    // back to g8 and the rook on b1 mates on b8.
    uci.handle_line(b"position fen 6k1/5ppp/8/8/8/8/8/R5K1 w - - 0 1 moves a1b1 g8h8 h2h4 h8g8");
    let (_, best) = go(&mut uci, "go depth 2");
    assert_eq!(best.as_deref(), Some("b1b8"));
    // A position without legal moves.
    uci.handle_line(b"position fen 7k/6Q1/6K1/8/8/8/8/8 b - - 0 1");
    let (_, best) = go(&mut uci, "go depth 1");
    assert_eq!(best, None);
}

#[test]
fn best_move_text_falls_back_to_the_start_position() {
    let nnue = Nnue::new(NnueWeights::zero(8, 4));
    let from_bad_fen = String::from_utf8(best_move_text(&nnue, b"not a fen", 1)).unwrap();
    let from_start = String::from_utf8(best_move_text(
        &nnue,
        b"rnbqkbnr/pppppppp/8/8/8/8/PPPPPPPP/RNBQKBNR w KQkq - 0 1",
        1,
    ))
    .unwrap();
    assert_eq!(from_bad_fen, from_start);
    let mated = String::from_utf8(best_move_text(&nnue, b"7k/6Q1/6K1/8/8/8/8/8 b - - 0 1", 1)).unwrap();
    assert_eq!(mated, "e2e4");
}

#[test]
fn position_with_a_bad_fen_sets_up_the_initial_position() {
    let mut uci = Uci::new(NnueWeights::zero(8, 4));
    uci.handle_line(b"position fen 6k1/5ppp/8/8/8/8/8/R5K1 w - - 0 1");
    assert!(matches!(uci.handle_line(b"position fen not a fen moves e2e4"), UciReply::Nothing));
    let (_, best) = go(&mut uci, "go depth 1");
    // Black is to move after 1. e4: its move starts on the seventh or eighth rank.
    let best = best.unwrap();
    assert!(best.as_bytes()[1] == b'7' || best.as_bytes()[1] == b'8', "{best}");
    // Without `moves`, the words after `startpos` are not moves.
    uci.handle_line(b"position startpos e2e4");
    let (_, best) = go(&mut uci, "go depth 1");
    let best = best.unwrap();
    assert!(best.as_bytes()[1] == b'1' || best.as_bytes()[1] == b'2', "{best}");
}

#[test]
fn a_fen_without_kings_sets_up_the_initial_position() {
    let nnue = Nnue::new(NnueWeights::zero(8, 4));
    let from_empty = String::from_utf8(best_move_text(&nnue, b"8/8/8/8/8/8/8/8 w - - 0 1", 1)).unwrap();
    let from_start = String::from_utf8(best_move_text(
        &nnue,
        b"rnbqkbnr/pppppppp/8/8/8/8/PPPPPPPP/RNBQKBNR w KQkq - 0 1",
        1,
    ))
    .unwrap();
    assert_eq!(from_empty, from_start);
    let mut uci = Uci::new(NnueWeights::zero(8, 4));
    uci.handle_line(b"position fen 8/8/8/8/8/8/8/8 w - - 0 1");
    let (_, best) = go(&mut uci, "go depth 1");
    assert_eq!(best, Some(from_start));
}
