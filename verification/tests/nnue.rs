use std::str::FromStr;

use chess::{Board, ChessMove, MoveGen, Piece};
use tinyccrl_engine::nnue::{default_weights, Nnue, NnueWeights};
use tinyccrl_engine::position::{fen_is_safe, fen_is_valid, Move, PieceKind, Position, Side};

/// A small weight file with deterministic pseudo-random values.
fn weight_file(ft_hidden: u32, hidden1_size: u32, seed: u32) -> Vec<u8> {
    let mut bytes = Vec::new();
    bytes.extend_from_slice(&ft_hidden.to_le_bytes());
    bytes.extend_from_slice(&hidden1_size.to_le_bytes());
    let count = 768 * ft_hidden + ft_hidden + ft_hidden * hidden1_size + 2 * hidden1_size + 1;
    let mut state = seed;
    for _ in 0..count {
        state = state.wrapping_mul(1_103_515_245).wrapping_add(12_345);
        let value = ((state >> 16) % 201) as i16 - 100;
        bytes.extend_from_slice(&value.to_le_bytes());
    }
    bytes
}

fn from_board(board: &Board) -> Position {
    Position::from_fen(board.to_string().as_bytes())
}

fn lib_move(mv: ChessMove) -> Move {
    let promotion = mv.get_promotion().map(|p| match p {
        Piece::Pawn => PieceKind::Pawn,
        Piece::Knight => PieceKind::Knight,
        Piece::Bishop => PieceKind::Bishop,
        Piece::Rook => PieceKind::Rook,
        Piece::Queen => PieceKind::Queen,
        Piece::King => PieceKind::King,
    });
    Move { source: mv.get_source().to_int(), dest: mv.get_dest().to_int(), promotion }
}

fn board(fen: &str) -> Board {
    Board::from_str(fen).expect("valid FEN")
}

#[test]
fn zero_weights_eval_is_zero() {
    let nnue = Nnue::new(NnueWeights::zero(256, 32));
    let board = Board::default();
    assert_eq!(nnue.evaluate(&from_board(&board)), 0);
}

// No trained network ships with the crate: a generated one is used.
#[test]
fn incremental_accumulator_matches_full_recompute() {
    let nnue = Nnue::new(NnueWeights::from_bytes(&weight_file(16, 8, 7)));
    let boards = [
        Board::default(),
        board("r3k2r/p1ppqpb1/bn2pnp1/3PN3/1p2P3/2N2Q1p/PPPBBPPP/R3K2R w KQkq - 0 1"),
        board("8/P6k/8/8/8/8/6K1/8 w - - 0 1"),
        board("8/8/8/3pP3/8/8/8/4K2k w - d6 0 2"),
    ];
    for board in boards {
        let position = from_board(&board);
        let accumulator = nnue.accumulator(&position);
        assert_eq!(
            nnue.evaluate_accumulator(&position, &accumulator),
            nnue.evaluate(&position)
        );

        for mv in MoveGen::new_legal(&board) {
            let mut incremental = accumulator.clone();
            let fen = board.to_string();
            let next = incremental.apply_move(&nnue, fen.as_bytes(), lib_move(mv));
            assert_eq!(next, board.make_move_new(mv).to_string().into_bytes());
            let next_position = Position::from_fen(&next);
            let full = nnue.accumulator(&next_position);
            assert_eq!(incremental, full, "incremental update for {mv}");
            assert_eq!(
                nnue.evaluate_accumulator(&next_position, &incremental),
                nnue.evaluate(&next_position),
                "incremental evaluation for {mv}"
            );
        }
    }
}

#[test]
fn from_bytes_reads_sizes_and_tables_in_order() {
    let mut bytes = Vec::new();
    bytes.extend_from_slice(&1u32.to_le_bytes());
    bytes.extend_from_slice(&2u32.to_le_bytes());
    let mut values: Vec<i16> = Vec::new();
    for k in 0..768 {
        values.push(k as i16 - 400);
    }
    values.push(-7); // feature bias
    values.extend_from_slice(&[3, -4]); // first layer weights
    values.extend_from_slice(&[5, 6]); // first layer biases
    values.extend_from_slice(&[-32768, 32767]); // output weights
    values.push(-1); // output bias
    for v in &values {
        bytes.extend_from_slice(&v.to_le_bytes());
    }
    bytes.extend_from_slice(&[0xff, 0xff, 0xff]); // trailing bytes are ignored
    let w = NnueWeights::from_bytes(&bytes);
    assert_eq!(w.ft_hidden, 1);
    assert_eq!(w.hidden1_size, 2);
    assert_eq!(w.feature_weights.len(), 768);
    assert_eq!(w.feature_weights[0], -400);
    assert_eq!(w.feature_weights[767], 367);
    assert_eq!(w.feature_biases, vec![-7]);
    assert_eq!(w.hidden1_weights, vec![3, -4]);
    assert_eq!(w.hidden1_biases, vec![5, 6]);
    assert_eq!(w.hidden2_weights, vec![-32768, 32767]);
    assert_eq!(w.hidden2_bias, -1);
}

#[test]
fn zero_and_default_weights_have_the_requested_shape() {
    for w in [NnueWeights::zero(3, 5), default_weights(3, 5)] {
        assert_eq!(w.ft_hidden, 3);
        assert_eq!(w.hidden1_size, 5);
        assert_eq!(w.feature_weights.len(), 768 * 3);
        assert_eq!(w.feature_biases.len(), 3);
        assert_eq!(w.hidden1_weights.len(), 15);
        assert_eq!(w.hidden1_biases.len(), 5);
        assert_eq!(w.hidden2_weights.len(), 5);
        assert_eq!(w.hidden2_bias, 0);
        assert!(w.feature_weights.iter().all(|&v| v == 0));
        assert!(w.hidden1_weights.iter().all(|&v| v == 0));
    }
}

fn empty_position(side_to_move: Side) -> Position {
    Position { squares: vec![None; 64], side_to_move }
}

/// One hidden unit in each layer: the network computes
/// `b2 + w2 * relu(b1 + w1 * relu(bias + column))`.
fn single_unit_weights(column_value: i16, bias: i16, w1: i16, b1: i16, w2: i16, b2: i16) -> NnueWeights {
    let mut w = NnueWeights::zero(1, 1);
    for v in w.feature_weights.iter_mut() {
        *v = column_value;
    }
    w.feature_biases[0] = bias;
    w.hidden1_weights[0] = w1;
    w.hidden1_biases[0] = b1;
    w.hidden2_weights[0] = w2;
    w.hidden2_bias = b2;
    w
}

#[test]
fn evaluation_formula_on_a_single_unit() {
    let nnue = Nnue::new(single_unit_weights(10, 5, 3, -2, 4, 7));
    let mut position = empty_position(Side::White);
    position.squares[0] = Some((PieceKind::Rook, Side::White));
    position.squares[63] = Some((PieceKind::King, Side::Black));
    // accumulator 5 + 10 + 10 = 25; hidden -2 + 3 * 25 = 73; output 7 + 4 * 73.
    assert_eq!(nnue.evaluate(&position), 299);
}

#[test]
fn evaluation_rectifies_negative_units() {
    // accumulator 5 - 20 < 0 counts as 0; hidden -2 < 0 counts as 0.
    let nnue = Nnue::new(single_unit_weights(-10, 5, 3, -2, 4, 7));
    let mut position = empty_position(Side::Black);
    position.squares[12] = Some((PieceKind::Pawn, Side::White));
    position.squares[52] = Some((PieceKind::Pawn, Side::Black));
    assert_eq!(nnue.evaluate(&position), 7);
}

#[test]
fn evaluation_wraps_like_i32_arithmetic() {
    // 64 queens: accumulator 32767 + 64 * 32767; hidden 32767 times that
    // exceeds i32 and wraps.
    let nnue = Nnue::new(single_unit_weights(32767, 32767, 32767, 0, 1, 0));
    let mut position = empty_position(Side::White);
    for sq in 0..64 {
        position.squares[sq] = Some((PieceKind::Queen, Side::White));
    }
    let acc: i64 = 32767 + 64 * 32767;
    let hidden = (acc * 32767) as i32; // wraps
    let expected = if hidden > 0 { hidden } else { 0 };
    assert_eq!(nnue.evaluate(&position), expected);
}

#[test]
fn black_perspective_mirrors_ranks_and_swaps_colours() {
    // A white piece on e2 seen by white, and a black piece on e7 seen by
    // black, use the same feature and give the same evaluation.
    let mut w = NnueWeights::zero(1, 1);
    for (k, v) in w.feature_weights.iter_mut().enumerate() {
        *v = (k % 97) as i16;
    }
    w.hidden1_weights[0] = 1;
    w.hidden2_weights[0] = 1;
    let nnue = Nnue::new(w);
    let mut white = empty_position(Side::White);
    white.squares[12] = Some((PieceKind::Knight, Side::White));
    let mut black = empty_position(Side::Black);
    black.squares[52] = Some((PieceKind::Knight, Side::Black));
    assert_eq!(nnue.evaluate(&white), nnue.evaluate(&black));
    // feature index 1 * 64 + 12 = 76 from white's point of view.
    assert_eq!(nnue.evaluate(&white), 76);
}

#[test]
fn zero_weights_evaluate_every_position_to_zero() {
    let nnue = Nnue::new(NnueWeights::zero(4, 2));
    for fen in [
        "r3k2r/p1ppqpb1/bn2pnp1/3PN3/1p2P3/2N2Q1p/PPPBBPPP/R3K2R w KQkq - 0 1",
        "8/8/3k4/8/3K4/8/8/8 b - - 0 1",
    ] {
        assert_eq!(nnue.evaluate(&from_board(&board(fen))), 0);
    }
}

#[test]
fn position_from_board_reads_squares_and_side() {
    let p = from_board(&board("8/8/3k4/8/3K4/8/8/8 b - - 0 1"));
    assert_eq!(p.squares.len(), 64);
    assert_eq!(p.side_to_move, Side::Black);
    assert_eq!(p.squares[27], Some((PieceKind::King, Side::White))); // d4
    assert_eq!(p.squares[43], Some((PieceKind::King, Side::Black))); // d6
    assert_eq!(p.squares.iter().filter(|c| c.is_some()).count(), 2);
}

fn flipped(position: &Position) -> Position {
    let mut squares = vec![None; 64];
    for sq in 0..64 {
        let mirror = (7 - sq / 8) * 8 + sq % 8;
        squares[sq] = position.squares[mirror].map(|(kind, side)| {
            (kind, if side == Side::White { Side::Black } else { Side::White })
        });
    }
    let side_to_move = if position.side_to_move == Side::White { Side::Black } else { Side::White };
    Position { squares, side_to_move }
}

#[test]
fn colour_flipped_positions_evaluate_the_same() {
    let nnue = Nnue::new(NnueWeights::from_bytes(&weight_file(16, 8, 11)));
    for fen in [
        "rnbqkbnr/pppppppp/8/8/4P3/8/PPPP1PPP/RNBQKBNR b KQkq e3 0 1",
        "r3k2r/p1ppqpb1/bn2pnp1/3PN3/1p2P3/2N2Q1p/PPPBBPPP/R3K2R w KQkq - 0 1",
        "8/8/3k4/8/3K4/8/8/8 b - - 0 1",
    ] {
        let position = from_board(&board(fen));
        assert_eq!(nnue.evaluate(&flipped(&position)), nnue.evaluate(&position), "{fen}");
    }
}

#[test]
fn applying_a_move_and_its_reverse_restores_the_accumulator() {
    let nnue = Nnue::new(NnueWeights::from_bytes(&weight_file(8, 4, 3)));
    let board = board("r3k2r/p1ppqpb1/bn2pnp1/3PN3/1p2P3/2N2Q1p/PPPBBPPP/R3K2R w KQkq - 0 1");
    let position = from_board(&board);
    let original = nnue.accumulator(&position);
    for mv in MoveGen::new_legal(&board) {
        let next = from_board(&board.make_move_new(mv));
        let mut acc = original.clone();
        acc.apply_change(&nnue, &position, &next);
        acc.apply_change(&nnue, &next, &position);
        assert_eq!(acc, original, "{mv}");
    }
}

#[test]
fn fen_validity_follows_the_chess_crate() {
    assert!(fen_is_valid(b"rnbqkbnr/pppppppp/8/8/8/8/PPPPPPPP/RNBQKBNR w KQkq - 0 1"));
    assert!(fen_is_valid(Board::default().to_string().as_bytes()));
    assert!(!fen_is_valid(b"not a fen"));
    assert!(!fen_is_valid(b""));
}

#[test]
fn from_fen_reads_the_placement_and_side() {
    let p = Position::from_fen(b"rnbqkbnr/pppppppp/8/8/4P3/8/PPPP1PPP/RNBQKBNR b KQkq e3 0 1");
    assert_eq!(p.side_to_move, Side::Black);
    assert_eq!(p.squares[28], Some((PieceKind::Pawn, Side::White))); // e4
    assert_eq!(p.squares[12], None); // e2
    assert_eq!(p.squares[0], Some((PieceKind::Rook, Side::White))); // a1
    assert_eq!(p.squares[60], Some((PieceKind::King, Side::Black))); // e8
    assert_eq!(p.squares.iter().filter(|c| c.is_some()).count(), 32);
    let empty = Position::from_fen(b"");
    assert_eq!(empty.side_to_move, Side::White);
    assert!(empty.squares.iter().all(|c| c.is_none()));
}

#[test]
fn an_illegal_move_is_refused_and_changes_nothing() {
    let nnue = Nnue::new(NnueWeights::from_bytes(&weight_file(8, 4, 5)));
    let fen = Board::default().to_string();
    let position = Position::from_fen(fen.as_bytes());
    let mut acc = nnue.accumulator(&position);
    let before = acc.clone();
    let illegal = Move { source: 12, dest: 36, promotion: None }; // e2e5
    assert!(acc.apply_move_checked(&nnue, fen.as_bytes(), illegal).is_none());
    assert_eq!(acc, before);
    let legal = Move { source: 12, dest: 28, promotion: None }; // e2e4
    let next = acc.apply_move_checked(&nnue, fen.as_bytes(), legal).unwrap();
    assert_eq!(next, b"rnbqkbnr/pppppppp/8/8/4P3/8/PPPP1PPP/RNBQKBNR b KQkq - 0 1".to_vec());
    assert_eq!(acc, nnue.accumulator(&Position::from_fen(&next)));
}

#[test]
fn a_fen_without_the_movers_king_is_refused_before_the_chess_crate_sees_it() {
    assert!(!fen_is_safe(b"8/8/8/8/8/8/8/8 w - - 0 1"));
    assert!(!fen_is_valid(b"8/8/8/8/8/8/8/8 w - - 0 1"));
    assert!(!fen_is_safe(b"4K3/8/8/8/8/8/8/8 b - - 0 1"));
    // The black king alone: the reader accepts it and the mover has a king,
    // so `chess` may check it (and refuses it for the missing white king).
    assert!(fen_is_safe(b"4k3/8/8/8/8/8/8/8 b - - 0 1"));
    assert!(!fen_is_valid(b"4k3/8/8/8/8/8/8/8 b - - 0 1"));
    // Text the reader refuses is safe whatever it holds.
    assert!(fen_is_safe(b"8/8/8/8/8/8/8/8 x - - 0 1"));
    assert!(fen_is_safe(b"not a fen"));
}

#[test]
fn from_fen_reads_as_the_chess_crate_does() {
    // `B` names black to move; a rank with too many files wraps round.
    let p = Position::from_fen(b"4k3/8/8/8/8/8/8/4K3 B - - 0 1");
    assert_eq!(p.side_to_move, Side::Black);
    let wrapped = Position::from_fen(b"8/8/8/8/8/8/8/7PP w - - 0 1");
    assert_eq!(wrapped.squares[7], Some((PieceKind::Pawn, Side::White))); // h1
    assert_eq!(wrapped.squares[0], Some((PieceKind::Pawn, Side::White))); // a1
}
