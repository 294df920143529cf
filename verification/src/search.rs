//! Alpha-beta search: iterative deepening at the root, a negamax search
//! with a transposition table, null-move pruning, late-move reductions,
//! history and killer move ordering, and a capture-only quiescence search.
use vstd::prelude::*;
use crate::int32::{neg_wrapping, sub_wrapping, wrap_i32};
use crate::nnue::{Nnue, NnueWeights, evaluation_of};
use crate::position::{
    Move,
    PieceKind,
    Position,
    Side,
    board_key,
    checker_count,
    count_checkers,
    fen_side,
    fen_squares,
    legal_successors,
    fen_safe,
    lemma_both_kings_safe,
    names_both_kings,
    null_move,
    null_move_of,
    successors_of,
    deep_children,
};

verus! {

pub const MATE_SCORE: i32 = 100_000;

/// Number of transposition table slots (2^20).
pub const TT_SIZE: usize = 1048576;

/// Plies by which a null-move search is shortened.
pub const NULL_REDUCTION: u8 = 2;

/// Depth from which late quiet moves are searched a ply shallower first.
pub const LMR_DEPTH: u8 = 3;

/// Moves searched in full before late-move reductions start.
pub const LMR_MOVES: usize = 4;

/// Plies for which killer moves are kept; the search goes no deeper.
pub const MAX_PLY: usize = 64;

// ---------------------------------------------------------------------------
// Stable ordering by key.
// ---------------------------------------------------------------------------

/// `x` comes before `y` when ordering positions of `keys` by ascending key,
/// keeping the input order among equal keys.
pub open spec fn key_before(keys: Seq<i32>, x: int, y: int) -> bool {
    keys[x] < keys[y] || (keys[x] == keys[y] && x < y)
}

/// `order` lists every position of `keys` once, by ascending key, equal keys
/// in their input order: what a stable sort by key does.
pub open spec fn is_stable_order(keys: Seq<i32>, order: Seq<usize>) -> bool {
    &&& order.len() == keys.len()
    &&& forall|k: int| 0 <= k < order.len() ==> order[k] < keys.len()
    &&& forall|a: int, b: int|
        0 <= a < b < order.len() ==> key_before(keys, order[a] as int, order[b] as int)
}

/// The positions of `keys` in the order of a stable sort by ascending key.
pub fn stable_order(keys: &Vec<i32>) -> (r: Vec<usize>)
    ensures
        is_stable_order(keys@, r@),
{
    let n = keys.len();
    let mut order: Vec<usize> = Vec::new();
    let mut i: usize = 0;
    while i < n
        invariant
            i <= n,
            n == keys@.len(),
            order@.len() == i,
            forall|k: int| 0 <= k < i ==> order@[k] == k,
        decreases n - i,
    {
        order.push(i);
        i = i + 1;
    }
    let mut i: usize = 1;
    while i < n
        invariant
            n == keys@.len(),
            order@.len() == n,
            forall|k: int| 0 <= k < n ==> order@[k] < n,
            forall|a: int, b: int| 0 <= a < b < n ==> order@[a] != order@[b],
            n == 0 || 1 <= i <= n,
            forall|a: int, b: int|
                0 <= a < b < i && i <= n ==> key_before(keys@, order@[a] as int, order@[b] as int),
        decreases n - i,
    {
        let mut j: usize = i;
        while j > 0 && (keys[order[j]] < keys[order[j - 1]] || (keys[order[j]] == keys[order[j
            - 1]] && order[j] < order[j - 1]))
            invariant
                n == keys@.len(),
                order@.len() == n,
                1 <= i < n,
                j <= i,
                forall|k: int| 0 <= k < n ==> order@[k] < n,
                forall|a: int, b: int| 0 <= a < b < n ==> order@[a] != order@[b],
                forall|a: int, b: int|
                    0 <= a < b <= i && a != j && b != j ==> key_before(
                        keys@,
                        order@[a] as int,
                        order@[b] as int,
                    ),
                forall|b: int|
                    j < b <= i ==> key_before(keys@, order@[j as int] as int, order@[b] as int),
            decreases j,
        {
            let x = order[j];
            let y = order[j - 1];
            order.set(j, y);
            order.set(j - 1, x);
            j = j - 1;
        }
        assert forall|a: int, b: int|
            0 <= a < b <= i implies key_before(keys@, order@[a] as int, order@[b] as int) by {
            if b == j && j > 0 {
                assert(order@[j - 1] != order@[j as int]);
                assert(key_before(keys@, order@[j - 1] as int, order@[j as int] as int));
                if a < j - 1 {
                    assert(key_before(keys@, order@[a] as int, order@[j - 1] as int));
                }
            }
        }
        i = i + 1;
    }
    order
}


/// The positions `0..n` as a set of `usize`.
pub open spec fn first_positions(n: nat) -> Set<usize> {
    Set::new(|x: usize| x < n)
}

proof fn lemma_first_positions(n: nat)
    requires
        n <= usize::MAX + 1,
    ensures
        first_positions(n).finite(),
        first_positions(n).len() == n,
    decreases n,
{
    if n == 0 {
        assert(first_positions(n) =~= Set::<usize>::empty());
    } else {
        lemma_first_positions((n - 1) as nat);
        assert(first_positions((n - 1) as nat).insert((n - 1) as usize) =~= first_positions(n));
    }
}

/// A stable order lists every position of the keys.
proof fn lemma_stable_order_covers(keys: Seq<i32>, order: Seq<usize>, j: usize)
    requires
        is_stable_order(keys, order),
        keys.len() <= usize::MAX,
        j < keys.len(),
    ensures
        order.contains(j),
{
    assert(order.no_duplicates()) by {
        assert forall|a: int, b: int| 0 <= a < order.len() && 0 <= b < order.len() && a != b implies order[a]
            != order[b] by {
            if a < b {
                assert(key_before(keys, order[a] as int, order[b] as int));
            } else {
                assert(key_before(keys, order[b] as int, order[a] as int));
            }
        }
    }
    order.unique_seq_to_set();
    lemma_first_positions(keys.len());
    assert(order.to_set().subset_of(first_positions(keys.len())));
    vstd::set_lib::lemma_subset_equality(order.to_set(), first_positions(keys.len()));
    assert(first_positions(keys.len()).contains(j));
}

/// A stable order of the keys is unique: what `stable_order` returns is the
/// stable sort of the keys.
pub proof fn lemma_stable_order_unique(keys: Seq<i32>, a: Seq<usize>, b: Seq<usize>)
    requires
        is_stable_order(keys, a),
        is_stable_order(keys, b),
        keys.len() <= usize::MAX,
    ensures
        a == b,
{
    assert forall|i: int| 0 <= i < a.len() implies a[i] == b[i] by {
        lemma_stable_order_prefix(keys, a, b, i);
    }
    assert(a =~= b);
}

proof fn lemma_stable_order_prefix(keys: Seq<i32>, a: Seq<usize>, b: Seq<usize>, i: int)
    requires
        is_stable_order(keys, a),
        is_stable_order(keys, b),
        keys.len() <= usize::MAX,
        0 <= i < a.len(),
    ensures
        forall|k: int| 0 <= k <= i ==> a[k] == b[k],
    decreases i,
{
    if i > 0 {
        lemma_stable_order_prefix(keys, a, b, i - 1);
    }
    let x = a[i];
    let y = b[i];
    if x != y {
        lemma_stable_order_covers(keys, b, x);
        lemma_stable_order_covers(keys, a, y);
        let j = choose|j: int| 0 <= j < b.len() && b[j] == x;
        let l = choose|l: int| 0 <= l < a.len() && a[l] == y;
        if j < i {
            assert(a[j] == x);
            assert(key_before(keys, a[j] as int, a[i] as int));
        } else if l < i {
            assert(b[l] == y);
            assert(key_before(keys, b[l] as int, b[i] as int));
        } else {
            assert(j > i && l > i);
            assert(key_before(keys, b[i] as int, b[j] as int));
            assert(key_before(keys, a[i] as int, a[l] as int));
        }
    }
}

/// The stable sort of the keys.
pub open spec fn stable_sorted(keys: Seq<i32>) -> Seq<usize> {
    choose|order: Seq<usize>| is_stable_order(keys, order)
}

// ---------------------------------------------------------------------------
// Transposition table entries.
// ---------------------------------------------------------------------------

/// What a stored score is: the exact value, or a lower or upper bound.
#[derive(Clone, Copy, Debug, PartialEq, Eq, Structural)]
pub enum TtFlag {
    Exact,
    Lower,
    Upper,
}

/// One transposition table slot: the full key of the board it was stored
/// for, the depth searched, the kind of score, the score and the best move.
#[derive(Clone, Copy, Debug)]
pub struct TtEntry {
    pub key: u64,
    pub depth: u8,
    pub flag: TtFlag,
    pub score: i32,
    pub best_move: Option<Move>,
}

/// The answer a table slot gives for a board with key `key` searched to
/// `depth` in the window `(alpha, beta)`: a stored score is used only when
/// the slot holds this board at least that deep, and a bound only when it
/// already decides the window.
pub open spec fn probe_answer(
    entry: Option<TtEntry>,
    key: u64,
    depth: u8,
    alpha: i32,
    beta: i32,
) -> Option<i32> {
    match entry {
        None => None,
        Some(e) => if e.key != key || e.depth < depth {
            None
        } else {
            match e.flag {
                TtFlag::Exact => Some(e.score),
                TtFlag::Lower => if e.score >= beta {
                    Some(e.score)
                } else {
                    None
                },
                TtFlag::Upper => if e.score <= alpha {
                    Some(e.score)
                } else {
                    None
                },
            }
        },
    }
}

/// The slot of a key.
pub open spec fn slot_of(key: u64) -> int {
    key as int % TT_SIZE as int
}

/// Material values used for ordering captures.
pub open spec fn spec_piece_value(piece: PieceKind) -> int {
    match piece {
        PieceKind::Pawn => 100,
        PieceKind::Knight => 320,
        PieceKind::Bishop => 330,
        PieceKind::Rook => 500,
        PieceKind::Queen => 900,
        PieceKind::King => 20000,
    }
}

fn piece_value(piece: PieceKind) -> (r: i32)
    ensures
        r == spec_piece_value(piece),
{
    match piece {
        PieceKind::Pawn => 100,
        PieceKind::Knight => 320,
        PieceKind::Bishop => 330,
        PieceKind::Rook => 500,
        PieceKind::Queen => 900,
        PieceKind::King => 20000,
    }
}

/// The piece on a square, a pawn when it is empty.
pub open spec fn or_pawn(piece: Option<PieceKind>) -> PieceKind {
    match piece {
        Some(p) => p,
        None => PieceKind::Pawn,
    }
}

/// The value of a capture: the captured piece's value less the mover's.
pub open spec fn spec_capture_value(captured: Option<PieceKind>, moved: Option<PieceKind>) -> int {
    spec_piece_value(or_pawn(captured)) - spec_piece_value(or_pawn(moved))
}

/// History table index of a piece of `side`: side first, then kind.
pub open spec fn history_row(piece: PieceKind, side: Side) -> int {
    side.spec_index() * 6 + piece.spec_index()
}

/// The move ordering score: the table move first, then captures by value,
/// promotions, quiet moves with history, killer moves, the rest.
pub open spec fn order_score_spec(
    history: Seq<i32>,
    killers: Seq<Option<Move>>,
    mv: Move,
    tt_move: Option<Move>,
    captured: Option<PieceKind>,
    moved: Option<PieceKind>,
    side: Side,
    ply: int,
) -> int {
    if tt_move == Some(mv) {
        10_000_000
    } else if captured is Some {
        spec_capture_value(captured, moved) + 1_000_000
    } else if mv.promotion is Some {
        900_000
    } else {
        let hist = history[history_row(or_pawn(moved), side) * 64 + mv.dest];
        if hist != 0 {
            100_000 + if hist < 99_999 {
                hist as int
            } else {
                99_999
            }
        } else if killers[2 * ply] == Some(mv) || killers[2 * ply + 1] == Some(mv) {
            50_000
        } else {
            0
        }
    }
}

/// The value of capturing `captured` with `moved` (pawns where empty).
fn capture_value(captured: Option<PieceKind>, moved: Option<PieceKind>) -> (r: i32)
    ensures
        r == spec_capture_value(captured, moved),
        -19_900 <= r <= 19_900,
{
    let c = match captured {
        Some(p) => p,
        None => PieceKind::Pawn,
    };
    let m = match moved {
        Some(p) => p,
        None => PieceKind::Pawn,
    };
    piece_value(c) - piece_value(m)
}

fn same_move(a: Option<Move>, b: Option<Move>) -> (r: bool)
    ensures
        r == (a == b),
{
    match (a, b) {
        (None, None) => true,
        (Some(x), Some(y)) => x == y,
        _ => false,
    }
}

/// The piece kind in a cell of the board, if any.
pub open spec fn kind_in(cell: Option<(PieceKind, Side)>) -> Option<PieceKind> {
    match cell {
        Some((kind, _)) => Some(kind),
        None => None,
    }
}

/// The static evaluation of the position given as FEN, from its side to
/// move: the network's output for its squares and side.
pub open spec fn board_evaluation(w: NnueWeights, fen: Seq<u8>) -> int {
    evaluation_of(w, fen_squares(fen), fen_side(fen))
}

/// The ordering score of `mv` on the position with squares `cells` and
/// `side` to move: `order_score_spec` of the pieces on the move's
/// destination and source squares.
pub open spec fn board_order_score(
    history: Seq<i32>,
    killers: Seq<Option<Move>>,
    cells: Seq<Option<(PieceKind, Side)>>,
    side: Side,
    mv: Move,
    tt_move: Option<Move>,
    ply: int,
) -> int {
    order_score_spec(
        history,
        killers,
        mv,
        tt_move,
        kind_in(cells[mv.dest as int]),
        kind_in(cells[mv.source as int]),
        side,
        ply,
    )
}

/// The node count after counting one more node (saturating).
pub open spec fn next_count(nodes: u64) -> u64 {
    if nodes < u64::MAX {
        (nodes + 1) as u64
    } else {
        nodes
    }
}

/// Whether a node count uses up a budget.
pub open spec fn spent_at(max_nodes: Option<u64>, nodes: u64) -> bool {
    match max_nodes {
        Some(max) => nodes >= max,
        None => false,
    }
}

/// The score of a position without legal moves, `ply` moves below the root:
/// a mate against the side to move when it is in check, a draw otherwise.
pub open spec fn terminal_score(fen: Seq<u8>, ply: int) -> int {
    if checker_count(fen) > 0 {
        ply - MATE_SCORE
    } else {
        0
    }
}

/// The positions (in the successor list) of the capture moves among the
/// first `k` legal moves, in generator order; `cells` are the squares of the
/// position they are made in.
pub open spec fn captures_upto(
    moves: Seq<(Move, Seq<u8>)>,
    cells: Seq<Option<(PieceKind, Side)>>,
    k: int,
) -> Seq<usize>
    decreases k,
{
    if k <= 0 {
        Seq::empty()
    } else if cells[moves[k - 1].0.dest as int] is Some {
        captures_upto(moves, cells, k - 1).push((k - 1) as usize)
    } else {
        captures_upto(moves, cells, k - 1)
    }
}

/// The sort key of a capture: its value, negated, so that the most valuable
/// capture comes first.
pub open spec fn capture_key(cells: Seq<Option<(PieceKind, Side)>>, mv: Move) -> i32 {
    (-spec_capture_value(kind_in(cells[mv.dest as int]), kind_in(cells[mv.source as int]))) as i32
}

/// The sort keys of the capture moves among the first `k` legal moves.
pub open spec fn capture_keys_upto(
    moves: Seq<(Move, Seq<u8>)>,
    cells: Seq<Option<(PieceKind, Side)>>,
    k: int,
) -> Seq<i32>
    decreases k,
{
    if k <= 0 {
        Seq::empty()
    } else if cells[moves[k - 1].0.dest as int] is Some {
        capture_keys_upto(moves, cells, k - 1).push(capture_key(cells, moves[k - 1].0))
    } else {
        capture_keys_upto(moves, cells, k - 1)
    }
}

/// Quiescence search of the position given as FEN in the window
/// `(alpha, beta)`, with `nodes` counted so far against the budget
/// `max_nodes`: the node count afterwards and the value. With the budget
/// spent, the static evaluation; otherwise, one node counted, `beta` when the
/// static evaluation reaches it (standing pat); else, starting from the
/// larger of `alpha` and the evaluation, the captures searched best first
/// (`capture_search`), while `captures_left` allows.
pub open spec fn quiescence_value(
    w: NnueWeights,
    max_nodes: Option<u64>,
    nodes: u64,
    fen: Seq<u8>,
    alpha: i32,
    beta: i32,
    captures_left: u32,
) -> (u64, i32)
    decreases captures_left, 1int, 0int,
{
    if spent_at(max_nodes, nodes) {
        (nodes, board_evaluation(w, fen) as i32)
    } else {
        let counted = next_count(nodes);
        let eval = board_evaluation(w, fen);
        if eval >= beta {
            (counted, beta)
        } else {
            let best = if eval > alpha {
                eval as i32
            } else {
                alpha
            };
            if captures_left == 0 {
                (counted, best)
            } else {
                let moves = successors_of(fen);
                let cells = fen_squares(fen);
                capture_search(
                    w,
                    max_nodes,
                    counted,
                    moves,
                    captures_upto(moves, cells, moves.len() as int),
                    stable_sorted(capture_keys_upto(moves, cells, moves.len() as int)),
                    0,
                    beta,
                    best,
                    captures_left,
                )
            }
        }
    }
}

/// The captures from the `k`-th in `order` on: each capture's position is
/// searched with the window negated, and its negated value cuts off at
/// `beta` or raises `best`. The node count afterwards and the value.
pub open spec fn capture_search(
    w: NnueWeights,
    max_nodes: Option<u64>,
    nodes: u64,
    moves: Seq<(Move, Seq<u8>)>,
    captures: Seq<usize>,
    order: Seq<usize>,
    k: int,
    beta: i32,
    best: i32,
    captures_left: u32,
) -> (u64, i32)
    decreases captures_left, 0int, order.len() - k,
{
    if k < 0 || k >= order.len() || captures_left == 0 {
        (nodes, best)
    } else {
        let child = moves[captures[order[k] as int] as int].1;
        let sub = quiescence_value(
            w,
            max_nodes,
            nodes,
            child,
            wrap_i32(-beta) as i32,
            wrap_i32(-best) as i32,
            (captures_left - 1) as u32,
        );
        let score = wrap_i32(-sub.1) as i32;
        if score >= beta {
            (sub.0, beta)
        } else {
            capture_search(
                w,
                max_nodes,
                sub.0,
                moves,
                captures,
                order,
                k + 1,
                beta,
                if score > best {
                    score
                } else {
                    best
                },
                captures_left,
            )
        }
    }
}

proof fn lemma_captures_keys_len(moves: Seq<(Move, Seq<u8>)>, cells: Seq<Option<(PieceKind, Side)>>, k: int)
    ensures
        captures_upto(moves, cells, k).len() == capture_keys_upto(moves, cells, k).len(),
    decreases k,
{
    if k > 0 {
        lemma_captures_keys_len(moves, cells, k - 1);
    }
}

/// The transposition table, history and killer moves of `after` are those of
/// `before`.
pub open spec fn same_tables(before: Searcher, after: Searcher) -> bool {
    &&& forall|key: u64| #[trigger] after.tt_slot(key) == before.tt_slot(key)
    &&& after.spec_history() == before.spec_history()
    &&& after.spec_killers() == before.spec_killers()
}

// ---------------------------------------------------------------------------
// The search, step by step.
// ---------------------------------------------------------------------------

/// Marks the values that a step of the search relation below goes through
/// (the trigger of its existential quantifiers).
pub open spec fn witnessed<A, B>(a: A, b: B) -> bool {
    true
}

/// `a - b` for bytes, stopping at 0.
pub open spec fn sat_sub(a: u8, b: u8) -> u8 {
    if a >= b {
        (a - b) as u8
    } else {
        0
    }
}

/// `after` is `before` with one more node counted.
pub open spec fn counted_node(before: Searcher, after: Searcher) -> bool {
    &&& after.spec_nodes() == next_count(before.spec_nodes())
    &&& same_tables(before, after)
    &&& after.spec_nnue() == before.spec_nnue()
    &&& after.spec_max_nodes() == before.spec_max_nodes()
}

/// `after` is `before` with `entry` stored in the table slot of `key`.
pub open spec fn stored_entry(before: Searcher, after: Searcher, key: u64, entry: TtEntry) -> bool {
    &&& after.tt_slot(key) == Some(entry)
    &&& forall|other: u64|
        slot_of(other) != slot_of(key) ==> #[trigger] after.tt_slot(other) == before.tt_slot(other)
    &&& after.spec_nodes() == before.spec_nodes()
    &&& after.spec_history() == before.spec_history()
    &&& after.spec_killers() == before.spec_killers()
    &&& after.spec_nnue() == before.spec_nnue()
    &&& after.spec_max_nodes() == before.spec_max_nodes()
}

/// `after` is `before` with the quiet move `mv` of a `piece` of `side`
/// recorded as refuting a node `ply` moves deep, searched `depth` deep: its
/// history score grows by `depth * depth` (up to `i32::MAX`) and it becomes
/// the ply's first killer move, the former first becoming the second.
pub open spec fn cutoff_recorded(
    before: Searcher,
    after: Searcher,
    piece: PieceKind,
    side: Side,
    mv: Move,
    depth: u8,
    ply: int,
) -> bool {
    let slot = history_row(piece, side) * 64 + mv.dest;
    &&& after.spec_history() == before.spec_history().update(
        slot,
        if before.spec_history()[slot] + depth * depth > i32::MAX {
            i32::MAX
        } else {
            (before.spec_history()[slot] + depth * depth) as i32
        },
    )
    &&& after.spec_killers() == if before.spec_killers()[2 * ply] == Some(mv) {
        before.spec_killers()
    } else {
        before.spec_killers().update(2 * ply + 1, before.spec_killers()[2 * ply]).update(2 * ply, Some(mv))
    }
    &&& forall|key: u64| #[trigger] after.tt_slot(key) == before.tt_slot(key)
    &&& after.spec_nodes() == before.spec_nodes()
    &&& after.spec_nnue() == before.spec_nnue()
    &&& after.spec_max_nodes() == before.spec_max_nodes()
}

/// The sort keys of the legal moves of a position with squares `cells` and
/// `side` to move, ordered with `searcher`'s history and killer moves: the
/// negated ordering scores.
pub open spec fn order_keys(
    searcher: Searcher,
    cells: Seq<Option<(PieceKind, Side)>>,
    side: Side,
    moves: Seq<(Move, Seq<u8>)>,
    tt_move: Option<Move>,
    ply: int,
) -> Seq<i32> {
    Seq::new(
        moves.len(),
        |k: int|
            (-board_order_score(
                searcher.spec_history(),
                searcher.spec_killers(),
                cells,
                side,
                moves[k].0,
                tt_move,
                ply,
            )) as i32,
    )
}

/// The move the table suggests for `key`, when the table is in use.
pub open spec fn table_move(searcher: Searcher, key: u64, use_tt: bool) -> Option<Move> {
    if use_tt {
        match searcher.tt_slot(key) {
            Some(e) => if e.key == key {
                e.best_move
            } else {
                None
            },
            None => None,
        }
    } else {
        None
    }
}

/// Negamax search of the position given as FEN, from the searcher `before`
/// to the searcher `after`, with result `r`: with the budget spent, the
/// static evaluation and nothing changed; otherwise one node counted and
/// then what `node_search` describes, for the key `chess` gives the board.
/// (That key is not stated: `chess` makes its Zobrist tables with a random
/// generator that differs between build machines.)
pub open spec fn negamax_search(
    before: Searcher,
    after: Searcher,
    fen: Seq<u8>,
    depth: u8,
    alpha: i32,
    beta: i32,
    allow_null: bool,
    use_tt: bool,
    ply: int,
    r: i32,
) -> bool
    decreases MAX_PLY - ply, 2int, 0int, 0int,
{
    if before.budget_spent() {
        &&& r == board_evaluation(before.spec_nnue().spec_weights(), fen)
        &&& after == before
    } else {
        exists|key: u64, counted: Searcher|
            #[trigger] witnessed(key, counted) && counted_node(before, counted) && node_search(
                counted,
                after,
                key,
                fen,
                depth,
                alpha,
                beta,
                allow_null,
                use_tt,
                ply,
                r,
            )
    }
}

/// A negamax node after its node is counted (`counted`), its board having
/// the table key `key`: the table's answer when it is in use and decides the
/// window; the terminal score of a position without legal moves; the
/// quiescence value at the horizon; otherwise, below the root, a null-move
/// search that may cut the node off at `beta`, then the legal moves searched
/// in the order of their ordering scores (`move_search`).
pub open spec fn node_search(
    counted: Searcher,
    after: Searcher,
    key: u64,
    fen: Seq<u8>,
    depth: u8,
    alpha: i32,
    beta: i32,
    allow_null: bool,
    use_tt: bool,
    ply: int,
    r: i32,
) -> bool
    decreases MAX_PLY - ply, 1int, 0int, 0int,
{
    let moves = successors_of(fen);
    let cells = fen_squares(fen);
    let side = fen_side(fen);
    let is_check = checker_count(fen) > 0;
    let tt_move = table_move(counted, key, use_tt);
    if use_tt && probe_answer(counted.tt_slot(key), key, depth, alpha, beta) is Some {
        &&& probe_answer(counted.tt_slot(key), key, depth, alpha, beta) == Some(r)
        &&& after == counted
    } else if moves.len() == 0 {
        &&& r == terminal_score(fen, ply)
        &&& after == counted
    } else if depth == 0 || ply >= MAX_PLY || ply < 0 {
        &&& (after.spec_nodes(), r) == quiescence_value(
            counted.spec_nnue().spec_weights(),
            counted.spec_max_nodes(),
            counted.spec_nodes(),
            fen,
            alpha,
            beta,
            64,
        )
        &&& same_tables(counted, after)
        &&& after.spec_nnue() == counted.spec_nnue()
        &&& after.spec_max_nodes() == counted.spec_max_nodes()
    } else if allow_null && !is_check && ply > 0 && depth > NULL_REDUCTION && null_move_of(fen) is Some {
        exists|searched: Searcher, c: i32|
            #[trigger] witnessed(searched, c) && negamax_search(
                counted,
                searched,
                null_move_of(fen)->0,
                sat_sub(depth, (1 + NULL_REDUCTION) as u8),
                wrap_i32(-beta) as i32,
                wrap_i32(wrap_i32(-beta) + 1) as i32,
                false,
                use_tt,
                ply + 1,
                c,
            ) && if wrap_i32(-c) >= beta {
                r == beta && after == searched
            } else {
                move_search(
                    searched,
                    after,
                    key,
                    moves,
                    cells,
                    side,
                    stable_sorted(order_keys(searched, cells, side, moves, tt_move, ply)),
                    0,
                    alpha,
                    None,
                    TtFlag::Upper,
                    depth,
                    alpha,
                    beta,
                    use_tt,
                    ply,
                    is_check,
                    r,
                )
            }
    } else {
        move_search(
            counted,
            after,
            key,
            moves,
            cells,
            side,
            stable_sorted(order_keys(counted, cells, side, moves, tt_move, ply)),
            0,
            alpha,
            None,
            TtFlag::Upper,
            depth,
            alpha,
            beta,
            use_tt,
            ply,
            is_check,
            r,
        )
    }
}

/// The moves from the `i`-th in `order` on, searched from `current` with
/// the best score `best` so far (its move `best_move`, and `flag` saying
/// whether it is exact): each move's position is searched with the window
/// negated (after the first move with a null window first, reduced by a
/// ply for a late quiet move, and searched again with the full window when
/// it beats `best`); then `move_done`. When no move is left, `best` is
/// stored for `key` and returned.
pub open spec fn move_search(
    current: Searcher,
    after: Searcher,
    key: u64,
    moves: Seq<(Move, Seq<u8>)>,
    cells: Seq<Option<(PieceKind, Side)>>,
    side: Side,
    order: Seq<usize>,
    i: int,
    best: i32,
    best_move: Option<Move>,
    flag: TtFlag,
    depth: u8,
    alpha: i32,
    beta: i32,
    use_tt: bool,
    ply: int,
    is_check: bool,
    r: i32,
) -> bool
    decreases MAX_PLY - ply, 0int, order.len() - i, 1int,
{
    if i < 0 || i >= order.len() || ply >= MAX_PLY || ply < 0 {
        &&& r == best
        &&& stored_entry(current, after, key, TtEntry { key, depth, flag, score: best, best_move })
    } else {
        let mv = moves[order[i] as int].0;
        let child = moves[order[i] as int].1;
        let new_depth = if is_check {
            depth
        } else {
            sat_sub(depth, 1)
        };
        let reduction: u8 = if depth >= LMR_DEPTH && i >= LMR_MOVES && mv.promotion is None
            && cells[mv.dest as int] is None {
            1
        } else {
            0
        };
        if i == 0 {
            exists|searched: Searcher, c: i32|
                #[trigger] witnessed(searched, c) && negamax_search(
                    current,
                    searched,
                    child,
                    new_depth,
                    wrap_i32(-beta) as i32,
                    wrap_i32(-best) as i32,
                    true,
                    use_tt,
                    ply + 1,
                    c,
                ) && move_done(
                    searched,
                    after,
                    key,
                    moves,
                    cells,
                    side,
                    order,
                    i,
                    wrap_i32(-c) as i32,
                    best,
                    best_move,
                    flag,
                    depth,
                    alpha,
                    beta,
                    use_tt,
                    ply,
                    is_check,
                    r,
                )
        } else {
            exists|searched: Searcher, c: i32|
                #[trigger] witnessed(searched, c) && negamax_search(
                    current,
                    searched,
                    child,
                    sat_sub(new_depth, reduction),
                    wrap_i32(wrap_i32(-best) - 1) as i32,
                    wrap_i32(-best) as i32,
                    true,
                    use_tt,
                    ply + 1,
                    c,
                ) && if wrap_i32(-c) > best && (reduction > 0 || wrap_i32(-c) < beta) {
                    exists|again: Searcher, c2: i32|
                        #[trigger] witnessed(again, c2) && negamax_search(
                            searched,
                            again,
                            child,
                            new_depth,
                            wrap_i32(-beta) as i32,
                            wrap_i32(-best) as i32,
                            true,
                            use_tt,
                            ply + 1,
                            c2,
                        ) && move_done(
                            again,
                            after,
                            key,
                            moves,
                            cells,
                            side,
                            order,
                            i,
                            wrap_i32(-c2) as i32,
                            best,
                            best_move,
                            flag,
                            depth,
                            alpha,
                            beta,
                            use_tt,
                            ply,
                            is_check,
                            r,
                        )
                } else {
                    move_done(
                        searched,
                        after,
                        key,
                        moves,
                        cells,
                        side,
                        order,
                        i,
                        wrap_i32(-c) as i32,
                        best,
                        best_move,
                        flag,
                        depth,
                        alpha,
                        beta,
                        use_tt,
                        ply,
                        is_check,
                        r,
                    )
                }
        }
    }
}

/// The `i`-th move in `order` scored `score`: at `beta` or above, a quiet
/// move is recorded as a refutation, a lower bound is stored for `key` and
/// `beta` returned; otherwise `best` is raised when `score` beats it and
/// the next move is searched.
pub open spec fn move_done(
    current: Searcher,
    after: Searcher,
    key: u64,
    moves: Seq<(Move, Seq<u8>)>,
    cells: Seq<Option<(PieceKind, Side)>>,
    side: Side,
    order: Seq<usize>,
    i: int,
    score: i32,
    best: i32,
    best_move: Option<Move>,
    flag: TtFlag,
    depth: u8,
    alpha: i32,
    beta: i32,
    use_tt: bool,
    ply: int,
    is_check: bool,
    r: i32,
) -> bool
    decreases MAX_PLY - ply, 0int, order.len() - i, 0int,
{
    let mv = moves[order[i] as int].0;
    if i < 0 || i >= order.len() {
        false
    } else if score >= beta {
        &&& r == beta
        &&& exists|recorded: Searcher|
            #[trigger] witnessed(recorded, key) && stored_entry(
                recorded,
                after,
                key,
                TtEntry { key, depth, flag: TtFlag::Lower, score: beta, best_move: Some(mv) },
            ) && if cells[mv.dest as int] is None {
                cutoff_recorded(current, recorded, or_pawn(kind_in(cells[mv.source as int])), side, mv, depth, ply)
            } else {
                recorded == current
            }
    } else if score > best {
        move_search(
            current,
            after,
            key,
            moves,
            cells,
            side,
            order,
            i + 1,
            score,
            Some(mv),
            TtFlag::Exact,
            depth,
            alpha,
            beta,
            use_tt,
            ply,
            is_check,
            r,
        )
    } else {
        move_search(
            current,
            after,
            key,
            moves,
            cells,
            side,
            order,
            i + 1,
            best,
            best_move,
            flag,
            depth,
            alpha,
            beta,
            use_tt,
            ply,
            is_check,
            r,
        )
    }
}

// ---------------------------------------------------------------------------
// Iterative deepening at the root.
// ---------------------------------------------------------------------------

/// The sort keys of the root moves listed in `legal` by their last scores:
/// best score first, moves not yet scored last.
pub open spec fn root_keys(legal: Seq<usize>, scores: Seq<Option<i32>>) -> Seq<i32> {
    Seq::new(
        legal.len(),
        |k: int|
            wrap_i32(
                -(match scores[legal[k] as int] {
                    Some(s) => s,
                    None => -10_000_000i32,
                }),
            ) as i32,
    )
}

/// `legal` reordered by `root_keys`, stably.
pub open spec fn root_order(legal: Seq<usize>, scores: Seq<Option<i32>>) -> Seq<usize> {
    let order = stable_sorted(root_keys(legal, scores));
    Seq::new(legal.len(), |k: int| legal[order[k] as int])
}

/// Iterative deepening from `depth` to `max_depth` over the root moves
/// `children`, listed in `legal` (the front one being the best so far, with
/// score `alpha`) and with their last scores in `scores`, from the searcher
/// `current` to `after`; `r` is the index of the chosen move and its score.
/// With the budget spent or the depth reached, the front move and `alpha`;
/// otherwise the moves are searched in the order of their last scores
/// (`root_iteration`).
pub open spec fn deepening(
    current: Searcher,
    after: Searcher,
    children: Seq<(Move, Seq<u8>)>,
    legal: Seq<usize>,
    scores: Seq<Option<i32>>,
    alpha: i32,
    depth: int,
    max_depth: u8,
    r: (usize, i32),
) -> bool
    decreases 256 - depth, 1int, 0int,
{
    if depth < 1 || depth > max_depth || depth > 255 || current.budget_spent() {
        &&& r == (legal[0], alpha)
        &&& after == current
    } else {
        let sorted = root_order(legal, scores);
        root_iteration(current, after, children, sorted, scores, depth, max_depth, 0, alpha, sorted[0], r)
    }
}

/// One iteration of deepening, `depth` deep, from the `k`-th root move in
/// `legal` on, with the best score `best` so far at the move `best_index`:
/// each move's position is searched a ply shallower with the window
/// negated, its negated value recorded and raising `best` when above it;
/// when the moves are done or the budget is spent, the best move is put in
/// front and the next depth follows.
pub open spec fn root_iteration(
    current: Searcher,
    after: Searcher,
    children: Seq<(Move, Seq<u8>)>,
    legal: Seq<usize>,
    scores: Seq<Option<i32>>,
    depth: int,
    max_depth: u8,
    k: int,
    best: i32,
    best_index: usize,
    r: (usize, i32),
) -> bool
    decreases 256 - depth, 0int, legal.len() - k,
{
    if depth < 1 || depth > 255 {
        false
    } else if k < 0 || k >= legal.len() || current.budget_spent() {
        deepening(current, after, children, legal.update(0, best_index), scores, best, depth + 1, max_depth, r)
    } else {
        let idx = legal[k];
        exists|searched: Searcher, c: i32|
            #[trigger] witnessed(searched, c) && negamax_search(
                current,
                searched,
                children[idx as int].1,
                (depth - 1) as u8,
                wrap_i32(-i32::MAX) as i32,
                wrap_i32(-best) as i32,
                true,
                true,
                0,
                c,
            ) && root_iteration(
                searched,
                after,
                children,
                legal,
                scores.update(idx as int, Some(wrap_i32(-c) as i32)),
                depth,
                max_depth,
                k + 1,
                if wrap_i32(-c) > best {
                    wrap_i32(-c) as i32
                } else {
                    best
                },
                if wrap_i32(-c) > best {
                    idx
                } else {
                    best_index
                },
                r,
            )
    }
}

/// The root moves `0..n` in generator order.
pub open spec fn first_indices(n: nat) -> Seq<usize> {
    Seq::new(n, |k: int| k as usize)
}

/// The root search of the position given as FEN, up to `max_depth`, from
/// the searcher `before` to `after`: `None` when it has no legal move;
/// otherwise the move and score that iterative deepening (`deepening`)
/// chooses, starting from the moves in generator order, none scored.
pub open spec fn root_search(
    before: Searcher,
    after: Searcher,
    fen: Seq<u8>,
    max_depth: u8,
    r: Option<(Move, i32)>,
) -> bool {
    let moves = successors_of(fen);
    if moves.len() == 0 {
        r is None
    } else {
        exists|i: usize, score: i32|
            #[trigger] witnessed(i, score) && i < moves.len() && r == Some((moves[i as int].0, score))
                && deepening(
                before,
                after,
                moves,
                first_indices(moves.len()),
                Seq::new(moves.len(), |k: int| None::<i32>),
                (i32::MIN + 1) as i32,
                1,
                max_depth,
                (i, score),
            )
    }
}

/// A searcher as `Searcher::new` makes it, with the budget `max_nodes`:
/// nothing counted, the table empty, no history, no killer moves.
pub open spec fn fresh_searcher(s: Searcher, nnue: &Nnue, max_nodes: Option<u64>) -> bool {
    &&& s.wf()
    &&& s.spec_nnue() == nnue
    &&& s.spec_nodes() == 0
    &&& s.spec_max_nodes() == max_nodes
    &&& forall|key: u64| #[trigger] s.tt_slot(key) == None::<TtEntry>
    &&& s.spec_history() == Seq::new(768, |k: int| 0i32)
    &&& s.spec_killers() == Seq::new(2 * MAX_PLY as nat, |k: int| None::<Move>)
}

/// Law: a node whose position has no legal move scores 0 when its side to
/// move is not in check (stalemate, a draw) and `ply - MATE_SCORE` when it is
/// (checkmate), once counted and unless the transposition table answers for
/// it; nothing else changes.
pub proof fn law_no_legal_move(
    counted: Searcher,
    after: Searcher,
    key: u64,
    fen: Seq<u8>,
    depth: u8,
    alpha: i32,
    beta: i32,
    allow_null: bool,
    use_tt: bool,
    ply: int,
    r: i32,
)
    requires
        node_search(counted, after, key, fen, depth, alpha, beta, allow_null, use_tt, ply, r),
        successors_of(fen).len() == 0,
        !(use_tt && probe_answer(counted.tt_slot(key), key, depth, alpha, beta) is Some),
    ensures
        checker_count(fen) == 0 ==> r == 0,
        checker_count(fen) > 0 ==> r == ply - MATE_SCORE,
        after == counted,
{
}

/// Law: searching a position without legal moves, the budget not spent and
/// the table answering for no key, counts one node and gives 0 for a
/// stalemate and `ply - MATE_SCORE` for a checkmate: a stalemate never
/// scores as a mate.
pub proof fn law_stalemate_is_a_draw(
    before: Searcher,
    after: Searcher,
    fen: Seq<u8>,
    depth: u8,
    alpha: i32,
    beta: i32,
    allow_null: bool,
    use_tt: bool,
    ply: int,
    r: i32,
)
    requires
        negamax_search(before, after, fen, depth, alpha, beta, allow_null, use_tt, ply, r),
        !before.budget_spent(),
        successors_of(fen).len() == 0,
        forall|k: u64| !(use_tt && #[trigger] probe_answer(before.tt_slot(k), k, depth, alpha, beta) is Some),
    ensures
        checker_count(fen) == 0 ==> r == 0,
        checker_count(fen) > 0 ==> r == ply - MATE_SCORE,
        after.spec_nodes() == next_count(before.spec_nodes()),
{
    let (key, counted) = choose|key: u64, counted: Searcher|
        #[trigger] witnessed(key, counted) && counted_node(before, counted) && node_search(
            counted,
            after,
            key,
            fen,
            depth,
            alpha,
            beta,
            allow_null,
            use_tt,
            ply,
            r,
        );
    assert(counted.tt_slot(key) == before.tt_slot(key));
    assert(!(use_tt && probe_answer(before.tt_slot(key), key, depth, alpha, beta) is Some));
    law_no_legal_move(counted, after, key, fen, depth, alpha, beta, allow_null, use_tt, ply, r);
}

/// Law: quiescence with budget left counts one node and stands pat: when
/// the static evaluation reaches `beta` it returns `beta` without searching
/// a capture; with no capture allowed it returns the larger of `alpha` and
/// the evaluation. With the budget spent it returns the evaluation and
/// counts nothing.
pub proof fn law_quiescence_stand_pat(
    w: NnueWeights,
    max_nodes: Option<u64>,
    nodes: u64,
    fen: Seq<u8>,
    alpha: i32,
    beta: i32,
    captures_left: u32,
)
    ensures
        spent_at(max_nodes, nodes) ==> quiescence_value(w, max_nodes, nodes, fen, alpha, beta, captures_left)
            == (nodes, board_evaluation(w, fen) as i32),
        !spent_at(max_nodes, nodes) && board_evaluation(w, fen) >= beta ==> quiescence_value(
            w,
            max_nodes,
            nodes,
            fen,
            alpha,
            beta,
            captures_left,
        ) == (next_count(nodes), beta),
        !spent_at(max_nodes, nodes) && board_evaluation(w, fen) < beta && captures_left == 0
            ==> quiescence_value(w, max_nodes, nodes, fen, alpha, beta, captures_left).1 == if board_evaluation(
            w,
            fen,
        ) > alpha {
            board_evaluation(w, fen)
        } else {
            alpha as int
        },
{
}

/// Law: the move the table suggests is ordered first: its ordering score is
/// above that of every other move (captures, promotions, moves with history
/// and killer moves all score below it).
pub proof fn law_table_move_first(
    history: Seq<i32>,
    killers: Seq<Option<Move>>,
    cells: Seq<Option<(PieceKind, Side)>>,
    side: Side,
    tt: Move,
    mv: Move,
    ply: int,
)
    requires
        mv != tt,
    ensures
        board_order_score(history, killers, cells, side, tt, Some(tt), ply) > board_order_score(
            history,
            killers,
            cells,
            side,
            mv,
            Some(tt),
            ply,
        ),
{
    let captured = kind_in(cells[mv.dest as int]);
    let moved = kind_in(cells[mv.source as int]);
    assert(spec_capture_value(captured, moved) <= 19_900);
}

/// Law: moves are searched best first: in a stable order of the ordering
/// keys, every move's ordering score is at least that of each move after it.
pub proof fn law_moves_best_first(
    searcher: Searcher,
    cells: Seq<Option<(PieceKind, Side)>>,
    side: Side,
    moves: Seq<(Move, Seq<u8>)>,
    tt_move: Option<Move>,
    ply: int,
    order: Seq<usize>,
    a: int,
    b: int,
)
    requires
        is_stable_order(order_keys(searcher, cells, side, moves, tt_move, ply), order),
        0 <= a < b < order.len(),
    ensures
        board_order_score(
            searcher.spec_history(),
            searcher.spec_killers(),
            cells,
            side,
            moves[order[a] as int].0,
            tt_move,
            ply,
        ) >= board_order_score(
            searcher.spec_history(),
            searcher.spec_killers(),
            cells,
            side,
            moves[order[b] as int].0,
            tt_move,
            ply,
        ),
{
    let keys = order_keys(searcher, cells, side, moves, tt_move, ply);
    let x = order[a] as int;
    let y = order[b] as int;
    assert(key_before(keys, x, y));
    let sx = board_order_score(searcher.spec_history(), searcher.spec_killers(), cells, side, moves[x].0, tt_move, ply);
    let sy = board_order_score(searcher.spec_history(), searcher.spec_killers(), cells, side, moves[y].0, tt_move, ply);
    lemma_order_score_range(searcher.spec_history(), searcher.spec_killers(), cells, side, moves[x].0, tt_move, ply);
    lemma_order_score_range(searcher.spec_history(), searcher.spec_killers(), cells, side, moves[y].0, tt_move, ply);
    assert(keys[x] == -sx);
    assert(keys[y] == -sy);
}

proof fn lemma_order_score_range(
    history: Seq<i32>,
    killers: Seq<Option<Move>>,
    cells: Seq<Option<(PieceKind, Side)>>,
    side: Side,
    mv: Move,
    tt_move: Option<Move>,
    ply: int,
)
    ensures
        i32::MIN + 100_000 <= board_order_score(history, killers, cells, side, mv, tt_move, ply) <= 10_000_000,
{
    let captured = kind_in(cells[mv.dest as int]);
    let moved = kind_in(cells[mv.source as int]);
    assert(-19_900 <= spec_capture_value(captured, moved) <= 19_900);
}

/// Law: at each depth the root moves are searched best first by their last
/// scores: in a stable order of `root_keys`, every move's last score (a move
/// not yet scored counting as -10 000 000) is at least that of each move
/// after it.
pub proof fn law_root_best_first(legal: Seq<usize>, scores: Seq<Option<i32>>, order: Seq<usize>, a: int, b: int)
    requires
        is_stable_order(root_keys(legal, scores), order),
        0 <= a < b < order.len(),
        forall|k: int| 0 <= k < scores.len() ==> #[trigger] scores[k] != Some(i32::MIN),
        forall|k: int| 0 <= k < legal.len() ==> #[trigger] legal[k] < scores.len(),
    ensures
        (match scores[legal[order[a] as int] as int] {
            Some(s) => s as int,
            None => -10_000_000,
        }) >= (match scores[legal[order[b] as int] as int] {
            Some(s) => s as int,
            None => -10_000_000,
        }),
{
    let keys = root_keys(legal, scores);
    let x = order[a] as int;
    let y = order[b] as int;
    assert(key_before(keys, x, y));
    assert(scores[legal[x] as int] != Some(i32::MIN));
    assert(scores[legal[y] as int] != Some(i32::MIN));
}

// ---------------------------------------------------------------------------
// The searcher.
// ---------------------------------------------------------------------------

/// A search over one NNUE evaluator, with its transposition table, history
/// table (12 pieces x 64 squares) and two killer moves per ply.
pub struct Searcher<'a> {
    nnue: &'a Nnue,
    nodes: u64,
    max_nodes: Option<u64>,
    tt: Vec<Option<TtEntry>>,
    history: Vec<i32>,
    killers: Vec<Option<Move>>,
}

impl<'a> Searcher<'a> {
    /// The tables have their sizes and history scores are never negative.
    pub closed spec fn wf(&self) -> bool {
        &&& self.tt@.len() == TT_SIZE
        &&& self.history@.len() == 768
        &&& self.killers@.len() == 2 * MAX_PLY
        &&& forall|k: int| 0 <= k < 768 ==> self.history@[k] >= 0
    }

    pub closed spec fn spec_nodes(&self) -> u64 {
        self.nodes
    }

    pub closed spec fn spec_max_nodes(&self) -> Option<u64> {
        self.max_nodes
    }

    pub closed spec fn spec_nnue(&self) -> &'a Nnue {
        self.nnue
    }

    /// The history table: a score per piece (side first, then kind) and
    /// destination square.
    pub closed spec fn spec_history(&self) -> Seq<i32> {
        self.history@
    }

    /// The killer moves: two per ply.
    pub closed spec fn spec_killers(&self) -> Seq<Option<Move>> {
        self.killers@
    }

    /// The table slot that a key maps to.
    pub closed spec fn tt_slot(&self, key: u64) -> Option<TtEntry> {
        self.tt@[slot_of(key)]
    }

    /// The node count is within the budget, if there is one.
    pub open spec fn within_budget(&self) -> bool {
        match self.spec_max_nodes() {
            Some(max) => self.spec_nodes() <= max,
            None => true,
        }
    }

    /// The node budget is used up: the search must stop.
    pub open spec fn budget_spent(&self) -> bool {
        match self.spec_max_nodes() {
            Some(max) => self.spec_nodes() >= max,
            None => false,
        }
    }

    /// `after` is `self` after some search: same evaluator and budget, no
    /// fewer nodes, and still within the budget if `self` was.
    pub open spec fn searched_to(&self, after: &Self) -> bool {
        &&& after.wf()
        &&& after.spec_nnue() == self.spec_nnue()
        &&& after.spec_max_nodes() == self.spec_max_nodes()
        &&& after.spec_nodes() >= self.spec_nodes()
        &&& self.within_budget() ==> after.within_budget()
    }

    pub fn new(nnue: &'a Nnue) -> (r: Self)
        ensures
            r.wf(),
            r.spec_nnue() == nnue,
            r.spec_nodes() == 0,
            r.spec_max_nodes() == None::<u64>,
            forall|key: u64| r.tt_slot(key) == None::<TtEntry>,
            r.spec_history() == Seq::new(768, |k: int| 0i32),
            r.spec_killers() == Seq::new(2 * MAX_PLY as nat, |k: int| None::<Move>),
            fresh_searcher(r, nnue, None),
    {
        let mut tt: Vec<Option<TtEntry>> = Vec::new();
        let mut k: usize = 0;
        while k < TT_SIZE
            invariant
                k <= TT_SIZE,
                tt@.len() == k,
                forall|j: int| 0 <= j < k ==> tt@[j] == None::<TtEntry>,
            decreases TT_SIZE - k,
        {
            tt.push(None);
            k = k + 1;
        }
        let mut history: Vec<i32> = Vec::new();
        let mut k: usize = 0;
        while k < 768
            invariant
                k <= 768,
                history@.len() == k,
                forall|j: int| 0 <= j < k ==> history@[j] == 0,
            decreases 768 - k,
        {
            history.push(0);
            k = k + 1;
        }
        let mut killers: Vec<Option<Move>> = Vec::new();
        let mut k: usize = 0;
        while k < 2 * MAX_PLY
            invariant
                k <= 2 * MAX_PLY,
                killers@.len() == k,
                forall|j: int| 0 <= j < k ==> killers@[j] == None::<Move>,
            decreases 2 * MAX_PLY - k,
        {
            killers.push(None);
            k = k + 1;
        }
        let r = Searcher { nnue, nodes: 0, max_nodes: None, tt, history, killers };
        assert forall|key: u64| r.tt_slot(key) == None::<TtEntry> by {
            assert(0 <= slot_of(key) < TT_SIZE);
        }
        assert(r.spec_history() =~= Seq::new(768, |k: int| 0i32));
        assert(r.spec_killers() =~= Seq::new(2 * MAX_PLY as nat, |k: int| None::<Move>));
        r
    }

    /// Limits the search to `max_nodes` nodes.
    pub fn with_max_nodes(self, max_nodes: u64) -> (r: Self)
        requires
            self.wf(),
        ensures
            r.wf(),
            r.spec_max_nodes() == Some(max_nodes),
            r.spec_nodes() == self.spec_nodes(),
            r.spec_nnue() == self.spec_nnue(),
            forall|key: u64| r.tt_slot(key) == self.tt_slot(key),
            r.spec_history() == self.spec_history(),
            r.spec_killers() == self.spec_killers(),
            fresh_searcher(self, self.spec_nnue(), self.spec_max_nodes()) ==> fresh_searcher(
                r,
                self.spec_nnue(),
                Some(max_nodes),
            ),
    {
        let ghost before = self;
        let mut s = self;
        s.max_nodes = Some(max_nodes);
        assert forall|key: u64| #[trigger] s.tt_slot(key) == before.tt_slot(key) by {}
        s
    }

    /// The number of nodes searched so far.
    pub fn nodes(&self) -> (r: u64)
        ensures
            r == self.spec_nodes(),
    {
        self.nodes
    }

    /// The search must stop: the node budget is used up.
    fn should_stop(&self) -> (r: bool)
        ensures
            r == self.budget_spent(),
    {
        match self.max_nodes {
            Some(max) => self.nodes >= max,
            None => false,
        }
    }

    /// Counts a node (the count saturates, which no search can reach).
    fn count_node(&mut self)
        requires
            old(self).wf(),
            !old(self).budget_spent(),
        ensures
            old(self).searched_to(final(self)),
            final(self).spec_nodes() == if old(self).spec_nodes() < u64::MAX {
                (old(self).spec_nodes() + 1) as u64
            } else {
                old(self).spec_nodes()
            },
            final(self).history@ == old(self).history@,
            final(self).killers@ == old(self).killers@,
            forall|key: u64| final(self).tt_slot(key) == old(self).tt_slot(key),
            counted_node(*old(self), *final(self)),
    {
        if self.nodes < u64::MAX {
            self.nodes = self.nodes + 1;
        }
    }

    fn tt_index(&self, key: u64) -> (r: usize)
        ensures
            r == slot_of(key),
            r < TT_SIZE,
    {
        (key % 1048576) as usize
    }

    /// Looks a board (by its key) up in the transposition table.
    pub fn probe_tt(&self, key: u64, depth: u8, alpha: i32, beta: i32) -> (r: Option<i32>)
        requires
            self.wf(),
        ensures
            r == probe_answer(self.tt_slot(key), key, depth, alpha, beta),
    {
        let idx = self.tt_index(key);
        match self.tt[idx] {
            None => None,
            Some(entry) => {
                if entry.key != key || entry.depth < depth {
                    None
                } else {
                    match entry.flag {
                        TtFlag::Exact => Some(entry.score),
                        TtFlag::Lower => if entry.score >= beta {
                            Some(entry.score)
                        } else {
                            None
                        },
                        TtFlag::Upper => if entry.score <= alpha {
                            Some(entry.score)
                        } else {
                            None
                        },
                    }
                }
            },
        }
    }

    /// Stores a search result in the slot of `key`, replacing what was there.
    pub fn store_tt(&mut self, key: u64, depth: u8, flag: TtFlag, score: i32, best_move: Option<Move>)
        requires
            old(self).wf(),
        ensures
            final(self).wf(),
            final(self).spec_nnue() == old(self).spec_nnue(),
            final(self).spec_nodes() == old(self).spec_nodes(),
            final(self).spec_max_nodes() == old(self).spec_max_nodes(),
            final(self).spec_history() == old(self).spec_history(),
            final(self).spec_killers() == old(self).spec_killers(),
            final(self).tt_slot(key) == Some(TtEntry { key, depth, flag, score, best_move }),
            forall|other: u64|
                slot_of(other) != slot_of(key) ==> final(self).tt_slot(other) == old(self).tt_slot(
                    other,
                ),
            stored_entry(*old(self), *final(self), key, TtEntry { key, depth, flag, score, best_move }),
    {
        let idx = self.tt_index(key);
        self.tt.set(idx, Some(TtEntry { key, depth, flag, score, best_move }));
    }

    fn piece_index(piece: PieceKind, color: Side) -> (r: usize)
        ensures
            r == history_row(piece, color),
            r < 12,
    {
        color.to_index() * 6 + piece.to_index()
    }

    /// The ordering score of a move from the plain facts it depends on.
    fn order_score(
        &self,
        mv: Move,
        tt_move: Option<Move>,
        captured: Option<PieceKind>,
        moved: Option<PieceKind>,
        side: Side,
        ply: usize,
    ) -> (r: i32)
        requires
            self.wf(),
            mv.wf(),
            ply < MAX_PLY,
        ensures
            r == order_score_spec(
                self.history@,
                self.killers@,
                mv,
                tt_move,
                captured,
                moved,
                side,
                ply as int,
            ),
            0 <= r <= 10_000_000,
    {
        if same_move(Some(mv), tt_move) {
            return 10_000_000;
        }
        if let Some(c) = captured {
            return capture_value(Some(c), moved) + 1_000_000;
        }
        if mv.promotion.is_some() {
            return 900_000;
        }
        let piece = match moved {
            Some(p) => p,
            None => PieceKind::Pawn,
        };
        let p = Self::piece_index(piece, side);
        let hist = self.history[p * 64 + mv.dest as usize];
        if hist != 0 {
            let capped = if hist < 99_999 { hist } else { 99_999 };
            return 100_000 + capped;
        }
        if same_move(self.killers[2 * ply], Some(mv)) || same_move(self.killers[2 * ply + 1], Some(mv)) {
            return 50_000;
        }
        0
    }

    /// The ordering score of a move on `position`: `order_score_spec` of the
    /// pieces that the position has on the move's destination and source
    /// squares and of its side to move.
    fn move_order_score(&self, position: &Position, mv: Move, tt_move: Option<Move>, ply: usize) -> (r: i32)
        requires
            self.wf(),
            position.wf(),
            mv.wf(),
            ply < MAX_PLY,
        ensures
            0 <= r <= 10_000_000,
            r == board_order_score(
                self.history@,
                self.killers@,
                position.squares@,
                position.side_to_move,
                mv,
                tt_move,
                ply as int,
            ),
    {
        let captured = match position.squares[mv.dest as usize] {
            Some((kind, _)) => Some(kind),
            None => None,
        };
        let moved = match position.squares[mv.source as usize] {
            Some((kind, _)) => Some(kind),
            None => None,
        };
        self.order_score(mv, tt_move, captured, moved, position.side_to_move, ply)
    }
}

/// Law: a table entry is read back as stored. After `store_tt` for a key,
/// probing that key no deeper than stored gives the stored score when it is
/// exact, a lower bound when it reaches `beta`, an upper bound when it is at
/// most `alpha`; in every other case the probe gives nothing.
pub proof fn law_tt_read_after_write(
    searcher: &Searcher,
    key: u64,
    depth: u8,
    flag: TtFlag,
    score: i32,
    best_move: Option<Move>,
    probe_depth: u8,
    alpha: i32,
    beta: i32,
)
    requires
        searcher.tt_slot(key) == Some(TtEntry { key, depth, flag, score, best_move }),
    ensures
        probe_depth <= depth ==> probe_answer(searcher.tt_slot(key), key, probe_depth, alpha, beta) == (match flag {
            TtFlag::Exact => Some(score),
            TtFlag::Lower => if score >= beta {
                Some(score)
            } else {
                None
            },
            TtFlag::Upper => if score <= alpha {
                Some(score)
            } else {
                None
            },
        }),
        probe_depth > depth ==> probe_answer(searcher.tt_slot(key), key, probe_depth, alpha, beta)
            == None::<i32>,
{
}

impl<'a> Searcher<'a> {
    /// The static evaluation of a position given as FEN, from its side to
    /// move.
    fn evaluate_board(&self, board: &[u8]) -> (r: i32)
        requires
            self.spec_nnue().spec_weights().wf(),
        ensures
            r == board_evaluation(self.spec_nnue().spec_weights(), board@),
    {
        let position = Position::from_fen(board);
        self.nnue.evaluate(&position)
    }

    /// Capture-only search from `board` (given as FEN) in the window
    /// `(alpha, beta)`, with the side to move allowed to stand pat on the
    /// static evaluation: `quiescence_value`, which also gives the node count
    /// afterwards; nothing else changes. `captures_left` bounds the length of
    /// a capture sequence: every capture removes a piece, so 64 is never
    /// reached.
    fn quiescence(&mut self, board: &[u8], alpha: i32, beta: i32, captures_left: u32) -> (r: i32)
        requires
            old(self).wf(),
            old(self).spec_nnue().spec_weights().wf(),
            fen_safe(board@),
        ensures
            old(self).searched_to(final(self)),
            same_tables(*old(self), *final(self)),
            (final(self).spec_nodes(), r) == quiescence_value(
                old(self).spec_nnue().spec_weights(),
                old(self).spec_max_nodes(),
                old(self).spec_nodes(),
                board@,
                alpha,
                beta,
                captures_left,
            ),
        decreases captures_left,
    {
        let ghost w = self.spec_nnue().spec_weights();
        let ghost max = self.spec_max_nodes();
        if self.should_stop() {
            return self.evaluate_board(board);
        }
        self.count_node();
        let ghost counted = self.spec_nodes();
        let mut best = alpha;
        let eval = self.evaluate_board(board);
        if eval >= beta {
            return beta;
        }
        if eval > best {
            best = eval;
        }
        if captures_left == 0 {
            return best;
        }
        let position = Position::from_fen(board);
        let children = legal_successors(board);
        let ghost moves = successors_of(board@);
        let ghost cells = fen_squares(board@);
        let mut captures: Vec<usize> = Vec::new();
        let mut keys: Vec<i32> = Vec::new();
        let n = children.len();
        let mut k: usize = 0;
        while k < n
            invariant
                k <= n,
                n == children@.len(),
                position.wf(),
                position.squares@ == cells,
                deep_children(children@) == moves,
                forall|i: int| 0 <= i < n ==> (#[trigger] children@[i]).0.wf(),
                captures@ == captures_upto(moves, cells, k as int),
                keys@ == capture_keys_upto(moves, cells, k as int),
                forall|i: int| 0 <= i < captures@.len() ==> captures@[i] < k,
            decreases n - k,
        {
            assert(deep_children(children@)[k as int] == (children@[k as int].0, children@[k as int].1@));
            let mv = children[k].0;
            let captured = match position.squares[mv.dest as usize] {
                Some((kind, _)) => Some(kind),
                None => None,
            };
            if captured.is_some() {
                let moved = match position.squares[mv.source as usize] {
                    Some((kind, _)) => Some(kind),
                    None => None,
                };
                let value = capture_value(captured, moved);
                captures.push(k);
                keys.push(-value);
            }
            k = k + 1;
        }
        assert(children@.len() == moves.len());
        let key_count = keys.len();
        let order = stable_order(&keys);
        proof {
            lemma_stable_order_unique(keys@, order@, stable_sorted(keys@));
        }
        assert(captures@.len() == keys@.len()) by {
            lemma_captures_keys_len(moves, cells, n as int);
        }
        let ghost start = *old(self);
        let mut k: usize = 0;
        while k < order.len()
            invariant
                is_stable_order(keys@, order@),
                order@ == stable_sorted(keys@),
                captures@.len() == keys@.len(),
                captures@ == captures_upto(moves, cells, moves.len() as int),
                keys@ == capture_keys_upto(moves, cells, moves.len() as int),
                forall|i: int| 0 <= i < captures@.len() ==> captures@[i] < children@.len(),
                deep_children(children@) == moves,
                forall|i: int| 0 <= i < children@.len() ==> names_both_kings((#[trigger] children@[i]).1@),
                start == *old(self),
                start.spec_nnue().spec_weights().wf(),
                start.searched_to(self),
                same_tables(start, *self),
                w == start.spec_nnue().spec_weights(),
                max == start.spec_max_nodes(),
                captures_left > 0,
                eval < beta,
                capture_search(w, max, self.spec_nodes(), moves, captures@, order@, k as int, beta, best, captures_left)
                    == quiescence_value(w, max, start.spec_nodes(), board@, alpha, beta, captures_left),
            decreases order@.len() - k,
        {
            let idx = captures[order[k]];
            let child = children[idx].1.as_slice();
            proof {
                assert(deep_children(children@)[idx as int] == (children@[idx as int].0, children@[idx as int].1@));
                lemma_both_kings_safe(children@[idx as int].1@);
            }
            let ghost before = self.spec_nodes();
            let sub = self.quiescence(child, neg_wrapping(beta), neg_wrapping(best), captures_left - 1);
            let score = neg_wrapping(sub);
            if score >= beta {
                return beta;
            }
            if score > best {
                best = score;
            }
            k = k + 1;
        }
        best
    }

    /// Records a quiet move that refuted a position: its history score grows
    /// by `depth * depth` (saturating at `i32::MAX`), and it becomes the
    /// first killer move of the ply, the former first becoming the second.
    fn record_cutoff(&mut self, piece: PieceKind, side: Side, mv: Move, depth: u8, ply: usize)
        requires
            old(self).wf(),
            mv.wf(),
            ply < MAX_PLY,
        ensures
            final(self).wf(),
            final(self).spec_nnue() == old(self).spec_nnue(),
            final(self).spec_nodes() == old(self).spec_nodes(),
            final(self).spec_max_nodes() == old(self).spec_max_nodes(),
            forall|key: u64| final(self).tt_slot(key) == old(self).tt_slot(key),
            final(self).history@ == old(self).history@.update(
                history_row(piece, side) * 64 + mv.dest,
                if old(self).history@[history_row(piece, side) * 64 + mv.dest] + depth * depth
                    > i32::MAX {
                    i32::MAX
                } else {
                    (old(self).history@[history_row(piece, side) * 64 + mv.dest] + depth * depth) as i32
                },
            ),
            final(self).killers@ == if old(self).killers@[2 * ply] == Some(mv) {
                old(self).killers@
            } else {
                old(self).killers@.update(2 * ply + 1, old(self).killers@[2 * ply]).update(
                    2 * ply,
                    Some(mv),
                )
            },
            cutoff_recorded(*old(self), *final(self), piece, side, mv, depth, ply as int),
    {
        let p = Self::piece_index(piece, side);
        let s = mv.dest as usize;
        let d = depth as i32;
        assert(0 <= d * d <= 65025) by (nonlinear_arith)
            requires
                0 <= d <= 255,
        ;
        let bonus: i32 = d * d;
        let hist = self.history[p * 64 + s];
        let updated = if hist > i32::MAX - bonus { i32::MAX } else { hist + bonus };
        self.history.set(p * 64 + s, updated);
        if !same_move(self.killers[2 * ply], Some(mv)) {
            let first = self.killers[2 * ply];
            self.killers.set(2 * ply + 1, first);
            self.killers.set(2 * ply, Some(mv));
        }
    }

    /// Negamax alpha-beta search of `board` (given as FEN) to `depth` in the
    /// window `(alpha, beta)`, `ply` moves below the root: `negamax_search`,
    /// from the searcher as it was to the searcher as it is left. Checks
    /// extend the search by a ply; beyond `MAX_PLY` plies only captures are
    /// searched.
    #[verifier::rlimit(100)]
    fn negamax(
        &mut self,
        board: &[u8],
        depth: u8,
        alpha: i32,
        beta: i32,
        allow_null: bool,
        use_tt: bool,
        ply: usize,
    ) -> (r: i32)
        requires
            old(self).wf(),
            old(self).spec_nnue().spec_weights().wf(),
            fen_safe(board@),
            ply <= MAX_PLY,
        ensures
            old(self).searched_to(final(self)),
            !old(self).budget_spent() ==> final(self).spec_nodes() >= next_count(old(self).spec_nodes()),
            negamax_search(
                *old(self),
                *final(self),
                board@,
                depth,
                alpha,
                beta,
                allow_null,
                use_tt,
                ply as int,
                r,
            ),
        decreases MAX_PLY - ply,
    {
        let ghost before = *self;
        if self.should_stop() {
            return self.evaluate_board(board);
        }
        self.count_node();
        let ghost counted = *self;

        let is_check = count_checkers(board) > 0;
        let key = board_key(board);

        if let Some(score) = self.probe_tt(key, depth, alpha, beta) {
            if use_tt {
                assert(node_search(counted, *self, key, board@, depth, alpha, beta, allow_null, use_tt, ply as int, score));
                assert(witnessed(key, counted));
                return score;
            }
        }

        let children = legal_successors(board);
        let ghost moves = successors_of(board@);
        assert(children@.len() == moves.len());
        if children.len() == 0 {
            let t = if is_check {
                -(MATE_SCORE - ply as i32)
            } else {
                0
            };
            assert(node_search(counted, *self, key, board@, depth, alpha, beta, allow_null, use_tt, ply as int, t));
            assert(witnessed(key, counted));
            return t;
        }

        if depth == 0 || ply >= MAX_PLY {
            let q = self.quiescence(board, alpha, beta, 64);
            assert(node_search(counted, *self, key, board@, depth, alpha, beta, allow_null, use_tt, ply as int, q));
            assert(witnessed(key, counted));
            return q;
        }

        let tt_move = if use_tt {
            match self.tt[self.tt_index(key)] {
                Some(entry) => if entry.key == key {
                    entry.best_move
                } else {
                    None
                },
                None => None,
            }
        } else {
            None
        };
        assert(tt_move == table_move(counted, key, use_tt));

        let ghost start = *old(self);
        let position = Position::from_fen(board);
        let ghost cells = fen_squares(board@);
        let ghost side = fen_side(board@);

        // Null move pruning
        let ghost mut null_score: i32 = 0;
        if allow_null && !is_check && ply > 0 && depth > NULL_REDUCTION {
            if let Some(next) = null_move(board) {
                proof {
                    lemma_both_kings_safe(next@);
                }
                let c = self.negamax(
                    next.as_slice(),
                    depth.saturating_sub(1 + NULL_REDUCTION),
                    neg_wrapping(beta),
                    sub_wrapping(neg_wrapping(beta), -1),
                    false,
                    use_tt,
                    ply + 1,
                );
                proof {
                    null_score = c;
                }
                let score = neg_wrapping(c);
                if score >= beta {
                    assert(negamax_search(
                        counted,
                        *self,
                        null_move_of(board@)->0,
                        sat_sub(depth, (1 + NULL_REDUCTION) as u8),
                        wrap_i32(-beta) as i32,
                        wrap_i32(wrap_i32(-beta) + 1) as i32,
                        false,
                        use_tt,
                        ply + 1,
                        c,
                    ));
                    assert(witnessed(*self, c));
                    assert(node_search(counted, *self, key, board@, depth, alpha, beta, allow_null, use_tt, ply as int, beta));
                    assert(witnessed(key, counted));
                    return beta;
                }
            }
        }
        let ghost searched = *self;
        proof {
            if allow_null && !is_check && ply > 0 && depth > NULL_REDUCTION && null_move_of(board@) is Some {
                assert(negamax_search(
                    counted,
                    searched,
                    null_move_of(board@)->0,
                    sat_sub(depth, (1 + NULL_REDUCTION) as u8),
                    wrap_i32(-beta) as i32,
                    wrap_i32(wrap_i32(-beta) + 1) as i32,
                    false,
                    use_tt,
                    ply + 1,
                    null_score,
                ));
                assert(witnessed(searched, null_score));
                assert(wrap_i32(-null_score) < beta);
            } else {
                assert(searched == counted);
            }
        }

        let n = children.len();
        let (keys, order) = self.sort_moves(&position, &children, tt_move, ply);
        assert(keys@ == order_keys(searched, cells, side, moves, tt_move, ply as int));

        assert forall|b: Searcher, rr: i32|
            #[trigger] move_search(
                searched,
                b,
                key,
                moves,
                cells,
                side,
                order@,
                0,
                alpha,
                None,
                TtFlag::Upper,
                depth,
                alpha,
                beta,
                use_tt,
                ply as int,
                is_check,
                rr,
            ) implies node_search(counted, b, key, board@, depth, alpha, beta, allow_null, use_tt, ply as int, rr) by {
            if allow_null && !is_check && ply > 0 && depth > NULL_REDUCTION && null_move_of(board@) is Some {
                assert(witnessed(searched, null_score));
            }
        }
        let mut best = alpha;
        let mut best_move: Option<Move> = None;
        let mut flag = TtFlag::Upper;
        let mut i: usize = 0;
        while i < order.len()
            invariant
                forall|b: Searcher, rr: i32|
                    #[trigger] move_search(
                        searched,
                        b,
                        key,
                        moves,
                        cells,
                        side,
                        order@,
                        0,
                        alpha,
                        None,
                        TtFlag::Upper,
                        depth,
                        alpha,
                        beta,
                        use_tt,
                        ply as int,
                        is_check,
                        rr,
                    ) ==> node_search(counted, b, key, board@, depth, alpha, beta, allow_null, use_tt, ply as int, rr),
                counted_node(*old(self), counted),
                is_stable_order(keys@, order@),
                order@ == stable_sorted(keys@),
                keys@.len() == n,
                n == children@.len(),
                position.wf(),
                position.squares@ == cells,
                position.side_to_move == side,
                forall|j: int| 0 <= j < n ==> (#[trigger] children@[j]).0.wf(),
                forall|j: int| 0 <= j < n ==> names_both_kings((#[trigger] children@[j]).1@),
                deep_children(children@) == moves,
                start == *old(self),
                start.spec_nnue().spec_weights().wf(),
                start.searched_to(self),
                ply < MAX_PLY,
                depth != 0,
                !start.budget_spent(),
                self.spec_nodes() >= next_count(start.spec_nodes()),
                is_check == (checker_count(board@) > 0),
                forall|b: Searcher, rr: i32|
                    #[trigger] move_search(
                        *self,
                        b,
                        key,
                        moves,
                        cells,
                        side,
                        order@,
                        i as int,
                        best,
                        best_move,
                        flag,
                        depth,
                        alpha,
                        beta,
                        use_tt,
                        ply as int,
                        is_check,
                        rr,
                    ) ==> move_search(
                        searched,
                        b,
                        key,
                        moves,
                        cells,
                        side,
                        order@,
                        0,
                        alpha,
                        None,
                        TtFlag::Upper,
                        depth,
                        alpha,
                        beta,
                        use_tt,
                        ply as int,
                        is_check,
                        rr,
                    ),
            decreases order@.len() - i,
        {
            let ghost current = *self;
            let idx = order[i];
            let mv = children[idx].0;
            let next = children[idx].1.as_slice();
            proof {
                lemma_both_kings_safe(children@[idx as int].1@);
                assert(deep_children(children@)[idx as int] == (children@[idx as int].0, children@[idx as int].1@));
            }
            let new_depth = if is_check { depth } else { depth.saturating_sub(1) };
            let mut score: i32;
            let ghost mut first_state = current;
            let ghost mut first_c: i32 = 0;
            let ghost mut second_c: i32 = 0;
            if i == 0 {
                let c = self.negamax(next, new_depth, neg_wrapping(beta), neg_wrapping(best), true, use_tt, ply + 1);
                proof {
                    first_state = *self;
                    first_c = c;
                }
                score = neg_wrapping(c);
            } else {
                let reduction: u8 = if depth >= LMR_DEPTH && i >= LMR_MOVES && mv.promotion.is_none()
                    && position.squares[mv.dest as usize].is_none() {
                    1
                } else {
                    0
                };
                let c = self.negamax(
                    next,
                    new_depth.saturating_sub(reduction),
                    sub_wrapping(neg_wrapping(best), 1),
                    neg_wrapping(best),
                    true,
                    use_tt,
                    ply + 1,
                );
                proof {
                    first_state = *self;
                    first_c = c;
                }
                score = neg_wrapping(c);
                if score > best && (reduction > 0 || score < beta) {
                    let c2 = self.negamax(next, new_depth, neg_wrapping(beta), neg_wrapping(best), true, use_tt, ply + 1);
                    proof {
                        second_c = c2;
                    }
                    score = neg_wrapping(c2);
                }
            }
            let ghost scored = *self;
            proof {
                let child = moves[order@[i as int] as int].1;
                assert(child == next@);
                assert(mv == moves[order@[i as int] as int].0);
                let nd = if is_check { depth } else { sat_sub(depth, 1) };
                assert(new_depth == nd);
                if i == 0 {
                    assert(negamax_search(
                        current,
                        first_state,
                        child,
                        nd,
                        wrap_i32(-beta) as i32,
                        wrap_i32(-best) as i32,
                        true,
                        use_tt,
                        ply + 1,
                        first_c,
                    ));
                    assert(scored == first_state);
                    assert(score == wrap_i32(-first_c));
                    assert(witnessed(first_state, first_c));
                } else {
                    let red: u8 = if depth >= LMR_DEPTH && i >= LMR_MOVES && mv.promotion is None
                        && cells[mv.dest as int] is None {
                        1
                    } else {
                        0
                    };
                    assert(negamax_search(
                        current,
                        first_state,
                        child,
                        sat_sub(nd, red),
                        wrap_i32(wrap_i32(-best) - 1) as i32,
                        wrap_i32(-best) as i32,
                        true,
                        use_tt,
                        ply + 1,
                        first_c,
                    ));
                    assert(witnessed(first_state, first_c));
                    if wrap_i32(-first_c) > best && (red > 0 || wrap_i32(-first_c) < beta) {
                        assert(negamax_search(
                            first_state,
                            scored,
                            child,
                            nd,
                            wrap_i32(-beta) as i32,
                            wrap_i32(-best) as i32,
                            true,
                            use_tt,
                            ply + 1,
                            second_c,
                        ));
                        assert(score == wrap_i32(-second_c));
                        assert(witnessed(scored, second_c));
                    } else {
                        assert(scored == first_state);
                        assert(score == wrap_i32(-first_c));
                    }
                }
            }

            if score >= beta {
                if position.squares[mv.dest as usize].is_none() {
                    let moved = match position.squares[mv.source as usize] {
                        Some((kind, _)) => kind,
                        None => PieceKind::Pawn,
                    };
                    self.record_cutoff(moved, position.side_to_move, mv, depth, ply);
                }
                let ghost recorded = *self;
                self.store_tt(key, depth, TtFlag::Lower, beta, Some(mv));
                assert(witnessed(recorded, key));
                assert(move_done(
                    scored,
                    *self,
                    key,
                    moves,
                    cells,
                    side,
                    order@,
                    i as int,
                    score,
                    best,
                    best_move,
                    flag,
                    depth,
                    alpha,
                    beta,
                    use_tt,
                    ply as int,
                    is_check,
                    beta,
                ));
                assert(move_search(
                    current,
                    *self,
                    key,
                    moves,
                    cells,
                    side,
                    order@,
                    i as int,
                    best,
                    best_move,
                    flag,
                    depth,
                    alpha,
                    beta,
                    use_tt,
                    ply as int,
                    is_check,
                    beta,
                ));
                assert(node_search(counted, *self, key, board@, depth, alpha, beta, allow_null, use_tt, ply as int, beta));
                assert(witnessed(key, counted));
                return beta;
            }
            let ghost old_best = best;
            let ghost old_best_move = best_move;
            let ghost old_flag = flag;
            if score > best {
                best = score;
                best_move = Some(mv);
                flag = TtFlag::Exact;
            }
            i = i + 1;
            assert forall|b: Searcher, rr: i32|
                #[trigger] move_search(
                    *self,
                    b,
                    key,
                    moves,
                    cells,
                    side,
                    order@,
                    i as int,
                    best,
                    best_move,
                    flag,
                    depth,
                    alpha,
                    beta,
                    use_tt,
                    ply as int,
                    is_check,
                    rr,
                ) implies move_search(
                    current,
                    b,
                    key,
                    moves,
                    cells,
                    side,
                    order@,
                    (i - 1) as int,
                    old_best,
                    old_best_move,
                    old_flag,
                    depth,
                    alpha,
                    beta,
                    use_tt,
                    ply as int,
                    is_check,
                    rr,
                ) by {
                assert(move_done(
                    scored,
                    b,
                    key,
                    moves,
                    cells,
                    side,
                    order@,
                    (i - 1) as int,
                    score,
                    old_best,
                    old_best_move,
                    old_flag,
                    depth,
                    alpha,
                    beta,
                    use_tt,
                    ply as int,
                    is_check,
                    rr,
                ));
            }
        }
        let ghost last = *self;
        self.store_tt(key, depth, flag, best, best_move);
        assert(move_search(
            last,
            *self,
            key,
            moves,
            cells,
            side,
            order@,
            i as int,
            best,
            best_move,
            flag,
            depth,
            alpha,
            beta,
            use_tt,
            ply as int,
            is_check,
            best,
        ));
        assert(node_search(counted, *self, key, board@, depth, alpha, beta, allow_null, use_tt, ply as int, best));
        assert(witnessed(key, counted));
        best
    }

    /// Orders moves by descending ordering score on `position`, ties kept in
    /// generator order: returns the sort keys (the negated scores) and the
    /// order.
    fn sort_moves(
        &self,
        position: &Position,
        children: &Vec<(Move, Vec<u8>)>,
        tt_move: Option<Move>,
        ply: usize,
    ) -> (r: (Vec<i32>, Vec<usize>))
        requires
            self.wf(),
            position.wf(),
            ply < MAX_PLY,
            forall|i: int| 0 <= i < children@.len() ==> (#[trigger] children@[i]).0.wf(),
        ensures
            r.0@.len() == children@.len(),
            forall|k: int|
                0 <= k < children@.len() ==> r.0@[k] == -board_order_score(
                    self.history@,
                    self.killers@,
                    position.squares@,
                    position.side_to_move,
                    children@[k].0,
                    tt_move,
                    ply as int,
                ),
            is_stable_order(r.0@, r.1@),
            r.0@ == order_keys(
                *self,
                position.squares@,
                position.side_to_move,
                deep_children(children@),
                tt_move,
                ply as int,
            ),
            r.1@ == stable_sorted(r.0@),
    {
        let n = children.len();
        let mut keys: Vec<i32> = Vec::new();
        let mut k: usize = 0;
        while k < n
            invariant
                k <= n,
                n == children@.len(),
                forall|i: int| 0 <= i < n ==> (#[trigger] children@[i]).0.wf(),
                keys@.len() == k,
                self.wf(),
                position.wf(),
                ply < MAX_PLY,
                forall|j: int|
                    0 <= j < k ==> keys@[j] == -board_order_score(
                        self.history@,
                        self.killers@,
                        position.squares@,
                        position.side_to_move,
                        children@[j].0,
                        tt_move,
                        ply as int,
                    ),
            decreases n - k,
        {
            let score = self.move_order_score(position, children[k].0, tt_move, ply);
            keys.push(-score);
            k = k + 1;
        }
        let key_count = keys.len();
        let order = stable_order(&keys);
        proof {
            lemma_stable_order_unique(keys@, order@, stable_sorted(keys@));
            assert forall|j: int| 0 <= j < n implies keys@[j] == order_keys(
                *self,
                position.squares@,
                position.side_to_move,
                deep_children(children@),
                tt_move,
                ply as int,
            )[j] by {
                assert(deep_children(children@)[j] == (children@[j].0, children@[j].1@));
            }
            assert(keys@ =~= order_keys(
                *self,
                position.squares@,
                position.side_to_move,
                deep_children(children@),
                tt_move,
                ply as int,
            ));
        }
        (keys, order)
    }

    /// Iterative deepening over the legal moves of a position, given with
    /// the board each leads to. Each iteration searches the moves best-first
    /// by the previous iteration's scores (moves not yet scored last, ties in
    /// their previous order) and then puts the iteration's best move in
    /// front. Stops early when the node budget is used up. Returns the front
    /// move and the best score of the last iteration, `None` when there is
    /// no legal move.
    pub fn best_move_among(&mut self, children: &Vec<(Move, Vec<u8>)>, max_depth: u8) -> (r: Option<(Move, i32)>)
        requires
            old(self).wf(),
            old(self).spec_nnue().spec_weights().wf(),
            forall|i: int| 0 <= i < children@.len() ==> names_both_kings((#[trigger] children@[i]).1@),
        ensures
            old(self).searched_to(final(self)),
            r is None <==> children@.len() == 0,
            r matches Some((mv, _)) ==> exists|i: int| 0 <= i < children@.len() && children@[i].0 == mv,
            children@.len() > 0 && (max_depth == 0 || old(self).budget_spent()) ==> r == Some(
                (children@[0].0, (i32::MIN + 1) as i32),
            ) && *final(self) == *old(self),
            children@.len() > 0 && max_depth > 0 && !old(self).budget_spent() ==> final(self).spec_nodes()
                >= next_count(old(self).spec_nodes()),
            children@.len() > 0 ==> exists|i: usize, score: i32|
                #[trigger] witnessed(i, score) && i < children@.len() && r == Some((children@[i as int].0, score))
                    && deepening(
                    *old(self),
                    *final(self),
                    deep_children(children@),
                    first_indices(children@.len()),
                    Seq::new(children@.len(), |k: int| None::<i32>),
                    (i32::MIN + 1) as i32,
                    1,
                    max_depth,
                    (i, score),
                ),
    {
        let n = children.len();
        if n == 0 {
            return None;
        }
        let ghost start = *old(self);
        let mut legal: Vec<usize> = Vec::new();
        let mut scores: Vec<Option<i32>> = Vec::new();
        let mut k: usize = 0;
        while k < n
            invariant
                k <= n,
                n == children@.len(),
                legal@.len() == k,
                scores@.len() == k,
                forall|j: int| 0 <= j < k ==> legal@[j] == j,
                forall|j: int| 0 <= j < k ==> scores@[j] == None::<i32>,
            decreases n - k,
        {
            legal.push(k);
            scores.push(None);
            k = k + 1;
        }

        let ghost ch = deep_children(children@);
        let ghost nones = Seq::new(n as nat, |k: int| None::<i32>);
        assert(legal@ =~= first_indices(n as nat));
        assert(scores@ =~= nones);
        let mut alpha: i32 = i32::MIN + 1;
        let beta: i32 = i32::MAX;
        let mut depth: u16 = 1;
        while depth <= max_depth as u16
            invariant
                n == children@.len(),
                n > 0,
                legal@.len() == n,
                scores@.len() == n,
                forall|j: int| 0 <= j < n ==> legal@[j] < n,
                start == *old(self),
                start.spec_nnue().spec_weights().wf(),
                start.searched_to(self),
                1 <= depth <= 256,
                start.budget_spent() ==> depth == 1,
                max_depth == 0 ==> depth == 1,
                depth == 1 ==> alpha == i32::MIN + 1 && legal@[0] == 0 && *self == start,
                depth > 1 ==> self.spec_nodes() >= next_count(start.spec_nodes()),
                forall|i: int| 0 <= i < n ==> names_both_kings((#[trigger] children@[i]).1@),
                ch == deep_children(children@),
                beta == i32::MAX,
                forall|b: Searcher, rr: (usize, i32)|
                    #[trigger] deepening(*self, b, ch, legal@, scores@, alpha, depth as int, max_depth, rr)
                        ==> deepening(
                        start,
                        b,
                        ch,
                        first_indices(n as nat),
                        nones,
                        (i32::MIN + 1) as i32,
                        1,
                        max_depth,
                        rr,
                    ),
            ensures
                depth > 1 || start.budget_spent() || max_depth == 0,
                depth > max_depth || self.budget_spent(),
            decreases 256 - depth,
        {
            if self.should_stop() {
                break;
            }
            let ghost iter_start = *self;
            let ghost prev_legal = legal@;
            let ghost prev_scores = scores@;
            let ghost prev_alpha = alpha;
            assert forall|b: Searcher, rr: (usize, i32)|
                #[trigger] deepening(iter_start, b, ch, prev_legal, prev_scores, prev_alpha, depth as int, max_depth, rr)
                    implies deepening(
                    start,
                    b,
                    ch,
                    first_indices(n as nat),
                    nones,
                    (i32::MIN + 1) as i32,
                    1,
                    max_depth,
                    rr,
                ) by {
            }
            let mut keys: Vec<i32> = Vec::new();
            let mut k: usize = 0;
            while k < n
                invariant
                    k <= n,
                    legal@.len() == n,
                    scores@.len() == n,
                    forall|j: int| 0 <= j < n ==> legal@[j] < n,
                    keys@.len() == k,
                    legal@ == prev_legal,
                    scores@ == prev_scores,
                    forall|j: int| 0 <= j < k ==> keys@[j] == root_keys(prev_legal, prev_scores)[j],
                    depth == 1 ==> *self == start,
                    depth > 1 ==> self.spec_nodes() >= next_count(start.spec_nodes()),
                    n == children@.len(),
                    forall|i: int| 0 <= i < n ==> names_both_kings((#[trigger] children@[i]).1@),
                decreases n - k,
            {
                let score = match scores[legal[k]] {
                    Some(s) => s,
                    None => -10_000_000,
                };
                keys.push(neg_wrapping(score));
                k = k + 1;
            }
            let key_count = keys.len();
            let order = stable_order(&keys);
            proof {
                assert(keys@ =~= root_keys(prev_legal, prev_scores));
                lemma_stable_order_unique(keys@, order@, stable_sorted(keys@));
            }
            let mut sorted: Vec<usize> = Vec::new();
            let mut k: usize = 0;
            while k < n
                invariant
                    k <= n,
                    legal@.len() == n,
                    forall|j: int| 0 <= j < n ==> legal@[j] < n,
                    is_stable_order(keys@, order@),
                    keys@.len() == n,
                    sorted@.len() == k,
                    forall|j: int| 0 <= j < k ==> sorted@[j] < n,
                    legal@ == prev_legal,
                    order@ == stable_sorted(root_keys(prev_legal, prev_scores)),
                    forall|j: int| 0 <= j < k ==> sorted@[j] == root_order(prev_legal, prev_scores)[j],
                    depth == 1 ==> *self == start,
                    depth > 1 ==> self.spec_nodes() >= next_count(start.spec_nodes()),
                    n == children@.len(),
                    forall|i: int| 0 <= i < n ==> names_both_kings((#[trigger] children@[i]).1@),
                decreases n - k,
            {
                sorted.push(legal[order[k]]);
                k = k + 1;
            }
            assert(sorted@ =~= root_order(prev_legal, prev_scores));
            legal = sorted;

            let mut current_alpha = alpha;
            let mut current_best = legal[0];
            let mut k: usize = 0;
            while k < n
                invariant
                    k <= n,
                    n == children@.len(),
                    legal@.len() == n,
                    scores@.len() == n,
                    forall|j: int| 0 <= j < n ==> legal@[j] < n,
                    current_best < n,
                    start == *old(self),
                    start.spec_nnue().spec_weights().wf(),
                    start.searched_to(self),
                    1 <= depth <= 255,
                    depth == 1 && k == 0 ==> *self == start,
                    depth == 1 ==> !start.budget_spent(),
                    forall|i: int| 0 <= i < n ==> names_both_kings((#[trigger] children@[i]).1@),
                    depth > 1 || k > 0 ==> self.spec_nodes() >= next_count(start.spec_nodes()),
                    ch == deep_children(children@),
                    depth <= max_depth,
                    alpha == prev_alpha,
                    beta == i32::MAX,
                    forall|b: Searcher, rr: (usize, i32)|
                        #[trigger] root_iteration(
                            *self,
                            b,
                            ch,
                            legal@,
                            scores@,
                            depth as int,
                            max_depth,
                            k as int,
                            current_alpha,
                            current_best,
                            rr,
                        ) ==> deepening(iter_start, b, ch, prev_legal, prev_scores, prev_alpha, depth as int, max_depth, rr),
                ensures
                    depth > 1 || k > 0,
                    k >= n || self.budget_spent(),
                decreases n - k,
            {
                if self.should_stop() {
                    break;
                }
                let idx = legal[k];
                proof {
                    lemma_both_kings_safe(children@[idx as int].1@);
                    assert(ch[idx as int] == (children@[idx as int].0, children@[idx as int].1@));
                }
                let ghost here = *self;
                let ghost here_scores = scores@;
                let ghost here_alpha = current_alpha;
                let ghost here_best = current_best;
                let c = self.negamax(
                    &children[idx].1,
                    (depth - 1) as u8,
                    neg_wrapping(beta),
                    neg_wrapping(current_alpha),
                    true,
                    true,
                    0,
                );
                let score = neg_wrapping(c);
                scores.set(idx, Some(score));
                if score > current_alpha {
                    current_alpha = score;
                    current_best = idx;
                }
                k = k + 1;
                assert forall|b: Searcher, rr: (usize, i32)|
                    #[trigger] root_iteration(
                        *self,
                        b,
                        ch,
                        legal@,
                        scores@,
                        depth as int,
                        max_depth,
                        k as int,
                        current_alpha,
                        current_best,
                        rr,
                    ) implies root_iteration(
                    here,
                    b,
                    ch,
                    legal@,
                    here_scores,
                    depth as int,
                    max_depth,
                    (k - 1) as int,
                    here_alpha,
                    here_best,
                    rr,
                ) by {
                    assert(!here.budget_spent());
                    assert(negamax_search(
                        here,
                        *self,
                        ch[idx as int].1,
                        (depth - 1) as u8,
                        wrap_i32(-i32::MAX) as i32,
                        wrap_i32(-here_alpha) as i32,
                        true,
                        true,
                        0,
                        c,
                    ));
                    assert(witnessed(*self, c));
                    assert(scores@ == here_scores.update(idx as int, Some(wrap_i32(-c) as i32)));
                }
            }
            let ghost exit_state = *self;
            let ghost exit_legal = legal@;
            let ghost exit_k = k;
            alpha = current_alpha;
            legal.set(0, current_best);
            depth = depth + 1;
            assert forall|b: Searcher, rr: (usize, i32)|
                #[trigger] deepening(*self, b, ch, legal@, scores@, alpha, depth as int, max_depth, rr) implies deepening(
                    start,
                    b,
                    ch,
                    first_indices(n as nat),
                    nones,
                    (i32::MIN + 1) as i32,
                    1,
                    max_depth,
                    rr,
                ) by {
                assert(root_iteration(
                    exit_state,
                    b,
                    ch,
                    exit_legal,
                    scores@,
                    (depth - 1) as int,
                    max_depth,
                    exit_k as int,
                    alpha,
                    legal@[0],
                    rr,
                ));
                assert(deepening(iter_start, b, ch, prev_legal, prev_scores, prev_alpha, (depth - 1) as int, max_depth, rr));
            }
        }
        let best = children[legal[0]].0;
        assert(deepening(*self, *self, ch, legal@, scores@, alpha, depth as int, max_depth, (legal@[0], alpha)));
        assert(witnessed(legal@[0], alpha));
        Some((best, alpha))
    }

    /// Searches `board` (given as FEN) by iterative deepening up to
    /// `max_depth` and returns the chosen move, one of the position's legal
    /// moves, with its score; `None` exactly when there is no legal move.
    /// With no depth to search, or no budget left, it is the first legal
    /// move with the lowest score and nothing is searched.
    pub fn best_move(&mut self, board: &[u8], max_depth: u8) -> (r: Option<(Move, i32)>)
        requires
            old(self).wf(),
            old(self).spec_nnue().spec_weights().wf(),
            fen_safe(board@),
        ensures
            old(self).searched_to(final(self)),
            r is None <==> successors_of(board@).len() == 0,
            r matches Some((mv, _)) ==> mv.wf() && exists|i: int|
                0 <= i < successors_of(board@).len() && successors_of(board@)[i].0 == mv,
            successors_of(board@).len() > 0 && (max_depth == 0 || old(self).budget_spent()) ==> r
                == Some((successors_of(board@)[0].0, (i32::MIN + 1) as i32)) && *final(self) == *old(self),
            successors_of(board@).len() > 0 && max_depth > 0 && !old(self).budget_spent()
                ==> final(self).spec_nodes() >= next_count(old(self).spec_nodes()),
            root_search(*old(self), *final(self), board@, max_depth, r),
    {
        let children = legal_successors(board);
        let r = self.best_move_among(&children, max_depth);
        proof {
            if children@.len() > 0 {
                let (i, score) = choose|i: usize, score: i32|
                    #[trigger] witnessed(i, score) && i < children@.len() && r == Some((children@[i as int].0, score))
                        && deepening(
                        *old(self),
                        *self,
                        deep_children(children@),
                        first_indices(children@.len()),
                        Seq::new(children@.len(), |k: int| None::<i32>),
                        (i32::MIN + 1) as i32,
                        1,
                        max_depth,
                        (i, score),
                    );
                assert(deep_children(children@)[i as int] == (children@[i as int].0, children@[i as int].1@));
                assert(witnessed(i, score));
            }
        }
        proof {
            assert(children@.len() == successors_of(board@).len());
            assert forall|i: int| 0 <= i < children@.len() implies successors_of(board@)[i].0
                == children@[i].0 by {
                assert(deep_children(children@)[i] == (children@[i].0, children@[i].1@));
            }
        }
        r
    }
}

} // verus!
