//! Chess positions as the library holds them: as FEN text, which the calls
//! into the `chess` crate take and give, and as the squares and side to
//! move that the evaluation reads, parsed from that text.
use vstd::prelude::*;
use chess::{Board, ChessMove, Piece};
use std::str::FromStr;

verus! {

/// The six kinds of chess pieces, in the order of `chess::Piece`.
#[derive(Clone, Copy, Debug, PartialEq, Eq, Structural)]
pub enum PieceKind {
    Pawn,
    Knight,
    Bishop,
    Rook,
    Queen,
    King,
}

/// The two sides, in the order of `chess::Color`.
#[derive(Clone, Copy, Debug, PartialEq, Eq, Structural)]
pub enum Side {
    White,
    Black,
}

impl PieceKind {
    pub open spec fn spec_index(self) -> int {
        match self {
            PieceKind::Pawn => 0,
            PieceKind::Knight => 1,
            PieceKind::Bishop => 2,
            PieceKind::Rook => 3,
            PieceKind::Queen => 4,
            PieceKind::King => 5,
        }
    }

    /// The table index of the piece kind (0 for a pawn up to 5 for a king).
    pub fn to_index(&self) -> (r: usize)
        ensures
            r == self.spec_index(),
            r < 6,
    {
        match self {
            PieceKind::Pawn => 0,
            PieceKind::Knight => 1,
            PieceKind::Bishop => 2,
            PieceKind::Rook => 3,
            PieceKind::Queen => 4,
            PieceKind::King => 5,
        }
    }
}

impl Side {
    pub open spec fn spec_index(self) -> int {
        match self {
            Side::White => 0,
            Side::Black => 1,
        }
    }

    /// The table index of the side (0 for white, 1 for black).
    pub fn to_index(&self) -> (r: usize)
        ensures
            r == self.spec_index(),
            r < 2,
    {
        match self {
            Side::White => 0,
            Side::Black => 1,
        }
    }
}


/// A move as the library sees it: squares are indices `rank * 8 + file`
/// (a1 = 0, h8 = 63), as in `chess::Square::to_int`.
#[derive(Clone, Copy, Debug, PartialEq, Eq, Structural)]
pub struct Move {
    pub source: u8,
    pub dest: u8,
    pub promotion: Option<PieceKind>,
}

/// What the evaluation reads of a board: the piece and its side on each of
/// the 64 squares (indexed `rank * 8 + file`) and the side to move.
#[derive(Clone, Debug)]
pub struct Position {
    pub squares: Vec<Option<(PieceKind, Side)>>,
    pub side_to_move: Side,
}

impl Position {
    /// A position has exactly one entry per square.
    pub open spec fn wf(&self) -> bool {
        self.squares@.len() == 64
    }
}

/// The letter that UCI and `chess::Piece`'s `Display` use for a piece kind.
pub open spec fn piece_letter(kind: PieceKind) -> u8 {
    match kind {
        PieceKind::Pawn => 112u8,
        PieceKind::Knight => 110u8,
        PieceKind::Bishop => 98u8,
        PieceKind::Rook => 114u8,
        PieceKind::Queen => 113u8,
        PieceKind::King => 107u8,
    }
}

/// The two characters naming a square: file letter, then rank digit.
pub open spec fn square_text(square: int) -> Seq<u8> {
    seq![(97 + square % 8) as u8, (49 + square / 8) as u8]
}

/// The UCI text of a move: source square, destination square, then the
/// promotion letter if there is one (as `chess::ChessMove`'s `Display`).
pub open spec fn move_text(mv: Move) -> Seq<u8> {
    square_text(mv.source as int) + square_text(mv.dest as int) + match mv.promotion {
        Some(kind) => seq![piece_letter(kind)],
        None => Seq::<u8>::empty(),
    }
}

impl Move {
    pub open spec fn wf(&self) -> bool {
        self.source < 64 && self.dest < 64
    }

    /// The UCI text of the move, as ASCII bytes (for example `e2e4`, `a7a8q`).
    pub fn uci_text(&self) -> (r: Vec<u8>)
        requires
            self.wf(),
        ensures
            r@ == move_text(*self),
    {
        let mut out: Vec<u8> = Vec::new();
        out.push(97 + self.source % 8);
        out.push(49 + self.source / 8);
        out.push(97 + self.dest % 8);
        out.push(49 + self.dest / 8);
        match self.promotion {
            Some(kind) => {
                let letter: u8 = match kind {
                    PieceKind::Pawn => 112,
                    PieceKind::Knight => 110,
                    PieceKind::Bishop => 98,
                    PieceKind::Rook => 114,
                    PieceKind::Queen => 113,
                    PieceKind::King => 107,
                };
                out.push(letter);
            },
            None => {},
        }
        assert(out@ =~= move_text(*self));
        out
    }
}

/// `chess::ChessMove`, opaque here.
#[verifier::external_type_specification]
#[verifier::external_body]
pub struct ExChessMove(chess::ChessMove);

/// `chess::Piece`, opaque here.
#[verifier::external_type_specification]
#[verifier::external_body]
pub struct ExPiece(chess::Piece);

/// `chess::Board`, opaque here; it stands only inside the calls below,
/// which take and give boards as FEN text.
#[verifier::external_type_specification]
#[verifier::external_body]
pub struct ExBoard(chess::Board);

/// Converts a `chess::Piece` into the library's piece kind, variant for
/// variant. Nothing is claimed of the result: `Piece` is opaque here.
#[verifier::external_body]
fn kind_of(piece: Piece) -> PieceKind {
    match piece {
        Piece::Pawn => PieceKind::Pawn,
        Piece::Knight => PieceKind::Knight,
        Piece::Bishop => PieceKind::Bishop,
        Piece::Rook => PieceKind::Rook,
        Piece::Queen => PieceKind::Queen,
        Piece::King => PieceKind::King,
    }
}

/// Converts a `chess::ChessMove`: `get_source` and `get_dest` through
/// `Square::to_int`, `get_promotion` through `kind_of`. Claims that both
/// squares are below 64, as `Square` holds only indices of the 64 squares.
#[verifier::external_body]
fn move_of(mv: ChessMove) -> (r: Move)
    ensures
        r.wf(),
{
    let promotion = match mv.get_promotion() {
        Some(piece) => Some(kind_of(piece)),
        None => None,
    };
    Move { source: mv.get_source().to_int(), dest: mv.get_dest().to_int(), promotion }
}

/// Whether `chess::Board::from_str` accepts these bytes, read as UTF-8, as
/// a FEN. It is used only of text that `fen_safe` admits.
pub uninterp spec fn fen_parses(fen: Seq<u8>) -> bool;

/// `chess::Board::from_str` on a FEN given as bytes (bytes that are not
/// UTF-8 give `None`), with the error dropped. Only text that `fen_safe`
/// admits is handed to it. Claims that a board comes back exactly when the
/// text parses (`fen_parses`, a function of the bytes alone); which board is
/// not stated, `Board` being opaque.
#[verifier::external_body]
fn parse_board(fen: &[u8]) -> (r: Option<Board>)
    requires
        fen_safe(fen@),
    ensures
        r is Some <==> fen_parses(fen@),
{
    match std::str::from_utf8(fen) {
        Ok(text) => Board::from_str(text).ok(),
        Err(_) => None,
    }
}

/// A FEN that the library takes: one that may be handed to the `chess`
/// crate and that it parses.
pub open spec fn valid_fen(fen: Seq<u8>) -> bool {
    fen_safe(fen) && fen_parses(fen)
}

/// Whether a FEN is valid: the side to move has a king wherever the `chess`
/// crate's reader accepts the text, and `chess::Board::from_str` parses it.
pub fn fen_is_valid(fen: &[u8]) -> (r: bool)
    ensures
        r == valid_fen(fen@),
{
    if !fen_is_safe(fen) {
        return false;
    }
    parse_board(fen).is_some()
}

/// Both sides have a king on the board that the FEN's placement field
/// describes.
pub open spec fn names_both_kings(fen: Seq<u8>) -> bool {
    has_king(fen_squares(fen), Side::White) && has_king(fen_squares(fen), Side::Black)
}

/// A FEN that names both kings may be handed to `chess::Board::from_str`.
pub proof fn lemma_both_kings_safe(fen: Seq<u8>)
    requires
        names_both_kings(fen),
    ensures
        fen_safe(fen),
{
}

/// The FEN of the initial position.
pub open spec fn start_fen_text() -> Seq<u8> {
    "rnbqkbnr/pppppppp/8/8/8/8/PPPPPPPP/RNBQKBNR w KQkq - 0 1"@.map_values(|c: char| c as u8)
}

/// `chess::Board::default` written as FEN by `Board`'s `Display`: claims the
/// text of the initial position, which is what that `Display` writes for it
/// (pieces rank by rank from the eighth, side, castling rights, no en
/// passant square, then ` 0 1`), and that it names both kings.
#[verifier::external_body]
pub(crate) fn start_fen() -> (r: Vec<u8>)
    ensures
        r@ == start_fen_text(),
        names_both_kings(r@),
{
    Board::default().to_string().into_bytes()
}

/// The legal moves of a position and the FEN of the position each leads to.
pub open spec fn deep_children(v: Seq<(Move, Vec<u8>)>) -> Seq<(Move, Seq<u8>)> {
    v.map_values(|c: (Move, Vec<u8>)| (c.0, c.1@))
}

/// What `legal_successors` gives for a FEN: the moves of
/// `chess::MoveGen::new_legal`, in its order, each with the FEN (by
/// `Board`'s `Display`) of `chess::Board::make_move_new` for it; nothing
/// for a FEN that does not parse.
pub uninterp spec fn successors_of(fen: Seq<u8>) -> Seq<(Move, Seq<u8>)>;

/// The legal moves of the position, each with the position it leads to, as
/// `successors_of` names them. The moves come from the generator, so
/// `make_move_new` never meets the inputs on which it panics. Claims, beyond
/// the name, that every move's squares are below 64, and that every
/// position reached names both kings: a parsed board has one king of each
/// side (`Board::is_sane`), a legal move never captures a king, and
/// `Display` writes every piece.
#[verifier::external_body]
pub(crate) fn legal_successors(fen: &[u8]) -> (r: Vec<(Move, Vec<u8>)>)
    requires
        fen_safe(fen@),
    ensures
        deep_children(r@) == successors_of(fen@),
        forall|i: int| 0 <= i < r@.len() ==> (#[trigger] r@[i]).0.wf(),
        forall|i: int| 0 <= i < r@.len() ==> names_both_kings((#[trigger] r@[i]).1@),
{
    let mut out = Vec::new();
    if let Some(board) = parse_board(fen) {
        for mv in chess::MoveGen::new_legal(&board) {
            out.push((move_of(mv), board.make_move_new(mv).to_string().into_bytes()));
        }
    }
    out
}

/// The number of pieces giving check in the position (`chess::Board::checkers`
/// counted by `BitBoard::popcnt`); 0 for a FEN that does not parse.
pub uninterp spec fn checker_count(fen: Seq<u8>) -> u32;

/// `chess::Board::checkers` of the parsed FEN, counted by
/// `chess::BitBoard::popcnt`. Claims, beyond the name, that the count is at
/// most 64, as a `BitBoard` is a set of the 64 squares.
#[verifier::external_body]
pub(crate) fn count_checkers(fen: &[u8]) -> (r: u32)
    requires
        fen_safe(fen@),
    ensures
        r == checker_count(fen@),
        r <= 64,
{
    match parse_board(fen) {
        Some(board) => board.checkers().popcnt(),
        None => 0,
    }
}

/// `chess::Board::get_hash` of the parsed FEN (0 when it does not parse).
/// Nothing is claimed of the key: the crate's Zobrist tables come from its
/// build script, whose random generator differs between build machines, so
/// the key is not a function of the position alone.
#[verifier::external_body]
pub(crate) fn board_key(fen: &[u8]) -> u64
    requires
        fen_safe(fen@),
{
    match parse_board(fen) {
        Some(board) => board.get_hash(),
        None => 0,
    }
}

/// The FEN of `chess::Board::null_move` of the position (the other side to
/// move), `None` when the side to move is in check or the FEN does not
/// parse.
pub uninterp spec fn null_move_of(fen: Seq<u8>) -> Option<Seq<u8>>;

/// `chess::Board::null_move` of the parsed FEN, written as FEN, as
/// `null_move_of` names it. Claims, beyond the name, that the position
/// returned names both kings: it has the parsed board's pieces.
#[verifier::external_body]
pub(crate) fn null_move(fen: &[u8]) -> (r: Option<Vec<u8>>)
    requires
        fen_safe(fen@),
    ensures
        match r {
            Some(v) => null_move_of(fen@) == Some(v@) && names_both_kings(v@),
            None => null_move_of(fen@) is None,
        },
{
    match parse_board(fen) {
        Some(board) => board.null_move().map(|b: Board| b.to_string().into_bytes()),
        None => None,
    }
}

/// The piece that a FEN letter names, with its side: upper case for white.
pub open spec fn fen_piece(c: u8) -> Option<(PieceKind, Side)> {
    if c == 80 {
        Some((PieceKind::Pawn, Side::White))
    } else if c == 78 {
        Some((PieceKind::Knight, Side::White))
    } else if c == 66 {
        Some((PieceKind::Bishop, Side::White))
    } else if c == 82 {
        Some((PieceKind::Rook, Side::White))
    } else if c == 81 {
        Some((PieceKind::Queen, Side::White))
    } else if c == 75 {
        Some((PieceKind::King, Side::White))
    } else if c == 112 {
        Some((PieceKind::Pawn, Side::Black))
    } else if c == 110 {
        Some((PieceKind::Knight, Side::Black))
    } else if c == 98 {
        Some((PieceKind::Bishop, Side::Black))
    } else if c == 114 {
        Some((PieceKind::Rook, Side::Black))
    } else if c == 113 {
        Some((PieceKind::Queen, Side::Black))
    } else if c == 107 {
        Some((PieceKind::King, Side::Black))
    } else {
        None
    }
}

/// The squares that the `chess` crate's FEN reader fills from the placement
/// field (the text before the first space), read from index `i` with the
/// next square on `rank` (0 for the first rank) and `file`: a piece letter
/// fills the square and moves one file on, a digit skips that many files,
/// `/` goes one rank down, files and ranks wrapping round as `chess::File`
/// and `chess::Rank` do. Other bytes are passed over (the reader refuses
/// the FEN for them).
pub open spec fn cells_from(
    fen: Seq<u8>,
    i: int,
    rank: int,
    file: int,
    cells: Seq<Option<(PieceKind, Side)>>,
) -> Seq<Option<(PieceKind, Side)>>
    decreases fen.len() - i,
{
    if i < 0 || i >= fen.len() || fen[i] == 32 {
        cells
    } else if fen[i] == 47 {
        cells_from(fen, i + 1, (rank + 7) % 8, 0, cells)
    } else if 49 <= fen[i] <= 56 {
        cells_from(fen, i + 1, rank, (file + (fen[i] - 48)) % 8, cells)
    } else {
        match fen_piece(fen[i]) {
            Some(cell) => cells_from(
                fen,
                i + 1,
                rank,
                (file + 1) % 8,
                cells.update(rank * 8 + file, Some(cell)),
            ),
            None => cells_from(fen, i + 1, rank, file, cells),
        }
    }
}

pub open spec fn empty_cells() -> Seq<Option<(PieceKind, Side)>> {
    Seq::new(64, |k: int| None::<(PieceKind, Side)>)
}

/// The 64 squares (indexed `rank * 8 + file`) that a FEN's placement field
/// fills.
pub open spec fn fen_squares(fen: Seq<u8>) -> Seq<Option<(PieceKind, Side)>> {
    cells_from(fen, 0, 7, 0, empty_cells())
}

/// Every byte of the placement field from index `i` on is one that the
/// `chess` crate's FEN reader takes: `/`, a digit from 1 to 8, or a piece
/// letter.
pub open spec fn placement_ok_from(fen: Seq<u8>, i: int) -> bool
    decreases fen.len() - i,
{
    if i < 0 || i >= fen.len() || fen[i] == 32 {
        true
    } else {
        (fen[i] == 47 || (49 <= fen[i] <= 56) || fen_piece(fen[i]) is Some) && placement_ok_from(
            fen,
            i + 1,
        )
    }
}

/// The index of the first space at or after `i`; the length when there is
/// none.
pub open spec fn space_from(fen: Seq<u8>, i: int) -> int
    decreases fen.len() - i,
{
    if i < 0 || i >= fen.len() {
        fen.len() as int
    } else if fen[i] == 32 {
        i
    } else {
        space_from(fen, i + 1)
    }
}

/// The number of spaces from index `i` on.
pub open spec fn spaces_from(fen: Seq<u8>, i: int) -> int
    decreases fen.len() - i,
{
    if i < 0 || i >= fen.len() {
        0
    } else {
        (if fen[i] == 32 {
            1int
        } else {
            0int
        }) + spaces_from(fen, i + 1)
    }
}

/// The side field: the text between the first and the second space.
pub open spec fn side_token(fen: Seq<u8>) -> Seq<u8> {
    let first = space_from(fen, 0);
    if first >= fen.len() {
        Seq::empty()
    } else {
        fen.subrange(first + 1, space_from(fen, first + 1))
    }
}

/// The side to move that a FEN names: black for a side field `b` or `B`,
/// white otherwise (the `chess` crate takes `w`, `W`, `b` and `B`).
pub open spec fn fen_side(fen: Seq<u8>) -> Side {
    let t = side_token(fen);
    if t.len() == 1 && (t[0] == 98 || t[0] == 66) {
        Side::Black
    } else {
        Side::White
    }
}

/// The `chess` crate's FEN reader (`BoardBuilder::from_str`) accepts the
/// text: at least four space-separated fields, a placement field of bytes it
/// takes, and a side field `w`, `W`, `b` or `B`.
pub open spec fn builder_accepts(fen: Seq<u8>) -> bool {
    let t = side_token(fen);
    &&& spaces_from(fen, 0) >= 3
    &&& placement_ok_from(fen, 0)
    &&& t.len() == 1
    &&& (t[0] == 119 || t[0] == 87 || t[0] == 98 || t[0] == 66)
}

/// Some square holds a king of `side`.
pub open spec fn has_king(cells: Seq<Option<(PieceKind, Side)>>, side: Side) -> bool {
    exists|sq: int| 0 <= sq < 64 && cells[sq] == Some((PieceKind::King, side))
}

/// The text can be handed to `chess::Board::from_str`: whenever the FEN
/// reader accepts it, the side to move has a king. (`from_str` looks up that
/// king's square before it checks the board, and without one it indexes its
/// 64-square tables at 64.)
pub open spec fn fen_safe(fen: Seq<u8>) -> bool {
    builder_accepts(fen) ==> has_king(fen_squares(fen), fen_side(fen))
}

fn piece_of_letter(c: u8) -> (r: Option<(PieceKind, Side)>)
    ensures
        r == fen_piece(c),
{
    if c == 80 {
        Some((PieceKind::Pawn, Side::White))
    } else if c == 78 {
        Some((PieceKind::Knight, Side::White))
    } else if c == 66 {
        Some((PieceKind::Bishop, Side::White))
    } else if c == 82 {
        Some((PieceKind::Rook, Side::White))
    } else if c == 81 {
        Some((PieceKind::Queen, Side::White))
    } else if c == 75 {
        Some((PieceKind::King, Side::White))
    } else if c == 112 {
        Some((PieceKind::Pawn, Side::Black))
    } else if c == 110 {
        Some((PieceKind::Knight, Side::Black))
    } else if c == 98 {
        Some((PieceKind::Bishop, Side::Black))
    } else if c == 114 {
        Some((PieceKind::Rook, Side::Black))
    } else if c == 113 {
        Some((PieceKind::Queen, Side::Black))
    } else if c == 107 {
        Some((PieceKind::King, Side::Black))
    } else {
        None
    }
}

/// The squares that the placement field fills, and whether all of its
/// bytes are ones the `chess` crate's FEN reader takes.
fn read_placement(fen: &[u8]) -> (r: (Vec<Option<(PieceKind, Side)>>, bool))
    ensures
        r.0@ == fen_squares(fen@),
        r.0@.len() == 64,
        r.1 == placement_ok_from(fen@, 0),
{
    let mut squares: Vec<Option<(PieceKind, Side)>> = Vec::new();
    let mut k: usize = 0;
    while k < 64
        invariant
            k <= 64,
            squares@ == empty_cells().subrange(0, k as int),
        decreases 64 - k,
    {
        squares.push(None);
        k = k + 1;
        assert(squares@ =~= empty_cells().subrange(0, k as int));
    }
    assert(squares@ =~= empty_cells());
    let n = fen.len();
    let mut i: usize = 0;
    let mut rank: usize = 7;
    let mut file: usize = 0;
    let mut ok = true;
    while i < n && fen[i] != 32
        invariant
            n == fen@.len(),
            i <= n,
            rank < 8,
            file < 8,
            squares@.len() == 64,
            cells_from(fen@, i as int, rank as int, file as int, squares@) == fen_squares(fen@),
            placement_ok_from(fen@, 0) == (ok && placement_ok_from(fen@, i as int)),
        decreases n - i,
    {
        let c = fen[i];
        if c == 47 {
            rank = (rank + 7) % 8;
            file = 0;
        } else if 49 <= c && c <= 56 {
            file = (file + (c - 48) as usize) % 8;
        } else {
            match piece_of_letter(c) {
                Some(cell) => {
                    squares.set(rank * 8 + file, Some(cell));
                    file = (file + 1) % 8;
                },
                None => {
                    ok = false;
                },
            }
        }
        i = i + 1;
    }
    (squares, ok)
}

/// The index of the first space at or after `from`; the length when there
/// is none.
fn find_space(fen: &[u8], from: usize) -> (r: usize)
    requires
        from <= fen@.len(),
    ensures
        r == space_from(fen@, from as int),
        from <= r <= fen@.len(),
{
    let mut j = from;
    while j < fen.len() && fen[j] != 32
        invariant
            from <= j <= fen@.len(),
            space_from(fen@, j as int) == space_from(fen@, from as int),
        decreases fen@.len() - j,
    {
        j = j + 1;
    }
    j
}

/// The side field's only byte, if it has exactly one.
fn side_byte(fen: &[u8]) -> (r: Option<u8>)
    ensures
        match r {
            Some(b) => side_token(fen@).len() == 1 && side_token(fen@)[0] == b,
            None => side_token(fen@).len() != 1,
        },
{
    let first = find_space(fen, 0);
    if first >= fen.len() {
        return None;
    }
    let second = find_space(fen, first + 1);
    if second > first && second - first == 2 {
        Some(fen[first + 1])
    } else {
        None
    }
}

/// Whether `chess::Board::from_str` may be handed the text: `fen_safe`.
pub fn fen_is_safe(fen: &[u8]) -> (r: bool)
    ensures
        r == fen_safe(fen@),
{
    let n = fen.len();
    let mut spaces: usize = 0;
    let mut i: usize = 0;
    while i < n
        invariant
            n == fen@.len(),
            i <= n,
            spaces <= i,
            spaces + spaces_from(fen@, i as int) == spaces_from(fen@, 0),
        decreases n - i,
    {
        if fen[i] == 32 {
            spaces = spaces + 1;
        }
        i = i + 1;
    }
    let (squares, placement_ok) = read_placement(fen);
    let side = side_byte(fen);
    let accepted = spaces >= 3 && placement_ok && match side {
        Some(b) => b == 119 || b == 87 || b == 98 || b == 66,
        None => false,
    };
    assert(spaces_from(fen@, n as int) == 0);
    assert(accepted == builder_accepts(fen@));
    if !accepted {
        return true;
    }
    let mover = match side {
        Some(b) => if b == 98 || b == 66 {
            Side::Black
        } else {
            Side::White
        },
        None => Side::White,
    };
    assert(mover == fen_side(fen@));
    let mut sq: usize = 0;
    while sq < 64
        invariant
            sq <= 64,
            squares@ == fen_squares(fen@),
            squares@.len() == 64,
            mover == fen_side(fen@),
            builder_accepts(fen@),
            forall|k: int| 0 <= k < sq ==> squares@[k] != Some((PieceKind::King, mover)),
        decreases 64 - sq,
    {
        let is_king = match squares[sq] {
            Some((PieceKind::King, s)) => s == mover,
            _ => false,
        };
        if is_king {
            assert(squares@[sq as int] == Some((PieceKind::King, mover)));
            assert(has_king(fen_squares(fen@), fen_side(fen@)));
            return true;
        }
        sq = sq + 1;
    }
    false
}

impl Position {
    /// Reads the squares and the side to move of a position given as FEN,
    /// as the `chess` crate's FEN reader does.
    pub fn from_fen(fen: &[u8]) -> (r: Position)
        ensures
            r.wf(),
            r.squares@ == fen_squares(fen@),
            r.side_to_move == fen_side(fen@),
    {
        let (squares, _) = read_placement(fen);
        let side = match side_byte(fen) {
            Some(b) => if b == 98 || b == 66 {
                Side::Black
            } else {
                Side::White
            },
            None => Side::White,
        };
        Position { squares, side_to_move: side }
    }
}

/// Law: the UCI text of a move is its source square then its destination
/// square, each as a file letter `a`..`h` and a rank digit `1`..`8`, then,
/// for a promotion, the lower-case letter of the piece promoted to: `q` for
/// a queen, `r` a rook, `b` a bishop, `n` a knight.
pub proof fn law_move_text(mv: Move)
    requires
        mv.wf(),
    ensures
        move_text(mv).len() == if mv.promotion is Some {
            5int
        } else {
            4int
        },
        move_text(mv)[0] == 97 + mv.source % 8,
        move_text(mv)[1] == 49 + mv.source / 8,
        move_text(mv)[2] == 97 + mv.dest % 8,
        move_text(mv)[3] == 49 + mv.dest / 8,
        mv.promotion == Some(PieceKind::Queen) ==> move_text(mv)[4] == 113,
        mv.promotion == Some(PieceKind::Rook) ==> move_text(mv)[4] == 114,
        mv.promotion == Some(PieceKind::Bishop) ==> move_text(mv)[4] == 98,
        mv.promotion == Some(PieceKind::Knight) ==> move_text(mv)[4] == 110,
{
}

/// Law: a FEN whose placement field is a single piece letter puts that
/// piece on a8: upper case a white piece, lower case a black one, `K`/`k` a
/// king, `Q` a queen, `R` a rook, `B` a bishop, `N` a knight, `P` a pawn;
/// and a digit skips files, so `1` followed by a letter puts it on b8.
pub proof fn law_fen_letters(fen: Seq<u8>)
    ensures
        fen.len() >= 2 && fen[1] == 32 ==> {
            &&& fen[0] == 75 ==> fen_squares(fen)[56] == Some((PieceKind::King, Side::White))
            &&& fen[0] == 81 ==> fen_squares(fen)[56] == Some((PieceKind::Queen, Side::White))
            &&& fen[0] == 82 ==> fen_squares(fen)[56] == Some((PieceKind::Rook, Side::White))
            &&& fen[0] == 66 ==> fen_squares(fen)[56] == Some((PieceKind::Bishop, Side::White))
            &&& fen[0] == 78 ==> fen_squares(fen)[56] == Some((PieceKind::Knight, Side::White))
            &&& fen[0] == 80 ==> fen_squares(fen)[56] == Some((PieceKind::Pawn, Side::White))
            &&& fen[0] == 107 ==> fen_squares(fen)[56] == Some((PieceKind::King, Side::Black))
            &&& fen[0] == 113 ==> fen_squares(fen)[56] == Some((PieceKind::Queen, Side::Black))
            &&& fen[0] == 114 ==> fen_squares(fen)[56] == Some((PieceKind::Rook, Side::Black))
            &&& fen[0] == 98 ==> fen_squares(fen)[56] == Some((PieceKind::Bishop, Side::Black))
            &&& fen[0] == 110 ==> fen_squares(fen)[56] == Some((PieceKind::Knight, Side::Black))
            &&& fen[0] == 112 ==> fen_squares(fen)[56] == Some((PieceKind::Pawn, Side::Black))
        },
        fen.len() >= 3 && fen[0] == 49 && fen[2] == 32 && fen_piece(fen[1]) is Some ==> fen_squares(fen)[57]
            == fen_piece(fen[1]) && fen_squares(fen)[56] is None,
{
    if fen.len() >= 2 && fen[1] == 32 {
        let c = fen[0];
        if fen_piece(c) is Some {
            assert(cells_from(fen, 1, 7, 1, empty_cells().update(56, fen_piece(c))) == empty_cells().update(
                56,
                fen_piece(c),
            ));
        }
    }
    if fen.len() >= 3 && fen[0] == 49 && fen[2] == 32 && fen_piece(fen[1]) is Some {
        assert(cells_from(fen, 2, 7, 2, empty_cells().update(57, fen_piece(fen[1]))) == empty_cells().update(
            57,
            fen_piece(fen[1]),
        ));
        assert(cells_from(fen, 1, 7, 1, empty_cells()) == empty_cells().update(57, fen_piece(fen[1])));
    }
}

/// Law: the side field `w` or `W` names white to move, `b` or `B` black.
pub proof fn law_fen_side(fen: Seq<u8>)
    ensures
        side_token(fen) == seq![119u8] || side_token(fen) == seq![87u8] ==> fen_side(fen) == Side::White,
        side_token(fen) == seq![98u8] || side_token(fen) == seq![66u8] ==> fen_side(fen) == Side::Black,
{
}

} // verus!
