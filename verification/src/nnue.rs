//! The NNUE evaluation: weights and their binary format, the accumulator
//! that sums the feature-transformer columns of the pieces on the board,
//! its incremental update, and the two dense layers on top of it.
use vstd::prelude::*;
use crate::int32::{wrap_i32, lemma_wrap_identity, lemma_wrap_add_left, lemma_wrap_add_right, add_wrapping, mul_wrapping};
use crate::position::{
    Move,
    PieceKind,
    Position,
    Side,
    deep_children,
    fen_safe,
    fen_squares,
    legal_successors,
    successors_of,
};

verus! {

/// The network's parameters. There are 768 input features (12 coloured
/// piece kinds on 64 squares). `feature_weights` holds one column of
/// `ft_hidden` values per feature, feature after feature; `hidden1_weights`
/// holds one row of `hidden1_size` values per accumulator entry.
pub struct NnueWeights {
    pub feature_weights: Vec<i16>,
    pub feature_biases: Vec<i16>,
    pub hidden1_weights: Vec<i16>,
    pub hidden1_biases: Vec<i16>,
    pub hidden2_weights: Vec<i16>,
    pub hidden2_bias: i16,
    pub ft_hidden: usize,
    pub hidden1_size: usize,
}

impl NnueWeights {
    /// Every table has the length that the two layer sizes give it.
    pub open spec fn wf(&self) -> bool {
        &&& self.feature_weights@.len() == 768 * self.ft_hidden
        &&& self.feature_biases@.len() == self.ft_hidden
        &&& self.hidden1_weights@.len() == self.ft_hidden * self.hidden1_size
        &&& self.hidden1_biases@.len() == self.hidden1_size
        &&& self.hidden2_weights@.len() == self.hidden1_size
    }

    /// Every parameter is zero.
    pub open spec fn all_zero(&self) -> bool {
        &&& self.hidden2_bias == 0
        &&& forall|k: int| 0 <= k < self.feature_weights@.len() ==> self.feature_weights@[k] == 0
        &&& forall|k: int| 0 <= k < self.feature_biases@.len() ==> self.feature_biases@[k] == 0
        &&& forall|k: int| 0 <= k < self.hidden1_weights@.len() ==> self.hidden1_weights@[k] == 0
        &&& forall|k: int| 0 <= k < self.hidden1_biases@.len() ==> self.hidden1_biases@[k] == 0
        &&& forall|k: int| 0 <= k < self.hidden2_weights@.len() ==> self.hidden2_weights@[k] == 0
    }
}

// ---------------------------------------------------------------------------
// The binary weight format: two little-endian u32 sizes, then the five
// tables and the output bias as little-endian i16 values.
// ---------------------------------------------------------------------------

/// The little-endian u32 at `off`.
pub open spec fn le_u32(b: Seq<u8>, off: int) -> int {
    b[off] + 256 * b[off + 1] + 65536 * b[off + 2] + 16777216 * b[off + 3]
}

/// The little-endian two's complement i16 at `off`.
pub open spec fn le_i16(b: Seq<u8>, off: int) -> int {
    let u = b[off] + 256 * b[off + 1];
    if u >= 32768 {
        u - 65536
    } else {
        u
    }
}

pub open spec fn file_ft_hidden(b: Seq<u8>) -> int {
    le_u32(b, 0)
}

pub open spec fn file_hidden1_size(b: Seq<u8>) -> int {
    le_u32(b, 4)
}

pub open spec fn feature_weights_offset() -> int {
    8
}

pub open spec fn feature_biases_offset(b: Seq<u8>) -> int {
    feature_weights_offset() + 2 * (768 * file_ft_hidden(b))
}

pub open spec fn hidden1_weights_offset(b: Seq<u8>) -> int {
    feature_biases_offset(b) + 2 * file_ft_hidden(b)
}

pub open spec fn hidden1_biases_offset(b: Seq<u8>) -> int {
    hidden1_weights_offset(b) + 2 * (file_ft_hidden(b) * file_hidden1_size(b))
}

pub open spec fn hidden2_weights_offset(b: Seq<u8>) -> int {
    hidden1_biases_offset(b) + 2 * file_hidden1_size(b)
}

pub open spec fn hidden2_bias_offset(b: Seq<u8>) -> int {
    hidden2_weights_offset(b) + 2 * file_hidden1_size(b)
}

/// The number of bytes that the header of `b` announces.
pub open spec fn weights_file_len(b: Seq<u8>) -> int {
    hidden2_bias_offset(b) + 2
}

/// `b` holds a header and all the values that it announces (more bytes may
/// follow; they are ignored).
pub open spec fn is_complete_weights_file(b: Seq<u8>) -> bool {
    b.len() >= 8 && b.len() >= weights_file_len(b)
}

/// `table` holds the `count` consecutive i16 values stored from `start`.
pub open spec fn table_read_from(table: Seq<i16>, b: Seq<u8>, start: int, count: int) -> bool {
    &&& table.len() == count
    &&& forall|k: int| 0 <= k < count ==> table[k] as int == le_i16(b, start + 2 * k)
}

/// `w` is what the weight file `b` describes.
pub open spec fn weights_decode(w: NnueWeights, b: Seq<u8>) -> bool {
    &&& w.ft_hidden == file_ft_hidden(b)
    &&& w.hidden1_size == file_hidden1_size(b)
    &&& table_read_from(w.feature_weights@, b, feature_weights_offset(), 768 * file_ft_hidden(b))
    &&& table_read_from(w.feature_biases@, b, feature_biases_offset(b), file_ft_hidden(b))
    &&& table_read_from(
        w.hidden1_weights@,
        b,
        hidden1_weights_offset(b),
        file_ft_hidden(b) * file_hidden1_size(b),
    )
    &&& table_read_from(w.hidden1_biases@, b, hidden1_biases_offset(b), file_hidden1_size(b))
    &&& table_read_from(w.hidden2_weights@, b, hidden2_weights_offset(b), file_hidden1_size(b))
    &&& w.hidden2_bias as int == le_i16(b, hidden2_bias_offset(b))
}

fn read_u32_le(bytes: &[u8], off: usize) -> (r: u32)
    requires
        off + 4 <= bytes@.len(),
    ensures
        r == le_u32(bytes@, off as int),
{
    let b0 = bytes[off] as u32;
    let b1 = bytes[off + 1] as u32;
    let b2 = bytes[off + 2] as u32;
    let b3 = bytes[off + 3] as u32;
    b0 + 256 * b1 + 65536 * b2 + 16777216 * b3
}

fn read_i16_le(bytes: &[u8], off: usize) -> (r: i16)
    requires
        off + 2 <= bytes@.len(),
    ensures
        r == le_i16(bytes@, off as int),
{
    let u: u32 = bytes[off] as u32 + 256 * (bytes[off + 1] as u32);
    if u >= 32768 {
        (u as i32 - 65536) as i16
    } else {
        u as i16
    }
}

/// Reads `count` consecutive i16 values starting at byte `start`.
fn read_i16_table(bytes: &[u8], start: usize, count: usize) -> (r: Vec<i16>)
    requires
        start + 2 * count <= bytes@.len(),
    ensures
        table_read_from(r@, bytes@, start as int, count as int),
{
    let len = bytes.len();
    let mut table: Vec<i16> = Vec::new();
    let mut k: usize = 0;
    while k < count
        invariant
            k <= count,
            len == bytes@.len(),
            start + 2 * count <= bytes@.len(),
            table@.len() == k,
            forall|j: int| 0 <= j < k ==> table@[j] as int == le_i16(bytes@, start + 2 * j),
        decreases count - k,
    {
        let v = read_i16_le(bytes, start + 2 * k);
        table.push(v);
        k = k + 1;
    }
    table
}

/// A table of `count` zeros.
fn zeros(count: usize) -> (r: Vec<i16>)
    ensures
        r@.len() == count,
        forall|k: int| 0 <= k < count ==> r@[k] == 0,
{
    let mut table: Vec<i16> = Vec::new();
    let mut k: usize = 0;
    while k < count
        invariant
            k <= count,
            table@.len() == k,
            forall|j: int| 0 <= j < k ==> table@[j] == 0,
        decreases count - k,
    {
        table.push(0);
        k = k + 1;
    }
    table
}

/// Whether `bytes` hold a complete weight file (the check `from_bytes`
/// needs before it may read them).
pub fn weights_file_is_complete(bytes: &[u8]) -> (r: bool)
    ensures
        r == is_complete_weights_file(bytes@),
{
    let len = bytes.len();
    if len < 8 {
        return false;
    }
    let ft = read_u32_le(bytes, 0) as u128;
    let h1 = read_u32_le(bytes, 4) as u128;
    assert(ft * h1 <= 0xffff_ffff * 0xffff_ffffu128) by (nonlinear_arith)
        requires
            ft <= 0xffff_ffff,
            h1 <= 0xffff_ffff,
    ;
    let needed: u128 = 8 + 2 * (768 * ft) + 2 * ft + 2 * (ft * h1) + 2 * h1 + 2 * h1 + 2;
    (len as u128) >= needed
}

impl NnueWeights {
    /// Weights of the given layer sizes with every parameter zero.
    pub fn zero(ft_hidden: usize, hidden1_size: usize) -> (r: Self)
        requires
            768 * ft_hidden <= usize::MAX,
            ft_hidden * hidden1_size <= usize::MAX,
        ensures
            r.wf(),
            r.all_zero(),
            r.ft_hidden == ft_hidden,
            r.hidden1_size == hidden1_size,
    {
        NnueWeights {
            feature_weights: zeros(768 * ft_hidden),
            feature_biases: zeros(ft_hidden),
            hidden1_weights: zeros(ft_hidden * hidden1_size),
            hidden1_biases: zeros(hidden1_size),
            hidden2_weights: zeros(hidden1_size),
            hidden2_bias: 0,
            ft_hidden,
            hidden1_size,
        }
    }

    /// Decodes a weight file: the two layer sizes, then the feature weights,
    /// feature biases, first-layer weights and biases, output weights and the
    /// output bias, all little-endian. The bytes must hold everything that
    /// the header announces.
    pub fn from_bytes(bytes: &[u8]) -> (r: Self)
        requires
            is_complete_weights_file(bytes@),
        ensures
            weights_decode(r, bytes@),
            r.wf(),
    {
        let len = bytes.len();
        let ft = read_u32_le(bytes, 0) as usize;
        let h1 = read_u32_le(bytes, 4) as usize;
        assert(ft == file_ft_hidden(bytes@));
        assert(h1 == file_hidden1_size(bytes@));
        let ft_count = 768 * ft;
        let fb_start = 8 + 2 * ft_count;
        let h1w_start = fb_start + 2 * ft;
        let h1w_count = ft * h1;
        let h1b_start = h1w_start + 2 * h1w_count;
        let h2w_start = h1b_start + 2 * h1;
        let h2b_start = h2w_start + 2 * h1;
        let feature_weights = read_i16_table(bytes, 8, ft_count);
        let feature_biases = read_i16_table(bytes, fb_start, ft);
        let hidden1_weights = read_i16_table(bytes, h1w_start, h1w_count);
        let hidden1_biases = read_i16_table(bytes, h1b_start, h1);
        let hidden2_weights = read_i16_table(bytes, h2w_start, h1);
        let hidden2_bias = read_i16_le(bytes, h2b_start);
        NnueWeights {
            feature_weights,
            feature_biases,
            hidden1_weights,
            hidden1_biases,
            hidden2_weights,
            hidden2_bias,
            ft_hidden: ft,
            hidden1_size: h1,
        }
    }
}

/// The weights built into the engine. No trained network is bundled with
/// this build, so these are zero weights of the requested layer sizes.
pub fn default_weights(ft_hidden: usize, hidden1_size: usize) -> (r: NnueWeights)
    requires
        768 * ft_hidden <= usize::MAX,
        ft_hidden * hidden1_size <= usize::MAX,
    ensures
        r.wf(),
        r.all_zero(),
        r.ft_hidden == ft_hidden,
        r.hidden1_size == hidden1_size,
{
    NnueWeights::zero(ft_hidden, hidden1_size)
}


// ---------------------------------------------------------------------------
// Features and the accumulator.
// ---------------------------------------------------------------------------

/// Index of a coloured piece among the 12: side first, then kind.
pub open spec fn spec_piece_index(kind: PieceKind, side: Side) -> int {
    side.spec_index() * 6 + kind.spec_index()
}

/// The square as seen from `perspective`: unchanged for white, mirrored
/// rank-wise (a1 <-> a8) for black.
pub open spec fn spec_square_index(square: int, perspective: Side) -> int {
    let file = square % 8;
    let rank = square / 8;
    if perspective == Side::White {
        rank * 8 + file
    } else {
        (7 - rank) * 8 + file
    }
}

/// The input feature of a piece seen from `perspective`: the piece counts as
/// "white" (own) when it belongs to the perspective's side.
pub open spec fn spec_feature_index(
    kind: PieceKind,
    square: int,
    piece_side: Side,
    perspective: Side,
) -> int {
    let relative = if piece_side == perspective {
        Side::White
    } else {
        Side::Black
    };
    spec_piece_index(kind, relative) * 64 + spec_square_index(square, perspective)
}

/// What the content of one square adds to accumulator entry `i`.
pub open spec fn cell_weight(
    w: NnueWeights,
    cell: Option<(PieceKind, Side)>,
    square: int,
    perspective: Side,
    i: int,
) -> int {
    match cell {
        Some((kind, side)) => w.feature_weights@[spec_feature_index(kind, square, side, perspective)
            * w.ft_hidden + i] as int,
        None => 0,
    }
}

/// What the first `n` squares add to accumulator entry `i`.
pub open spec fn board_sum(
    w: NnueWeights,
    cells: Seq<Option<(PieceKind, Side)>>,
    perspective: Side,
    i: int,
    n: int,
) -> int
    decreases n,
{
    if n <= 0 {
        0
    } else {
        board_sum(w, cells, perspective, i, n - 1) + cell_weight(w, cells[n - 1], n - 1, perspective, i)
    }
}

/// Accumulator entry `i` of a position from `perspective`: the feature bias
/// plus the weights of the features of all pieces on the board.
pub open spec fn accumulator_entry(
    w: NnueWeights,
    cells: Seq<Option<(PieceKind, Side)>>,
    perspective: Side,
    i: int,
) -> int {
    w.feature_biases@[i] + board_sum(w, cells, perspective, i, 64)
}

pub open spec fn fits_i32(x: int) -> bool {
    i32::MIN <= x <= i32::MAX
}

/// The running values of entry `i` while `apply_change` walks the squares,
/// starting from `start`, all fit in an `i32`: after each square, and between
/// removing the old piece and adding the new one of a changed square.
pub open spec fn update_fits(
    start: Seq<i32>,
    w: NnueWeights,
    before: Seq<Option<(PieceKind, Side)>>,
    after: Seq<Option<(PieceKind, Side)>>,
    perspective: Side,
) -> bool {
    forall|i: int, k: int|
        #![trigger board_sum(w, after, perspective, i, k)]
        0 <= i < w.ft_hidden && 0 <= k <= 64 ==> {
            &&& fits_i32(
                start[i] + board_sum(w, after, perspective, i, k) - board_sum(
                    w,
                    before,
                    perspective,
                    i,
                    k,
                ),
            )
            &&& (k < 64 && before[k] != after[k]) ==> fits_i32(
                start[i] + board_sum(w, after, perspective, i, k) - board_sum(
                    w,
                    before,
                    perspective,
                    i,
                    k,
                ) - cell_weight(w, before[k], k, perspective, i),
            )
        }
}

/// Each square adds at most one i16 to an entry.
pub proof fn lemma_board_sum_bound(
    w: NnueWeights,
    cells: Seq<Option<(PieceKind, Side)>>,
    perspective: Side,
    i: int,
    n: int,
)
    requires
        0 <= n,
    ensures
        -32768 * n <= board_sum(w, cells, perspective, i, n) <= 32767 * n,
    decreases n,
{
    if n > 0 {
        lemma_board_sum_bound(w, cells, perspective, i, n - 1);
    }
}

/// The two pre-activation accumulators of a position, one per perspective.
#[derive(Clone, Debug, PartialEq, Eq)]
pub struct NnueAccumulator {
    white: Vec<i32>,
    black: Vec<i32>,
}

impl NnueAccumulator {
    /// The entries seen from `perspective`.
    pub closed spec fn entries(&self, perspective: Side) -> Seq<i32> {
        match perspective {
            Side::White => self.white@,
            Side::Black => self.black@,
        }
    }

    /// Both halves have one entry per hidden unit of `w` and hold exactly the
    /// accumulator of the position with squares `cells`.
    pub open spec fn describes(&self, w: NnueWeights, cells: Seq<Option<(PieceKind, Side)>>) -> bool {
        &&& self.entries(Side::White).len() == w.ft_hidden
        &&& self.entries(Side::Black).len() == w.ft_hidden
        &&& forall|i: int|
            0 <= i < w.ft_hidden ==> self.entries(Side::White)[i] as int == accumulator_entry(
                w,
                cells,
                Side::White,
                i,
            )
        &&& forall|i: int|
            0 <= i < w.ft_hidden ==> self.entries(Side::Black)[i] as int == accumulator_entry(
                w,
                cells,
                Side::Black,
                i,
            )
    }

    /// The accumulator of an empty board: both halves hold the feature biases.
    pub fn new(weights: &NnueWeights) -> (r: Self)
        ensures
            r.entries(Side::White).len() == weights.feature_biases@.len(),
            r.entries(Side::Black).len() == weights.feature_biases@.len(),
            forall|i: int|
                0 <= i < weights.feature_biases@.len() ==> r.entries(Side::White)[i] as int
                    == weights.feature_biases@[i] as int,
            forall|i: int|
                0 <= i < weights.feature_biases@.len() ==> r.entries(Side::Black)[i] as int
                    == weights.feature_biases@[i] as int,
    {
        let n = weights.feature_biases.len();
        let mut white: Vec<i32> = Vec::new();
        let mut black: Vec<i32> = Vec::new();
        let mut i: usize = 0;
        while i < n
            invariant
                i <= n,
                n == weights.feature_biases@.len(),
                white@.len() == i,
                black@.len() == i,
                forall|j: int| 0 <= j < i ==> white@[j] as int == weights.feature_biases@[j] as int,
                forall|j: int| 0 <= j < i ==> black@[j] as int == weights.feature_biases@[j] as int,
            decreases n - i,
        {
            white.push(weights.feature_biases[i] as i32);
            black.push(weights.feature_biases[i] as i32);
            i = i + 1;
        }
        NnueAccumulator { white, black }
    }

    /// Adds `add` times the feature column of a piece on `square` to the
    /// first `ft_hidden` entries of both halves (1 adds the piece, -1
    /// removes it). Every product and sum must fit in an `i32`.
    fn update_piece(
        &mut self,
        nnue: &Nnue,
        piece: PieceKind,
        square: usize,
        color: Side,
        add: i32,
    )
        requires
            square < 64,
            nnue.weights.wf(),
            old(self).white@.len() >= nnue.weights.ft_hidden,
            old(self).black@.len() >= nnue.weights.ft_hidden,
            forall|i: int|
                #![trigger cell_weight(nnue.weights, Some((piece, color)), square as int, Side::White, i)]
                0 <= i < nnue.weights.ft_hidden ==> fits_i32(
                    add * cell_weight(nnue.weights, Some((piece, color)), square as int, Side::White, i),
                ) && fits_i32(
                    old(self).white@[i] + add * cell_weight(
                        nnue.weights,
                        Some((piece, color)),
                        square as int,
                        Side::White,
                        i,
                    ),
                ),
            forall|i: int|
                #![trigger cell_weight(nnue.weights, Some((piece, color)), square as int, Side::Black, i)]
                0 <= i < nnue.weights.ft_hidden ==> fits_i32(
                    add * cell_weight(nnue.weights, Some((piece, color)), square as int, Side::Black, i),
                ) && fits_i32(
                    old(self).black@[i] + add * cell_weight(
                        nnue.weights,
                        Some((piece, color)),
                        square as int,
                        Side::Black,
                        i,
                    ),
                ),
        ensures
            final(self).white@.len() == old(self).white@.len(),
            final(self).black@.len() == old(self).black@.len(),
            forall|i: int|
                0 <= i < nnue.weights.ft_hidden ==> final(self).white@[i] == old(self).white@[i]
                    + add * cell_weight(
                    nnue.weights,
                    Some((piece, color)),
                    square as int,
                    Side::White,
                    i,
                ),
            forall|i: int|
                0 <= i < nnue.weights.ft_hidden ==> final(self).black@[i] == old(self).black@[i]
                    + add * cell_weight(
                    nnue.weights,
                    Some((piece, color)),
                    square as int,
                    Side::Black,
                    i,
                ),
            forall|i: int|
                nnue.weights.ft_hidden <= i < old(self).white@.len() ==> final(self).white@[i]
                    == old(self).white@[i],
            forall|i: int|
                nnue.weights.ft_hidden <= i < old(self).black@.len() ==> final(self).black@[i]
                    == old(self).black@[i],
    {
        let ft = nnue.weights.ft_hidden;
        let white_index = Nnue::feature_index(piece, square, color, Side::White);
        let black_index = Nnue::feature_index(piece, square, color, Side::Black);
        let fw_len = nnue.weights.feature_weights.len();
        let ghost old_white = self.white@;
        let ghost old_black = self.black@;
        let mut i: usize = 0;
        while i < ft
            invariant
                i <= ft,
                fw_len == 768 * ft,
                ft == nnue.weights.ft_hidden,
                nnue.weights.wf(),
                white_index < 768,
                black_index < 768,
                white_index == spec_feature_index(piece, square as int, color, Side::White),
                black_index == spec_feature_index(piece, square as int, color, Side::Black),
                self.white@.len() == old_white.len(),
                self.black@.len() == old_black.len(),
                old_white.len() >= ft,
                old_black.len() >= ft,
                forall|j: int|
                    #![trigger cell_weight(nnue.weights, Some((piece, color)), square as int, Side::White, j)]
                    0 <= j < ft ==> fits_i32(
                        add * cell_weight(nnue.weights, Some((piece, color)), square as int, Side::White, j),
                    ) && fits_i32(
                        old_white[j] + add * cell_weight(
                            nnue.weights,
                            Some((piece, color)),
                            square as int,
                            Side::White,
                            j,
                        ),
                    ),
                forall|j: int|
                    #![trigger cell_weight(nnue.weights, Some((piece, color)), square as int, Side::Black, j)]
                    0 <= j < ft ==> fits_i32(
                        add * cell_weight(nnue.weights, Some((piece, color)), square as int, Side::Black, j),
                    ) && fits_i32(
                        old_black[j] + add * cell_weight(
                            nnue.weights,
                            Some((piece, color)),
                            square as int,
                            Side::Black,
                            j,
                        ),
                    ),
                forall|j: int|
                    0 <= j < i ==> self.white@[j] == old_white[j] + add * cell_weight(
                        nnue.weights,
                        Some((piece, color)),
                        square as int,
                        Side::White,
                        j,
                    ),
                forall|j: int|
                    0 <= j < i ==> self.black@[j] == old_black[j] + add * cell_weight(
                        nnue.weights,
                        Some((piece, color)),
                        square as int,
                        Side::Black,
                        j,
                    ),
                forall|j: int| i <= j < self.white@.len() ==> self.white@[j] == old_white[j],
                forall|j: int| i <= j < self.black@.len() ==> self.black@[j] == old_black[j],
            decreases ft - i,
        {
            assert(white_index * ft + i < 768 * ft && white_index * ft <= 768 * ft) by (nonlinear_arith)
                requires
                    white_index < 768,
                    i < ft,
            ;
            assert(black_index * ft + i < 768 * ft && black_index * ft <= 768 * ft) by (nonlinear_arith)
                requires
                    black_index < 768,
                    i < ft,
            ;
            let wv = nnue.weights.feature_weights[white_index * ft + i] as i32;
            let bv = nnue.weights.feature_weights[black_index * ft + i] as i32;
            assert(wv == cell_weight(nnue.weights, Some((piece, color)), square as int, Side::White, i as int));
            assert(bv == cell_weight(nnue.weights, Some((piece, color)), square as int, Side::Black, i as int));
            let dw: i32 = add * wv;
            let db: i32 = add * bv;
            let nw = self.white[i] + dw;
            let nb = self.black[i] + db;
            self.white.set(i, nw);
            self.black.set(i, nb);
            i = i + 1;
        }
    }
}

/// An NNUE evaluator: weights whose tables have consistent sizes.
pub struct Nnue {
    weights: NnueWeights,
}

impl Nnue {
    /// The weights the evaluator was built from.
    pub closed spec fn spec_weights(&self) -> NnueWeights {
        self.weights
    }

    /// An evaluator over `weights`; evaluating needs weights whose tables
    /// have the sizes that `ft_hidden` and `hidden1_size` give (`wf`).
    pub fn new(weights: NnueWeights) -> (r: Self)
        ensures
            r.spec_weights() == weights,
    {
        Nnue { weights }
    }

    fn piece_index(piece: PieceKind, color: Side) -> (r: usize)
        ensures
            r == spec_piece_index(piece, color),
            r < 12,
    {
        let p = piece.to_index();
        let c = color.to_index();
        c * 6 + p
    }

    fn square_index(sq: usize, perspective: Side) -> (r: usize)
        requires
            sq < 64,
        ensures
            r == spec_square_index(sq as int, perspective),
            r < 64,
    {
        let file = sq % 8;
        let rank = sq / 8;
        if perspective == Side::White {
            rank * 8 + file
        } else {
            (7 - rank) * 8 + file
        }
    }

    fn feature_index(piece: PieceKind, square: usize, piece_color: Side, perspective: Side) -> (r: usize)
        requires
            square < 64,
        ensures
            r == spec_feature_index(piece, square as int, piece_color, perspective),
            r < 768,
    {
        let relative_color = if piece_color == perspective {
            Side::White
        } else {
            Side::Black
        };
        let pidx = Self::piece_index(piece, relative_color);
        let sqidx = Self::square_index(square, perspective);
        pidx * 64 + sqidx
    }
}


/// Whether two squares hold the same thing.
fn same_cell(a: Option<(PieceKind, Side)>, b: Option<(PieceKind, Side)>) -> (r: bool)
    ensures
        r == (a == b),
{
    match (a, b) {
        (None, None) => true,
        (Some((ka, sa)), Some((kb, sb))) => ka == kb && sa == sb,
        _ => false,
    }
}

impl NnueAccumulator {
    /// Brings the accumulator from position `before` to position `after`:
    /// for every square whose content differs, the old piece's column is
    /// removed and the new piece's column is added. The running values must
    /// fit in an `i32` (they always do when the accumulator is that of
    /// `before`, see `lemma_update_fits`).
    pub fn apply_change(&mut self, nnue: &Nnue, before: &Position, after: &Position)
        requires
            nnue.spec_weights().wf(),
            before.wf(),
            after.wf(),
            old(self).entries(Side::White).len() == nnue.spec_weights().ft_hidden,
            old(self).entries(Side::Black).len() == nnue.spec_weights().ft_hidden,
            update_fits(
                old(self).entries(Side::White),
                nnue.spec_weights(),
                before.squares@,
                after.squares@,
                Side::White,
            ),
            update_fits(
                old(self).entries(Side::Black),
                nnue.spec_weights(),
                before.squares@,
                after.squares@,
                Side::Black,
            ),
        ensures
            final(self).entries(Side::White).len() == nnue.spec_weights().ft_hidden,
            final(self).entries(Side::Black).len() == nnue.spec_weights().ft_hidden,
            forall|i: int|
                0 <= i < nnue.spec_weights().ft_hidden ==> final(self).entries(Side::White)[i]
                    == old(self).entries(Side::White)[i] + board_sum(
                    nnue.spec_weights(),
                    after.squares@,
                    Side::White,
                    i,
                    64,
                ) - board_sum(nnue.spec_weights(), before.squares@, Side::White, i, 64),
            forall|i: int|
                0 <= i < nnue.spec_weights().ft_hidden ==> final(self).entries(Side::Black)[i]
                    == old(self).entries(Side::Black)[i] + board_sum(
                    nnue.spec_weights(),
                    after.squares@,
                    Side::Black,
                    i,
                    64,
                ) - board_sum(nnue.spec_weights(), before.squares@, Side::Black, i, 64),
            old(self).describes(nnue.spec_weights(), before.squares@) ==> final(self).describes(
                nnue.spec_weights(),
                after.squares@,
            ),
    {
        let ghost w = nnue.spec_weights();
        let ghost bc = before.squares@;
        let ghost ac = after.squares@;
        let ghost start_white = self.white@;
        let ghost start_black = self.black@;
        let mut sq: usize = 0;
        while sq < 64
            invariant
                sq <= 64,
                w == nnue.spec_weights(),
                w.wf(),
                bc == before.squares@,
                ac == after.squares@,
                bc.len() == 64,
                ac.len() == 64,
                self.white@.len() == w.ft_hidden,
                self.black@.len() == w.ft_hidden,
                update_fits(start_white, w, bc, ac, Side::White),
                update_fits(start_black, w, bc, ac, Side::Black),
                forall|i: int|
                    #![trigger self.white@[i]]
                    0 <= i < w.ft_hidden ==> self.white@[i] == start_white[i] + board_sum(
                        w,
                        ac,
                        Side::White,
                        i,
                        sq as int,
                    ) - board_sum(w, bc, Side::White, i, sq as int),
                forall|i: int|
                    #![trigger self.black@[i]]
                    0 <= i < w.ft_hidden ==> self.black@[i] == start_black[i] + board_sum(
                        w,
                        ac,
                        Side::Black,
                        i,
                        sq as int,
                    ) - board_sum(w, bc, Side::Black, i, sq as int),
            decreases 64 - sq,
        {
            let b = before.squares[sq];
            let a = after.squares[sq];
            let ghost mid_white = self.white@;
            let ghost mid_black = self.black@;
            if !same_cell(b, a) {
                match b {
                    Some((kind, side)) => {
                        assert forall|i: int| 0 <= i < w.ft_hidden implies fits_i32(
                            self.white@[i] + -1 * cell_weight(w, Some((kind, side)), sq as int, Side::White, i),
                        ) by {
                            assert(self.white@[i] == start_white[i] + board_sum(w, ac, Side::White, i, sq as int)
                                - board_sum(w, bc, Side::White, i, sq as int));
                        }
                        assert forall|i: int| 0 <= i < w.ft_hidden implies fits_i32(
                            self.black@[i] + -1 * cell_weight(w, Some((kind, side)), sq as int, Side::Black, i),
                        ) by {
                            assert(self.black@[i] == start_black[i] + board_sum(w, ac, Side::Black, i, sq as int)
                                - board_sum(w, bc, Side::Black, i, sq as int));
                        }
                        self.update_piece(nnue, kind, sq, side, -1);
                    },
                    None => {},
                }
                let ghost removed_white = self.white@;
                let ghost removed_black = self.black@;
                assert forall|i: int| 0 <= i < w.ft_hidden implies removed_white[i] == mid_white[i]
                    - cell_weight(w, bc[sq as int], sq as int, Side::White, i) by {}
                assert forall|i: int| 0 <= i < w.ft_hidden implies removed_black[i] == mid_black[i]
                    - cell_weight(w, bc[sq as int], sq as int, Side::Black, i) by {}
                match a {
                    Some((kind, side)) => {
                        assert forall|i: int| 0 <= i < w.ft_hidden implies fits_i32(
                            self.white@[i] + 1 * cell_weight(w, Some((kind, side)), sq as int, Side::White, i),
                        ) by {
                            assert(mid_white[i] == start_white[i] + board_sum(w, ac, Side::White, i, sq as int)
                                - board_sum(w, bc, Side::White, i, sq as int));
                            assert(removed_white[i] == mid_white[i] - cell_weight(w, bc[sq as int], sq as int, Side::White, i));
                            assert(board_sum(w, ac, Side::White, i, sq + 1) == board_sum(w, ac, Side::White, i, sq as int)
                                + cell_weight(w, ac[sq as int], sq as int, Side::White, i));
                            assert(board_sum(w, bc, Side::White, i, sq + 1) == board_sum(w, bc, Side::White, i, sq as int)
                                + cell_weight(w, bc[sq as int], sq as int, Side::White, i));
                        }
                        assert forall|i: int| 0 <= i < w.ft_hidden implies fits_i32(
                            self.black@[i] + 1 * cell_weight(w, Some((kind, side)), sq as int, Side::Black, i),
                        ) by {
                            assert(mid_black[i] == start_black[i] + board_sum(w, ac, Side::Black, i, sq as int)
                                - board_sum(w, bc, Side::Black, i, sq as int));
                            assert(removed_black[i] == mid_black[i] - cell_weight(w, bc[sq as int], sq as int, Side::Black, i));
                            assert(board_sum(w, ac, Side::Black, i, sq + 1) == board_sum(w, ac, Side::Black, i, sq as int)
                                + cell_weight(w, ac[sq as int], sq as int, Side::Black, i));
                            assert(board_sum(w, bc, Side::Black, i, sq + 1) == board_sum(w, bc, Side::Black, i, sq as int)
                                + cell_weight(w, bc[sq as int], sq as int, Side::Black, i));
                        }
                        self.update_piece(nnue, kind, sq, side, 1);
                    },
                    None => {},
                }
                assert forall|i: int| 0 <= i < w.ft_hidden implies self.white@[i] == removed_white[i]
                    + cell_weight(w, ac[sq as int], sq as int, Side::White, i) by {}
                assert forall|i: int| 0 <= i < w.ft_hidden implies self.black@[i] == removed_black[i]
                    + cell_weight(w, ac[sq as int], sq as int, Side::Black, i) by {}
            }
            assert forall|i: int|
                #![trigger self.white@[i]]
                0 <= i < w.ft_hidden implies self.white@[i] == start_white[i] + board_sum(
                    w,
                    ac,
                    Side::White,
                    i,
                    sq + 1,
                ) - board_sum(w, bc, Side::White, i, sq + 1) by {
                assert(mid_white[i] == start_white[i] + board_sum(w, ac, Side::White, i, sq as int)
                    - board_sum(w, bc, Side::White, i, sq as int));
            }
            assert forall|i: int|
                #![trigger self.black@[i]]
                0 <= i < w.ft_hidden implies self.black@[i] == start_black[i] + board_sum(
                    w,
                    ac,
                    Side::Black,
                    i,
                    sq + 1,
                ) - board_sum(w, bc, Side::Black, i, sq + 1) by {
                assert(mid_black[i] == start_black[i] + board_sum(w, ac, Side::Black, i, sq as int)
                    - board_sum(w, bc, Side::Black, i, sq as int));
            }
            sq = sq + 1;
        }
    }
}

/// The index of the first listed move equal to `mv`, from index `i` on; the
/// number of moves when there is none.
pub open spec fn index_of_move(children: Seq<(Move, Seq<u8>)>, mv: Move, i: int) -> int
    decreases children.len() - i,
{
    if i < 0 || i >= children.len() {
        children.len() as int
    } else if children[i].0 == mv {
        i
    } else {
        index_of_move(children, mv, i + 1)
    }
}

/// The position (as FEN) that the legal move `mv` leads to from `fen`.
pub open spec fn move_result(fen: Seq<u8>, mv: Move) -> Seq<u8> {
    successors_of(fen)[index_of_move(successors_of(fen), mv, 0)].1
}

impl NnueAccumulator {
    /// Makes the legal move `mv` on `board` (FEN), returns the position it
    /// leads to (as FEN) and updates the accumulator by the difference of
    /// the two positions' features: a piece that left a square has its
    /// column taken away, a piece that arrived has its column added. The
    /// accumulator of `board` thus becomes that of the new position.
    pub fn apply_move(&mut self, nnue: &Nnue, board: &[u8], mv: Move) -> (r: Vec<u8>)
        requires
            nnue.spec_weights().wf(),
            fen_safe(board@),
            index_of_move(successors_of(board@), mv, 0) < successors_of(board@).len(),
            old(self).entries(Side::White).len() == nnue.spec_weights().ft_hidden,
            old(self).entries(Side::Black).len() == nnue.spec_weights().ft_hidden,
            update_fits(
                old(self).entries(Side::White),
                nnue.spec_weights(),
                fen_squares(board@),
                fen_squares(move_result(board@, mv)),
                Side::White,
            ),
            update_fits(
                old(self).entries(Side::Black),
                nnue.spec_weights(),
                fen_squares(board@),
                fen_squares(move_result(board@, mv)),
                Side::Black,
            ),
        ensures
            r@ == move_result(board@, mv),
            final(self).entries(Side::White).len() == nnue.spec_weights().ft_hidden,
            final(self).entries(Side::Black).len() == nnue.spec_weights().ft_hidden,
            forall|i: int|
                0 <= i < nnue.spec_weights().ft_hidden ==> final(self).entries(Side::White)[i]
                    == old(self).entries(Side::White)[i] + board_sum(
                    nnue.spec_weights(),
                    fen_squares(r@),
                    Side::White,
                    i,
                    64,
                ) - board_sum(nnue.spec_weights(), fen_squares(board@), Side::White, i, 64),
            forall|i: int|
                0 <= i < nnue.spec_weights().ft_hidden ==> final(self).entries(Side::Black)[i]
                    == old(self).entries(Side::Black)[i] + board_sum(
                    nnue.spec_weights(),
                    fen_squares(r@),
                    Side::Black,
                    i,
                    64,
                ) - board_sum(nnue.spec_weights(), fen_squares(board@), Side::Black, i, 64),
            old(self).describes(nnue.spec_weights(), fen_squares(board@)) ==> final(self).describes(
                nnue.spec_weights(),
                fen_squares(r@),
            ),
    {
        let children = legal_successors(board);
        let ghost moves = successors_of(board@);
        let mut k: usize = 0;
        while k < children.len() && children[k].0 != mv
            invariant
                k <= children@.len(),
                deep_children(children@) == moves,
                index_of_move(moves, mv, k as int) == index_of_move(moves, mv, 0),
            decreases children@.len() - k,
        {
            assert(deep_children(children@)[k as int] == (children@[k as int].0, children@[k as int].1@));
            k = k + 1;
        }
        assert(children@.len() == moves.len());
        assert(deep_children(children@)[k as int] == (children@[k as int].0, children@[k as int].1@));
        let mut next: Vec<u8> = Vec::new();
        let mut c: usize = 0;
        while c < children[k].1.len()
            invariant
                k < children@.len(),
                c <= children@[k as int].1@.len(),
                next@ == children@[k as int].1@.subrange(0, c as int),
            decreases children@[k as int].1@.len() - c,
        {
            next.push(children[k].1[c]);
            c = c + 1;
            assert(next@ =~= children@[k as int].1@.subrange(0, c as int));
        }
        assert(children@[k as int].1@.subrange(0, c as int) =~= children@[k as int].1@);
        let before = Position::from_fen(board);
        let after = Position::from_fen(next.as_slice());
        self.apply_change(nnue, &before, &after);
        next
    }
}

impl NnueAccumulator {
    /// `apply_move` where `mv` is a legal move of `board`; `None`, with the
    /// accumulator unchanged, where it is not.
    pub fn apply_move_checked(&mut self, nnue: &Nnue, board: &[u8], mv: Move) -> (r: Option<Vec<u8>>)
        requires
            nnue.spec_weights().wf(),
            fen_safe(board@),
            old(self).describes(nnue.spec_weights(), fen_squares(board@)),
        ensures
            (r is Some) <==> index_of_move(successors_of(board@), mv, 0) < successors_of(board@).len(),
            r matches Some(next) ==> next@ == successors_of(board@)[index_of_move(
                successors_of(board@),
                mv,
                0,
            )].1 && final(self).describes(nnue.spec_weights(), fen_squares(next@)),
            r is None ==> *final(self) == *old(self),
    {
        let children = legal_successors(board);
        let ghost moves = successors_of(board@);
        let mut k: usize = 0;
        while k < children.len() && children[k].0 != mv
            invariant
                k <= children@.len(),
                deep_children(children@) == moves,
                index_of_move(moves, mv, k as int) == index_of_move(moves, mv, 0),
            decreases children@.len() - k,
        {
            assert(deep_children(children@)[k as int] == (children@[k as int].0, children@[k as int].1@));
            k = k + 1;
        }
        assert(children@.len() == moves.len());
        if k < children.len() {
            assert(deep_children(children@)[k as int] == (children@[k as int].0, children@[k as int].1@));
            proof {
                law_incremental_update(
                    nnue.spec_weights(),
                    fen_squares(board@),
                    fen_squares(move_result(board@, mv)),
                    *self,
                );
            }
            Some(self.apply_move(nnue, board, mv))
        } else {
            None
        }
    }
}

impl Nnue {
    /// The accumulator of a position, computed from scratch: the feature
    /// biases plus the column of every piece on the board.
    pub fn accumulator(&self, position: &Position) -> (r: NnueAccumulator)
        requires
            self.spec_weights().wf(),
            position.wf(),
        ensures
            r.describes(self.spec_weights(), position.squares@),
    {
        let ghost w = self.weights;
        let ghost cells = position.squares@;
        let mut acc = NnueAccumulator::new(&self.weights);
        let mut sq: usize = 0;
        while sq < 64
            invariant
                sq <= 64,
                w == self.weights,
                w.wf(),
                cells == position.squares@,
                cells.len() == 64,
                acc.white@.len() == w.ft_hidden,
                acc.black@.len() == w.ft_hidden,
                forall|i: int|
                    #![trigger acc.white@[i]]
                    0 <= i < w.ft_hidden ==> acc.white@[i] == w.feature_biases@[i] + board_sum(
                        w,
                        cells,
                        Side::White,
                        i,
                        sq as int,
                    ),
                forall|i: int|
                    #![trigger acc.black@[i]]
                    0 <= i < w.ft_hidden ==> acc.black@[i] == w.feature_biases@[i] + board_sum(
                        w,
                        cells,
                        Side::Black,
                        i,
                        sq as int,
                    ),
            decreases 64 - sq,
        {
            let ghost prev_white = acc.white@;
            let ghost prev_black = acc.black@;
            match position.squares[sq] {
                Some((kind, side)) => {
                    assert forall|i: int| 0 <= i < w.ft_hidden implies fits_i32(
                        acc.white@[i] + 1 * cell_weight(w, Some((kind, side)), sq as int, Side::White, i),
                    ) by {
                        lemma_board_sum_bound(w, cells, Side::White, i, sq as int);
                    }
                    assert forall|i: int| 0 <= i < w.ft_hidden implies fits_i32(
                        acc.black@[i] + 1 * cell_weight(w, Some((kind, side)), sq as int, Side::Black, i),
                    ) by {
                        lemma_board_sum_bound(w, cells, Side::Black, i, sq as int);
                    }
                    acc.update_piece(self, kind, sq, side, 1);
                },
                None => {},
            }
            assert forall|i: int|
                #![trigger acc.white@[i]]
                0 <= i < w.ft_hidden implies acc.white@[i] == w.feature_biases@[i] + board_sum(
                    w,
                    cells,
                    Side::White,
                    i,
                    sq + 1,
                ) by {
                assert(prev_white[i] == w.feature_biases@[i] + board_sum(w, cells, Side::White, i, sq as int));
            }
            assert forall|i: int|
                #![trigger acc.black@[i]]
                0 <= i < w.ft_hidden implies acc.black@[i] == w.feature_biases@[i] + board_sum(
                    w,
                    cells,
                    Side::Black,
                    i,
                    sq + 1,
                ) by {
                assert(prev_black[i] == w.feature_biases@[i] + board_sum(w, cells, Side::Black, i, sq as int));
            }
            sq = sq + 1;
        }
        acc
    }
}


/// Law: the accumulator of a position can be updated to the accumulator of
/// any other position. Starting from the accumulator of `before`, every
/// running value of `apply_change` fits in an `i32`, and adding the difference
/// of the two boards' sums gives exactly the accumulator of `after`, the one
/// that `Nnue::accumulator` computes from scratch.
pub proof fn law_incremental_update(
    w: NnueWeights,
    before: Seq<Option<(PieceKind, Side)>>,
    after: Seq<Option<(PieceKind, Side)>>,
    acc: NnueAccumulator,
)
    requires
        acc.describes(w, before),
    ensures
        update_fits(acc.entries(Side::White), w, before, after, Side::White),
        update_fits(acc.entries(Side::Black), w, before, after, Side::Black),
        forall|i: int|
            0 <= i < w.ft_hidden ==> acc.entries(Side::White)[i] + board_sum(w, after, Side::White, i, 64)
                - board_sum(w, before, Side::White, i, 64) == accumulator_entry(w, after, Side::White, i),
        forall|i: int|
            0 <= i < w.ft_hidden ==> acc.entries(Side::Black)[i] + board_sum(w, after, Side::Black, i, 64)
                - board_sum(w, before, Side::Black, i, 64) == accumulator_entry(w, after, Side::Black, i),
{
    lemma_update_fits(acc.entries(Side::White), w, before, after, Side::White);
    lemma_update_fits(acc.entries(Side::Black), w, before, after, Side::Black);
}

/// Law: an update is undone by the update back. Moving an accumulator from
/// `before` to `after` and then from `after` to `before` (each as
/// `apply_change` does it) restores every entry.
pub proof fn law_update_undone(
    w: NnueWeights,
    before: Seq<Option<(PieceKind, Side)>>,
    after: Seq<Option<(PieceKind, Side)>>,
    perspective: Side,
    start: Seq<i32>,
    moved: Seq<i32>,
    restored: Seq<i32>,
)
    requires
        start.len() == w.ft_hidden,
        moved.len() == w.ft_hidden,
        restored.len() == w.ft_hidden,
        forall|i: int|
            0 <= i < w.ft_hidden ==> moved[i] == start[i] + board_sum(w, after, perspective, i, 64)
                - board_sum(w, before, perspective, i, 64),
        forall|i: int|
            0 <= i < w.ft_hidden ==> restored[i] == moved[i] + board_sum(w, before, perspective, i, 64)
                - board_sum(w, after, perspective, i, 64),
    ensures
        restored == start,
{
    assert(restored =~= start);
}

proof fn lemma_update_fits(
    start: Seq<i32>,
    w: NnueWeights,
    before: Seq<Option<(PieceKind, Side)>>,
    after: Seq<Option<(PieceKind, Side)>>,
    perspective: Side,
)
    requires
        forall|i: int|
            0 <= i < w.ft_hidden ==> start[i] as int == accumulator_entry(w, before, perspective, i),
    ensures
        update_fits(start, w, before, after, perspective),
{
    assert forall|i: int, k: int|
        #![trigger board_sum(w, after, perspective, i, k)]
        0 <= i < w.ft_hidden && 0 <= k <= 64 implies {
            &&& fits_i32(
                start[i] + board_sum(w, after, perspective, i, k) - board_sum(
                    w,
                    before,
                    perspective,
                    i,
                    k,
                ),
            )
            &&& (k < 64 && before[k] != after[k]) ==> fits_i32(
                start[i] + board_sum(w, after, perspective, i, k) - board_sum(
                    w,
                    before,
                    perspective,
                    i,
                    k,
                ) - cell_weight(w, before[k], k, perspective, i),
            )
        } by {
        lemma_board_sum_bound(w, before, perspective, i, 64);
        lemma_board_sum_bound(w, before, perspective, i, k);
        lemma_board_sum_bound(w, after, perspective, i, k);
        assert(start[i] as int == w.feature_biases@[i] + board_sum(w, before, perspective, i, 64));
    }
}

// ---------------------------------------------------------------------------
// The dense layers.
// ---------------------------------------------------------------------------

pub open spec fn relu(x: int) -> int {
    if x > 0 {
        x
    } else {
        0
    }
}

/// The weighted sum of the first `n` rectified accumulator entries into
/// hidden unit `j`.
pub open spec fn hidden_sum(w: NnueWeights, acc: Seq<int>, j: int, n: int) -> int
    decreases n,
{
    if n <= 0 {
        0
    } else {
        hidden_sum(w, acc, j, n - 1) + relu(acc[n - 1]) * w.hidden1_weights@[(n - 1)
            * w.hidden1_size + j]
    }
}

/// Hidden unit `j`: its bias plus the weighted rectified accumulator, reduced
/// to an `i32` as the engine's `i32` arithmetic does.
pub open spec fn hidden_value(w: NnueWeights, acc: Seq<int>, j: int) -> int {
    wrap_i32(w.hidden1_biases@[j] + hidden_sum(w, acc, j, acc.len() as int))
}

/// The weighted sum of the first `n` rectified hidden units.
pub open spec fn output_sum(w: NnueWeights, acc: Seq<int>, n: int) -> int
    decreases n,
{
    if n <= 0 {
        0
    } else {
        output_sum(w, acc, n - 1) + relu(hidden_value(w, acc, n - 1)) * w.hidden2_weights@[n - 1]
    }
}

/// The network's output for the accumulator half `acc` of the side to move.
pub open spec fn network_output(w: NnueWeights, acc: Seq<int>) -> int {
    wrap_i32(w.hidden2_bias + output_sum(w, acc, w.hidden1_size as int))
}

/// The accumulator half of `perspective` of the position with squares `cells`.
pub open spec fn position_accumulator(
    w: NnueWeights,
    cells: Seq<Option<(PieceKind, Side)>>,
    perspective: Side,
) -> Seq<int> {
    Seq::new(w.ft_hidden as nat, |i: int| accumulator_entry(w, cells, perspective, i))
}

/// The evaluation of the position with squares `cells` and `side` to move,
/// from the point of view of the side to move.
pub open spec fn evaluation_of(
    w: NnueWeights,
    cells: Seq<Option<(PieceKind, Side)>>,
    side: Side,
) -> int {
    network_output(w, position_accumulator(w, cells, side))
}

/// The evaluation of a position, from the point of view of the side to move.
pub open spec fn position_evaluation(w: NnueWeights, position: Position) -> int {
    evaluation_of(w, position.squares@, position.side_to_move)
}

pub open spec fn as_ints(s: Seq<i32>) -> Seq<int> {
    s.map_values(|v: i32| v as int)
}

impl Nnue {
    /// Evaluates a position from the side to move's half of an accumulator:
    /// one hidden layer of rectified units, then a rectified weighted sum.
    pub fn evaluate_accumulator(&self, position: &Position, accumulator: &NnueAccumulator) -> (r: i32)
        requires
            self.spec_weights().wf(),
            accumulator.entries(position.side_to_move).len() <= self.spec_weights().ft_hidden,
        ensures
            r == network_output(
                self.spec_weights(),
                as_ints(accumulator.entries(position.side_to_move)),
            ),
    {
        let ghost w = self.weights;
        let hidden1_size = self.weights.hidden1_size;
        let acc = if position.side_to_move == Side::White {
            &accumulator.white
        } else {
            &accumulator.black
        };
        let ghost accs = as_ints(acc@);
        assert(accs == as_ints(accumulator.entries(position.side_to_move)));
        let ft = acc.len();
        let h1w_len = self.weights.hidden1_weights.len();
        let mut hidden1: Vec<i32> = Vec::new();
        let mut j: usize = 0;
        while j < hidden1_size
            invariant
                j <= hidden1_size,
                w == self.weights,
                w.wf(),
                hidden1_size == w.hidden1_size,
                ft <= w.ft_hidden,
                ft == acc@.len(),
                h1w_len == w.ft_hidden * hidden1_size,
                accs == as_ints(acc@),
                accs.len() == ft,
                hidden1@.len() == j,
                forall|k: int| 0 <= k < j ==> hidden1@[k] == hidden_value(w, accs, k),
            decreases hidden1_size - j,
        {
            let mut sum: i32 = self.weights.hidden1_biases[j] as i32;
            proof {
                lemma_wrap_identity(sum as int);
            }
            let mut i: usize = 0;
            while i < ft
                invariant
                    i <= ft,
                    j < hidden1_size,
                    w == self.weights,
                    w.wf(),
                    hidden1_size == w.hidden1_size,
                    ft <= w.ft_hidden,
                    ft == acc@.len(),
                    h1w_len == w.ft_hidden * hidden1_size,
                    accs == as_ints(acc@),
                    accs.len() == ft,
                    sum == wrap_i32(w.hidden1_biases@[j as int] + hidden_sum(w, accs, j as int, i as int)),
                decreases ft - i,
            {
                let value = acc[i];
                let v: i32 = if value > 0 { value } else { 0 };
                assert(i * hidden1_size + j < w.ft_hidden * hidden1_size) by (nonlinear_arith)
                    requires
                        i < w.ft_hidden,
                        j < hidden1_size,
                ;
                let weight = self.weights.hidden1_weights[i * hidden1_size + j] as i32;
                let product = mul_wrapping(v, weight);
                let ghost before = sum;
                sum = add_wrapping(sum, product);
                proof {
                    let base = w.hidden1_biases@[j as int] + hidden_sum(w, accs, j as int, i as int);
                    let term = relu(accs[i as int]) * w.hidden1_weights@[i * hidden1_size + j];
                    assert(v as int == relu(accs[i as int]));
                    assert(product == wrap_i32(term));
                    lemma_wrap_add_left(base, product as int);
                    lemma_wrap_add_right(base, term);
                    assert(hidden_sum(w, accs, j as int, i + 1) == hidden_sum(w, accs, j as int, i as int) + term);
                }
                i = i + 1;
            }
            hidden1.push(sum);
            j = j + 1;
        }
        let mut out: i32 = self.weights.hidden2_bias as i32;
        proof {
            lemma_wrap_identity(out as int);
        }
        let mut j: usize = 0;
        while j < hidden1_size
            invariant
                j <= hidden1_size,
                w == self.weights,
                w.wf(),
                hidden1_size == w.hidden1_size,
                hidden1@.len() == hidden1_size,
                forall|k: int| 0 <= k < hidden1_size ==> hidden1@[k] == hidden_value(w, accs, k),
                out == wrap_i32(w.hidden2_bias + output_sum(w, accs, j as int)),
            decreases hidden1_size - j,
        {
            let value = hidden1[j];
            let v: i32 = if value > 0 { value } else { 0 };
            let weight = self.weights.hidden2_weights[j] as i32;
            let product = mul_wrapping(v, weight);
            proof {
                let base = w.hidden2_bias + output_sum(w, accs, j as int);
                let term = relu(hidden_value(w, accs, j as int)) * w.hidden2_weights@[j as int];
                assert(product == wrap_i32(term));
                lemma_wrap_add_left(base, product as int);
                lemma_wrap_add_right(base, term);
            }
            out = add_wrapping(out, product);
            j = j + 1;
        }
        out
    }

    /// Evaluates a position from the side to move's point of view, building
    /// its accumulator from scratch.
    pub fn evaluate(&self, position: &Position) -> (r: i32)
        requires
            self.spec_weights().wf(),
            position.wf(),
        ensures
            r == position_evaluation(self.spec_weights(), *position),
    {
        let accumulator = self.accumulator(position);
        let r = self.evaluate_accumulator(position, &accumulator);
        proof {
            law_accumulator_evaluation(self.spec_weights(), *position, accumulator);
        }
        r
    }
}

/// Law: evaluating a position through its accumulator gives the position's
/// evaluation; in particular `evaluate_accumulator(p, accumulator(p))`
/// equals `evaluate(p)`, and so does it for an accumulator kept up to date
/// with `apply_change` or `apply_move`.
pub proof fn law_accumulator_evaluation(w: NnueWeights, position: Position, acc: NnueAccumulator)
    requires
        acc.describes(w, position.squares@),
    ensures
        network_output(w, as_ints(acc.entries(position.side_to_move))) == position_evaluation(
            w,
            position,
        ),
{
    let p = position.side_to_move;
    assert(as_ints(acc.entries(p)) =~= position_accumulator(w, position.squares@, p));
}


proof fn lemma_zero_output_sum(w: NnueWeights, acc: Seq<int>, n: int)
    requires
        w.wf(),
        w.all_zero(),
        0 <= n <= w.hidden1_size,
    ensures
        output_sum(w, acc, n) == 0,
    decreases n,
{
    if n > 0 {
        lemma_zero_output_sum(w, acc, n - 1);
        assert(w.hidden2_weights@[n - 1] == 0);
    }
}

/// Law: with every parameter zero, every position evaluates to 0.
pub proof fn law_zero_weights_evaluate_to_zero(w: NnueWeights, position: Position)
    requires
        w.wf(),
        w.all_zero(),
    ensures
        position_evaluation(w, position) == 0,
{
    let acc = position_accumulator(w, position.squares@, position.side_to_move);
    lemma_zero_output_sum(w, acc, w.hidden1_size as int);
    lemma_wrap_identity(0);
}


// ---------------------------------------------------------------------------
// Colour symmetry.
// ---------------------------------------------------------------------------

pub open spec fn other_side(side: Side) -> Side {
    match side {
        Side::White => Side::Black,
        Side::Black => Side::White,
    }
}

/// The square on the same file with the rank mirrored (a1 <-> a8).
pub open spec fn mirror_square(square: int) -> int {
    (7 - square / 8) * 8 + square % 8
}

/// The board mirrored rank-wise with the colours of all pieces swapped.
pub open spec fn flipped_cells(cells: Seq<Option<(PieceKind, Side)>>) -> Seq<Option<(PieceKind, Side)>> {
    Seq::new(
        64,
        |sq: int|
            match cells[mirror_square(sq)] {
                Some((kind, side)) => Some((kind, other_side(side))),
                None => None,
            },
    )
}

/// The sum of `g` over `0..n`.
pub open spec fn sum_of(g: spec_fn(int) -> int, n: int) -> int
    decreases n,
{
    if n <= 0 {
        0
    } else {
        sum_of(g, n - 1) + g(n - 1)
    }
}

/// The sum of `g` over the eight squares of rank `r`.
pub open spec fn rank_sum(g: spec_fn(int) -> int, r: int) -> int {
    g(8 * r) + g(8 * r + 1) + g(8 * r + 2) + g(8 * r + 3) + g(8 * r + 4) + g(8 * r + 5) + g(8 * r
        + 6) + g(8 * r + 7)
}

proof fn lemma_sum_by_ranks(g: spec_fn(int) -> int, k: int)
    requires
        0 <= k,
    ensures
        sum_of(g, 8 * k) == sum_of(|r: int| rank_sum(g, r), k),
    decreases k,
{
    if k > 0 {
        lemma_sum_by_ranks(g, k - 1);
        let b = 8 * (k - 1);
        assert(sum_of(g, b + 8) == sum_of(g, b + 7) + g(b + 7));
        assert(sum_of(g, b + 7) == sum_of(g, b + 6) + g(b + 6));
        assert(sum_of(g, b + 6) == sum_of(g, b + 5) + g(b + 5));
        assert(sum_of(g, b + 5) == sum_of(g, b + 4) + g(b + 4));
        assert(sum_of(g, b + 4) == sum_of(g, b + 3) + g(b + 3));
        assert(sum_of(g, b + 3) == sum_of(g, b + 2) + g(b + 2));
        assert(sum_of(g, b + 2) == sum_of(g, b + 1) + g(b + 1));
        assert(sum_of(g, b + 1) == sum_of(g, b) + g(b));
        assert(8 * k == b + 8);
    }
}

proof fn lemma_sum_of_eight(g: spec_fn(int) -> int)
    ensures
        sum_of(g, 8) == g(0) + g(1) + g(2) + g(3) + g(4) + g(5) + g(6) + g(7),
{
    assert(sum_of(g, 0) == 0);
    assert(sum_of(g, 1) == g(0));
    assert(sum_of(g, 2) == sum_of(g, 1) + g(1));
    assert(sum_of(g, 3) == sum_of(g, 2) + g(2));
    assert(sum_of(g, 4) == sum_of(g, 3) + g(3));
    assert(sum_of(g, 5) == sum_of(g, 4) + g(4));
    assert(sum_of(g, 6) == sum_of(g, 5) + g(5));
    assert(sum_of(g, 7) == sum_of(g, 6) + g(6));
    assert(sum_of(g, 8) == sum_of(g, 7) + g(7));
}

proof fn lemma_mirror_square(r: int, f: int)
    requires
        0 <= r < 8,
        0 <= f < 8,
    ensures
        mirror_square(8 * r + f) == 8 * (7 - r) + f,
        (8 * r + f) / 8 == r,
        (8 * r + f) % 8 == f,
{
    vstd::arithmetic::div_mod::lemma_fundamental_div_mod_converse(8 * r + f, 8, r, f);
}

/// Summing over the squares in mirrored order gives the same sum.
proof fn lemma_mirror_sum(g: spec_fn(int) -> int)
    ensures
        sum_of(|sq: int| g(mirror_square(sq)), 64) == sum_of(g, 64),
{
    let h = |sq: int| g(mirror_square(sq));
    lemma_sum_by_ranks(g, 8);
    lemma_sum_by_ranks(h, 8);
    assert forall|r: int| 0 <= r < 8 implies rank_sum(h, r) == rank_sum(g, 7 - r) by {
        lemma_mirror_square(r, 0);
        lemma_mirror_square(r, 1);
        lemma_mirror_square(r, 2);
        lemma_mirror_square(r, 3);
        lemma_mirror_square(r, 4);
        lemma_mirror_square(r, 5);
        lemma_mirror_square(r, 6);
        lemma_mirror_square(r, 7);
    }
    let rg = |r: int| rank_sum(g, r);
    let rh = |r: int| rank_sum(h, r);
    lemma_sum_of_eight(rg);
    lemma_sum_of_eight(rh);
    assert(rh(0) == rg(7));
    assert(rh(1) == rg(6));
    assert(rh(2) == rg(5));
    assert(rh(3) == rg(4));
    assert(rh(4) == rg(3));
    assert(rh(5) == rg(2));
    assert(rh(6) == rg(1));
    assert(rh(7) == rg(0));
}

proof fn lemma_board_sum_is_sum_of(
    w: NnueWeights,
    cells: Seq<Option<(PieceKind, Side)>>,
    perspective: Side,
    i: int,
    n: int,
)
    ensures
        board_sum(w, cells, perspective, i, n) == sum_of(
            |sq: int| cell_weight(w, cells[sq], sq, perspective, i),
            n,
        ),
    decreases n,
{
    if n > 0 {
        lemma_board_sum_is_sum_of(w, cells, perspective, i, n - 1);
    }
}

/// A square of the flipped board, seen from the other side, uses the same
/// feature as the mirrored square of the unflipped board.
proof fn lemma_flipped_cell_weight(
    w: NnueWeights,
    cells: Seq<Option<(PieceKind, Side)>>,
    perspective: Side,
    i: int,
    sq: int,
)
    requires
        0 <= sq < 64,
    ensures
        cell_weight(w, flipped_cells(cells)[sq], sq, other_side(perspective), i) == cell_weight(
            w,
            cells[mirror_square(sq)],
            mirror_square(sq),
            perspective,
            i,
        ),
{
    let r = sq / 8;
    let f = sq % 8;
    vstd::arithmetic::div_mod::lemma_fundamental_div_mod(sq, 8);
    lemma_mirror_square(r, f);
    lemma_mirror_square(7 - r, f);
}

/// Entry `i` of the flipped board's accumulator seen from the other side is
/// entry `i` of the unflipped board seen from `perspective`.
proof fn lemma_flipped_entry(
    w: NnueWeights,
    cells: Seq<Option<(PieceKind, Side)>>,
    perspective: Side,
    i: int,
)
    ensures
        accumulator_entry(w, flipped_cells(cells), other_side(perspective), i) == accumulator_entry(
            w,
            cells,
            perspective,
            i,
        ),
{
    let g = |sq: int| cell_weight(w, cells[sq], sq, perspective, i);
    let h = |sq: int| cell_weight(w, flipped_cells(cells)[sq], sq, other_side(perspective), i);
    lemma_board_sum_is_sum_of(w, cells, perspective, i, 64);
    lemma_board_sum_is_sum_of(w, flipped_cells(cells), other_side(perspective), i, 64);
    lemma_mirror_sum(g);
    assert forall|n: int| 0 <= n <= 64 implies sum_of(h, n) == sum_of(
        |sq: int| g(mirror_square(sq)),
        n,
    ) by {
        lemma_sum_congruent(h, |sq: int| g(mirror_square(sq)), n);
    }
}

proof fn lemma_sum_congruent(g1: spec_fn(int) -> int, g2: spec_fn(int) -> int, n: int)
    requires
        0 <= n <= 64,
        forall|sq: int| 0 <= sq < n ==> #[trigger] g1(sq) == g2(sq),
    ensures
        sum_of(g1, n) == sum_of(g2, n),
    decreases n,
{
    if n > 0 {
        lemma_sum_congruent(g1, g2, n - 1);
    }
}

/// Law: the evaluation is colour-symmetric. Mirroring the board rank-wise,
/// swapping the colours of all pieces and giving the move to the other side
/// leaves the evaluation (from the side to move) unchanged.
pub proof fn law_colour_symmetry(w: NnueWeights, cells: Seq<Option<(PieceKind, Side)>>, side: Side)
    ensures
        evaluation_of(w, flipped_cells(cells), other_side(side)) == evaluation_of(w, cells, side),
{
    assert forall|i: int| 0 <= i < w.ft_hidden implies accumulator_entry(
        w,
        flipped_cells(cells),
        other_side(side),
        i,
    ) == accumulator_entry(w, cells, side, i) by {
        lemma_flipped_entry(w, cells, side, i);
    }
    assert(position_accumulator(w, flipped_cells(cells), other_side(side)) =~= position_accumulator(
        w,
        cells,
        side,
    ));
}

/// Law: hidden unit `j` reads accumulator entry `i` through the weight at
/// `i * hidden1_size + j` (one row of `hidden1_size` weights per entry, as
/// the weight file lays them out). When only entry `i` is positive, the
/// unit's weighted sum is that entry times that weight, and the unit is its
/// bias plus that product.
pub proof fn law_hidden_unit_weight(w: NnueWeights, acc: Seq<int>, i: int, j: int)
    requires
        0 <= i < acc.len(),
        forall|k: int| 0 <= k < acc.len() && k != i ==> acc[k] <= 0,
    ensures
        hidden_sum(w, acc, j, acc.len() as int) == acc[i] * w.hidden1_weights@[i * w.hidden1_size + j]
            || acc[i] <= 0,
        acc[i] > 0 ==> hidden_value(w, acc, j) == wrap_i32(
            w.hidden1_biases@[j] + acc[i] * w.hidden1_weights@[i * w.hidden1_size + j],
        ),
        acc[i] <= 0 ==> hidden_value(w, acc, j) == wrap_i32(w.hidden1_biases@[j] as int),
{
    lemma_hidden_sum_one(w, acc, i, j, acc.len() as int);
}

proof fn lemma_hidden_sum_one(w: NnueWeights, acc: Seq<int>, i: int, j: int, n: int)
    requires
        0 <= i < acc.len(),
        0 <= n <= acc.len(),
        forall|k: int| 0 <= k < acc.len() && k != i ==> acc[k] <= 0,
    ensures
        hidden_sum(w, acc, j, n) == if i < n {
            relu(acc[i]) * w.hidden1_weights@[i * w.hidden1_size + j]
        } else {
            0
        },
    decreases n,
{
    if n > 0 {
        lemma_hidden_sum_one(w, acc, i, j, n - 1);
    }
}

/// Law: a weight file is complete exactly when it holds its 8-byte header
/// and, after it, the `769 F + F H + 2 H + 1` two-byte values that the
/// header's sizes `F` and `H` announce: the feature weights and biases, the
/// hidden weights and biases, the output weights and the output bias, the
/// last two bytes. A file of exactly that length is complete; one byte
/// fewer is not.
pub proof fn law_complete_weights_file(b: Seq<u8>)
    ensures
        b.len() >= 8 ==> (is_complete_weights_file(b) <==> b.len() >= 8 + 2 * (769 * le_u32(b, 0)
            + le_u32(b, 0) * le_u32(b, 4) + 2 * le_u32(b, 4) + 1)),
        b.len() < 8 ==> !is_complete_weights_file(b),
        b.len() >= 8 && b.len() == 8 + 2 * (769 * le_u32(b, 0) + le_u32(b, 0) * le_u32(b, 4) + 2
            * le_u32(b, 4) + 1) ==> is_complete_weights_file(b) && hidden2_bias_offset(b) == b.len()
            - 2,
{
}

/// Law: the weight file holds, after its two sizes `F` and `H`, the tables
/// one after the other as little-endian `i16` values: `768 F` feature
/// weights from byte 8, `F` feature biases, `F H` hidden weights, `H` hidden
/// biases, `H` output weights, then the output bias; for a file of exactly
/// the announced length, the output bias is its last two bytes.
pub proof fn law_weight_file_layout(w: NnueWeights, b: Seq<u8>, k: int)
    requires
        weights_decode(w, b),
    ensures
        w.ft_hidden == le_u32(b, 0),
        w.hidden1_size == le_u32(b, 4),
        0 <= k < 768 * le_u32(b, 0) ==> w.feature_weights@[k] == le_i16(b, 8 + 2 * k),
        0 <= k < le_u32(b, 0) ==> w.feature_biases@[k] == le_i16(b, 8 + 1536 * le_u32(b, 0) + 2 * k),
        0 <= k < le_u32(b, 0) * le_u32(b, 4) ==> w.hidden1_weights@[k] == le_i16(
            b,
            8 + 1538 * le_u32(b, 0) + 2 * k,
        ),
        0 <= k < le_u32(b, 4) ==> w.hidden1_biases@[k] == le_i16(
            b,
            8 + 1538 * le_u32(b, 0) + 2 * le_u32(b, 0) * le_u32(b, 4) + 2 * k,
        ),
        0 <= k < le_u32(b, 4) ==> w.hidden2_weights@[k] == le_i16(
            b,
            8 + 1538 * le_u32(b, 0) + 2 * le_u32(b, 0) * le_u32(b, 4) + 2 * le_u32(b, 4) + 2 * k,
        ),
        b.len() == 8 + 2 * (769 * le_u32(b, 0) + le_u32(b, 0) * le_u32(b, 4) + 2 * le_u32(b, 4) + 1)
            ==> w.hidden2_bias == le_i16(b, b.len() - 2),
{
    let f = le_u32(b, 0);
    let h = le_u32(b, 4);
    assert(2 * (f * h) == 2 * f * h) by (nonlinear_arith);
}

/// Law: the output is the output bias plus each rectified hidden unit times
/// its output weight: when only hidden unit `j` is positive, the output is
/// the bias plus that unit times output weight `j`.
pub proof fn law_output_unit_weight(w: NnueWeights, acc: Seq<int>, j: int)
    requires
        0 <= j < w.hidden1_size,
        forall|k: int| 0 <= k < w.hidden1_size && k != j ==> hidden_value(w, acc, k) <= 0,
    ensures
        hidden_value(w, acc, j) > 0 ==> network_output(w, acc) == wrap_i32(
            w.hidden2_bias + hidden_value(w, acc, j) * w.hidden2_weights@[j],
        ),
        hidden_value(w, acc, j) <= 0 ==> network_output(w, acc) == wrap_i32(w.hidden2_bias as int),
{
    lemma_output_sum_one(w, acc, j, w.hidden1_size as int);
}

proof fn lemma_output_sum_one(w: NnueWeights, acc: Seq<int>, j: int, n: int)
    requires
        0 <= j < w.hidden1_size,
        0 <= n <= w.hidden1_size,
        forall|k: int| 0 <= k < w.hidden1_size && k != j ==> hidden_value(w, acc, k) <= 0,
    ensures
        output_sum(w, acc, n) == if j < n {
            relu(hidden_value(w, acc, j)) * w.hidden2_weights@[j]
        } else {
            0
        },
    decreases n,
{
    if n > 0 {
        lemma_output_sum_one(w, acc, j, n - 1);
    }
}

} // verus!
