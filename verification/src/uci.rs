//! The UCI front end: splitting command lines into words, and what each
//! command does to the engine's state and what it answers. Reading lines and
//! printing answers is left to the program around the library.
use vstd::prelude::*;
use crate::nnue::{Nnue, NnueWeights};
use crate::position::{
    Move,
    deep_children,
    fen_is_valid,
    fen_safe,
    lemma_both_kings_safe,
    names_both_kings,
    valid_fen,
    legal_successors,
    move_text,
    start_fen,
    start_fen_text,
    successors_of,
};
use crate::search::{Searcher, fresh_searcher, root_search, witnessed};

verus! {

/// ASCII whitespace: space, tab, line feed, vertical tab, form feed,
/// carriage return.
pub open spec fn is_space(b: u8) -> bool {
    b == 32 || (9 <= b && b <= 13)
}

pub open spec fn flush(cur: Seq<u8>) -> Seq<Seq<u8>> {
    if cur.len() == 0 {
        Seq::empty()
    } else {
        seq![cur]
    }
}

/// The words of `s` from index `i` on, the current word having begun with
/// `cur`.
pub open spec fn words_from(s: Seq<u8>, i: int, cur: Seq<u8>) -> Seq<Seq<u8>>
    decreases s.len() - i,
{
    if i >= s.len() {
        flush(cur)
    } else if is_space(s[i]) {
        flush(cur) + words_from(s, i + 1, Seq::empty())
    } else {
        words_from(s, i + 1, cur.push(s[i]))
    }
}

/// The maximal runs of non-whitespace bytes of `s`, in order.
pub open spec fn words(s: Seq<u8>) -> Seq<Seq<u8>> {
    words_from(s, 0, Seq::empty())
}

pub open spec fn deep(v: Seq<Vec<u8>>) -> Seq<Seq<u8>> {
    v.map_values(|w: Vec<u8>| w@)
}

proof fn lemma_deep_push(v: Seq<Vec<u8>>, w: Vec<u8>)
    ensures
        deep(v.push(w)) =~= deep(v) + seq![w@],
{
}

/// Splits a line into its words.
pub fn split_words(line: &[u8]) -> (r: Vec<Vec<u8>>)
    ensures
        deep(r@) == words(line@),
{
    let n = line.len();
    let mut out: Vec<Vec<u8>> = Vec::new();
    let mut cur: Vec<u8> = Vec::new();
    let mut i: usize = 0;
    while i < n
        invariant
            i <= n,
            n == line@.len(),
            deep(out@) + words_from(line@, i as int, cur@) == words(line@),
        decreases n - i,
    {
        let b = line[i];
        if b == 32 || (9 <= b && b <= 13) {
            if cur.len() > 0 {
                proof {
                    lemma_deep_push(out@, cur);
                }
                assert(deep(out@) + words_from(line@, i as int, cur@) =~= deep(out@) + seq![cur@]
                    + words_from(line@, i + 1, Seq::empty()));
                out.push(cur);
            } else {
                assert(deep(out@) + words_from(line@, i as int, cur@) =~= deep(out@)
                    + words_from(line@, i + 1, Seq::empty()));
            }
            cur = Vec::new();
        } else {
            cur.push(b);
        }
        i = i + 1;
    }
    if cur.len() > 0 {
        proof {
            lemma_deep_push(out@, cur);
        }
        out.push(cur);
    }
    assert(deep(out@) =~= words(line@));
    out
}

/// The decimal value of a string of digits.
pub open spec fn decimal_value(s: Seq<u8>) -> int
    decreases s.len(),
{
    if s.len() == 0 {
        0
    } else {
        decimal_value(s.drop_last()) * 10 + (s.last() - 48)
    }
}

pub open spec fn all_digits(s: Seq<u8>) -> bool {
    forall|k: int| 0 <= k < s.len() ==> 48 <= #[trigger] s[k] <= 57
}

/// A word read as an unsigned decimal number, if it is one that fits in a
/// `u64`.
pub open spec fn spec_parse_u64(s: Seq<u8>) -> Option<u64> {
    if s.len() > 0 && all_digits(s) && decimal_value(s) <= u64::MAX {
        Some(decimal_value(s) as u64)
    } else {
        None
    }
}

proof fn lemma_decimal_monotone(s: Seq<u8>, k: int)
    requires
        all_digits(s),
        0 <= k <= s.len(),
    ensures
        decimal_value(s.subrange(0, k)) <= decimal_value(s),
    decreases s.len() - k,
{
    if k < s.len() {
        lemma_decimal_monotone(s, k + 1);
        let t = s.subrange(0, k + 1);
        assert(t.drop_last() =~= s.subrange(0, k));
        assert(decimal_value(s.subrange(0, k)) >= 0) by {
            lemma_decimal_nonneg(s.subrange(0, k));
        }
    } else {
        assert(s.subrange(0, k) =~= s);
    }
}

proof fn lemma_decimal_nonneg(s: Seq<u8>)
    requires
        all_digits(s),
    ensures
        decimal_value(s) >= 0,
    decreases s.len(),
{
    if s.len() > 0 {
        lemma_decimal_nonneg(s.drop_last());
    }
}

pub fn parse_u64(word: &Vec<u8>) -> (r: Option<u64>)
    ensures
        r == spec_parse_u64(word@),
{
    let n = word.len();
    if n == 0 {
        return None;
    }
    let mut value: u64 = 0;
    let mut k: usize = 0;
    while k < n
        invariant
            k <= n,
            n == word@.len(),
            n > 0,
            all_digits(word@.subrange(0, k as int)),
            value == decimal_value(word@.subrange(0, k as int)),
        decreases n - k,
    {
        let b = word[k];
        let ghost t = word@.subrange(0, k + 1);
        assert(t.drop_last() =~= word@.subrange(0, k as int));
        if b < 48 || b > 57 {
            assert(!all_digits(word@));
            return None;
        }
        let digit = (b - 48) as u64;
        if value > (u64::MAX - digit) / 10 {
            proof {
                assert(all_digits(t));
                if all_digits(word@) {
                    lemma_decimal_monotone(word@, k + 1);
                }
            }
            return None;
        }
        value = value * 10 + digit;
        k = k + 1;
    }
    assert(word@.subrange(0, n as int) =~= word@);
    Some(value)
}

/// `uci`
pub open spec fn word_uci() -> Seq<u8> {
    seq![117u8, 99, 105]
}

/// `isready`
pub open spec fn word_isready() -> Seq<u8> {
    seq![105u8, 115, 114, 101, 97, 100, 121]
}

/// `position`
pub open spec fn word_position() -> Seq<u8> {
    seq![112u8, 111, 115, 105, 116, 105, 111, 110]
}

/// `go`
pub open spec fn word_go() -> Seq<u8> {
    seq![103u8, 111]
}

/// `quit`
pub open spec fn word_quit() -> Seq<u8> {
    seq![113u8, 117, 105, 116]
}

/// `nodes`
pub open spec fn word_nodes() -> Seq<u8> {
    seq![110u8, 111, 100, 101, 115]
}

/// `startpos`
pub open spec fn word_startpos() -> Seq<u8> {
    seq![115u8, 116, 97, 114, 116, 112, 111, 115]
}

/// `fen`
pub open spec fn word_fen() -> Seq<u8> {
    seq![102u8, 101, 110]
}

/// `moves`
pub open spec fn word_moves() -> Seq<u8> {
    seq![109u8, 111, 118, 101, 115]
}

/// The index of the first `moves` word at or after `k`, or the number of
/// words when there is none.
pub open spec fn fen_end(w: Seq<Seq<u8>>, k: int) -> int
    decreases w.len() - k,
{
    if k >= w.len() {
        w.len() as int
    } else if w[k] == word_moves() {
        k
    } else {
        fen_end(w, k + 1)
    }
}

/// The words joined by single spaces.
pub open spec fn join_words(w: Seq<Seq<u8>>) -> Seq<u8>
    decreases w.len(),
{
    if w.len() == 0 {
        Seq::empty()
    } else if w.len() == 1 {
        w[0]
    } else {
        join_words(w.drop_last()) + seq![32u8] + w.last()
    }
}

/// The move words of a `position` command: those after a `moves` word at
/// index `k`, none when there is no `moves` word there.
pub open spec fn moves_after(w: Seq<Seq<u8>>, k: int) -> Seq<Seq<u8>> {
    if 0 <= k < w.len() && w[k] == word_moves() {
        w.subrange(k + 1, w.len() as int)
    } else {
        Seq::empty()
    }
}

/// What the words of a `position` command set up: the FEN to start from
/// (`None` for the initial position, which also stands in for a FEN that
/// does not parse and for a command that names neither `startpos` nor
/// `fen`) and the move words to play from it.
pub open spec fn position_request(w: Seq<Seq<u8>>) -> (Option<Seq<u8>>, Seq<Seq<u8>>) {
    if w.len() >= 2 && w[1] == word_startpos() {
        (None, moves_after(w, 2))
    } else if w.len() >= 2 && w[1] == word_fen() {
        let fen = join_words(w.subrange(2, fen_end(w, 2)));
        (
            if valid_fen(fen) {
                Some(fen)
            } else {
                None
            },
            moves_after(w, fen_end(w, 2)),
        )
    } else {
        (None, moves_after(w, 1))
    }
}

/// A copy of a word.
fn copy_bytes(v: &Vec<u8>) -> (r: Vec<u8>)
    ensures
        r@ == v@,
{
    let mut out: Vec<u8> = Vec::new();
    let mut c: usize = 0;
    while c < v.len()
        invariant
            c <= v@.len(),
            out@ == v@.subrange(0, c as int),
        decreases v@.len() - c,
    {
        out.push(v[c]);
        c = c + 1;
        assert(out@ =~= v@.subrange(0, c as int));
    }
    assert(v@.subrange(0, v@.len() as int) =~= v@);
    out
}

/// A copy of the words from index `from` on.
fn copy_words(w: &Vec<Vec<u8>>, from: usize) -> (r: Vec<Vec<u8>>)
    requires
        from <= w@.len(),
    ensures
        deep(r@) == deep(w@).subrange(from as int, w@.len() as int),
{
    let mut out: Vec<Vec<u8>> = Vec::new();
    let mut k = from;
    while k < w.len()
        invariant
            from <= k <= w@.len(),
            deep(out@) == deep(w@).subrange(from as int, k as int),
        decreases w@.len() - k,
    {
        let word = copy_bytes(&w[k]);
        proof {
            lemma_deep_push(out@, word);
        }
        out.push(word);
        k = k + 1;
        assert(deep(out@) =~= deep(w@).subrange(from as int, k as int));
    }
    out
}

fn same_bytes(a: &[u8], b: &[u8]) -> (r: bool)
    ensures
        r == (a@ == b@),
{
    if a.len() != b.len() {
        return false;
    }
    let mut k: usize = 0;
    while k < a.len()
        invariant
            a@.len() == b@.len(),
            k <= a@.len(),
            forall|j: int| 0 <= j < k ==> a@[j] == b@[j],
        decreases a@.len() - k,
    {
        if a[k] != b[k] {
            return false;
        }
        k = k + 1;
    }
    assert(a@ =~= b@);
    true
}

/// The value after the first `key` among the words from index `k` on.
pub open spec fn value_after(w: Seq<Seq<u8>>, key: Seq<u8>, k: int) -> Option<Seq<u8>>
    decreases w.len() - k,
{
    if k + 1 >= w.len() {
        None
    } else if w[k] == key {
        Some(w[k + 1])
    } else {
        value_after(w, key, k + 1)
    }
}

/// A `go` limit: the number after the first `key` word following `go`.
pub open spec fn go_limit(w: Seq<Seq<u8>>, key: Seq<u8>) -> Option<u64> {
    match value_after(w, key, 1) {
        Some(v) => spec_parse_u64(v),
        None => None,
    }
}

fn find_value(w: &Vec<Vec<u8>>, key: &[u8]) -> (r: Option<u64>)
    ensures
        r == match value_after(deep(w@), key@, 1) {
            Some(v) => spec_parse_u64(v),
            None => None,
        },
{
    let n = w.len();
    let mut k: usize = 1;
    while n > 0 && k < n - 1
        invariant
            1 <= k,
            n == w@.len(),
            value_after(deep(w@), key@, k as int) == value_after(deep(w@), key@, 1),
        decreases w@.len() - k,
    {
        if same_bytes(w[k].as_slice(), key) {
            return parse_u64(&w[k + 1]);
        }
        k = k + 1;
    }
    None
}

/// The index of the first legal move, from index `i` on, whose UCI text is
/// `word`; the number of moves when there is none.
pub open spec fn match_index(moves: Seq<(Move, Seq<u8>)>, word: Seq<u8>, i: int) -> int
    decreases moves.len() - i,
{
    if i < 0 || i >= moves.len() {
        moves.len() as int
    } else if move_text(moves[i].0) == word {
        i
    } else {
        match_index(moves, word, i + 1)
    }
}

/// The position (as FEN) reached from `fen` by playing the moves named by
/// the words from index `k` on, each in the position the earlier ones led
/// to; a word that names no legal move there is passed over.
pub open spec fn played(fen: Seq<u8>, w: Seq<Seq<u8>>, k: int) -> Seq<u8>
    decreases w.len() - k,
{
    if k < 0 || k >= w.len() {
        fen
    } else {
        let moves = successors_of(fen);
        let j = match_index(moves, w[k], 0);
        if j < moves.len() {
            played(moves[j].1, w, k + 1)
        } else {
            played(fen, w, k + 1)
        }
    }
}

/// The FEN a set-up starts from: the given one, or the initial position.
pub open spec fn setup_fen(setup: Option<Seq<u8>>) -> Seq<u8> {
    match setup {
        Some(fen) => fen,
        None => start_fen_text(),
    }
}

/// `depth`
pub open spec fn word_depth() -> Seq<u8> {
    seq![100u8, 101, 112, 116, 104]
}

/// The depth a `go` command searches to: its `depth` limit (at most 255);
/// without one, as deep as the budget allows when there is a `nodes` limit,
/// the default depth otherwise.
pub open spec fn go_depth(w: Seq<Seq<u8>>) -> u8 {
    match go_limit(w, word_depth()) {
        Some(d) => if d > 255 {
            255
        } else {
            d as u8
        },
        None => match go_limit(w, word_nodes()) {
            Some(_) => 255,
            None => DEFAULT_DEPTH,
        },
    }
}

/// What a search for the browser or for `go` answers: the nodes it counted
/// and the move it chose, from a fresh searcher over `nnue` with the budget
/// `max_nodes`, searching `fen` to `depth`.
pub open spec fn search_answer(
    nnue: &Nnue,
    max_nodes: Option<u64>,
    fen: Seq<u8>,
    depth: u8,
    nodes: u64,
    best: Option<Move>,
) -> bool {
    exists|start: Searcher, after: Searcher, result: Option<(Move, i32)>|
        #[trigger] witnessed(start, (after, result)) && fresh_searcher(start, nnue, max_nodes) && root_search(
            start,
            after,
            fen,
            depth,
            result,
        ) && nodes == after.spec_nodes() && best == match result {
            Some((mv, _)) => Some(mv),
            None => None,
        }
}

/// The engine's answer to one command line.
pub enum UciReply {
    /// Identify the engine (`id name`, `id author`, `uciok`).
    Identify,
    /// `readyok`.
    ReadyOk,
    /// The result of a search: the nodes it visited and the move it chose
    /// (`None` when the side to move has no legal move).
    BestMove { nodes: u64, best: Option<Move> },
    /// Stop reading commands.
    Quit,
    /// Nothing to print.
    Nothing,
}

/// The default search depth of a `go` without limits.
pub const DEFAULT_DEPTH: u8 = 6;

/// The UCI engine state: its name and author, the evaluator, and the
/// position that the last `position` command set up: its FEN (`None` for the
/// initial position) and the move words to play from it.
pub struct Uci {
    name: &'static str,
    author: &'static str,
    nnue: Nnue,
    setup: Option<Vec<u8>>,
    moves: Vec<Vec<u8>>,
}

impl Uci {
    /// The engine evaluates with weights whose tables have their sizes.
    #[verifier::type_invariant]
    spec fn inv(self) -> bool {
        &&& self.nnue.spec_weights().wf()
        &&& match self.setup {
            Some(fen) => fen_safe(fen@),
            None => true,
        }
    }

    pub closed spec fn spec_name(&self) -> &'static str {
        self.name
    }

    pub closed spec fn spec_author(&self) -> &'static str {
        self.author
    }

    /// The weights the engine evaluates with.
    pub closed spec fn spec_weights(&self) -> NnueWeights {
        self.nnue.spec_weights()
    }

    /// The evaluator the engine searches with.
    pub closed spec fn spec_evaluator(&self) -> Nnue {
        self.nnue
    }

    /// The position that `go` searches: the set-up position after its move
    /// words.
    pub open spec fn spec_board(&self) -> Seq<u8> {
        played(setup_fen(self.spec_setup()), self.spec_moves(), 0)
    }

    /// The FEN of the set-up position, `None` for the initial position.
    pub closed spec fn spec_setup(&self) -> Option<Seq<u8>> {
        match self.setup {
            Some(fen) => Some(fen@),
            None => None,
        }
    }

    /// The move words played from the set-up position.
    pub closed spec fn spec_moves(&self) -> Seq<Seq<u8>> {
        deep(self.moves@)
    }

    /// An engine named "TinyCCRL" by "Hansel", evaluating with `weights`,
    /// set up on the initial position.
    pub fn new(weights: NnueWeights) -> (r: Self)
        requires
            weights.wf(),
        ensures
            r.spec_name()@ == "TinyCCRL"@,
            r.spec_author()@ == "Hansel"@,
            r.spec_weights() == weights,
            r.spec_setup() == None::<Seq<u8>>,
            r.spec_moves() == Seq::<Seq<u8>>::empty(),
    {
        let r = Uci {
            name: "TinyCCRL",
            author: "Hansel",
            nnue: Nnue::new(weights),
            setup: None,
            moves: Vec::new(),
        };
        assert(r.spec_moves() =~= Seq::<Seq<u8>>::empty());
        r
    }

    pub fn name(&self) -> (r: &'static str)
        ensures
            r == self.spec_name(),
    {
        self.name
    }

    pub fn author(&self) -> (r: &'static str)
        ensures
            r == self.spec_author(),
    {
        self.author
    }

    /// Plays the moves named by `w[from..]` (UCI text) on `board` (FEN),
    /// passing over a word that names no legal move.
    fn play_moves(initial: Vec<u8>, w: &Vec<Vec<u8>>, from: usize) -> (r: Vec<u8>)
        requires
            fen_safe(initial@),
        ensures
            r@ == played(initial@, deep(w@), from as int),
            fen_safe(r@),
    {
        let ghost dw = deep(w@);
        let ghost start = initial@;
        let mut board = initial;
        let mut k = from;
        while k < w.len()
            invariant
                dw == deep(w@),
                from <= k,
                played(board@, dw, k as int) == played(start, dw, from as int),
                start == initial@,
                fen_safe(board@),
            decreases w@.len() - k,
        {
            let children = legal_successors(board.as_slice());
            let ghost moves = successors_of(board@);
            assert(dw[k as int] == w@[k as int]@);
            let mut c: usize = 0;
            while c < children.len() && !same_bytes(children[c].0.uci_text().as_slice(), w[k].as_slice())
                invariant
                    k < w@.len(),
                    dw == deep(w@),
                    dw[k as int] == w@[k as int]@,
                    c <= children@.len(),
                    from <= k,
                    moves == successors_of(board@),
                    played(board@, dw, k as int) == played(start, dw, from as int),
                    deep_children(children@) == moves,
                    fen_safe(board@),
                    forall|i: int| 0 <= i < children@.len() ==> names_both_kings((#[trigger] children@[i]).1@),
                    forall|i: int| 0 <= i < children@.len() ==> (#[trigger] children@[i]).0.wf(),
                    match_index(moves, dw[k as int], c as int) == match_index(moves, dw[k as int], 0),
                decreases children@.len() - c,
            {
                assert(deep_children(children@)[c as int] == (children@[c as int].0, children@[c as int].1@));
                c = c + 1;
            }
            if c < children.len() {
                assert(deep_children(children@)[c as int] == (children@[c as int].0, children@[c as int].1@));
                proof {
                    lemma_both_kings_safe(children@[c as int].1@);
                }
                board = copy_bytes(&children[c].1);
            } else {
                assert(match_index(moves, dw[k as int], c as int) == moves.len());
                assert(played(board@, dw, k as int) == played(board@, dw, k + 1));
            }
            k = k + 1;
        }
        board
    }

    /// `position startpos [moves ...]` or `position fen <fen> [moves ...]`:
    /// records the position and the move words. A FEN that does not parse,
    /// or a command that names neither, sets up the initial position.
    fn set_position(&mut self, w: &Vec<Vec<u8>>)
        ensures
            final(self).spec_name() == old(self).spec_name(),
            final(self).spec_author() == old(self).spec_author(),
            final(self).spec_weights() == old(self).spec_weights(),
            final(self).spec_setup() == position_request(deep(w@)).0,
            final(self).spec_moves() == position_request(deep(w@)).1,
    {
        proof {
            use_type_invariant(&*self);
        }
        let ghost dw = deep(w@);
        let mut setup: Option<Vec<u8>> = None;
        let mut idx: usize = 1;
        if w.len() >= 2 && same_bytes(w[1].as_slice(), &[115u8, 116, 97, 114, 116, 112, 111, 115]) {
            assert(dw[1] == w@[1]@);
            assert(dw[1] == word_startpos());
            idx = 2;
        } else if w.len() >= 2 && same_bytes(w[1].as_slice(), &[102u8, 101, 110]) {
            assert(dw[1] == w@[1]@);
            assert(dw[1] == word_fen());
            assert(dw[1] != word_startpos());
            let mut k: usize = 2;
            let mut fen: Vec<u8> = Vec::new();
            assert(dw.subrange(2, 2) =~= Seq::<Seq<u8>>::empty());
            while k < w.len() && !same_bytes(w[k].as_slice(), &[109u8, 111, 118, 101, 115])
                invariant
                    2 <= k <= w@.len(),
                    dw == deep(w@),
                    fen_end(dw, k as int) == fen_end(dw, 2),
                    fen@ == join_words(dw.subrange(2, k as int)),
                decreases w@.len() - k,
            {
                assert(dw[k as int] == w@[k as int]@);
                if k > 2 {
                    fen.push(32);
                }
                let ghost before = fen@;
                let mut c: usize = 0;
                while c < w[k].len()
                    invariant
                        2 <= k < w@.len(),
                        c <= w@[k as int]@.len(),
                        fen@ == before + w@[k as int]@.subrange(0, c as int),
                    decreases w@[k as int]@.len() - c,
                {
                    fen.push(w[k][c]);
                    c = c + 1;
                    assert(fen@ =~= before + w@[k as int]@.subrange(0, c as int));
                }
                proof {
                    let s = dw.subrange(2, k + 1);
                    assert(s.drop_last() =~= dw.subrange(2, k as int));
                    assert(w@[k as int]@.subrange(0, c as int) =~= w@[k as int]@);
                    assert(fen@ =~= join_words(s));
                }
                k = k + 1;
            }
            proof {
                if k < w@.len() {
                    assert(dw[k as int] == w@[k as int]@);
                }
            }
            assert(k as int == fen_end(dw, 2));
            if fen_is_valid(fen.as_slice()) {
                setup = Some(fen);
            }
            idx = k;
        } else {
            assert(w@.len() >= 2 ==> dw[1] == w@[1]@);
        }
        let moves = if idx < w.len() && same_bytes(w[idx].as_slice(), &[109u8, 111, 118, 101, 115]) {
            assert(dw[idx as int] == w@[idx as int]@);
            copy_words(w, idx + 1)
        } else {
            proof {
                if idx < w@.len() {
                    assert(dw[idx as int] == w@[idx as int]@);
                }
            }
            Vec::new()
        };
        self.setup = setup;
        self.moves = moves;
        assert(self.spec_moves() =~= position_request(dw).1);
    }

    /// Handles one command line. `uci`, `isready` and `quit` are answered
    /// directly; `position` records the position to search; `go [nodes N] [depth D]`
    /// searches it (to depth `D`, or until `N` nodes, or to the default depth
    /// when neither is given); anything else is ignored.
    pub fn handle_line(&mut self, line: &[u8]) -> (r: UciReply)
        ensures
            words(line@).len() == 0 ==> r is Nothing,
            words(line@).len() > 0 && words(line@)[0] == word_uci() ==> r is Identify,
            words(line@).len() > 0 && words(line@)[0] == word_isready() ==> r is ReadyOk,
            words(line@).len() > 0 && words(line@)[0] == word_quit() ==> r is Quit,
            words(line@).len() > 0 && words(line@)[0] == word_position() ==> r is Nothing,
            final(self).spec_name() == old(self).spec_name(),
            final(self).spec_author() == old(self).spec_author(),
            final(self).spec_weights() == old(self).spec_weights(),
            words(line@).len() > 0 && words(line@)[0] == word_position() ==> final(self).spec_setup()
                == position_request(words(line@)).0 && final(self).spec_moves() == position_request(
                words(line@),
            ).1,
            !(words(line@).len() > 0 && words(line@)[0] == word_position()) ==> final(self).spec_setup()
                == old(self).spec_setup(),
            !(words(line@).len() > 0 && words(line@)[0] == word_position()) ==> final(self).spec_moves()
                == old(self).spec_moves(),
            words(line@).len() > 0 && words(line@)[0] == word_go() ==> r is BestMove,
            words(line@).len() > 0 && words(line@)[0] == word_go() ==> (r matches UciReply::BestMove {
                nodes,
                best,
            } && (go_limit(words(line@), word_nodes()) matches Some(max) ==> nodes <= max) && (
            best matches Some(mv) ==> mv.wf()) && (best is None <==> successors_of(
                old(self).spec_board(),
            ).len() == 0) && (best matches Some(mv) ==> exists|i: int|
                0 <= i < successors_of(old(self).spec_board()).len() && successors_of(
                    old(self).spec_board(),
                )[i].0 == mv) && search_answer(
                &old(self).spec_evaluator(),
                go_limit(words(line@), word_nodes()),
                old(self).spec_board(),
                go_depth(words(line@)),
                nodes,
                best,
            )),
            words(line@).len() > 0 && words(line@)[0] != word_uci() && words(line@)[0]
                != word_isready() && words(line@)[0] != word_quit() && words(line@)[0]
                != word_position() && words(line@)[0] != word_go() ==> r is Nothing,
    {
        let w = split_words(line);
        if w.len() == 0 {
            return UciReply::Nothing;
        }
        assert(deep(w@)[0] == w@[0]@);
        if same_bytes(w[0].as_slice(), &[117u8, 99, 105]) {
            assert(w@[0]@ == word_uci());
            return UciReply::Identify;
        }
        if same_bytes(w[0].as_slice(), &[105u8, 115, 114, 101, 97, 100, 121]) {
            assert(w@[0]@ == word_isready());
            return UciReply::ReadyOk;
        }
        if same_bytes(w[0].as_slice(), &[113u8, 117, 105, 116]) {
            assert(w@[0]@ == word_quit());
            return UciReply::Quit;
        }
        if same_bytes(w[0].as_slice(), &[112u8, 111, 115, 105, 116, 105, 111, 110]) {
            assert(w@[0]@ == word_position());
            self.set_position(&w);
            return UciReply::Nothing;
        }
        if same_bytes(w[0].as_slice(), &[103u8, 111]) {
            assert(w@[0]@ == word_go());
            let nodes_limit = find_value(&w, &[110u8, 111, 100, 101, 115]);
            let depth_limit = find_value(&w, &[100u8, 101, 112, 116, 104]);
            let depth: u8 = match depth_limit {
                Some(d) => if d > 255 { 255 } else { d as u8 },
                None => match nodes_limit {
                    Some(_) => 255,
                    None => DEFAULT_DEPTH,
                },
            };
            proof {
                use_type_invariant(&*self);
            }
            assert(depth == go_depth(deep(w@)));
            let mut searcher = Searcher::new(&self.nnue);
            if let Some(max) = nodes_limit {
                searcher = searcher.with_max_nodes(max);
            }
            let ghost fresh = searcher;
            assert(fresh_searcher(fresh, &self.nnue, nodes_limit));
            let base = match &self.setup {
                Some(fen) => copy_bytes(fen),
                None => start_fen(),
            };
            assert(base@ == setup_fen(self.spec_setup()));
            proof {
                if self.setup is None {
                    lemma_both_kings_safe(base@);
                }
            }
            let board = Self::play_moves(base, &self.moves, 0);
            assert(board@ == self.spec_board());
            let best = searcher.best_move(board.as_slice(), depth);
            let nodes = searcher.nodes();
            let mv = match best {
                Some((mv, _)) => Some(mv),
                None => None,
            };
            assert(witnessed(fresh, (searcher, best)));
            assert(search_answer(&self.nnue, nodes_limit, board@, depth, nodes, mv));
            return UciReply::BestMove { nodes, best: mv };
        }
        assert(w@[0]@ != word_uci());
        UciReply::Nothing
    }
}

/// The position a browser search starts from: the FEN when it parses, the
/// initial position otherwise.
pub open spec fn browser_board(fen: Seq<u8>) -> Seq<u8> {
    if valid_fen(fen) {
        fen
    } else {
        start_fen_text()
    }
}

/// A search for a browser front end: the best move of the position given as
/// FEN (the initial position when the FEN does not parse) searched to
/// `depth`, as UCI text: one of the position's legal moves, or `e2e4` when
/// it has none.
pub fn best_move_text(nnue: &Nnue, fen: &[u8], depth: u8) -> (r: Vec<u8>)
    requires
        nnue.spec_weights().wf(),
    ensures
        successors_of(browser_board(fen@)).len() == 0 ==> r@ == seq![101u8, 50, 101, 52],
        successors_of(browser_board(fen@)).len() > 0 ==> exists|i: int|
            0 <= i < successors_of(browser_board(fen@)).len() && r@ == move_text(
                successors_of(browser_board(fen@))[i].0,
            ),
        exists|nodes: u64, best: Option<Move>|
            #[trigger] witnessed(nodes, best) && search_answer(nnue, None, browser_board(fen@), depth, nodes, best)
                && r@ == match best {
                Some(mv) => move_text(mv),
                None => seq![101u8, 50, 101, 52],
            },
{
    let board = if fen_is_valid(fen) {
        let mut copy: Vec<u8> = Vec::new();
        let mut k: usize = 0;
        while k < fen.len()
            invariant
                k <= fen@.len(),
                copy@ == fen@.subrange(0, k as int),
            decreases fen@.len() - k,
        {
            copy.push(fen[k]);
            k = k + 1;
            assert(copy@ =~= fen@.subrange(0, k as int));
        }
        assert(fen@.subrange(0, fen@.len() as int) =~= fen@);
        copy
    } else {
        let start = start_fen();
        proof {
            lemma_both_kings_safe(start@);
        }
        start
    };
    let mut searcher = Searcher::new(nnue);
    let ghost fresh = searcher;
    let best = searcher.best_move(board.as_slice(), depth);
    let ghost mv = match best {
        Some((m, _)) => Some(m),
        None => None,
    };
    assert(witnessed(fresh, (searcher, best)));
    assert(search_answer(nnue, None, board@, depth, searcher.spec_nodes(), mv));
    assert(witnessed(searcher.spec_nodes(), mv));
    match best {
        Some((mv, _)) => mv.uci_text(),
        None => {
            let mut text: Vec<u8> = Vec::new();
            text.push(101);
            text.push(50);
            text.push(101);
            text.push(52);
            assert(text@ =~= seq![101u8, 50, 101, 52]);
            text
        },
    }
}

/// Law: `position startpos moves m1 ... mk` sets up the initial position
/// with exactly the move words `m1 ... mk`; `position startpos` alone sets up
/// the initial position with none; `position fen <fen> moves m1 ... mk`,
/// its FEN valid and free of the word `moves`, sets up that FEN with
/// exactly `m1 ... mk`.
pub proof fn law_position_move_words(w: Seq<Seq<u8>>, k: int)
    ensures
        w.len() >= 3 && w[1] == word_startpos() && w[2] == word_moves() ==> position_request(w)
            == (None::<Seq<u8>>, w.subrange(3, w.len() as int)),
        w.len() == 2 && w[1] == word_startpos() ==> position_request(w) == (
            None::<Seq<u8>>,
            Seq::<Seq<u8>>::empty(),
        ),
        2 < k < w.len() && w[1] == word_fen() && w[k] == word_moves() && (forall|j: int|
            2 <= j < k ==> #[trigger] w[j] != word_moves()) && valid_fen(join_words(w.subrange(2, k)))
            ==> position_request(w) == (Some(join_words(w.subrange(2, k))), w.subrange(k + 1, w.len() as int)),
{
    if 2 < k < w.len() && w[1] == word_fen() && w[k] == word_moves() && (forall|j: int|
        2 <= j < k ==> #[trigger] w[j] != word_moves()) {
        lemma_fen_end(w, 2, k);
    }
}

proof fn lemma_fen_end(w: Seq<Seq<u8>>, i: int, k: int)
    requires
        0 <= i <= k < w.len(),
        w[k] == word_moves(),
        forall|j: int| i <= j < k ==> #[trigger] w[j] != word_moves(),
    ensures
        fen_end(w, i) == k,
    decreases k - i,
{
    if i < k {
        lemma_fen_end(w, i + 1, k);
    }
}

/// A word: at least one byte, none of them whitespace.
pub open spec fn is_word(w: Seq<u8>) -> bool {
    w.len() > 0 && forall|k: int| 0 <= k < w.len() ==> !is_space(#[trigger] w[k])
}

/// Law: the words of a line are non-empty and hold no whitespace.
pub proof fn law_words_are_words(s: Seq<u8>)
    ensures
        forall|k: int| 0 <= k < words(s).len() ==> is_word(#[trigger] words(s)[k]),
{
    lemma_words_from_are_words(s, 0, Seq::empty());
}

proof fn lemma_words_from_are_words(s: Seq<u8>, i: int, cur: Seq<u8>)
    requires
        forall|k: int| 0 <= k < cur.len() ==> !is_space(#[trigger] cur[k]),
    ensures
        forall|k: int| 0 <= k < words_from(s, i, cur).len() ==> is_word(#[trigger] words_from(s, i, cur)[k]),
    decreases s.len() - i,
{
    if cur.len() > 0 {
        assert(is_word(cur));
        assert(flush(cur) =~= seq![cur]);
    } else {
        assert(flush(cur) =~= Seq::<Seq<u8>>::empty());
    }
    if i >= s.len() {
        assert(words_from(s, i, cur) == flush(cur));
    } else if is_space(s[i]) {
        lemma_words_from_are_words(s, i + 1, Seq::empty());
        let a = flush(cur);
        let b = words_from(s, i + 1, Seq::empty());
        assert(words_from(s, i, cur) == a + b);
        assert forall|k: int| 0 <= k < (a + b).len() implies is_word(#[trigger] (a + b)[k]) by {
            if k < a.len() {
                assert((a + b)[k] == a[k]);
            } else {
                assert((a + b)[k] == b[k - a.len()]);
            }
        }
    } else {
        let next = cur.push(s[i]);
        assert forall|k: int| 0 <= k < next.len() implies !is_space(#[trigger] next[k]) by {
            if k < cur.len() {
                assert(next[k] == cur[k]);
            }
        }
        lemma_words_from_are_words(s, i + 1, next);
        assert(words_from(s, i, cur) == words_from(s, i + 1, next));
    }
}

/// Law: appending a digit to a number multiplies it by ten and adds the
/// digit, while the result fits in a `u64`; a word holding a non-digit is no
/// number.
pub proof fn law_parse_digit_appended(s: Seq<u8>, d: u8, v: u64)
    ensures
        spec_parse_u64(s) == Some(v) && 48 <= d <= 57 && v * 10 + (d - 48) <= u64::MAX ==> spec_parse_u64(
            s.push(d),
        ) == Some((v * 10 + (d - 48)) as u64),
        (exists|k: int| 0 <= k < s.len() && !(48 <= #[trigger] s[k] <= 57)) ==> spec_parse_u64(s) is None,
{
    if spec_parse_u64(s) == Some(v) && 48 <= d <= 57 && v * 10 + (d - 48) <= u64::MAX {
        let t = s.push(d);
        assert(t.drop_last() =~= s);
        assert(t.last() == d);
        lemma_decimal_nonneg(s);
        assert(decimal_value(t) == decimal_value(s) * 10 + (d - 48));
        assert forall|k: int| 0 <= k < t.len() implies 48 <= #[trigger] t[k] <= 57 by {
            if k < s.len() {
                assert(t[k] == s[k]);
            }
        }
    }
}

} // verus!
