//! Forsyth–Edwards Notation: reading and writing positions.
use vstd::prelude::*;
use super::bitboard::lemma_zero_all;
use super::board::{Board, holds, holds_color, lemma_board_ext};
use super::types::{CastlingRights, Color, Piece, PieceType, Square, spec_from_char, spec_piece_char,
    spec_parse_square, spec_square_chars, spec_castling_chars, opt_char, lemma_piece_char_roundtrip};
use crate::text::{words, split_on, split_words, split_chars, views, is_digit, digit_value, digit_char, dec_chars,
    is_word, is_ws, lemma_digit_char, pieces_from, lemma_dec_chars, lemma_parse_dec, lemma_words_six,
    spec_parse_u32, parse_u32, push_str, push_dec, str_chars, digit_to_char};
use crate::utils::string_from_chars;

verus! {

// ── Errors ────────────────────────────────────────────────────────────────────

#[derive(Debug, Clone, PartialEq, Eq)]
pub enum FenError {
    WrongFieldCount,
    InvalidPiecePlacement(String),
    InvalidSideToMove,
    InvalidCastling,
    InvalidEnPassant,
    InvalidHalfMoveClock,
    InvalidFullMoveNumber,
}

impl FenError {
    /// Which of the six fields (or the field count, `0`) the error is about.
    pub open spec fn code(&self) -> int {
        match self {
            FenError::WrongFieldCount => 0,
            FenError::InvalidPiecePlacement(_) => 1,
            FenError::InvalidSideToMove => 2,
            FenError::InvalidCastling => 3,
            FenError::InvalidEnPassant => 4,
            FenError::InvalidHalfMoveClock => 5,
            FenError::InvalidFullMoveNumber => 6,
        }
    }

    /// The human-readable description of the error.
    pub fn message(&self) -> (m: String)
        ensures
            m@ == fen_error_text(*self),
    {
        let mut v: Vec<char> = Vec::new();
        match self {
            FenError::WrongFieldCount => push_str(&mut v, "FEN must have exactly 6 space-separated fields"),
            FenError::InvalidPiecePlacement(s) => {
                push_str(&mut v, "invalid piece placement: ");
                push_str(&mut v, s.as_str());
            },
            FenError::InvalidSideToMove => push_str(&mut v, "side to move must be 'w' or 'b'"),
            FenError::InvalidCastling => push_str(&mut v, "invalid castling availability field"),
            FenError::InvalidEnPassant => push_str(&mut v, "invalid en-passant square"),
            FenError::InvalidHalfMoveClock => push_str(&mut v, "invalid half-move clock"),
            FenError::InvalidFullMoveNumber => push_str(&mut v, "invalid full-move number"),
        }
        proof {
            assert(Seq::<char>::empty() + "FEN must have exactly 6 space-separated fields"@
                =~= "FEN must have exactly 6 space-separated fields"@);
            assert(Seq::<char>::empty() + "side to move must be 'w' or 'b'"@ =~= "side to move must be 'w' or 'b'"@);
            assert(Seq::<char>::empty() + "invalid castling availability field"@ =~= "invalid castling availability field"@);
            assert(Seq::<char>::empty() + "invalid en-passant square"@ =~= "invalid en-passant square"@);
            assert(Seq::<char>::empty() + "invalid half-move clock"@ =~= "invalid half-move clock"@);
            assert(Seq::<char>::empty() + "invalid full-move number"@ =~= "invalid full-move number"@);
            assert(Seq::<char>::empty() + "invalid piece placement: "@ =~= "invalid piece placement: "@);
        }
        string_from_chars(v)
    }
}

pub open spec fn fen_error_text(e: FenError) -> Seq<char> {
    match e {
        FenError::WrongFieldCount => "FEN must have exactly 6 space-separated fields"@,
        FenError::InvalidPiecePlacement(s) => "invalid piece placement: "@ + s@,
        FenError::InvalidSideToMove => "side to move must be 'w' or 'b'"@,
        FenError::InvalidCastling => "invalid castling availability field"@,
        FenError::InvalidEnPassant => "invalid en-passant square"@,
        FenError::InvalidHalfMoveClock => "invalid half-move clock"@,
        FenError::InvalidFullMoveNumber => "invalid full-move number"@,
    }
}

// ── Reading: the model ────────────────────────────────────────────────────────

pub open spec fn empty_mailbox() -> Seq<Option<Piece>> {
    Seq::new(64, |i: int| None)
}

pub open spec fn sections_msg() -> Seq<char> {
    "expected 8 rank sections separated by '/'"@
}

pub open spec fn unknown_piece_msg(ch: char) -> Seq<char> {
    "unknown piece '"@ + seq![ch] + "'"@
}

pub open spec fn file_overflow_msg(rank: int) -> Seq<char> {
    "file overflow on rank "@ + dec_chars((rank + 1) as nat)
}

pub open spec fn rank_width_msg(rank: int, file: u8) -> Seq<char> {
    "rank "@ + dec_chars((rank + 1) as nat) + " has "@ + dec_chars(file as nat) + " files, expected 8"@
}

/// Places the pieces of one rank section, from its `j`-th character on, with the
/// file counter at `file` (an 8-bit counter that wraps around).
pub open spec fn place_rank(r: Seq<char>, rank: int, j: int, file: u8, mb: Seq<Option<Piece>>) -> Result<
    Seq<Option<Piece>>,
    Seq<char>,
>
    decreases r.len() - j,
{
    if j >= r.len() {
        if file == 8 {
            Ok(mb)
        } else {
            Err(rank_width_msg(rank, file))
        }
    } else if is_digit(r[j]) {
        place_rank(r, rank, j + 1, ((file + digit_value(r[j])) % 256) as u8, mb)
    } else {
        match spec_from_char(r[j]) {
            None => Err(unknown_piece_msg(r[j])),
            Some(cp) => if file >= 8 {
                Err(file_overflow_msg(rank))
            } else {
                place_rank(
                    r,
                    rank,
                    j + 1,
                    (file + 1) as u8,
                    mb.update(rank * 8 + file, Some(Piece { color: cp.0, piece_type: cp.1 })),
                )
            },
        }
    }
}

/// Places the rank sections `k..8` (section `k` is rank `7 - k`).
pub open spec fn place_ranks(ranks: Seq<Seq<char>>, k: int, mb: Seq<Option<Piece>>) -> Result<
    Seq<Option<Piece>>,
    Seq<char>,
>
    decreases 8 - k,
{
    if k >= 8 {
        Ok(mb)
    } else {
        match place_rank(ranks[k], 7 - k, 0, 0, mb) {
            Ok(m) => place_ranks(ranks, k + 1, m),
            Err(e) => Err(e),
        }
    }
}

/// The squares described by the piece-placement field, or the reason it is refused.
pub open spec fn fen_placement(f: Seq<char>) -> Result<Seq<Option<Piece>>, Seq<char>> {
    let ranks = split_on(f, '/');
    if ranks.len() != 8 {
        Err(sections_msg())
    } else {
        place_ranks(ranks, 0, empty_mailbox())
    }
}

pub open spec fn fen_side(f: Seq<char>) -> Option<Color> {
    if f == seq!['w'] {
        Some(Color::White)
    } else if f == seq!['b'] {
        Some(Color::Black)
    } else {
        None
    }
}

pub open spec fn castling_from(f: Seq<char>, i: int, acc: u8) -> Option<u8>
    decreases f.len() - i,
{
    if i >= f.len() {
        Some(acc)
    } else if f[i] == 'K' {
        castling_from(f, i + 1, acc | 1)
    } else if f[i] == 'Q' {
        castling_from(f, i + 1, acc | 2)
    } else if f[i] == 'k' {
        castling_from(f, i + 1, acc | 4)
    } else if f[i] == 'q' {
        castling_from(f, i + 1, acc | 8)
    } else {
        None
    }
}

/// Castling bits of the castling field: `-`, or any sequence of `K`, `Q`, `k`, `q`.
pub open spec fn fen_castling(f: Seq<char>) -> Option<u8> {
    if f == seq!['-'] {
        Some(0)
    } else {
        castling_from(f, 0, 0)
    }
}

/// En-passant field: `-` or a square name.
pub open spec fn fen_ep(f: Seq<char>) -> Option<Option<Square>> {
    if f == seq!['-'] {
        Some(None)
    } else {
        match spec_parse_square(f) {
            Some(sq) => Some(Some(sq)),
            None => None,
        }
    }
}

/// The position a FEN string describes (squares, side, castling bits, en-passant
/// target, half-move clock, full-move number), or the code of the first field
/// found wrong (with the placement message for code 1).
pub open spec fn spec_fen(s: Seq<char>) -> Result<
    (Seq<Option<Piece>>, Color, u8, Option<Square>, u32, u32),
    (int, Seq<char>),
> {
    let w = words(s);
    if w.len() != 6 {
        Err((0, seq![]))
    } else {
        match fen_placement(w[0]) {
            Err(m) => Err((1, m)),
            Ok(mb) => match fen_side(w[1]) {
                None => Err((2, seq![])),
                Some(side) => match fen_castling(w[2]) {
                    None => Err((3, seq![])),
                    Some(cr) => match fen_ep(w[3]) {
                        None => Err((4, seq![])),
                        Some(ep) => match spec_parse_u32(w[4]) {
                            None => Err((5, seq![])),
                            Some(half) => match spec_parse_u32(w[5]) {
                                None => Err((6, seq![])),
                                Some(full) => Ok((mb, side, cr, ep, half, full)),
                            },
                        },
                    },
                },
            },
        }
    }
}

// ── Reading: the code ─────────────────────────────────────────────────────────

fn sections_message() -> (m: String)
    ensures
        m@ == sections_msg(),
{
    let mut v: Vec<char> = Vec::new();
    push_str(&mut v, "expected 8 rank sections separated by '/'");
    proof {
        assert(Seq::<char>::empty() + sections_msg() =~= sections_msg());
    }
    string_from_chars(v)
}

fn unknown_piece_message(ch: char) -> (m: String)
    ensures
        m@ == unknown_piece_msg(ch),
{
    let mut v: Vec<char> = Vec::new();
    push_str(&mut v, "unknown piece '");
    v.push(ch);
    push_str(&mut v, "'");
    proof {
        assert(Seq::<char>::empty() + "unknown piece '"@ =~= "unknown piece '"@);
    }
    string_from_chars(v)
}

fn file_overflow_message(rank: u8) -> (m: String)
    requires
        rank < 8,
    ensures
        m@ == file_overflow_msg(rank as int),
{
    let mut v: Vec<char> = Vec::new();
    push_str(&mut v, "file overflow on rank ");
    push_dec(&mut v, rank as u32 + 1);
    proof {
        assert(Seq::<char>::empty() + "file overflow on rank "@ =~= "file overflow on rank "@);
    }
    string_from_chars(v)
}

fn rank_width_message(rank: u8, file: u8) -> (m: String)
    requires
        rank < 8,
    ensures
        m@ == rank_width_msg(rank as int, file),
{
    let mut v: Vec<char> = Vec::new();
    push_str(&mut v, "rank ");
    push_dec(&mut v, rank as u32 + 1);
    push_str(&mut v, " has ");
    push_dec(&mut v, file as u32);
    push_str(&mut v, " files, expected 8");
    proof {
        assert(Seq::<char>::empty() + "rank "@ =~= "rank "@);
    }
    string_from_chars(v)
}

/// Places one rank section of the placement field into `mb`.
fn place_rank_section(r: &Vec<char>, rank: u8, mb: &mut [Option<Piece>; 64]) -> (res: Result<(), String>)
    requires
        rank < 8,
    ensures
        match place_rank(r@, rank as int, 0, 0, old(mb)@) {
            Ok(m) => res is Ok && final(mb)@ == m,
            Err(msg) => res matches Err(e) && e@ == msg,
        },
{
    let mut file: u8 = 0;
    let mut j: usize = 0;
    while j < r.len()
        invariant
            rank < 8,
            j <= r.len(),
            mb@.len() == 64,
            place_rank(r@, rank as int, j as int, file, mb@) == place_rank(r@, rank as int, 0, 0, old(mb)@),
        decreases r.len() - j,
    {
        let ch = r[j];
        if '0' <= ch && ch <= '9' {
            let d = (ch as u32 - '0' as u32) as u16;
            file = ((file as u16 + d) % 256) as u8;
        } else {
            match PieceType::from_char(ch) {
                None => {
                    return Err(unknown_piece_message(ch));
                },
                Some((color, pt)) => {
                    if file >= 8 {
                        return Err(file_overflow_message(rank));
                    }
                    let idx = (rank as usize) * 8 + file as usize;
                    mb[idx] = Some(Piece { color, piece_type: pt });
                    file = file + 1;
                },
            }
        }
        j = j + 1;
    }
    if file != 8 {
        return Err(rank_width_message(rank, file));
    }
    Ok(())
}

/// Reads the piece-placement field.
fn parse_placement(f: &Vec<char>) -> (r: Result<[Option<Piece>; 64], String>)
    ensures
        match fen_placement(f@) {
            Ok(m) => r matches Ok(a) && a@ == m,
            Err(msg) => r matches Err(e) && e@ == msg,
        },
{
    let ranks = split_chars(f, '/');
    if ranks.len() != 8 {
        return Err(sections_message());
    }
    let ghost rs = split_on(f@, '/');
    assert(rs.len() == 8);
    let mut mb: [Option<Piece>; 64] = [None; 64];
    proof {
        assert(mb@ =~= empty_mailbox());
    }
    let mut k: usize = 0;
    while k < 8
        invariant
            k <= 8,
            ranks@.len() == 8,
            views(ranks@) == rs,
            rs == split_on(f@, '/'),
            place_ranks(rs, k as int, mb@) == place_ranks(rs, 0, empty_mailbox()),
        decreases 8 - k,
    {
        proof {
            assert(views(ranks@)[k as int] == ranks@[k as int]@);
        }
        let ghost before = mb@;
        let rank: u8 = 7 - k as u8;
        match place_rank_section(&ranks[k], rank, &mut mb) {
            Ok(()) => {},
            Err(e) => {
                proof {
                    assert(place_rank(rs[k as int], 7 - k, 0, 0, before) is Err);
                    assert(place_ranks(rs, k as int, before) == place_rank(rs[k as int], 7 - k, 0, 0, before));
                    assert(rs.len() == 8);
                    assert(fen_placement(f@) == place_ranks(rs, 0, empty_mailbox()));
                }
                return Err(e);
            },
        }
        k = k + 1;
    }
    Ok(mb)
}

/// Reads the castling field.
fn parse_castling(f: &Vec<char>) -> (r: Option<u8>)
    ensures
        r == fen_castling(f@),
{
    if f.len() == 1 && f[0] == '-' {
        proof {
            assert(f@ =~= seq!['-']);
        }
        return Some(0);
    }
    proof {
        if f@ == seq!['-'] {
            assert(f@.len() == 1 && f@[0] == '-');
        }
    }
    let mut acc: u8 = 0;
    let mut i: usize = 0;
    while i < f.len()
        invariant
            i <= f.len(),
            f@ != seq!['-'],
            castling_from(f@, i as int, acc) == castling_from(f@, 0, 0),
        decreases f.len() - i,
    {
        let c = f[i];
        if c == 'K' {
            acc = acc | 1;
        } else if c == 'Q' {
            acc = acc | 2;
        } else if c == 'k' {
            acc = acc | 4;
        } else if c == 'q' {
            acc = acc | 8;
        } else {
            return None;
        }
        i = i + 1;
    }
    Some(acc)
}

/// Reads the en-passant field.
fn parse_ep(f: &Vec<char>) -> (r: Option<Option<Square>>)
    ensures
        r == fen_ep(f@),
{
    if f.len() == 1 && f[0] == '-' {
        proof {
            assert(f@ =~= seq!['-']);
        }
        return Some(None);
    }
    proof {
        if f@ == seq!['-'] {
            assert(f@.len() == 1 && f@[0] == '-');
        }
    }
    match Square::parse_chars(f) {
        Some(sq) => Some(Some(sq)),
        None => None,
    }
}

/// A field of exactly one character `c`.
fn is_single(f: &Vec<char>, c: char) -> (r: bool)
    ensures
        r == (f@ == seq![c]),
{
    if f.len() == 1 && f[0] == c {
        proof {
            assert(f@ =~= seq![c]);
        }
        true
    } else {
        proof {
            if f@ == seq![c] {
                assert(f@.len() == 1 && f@[0] == c);
            }
        }
        false
    }
}

impl Board {
    /// Reads a position in Forsyth–Edwards Notation.
    pub fn from_fen(fen: &str) -> (r: Result<Board, FenError>)
        ensures
            match r {
                Ok(b) => spec_fen(fen@) matches Ok(p) && b.wf() && b.mailbox@ == p.0 && b.side_to_move == p.1
                    && b.castling_rights.0 == p.2 && b.en_passant == p.3 && b.half_move_clock == p.4
                    && b.full_move_number == p.5,
                Err(e) => spec_fen(fen@) matches Err(k) && e.code() == k.0 && (e matches FenError::InvalidPiecePlacement(
                    m,
                ) ==> m@ == k.1),
            },
    {
        let chars = str_chars(fen);
        let fields = split_words(&chars);
        let ghost w = words(fen@);
        if fields.len() != 6 {
            return Err(FenError::WrongFieldCount);
        }
        proof {
            assert(views(fields@)[0] == fields@[0]@);
            assert(views(fields@)[1] == fields@[1]@);
            assert(views(fields@)[2] == fields@[2]@);
            assert(views(fields@)[3] == fields@[3]@);
            assert(views(fields@)[4] == fields@[4]@);
            assert(views(fields@)[5] == fields@[5]@);
        }
        let mb = match parse_placement(&fields[0]) {
            Ok(m) => m,
            Err(msg) => {
                return Err(FenError::InvalidPiecePlacement(msg));
            },
        };
        let side = if is_single(&fields[1], 'w') {
            Color::White
        } else if is_single(&fields[1], 'b') {
            Color::Black
        } else {
            return Err(FenError::InvalidSideToMove);
        };
        let cr = match parse_castling(&fields[2]) {
            Some(c) => c,
            None => {
                return Err(FenError::InvalidCastling);
            },
        };
        let ep = match parse_ep(&fields[3]) {
            Some(e) => e,
            None => {
                return Err(FenError::InvalidEnPassant);
            },
        };
        let half = match parse_u32(&fields[4]) {
            Some(h) => h,
            None => {
                return Err(FenError::InvalidHalfMoveClock);
            },
        };
        let full = match parse_u32(&fields[5]) {
            Some(n) => n,
            None => {
                return Err(FenError::InvalidFullMoveNumber);
            },
        };
        let mut board = Board::empty();
        let mut i: usize = 0;
        while i < 64
            invariant
                i <= 64,
                board.sync(),
                board.keys.wf(),
                forall|s: int| 0 <= s < i ==> board.mailbox@[s] == mb@[s],
                forall|s: int| i <= s < 64 ==> board.mailbox@[s] is None,
            decreases 64 - i,
        {
            match mb[i] {
                Some(p) => {
                    board.put_piece(p, Square(i as u8));
                },
                None => {},
            }
            i = i + 1;
        }
        proof {
            assert(board.mailbox@ =~= mb@);
        }
        board.side_to_move = side;
        board.castling_rights = CastlingRights(cr);
        board.en_passant = ep;
        board.half_move_clock = half;
        board.full_move_number = full;
        proof {
            lemma_castling_from_small(fields@[2]@, 0, 0);
        }
        board.hash = board.compute_hash();
        Ok(board)
    }
}

// ── Writing ───────────────────────────────────────────────────────────────────

/// A run of `run` empty squares, written as its digit (nothing for an empty run).
pub open spec fn run_text(run: int) -> Seq<char> {
    if run > 0 {
        seq![digit_char(run)]
    } else {
        seq![]
    }
}

/// FEN text of rank `rank` from file `file` on, after `run` empty squares.
pub open spec fn rank_text(mb: Seq<Option<Piece>>, rank: int, file: int, run: int) -> Seq<char>
    decreases 8 - file,
{
    if file >= 8 {
        run_text(run)
    } else {
        match mb[rank * 8 + file] {
            None => rank_text(mb, rank, file + 1, run + 1),
            Some(p) => run_text(run) + seq![spec_piece_char(p.piece_type, p.color)] + rank_text(mb, rank, file + 1, 0),
        }
    }
}

/// Ranks `rank` down to 1 of the placement field, separated by `/`.
pub open spec fn placement_text(mb: Seq<Option<Piece>>, rank: int) -> Seq<char>
    decreases rank + 1,
{
    if rank < 0 {
        seq![]
    } else {
        rank_text(mb, rank, 0, 0) + (if rank > 0 { seq!['/'] } else { seq![] }) + placement_text(mb, rank - 1)
    }
}

pub open spec fn side_text(c: Color) -> Seq<char> {
    if c == Color::White {
        seq!['w']
    } else {
        seq!['b']
    }
}

pub open spec fn ep_text(ep: Option<Square>) -> Seq<char> {
    match ep {
        None => seq!['-'],
        Some(sq) => spec_square_chars(sq),
    }
}

/// The FEN text of a board: six fields separated by single spaces.
pub open spec fn fen_text(b: Board) -> Seq<char> {
    placement_text(b.mailbox@, 7) + seq![' '] + side_text(b.side_to_move) + seq![' '] + spec_castling_chars(
        b.castling_rights,
    ) + seq![' '] + ep_text(b.en_passant) + seq![' '] + dec_chars(b.half_move_clock as nat) + seq![' ']
        + dec_chars(b.full_move_number as nat)
}

/// Appends the text of one rank.
fn push_rank(v: &mut Vec<char>, mb: &[Option<Piece>; 64], rank: u8)
    requires
        rank < 8,
    ensures
        final(v)@ == old(v)@ + rank_text(mb@, rank as int, 0, 0),
{
    let mut run: u32 = 0;
    let mut file: u8 = 0;
    while file < 8
        invariant
            rank < 8,
            file <= 8,
            run <= file,
            v@ + rank_text(mb@, rank as int, file as int, run as int) == old(v)@ + rank_text(mb@, rank as int, 0, 0),
        decreases 8 - file,
    {
        let idx = rank as usize * 8 + file as usize;
        match mb[idx] {
            None => {
                run = run + 1;
            },
            Some(p) => {
                let ghost v0 = v@;
                if run > 0 {
                    v.push(digit_to_char(run));
                }
                v.push(p.to_char());
                proof {
                    let rest = rank_text(mb@, rank as int, file + 1, 0);
                    assert(v@ == v0 + run_text(run as int) + seq![spec_piece_char(p.piece_type, p.color)]) by {
                        if run > 0 {
                            assert(v@ =~= v0 + run_text(run as int) + seq![spec_piece_char(p.piece_type, p.color)]);
                        } else {
                            assert(v@ =~= v0 + run_text(run as int) + seq![spec_piece_char(p.piece_type, p.color)]);
                        }
                    }
                    assert(v0 + (run_text(run as int) + seq![spec_piece_char(p.piece_type, p.color)] + rest) =~= v@
                        + rest);
                }
                run = 0;
            },
        }
        file = file + 1;
    }
    if run > 0 {
        v.push(digit_to_char(run));
        proof {
            assert(old(v)@ + rank_text(mb@, rank as int, 0, 0) =~= v@);
        }
    } else {
        proof {
            assert(old(v)@ + rank_text(mb@, rank as int, 0, 0) =~= v@);
        }
    }
}

impl Board {
    /// Writes the position in Forsyth–Edwards Notation.
    pub fn to_fen(&self) -> (s: String)
        requires
            self.wf(),
        ensures
            s@ == fen_text(*self),
    {
        let mut v: Vec<char> = Vec::new();
        let mut rank: u8 = 8;
        while rank > 0
            invariant
                rank <= 8,
                v@ + placement_text(self.mailbox@, rank - 1) == placement_text(self.mailbox@, 7),
            decreases rank,
        {
            rank = rank - 1;
            let ghost v0 = v@;
            push_rank(&mut v, &self.mailbox, rank);
            if rank > 0 {
                v.push('/');
            }
            proof {
                let ghost mb = self.mailbox@;
                let sep: Seq<char> = if rank > 0 { seq!['/'] } else { seq![] };
                assert(v@ =~= v0 + rank_text(mb, rank as int, 0, 0) + sep);
                assert(v0 + placement_text(mb, rank as int) =~= v@ + placement_text(mb, rank - 1));
            }
        }
        proof {
            assert(v@ =~= placement_text(self.mailbox@, 7));
        }
        v.push(' ');
        let side = match self.side_to_move {
            Color::White => 'w',
            Color::Black => 'b',
        };
        v.push(side);
        v.push(' ');
        let cr = self.castling_rights.to_chars();
        let mut i: usize = 0;
        let ghost v1 = v@;
        while i < cr.len()
            invariant
                i <= cr.len(),
                v@ == v1 + cr@.subrange(0, i as int),
            decreases cr.len() - i,
        {
            v.push(cr[i]);
            i = i + 1;
            proof {
                assert(v@ =~= v1 + cr@.subrange(0, i as int));
            }
        }
        proof {
            assert(cr@.subrange(0, cr@.len() as int) =~= cr@);
        }
        v.push(' ');
        match self.en_passant {
            None => {
                v.push('-');
            },
            Some(sq) => {
                v.push(super::types::file_char(sq.file()));
                v.push(super::types::rank_char(sq.rank()));
            },
        }
        v.push(' ');
        push_dec(&mut v, self.half_move_clock);
        v.push(' ');
        push_dec(&mut v, self.full_move_number);
        proof {
            assert(v@ =~= fen_text(*self));
        }
        string_from_chars(v)
    }
}

// ── Starting position ─────────────────────────────────────────────────────────

/// Piece type on file `f` of a back rank: R N B Q K B N R.
pub open spec fn back_rank_type(f: int) -> PieceType {
    if f == 0 || f == 7 {
        PieceType::Rook
    } else if f == 1 || f == 6 {
        PieceType::Knight
    } else if f == 2 || f == 5 {
        PieceType::Bishop
    } else if f == 3 {
        PieceType::Queen
    } else {
        PieceType::King
    }
}

/// Contents of square `s` in the initial position.
pub open spec fn start_square(s: int) -> Option<Piece> {
    let r = s / 8;
    let f = s % 8;
    if r == 0 {
        Some(Piece { color: Color::White, piece_type: back_rank_type(f) })
    } else if r == 1 {
        Some(Piece { color: Color::White, piece_type: PieceType::Pawn })
    } else if r == 6 {
        Some(Piece { color: Color::Black, piece_type: PieceType::Pawn })
    } else if r == 7 {
        Some(Piece { color: Color::Black, piece_type: back_rank_type(f) })
    } else {
        None
    }
}

fn start_square_piece(s: u8) -> (p: Option<Piece>)
    requires
        s < 64,
    ensures
        p == start_square(s as int),
{
    let r = s / 8;
    let f = s % 8;
    let pt = if f == 0 || f == 7 {
        PieceType::Rook
    } else if f == 1 || f == 6 {
        PieceType::Knight
    } else if f == 2 || f == 5 {
        PieceType::Bishop
    } else if f == 3 {
        PieceType::Queen
    } else {
        PieceType::King
    };
    if r == 0 {
        Some(Piece { color: Color::White, piece_type: pt })
    } else if r == 1 {
        Some(Piece { color: Color::White, piece_type: PieceType::Pawn })
    } else if r == 6 {
        Some(Piece { color: Color::Black, piece_type: PieceType::Pawn })
    } else if r == 7 {
        Some(Piece { color: Color::Black, piece_type: pt })
    } else {
        None
    }
}

impl Board {
    /// The initial position of a game (the position of `STARTING_FEN`).
    pub fn starting_position() -> (b: Board)
        ensures
            b.wf(),
            forall|s: int| 0 <= s < 64 ==> b.mailbox@[s] == #[trigger] start_square(s),
            b.side_to_move == Color::White,
            b.castling_rights.0 == 15,
            b.en_passant is None,
            b.half_move_clock == 0,
            b.full_move_number == 1,
            b.valid(),
            b == board_of(start_position()),
    {
        let mut board = Board::empty();
        let mut i: u8 = 0;
        while i < 64
            invariant
                i <= 64,
                board.sync(),
                board.keys.wf(),
                board.side_to_move == Color::White,
                board.en_passant is None,
                board.half_move_clock == 0,
                board.full_move_number == 1,
                forall|s: int| 0 <= s < i ==> board.mailbox@[s] == start_square(s),
                forall|s: int| i <= s < 64 ==> board.mailbox@[s] is None,
            decreases 64 - i,
        {
            match start_square_piece(i) {
                Some(p) => {
                    board.put_piece(p, Square(i));
                },
                None => {},
            }
            i = i + 1;
        }
        board.castling_rights = CastlingRights::all();
        board.hash = board.compute_hash();
        proof {
            assert(board.mailbox@ =~= start_position().0);
            lemma_board_of(board);
            assert(board.mailbox@[4] == start_square(4));
            assert(board.mailbox@[0] == start_square(0));
            assert(board.mailbox@[7] == start_square(7));
            assert(board.mailbox@[56] == start_square(56));
            assert(board.mailbox@[60] == start_square(60));
            assert(board.mailbox@[63] == start_square(63));
        }
        board
    }
}

/// The fields of a position: squares, side to move, castling bits, en-passant
/// target, half-move clock and full-move number.
pub type Position = (Seq<Option<Piece>>, Color, u8, Option<Square>, u32, u32);

/// The position of a board.
pub open spec fn position_of(b: Board) -> Position {
    (b.mailbox@, b.side_to_move, b.castling_rights.0, b.en_passant, b.half_move_clock, b.full_move_number)
}

/// The consistent board holding position `p`.
pub open spec fn board_of(p: Position) -> Board {
    choose|b: Board| b.wf() && position_of(b) == p
}

/// The initial position of a game.
pub open spec fn start_position() -> Position {
    (Seq::new(64, |s: int| start_square(s)), Color::White, 15u8, None, 0u32, 1u32)
}

/// A consistent board is the board of its own position.
pub proof fn lemma_board_of(b: Board)
    requires
        b.wf(),
    ensures
        b == board_of(position_of(b)),
{
    let c = board_of(position_of(b));
    assert(c.wf() && position_of(c) == position_of(b));
    lemma_board_ext(b, c);
}

proof fn lemma_castling_from_small(f: Seq<char>, i: int, acc: u8)
    requires
        acc < 16,
    ensures
        castling_from(f, i, acc) matches Some(c) ==> c < 16,
    decreases f.len() - i,
{
    if i < f.len() {
        assert(acc | 1 < 16 && acc | 2 < 16 && acc | 4 < 16 && acc | 8 < 16) by (bit_vector)
            requires
                acc < 16,
        ;
        lemma_castling_from_small(f, i + 1, acc | 1);
        lemma_castling_from_small(f, i + 1, acc | 2);
        lemma_castling_from_small(f, i + 1, acc | 4);
        lemma_castling_from_small(f, i + 1, acc | 8);
    }
}

// ── Printing a board ──────────────────────────────────────────────────────────

/// The character drawn for the contents of a square.
pub open spec fn square_symbol(p: Option<Piece>) -> char {
    match p {
        Some(piece) => spec_piece_char(piece.piece_type, piece.color),
        None => '.',
    }
}

/// The line drawn between ranks.
pub open spec fn grid_rule() -> Seq<char> {
    "  +---+---+---+---+---+---+---+---+\n"@
}

/// The cells of files `f..8` of rank `r`, each ` x |`.
pub open spec fn grid_cells(mb: Seq<Option<Piece>>, r: int, f: int) -> Seq<char>
    decreases 8 - f,
{
    if f >= 8 {
        Seq::empty()
    } else {
        seq![' ', square_symbol(mb[r * 8 + f]), ' ', '|'] + grid_cells(mb, r, f + 1)
    }
}

/// Ranks `r` down to 1 of the grid, each followed by a rule.
pub open spec fn grid_rows(mb: Seq<Option<Piece>>, r: int) -> Seq<char>
    decreases r + 1,
{
    if r < 0 {
        Seq::empty()
    } else {
        seq![digit_char(r + 1), ' ', '|'] + grid_cells(mb, r, 0) + seq!['\n'] + grid_rule() + grid_rows(mb, r - 1)
    }
}

/// The name of a colour as printed.
pub open spec fn color_name(c: Color) -> Seq<char> {
    if c == Color::White {
        "White"@
    } else {
        "Black"@
    }
}

/// A board drawn as a grid with rank 8 at the top, followed by the side to move,
/// castling rights, en-passant target and move counters.
pub open spec fn board_text(b: Board) -> Seq<char> {
    grid_rule() + grid_rows(b.mailbox@, 7) + "    a   b   c   d   e   f   g   h\n"@ + "\n"@ + "  Side to move : "@
        + color_name(b.side_to_move) + "\n"@ + "  Castling     : "@ + spec_castling_chars(b.castling_rights) + "\n"@
        + "  En passant   : "@ + ep_text(b.en_passant) + "\n  Clocks       : half="@ + dec_chars(
        b.half_move_clock as nat,
    ) + " full="@ + dec_chars(b.full_move_number as nat)
}

fn push_chars(v: &mut Vec<char>, w: &Vec<char>)
    ensures
        final(v)@ == old(v)@ + w@,
{
    let mut i: usize = 0;
    while i < w.len()
        invariant
            i <= w@.len(),
            v@ == old(v)@ + w@.subrange(0, i as int),
        decreases w@.len() - i,
    {
        v.push(w[i]);
        i = i + 1;
        proof {
            assert(v@ =~= old(v)@ + w@.subrange(0, i as int));
        }
    }
    proof {
        assert(w@.subrange(0, w@.len() as int) =~= w@);
    }
}

impl Board {
    /// The board as printed: a grid with rank 8 at the top, then the side to
    /// move, castling rights, en-passant target and move counters.
    pub fn to_text(&self) -> (s: String)
        requires
            self.wf(),
        ensures
            s@ == board_text(*self),
    {
        let ghost mb = self.mailbox@;
        let mut v: Vec<char> = Vec::new();
        push_str(&mut v, "  +---+---+---+---+---+---+---+---+\n");
        let ghost pre = v@;
        proof {
            assert(pre =~= grid_rule());
        }
        let mut r: usize = 8;
        while r > 0
            invariant
                r <= 8,
                mb == self.mailbox@,
                pre + grid_rows(mb, 7) == v@ + grid_rows(mb, r as int - 1),
            decreases r,
        {
            let rank = r - 1;
            let ghost row_start = v@;
            v.push(digit_to_char(r as u32));
            v.push(' ');
            v.push('|');
            let ghost after_label = v@;
            let mut f: usize = 0;
            while f < 8
                invariant
                    f <= 8,
                    rank < 8,
                    mb == self.mailbox@,
                    after_label + grid_cells(mb, rank as int, 0) == v@ + grid_cells(mb, rank as int, f as int),
                decreases 8 - f,
            {
                let sym = match self.mailbox[rank * 8 + f] {
                    Some(p) => p.to_char(),
                    None => '.',
                };
                v.push(' ');
                v.push(sym);
                v.push(' ');
                v.push('|');
                proof {
                    assert(grid_cells(mb, rank as int, f as int) =~= seq![' ', sym, ' ', '|'] + grid_cells(
                        mb,
                        rank as int,
                        f + 1,
                    ));
                }
                f = f + 1;
            }
            v.push('\n');
            push_str(&mut v, "  +---+---+---+---+---+---+---+---+\n");
            proof {
                assert(grid_cells(mb, rank as int, 8) =~= Seq::<char>::empty());
                assert(after_label =~= row_start + seq![digit_char(rank + 1), ' ', '|']);
                assert(grid_rows(mb, rank as int) =~= seq![digit_char(rank + 1), ' ', '|'] + grid_cells(
                    mb,
                    rank as int,
                    0,
                ) + seq!['\n'] + grid_rule() + grid_rows(mb, rank as int - 1));
            }
            r = r - 1;
        }
        push_str(&mut v, "    a   b   c   d   e   f   g   h\n");
        push_str(&mut v, "\n");
        push_str(&mut v, "  Side to move : ");
        push_str(&mut v, self.side_to_move.name());
        push_str(&mut v, "\n");
        push_str(&mut v, "  Castling     : ");
        push_chars(&mut v, &self.castling_rights.to_chars());
        push_str(&mut v, "\n");
        push_str(&mut v, "  En passant   : ");
        match self.en_passant {
            None => push_str(&mut v, "-"),
            Some(sq) => push_chars(&mut v, &sq.to_chars()),
        }
        push_str(&mut v, "\n  Clocks       : half=");
        push_dec(&mut v, self.half_move_clock);
        push_str(&mut v, " full=");
        push_dec(&mut v, self.full_move_number);
        proof {
            assert(grid_rows(mb, -1) =~= Seq::<char>::empty());
            reveal_strlit("-");
            assert(v@ =~= board_text(*self));
        }
        string_from_chars(v)
    }
}

// ── Reading back the written text ─────────────────────────────────────────────

/// A character of the placement field other than the separator: a digit or a
/// piece letter.
pub open spec fn placement_char(c: char) -> bool {
    is_digit(c) || spec_from_char(c) is Some
}

/// The text of a rank holds only digits and piece letters, and is not empty
/// while squares are left or a run is pending.
proof fn lemma_rank_text_chars(mb: Seq<Option<Piece>>, r: int, f: int, run: int)
    requires
        0 <= f <= 8,
        0 <= run <= f,
    ensures
        forall|i: int| 0 <= i < rank_text(mb, r, f, run).len() ==> placement_char(#[trigger] rank_text(mb, r, f, run)[i]),
        run + (8 - f) > 0 ==> rank_text(mb, r, f, run).len() > 0,
    decreases 8 - f,
{
    let t = rank_text(mb, r, f, run);
    if f >= 8 {
        if run > 0 {
            lemma_digit_char(run);
        }
    } else {
        match mb[r * 8 + f] {
            None => {
                lemma_rank_text_chars(mb, r, f + 1, run + 1);
            },
            Some(p) => {
                lemma_rank_text_chars(mb, r, f + 1, 0);
                lemma_piece_char_roundtrip(p.piece_type, p.color);
                if run > 0 {
                    lemma_digit_char(run);
                }
                let head = run_text(run) + seq![spec_piece_char(p.piece_type, p.color)];
                let tail = rank_text(mb, r, f + 1, 0);
                assert(t == head + tail);
                assert forall|i: int| 0 <= i < t.len() implies placement_char(#[trigger] t[i]) by {
                    if i < head.len() {
                        assert(t[i] == head[i]);
                    } else {
                        assert(t[i] == tail[i - head.len()]);
                    }
                }
            },
        }
    }
}

/// The characters of a suffix of `s` are those of `s`.
proof fn lemma_suffix(s: Seq<char>, j: int, t: Seq<char>)
    requires
        0 <= j <= s.len(),
        s.subrange(j, s.len() as int) == t,
    ensures
        s.len() == j + t.len(),
        forall|x: int| j <= x < s.len() ==> #[trigger] s[x] == t[x - j],
{
    assert forall|x: int| j <= x < s.len() implies #[trigger] s[x] == t[x - j] by {
        assert(s.subrange(j, s.len() as int)[x - j] == s[x]);
    }
}

/// `acc` with files `f..8` of rank `r` taken from `mb`.
pub open spec fn with_rank_from(acc: Seq<Option<Piece>>, mb: Seq<Option<Piece>>, r: int, f: int) -> Seq<Option<Piece>> {
    Seq::new(acc.len(), |i: int| if r * 8 + f <= i < r * 8 + 8 { mb[i] } else { acc[i] })
}

/// Reading the text of rank `r` (files `f..8`, after a run of `run` empty files)
/// places its pieces.
proof fn lemma_place_rank_text(s: Seq<char>, mb: Seq<Option<Piece>>, r: int, j: int, f: int, run: int, acc: Seq<Option<Piece>>)
    requires
        0 <= r < 8,
        0 <= run <= f <= 8,
        acc.len() == 64,
        mb.len() == 64,
        0 <= j <= s.len(),
        s.subrange(j, s.len() as int) == rank_text(mb, r, f, run),
        forall|x: int| f - run <= x < 8 ==> (#[trigger] acc[r * 8 + x]) is None,
        forall|x: int| f - run <= x < f ==> (#[trigger] mb[r * 8 + x]) is None,
    ensures
        place_rank(s, r, j, (f - run) as u8, acc) == Ok::<Seq<Option<Piece>>, Seq<char>>(with_rank_from(acc, mb, r, f - run)),
    decreases 8 - f,
{
    let t = rank_text(mb, r, f, run);
    lemma_suffix(s, j, t);
    lemma_suffix(s, j, t);
    if f >= 8 {
        if run > 0 {
            lemma_digit_char(run);
            assert(s[j] == t[0]);
            assert(s.len() == j + 1);
            assert(((f - run) as u8 + digit_value(s[j])) % 256 == 8);
            assert(place_rank(s, r, j + 1, 8u8, acc) == Ok::<Seq<Option<Piece>>, Seq<char>>(acc));
        } else {
            assert(s.len() == j);
        }
        assert(with_rank_from(acc, mb, r, f - run) =~= acc) by {
            assert forall|i: int| 0 <= i < 64 implies #[trigger] with_rank_from(acc, mb, r, f - run)[i] == acc[i] by {
                if r * 8 + f - run <= i < r * 8 + 8 {
                    let x = i - r * 8;
                    assert(acc[r * 8 + x] is None);
                    assert(mb[r * 8 + x] is None);
                }
            }
        }
    } else {
        match mb[r * 8 + f] {
            None => {
                lemma_place_rank_text(s, mb, r, j, f + 1, run + 1, acc);
            },
            Some(p) => {
                let pc = spec_piece_char(p.piece_type, p.color);
                lemma_piece_char_roundtrip(p.piece_type, p.color);
                let k = j + run_text(run).len();
                let tail = rank_text(mb, r, f + 1, 0);
                assert(t == run_text(run) + seq![pc] + tail);
                assert(t.len() == run_text(run).len() + 1 + tail.len());
                assert(t[k - j] == pc);
                if run > 0 {
                    lemma_digit_char(run);
                    assert(s[j] == t[0]);
                    assert(((f - run) as u8 + digit_value(s[j])) % 256 == f);
                    assert(place_rank(s, r, j, (f - run) as u8, acc) == place_rank(s, r, k, f as u8, acc));
                }
                assert(s[k] == t[k - j]);
                assert(s[k] == pc);
                assert(!is_digit(pc));
                let acc2 = acc.update(r * 8 + f, Some(Piece { color: p.color, piece_type: p.piece_type }));
                assert forall|x: int| 0 <= x < tail.len() implies #[trigger] s.subrange(k + 1, s.len() as int)[x]
                    == tail[x] by {
                    assert(s[k + 1 + x] == t[k + 1 + x - j]);
                    assert(t[k + 1 + x - j] == tail[x]);
                }
                assert(s.subrange(k + 1, s.len() as int) =~= tail);
                lemma_place_rank_text(s, mb, r, k + 1, f + 1, 0, acc2);
                assert(place_rank(s, r, k, f as u8, acc) == place_rank(s, r, k + 1, (f + 1) as u8, acc2));
                assert(with_rank_from(acc2, mb, r, f + 1) =~= with_rank_from(acc, mb, r, f - run)) by {
                    assert forall|i: int| 0 <= i < 64 implies #[trigger] with_rank_from(acc2, mb, r, f + 1)[i]
                        == with_rank_from(acc, mb, r, f - run)[i] by {
                        if r * 8 + f - run <= i < r * 8 + f {
                            let x = i - r * 8;
                            assert(acc[r * 8 + x] is None);
                            assert(mb[r * 8 + x] is None);
                        }
                    }
                }
            },
        }
    }
}

/// The rank texts of ranks `r` down to 1, top first.
pub open spec fn rank_texts(mb: Seq<Option<Piece>>, r: int) -> Seq<Seq<char>>
    decreases r + 1,
{
    if r < 0 {
        seq![]
    } else {
        seq![rank_text(mb, r, 0, 0)] + rank_texts(mb, r - 1)
    }
}

proof fn lemma_pieces_run(s: Seq<char>, sep: char, i: int, j: int, cur: Seq<char>, acc: Seq<Seq<char>>)
    requires
        0 <= i <= j <= s.len(),
        forall|x: int| i <= x < j ==> (#[trigger] s[x]) != sep,
    ensures
        pieces_from(s, sep, i, cur, acc) == pieces_from(s, sep, j, cur + s.subrange(i, j), acc),
    decreases j - i,
{
    if i == j {
        assert(cur + s.subrange(i, j) =~= cur);
    } else {
        lemma_pieces_run(s, sep, i + 1, j, cur.push(s[i]), acc);
        assert(cur.push(s[i]) + s.subrange(i + 1, j) =~= cur + s.subrange(i, j));
    }
}

/// The placement text splits at `/` into the rank texts.
proof fn lemma_split_placement(s: Seq<char>, mb: Seq<Option<Piece>>, o: int, r: int, acc: Seq<Seq<char>>)
    requires
        0 <= r < 8,
        0 <= o <= s.len(),
        s.subrange(o, s.len() as int) == placement_text(mb, r),
    ensures
        pieces_from(s, '/', o, seq![], acc) == acc + rank_texts(mb, r),
    decreases r,
{
    let t = rank_text(mb, r, 0, 0);
    lemma_rank_text_chars(mb, r, 0, 0);
    let whole = placement_text(mb, r);
    let sep: Seq<char> = if r > 0 { seq!['/'] } else { seq![] };
    let rest = placement_text(mb, r - 1);
    assert(whole == t + sep + rest);
    lemma_suffix(s, o, whole);
    let e = o + t.len();
    assert forall|x: int| o <= x < e implies #[trigger] s[x] == t[x - o] by {
        assert(whole[x - o] == t[x - o]);
    }
    assert(s.subrange(o, e) =~= t);
    assert forall|x: int| o <= x < e implies (#[trigger] s[x]) != '/' by {
        assert(s[x] == t[x - o]);
        assert(placement_char(t[x - o]));
    }
    lemma_pieces_run(s, '/', o, e, seq![], acc);
    assert(Seq::<char>::empty() + s.subrange(o, e) =~= t);
    if r > 0 {
        assert(whole[t.len() as int] == '/');
        assert(s[e] == '/');
        assert forall|x: int| 0 <= x < rest.len() implies #[trigger] s.subrange(e + 1, s.len() as int)[x] == rest[x] by {
            assert(s[e + 1 + x] == whole[t.len() + 1 + x]);
        }
        assert(s.subrange(e + 1, s.len() as int) =~= placement_text(mb, r - 1));
        lemma_split_placement(s, mb, e + 1, r - 1, acc.push(t));
        assert(acc.push(t) + rank_texts(mb, r - 1) =~= acc + rank_texts(mb, r));
    } else {
        assert(rest =~= Seq::<char>::empty());
        assert(e == s.len());
        assert(rank_texts(mb, -1) =~= Seq::<Seq<char>>::empty());
        assert(acc.push(t) =~= acc + rank_texts(mb, r));
    }
}

/// Placing rank sections `k..8` of a written placement fills ranks `7 - k` down to 0.
proof fn lemma_place_ranks_text(mb: Seq<Option<Piece>>, ranks: Seq<Seq<char>>, k: int, acc: Seq<Option<Piece>>)
    requires
        0 <= k <= 8,
        mb.len() == 64,
        acc.len() == 64,
        ranks == rank_texts(mb, 7),
        forall|i: int| 0 <= i < 64 ==> #[trigger] acc[i] == (if i >= (8 - k) * 8 { mb[i] } else { None }),
    ensures
        place_ranks(ranks, k, acc) == Ok::<Seq<Option<Piece>>, Seq<char>>(mb),
    decreases 8 - k,
{
    if k >= 8 {
        assert(acc =~= mb);
    } else {
        let r = 7 - k;
        lemma_rank_texts_index(mb, 7, k);
        let t = ranks[k];
        assert(t.subrange(0, t.len() as int) =~= t);
        lemma_place_rank_text(t, mb, r, 0, 0, 0, acc);
        let acc2 = with_rank_from(acc, mb, r, 0);
        lemma_place_ranks_text(mb, ranks, k + 1, acc2);
    }
}

proof fn lemma_rank_texts_index(mb: Seq<Option<Piece>>, r: int, k: int)
    requires
        0 <= k <= r < 8,
    ensures
        rank_texts(mb, r).len() == r + 1,
        rank_texts(mb, r)[k] == rank_text(mb, r - k, 0, 0),
    decreases r,
{
    if r > 0 {
        lemma_rank_texts_index(mb, r - 1, if k > 0 { k - 1 } else { 0 });
    } else {
        assert(rank_texts(mb, -1) =~= Seq::<Seq<char>>::empty());
    }
}

/// The placement field of a board reads back as its squares.
pub proof fn lemma_placement_roundtrip(mb: Seq<Option<Piece>>)
    requires
        mb.len() == 64,
    ensures
        fen_placement(placement_text(mb, 7)) == Ok::<Seq<Option<Piece>>, Seq<char>>(mb),
        is_word(placement_text(mb, 7)),
{
    let s = placement_text(mb, 7);
    assert(s.subrange(0, s.len() as int) =~= s);
    lemma_split_placement(s, mb, 0, 7, seq![]);
    assert(Seq::<Seq<char>>::empty() + rank_texts(mb, 7) =~= rank_texts(mb, 7));
    lemma_rank_texts_index(mb, 7, 0);
    lemma_place_ranks_text(mb, rank_texts(mb, 7), 0, empty_mailbox());
    lemma_placement_word(mb, 7);
}

/// The placement text is non-empty and holds no white space.
proof fn lemma_placement_word(mb: Seq<Option<Piece>>, r: int)
    requires
        0 <= r < 8,
    ensures
        is_word(placement_text(mb, r)),
    decreases r,
{
    let t = rank_text(mb, r, 0, 0);
    lemma_rank_text_chars(mb, r, 0, 0);
    let sep: Seq<char> = if r > 0 { seq!['/'] } else { seq![] };
    let rest = placement_text(mb, r - 1);
    if r > 0 {
        lemma_placement_word(mb, r - 1);
    } else {
        assert(rest =~= Seq::<char>::empty());
    }
    let s = placement_text(mb, r);
    assert(s == t + sep + rest);
    assert forall|i: int| 0 <= i < s.len() implies !is_ws(#[trigger] s[i]) by {
        if i < t.len() {
            assert(s[i] == t[i]);
            assert(placement_char(t[i]));
        } else if i < t.len() + sep.len() {
            assert(s[i] == '/');
        } else {
            assert(s[i] == rest[i - t.len() - sep.len()]);
        }
    }
}

/// The castling bits read back from the letters written for them.
proof fn lemma_castle_bits(c: u8)
    by (bit_vector)
    requires
        c < 16,
    ensures
        (if c & 8u8 != 0 {
            (if c & 4u8 != 0 {
                (if c & 2u8 != 0 {
                    (if c & 1u8 != 0 { 0u8 | 1u8 } else { 0u8 }) | 2u8
                } else {
                    (if c & 1u8 != 0 { 0u8 | 1u8 } else { 0u8 })
                }) | 4u8
            } else {
                (if c & 2u8 != 0 {
                    (if c & 1u8 != 0 { 0u8 | 1u8 } else { 0u8 }) | 2u8
                } else {
                    (if c & 1u8 != 0 { 0u8 | 1u8 } else { 0u8 })
                })
            }) | 8u8
        } else {
            (if c & 4u8 != 0 {
                (if c & 2u8 != 0 {
                    (if c & 1u8 != 0 { 0u8 | 1u8 } else { 0u8 }) | 2u8
                } else {
                    (if c & 1u8 != 0 { 0u8 | 1u8 } else { 0u8 })
                }) | 4u8
            } else {
                (if c & 2u8 != 0 {
                    (if c & 1u8 != 0 { 0u8 | 1u8 } else { 0u8 }) | 2u8
                } else {
                    (if c & 1u8 != 0 { 0u8 | 1u8 } else { 0u8 })
                })
            })
        }) == c,
        c != 0 ==> (c & 1u8 != 0 || c & 2u8 != 0 || c & 4u8 != 0 || c & 8u8 != 0),
{
}

/// The castling field of a board reads back as its castling bits.
proof fn lemma_castling_roundtrip(c: CastlingRights)
    requires
        c.0 < 16,
    ensures
        fen_castling(spec_castling_chars(c)) == Some(c.0),
        is_word(spec_castling_chars(c)),
{
    lemma_castle_bits(c.0);
    let t = spec_castling_chars(c);
    if c.0 != 0 {
        let h1 = c.spec_has(1);
        let h2 = c.spec_has(2);
        let h4 = c.spec_has(4);
        let h8 = c.spec_has(8);
        let o1 = opt_char(h1, 'K');
        let o2 = opt_char(h2, 'Q');
        let o4 = opt_char(h4, 'k');
        let o8 = opt_char(h8, 'q');
        assert(t == o1 + o2 + o4 + o8);
        let i1 = o1.len() as int;
        let i2 = i1 + o2.len();
        let i4 = i2 + o4.len();
        let i8 = i4 + o8.len();
        let a1: u8 = if h1 { 0u8 | 1u8 } else { 0u8 };
        let a2: u8 = if h2 { a1 | 2u8 } else { a1 };
        let a4: u8 = if h4 { a2 | 4u8 } else { a2 };
        let a8: u8 = if h8 { a4 | 8u8 } else { a4 };
        assert(a8 == c.0);
        assert(t.len() > 0);
        if h1 {
            assert(t[0] == 'K');
        }
        if h2 {
            assert(t[i1] == 'Q');
        }
        if h4 {
            assert(t[i2] == 'k');
        }
        if h8 {
            assert(t[i4] == 'q');
        }
        assert(castling_from(t, i8, a8) == Some(a8));
        assert(castling_from(t, i4, a4) == castling_from(t, i8, a8));
        assert(castling_from(t, i2, a2) == castling_from(t, i4, a4));
        assert(castling_from(t, i1, a1) == castling_from(t, i2, a2));
        assert(castling_from(t, 0, 0) == castling_from(t, i1, a1));
        assert(t != seq!['-']) by {
            assert(t[0] != '-');
        }
        assert forall|i: int| 0 <= i < t.len() implies !is_ws(#[trigger] t[i]) by {
            assert(t[i] == 'K' || t[i] == 'Q' || t[i] == 'k' || t[i] == 'q');
        }
    }
}

/// The en-passant field of a consistent board reads back as its target.
proof fn lemma_ep_roundtrip(ep: Option<Square>)
    requires
        ep matches Some(sq) ==> sq.valid(),
    ensures
        fen_ep(ep_text(ep)) == Some(ep),
        is_word(ep_text(ep)),
{
    match ep {
        None => {},
        Some(sq) => {
            let t = ep_text(ep);
            let f = sq.spec_file();
            let r = sq.spec_rank();
            assert(t.len() == 2);
            assert(t != seq!['-']);
            assert(t[0] as int == 'a' as int + f);
            assert(t[1] as int == '1' as int + r);
            assert(r * 8 + f == sq.0);
            assert(spec_parse_square(t) == Some(sq));
        },
    }
}

/// The side-to-move field reads back as the side to move.
proof fn lemma_side_roundtrip(c: Color)
    ensures
        fen_side(side_text(c)) == Some(c),
        is_word(side_text(c)),
{
    if c == Color::Black {
        assert(side_text(c)[0] != seq!['w'][0]);
    }
}

/// Writing a consistent board in FEN and reading it back gives its position:
/// `from_fen(to_fen(b))` rebuilds `b`.
pub proof fn lemma_fen_roundtrip(b: Board)
    requires
        b.wf(),
    ensures
        spec_fen(fen_text(b)) == Ok::<Position, (int, Seq<char>)>(position_of(b)),
        board_of(position_of(b)) == b,
{
    let mb = b.mailbox@;
    let pl = placement_text(mb, 7);
    let sd = side_text(b.side_to_move);
    let cr = spec_castling_chars(b.castling_rights);
    let ep = ep_text(b.en_passant);
    let hm = dec_chars(b.half_move_clock as nat);
    let fm = dec_chars(b.full_move_number as nat);
    lemma_placement_roundtrip(mb);
    lemma_side_roundtrip(b.side_to_move);
    lemma_castling_roundtrip(b.castling_rights);
    lemma_ep_roundtrip(b.en_passant);
    lemma_dec_chars(b.half_move_clock as nat);
    lemma_dec_chars(b.full_move_number as nat);
    lemma_parse_dec(b.half_move_clock);
    lemma_parse_dec(b.full_move_number);
    lemma_words_six(pl, sd, cr, ep, hm, fm);
    assert(fen_text(b) == pl + seq![' '] + sd + seq![' '] + cr + seq![' '] + ep + seq![' '] + hm + seq![' '] + fm);
    let w = words(fen_text(b));
    assert(w == seq![pl, sd, cr, ep, hm, fm]);
    assert(w[0] == pl && w[1] == sd && w[2] == cr && w[3] == ep && w[4] == hm && w[5] == fm);
    lemma_board_of(b);
}

} // verus!
