//! Quantised dual-perspective NNUE with an incremental accumulator.
//!
//! Architecture: 768 → 256 (FT, weight-shared) → 512 (concat both perspectives)
//!               → 32 (L1) → 32 (L2) → 1 (output)
//!
//! Quantisation scheme
//! ───────────────────
//!   FT weights / biases :  float × QA=127  → i16
//!   L1/L2/out weights   :  float × QB=64   → i8
//!   L1 biases           :  float × QA×QB   → i32
//!   L2 / out biases     :  float × QB²     → i32
//!
//! Binary format v2  ("RNNUE2\0\0", 8-byte magic):
//!   header     : 6 × u32  (INPUT, L1, L2, L3, 1, version=2)
//!   ft_weight  : INPUT×L1  i16  (768×256 = 196 608 values)
//!   ft_bias    : L1        i16
//!   l1_weight  : L2×(L1×2) i8  (32×512 = 16 384 values)  — output-major
//!   l1_bias    : L2        i32
//!   l2_weight  : L3×L2     i8
//!   l2_bias    : L3        i32
//!   out_weight : L3        i8
//!   out_bias   : 1         i32
//!
//! All multi-byte integers are little-endian. Sums wrap around on overflow, as
//! fixed-width integer arithmetic does.
use vstd::prelude::*;
use crate::chess::board::{Board, spec_make_mailbox, ep_capture_square, spec_castling_rook, made, make_pre, reversible};
use crate::chess::movegen::{spec_pseudo, lemma_pseudo_make_pre_rev};
use crate::chess::moves::{Move, MoveFlag, spec_promo_piece};
use crate::chess::types::{Color, Piece, PieceType, Square};
use super::eval::tdiv;

verus! {

// ── Architecture & quantisation constants ─────────────────────────────────────

pub const INPUT_SIZE: usize = 768;
pub const L1_SIZE: usize = 256;
pub const L2_SIZE: usize = 32;
pub const L3_SIZE: usize = 32;
pub const CONCAT: usize = 512;

pub const QA: i32 = 127i32;
pub const QB: i32 = 64i32;

pub const EVAL_SCALE: i32 = 400i32;

/// Bytes of a complete network file.
pub const NNUE_FILE_SIZE: usize = 411_460;

// ── Wrapping arithmetic ───────────────────────────────────────────────────────

/// `x` reduced into the 16-bit signed range, as two's-complement wrapping does.
pub open spec fn wrap16(x: int) -> int {
    x - 65536 * ((x + 32768) / 65536)
}

/// `x` reduced into the 32-bit signed range.
pub open spec fn wrap32(x: int) -> int {
    x - 4294967296 * ((x + 2147483648) / 4294967296)
}

pub proof fn lemma_wrap16(x: int, w: int)
    ensures
        -32768 <= wrap16(x) <= 32767,
        wrap16(wrap16(x) + w) == wrap16(x + w),
        -32768 <= x <= 32767 ==> wrap16(x) == x,
{
}

pub proof fn lemma_wrap32(x: int, w: int)
    ensures
        -2147483648 <= wrap32(x) <= 2147483647,
        wrap32(wrap32(x) + w) == wrap32(x + w),
        -2147483648 <= x <= 2147483647 ==> wrap32(x) == x,
{
}

fn wadd16(a: i16, b: i16) -> (r: i16)
    ensures
        r == wrap16(a + b),
{
    let s = a as i32 + b as i32;
    if s > 32767 {
        (s - 65536) as i16
    } else if s < -32768 {
        (s + 65536) as i16
    } else {
        s as i16
    }
}

fn wsub16(a: i16, b: i16) -> (r: i16)
    ensures
        r == wrap16(a - b),
{
    let s = a as i32 - b as i32;
    if s > 32767 {
        (s - 65536) as i16
    } else if s < -32768 {
        (s + 65536) as i16
    } else {
        s as i16
    }
}

fn wadd32(a: i32, b: i32) -> (r: i32)
    ensures
        r == wrap32(a + b),
{
    let s = a as i64 + b as i64;
    if s > 2147483647 {
        (s - 4294967296) as i32
    } else if s < -2147483648 {
        (s + 4294967296) as i32
    } else {
        s as i32
    }
}

// ── Feature indexing ──────────────────────────────────────────────────────────

/// The square seen from the other side of the board (ranks mirrored).
pub open spec fn mirror(s: int) -> int {
    (7 - s / 8) * 8 + s % 8
}

pub open spec fn spec_feat_w(pt: PieceType, color: Color, s: int) -> int {
    pt.index() * 128 + color.index() * 64 + s
}

pub open spec fn spec_feat_b(pt: PieceType, color: Color, s: int) -> int {
    pt.index() * 128 + color.opposite().index() * 64 + mirror(s)
}

fn type_index(pt: PieceType) -> (i: usize)
    ensures
        i == pt.index(),
{
    match pt {
        PieceType::Pawn => 0,
        PieceType::Knight => 1,
        PieceType::Bishop => 2,
        PieceType::Rook => 3,
        PieceType::Queen => 4,
        PieceType::King => 5,
    }
}

fn color_index(c: Color) -> (i: usize)
    ensures
        i == c.index(),
{
    match c {
        Color::White => 0,
        Color::Black => 1,
    }
}

/// Feature index from White's perspective.
pub fn feat_w(pt: PieceType, color: Color, sq: Square) -> (f: usize)
    requires
        sq.valid(),
    ensures
        f == spec_feat_w(pt, color, sq.0 as int),
        f < INPUT_SIZE,
{
    type_index(pt) * 128 + color_index(color) * 64 + sq.0 as usize
}

/// Feature index from Black's perspective (board vertically mirrored, colors swapped).
pub fn feat_b(pt: PieceType, color: Color, sq: Square) -> (f: usize)
    requires
        sq.valid(),
    ensures
        f == spec_feat_b(pt, color, sq.0 as int),
        f < INPUT_SIZE,
{
    let s = sq.0 as usize;
    type_index(pt) * 128 + color_index(color.flip()) * 64 + (7 - s / 8) * 8 + s % 8
}

// ── Weight storage ────────────────────────────────────────────────────────────

/// Network weights, each layer stored row by row.
pub struct Nnue {
    /// FT weights, `ft_weight[feature * L1_SIZE + j]`.
    pub ft_weight: Vec<i16>,
    pub ft_bias: Vec<i16>,
    /// L1 weights, output-major: `l1_weight[j * CONCAT + i]`.
    pub l1_weight: Vec<i8>,
    pub l1_bias: Vec<i32>,
    /// L2 weights: `l2_weight[j * L2_SIZE + i]`.
    pub l2_weight: Vec<i8>,
    pub l2_bias: Vec<i32>,
    pub out_weight: Vec<i8>,
    pub out_bias: i32,
}

impl Nnue {
    /// Every layer has the size of the architecture.
    pub open spec fn wf(&self) -> bool {
        &&& self.ft_weight@.len() == INPUT_SIZE * L1_SIZE
        &&& self.ft_bias@.len() == L1_SIZE
        &&& self.l1_weight@.len() == L2_SIZE * CONCAT
        &&& self.l1_bias@.len() == L2_SIZE
        &&& self.l2_weight@.len() == L3_SIZE * L2_SIZE
        &&& self.l2_bias@.len() == L3_SIZE
        &&& self.out_weight@.len() == L3_SIZE
    }
}

// ── Loading ───────────────────────────────────────────────────────────────────

#[verifier::external_type_specification]
#[verifier::external_body]
pub struct ExIoError(std::io::Error);

/// The error `from_slice` reports for a buffer without the format's magic.
///
/// Trusted: builds `std::io::Error::new(ErrorKind::InvalidData, "not RNNUE v2")`;
/// nothing is claimed of the value.
#[verifier::external_body]
fn invalid_data_error() -> std::io::Error {
    std::io::Error::new(std::io::ErrorKind::InvalidData, "not RNNUE v2")
}

/// The eight magic bytes `RNNUE2\0\0`.
pub open spec fn magic_ok(b: Seq<u8>) -> bool {
    &&& b.len() >= 8
    &&& b[0] == 0x52u8
    &&& b[1] == 0x4Eu8
    &&& b[2] == 0x4Eu8
    &&& b[3] == 0x55u8
    &&& b[4] == 0x45u8
    &&& b[5] == 0x32u8
    &&& b[6] == 0u8
    &&& b[7] == 0u8
}

/// Little-endian signed 16-bit value at byte offset `o`.
pub open spec fn le_i16(b: Seq<u8>, o: int) -> int {
    let u = b[o] as int + 256 * b[o + 1] as int;
    if u >= 32768 {
        u - 65536
    } else {
        u
    }
}

/// Little-endian signed 32-bit value at byte offset `o`.
pub open spec fn le_i32(b: Seq<u8>, o: int) -> int {
    let u = b[o] as int + 256 * b[o + 1] as int + 65536 * b[o + 2] as int + 16777216 * b[o + 3] as int;
    if u >= 2147483648 {
        u - 4294967296
    } else {
        u
    }
}

/// Signed value of a byte.
pub open spec fn byte_i8(x: u8) -> int {
    if x >= 128 {
        x - 256
    } else {
        x as int
    }
}

pub open spec fn ft_weight_off() -> int {
    32
}

pub open spec fn ft_bias_off() -> int {
    32 + 2 * INPUT_SIZE * L1_SIZE
}

pub open spec fn l1_weight_off() -> int {
    ft_bias_off() + 2 * L1_SIZE
}

pub open spec fn l1_bias_off() -> int {
    l1_weight_off() + L2_SIZE * CONCAT
}

pub open spec fn l2_weight_off() -> int {
    l1_bias_off() + 4 * L2_SIZE
}

pub open spec fn l2_bias_off() -> int {
    l2_weight_off() + L3_SIZE * L2_SIZE
}

pub open spec fn out_weight_off() -> int {
    l2_bias_off() + 4 * L3_SIZE
}

pub open spec fn out_bias_off() -> int {
    out_weight_off() + L3_SIZE
}

/// The network that the bytes `b` describe.
pub open spec fn decodes(nn: Nnue, b: Seq<u8>) -> bool {
    &&& nn.wf()
    &&& forall|k: int| 0 <= k < INPUT_SIZE * L1_SIZE ==> #[trigger] nn.ft_weight@[k] == le_i16(b, ft_weight_off() + 2 * k)
    &&& forall|k: int| 0 <= k < L1_SIZE ==> #[trigger] nn.ft_bias@[k] == le_i16(b, ft_bias_off() + 2 * k)
    &&& forall|k: int| 0 <= k < L2_SIZE * CONCAT ==> #[trigger] nn.l1_weight@[k] == byte_i8(b[l1_weight_off() + k])
    &&& forall|k: int| 0 <= k < L2_SIZE ==> #[trigger] nn.l1_bias@[k] == le_i32(b, l1_bias_off() + 4 * k)
    &&& forall|k: int| 0 <= k < L3_SIZE * L2_SIZE ==> #[trigger] nn.l2_weight@[k] == byte_i8(b[l2_weight_off() + k])
    &&& forall|k: int| 0 <= k < L3_SIZE ==> #[trigger] nn.l2_bias@[k] == le_i32(b, l2_bias_off() + 4 * k)
    &&& forall|k: int| 0 <= k < L3_SIZE ==> #[trigger] nn.out_weight@[k] == byte_i8(b[out_weight_off() + k])
    &&& nn.out_bias == le_i32(b, out_bias_off())
}

fn read_i16s(buf: &[u8], off: usize, n: usize) -> (v: Vec<i16>)
    requires
        off + 2 * n <= buf@.len(),
    ensures
        v@.len() == n,
        forall|k: int| 0 <= k < n ==> #[trigger] v@[k] == le_i16(buf@, off + 2 * k),
{
    let blen = buf.len();
    let mut v: Vec<i16> = Vec::new();
    let mut k: usize = 0;
    while k < n
        invariant
            k <= n,
            blen == buf@.len(),
            off + 2 * n <= buf@.len(),
            v@.len() == k,
            forall|i: int| 0 <= i < k ==> #[trigger] v@[i] == le_i16(buf@, off + 2 * i),
        decreases n - k,
    {
        let o = off + 2 * k;
        let u = buf[o] as i32 + 256 * buf[o + 1] as i32;
        let x: i16 = if u >= 32768 { (u - 65536) as i16 } else { u as i16 };
        v.push(x);
        k = k + 1;
    }
    v
}

fn read_i32s(buf: &[u8], off: usize, n: usize) -> (v: Vec<i32>)
    requires
        off + 4 * n <= buf@.len(),
    ensures
        v@.len() == n,
        forall|k: int| 0 <= k < n ==> #[trigger] v@[k] == le_i32(buf@, off + 4 * k),
{
    let blen = buf.len();
    let mut v: Vec<i32> = Vec::new();
    let mut k: usize = 0;
    while k < n
        invariant
            k <= n,
            blen == buf@.len(),
            off + 4 * n <= buf@.len(),
            v@.len() == k,
            forall|i: int| 0 <= i < k ==> #[trigger] v@[i] == le_i32(buf@, off + 4 * i),
        decreases n - k,
    {
        let o = off + 4 * k;
        let u = buf[o] as i64 + 256 * buf[o + 1] as i64 + 65536 * buf[o + 2] as i64 + 16777216 * buf[o + 3] as i64;
        let x: i32 = if u >= 2147483648 { (u - 4294967296) as i32 } else { u as i32 };
        v.push(x);
        k = k + 1;
    }
    v
}

fn read_i8s(buf: &[u8], off: usize, n: usize) -> (v: Vec<i8>)
    requires
        off + n <= buf@.len(),
    ensures
        v@.len() == n,
        forall|k: int| 0 <= k < n ==> #[trigger] v@[k] == byte_i8(buf@[off + k]),
{
    let blen = buf.len();
    let mut v: Vec<i8> = Vec::new();
    let mut k: usize = 0;
    while k < n
        invariant
            k <= n,
            blen == buf@.len(),
            off + n <= buf@.len(),
            v@.len() == k,
            forall|i: int| 0 <= i < k ==> #[trigger] v@[i] == byte_i8(buf@[off + i]),
        decreases n - k,
    {
        let b = buf[off + k];
        let x: i8 = if b >= 128 { (b as i16 - 256) as i8 } else { b as i8 };
        v.push(x);
        k = k + 1;
    }
    v
}

impl Nnue {
    /// Reads a network in the v2 binary format. A buffer shorter than the magic,
    /// or one with the magic but shorter than a whole network, cannot be read and
    /// is outside the domain.
    pub fn from_slice(buf: &[u8]) -> (r: Result<Nnue, std::io::Error>)
        requires
            buf@.len() >= 8,
            magic_ok(buf@) ==> buf@.len() >= NNUE_FILE_SIZE,
        ensures
            r is Ok <==> magic_ok(buf@),
            r matches Ok(nn) ==> decodes(nn, buf@),
    {
        if !(buf[0] == 0x52 && buf[1] == 0x4E && buf[2] == 0x4E && buf[3] == 0x55 && buf[4] == 0x45 && buf[5] == 0x32
            && buf[6] == 0 && buf[7] == 0) {
            return Err(invalid_data_error());
        }
        let ft_weight = read_i16s(buf, 32, INPUT_SIZE * L1_SIZE);
        let ft_bias = read_i16s(buf, 32 + 2 * INPUT_SIZE * L1_SIZE, L1_SIZE);
        let l1_weight = read_i8s(buf, 32 + 2 * INPUT_SIZE * L1_SIZE + 2 * L1_SIZE, L2_SIZE * CONCAT);
        let l1_bias = read_i32s(buf, 32 + 2 * INPUT_SIZE * L1_SIZE + 2 * L1_SIZE + L2_SIZE * CONCAT, L2_SIZE);
        let l2_off = 32 + 2 * INPUT_SIZE * L1_SIZE + 2 * L1_SIZE + L2_SIZE * CONCAT + 4 * L2_SIZE;
        let l2_weight = read_i8s(buf, l2_off, L3_SIZE * L2_SIZE);
        let l2_bias = read_i32s(buf, l2_off + L3_SIZE * L2_SIZE, L3_SIZE);
        let out_weight = read_i8s(buf, l2_off + L3_SIZE * L2_SIZE + 4 * L3_SIZE, L3_SIZE);
        let ob = read_i32s(buf, l2_off + L3_SIZE * L2_SIZE + 4 * L3_SIZE + L3_SIZE, 1);
        let out_bias = ob[0];
        Ok(Nnue { ft_weight, ft_bias, l1_weight, l1_bias, l2_weight, l2_bias, out_weight, out_bias })
    }

    /// Compile-time embedded weights: none are embedded in this build.
    pub fn load_embedded() -> (r: Option<Nnue>)
        ensures
            r is None,
    {
        None
    }
}

// ── Accumulator ───────────────────────────────────────────────────────────────

/// Feature row of a piece on `s`, from Black's side when `black`.
pub open spec fn persp_feat(p: Piece, s: int, black: bool) -> int {
    if black {
        spec_feat_b(p.piece_type, p.color, s)
    } else {
        spec_feat_w(p.piece_type, p.color, s)
    }
}

/// Column `j` of the feature row of what stands on `s` (nothing for an empty square).
pub open spec fn feat_term(nn: Nnue, x: Option<Piece>, s: int, black: bool, j: int) -> int {
    match x {
        None => 0,
        Some(p) => nn.ft_weight@[persp_feat(p, s, black) * 256 + j] as int,
    }
}

pub open spec fn column_sum(nn: Nnue, mb: Seq<Option<Piece>>, black: bool, j: int, n: int) -> int
    decreases n,
{
    if n <= 0 {
        0
    } else {
        column_sum(nn, mb, black, j, n - 1) + feat_term(nn, mb[n - 1], n - 1, black, j)
    }
}

/// Entry `j` of the accumulator of the squares `mb`: the bias plus the feature rows of
/// every piece, wrapped to 16 bits.
pub open spec fn acc_entry(nn: Nnue, mb: Seq<Option<Piece>>, black: bool, j: int) -> int {
    wrap16(nn.ft_bias@[j] + column_sum(nn, mb, black, j, 64))
}

proof fn lemma_column_update(nn: Nnue, mb: Seq<Option<Piece>>, s: int, x: Option<Piece>, black: bool, j: int, n: int)
    requires
        0 <= s < 64,
        mb.len() == 64,
        0 <= n <= 64,
    ensures
        column_sum(nn, mb.update(s, x), black, j, n) == column_sum(nn, mb, black, j, n) + (if s < n {
            feat_term(nn, x, s, black, j) - feat_term(nn, mb[s], s, black, j)
        } else {
            0
        }),
    decreases n,
{
    if n > 0 {
        lemma_column_update(nn, mb, s, x, black, j, n - 1);
    }
}

/// Pre-activation outputs of the feature transformer for both perspectives.
#[derive(Clone, Copy)]
pub struct Accumulator {
    pub white: [i16; 256],
    pub black: [i16; 256],
}

impl Accumulator {
    /// The accumulator holds the feature-transformer output of the squares `mb`.
    pub open spec fn matches(&self, nn: Nnue, mb: Seq<Option<Piece>>) -> bool {
        forall|j: int| #![trigger self.white@[j]] #![trigger self.black@[j]] 0 <= j < 256 ==> self.white@[j] == acc_entry(nn, mb, false, j) && self.black@[j]
            == acc_entry(nn, mb, true, j)
    }

    pub fn zeroed() -> (a: Accumulator)
        ensures
            forall|j: int| 0 <= j < 256 ==> a.white@[j] == 0 && a.black@[j] == 0,
    {
        Accumulator { white: [0; 256], black: [0; 256] }
    }

    /// Full recompute from the current board state (used at the root).
    pub fn refresh(&mut self, nn: &Nnue, board: &Board)
        requires
            nn.wf(),
        ensures
            final(self).matches(*nn, board.mailbox@),
    {
        let mut j: usize = 0;
        while j < 256
            invariant
                nn.wf(),
                j <= 256,
                forall|i: int| 0 <= i < j ==> #[trigger] self.white@[i] == nn.ft_bias@[i],
                forall|i: int| 0 <= i < j ==> #[trigger] self.black@[i] == nn.ft_bias@[i],
            decreases 256 - j,
        {
            self.white[j] = nn.ft_bias[j];
            self.black[j] = nn.ft_bias[j];
            j = j + 1;
        }
        let ghost empty = Seq::new(64, |i: int| None::<Piece>);
        proof {
            assert forall|i: int| #![trigger self.white@[i]] #![trigger self.black@[i]] 0 <= i < 256 implies self.white@[i] == wrap16(nn.ft_bias@[i] + column_sum(*nn, board.mailbox@, false, i, 0))
                && self.black@[i] == wrap16(nn.ft_bias@[i] + column_sum(*nn, board.mailbox@, true, i, 0)) by {
                lemma_wrap16(nn.ft_bias@[i] as int, 0);
                assert(column_sum(*nn, board.mailbox@, false, i, 0) == 0);
                assert(column_sum(*nn, board.mailbox@, true, i, 0) == 0);
                assert(self.white@[i] == nn.ft_bias@[i]);
                assert(self.black@[i] == nn.ft_bias@[i]);
            }
        }
        let mut sq: u8 = 0;
        while sq < 64
            invariant
                nn.wf(),
                sq <= 64,
                forall|i: int| 0 <= i < 256 ==> #[trigger] self.white@[i] == wrap16(nn.ft_bias@[i] + column_sum(*nn, board.mailbox@, false, i, sq as int)),
                forall|i: int| 0 <= i < 256 ==> #[trigger] self.black@[i] == wrap16(nn.ft_bias@[i] + column_sum(*nn, board.mailbox@, true, i, sq as int)),
            decreases 64 - sq,
        {
            match board.mailbox[sq as usize] {
                Some(piece) => {
                    let ghost before = *self;
                    self.add_feat(nn, piece.piece_type, piece.color, Square(sq));
                    proof {
                        let mb = board.mailbox@;
                        assert(mb[sq as int] == Some(Piece { color: piece.color, piece_type: piece.piece_type }));
                        assert forall|i: int| #![trigger self.white@[i]] #![trigger self.black@[i]] 0 <= i < 256 implies self.white@[i] == wrap16(nn.ft_bias@[i] + column_sum(*nn, mb, false, i, sq + 1))
                            && self.black@[i] == wrap16(nn.ft_bias@[i] + column_sum(*nn, mb, true, i, sq + 1)) by {
                            let tw = feat_term(*nn, mb[sq as int], sq as int, false, i);
                            let tb = feat_term(*nn, mb[sq as int], sq as int, true, i);
                            assert(before.white@[i] == wrap16(nn.ft_bias@[i] + column_sum(*nn, mb, false, i, sq as int)));
                            assert(before.black@[i] == wrap16(nn.ft_bias@[i] + column_sum(*nn, mb, true, i, sq as int)));
                            lemma_wrap16(nn.ft_bias@[i] + column_sum(*nn, mb, false, i, sq as int), tw);
                            lemma_wrap16(nn.ft_bias@[i] + column_sum(*nn, mb, true, i, sq as int), tb);
                            assert(self.white@[i] == wrap16(before.white@[i] + tw));
                            assert(self.black@[i] == wrap16(before.black@[i] + tb));
                            assert(column_sum(*nn, mb, false, i, sq + 1) == column_sum(*nn, mb, false, i, sq as int) + tw);
                            assert(column_sum(*nn, mb, true, i, sq + 1) == column_sum(*nn, mb, true, i, sq as int) + tb);
                        }
                    }
                },
                None => {
                    proof {
                        let mb = board.mailbox@;
                        assert forall|i: int| #![trigger self.white@[i]] #![trigger self.black@[i]] 0 <= i < 256 implies self.white@[i] == wrap16(nn.ft_bias@[i] + column_sum(*nn, mb, false, i, sq + 1))
                            && self.black@[i] == wrap16(nn.ft_bias@[i] + column_sum(*nn, mb, true, i, sq + 1)) by {
                            assert(self.white@[i] == wrap16(nn.ft_bias@[i] + column_sum(*nn, mb, false, i, sq as int)));
                            assert(self.black@[i] == wrap16(nn.ft_bias@[i] + column_sum(*nn, mb, true, i, sq as int)));
                            assert(column_sum(*nn, mb, false, i, sq + 1) == column_sum(*nn, mb, false, i, sq as int));
                            assert(column_sum(*nn, mb, true, i, sq + 1) == column_sum(*nn, mb, true, i, sq as int));
                        }
                    }
                },
            }
            sq = sq + 1;
        }
    }

    fn add_feat(&mut self, nn: &Nnue, pt: PieceType, color: Color, sq: Square)
        requires
            nn.wf(),
            sq.valid(),
        ensures
            forall|j: int| #![trigger final(self).white@[j]] #![trigger final(self).black@[j]] 0 <= j < 256 ==> final(self).white@[j] == wrap16(old(self).white@[j] + feat_term(*nn, Some(Piece { color, piece_type: pt }), sq.0 as int, false, j))
                && final(self).black@[j] == wrap16(old(self).black@[j] + feat_term(*nn, Some(Piece { color, piece_type: pt }), sq.0 as int, true, j)),
    {
        let wi = feat_w(pt, color, sq);
        let bi = feat_b(pt, color, sq);
        let mut j: usize = 0;
        while j < 256
            invariant
                nn.wf(),
                j <= 256,
                wi == spec_feat_w(pt, color, sq.0 as int),
                bi == spec_feat_b(pt, color, sq.0 as int),
                wi < INPUT_SIZE,
                bi < INPUT_SIZE,
                forall|i: int| 0 <= i < j ==> #[trigger] self.white@[i] == wrap16(old(self).white@[i] + nn.ft_weight@[wi * 256 + i]),
                forall|i: int| 0 <= i < j ==> #[trigger] self.black@[i] == wrap16(old(self).black@[i] + nn.ft_weight@[bi * 256 + i]),
                forall|i: int| j <= i < 256 ==> #[trigger] self.white@[i] == old(self).white@[i],
                forall|i: int| j <= i < 256 ==> #[trigger] self.black@[i] == old(self).black@[i],
            decreases 256 - j,
        {
            let ghost prev = *self;
            let w = wadd16(self.white[j], nn.ft_weight[wi * 256 + j]);
            let b = wadd16(self.black[j], nn.ft_weight[bi * 256 + j]);
            self.white[j] = w;
            self.black[j] = b;
            assert(self.white@ == prev.white@.update(j as int, w));
            assert(self.black@ == prev.black@.update(j as int, b));
            j = j + 1;
        }
    }

    fn sub_feat(&mut self, nn: &Nnue, pt: PieceType, color: Color, sq: Square)
        requires
            nn.wf(),
            sq.valid(),
        ensures
            forall|j: int| #![trigger final(self).white@[j]] #![trigger final(self).black@[j]] 0 <= j < 256 ==> final(self).white@[j] == wrap16(old(self).white@[j] - feat_term(*nn, Some(Piece { color, piece_type: pt }), sq.0 as int, false, j))
                && final(self).black@[j] == wrap16(old(self).black@[j] - feat_term(*nn, Some(Piece { color, piece_type: pt }), sq.0 as int, true, j)),
    {
        let wi = feat_w(pt, color, sq);
        let bi = feat_b(pt, color, sq);
        let mut j: usize = 0;
        while j < 256
            invariant
                nn.wf(),
                j <= 256,
                wi == spec_feat_w(pt, color, sq.0 as int),
                bi == spec_feat_b(pt, color, sq.0 as int),
                wi < INPUT_SIZE,
                bi < INPUT_SIZE,
                forall|i: int| 0 <= i < j ==> #[trigger] self.white@[i] == wrap16(old(self).white@[i] - nn.ft_weight@[wi * 256 + i]),
                forall|i: int| 0 <= i < j ==> #[trigger] self.black@[i] == wrap16(old(self).black@[i] - nn.ft_weight@[bi * 256 + i]),
                forall|i: int| j <= i < 256 ==> #[trigger] self.white@[i] == old(self).white@[i],
                forall|i: int| j <= i < 256 ==> #[trigger] self.black@[i] == old(self).black@[i],
            decreases 256 - j,
        {
            let ghost prev = *self;
            let w = wsub16(self.white[j], nn.ft_weight[wi * 256 + j]);
            let b = wsub16(self.black[j], nn.ft_weight[bi * 256 + j]);
            self.white[j] = w;
            self.black[j] = b;
            assert(self.white@ == prev.white@.update(j as int, w));
            assert(self.black@ == prev.black@.update(j as int, b));
            j = j + 1;
        }
    }
}

impl Accumulator {
    /// Adds the piece `p` on the empty square `sq` of `mb`.
    fn put_feat(&mut self, nn: &Nnue, p: Piece, sq: Square, Ghost(mb): Ghost<Seq<Option<Piece>>>)
        requires
            nn.wf(),
            sq.valid(),
            mb.len() == 64,
            mb[sq.0 as int] is None,
            old(self).matches(*nn, mb),
        ensures
            final(self).matches(*nn, mb.update(sq.0 as int, Some(p))),
    {
        let ghost before = *self;
        self.add_feat(nn, p.piece_type, p.color, sq);
        proof {
            let s = sq.0 as int;
            let mb2 = mb.update(s, Some(p));
            assert forall|j: int| #![trigger self.white@[j]] #![trigger self.black@[j]] 0 <= j < 256 implies self.white@[j]
                == acc_entry(*nn, mb2, false, j) && self.black@[j] == acc_entry(*nn, mb2, true, j) by {
                assert(Piece { color: p.color, piece_type: p.piece_type } == p);
                lemma_column_update(*nn, mb, s, Some(p), false, j, 64);
                lemma_column_update(*nn, mb, s, Some(p), true, j, 64);
                assert(before.white@[j] == acc_entry(*nn, mb, false, j));
                assert(before.black@[j] == acc_entry(*nn, mb, true, j));
                lemma_wrap16(nn.ft_bias@[j] + column_sum(*nn, mb, false, j, 64), feat_term(*nn, Some(p), s, false, j));
                lemma_wrap16(nn.ft_bias@[j] + column_sum(*nn, mb, true, j, 64), feat_term(*nn, Some(p), s, true, j));
            }
        }
    }

    /// Removes the piece `p` standing on `sq` of `mb`.
    fn take_feat(&mut self, nn: &Nnue, p: Piece, sq: Square, Ghost(mb): Ghost<Seq<Option<Piece>>>)
        requires
            nn.wf(),
            sq.valid(),
            mb.len() == 64,
            mb[sq.0 as int] == Some(p),
            old(self).matches(*nn, mb),
        ensures
            final(self).matches(*nn, mb.update(sq.0 as int, None)),
    {
        let ghost before = *self;
        self.sub_feat(nn, p.piece_type, p.color, sq);
        proof {
            let s = sq.0 as int;
            let mb2 = mb.update(s, None);
            assert forall|j: int| #![trigger self.white@[j]] #![trigger self.black@[j]] 0 <= j < 256 implies self.white@[j]
                == acc_entry(*nn, mb2, false, j) && self.black@[j] == acc_entry(*nn, mb2, true, j) by {
                assert(Piece { color: p.color, piece_type: p.piece_type } == p);
                lemma_column_update(*nn, mb, s, None, false, j, 64);
                lemma_column_update(*nn, mb, s, None, true, j, 64);
                assert(before.white@[j] == acc_entry(*nn, mb, false, j));
                assert(before.black@[j] == acc_entry(*nn, mb, true, j));
                lemma_wrap16(nn.ft_bias@[j] + column_sum(*nn, mb, false, j, 64), -feat_term(*nn, Some(p), s, false, j));
                lemma_wrap16(nn.ft_bias@[j] + column_sum(*nn, mb, true, j, 64), -feat_term(*nn, Some(p), s, true, j));
            }
        }
    }

    /// Apply the feature delta of `mv` to this accumulator.
    /// **Must be called BEFORE `board.make_move(mv)`** — needs pre-move board state.
    /// The result is the accumulator of the board after the move.
    pub fn apply_move(&mut self, nn: &Nnue, board: &Board, mv: Move)
        requires
            nn.wf(),
            board.valid(),
            spec_pseudo(*board, mv),
            old(self).matches(*nn, board.mailbox@),
        ensures
            final(self).matches(*nn, spec_make_mailbox(*board, mv)),
    {
        proof {
            lemma_pseudo_make_pre_rev(*board, mv);
        }
        let from = mv.from_sq();
        let to = mv.to_sq();
        let us = board.side_to_move;
        let piece = board.piece_at(from).unwrap();
        let ghost mb0 = board.mailbox@;
        match mv.flag() {
            MoveFlag::Normal => {
                let ghost mut mb = mb0;
                match board.piece_at(to) {
                    Some(cap) => {
                        self.take_feat(nn, cap, to, Ghost(mb));
                        proof {
                            mb = mb.update(to.0 as int, None);
                        }
                    },
                    None => {},
                }
                self.take_feat(nn, Piece { color: us, piece_type: piece.piece_type }, from, Ghost(mb));
                self.put_feat(nn, Piece { color: us, piece_type: piece.piece_type }, to, Ghost(mb.update(from.0 as int, None)));
                proof {
                    assert(mb.update(from.0 as int, None).update(to.0 as int, Some(Piece { color: us, piece_type: piece.piece_type }))
                        =~= spec_make_mailbox(*board, mv));
                }
            },
            MoveFlag::Promo => {
                let ghost mut mb = mb0;
                match board.piece_at(to) {
                    Some(cap) => {
                        self.take_feat(nn, cap, to, Ghost(mb));
                        proof {
                            mb = mb.update(to.0 as int, None);
                        }
                    },
                    None => {},
                }
                self.take_feat(nn, Piece { color: us, piece_type: PieceType::Pawn }, from, Ghost(mb));
                let promoted = Piece { color: us, piece_type: mv.promo_piece_type() };
                self.put_feat(nn, promoted, to, Ghost(mb.update(from.0 as int, None)));
                proof {
                    assert(mb.update(from.0 as int, None).update(to.0 as int, Some(promoted)) =~= spec_make_mailbox(*board, mv));
                }
            },
            MoveFlag::EnPassant => {
                // Captured pawn sits on the same rank as `from`, same file as `to`.
                let ep_sq = Square::new(to.file(), from.rank());
                let mb1 = Ghost(mb0.update(ep_sq.0 as int, None));
                let mb2 = Ghost(mb1@.update(from.0 as int, None));
                self.take_feat(nn, Piece { color: us.flip(), piece_type: PieceType::Pawn }, ep_sq, Ghost(mb0));
                self.take_feat(nn, Piece { color: us, piece_type: PieceType::Pawn }, from, mb1);
                self.put_feat(nn, Piece { color: us, piece_type: PieceType::Pawn }, to, mb2);
                proof {
                    assert(mb2@.update(to.0 as int, Some(Piece { color: us, piece_type: PieceType::Pawn })) =~= spec_make_mailbox(*board, mv));
                }
            },
            MoveFlag::Castling => {
                let rank = from.rank();
                let (rf, rt) = if to.file() > from.file() {
                    (Square::new(7, rank), Square::new(5, rank))
                } else {
                    (Square::new(0, rank), Square::new(3, rank))
                };
                let king = Piece { color: us, piece_type: PieceType::King };
                let rook = Piece { color: us, piece_type: PieceType::Rook };
                let mb1 = Ghost(mb0.update(from.0 as int, None));
                let mb2 = Ghost(mb1@.update(to.0 as int, Some(king)));
                let mb3 = Ghost(mb2@.update(rf.0 as int, None));
                self.take_feat(nn, king, from, Ghost(mb0));
                self.put_feat(nn, king, to, mb1);
                self.take_feat(nn, rook, rf, mb2);
                self.put_feat(nn, rook, rt, mb3);
                proof {
                    assert(mb3@.update(rt.0 as int, Some(rook)) =~= spec_make_mailbox(*board, mv));
                }
            },
        }
    }
}

// ── Forward pass ──────────────────────────────────────────────────────────────

pub open spec fn clamp(x: int, lo: int, hi: int) -> int {
    if x < lo {
        lo
    } else if x > hi {
        hi
    } else {
        x
    }
}

/// Input `i` of the hidden layers: the clipped accumulator of the side to move
/// (`sa`), then that of the opponent (`oa`).
pub open spec fn input_at(sa: Seq<i16>, oa: Seq<i16>, i: int) -> int {
    if i < 256 {
        clamp(sa[i] as int, 0, QA as int)
    } else {
        clamp(oa[i - 256] as int, 0, QA as int)
    }
}

pub open spec fn l1_dot(nn: Nnue, sa: Seq<i16>, oa: Seq<i16>, j: int, n: int) -> int
    decreases n,
{
    if n <= 0 {
        0
    } else {
        l1_dot(nn, sa, oa, j, n - 1) + input_at(sa, oa, n - 1) * nn.l1_weight@[j * 512 + n - 1]
    }
}

pub open spec fn l1_out(nn: Nnue, sa: Seq<i16>, oa: Seq<i16>, j: int) -> int {
    clamp(tdiv(wrap32(nn.l1_bias@[j] + l1_dot(nn, sa, oa, j, 512)), QA as int), 0, QB as int)
}

pub open spec fn l2_dot(nn: Nnue, sa: Seq<i16>, oa: Seq<i16>, j: int, n: int) -> int
    decreases n,
{
    if n <= 0 {
        0
    } else {
        l2_dot(nn, sa, oa, j, n - 1) + l1_out(nn, sa, oa, n - 1) * nn.l2_weight@[j * 32 + n - 1]
    }
}

pub open spec fn l2_out(nn: Nnue, sa: Seq<i16>, oa: Seq<i16>, j: int) -> int {
    clamp(tdiv(wrap32(nn.l2_bias@[j] + l2_dot(nn, sa, oa, j, 32)), QB as int), 0, QB as int)
}

pub open spec fn out_dot(nn: Nnue, sa: Seq<i16>, oa: Seq<i16>, n: int) -> int
    decreases n,
{
    if n <= 0 {
        0
    } else {
        out_dot(nn, sa, oa, n - 1) + l2_out(nn, sa, oa, n - 1) * nn.out_weight@[n - 1]
    }
}

/// The network's score (centipawns) for accumulators `sa` (side to move) and `oa`.
pub open spec fn spec_forward(nn: Nnue, sa: Seq<i16>, oa: Seq<i16>) -> int {
    tdiv(wrap32(wrap32(nn.out_bias + out_dot(nn, sa, oa, 32)) * EVAL_SCALE), (QB * QB) as int)
}

/// The score from the side `stm`'s perspective.
pub open spec fn spec_acc_eval(acc: Accumulator, nn: Nnue, stm: Color) -> int {
    if stm == Color::White {
        spec_forward(nn, acc.white@, acc.black@)
    } else {
        spec_forward(nn, acc.black@, acc.white@)
    }
}

/// The same piece with the other colour.
pub open spec fn flip_piece(x: Option<Piece>) -> Option<Piece> {
    match x {
        None => None,
        Some(p) => Some(Piece { color: p.color.opposite(), piece_type: p.piece_type }),
    }
}

/// The colour-mirrored squares: every piece moves to the same file on the
/// opposite rank and changes colour.
pub open spec fn mirror_squares(mb: Seq<Option<Piece>>) -> Seq<Option<Piece>> {
    Seq::new(64, |s: int| flip_piece(mb[mirror(s)]))
}

proof fn lemma_term_mirror(nn: Nnue, mb: Seq<Option<Piece>>, s: int, j: int)
    requires
        0 <= s < 64,
        mb.len() == 64,
    ensures
        feat_term(nn, mirror_squares(mb)[s], s, false, j) == feat_term(nn, mb[mirror(s)], mirror(s), true, j),
        feat_term(nn, mirror_squares(mb)[s], s, true, j) == feat_term(nn, mb[mirror(s)], mirror(s), false, j),
{
    assert(0 <= mirror(s) < 64);
    assert(mirror(mirror(s)) == s);
}

proof fn lemma_mirror_square(r: int, f: int)
    requires
        0 <= r < 8,
        0 <= f < 8,
    ensures
        mirror(8 * r + f) == 8 * (7 - r) + f,
{
    assert((8 * r + f) / 8 == r && (8 * r + f) % 8 == f) by (nonlinear_arith)
        requires
            0 <= r < 8,
            0 <= f < 8,
    ;
}

/// Rank `r` of the mirrored squares sums, from one side, what rank `7 - r` of
/// the squares sums from the other.
proof fn lemma_rank_mirror(nn: Nnue, mb: Seq<Option<Piece>>, j: int, r: int, black: bool)
    requires
        mb.len() == 64,
        0 <= r < 8,
    ensures
        column_sum(nn, mirror_squares(mb), black, j, 8 * r + 8) - column_sum(nn, mirror_squares(mb), black, j, 8 * r)
            == column_sum(nn, mb, !black, j, 8 * (7 - r) + 8) - column_sum(nn, mb, !black, j, 8 * (7 - r)),
{
    let mm = mirror_squares(mb);
    let q = 7 - r;
    assert forall|f: int| 0 <= f < 8 implies #[trigger] feat_term(nn, mm[8 * r + f], 8 * r + f, black, j) == feat_term(
        nn,
        mb[8 * q + f],
        8 * q + f,
        !black,
        j,
    ) by {
        lemma_mirror_square(r, f);
        lemma_term_mirror(nn, mb, 8 * r + f, j);
    }
    assert(feat_term(nn, mm[8 * r + 0], 8 * r + 0, black, j) == feat_term(nn, mb[8 * q + 0], 8 * q + 0, !black, j));
    assert(feat_term(nn, mm[8 * r + 1], 8 * r + 1, black, j) == feat_term(nn, mb[8 * q + 1], 8 * q + 1, !black, j));
    assert(feat_term(nn, mm[8 * r + 2], 8 * r + 2, black, j) == feat_term(nn, mb[8 * q + 2], 8 * q + 2, !black, j));
    assert(feat_term(nn, mm[8 * r + 3], 8 * r + 3, black, j) == feat_term(nn, mb[8 * q + 3], 8 * q + 3, !black, j));
    assert(feat_term(nn, mm[8 * r + 4], 8 * r + 4, black, j) == feat_term(nn, mb[8 * q + 4], 8 * q + 4, !black, j));
    assert(feat_term(nn, mm[8 * r + 5], 8 * r + 5, black, j) == feat_term(nn, mb[8 * q + 5], 8 * q + 5, !black, j));
    assert(feat_term(nn, mm[8 * r + 6], 8 * r + 6, black, j) == feat_term(nn, mb[8 * q + 6], 8 * q + 6, !black, j));
    assert(feat_term(nn, mm[8 * r + 7], 8 * r + 7, black, j) == feat_term(nn, mb[8 * q + 7], 8 * q + 7, !black, j));
    reveal_with_fuel(column_sum, 9);
}

proof fn lemma_column_mirror(nn: Nnue, mb: Seq<Option<Piece>>, j: int, black: bool)
    requires
        mb.len() == 64,
    ensures
        column_sum(nn, mirror_squares(mb), black, j, 64) == column_sum(nn, mb, !black, j, 64),
{
    lemma_rank_mirror(nn, mb, j, 0, black);
    lemma_rank_mirror(nn, mb, j, 1, black);
    lemma_rank_mirror(nn, mb, j, 2, black);
    lemma_rank_mirror(nn, mb, j, 3, black);
    lemma_rank_mirror(nn, mb, j, 4, black);
    lemma_rank_mirror(nn, mb, j, 5, black);
    lemma_rank_mirror(nn, mb, j, 6, black);
    lemma_rank_mirror(nn, mb, j, 7, black);
    assert(column_sum(nn, mirror_squares(mb), black, j, 0) == 0);
    assert(column_sum(nn, mb, !black, j, 0) == 0);
}

/// Colour symmetry of the network: a position scored for Black to move gets the
/// score its colour-mirrored position gets for White to move (and the other way
/// round), whatever the weights.
pub proof fn lemma_nnue_colour_symmetry(nn: Nnue, acc: Accumulator, acc_m: Accumulator, mb: Seq<Option<Piece>>)
    requires
        mb.len() == 64,
        acc.matches(nn, mb),
        acc_m.matches(nn, mirror_squares(mb)),
    ensures
        spec_acc_eval(acc, nn, Color::Black) == spec_acc_eval(acc_m, nn, Color::White),
        spec_acc_eval(acc, nn, Color::White) == spec_acc_eval(acc_m, nn, Color::Black),
{
    assert forall|j: int| 0 <= j < 256 implies acc_m.white@[j] == acc.black@[j] && acc_m.black@[j] == acc.white@[j] by {
        lemma_column_mirror(nn, mb, j, true);
        lemma_column_mirror(nn, mb, j, false);
    }
    assert(acc_m.white@ =~= acc.black@);
    assert(acc_m.black@ =~= acc.white@);
}

/// Two's-complement reduction of `x` to 32 bits.
fn wrap_to_i32(x: i64) -> (r: i32)
    requires
        -0x10_0000_0000_0000 <= x <= 0x10_0000_0000_0000,
    ensures
        r == wrap32(x as int),
{
    let u = (x + 0x10_0000_0000_0000) as u64;
    let m = u % 4294967296;
    proof {
        assert(wrap32(x as int) == (if m >= 2147483648 { m - 4294967296 } else { m as int })) by (nonlinear_arith)
            requires
                u == x + 0x10_0000_0000_0000,
                m == u % 4294967296,
                0 <= u,
        {
        }
    }
    if m >= 2147483648 {
        (m as i64 - 4294967296) as i32
    } else {
        m as i32
    }
}

fn forward_scalar(acc: &Accumulator, nn: &Nnue, stm: Color) -> (r: i32)
    requires
        nn.wf(),
    ensures
        r == spec_acc_eval(*acc, *nn, stm),
        -524288 <= r <= 524288,
{
    let (sa, oa) = match stm {
        Color::White => (&acc.white, &acc.black),
        Color::Black => (&acc.black, &acc.white),
    };
    let mut input: Vec<i32> = Vec::new();
    let mut i: usize = 0;
    while i < 512
        invariant
            i <= 512,
            input@.len() == i,
            forall|k: int| 0 <= k < i ==> #[trigger] input@[k] == input_at(sa@, oa@, k),
        decreases 512 - i,
    {
        let x: i16 = if i < 256 { sa[i] } else { oa[i - 256] };
        let c: i32 = if x < 0 { 0 } else if x > 127 { 127 } else { x as i32 };
        input.push(c);
        i = i + 1;
    }
    let mut l1: Vec<i32> = Vec::new();
    let mut j: usize = 0;
    while j < 32
        invariant
            nn.wf(),
            j <= 32,
            input@.len() == 512,
            forall|k: int| 0 <= k < 512 ==> #[trigger] input@[k] == input_at(sa@, oa@, k),
            l1@.len() == j,
            forall|k: int| 0 <= k < j ==> #[trigger] l1@[k] == l1_out(*nn, sa@, oa@, k),
        decreases 32 - j,
    {
        let mut s: i32 = nn.l1_bias[j];
        let mut i: usize = 0;
        proof {
            lemma_wrap32(nn.l1_bias@[j as int] as int, 0);
        }
        while i < 512
            invariant
                nn.wf(),
                j < 32,
                i <= 512,
                input@.len() == 512,
                forall|k: int| 0 <= k < 512 ==> #[trigger] input@[k] == input_at(sa@, oa@, k),
                s == wrap32(nn.l1_bias@[j as int] + l1_dot(*nn, sa@, oa@, j as int, i as int)),
            decreases 512 - i,
        {
            let x = input[i];
            let w = nn.l1_weight[j * 512 + i] as i32;
            proof {
                assert(0 <= x <= 127);
                assert(-128 <= w <= 127);
                assert(-128 * 127 <= x * w <= 127 * 127) by (nonlinear_arith)
                    requires
                        0 <= x <= 127,
                        -128 <= w <= 127,
                ;
                lemma_wrap32(nn.l1_bias@[j as int] + l1_dot(*nn, sa@, oa@, j as int, i as int), x * w);
            }
            s = wadd32(s, x * w);
            i = i + 1;
        }
        let q = s / QA;
        let c = if q < 0 { 0 } else if q > QB { QB } else { q };
        l1.push(c);
        j = j + 1;
    }
    let mut l2: Vec<i32> = Vec::new();
    let mut j: usize = 0;
    while j < 32
        invariant
            nn.wf(),
            j <= 32,
            l1@.len() == 32,
            forall|k: int| 0 <= k < 32 ==> #[trigger] l1@[k] == l1_out(*nn, sa@, oa@, k),
            l2@.len() == j,
            forall|k: int| 0 <= k < j ==> #[trigger] l2@[k] == l2_out(*nn, sa@, oa@, k),
        decreases 32 - j,
    {
        let mut s: i32 = nn.l2_bias[j];
        let mut i: usize = 0;
        proof {
            lemma_wrap32(nn.l2_bias@[j as int] as int, 0);
        }
        while i < 32
            invariant
                nn.wf(),
                j < 32,
                i <= 32,
                l1@.len() == 32,
                forall|k: int| 0 <= k < 32 ==> #[trigger] l1@[k] == l1_out(*nn, sa@, oa@, k),
                s == wrap32(nn.l2_bias@[j as int] + l2_dot(*nn, sa@, oa@, j as int, i as int)),
            decreases 32 - i,
        {
            let x = l1[i];
            let w = nn.l2_weight[j * 32 + i] as i32;
            proof {
                assert(0 <= x <= 64);
                assert(-64 * 128 <= x * w <= 64 * 127) by (nonlinear_arith)
                    requires
                        0 <= x <= 64,
                        -128 <= w <= 127,
                ;
                lemma_wrap32(nn.l2_bias@[j as int] + l2_dot(*nn, sa@, oa@, j as int, i as int), x * w);
            }
            s = wadd32(s, x * w);
            i = i + 1;
        }
        let q = s / QB;
        let c = if q < 0 { 0 } else if q > QB { QB } else { q };
        l2.push(c);
        j = j + 1;
    }
    let mut out: i32 = nn.out_bias;
    let mut i: usize = 0;
    proof {
        lemma_wrap32(nn.out_bias as int, 0);
    }
    while i < 32
        invariant
            nn.wf(),
            i <= 32,
            l2@.len() == 32,
            forall|k: int| 0 <= k < 32 ==> #[trigger] l2@[k] == l2_out(*nn, sa@, oa@, k),
            out == wrap32(nn.out_bias + out_dot(*nn, sa@, oa@, i as int)),
        decreases 32 - i,
    {
        let x = l2[i];
        let w = nn.out_weight[i] as i32;
        proof {
            assert(0 <= x <= 64);
            assert(-64 * 128 <= x * w <= 64 * 127) by (nonlinear_arith)
                requires
                    0 <= x <= 64,
                    -128 <= w <= 127,
            ;
            lemma_wrap32(nn.out_bias + out_dot(*nn, sa@, oa@, i as int), x * w);
        }
        out = wadd32(out, x * w);
        i = i + 1;
    }
    let scaled = wrap_to_i32(out as i64 * EVAL_SCALE as i64);
    scaled / (QB * QB)
}

impl Accumulator {
    /// Evaluate from `stm`'s perspective (centipawns).
    pub fn evaluate(&self, nn: &Nnue, stm: Color) -> (r: i32)
        requires
            nn.wf(),
        ensures
            r == spec_acc_eval(*self, *nn, stm),
            -524288 <= r <= 524288,
    {
        forward_scalar(self, nn, stm)
    }
}

// ── Accumulator stack ─────────────────────────────────────────────────────────

pub const STACK_DEPTH: usize = 128;

/// One accumulator per search ply; `ply` indexes the current one.
pub struct AccumulatorStack {
    pub stack: Vec<Accumulator>,
    pub ply: usize,
}

/// `s1` is `s0` with one more ply, the accumulators of the plies below kept.
pub open spec fn pushed(s0: AccumulatorStack, s1: AccumulatorStack) -> bool {
    &&& s1.ply == s0.ply + 1
    &&& s1.stack@.len() == s0.stack@.len()
    &&& forall|k: int| 0 <= k <= s0.ply ==> #[trigger] s1.stack@[k] == s0.stack@[k]
}

/// `s1` is `s0` one ply back.
pub open spec fn popped(s0: AccumulatorStack, s1: AccumulatorStack) -> bool {
    &&& s1.ply + 1 == s0.ply
    &&& s1.stack@ == s0.stack@
}

/// A pop after a push gives back the accumulator from before the push.
pub proof fn lemma_push_pop(s0: AccumulatorStack, s1: AccumulatorStack, s2: AccumulatorStack)
    requires
        s0.wf(),
        pushed(s0, s1),
        popped(s1, s2),
    ensures
        s2.ply == s0.ply,
        s2.top() == s0.top(),
{
    assert(s1.stack@[s0.ply as int] == s0.stack@[s0.ply as int]);
}

impl AccumulatorStack {
    pub open spec fn wf(&self) -> bool {
        &&& self.stack@.len() == STACK_DEPTH
        &&& self.ply < STACK_DEPTH
    }

    /// The current accumulator.
    pub open spec fn top(&self) -> Accumulator {
        self.stack@[self.ply as int]
    }

    pub fn new() -> (s: AccumulatorStack)
        ensures
            s.wf(),
            s.ply == 0,
    {
        let mut stack: Vec<Accumulator> = Vec::new();
        let mut i: usize = 0;
        while i < STACK_DEPTH
            invariant
                i <= STACK_DEPTH,
                stack@.len() == i,
            decreases STACK_DEPTH - i,
        {
            stack.push(Accumulator::zeroed());
            i = i + 1;
        }
        AccumulatorStack { stack, ply: 0 }
    }

    pub fn current(&self) -> (a: &Accumulator)
        requires
            self.wf(),
        ensures
            *a == self.top(),
    {
        &self.stack[self.ply]
    }

    pub fn current_mut(&mut self) -> (a: &mut Accumulator)
        requires
            old(self).wf(),
        ensures
            *a == old(self).top(),
            final(self).stack@ == old(self).stack@.update(old(self).ply as int, *final(a)),
            final(self).ply == old(self).ply,
    {
        let p = self.ply;
        &mut self.stack[p]
    }

    /// Refresh the root accumulator for a fresh search.
    pub fn init(&mut self, nn: &Nnue, board: &Board)
        requires
            nn.wf(),
            old(self).wf(),
        ensures
            final(self).wf(),
            final(self).ply == 0,
            final(self).top().matches(*nn, board.mailbox@),
    {
        self.ply = 0;
        let mut acc = self.stack[0];
        acc.refresh(nn, board);
        self.stack.set(0, acc);
    }

    /// Copy the current accumulator to the next ply, then apply the move's delta.
    /// Call **before** `board.make_move(mv)`.
    pub fn push_move(&mut self, nn: &Nnue, board: &Board, mv: Move)
        requires
            nn.wf(),
            old(self).wf(),
            old(self).ply + 1 < STACK_DEPTH,
            board.valid(),
            spec_pseudo(*board, mv),
            old(self).top().matches(*nn, board.mailbox@),
        ensures
            final(self).wf(),
            pushed(*old(self), *final(self)),
            final(self).top().matches(*nn, spec_make_mailbox(*board, mv)),
    {
        let mut acc = self.stack[self.ply];
        acc.apply_move(nn, board, mv);
        self.stack.set(self.ply + 1, acc);
        self.ply = self.ply + 1;
    }

    /// Push for null moves — no piece changes, just copy.
    pub fn push_null(&mut self)
        requires
            old(self).wf(),
            old(self).ply + 1 < STACK_DEPTH,
        ensures
            final(self).wf(),
            pushed(*old(self), *final(self)),
            final(self).top() == old(self).top(),
    {
        let acc = self.stack[self.ply];
        self.stack.set(self.ply + 1, acc);
        self.ply = self.ply + 1;
    }

    /// Restore the previous accumulator (pair with each push).
    pub fn pop(&mut self)
        requires
            old(self).wf(),
            old(self).ply > 0,
        ensures
            final(self).wf(),
            popped(*old(self), *final(self)),
    {
        self.ply = self.ply - 1;
    }

    pub fn evaluate(&self, nn: &Nnue, stm: Color) -> (r: i32)
        requires
            nn.wf(),
            self.wf(),
        ensures
            r == spec_acc_eval(self.top(), *nn, stm),
            -524288 <= r <= 524288,
    {
        self.stack[self.ply].evaluate(nn, stm)
    }
}

/// Evaluate `board` from scratch, from the side to move's perspective.
pub fn evaluate(nn: &Nnue, board: &Board) -> (r: i32)
    requires
        nn.wf(),
    ensures
        exists|acc: Accumulator| #[trigger] acc.matches(*nn, board.mailbox@) && r == spec_acc_eval(acc, *nn, board.side_to_move),
{
    let mut acc = Accumulator::zeroed();
    acc.refresh(nn, board);
    acc.evaluate(nn, board.side_to_move)
}

/// The accumulator of a set of squares is unique: an accumulator updated
/// incrementally by `apply_move` equals one refreshed from the board the move
/// produces.
pub proof fn lemma_accumulator_unique(a: Accumulator, b: Accumulator, nn: Nnue, mb: Seq<Option<Piece>>)
    requires
        a.matches(nn, mb),
        b.matches(nn, mb),
    ensures
        a.white == b.white,
        a.black == b.black,
{
    assert(a.white@ =~= b.white@) by {
        assert forall|j: int| 0 <= j < 256 implies a.white@[j] == b.white@[j] by {
            assert(a.white@[j] == acc_entry(nn, mb, false, j));
            assert(b.white@[j] == acc_entry(nn, mb, false, j));
        }
    }
    assert(a.black@ =~= b.black@) by {
        assert forall|j: int| 0 <= j < 256 implies a.black@[j] == b.black@[j] by {
            assert(a.black@[j] == acc_entry(nn, mb, true, j));
            assert(b.black@[j] == acc_entry(nn, mb, true, j));
        }
    }
    lemma_array_ext(a.white, b.white);
    lemma_array_ext(a.black, b.black);
}

proof fn lemma_array_ext(x: [i16; 256], y: [i16; 256])
    requires
        x@ == y@,
    ensures
        x == y,
{
    assert(x =~= y);
}

} // verus!
