//! Magic bitboards for the sliding pieces: the occupancy of a square's relevant
//! squares, multiplied by the square's magic number and shifted, indexes a table
//! of precomputed attack sets.
use vstd::prelude::*;
use super::bitboard::{bb_has, set_bit, lemma_bits_all, lemma_zero_all};
use super::attacks::{in_ray, on_board, ray_measure, sq_file, sq_rank, spec_rook_attack, spec_bishop_attack,
    slow_rook_attacks, slow_bishop_attacks};
use super::types::Square;

verus! {

// ── Relevant squares ──────────────────────────────────────────────────────────

/// `x` is an inner square of the ray from (f, r) in direction (df, dr): a square
/// of the ray with a further square of the ray beyond it.
pub open spec fn ray_inner(f: int, r: int, df: int, dr: int, x: int) -> bool
    decreases ray_measure(f, r, df, dr),
{
    let nf = f + df;
    let nr = r + dr;
    if (df == 0 && dr == 0) || !on_board(f, r) || !on_board(nf, nr) {
        false
    } else if on_board(nf + df, nr + dr) && x == nr * 8 + nf {
        true
    } else {
        ray_inner(nf, nr, df, dr, x)
    }
}

/// `x` is one of the squares whose occupancy decides the attacks of a bishop
/// (`bishop`) or a rook on `s`: the inner squares of its four rays.
pub open spec fn slider_mask_has(bishop: bool, s: int, x: int) -> bool {
    let f = sq_file(s);
    let r = sq_rank(s);
    if bishop {
        ray_inner(f, r, 1, 1, x) || ray_inner(f, r, 1, -1, x) || ray_inner(f, r, -1, 1, x) || ray_inner(f, r, -1, -1, x)
    } else {
        ray_inner(f, r, 1, 0, x) || ray_inner(f, r, -1, 0, x) || ray_inner(f, r, 0, 1, x) || ray_inner(f, r, 0, -1, x)
    }
}

/// The attacks of a bishop (`bishop`) or a rook on `s` reach `t`.
pub open spec fn slider_attack(bishop: bool, s: int, occ: u64, t: int) -> bool {
    if bishop {
        spec_bishop_attack(s, occ, t)
    } else {
        spec_rook_attack(s, occ, t)
    }
}

proof fn lemma_ray_inner_on_board(f: int, r: int, df: int, dr: int, x: int)
    requires
        ray_inner(f, r, df, dr, x),
    ensures
        0 <= x < 64,
    decreases ray_measure(f, r, df, dr),
{
    let nf = f + df;
    let nr = r + dr;
    if !(on_board(nf + df, nr + dr) && x == nr * 8 + nf) {
        lemma_ray_inner_on_board(nf, nr, df, dr, x);
    }
}

/// A ray reaches the same squares under two occupancies that agree on its inner squares.
proof fn lemma_ray_relevant(f: int, r: int, df: int, dr: int, occ: u64, occ2: u64, t: int)
    requires
        forall|x: int| #[trigger] ray_inner(f, r, df, dr, x) ==> bb_has(occ, x as u64) == bb_has(occ2, x as u64),
    ensures
        in_ray(f, r, df, dr, occ, t) == in_ray(f, r, df, dr, occ2, t),
    decreases ray_measure(f, r, df, dr),
{
    let nf = f + df;
    let nr = r + dr;
    if (df == 0 && dr == 0) || !on_board(f, r) || !on_board(nf, nr) {
    } else if t == nr * 8 + nf {
    } else if on_board(nf + df, nr + dr) {
        assert(ray_inner(f, r, df, dr, nr * 8 + nf));
        assert forall|x: int| #[trigger] ray_inner(nf, nr, df, dr, x) implies bb_has(occ, x as u64) == bb_has(occ2, x as u64) by {
            assert(ray_inner(f, r, df, dr, x));
        }
        lemma_ray_relevant(nf, nr, df, dr, occ, occ2, t);
    } else {
        assert(!in_ray(nf, nr, df, dr, occ, t));
        assert(!in_ray(nf, nr, df, dr, occ2, t));
    }
}

/// A slider's attacks depend only on the occupancy of its relevant squares `m`.
proof fn lemma_mask_relevant(bishop: bool, s: int, occ: u64, m: u64)
    requires
        0 <= s < 64,
        forall|i: u64| i < 64 ==> (#[trigger] bb_has(m, i) <==> slider_mask_has(bishop, s, i as int)),
    ensures
        forall|t: int| slider_attack(bishop, s, occ & m, t) == #[trigger] slider_attack(bishop, s, occ, t),
{
    let f = sq_file(s);
    let r = sq_rank(s);
    lemma_bits_all(occ, m);
    assert forall|t: int| slider_attack(bishop, s, occ & m, t) == #[trigger] slider_attack(bishop, s, occ, t) by {
        if bishop {
            lemma_dir_relevant(bishop, s, occ, m, 1, 1, t);
            lemma_dir_relevant(bishop, s, occ, m, 1, -1, t);
            lemma_dir_relevant(bishop, s, occ, m, -1, 1, t);
            lemma_dir_relevant(bishop, s, occ, m, -1, -1, t);
        } else {
            lemma_dir_relevant(bishop, s, occ, m, 1, 0, t);
            lemma_dir_relevant(bishop, s, occ, m, -1, 0, t);
            lemma_dir_relevant(bishop, s, occ, m, 0, 1, t);
            lemma_dir_relevant(bishop, s, occ, m, 0, -1, t);
        }
    }
}

proof fn lemma_dir_relevant(bishop: bool, s: int, occ: u64, m: u64, df: int, dr: int, t: int)
    requires
        0 <= s < 64,
        forall|i: u64| i < 64 ==> (#[trigger] bb_has(m, i) <==> slider_mask_has(bishop, s, i as int)),
        forall|i: u64| i < 64 ==> (#[trigger] bb_has(occ & m, i) <==> (bb_has(occ, i) && bb_has(m, i))),
        forall|x: int| #[trigger] ray_inner(sq_file(s), sq_rank(s), df, dr, x) ==> slider_mask_has(bishop, s, x),
    ensures
        in_ray(sq_file(s), sq_rank(s), df, dr, occ & m, t) == in_ray(sq_file(s), sq_rank(s), df, dr, occ, t),
{
    assert forall|x: int| #[trigger] ray_inner(sq_file(s), sq_rank(s), df, dr, x) implies bb_has(occ & m, x as u64) == bb_has(occ, x as u64) by {
        lemma_ray_inner_on_board(sq_file(s), sq_rank(s), df, dr, x);
        assert(bb_has(m, x as u64));
    }
    lemma_ray_relevant(sq_file(s), sq_rank(s), df, dr, occ & m, occ, t);
}

proof fn lemma_mask_step(file: int, rank: int, df: int, dr: int, f: int, r: int, m0: u64, m: u64)
    requires
        -1 <= df <= 1,
        -1 <= dr <= 1,
        df != 0 || dr != 0,
        on_board(f - df, r - dr),
        on_board(f, r),
        on_board(f + df, r + dr),
        forall|i: u64|
            #![trigger bb_has(m0, i)]
            #![trigger ray_inner(file, rank, df, dr, i as int)]
            i < 64 ==> (ray_inner(file, rank, df, dr, i as int) <==> (bb_has(m0, i) || ray_inner(f - df, r - dr, df, dr, i as int))),
        forall|i: u64| i < 64 ==> (#[trigger] bb_has(m, i) <==> (bb_has(m0, i) || i == r * 8 + f)),
    ensures
        forall|i: u64|
            #![trigger bb_has(m, i)]
            #![trigger ray_inner(file, rank, df, dr, i as int)]
            i < 64 ==> (ray_inner(file, rank, df, dr, i as int) <==> (bb_has(m, i) || ray_inner(f, r, df, dr, i as int))),
{
    assert forall|i: u64| i < 64 implies (ray_inner(file, rank, df, dr, i as int) <==> (#[trigger] bb_has(m, i)
        || ray_inner(f, r, df, dr, i as int))) by {
        assert(bb_has(m, i) <==> (bb_has(m0, i) || i == r * 8 + f));
        assert(ray_inner(file, rank, df, dr, i as int) <==> (bb_has(m0, i) || ray_inner(f - df, r - dr, df, dr, i as int)));
        assert(ray_inner(f - df, r - dr, df, dr, i as int) == (i == r * 8 + f || ray_inner(f, r, df, dr, i as int)));
    }
}

/// The inner squares of one ray.
fn ray_inner_mask(file: i32, rank: i32, df: i32, dr: i32) -> (m: u64)
    requires
        on_board(file as int, rank as int),
        -1 <= df <= 1,
        -1 <= dr <= 1,
        df != 0 || dr != 0,
    ensures
        forall|i: u64| i < 64 ==> (#[trigger] bb_has(m, i) <==> ray_inner(file as int, rank as int, df as int, dr as int, i as int)),
{
    let mut m: u64 = 0;
    let mut f: i32 = file + df;
    let mut r: i32 = rank + dr;
    proof {
        lemma_zero_all();
    }
    while 0 <= f && f < 8 && 0 <= r && r < 8 && 0 <= f + df && f + df < 8 && 0 <= r + dr && r + dr < 8
        invariant
            -1 <= df <= 1,
            -1 <= dr <= 1,
            df != 0 || dr != 0,
            on_board(file as int, rank as int),
            on_board((f - df) as int, (r - dr) as int),
            -1 <= f <= 8,
            -1 <= r <= 8,
            forall|i: u64|
                #![trigger bb_has(m, i)]
                #![trigger ray_inner(file as int, rank as int, df as int, dr as int, i as int)]
                i < 64 ==> (ray_inner(file as int, rank as int, df as int, dr as int, i as int) <==> (bb_has(m, i)
                || ray_inner((f - df) as int, (r - dr) as int, df as int, dr as int, i as int))),
        decreases ray_measure(f as int, r as int, df as int, dr as int) + 1,
    {
        let ghost m0 = m;
        set_bit(&mut m, Square((r * 8 + f) as u8));
        proof {
            lemma_mask_step(file as int, rank as int, df as int, dr as int, f as int, r as int, m0, m);
        }
        f = f + df;
        r = r + dr;
    }
    proof {
        assert forall|i: u64| i < 64 implies !#[trigger] ray_inner((f - df) as int, (r - dr) as int, df as int, dr as int, i as int) by {
            if on_board(f as int, r as int) {
                assert(!ray_inner(f as int, r as int, df as int, dr as int, i as int));
            }
        }
    }
    m
}

/// Relevant occupancy squares of a rook on `sq`: its file and rank, edges excluded.
pub fn rook_mask(sq: Square) -> (m: u64)
    requires
        sq.valid(),
    ensures
        forall|i: u64| i < 64 ==> (#[trigger] bb_has(m, i) <==> slider_mask_has(false, sq.0 as int, i as int)),
{
    let file = sq.file() as i32;
    let rank = sq.rank() as i32;
    let a = ray_inner_mask(file, rank, 1, 0);
    let b = ray_inner_mask(file, rank, -1, 0);
    let c = ray_inner_mask(file, rank, 0, 1);
    let d = ray_inner_mask(file, rank, 0, -1);
    proof {
        lemma_bits_all(a, b);
        lemma_bits_all(a | b, c);
        lemma_bits_all(a | b | c, d);
    }
    a | b | c | d
}

/// Relevant occupancy squares of a bishop on `sq`: its diagonals, edges excluded.
pub fn bishop_mask(sq: Square) -> (m: u64)
    requires
        sq.valid(),
    ensures
        forall|i: u64| i < 64 ==> (#[trigger] bb_has(m, i) <==> slider_mask_has(true, sq.0 as int, i as int)),
{
    let file = sq.file() as i32;
    let rank = sq.rank() as i32;
    let a = ray_inner_mask(file, rank, 1, 1);
    let b = ray_inner_mask(file, rank, 1, -1);
    let c = ray_inner_mask(file, rank, -1, 1);
    let d = ray_inner_mask(file, rank, -1, -1);
    proof {
        lemma_bits_all(a, b);
        lemma_bits_all(a | b, c);
        lemma_bits_all(a | b | c, d);
    }
    a | b | c | d
}

// ── Magic constants ───────────────────────────────────────────────────────────

/// The rook magic multiplier of square `s`.
fn rook_magic_number(s: usize) -> u64
    requires
        s < 64,
{
    let t: [u64; 64] = [
        0x8a80104000800020, 0x140002000100040, 0x2801880a0017001, 0x100081001000420,
        0x200020010080420, 0x3001c0002010008, 0x8480008002000100, 0x2080088004402900,
        0x800098204000, 0x2024401000200040, 0x100802000801000, 0x120800800801000,
        0x208808088000400, 0x2802200800400, 0x2200800100020080, 0x801000060821100,
        0x80044006422000, 0x100808020004000, 0x12108a0010204200, 0x140848010000802,
        0x481828014002800, 0x8094004002004100, 0x4010040010010802, 0x20008806104,
        0x100400080208000, 0x2040002120081000, 0x21200680100081, 0x20100080080080,
        0x2000a00200410, 0x20080800400, 0x80088400100102, 0x80004600042881,
        0x4040008040800020, 0x440003000200801, 0x4200011004500, 0x188020010100100,
        0x14800401802800, 0x2080040080800200, 0x124080204001001, 0x200046502000484,
        0x480400080088020, 0x1000422010034000, 0x30200100110040, 0x100021010009,
        0x2002080100110004, 0x202008004008002, 0x20020004010100, 0x2048440040820001,
        0x101002200408200, 0x40802000401080, 0x4008142004410100, 0x2060820c0120200,
        0x1001004080100, 0x20c020080040080, 0x2935610830022400, 0x44440041009200,
        0x280001040802101, 0x2100190040002085, 0x80c0084100102001, 0x4024081001000421,
        0x20030a0244872, 0x12001008414402, 0x2006104900a0804, 0x1004081002402,
    ];
    t[s]
}

/// The bishop magic multiplier of square `s`.
fn bishop_magic_number(s: usize) -> u64
    requires
        s < 64,
{
    let t: [u64; 64] = [
        0x40040844404084, 0x2004208a004208, 0x10190041080202, 0x108060845042010,
        0x581104180800210, 0x2112080446200010, 0x1080820820060210, 0x3c0808410220200,
        0x4050404440404, 0x21001420088, 0x24d0080801082102, 0x1020a0a020400,
        0x40308200402, 0x4011002100800, 0x401484104104005, 0x801010402020200,
        0x400210c3880100, 0x404022024108200, 0x810018200204102, 0x4002801a02003,
        0x85040820080400, 0x810102c808880400, 0xe900410884800, 0x8002020480840102,
        0x220200865090201, 0x2010100a02021202, 0x152048408022401, 0x20080002081110,
        0x4001001021004000, 0x800040400a011002, 0xe4004081011002, 0x1c004001012080,
        0x8004200962a00220, 0x8422100208500202, 0x2000402200300c08, 0x8646020080080080,
        0x80020a0200100808, 0x2010004880111000, 0x623000a080011400, 0x42008c0340209202,
        0x209188240001000, 0x400408a884001800, 0x110400a6080400, 0x1840060a44020800,
        0x90080104000041, 0x201011000808101, 0x1a2208080504f080, 0x8012020600211212,
        0x500861011240000, 0x180806108200800, 0x4000020e01040044, 0x300000261044000a,
        0x802241102020002, 0x20906061210001, 0x5a84841004010310, 0x4010801011c04,
        0xa010109502200, 0x4a02012000, 0x500201010098b028, 0x8040002811040900,
        0x28000010020204, 0x6000020202d0240, 0x8918844842082200, 0x4010011029020020,
    ];
    t[s]
}

/// Number of relevant occupancy squares of a rook (`bishop` false) or bishop on `s`.
fn relevant_bits(bishop: bool, s: usize) -> (n: u32)
    requires
        s < 64,
    ensures
        5 <= n <= 12,
{
    let rook: [u32; 64] = [
        12, 11, 11, 11, 11, 11, 11, 12,
        11, 10, 10, 10, 10, 10, 10, 11,
        11, 10, 10, 10, 10, 10, 10, 11,
        11, 10, 10, 10, 10, 10, 10, 11,
        11, 10, 10, 10, 10, 10, 10, 11,
        11, 10, 10, 10, 10, 10, 10, 11,
        11, 10, 10, 10, 10, 10, 10, 11,
        12, 11, 11, 11, 11, 11, 11, 12,
    ];
    let bish: [u32; 64] = [
        6, 5, 5, 5, 5, 5, 5, 6,
        5, 5, 5, 5, 5, 5, 5, 5,
        5, 5, 7, 7, 7, 7, 5, 5,
        5, 5, 7, 9, 9, 7, 5, 5,
        5, 5, 7, 9, 9, 7, 5, 5,
        5, 5, 7, 7, 7, 7, 5, 5,
        5, 5, 5, 5, 5, 5, 5, 5,
        6, 5, 5, 5, 5, 5, 5, 6,
    ];
    if bishop { bish[s] } else { rook[s] }
}

// ── Tables ────────────────────────────────────────────────────────────────────

/// How one square's relevant occupancy is hashed into the table.
#[derive(Clone, Copy)]
pub struct MagicEntry {
    pub mask: u64,
    pub magic: u64,
    pub shift: u32,
    pub offset: u32,
}

/// The magic entries of the 64 squares, the attack table they index, and for
/// each table slot the square and relevant occupancy whose attacks it holds.
pub struct SliderTable {
    pub entries: Vec<MagicEntry>,
    pub attacks: Vec<u64>,
    pub keys: Vec<(u8, u64)>,
}

impl SliderTable {
    /// Every entry's mask is its square's relevant squares, and every filled slot
    /// holds the attacks of its square under its occupancy.
    pub open spec fn wf(&self, bishop: bool) -> bool {
        &&& self.entries@.len() == 64
        &&& forall|s: int| 0 <= s < 64 ==> (#[trigger] self.entries@[s]).shift < 64
        &&& forall|s: int, i: u64| 0 <= s < 64 && i < 64 ==> (#[trigger] bb_has(self.entries@[s].mask, i) <==> slider_mask_has(bishop, s, i as int))
        &&& self.keys@.len() == self.attacks@.len()
        &&& forall|j: int| #![trigger self.keys@[j]] 0 <= j < self.keys@.len() && self.keys@[j].0 < 64 ==> forall|i: u64| i < 64 ==> (
            #[trigger] bb_has(self.attacks@[j], i) <==> slider_attack(bishop, self.keys@[j].0 as int, self.keys@[j].1, i as int))
    }

    /// The attacks of a bishop (`bishop`) or rook on `sq` under occupancy `occ`,
    /// read from the table; a slot holding another occupancy is recomputed.
    pub fn lookup(&self, bishop: bool, sq: Square, occ: u64) -> (b: u64)
        requires
            self.wf(bishop),
            sq.valid(),
        ensures
            forall|i: u64| i < 64 ==> (#[trigger] bb_has(b, i) <==> slider_attack(bishop, sq.0 as int, occ, i as int)),
    {
        let e = self.entries[sq.0 as usize];
        let sub = occ & e.mask;
        proof {
            lemma_mask_relevant(bishop, sq.0 as int, occ, e.mask);
        }
        let hashed = sub.wrapping_mul(e.magic) >> e.shift;
        let off = e.offset as usize;
        let len = self.attacks.len();
        if off < len && hashed < (len - off) as u64 {
            let idx = off + hashed as usize;
            let k = self.keys[idx];
            if k.0 == sq.0 && k.1 == sub {
                return self.attacks[idx];
            }
        }
        if bishop {
            slow_bishop_attacks(sq, occ)
        } else {
            slow_rook_attacks(sq, occ)
        }
    }
}

/// Writes into `table` the attacks of every occupancy of `mask` (enumerated by
/// the carry-rippler trick) at its magic index, recording each slot's owner.
fn fill_table(sq: Square, mask: u64, magic: u64, shift: u32, offset: u32, table: &mut Vec<u64>, keys: &mut Vec<(u8, u64)>, bishop: bool)
    requires
        sq.valid(),
        shift < 64,
        old(keys)@.len() == old(table)@.len(),
        forall|j: int| #![trigger old(keys)@[j]] 0 <= j < old(keys)@.len() && old(keys)@[j].0 < 64 ==> forall|i: u64| i < 64 ==> (
            #[trigger] bb_has(old(table)@[j], i) <==> slider_attack(bishop, old(keys)@[j].0 as int, old(keys)@[j].1, i as int)),
    ensures
        final(keys)@.len() == final(table)@.len(),
        final(table)@.len() == old(table)@.len(),
        forall|j: int| #![trigger final(keys)@[j]] 0 <= j < final(keys)@.len() && final(keys)@[j].0 < 64 ==> forall|i: u64| i < 64 ==> (
            #[trigger] bb_has(final(table)@[j], i) <==> slider_attack(bishop, final(keys)@[j].0 as int, final(keys)@[j].1, i as int)),
{
    let len = table.len();
    let off = offset as usize;
    let mut subset: u64 = 0;
    let mut n: u32 = 0;
    while n < 4096
        invariant
            sq.valid(),
            shift < 64,
            len == table@.len(),
            keys@.len() == table@.len(),
            off == offset as usize,
            forall|j: int| #![trigger keys@[j]] 0 <= j < keys@.len() && keys@[j].0 < 64 ==> forall|i: u64| i < 64 ==> (
                #[trigger] bb_has(table@[j], i) <==> slider_attack(bishop, keys@[j].0 as int, keys@[j].1, i as int)),
        decreases 4096 - n,
    {
        let attacks = if bishop { slow_bishop_attacks(sq, subset) } else { slow_rook_attacks(sq, subset) };
        let hashed = subset.wrapping_mul(magic) >> shift;
        if off < len && hashed < (len - off) as u64 {
            let idx = off + hashed as usize;
            let ghost t0 = table@;
            let ghost k0 = keys@;
            table.set(idx, attacks);
            keys.set(idx, (sq.0, subset));
            proof {
                assert forall|j: int| #![trigger keys@[j]] 0 <= j < keys@.len() && keys@[j].0 < 64 implies forall|i: u64| i < 64 ==> (
                    #[trigger] bb_has(table@[j], i) <==> slider_attack(bishop, keys@[j].0 as int, keys@[j].1, i as int)) by {
                    if j != idx as int {
                        assert(keys@[j] == k0[j]);
                        assert(table@[j] == t0[j]);
                    }
                }
            }
        }
        subset = subset.wrapping_sub(mask) & mask;
        n = n + 1;
        if subset == 0 {
            break;
        }
    }
}

/// Builds the table of a bishop (`bishop`) or a rook.
pub fn init_slider_table(bishop: bool) -> (t: SliderTable)
    ensures
        t.wf(bishop),
{
    let mut entries: Vec<MagicEntry> = Vec::new();
    let mut attacks: Vec<u64> = Vec::new();
    let mut keys: Vec<(u8, u64)> = Vec::new();
    let mut offset: u32 = 0;
    let mut sq: u8 = 0;
    while sq < 64
        invariant
            sq <= 64,
            entries@.len() == sq,
            forall|s: int| 0 <= s < sq ==> (#[trigger] entries@[s]).shift < 64,
            forall|s: int, i: u64| 0 <= s < sq && i < 64 ==> (#[trigger] bb_has(entries@[s].mask, i) <==> slider_mask_has(bishop, s, i as int)),
            keys@.len() == attacks@.len(),
            attacks@.len() == offset,
            offset <= sq * 4096,
            forall|j: int| #![trigger keys@[j]] 0 <= j < keys@.len() && keys@[j].0 < 64 ==> forall|i: u64| i < 64 ==> (
                #[trigger] bb_has(attacks@[j], i) <==> slider_attack(bishop, keys@[j].0 as int, keys@[j].1, i as int)),
        decreases 64 - sq,
    {
        let s = Square(sq);
        let mask = if bishop { bishop_mask(s) } else { rook_mask(s) };
        let bits = relevant_bits(bishop, sq as usize);
        let magic = if bishop { bishop_magic_number(sq as usize) } else { rook_magic_number(sq as usize) };
        let shift: u32 = 64 - bits;
        let size: u32 = 1u32 << bits;
        assert(size <= 4096) by (bit_vector)
            requires
                5 <= bits <= 12,
                size == 1u32 << bits,
        ;
        entries.push(MagicEntry { mask, magic, shift, offset });
        let mut k: u32 = 0;
        while k < size
            invariant
                k <= size,
                keys@.len() == attacks@.len(),
                attacks@.len() == offset + k,
                forall|j: int| #![trigger keys@[j]] 0 <= j < keys@.len() && keys@[j].0 < 64 ==> forall|i: u64| i < 64 ==> (
                    #[trigger] bb_has(attacks@[j], i) <==> slider_attack(bishop, keys@[j].0 as int, keys@[j].1, i as int)),
            decreases size - k,
        {
            attacks.push(0);
            keys.push((64u8, 0u64));
            k = k + 1;
        }
        fill_table(s, mask, magic, shift, offset, &mut attacks, &mut keys, bishop);
        offset = offset + size;
        sq = sq + 1;
    }
    SliderTable { entries, attacks, keys }
}

} // verus!
