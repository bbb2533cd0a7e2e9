//! Character-level helpers shared by the FEN, UCI and SAN code: whitespace,
//! decimal numbers and word splitting, each with its mathematical definition.
use vstd::prelude::*;
use vstd::string::*;
use crate::utils::string_from_chars;

verus! {

/// `c` is white space in the sense of `char::is_whitespace` (Unicode `White_Space`).
pub open spec fn is_ws(c: char) -> bool {
    let u = c as u32;
    ||| 9 <= u <= 13
    ||| u == 32
    ||| u == 0x85
    ||| u == 0xA0
    ||| u == 0x1680
    ||| 0x2000 <= u <= 0x200A
    ||| u == 0x2028
    ||| u == 0x2029
    ||| u == 0x202F
    ||| u == 0x205F
    ||| u == 0x3000
}

pub fn is_whitespace(c: char) -> (r: bool)
    ensures
        r == is_ws(c),
{
    let u = c as u32;
    (9 <= u && u <= 13) || u == 32 || u == 0x85 || u == 0xA0 || u == 0x1680 || (0x2000 <= u && u <= 0x200A)
        || u == 0x2028 || u == 0x2029 || u == 0x202F || u == 0x205F || u == 0x3000
}

/// An ASCII decimal digit.
pub open spec fn is_digit(c: char) -> bool {
    '0' <= c <= '9'
}

/// Value of an ASCII decimal digit.
pub open spec fn digit_value(c: char) -> int {
    c as int - '0' as int
}

/// The digit character for `d` in `0..10`.
pub open spec fn digit_char(d: int) -> char {
    if d == 0 {
        '0'
    } else if d == 1 {
        '1'
    } else if d == 2 {
        '2'
    } else if d == 3 {
        '3'
    } else if d == 4 {
        '4'
    } else if d == 5 {
        '5'
    } else if d == 6 {
        '6'
    } else if d == 7 {
        '7'
    } else if d == 8 {
        '8'
    } else {
        '9'
    }
}

/// Decimal notation of `n`, without leading zeros.
pub open spec fn dec_chars(n: nat) -> Seq<char>
    decreases n,
{
    if n < 10 {
        seq![digit_char(n as int)]
    } else {
        dec_chars(n / 10) + seq![digit_char((n % 10) as int)]
    }
}

pub fn digit_to_char(d: u32) -> (c: char)
    requires
        d < 10,
    ensures
        c == digit_char(d as int),
{
    match d {
        0 => '0',
        1 => '1',
        2 => '2',
        3 => '3',
        4 => '4',
        5 => '5',
        6 => '6',
        7 => '7',
        8 => '8',
        _ => '9',
    }
}

/// Appends the decimal notation of `n`.
pub fn push_dec(v: &mut Vec<char>, n: u32)
    ensures
        final(v)@ == old(v)@ + dec_chars(n as nat),
    decreases n,
{
    if n < 10 {
        v.push(digit_to_char(n));
    } else {
        push_dec(v, n / 10);
        v.push(digit_to_char(n % 10));
        proof {
            assert(old(v)@ + dec_chars((n / 10) as nat) + seq![digit_char((n % 10) as int)] =~= old(v)@
                + dec_chars(n as nat));
        }
    }
}

/// Appends the characters of `s`.
pub fn push_str(v: &mut Vec<char>, s: &str)
    ensures
        final(v)@ == old(v)@ + s@,
{
    let n = s.unicode_len();
    let mut i: usize = 0;
    while i < n
        invariant
            n == s@.len(),
            i <= n,
            v@ == old(v)@ + s@.subrange(0, i as int),
        decreases n - i,
    {
        let c = s.get_char(i);
        v.push(c);
        i = i + 1;
        proof {
            assert(s@.subrange(0, i as int) =~= s@.subrange(0, i - 1) + seq![c]);
        }
    }
    proof {
        assert(s@.subrange(0, n as int) =~= s@);
    }
}

/// The characters of `s`.
pub fn str_chars(s: &str) -> (v: Vec<char>)
    ensures
        v@ == s@,
{
    let mut v: Vec<char> = Vec::new();
    push_str(&mut v, s);
    proof {
        assert(Seq::<char>::empty() + s@ =~= s@);
    }
    v
}

/// `a` and `b` hold the same characters.
pub fn chars_eq(a: &Vec<char>, b: &Vec<char>) -> (r: bool)
    ensures
        r == (a@ == b@),
{
    if a.len() != b.len() {
        return false;
    }
    let mut i: usize = 0;
    while i < a.len()
        invariant
            a.len() == b.len(),
            i <= a.len(),
            forall|k: int| 0 <= k < i ==> a@[k] == b@[k],
        decreases a.len() - i,
    {
        if a[i] != b[i] {
            return false;
        }
        i = i + 1;
    }
    proof {
        assert(a@ =~= b@);
    }
    true
}

/// `a` holds the characters of `s`.
pub fn chars_eq_str(a: &Vec<char>, s: &str) -> (r: bool)
    ensures
        r == (a@ == s@),
{
    let b = str_chars(s);
    chars_eq(a, &b)
}

// ── Splitting into words ──────────────────────────────────────────────────────

/// Words of `s[i..]`, given the word `cur` being read and the words `acc` already
/// complete: maximal runs of non-white-space characters, as `str::split_whitespace`.
pub open spec fn words_from(s: Seq<char>, i: int, cur: Seq<char>, acc: Seq<Seq<char>>) -> Seq<Seq<char>>
    decreases s.len() - i,
{
    if i >= s.len() {
        if cur.len() > 0 {
            acc.push(cur)
        } else {
            acc
        }
    } else if is_ws(s[i]) {
        words_from(s, i + 1, seq![], if cur.len() > 0 { acc.push(cur) } else { acc })
    } else {
        words_from(s, i + 1, cur.push(s[i]), acc)
    }
}

/// The white-space separated words of `s`.
pub open spec fn words(s: Seq<char>) -> Seq<Seq<char>> {
    words_from(s, 0, seq![], seq![])
}

/// Pieces of `s[i..]` between occurrences of `sep`, as `str::split` (empty pieces kept).
pub open spec fn pieces_from(s: Seq<char>, sep: char, i: int, cur: Seq<char>, acc: Seq<Seq<char>>) -> Seq<Seq<char>>
    decreases s.len() - i,
{
    if i >= s.len() {
        acc.push(cur)
    } else if s[i] == sep {
        pieces_from(s, sep, i + 1, seq![], acc.push(cur))
    } else {
        pieces_from(s, sep, i + 1, cur.push(s[i]), acc)
    }
}

/// The pieces of `s` between occurrences of `sep`.
pub open spec fn split_on(s: Seq<char>, sep: char) -> Seq<Seq<char>> {
    pieces_from(s, sep, 0, seq![], seq![])
}

/// Views of a vector of character vectors.
pub open spec fn views(v: Seq<Vec<char>>) -> Seq<Seq<char>> {
    v.map_values(|w: Vec<char>| w@)
}

proof fn lemma_views_push(v: Seq<Vec<char>>, w: Vec<char>)
    ensures
        views(v.push(w)) == views(v).push(w@),
{
    assert(views(v.push(w)) =~= views(v).push(w@));
}

/// Splits `s` into its white-space separated words.
pub fn split_words(s: &Vec<char>) -> (r: Vec<Vec<char>>)
    ensures
        views(r@) == words(s@),
{
    let mut acc: Vec<Vec<char>> = Vec::new();
    let mut cur: Vec<char> = Vec::new();
    let mut i: usize = 0;
    proof {
        assert(views(acc@) =~= Seq::<Seq<char>>::empty());
    }
    while i < s.len()
        invariant
            i <= s.len(),
            words_from(s@, i as int, cur@, views(acc@)) == words(s@),
        decreases s.len() - i,
    {
        let c = s[i];
        if is_whitespace(c) {
            if cur.len() > 0 {
                proof {
                    lemma_views_push(acc@, cur);
                }
                acc.push(cur);
            }
            cur = Vec::new();
        } else {
            cur.push(c);
        }
        i = i + 1;
    }
    if cur.len() > 0 {
        proof {
            lemma_views_push(acc@, cur);
        }
        acc.push(cur);
    }
    acc
}

/// Splits `s` at every occurrence of `sep`.
pub fn split_chars(s: &Vec<char>, sep: char) -> (r: Vec<Vec<char>>)
    ensures
        views(r@) == split_on(s@, sep),
{
    let mut acc: Vec<Vec<char>> = Vec::new();
    let mut cur: Vec<char> = Vec::new();
    let mut i: usize = 0;
    proof {
        assert(views(acc@) =~= Seq::<Seq<char>>::empty());
    }
    while i < s.len()
        invariant
            i <= s.len(),
            pieces_from(s@, sep, i as int, cur@, views(acc@)) == split_on(s@, sep),
        decreases s.len() - i,
    {
        let c = s[i];
        if c == sep {
            proof {
                lemma_views_push(acc@, cur);
            }
            acc.push(cur);
            cur = Vec::new();
        } else {
            cur.push(c);
        }
        i = i + 1;
    }
    proof {
        lemma_views_push(acc@, cur);
    }
    acc.push(cur);
    acc
}

// ── Unsigned integers ─────────────────────────────────────────────────────────

/// Value of a string of decimal digits.
pub open spec fn digits_value(s: Seq<char>) -> nat
    decreases s.len(),
{
    if s.len() == 0 {
        0
    } else {
        digits_value(s.drop_last()) * 10 + digit_value(s.last()) as nat
    }
}

pub open spec fn all_digits(s: Seq<char>) -> bool {
    forall|i: int| 0 <= i < s.len() ==> #[trigger] is_digit(s[i])
}

/// `s` without a leading `+`.
pub open spec fn unsigned_body(s: Seq<char>) -> Seq<char> {
    if s.len() > 0 && s[0] == '+' {
        s.subrange(1, s.len() as int)
    } else {
        s
    }
}

/// What `str::parse::<u32>` gives: an optional `+`, then one or more digits whose
/// value fits in 32 bits.
pub open spec fn spec_parse_u32(s: Seq<char>) -> Option<u32> {
    let t = unsigned_body(s);
    if t.len() > 0 && all_digits(t) && digits_value(t) <= u32::MAX {
        Some(digits_value(t) as u32)
    } else {
        None
    }
}

/// What `str::parse::<u64>` gives.
pub open spec fn spec_parse_u64(s: Seq<char>) -> Option<u64> {
    let t = unsigned_body(s);
    if t.len() > 0 && all_digits(t) && digits_value(t) <= u64::MAX {
        Some(digits_value(t) as u64)
    } else {
        None
    }
}

proof fn lemma_digits_grow(t: Seq<char>, i: int, j: int)
    requires
        0 <= i <= j <= t.len(),
        all_digits(t),
    ensures
        digits_value(t.subrange(0, i)) <= digits_value(t.subrange(0, j)),
    decreases j - i,
{
    if i < j {
        lemma_digits_grow(t, i, j - 1);
        assert(t.subrange(0, j).drop_last() =~= t.subrange(0, j - 1));
        assert(is_digit(t[j - 1]));
    }
}

/// Value of the decimal digits of `s` (after an optional `+`), if they fit in `u64`.
fn parse_digits(s: &Vec<char>) -> (r: Option<u64>)
    ensures
        r == spec_parse_u64(s@),
{
    let start: usize = if s.len() > 0 && s[0] == '+' { 1 } else { 0 };
    let ghost t = unsigned_body(s@);
    proof {
        assert(t =~= s@.subrange(start as int, s@.len() as int));
    }
    if start >= s.len() {
        return None;
    }
    let mut v: u64 = 0;
    let mut i: usize = start;
    while i < s.len()
        invariant
            start <= i <= s.len(),
            start < s.len(),
            t == unsigned_body(s@),
            t == s@.subrange(start as int, s@.len() as int),
            all_digits(t.subrange(0, i - start)),
            v == digits_value(t.subrange(0, i - start)),
        decreases s.len() - i,
    {
        let c = s[i];
        if !('0' <= c && c <= '9') {
            proof {
                assert(t[i - start] == c);
                assert(!is_digit(t[i - start]));
            }
            return None;
        }
        let d = (c as u32 - '0' as u32) as u64;
        proof {
            let p = t.subrange(0, i - start + 1);
            assert(p.drop_last() =~= t.subrange(0, i - start));
            assert(p.last() == c);
            assert(all_digits(p)) by {
                assert forall|k: int| 0 <= k < p.len() implies #[trigger] is_digit(p[k]) by {
                    if k < p.len() - 1 {
                        assert(p[k] == t.subrange(0, i - start)[k]);
                    }
                }
            }
        }
        if v > (u64::MAX - d) / 10 {
            proof {
                let p = t.subrange(0, i - start + 1);
                assert(digits_value(p) == v * 10 + d);
                assert(v * 10 + d > u64::MAX) by (nonlinear_arith)
                    requires
                        v > (u64::MAX - d) / 10,
                        d <= 9,
                ;
                if all_digits(t) {
                    lemma_digits_grow(t, i - start + 1, t.len() as int);
                    assert(t.subrange(0, t.len() as int) =~= t);
                    assert(digits_value(t) > u64::MAX);
                }
                assert(spec_parse_u64(s@) is None);
            }
            return None;
        }
        proof {
            assert(v * 10 + d <= u64::MAX) by (nonlinear_arith)
                requires
                    v <= (u64::MAX - d) / 10,
                    d <= 9,
            ;
        }
        v = v * 10 + d;
        i = i + 1;
    }
    proof {
        assert(t.subrange(0, i - start) =~= t);
    }
    Some(v)
}

/// `str::parse::<u32>` on the characters of `s`.
pub fn parse_u32(s: &Vec<char>) -> (r: Option<u32>)
    ensures
        r == spec_parse_u32(s@),
{
    match parse_digits(s) {
        Some(v) => {
            if v <= u32::MAX as u64 {
                Some(v as u32)
            } else {
                None
            }
        },
        None => {
            proof {
                let t = unsigned_body(s@);
                if t.len() > 0 && all_digits(t) && digits_value(t) <= u32::MAX {
                    assert(spec_parse_u64(s@) is Some);
                }
            }
            None
        },
    }
}

/// `str::parse::<u64>` on the characters of `s`.
pub fn parse_u64(s: &Vec<char>) -> (r: Option<u64>)
    ensures
        r == spec_parse_u64(s@),
{
    parse_digits(s)
}

// ── Prefixes, trimming and searching ──────────────────────────────────────────

/// `s` without its prefix `p`, if it starts with `p` (as `str::strip_prefix`).
pub open spec fn strip(s: Seq<char>, p: Seq<char>) -> Option<Seq<char>> {
    if p.len() <= s.len() && s.subrange(0, p.len() as int) == p {
        Some(s.subrange(p.len() as int, s.len() as int))
    } else {
        None
    }
}

/// Index of the first character of `s` at or after `i` that is not white space.
pub open spec fn skip_ws(s: Seq<char>, i: int) -> int
    decreases s.len() - i,
{
    if 0 <= i < s.len() && is_ws(s[i]) {
        skip_ws(s, i + 1)
    } else {
        i
    }
}

/// `s` without leading white space (as `str::trim_start`).
pub open spec fn trim_start(s: Seq<char>) -> Seq<char> {
    s.subrange(skip_ws(s, 0), s.len() as int)
}

/// Length of `s[..n]` without its trailing white space.
pub open spec fn trimmed_len(s: Seq<char>, n: int) -> int
    decreases n,
{
    if 0 < n <= s.len() && is_ws(s[n - 1]) {
        trimmed_len(s, n - 1)
    } else {
        n
    }
}

/// `s` without leading and trailing white space (as `str::trim`).
pub open spec fn trim(s: Seq<char>) -> Seq<char> {
    let t = trim_start(s);
    t.subrange(0, trimmed_len(t, t.len() as int))
}

/// `p` occurs in `s` at index `i`.
pub open spec fn occurs_at(s: Seq<char>, p: Seq<char>, i: int) -> bool {
    0 <= i && i + p.len() <= s.len() && s.subrange(i, i + p.len()) == p
}

/// First index at or after `i` where `p` occurs in `s`.
pub open spec fn find_from(s: Seq<char>, p: Seq<char>, i: int) -> Option<int>
    decreases s.len() + 1 - i,
{
    if i < 0 || i + p.len() > s.len() {
        None
    } else if occurs_at(s, p, i) {
        Some(i)
    } else {
        find_from(s, p, i + 1)
    }
}

/// First index where `p` occurs in `s` (as `str::find`).
pub open spec fn find(s: Seq<char>, p: Seq<char>) -> Option<int> {
    find_from(s, p, 0)
}

proof fn lemma_skip_ws_bounds(s: Seq<char>, i: int)
    requires
        0 <= i <= s.len(),
    ensures
        i <= skip_ws(s, i) <= s.len(),
    decreases s.len() - i,
{
    if i < s.len() && is_ws(s[i]) {
        lemma_skip_ws_bounds(s, i + 1);
    }
}

proof fn lemma_trimmed_len_bounds(s: Seq<char>, n: int)
    requires
        0 <= n <= s.len(),
    ensures
        0 <= trimmed_len(s, n) <= n,
    decreases n,
{
    if 0 < n && is_ws(s[n - 1]) {
        lemma_trimmed_len_bounds(s, n - 1);
    }
}

/// The characters `s[lo..hi]`.
pub fn sub_chars(s: &Vec<char>, lo: usize, hi: usize) -> (r: Vec<char>)
    requires
        lo <= hi <= s@.len(),
    ensures
        r@ == s@.subrange(lo as int, hi as int),
{
    let mut r: Vec<char> = Vec::new();
    let mut i: usize = lo;
    while i < hi
        invariant
            lo <= i <= hi <= s@.len(),
            r@ == s@.subrange(lo as int, i as int),
        decreases hi - i,
    {
        r.push(s[i]);
        i = i + 1;
        proof {
            assert(r@ =~= s@.subrange(lo as int, i as int));
        }
    }
    r
}

/// Whether `p` occurs in `s` at index `i`.
fn matches_at(s: &Vec<char>, p: &Vec<char>, i: usize) -> (r: bool)
    ensures
        r == occurs_at(s@, p@, i as int),
{
    if i > s.len() || p.len() > s.len() - i {
        return false;
    }
    let slen = s.len();
    let mut k: usize = 0;
    while k < p.len()
        invariant
            slen == s@.len(),
            i + p@.len() <= s@.len(),
            k <= p@.len(),
            forall|j: int| 0 <= j < k ==> s@[i + j] == p@[j],
        decreases p@.len() - k,
    {
        if s[i + k] != p[k] {
            proof {
                assert(s@.subrange(i as int, i + p@.len())[k as int] != p@[k as int]);
            }
            return false;
        }
        k = k + 1;
    }
    proof {
        assert(s@.subrange(i as int, i + p@.len()) =~= p@);
    }
    true
}

/// `s` without its prefix `p`, if it starts with `p` (as `str::strip_prefix`).
pub fn strip_prefix(s: &Vec<char>, p: &str) -> (r: Option<Vec<char>>)
    ensures
        match r {
            Some(v) => strip(s@, p@) == Some(v@),
            None => strip(s@, p@) is None,
        },
{
    let pv = str_chars(p);
    if matches_at(s, &pv, 0) {
        Some(sub_chars(s, pv.len(), s.len()))
    } else {
        None
    }
}

/// Whether `s` starts with `p`.
pub fn starts_with(s: &Vec<char>, p: &str) -> (r: bool)
    ensures
        r == (strip(s@, p@) is Some),
{
    let pv = str_chars(p);
    matches_at(s, &pv, 0)
}

/// `s` without leading white space (as `str::trim_start`).
pub fn trim_start_chars(s: &Vec<char>) -> (r: Vec<char>)
    ensures
        r@ == trim_start(s@),
{
    let mut i: usize = 0;
    while i < s.len() && is_whitespace(s[i])
        invariant
            i <= s@.len(),
            skip_ws(s@, i as int) == skip_ws(s@, 0),
        decreases s@.len() - i,
    {
        i = i + 1;
    }
    sub_chars(s, i, s.len())
}

/// `s` without leading and trailing white space (as `str::trim`).
pub fn trim_chars(s: &Vec<char>) -> (r: Vec<char>)
    ensures
        r@ == trim(s@),
{
    let t = trim_start_chars(s);
    proof {
        lemma_skip_ws_bounds(s@, 0);
    }
    let mut n: usize = t.len();
    while n > 0 && is_whitespace(t[n - 1])
        invariant
            n <= t@.len(),
            trimmed_len(t@, n as int) == trimmed_len(t@, t@.len() as int),
        decreases n,
    {
        n = n - 1;
    }
    sub_chars(&t, 0, n)
}

/// First index where `p` occurs in `s` (as `str::find`).
pub fn find_chars(s: &Vec<char>, p: &str) -> (r: Option<usize>)
    ensures
        match r {
            Some(i) => find(s@, p@) == Some(i as int) && occurs_at(s@, p@, i as int),
            None => find(s@, p@) is None,
        },
{
    let pv = str_chars(p);
    if pv.len() == 0 {
        proof {
            assert(s@.subrange(0, 0) =~= p@);
        }
        return Some(0);
    }
    let mut i: usize = 0;
    while i <= s.len() && pv.len() <= s.len() - i
        invariant
            pv@ == p@,
            pv@.len() > 0,
            i <= s@.len() + 1,
            find_from(s@, p@, i as int) == find_from(s@, p@, 0),
        decreases s@.len() + 1 - i,
    {
        if matches_at(s, &pv, i) {
            return Some(i);
        }
        i = i + 1;
    }
    None
}

/// An owned copy of `s`.
pub fn string_of(s: &str) -> (r: String)
    ensures
        r@ == s@,
{
    string_from_chars(str_chars(s))
}

/// The character sequences of a list of strings.
pub open spec fn texts(v: Seq<String>) -> Seq<Seq<char>> {
    v.map_values(|s: String| s@)
}

// ── Reading back what was written ─────────────────────────────────────────────

/// The digit characters are digits and have their value.
pub proof fn lemma_digit_char(d: int)
    requires
        0 <= d < 10,
    ensures
        is_digit(digit_char(d)),
        digit_value(digit_char(d)) == d,
        !is_ws(digit_char(d)),
{
}

/// The decimal notation of `n` is a non-empty string of digits worth `n`.
pub proof fn lemma_dec_chars(n: nat)
    ensures
        dec_chars(n).len() > 0,
        all_digits(dec_chars(n)),
        digits_value(dec_chars(n)) == n,
        forall|i: int| 0 <= i < dec_chars(n).len() ==> !is_ws(#[trigger] dec_chars(n)[i]),
    decreases n,
{
    if n < 10 {
        lemma_digit_char(n as int);
        let s = dec_chars(n);
        assert(s.drop_last() =~= Seq::<char>::empty());
        assert(digits_value(s.drop_last()) == 0);
        assert(s.last() == digit_char(n as int));
        assert(digits_value(s) == digit_value(digit_char(n as int)));
    } else {
        lemma_dec_chars(n / 10);
        lemma_digit_char((n % 10) as int);
        let s = dec_chars(n);
        assert(s.drop_last() =~= dec_chars(n / 10));
        assert((n / 10) * 10 + n % 10 == n) by (nonlinear_arith);
        assert(s.last() == digit_char((n % 10) as int));
        assert(digits_value(s) == digits_value(dec_chars(n / 10)) * 10 + digit_value(digit_char((n % 10) as int)));
        assert forall|i: int| 0 <= i < s.len() implies #[trigger] is_digit(s[i]) && !is_ws(s[i]) by {
            if i < s.len() - 1 {
                assert(s[i] == dec_chars(n / 10)[i]);
            }
        }
    }
}

/// `str::parse::<u32>` reads back the decimal notation of a `u32`.
pub proof fn lemma_parse_dec(n: u32)
    ensures
        spec_parse_u32(dec_chars(n as nat)) == Some(n),
{
    lemma_dec_chars(n as nat);
    let s = dec_chars(n as nat);
    assert(is_digit(s[0]));
    assert(unsigned_body(s) == s);
}

/// `w` has characters and none of them is white space.
pub open spec fn is_word(w: Seq<char>) -> bool {
    w.len() > 0 && forall|i: int| 0 <= i < w.len() ==> !is_ws(#[trigger] w[i])
}

/// Reading a run of non-space characters extends the current word.
proof fn lemma_words_run(s: Seq<char>, i: int, j: int, cur: Seq<char>, acc: Seq<Seq<char>>)
    requires
        0 <= i <= j <= s.len(),
        forall|x: int| i <= x < j ==> !is_ws(#[trigger] s[x]),
    ensures
        words_from(s, i, cur, acc) == words_from(s, j, cur + s.subrange(i, j), acc),
    decreases j - i,
{
    if i == j {
        assert(cur + s.subrange(i, j) =~= cur);
    } else {
        lemma_words_run(s, i + 1, j, cur.push(s[i]), acc);
        assert(cur.push(s[i]) + s.subrange(i + 1, j) =~= cur + s.subrange(i, j));
    }
}

/// The word `w` at index `i` of `s`, ended by white space or the end of `s`, is
/// the next word read.
proof fn lemma_words_word(s: Seq<char>, i: int, w: Seq<char>, acc: Seq<Seq<char>>)
    requires
        0 <= i,
        i + w.len() <= s.len(),
        s.subrange(i, i + w.len()) == w,
        is_word(w),
        i + w.len() < s.len() ==> is_ws(s[i + w.len()]),
    ensures
        i + w.len() == s.len() ==> words_from(s, i, seq![], acc) == acc.push(w),
        i + w.len() < s.len() ==> words_from(s, i, seq![], acc) == words_from(s, i + w.len() + 1, seq![], acc.push(w)),
{
    let j = i + w.len();
    assert forall|x: int| i <= x < j implies !is_ws(#[trigger] s[x]) by {
        assert(s[x] == w[x - i]);
    }
    lemma_words_run(s, i, j, seq![], acc);
    assert(Seq::<char>::empty() + s.subrange(i, j) =~= w);
}

/// Six words joined by single spaces are read back as those six words.
pub proof fn lemma_words_six(a: Seq<char>, b: Seq<char>, c: Seq<char>, d: Seq<char>, e: Seq<char>, f: Seq<char>)
    requires
        is_word(a),
        is_word(b),
        is_word(c),
        is_word(d),
        is_word(e),
        is_word(f),
    ensures
        words(a + seq![' '] + b + seq![' '] + c + seq![' '] + d + seq![' '] + e + seq![' '] + f) == seq![a, b, c, d, e, f],
{
    let s = a + seq![' '] + b + seq![' '] + c + seq![' '] + d + seq![' '] + e + seq![' '] + f;
    let pa = 0int;
    let pb = pa + a.len() + 1;
    let pc = pb + b.len() + 1;
    let pd = pc + c.len() + 1;
    let pe = pd + d.len() + 1;
    let pf = pe + e.len() + 1;
    assert(s.len() == pf + f.len());
    assert(s.subrange(pa, pa + a.len()) =~= a);
    assert(s.subrange(pb, pb + b.len()) =~= b);
    assert(s.subrange(pc, pc + c.len()) =~= c);
    assert(s.subrange(pd, pd + d.len()) =~= d);
    assert(s.subrange(pe, pe + e.len()) =~= e);
    assert(s.subrange(pf, pf + f.len()) =~= f);
    assert(s[pa + a.len()] == ' ');
    assert(s[pb + b.len()] == ' ');
    assert(s[pc + c.len()] == ' ');
    assert(s[pd + d.len()] == ' ');
    assert(s[pe + e.len()] == ' ');
    let e0 = Seq::<Seq<char>>::empty();
    lemma_words_word(s, pa, a, e0);
    lemma_words_word(s, pb, b, e0.push(a));
    lemma_words_word(s, pc, c, e0.push(a).push(b));
    lemma_words_word(s, pd, d, e0.push(a).push(b).push(c));
    lemma_words_word(s, pe, e, e0.push(a).push(b).push(c).push(d));
    lemma_words_word(s, pf, f, e0.push(a).push(b).push(c).push(d).push(e));
    assert(e0.push(a).push(b).push(c).push(d).push(e).push(f) =~= seq![a, b, c, d, e, f]);
}

} // verus!
