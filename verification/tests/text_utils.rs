use rchess::engine::time_manager::TimeManager;
use rchess::text::{
    find_chars, parse_u32, parse_u64, split_chars, split_words, str_chars, strip_prefix, trim_chars,
    trim_start_chars,
};
use rchess::utils::Xorshift64;

fn chars(s: &str) -> Vec<char> {
    s.chars().collect()
}

fn text(v: &[char]) -> String {
    v.iter().collect()
}

#[test]
fn words_and_pieces() {
    let w = split_words(&chars("  go  wtime\t100 \n"));
    let w: Vec<String> = w.iter().map(|x| text(x)).collect();
    assert_eq!(w, vec!["go", "wtime", "100"]);
    let p = split_chars(&chars("a//b"), '/');
    let p: Vec<String> = p.iter().map(|x| text(x)).collect();
    assert_eq!(p, vec!["a", "", "b"]);
}

#[test]
fn numbers_as_str_parse() {
    assert_eq!(parse_u32(&chars("4294967295")), Some(u32::MAX));
    assert_eq!(parse_u32(&chars("4294967296")), None);
    assert_eq!(parse_u32(&chars("+7")), Some(7));
    assert_eq!(parse_u32(&chars("")), None);
    assert_eq!(parse_u32(&chars("-1")), None);
    assert_eq!(parse_u64(&chars("18446744073709551615")), Some(u64::MAX));
    assert_eq!(parse_u64(&chars("18446744073709551616")), None);
    assert_eq!(parse_u64(&chars("12a")), None);
}

#[test]
fn prefixes_trimming_and_search() {
    assert_eq!(strip_prefix(&chars("position fen x"), "position ").map(|v| text(&v)), Some("fen x".to_string()));
    assert_eq!(strip_prefix(&chars("pos"), "position "), None);
    assert_eq!(text(&trim_start_chars(&chars(" \t moves"))), "moves");
    assert_eq!(text(&trim_chars(&chars("  a b  "))), "a b");
    assert_eq!(find_chars(&chars("a moves b moves c"), " moves "), Some(1));
    assert_eq!(find_chars(&chars("abc"), "d"), None);
    assert_eq!(find_chars(&chars("abc"), ""), Some(0));
    assert_eq!(str_chars("é1"), vec!['é', '1']);
}

#[test]
fn xorshift_sequence() {
    let mut r = Xorshift64::new(0);
    // The seed 0 becomes 1; one step from 1.
    assert_eq!(r.next_u64(), 0x2041 ^ (0x2041 << 17));
    let mut a = Xorshift64::new(42);
    let mut b = Xorshift64::new(43);
    assert_eq!(a.next_u64(), b.next_u64());
    assert_eq!(a.next_usize() as u64, b.next_u64());
}

#[test]
fn time_manager_budgets() {
    // 40 moves to go by default: 60000 / 60 = 1000 ms target plus 0.8 × 1000 increment.
    let tm = TimeManager::new(60_000, 1_000, None);
    assert!(!tm.panic_mode);
    assert_eq!(tm.soft_deadline, 1080);
    assert_eq!(tm.hard_deadline, 2700);
    // Panic mode below 500 ms: half the remaining time.
    let p = TimeManager::new(400, 0, Some(10));
    assert!(p.panic_mode);
    assert_eq!(p.hard_deadline, 300);
    let m = TimeManager::from_movetime(1000);
    assert_eq!(m.hard_deadline, 1000);
    assert_eq!(m.soft_deadline, 950);
    let i = TimeManager::infinite();
    assert_eq!(i.hard_deadline, 86_400_000);
    assert!(!i.soft_expired());
    assert!(!i.hard_expired());
}

#[test]
fn time_extension_moves_both_deadlines() {
    let mut tm = TimeManager::from_movetime(10_000);
    let (soft, hard) = (tm.soft_deadline, tm.hard_deadline);
    tm.extend(20);
    assert!(tm.hard_deadline > hard);
    assert_eq!(tm.hard_deadline - hard, tm.soft_deadline - soft);
}

#[test]
fn extension_at_a_given_moment() {
    let mut tm = TimeManager::from_movetime(10_000);
    tm.extend_at(4_000, 20);
    // 20 % of the 6 000 ms still left.
    assert_eq!(tm.hard_deadline, 11_200);
    assert_eq!(tm.soft_deadline, 9_500 + 1_200);
    let mut late = TimeManager::from_movetime(10_000);
    late.extend_at(12_000, 20);
    assert_eq!(late.hard_deadline, 10_000);
    assert_eq!(late.soft_deadline, 9_500);
}

#[test]
fn zero_deadlines_have_passed() {
    let tm = TimeManager::from_movetime(1);
    assert_eq!(tm.hard_deadline, 1);
    let mut z = TimeManager::from_movetime(1);
    z.soft_deadline = 0;
    z.hard_deadline = 0;
    assert!(z.soft_expired());
    assert!(z.hard_expired());
}
