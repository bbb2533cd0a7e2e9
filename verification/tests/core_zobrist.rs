use rchess::chess::zobrist::zobrist_keys;

#[test]
fn zobrist_keys_are_nonzero_distinct_and_stable() {
    let k = zobrist_keys();
    assert_eq!(k.castling[0], 0);
    let mut all: Vec<u64> = Vec::new();
    for c in 0..2 {
        for p in 0..6 {
            for s in 0..64 {
                all.push(k.piece_sq[c][p][s]);
            }
        }
    }
    all.push(k.side);
    all.extend_from_slice(&k.castling[1..]);
    all.extend_from_slice(&k.en_passant);
    assert_eq!(all.len(), 792);
    assert!(all.iter().all(|&x| x != 0));
    let mut sorted = all.clone();
    sorted.sort();
    sorted.dedup();
    assert_eq!(sorted.len(), all.len());
    let again = zobrist_keys();
    assert_eq!(again.piece_sq, k.piece_sq);
    assert_eq!(again.castling, k.castling);
    assert_eq!(again.en_passant, k.en_passant);
    assert_eq!(again.side, k.side);
}
