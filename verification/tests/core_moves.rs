use rchess::chess::moves::{Move, MoveFlag, MoveList, PromoKind};
use rchess::chess::types::{PieceType, Square};

#[test]
fn move_encoding_roundtrip() {
    let from = Square::new(4, 1);
    let to = Square::new(4, 3);
    let mv = Move::normal(from, to);
    assert_eq!(mv.from_sq(), from);
    assert_eq!(mv.to_sq(), to);
    assert_eq!(mv.flag(), MoveFlag::Normal);
}

#[test]
fn promo_encoding() {
    let from = Square::new(4, 6);
    let to = Square::new(4, 7);
    let mv = Move::promo(from, to, PromoKind::Queen);
    assert_eq!(mv.from_sq(), from);
    assert_eq!(mv.to_sq(), to);
    assert!(mv.is_promo());
    assert_eq!(mv.promo_piece_type(), PieceType::Queen);
    assert_eq!(mv.to_uci(), "e7e8q");
}

#[test]
fn move_list_push_len() {
    let mut list = MoveList::new();
    for i in 0u8..20 {
        list.push(Move::normal(Square(i), Square(i + 1)));
    }
    assert_eq!(list.len(), 20);
    assert_eq!(list.as_slice().len(), 20);
}

#[test]
fn special_moves_encode_their_flag() {
    let ep = Move::en_passant(Square(36), Square(43));
    assert!(ep.is_en_passant() && !ep.is_promo() && !ep.is_castling());
    let c = Move::castling(Square(4), Square(6));
    assert!(c.is_castling());
    assert_eq!(c.to_uci(), "e1g1");
    assert!(Move::null().is_null());
    assert_eq!(Move::promo(Square(52), Square(60), PromoKind::Knight).to_uci(), "e7e8n");
}

#[test]
fn move_list_default_is_empty() {
    let l = rchess::chess::moves::MoveList::default();
    assert!(l.is_empty());
    assert_eq!(l.len(), 0);
}

#[test]
fn square_from_str() {
    assert_eq!("e4".parse::<Square>(), Ok(Square(28)));
    assert_eq!("h8".parse::<Square>(), Ok(Square(63)));
    assert_eq!("i1".parse::<Square>(), Err(()));
    assert_eq!("e".parse::<Square>(), Err(()));
    assert_eq!("e44".parse::<Square>(), Err(()));
}
