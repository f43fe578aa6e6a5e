use chess_rules::BitBoard;

#[test]
fn set_and_get_round_trip() {
    let mut board = BitBoard::empty();
    board.set(12, true);
    assert!(board.get(12));
    assert!(!board.get(11));
    board.set(12, false);
    assert_eq!(board.to_number(), 0);
}
