use reversi::coord::Coord;

#[test]
fn test_coord_add() {
    let a = Coord(5, 5);
    let b = Coord(-2, 3);
    let actual = a + b;
    let expected = Coord(3, 8);
    assert_eq!(expected, actual);
}

#[test]
fn test_coord_add_assign() {
    let mut actual = Coord(5, 5);
    actual += Coord(-2, 3);
    let expected = Coord(3, 8);
    assert_eq!(expected, actual);
}
