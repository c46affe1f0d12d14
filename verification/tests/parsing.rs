use sigils_of_elohim_solver::{ParsePieceCollectionError, Piece, PieceCollection};

#[test]
fn parse_all_kinds_case_insensitive() {
    let pieces = PieceCollection::from_str("iIoOtTjJlLsSzZ").unwrap();
    assert_eq!(pieces.count(Piece::I), 2);
    assert_eq!(pieces.count(Piece::O), 2);
    assert_eq!(pieces.count(Piece::T), 2);
    assert_eq!(pieces.count(Piece::J), 2);
    assert_eq!(pieces.count(Piece::L), 2);
    assert_eq!(pieces.count(Piece::S), 2);
    assert_eq!(pieces.count(Piece::Z), 2);
    assert_eq!(pieces.count_all(), 14);
}

#[test]
fn parse_rejects_unrecognized_character() {
    let result = PieceCollection::from_str("IOXT");
    assert!(matches!(
        result,
        Err(ParsePieceCollectionError::UnrecognizedCharacter)
    ));
}

#[test]
fn parse_empty_string() {
    let pieces = PieceCollection::from_str("").unwrap();
    assert_eq!(pieces.count_all(), 0);
}

#[test]
fn piece_and_shape_counts() {
    assert_eq!(Piece::count(), 7);
    assert_eq!(sigils_of_elohim_solver::FixedPiece::count(), 19);
    assert_eq!(sigils_of_elohim_solver::FixedPiece::array().len(), 19);
    assert_eq!(sigils_of_elohim_solver::MAX_PIECE_COUNT, 12);
}
