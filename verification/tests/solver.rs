use sigils_of_elohim_solver::{Board, PieceCollection, Solver};

#[test]
fn solve_one() {
    let board = Board::new(1, 4);
    let mut solver = Solver::new(board, PieceCollection::from_str("I").unwrap());
    let solution = solver.solve_one();
    assert!(solution.is_some());
    assert_eq!(solution.unwrap().to_plain_string(), "AAAA\n");
}

#[test]
fn solve_one_deterministic() {
    let first = sigils_of_elohim_solver::solve_one(
        4,
        4,
        PieceCollection::from_str("LLZZ").unwrap(),
    )
    .unwrap()
    .unwrap();
    let second = sigils_of_elohim_solver::solve_one(
        4,
        4,
        PieceCollection::from_str("LLZZ").unwrap(),
    )
    .unwrap()
    .unwrap();
    assert_eq!(first.to_plain_string(), second.to_plain_string());
    assert_eq!(first.to_pretty_string(), second.to_pretty_string());
}

#[test]
fn solve_one_unsatisfiable() {
    let result = sigils_of_elohim_solver::solve_one(
        1,
        4,
        PieceCollection::from_str("T").unwrap(),
    );
    assert!(matches!(result, Ok(None)));
}

#[test]
fn solve_one_known_solutions() {
    let row = sigils_of_elohim_solver::solve_one(1, 4, PieceCollection::from_str("I").unwrap())
        .unwrap()
        .unwrap();
    assert_eq!(row.to_plain_string(), "AAAA\n");

    let square = sigils_of_elohim_solver::solve_one(
        4,
        4,
        PieceCollection::from_str("LLZZ").unwrap(),
    )
    .unwrap()
    .unwrap();
    assert_eq!(square.to_plain_string(), "AAAB\nACBB\nCCBD\nCDDD\n");
}

#[test]
fn solve_one_invalid_board_size() {
    let result = sigils_of_elohim_solver::solve_one(
        1,
        3,
        PieceCollection::from_str("").unwrap(),
    );
    assert!(matches!(
        result,
        Err(sigils_of_elohim_solver::SolveOneError::InvalidBoardSize)
    ));
}

#[test]
fn solve_one_inconsistent_piece_count() {
    let result = sigils_of_elohim_solver::solve_one(
        2,
        4,
        PieceCollection::from_str("I").unwrap(),
    );
    assert!(matches!(
        result,
        Err(sigils_of_elohim_solver::SolveOneError::InconsistentPieceCount)
    ));
}

#[test]
fn solve_one_piece_count_over_limit() {
    let result = sigils_of_elohim_solver::solve_one(
        4,
        13,
        PieceCollection::from_str("IIIIIIIIIIIII").unwrap(),
    );
    assert!(matches!(
        result,
        Err(sigils_of_elohim_solver::SolveOneError::PieceCountOverLimit)
    ));
}

#[test]
fn solve_one_validity() {
    // Every cell of a solution is a letter; each letter marks exactly four
    // cells; the letters' kinds match the input pieces.
    let solution = sigils_of_elohim_solver::solve_one(
        4,
        4,
        PieceCollection::from_str("IJLZ").unwrap(),
    )
    .unwrap()
    .unwrap();
    let text = solution.to_plain_string();
    assert_eq!(text, "ABBC\nABCC\nABCD\nADDD\n");
    let mut letters = 0;
    for line in text.lines() {
        assert_eq!(line.len(), 4);
        for ch in line.chars() {
            assert!(ch.is_ascii_uppercase());
            letters += 1;
        }
    }
    assert_eq!(letters, 16);
    for label in ['A', 'B', 'C', 'D'] {
        assert_eq!(text.chars().filter(|&ch| ch == label).count(), 4);
    }
}
