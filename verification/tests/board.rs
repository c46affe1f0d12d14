use sigils_of_elohim_solver::Board;
use sigils_of_elohim_solver::FixedPiece::{I1, I2, O1};
use sigils_of_elohim_solver::Piece::{I, O};

#[test]
fn new() {
    let board = Board::new(5, 4);
    let position = board.position();

    assert_eq!(
        position.to_plain_string(),
        "....\n\
         ....\n\
         ....\n\
         ....\n\
         ....\n"
    );
}

#[test]
fn push() {
    let mut board = Board::new(4, 4);
    let output = board.push(I1);
    let position = board.position();

    assert!(output.is_ok());
    assert_eq!(
        position.to_plain_string(),
        "A...\n\
         A...\n\
         A...\n\
         A...\n"
    );
}

#[test]
fn push_twice() {
    let mut board = Board::new(4, 4);
    let output1 = board.push(I1);
    let output2 = board.push(I1);
    let position = board.position();

    assert!(output1.is_ok());
    assert!(output2.is_ok());
    assert_eq!(
        position.to_plain_string(),
        "AB..\n\
         AB..\n\
         AB..\n\
         AB..\n"
    );
}

#[test]
fn push_failure() {
    let mut board = Board::new(1, 4);
    let output = board.push(I1);
    let position = board.position();

    assert!(output.is_err());
    assert_eq!(position.to_plain_string(), "....\n");
}

#[test]
fn pop1() {
    let mut board = Board::new(5, 4);
    board.push(O1).unwrap();
    let popped = board.pop();
    let position = board.position();

    assert_eq!(popped, O);
    assert_eq!(
        position.to_plain_string(),
        "....\n\
         ....\n\
         ....\n\
         ....\n\
         ....\n"
    );
}

#[test]
fn pop2() {
    let mut board = Board::new(5, 4);
    board.push(O1).unwrap();
    board.push(I1).unwrap();
    let popped = board.pop();
    let position = board.position();

    assert_eq!(popped, I);
    assert_eq!(
        position.to_plain_string(),
        "AA..\n\
         AA..\n\
         ....\n\
         ....\n\
         ....\n"
    );
}

#[test]
fn is_complete() {
    let mut board = Board::new(1, 4);
    assert!(!board.is_complete());
    board.push(I2).unwrap();
    assert!(board.is_complete());
}
