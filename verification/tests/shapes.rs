use sigils_of_elohim_solver::Board;
use sigils_of_elohim_solver::FixedPiece;
use sigils_of_elohim_solver::FixedPiece::{
    I1, I2, J1, J2, J3, J4, L1, L2, L3, L4, O1, S1, S2, T1, T2, T3, T4, Z1, Z2,
};

// Push fixed pieces onto a blank `row_count` by `col_count` board and
// return the display
fn push_output(row_count: u32, col_count: u32, pieces: &[FixedPiece]) -> String {
    let mut board = Board::new(row_count, col_count);
    for r in pieces {
        let output = board.push(*r);
        assert!(output.is_ok());
    }
    board.position().to_plain_string()
}

#[test]
fn i1() {
    assert_eq!(
        push_output(5, 4, &[I1]),
        "A...\n\
         A...\n\
         A...\n\
         A...\n\
         ....\n"
    );
}

#[test]
fn i2() {
    assert_eq!(
        push_output(5, 4, &[I2]),
        "AAAA\n\
         ....\n\
         ....\n\
         ....\n\
         ....\n"
    );
}

#[test]
fn o1() {
    assert_eq!(
        push_output(5, 4, &[O1]),
        "AA..\n\
         AA..\n\
         ....\n\
         ....\n\
         ....\n"
    );
}

#[test]
fn t1() {
    assert_eq!(
        push_output(5, 4, &[T1]),
        "AAA.\n\
         .A..\n\
         ....\n\
         ....\n\
         ....\n"
    );
}

#[test]
fn t2() {
    assert_eq!(
        push_output(4, 5, &[I2, T2]),
        "AAAAB\n\
         ...BB\n\
         ....B\n\
         .....\n"
    );
}

#[test]
fn t3() {
    assert_eq!(
        push_output(4, 6, &[I2, T3]),
        "AAAAB.\n\
         ...BBB\n\
         ......\n\
         ......\n"
    );
}

#[test]
fn t4() {
    assert_eq!(
        push_output(4, 5, &[T4]),
        "A....\n\
         AA...\n\
         A....\n\
         .....\n"
    );
}

#[test]
fn j1() {
    assert_eq!(
        push_output(4, 5, &[I2, J1]),
        "AAAAB\n\
         ....B\n\
         ...BB\n\
         .....\n"
    );
}

#[test]
fn j2() {
    assert_eq!(
        push_output(4, 5, &[J2]),
        "A....\n\
         AAA..\n\
         .....\n\
         .....\n"
    );
}

#[test]
fn j3() {
    assert_eq!(
        push_output(4, 5, &[J3]),
        "AA...\n\
         A....\n\
         A....\n\
         .....\n"
    );
}

#[test]
fn j4() {
    assert_eq!(
        push_output(4, 5, &[J4]),
        "AAA..\n\
         ..A..\n\
         .....\n\
         .....\n"
    );
}

#[test]
fn l1() {
    assert_eq!(
        push_output(4, 5, &[L1]),
        "A....\n\
         A....\n\
         AA...\n\
         .....\n"
    );
}

#[test]
fn l2() {
    assert_eq!(
        push_output(4, 5, &[L2]),
        "AAA..\n\
         A....\n\
         .....\n\
         .....\n"
    );
}

#[test]
fn l3() {
    assert_eq!(
        push_output(4, 5, &[L3]),
        "AA...\n\
         .A...\n\
         .A...\n\
         .....\n"
    );
}

#[test]
fn l4() {
    assert_eq!(
        push_output(4, 5, &[I2, L4]),
        "AAAAB\n\
         ..BBB\n\
         .....\n\
         .....\n"
    );
}

#[test]
fn s1() {
    assert_eq!(
        push_output(4, 6, &[I2, S1]),
        "AAAABB\n\
         ...BB.\n\
         ......\n\
         ......\n"
    );
}

#[test]
fn s2() {
    assert_eq!(
        push_output(4, 5, &[S2]),
        "A....\n\
         AA...\n\
         .A...\n\
         .....\n"
    );
}

#[test]
fn z1() {
    assert_eq!(
        push_output(4, 6, &[Z1]),
        "AA....\n\
         .AA...\n\
         ......\n\
         ......\n"
    );
}

#[test]
fn z2() {
    assert_eq!(
        push_output(4, 5, &[I2, Z2]),
        "AAAAB\n\
         ...BB\n\
         ...B.\n\
         .....\n"
    );
}
