//! Regression fixtures: known puzzles with the solution the deterministic
//! search is expected to return.

use sigils_of_elohim_solver::{solve_one, PieceCollection};

fn solve_text(rows: u32, cols: u32, pieces: &str) -> String {
    let pieces = PieceCollection::from_str(pieces).unwrap();
    solve_one(rows, cols, pieces)
        .unwrap()
        .unwrap()
        .to_plain_string()
}

#[test]
fn fixture_small_squares() {
    assert_eq!(solve_text(4, 4, "LLZZ"), "AAAB\nACBB\nCCBD\nCDDD\n");
    assert_eq!(solve_text(4, 4, "IJLZ"), "ABBC\nABCC\nABCD\nADDD\n");
    assert_eq!(solve_text(4, 4, "OOLL"), "AABB\nAABB\nCCCD\nCDDD\n");
    assert_eq!(solve_text(4, 4, "SSJJ"), "AABB\nABBC\nADDC\nDDCC\n");
    assert_eq!(solve_text(4, 4, "TTLZ"), "AAAB\nCABB\nCDDB\nCCDD\n");
}

#[test]
fn fixture_tall_boards() {
    assert_eq!(solve_text(5, 4, "ITTLZ"), "AAAA\nBBBC\nDBCC\nDEEC\nDDEE\n");
    assert_eq!(solve_text(5, 4, "JLSZZ"), "AABB\nABBC\nADCC\nDDCE\nDEEE\n");
    assert_eq!(
        solve_text(6, 4, "IOTTJZ"),
        "ABBB\nACCB\nACCD\nAEDD\nEEFD\nEFFF\n"
    );
    assert_eq!(
        solve_text(10, 4, "STTTTOOILL"),
        "ABCC\nABBC\nABDC\nAEDD\nEEFD\nGEFF\nGGFH\nGHHH\nIIJJ\nIIJJ\n"
    );
}

#[test]
fn fixture_wide_boards() {
    assert_eq!(
        solve_text(4, 7, "ITTJJLZ"),
        "ABBBCDD\nAEBCCDF\nAEGGCDF\nAEEGGFF\n"
    );
    assert_eq!(
        solve_text(4, 10, "OJTTSSZZII"),
        "ABBBBCCDDE\nAFFFCCDDEE\nAGGFHIIJJE\nAGGHHHIIJJ\n"
    );
    assert_eq!(
        solve_text(5, 8, "TTTTOOSZJI"),
        "ABBCCDDE\nABBCCDEE\nAFFFGDHE\nAIFGGJHH\nIIIGJJJH\n"
    );
}

#[test]
fn fixture_large_boards() {
    assert_eq!(
        solve_text(8, 6, "OOTTTTSSZZJL"),
        "AABBCC\nAABBDC\nEEFDDC\nEFFDGG\nEFHGGI\nJHHHII\nJJKKLI\nJKKLLL\n"
    );
    assert_eq!(
        solve_text(6, 8, "ITTOOSZZZJJJ"),
        "ABBCCDDD\nABBCCEDF\nAGGHEEFF\nAGHHIEFJ\nKGHIILLJ\nKKKILLJJ\n"
    );
    assert_eq!(
        solve_text(8, 5, "ZZSTTIILLO"),
        "ABCDD\nABCDD\nABCCE\nABFEE\nGGFFE\nHGGFI\nHJJII\nHHJJI\n"
    );
}
