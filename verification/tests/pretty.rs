use sigils_of_elohim_solver::Board;
use sigils_of_elohim_solver::FixedPiece::{I1, I2, Z1};

#[test]
fn empty_board() {
    let board = Board::new(4, 5);
    let position = board.position();
    let output = position.to_pretty_string();

    assert_eq!(
        output,
        "┌─────────┐\n\
         │░░░░░░░░░│\n\
         │░░░░░░░░░│\n\
         │░░░░░░░░░│\n\
         └─────────┘\n"
    );
}

#[test]
fn vertical_border() {
    let mut board = Board::new(4, 5);
    board.push(I1).unwrap();
    let position = board.position();
    let output = position.to_pretty_string();

    assert_eq!(
        output,
        "┌─┬───────┐\n\
         │ │░░░░░░░│\n\
         │ │░░░░░░░│\n\
         │ │░░░░░░░│\n\
         └─┴───────┘\n"
    );
}

#[test]
fn horizontal_border() {
    let mut board = Board::new(5, 4);
    board.push(I2).unwrap();
    let position = board.position();
    let output = position.to_pretty_string();

    assert_eq!(
        output,
        "┌───────┐\n\
         ├───────┤\n\
         │░░░░░░░│\n\
         │░░░░░░░│\n\
         │░░░░░░░│\n\
         └───────┘\n"
    );
}

#[test]
fn corners() {
    let mut board = Board::new(4, 5);
    board.push(Z1).unwrap();
    let position = board.position();
    let output = position.to_pretty_string();

    assert_eq!(
        output,
        "┌───┬─────┐\n\
         ├─┐ └─┐░░░│\n\
         │░└───┘░░░│\n\
         │░░░░░░░░░│\n\
         └─────────┘\n"
    );
}

#[test]
fn pretty_boundaries_match_plain() {
    // Re-derive the cell boundaries from the plain rendering alone and check
    // them against the pretty rendering, glyph for glyph.
    let mut board = Board::new(4, 4);
    board.push(I1).unwrap();
    board.push(Z1).unwrap();
    let position = board.position();
    let plain = position.to_plain_string();
    let pretty = position.to_pretty_string();

    let rows: Vec<&str> = plain.lines().collect();
    let height = rows.len();
    let width = rows[0].len();
    let cell = |r: i64, c: i64| -> Option<char> {
        if r < 0 || r >= height as i64 || c < 0 || c >= 2 * width as i64 {
            None
        } else {
            rows[r as usize].chars().nth((c / 2) as usize)
        }
    };
    let box_chars = [
        ' ', '?', '?', '│', '?', '┘', '┐', '┤', '?', '└', '┌', '├', '─', '┴', '┬', '┼',
    ];
    let mut expected = String::new();
    for r in 0..=height as i64 {
        for c in 0..=2 * width as i64 {
            let up = cell(r - 1, c - 1) != cell(r - 1, c);
            let down = cell(r, c - 1) != cell(r, c);
            let left = cell(r - 1, c - 1) != cell(r, c - 1);
            let right = cell(r - 1, c) != cell(r, c);
            let idx = (up as usize) + 2 * (down as usize) + 4 * (left as usize) + 8 * (right
                as usize);
            let glyph = if idx > 0 {
                box_chars[idx]
            } else if cell(r, c) == Some('.') {
                '░'
            } else {
                ' '
            };
            expected.push(glyph);
        }
        expected.push('\n');
    }
    assert_eq!(pretty, expected);
}
