use sigils_of_elohim_solver::{classify_shape, Piece, Rect};

#[test]
fn rect_dimensions() {
    let r = Rect { x1: 3, y1: 5, x2: 12, y2: 9 };
    assert_eq!(r.width(), 10);
    assert_eq!(r.height(), 5);
    assert_eq!(r.pixel_count(), 50);
}

#[test]
fn rect_grid() {
    let r = Rect { x1: 0, y1: 0, x2: 29, y2: 19 };
    let cells = r.grid();
    assert_eq!(cells[0], Rect { x1: 0, x2: 10, y1: 0, y2: 10 });
    assert_eq!(cells[1], Rect { x1: 11, x2: 21, y1: 0, y2: 10 });
    assert_eq!(cells[2], Rect { x1: 22, x2: 29, y1: 0, y2: 10 });
    assert_eq!(cells[3], Rect { x1: 0, x2: 10, y1: 11, y2: 19 });
    assert_eq!(cells[4], Rect { x1: 11, x2: 21, y1: 11, y2: 19 });
    assert_eq!(cells[5], Rect { x1: 22, x2: 29, y1: 11, y2: 19 });
}

#[test]
fn classify_templates() {
    // A blob filling only the quadrants of the T template.
    let t_counts = [(100, 0), (0, 100), (100, 0), (0, 100), (0, 100), (0, 100)];
    assert_eq!(classify_shape(&t_counts, 30, 20), Piece::T);

    let j_counts = [(0, 100), (0, 100), (0, 100), (100, 0), (100, 0), (0, 100)];
    assert_eq!(classify_shape(&j_counts, 30, 20), Piece::J);

    let l_counts = [(0, 100), (0, 100), (0, 100), (0, 100), (100, 0), (100, 0)];
    assert_eq!(classify_shape(&l_counts, 30, 20), Piece::L);

    let s_counts = [(100, 0), (0, 100), (0, 100), (0, 100), (0, 100), (100, 0)];
    assert_eq!(classify_shape(&s_counts, 30, 20), Piece::S);

    let z_counts = [(0, 100), (0, 100), (100, 0), (100, 0), (0, 100), (0, 100)];
    assert_eq!(classify_shape(&z_counts, 30, 20), Piece::Z);
}

#[test]
fn classify_i_against_o_by_aspect() {
    // A fully filled box matches the I/O template; the aspect ratio decides.
    let full = [(0, 100); 6];
    assert_eq!(classify_shape(&full, 50, 10), Piece::I);
    assert_eq!(classify_shape(&full, 20, 10), Piece::O);
}
