use life::board::{Board, Square};

fn text(b: &Board) -> String {
    b.render().into_iter().collect()
}

#[test]
fn render_small_board_exact() {
    let mut b = Board::new(5, 3);
    b.set(1, 0, Square::Alive);
    b.set(3, 2, Square::Alive);
    let expected = "\
+-----+
| X   |
|     |
|   X |
+-----+
";
    assert_eq!(text(&b), expected);
}

#[test]
fn render_empty_board_is_blank_inside_border() {
    let b = Board::new(4, 2);
    let expected = "\
+----+
|    |
|    |
+----+
";
    assert_eq!(text(&b), expected);
}

#[test]
fn render_shows_exactly_the_seeded_cells() {
    let mut b = Board::new(80, 10);
    let seeds = [(5usize, 5usize), (6, 6), (6, 7), (5, 7), (4, 7)];
    for &(x, y) in seeds.iter() {
        b.set(x, y, Square::Alive);
    }
    let out = b.render();
    // height + 2 lines of width + 3 characters each
    assert_eq!(out.len(), (80 + 3) * (10 + 2));
    for y in 0..10usize {
        for x in 0..80usize {
            let c = out[(80 + 3) * (y + 1) + 1 + x];
            if seeds.contains(&(x, y)) {
                assert_eq!(c, 'X');
            } else {
                assert_eq!(c, ' ');
            }
        }
    }
}
