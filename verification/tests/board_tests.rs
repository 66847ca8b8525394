use life::board::{Board, Square};

fn flat(b: &Board, x: usize, y: usize) -> usize {
    y * (b.width as usize) + x
}

#[test]
fn set_then_get_returns_value() {
    let mut b = Board::new(80, 10);
    b.set(5, 5, Square::Alive);
    assert_eq!(b.get(5, 5), Square::Alive);
    b.set(0, 0, Square::Alive);
    assert_eq!(b.get(0, 0), Square::Alive);
    b.set(79, 9, Square::Alive);
    assert_eq!(b.get(79, 9), Square::Alive);
    b.set(5, 5, Square::Dead);
    assert_eq!(b.get(5, 5), Square::Dead);
    // untouched squares stay dead
    assert_eq!(b.get(40, 4), Square::Dead);
}

#[test]
fn wrap_is_identity_in_range() {
    let b = Board::new(80, 10);
    assert_eq!(b.wrap(0, 0), (0, 0));
    assert_eq!(b.wrap(3, 4), (3, 4));
    assert_eq!(b.wrap(79, 9), (79, 9));
}

#[test]
fn wrap_negative_side_wraps_around() {
    let b = Board::new(80, 10);
    assert_eq!(b.wrap(-1, -1), (79, 9));
    assert_eq!(b.wrap(-80, -10), (0, 0));
    assert_eq!(b.wrap(-5, 2), (75, 2));
}

#[test]
fn wrap_far_edge_reflects() {
    let b = Board::new(80, 10);
    // the far-edge branch subtracts, so the edge itself lands on 0
    assert_eq!(b.wrap(80, 10), (0, 0));
    assert_eq!(b.wrap(80, 3), (0, 3));
}

#[test]
fn all_dead_board_has_no_neighbors() {
    let b = Board::new(80, 10);
    assert_eq!(b.get_number_of_neighbors(0, 0), 0);
    assert_eq!(b.get_number_of_neighbors(5, 5), 0);
    assert_eq!(b.get_number_of_neighbors(79, 9), 0);
    assert_eq!(b.get_number_of_neighbors(40, 0), 0);
}

#[test]
fn seeded_pattern_neighbor_count() {
    let mut b = Board::new(80, 10);
    b.set(5, 5, Square::Alive);
    b.set(6, 6, Square::Alive);
    b.set(6, 7, Square::Alive);
    b.set(5, 7, Square::Alive);
    b.set(4, 7, Square::Alive);
    // only (5,5) is at Chebyshev distance 1 from (4,4)
    assert_eq!(b.get_number_of_neighbors(4, 4), 1);
}

#[test]
fn neighbors_wrap_around_corners() {
    let mut b = Board::new(80, 10);
    b.set(79, 9, Square::Alive);
    // (0,0)'s neighbor (-1,-1) wraps to (79,9)
    assert_eq!(b.get_number_of_neighbors(0, 0), 1);
}

#[test]
fn lone_cell_dies_of_underpopulation() {
    let mut b = Board::new(80, 10);
    b.set(5, 5, Square::Alive);
    b.tick();
    assert_eq!(b.get(5, 5), Square::Dead);
    // no births anywhere around it either
    for y in 3..8 {
        for x in 3..8 {
            assert_eq!(b.get(x, y), Square::Dead);
        }
    }
}

#[test]
fn block_pattern_is_stable() {
    let mut b = Board::new(80, 10);
    b.set(10, 5, Square::Alive);
    b.set(11, 5, Square::Alive);
    b.set(10, 6, Square::Alive);
    b.set(11, 6, Square::Alive);
    b.tick();
    for y in 0..10 {
        for x in 0..80 {
            let expected = if (x == 10 || x == 11) && (y == 5 || y == 6) {
                Square::Alive
            } else {
                Square::Dead
            };
            assert_eq!(b.get(x, y), expected);
        }
    }
}

#[test]
fn blinker_oscillates() {
    let mut b = Board::new(9, 9);
    b.set(3, 2, Square::Alive);
    b.set(3, 3, Square::Alive);
    b.set(3, 4, Square::Alive);
    b.tick();
    // vertical blinker becomes horizontal
    for y in 0..9 {
        for x in 0..9 {
            let expected = if y == 3 && (2..=4).contains(&x) {
                Square::Alive
            } else {
                Square::Dead
            };
            assert_eq!(b.get(x, y), expected);
        }
    }
    b.tick();
    // and back
    for y in 0..9 {
        for x in 0..9 {
            let expected = if x == 3 && (2..=4).contains(&y) {
                Square::Alive
            } else {
                Square::Dead
            };
            assert_eq!(b.get(x, y), expected);
        }
    }
}

#[test]
fn apply_rules_writes_birth_into_scratch() {
    let mut b = Board::new(80, 10);
    b.set(4, 5, Square::Alive);
    b.set(6, 5, Square::Alive);
    b.set(5, 4, Square::Alive);
    b.apply_rules(5, 5);
    let i = flat(&b, 5, 5);
    assert_eq!(b.next_squares[i], Square::Alive);
    // the current generation is untouched
    assert_eq!(b.get(5, 5), Square::Dead);
}

#[test]
fn set_next_wraps_destination() {
    let mut b = Board::new(80, 10);
    b.set_next(-1, -1, Square::Alive);
    let i = flat(&b, 79, 9);
    assert_eq!(b.next_squares[i], Square::Alive);
}
