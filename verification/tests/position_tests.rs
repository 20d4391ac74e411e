use checkers::position::Position;

#[test]
fn index_mapping_exact_values() {
    let p = Position::new(2, 3);
    assert_eq!(p.to_index(8), 19);
    let q = Position::from_index(19, 8);
    assert_eq!(q.row, 2);
    assert_eq!(q.col, 3);
}

#[test]
fn index_round_trip_all_squares() {
    for row in 0..8usize {
        for col in 0..8usize {
            let p = Position::new(row, col);
            let q = Position::from_index(p.to_index(8), 8);
            assert_eq!(q, p);
        }
    }
}

#[test]
fn validity_bounds() {
    assert!(Position::new(0, 0).is_valid(8));
    assert!(Position::new(7, 7).is_valid(8));
    assert!(!Position::new(8, 0).is_valid(8));
    assert!(!Position::new(0, 8).is_valid(8));
    assert!(!Position::new(3, 3).is_valid(3));
}

#[test]
fn diagonals_interior_order() {
    let d = Position::new(3, 3).get_diagonals(8);
    assert_eq!(
        d,
        vec![
            Position::new(2, 2),
            Position::new(2, 4),
            Position::new(4, 2),
            Position::new(4, 4),
        ]
    );
}

#[test]
fn diagonals_corners() {
    assert_eq!(Position::new(0, 0).get_diagonals(8), vec![Position::new(1, 1)]);
    assert_eq!(Position::new(7, 7).get_diagonals(8), vec![Position::new(6, 6)]);
    assert_eq!(Position::new(0, 7).get_diagonals(8), vec![Position::new(1, 6)]);
    assert_eq!(Position::new(7, 0).get_diagonals(8), vec![Position::new(6, 1)]);
}

#[test]
fn diagonals_edges() {
    assert_eq!(
        Position::new(0, 3).get_diagonals(8),
        vec![Position::new(1, 2), Position::new(1, 4)]
    );
    assert_eq!(
        Position::new(3, 0).get_diagonals(8),
        vec![Position::new(2, 1), Position::new(4, 1)]
    );
}

#[test]
fn diagonals_always_in_bounds() {
    for row in 0..8usize {
        for col in 0..8usize {
            let p = Position::new(row, col);
            let diags = p.get_diagonals(8);
            let interior = row > 0 && row < 7 && col > 0 && col < 7;
            if interior {
                assert_eq!(diags.len(), 4);
            } else {
                assert!(diags.len() < 4);
            }
            for d in diags {
                assert!(d.is_valid(8));
            }
        }
    }
}
