use hexae::{hex_length, Hex};

#[test]
fn test_hex_add() {
    let a = Hex::new(1, -3, 2);
    let b = Hex::new(3, -7, 4);
    let c = Hex::new(4, -10, 6);

    assert_eq!(a + b, c);
}

#[test]
fn test_hex_subtract() {
    let a = Hex::new(1, -3, 2);
    let b = Hex::new(3, -7, 4);
    let c = Hex::new(-2, 4, -2);

    assert_eq!(a - b, c);
}

#[test]
fn test_hex_direction() {
    assert_eq!(Hex::direction(2), Hex::new(0, -1, 1));
}

#[test]
fn test_hex_neighbor() {
    let a = Hex::new(1, -2, 1);
    let b = Hex::new(1, -3, 2);

    assert_eq!(a.neighbor(2), b);
}

#[test]
fn test_hex_diagonal_neighbor() {
    let a = Hex::new(1, -2, 1);
    let b = Hex::new(-1, -1, 2);

    assert_eq!(a.diagonal_neighbor(3), b);
}

#[test]
fn test_hex_distance() {
    let a = Hex::new(3, -7, 4);
    let b = Hex::new(0, 0, 0);

    assert_eq!(a.distance(b), 7);
}

#[test]
fn test_hex_rotate_right() {
    let a = Hex::new(1, -3, 2);
    let b = Hex::new(3, -2, -1);

    assert_eq!(a.rotate_right(), b);
}

#[test]
fn test_hex_rotate_left() {
    let a = Hex::new(1, -3, 2);
    let b = Hex::new(-2, -1, 3);

    assert_eq!(a.rotate_left(), b);
}

fn sample() -> Vec<Hex> {
    let mut cells = Vec::new();
    for q in -4..=4i64 {
        for r in -4..=4i64 {
            cells.push(Hex::new(q, r, -q - r));
        }
    }
    cells.push(Hex::new(1_000_000_007, -2_000_000_011, 1_000_000_004));
    cells.push(Hex::new(-(1i64 << 61), 1i64 << 60, 1i64 << 60));
    cells
}

fn sum(h: Hex) -> i64 {
    h.q + h.r + h.s
}

#[test]
fn new_keeps_the_coordinates() {
    let h = Hex::new(-5, 2, 3);
    assert_eq!((h.q, h.r, h.s), (-5, 2, 3));
}

#[test]
fn directions_are_the_six_unit_steps_in_order() {
    let expected = [(1, 0, -1), (1, -1, 0), (0, -1, 1), (-1, 0, 1), (-1, 1, 0), (0, 1, -1)];
    for i in 0..6usize {
        let d = Hex::direction(i);
        assert_eq!((d.q, d.r, d.s), expected[i]);
        assert_eq!(d.length(), 1);
        assert_eq!(d.rotate_left(), Hex::direction((i + 1) % 6));
    }
}

#[test]
fn diagonals_are_the_six_corner_steps_in_order() {
    let expected = [(2, -1, -1), (1, -2, 1), (-1, -1, 2), (-2, 1, 1), (-1, 2, -1), (1, 1, -2)];
    for i in 0..6usize {
        let d = Hex::diagonal(i);
        assert_eq!((d.q, d.r, d.s), expected[i]);
        assert_eq!(d.length(), 2);
        assert_eq!(d, Hex::direction(i) + Hex::direction((i + 1) % 6));
    }
}

#[test]
fn every_result_lies_on_the_plane() {
    let b = Hex::new(2, -5, 3);
    for a in sample() {
        assert_eq!(sum(a + b), 0);
        assert_eq!(sum(a - b), 0);
        assert_eq!(sum(a.scale(-3)), 0);
        assert_eq!(sum(a.rotate_left()), 0);
        assert_eq!(sum(a.rotate_right()), 0);
        for i in 0..6usize {
            assert_eq!(sum(Hex::direction(i)), 0);
            assert_eq!(sum(Hex::diagonal(i)), 0);
            assert_eq!(sum(a.neighbor(i)), 0);
            assert_eq!(sum(a.diagonal_neighbor(i)), 0);
        }
    }
}

#[test]
fn add_and_subtract_undo_each_other() {
    let b = Hex::new(-7, 3, 4);
    for a in sample() {
        assert_eq!(a + b - b, a);
        assert_eq!(a - b + b, a);
    }
}

#[test]
fn scale_multiplies_every_coordinate() {
    assert_eq!(Hex::new(1, -3, 2).scale(4), Hex::new(4, -12, 8));
    assert_eq!(Hex::new(1, -3, 2).scale(-2), Hex::new(-2, 6, -4));
    assert_eq!(Hex::new(1, -3, 2).scale(0), Hex::new(0, 0, 0));
    for a in sample() {
        assert_eq!(a.scale(1), a);
    }
}

#[test]
fn rotations_undo_each_other_and_six_make_a_full_turn() {
    for a in sample() {
        assert_eq!(a.rotate_left().rotate_right(), a);
        assert_eq!(a.rotate_right().rotate_left(), a);
        let mut left = a;
        let mut right = a;
        for _ in 0..6 {
            left = left.rotate_left();
            right = right.rotate_right();
        }
        assert_eq!(left, a);
        assert_eq!(right, a);
    }
}

#[test]
fn neighbor_is_one_step_and_diagonal_neighbor_two() {
    let a = Hex::new(4, -9, 5);
    for i in 0..6usize {
        assert_eq!(a.neighbor(i), a + Hex::direction(i));
        assert_eq!(a.diagonal_neighbor(i), a + Hex::diagonal(i));
        assert_eq!(a.distance(a.neighbor(i)), 1);
        assert_eq!(a.distance(a.diagonal_neighbor(i)), 2);
    }
}

#[test]
fn length_is_half_the_sum_of_the_absolute_coordinates() {
    assert_eq!(Hex::new(0, 0, 0).length(), 0);
    assert_eq!(Hex::new(3, -7, 4).length(), 7);
    assert_eq!(Hex::new(-3, -4, 7).length(), 7);
    assert_eq!(hex_length(Hex::new(1, -2, 1)), 2);
    assert_eq!(hex_length(Hex::new(5, 0, -5)), 5);
    for a in sample() {
        assert_eq!(a.length(), hex_length(a));
        let largest = a.q.unsigned_abs().max(a.r.unsigned_abs()).max(a.s.unsigned_abs());
        assert_eq!(a.length(), largest);
    }
}

#[test]
fn length_of_the_farthest_cells_does_not_overflow() {
    let h = Hex::new(i64::MIN, i64::MAX, 1);
    assert_eq!(h.length(), 1u64 << 63);
    assert_eq!(hex_length(h), 1u64 << 63);
}

#[test]
fn distance_is_the_length_of_the_difference() {
    assert_eq!(Hex::new(1, -2, 1).distance(Hex::new(0, 0, 0)), 2);
    assert_eq!(Hex::new(1, -2, 1).distance(Hex::new(0, 0, 0)), Hex::new(1, -2, 1).length());
    assert_eq!(Hex::new(3, -7, 4).distance(Hex::new(-2, 1, 1)), 8);
}

#[test]
fn distance_is_symmetric_and_zero_to_itself() {
    let cells = sample();
    for a in &cells {
        assert_eq!(a.distance(*a), 0);
        for b in &cells {
            assert_eq!(a.distance(*b), b.distance(*a));
        }
    }
}

#[test]
fn distance_between_the_farthest_cells_does_not_overflow() {
    let a = Hex::new(i64::MIN, i64::MAX, 1);
    let b = Hex::new(i64::MAX, i64::MIN, 1);
    assert_eq!(a.distance(b), u64::MAX);
    assert_eq!(b.distance(a), u64::MAX);
}

#[test]
fn distance_obeys_the_triangle_inequality() {
    let cells = sample();
    let via = Hex::new(2, 1, -3);
    for a in &cells {
        for c in &cells {
            assert!(a.distance(*c) <= a.distance(via) + via.distance(*c));
        }
    }
}
