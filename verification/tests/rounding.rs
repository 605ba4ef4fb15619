use hexae::{hex_round, hex_snap, FractionalHex, Hex};

#[test]
fn test_hex_round() {
    let a = FractionalHex::new2(0, 0, 0, 1);
    let b = FractionalHex::new2(1, -1, 0, 1);
    let c = FractionalHex::new2(0, -1, 1, 1);
    assert_eq!(
        Hex::new(5, -10, 5),
        hex_round(a.lerp(FractionalHex::new2(10, -20, 10, 1), 1, 2))
    );
    assert_eq!(hex_round(a), hex_round(a.lerp(b, 499, 1000)));
    assert_eq!(hex_round(b), hex_round(a.lerp(b, 501, 1000)));
    assert_eq!(
        hex_round(a),
        hex_round(FractionalHex::new2(
            a.q * 4 + b.q * 3 + c.q * 3,
            a.r * 4 + b.r * 3 + c.r * 3,
            a.s * 4 + b.s * 3 + c.s * 3,
            10
        ))
    );
    assert_eq!(
        hex_round(c),
        hex_round(FractionalHex::new2(
            a.q * 3 + b.q * 3 + c.q * 4,
            a.r * 3 + b.r * 3 + c.r * 4,
            a.s * 3 + b.s * 3 + c.s * 4,
            10
        ))
    );
}

fn parts(f: FractionalHex) -> (i128, i128, i128, i128) {
    (f.q, f.r, f.s, f.den)
}

#[test]
fn new_completes_the_third_coordinate() {
    assert_eq!(parts(FractionalHex::new(3, 4, 10)), (3, 4, -7, 10));
    assert_eq!(parts(FractionalHex::new(-3, 1, 2)), (-3, 1, 2, 2));
    assert_eq!(parts(FractionalHex::new(i128::MIN, 1, 1)), (i128::MIN, 1, i128::MAX, 1));
    assert_eq!(parts(FractionalHex::new(i128::MAX, -1, 1)), (i128::MAX, -1, i128::MIN + 2, 1));
}

#[test]
fn new2_and_from_hex_keep_the_coordinates() {
    assert_eq!(parts(FractionalHex::new2(3, -5, 2, 7)), (3, -5, 2, 7));
    assert_eq!(parts(FractionalHex::from_hex(Hex::new(3, -5, 2))), (3, -5, 2, 1));
}

#[test]
fn lerp_weighs_both_ends() {
    let a = FractionalHex::new2(1, -3, 2, 2);
    let b = FractionalHex::new2(6, 0, -6, 3);
    // a = (1/2, -3/2, 1), b = (2, 0, -2), t = 1/4: (7/8, -9/8, 1/4)
    assert_eq!(parts(a.lerp(b, 1, 4)), (21, -27, 6, 24));
    assert_eq!(parts(a.lerp(b, 0, 4)), (12, -36, 24, 24));
    assert_eq!(parts(a.lerp(b, 4, 4)), (48, 0, -48, 24));
}

#[test]
fn lerp_reaches_beyond_both_ends() {
    let a = FractionalHex::new2(0, 0, 0, 1);
    let b = FractionalHex::new2(2, -2, 0, 1);
    assert_eq!(parts(a.lerp(b, 3, 2)), (6, -6, 0, 2));
    assert_eq!(parts(a.lerp(b, -1, 2)), (-2, 2, 0, 2));
    assert_eq!(hex_round(a.lerp(b, 3, 2)), Hex::new(3, -3, 0));
    assert_eq!(hex_round(a.lerp(b, -1, 2)), Hex::new(-1, 1, 0));
}

#[test]
fn lerp_keeps_the_plane() {
    let a = FractionalHex::new(7, -11, 3);
    let b = FractionalHex::new(-5, 2, 4);
    for t in -5..=9i128 {
        let p = a.lerp(b, t, 4);
        assert_eq!(p.q + p.r + p.s, 0);
        assert_eq!(p.den, 48);
    }
}

#[test]
fn centers_round_to_their_cells() {
    for q in -6..=6i64 {
        for r in -6..=6i64 {
            let h = Hex::new(q, r, -q - r);
            assert_eq!(hex_round(FractionalHex::from_hex(h)), h);
            let (q12, r12) = (q as i128 * 12, r as i128 * 12);
            let scaled = FractionalHex::new2(q12, r12, -q12 - r12, 12);
            assert_eq!(hex_round(scaled), h);
        }
    }
}

#[test]
fn rounding_ignores_the_denominator_chosen() {
    for q in -9..=9i128 {
        for r in -9..=9i128 {
            let once = hex_round(FractionalHex::new(q, r, 4));
            let again = hex_round(FractionalHex::new(q * 7, r * 7, 28));
            assert_eq!(once, again);
            assert_eq!(once.q + once.r + once.s, 0);
        }
    }
}

#[test]
fn halves_round_away_from_zero() {
    // (1/2, -1/2, 0): q and r are both halfway; s is exact and is recomputed last.
    assert_eq!(hex_round(FractionalHex::new2(1, -1, 0, 2)), Hex::new(1, -1, 0));
    assert_eq!(hex_round(FractionalHex::new2(-1, 1, 0, 2)), Hex::new(-1, 1, 0));
    assert_eq!(hex_round(FractionalHex::new2(3, -3, 0, 2)), Hex::new(2, -2, 0));
    assert_eq!(hex_round(FractionalHex::new2(-3, 3, 0, 2)), Hex::new(-2, 2, 0));
    assert_eq!(hex_round(FractionalHex::new2(0, 5, -5, 2)), Hex::new(0, 3, -3));
}

#[test]
fn the_coordinate_with_the_largest_error_is_replaced() {
    // q is off by 0.4, r by 0.3, s by 0.1
    assert_eq!(hex_round(FractionalHex::new2(4, 7, -11, 10)), Hex::new(0, 1, -1));
    // r is off by 0.4
    assert_eq!(hex_round(FractionalHex::new2(7, 4, -11, 10)), Hex::new(1, 0, -1));
    // s is off by 0.4
    assert_eq!(hex_round(FractionalHex::new2(7, -11, 4, 10)), Hex::new(1, -1, 0));
}

#[test]
fn ties_between_errors_keep_q_then_r() {
    // all three off by a third: s is replaced
    assert_eq!(hex_round(FractionalHex::new2(1, 1, -2, 3)), Hex::new(0, 0, 0));
    assert_eq!(hex_round(FractionalHex::new2(2, 2, -4, 3)), Hex::new(1, 1, -2));
    // q and r tie above s: r is replaced
    assert_eq!(hex_snap(1, -1, 0, 5, 5, 0), Hex::new(1, -1, 0));
    assert_eq!(hex_snap(1, 1, 1, 5, 5, 0), Hex::new(1, -2, 1));
    // q and s tie above r: s is replaced
    assert_eq!(hex_snap(1, 1, 1, 5, 0, 5), Hex::new(1, 1, -2));
    // r and s tie above q: s is replaced
    assert_eq!(hex_snap(1, 1, 1, 0, 5, 5), Hex::new(1, 1, -2));
}

#[test]
fn snap_replaces_by_rank_of_error() {
    assert_eq!(hex_snap(3, 4, 5, 9, 1, 2), Hex::new(-9, 4, 5));
    assert_eq!(hex_snap(3, 4, 5, 1, 9, 2), Hex::new(3, -8, 5));
    assert_eq!(hex_snap(3, 4, 5, 1, 2, 9), Hex::new(3, 4, -7));
    assert_eq!(hex_snap(3, 4, 5, 0, 0, 0), Hex::new(3, 4, -7));
}

#[test]
fn between_neighbors_the_nearer_cell_wins() {
    let a = Hex::new(-4, 1, 3);
    for i in 0..6usize {
        let b = a.neighbor(i);
        let from = FractionalHex::from_hex(a);
        let to = FractionalHex::from_hex(b);
        for t in 0..500i128 {
            assert_eq!(hex_round(from.lerp(to, t, 1000)), a);
        }
        for t in 501..=1000i128 {
            assert_eq!(hex_round(from.lerp(to, t, 1000)), b);
        }
    }
}

fn snap_binary64(q: f64, r: f64, s: f64) -> Hex {
    let (qi, ri, si) = (q.round(), r.round(), s.round());
    hex_snap(
        qi as i128,
        ri as i128,
        si as i128,
        (qi - q).abs().to_bits() as u128,
        (ri - r).abs().to_bits() as u128,
        (si - s).abs().to_bits() as u128,
    )
}

#[test]
fn snap_takes_errors_in_any_unit_that_keeps_their_order() {
    assert_eq!(snap_binary64(0.0, 0.0, 0.0), Hex::new(0, 0, 0));
    assert_eq!(snap_binary64(5.0, -10.0, 5.0), Hex::new(5, -10, 5));
    assert_eq!(snap_binary64(0.499, -0.499, 0.0), Hex::new(0, 0, 0));
    assert_eq!(snap_binary64(0.501, -0.501, 0.0), Hex::new(1, -1, 0));
    assert_eq!(snap_binary64(0.3, -0.6, 0.3), Hex::new(0, 0, 0));
    assert_eq!(snap_binary64(0.3, -0.7, 0.4), Hex::new(0, -1, 1));
    assert_eq!(snap_binary64(3.0000000000000004, 4.0, -7.000000000000001), Hex::new(3, 4, -7));
}

fn holds(p: FractionalHex, c: Hex) -> bool {
    let dq = c.q as i128 * p.den - p.q;
    let dr = c.r as i128 * p.den - p.r;
    let ds = c.s as i128 * p.den - p.s;
    (dq - dr).abs() <= p.den && (dr - ds).abs() <= p.den && (ds - dq).abs() <= p.den
}

#[test]
fn the_rounded_cell_holds_the_position() {
    for den in [1i128, 2, 3, 6, 7, 10] {
        for q in -12..=12i128 {
            for r in -12..=12i128 {
                let p = FractionalHex::new(q, r, den);
                let c = hex_round(p);
                assert!(holds(p, c), "{:?} is not in the cell {:?}", p, c);
                let mut holding = 0;
                for cq in -15..=15i64 {
                    for cr in -15..=15i64 {
                        if holds(p, Hex::new(cq, cr, -cq - cr)) {
                            holding += 1;
                        }
                    }
                }
                assert!(holding == 1 || holding == 2 || holding == 3);
            }
        }
    }
}

#[test]
fn a_coordinate_close_to_whole_survives_rounding() {
    // One coordinate is a quarter away from 2; the three round to 2, 0 and -3,
    // and the one that is farthest from whole gives way.
    assert_eq!(hex_round(FractionalHex::new2(225, 35, -260, 100)), Hex::new(2, 0, -2));
    assert_eq!(hex_round(FractionalHex::new2(-260, 225, 35, 100)), Hex::new(-2, 2, 0));
    assert_eq!(hex_round(FractionalHex::new2(35, -260, 225, 100)), Hex::new(0, -2, 2));
}
