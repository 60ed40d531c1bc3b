use afterglow::round::{nearest_away, nearest_even};

#[test]
fn ties_go_to_the_even_neighbour() {
    for (n, d, expected) in [
        (5, 2, 2),
        (7, 2, 4),
        (-5, 2, -2),
        (-7, 2, -4),
        (1, 2, 0),
        (-1, 2, 0),
        (3, 2, 2),
        (10, 3, 3),
        (11, 3, 4),
        (-10, 3, -3),
        (-11, 3, -4),
        (0, 7, 0),
    ] {
        assert_eq!(nearest_even(n, d), expected, "{n}/{d}");
    }
}

#[test]
fn ties_go_away_from_zero() {
    for (n, d, expected) in [
        (5, 2, 3),
        (7, 2, 4),
        (-5, 2, -3),
        (-7, 2, -4),
        (1, 2, 1),
        (-1, 2, -1),
        (10, 3, 3),
        (11, 3, 4),
        (-10, 3, -3),
        (-11, 3, -4),
        (0, 7, 0),
    ] {
        assert_eq!(nearest_away(n, d), expected, "{n}/{d}");
    }
}

#[test]
fn a_rounded_quotient_is_within_half_a_unit() {
    for n in -50..50 {
        for d in 1..12 {
            for q in [nearest_even(n, d), nearest_away(n, d)] {
                let off = 2 * (d * q - n);
                assert!(-d <= off && off <= d, "{n}/{d}");
            }
        }
    }
}
