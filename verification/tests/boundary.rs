use contaminate::boundary::resolve;

fn saturated(value: i64, dimension: i64) -> i64 {
    if value < 0 {
        0
    } else if value >= dimension {
        dimension - 1
    } else {
        value
    }
}

#[test]
fn resolve_moves_inside_the_axis() {
    assert_eq!(resolve(3, 5, 10), 8);
    assert_eq!(resolve(3, -1, 5), 2);
    assert_eq!(resolve(0, 9, 10), 9);
    assert_eq!(resolve(9, -9, 10), 0);
}

#[test]
fn resolve_keeps_an_undisplaced_coordinate() {
    for dimension in 1..20u32 {
        for coord in 0..dimension {
            assert_eq!(resolve(coord, 0, dimension), coord);
        }
    }
}

#[test]
fn resolve_reflects_at_the_high_edge() {
    assert_eq!(resolve(8, 5, 10), 3);
    assert_eq!(resolve(4, 1, 5), 3);
    assert_eq!(resolve(9, 1, 10), 8);
    assert_eq!(resolve(5, 5, 10), 0);
}

#[test]
fn resolve_saturates_a_reflection_that_leaves_the_axis() {
    assert_eq!(resolve(9, 100, 10), 0);
    assert_eq!(resolve(1, 7, 5), 0);
    assert_eq!(resolve(0, 1, 1), 0);
}

#[test]
fn resolve_saturates_at_the_low_edge_without_reflecting() {
    assert_eq!(resolve(2, -5, 10), 0);
    assert_eq!(resolve(1, -7, 5), 0);
    assert_eq!(resolve(0, -1, 1), 0);
    assert_eq!(resolve(0, -1, 10), 0);
}

#[test]
fn resolve_takes_the_largest_displacements() {
    assert_eq!(resolve(0, i32::MIN, 7), 0);
    assert_eq!(resolve(6, i32::MIN, 7), 0);
    assert_eq!(resolve(0, i32::MAX, 7), 0);
    assert_eq!(resolve(6, i32::MAX, 7), 0);
    assert_eq!(resolve(u32::MAX - 1, i32::MAX, u32::MAX), 2147483647);
    assert_eq!(resolve(u32::MAX - 1, i32::MIN, u32::MAX), 2147483646);
    assert_eq!(resolve(0, i32::MAX, u32::MAX), 2147483647);
}

#[test]
fn resolve_saturates_a_coordinate_beyond_the_axis() {
    assert_eq!(resolve(12, -1, 10), 9);
    assert_eq!(resolve(12, -5, 10), 7);
    assert_eq!(resolve(12, 5, 10), 7);
}

#[test]
fn resolve_stays_on_the_axis_for_every_small_case() {
    for dimension in 1..=6u32 {
        for coord in 0..dimension {
            for delta in -20..=20i32 {
                let resolved = resolve(coord, delta, dimension);
                assert!(resolved < dimension);
                let c = coord as i64;
                let d = delta as i64;
                let n = dimension as i64;
                let expected = if c + d >= n {
                    saturated(c - d, n)
                } else {
                    saturated(c + d, n)
                };
                assert_eq!(resolved as i64, expected);
            }
        }
    }
}
