use lattice_cvp::bounds::{root_interval, within};
use lattice_cvp::exact::exact_closest_vector;
use lattice_cvp::lattice::Lattice;
use rug::Integer;
use rug::Rational;

fn q(n: i64, d: i64) -> Rational {
    Rational::from((n, d))
}

fn whole(v: &[i64]) -> Vec<Rational> {
    v.iter().map(|&n| q(n, 1)).collect()
}

fn ints(v: &[i64]) -> Vec<Integer> {
    v.iter().map(|&n| Integer::from(n)).collect()
}

fn ends(lo: i64, hi: i64) -> (Integer, Integer) {
    (Integer::from(lo), Integer::from(hi))
}

#[test]
fn root_interval_values() {
    assert_eq!(root_interval(&q(7, 3), &q(16, 9)), ends(1, 3));
    assert_eq!(root_interval(&q(0, 1), &q(0, 1)), ends(0, 0));
    assert_eq!(root_interval(&q(1, 2), &q(0, 1)), ends(1, 0));
    assert_eq!(root_interval(&q(1, 2), &q(1, 4)), ends(0, 1));
    assert_eq!(root_interval(&q(1, 2), &q(24, 100)), ends(1, 0));
    assert_eq!(root_interval(&q(-5, 2), &q(2, 1)), ends(-3, -2));
    assert_eq!(root_interval(&q(0, 1), &q(99, 1)), ends(-9, 9));
    assert_eq!(root_interval(&q(0, 1), &q(100, 1)), ends(-10, 10));
    assert_eq!(root_interval(&q(3, 1), &q(1, 1)), ends(2, 4));
}

#[test]
fn root_interval_holds_what_is_within() {
    let centers = [q(-7, 3), q(0, 1), q(1, 2), q(22, 7), q(5, 1)];
    let radii = [q(0, 1), q(1, 10), q(1, 1), q(2, 1), q(49, 4), q(50, 1)];
    for c in centers.iter() {
        for r in radii.iter() {
            let (lo, hi) = root_interval(c, r);
            for k in -20..=20 {
                let k = Integer::from(k);
                assert_eq!(within(&k, c, r), lo <= k && k <= hi);
            }
        }
    }
}

#[test]
fn bounds_at_depth_zero() {
    let lattice = Lattice::new(vec![whole(&[3])]).unwrap();
    let y = lattice.frame_coordinates(&whole(&[7])).unwrap();
    assert_eq!(y, vec![q(7, 3)]);
    let none: Vec<Integer> = Vec::new();
    assert_eq!(lattice.get_cvp_enumeration_bounds(&none, 0, &q(16, 1), &y), ends(1, 3));
    assert_eq!(lattice.get_cvp_enumeration_bounds(&none, 0, &q(1, 1), &y), ends(2, 2));
    assert_eq!(lattice.get_cvp_enumeration_bounds(&none, 0, &q(-1, 1), &y), ends(2, 2));
    assert_eq!(lattice.get_cvp_enumeration_bounds(&none, 0, &q(0, 1), &y), ends(3, 2));
}

#[test]
fn bounds_below_a_fixed_coefficient() {
    let lattice = Lattice::new(vec![whole(&[3, 1]), whole(&[2, 2])]).unwrap();
    let y = lattice.frame_coordinates(&whole(&[1, 1])).unwrap();
    assert_eq!(y, vec![q(4, 10), q(1, 2)]);
    // One coefficient fixed: x_1 = 1. Its cost is (1 - 1/2)^2 * 8/5 = 2/5, its
    // offset along the first direction is 4/5.
    let fixed = ints(&[1]);
    // |5 - 2/5| / 10 = 23/50; the middle is 4/10 - 4/5 = -2/5.
    assert_eq!(lattice.get_cvp_enumeration_bounds(&fixed, 1, &q(5, 1), &y), ends(-1, 0));
    // A budget below the fixed cost: |1/10 - 2/5| / 10 = 3/100.
    assert_eq!(lattice.get_cvp_enumeration_bounds(&fixed, 1, &q(1, 10), &y), ends(0, -1));
    // |12/5 - 2/5| / 10 = 1/5: from -2/5 - 0.447 to -2/5 + 0.447.
    assert_eq!(lattice.get_cvp_enumeration_bounds(&fixed, 1, &q(12, 5), &y), ends(0, 0));
}

#[test]
fn frame_coordinate_of_the_lowest_fixed_index() {
    let lattice = Lattice::new(vec![whole(&[3, 1]), whole(&[2, 2])]).unwrap();
    assert_eq!(lattice.get_gram_schmidt_coefficient(&ints(&[])), q(0, 1));
    assert_eq!(lattice.get_gram_schmidt_coefficient(&ints(&[2])), q(2, 1));
    assert_eq!(lattice.get_gram_schmidt_coefficient(&ints(&[1, 2])), q(13, 5));
    assert_eq!(lattice.get_gram_schmidt_coefficient(&ints(&[-3, 5])), q(1, 1));
}

#[test]
fn bounds_with_the_best_distance_hold_the_best_coefficient() {
    let bases = [
        vec![whole(&[3, 1]), whole(&[2, 2])],
        vec![whole(&[1, 0]), whole(&[100, 1])],
        vec![whole(&[5, 0]), whole(&[3, 1])],
        vec![whole(&[2, 0, 0]), whole(&[1, 2, 0]), whole(&[1, 1, 2])],
    ];
    let targets = [vec![q(7, 3), q(-11, 4), q(1, 5)], vec![q(0, 1), q(1, 2), q(9, 2)]];
    for basis in bases.iter() {
        let dim = basis[0].len();
        let lattice = Lattice::new(basis.clone()).unwrap();
        for target in targets.iter() {
            let target: Vec<Rational> = target[..dim].to_vec();
            let (found, _) = exact_closest_vector(&lattice, &target).unwrap();
            let y = lattice.frame_coordinates(&target).unwrap();
            let none: Vec<Integer> = Vec::new();
            let (lo, hi) =
                lattice.get_cvp_enumeration_bounds(&none, 0, &found.squared_distance, &y);
            let top = &found.point.coefficients[lattice.rank() - 1];
            assert!(lo <= *top && *top <= hi);
        }
    }
}
