use lattice_cvp::enumeration::{copy_integers, project};
use lattice_cvp::point::{Candidate, LatticePoint};
use lattice_cvp::exact::first_unit;
use lattice_cvp::lattice::Lattice;
use lattice_cvp::vector::{
    add_scaled, copy_vector, rational_one, rational_zero, same_vector, squared_distance,
    sub_scaled, zeros,
};
use rug::Integer;
use rug::Rational;

fn q(n: i64, d: i64) -> Rational {
    Rational::from((n, d))
}

fn whole(v: &[i64]) -> Vec<Rational> {
    v.iter().map(|&n| q(n, 1)).collect()
}

fn ints(v: &[i64]) -> Vec<Integer> {
    v.iter().map(|&n| Integer::from(n)).collect()
}

fn start(lattice: &Lattice, target: &Vec<Rational>, x: &[i64]) -> Candidate {
    let coefficients = ints(x);
    let coordinates = lattice.lattice_point(&coefficients).unwrap();
    let squared_distance = squared_distance(&coordinates, target);
    Candidate { point: LatticePoint { coefficients, coordinates }, squared_distance }
}

#[test]
fn a_step_at_full_depth_looks_at_one_point() {
    let lattice = Lattice::new(vec![whole(&[3, 1]), whole(&[2, 2])]).unwrap();
    let target = whole(&[7, 5]);
    let y = lattice.frame_coordinates(&target).unwrap();
    let mut seen: Vec<(Rational, Rational)> = Vec::new();
    // The path holds the highest index first: x_1 = 2, then x_0 = 1.
    let path = ints(&[2, 1]);
    let known = start(&lattice, &target, &[0, 0]);
    let found = lattice.closest_vector_enumeration_step(&target, 2, &path, known, &y, &mut seen);
    assert_eq!(found.point.coefficients, ints(&[1, 2]));
    assert_eq!(found.point.coordinates, whole(&[7, 5]));
    assert_eq!(found.squared_distance, q(0, 1));
    assert_eq!(seen, vec![(q(7, 1), q(5, 1))]);
    // A point that is not strictly nearer leaves the known one in place.
    let far = ints(&[5, 5]);
    let kept = lattice.closest_vector_enumeration_step(&target, 2, &far, found, &y, &mut seen);
    assert_eq!(kept.point.coefficients, ints(&[1, 2]));
    assert_eq!(seen, vec![(q(7, 1), q(5, 1)), (q(25, 1), q(15, 1))]);
}

#[test]
fn a_step_below_one_fixed_coefficient_walks_its_interval() {
    let lattice = Lattice::new(vec![whole(&[2, 0]), whole(&[0, 2])]).unwrap();
    let target = vec![q(3, 1), q(1, 10)];
    let y = lattice.frame_coordinates(&target).unwrap();
    let mut seen: Vec<(Rational, Rational)> = Vec::new();
    let path = ints(&[0]);
    // Known: the origin, at squared distance 9 + 1/100. With x_1 = 0 fixed
    // the cost is 1/100 and the interval is 3/2 -+ 3/2.
    let known = start(&lattice, &target, &[0, 0]);
    let found = lattice.closest_vector_enumeration_step(&target, 1, &path, known, &y, &mut seen);
    assert_eq!(found.point.coefficients, ints(&[1, 0]));
    assert_eq!(found.squared_distance, q(101, 100));
    assert_eq!(
        seen,
        vec![
            (q(0, 1), q(0, 1)),
            (q(2, 1), q(0, 1)),
            (q(4, 1), q(0, 1)),
            (q(6, 1), q(0, 1)),
        ]
    );
}

#[test]
fn vector_helpers() {
    let u = vec![q(1, 2), q(-3, 1)];
    let v = vec![q(2, 1), q(1, 3)];
    assert_eq!(add_scaled(&u, &q(3, 1), &v), vec![q(13, 2), q(-2, 1)]);
    assert_eq!(sub_scaled(&u, &q(3, 1), &v), vec![q(-11, 2), q(-4, 1)]);
    assert_eq!(copy_vector(&u), u);
    assert_eq!(zeros(3), whole(&[0, 0, 0]));
    assert_eq!(rational_zero(), q(0, 1));
    assert_eq!(rational_one(), q(1, 1));
    assert!(same_vector(&u, &copy_vector(&u)));
    assert!(!same_vector(&u, &v));
    assert!(!same_vector(&u, &whole(&[1])));
    assert_eq!(copy_integers(&ints(&[4, -5])), ints(&[4, -5]));
    assert_eq!(first_unit(3), ints(&[1, 0, 0]));
    assert_eq!(first_unit(0), ints(&[]));
    assert_eq!(project(&whole(&[7, 8, 9])), (q(7, 1), q(8, 1)));
    assert_eq!(project(&whole(&[7])), (q(7, 1), q(0, 1)));
    assert_eq!(project(&whole(&[])), (q(0, 1), q(0, 1)));
}
