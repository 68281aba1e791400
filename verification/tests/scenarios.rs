use lattice_cvp::babai::approximate_closest_vector;
use lattice_cvp::error::LatticeError;
use lattice_cvp::exact::exact_closest_vector;
use lattice_cvp::lattice::Lattice;
use rug::Integer;
use rug::Rational;

fn q(n: i64, d: i64) -> Rational {
    Rational::from((n, d))
}

fn row(v: &[(i64, i64)]) -> Vec<Rational> {
    v.iter().map(|&(n, d)| q(n, d)).collect()
}

fn whole(v: &[i64]) -> Vec<Rational> {
    v.iter().map(|&n| q(n, 1)).collect()
}

fn ints(v: &[i64]) -> Vec<Integer> {
    v.iter().map(|&n| Integer::from(n)).collect()
}

#[test]
fn orthogonal_basis_approximation_is_two_zero() {
    let lattice = Lattice::new(vec![whole(&[2, 0]), whole(&[0, 2])]).unwrap();
    let target = row(&[(12, 10), (9, 10)]);
    let found = approximate_closest_vector(&lattice, &target).unwrap();
    assert_eq!(found.point.coordinates, whole(&[2, 0]));
    assert_eq!(found.point.coefficients, ints(&[1, 0]));
    assert_eq!(found.squared_distance, q(145, 100));
    assert!((found.squared_distance.to_f64() - 1.449).abs() < 2e-3);
    assert_eq!(lattice.babai_nearest_plane(&target).unwrap(), whole(&[2, 0]));
}

#[test]
fn orthogonal_basis_exact_is_two_zero() {
    let lattice = Lattice::new(vec![whole(&[2, 0]), whole(&[0, 2])]).unwrap();
    let target = row(&[(12, 10), (9, 10)]);
    let (found, _) = exact_closest_vector(&lattice, &target).unwrap();
    assert_eq!(found.point.coordinates, whole(&[2, 0]));
    assert_eq!(found.point.coefficients, ints(&[1, 0]));
    assert_eq!(found.squared_distance, q(145, 100));
    assert!((found.squared_distance.to_f64() - 1.449).abs() < 2e-3);
    let approx = approximate_closest_vector(&lattice, &target).unwrap();
    assert_eq!(found.squared_distance, approx.squared_distance);
    let (point, _) = lattice.closest_vector_by_enumeration(&target).unwrap();
    assert_eq!(point, whole(&[2, 0]));
}

#[test]
fn rank_one_closest_to_seven_is_six() {
    let lattice = Lattice::new(vec![whole(&[3])]).unwrap();
    let target = whole(&[7]);
    let (found, seen) = exact_closest_vector(&lattice, &target).unwrap();
    assert_eq!(found.point.coordinates, whole(&[6]));
    assert_eq!(found.point.coefficients, ints(&[2]));
    assert_eq!(found.squared_distance, q(1, 1));
    let expected: Vec<(Rational, Rational)> =
        vec![(q(3, 1), q(0, 1)), (q(3, 1), q(0, 1)), (q(6, 1), q(0, 1)), (q(9, 1), q(0, 1))];
    assert_eq!(seen, expected);
    let approx = approximate_closest_vector(&lattice, &target).unwrap();
    assert_eq!(approx.point.coordinates, whole(&[6]));
    assert_eq!(approx.squared_distance, q(1, 1));
}

#[test]
fn rank_one_in_the_plane_refuses_a_target_of_length_one() {
    let lattice = Lattice::new(vec![whole(&[1, 0])]).unwrap();
    assert_eq!(lattice.rank(), 1);
    assert_eq!(lattice.ambient_dimension(), 2);
    let short = whole(&[7]);
    assert_eq!(
        approximate_closest_vector(&lattice, &short).err(),
        Some(LatticeError::DimensionMismatch)
    );
    assert_eq!(
        exact_closest_vector(&lattice, &short).err(),
        Some(LatticeError::DimensionMismatch)
    );
}

#[test]
fn ambient_dimension_one_refuses_a_target_of_length_two() {
    let lattice = Lattice::new(vec![whole(&[3])]).unwrap();
    let long = whole(&[7, 0]);
    assert_eq!(
        approximate_closest_vector(&lattice, &long).err(),
        Some(LatticeError::DimensionMismatch)
    );
    assert_eq!(exact_closest_vector(&lattice, &long).err(), Some(LatticeError::DimensionMismatch));
    assert_eq!(lattice.babai_nearest_plane(&long).err(), Some(LatticeError::DimensionMismatch));
    assert_eq!(
        lattice.closest_vector_by_enumeration(&long).err(),
        Some(LatticeError::DimensionMismatch)
    );
    assert_eq!(lattice.frame_coordinates(&long).err(), Some(LatticeError::DimensionMismatch));
}

#[test]
fn empty_lattice_is_refused() {
    let lattice = Lattice::new(Vec::new()).unwrap();
    assert_eq!(lattice.rank(), 0);
    assert_eq!(lattice.ambient_dimension(), 0);
    let none: Vec<Rational> = Vec::new();
    let two = whole(&[1, 2]);
    assert_eq!(approximate_closest_vector(&lattice, &none).err(), Some(LatticeError::EmptyLattice));
    assert_eq!(approximate_closest_vector(&lattice, &two).err(), Some(LatticeError::EmptyLattice));
    assert_eq!(exact_closest_vector(&lattice, &none).err(), Some(LatticeError::EmptyLattice));
    assert_eq!(exact_closest_vector(&lattice, &two).err(), Some(LatticeError::EmptyLattice));
    assert_eq!(lattice.babai_nearest_plane(&two).err(), Some(LatticeError::EmptyLattice));
    assert_eq!(lattice.closest_vector_by_enumeration(&two).err(), Some(LatticeError::EmptyLattice));
}

#[test]
fn rounding_of_halves_goes_away_from_zero() {
    let lattice = Lattice::new(vec![whole(&[2])]).unwrap();
    let up = approximate_closest_vector(&lattice, &whole(&[1])).unwrap();
    assert_eq!(up.point.coefficients, ints(&[1]));
    assert_eq!(up.point.coordinates, whole(&[2]));
    let down = approximate_closest_vector(&lattice, &whole(&[-1])).unwrap();
    assert_eq!(down.point.coefficients, ints(&[-1]));
    assert_eq!(down.point.coordinates, whole(&[-2]));
    let far = approximate_closest_vector(&lattice, &whole(&[-7])).unwrap();
    assert_eq!(far.point.coefficients, ints(&[-4]));
    let near = approximate_closest_vector(&lattice, &row(&[(29, 10)])).unwrap();
    assert_eq!(near.point.coefficients, ints(&[1]));
    assert_eq!(near.squared_distance, q(81, 100));
}

#[test]
fn a_tie_with_the_first_basis_vector_keeps_it() {
    let lattice = Lattice::new(vec![whole(&[2])]).unwrap();
    let (found, seen) = exact_closest_vector(&lattice, &whole(&[1])).unwrap();
    assert_eq!(found.point.coefficients, ints(&[1]));
    assert_eq!(found.point.coordinates, whole(&[2]));
    assert_eq!(found.squared_distance, q(1, 1));
    let expected: Vec<(Rational, Rational)> =
        vec![(q(2, 1), q(0, 1)), (q(0, 1), q(0, 1)), (q(2, 1), q(0, 1))];
    assert_eq!(seen, expected);
}

#[test]
fn a_tie_among_later_points_keeps_the_first_met() {
    let lattice = Lattice::new(vec![whole(&[2])]).unwrap();
    let (found, seen) = exact_closest_vector(&lattice, &whole(&[5])).unwrap();
    assert_eq!(found.point.coefficients, ints(&[2]));
    assert_eq!(found.point.coordinates, whole(&[4]));
    assert_eq!(found.squared_distance, q(1, 1));
    let expected: Vec<(Rational, Rational)> = vec![
        (q(2, 1), q(0, 1)),
        (q(2, 1), q(0, 1)),
        (q(4, 1), q(0, 1)),
        (q(6, 1), q(0, 1)),
        (q(8, 1), q(0, 1)),
    ];
    assert_eq!(seen, expected);
}

#[test]
fn coefficients_come_back_in_index_order() {
    let lattice = Lattice::new(vec![whole(&[1, 0]), whole(&[0, 1])]).unwrap();
    let target = row(&[(32, 10), (-19, 10)]);
    let (found, seen) = exact_closest_vector(&lattice, &target).unwrap();
    assert_eq!(found.point.coefficients, ints(&[3, -2]));
    assert_eq!(found.point.coordinates, whole(&[3, -2]));
    assert_eq!(found.squared_distance, q(5, 100));
    assert_eq!(seen[0], (q(1, 1), q(0, 1)));
    assert!(seen.contains(&(q(3, 1), q(-2, 1))));
    let approx = approximate_closest_vector(&lattice, &target).unwrap();
    assert_eq!(approx.point.coefficients, ints(&[3, -2]));
}

#[test]
fn skewed_basis_where_the_approximation_is_not_exact() {
    let lattice = Lattice::new(vec![whole(&[1, 0]), whole(&[100, 1])]).unwrap();
    let target = row(&[(0, 1), (1, 2)]);
    let approx = approximate_closest_vector(&lattice, &target).unwrap();
    let (found, _) = exact_closest_vector(&lattice, &target).unwrap();
    assert_eq!(approx.point.coefficients, ints(&[-100, 1]));
    assert_eq!(approx.squared_distance, q(1, 4));
    assert_eq!(found.squared_distance, q(1, 4));
    assert!(found.squared_distance <= approx.squared_distance);
}
