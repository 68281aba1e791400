use lattice_cvp::error::LatticeError;
use lattice_cvp::lattice::Lattice;
use lattice_cvp::vector::{dot_product, squared_distance};
use rug::Integer;
use rug::Rational;

fn q(n: i64, d: i64) -> Rational {
    Rational::from((n, d))
}

fn whole(v: &[i64]) -> Vec<Rational> {
    v.iter().map(|&n| q(n, 1)).collect()
}

fn ints(v: &[i64]) -> Vec<Integer> {
    v.iter().map(|&n| Integer::from(n)).collect()
}

fn skew() -> Lattice {
    Lattice::new(vec![whole(&[3, 1]), whole(&[2, 2])]).unwrap()
}

#[test]
fn dot_product_is_exact() {
    let u = vec![q(1, 3), q(2, 1)];
    let v = vec![q(3, 1), q(1, 4)];
    assert_eq!(dot_product(&u, &v), q(3, 2));
    assert_eq!(squared_distance(&u, &v), q(64, 9) + q(49, 16));
}

#[test]
fn gram_schmidt_of_a_skew_basis() {
    let lattice = skew();
    assert_eq!(lattice.rank(), 2);
    assert_eq!(lattice.ambient_dimension(), 2);
    assert_eq!(lattice.basis_vector(0).unwrap(), whole(&[3, 1]));
    assert_eq!(lattice.basis_vector(1).unwrap(), whole(&[2, 2]));
    assert_eq!(lattice.gram_schmidt_vector(0).unwrap(), whole(&[3, 1]));
    assert_eq!(lattice.gram_schmidt_vector(1).unwrap(), vec![q(-2, 5), q(6, 5)]);
    assert_eq!(lattice.gram_schmidt_squared_length(0).unwrap(), q(10, 1));
    assert_eq!(lattice.gram_schmidt_squared_length(1).unwrap(), q(8, 5));
    assert_eq!(lattice.mu(1, 0).unwrap(), q(4, 5));
    assert_eq!(lattice.mu(0, 0).unwrap(), q(1, 1));
    assert_eq!(lattice.mu(1, 1).unwrap(), q(1, 1));
    assert_eq!(lattice.mu(0, 1).unwrap(), q(0, 1));
}

#[test]
fn gram_schmidt_vectors_are_orthogonal() {
    let lattice = Lattice::new(vec![
        whole(&[1, 2, 3]),
        whole(&[4, 5, 6]),
        whole(&[7, 8, 10]),
    ])
    .unwrap();
    for i in 0..3 {
        for j in 0..3 {
            let gi = lattice.gram_schmidt_vector(i).unwrap();
            let gj = lattice.gram_schmidt_vector(j).unwrap();
            let d = dot_product(&gi, &gj);
            if i == j {
                assert_eq!(d, lattice.gram_schmidt_squared_length(i).unwrap());
                assert!(d > 0);
            } else {
                assert_eq!(d, 0);
            }
        }
    }
    assert_eq!(lattice.gram_schmidt_squared_length(0).unwrap(), q(14, 1));
    assert_eq!(lattice.mu(1, 0).unwrap(), q(32, 14));
    assert_eq!(lattice.mu(2, 0).unwrap(), q(53, 14));
}

#[test]
fn accessors_refuse_an_index_at_the_rank() {
    let lattice = skew();
    assert_eq!(lattice.basis_vector(2).err(), Some(LatticeError::IndexOutOfRange));
    assert_eq!(lattice.gram_schmidt_vector(2).err(), Some(LatticeError::IndexOutOfRange));
    assert_eq!(lattice.gram_schmidt_squared_length(2).err(), Some(LatticeError::IndexOutOfRange));
    assert_eq!(lattice.mu(2, 0).err(), Some(LatticeError::IndexOutOfRange));
    assert_eq!(lattice.mu(0, 2).err(), Some(LatticeError::IndexOutOfRange));
    assert_eq!(lattice.mu(7, 9).err(), Some(LatticeError::IndexOutOfRange));
}

#[test]
fn lattice_point_is_the_integer_combination() {
    let lattice = skew();
    assert_eq!(lattice.lattice_point(&ints(&[2, -3])).unwrap(), whole(&[0, -4]));
    assert_eq!(lattice.lattice_point(&ints(&[0, 0])).unwrap(), whole(&[0, 0]));
    assert_eq!(lattice.lattice_point(&ints(&[1, 0])).unwrap(), whole(&[3, 1]));
    assert_eq!(
        lattice.lattice_point(&ints(&[1])).err(),
        Some(LatticeError::DimensionMismatch)
    );
    assert_eq!(
        lattice.lattice_point(&ints(&[1, 2, 3])).err(),
        Some(LatticeError::DimensionMismatch)
    );
}

#[test]
fn vectors_of_different_lengths_are_refused() {
    let made = Lattice::new(vec![whole(&[1, 0]), whole(&[0, 1, 0])]);
    assert_eq!(made.err(), Some(LatticeError::DimensionMismatch));
    let made = Lattice::new(vec![whole(&[1, 0, 0]), whole(&[0, 1])]);
    assert_eq!(made.err(), Some(LatticeError::DimensionMismatch));
}

#[test]
fn dependent_vectors_are_refused() {
    let made = Lattice::new(vec![whole(&[1, 2]), whole(&[2, 4])]);
    assert_eq!(made.err(), Some(LatticeError::DegenerateBasis));
    let made = Lattice::new(vec![whole(&[0, 0])]);
    assert_eq!(made.err(), Some(LatticeError::DegenerateBasis));
    let made = Lattice::new(vec![whole(&[1, 0]), whole(&[0, 1]), whole(&[1, 1])]);
    assert_eq!(made.err(), Some(LatticeError::DegenerateBasis));
    let made = Lattice::new(vec![Vec::new()]);
    assert_eq!(made.err(), Some(LatticeError::DegenerateBasis));
}

#[test]
fn frame_coordinates_of_a_target() {
    let lattice = skew();
    let y = lattice.frame_coordinates(&whole(&[1, 1])).unwrap();
    assert_eq!(y, vec![q(4, 10), q(1, 2)]);
}

#[test]
fn coefficients_of_a_lattice_point_are_found() {
    let lattice = skew();
    assert_eq!(lattice.coefficients_of(&whole(&[0, -4])).unwrap(), Some(ints(&[2, -3])));
    assert_eq!(lattice.coefficients_of(&whole(&[0, 0])).unwrap(), Some(ints(&[0, 0])));
    assert_eq!(lattice.coefficients_of(&whole(&[3, 1])).unwrap(), Some(ints(&[1, 0])));
    assert_eq!(lattice.coefficients_of(&whole(&[2, 2])).unwrap(), Some(ints(&[0, 1])));
    for a in -4..=4 {
        for b in -4..=4 {
            let x = ints(&[a, b]);
            let p = lattice.lattice_point(&x).unwrap();
            assert_eq!(lattice.coefficients_of(&p).unwrap(), Some(x));
        }
    }
}

#[test]
fn coefficients_of_other_points_are_none() {
    let lattice = skew();
    assert_eq!(lattice.coefficients_of(&whole(&[1, 1])).unwrap(), None);
    assert_eq!(lattice.coefficients_of(&vec![q(3, 2), q(1, 2)]).unwrap(), None);
    assert_eq!(lattice.coefficients_of(&vec![q(1, 1), q(1, 3)]).unwrap(), None);
    assert_eq!(
        lattice.coefficients_of(&whole(&[1, 1, 1])).err(),
        Some(LatticeError::DimensionMismatch)
    );
}

#[test]
fn coefficients_in_a_plane_of_space() {
    let lattice = Lattice::new(vec![whole(&[1, 2, 3]), whole(&[4, 5, 6])]).unwrap();
    assert_eq!(lattice.coefficients_of(&whole(&[-2, -1, 0])).unwrap(), Some(ints(&[2, -1])));
    assert_eq!(lattice.coefficients_of(&whole(&[0, 0, 1])).unwrap(), None);
    assert_eq!(lattice.coefficients_of(&whole(&[-2, -1, 1])).unwrap(), None);
    let empty = Lattice::new(Vec::new()).unwrap();
    assert_eq!(empty.coefficients_of(&Vec::new()).unwrap(), Some(Vec::new()));
    assert_eq!(empty.lattice_point(&Vec::new()).unwrap(), Vec::<Rational>::new());
}

#[test]
fn failures_in_words() {
    assert_eq!(LatticeError::DimensionMismatch.message(), "Vector size not compatible with lattice");
    assert_eq!(LatticeError::EmptyLattice.message(), "Lattice is empty.");
    assert_eq!(LatticeError::DegenerateBasis.message(), "Basis vectors are linearly dependent.");
    assert_eq!(LatticeError::IndexOutOfRange.message(), "Index is not below the rank.");
}
