use lattice_cvp::babai::approximate_closest_vector;
use lattice_cvp::exact::exact_closest_vector;
use lattice_cvp::lattice::Lattice;
use lattice_cvp::vector::squared_distance;
use rug::Integer;
use rug::Rational;

fn q(n: i64, d: i64) -> Rational {
    Rational::from((n, d))
}

fn whole(v: &[i64]) -> Vec<Rational> {
    v.iter().map(|&n| q(n, 1)).collect()
}

fn bases() -> Vec<Vec<Vec<Rational>>> {
    vec![
        vec![whole(&[3])],
        vec![vec![q(-7, 2)]],
        vec![whole(&[2, 0]), whole(&[0, 2])],
        vec![whole(&[3, 1]), whole(&[2, 2])],
        vec![whole(&[1, 0]), whole(&[7, 1])],
        vec![whole(&[5, 0]), whole(&[3, 1])],
        vec![whole(&[1, 2, 3]), whole(&[4, 5, 6])],
        vec![whole(&[2, 0, 0]), whole(&[1, 2, 0]), whole(&[1, 1, 2])],
        vec![vec![q(1, 2), q(0, 1), q(1, 3)], whole(&[0, 1, 1]), whole(&[1, 1, 0])],
    ]
}

fn targets() -> Vec<Vec<Rational>> {
    vec![
        vec![q(12, 10), q(9, 10), q(-3, 7)],
        vec![q(7, 1), q(-5, 2), q(1, 1)],
        vec![q(0, 1), q(0, 1), q(0, 1)],
        vec![q(-31, 10), q(22, 7), q(5, 2)],
        vec![q(1, 2), q(1, 2), q(1, 2)],
    ]
}

fn brute_force(lattice: &Lattice, target: &Vec<Rational>, reach: i64) -> Rational {
    let n = lattice.rank();
    let mut x = vec![-reach; n];
    let mut best: Option<Rational> = None;
    loop {
        let coefficients: Vec<Integer> = x.iter().map(|&c| Integer::from(c)).collect();
        let p = lattice.lattice_point(&coefficients).unwrap();
        let d = squared_distance(&p, target);
        best = match best {
            Some(b) if b <= d => Some(b),
            _ => Some(d),
        };
        let mut i = 0;
        while i < n && x[i] == reach {
            x[i] = -reach;
            i += 1;
        }
        if i == n {
            break;
        }
        x[i] += 1;
    }
    best.unwrap()
}

#[test]
fn exact_is_never_beaten_by_brute_force() {
    for basis in bases() {
        let dim = basis[0].len();
        let lattice = Lattice::new(basis).unwrap();
        let reach = if lattice.rank() == 3 { 8 } else { 20 };
        for target in targets() {
            let target: Vec<Rational> = target[..dim].to_vec();
            let (found, _) = exact_closest_vector(&lattice, &target).unwrap();
            assert!(found.squared_distance <= brute_force(&lattice, &target, reach));
        }
    }
}

#[test]
fn exact_in_rank_three_against_the_full_box() {
    let lattice =
        Lattice::new(vec![whole(&[2, 0, 0]), whole(&[1, 2, 0]), whole(&[1, 1, 2])]).unwrap();
    let target = vec![q(-31, 10), q(22, 7), q(5, 2)];
    let (found, _) = exact_closest_vector(&lattice, &target).unwrap();
    assert_eq!(found.squared_distance, brute_force(&lattice, &target, 20));
}

#[test]
fn exact_returns_a_lattice_point_at_the_distance_it_states() {
    for basis in bases() {
        let dim = basis[0].len();
        let lattice = Lattice::new(basis).unwrap();
        for target in targets() {
            let target: Vec<Rational> = target[..dim].to_vec();
            let (found, seen) = exact_closest_vector(&lattice, &target).unwrap();
            let p = lattice.lattice_point(&found.point.coefficients).unwrap();
            assert_eq!(p, found.point.coordinates);
            assert_eq!(squared_distance(&p, &target), found.squared_distance);
            let zero = Rational::new();
            let first = p[0].clone();
            let second = if dim >= 2 { p[1].clone() } else { zero };
            assert!(seen.contains(&(first, second)));
            let (point, log) = lattice.closest_vector_by_enumeration(&target).unwrap();
            assert_eq!(point, found.point.coordinates);
            assert_eq!(log, seen);
        }
    }
}

#[test]
fn exact_is_never_farther_than_the_approximation() {
    for basis in bases() {
        let dim = basis[0].len();
        let lattice = Lattice::new(basis).unwrap();
        for target in targets() {
            let target: Vec<Rational> = target[..dim].to_vec();
            let (found, _) = exact_closest_vector(&lattice, &target).unwrap();
            let approx = approximate_closest_vector(&lattice, &target).unwrap();
            assert!(found.squared_distance <= approx.squared_distance);
            let p = lattice.lattice_point(&approx.point.coefficients).unwrap();
            assert_eq!(p, approx.point.coordinates);
            assert_eq!(squared_distance(&p, &target), approx.squared_distance);
            assert_eq!(lattice.babai_nearest_plane(&target).unwrap(), p);
        }
    }
}

#[test]
fn exact_gives_the_same_answer_twice() {
    for basis in bases() {
        let dim = basis[0].len();
        let lattice = Lattice::new(basis).unwrap();
        for target in targets() {
            let target: Vec<Rational> = target[..dim].to_vec();
            let (one, seen_one) = exact_closest_vector(&lattice, &target).unwrap();
            let (two, seen_two) = exact_closest_vector(&lattice, &target).unwrap();
            assert_eq!(one.point.coefficients, two.point.coefficients);
            assert_eq!(one.point.coordinates, two.point.coordinates);
            assert_eq!(one.squared_distance, two.squared_distance);
            assert_eq!(seen_one, seen_two);
        }
    }
}

#[test]
fn a_far_target_is_found_beyond_machine_integers() {
    let lattice = Lattice::new(vec![whole(&[3])]).unwrap();
    let far = Rational::from((Integer::from_str_radix("300000000000000000000000000001", 10).unwrap(), 1));
    let approx = approximate_closest_vector(&lattice, &vec![far]).unwrap();
    assert_eq!(
        approx.point.coefficients,
        vec![Integer::from_str_radix("100000000000000000000000000000", 10).unwrap()]
    );
    assert_eq!(approx.squared_distance, q(1, 1));
}
