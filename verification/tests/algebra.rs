use lattice_cvp::algebraic_structure::finite_field::{FiniteField, MultiplicativeGroup};
use lattice_cvp::algebraic_structure::Element;
use lattice_cvp::integer_computations::{extended_euclidean_ordered, naive_pow, pow_rug};
use lattice_cvp::primes::primes_from_two;
use rug::ops::{Pow, RemRounding};
use rug::rand::RandState;
use rug::{Complete, Integer};
use std::sync::Arc;

#[test]
fn test_algebraic_structure_arithmetic() {
    let n: u32 = 200;
    let mut prime: Integer = Integer::from(2);
    let mut rng = RandState::new();

    for _ in 2..n {
        let p = prime.clone();
        let f: Arc<FiniteField> = Arc::new(FiniteField::new(p.clone()).unwrap());
        let a_rand: Integer = Integer::from(rng.bits(32));
        let b_rand: Integer = Integer::from(rng.bits(32));
        let a = Element::new(f.clone(), a_rand.clone());
        let b = Element::new(f.clone(), b_rand.clone());

        assert_eq!(a.get_rep(), &(&a_rand % &p).complete());
        assert_eq!(b.get_rep(), &(&b_rand % &p).complete());

        let added = (a.add_ref(&b)).get_rep().clone();
        let multiplied = (a.mul_ref(&b)).get_rep().clone();

        let added_check: Integer =
            ((&a_rand % &p).complete() + (&b_rand % &p).complete()) % &p;
        let mul_check: Integer = ((a_rand % &p) * (b_rand % &p)) % &p;

        assert_eq!(
            added,
            added_check,
            "Failed for: {} + {}, and got {} instead of {}",
            a.get_rep(),
            b.get_rep(),
            added,
            added_check
        );
        assert_eq!(
            multiplied,
            mul_check,
            "Failed for: {} * {}, and got {} instead of {}",
            a.get_rep(),
            b.get_rep(),
            multiplied,
            mul_check
        );

        let g: Arc<MultiplicativeGroup> = Arc::new(MultiplicativeGroup::from_finite_field(&f));

        // To not create zero
        let modification: Integer = Integer::from(rng.bits(32));
        let a_rand: Integer = (Integer::from(rng.bits(32))
            .rem_euc(&(&p - &Integer::from(1)).complete()))
            + 1
            + (&p * &modification);
        let b_rand: Integer = (Integer::from(rng.bits(32))
            .rem_euc(&(&p - &Integer::from(1)).complete()))
            + 1
            + (&p * modification);

        let a = Element::new(g.clone(), a_rand.clone());
        let b = Element::new(g.clone(), b_rand.clone());

        assert_eq!(
            a.get_rep(),
            &(&a_rand % &p).complete(),
            "Failed representation of {} in Z_{}*,  got {} instead of {}",
            &a_rand,
            &p,
            a.get_rep(),
            (&a_rand % &p).complete()
        );
        assert_eq!(
            b.get_rep(),
            &(&b_rand % &p).complete(),
            "Failed representation of {} in Z_{}*,  got {} instead of {}",
            &b_rand,
            &p,
            b.get_rep(),
            (&b_rand % &p).complete()
        );

        let multiplied = a.mul_ref(&b);
        let mul_check: Integer = ((&a_rand % &p).complete() * (&b_rand % &p).complete()) % &p;

        assert_eq!(multiplied.get_rep(), &mul_check);

        let divided = a.div_ref(&b);

        assert_eq!(
            divided.mul_ref(&b).get_rep(),
            &(&a_rand % &p).complete(),
            "Failed division {}/{} in Z_{}*",
            &a_rand,
            &b_rand,
            &p
        );

        prime.next_prime_mut();
    }
}

#[test]
fn test_extended_euclidean() {
    let n: u32 = 200;
    let mut prime: Integer = Integer::from(2);
    let mut rng = RandState::new();

    for _ in 2..n {
        let p = prime.clone();
        let f = Arc::new(FiniteField::new(p.clone()).unwrap());
        let a_rand =
            (Integer::from(rng.bits(32)).rem_euc(&(&p - &Integer::from(1)).complete())) + 1;
        let a = Element::new(f.clone(), a_rand);

        let a_inv = a.inv();
        assert_eq!(
            &Integer::from(1),
            a_inv.mul_ref(&a).get_rep(),
            "We have a: {}, a_inv: {}, p: {}",
            a.get_rep(),
            a_inv.get_rep(),
            p
        );

        let g = Arc::new(MultiplicativeGroup::from_finite_field(&f));
        let a_rand =
            (Integer::from(rng.bits(32)).rem_euc(&(&p - &Integer::from(1)).complete())) + 1;
        let a = Element::new(g.clone(), a_rand);
        let a_inv = a.inv();
        assert_eq!(
            &Integer::from(1),
            a_inv.mul_ref(&a).get_rep(),
            "We have a: {}, a_inv: {}, p: {}",
            a.get_rep(),
            a_inv.get_rep(),
            p
        );

        prime.next_prime_mut();
    }
}

#[test]
fn test_exponentiation() {
    let n: u32 = 200;
    let mut rng = RandState::new();
    let mut prime: Integer = Integer::from(2);

    for _ in 2..n {
        let p = prime.clone();
        let f = Arc::new(FiniteField::new(p.clone()).unwrap());

        let a_rand = Integer::from(rng.bits(32));
        let a = Element::new(f.clone(), a_rand.clone());

        let x_rand = Integer::from(rng.bits(32));

        let a_exp_check = Integer::from(a_rand.pow_mod_ref(&x_rand, &p).unwrap());
        let a_exp = a.pow(&x_rand);

        assert_eq!(a_exp.get_rep(), &a_exp_check);

        prime.next_prime_mut();
    }
}

fn z(n: i64) -> Integer {
    Integer::from(n)
}

#[test]
fn extended_euclid_values() {
    assert_eq!(extended_euclidean_ordered(&z(240), &z(46)), (z(2), z(-9), z(47)));
    assert_eq!(extended_euclidean_ordered(&z(7), &z(0)), (z(7), z(1), z(0)));
    assert_eq!(extended_euclidean_ordered(&z(-7), &z(0)), (z(7), z(-1), z(0)));
    assert_eq!(extended_euclidean_ordered(&z(0), &z(0)), (z(0), z(1), z(0)));
    assert_eq!(extended_euclidean_ordered(&z(0), &z(5)), (z(5), z(0), z(1)));
    for a in -30..=30 {
        for b in -30..=30 {
            let (d, x, y) = extended_euclidean_ordered(&z(a), &z(b));
            assert_eq!(z(a) * &x + z(b) * &y, d);
            assert_eq!(d, z(a).gcd(&z(b)));
        }
    }
}

#[test]
fn powers_by_a_modulus() {
    assert_eq!(pow_rug(&z(7), &z(5), &z(1000)), z(807));
    assert_eq!(naive_pow(&z(7), &z(5), &z(1000)), z(807));
    assert_eq!(pow_rug(&z(0), &z(0), &z(5)), z(1));
    assert_eq!(pow_rug(&z(3), &z(0), &z(1)), z(0));
    assert_eq!(pow_rug(&z(3), &z(-4), &z(7)), z(1));
    assert_eq!(naive_pow(&z(3), &z(-4), &z(7)), z(1));
    assert_eq!(pow_rug(&z(-2), &z(3), &z(7)), z(6));
    assert_eq!(pow_rug(&z(2), &z(10), &z(-7)), z(2));
    for a in -6..=6 {
        for e in 0..=12 {
            for m in [1, 2, 3, 7, 10, -9] {
                let expected = Integer::from(z(a).pow(e as u32)).rem_euc(z(m));
                assert_eq!(pow_rug(&z(a), &z(e), &z(m)), expected);
                assert_eq!(naive_pow(&z(a), &z(e), &z(m)), expected);
            }
        }
    }
}

#[test]
fn fields_are_made_of_primes_only() {
    assert!(FiniteField::new(z(7)).is_some());
    assert!(FiniteField::new(z(2)).is_some());
    assert!(FiniteField::new(z(0)).is_none());
    assert!(FiniteField::new(z(1)).is_none());
    assert!(FiniteField::new(z(91)).is_none());
    assert!(FiniteField::from_verdict(z(91), true).is_some());
    assert!(FiniteField::from_verdict(z(7), false).is_none());
    assert!(FiniteField::from_verdict(z(0), true).is_none());
    assert_eq!(FiniteField::new(z(13)).unwrap().get_size(), z(13));
}

#[test]
fn elements_of_the_field_of_seven() {
    let f = Arc::new(FiniteField::new(z(7)).unwrap());
    let a = Element::new(f.clone(), z(10));
    let b = Element::new(f.clone(), z(-1));
    assert_eq!(a.get_rep(), &z(3));
    assert_eq!(b.get_rep(), &z(6));
    assert_eq!(a.add_ref(&b).get_rep(), &z(2));
    assert_eq!(a.mul_ref(&b).get_rep(), &z(4));
    assert_eq!(a.pow(&z(3)).get_rep(), &z(6));
    assert_eq!(a.inv().get_rep(), &z(5));
    assert_eq!(b.div_ref(&a).get_rep(), &z(2));
    assert_eq!(a.get_outer_structure().get_size(), z(7));
    let (d, x, y) = f.extended_euclidean(&a, &b);
    assert_eq!(d.get_rep(), &z(3));
    assert_eq!(x.get_rep(), &z(1));
    assert_eq!(y.get_rep(), &z(0));
}

#[test]
fn elements_of_the_group_of_seven() {
    let g = Arc::new(MultiplicativeGroup::new(z(7)));
    assert_eq!(g.mod_num(), &z(7));
    assert_eq!(g.get_size(), z(6));
    let one = Element::new(g.clone(), z(14));
    assert_eq!(one.get_rep(), &z(1));
    let a = Element::new(g.clone(), z(3));
    assert_eq!(a.mul_ref(&a).get_rep(), &z(2));
    assert_eq!(a.pow(&z(6)).get_rep(), &z(1));
    assert_eq!(a.inv().get_rep(), &z(5));
    assert_eq!(a.div_ref(&a).get_rep(), &z(1));
    let b = Element::new(g.clone(), z(5));
    assert_eq!(a.mul_ref(&b).get_rep(), &z(1));
}

#[test]
fn primes_from_two_rise() {
    assert_eq!(primes_from_two(0), Vec::<Integer>::new());
    assert_eq!(primes_from_two(1), vec![z(2)]);
    assert_eq!(
        primes_from_two(10),
        vec![z(2), z(3), z(5), z(7), z(11), z(13), z(17), z(19), z(23), z(29)]
    );
}

#[test]
fn euclidean_division_of_negative_numbers() {
    // Through the extended Euclidean algorithm, whose first step divides.
    assert_eq!(extended_euclidean_ordered(&z(23), &z(-10)), (z(1), z(-3), z(-7)));
    assert_eq!(extended_euclidean_ordered(&z(-23), &z(10)), (z(1), z(3), z(7)));
    assert_eq!(extended_euclidean_ordered(&z(-23), &z(-10)), (z(1), z(3), z(-7)));
}
