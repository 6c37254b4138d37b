use itym::cyclic::Cyclic;
use std::cmp::Ordering;

#[test]
fn cyclic_test() {
    type Bruh = u8;

    let range = <Bruh>::MIN..=<Bruh>::MAX;

    for alfa in range.clone() {
        let ref alfa_cyclic = Cyclic::new(alfa);

        for bravo in range.clone() {
            let ref bravo_cyclic = Cyclic::new(bravo);
            let cmp = alfa_cyclic.cmp(bravo_cyclic);
            let cmp_rev = bravo_cyclic.cmp(alfa_cyclic);

            assert_eq!(cmp, cmp_rev.reverse());
        }
    }

    for a in Bruh::MIN..=(Bruh::MIN + 2) {
        let ref ac = Cyclic::new(a);

        for b in (Bruh::MAX - 2)..=Bruh::MAX {
            let ref bc = Cyclic::new(b);
            let cmp = ac.cmp(bc);
            let cmp_rev = bc.cmp(ac);

            assert_eq!(cmp, cmp_rev.reverse());
        }
    }

    for a in (Bruh::MAX - 2)..=Bruh::MAX {
        let ref ac = Cyclic::new(a);

        for b in Bruh::MIN..=(Bruh::MIN + 2) {
            let ref bc = Cyclic::new(b);
            let cmp = ac.cmp(bc);
            let cmp_rev = bc.cmp(ac);

            assert_eq!(cmp, cmp_rev.reverse());
        }
    }
}

#[test]
fn cyclic_order_is_by_distance_from_midpoint() {
    // 0 lies farthest below the midpoint, 255 just below it, 128 on it.
    assert_eq!(Cyclic::new(128u8).cmp(&Cyclic::new(128u8)), Ordering::Equal);
    assert_eq!(Cyclic::new(128u8).partial_cmp(&Cyclic::new(127u8)), Some(Ordering::Greater));
    assert_eq!(Cyclic::new(5u16).cmp(&Cyclic::new(5u16)), Ordering::Equal);
}

#[test]
fn cyclic_get_returns_value() {
    assert_eq!(Cyclic::new(42u32).get(), 42);
}

#[test]
fn cyclic_arithmetic_uses_rhs_only() {
    assert_eq!(Cyclic::new(250u8).add(Cyclic::new(10u8)).get(), 20);
    assert_eq!(Cyclic::new(3u8).add(Cyclic::new(200u8)).get(), 144);
    assert_eq!(Cyclic::new(3u8).sub(Cyclic::new(4u8)).get(), 0);
    assert_eq!(Cyclic::new(10u64).sub(Cyclic::new(4u64)).get(), 0);
}
