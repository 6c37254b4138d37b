use itym::pack::{Pack, Unalign, Unpad, Unsigned};
use rand::Rng;

const SAMPLES: usize = 10_000;

fn sampled<const BYTES: usize>() {
    let mut rng = rand::rng();
    let max = <Unsigned<BYTES> as Pack>::canon_max();
    let count = usize::try_from(max).unwrap_or(usize::MAX).min(SAMPLES);

    let mut samples = vec![0u128, max];
    for _ in 0..count {
        samples.push(rng.random_range(0..=max));
    }

    for canon in samples {
        let unalign = Unalign::<BYTES>::from_canon(canon).unwrap();
        let unpad = Unpad::<BYTES>::from_canon(canon).unwrap();

        assert_eq!(canon, unalign.get());
        assert_eq!(canon, unpad.get());
    }
}

#[test]
fn samples() {
    sampled::<1>();
    sampled::<2>();
    sampled::<3>();
    sampled::<4>();
    sampled::<5>();
    sampled::<6>();
    sampled::<7>();
    sampled::<8>();
    sampled::<9>();
    sampled::<10>();
    sampled::<11>();
    sampled::<12>();
    sampled::<13>();
    sampled::<14>();
    sampled::<15>();
    sampled::<16>();
}

#[test]
fn pack_rejects_values_beyond_the_bytes() {
    assert!(Unalign::<1>::from_canon(256).is_none());
    assert!(Unpad::<2>::from_canon(65536).is_none());
    assert!(Unsigned::<3>::from_canon(1 << 24).is_none());
    assert_eq!(Unsigned::<3>::from_canon((1 << 24) - 1).unwrap().get(), (1 << 24) - 1);
}

#[test]
fn pack_bytes_are_little_endian() {
    let unalign = Unalign::<2>::from_canon(0x0102).unwrap();
    assert_eq!(unalign.into_raw(), [0x02, 0x01]);
    assert_eq!(<Unsigned<5> as Pack>::canon_max(), 0xff_ffff_ffff);
    assert_eq!(<Unsigned<5> as Pack>::size(), 5);
}
