use itym::couple::{CouplingError, UniqueCouple};

#[test]
fn couple_roundtrips() {
    let c = UniqueCouple::<u8>::new(3, 1).unwrap();
    let d = UniqueCouple::<u8>::new(1, 3).unwrap();
    assert_eq!(c.as_raw(), d.as_raw());
    assert_eq!(c.get(), [1, 3]);
    assert_eq!(c.get_greater(), 3);
    assert_eq!(c.get_lesser(), 1);
}

#[test]
fn couple_errors() {
    assert_eq!(UniqueCouple::<u8>::new(2, 2).unwrap_err(), CouplingError::Equal);
    assert_eq!(UniqueCouple::<u8>::new(0, 200).unwrap_err(), CouplingError::OverflowHi);
    assert_eq!(UniqueCouple::<u8>::new(22, 3).unwrap_err(), CouplingError::OverflowLo);
    assert_eq!(UniqueCouple::<u8>::new(21, 3).unwrap().into_raw(), 234);
    assert_eq!(UniqueCouple::<u8>::new(21, 3).unwrap().get(), [3, 21]);
    assert_eq!(UniqueCouple::<u8>::new(21, 3).unwrap().get_lesser(), 3);
    assert_eq!(UniqueCouple::<u8>::new(5, 2).unwrap().get(), [2, 5]);
    let wide = UniqueCouple::<u64>::new(10, 20000).unwrap();
    assert_eq!(wide.get(), [10, 20000]);
}
