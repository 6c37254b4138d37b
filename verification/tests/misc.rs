use itym::mem::aligned::byte_array::ByteArray;
use itym::mem::aligned::{Aligned, AlignedManuallyDrop};
use itym::schema::TupleSchema;
use itym::slab::RainbowBuilder;
use std::rc::Rc;
use itym::slot::Slot;
use itym::ts::{Bool, OptionSome, TypeValue};
use itym::variant_map::example::{FooEntryMut, FooEntryRef};

#[test]
fn aligned_wrappers_hold_their_values() {
    let mut aligned = Aligned::<u8, u64>::new(7);
    assert_eq!(*aligned.as_ref(), 7);
    *aligned.as_mut() = 9;
    assert_eq!(*aligned.copy().as_ref(), 9);
    assert_eq!(aligned.into_inner(), 9);

    let manual = AlignedManuallyDrop::<u16, u64>::new(3);
    assert_eq!(manual.into_inner(), 3);

    let mut bytes = ByteArray::<3, u64>::new([1, 2, 3]);
    bytes.as_mut_slice()[0] = 9;
    bytes.as_mut()[2] = 8;
    assert_eq!(bytes.as_slice(), &[9, 2, 8]);
    assert_eq!(bytes.copy().as_ref(), &[9, 2, 8]);
}

#[test]
fn rainbow_marks_size_classes() {
    let builder = RainbowBuilder::<u32>::new();
    // `bands` and `rainbow` describe `(T,)` for the builder's `T`, here `(u32,)`.
    assert_eq!(builder.rainbow(), 1 << 3);
    assert_eq!(builder.bands(), 1);
    let single = RainbowBuilder::<u8>::new().register::<u16>();
    let _ = single;
}

#[test]
fn variant_entries_borrow() {
    let mut title = String::from("title");
    let entry = FooEntryMut::String(&mut title);
    match entry.to_ref() {
        FooEntryRef::String(s) => assert_eq!(s, "title"),
        _ => panic!(),
    }
}

#[test]
fn schema_and_type_values() {
    assert_eq!(<() as TupleSchema>::len(), 0);
    assert_eq!(<(u8,) as TupleSchema>::len(), 1);
    assert!(<Bool<true> as TypeValue>::value());
    assert_eq!(<OptionSome<Bool<false>> as TypeValue>::value(), Some(false));
}

#[test]
fn writer_slot_mut_keeps_cursor() {
    let mut writer = Slot::lit(b"abc").writer();
    writer.seek_from_start(2);
    writer.slot_mut().write_byte_at(0, b'z');
    assert_eq!(writer.position(), 2);
    assert_eq!(writer.slot().as_slice(), b"zbc");
}

#[test]
fn aligned_wrappers_carry_alignment_and_drop_rules() {
    assert_eq!(std::mem::align_of::<Aligned<u8, u64>>(), std::mem::align_of::<u64>());
    assert_eq!(std::mem::align_of::<AlignedManuallyDrop<u8, u32>>(), std::mem::align_of::<u32>());
    assert_eq!(std::mem::align_of::<ByteArray<3, u64>>(), std::mem::align_of::<u64>());
    assert_eq!(std::mem::align_of::<ByteArray<3>>(), std::mem::align_of::<usize>());

    let shared = Rc::new(1u8);
    drop(AlignedManuallyDrop::<Rc<u8>, u64>::new(shared.clone()));
    assert_eq!(Rc::strong_count(&shared), 2);
    drop(Aligned::<Rc<u8>, u64>::new(shared.clone()));
    assert_eq!(Rc::strong_count(&shared), 2);
}
