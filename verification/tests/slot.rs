use itym::slot::writer::{SlotSeekError, SlotWriter};
use itym::slot::Slot;

#[test]
fn layout() {
    let hello = Slot::lit(b"Hello ");
    let world = Slot::lit(b"world!");
    let mut hello_world = hello.copy().push(world.copy());
    assert_eq!(hello.as_slice(), b"Hello ");
    assert_eq!(world.as_slice(), b"world!");
    assert_eq!(hello_world.as_slice(), b"Hello world!");

    assert_eq!(hello.as_slice(), hello.copy().as_slice());
    assert_eq!(hello_world.as_slice(), hello_world.copy().as_slice());

    let (hello2, world2) = hello_world.copy().pop();
    assert_eq!(hello.as_slice(), hello2.as_slice());
    assert_eq!(world.as_slice(), world2.as_slice());

    let hello_padded = hello.copy().resize::<[u8; 8]>(0x1A);
    let hello_padded2 = hello.copy().into_array_resize::<8>(0x1A);
    assert_eq!(hello_padded.as_slice(), b"Hello \x1a\x1a");
    assert_eq!(&hello_padded2, b"Hello \x1a\x1a");

    let hello_truncated = hello.copy().truncated::<[u8; 4]>();
    let hello_truncated2 = hello.copy().into_array_truncated::<4>();
    assert_eq!(hello_truncated.as_slice(), b"Hell");
    assert_eq!(&hello_truncated2, b"Hell");

    let cleared = hello.copy().truncated::<[u8; 0]>();
    assert_eq!(cleared.as_slice(), b"");

    let array_ref = hello_world.as_array::<12>();
    assert_eq!(&array_ref, b"Hello world!");

    let array_mut = hello_world.as_mut_array::<12>();
    assert_eq!(array_mut, b"Hello world!");

    let array_owned = hello_world.into_array::<12>();
    assert_eq!(&array_owned, b"Hello world!");
}

#[test]
fn zero_size() {
    let foo = Slot::lit(b"");
    let bar = Slot::lit(b"");
    let foobar = foo.copy().push(bar.copy());
    assert_eq!(foo.as_slice(), b"");
    assert_eq!(bar.as_slice(), b"");
    assert_eq!(foobar.as_slice(), b"");

    assert!(foo.eq(&foo.copy()));
    assert!(foobar.eq(&foobar.copy()));

    let (foo2, bar2) = foobar.copy().pop();
    assert_eq!(foo.as_slice(), foo2.as_slice());
    assert_eq!(bar.as_slice(), bar2.as_slice());

    let mut dst = foobar.copy();
    dst.fill(60);
    assert_eq!(dst.as_slice(), b"");
}

#[test]
fn slot_writes_and_fills() {
    let mut slot = Slot::<[u8; 7]>::new_array_zeroed();
    slot.write_slice_at(2, b"abc");
    assert_eq!(slot.as_slice(), b"\0\0abc\0\0");
    slot.write_byte_at(6, b'z');
    assert_eq!(slot.as_slice(), b"\0\0abc\0z");
    slot.set_slice(b"xy", b'-');
    assert_eq!(slot.as_slice(), b"xy-----");
    slot.write_bytes(b'q', 3);
    assert_eq!(slot.as_slice(), b"qqq----");

    assert_eq!(slot.fill_chunks(b"ab"), 6);
    assert_eq!(slot.as_slice(), b"ababab-");
    assert_eq!(slot.fill_rchunks(b"12"), 1);
    assert_eq!(slot.as_slice(), b"a121212");
    assert_eq!(slot.fill_char_utf8('ß'), 6);
    assert_eq!(slot.as_slice(), "ßßß".as_bytes().iter().copied().chain([b'2']).collect::<Vec<u8>>().as_slice());
    assert_eq!(slot.first_chunk::<2>(), Some([0xC3, 0x9F]));
    assert_eq!(slot.last_chunk::<1>(), Some([b'2']));
    assert_eq!(slot.first_chunk::<8>(), None);
}

#[test]
fn slot_exact_fills_and_slices() {
    let mut slot = Slot::<[u8; 4]>::new_array_fill(1);
    assert_eq!(slot.as_slice(), &[1, 1, 1, 1]);
    slot.fill_chunks_exact(b"xy");
    assert_eq!(slot.as_slice(), b"xyxy");
    slot.fill_char_utf8_exact('é');
    assert_eq!(slot.as_slice(), "éé".as_bytes());
    slot.copy_from_slice(b"wxyz");
    assert_eq!(slot.len(), 4);
    assert!(Slot::<[u8; 4]>::try_from_slice(b"abc").is_none());
    let other = Slot::<[u8; 4]>::try_from_slice(b"abcd").unwrap();
    slot.copy_from_slot(&other);
    assert_eq!(slot.as_slice(), b"abcd");
    assert!(!slot.eq(&Slot::lit(b"abce")));
}

#[test]
fn writer_seeks_and_writes() {
    let mut writer = Slot::lit(b"........").writer();
    assert_eq!(writer.write_slice(b"abc"), 3);
    assert_eq!(writer.position(), 3);
    writer.write_byte(b'd');
    writer.write_char('é');
    assert_eq!(writer.position(), 6);
    assert_eq!(writer.write_slice(b"0123"), 2);
    assert_eq!(writer.position(), 8);
    assert_eq!(writer.write_slice(b"x"), 0);
    assert_eq!(writer.slot().as_slice(), "abcdé01".as_bytes());

    writer.seek(-100);
    assert_eq!(writer.position(), 0);
    writer.seek(5);
    assert_eq!(writer.position(), 5);
    writer.seek(isize::MAX);
    assert_eq!(writer.position(), 8);
    writer.seek_from_end(3);
    assert_eq!(writer.position(), 5);
    writer.seek_from_start(100);
    assert_eq!(writer.position(), 8);
    assert_eq!(writer.as_slice(), b"");

    assert_eq!(writer.try_seek_from_start(9), Err(SlotSeekError::CursorOverflow));
    assert_eq!(writer.try_seek_from_start(u64::MAX), Err(SlotSeekError::IndexOverflow));
    assert_eq!(writer.try_seek(-9), Err(SlotSeekError::CursorUnderflow));
    assert_eq!(writer.try_seek(-8), Ok(()));
    assert_eq!(writer.position(), 0);
    assert_eq!(writer.try_seek_from_end(-2), Ok(()));
    assert_eq!(writer.position(), 6);
    assert_eq!(writer.try_seek_from_end(1), Err(SlotSeekError::CursorOverflow));
    assert_eq!(writer.position(), 6);
}

#[test]
fn writer_buffer_push_and_pop() {
    let mut writer: SlotWriter<[u8; 2]> = SlotWriter::new(Slot::lit(b"ab"));
    writer.seek_from_start(2);
    let pushed = writer.buffer_push(Slot::lit(b"cd"));
    assert_eq!(pushed.position(), 2);
    let mut pushed = pushed;
    pushed.seek_from_start(4);
    let (back, tail) = pushed.buffer_pop();
    assert_eq!(back.position(), 2);
    assert_eq!(tail.as_slice(), b"cd");
    assert_eq!(back.into_inner().as_slice(), b"ab");
}

#[test]
fn alloc_layout() {
    let slot = Slot::<[u8; 64]>::new_array_zeroed();
    drop(slot.copy().into_boxed_slice());
    drop(slot.copy().into_vec());
    drop(slot.copy().into_vec_exact());
    let leaked: &'static mut [u8] = slot.leak();
    assert_eq!(leaked.len(), 64);

    let slot = Slot::<[u8; 0]>::new_array_zeroed();
    drop(slot.copy().into_boxed_slice());
    drop(slot.copy().into_vec());
    drop(slot.copy().into_vec_exact());
    let leaked: &'static mut [u8] = slot.leak();
    assert_eq!(leaked.len(), 0);
}

#[test]
fn slot_boxed_constructors() {
    let boxed = Slot::<[u8; 3]>::new_boxed_fill(7);
    assert_eq!(boxed.as_slice(), &[7, 7, 7]);
    let zeroed = Slot::<([u8; 1], [u8; 2])>::new_boxed_zeroed();
    assert_eq!(zeroed.as_slice(), &[0, 0, 0]);
    assert_eq!((*zeroed).into_vec().len(), 3);
}

#[test]
fn as_mut_array_writes_through() {
    let mut slot = Slot::lit(b"abcd");
    let array = slot.as_mut_array::<4>();
    array[0] = b'z';
    array[3] = b'y';
    assert_eq!(slot.as_slice(), b"zbcy");
}
