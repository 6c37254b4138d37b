use itym::tlmem::{TlmAlign, TlmError, TlmLayout, TlmSize};
use std::alloc::Layout;

fn pair(layout: TlmLayout) -> (usize, usize) {
    let (size, align) = layout.size_align();
    (size.into_raw(), align.into_raw())
}

#[test]
fn tlm_encoding_orders_pairs_by_size_then_alignment() {
    let expected = [(1, 1), (2, 1), (2, 2), (3, 1), (4, 1), (4, 2), (4, 4), (5, 1), (6, 1), (6, 2)];
    for (encoded, &(size, align)) in expected.iter().enumerate() {
        let layout = TlmLayout::try_from_size_align(size, align).unwrap();
        assert_eq!(layout.into_raw(), encoded);
        assert_eq!(pair(layout), (size, align));
    }
}

#[test]
fn tlm_roundtrips_dividing_alignments() {
    for size in 1usize..200 {
        let mut align = 1usize;
        while size % align == 0 {
            let layout = TlmLayout::try_from_size_align(size, align).unwrap();
            assert_eq!(pair(layout), (size, align));
            assert_eq!(layout.size().into_raw(), size);
            assert_eq!(layout.align().into_raw(), align);
            align *= 2;
        }
    }
}

#[test]
fn tlm_errors() {
    assert_eq!(TlmLayout::try_from_size_align(4, 3), Err(TlmError::OddAlign));
    assert_eq!(TlmLayout::try_from_size_align(4, 0), Err(TlmError::OddAlign));
    assert_eq!(TlmLayout::try_from_size_align(0, 1), Err(TlmError::ZeroSize));
    assert_eq!(TlmLayout::try_from_size_align(2, 4), Err(TlmError::OddAlign));
    assert_eq!(TlmLayout::try_from_size_align(usize::MAX, 1), Err(TlmError::EncodeOverflow));
    assert_eq!(TlmAlign::new(6), Err(TlmError::OddAlign));
    assert_eq!(TlmSize::new(0), Err(TlmError::ZeroSize));
}

#[test]
fn tlm_parts() {
    let align = TlmAlign::new(8).unwrap();
    assert_eq!(align.lower().unwrap().into_raw(), 4);
    assert!(TlmAlign::new(1).unwrap().lower().is_none());
    assert_eq!(TlmSize::new(24).unwrap().max_align().into_raw(), 8);
    let layout = TlmLayout::new(TlmSize::new(8).unwrap(), TlmAlign::new(4).unwrap());
    assert_eq!(pair(layout), (8, 4));
    assert_eq!(pair(TlmLayout::of::<u64>()), (8, 8));
}

#[test]
fn tlm_from_layout_matches_size_and_alignment() {
    let from_layout = TlmLayout::try_from_layout(Layout::new::<u64>()).unwrap();
    assert_eq!(pair(from_layout), (8, 8));
    let six = TlmLayout::try_from_layout(Layout::from_size_align(6, 2).unwrap()).unwrap();
    assert_eq!(six.into_raw(), 9);
    assert_eq!(TlmLayout::try_from_layout(Layout::from_size_align(0, 1).unwrap()), Err(TlmError::ZeroSize));
    assert_eq!(TlmLayout::try_from_layout(Layout::from_size_align(2, 4).unwrap()), Err(TlmError::OddAlign));
}
