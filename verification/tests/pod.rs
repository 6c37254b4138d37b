use itym::str::redo::pod::PodStr;

fn assert_fill<const LEN: usize>(c: char) {
    let pod = PodStr::<[u8; LEN]>::from_fill(c);

    if LEN == 0 {
        assert_eq!(pod.unwrap().as_str(), "");

        return;
    }

    let char_len = c.len_utf8();

    match (pod, LEN % char_len == 0) {
        (None, false) => { /* pass */ }
        (Some(pod), true) => assert_eq!(pod.as_str(), c.to_string().repeat(LEN / char_len)),
        _ => panic!(),
    }
}

#[test]
fn fills() {
    for c in ['\x00', 'A', 'ß', 'ℝ', '💣'] {
        assert_fill::<0>(c);
        assert_fill::<1>(c);
        assert_fill::<2>(c);
        assert_fill::<3>(c);
        assert_fill::<4>(c);
        assert_fill::<5>(c);
    }
}

#[test]
fn push() {
    const ALPHA: &[u8; 6] = b"Hello ";
    const BRAVO: &[u8; 6] = b"world!";

    let alpha_str = std::str::from_utf8(ALPHA).unwrap();
    let bravo_str = std::str::from_utf8(BRAVO).unwrap();

    let alpha = PodStr::lit(ALPHA);
    let bravo = PodStr::lit(BRAVO);
    let charlie = alpha.push(bravo);

    assert_eq!(charlie.as_str(), "Hello world!");

    let (alpha, bravo) = charlie.pop();

    assert_eq!(alpha.as_str(), alpha_str);
    assert_eq!(bravo.as_str(), bravo_str);
}

#[test]
fn pod_write_str() {
    let mut buffer = PodStr::<[u8; 26]>::zeroed();

    buffer.write_str("Meet me at the simulacrum.");
    buffer.write_str("Hello world!");
    assert_eq!(buffer.as_str(), "Hello world!he simulacrum.");

    buffer.write_str("Meet me at the simulacrum.");
    buffer.write_str_at(5, "Hello world!");
    assert_eq!(buffer.as_str(), "Meet Hello world!mulacrum.");
}

#[test]
fn pod_ascii_and_utf8() {
    let pod = PodStr::<[u8; 3]>::from_fill_ascii(b' ').unwrap();
    assert_eq!(pod.as_str(), "   ");
    assert!(PodStr::<[u8; 3]>::from_fill_ascii(0x80).is_none());
    assert_eq!(PodStr::<[u8; 2]>::new().as_bytes(), &[0, 0]);
    assert!(PodStr::<[u8; 2]>::from_utf8_slice(&[0xC3, 0x28]).is_err());
    let ok = PodStr::<[u8; 2]>::from_utf8_array([0xC3, 0x9F]).unwrap();
    assert_eq!(ok.as_str(), "ß");
    assert!(ok.is_char_boundary(0));
    assert!(!ok.is_char_boundary(1));
    assert!(ok.is_char_boundary(2));
    assert!(!ok.is_char_boundary(3));
    assert!(!ok.is_ascii());
    assert_eq!(ok.len(), 2);
    assert_eq!(ok.into_first_chunk::<1>(), [0xC3]);
    let mut cleared = PodStr::<[u8; 2]>::from_fill('ß').unwrap();
    cleared.clear();
    assert_eq!(cleared.as_bytes(), &[0, 0]);
    cleared.fill_ascii(b'x');
    assert_eq!(cleared.as_str(), "xx");
}
