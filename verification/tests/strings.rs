use itym::slot::Slot;
use itym::str::redo::array_string::ArrayString;
use itym::str::redo::pod::PodStr;
use itym::str::slot_str::{SlotStr, SlotStrError};
use itym::str::slot_string::{SlotString, SlotStringErrorKind};
use itym::str::terminated::{AsNulTerminated, AsTerminated};

#[test]
fn terminated_trims_and_pushes() {
    let mut sub = AsTerminated::new(b"ab\x1a\x1a\x1a".to_vec());
    assert_eq!(sub.const_len(), 2);
    assert_eq!(sub.const_as_bytes(), b"ab");
    assert_eq!(sub.const_split_terminator(), (&b"ab"[..], &b"\x1a\x1a\x1a"[..]));
    assert!(sub.const_push_byte(b'c').is_ok());
    assert_eq!(sub.0, b"abc\x1a\x1a".to_vec());
    assert!(sub.const_push_char('é').is_ok());
    assert_eq!(sub.0, "abcé".as_bytes().to_vec());
    let error = sub.const_push_byte(b'x').unwrap_err();
    assert_eq!(error.0, 1);
    assert_eq!(sub.const_push_char('€').unwrap_err().0, 3);

    let mut nul = AsNulTerminated::new(b"x\0\0".to_vec());
    assert_eq!(nul.const_len(), 1);
    assert!(nul.const_push_char('ß').is_ok());
    assert_eq!(nul.0, "xß".as_bytes().to_vec());
    assert_eq!(nul.const_push_byte(0).unwrap_err().0, 1);

    let text = AsTerminated::new(String::from("hé\u{1a}\u{1a}"));
    assert_eq!(text.const_len(), 3);
    assert_eq!(text.const_as_str(), "hé");
    let text = AsNulTerminated::new(String::from("ok\0"));
    assert_eq!(text.const_split_terminator(), ("ok", "\0"));
}

#[test]
fn slot_str_checks_and_joins() {
    assert!(SlotStr::new(Slot::lit(&[0xC3, 0x28])).is_err());
    let s = SlotStr::new(Slot::lit(b"hi")).unwrap();
    assert_eq!(s.as_str(), "hi");
    assert!(matches!(SlotStr::<[u8; 3]>::from_str("hi"), Err(SlotStrError::Size)));
    let t = SlotStr::<[u8; 3]>::from_str("you").unwrap();
    let joined = s.push(t);
    assert_eq!(joined.as_str(), "hiyou");
    let (a, b) = joined.pop();
    assert_eq!(a.as_str(), "hi");
    assert_eq!(b.as_str(), "you");

    let padded = SlotStr::lit(b"ab\x1a\x1a");
    let other = SlotStr::lit(b"c\x1a");
    let joined = padded.push_terminated(other);
    assert_eq!(joined.as_bytes(), b"abc\x1a\x1a\x1a");
    let nul = SlotStr::lit(b"a\0\0");
    let nul2 = SlotStr::lit(b"bc\0");
    assert_eq!(nul.push_nul_terminated(nul2).as_bytes(), b"abc\0\0\0");
    assert_eq!(SlotStr::<[u8; 2]>::new_terminated().as_bytes(), b"\x1a\x1a");
}

#[test]
fn slot_string_grows_and_shrinks() {
    let mut s = SlotString::<[u8; 6]>::new();
    assert!(s.is_empty());
    assert!(s.push_str("ab").is_ok());
    assert!(s.push_char('é').is_ok());
    assert_eq!(s.as_str(), "abé");
    assert_eq!(s.push_str("xyz").unwrap_err().0, 1);
    assert_eq!(s.pop_char(), Some('é'));
    assert_eq!(s.as_str(), "ab");
    s.resize(4, b'-');
    assert_eq!(s.as_str(), "ab--");
    s.resize(2, b'+');
    assert_eq!(s.as_str(), "ab--");
    s.resize(100, b'.');
    assert_eq!(s.as_str(), "ab--..");
    assert_eq!(s.capacity(), 6);
    assert_eq!(s.len(), 6);
    assert_eq!(s.into_slot_str().as_str(), "ab--..");

    let mut short = SlotString::<[u8; 4]>::lit("hé");
    assert_eq!(short.pop_char(), Some('é'));
    assert_eq!(short.pop_char(), Some('h'));
    assert_eq!(short.pop_char(), None);
    assert!(short.push_slot_str(SlotStr::lit(b"wxyz")).is_ok());
    assert_eq!(short.push_slot_str(SlotStr::lit(b"a")).unwrap_err().0, 1);
    short.clear();
    assert_eq!(short.as_str(), "");
    assert_eq!(SlotString::<[u8; 3]>::from_str("abcd").unwrap_err().0, 1);

    let left = SlotString::<[u8; 4]>::lit("ab");
    let right = SlotString::<[u8; 3]>::lit("c");
    let both = left.push(right);
    assert_eq!(both.as_str(), "abc");
    assert_eq!(both.capacity(), 7);
    let padded = SlotString::<[u8; 4]>::lit("ab").into_slot_str();
    assert_eq!(padded.as_bytes(), b"ab\x1a\x1a");
}

#[test]
fn array_string_truncates() {
    let mut s = ArrayString::<8>::new();
    assert!(s.try_push_str("héllo").is_ok());
    assert!(s.try_push_str("!!!").is_err());
    assert!(s.try_push_char('!').is_ok());
    s.push_char('?');
    assert_eq!(s.as_str(), "héllo!?");
    assert_eq!(s.capacity(), 8);
    let s = match s.try_truncate_into_array_str::<2>() {
        Ok(_) => panic!(),
        Err(back) => back,
    };
    let short = s.try_truncate_into_array_str::<3>().ok().unwrap();
    assert_eq!(short.0.as_str(), "hé");

    let mut exact = ArrayString::<4>::new();
    exact.push_str("four");
    assert_eq!(exact.into_array_str::<4>().0.as_str(), "four");
    let mut trunc = ArrayString::<4>::new();
    trunc.push_str("abc");
    assert_eq!(trunc.truncate_into_array_str::<1>().0.as_str(), "a");
}

#[test]
fn pod_last_char_and_moves() {
    let pod = PodStr::lit("aé".as_bytes().try_into().unwrap_or(&[0u8; 3]));
    assert_eq!(pod.last_char(), 'é');
    let ascii = PodStr::<[u8; 2]>::from_fill_ascii_const::<b'k'>();
    assert_eq!(ascii.as_str(), "kk");

    let mut item = Some(PodStr::lit(b"yz"));
    let joined = PodStr::lit(b"x").push_from(&mut item).unwrap();
    assert!(item.is_none());
    assert_eq!(joined.as_str(), "xyz");
    let back = PodStr::lit(b"x").push_from::<[u8; 2]>(&mut item).unwrap_err();
    assert_eq!(back.as_str(), "x");

    let mut rest = None;
    let head = joined.pop_into(&mut rest);
    assert_eq!(head.as_str(), "x");
    assert_eq!(rest.unwrap().as_str(), "yz");
}

#[test]
fn slot_str_into_slot_string_and_pop_char_law() {
    let mut string = SlotStr::lit(b"ab").into_slot_string();
    assert_eq!(string.as_str(), "ab");
    assert_eq!(string.pop_char(), Some('b'));
    let mut grown = SlotString::<[u8; 8]>::lit("hé");
    assert!(grown.push_char('€').is_ok());
    assert_eq!(grown.pop_char(), Some('€'));
    assert_eq!(grown.as_str(), "hé");
}

#[test]
fn strings_copy_out_text() {
    let s = SlotString::<[u8; 5]>::lit("héy");
    assert_eq!(s.to_string(), String::from("héy"));
    let pod = PodStr::lit(b"ok");
    assert_eq!(pod.into_string(), String::from("ok"));
}

#[test]
fn slot_string_from_utf8_bytes_reports_each_failure() {
    let ok = SlotString::<[u8; 4]>::from_utf8_bytes("hé".as_bytes()).unwrap();
    assert_eq!(ok.as_str(), "hé");
    assert_eq!(ok.into_slot_str().as_bytes(), b"h\xc3\xa9\x1a");
    match SlotString::<[u8; 2]>::from_utf8_bytes(b"abcd") {
        Err(SlotStringErrorKind::Capacity(e)) => assert_eq!(e.0, 2),
        _ => panic!(),
    }
    match SlotString::<[u8; 4]>::from_utf8_bytes(&[0xC3, 0x28]) {
        Err(SlotStringErrorKind::Utf8(_)) => {}
        _ => panic!(),
    }
}
