use itym::intern::{ByteInternerGuard, InternerGuard};
use std::collections::VecDeque;

#[test]
fn intern_deduplicates_values() {
    let mut guard = InternerGuard::<u64>::new();
    let a = guard.intern(5);
    let b = guard.intern(7);
    let c = guard.intern(5);
    assert!(a.is_same(&c));
    assert!(!a.is_same(&b));
    assert!(guard.is_interned(&7));
    assert!(!guard.is_interned(&8));
    assert!(guard.get(&8).is_none());
    assert!(guard.get(&5).unwrap().is_same(&a));
    assert_eq!(*c.get_static_ref(), 5);
    assert!(std::ptr::eq(a.get_static_ref(), c.get_static_ref()));
}

#[test]
fn intern_static_value_is_adopted() {
    static SEVEN: u32 = 7;
    let mut guard = InternerGuard::<u32>::new();
    let first = guard.intern_static(&SEVEN);
    assert!(std::ptr::eq(first.get_static_ref(), &SEVEN));
    let again = guard.intern(7);
    assert!(again.is_same(&first));
    assert!(std::ptr::eq(again.get_static_ref(), &SEVEN));

    let boxed = guard.intern_box(Box::new(9));
    assert_eq!(*boxed.get_static_ref(), 9);
    assert!(guard.is_interned(&9));
}

#[test]
fn intern_slices_and_strings() {
    let mut guard = InternerGuard::<[u8]>::new();
    let a = guard.intern_vec(vec![1, 2, 3]);
    let b = guard.intern_static(&[1, 2, 3]);
    let c = guard.intern_array([1, 2, 3]);
    let d = guard.intern_vec_deque(VecDeque::from(vec![1, 2, 3]));
    let e = guard.intern_box(vec![1, 2, 3].into_boxed_slice());
    assert!(a.is_same(&b));
    assert!(a.is_same(&c));
    assert!(a.is_same(&d));
    assert!(a.is_same(&e));
    assert!(std::ptr::eq(a.get_static_ref(), e.get_static_ref()));
    assert!(guard.is_interned(&[1, 2, 3]));
    assert!(!guard.is_interned(&[1, 2]));

    let mut bytes = ByteInternerGuard::new();
    let greet_1 = bytes.intern_box(b"Hi john".to_vec().into_boxed_slice());
    let greet_2 = bytes.intern_static(b"Hi john");
    assert!(greet_1.is_same(&greet_2));
    assert_eq!(greet_1.get_static_ref(), b"Hi john");
    assert!(std::ptr::eq(greet_1.get_static_ref(), greet_2.get_static_ref()));
    let text = bytes.intern_string(String::from("Hi john"));
    assert_eq!(text.get_static_ref(), "Hi john");
    assert_eq!(text.get_static_ref().as_ptr(), greet_1.get_static_ref().as_ptr());

    let mut strings = InternerGuard::<str>::new();
    let s1 = strings.intern_string(String::from("alpha"));
    let s2 = strings.intern_static("alpha");
    assert!(s1.is_same(&s2));
    assert!(std::ptr::eq(s1.get_static_ref(), s2.get_static_ref()));
    assert!(strings.is_interned("alpha"));
    assert!(!strings.is_interned("beta"));
}

#[test]
fn intern_static_slices_and_strings_are_adopted() {
    static WORDS: [u16; 3] = [4, 5, 6];
    static NAME: &str = "gamma";
    let mut guard = InternerGuard::<[u16]>::new();
    let words = guard.intern_static(&WORDS);
    assert!(std::ptr::eq(words.get_static_ref(), &WORDS[..]));
    let copy = guard.intern_vec(vec![4, 5, 6]);
    assert!(std::ptr::eq(copy.get_static_ref(), &WORDS[..]));

    let mut strings = InternerGuard::<str>::new();
    let name = strings.intern_static(NAME);
    assert!(std::ptr::eq(name.get_static_ref(), NAME));
}

#[test]
fn intern_aggressive_reuses_contained_slices() {
    let mut guard = InternerGuard::<[u8]>::new();
    let whole = guard.intern_vec(vec![1, 2, 3, 4]);
    let part = guard.agressive_intern_vec(vec![2, 3]);
    assert!(!part.is_same(&whole));
    assert_eq!(part.get_static_ref(), &[2, 3]);
    let whole_ptr = whole.get_static_ref().as_ptr();
    assert_eq!(part.get_static_ref().as_ptr(), whole_ptr.wrapping_add(1));
    assert!(guard.is_interned(&[1, 2, 3, 4]));
    let tail = guard.agressive_intern_array([3, 4]);
    assert_eq!(tail.get_static_ref().as_ptr(), whole_ptr.wrapping_add(2));

    let mut strings = InternerGuard::<str>::new();
    let owner = strings.intern_string(String::from("hello world"));
    let world = strings.agressive_intern_string(String::from("world"));
    assert_eq!(world.get_static_ref(), "world");
    let owner_ptr = owner.get_static_ref().as_ptr();
    assert_eq!(world.get_static_ref().as_ptr(), owner_ptr.wrapping_add(6));
}

#[test]
fn intern_aggressive_takes_first_occurrence() {
    let mut guard = InternerGuard::<[u8]>::new();
    let first = guard.intern_vec(vec![9, 1, 2, 1, 2]);
    guard.intern_vec(vec![1, 2, 7]);
    let part = guard.agressive_intern_vec(vec![1, 2]);
    assert_eq!(part.get_static_ref(), &[1, 2]);
    assert_eq!(part.get_static_ref().as_ptr(), first.get_static_ref().as_ptr().wrapping_add(1));

    let mut strings = InternerGuard::<str>::new();
    let owner = strings.intern_string(String::from("xyzyz"));
    let yz = strings.agressive_intern_string(String::from("yz"));
    assert_eq!(yz.get_static_ref(), "yz");
    assert_eq!(yz.get_static_ref().as_ptr(), owner.get_static_ref().as_ptr().wrapping_add(1));
}

#[test]
fn intern_derefs_to_interned_storage() {
    let mut guard = InternerGuard::<[u8]>::new();
    let greet = guard.intern_vec(b"Hi john".to_vec());
    assert_eq!(&*greet, b"Hi john");
    assert_eq!(greet.len(), 7);
    assert!(std::ptr::eq(&*greet, greet.get_static_ref()));

    let mut values = InternerGuard::<i32>::new();
    let seven = values.intern(7);
    assert_eq!(*seven + 1, 8);
}
