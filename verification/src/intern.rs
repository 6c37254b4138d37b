//! Interning: each distinct value is stored once, and every request for an equal
//! value is answered with a reference to that one stored copy.
//!
//! See [`InternerGuard`] for the cache of interned values and [`Intern`] for the
//! reference it hands out. A reference is identified by its address: the
//! allocation that holds the value, the position in that allocation, and the
//! number of items. Equal values interned through one cache share one address.

use std::collections::VecDeque;
use vstd::prelude::*;
use vstd::string::*;
use vstd::utf8::encode_utf8;
use crate::slot::{boxed_slice, leak_box};
use crate::str::redo::pod::check_utf8;

verus! {

/// Element types whose equality an interner can test.
pub trait InternKey: Copy + View {
    fn key_eq(&self, other: &Self) -> (r: bool)
        ensures
            r == (*self == *other),
            r == (self@ == other@),
    ;
}

impl InternKey for u8 {
    fn key_eq(&self, other: &Self) -> (r: bool) {
        *self == *other
    }
}

impl InternKey for u16 {
    fn key_eq(&self, other: &Self) -> (r: bool) {
        *self == *other
    }
}

impl InternKey for u32 {
    fn key_eq(&self, other: &Self) -> (r: bool) {
        *self == *other
    }
}

impl InternKey for u64 {
    fn key_eq(&self, other: &Self) -> (r: bool) {
        *self == *other
    }
}

impl InternKey for u128 {
    fn key_eq(&self, other: &Self) -> (r: bool) {
        *self == *other
    }
}

impl InternKey for usize {
    fn key_eq(&self, other: &Self) -> (r: bool) {
        *self == *other
    }
}

impl InternKey for i8 {
    fn key_eq(&self, other: &Self) -> (r: bool) {
        *self == *other
    }
}

impl InternKey for i16 {
    fn key_eq(&self, other: &Self) -> (r: bool) {
        *self == *other
    }
}

impl InternKey for i32 {
    fn key_eq(&self, other: &Self) -> (r: bool) {
        *self == *other
    }
}

impl InternKey for i64 {
    fn key_eq(&self, other: &Self) -> (r: bool) {
        *self == *other
    }
}

impl InternKey for i128 {
    fn key_eq(&self, other: &Self) -> (r: bool) {
        *self == *other
    }
}

impl InternKey for isize {
    fn key_eq(&self, other: &Self) -> (r: bool) {
        *self == *other
    }
}

impl InternKey for bool {
    fn key_eq(&self, other: &Self) -> (r: bool) {
        *self == *other
    }
}

impl InternKey for char {
    fn key_eq(&self, other: &Self) -> (r: bool) {
        *self == *other
    }
}

/// Types whose values an [`InternerGuard`] caches, each with the invariant its cache keeps.
pub trait Internable: View {
    /// The invariant of a cache holding the entries `s`.
    spec fn cache_wf(s: Seq<(Self::V, nat, nat, nat)>) -> bool;

    /// The empty cache keeps the invariant.
    proof fn lemma_empty_wf()
        ensures
            Self::cache_wf(Seq::empty()),
    ;
}

impl<T: InternKey> Internable for T {
    open spec fn cache_wf(s: Seq<(T::V, nat, nat, nat)>) -> bool {
        value_cache_wf(s)
    }

    proof fn lemma_empty_wf() {
    }
}

impl<T: InternKey> Internable for [T] {
    open spec fn cache_wf(s: Seq<(Seq<T>, nat, nat, nat)>) -> bool {
        slice_cache_wf(s)
    }

    proof fn lemma_empty_wf() {
    }
}

impl Internable for str {
    open spec fn cache_wf(s: Seq<(Seq<char>, nat, nat, nat)>) -> bool {
        slice_cache_wf(s)
    }

    proof fn lemma_empty_wf() {
    }
}

/// Reference to an interned value of `T`, handed out by an [`InternerGuard`]: a reference
/// that lives for the rest of the program, together with its address.
///
/// Its view is `(value, allocation, start, length)`: the value, and the
/// address at which the cache holds it.
#[derive(Debug)]
pub struct Intern<T: ?Sized + 'static> {
    value: &'static T,
    alloc: usize,
    start: usize,
    len: usize,
}

impl<T: ?Sized + 'static> Clone for Intern<T> {
    fn clone(&self) -> (r: Self)
        ensures
            r.address() == self.address(),
            r.held() == self.held(),
    {
        Intern { value: self.value, alloc: self.alloc, start: self.start, len: self.len }
    }
}

impl<T: ?Sized + 'static> Copy for Intern<T> {

}

impl<T: ?Sized + View + 'static> View for Intern<T> {
    type V = (T::V, nat, nat, nat);

    closed spec fn view(&self) -> (T::V, nat, nat, nat) {
        (self.value@, self.alloc as nat, self.start as nat, self.len as nat)
    }
}

/// The address of an interned reference.
pub open spec fn address_of<V>(e: (V, nat, nat, nat)) -> (nat, nat, nat) {
    (e.1, e.2, e.3)
}

impl<T: ?Sized + 'static> Intern<T> {
    /// The interned storage itself.
    pub closed spec fn held(&self) -> &'static T {
        self.value
    }

    /// The address of the reference.
    pub closed spec fn address(&self) -> (nat, nat, nat) {
        (self.alloc as nat, self.start as nat, self.len as nat)
    }

    /// The interned storage, for the rest of the program.
    pub fn get_static_ref(self) -> (r: &'static T)
        ensures
            r == self.held(),
    {
        self.value
    }

    /// Whether the two references have the same address.
    pub fn is_same(&self, other: &Self) -> (r: bool)
        ensures
            r == (self.address() == other.address()),
    {
        self.alloc == other.alloc && self.start == other.start && self.len == other.len
    }

    /// Maps the referenced storage, keeping the address.
    pub fn map_intern<U: ?Sized + 'static, F: FnOnce(&'static T) -> &'static U>(self, f: F) -> (r:
        Intern<U>)
        requires
            f.requires((self.held(),)),
        ensures
            f.ensures((self.held(),), r.held()),
            r.address() == self.address(),
    {
        Intern { value: f(self.value), alloc: self.alloc, start: self.start, len: self.len }
    }
}

impl<T: ?Sized + 'static> core::ops::Deref for Intern<T> {
    type Target = T;

    /// The interned storage.
    fn deref(&self) -> (r: &T)
        ensures
            r == self.held(),
    {
        self.value
    }
}

impl<T: ?Sized + View + 'static> Intern<T> {
    /// The address in the view is the address of the reference, and the value in the view is
    /// that of the interned storage.
    pub proof fn lemma_view(&self)
        ensures
            address_of(self@) == self.address(),
            self@.0 == self.held()@,
    {
    }
}

/// The interned references of a cache, in the order they were created.
pub struct Cache<T: ?Sized + 'static>(Vec<Intern<T>>);

impl<T: ?Sized + View + 'static> View for Cache<T> {
    type V = Seq<(T::V, nat, nat, nat)>;

    closed spec fn view(&self) -> Seq<(T::V, nat, nat, nat)> {
        self.0@.map_values(|e: Intern<T>| e@)
    }
}

impl<T: ?Sized + View + 'static> Cache<T> {
    fn new() -> (r: Self)
        ensures
            r@ == Seq::<(T::V, nat, nat, nat)>::empty(),
    {
        let r = Cache(Vec::new());
        assert(r@ =~= Seq::<(T::V, nat, nat, nat)>::empty());
        r
    }
}

/// Whether some entry of the cache holds `v`.
pub open spec fn holds_value<V>(s: Seq<(V, nat, nat, nat)>, v: V) -> bool {
    exists|i: int| 0 <= i < s.len() && s[i].0 == v
}

/// No two entries hold equal values.
pub open spec fn values_distinct<V>(s: Seq<(V, nat, nat, nat)>) -> bool {
    forall|i: int, j: int| 0 <= i < s.len() && 0 <= j < s.len() && i != j ==> s[i].0 != s[j].0
}

/// A cache of single values: each entry is its own allocation of one item,
/// numbered by its position.
pub open spec fn value_cache_wf<V>(s: Seq<(V, nat, nat, nat)>) -> bool {
    &&& values_distinct(s)
    &&& forall|i: int| 0 <= i < s.len() ==> s[i].1 == i && s[i].2 == 0 && s[i].3 == 1
}

/// What interning `v` into the cache `old` leaves (`new`) and answers (`r`),
/// when a new value gets an allocation of its own: an entry holding `v` is
/// answered as it is; otherwise `v` gets a new allocation, numbered by the
/// position of the new entry.
pub open spec fn interned<V>(
    old: Seq<(V, nat, nat, nat)>,
    new: Seq<(V, nat, nat, nat)>,
    v: V,
    len: nat,
    r: (V, nat, nat, nat),
) -> bool {
    &&& r.0 == v
    &&& if holds_value(old, v) {
        &&& old.contains(r)
        &&& new == old
    } else {
        &&& r == (v, old.len(), 0nat, len)
        &&& new == old.push(r)
    }
}

/// Law: in a cache whose values are distinct, the entry holding a value is unique.
pub proof fn lemma_entry_unique<V>(s: Seq<(V, nat, nat, nat)>, a: (V, nat, nat, nat), b: (V, nat, nat, nat))
    requires
        values_distinct(s),
        s.contains(a),
        s.contains(b),
        a.0 == b.0,
    ensures
        a == b,
{
}

/// A guard over a cache of interned values of `T`. Its cache always keeps the invariant
/// of `T`'s caches ([`Internable::cache_wf`]).
pub struct InternerGuard<T: ?Sized + Internable + 'static> {
    cache: Cache<T>,
}

impl<T: ?Sized + Internable + 'static> View for InternerGuard<T> {
    type V = Seq<(T::V, nat, nat, nat)>;

    closed spec fn view(&self) -> Seq<(T::V, nat, nat, nat)> {
        self.cache@
    }
}

impl<T: ?Sized + Internable + 'static> InternerGuard<T> {
    #[verifier::type_invariant]
    closed spec fn inv(self) -> bool {
        T::cache_wf(self.cache@)
    }

    /// A guard over an empty cache.
    pub fn new() -> (r: Self)
        ensures
            r@ == Seq::<(T::V, nat, nat, nat)>::empty(),
    {
        proof {
            T::lemma_empty_wf();
        }
        InternerGuard { cache: Cache::new() }
    }

    /// Appends `r` to the cache.
    fn push_entry(&mut self, r: Intern<T>)
        requires
            T::cache_wf(old(self)@.push(r@)),
        ensures
            final(self)@ == old(self)@.push(r@),
    {
        proof {
            T::lemma_empty_wf();
        }
        let mut cache = Cache::new();
        core::mem::swap(&mut cache, &mut self.cache);
        cache.0.push(r);
        assert(cache@ =~= old(self)@.push(r@));
        self.cache = cache;
    }

    fn cache(&self) -> (r: &Cache<T>)
        ensures
            r@ == self@,
    {
        &self.cache
    }

    /// The entry at position `i`.
    fn entry(&self, i: usize) -> (r: Intern<T>)
        requires
            i < self@.len(),
        ensures
            r@ == self@[i as int],
    {
        let e = &self.cache().0[i];
        Intern { value: e.value, alloc: e.alloc, start: e.start, len: e.len }
    }
}

/// Calls `String::leak`, which hands out the string's characters for the rest of the program.
#[verifier::external_body]
fn leak_string(string: String) -> (r: &'static mut str)
    ensures
        r@ == string@,
{
    string.leak()
}

impl<T: InternKey> InternerGuard<T> {
    /// The position of the entry holding `value`.
    fn find(&self, value: &T) -> (r: Option<usize>)
        ensures
            match r {
                Some(i) => i < self@.len() && self@[i as int].0 == value@,
                None => !holds_value(self@, value@),
            },
    {
        let entries = &self.cache().0;
        let mut i: usize = 0;
        while i < entries.len()
            invariant
                0 <= i <= entries@.len(),
                self@ == entries@.map_values(|e: Intern<T>| e@),
                forall|j: int| 0 <= j < i ==> self@[j].0 != value@,
            decreases entries@.len() - i,
        {
            if entries[i].value.key_eq(value) {
                return Some(i);
            }
            i = i + 1;
        }
        None
    }

    /// Whether a value equal to `value` is interned.
    pub fn is_interned(&self, value: &T) -> (r: bool)
        ensures
            r == holds_value(self@, value@),
    {
        self.find(value).is_some()
    }

    /// The reference to the interned value equal to `value`, if there is one.
    pub fn get(&self, value: &T) -> (r: Option<Intern<T>>)
        ensures
            r is Some <==> holds_value(self@, value@),
            r matches Some(x) ==> self@.contains(x@) && x@.0 == value@,
    {
        match self.find(value) {
            Some(i) => Some(self.entry(i)),
            None => None,
        }
    }

    /// Takes `stored` over as the storage of a new entry.
    fn push_new(&mut self, stored: &'static T) -> (r: Intern<T>)
        requires
            value_cache_wf(old(self)@),
            !holds_value(old(self)@, stored@),
        ensures
            value_cache_wf(final(self)@),
            r.held() == stored,
            r@ == (stored@, old(self)@.len(), 0nat, 1nat),
            final(self)@ == old(self)@.push(r@),
    {
        let alloc = self.cache().0.len();
        let r = Intern { value: stored, alloc, start: 0, len: 1 };
        proof {
            assert forall|i: int, j: int|
                0 <= i < old(self)@.push(r@).len() && 0 <= j < old(self)@.push(r@).len() && i != j
                implies old(self)@.push(r@)[i].0 != old(self)@.push(r@)[j].0 by {
                if i < old(self)@.len() && j < old(self)@.len() {
                } else if i < old(self)@.len() {
                    assert(old(self)@[i].0 != stored@);
                } else {
                    assert(old(self)@[j].0 != stored@);
                }
            }
        }
        self.push_entry(r);
        r
    }

    /// Interns `value`: answers the entry holding an equal value, or moves `value` into
    /// storage of its own, kept for the rest of the program.
    pub fn intern(&mut self, value: T) -> (r: Intern<T>)
        ensures
            value_cache_wf(final(self)@),
            interned(old(self)@, final(self)@, value@, 1, r@),
    {
        proof {
            use_type_invariant(&*self);
        }
        match self.find(&value) {
            Some(i) => self.entry(i),
            None => {
                let stored: &'static T = leak_box(Box::new(value));
                self.push_new(stored)
            },
        }
    }

    /// Same as [`Self::intern`], keeping the box's storage for a new value.
    pub fn intern_box(&mut self, value: Box<T>) -> (r: Intern<T>)
        ensures
            value_cache_wf(final(self)@),
            interned(old(self)@, final(self)@, value@, 1, r@),
    {
        proof {
            use_type_invariant(&*self);
        }
        match self.find(&*value) {
            Some(i) => self.entry(i),
            None => {
                let stored: &'static T = leak_box(value);
                self.push_new(stored)
            },
        }
    }

    /// Same as [`Self::intern`] for a value that lives for the rest of the program, which
    /// is taken over as the storage of a new value instead of a copy.
    pub fn intern_static(&mut self, value: &'static T) -> (r: Intern<T>)
        ensures
            value_cache_wf(final(self)@),
            interned(old(self)@, final(self)@, value@, 1, r@),
            !holds_value(old(self)@, value@) ==> r.held() == value,
    {
        proof {
            use_type_invariant(&*self);
        }
        match self.find(value) {
            Some(i) => self.entry(i),
            None => self.push_new(value),
        }
    }
}

/// `needle` occurs in `hay` at position `at`.
pub open spec fn occurs_at<E>(hay: Seq<E>, needle: Seq<E>, at: int) -> bool {
    &&& 0 <= at
    &&& at + needle.len() <= hay.len()
    &&& hay.subrange(at, at + needle.len()) == needle
}

/// The entry `e` lies inside the allocation that entry `e.1` owns: that entry
/// starts its allocation and spans all of it.
pub open spec fn owned_by<E>(s: Seq<(Seq<E>, nat, nat, nat)>, e: (Seq<E>, nat, nat, nat)) -> bool {
    let a = e.1 as int;
    &&& 0 <= a < s.len()
    &&& s[a].1 == a
    &&& s[a].2 == 0
    &&& s[a].3 == s[a].0.len()
    &&& e.3 == e.0.len()
    &&& occurs_at(s[a].0, e.0, e.2 as int)
}

/// A cache of sequences: values are distinct, and every entry lies inside an
/// allocation owned by the entry at the position of its allocation number.
pub open spec fn slice_cache_wf<E>(s: Seq<(Seq<E>, nat, nat, nat)>) -> bool {
    &&& values_distinct(s)
    &&& forall|i: int| 0 <= i < s.len() ==> owned_by(s, #[trigger] s[i])
}

/// What interning `v` while reusing stored sequences leaves and answers: an
/// entry holding `v` is answered as it is; otherwise, when some entry holds `v`
/// as a part, `v` is referenced inside that entry's allocation; otherwise it gets
/// a new allocation. The entry reused is the first, in cache order, that holds `v`
/// as a part, and `v` is referenced at the first position where it occurs in it.
pub open spec fn interned_reusing<E>(
    old: Seq<(Seq<E>, nat, nat, nat)>,
    new: Seq<(Seq<E>, nat, nat, nat)>,
    v: Seq<E>,
    r: (Seq<E>, nat, nat, nat),
) -> bool {
    &&& r.0 == v
    &&& if holds_value(old, v) {
        &&& old.contains(r)
        &&& new == old
    } else if exists|k: int, at: int| 0 <= k < old.len() && occurs_at(old[k].0, v, at) {
        &&& new == old.push(r)
        &&& exists|k: int, at: int|
            #![trigger occurs_at(old[k].0, v, at)]
            0 <= k < old.len() && occurs_at(old[k].0, v, at) && first_occurrence(old, v, k, at)
                && r.1 == old[k].1 && r.2 == old[k].2 + at && r.3 == v.len()
    } else {
        &&& r == (v, old.len(), 0nat, v.len())
        &&& new == old.push(r)
    }
}

/// `v` occurs at position `at` of entry `k`, and at no earlier position of it nor in
/// any earlier entry.
pub open spec fn first_occurrence<E>(s: Seq<(Seq<E>, nat, nat, nat)>, v: Seq<E>, k: int, at: int) -> bool {
    &&& forall|j: int, b: int| #![trigger occurs_at(s[j].0, v, b)] 0 <= j < k ==> !occurs_at(s[j].0, v, b)
    &&& forall|b: int| 0 <= b < at ==> !occurs_at(s[k].0, v, b)
}

/// Law: in a well-formed cache of sequences, two entries at the same address
/// are the same entry, so equal addresses mean equal values.
pub proof fn lemma_address_unique<E>(s: Seq<(Seq<E>, nat, nat, nat)>, i: int, j: int)
    requires
        slice_cache_wf(s),
        0 <= i < s.len(),
        0 <= j < s.len(),
        address_of(s[i]) == address_of(s[j]),
    ensures
        i == j,
{
    assert(owned_by(s, s[i]));
    assert(owned_by(s, s[j]));
    assert(s[i].0 =~= s[j].0);
}

/// Copies the items of `src`.
fn copy_slice<T: InternKey>(src: &[T]) -> (r: Vec<T>)
    ensures
        r@ == src@,
{
    let mut r: Vec<T> = Vec::new();
    let mut i: usize = 0;
    while i < src.len()
        invariant
            0 <= i <= src@.len(),
            r@ == src@.subrange(0, i as int),
        decreases src@.len() - i,
    {
        r.push(src[i]);
        i = i + 1;
        assert(r@ =~= src@.subrange(0, i as int));
    }
    assert(r@ =~= src@);
    r
}

/// Whether `needle` occurs in `hay` at position `at`.
fn matches_at<T: InternKey>(hay: &[T], needle: &[T], at: usize) -> (r: bool)
    requires
        at + needle@.len() <= hay@.len(),
    ensures
        r == occurs_at(hay@, needle@, at as int),
{
    let hay_len = hay.len();
    let mut i: usize = 0;
    while i < needle.len()
        invariant
            0 <= i <= needle@.len(),
            hay_len == hay@.len(),
            at + needle@.len() <= hay@.len(),
            forall|j: int| 0 <= j < i ==> hay@[at + j] == needle@[j],
        decreases needle@.len() - i,
    {
        if !hay[at + i].key_eq(&needle[i]) {
            assert(hay@.subrange(at as int, at + needle@.len())[i as int] != needle@[i as int]);
            return false;
        }
        i = i + 1;
    }
    assert(hay@.subrange(at as int, at + needle@.len()) =~= needle@);
    true
}

/// Whether the two sequences are equal.
fn slices_equal<T: InternKey>(a: &[T], b: &[T]) -> (r: bool)
    ensures
        r == (a@ == b@),
{
    if a.len() != b.len() {
        return false;
    }
    let r = matches_at(a, b, 0);
    assert(a@.subrange(0, b@.len() as int) =~= a@);
    r
}

/// The first position at which `needle` occurs in `hay`.
fn find_in<T: InternKey>(hay: &[T], needle: &[T]) -> (r: Option<usize>)
    ensures
        match r {
            Some(at) => occurs_at(hay@, needle@, at as int)
                && forall|b: int| 0 <= b < at ==> !occurs_at(hay@, needle@, b),
            None => forall|at: int| !occurs_at(hay@, needle@, at),
        },
{
    if needle.len() > hay.len() {
        return None;
    }
    let last = hay.len() - needle.len();
    let mut at: usize = 0;
    loop
        invariant
            at <= last,
            last + needle@.len() == hay@.len(),
            forall|k: int| 0 <= k < at ==> !occurs_at(hay@, needle@, k),
        decreases last - at,
    {
        if matches_at(hay, needle, at) {
            return Some(at);
        }
        if at == last {
            return None;
        }
        at = at + 1;
    }
}

impl<T: InternKey> InternerGuard<[T]> {
    /// The position of the entry holding `value`.
    fn find_slice(&self, value: &[T]) -> (r: Option<usize>)
        ensures
            match r {
                Some(i) => i < self@.len() && self@[i as int].0 == value@,
                None => !holds_value(self@, value@),
            },
    {
        let entries = &self.cache().0;
        let mut i: usize = 0;
        while i < entries.len()
            invariant
                0 <= i <= entries@.len(),
                self@ == entries@.map_values(|e: Intern<[T]>| e@),
                forall|j: int| 0 <= j < i ==> self@[j].0 != value@,
            decreases entries@.len() - i,
        {
            if slices_equal(entries[i].value, value) {
                return Some(i);
            }
            i = i + 1;
        }
        None
    }

    /// Whether a sequence equal to `value` is interned.
    pub fn is_interned(&self, value: &[T]) -> (r: bool)
        ensures
            r == holds_value(self@, value@),
    {
        self.find_slice(value).is_some()
    }

    /// The reference to the interned sequence equal to `value`, if there is one.
    pub fn get(&self, value: &[T]) -> (r: Option<Intern<[T]>>)
        ensures
            r is Some <==> holds_value(self@, value@),
            r matches Some(x) ==> self@.contains(x@) && x@.0 == value@,
    {
        match self.find_slice(value) {
            Some(i) => Some(self.entry(i)),
            None => None,
        }
    }

    /// Takes `stored` over as a new allocation, as a new entry.
    fn push_new(&mut self, stored: &'static [T]) -> (r: Intern<[T]>)
        requires
            slice_cache_wf(old(self)@),
            !holds_value(old(self)@, stored@),
        ensures
            slice_cache_wf(final(self)@),
            r.held() == stored,
            r@ == (stored@, old(self)@.len(), 0nat, stored@.len()),
            final(self)@ == old(self)@.push(r@),
    {
        let alloc = self.cache().0.len();
        let len = stored.len();
        let r = Intern { value: stored, alloc, start: 0, len };
        proof {
            let s = old(self)@.push(r@);
            assert(r@.0.subrange(0, r@.3 as int) =~= r@.0);
            assert forall|i: int| 0 <= i < s.len() implies owned_by(s, #[trigger] s[i]) by {
                if i < old(self)@.len() {
                    assert(owned_by(old(self)@, old(self)@[i]));
                }
            }
        }
        self.push_entry(r);
        r
    }

    /// Moves `vec` into storage kept for the rest of the program, as a new entry.
    fn push_vec(&mut self, vec: Vec<T>) -> (r: Intern<[T]>)
        requires
            slice_cache_wf(old(self)@),
            !holds_value(old(self)@, vec@),
        ensures
            slice_cache_wf(final(self)@),
            r@ == (vec@, old(self)@.len(), 0nat, vec@.len()),
            final(self)@ == old(self)@.push(r@),
    {
        let stored: &'static [T] = leak_box(boxed_slice(vec));
        self.push_new(stored)
    }

    /// Interns `vec`: answers the entry holding an equal sequence, or moves `vec` into a new
    /// allocation, kept for the rest of the program.
    pub fn intern_vec(&mut self, vec: Vec<T>) -> (r: Intern<[T]>)
        ensures
            slice_cache_wf(final(self)@),
            interned(old(self)@, final(self)@, vec@, vec@.len(), r@),
    {
        proof {
            use_type_invariant(&*self);
        }
        match self.find_slice(vec.as_slice()) {
            Some(i) => self.entry(i),
            None => self.push_vec(vec),
        }
    }

    /// Same as [`Self::intern_vec`], keeping the box's storage for a new sequence.
    pub fn intern_box(&mut self, value: Box<[T]>) -> (r: Intern<[T]>)
        ensures
            slice_cache_wf(final(self)@),
            interned(old(self)@, final(self)@, value@, value@.len(), r@),
    {
        proof {
            use_type_invariant(&*self);
        }
        match self.find_slice(&*value) {
            Some(i) => self.entry(i),
            None => {
                let stored: &'static [T] = leak_box(value);
                self.push_new(stored)
            },
        }
    }

    /// Same as [`Self::intern_vec`] for a sequence that lives for the rest of the program,
    /// which is taken over as a new allocation instead of a copy.
    pub fn intern_static(&mut self, value: &'static [T]) -> (r: Intern<[T]>)
        ensures
            slice_cache_wf(final(self)@),
            interned(old(self)@, final(self)@, value@, value@.len(), r@),
            !holds_value(old(self)@, value@) ==> r.held() == value,
    {
        proof {
            use_type_invariant(&*self);
        }
        match self.find_slice(value) {
            Some(i) => self.entry(i),
            None => self.push_new(value),
        }
    }

    /// Same as [`Self::intern_vec`], for an array.
    pub fn intern_array<const LEN: usize>(&mut self, array: [T; LEN]) -> (r: Intern<[T]>)
        ensures
            slice_cache_wf(final(self)@),
            interned(old(self)@, final(self)@, array@, LEN as nat, r@),
    {
        proof {
            use_type_invariant(&*self);
        }
        self.intern_vec(copy_slice(array.as_slice()))
    }

    /// Same as [`Self::intern_vec`], for the items of a queue, front first.
    pub fn intern_vec_deque(&mut self, queue: VecDeque<T>) -> (r: Intern<[T]>)
        ensures
            slice_cache_wf(final(self)@),
            interned(old(self)@, final(self)@, queue@, queue@.len(), r@),
    {
        proof {
            use_type_invariant(&*self);
        }
        let mut vec: Vec<T> = Vec::new();
        let mut i: usize = 0;
        while i < queue.len()
            invariant
                0 <= i <= queue@.len(),
                vec@ == queue@.subrange(0, i as int),
            decreases queue@.len() - i,
        {
            vec.push(queue[i]);
            i = i + 1;
            assert(vec@ =~= queue@.subrange(0, i as int));
        }
        assert(vec@ =~= queue@);
        self.intern_vec(vec)
    }

    /// Interns `vec`, answering a part of a stored sequence that holds it where there is
    /// one, instead of a new allocation.
    pub fn agressive_intern_vec(&mut self, vec: Vec<T>) -> (r: Intern<[T]>)
        ensures
            slice_cache_wf(final(self)@),
            interned_reusing(old(self)@, final(self)@, vec@, r@),
    {
        proof {
            use_type_invariant(&*self);
        }
        if let Some(i) = self.find_slice(vec.as_slice()) {
            return self.entry(i);
        }
        let n = self.cache().0.len();
        let mut k: usize = 0;
        while k < n
            invariant
                0 <= k <= n,
                n == self@.len(),
                self@ == old(self)@,
                slice_cache_wf(self@),
                !holds_value(self@, vec@),
                forall|j: int, at: int| 0 <= j < k ==> !occurs_at(self@[j].0, vec@, at),
            decreases n - k,
        {
            let owner = self.entry(k);
            let found = find_in(owner.value, vec.as_slice());
            if let Some(at) = found {
                proof {
                    let s = self@;
                    assert(owned_by(s, s[k as int]));
                    let a = s[k as int].1 as int;
                    assert(s[a].0.subrange(
                        (s[k as int].2 + at) as int,
                        (s[k as int].2 + at + vec@.len()) as int,
                    ) =~= vec@) by {
                        assert(s[k as int].0 == s[a].0.subrange(
                            s[k as int].2 as int,
                            (s[k as int].2 + s[k as int].3) as int,
                        ));
                        assert(vec@ == s[k as int].0.subrange(at as int, at + vec@.len()));
                    }
                }
                let len = vec.len();
                let (_, rest) = owner.value.split_at(at);
                let (part, _) = rest.split_at(len);
                proof {
                    assert(part@ =~= vec@);
                }
                let r = Intern { value: part, alloc: owner.alloc, start: owner.start + at, len };
                proof {
                    assert(occurs_at(old(self)@[k as int].0, vec@, at as int));
                    assert(first_occurrence(old(self)@, vec@, k as int, at as int));
                }
                proof {
                    let s = old(self)@.push(r@);
                    assert forall|i: int| 0 <= i < s.len() implies owned_by(s, #[trigger] s[i]) by {
                        if i < old(self)@.len() {
                            assert(owned_by(old(self)@, old(self)@[i]));
                        }
                    }
                }
                self.push_entry(r);
                return r;
            }
            k = k + 1;
        }
        self.push_vec(vec)
    }

    /// Same as [`Self::agressive_intern_vec`], for an array.
    pub fn agressive_intern_array<const LEN: usize>(&mut self, array: [T; LEN]) -> (r: Intern<[T]>)
        ensures
            slice_cache_wf(final(self)@),
            interned_reusing(old(self)@, final(self)@, array@, r@),
    {
        proof {
            use_type_invariant(&*self);
        }
        self.agressive_intern_vec(copy_slice(array.as_slice()))
    }
}

/// Whether the two strings hold the same characters.
fn str_equal(a: &str, b: &str) -> (r: bool)
    ensures
        r == (a@ == b@),
{
    let n = a.unicode_len();
    if n != b.unicode_len() {
        return false;
    }
    str_matches_at(a, b, 0)
}

/// Whether `needle` occurs in `hay` at character position `at`.
fn str_matches_at(hay: &str, needle: &str, at: usize) -> (r: bool)
    requires
        at + needle@.len() <= hay@.len(),
    ensures
        r == occurs_at(hay@, needle@, at as int),
        at == 0 && needle@.len() == hay@.len() ==> (r == (hay@ == needle@)),
{
    let n = needle.unicode_len();
    let hay_len = hay.unicode_len();
    let mut i: usize = 0;
    while i < n
        invariant
            0 <= i <= n,
            n == needle@.len(),
            hay_len == hay@.len(),
            at + needle@.len() <= hay@.len(),
            forall|j: int| 0 <= j < i ==> hay@[at + j] == needle@[j],
        decreases n - i,
    {
        if hay.get_char(at + i) != needle.get_char(i) {
            assert(hay@.subrange(at as int, at + needle@.len())[i as int] != needle@[i as int]);
            return false;
        }
        i = i + 1;
    }
    assert(hay@.subrange(at as int, at + needle@.len()) =~= needle@);
    proof {
        if at == 0 && needle@.len() == hay@.len() {
            assert(hay@.subrange(0, hay@.len() as int) =~= hay@);
        }
    }
    true
}

/// The first character position at which `needle` occurs in `hay`.
fn str_find(hay: &str, needle: &str) -> (r: Option<usize>)
    ensures
        match r {
            Some(at) => occurs_at(hay@, needle@, at as int)
                && forall|b: int| 0 <= b < at ==> !occurs_at(hay@, needle@, b),
            None => forall|at: int| !occurs_at(hay@, needle@, at),
        },
{
    let hay_len = hay.unicode_len();
    let needle_len = needle.unicode_len();
    if needle_len > hay_len {
        return None;
    }
    let last = hay_len - needle_len;
    let mut at: usize = 0;
    loop
        invariant
            at <= last,
            last + needle@.len() == hay@.len(),
            forall|k: int| 0 <= k < at ==> !occurs_at(hay@, needle@, k),
        decreases last - at,
    {
        if str_matches_at(hay, needle, at) {
            return Some(at);
        }
        if at == last {
            return None;
        }
        at = at + 1;
    }
}

impl InternerGuard<str> {
    /// The position of the entry holding `value`.
    fn find_str(&self, value: &str) -> (r: Option<usize>)
        ensures
            match r {
                Some(i) => i < self@.len() && self@[i as int].0 == value@,
                None => !holds_value(self@, value@),
            },
    {
        let entries = &self.cache().0;
        let mut i: usize = 0;
        while i < entries.len()
            invariant
                0 <= i <= entries@.len(),
                self@ == entries@.map_values(|e: Intern<str>| e@),
                forall|j: int| 0 <= j < i ==> self@[j].0 != value@,
            decreases entries@.len() - i,
        {
            if str_equal(entries[i].value, value) {
                return Some(i);
            }
            i = i + 1;
        }
        None
    }

    /// Whether a string equal to `value` is interned.
    pub fn is_interned(&self, value: &str) -> (r: bool)
        ensures
            r == holds_value(self@, value@),
    {
        self.find_str(value).is_some()
    }

    /// The reference to the interned string equal to `value`, if there is one.
    pub fn get(&self, value: &str) -> (r: Option<Intern<str>>)
        ensures
            r is Some <==> holds_value(self@, value@),
            r matches Some(x) ==> self@.contains(x@) && x@.0 == value@,
    {
        match self.find_str(value) {
            Some(i) => Some(self.entry(i)),
            None => None,
        }
    }

    /// Takes `stored` over as a new allocation, as a new entry.
    fn push_new(&mut self, stored: &'static str) -> (r: Intern<str>)
        requires
            slice_cache_wf(old(self)@),
            !holds_value(old(self)@, stored@),
        ensures
            slice_cache_wf(final(self)@),
            r.held() == stored,
            r@ == (stored@, old(self)@.len(), 0nat, stored@.len()),
            final(self)@ == old(self)@.push(r@),
    {
        let alloc = self.cache().0.len();
        let len = stored.unicode_len();
        let r = Intern { value: stored, alloc, start: 0, len };
        proof {
            let s = old(self)@.push(r@);
            assert(r@.0.subrange(0, r@.3 as int) =~= r@.0);
            assert forall|i: int| 0 <= i < s.len() implies owned_by(s, #[trigger] s[i]) by {
                if i < old(self)@.len() {
                    assert(owned_by(old(self)@, old(self)@[i]));
                }
            }
        }
        self.push_entry(r);
        r
    }

    /// Interns `string`: answers the entry holding an equal string, or moves `string` into
    /// a new allocation, kept for the rest of the program.
    pub fn intern_string(&mut self, string: String) -> (r: Intern<str>)
        ensures
            slice_cache_wf(final(self)@),
            interned(old(self)@, final(self)@, string@, string@.len(), r@),
    {
        proof {
            use_type_invariant(&*self);
        }
        match self.find_str(string.as_str()) {
            Some(i) => self.entry(i),
            None => {
                let stored: &'static str = leak_string(string);
                self.push_new(stored)
            },
        }
    }

    /// Same as [`Self::intern_string`] for a string that lives for the rest of the program,
    /// which is taken over as a new allocation instead of a copy.
    pub fn intern_static(&mut self, value: &'static str) -> (r: Intern<str>)
        ensures
            slice_cache_wf(final(self)@),
            interned(old(self)@, final(self)@, value@, value@.len(), r@),
            !holds_value(old(self)@, value@) ==> r.held() == value,
    {
        proof {
            use_type_invariant(&*self);
        }
        match self.find_str(value) {
            Some(i) => self.entry(i),
            None => self.push_new(value),
        }
    }

    /// Interns `string`, answering a part of a stored string that holds it where there is
    /// one, instead of a new allocation. Positions count characters.
    pub fn agressive_intern_string(&mut self, string: String) -> (r: Intern<str>)
        ensures
            slice_cache_wf(final(self)@),
            interned_reusing(old(self)@, final(self)@, string@, r@),
    {
        proof {
            use_type_invariant(&*self);
        }
        if let Some(i) = self.find_str(string.as_str()) {
            return self.entry(i);
        }
        let n = self.cache().0.len();
        let mut k: usize = 0;
        while k < n
            invariant
                0 <= k <= n,
                n == self@.len(),
                self@ == old(self)@,
                slice_cache_wf(self@),
                !holds_value(self@, string@),
                forall|j: int, at: int| 0 <= j < k ==> !occurs_at(self@[j].0, string@, at),
            decreases n - k,
        {
            let owner = self.entry(k);
            let found = str_find(owner.value, string.as_str());
            if let Some(at) = found {
                let len = string.as_str().unicode_len();
                proof {
                    let s = self@;
                    assert(owned_by(s, s[k as int]));
                    let a = s[k as int].1 as int;
                    assert(s[a].0.subrange(
                        (s[k as int].2 + at) as int,
                        (s[k as int].2 + at + string@.len()) as int,
                    ) =~= string@) by {
                        assert(s[k as int].0 == s[a].0.subrange(
                            s[k as int].2 as int,
                            (s[k as int].2 + s[k as int].3) as int,
                        ));
                        assert(string@ == s[k as int].0.subrange(at as int, at + string@.len()));
                    }
                }
                let part: &'static str = owner.value.substring_char(at, at + len);
                proof {
                    assert(part@ =~= string@);
                }
                let r = Intern { value: part, alloc: owner.alloc, start: owner.start + at, len };
                proof {
                    assert(occurs_at(old(self)@[k as int].0, string@, at as int));
                    assert(first_occurrence(old(self)@, string@, k as int, at as int));
                }
                proof {
                    let s = old(self)@.push(r@);
                    assert forall|i: int| 0 <= i < s.len() implies owned_by(s, #[trigger] s[i]) by {
                        if i < old(self)@.len() {
                            assert(owned_by(old(self)@, old(self)@[i]));
                        }
                    }
                }
                self.push_entry(r);
                return r;
            }
            k = k + 1;
        }
        let stored: &'static str = leak_string(string);
        self.push_new(stored)
    }
}

/// A guard over a cache of byte sequences, which also serves the byte-encoded
/// forms of strings.
pub struct ByteInternerGuard(pub InternerGuard<[u8]>);

impl View for ByteInternerGuard {
    type V = Seq<(Seq<u8>, nat, nat, nat)>;

    open spec fn view(&self) -> Seq<(Seq<u8>, nat, nat, nat)> {
        self.0@
    }
}

impl ByteInternerGuard {
    /// A guard over an empty cache.
    pub fn new() -> (r: Self)
        ensures
            r@ == Seq::<(Seq<u8>, nat, nat, nat)>::empty(),
    {
        ByteInternerGuard(InternerGuard::new())
    }

    /// Interns the boxed bytes, keeping the box's storage for new bytes.
    pub fn intern_box(&mut self, bytes: Box<[u8]>) -> (r: Intern<[u8]>)
        ensures
            slice_cache_wf(final(self)@),
            interned(old(self)@, final(self)@, bytes@, bytes@.len(), r@),
    {
        self.0.intern_box(bytes)
    }

    /// Interns bytes that live for the rest of the program, taking them over as new bytes
    /// instead of a copy.
    pub fn intern_static(&mut self, bytes: &'static [u8]) -> (r: Intern<[u8]>)
        ensures
            slice_cache_wf(final(self)@),
            interned(old(self)@, final(self)@, bytes@, bytes@.len(), r@),
            !holds_value(old(self)@, bytes@) ==> r.held() == bytes,
    {
        self.0.intern_static(bytes)
    }

    /// Interns the UTF-8 encoding of `string`; the answer is the interned bytes, read as
    /// text, at their address.
    pub fn intern_string(&mut self, string: String) -> (r: Intern<str>)
        ensures
            slice_cache_wf(final(self)@),
            r@.0 == string@,
            exists|b: (Seq<u8>, nat, nat, nat)|
                interned(old(self)@, final(self)@, encode_utf8(string@), encode_utf8(string@).len(), b)
                    && address_of(b) == address_of(r@),
    {
        let encoded = copy_slice(string.as_str().as_bytes());
        assert(encoded@ == encode_utf8(string@));
        let bytes = self.0.intern_vec(encoded);
        proof {
            vstd::utf8::encode_utf8_valid_utf8(string@);
        }
        let text: &'static str = match check_utf8(bytes.value) {
            Ok(text) => text,
            Err(_) => "",
        };
        proof {
            vstd::utf8::encode_utf8_decode_utf8(text@);
            vstd::utf8::encode_utf8_decode_utf8(string@);
        }
        let r = Intern { value: text, alloc: bytes.alloc, start: bytes.start, len: bytes.len };
        assert(interned(old(self)@, self@, encode_utf8(string@), encode_utf8(string@).len(), bytes@));
        assert(address_of(bytes@) == address_of(r@));
        r
    }
}

/// Law: interning a value that is already interned changes nothing and answers
/// the reference answered before: equal values share one address.
pub proof fn lemma_intern_idempotent<V>(
    old: Seq<(V, nat, nat, nat)>,
    mid: Seq<(V, nat, nat, nat)>,
    new: Seq<(V, nat, nat, nat)>,
    v: V,
    len: nat,
    first: (V, nat, nat, nat),
    second: (V, nat, nat, nat),
)
    requires
        interned(old, mid, v, len, first),
        values_distinct(mid),
        interned(mid, new, v, len, second),
    ensures
        second == first,
        new == mid,
{
    lemma_interned_holds(old, mid, v, len, first);
    lemma_entry_unique(mid, first, second);
}

/// Law: after interning, the value is interned and its reference is in the cache;
/// nothing interned before is lost.
pub proof fn lemma_interned_holds<V>(
    old: Seq<(V, nat, nat, nat)>,
    new: Seq<(V, nat, nat, nat)>,
    v: V,
    len: nat,
    r: (V, nat, nat, nat),
)
    requires
        interned(old, new, v, len, r),
    ensures
        holds_value(new, v),
        new.contains(r),
        old.len() <= new.len(),
        forall|i: int| 0 <= i < old.len() ==> new[i] == old[i],
{
    if !holds_value(old, v) {
        assert(new[old.len() as int] == r);
    } else {
        let i = choose|i: int| 0 <= i < old.len() && old[i] == r;
        assert(new[i].0 == v);
    }
}

/// Law: interning with reuse also leaves the value interned, and loses nothing.
pub proof fn lemma_interned_reusing_holds<E>(
    old: Seq<(Seq<E>, nat, nat, nat)>,
    new: Seq<(Seq<E>, nat, nat, nat)>,
    v: Seq<E>,
    r: (Seq<E>, nat, nat, nat),
)
    requires
        interned_reusing(old, new, v, r),
    ensures
        holds_value(new, v),
        new.contains(r),
        old.len() <= new.len(),
        forall|i: int| 0 <= i < old.len() ==> new[i] == old[i],
{
    if !holds_value(old, v) {
        assert(new[old.len() as int] == r);
    } else {
        let i = choose|i: int| 0 <= i < old.len() && old[i] == r;
        assert(new[i].0 == v);
    }
}

} // verus!
