//! A key enum and the entry types of its variants.

use super::VariantMapKey;
use vstd::prelude::*;

verus! {

/// Configuration entry.
#[derive(Debug)]
pub struct Config {
    password: Vec<u8>,
}

/// Group entry.
#[derive(Debug)]
pub struct GroupRecord {
    group_name: String,
}

/// User entry.
#[derive(Debug)]
pub struct UserRecord {
    user_name: String,
    display_name: String,
    password_hash: [u8; 32],
    /// In seconds since the UNIX epoch.
    creation_date: u64,
    /// In seconds since the UNIX epoch.
    last_active: u64,
}

/// Keys: `Title` and `Motd` hold a `String`, `DebugMode` holds `()`, `User` a
/// [`UserRecord`], `Group` a [`GroupRecord`] and `Config` a [`Config`].
#[derive(Debug)]
pub enum Foo {
    Title,
    Motd,
    DebugMode,
    User(u64),
    Group(String),
    Config,
}

/// An owned entry of a [`Foo`] key.
pub enum FooEntry {
    String(String),
    Unit(()),
    UserRecord(UserRecord),
    GroupRecord(GroupRecord),
    Config(Config),
}

/// A mutable borrow of an entry of a [`Foo`] key.
pub enum FooEntryMut<'a> {
    String(&'a mut String),
    Unit(&'a mut ()),
    UserRecord(&'a mut UserRecord),
    GroupRecord(&'a mut GroupRecord),
    Config(&'a mut Config),
}

/// A shared borrow of an entry of a [`Foo`] key.
pub enum FooEntryRef<'a> {
    String(&'a String),
    Unit(&'a ()),
    UserRecord(&'a UserRecord),
    GroupRecord(&'a GroupRecord),
    Config(&'a Config),
}

impl<'map> FooEntryMut<'map> {
    /// A shared borrow of the same entry.
    pub fn to_ref(&'map self) -> (r: FooEntryRef<'map>)
        ensures
            match (*self, r) {
                (FooEntryMut::String(a), FooEntryRef::String(b)) => *a == *b,
                (FooEntryMut::Unit(a), FooEntryRef::Unit(b)) => *a == *b,
                (FooEntryMut::UserRecord(a), FooEntryRef::UserRecord(b)) => *a == *b,
                (FooEntryMut::GroupRecord(a), FooEntryRef::GroupRecord(b)) => *a == *b,
                (FooEntryMut::Config(a), FooEntryRef::Config(b)) => *a == *b,
                _ => false,
            },
    {
        match self {
            FooEntryMut::String(a) => FooEntryRef::String(&*a),
            FooEntryMut::Unit(a) => FooEntryRef::Unit(&*a),
            FooEntryMut::UserRecord(a) => FooEntryRef::UserRecord(&*a),
            FooEntryMut::GroupRecord(a) => FooEntryRef::GroupRecord(&*a),
            FooEntryMut::Config(a) => FooEntryRef::Config(&*a),
        }
    }
}

impl VariantMapKey for Foo {
    type Entry = FooEntry;
    type EntryMut<'a> = FooEntryMut<'a>;
    type EntryRef<'a> = FooEntryRef<'a>;
    type Union = FooEntry;
}

} // verus!
