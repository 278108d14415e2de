//! A small Redis server's core: the RESP wire format (values, their encoding
//! and their grammar), a key-value store with expiry, and the command
//! handler.
pub mod decimal;
pub mod text;
pub mod resp_value;
pub mod resp_parser;
pub mod resp_handler;
pub mod roundtrip;
pub mod streaming;
pub mod command_laws;

use vstd::prelude::*;
use std::time::Instant;

use crate::resp_value::{Value, ValueModel};

verus! {

/// Raw bytes: keys, bulk strings and wire data.
pub type Bytes = Vec<u8>;

/// `std::time::Instant`, carried through as an opaque value.
#[verifier::external_type_specification]
#[verifier::external_body]
pub struct ExInstant(Instant);

/// A stored value and the time, in nanoseconds on the store's clock, from
/// which it counts as expired.
#[derive(Debug, PartialEq)]
pub struct StorageEntry {
    value: Value,
    expires_at: Option<u128>,
}

/// The content of a [`StorageEntry`].
pub struct EntryModel {
    pub value: ValueModel,
    pub expires_at: Option<u128>,
}

impl View for StorageEntry {
    type V = EntryModel;

    closed spec fn view(&self) -> EntryModel {
        EntryModel { value: self.value@, expires_at: self.expires_at }
    }
}

impl StorageEntry {
    /// An entry holding `value`, expiring at `expires_at` if given.
    pub fn new(value: Value, expires_at: Option<u128>) -> (r: Self)
        ensures
            r@ == (EntryModel { value: value@, expires_at: expires_at }),
    {
        Self { value, expires_at }
    }

    /// The stored value.
    pub fn value(&self) -> (r: &Value)
        ensures
            r@ == self@.value,
    {
        &self.value
    }

    /// When the value expires, if ever.
    pub fn expires_at(&self) -> (r: Option<u128>)
        ensures
            r == self@.expires_at,
    {
        self.expires_at
    }
}

impl Clone for StorageEntry {
    fn clone(&self) -> (r: Self)
        ensures
            r@ == self@,
    {
        Self { value: self.value.clone(), expires_at: self.expires_at }
    }
}

impl From<Value> for StorageEntry {
    fn from(value: Value) -> (r: Self) {
        Self { value, expires_at: None }
    }
}

impl vstd::std_specs::convert::FromSpecImpl<Value> for StorageEntry {
    open spec fn obeys_from_spec() -> bool {
        true
    }

    closed spec fn from_spec(value: Value) -> Self {
        Self { value, expires_at: None }
    }
}

impl StorageEntry {
    /// An entry made from a value keeps the value and never expires.
    pub proof fn lemma_from_spec(value: Value)
        ensures
            <StorageEntry as vstd::std_specs::convert::FromSpec<Value>>::from_spec(value)@
                == (EntryModel { value: value@, expires_at: None }),
    {
    }
}

/// Calls `Instant::now`, which reads the monotonic clock; nothing is stated
/// of the result.
#[verifier::external_body]
fn instant_now() -> Instant {
    Instant::now()
}

/// Calls `Instant::elapsed`: the time passed since `origin` on the monotonic
/// clock. Nothing is stated of the value: it depends on the time of the call.
#[verifier::external_body]
fn elapsed_since(origin: &Instant) -> std::time::Duration {
    origin.elapsed()
}

/// Calls `Duration::as_nanos`: the whole nanoseconds of the duration. Nothing
/// is stated: `Duration` is opaque here.
#[verifier::external_body]
fn duration_nanos(d: &std::time::Duration) -> u128 {
    d.as_nanos()
}

/// The entries of the store, each key at most once, and the map they make.
struct Table {
    entries: Vec<(Bytes, StorageEntry)>,
    contents: Ghost<Map<Seq<u8>, EntryModel>>,
}

impl Table {
    fn empty() -> (t: Self)
        ensures
            t.wf(),
            t.contents@ == Map::<Seq<u8>, EntryModel>::empty(),
    {
        Table { entries: Vec::new(), contents: Ghost(Map::empty()) }
    }

    /// The entries list each key of the contents once, with its entry.
    spec fn wf(&self) -> bool {
        &&& forall|i: int, j: int|
            0 <= i < j < self.entries@.len() ==> #[trigger] self.entries@[i].0@
                != #[trigger] self.entries@[j].0@
        &&& forall|i: int|
            0 <= i < self.entries@.len() ==> self.contents@.contains_key(
                #[trigger] self.entries@[i].0@,
            ) && self.contents@[self.entries@[i].0@] == self.entries@[i].1@
        &&& forall|k: Seq<u8>|
            #[trigger] self.contents@.contains_key(k) ==> exists|i: int|
                0 <= i < self.entries@.len() && #[trigger] self.entries@[i].0@ == k
    }

    fn find(&self, key: &[u8]) -> (r: Option<usize>)
        requires
            self.wf(),
        ensures
            match r {
                Some(i) => i < self.entries@.len() && self.entries@[i as int].0@ == key@
                    && self.contents@.contains_key(key@),
                None => !self.contents@.contains_key(key@),
            },
    {
        let mut i: usize = 0;
        while i < self.entries.len()
            invariant
                self.wf(),
                i <= self.entries@.len(),
                forall|j: int| 0 <= j < i ==> #[trigger] self.entries@[j].0@ != key@,
            decreases self.entries@.len() - i,
        {
            if bytes_equal(self.entries[i].0.as_slice(), key) {
                return Some(i);
            }
            i = i + 1;
        }
        None
    }

    /// The entry stored under `key`, if any.
    fn get(&self, key: &[u8]) -> (r: Option<&StorageEntry>)
        requires
            self.wf(),
        ensures
            match r {
                Some(e) => self.contents@.contains_key(key@) && e@ == self.contents@[key@],
                None => !self.contents@.contains_key(key@),
            },
    {
        match self.find(key) {
            Some(i) => Some(&self.entries[i].1),
            None => None,
        }
    }

    /// Stores `entry` under `key`, replacing what was there.
    fn insert(&mut self, key: Bytes, entry: StorageEntry)
        requires
            old(self).wf(),
        ensures
            final(self).wf(),
            final(self).contents@ == old(self).contents@.insert(key@, entry@),
    {
        let ghost k = key@;
        let ghost e = entry@;
        match self.find(key.as_slice()) {
            Some(i) => {
                self.entries.set(i, (key, entry));
                self.contents = Ghost(self.contents@.insert(k, e));
                assert forall|k2: Seq<u8>| #[trigger] self.contents@.contains_key(k2) implies exists|j: int|
                    0 <= j < self.entries@.len() && #[trigger] self.entries@[j].0@ == k2 by {
                    if k2 == k {
                        assert(self.entries@[i as int].0@ == k2);
                    } else {
                        let j = choose|j: int| 0 <= j < old(self).entries@.len() && #[trigger] old(self).entries@[j].0@ == k2;
                        assert(self.entries@[j].0@ == k2);
                    }
                }
            },
            None => {
                self.entries.push((key, entry));
                self.contents = Ghost(self.contents@.insert(k, e));
                assert forall|k2: Seq<u8>| #[trigger] self.contents@.contains_key(k2) implies exists|j: int|
                    0 <= j < self.entries@.len() && #[trigger] self.entries@[j].0@ == k2 by {
                    if k2 == k {
                        assert(self.entries@[self.entries@.len() - 1].0@ == k2);
                    } else {
                        let j = choose|j: int| 0 <= j < old(self).entries@.len() && #[trigger] old(self).entries@[j].0@ == k2;
                        assert(self.entries@[j].0@ == k2);
                    }
                }
            },
        }
    }

    /// Removes the entry stored under `key`, if any.
    fn remove(&mut self, key: &[u8])
        requires
            old(self).wf(),
        ensures
            final(self).wf(),
            final(self).contents@ == old(self).contents@.remove(key@),
    {
        match self.find(key) {
            Some(i) => {
                let _ = self.entries.swap_remove(i);
                self.contents = Ghost(self.contents@.remove(key@));
                assert forall|k2: Seq<u8>| #[trigger] self.contents@.contains_key(k2) implies exists|j: int|
                    0 <= j < self.entries@.len() && #[trigger] self.entries@[j].0@ == k2 by {
                    let j = choose|j: int| 0 <= j < old(self).entries@.len() && #[trigger] old(self).entries@[j].0@ == k2;
                    if j == old(self).entries@.len() - 1 {
                        assert(self.entries@[i as int].0@ == k2);
                    } else {
                        assert(self.entries@[j].0@ == k2);
                    }
                }
            },
            None => {
                assert(self.contents@.remove(key@) =~= self.contents@);
            },
        }
    }

    /// Appends `vals` to the list stored under `key` and gives the list's new
    /// length.
    fn append_to_list(&mut self, key: &[u8], vals: Vec<Value>) -> (r: usize)
        requires
            old(self).wf(),
            old(self).contents@.contains_key(key@),
            old(self).contents@[key@].value is Arr,
            old(self).contents@[key@].value->Arr_0 is Some,
        ensures
            final(self).wf(),
            ({
                let items = old(self).contents@[key@].value->Arr_0->Some_0;
                &&& r == items.len() + vals@.len()
                &&& final(self).contents@ == old(self).contents@.insert(
                    key@,
                    EntryModel {
                        value: ValueModel::Arr(Some(items + crate::resp_value::values_model(vals@))),
                        expires_at: old(self).contents@[key@].expires_at,
                    },
                )
            }),
    {
        let i = self.find(key).unwrap();
        let (k, entry) = self.entries.remove(i);
        let mut vals = vals;
        let StorageEntry { value, expires_at } = entry;
        match value {
            Value::Arr(Some(mut items)) => {
                proof {
                    crate::resp_value::lemma_values_model_concat(items@, vals@);
                    crate::resp_value::lemma_values_model(items@);
                    assert(old(self).contents@[key@] == old(self).entries@[i as int].1@);
                    assert(old(self).contents@[key@].value->Arr_0->Some_0 == crate::resp_value::values_model(items@));
                }
                items.append(&mut vals);
                let n = items.len();
                let e = StorageEntry { value: Value::Arr(Some(items)), expires_at };
                self.entries.insert(i, (k, e));
                let ghost em = e@;
                self.contents = Ghost(self.contents@.insert(key@, em));
                assert forall|k2: Seq<u8>| #[trigger] self.contents@.contains_key(k2) implies exists|j: int|
                    0 <= j < self.entries@.len() && #[trigger] self.entries@[j].0@ == k2 by {
                    let j = choose|j: int| 0 <= j < old(self).entries@.len() && #[trigger] old(self).entries@[j].0@ == k2;
                    assert(self.entries@[j].0@ == k2);
                }
                n
            },
            _ => {
                // the value is a list, as required
                proof {
                    assert(false);
                }
                0
            },
        }
    }

    /// The entries, each key once.
    fn entries(&self) -> (r: &[(Bytes, StorageEntry)])
        requires
            self.wf(),
        ensures
            forall|i: int, j: int| 0 <= i < j < r@.len() ==> #[trigger] r@[i].0@ != #[trigger] r@[j].0@,
            forall|i: int|
                0 <= i < r@.len() ==> self.contents@.contains_key(#[trigger] r@[i].0@) && self.contents@[r@[i].0@]
                    == r@[i].1@,
            forall|k: Seq<u8>|
                #[trigger] self.contents@.contains_key(k) ==> exists|i: int|
                    0 <= i < r@.len() && #[trigger] r@[i].0@ == k,
    {
        self.entries.as_slice()
    }
}


/// The key-value store: each key at most once, with its entry, and the clock
/// that expiry times are read on.
pub struct Storage {
    table: Table,
    origin: Instant,
}

impl View for Storage {
    type V = Map<Seq<u8>, EntryModel>;

    closed spec fn view(&self) -> Map<Seq<u8>, EntryModel> {
        self.table.contents@
    }
}

impl Default for Storage {
    fn default() -> (r: Self)
        ensures
            r@ == Map::<Seq<u8>, EntryModel>::empty(),
    {
        Storage { table: Table::empty(), origin: instant_now() }
    }
}

impl Storage {
    /// The entries list each key of the store once, with its entry.
    #[verifier::type_invariant]
    spec fn inv(self) -> bool {
        self.table.wf()
    }

    /// Nanoseconds elapsed on the store's clock.
    pub(crate) fn now(&self) -> u128 {
        let elapsed = elapsed_since(&self.origin);
        duration_nanos(&elapsed)
    }

    /// The entry stored under `key`, if any.
    pub fn get(&self, key: &[u8]) -> (r: Option<&StorageEntry>)
        ensures
            match r {
                Some(e) => self@.contains_key(key@) && e@ == self@[key@],
                None => !self@.contains_key(key@),
            },
    {
        proof {
            use_type_invariant(self);
        }
        self.table.get(key)
    }

    /// Takes the table out, leaving an empty one in its place.
    fn take_table(&mut self) -> (t: Table)
        ensures
            t.wf(),
            t.contents@ == old(self)@,
            final(self)@ == Map::<Seq<u8>, EntryModel>::empty(),
            final(self).origin == old(self).origin,
    {
        proof {
            use_type_invariant(&*self);
        }
        let mut t = Table::empty();
        std::mem::swap(&mut t, &mut self.table);
        t
    }

    /// Stores `entry` under `key`, replacing what was there.
    pub fn insert(&mut self, key: Bytes, entry: StorageEntry)
        ensures
            final(self)@ == old(self)@.insert(key@, entry@),
    {
        let mut t = self.take_table();
        t.insert(key, entry);
        self.table = t;
    }

    /// Removes the entry stored under `key`, if any.
    pub fn remove(&mut self, key: &[u8])
        ensures
            final(self)@ == old(self)@.remove(key@),
    {
        let mut t = self.take_table();
        t.remove(key);
        self.table = t;
    }

    /// Appends `vals` to the list stored under `key` and gives the list's new
    /// length.
    pub fn append_to_list(&mut self, key: &[u8], vals: Vec<Value>) -> (r: usize)
        requires
            old(self)@.contains_key(key@),
            old(self)@[key@].value is Arr,
            old(self)@[key@].value->Arr_0 is Some,
        ensures
            ({
                let items = old(self)@[key@].value->Arr_0->Some_0;
                &&& r == items.len() + vals@.len()
                &&& final(self)@ == old(self)@.insert(
                    key@,
                    EntryModel {
                        value: ValueModel::Arr(Some(items + crate::resp_value::values_model(vals@))),
                        expires_at: old(self)@[key@].expires_at,
                    },
                )
            }),
    {
        let mut t = self.take_table();
        let n = t.append_to_list(key, vals);
        self.table = t;
        n
    }

    /// The entries, each key once.
    pub fn entries(&self) -> (r: &[(Bytes, StorageEntry)])
        ensures
            forall|i: int, j: int| 0 <= i < j < r@.len() ==> #[trigger] r@[i].0@ != #[trigger] r@[j].0@,
            forall|i: int|
                0 <= i < r@.len() ==> self@.contains_key(#[trigger] r@[i].0@) && self@[r@[i].0@]
                    == r@[i].1@,
            forall|k: Seq<u8>|
                #[trigger] self@.contains_key(k) ==> exists|i: int|
                    0 <= i < r@.len() && #[trigger] r@[i].0@ == k,
    {
        proof {
            use_type_invariant(self);
        }
        self.table.entries()
    }
}

/// Whether two byte strings are equal.
pub fn bytes_equal(a: &[u8], b: &[u8]) -> (r: bool)
    ensures
        r == (a@ == b@),
{
    if a.len() != b.len() {
        return false;
    }
    let mut i: usize = 0;
    while i < a.len()
        invariant
            a@.len() == b@.len(),
            i <= a@.len(),
            forall|j: int| 0 <= j < i ==> a@[j] == b@[j],
        decreases a@.len() - i,
    {
        if a[i] != b[i] {
            return false;
        }
        i = i + 1;
    }
    assert(a@ =~= b@);
    true
}

} // verus!
