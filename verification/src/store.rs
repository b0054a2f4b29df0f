//! Store semantics for issuance records.
//!
//! A record associates a token (the key) with the text encoding of its
//! issuance timestamp (the value).  [`MemStore`] is an in-memory
//! key-value store with exactly the observable behaviour the admission
//! logic expects of its backend: writes overwrite, lookups distinguish an
//! absent key from a present one, and a present value that does not
//! decode as a timestamp is a data-integrity error, never silently
//! treated as absent.

use vstd::prelude::*;

use crate::timestamp::{decode, decode_ts, encode, encode_ts, Timestamp};

verus! {

/// A store failure: the value found under a key is not the encoding of
/// a valid timestamp.
#[derive(Clone, Copy, PartialEq, Eq, Structural, Debug)]
pub enum StoreError {
    Backend,
}

/// The map written by a sequence of key-value entries, later entries
/// overwriting earlier ones.
pub open spec fn map_of(entries: Seq<(String, Vec<u8>)>) -> Map<Seq<char>, Seq<u8>>
    decreases entries.len(),
{
    if entries.len() == 0 {
        Map::empty()
    } else {
        map_of(entries.drop_last()).insert(entries.last().0@, entries.last().1@)
    }
}

/// An in-memory key-value store of issuance records.
pub struct MemStore {
    entries: Vec<(String, Vec<u8>)>,
}

impl View for MemStore {
    type V = Map<Seq<char>, Seq<u8>>;

    closed spec fn view(&self) -> Map<Seq<char>, Seq<u8>> {
        map_of(self.entries@)
    }
}

impl MemStore {
    /// Each key appears at most once among the entries.
    pub closed spec fn wf(self) -> bool {
        forall|i: int, j: int|
            0 <= i < j < self.entries@.len() ==> self.entries@[i].0@ != self.entries@[j].0@
    }

    /// An empty store.
    pub fn new() -> (r: MemStore)
        ensures
            r.wf(),
            r@ == Map::<Seq<char>, Seq<u8>>::empty(),
    {
        MemStore { entries: Vec::new() }
    }

    /// Stores raw bytes under a key, overwriting any previous value.
    pub fn put_raw(&mut self, key: String, value: Vec<u8>)
        requires
            old(self).wf(),
        ensures
            final(self).wf(),
            final(self)@ == old(self)@.insert(key@, value@),
    {
        let n = self.entries.len();
        let ghost entries0 = self.entries@;
        let mut i: usize = 0;
        while i < n
            invariant
                n == self.entries@.len(),
                i <= n,
                self.entries@ == entries0,
                old(self).wf(),
                self.entries@ == old(self).entries@,
                forall|k: int| 0 <= k < i ==> self.entries@[k].0@ != key@,
            decreases n - i,
        {
            if string_eq(&self.entries[i].0, &key) {
                let ghost pre = self.entries@;
                self.entries[i].1 = value;
                proof {
                    assert(self.entries@ =~= pre.update(i as int, (pre[i as int].0, value)));
                    lemma_map_of_update(pre, i as int, value);
                    assert(pre[i as int].0@ == key@);
                    lemma_map_of_unique_key(pre, i as int);
                    assert(self.wf());
                }
                return ;
            }
            i += 1;
        }
        let ghost pre = self.entries@;
        self.entries.push((key, value));
        proof {
            assert(self.entries@.drop_last() =~= pre);
            assert(self.wf());
        }
    }

    /// Looks a key up, returning a copy of the stored bytes.
    pub fn get_raw(&self, key: &String) -> (r: Option<Vec<u8>>)
        requires
            self.wf(),
        ensures
            match r {
                Some(v) => self@.contains_key(key@) && self@[key@] == v@,
                None => !self@.contains_key(key@),
            },
    {
        let n = self.entries.len();
        let mut i: usize = 0;
        while i < n
            invariant
                self.wf(),
                n == self.entries@.len(),
                i <= n,
                forall|k: int| 0 <= k < i ==> self.entries@[k].0@ != key@,
            decreases n - i,
        {
            if string_eq(&self.entries[i].0, key) {
                let v = clone_bytes(&self.entries[i].1);
                proof {
                    lemma_map_of_unique_key(self.entries@, i as int);
                }
                return Some(v);
            }
            i += 1;
        }
        proof {
            lemma_map_of_absent_key(self.entries@, key@);
        }
        None
    }

    /// Stores the issuance record for a token: the text encoding of the
    /// issuance timestamp, overwriting any previous record.
    pub fn put(&mut self, token: String, issued_at: Timestamp)
        requires
            old(self).wf(),
            issued_at.valid(),
        ensures
            final(self).wf(),
            final(self)@ == old(self)@.insert(token@, encode_ts(issued_at)),
    {
        let value = encode(issued_at);
        self.put_raw(token, value);
    }

    /// Looks a token's issuance record up.  An absent key is the normal
    /// `Ok(None)` outcome; a present value that is not the encoding of a
    /// valid timestamp is the data-integrity error `Err(Backend)`.
    pub fn get(&self, token: &String) -> (r: Result<Option<Timestamp>, StoreError>)
        requires
            self.wf(),
        ensures
            match r {
                Ok(Some(t)) => self@.contains_key(token@) && decode_ts(self@[token@]) == Some(t),
                Ok(None) => !self@.contains_key(token@),
                Err(e) => self@.contains_key(token@) && decode_ts(self@[token@]) is None && e
                    == StoreError::Backend,
            },
    {
        match self.get_raw(token) {
            None => Ok(None),
            Some(v) => match decode(v.as_slice()) {
                Some(t) => Ok(Some(t)),
                None => Err(StoreError::Backend),
            },
        }
    }
}

/// Writing the same record twice leaves the store's contents exactly as
/// writing it once does: `put` is idempotent.
pub proof fn lemma_put_idempotent(m: Map<Seq<char>, Seq<u8>>, key: Seq<char>, value: Seq<u8>)
    ensures
        m.insert(key, value).insert(key, value) == m.insert(key, value),
{
    assert(m.insert(key, value).insert(key, value) =~= m.insert(key, value));
}

/// Compares two strings.
fn string_eq(a: &String, b: &String) -> (r: bool)
    ensures
        r == (a@ == b@),
{
    *a == *b
}

/// Copies a byte vector.
fn clone_bytes(v: &Vec<u8>) -> (r: Vec<u8>)
    ensures
        r@ == v@,
{
    let mut r: Vec<u8> = Vec::new();
    let mut i: usize = 0;
    while i < v.len()
        invariant
            i <= v@.len(),
            r@ == v@.subrange(0, i as int),
        decreases v@.len() - i,
    {
        r.push(v[i]);
        proof {
            assert(r@ =~= v@.subrange(0, i + 1 as int));
        }
        i += 1;
    }
    proof {
        assert(r@ =~= v@);
    }
    r
}

/// In a store whose keys are unique, the map holds exactly the entry's
/// value under the entry's key.
proof fn lemma_map_of_unique_key(entries: Seq<(String, Vec<u8>)>, i: int)
    requires
        0 <= i < entries.len(),
        forall|p: int, q: int| 0 <= p < q < entries.len() ==> entries[p].0@ != entries[q].0@,
    ensures
        map_of(entries).contains_key(entries[i].0@),
        map_of(entries)[entries[i].0@] == entries[i].1@,
    decreases entries.len(),
{
    if i == entries.len() - 1 {
    } else {
        lemma_map_of_unique_key(entries.drop_last(), i);
        assert(entries.drop_last()[i] == entries[i]);
        assert(entries.last().0@ != entries[i].0@);
    }
}

/// A key under no entry is not in the map.
proof fn lemma_map_of_absent_key(entries: Seq<(String, Vec<u8>)>, key: Seq<char>)
    requires
        forall|k: int| 0 <= k < entries.len() ==> entries[k].0@ != key,
    ensures
        !map_of(entries).contains_key(key),
    decreases entries.len(),
{
    if entries.len() > 0 {
        lemma_map_of_absent_key(entries.drop_last(), key);
    }
}

/// Replacing the value of entry `i` turns the map's value under that
/// entry's key into the new value, when keys are unique.
proof fn lemma_map_of_update(entries: Seq<(String, Vec<u8>)>, i: int, value: Vec<u8>)
    requires
        0 <= i < entries.len(),
        forall|p: int, q: int| 0 <= p < q < entries.len() ==> entries[p].0@ != entries[q].0@,
    ensures
        map_of(entries.update(i, (entries[i].0, value))) == map_of(entries).insert(
            entries[i].0@,
            value@,
        ),
    decreases entries.len(),
{
    let updated = entries.update(i, (entries[i].0, value));
    if i == entries.len() - 1 {
        assert(updated.drop_last() =~= entries.drop_last());
        assert(map_of(updated) =~= map_of(entries).insert(entries[i].0@, value@));
    } else {
        lemma_map_of_update(entries.drop_last(), i, value);
        assert(updated.drop_last() =~= entries.drop_last().update(i, (entries[i].0, value)));
        assert(entries.drop_last()[i] == entries[i]);
        assert(updated.last() == entries.last());
        assert(entries.last().0@ != entries[i].0@);
        assert(map_of(updated) =~= map_of(entries).insert(entries[i].0@, value@));
    }
}

} // verus!
