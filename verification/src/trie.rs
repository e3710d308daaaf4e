//! The account set as one write transaction sees it: a finite map from
//! trie keys to accounts.

use vstd::prelude::*;
use nimiq_primitives::key_nibbles::KeyNibbles;
use crate::account::AccountInteraction;
use crate::keys::{key_clone, key_eq, key_nibbles};

verus! {

/// A finite map from keys to accounts. Its view maps the nibbles of each
/// stored key to the account stored under it.
pub struct AccountsTrie<A> {
    entries: Vec<(KeyNibbles, A)>,
}

/// No key occurs twice among the entries.
pub open spec fn distinct_keys<A>(entries: Seq<(KeyNibbles, A)>) -> bool {
    forall|i: int, j: int|
        0 <= i < j < entries.len() ==> key_nibbles(#[trigger] entries[i].0) != key_nibbles(
            #[trigger] entries[j].0,
        )
}

/// Whether `key` is among the entries.
pub open spec fn stores<A>(entries: Seq<(KeyNibbles, A)>, key: Seq<u8>) -> bool {
    exists|i: int| 0 <= i < entries.len() && key_nibbles(entries[i].0) == key
}

/// The position of `key` among the entries, if it is stored.
pub open spec fn position<A>(entries: Seq<(KeyNibbles, A)>, key: Seq<u8>) -> int {
    choose|i: int| 0 <= i < entries.len() && key_nibbles(entries[i].0) == key
}

/// The map that the entries stand for.
pub open spec fn entries_map<A>(entries: Seq<(KeyNibbles, A)>) -> Map<Seq<u8>, A> {
    Map::new(|key: Seq<u8>| stores(entries, key), |key: Seq<u8>| entries[position(entries, key)].1)
}

/// Removing the entry at `at` removes its key from the map and leaves the
/// other keys as they were.
proof fn lemma_remove_entry<A>(before: Seq<(KeyNibbles, A)>, at: int)
    requires
        distinct_keys(before),
        0 <= at < before.len(),
    ensures
        distinct_keys(before.remove(at)),
        entries_map(before.remove(at)) == entries_map(before).remove(key_nibbles(before[at].0)),
        entries_map(before).contains_key(key_nibbles(before[at].0)),
        entries_map(before)[key_nibbles(before[at].0)] == before[at].1,
{
    let after = before.remove(at);
    let k = key_nibbles(before[at].0);
    assert(stores(before, k));
    assert(position(before, k) == at);
    assert forall|q: Seq<u8>| #[trigger] stores(after, q) <==> (q != k && stores(before, q)) by {
        if stores(after, q) {
            let i = choose|i: int| 0 <= i < after.len() && key_nibbles(after[i].0) == q;
            if i >= at {
                assert(key_nibbles(before[i + 1].0) == q);
            } else {
                assert(key_nibbles(before[i].0) == q);
            }
        }
        if q != k && stores(before, q) {
            let i = choose|i: int| 0 <= i < before.len() && key_nibbles(before[i].0) == q;
            if i > at {
                assert(key_nibbles(after[i - 1].0) == q);
            } else {
                assert(key_nibbles(after[i].0) == q);
            }
        }
    }
    assert forall|q: Seq<u8>| q != k && stores(before, q) implies after[position(after, q)].1
        == before[position(before, q)].1 by {
        let i = position(before, q);
        let j = position(after, q);
        assert(stores(after, q));
        if i > at {
            assert(key_nibbles(after[i - 1].0) == q);
            assert(j == i - 1);
        } else {
            assert(key_nibbles(after[i].0) == q);
            assert(j == i);
        }
    }
    assert(entries_map(after) =~= entries_map(before).remove(k));
}

/// Appending an entry under a key that is not stored inserts it into the
/// map.
proof fn lemma_push_entry<A>(before: Seq<(KeyNibbles, A)>, entry: (KeyNibbles, A))
    requires
        distinct_keys(before),
        !stores(before, key_nibbles(entry.0)),
    ensures
        distinct_keys(before.push(entry)),
        entries_map(before.push(entry)) == entries_map(before).insert(
            key_nibbles(entry.0),
            entry.1,
        ),
{
    let after = before.push(entry);
    let k = key_nibbles(entry.0);
    assert forall|j: int| 0 <= j < before.len() implies key_nibbles(before[j].0) != k by {
        if key_nibbles(before[j].0) == k {
            assert(stores(before, k));
        }
    }
    assert(key_nibbles(after[before.len() as int].0) == k);
    assert(stores(after, k));
    assert(position(after, k) == before.len());
    assert forall|q: Seq<u8>| #[trigger] stores(after, q) <==> (q == k || stores(before, q)) by {
        if stores(after, q) {
            let i = choose|i: int| 0 <= i < after.len() && key_nibbles(after[i].0) == q;
            if i < before.len() {
                assert(key_nibbles(before[i].0) == q);
            }
        }
        if stores(before, q) {
            let i = choose|i: int| 0 <= i < before.len() && key_nibbles(before[i].0) == q;
            assert(key_nibbles(after[i].0) == q);
        }
    }
    assert forall|q: Seq<u8>| q != k && stores(before, q) implies after[position(after, q)].1
        == before[position(before, q)].1 by {
        let i = position(before, q);
        assert(key_nibbles(after[i].0) == q);
        assert(stores(after, q));
        assert(position(after, q) == i);
    }
    assert(entries_map(after) =~= entries_map(before).insert(k, entry.1));
}

impl<A> AccountsTrie<A> {
    #[verifier::type_invariant]
    closed spec fn well_formed(&self) -> bool {
        distinct_keys(self.entries@)
    }
}

impl<A> View for AccountsTrie<A> {
    type V = Map<Seq<u8>, A>;

    closed spec fn view(&self) -> Map<Seq<u8>, A> {
        entries_map(self.entries@)
    }
}

/// The index of the entry stored under `key`, or the number of entries if
/// there is none.
fn find<A>(entries: &Vec<(KeyNibbles, A)>, key: &KeyNibbles) -> (at: usize)
    ensures
        at <= entries@.len(),
        at < entries@.len() ==> key_nibbles(entries@[at as int].0) == key_nibbles(*key),
        at == entries@.len() ==> !stores(entries@, key_nibbles(*key)),
{
    let mut i: usize = 0;
    while i < entries.len()
        invariant
            i <= entries@.len(),
            forall|j: int| 0 <= j < i ==> key_nibbles(entries@[j].0) != key_nibbles(*key),
        decreases entries@.len() - i,
    {
        if key_eq(&entries[i].0, key) {
            return i;
        }
        i += 1;
    }
    i
}

impl<A> AccountsTrie<A> {
    /// An empty account set.
    pub fn new() -> (trie: Self)
        ensures
            trie@ == Map::<Seq<u8>, A>::empty(),
    {
        let trie = AccountsTrie { entries: Vec::new() };
        assert(trie@ =~= Map::<Seq<u8>, A>::empty());
        trie
    }

    /// The account stored under `key`, if any.
    pub fn get(&self, key: &KeyNibbles) -> (found: Option<&A>)
        ensures
            match found {
                Some(account) => self@.contains_key(key_nibbles(*key)) && *account == self@[key_nibbles(
                    *key,
                )],
                None => !self@.contains_key(key_nibbles(*key)),
            },
    {
        proof {
            use_type_invariant(self);
        }
        let at = find(&self.entries, key);
        if at < self.entries.len() {
            proof {
                lemma_remove_entry(self.entries@, at as int);
            }
            Some(&self.entries[at].1)
        } else {
            None
        }
    }

    /// Stores `account` under `key`, replacing what was stored there.
    pub fn put(&mut self, key: KeyNibbles, account: A)
        ensures
            final(self)@ == old(self)@.insert(key_nibbles(key), account),
    {
        proof {
            use_type_invariant(&*self);
        }
        let ghost before = self.entries@;
        let ghost k = key_nibbles(key);
        let mut entries: Vec<(KeyNibbles, A)> = Vec::new();
        core::mem::swap(&mut self.entries, &mut entries);
        let at = find(&entries, &key);
        if at < entries.len() {
            proof {
                lemma_remove_entry(before, at as int);
            }
            entries.remove(at);
        }
        proof {
            assert(!stores(entries@, k)) by {
                if at < before.len() {
                    assert(!entries_map(entries@).contains_key(k));
                }
            }
            lemma_push_entry(entries@, (key, account));
            assert(entries_map(before).remove(k).insert(k, account) =~= entries_map(before).insert(
                k,
                account,
            ));
        }
        entries.push((key, account));
        core::mem::swap(&mut self.entries, &mut entries);
    }

    /// Takes the account stored under `key` out of the set.
    pub fn take(&mut self, key: &KeyNibbles) -> (taken: Option<A>)
        ensures
            final(self)@ == old(self)@.remove(key_nibbles(*key)),
            match taken {
                Some(account) => old(self)@.contains_key(key_nibbles(*key)) && account == old(
                    self,
                )@[key_nibbles(*key)],
                None => !old(self)@.contains_key(key_nibbles(*key)),
            },
    {
        proof {
            use_type_invariant(&*self);
        }
        let ghost before = self.entries@;
        let ghost k = key_nibbles(*key);
        let mut entries: Vec<(KeyNibbles, A)> = Vec::new();
        core::mem::swap(&mut self.entries, &mut entries);
        let at = find(&entries, key);
        let taken = if at < entries.len() {
            proof {
                lemma_remove_entry(before, at as int);
            }
            let entry = entries.remove(at);
            Some(entry.1)
        } else {
            assert(entries_map(before) =~= entries_map(before).remove(k));
            None
        };
        core::mem::swap(&mut self.entries, &mut entries);
        taken
    }
}

/// Entries with the same keys and accounts at the same places stand for
/// the same map.
proof fn lemma_same_entries_same_map<A>(a: Seq<(KeyNibbles, A)>, b: Seq<(KeyNibbles, A)>)
    requires
        distinct_keys(a),
        a.len() == b.len(),
        forall|i: int|
            0 <= i < a.len() ==> key_nibbles(#[trigger] a[i].0) == key_nibbles(b[i].0) && a[i].1
                == b[i].1,
    ensures
        distinct_keys(b),
        entries_map(a) == entries_map(b),
{
    assert forall|i: int, j: int| 0 <= i < j < b.len() implies key_nibbles(#[trigger] b[i].0)
        != key_nibbles(#[trigger] b[j].0) by {
        assert(key_nibbles(a[i].0) == key_nibbles(b[i].0));
        assert(key_nibbles(a[j].0) == key_nibbles(b[j].0));
    }
    assert forall|q: Seq<u8>| #[trigger] stores(a, q) <==> stores(b, q) by {
        if stores(a, q) {
            let i = choose|i: int| 0 <= i < a.len() && key_nibbles(a[i].0) == q;
            assert(key_nibbles(b[i].0) == q);
        }
        if stores(b, q) {
            let i = choose|i: int| 0 <= i < b.len() && key_nibbles(b[i].0) == q;
            assert(key_nibbles(a[i].0) == q);
        }
    }
    assert forall|q: Seq<u8>| stores(a, q) implies a[position(a, q)].1 == b[position(b, q)].1 by {
        let i = position(a, q);
        let j = position(b, q);
        assert(stores(b, q));
        assert(key_nibbles(a[j].0) == q);
        assert(i == j);
    }
    assert(entries_map(a) =~= entries_map(b));
}

impl<A: AccountInteraction> AccountsTrie<A> {
    /// A copy of the account set.
    pub fn duplicate(&self) -> (copy: Self)
        ensures
            copy@ == self@,
    {
        proof {
            use_type_invariant(self);
        }
        let mut entries: Vec<(KeyNibbles, A)> = Vec::new();
        let mut i: usize = 0;
        while i < self.entries.len()
            invariant
                i <= self.entries@.len(),
                entries@.len() == i,
                forall|j: int|
                    0 <= j < i ==> key_nibbles(#[trigger] self.entries@[j].0) == key_nibbles(
                        entries@[j].0,
                    ) && self.entries@[j].1 == entries@[j].1,
            decreases self.entries@.len() - i,
        {
            let key = key_clone(&self.entries[i].0);
            let account = self.entries[i].1.duplicate();
            entries.push((key, account));
            i += 1;
        }
        proof {
            lemma_same_entries_same_map(self.entries@, entries@);
        }
        AccountsTrie { entries }
    }
}

impl<A> AccountsTrie<A> {
    /// The stored accounts with their keys, each key once.
    pub fn into_entries(self) -> (entries: Vec<(KeyNibbles, A)>)
        ensures
            distinct_keys(entries@),
            entries_map(entries@) == self@,
    {
        proof {
            use_type_invariant(&self);
        }
        self.entries
    }
}

} // verus!
