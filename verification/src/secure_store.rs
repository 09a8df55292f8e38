//! In-memory secure key-value store: a process-lifetime mapping from string
//! keys to string values, modeled abstractly as a `Map<Seq<char>, Seq<char>>`.

use vstd::prelude::*;

verus! {

/// One stored entry: a key and its current value.
struct Entry {
    key: String,
    value: String,
}

/// In-memory store of secret string values, keyed by string identifiers.
///
/// The abstract state (the view) is a map from key characters to value
/// characters; a key holds at most one value at any time.
pub struct SecureStoreState {
    entries: Vec<Entry>,
}

/// No two entries share a key.
spec fn keys_unique(s: Seq<Entry>) -> bool {
    forall|i: int, j: int| 0 <= i < j < s.len() ==> s[i].key@ != s[j].key@
}

/// The mapping that a sequence of entries represents (a later entry for the
/// same key wins).
spec fn map_of(s: Seq<Entry>) -> Map<Seq<char>, Seq<char>>
    decreases s.len(),
{
    if s.len() == 0 {
        Map::empty()
    } else {
        map_of(s.drop_last()).insert(s.last().key@, s.last().value@)
    }
}

/// What a read of key `k` yields on abstract store contents `m`: the value
/// most recently written to `k`, or the explicit absent marker.
pub open spec fn stored_value(m: Map<Seq<char>, Seq<char>>, k: Seq<char>) -> Option<Seq<char>> {
    if m.contains_key(k) {
        Some(m[k])
    } else {
        None
    }
}

/// Dropping the last entry keeps the remaining keys distinct.
proof fn lemma_keys_unique_drop_last(s: Seq<Entry>)
    requires
        keys_unique(s),
        s.len() > 0,
    ensures
        keys_unique(s.drop_last()),
{
    assert forall|i: int, j: int|
        0 <= i < j < s.drop_last().len() implies s.drop_last()[i].key@ != s.drop_last()[j].key@ by {
        assert(s.drop_last()[i] == s[i]);
        assert(s.drop_last()[j] == s[j]);
    }
}

/// A key is in the represented mapping exactly when some entry carries it.
proof fn lemma_map_of_contains(s: Seq<Entry>, k: Seq<char>)
    ensures
        map_of(s).contains_key(k) <==> (exists|i: int| 0 <= i < s.len() && s[i].key@ == k),
    decreases s.len(),
{
    if s.len() > 0 {
        lemma_map_of_contains(s.drop_last(), k);
        if s.last().key@ == k {
            assert(s[s.len() - 1].key@ == k);
        } else {
            if exists|i: int| 0 <= i < s.len() && s[i].key@ == k {
                let i = choose|i: int| 0 <= i < s.len() && s[i].key@ == k;
                assert(s.drop_last()[i] == s[i]);
            }
            if exists|i: int| 0 <= i < s.drop_last().len() && s.drop_last()[i].key@ == k {
                let i = choose|i: int| 0 <= i < s.drop_last().len() && s.drop_last()[i].key@ == k;
                assert(s.drop_last()[i] == s[i]);
            }
        }
    }
}

/// With distinct keys, the entry at index `i` decides its key's value.
proof fn lemma_map_of_value(s: Seq<Entry>, i: int)
    requires
        keys_unique(s),
        0 <= i < s.len(),
    ensures
        map_of(s).contains_key(s[i].key@),
        map_of(s)[s[i].key@] == s[i].value@,
    decreases s.len(),
{
    if i < s.len() - 1 {
        lemma_keys_unique_drop_last(s);
        lemma_map_of_value(s.drop_last(), i);
        assert(s.drop_last()[i] == s[i]);
        assert(s[i].key@ != s.last().key@);
    }
}

/// Replacing the entry at `i` by one with the same key keeps keys distinct.
proof fn lemma_keys_unique_update(s: Seq<Entry>, i: int, e: Entry)
    requires
        keys_unique(s),
        0 <= i < s.len(),
        s[i].key@ == e.key@,
    ensures
        keys_unique(s.update(i, e)),
{
    assert forall|a: int, b: int|
        0 <= a < b < s.update(i, e).len() implies s.update(i, e)[a].key@ != s.update(
        i,
        e,
    )[b].key@ by {
        assert(s[a].key@ != s[b].key@);
    }
}

/// Replacing the entry at `i` by one with the same key updates exactly that
/// key's value in the represented mapping.
proof fn lemma_map_of_update(s: Seq<Entry>, i: int, e: Entry)
    requires
        keys_unique(s),
        0 <= i < s.len(),
        s[i].key@ == e.key@,
    ensures
        map_of(s.update(i, e)) == map_of(s).insert(e.key@, e.value@),
    decreases s.len(),
{
    let t = s.update(i, e);
    if i == s.len() - 1 {
        assert(t.drop_last() =~= s.drop_last());
        assert(t.last() == e);
        assert(map_of(s.drop_last()).insert(s.last().key@, s.last().value@).insert(
            e.key@,
            e.value@,
        ) =~= map_of(s.drop_last()).insert(e.key@, e.value@));
    } else {
        lemma_keys_unique_drop_last(s);
        assert(s.drop_last()[i] == s[i]);
        lemma_map_of_update(s.drop_last(), i, e);
        assert(t.drop_last() =~= s.drop_last().update(i, e));
        assert(t.last() == s.last());
        assert(s.last().key@ != e.key@);
        assert(map_of(s.drop_last()).insert(e.key@, e.value@).insert(
            s.last().key@,
            s.last().value@,
        ) =~= map_of(s.drop_last()).insert(s.last().key@, s.last().value@).insert(
            e.key@,
            e.value@,
        ));
    }
}

/// Appending an entry inserts its key and value into the represented mapping.
proof fn lemma_map_of_push(s: Seq<Entry>, e: Entry)
    ensures
        map_of(s.push(e)) == map_of(s).insert(e.key@, e.value@),
{
    assert(s.push(e).drop_last() =~= s);
    assert(s.push(e).last() == e);
}

impl View for SecureStoreState {
    type V = Map<Seq<char>, Seq<char>>;

    closed spec fn view(&self) -> Map<Seq<char>, Seq<char>> {
        map_of(self.entries@)
    }
}

impl SecureStoreState {
    #[verifier::type_invariant]
    spec fn well_formed(self) -> bool {
        keys_unique(self.entries@)
    }

    /// Creates an empty store.
    pub fn new() -> (store: Self)
        ensures
            store@ == Map::<Seq<char>, Seq<char>>::empty(),
    {
        SecureStoreState { entries: Vec::new() }
    }

    /// Returns the value most recently written to `key`, or the explicit
    /// absent marker if `key` was never written.
    pub fn get(&self, key: &String) -> (r: Option<String>)
        ensures
            (match r {
                Some(v) => stored_value(self@, key@) == Some(v@),
                None => stored_value(self@, key@) is None,
            }),
    {
        proof {
            use_type_invariant(&*self);
        }
        let n = self.entries.len();
        let mut i: usize = 0;
        while i < n
            invariant
                n == self.entries@.len(),
                i <= n,
                keys_unique(self.entries@),
                forall|j: int| 0 <= j < i ==> self.entries@[j].key@ != key@,
            decreases n - i,
        {
            if self.entries[i].key == *key {
                let value = self.entries[i].value.clone();
                proof {
                    lemma_map_of_value(self.entries@, i as int);
                }
                return Some(value);
            }
            i += 1;
        }
        proof {
            lemma_map_of_contains(self.entries@, key@);
        }
        None
    }

    /// Writes `value` under `key`, inserting a fresh entry or overwriting the
    /// one already held: the abstract state gains exactly that binding.
    pub fn set(&mut self, key: String, value: String)
        ensures
            final(self)@ == old(self)@.insert(key@, value@),
    {
        proof {
            use_type_invariant(&*self);
        }
        let ghost k: Seq<char> = key@;
        let ghost v: Seq<char> = value@;
        let mut entries: Vec<Entry> = Vec::new();
        std::mem::swap(&mut entries, &mut self.entries);
        let ghost s0: Seq<Entry> = entries@;
        let n = entries.len();
        let mut i: usize = 0;
        while i < n
            invariant
                n == entries@.len(),
                i <= n,
                entries@ == s0,
                keys_unique(s0),
                old(self)@ == map_of(s0),
                key@ == k,
                value@ == v,
                forall|j: int| 0 <= j < i ==> entries@[j].key@ != k,
            decreases n - i,
        {
            if entries[i].key == key {
                entries[i] = Entry { key, value };
                proof {
                    lemma_keys_unique_update(s0, i as int, entries@[i as int]);
                    lemma_map_of_update(s0, i as int, entries@[i as int]);
                }
                self.entries = entries;
                return;
            }
            i += 1;
        }
        entries.push(Entry { key, value });
        proof {
            assert forall|a: int, b: int|
                0 <= a < b < entries@.len() implies entries@[a].key@ != entries@[b].key@ by {
                if b < s0.len() {
                    assert(entries@[a] == s0[a]);
                    assert(entries@[b] == s0[b]);
                } else {
                    assert(entries@[a] == s0[a]);
                    assert(entries@[b].key@ == k);
                }
            }
            lemma_map_of_push(s0, entries@[s0.len() as int]);
        }
        self.entries = entries;
    }
}

impl Default for SecureStoreState {
    /// The store a process starts with: an empty mapping.
    fn default() -> (store: Self)
        ensures
            store@ == Map::<Seq<char>, Seq<char>>::empty(),
    {
        SecureStoreState::new()
    }
}

/// Command handler: writes `value` under `key` in the shared store.
///
/// The store itself cannot fail; the lock-acquisition failure of the shared
/// shell around it is raised by that shell, so here success is always owed.
pub fn secure_store_set(store: &mut SecureStoreState, key: String, value: String) -> (r: Result<
    (),
    String,
>)
    ensures
        r is Ok,
        final(store)@ == old(store)@.insert(key@, value@),
{
    store.set(key, value);
    Ok(())
}

/// Command handler: reads the value most recently written under `key` in the
/// shared store, or the explicit absent marker.
pub fn secure_store_get(store: &SecureStoreState, key: String) -> (r: Result<
    Option<String>,
    String,
>)
    ensures
        (match r {
            Ok(Some(v)) => stored_value(store@, key@) == Some(v@),
            Ok(None) => stored_value(store@, key@) is None,
            Err(_) => false,
        }),
{
    Ok(store.get(&key))
}

/// Law: reading a key right after writing it yields exactly the value
/// written, whatever the store held before (read-your-writes, last-write-wins).
pub proof fn lemma_set_then_get(m: Map<Seq<char>, Seq<char>>, k: Seq<char>, v: Seq<char>)
    ensures
        stored_value(m.insert(k, v), k) == Some(v),
{
}

/// Law: a key never written reads as the explicit absent marker, not as an
/// error and not as a default value.
pub proof fn lemma_get_unwritten(k: Seq<char>)
    ensures
        stored_value(Map::<Seq<char>, Seq<char>>::empty(), k) is None,
{
}

/// Law: writing one key leaves every other key's reading unchanged.
pub proof fn lemma_set_preserves_other_keys(
    m: Map<Seq<char>, Seq<char>>,
    k1: Seq<char>,
    v1: Seq<char>,
    k2: Seq<char>,
)
    requires
        k1 != k2,
    ensures
        stored_value(m.insert(k1, v1), k2) == stored_value(m, k2),
{
}

/// Law: writes under distinct keys are all retained, each key reading back
/// its own last-written value.
pub proof fn lemma_distinct_writes_retained(
    m: Map<Seq<char>, Seq<char>>,
    k1: Seq<char>,
    v1: Seq<char>,
    k2: Seq<char>,
    v2: Seq<char>,
)
    requires
        k1 != k2,
    ensures
        stored_value(m.insert(k1, v1).insert(k2, v2), k1) == Some(v1),
        stored_value(m.insert(k1, v1).insert(k2, v2), k2) == Some(v2),
{
}

} // verus!
