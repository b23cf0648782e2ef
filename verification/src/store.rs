//! The store: a map from non-empty byte-string keys to byte-string values.
//!
//! The store is the single shared mutable resource of the system.  Its
//! abstract state is a `Map<Seq<u8>, Seq<u8>>`; every operation states its
//! effect on that map.  Concretely the entries sit in a vector whose keys are
//! pairwise distinct, so each key names at most one value.

use vstd::prelude::*;

verus! {

/// A single key-value pair held inside the store's map.  Entries have no
/// identity of their own; they exist only inside a `DataManager`.
struct Entry {
    key: Vec<u8>,
    value: Vec<u8>,
}

/// Some position of `s` holds the key `k`.
spec fn has_key(s: Seq<Entry>, k: Seq<u8>) -> bool {
    exists|i: int| 0 <= i < s.len() && s[i].key@ == k
}

/// The position of `s` that holds the key `k`, when one does.
spec fn key_index(s: Seq<Entry>, k: Seq<u8>) -> int {
    choose|i: int| 0 <= i < s.len() && s[i].key@ == k
}

/// The map that a sequence of entries represents.
spec fn map_of(s: Seq<Entry>) -> Map<Seq<u8>, Seq<u8>> {
    Map::new(|k: Seq<u8>| has_key(s, k), |k: Seq<u8>| s[key_index(s, k)].value@)
}

/// Keys are pairwise distinct and non-empty.
spec fn entries_wf(s: Seq<Entry>) -> bool {
    &&& forall|i: int, j: int| 0 <= i < j < s.len() ==> s[i].key@ != s[j].key@
    &&& forall|i: int| 0 <= i < s.len() ==> s[i].key@.len() > 0
}

/// The shared key-value store.
///
/// One instance is created empty at process start and owns every entry; all
/// request handling goes through it.  Callers that share it across threads
/// wrap it in their own mutual-exclusion lock and hold the lock exactly for
/// the duration of one `get` or `set` call, which keeps each operation atomic
/// with respect to concurrent ones.
pub struct DataManager {
    entries: Vec<Entry>,
}

impl View for DataManager {
    type V = Map<Seq<u8>, Seq<u8>>;

    closed spec fn view(&self) -> Map<Seq<u8>, Seq<u8>> {
        map_of(self.entries@)
    }
}

/// The unique position `i` is the one `key_index` picks, so the map holds
/// exactly the value stored beside the key at `i`.
proof fn lemma_at_index(s: Seq<Entry>, i: int)
    requires
        entries_wf(s),
        0 <= i < s.len(),
    ensures
        has_key(s, s[i].key@),
        map_of(s).contains_key(s[i].key@),
        map_of(s)[s[i].key@] == s[i].value@,
{
    assert(has_key(s, s[i].key@));
    let j = key_index(s, s[i].key@);
    assert(0 <= j < s.len() && s[j].key@ == s[i].key@);
    if i < j {
        assert(s[i].key@ != s[j].key@);
    } else if j < i {
        assert(s[j].key@ != s[i].key@);
    }
    assert(j == i);
}

/// Replacing the value beside an existing key updates the represented map at
/// exactly that key.
proof fn lemma_update_value(s: Seq<Entry>, i: int, e: Entry)
    requires
        entries_wf(s),
        0 <= i < s.len(),
        e.key@ == s[i].key@,
    ensures
        entries_wf(s.update(i, e)),
        map_of(s.update(i, e)) == map_of(s).insert(e.key@, e.value@),
{
    let s1 = s.update(i, e);
    assert forall|a: int| 0 <= a < s1.len() implies s1[a].key@ == s[a].key@ by {
        if a != i {
            assert(s1[a] == s[a]);
        }
    }
    assert(entries_wf(s1));
    let m1 = map_of(s1);
    let m2 = map_of(s).insert(e.key@, e.value@);
    assert forall|k: Seq<u8>| #[trigger] m1.contains_key(k) implies m2.contains_key(k) && m1[k]
        == m2[k] by {
        let j = key_index(s1, k);
        assert(0 <= j < s1.len() && s1[j].key@ == k);
        lemma_at_index(s1, j);
        if j == i {
            assert(k == e.key@);
            assert(m1[k] == e.value@);
        } else {
            assert(s1[j] == s[j]);
            assert(k != e.key@) by {
                if i < j {
                    assert(s[i].key@ != s[j].key@);
                } else {
                    assert(s[j].key@ != s[i].key@);
                }
            }
            lemma_at_index(s, j);
        }
    }
    assert forall|k: Seq<u8>| #[trigger] m2.contains_key(k) implies m1.contains_key(k) by {
        if k == e.key@ {
            lemma_at_index(s1, i);
        } else {
            let j = key_index(s, k);
            assert(0 <= j < s.len() && s[j].key@ == k);
            assert(s1[j] == s[j]);
            assert(has_key(s1, k));
        }
    }
    assert(m1 =~= m2);
}

/// Appending an entry whose key is fresh extends the represented map at
/// exactly that key.
proof fn lemma_push_value(s: Seq<Entry>, e: Entry)
    requires
        entries_wf(s),
        !has_key(s, e.key@),
        e.key@.len() > 0,
    ensures
        entries_wf(s.push(e)),
        map_of(s.push(e)) == map_of(s).insert(e.key@, e.value@),
{
    let s1 = s.push(e);
    let n = s.len() as int;
    assert(s1[n] == e);
    assert forall|a: int| 0 <= a < n implies s1[a] == s[a] by {}
    assert forall|a: int| 0 <= a < n implies s1[a].key@ != e.key@ by {
        assert(s1[a] == s[a]);
        if s[a].key@ == e.key@ {
            assert(has_key(s, e.key@));
        }
    }
    assert(entries_wf(s1));
    let m1 = map_of(s1);
    let m2 = map_of(s).insert(e.key@, e.value@);
    assert forall|k: Seq<u8>| #[trigger] m1.contains_key(k) implies m2.contains_key(k) && m1[k]
        == m2[k] by {
        let j = key_index(s1, k);
        assert(0 <= j <= n && s1[j].key@ == k);
        lemma_at_index(s1, j);
        if j == n {
            assert(k == e.key@);
        } else {
            assert(s1[j] == s[j]);
            assert(k != e.key@);
            lemma_at_index(s, j);
        }
    }
    assert forall|k: Seq<u8>| #[trigger] m2.contains_key(k) implies m1.contains_key(k) by {
        if k == e.key@ {
            lemma_at_index(s1, n);
        } else {
            let j = key_index(s, k);
            assert(0 <= j < n && s[j].key@ == k);
            assert(s1[j] == s[j]);
            assert(has_key(s1, k));
        }
    }
    assert(m1 =~= m2);
}

/// An owned copy of a byte string.
pub fn copy_bytes(v: &Vec<u8>) -> (r: Vec<u8>)
    ensures
        r@ == v@,
{
    let mut r: Vec<u8> = Vec::new();
    let mut i: usize = 0;
    while i < v.len()
        invariant
            i <= v@.len(),
            r@ == v@.subrange(0, i as int),
        decreases v@.len() - i,
    {
        r.push(v[i]);
        i = i + 1;
        proof {
            assert(r@ =~= v@.subrange(0, i as int));
        }
    }
    proof {
        assert(v@.subrange(0, v@.len() as int) =~= v@);
    }
    r
}

impl DataManager {
    #[verifier::type_invariant]
    spec fn wf(self) -> bool {
        entries_wf(self.entries@)
    }

    /// A new store holds no entries.
    pub fn new() -> (s: Self)
        ensures
            s@ == Map::<Seq<u8>, Seq<u8>>::empty(),
    {
        let s = DataManager { entries: Vec::new() };
        proof {
            assert(s@ =~= Map::<Seq<u8>, Seq<u8>>::empty());
        }
        s
    }

    /// The position of `key` among the entries, when it is present.
    fn find(entries: &Vec<Entry>, key: &Vec<u8>) -> (r: Option<usize>)
        ensures
            match r {
                Some(i) => i < entries@.len() && entries@[i as int].key@ == key@,
                None => !has_key(entries@, key@),
            },
    {
        let mut i: usize = 0;
        while i < entries.len()
            invariant
                i <= entries@.len(),
                forall|j: int| 0 <= j < i ==> entries@[j].key@ != key@,
            decreases entries@.len() - i,
        {
            if bytes_eq(&entries[i].key, key) {
                return Some(i);
            }
            i = i + 1;
        }
        None
    }

    /// The current value for `key`, or `None` when no entry carries it.
    ///
    /// The value comes back as an owned snapshot, so the caller holds no
    /// reference into the store once the call returns.
    pub fn get(&self, key: &Vec<u8>) -> (r: Option<Vec<u8>>)
        ensures
            match r {
                Some(v) => self@.contains_key(key@) && v@ == self@[key@],
                None => !self@.contains_key(key@),
            },
    {
        proof {
            use_type_invariant(self);
        }
        match Self::find(&self.entries, key) {
            Some(i) => {
                let v = copy_bytes(&self.entries[i].value);
                proof {
                    lemma_at_index(self.entries@, i as int);
                }
                Some(v)
            },
            None => None,
        }
    }

    /// Insert or overwrite the entry for `key`; the last write for a key
    /// wins.  Always succeeds: there is no size limit and no key validation
    /// beyond non-emptiness, which the caller establishes.
    pub fn set(&mut self, key: Vec<u8>, value: Vec<u8>)
        requires
            key@.len() > 0,
        ensures
            final(self)@ == old(self)@.insert(key@, value@),
    {
        proof {
            use_type_invariant(&*self);
        }
        let mut entries: Vec<Entry> = Vec::new();
        std::mem::swap(&mut entries, &mut self.entries);
        let ghost s0 = entries@;
        let ghost k = key@;
        let ghost v = value@;
        match Self::find(&entries, &key) {
            Some(i) => {
                entries[i] = Entry { key, value };
                proof {
                    lemma_update_value(s0, i as int, entries@[i as int]);
                    assert(entries@ =~= s0.update(i as int, entries@[i as int]));
                }
            },
            None => {
                entries.push(Entry { key, value });
                proof {
                    lemma_push_value(s0, entries@[s0.len() as int]);
                    assert(entries@ =~= s0.push(entries@[s0.len() as int]));
                }
            },
        }
        self.entries = entries;
        proof {
            assert(self@ == old(self)@.insert(k, v));
        }
    }
}

/// Byte-string equality, decided by the `Vec<u8>` equality operator.
fn bytes_eq(a: &Vec<u8>, b: &Vec<u8>) -> (r: bool)
    ensures
        r == (a@ == b@),
{
    let r = a == b;
    proof {
        if r {
            assert(a@ =~= b@);
        } else {
            if a@ == b@ {
                assert(a@.len() == b@.len());
                assert(forall|i: int| 0 <= i < a@.len() ==> a@[i] == b@[i]);
                assert(false);
            }
        }
    }
    r
}

} // verus!
