//! The shared metadata store.
//!
//! A keyed map from byte-string key to an opaque structured value, kept as
//! the value's serialized JSON text.  The store is seeded once at process
//! start and read by every connection; the shell that drives the server
//! wraps it in whatever lock its runtime calls for, scoped strictly to a
//! single operation.

use vstd::prelude::*;
use vstd::string::StringSliceAdditionalSpecFns;

verus! {

/// One key/value pair of the store.
pub struct Entry {
    pub key: Vec<u8>,
    pub value: Vec<u8>,
}

/// The mathematical contents of an entry sequence: later entries win, as
/// with repeated map insertion.
pub open spec fn entries_map(s: Seq<Entry>) -> Map<Seq<u8>, Seq<u8>>
    decreases s.len(),
{
    if s.len() == 0 {
        Map::empty()
    } else {
        entries_map(s.drop_last()).insert(s.last().key@, s.last().value@)
    }
}

/// A keyed map from byte-string key to the stored value's JSON text.
pub struct MetadataStore {
    entries: Vec<Entry>,
}

/// No two entries share a key.
pub open spec fn unique_keys(s: Seq<Entry>) -> bool {
    forall|i: int, j: int| 0 <= i < j < s.len() ==> s[i].key@ != s[j].key@
}

proof fn lemma_entries_map_absent(s: Seq<Entry>, k: Seq<u8>)
    requires
        forall|i: int| 0 <= i < s.len() ==> s[i].key@ != k,
    ensures
        !entries_map(s).contains_key(k),
    decreases s.len(),
{
    if s.len() > 0 {
        lemma_entries_map_absent(s.drop_last(), k);
    }
}

proof fn lemma_entries_map_found(s: Seq<Entry>, i: int)
    requires
        unique_keys(s),
        0 <= i < s.len(),
    ensures
        entries_map(s).contains_key(s[i].key@),
        entries_map(s)[s[i].key@] == s[i].value@,
    decreases s.len(),
{
    if i < s.len() - 1 {
        lemma_entries_map_found(s.drop_last(), i);
    }
}

proof fn lemma_entries_map_update(s: Seq<Entry>, i: int, e: Entry)
    requires
        unique_keys(s),
        0 <= i < s.len(),
        e.key@ == s[i].key@,
    ensures
        entries_map(s.update(i, e)) =~= entries_map(s).insert(e.key@, e.value@),
    decreases s.len(),
{
    let t = s.update(i, e);
    assert(t.len() == s.len());
    if i == s.len() - 1 {
        assert(t.drop_last() =~= s.drop_last());
        assert(t.last() == e);
    } else {
        lemma_entries_map_update(s.drop_last(), i, e);
        assert(t.drop_last() =~= s.drop_last().update(i, e));
        assert(t.last() == s.last());
        assert(s.last().key@ != e.key@);
        assert(entries_map(t) =~= entries_map(s).insert(e.key@, e.value@));
    }
}

impl MetadataStore {
    /// The mapping this store represents.
    pub closed spec fn view(self) -> Map<Seq<u8>, Seq<u8>> {
        entries_map(self.entries@)
    }

    /// Internal shape: every key appears at most once.
    pub closed spec fn wf(self) -> bool {
        unique_keys(self.entries@)
    }

    /// An empty store.
    pub fn new() -> (r: MetadataStore)
        ensures
            r.wf(),
            r.view() == Map::<Seq<u8>, Seq<u8>>::empty(),
    {
        MetadataStore { entries: Vec::new() }
    }

    fn find_index(&self, key: &[u8]) -> (r: Option<usize>)
        ensures
            match r {
                Some(i) => i < self.entries@.len() && self.entries@[i as int].key@ == key@,
                None => forall|i: int|
                    0 <= i < self.entries@.len() ==> self.entries@[i].key@ != key@,
            },
    {
        let n = self.entries.len();
        let mut i: usize = 0;
        while i < n
            invariant
                n == self.entries@.len(),
                i <= n,
                forall|j: int| 0 <= j < i ==> self.entries@[j].key@ != key@,
            decreases n - i,
        {
            if crate::bytes::bytes_eq(self.entries[i].key.as_slice(), key) {
                return Some(i);
            }
            i += 1;
        }
        None
    }

    /// Point lookup: the stored value's JSON text for `key`, or `None`
    /// when the store holds no such key.
    pub fn lookup<'a>(&'a self, key: &[u8]) -> (r: Option<&'a Vec<u8>>)
        requires
            self.wf(),
        ensures
            match r {
                Some(v) => self.view().contains_key(key@) && v@ == self.view()[key@],
                None => !self.view().contains_key(key@),
            },
    {
        match self.find_index(key) {
            Some(i) => {
                proof {
                    lemma_entries_map_found(self.entries@, i as int);
                }
                Some(&self.entries[i].value)
            },
            None => {
                proof {
                    lemma_entries_map_absent(self.entries@, key@);
                }
                None
            },
        }
    }

    /// True when the store holds `key`.
    pub fn contains(&self, key: &[u8]) -> (r: bool)
        requires
            self.wf(),
        ensures
            r == self.view().contains_key(key@),
    {
        match self.lookup(key) {
            Some(_) => true,
            None => false,
        }
    }

    /// Binds `key` to `value`, replacing any earlier binding of the same
    /// key.
    pub fn insert(&mut self, key: Vec<u8>, value: Vec<u8>)
        requires
            old(self).wf(),
        ensures
            final(self).wf(),
            final(self).view() == old(self).view().insert(key@, value@),
    {
        let ghost s0 = self.entries@;
        match self.find_index(key.as_slice()) {
            Some(i) => {
                let e = Entry { key, value };
                proof {
                    lemma_entries_map_update(s0, i as int, e);
                }
                self.entries.set(i, e);
                assert(unique_keys(self.entries@)) by {
                    assert(forall|a: int, b: int|
                        0 <= a < b < self.entries@.len() ==> self.entries@[a].key@
                            != self.entries@[b].key@) by {
                        assert(forall|a: int|
                            0 <= a < s0.len() && a != i ==> s0[a].key@ != s0[i as int].key@);
                    }
                }
            },
            None => {
                proof {
                    lemma_entries_map_absent(s0, key@);
                }
                let e = Entry { key, value };
                self.entries.push(e);
                proof {
                    assert(self.entries@.drop_last() =~= s0);
                    assert(unique_keys(self.entries@)) by {
                        if !unique_keys(self.entries@) {
                            let (a, b) = choose|a: int, b: int|
                                0 <= a < b < self.entries@.len() && self.entries@[a].key@
                                    == self.entries@[b].key@;
                            assert(s0[a].key@ == e.key@);
                        }
                    }
                }
            },
        }
    }

    /// How many keys the store holds.
    pub fn len(&self) -> (r: usize)
        requires
            self.wf(),
        ensures
            r == self.view().dom().len(),
    {
        proof {
            lemma_entries_len(self.entries@);
        }
        self.entries.len()
    }
}

/// The records the store is seeded with at process start: two users,
/// two products, one configuration object, each value kept as its JSON
/// text.
pub open spec fn sample_records() -> Map<Seq<u8>, Seq<u8>> {
    Map::empty().insert(
        ("user:123").spec_bytes(),
        (
        "{\"id\":123,\"name\":\"Juan P\u{e9}rez\",\"email\":\"juan@example.com\",\"role\":\"admin\"}"
        ).spec_bytes(),
    ).insert(
        ("user:456").spec_bytes(),
        (
        "{\"id\":456,\"name\":\"Mar\u{ed}a Garc\u{ed}a\",\"email\":\"maria@example.com\",\"role\":\"user\"}"
        ).spec_bytes(),
    ).insert(
        ("product:789").spec_bytes(),
        ("{\"id\":789,\"name\":\"Laptop Dell XPS 13\",\"price\":1299.99,\"stock\":15}").spec_bytes(),
    ).insert(
        ("product:101").spec_bytes(),
        (
        "{\"id\":101,\"name\":\"Mouse Logitech MX Master 3\",\"price\":99.99,\"stock\":50}"
        ).spec_bytes(),
    ).insert(
        ("config:app").spec_bytes(),
        ("{\"theme\":\"dark\",\"language\":\"es\",\"notifications\":true}").spec_bytes(),
    )
}

/// Builds the store the server starts with: the sample records, nothing
/// else.
pub fn init_database() -> (r: MetadataStore)
    ensures
        r.wf(),
        r.view() == sample_records(),
{
    let mut db = MetadataStore::new();
    db.insert(
        crate::bytes::str_bytes("user:123"),
        crate::bytes::str_bytes(
            "{\"id\":123,\"name\":\"Juan P\u{e9}rez\",\"email\":\"juan@example.com\",\"role\":\"admin\"}",
        ),
    );
    db.insert(
        crate::bytes::str_bytes("user:456"),
        crate::bytes::str_bytes(
            "{\"id\":456,\"name\":\"Mar\u{ed}a Garc\u{ed}a\",\"email\":\"maria@example.com\",\"role\":\"user\"}",
        ),
    );
    db.insert(
        crate::bytes::str_bytes("product:789"),
        crate::bytes::str_bytes(
            "{\"id\":789,\"name\":\"Laptop Dell XPS 13\",\"price\":1299.99,\"stock\":15}",
        ),
    );
    db.insert(
        crate::bytes::str_bytes("product:101"),
        crate::bytes::str_bytes(
            "{\"id\":101,\"name\":\"Mouse Logitech MX Master 3\",\"price\":99.99,\"stock\":50}",
        ),
    );
    db.insert(
        crate::bytes::str_bytes("config:app"),
        crate::bytes::str_bytes(
            "{\"theme\":\"dark\",\"language\":\"es\",\"notifications\":true}",
        ),
    );
    db
}

proof fn lemma_entries_len(s: Seq<Entry>)
    requires
        unique_keys(s),
    ensures
        entries_map(s).dom().len() == s.len(),
        entries_map(s).dom().finite(),
    decreases s.len(),
{
    if s.len() > 0 {
        lemma_entries_len(s.drop_last());
        lemma_entries_map_absent(s.drop_last(), s.last().key@);
        vstd::set::axiom_set_insert_finite(entries_map(s.drop_last()).dom(), s.last().key@);
        vstd::set::axiom_set_insert_len(entries_map(s.drop_last()).dom(), s.last().key@);
        assert(entries_map(s).dom() =~= entries_map(s.drop_last()).dom().insert(s.last().key@));
    }
}

} // verus!
