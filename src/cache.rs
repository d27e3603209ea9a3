//! The cache engine: an index from key to identifier, and a sharded map from
//! identifier to stored record with a compare-and-swap version.

use crate::id_generator::{step, Generator};
use dashmap::DashMap;
use nohash_hasher::NoHashHasher;
use std::hash::BuildHasherDefault;
use vstd::prelude::*;
use vstd::slice::slice_to_vec;

verus! {

#[verifier::external_type_specification]
#[verifier::external_body]
#[verifier::reject_recursive_types(K)]
#[verifier::reject_recursive_types(V)]
#[verifier::reject_recursive_types(S)]
pub struct ExDashMap<K, V, S>(DashMap<K, V, S>);

#[verifier::external_type_specification]
#[verifier::external_body]
#[verifier::reject_recursive_types(T)]
pub struct ExNoHashHasher<T>(NoHashHasher<T>);

#[verifier::external_type_specification]
#[verifier::external_body]
#[verifier::reject_recursive_types(H)]
pub struct ExBuildHasherDefault<H>(BuildHasherDefault<H>);

/// Initial number of records the store makes room for.
pub const INITIAL_CAPACITY: usize = 1000;

/// An item as handed to callers: a snapshot of a stored record and its key.
#[derive(Debug)]
pub struct Item {
    pub key: String,
    pub flags: u32,
    pub cas: u64,
    pub expiration: Option<u32>,
    pub data: Vec<u8>,
}

/// A record as stored: an item without its key, which lives in the index.
#[derive(Debug)]
pub struct MemoryItem {
    flags: u32,
    expiration: Option<u32>,
    cas: u64,
    data: Vec<u8>,
}

/// The contents of a stored record.
pub struct StoredRecord {
    pub flags: u32,
    pub expiration: Option<u32>,
    pub cas: u64,
    pub data: Seq<u8>,
}

impl View for MemoryItem {
    type V = StoredRecord;

    closed spec fn view(&self) -> StoredRecord {
        StoredRecord {
            flags: self.flags,
            expiration: self.expiration,
            cas: self.cas,
            data: self.data@,
        }
    }
}

impl MemoryItem {
    /// An independent copy of this record.
    pub fn snapshot(&self) -> (r: MemoryItem)
        ensures
            r@ == self@,
    {
        MemoryItem {
            flags: self.flags,
            expiration: self.expiration,
            cas: self.cas,
            data: slice_to_vec(self.data.as_slice()),
        }
    }

    /// The record of `item`, without its key.
    pub fn from_item(item: Item) -> (m: MemoryItem)
        ensures
            m@ == (StoredRecord {
                flags: item.flags,
                expiration: item.expiration,
                cas: item.cas,
                data: item.data@,
            }),
    {
        MemoryItem {
            flags: item.flags,
            expiration: item.expiration,
            cas: item.cas,
            data: item.data,
        }
    }
}

/// The record store, keyed by identifier.
pub type RecordMap = DashMap<u64, MemoryItem, BuildHasherDefault<NoHashHasher<u64>>>;

/// What the record store holds.
pub uninterp spec fn stored_records(m: DashMap<u64, MemoryItem, BuildHasherDefault<NoHashHasher<u64>>>) -> Map<u64, StoredRecord>;

/// Relies on `DashMap::with_capacity_and_hasher`: a new map holds nothing.
#[verifier::external_body]
fn records_with_capacity(capacity: usize) -> (r: RecordMap)
    ensures
        stored_records(r).dom() =~= Set::empty(),
{
    DashMap::with_capacity_and_hasher(capacity, BuildHasherDefault::default())
}

/// Relies on `DashMap::get`: a copy of the record stored under `id`, if any.
#[verifier::external_body]
fn records_get(m: &RecordMap, id: u64) -> (r: Option<MemoryItem>)
    ensures
        match r {
            Some(item) => stored_records(*m).contains_key(id) && item@ == stored_records(*m)[id],
            None => !stored_records(*m).contains_key(id),
        },
{
    m.get(&id).map(|entry| entry.value().snapshot())
}

/// Relies on `DashMap::get_mut`: the version of the record stored under `id`, if any.
#[verifier::external_body]
fn records_cas(m: &RecordMap, id: u64) -> (r: Option<u64>)
    ensures
        match r {
            Some(cas) => stored_records(*m).contains_key(id) && cas == stored_records(*m)[id].cas,
            None => !stored_records(*m).contains_key(id),
        },
{
    m.get_mut(&id).map(|entry| entry.cas)
}

/// Relies on `DashMap::contains_key`: whether a record is stored under `id`.
#[verifier::external_body]
fn records_contains(m: &RecordMap, id: u64) -> (r: bool)
    ensures
        r == stored_records(*m).contains_key(id),
{
    m.contains_key(&id)
}

/// Relies on `DashMap::insert`: `item` is stored under `id`, replacing any
/// record stored there.
#[verifier::external_body]
fn records_insert(m: &mut RecordMap, id: u64, item: MemoryItem)
    ensures
        stored_records(*final(m)) == stored_records(*old(m)).insert(id, item@),
{
    m.insert(id, item);
}

/// The index as a map: later entries for a key shadow earlier ones.
pub open spec fn index_view(s: Seq<(String, u64)>) -> Map<Seq<char>, u64>
    decreases s.len(),
{
    if s.len() == 0 {
        Map::empty()
    } else {
        index_view(s.drop_last()).insert(s.last().0@, s.last().1)
    }
}

/// No two entries of the index share a key.
pub open spec fn unique_keys(s: Seq<(String, u64)>) -> bool {
    forall|i: int, j: int| 0 <= i < j < s.len() ==> s[i].0@ != s[j].0@
}

proof fn lemma_index_absent(s: Seq<(String, u64)>, k: Seq<char>)
    requires
        forall|j: int| 0 <= j < s.len() ==> s[j].0@ != k,
    ensures
        !index_view(s).contains_key(k),
    decreases s.len(),
{
    if s.len() > 0 {
        lemma_index_absent(s.drop_last(), k);
    }
}

proof fn lemma_index_found(s: Seq<(String, u64)>, i: int)
    requires
        unique_keys(s),
        0 <= i < s.len(),
    ensures
        index_view(s).contains_key(s[i].0@),
        index_view(s)[s[i].0@] == s[i].1,
    decreases s.len(),
{
    if i < s.len() - 1 {
        lemma_index_found(s.drop_last(), i);
    }
}

/// The identifiers of the index's entries, in order.
pub open spec fn index_ids(s: Seq<(String, u64)>) -> Seq<u64> {
    s.map_values(|e: (String, u64)| e.1)
}

/// If every value up to `c` is among `ids`, there are more than `c` of them.
proof fn lemma_pigeonhole(ids: Seq<u64>, c: u64)
    requires
        forall|j: u64| j <= c ==> ids.to_set().contains(j),
    ensures
        c as int + 1 <= ids.len(),
{
    let a = Seq::new((c + 1) as nat, |i: int| i as u64);
    assert(a.no_duplicates());
    a.unique_seq_to_set();
    assert forall|x: u64| a.to_set().contains(x) implies ids.to_set().contains(x) by {
        let i = choose|i: int| 0 <= i < a.len() && a[i] == x;
        assert(x <= c);
    }
    ids.lemma_cardinality_of_set();
    vstd::set_lib::lemma_len_subset(a.to_set(), ids.to_set());
}

/// The smallest identifier that has no stored record; there is one among the
/// first `ids.len() + 1` values since the store holds no more records than that.
fn unused_id(m: &RecordMap, Ghost(ids): Ghost<Seq<u64>>) -> (r: u64)
    requires
        stored_records(*m).dom() == ids.to_set(),
        ids.len() <= u64::MAX,
    ensures
        !stored_records(*m).contains_key(r),
        forall|j: u64| j < r ==> stored_records(*m).contains_key(j),
{
    let mut c: u64 = 0;
    while records_contains(m, c)
        invariant
            stored_records(*m).dom() == ids.to_set(),
            ids.len() <= u64::MAX,
            c as int <= ids.len(),
            forall|j: u64| j < c ==> ids.to_set().contains(j),
        decreases ids.len() - c,
    {
        proof {
            assert forall|j: u64| j <= c implies ids.to_set().contains(j) by {
                if j == c {
                    assert(stored_records(*m).dom().contains(c));
                }
            }
            lemma_pigeonhole(ids, c);
        }
        c += 1;
    }
    c
}

/// The key-value part of the cache: which identifier each key has, and which
/// record each identifier has.
pub struct CacheView {
    pub index: Map<Seq<char>, u64>,
    pub records: Map<u64, StoredRecord>,
    /// The state of the cache's identifier generator.
    pub generator: (u32, u32),
}

impl CacheView {
    /// Every identifier in the index has a stored record, distinct keys have
    /// distinct identifiers, and every stored record belongs to a key.
    pub open spec fn wf(self) -> bool {
        &&& forall|k: Seq<char>| #[trigger] self.index.contains_key(k) ==> self.records.contains_key(self.index[k])
        &&& forall|k1: Seq<char>, k2: Seq<char>|
            #[trigger] self.index.contains_key(k1) && #[trigger] self.index.contains_key(k2) && k1 != k2
                ==> self.index[k1] != self.index[k2]
        &&& forall|id: u64| #[trigger] self.records.contains_key(id) ==> self.owner(id) is Some
    }

    /// A key whose identifier is `id`, if any.
    pub open spec fn owner(self, id: u64) -> Option<Seq<char>> {
        if exists|k: Seq<char>| self.index.contains_key(k) && self.index[k] == id {
            Some(choose|k: Seq<char>| self.index.contains_key(k) && self.index[k] == id)
        } else {
            None
        }
    }

    /// The record that `key` reaches, if it is in the index.
    pub open spec fn lookup(self, key: Seq<char>) -> Option<StoredRecord> {
        if self.index.contains_key(key) {
            Some(self.records[self.index[key]])
        } else {
            None
        }
    }
}

/// The version after one update: one more, wrapping at `u64::MAX`.
pub open spec fn next_cas(cas: u64) -> u64 {
    if cas == u64::MAX {
        0
    } else {
        (cas + 1) as u64
    }
}

/// The identifier a new key gets when the generator has just drawn `drawn`:
/// the drawn identifier if no record stands under it. Should one stand there
/// (the clock went back to a second already used), the drawn identifier would
/// be a reuse, and the key gets the smallest identifier that has no record.
pub open spec fn new_key_id(records: Map<u64, StoredRecord>, drawn: nat, id: u64) -> bool {
    &&& !records.contains_key(id)
    &&& id as nat == drawn || (records.contains_key(drawn as u64) && forall|j: u64|
        j < id ==> records.contains_key(j))
}

/// What `set` does to a cache that goes from `c` to `c2`: a key already in the
/// index keeps its identifier and its record is replaced with one whose
/// version is one more; a new key draws an identifier from the generator and
/// enters the index under the identifier `new_key_id` gives, with a record of
/// version 0. `created` tells the two apart.
pub open spec fn set_effect(
    c: CacheView,
    c2: CacheView,
    key: Seq<char>,
    flags: u32,
    expiration: Option<u32>,
    data: Seq<u8>,
    created: bool,
) -> bool {
    if c.index.contains_key(key) {
        let id = c.index[key];
        &&& !created
        &&& c2.index == c.index
        &&& c2.generator == c.generator
        &&& c2.records == c.records.insert(
            id,
            StoredRecord { flags, expiration, cas: next_cas(c.records[id].cas), data },
        )
    } else {
        &&& created
        &&& exists|now: u32|
            #[trigger] step(c.generator, now).0 == c2.generator && exists|id: u64|
                new_key_id(c.records, step(c.generator, now).1, id) && c2.index == c.index.insert(key, id)
                    && #[trigger] c2.records == c.records.insert(
                    id,
                    StoredRecord { flags, expiration, cas: 0, data },
                )
    }
}

/// After `set` on a key, looking the key up gives the record just stored:
/// version 0 if the key was new, else one more than the version it had, and
/// an existing key keeps its identifier.
pub proof fn lemma_set_then_get(
    c: CacheView,
    c2: CacheView,
    key: Seq<char>,
    flags: u32,
    expiration: Option<u32>,
    data: Seq<u8>,
    created: bool,
)
    requires
        c.wf(),
        set_effect(c, c2, key, flags, expiration, data, created),
    ensures
        c2.wf(),
        created == (c.lookup(key) is None),
        c2.lookup(key) == Some(
            StoredRecord {
                flags,
                expiration,
                cas: if created {
                    0
                } else {
                    next_cas(c.lookup(key).unwrap().cas)
                },
                data,
            },
        ),
        !created ==> c2.index[key] == c.index[key],
        !created && c.lookup(key).unwrap().cas < u64::MAX ==> c2.lookup(key).unwrap().cas
            == c.lookup(key).unwrap().cas + 1,
        created ==> forall|k: Seq<char>| #[trigger] c.index.contains_key(k) ==> c.index[k] != c2.index[key],
        forall|k: Seq<char>| k != key ==> #[trigger] c2.lookup(k) == c.lookup(k),
{
    if !created {
        let id = c.index[key];
        assert forall|k: Seq<char>| #[trigger] c2.index.contains_key(k) implies c2.records.contains_key(c2.index[k]) by {
            assert(c.index.contains_key(k));
        }
        assert forall|x: u64| #[trigger] c2.records.contains_key(x) implies c2.owner(x) is Some by {
            if x == id {
                assert(c2.index.contains_key(key) && c2.index[key] == x);
            } else {
                assert(c.records.contains_key(x));
                let k = choose|k: Seq<char>| c.index.contains_key(k) && c.index[k] == x;
                assert(c2.index.contains_key(k) && c2.index[k] == x);
            }
        }
        assert forall|k: Seq<char>| k != key implies #[trigger] c2.lookup(k) == c.lookup(k) by {
            if c.index.contains_key(k) {
                assert(c.index.contains_key(key));
                assert(c.index[k] != id);
            }
        }
    } else {
        let now = choose|now: u32|
            #[trigger] step(c.generator, now).0 == c2.generator && exists|id: u64|
                new_key_id(c.records, step(c.generator, now).1, id) && c2.index == c.index.insert(key, id)
                    && #[trigger] c2.records == c.records.insert(
                    id,
                    StoredRecord { flags, expiration, cas: 0, data },
                );
        let id = choose|id: u64|
            new_key_id(c.records, step(c.generator, now).1, id) && c2.index == c.index.insert(key, id)
                && #[trigger] c2.records == c.records.insert(
                id,
                StoredRecord { flags, expiration, cas: 0, data },
            );
        assert forall|k: Seq<char>| #[trigger] c2.index.contains_key(k) implies c2.records.contains_key(c2.index[k]) by {
            if k != key {
                assert(c.index.contains_key(k));
            }
        }
        assert forall|k1: Seq<char>, k2: Seq<char>|
            #[trigger] c2.index.contains_key(k1) && #[trigger] c2.index.contains_key(k2) && k1 != k2
                implies c2.index[k1] != c2.index[k2] by {
            if k1 == key {
                assert(c.index.contains_key(k2));
                assert(c.records.contains_key(c.index[k2]));
            } else if k2 == key {
                assert(c.index.contains_key(k1));
                assert(c.records.contains_key(c.index[k1]));
            } else {
                assert(c.index.contains_key(k1) && c.index.contains_key(k2));
            }
        }
        assert forall|x: u64| #[trigger] c2.records.contains_key(x) implies c2.owner(x) is Some by {
            if x == id {
                assert(c2.index.contains_key(key) && c2.index[key] == x);
            } else {
                assert(c.records.contains_key(x));
                let k = choose|k: Seq<char>| c.index.contains_key(k) && c.index[k] == x;
                assert(k != key);
                assert(c2.index.contains_key(k) && c2.index[k] == x);
            }
        }
        assert forall|k: Seq<char>| k != key implies #[trigger] c2.lookup(k) == c.lookup(k) by {
            if c.index.contains_key(k) {
                assert(c.records.contains_key(c.index[k]));
            }
        }
    }
}

/// Two successive `set`s of a key that was absent: the first creates it and a
/// read then gives version 0; the second updates it and a read then gives
/// version 1, through the same identifier.
pub proof fn lemma_update_bumps_cas(
    c0: CacheView,
    c1: CacheView,
    c2: CacheView,
    key: Seq<char>,
    flags1: u32,
    expiration1: Option<u32>,
    data1: Seq<u8>,
    created1: bool,
    flags2: u32,
    expiration2: Option<u32>,
    data2: Seq<u8>,
    created2: bool,
)
    requires
        c0.wf(),
        c0.lookup(key) is None,
        set_effect(c0, c1, key, flags1, expiration1, data1, created1),
        set_effect(c1, c2, key, flags2, expiration2, data2, created2),
    ensures
        created1,
        !created2,
        c1.lookup(key) matches Some(r1) && r1.cas == 0,
        c2.lookup(key) matches Some(r2) && r2.cas == 1,
        c2.index[key] == c1.index[key],
{
    lemma_set_then_get(c0, c1, key, flags1, expiration1, data1, created1);
    lemma_set_then_get(c1, c2, key, flags2, expiration2, data2, created2);
}

/// `item` is the record `rec` handed out under `key`.
pub open spec fn item_of(item: Item, key: Seq<char>, rec: StoredRecord) -> bool {
    &&& item.key@ == key
    &&& item.flags == rec.flags
    &&& item.cas == rec.cas
    &&& item.expiration == rec.expiration
    &&& item.data@ == rec.data
}

/// The cache: an index from key to identifier and a record store keyed by
/// identifier, with the generator of identifiers. The index is a list of
/// entries whose keys are unique; an update of an existing key touches the
/// record store only.
#[derive(Debug)]
pub struct Cache {
    id: Generator,
    index: Vec<(String, u64)>,
    cache: RecordMap,
}

impl View for Cache {
    type V = CacheView;

    closed spec fn view(&self) -> CacheView {
        CacheView { index: index_view(self.index@), records: stored_records(self.cache), generator: self.id@ }
    }
}

/// Looks `key` up in the index.
fn find_key(index: &Vec<(String, u64)>, key: &String) -> (r: Option<u64>)
    requires
        unique_keys(index@),
    ensures
        match r {
            Some(id) => index_view(index@).contains_key(key@) && index_view(index@)[key@] == id,
            None => {
                &&& !index_view(index@).contains_key(key@)
                &&& forall|j: int| 0 <= j < index@.len() ==> index@[j].0@ != key@
            },
        },
        index@.len() <= usize::MAX,
{
    let n = index.len();
    let mut i: usize = 0;
    while i < n
        invariant
            i <= index@.len(),
            n == index@.len(),
            unique_keys(index@),
            forall|j: int| 0 <= j < i ==> index@[j].0@ != key@,
        decreases index@.len() - i,
    {
        if index[i].0 == *key {
            proof {
                lemma_index_found(index@, i as int);
            }
            return Some(index[i].1);
        }
        i += 1;
    }
    proof {
        lemma_index_absent(index@, key@);
    }
    None
}

impl Cache {
    /// Well-formed: keys and identifiers are unique in the index, the record
    /// store holds a record for exactly the index's identifiers, and the view
    /// is well-formed.
    pub closed spec fn wf(&self) -> bool {
        &&& unique_keys(self.index@)
        &&& index_ids(self.index@).no_duplicates()
        &&& stored_records(self.cache).dom() == index_ids(self.index@).to_set()
        &&& self@.wf()
    }

    /// A well-formed cache has a well-formed view.
    pub proof fn lemma_view_wf(&self)
        requires
            self.wf(),
        ensures
            self@.wf(),
    {
    }

    /// An empty cache.
    pub fn new() -> (c: Cache)
        ensures
            c.wf(),
            c@.wf(),
            c@.index == Map::<Seq<char>, u64>::empty(),
            c@.records == Map::<u64, StoredRecord>::empty(),
    {
        let c = Cache {
            id: Generator::new(),
            index: Vec::new(),
            cache: records_with_capacity(INITIAL_CAPACITY),
        };
        assert(c@.index =~= Map::<Seq<char>, u64>::empty());
        assert(c@.records =~= Map::<u64, StoredRecord>::empty());
        assert(index_ids(c.index@).to_set() =~= Set::<u64>::empty());
        c
    }

    /// A snapshot of the item stored under `key`, if any.
    pub fn get(&self, key: &String) -> (r: Option<Item>)
        requires
            self.wf(),
        ensures
            match self@.lookup(key@) {
                Some(rec) => r matches Some(item) && item_of(item, key@, rec),
                None => r is None,
            },
    {
        match find_key(&self.index, key) {
            Some(id) => {
                match records_get(&self.cache, id) {
                    Some(item) => Some(
                        Item {
                            key: key.clone(),
                            flags: item.flags,
                            cas: item.cas,
                            expiration: item.expiration,
                            data: item.data,
                        },
                    ),
                    None => {
                        proof {
                            assert(self@.index.contains_key(key@));
                        }
                        None
                    },
                }
            },
            None => None,
        }
    }

    /// Stores `data` under `key`; returns whether the key was new. A new key
    /// takes the generator's next identifier, or, should a record already
    /// stand under it, the smallest identifier without one.
    pub fn set(&mut self, key: String, flags: u32, expiration: Option<u32>, data: Vec<u8>) -> (created: bool)
        requires
            old(self).wf(),
        ensures
            final(self).wf(),
            final(self)@.wf(),
            set_effect(old(self)@, final(self)@, key@, flags, expiration, data@, created),
            forall|k: Seq<char>| k != key@ ==> #[trigger] final(self)@.lookup(k) == old(self)@.lookup(k),
            created ==> forall|k: Seq<char>|
                #[trigger] old(self)@.index.contains_key(k) ==> old(self)@.index[k] != final(self)@.index[key@],
    {
        let ghost key_view = key@;
        let ghost data_view = data@;
        let ghost ids = index_ids(self.index@);
        match find_key(&self.index, &key) {
            Some(id) => {
                let cas = match records_cas(&self.cache, id) {
                    Some(cas) => cas,
                    None => {
                        proof {
                            assert(self@.index.contains_key(key@));
                        }
                        0
                    },
                };
                let mi = MemoryItem { flags, expiration, cas: cas.wrapping_add(1), data };
                assert(mi@ == StoredRecord { flags, expiration, cas: next_cas(cas), data: data_view });
                records_insert(&mut self.cache, id, mi);
                proof {
                    assert(stored_records(self.cache).dom() =~= ids.to_set());
                    lemma_set_then_get(old(self)@, self@, key_view, flags, expiration, data_view, false);
                }
                false
            },
            None => {
                let ghost g0 = self.id@;
                let drawn = self.id.gen();
                let ghost now = choose|now: u32| (self.id@, drawn as nat) == step(g0, now);
                let mut new_id = drawn;
                if records_contains(&self.cache, drawn) {
                    new_id = unused_id(&self.cache, Ghost(ids));
                }
                assert(new_key_id(old(self)@.records, step(old(self)@.generator, now).1, new_id));
                let mi = MemoryItem { flags, expiration, cas: 0, data };
                records_insert(&mut self.cache, new_id, mi);
                let ghost before = self.index@;
                self.index.push((key, new_id));
                proof {
                    assert(self.index@.drop_last() =~= before);
                    assert(self@.index == old(self)@.index.insert(key_view, new_id));
                    assert(self@.records == old(self)@.records.insert(
                        new_id,
                        StoredRecord { flags, expiration, cas: 0, data: data_view },
                    ));
                    assert forall|i: int, j: int| 0 <= i < j < self.index@.len() implies self.index@[i].0@ != self.index@[j].0@ by {
                        if j == self.index@.len() - 1 {
                            assert(before[i].0@ != key_view);
                        } else {
                            assert(before[i].0@ != before[j].0@);
                        }
                    }
                    let ids2 = index_ids(self.index@);
                    assert(ids2 =~= ids.push(new_id));
                    assert(!ids.to_set().contains(new_id));
                    assert forall|i: int, j: int| 0 <= i < ids2.len() && 0 <= j < ids2.len() && i != j implies ids2[i] != ids2[j] by {
                        if i == ids.len() {
                            assert(ids.to_set().contains(ids[j]));
                        } else if j == ids.len() {
                            assert(ids.to_set().contains(ids[i]));
                        }
                    }
                    assert forall|x: u64| ids2.to_set().contains(x) <==> stored_records(self.cache).dom().contains(x) by {
                        if x == new_id {
                            assert(ids2[ids.len() as int] == x);
                        } else if ids.to_set().contains(x) {
                            let i = choose|i: int| 0 <= i < ids.len() && ids[i] == x;
                            assert(ids2[i] == x);
                        } else if ids2.to_set().contains(x) {
                            let i = choose|i: int| 0 <= i < ids2.len() && ids2[i] == x;
                            assert(ids[i] == x);
                        }
                    }
                    assert(stored_records(self.cache).dom() =~= ids2.to_set());
                    assert(step(old(self)@.generator, now).0 == self@.generator);
                    assert(set_effect(old(self)@, self@, key_view, flags, expiration, data_view, true));
                    lemma_set_then_get(old(self)@, self@, key_view, flags, expiration, data_view, true);
                }
                true
            },
        }
    }
}

} // verus!
