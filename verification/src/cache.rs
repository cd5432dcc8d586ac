//! A model of the key-value cache: string keys mapped to string values,
//! each with an absolute expiry instant. A read at or past the expiry
//! behaves exactly as if the key were absent, whether or not the store
//! has physically purged it; a write with expiry replaces whatever the
//! key held.

use vstd::prelude::*;

verus! {

/// One stored `(key, value, expiry)` triple.
pub struct CacheEntry {
    pub key: String,
    pub value: String,
    pub expires_at: u64,
}

/// The mathematical shape of a [`CacheEntry`].
pub struct CacheEntryModel {
    pub key: Seq<char>,
    pub value: Seq<char>,
    pub expires_at: u64,
}

impl View for CacheEntry {
    type V = CacheEntryModel;

    open spec fn view(&self) -> CacheEntryModel {
        CacheEntryModel { key: self.key@, value: self.value@, expires_at: self.expires_at }
    }
}

impl DeepView for CacheEntry {
    type V = CacheEntryModel;

    open spec fn deep_view(&self) -> CacheEntryModel {
        self.view()
    }
}

/// The first entry stored under `key`, if any. Writes keep keys unique,
/// so the first match is the only one.
pub open spec fn lookup(entries: Seq<CacheEntryModel>, key: Seq<char>) -> Option<CacheEntryModel>
    decreases entries.len(),
{
    if entries.len() == 0 {
        Option::None
    } else if entries[0].key == key {
        Some(entries[0])
    } else {
        lookup(entries.drop_first(), key)
    }
}

/// The entries after a write of `value` under `key` with expiry
/// `expires_at`: the first entry under the key is replaced, or the new
/// entry is appended.
pub open spec fn store_write(
    entries: Seq<CacheEntryModel>,
    key: Seq<char>,
    value: Seq<char>,
    expires_at: u64,
) -> Seq<CacheEntryModel>
    decreases entries.len(),
{
    let fresh = CacheEntryModel { key, value, expires_at };
    if entries.len() == 0 {
        seq![fresh]
    } else if entries[0].key == key {
        seq![fresh] + entries.drop_first()
    } else {
        seq![entries[0]] + store_write(entries.drop_first(), key, value, expires_at)
    }
}

/// What a read of `key` at instant `now` yields: the stored value, if
/// the key is present and its expiry has not yet elapsed.
pub open spec fn read_value(
    entries: Seq<CacheEntryModel>,
    key: Seq<char>,
    now: u64,
) -> Option<Seq<char>> {
    match lookup(entries, key) {
        Some(e) => if now < e.expires_at {
            Some(e.value)
        } else {
            Option::None
        },
        Option::None => Option::None,
    }
}

/// A write is immediately readable under its key, until its expiry.
pub proof fn lemma_read_after_write(
    entries: Seq<CacheEntryModel>,
    key: Seq<char>,
    value: Seq<char>,
    expires_at: u64,
    now: u64,
)
    ensures
        lookup(store_write(entries, key, value, expires_at), key) == Some(
            CacheEntryModel { key, value, expires_at },
        ),
        read_value(store_write(entries, key, value, expires_at), key, now) == (if now < expires_at {
            Some(value)
        } else {
            Option::None::<Seq<char>>
        }),
    decreases entries.len(),
{
    let fresh = CacheEntryModel { key, value, expires_at };
    let written = store_write(entries, key, value, expires_at);
    if entries.len() == 0 {
        assert(written[0] == fresh);
    } else if entries[0].key == key {
        assert(written[0] == fresh);
    } else {
        lemma_read_after_write(entries.drop_first(), key, value, expires_at, now);
        assert(written[0] == entries[0]);
        assert(written.drop_first() =~= store_write(entries.drop_first(), key, value, expires_at));
    }
}

/// A write under one key leaves every other key's entry alone.
pub proof fn lemma_write_preserves_others(
    entries: Seq<CacheEntryModel>,
    key: Seq<char>,
    value: Seq<char>,
    expires_at: u64,
    other: Seq<char>,
)
    requires
        other != key,
    ensures
        lookup(store_write(entries, key, value, expires_at), other) == lookup(entries, other),
    decreases entries.len(),
{
    let fresh = CacheEntryModel { key, value, expires_at };
    let written = store_write(entries, key, value, expires_at);
    if entries.len() == 0 {
        assert(written[0] == fresh);
        assert(lookup(Seq::<CacheEntryModel>::empty(), other) is None);
        assert(written.drop_first() =~= Seq::<CacheEntryModel>::empty());
        assert(lookup(written, other) is None);
    } else if entries[0].key == key {
        assert(written[0] == fresh);
        assert(written.drop_first() =~= entries.drop_first());
        assert(lookup(written, other) == lookup(entries.drop_first(), other));
        assert(lookup(entries, other) == lookup(entries.drop_first(), other));
    } else {
        lemma_write_preserves_others(entries.drop_first(), key, value, expires_at, other);
        assert(written[0] == entries[0]);
        assert(written.drop_first() =~= store_write(entries.drop_first(), key, value, expires_at));
        if entries[0].key == other {
            assert(lookup(written, other) == Some(entries[0]));
        } else {
            assert(lookup(written, other) == lookup(entries.drop_first(), other));
        }
    }
}

proof fn lemma_lookup_found(entries: Seq<CacheEntryModel>, key: Seq<char>, i: int)
    requires
        0 <= i < entries.len(),
        entries[i].key == key,
        forall|j: int| 0 <= j < i ==> (#[trigger] entries[j]).key != key,
    ensures
        lookup(entries, key) == Some(entries[i]),
    decreases entries.len(),
{
    if i > 0 {
        let rest = entries.drop_first();
        assert(forall|j: int| 0 <= j < i - 1 ==> (#[trigger] rest[j]).key != key);
        lemma_lookup_found(rest, key, i - 1);
    }
}

proof fn lemma_lookup_absent(entries: Seq<CacheEntryModel>, key: Seq<char>)
    requires
        forall|j: int| 0 <= j < entries.len() ==> (#[trigger] entries[j]).key != key,
    ensures
        lookup(entries, key) is None,
    decreases entries.len(),
{
    if entries.len() > 0 {
        let rest = entries.drop_first();
        assert(forall|j: int| 0 <= j < rest.len() ==> (#[trigger] rest[j]).key != key);
        lemma_lookup_absent(rest, key);
    }
}

proof fn lemma_write_at(entries: Seq<CacheEntryModel>, fresh: CacheEntryModel, i: int)
    requires
        0 <= i < entries.len(),
        entries[i].key == fresh.key,
        forall|j: int| 0 <= j < i ==> (#[trigger] entries[j]).key != fresh.key,
    ensures
        store_write(entries, fresh.key, fresh.value, fresh.expires_at) == entries.update(i, fresh),
    decreases entries.len(),
{
    let written = store_write(entries, fresh.key, fresh.value, fresh.expires_at);
    if i == 0 {
        assert(written =~= entries.update(0, fresh));
    } else {
        let rest = entries.drop_first();
        assert(forall|j: int| 0 <= j < i - 1 ==> (#[trigger] rest[j]).key != fresh.key);
        lemma_write_at(rest, fresh, i - 1);
        assert(written =~= entries.update(i, fresh));
    }
}

proof fn lemma_write_append(entries: Seq<CacheEntryModel>, fresh: CacheEntryModel)
    requires
        forall|j: int| 0 <= j < entries.len() ==> (#[trigger] entries[j]).key != fresh.key,
    ensures
        store_write(entries, fresh.key, fresh.value, fresh.expires_at) == entries.push(fresh),
    decreases entries.len(),
{
    let written = store_write(entries, fresh.key, fresh.value, fresh.expires_at);
    if entries.len() == 0 {
        assert(written =~= entries.push(fresh));
    } else {
        let rest = entries.drop_first();
        assert(forall|j: int| 0 <= j < rest.len() ==> (#[trigger] rest[j]).key != fresh.key);
        lemma_write_append(rest, fresh);
        assert(written =~= entries.push(fresh));
    }
}

/// The key-value store itself.
pub struct KeyValueStore {
    pub entries: Vec<CacheEntry>,
}

impl View for KeyValueStore {
    type V = Seq<CacheEntryModel>;

    open spec fn view(&self) -> Seq<CacheEntryModel> {
        self.entries.deep_view()
    }
}

impl KeyValueStore {
    /// An empty store; every read misses.
    pub fn new() -> (store: KeyValueStore)
        ensures
            store@ =~= Seq::<CacheEntryModel>::empty(),
    {
        KeyValueStore { entries: Vec::new() }
    }

    /// Reads `key` at instant `now`; an expired entry reads as absent.
    pub fn get(&self, key: &String, now: u64) -> (r: Option<String>)
        ensures
            match r {
                Some(v) => read_value(self@, key@, now) == Some(v@),
                Option::None => read_value(self@, key@, now) is None,
            },
    {
        let n = self.entries.len();
        let mut i: usize = 0;
        while i < n
            invariant
                i <= n,
                n == self.entries.len(),
                forall|j: int| 0 <= j < i ==> (#[trigger] self@[j]).key != key@,
            decreases n - i,
        {
            if self.entries[i].key == *key {
                proof {
                    lemma_lookup_found(self@, key@, i as int);
                }
                if now < self.entries[i].expires_at {
                    return Some(self.entries[i].value.clone());
                } else {
                    return None;
                }
            }
            i = i + 1;
        }
        proof {
            lemma_lookup_absent(self@, key@);
        }
        None
    }

    /// Writes `value` under `key` with absolute expiry `expires_at`,
    /// replacing whatever the key held.
    pub fn set_with_expiry(&mut self, key: &String, value: &String, expires_at: u64)
        ensures
            final(self)@ == store_write(old(self)@, key@, value@, expires_at),
    {
        let fresh = CacheEntry { key: key.clone(), value: value.clone(), expires_at };
        let n = self.entries.len();
        let mut i: usize = 0;
        while i < n
            invariant
                i <= n,
                n == self.entries.len(),
                *self == *old(self),
                fresh@ == (CacheEntryModel { key: key@, value: value@, expires_at }),
                forall|j: int| 0 <= j < i ==> (#[trigger] self@[j]).key != key@,
            decreases n - i,
        {
            if self.entries[i].key == *key {
                proof {
                    assert(self@[i as int] == self.entries@[i as int]@);
                    assert(self@[i as int].key == key@);
                    assert(fresh@.key == key@);
                    lemma_write_at(self@, fresh@, i as int);
                }
                let ghost pre = self@;
                self.entries[i] = fresh;
                proof {
                    assert(self@ =~= pre.update(i as int, fresh@));
                }
                return ;
            }
            i = i + 1;
        }
        proof {
            lemma_write_append(self@, fresh@);
        }
        let ghost pre = self@;
        self.entries.push(fresh);
        proof {
            assert(self@ =~= pre.push(fresh@));
        }
    }
}

} // verus!
