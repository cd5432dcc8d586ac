//! The cache-aside read path: derive the key, probe the cache, on a miss
//! query the authoritative store, populate the cache with an expiry, and
//! tag the response with its provenance. All cache-path failures degrade
//! to "behave as if the cache were empty"; only pool exhaustion and
//! primary-store faults are surfaced.

use vstd::prelude::*;

use crate::cache::{
    lemma_read_after_write, lookup, read_value, store_write, CacheEntryModel, KeyValueStore,
};
use crate::codec::{
    decode_page, decode_spec, encode_page, encode_spec, lemma_codec_round_trip,
    lemma_encode_nonempty,
};
use crate::errors::RequestError;
use crate::item::{item_bounded, items_bounded, CollectionPage, Item, ItemModel, Source};
use crate::keys::{cache_key, key_view};
use crate::pool::Pool;
use crate::primary::{page_slice, PrimaryStore};

verus! {

/// Items per collection page, fixed process-wide.
pub const PAGE_SIZE: u64 = 10;

/// Seconds a populated cache entry stays readable.
pub const CACHE_TTL_SECS: u64 = 300;

/// The largest page number whose row offset still fits in a machine word.
pub const MAX_PAGE_NUMBER: u64 = u64::MAX / PAGE_SIZE;

/// Page numbers start at 1; larger ones cannot address a row offset.
pub open spec fn page_in_range(page: u64) -> bool {
    1 <= page <= MAX_PAGE_NUMBER
}

/// The row offset a page starts at.
pub open spec fn page_offset(page: u64) -> u64
    recommends
        page_in_range(page),
{
    ((page - 1) * PAGE_SIZE) as u64
}

/// The instant a cache entry written at `now` expires.
pub open spec fn expiry_of(now: u64) -> u64 {
    if now <= u64::MAX - CACHE_TTL_SECS {
        (now + CACHE_TTL_SECS) as u64
    } else {
        u64::MAX
    }
}

/// What one read did, stated over the models.
pub enum ReadOutcome {
    /// The page number was rejected before anything was touched.
    Invalid,
    /// A pool had every connection out; nothing was read or written.
    Exhausted,
    /// The authoritative store failed; its message, untransformed.
    StoreFault(Seq<char>),
    /// A page was served, with its provenance.
    Served(Seq<ItemModel>, Source),
}

/// A read's outcome together with the cache it left behind.
pub struct ReadStep {
    pub outcome: ReadOutcome,
    pub cache: Seq<CacheEntryModel>,
}

/// The read path, as a function of the models: what `get_page` returns
/// and how it changes the cache, given the cache and store contents, the
/// instant of the call, and whether each pool has a free connection.
pub open spec fn read_model(
    cache: Seq<CacheEntryModel>,
    rows: Seq<ItemModel>,
    fault: Option<Seq<char>>,
    kind: Seq<char>,
    page: u64,
    now: u64,
    kv_free: bool,
    db_free: bool,
) -> ReadStep {
    if !page_in_range(page) {
        ReadStep { outcome: ReadOutcome::Invalid, cache }
    } else if !kv_free {
        ReadStep { outcome: ReadOutcome::Exhausted, cache }
    } else {
        let key = key_view(kind, page);
        let hit = match read_value(cache, key, now) {
            Some(v) => if v.len() > 0 {
                decode_spec(v)
            } else {
                Option::None
            },
            Option::None => Option::None,
        };
        match hit {
            Some(items) => ReadStep { outcome: ReadOutcome::Served(items, Source::Cache), cache },
            Option::None => if !db_free {
                ReadStep { outcome: ReadOutcome::Exhausted, cache }
            } else {
                match fault {
                    Some(m) => ReadStep { outcome: ReadOutcome::StoreFault(m), cache },
                    Option::None => {
                        let items = page_slice(rows, PAGE_SIZE, page_offset(page));
                        ReadStep {
                            outcome: ReadOutcome::Served(items, Source::Primary),
                            cache: store_write(cache, key, encode_spec(items), expiry_of(now)),
                        }
                    },
                }
            },
        }
    }
}

/// Whether an executable result says what the model outcome says.
pub open spec fn outcome_matches(r: Result<CollectionPage, RequestError>, o: ReadOutcome) -> bool {
    match r {
        Ok(p) => o matches ReadOutcome::Served(items, src) && p.items.deep_view() == items
            && p.source == src,
        Err(RequestError::InvalidPage) => o is Invalid,
        Err(RequestError::PoolExhausted) => o is Exhausted,
        Err(RequestError::PrimaryStore(m)) => o matches ReadOutcome::StoreFault(mm) && m@ == mm,
    }
}

/// Serves one page request cache-aside: probe the cache under the
/// derived key; on a readable, non-empty, well-formed value answer from
/// the cache; otherwise query the authoritative store, write the encoded
/// result back with the fixed expiry, and answer from the primary. Each
/// pool is consulted for at most one connection, returned before the
/// call ends; at most one store read and one cache write happen.
pub fn get_page(
    kv_pool: &mut Pool,
    db_pool: &mut Pool,
    cache: &mut KeyValueStore,
    store: &PrimaryStore,
    kind: &str,
    page: u64,
    now: u64,
) -> (r: Result<CollectionPage, RequestError>)
    requires
        old(kv_pool).wf(),
        old(db_pool).wf(),
    ensures
        *final(kv_pool) == *old(kv_pool),
        *final(db_pool) == *old(db_pool),
        ({
            let step = read_model(
                old(cache)@,
                store.rows_model(),
                store.fault_model(),
                kind@,
                page,
                now,
                old(kv_pool).has_capacity(),
                old(db_pool).has_capacity(),
            );
            final(cache)@ == step.cache && outcome_matches(r, step.outcome)
        }),
{
    if page == 0 || page > MAX_PAGE_NUMBER {
        return Err(RequestError::InvalidPage);
    }
    let key = cache_key(kind, page);
    let kv_conn = match kv_pool.checkout() {
        Ok(c) => c,
        Err(_) => {
            return Err(RequestError::PoolExhausted);
        },
    };
    let cached = cache.get(&key, now);
    let hit: Option<Vec<Item>> = match &cached {
        Some(text) => if !text.as_str().is_empty() {
            decode_page(text.as_str())
        } else {
            None
        },
        None => None,
    };
    if let Some(items) = hit {
        kv_pool.checkin(kv_conn);
        return Ok(CollectionPage { items, source: Source::Cache });
    }
    let db_conn = match db_pool.checkout() {
        Ok(c) => c,
        Err(_) => {
            kv_pool.checkin(kv_conn);
            return Err(RequestError::PoolExhausted);
        },
    };
    proof {
        vstd::arithmetic::div_mod::lemma_fundamental_div_mod(u64::MAX as int, PAGE_SIZE as int);
        assert((page - 1) * PAGE_SIZE <= (u64::MAX / PAGE_SIZE) * PAGE_SIZE);
    }
    let offset = (page - 1) * PAGE_SIZE;
    let result = match store.fetch_page(PAGE_SIZE, offset) {
        Ok(items) => {
            let text = encode_page(&items);
            let expires_at = if now <= u64::MAX - CACHE_TTL_SECS {
                now + CACHE_TTL_SECS
            } else {
                u64::MAX
            };
            cache.set_with_expiry(&key, &text, expires_at);
            Ok(CollectionPage { items, source: Source::Primary })
        },
        Err(f) => Err(RequestError::PrimaryStore(f.message)),
    };
    db_pool.checkin(db_conn);
    kv_pool.checkin(kv_conn);
    result
}

/// The part of an outcome a caller compares across calls: the served
/// item sequence, if one was served.
pub open spec fn served_items(o: ReadOutcome) -> Option<Seq<ItemModel>> {
    match o {
        ReadOutcome::Served(items, _) => Some(items),
        _ => Option::None,
    }
}

/// Every item of a page cut from bounded rows is bounded.
proof fn lemma_page_slice_bounded(rows: Seq<ItemModel>, limit: u64, offset: u64)
    requires
        items_bounded(rows),
    ensures
        items_bounded(page_slice(rows, limit, offset)),
{
    let cut = page_slice(rows, limit, offset);
    assert forall|k: int| 0 <= k < cut.len() implies item_bounded(#[trigger] cut[k]) by {
        let len = rows.len() as int;
        let start = if offset <= len {
            offset as int
        } else {
            len
        };
        assert(cut[k] == rows[start + k]);
    }
}

/// Population then a timely re-read: if a read at `t1` missed and was
/// served from the primary store, the encoded page is retrievable under
/// its key until the expiry elapses, it decodes to exactly the rows the
/// store served at `t1`, and a re-read before the expiry — whatever the
/// store holds or does by then — answers from the cache with those same
/// items, leaving the cache unchanged.
pub proof fn lemma_population_then_hit(
    cache: Seq<CacheEntryModel>,
    rows: Seq<ItemModel>,
    kind: Seq<char>,
    page: u64,
    t1: u64,
    t2: u64,
    rows2: Seq<ItemModel>,
    fault2: Option<Seq<char>>,
    db2: bool,
)
    requires
        page_in_range(page),
        items_bounded(rows),
        read_model(cache, rows, Option::None, kind, page, t1, true, true).outcome matches
            ReadOutcome::Served(_, Source::Primary),
        t1 <= t2 < expiry_of(t1),
    ensures
        ({
            let step1 = read_model(cache, rows, Option::None, kind, page, t1, true, true);
            let items = page_slice(rows, PAGE_SIZE, page_offset(page));
            let step2 = read_model(step1.cache, rows2, fault2, kind, page, t2, true, db2);
            &&& read_value(step1.cache, key_view(kind, page), t2) == Some(encode_spec(items))
            &&& decode_spec(encode_spec(items)) == Some(items)
            &&& step2.outcome == ReadOutcome::Served(items, Source::Cache)
            &&& step2.cache == step1.cache
        }),
{
    let key = key_view(kind, page);
    let items = page_slice(rows, PAGE_SIZE, page_offset(page));
    let step1 = read_model(cache, rows, Option::None, kind, page, t1, true, true);
    assert(step1.cache == store_write(cache, key, encode_spec(items), expiry_of(t1)));
    lemma_read_after_write(cache, key, encode_spec(items), expiry_of(t1), t2);
    lemma_encode_nonempty(items);
    lemma_page_slice_bounded(rows, PAGE_SIZE, page_offset(page));
    lemma_codec_round_trip(items);
}

/// Expiry: the same populated entry reads as a miss once the expiry
/// instant is reached, even though it is still physically stored; a
/// re-read then goes back to the primary store and, with the rows
/// unchanged, serves the same items tagged as primary.
pub proof fn lemma_entry_expires(
    cache: Seq<CacheEntryModel>,
    rows: Seq<ItemModel>,
    kind: Seq<char>,
    page: u64,
    t1: u64,
    t2: u64,
)
    requires
        page_in_range(page),
        items_bounded(rows),
        read_model(cache, rows, Option::None, kind, page, t1, true, true).outcome matches
            ReadOutcome::Served(_, Source::Primary),
        t2 >= expiry_of(t1),
    ensures
        ({
            let step1 = read_model(cache, rows, Option::None, kind, page, t1, true, true);
            let items = page_slice(rows, PAGE_SIZE, page_offset(page));
            let step2 = read_model(step1.cache, rows, Option::None, kind, page, t2, true, true);
            &&& lookup(step1.cache, key_view(kind, page)) is Some
            &&& read_value(step1.cache, key_view(kind, page), t2) is None
            &&& step2.outcome == ReadOutcome::Served(items, Source::Primary)
        }),
{
    let key = key_view(kind, page);
    let items = page_slice(rows, PAGE_SIZE, page_offset(page));
    assert(read_model(cache, rows, Option::None, kind, page, t1, true, true).cache == store_write(
        cache,
        key,
        encode_spec(items),
        expiry_of(t1),
    ));
    lemma_read_after_write(cache, key, encode_spec(items), expiry_of(t1), t2);
}

/// Every readable, well-formed entry under this pair's key decodes to
/// the page the store would serve for it right now. An empty cache is
/// trivially coherent, and each read preserves coherence for the pair
/// it touched.
pub open spec fn coherent_for(
    cache: Seq<CacheEntryModel>,
    rows: Seq<ItemModel>,
    kind: Seq<char>,
    page: u64,
) -> bool {
    match lookup(cache, key_view(kind, page)) {
        Some(e) => (e.value.len() > 0 && decode_spec(e.value) is Some) ==> decode_spec(e.value)
            == Some(page_slice(rows, PAGE_SIZE, page_offset(page))),
        Option::None => true,
    }
}

/// Idempotence: with no intervening writes to the authoritative store,
/// repeated reads of the same `(kind, page)` — at any two instants, in
/// any cache-hit or cache-miss combination — serve the same item
/// sequence, always the page the store holds, and coherence for the
/// pair survives both reads.
pub proof fn lemma_repeated_reads_agree(
    cache: Seq<CacheEntryModel>,
    rows: Seq<ItemModel>,
    kind: Seq<char>,
    page: u64,
    t1: u64,
    t2: u64,
)
    requires
        page_in_range(page),
        items_bounded(rows),
        coherent_for(cache, rows, kind, page),
    ensures
        ({
            let step1 = read_model(cache, rows, Option::None, kind, page, t1, true, true);
            let step2 = read_model(step1.cache, rows, Option::None, kind, page, t2, true, true);
            let items = page_slice(rows, PAGE_SIZE, page_offset(page));
            &&& served_items(step1.outcome) == Some(items)
            &&& served_items(step2.outcome) == Some(items)
            &&& coherent_for(step1.cache, rows, kind, page)
            &&& coherent_for(step2.cache, rows, kind, page)
        }),
{
    let key = key_view(kind, page);
    let items = page_slice(rows, PAGE_SIZE, page_offset(page));
    lemma_page_slice_bounded(rows, PAGE_SIZE, page_offset(page));
    lemma_codec_round_trip(items);
    lemma_encode_nonempty(items);
    let step1 = read_model(cache, rows, Option::None, kind, page, t1, true, true);
    match read_value(cache, key, t1) {
        Some(v) => {
            if v.len() > 0 && decode_spec(v) is Some {
                assert(lookup(cache, key) matches Some(e) && e.value == v);
                assert(step1.outcome == ReadOutcome::Served(items, Source::Cache));
            } else {
                lemma_read_after_write(cache, key, encode_spec(items), expiry_of(t1), t2);
            }
        },
        Option::None => {
            lemma_read_after_write(cache, key, encode_spec(items), expiry_of(t1), t2);
        },
    }
    assert(served_items(step1.outcome) == Some(items));
    assert(coherent_for(step1.cache, rows, kind, page));
    let step2 = read_model(step1.cache, rows, Option::None, kind, page, t2, true, true);
    match read_value(step1.cache, key, t2) {
        Some(v) => {
            assert(lookup(step1.cache, key) matches Some(e) && e.value == v);
            if v.len() > 0 && decode_spec(v) is Some {
                assert(decode_spec(v) == Some(items));
                assert(step2.outcome == ReadOutcome::Served(items, Source::Cache));
                assert(step2.cache == step1.cache);
            } else {
                lemma_read_after_write(step1.cache, key, encode_spec(items), expiry_of(t2), t2);
                assert(step2.outcome == ReadOutcome::Served(items, Source::Primary));
            }
        },
        Option::None => {
            lemma_read_after_write(step1.cache, key, encode_spec(items), expiry_of(t2), t2);
            assert(step2.outcome == ReadOutcome::Served(items, Source::Primary));
        },
    }
}

/// Independence of pages: whatever a read of one page number does to
/// the cache, every other page number's entry is left exactly as it
/// was — the derived keys of distinct pages never collide.
pub proof fn lemma_read_leaves_other_pages(
    cache: Seq<CacheEntryModel>,
    rows: Seq<ItemModel>,
    fault: Option<Seq<char>>,
    kind: Seq<char>,
    page: u64,
    now: u64,
    kv_free: bool,
    db_free: bool,
    other: u64,
)
    requires
        other != page,
    ensures
        lookup(
            read_model(cache, rows, fault, kind, page, now, kv_free, db_free).cache,
            key_view(kind, other),
        ) == lookup(cache, key_view(kind, other)),
{
    crate::keys::lemma_cache_key_distinct_pages(kind, page, other);
    crate::cache::lemma_write_preserves_others(
        cache,
        key_view(kind, page),
        encode_spec(page_slice(rows, PAGE_SIZE, page_offset(page))),
        expiry_of(now),
        key_view(kind, other),
    );
}

/// A page past the last row is the empty sequence — a success with no
/// items, not an error.
pub proof fn lemma_page_beyond_rows(rows: Seq<ItemModel>, limit: u64, offset: u64)
    requires
        offset >= rows.len(),
    ensures
        page_slice(rows, limit, offset) == Seq::<ItemModel>::empty(),
{
    assert(page_slice(rows, limit, offset) =~= Seq::<ItemModel>::empty());
}

} // verus!