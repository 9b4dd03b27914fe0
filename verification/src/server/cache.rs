//! In-memory caches of the server.
use crate::models;
use crate::server::store::{KeyPattern, Store};
use crate::text;
use crate::utils;
use lru::LruCache;
use std::sync::Arc;
use vstd::prelude::*;

verus! {

/// The recency-ordered map of the `lru` crate.
#[verifier::external_type_specification]
#[verifier::external_body]
#[verifier::reject_recursive_types(K)]
#[verifier::reject_recursive_types(V)]
#[verifier::reject_recursive_types(S)]
pub struct ExLruCache<K, V, S>(lru::LruCache<K, V, S>);

/// The hasher that the `lru` crate uses unless told otherwise.
#[verifier::external_type_specification]
#[verifier::external_body]
pub struct ExDefaultHasher(lru::DefaultHasher);

/// The entries of a cache, the most recently used one first.
pub uninterp spec fn lru_entries(cache: LruCache<String, Arc<[u8]>>) -> Seq<(Seq<char>, Seq<u8>)>;

/// The number of entries that a cache was made to hold.
pub uninterp spec fn lru_capacity(cache: LruCache<String, Arc<[u8]>>) -> nat;

/// The position of the entry with the given key.
pub open spec fn key_index(entries: Seq<(Seq<char>, Seq<u8>)>, key: Seq<char>) -> Option<int>
    decreases entries.len(),
{
    if entries.len() == 0 {
        None
    } else if entries.last().0 == key {
        Some(entries.len() - 1)
    } else {
        key_index(entries.drop_last(), key)
    }
}

/// The entries with the one for `key`, if any, taken out.
pub open spec fn without_key(
    entries: Seq<(Seq<char>, Seq<u8>)>,
    key: Seq<char>,
) -> Seq<(Seq<char>, Seq<u8>)> {
    match key_index(entries, key) {
        Some(i) => entries.remove(i),
        None => entries,
    }
}

/// What the entry for `key` holds, if there is one.
pub open spec fn value_of(entries: Seq<(Seq<char>, Seq<u8>)>, key: Seq<char>) -> Option<Seq<u8>> {
    match key_index(entries, key) {
        Some(i) => Some(entries[i].1),
        None => None,
    }
}

/// The bytes of an optional shared buffer.
pub open spec fn bytes_of(data: Option<Arc<[u8]>>) -> Option<Seq<u8>> {
    match data {
        Some(d) => Some(d@),
        None => None,
    }
}

/// `LruCache::unbounded` makes an empty cache without a limit of its own.
#[verifier::external_body]
fn lru_unbounded() -> (cache: LruCache<String, Arc<[u8]>>)
    ensures
        lru_entries(cache) == Seq::<(Seq<char>, Seq<u8>)>::empty(),
        lru_capacity(cache) == usize::MAX,
{
    LruCache::unbounded()
}

/// `LruCache::get` returns what is stored under the key and moves that entry to the front; where
/// there is none it changes nothing.
#[verifier::external_body]
fn lru_get(cache: &mut LruCache<String, Arc<[u8]>>, key: &str) -> (r: Option<Arc<[u8]>>)
    ensures
        bytes_of(r) == value_of(lru_entries(*old(cache)), key@),
        lru_entries(*final(cache)) == match key_index(lru_entries(*old(cache)), key@) {
            Some(i) => seq![lru_entries(*old(cache))[i]] + lru_entries(*old(cache)).remove(i),
            None => lru_entries(*old(cache)),
        },
        lru_capacity(*final(cache)) == lru_capacity(*old(cache)),
{
    cache.get(key).cloned()
}

/// `LruCache::put` stores a value under a key, at the front, and returns the value that it
/// replaces. A cache that is not full drops nothing else.
#[verifier::external_body]
fn lru_put(cache: &mut LruCache<String, Arc<[u8]>>, key: String, data: Arc<[u8]>) -> (r: Option<
    Arc<[u8]>,
>)
    requires
        lru_entries(*old(cache)).len() < lru_capacity(*old(cache)),
    ensures
        bytes_of(r) == value_of(lru_entries(*old(cache)), key@),
        lru_entries(*final(cache)) == seq![(key@, data@)] + without_key(
            lru_entries(*old(cache)),
            key@,
        ),
        lru_capacity(*final(cache)) == lru_capacity(*old(cache)),
{
    cache.put(key, data)
}

/// `LruCache::pop_lru` takes out the least recently used entry and returns it.
#[verifier::external_body]
fn lru_pop(cache: &mut LruCache<String, Arc<[u8]>>) -> (r: Option<(String, Arc<[u8]>)>)
    ensures
        match r {
            Some((key, data)) => {
                &&& lru_entries(*old(cache)).len() > 0
                &&& lru_entries(*old(cache)).last() == (key@, data@)
                &&& lru_entries(*final(cache)) == lru_entries(*old(cache)).drop_last()
            },
            None => {
                &&& lru_entries(*old(cache)).len() == 0
                &&& lru_entries(*final(cache)) == lru_entries(*old(cache))
            },
        },
        lru_capacity(*final(cache)) == lru_capacity(*old(cache)),
{
    cache.pop_lru()
}

/// `LruCache::len` is the number of entries.
#[verifier::external_body]
fn lru_len(cache: &LruCache<String, Arc<[u8]>>) -> (n: usize)
    ensures
        n == lru_entries(*cache).len(),
{
    cache.len()
}

/// The number of bytes that the entries hold together.
pub open spec fn total_bytes(entries: Seq<(Seq<char>, Seq<u8>)>) -> int
    decreases entries.len(),
{
    if entries.len() == 0 {
        0
    } else {
        total_bytes(entries.drop_last()) + entries.last().1.len()
    }
}

/// The longest run of the most recently used entries that fits into `max` bytes.
pub open spec fn evicted(entries: Seq<(Seq<char>, Seq<u8>)>, max: int) -> Seq<
    (Seq<char>, Seq<u8>),
>
    decreases entries.len(),
{
    if total_bytes(entries) <= max || entries.len() == 0 {
        entries
    } else {
        evicted(entries.drop_last(), max)
    }
}

/// The entries after an image is stored: it goes to the front, and the least recently used ones
/// go until the rest fits. An image that alone exceeds the limit is not stored.
pub open spec fn stored(
    entries: Seq<(Seq<char>, Seq<u8>)>,
    key: Seq<char>,
    data: Seq<u8>,
    max: int,
) -> Seq<(Seq<char>, Seq<u8>)> {
    if data.len() > max {
        entries
    } else {
        evicted(seq![(key, data)] + without_key(entries, key), max)
    }
}

/// The entries after a lookup: the one found is now the most recently used.
pub open spec fn touched(entries: Seq<(Seq<char>, Seq<u8>)>, key: Seq<char>) -> Seq<
    (Seq<char>, Seq<u8>),
> {
    match key_index(entries, key) {
        Some(i) => seq![entries[i]] + entries.remove(i),
        None => entries,
    }
}

/// No key occurs twice.
pub open spec fn keys_distinct(entries: Seq<(Seq<char>, Seq<u8>)>) -> bool {
    forall|i: int, j: int|
        0 <= i < j < entries.len() ==> (#[trigger] entries[i]).0 != (#[trigger] entries[j]).0
}

proof fn lemma_key_index(entries: Seq<(Seq<char>, Seq<u8>)>, key: Seq<char>)
    ensures
        match key_index(entries, key) {
            Some(i) => 0 <= i < entries.len() && entries[i].0 == key,
            None => forall|j: int| 0 <= j < entries.len() ==> (#[trigger] entries[j]).0 != key,
        },
    decreases entries.len(),
{
    if entries.len() > 0 && entries.last().0 != key {
        lemma_key_index(entries.drop_last(), key);
        assert forall|j: int|
            0 <= j < entries.len() && key_index(entries.drop_last(), key) is None implies (
        #[trigger] entries[j]).0 != key by {
            if j < entries.len() - 1 {
                assert(entries.drop_last()[j] == entries[j]);
            }
        }
    }
}

proof fn lemma_total_nonnegative(entries: Seq<(Seq<char>, Seq<u8>)>)
    ensures
        total_bytes(entries) >= 0,
    decreases entries.len(),
{
    if entries.len() > 0 {
        lemma_total_nonnegative(entries.drop_last());
    }
}

proof fn lemma_total_remove(entries: Seq<(Seq<char>, Seq<u8>)>, i: int)
    requires
        0 <= i < entries.len(),
    ensures
        total_bytes(entries.remove(i)) == total_bytes(entries) - entries[i].1.len(),
    decreases entries.len(),
{
    if i == entries.len() - 1 {
        assert(entries.remove(i) =~= entries.drop_last());
    } else {
        lemma_total_remove(entries.drop_last(), i);
        assert(entries.remove(i).drop_last() =~= entries.drop_last().remove(i));
        assert(entries.remove(i).last() == entries.last());
    }
}

proof fn lemma_total_front(e: (Seq<char>, Seq<u8>), rest: Seq<(Seq<char>, Seq<u8>)>)
    ensures
        total_bytes(seq![e] + rest) == e.1.len() + total_bytes(rest),
    decreases rest.len(),
{
    if rest.len() == 0 {
        assert((seq![e] + rest).drop_last() =~= rest);
        assert((seq![e] + rest).last() == e);
    } else {
        lemma_total_front(e, rest.drop_last());
        assert((seq![e] + rest).drop_last() =~= seq![e] + rest.drop_last());
        assert((seq![e] + rest).last() == rest.last());
    }
}

/// Memory-bounded cache of image bytes. The least recently used images make room for new ones.
pub struct ImageLruCache {
    max_bytes: usize,
    current_bytes: usize,
    cache: LruCache<String, Arc<[u8]>>,
}

impl ImageLruCache {
    /// The cached images, the most recently used one first.
    pub closed spec fn entries(&self) -> Seq<(Seq<char>, Seq<u8>)> {
        lru_entries(self.cache)
    }

    /// The limit on the bytes held.
    pub closed spec fn limit(&self) -> int {
        self.max_bytes as int
    }

    /// The bytes are counted exactly and stay within the limit, and no key occurs twice.
    pub closed spec fn wf(&self) -> bool {
        &&& self.current_bytes == total_bytes(self.entries())
        &&& self.current_bytes <= self.max_bytes
        &&& keys_distinct(self.entries())
        &&& lru_capacity(self.cache) == usize::MAX
    }

    /// An empty cache bounded to `max_bytes`.
    pub fn new(max_bytes: usize) -> (cache: Self)
        ensures
            cache.wf(),
            cache.limit() == max_bytes,
            cache.entries() == Seq::<(Seq<char>, Seq<u8>)>::empty(),
    {
        ImageLruCache { max_bytes, current_bytes: 0, cache: lru_unbounded() }
    }

    /// The cached image under `key`, which becomes the most recently used one.
    pub fn get(&mut self, key: &str) -> (r: Option<Arc<[u8]>>)
        requires
            old(self).wf(),
        ensures
            final(self).wf(),
            final(self).limit() == old(self).limit(),
            bytes_of(r) == value_of(old(self).entries(), key@),
            final(self).entries() == touched(old(self).entries(), key@),
    {
        let ghost before = self.entries();
        proof {
            lemma_key_index(before, key@);
            if let Some(i) = key_index(before, key@) {
                lemma_total_remove(before, i);
                lemma_total_front(before[i], before.remove(i));
            }
        }
        lru_get(&mut self.cache, key)
    }

    /// Whether one more image can be stored.
    pub fn has_room(&self) -> (b: bool)
        ensures
            b == (self.entries().len() < usize::MAX),
    {
        lru_len(&self.cache) < usize::MAX
    }

    /// Stores an image, and drops the least recently used ones where the limit asks for it.
    pub fn insert(&mut self, key: String, data: Arc<[u8]>)
        requires
            old(self).wf(),
            old(self).entries().len() < usize::MAX,
        ensures
            final(self).wf(),
            final(self).limit() == old(self).limit(),
            final(self).entries() == stored(
                old(self).entries(),
                key@,
                data@,
                old(self).limit(),
            ),
    {
        let size: usize = data.len();
        if size > self.max_bytes {
            return;
        }
        let ghost before = self.entries();
        let ghost first = (key@, data@);
        let ghost mut rest = without_key(before, key@);
        proof {
            lemma_key_index(before, key@);
            if let Some(i) = key_index(before, key@) {
                lemma_total_remove(before, i);
            }
            lemma_total_nonnegative(rest);
            assert(keys_distinct(seq![first] + rest));
        }
        if let Some(old) = lru_put(&mut self.cache, key, data) {
            self.current_bytes = self.current_bytes - old.len();
        }
        let room: usize = self.max_bytes - size;
        while self.current_bytes > room
            invariant
                lru_entries(self.cache) == seq![first] + rest,
                lru_capacity(self.cache) == usize::MAX,
                keys_distinct(seq![first] + rest),
                self.current_bytes == total_bytes(rest),
                self.max_bytes == old(self).max_bytes,
                size == first.1.len(),
                size <= self.max_bytes,
                room == self.max_bytes - size,
                evicted(seq![first] + rest, self.max_bytes as int) == stored(
                    old(self).entries(),
                    first.0,
                    first.1,
                    self.max_bytes as int,
                ),
            ensures
                self.current_bytes <= room,
            decreases rest.len(),
        {
            proof {
                lemma_total_front(first, rest);
                assert(rest.len() > 0);
                assert((seq![first] + rest).drop_last() =~= seq![first] + rest.drop_last());
                lemma_total_nonnegative(rest.drop_last());
            }
            match lru_pop(&mut self.cache) {
                Some((_k, old)) => {
                    assert((seq![first] + rest).last() == rest.last());
                    self.current_bytes = self.current_bytes - old.len();
                    proof {
                        rest = rest.drop_last();
                    }
                },
                None => {
                    break;
                },
            }
        }
        proof {
            lemma_total_front(first, rest);
        }
        self.current_bytes = self.current_bytes + size;
    }
}

// ---------------------------------------------------------------------------------------------
// Laws
// ---------------------------------------------------------------------------------------------

proof fn lemma_key_index_unique(entries: Seq<(Seq<char>, Seq<u8>)>, i: int)
    requires
        keys_distinct(entries),
        0 <= i < entries.len(),
    ensures
        key_index(entries, entries[i].0) == Some(i),
{
    lemma_key_index(entries, entries[i].0);
}

proof fn lemma_evicted_prefix(entries: Seq<(Seq<char>, Seq<u8>)>, max: int)
    requires
        max >= 0,
    ensures
        evicted(entries, max).is_prefix_of(entries),
        total_bytes(evicted(entries, max)) <= max,
        evicted(entries, max).len() < entries.len() ==> total_bytes(
            entries.take(evicted(entries, max).len() + 1int),
        ) > max,
        entries.len() > 0 && entries[0].1.len() <= max ==> evicted(entries, max).len() > 0,
    decreases entries.len(),
{
    if total_bytes(entries) <= max || entries.len() == 0 {
        assert(entries.take(entries.len() as int) =~= entries);
    } else {
        let shorter = entries.drop_last();
        lemma_evicted_prefix(shorter, max);
        let kept = evicted(shorter, max).len() as int;
        assert(entries.take(kept) =~= shorter.take(kept));
        if kept == shorter.len() {
            assert(entries.take(kept + 1) =~= entries);
        } else {
            assert(entries.take(kept + 1) =~= shorter.take(kept + 1));
        }
        if entries.len() == 1 {
            assert(shorter =~= Seq::empty());
        }
    }
}

/// Storing an image never takes the cache over its limit.
pub proof fn law_limit_is_kept(
    entries: Seq<(Seq<char>, Seq<u8>)>,
    key: Seq<char>,
    data: Seq<u8>,
    max: int,
)
    requires
        0 <= total_bytes(entries) <= max,
    ensures
        total_bytes(stored(entries, key, data, max)) <= max,
{
    if data.len() <= max {
        lemma_evicted_prefix(seq![(key, data)] + without_key(entries, key), max);
    }
}

/// What was stored last is found again, unless it alone exceeds the limit; then nothing changes.
pub proof fn law_read_after_write(
    entries: Seq<(Seq<char>, Seq<u8>)>,
    key: Seq<char>,
    data: Seq<u8>,
    max: int,
)
    requires
        keys_distinct(entries),
        max >= 0,
    ensures
        data.len() <= max ==> value_of(stored(entries, key, data, max), key) == Some(data),
        data.len() > max ==> stored(entries, key, data, max) == entries,
{
    if data.len() <= max {
        let all = seq![(key, data)] + without_key(entries, key);
        lemma_key_index(entries, key);
        lemma_evicted_prefix(all, max);
        let kept = stored(entries, key, data, max);
        assert(kept[0] == all[0]);
        assert(keys_distinct(all));
        assert forall|i: int, j: int| 0 <= i < j < kept.len() implies (#[trigger] kept[i]).0 != (
        #[trigger] kept[j]).0 by {
            assert(kept[i] == all[i] && kept[j] == all[j]);
        }
        lemma_key_index_unique(kept, 0);
    }
}

/// Only the least recently used images go: what stays is a run of the most recently used ones,
/// and one more would not fit.
pub proof fn law_least_recent_go_first(
    entries: Seq<(Seq<char>, Seq<u8>)>,
    key: Seq<char>,
    data: Seq<u8>,
    max: int,
)
    requires
        data.len() <= max,
    ensures
        ({
            let all = seq![(key, data)] + without_key(entries, key);
            let kept = stored(entries, key, data, max);
            &&& kept.is_prefix_of(all)
            &&& kept.len() < all.len() ==> total_bytes(all.take(kept.len() + 1int)) > max
        }),
{
    lemma_evicted_prefix(seq![(key, data)] + without_key(entries, key), max);
}

/// A lookup changes which image was used last, not what the cache holds.
pub proof fn law_lookup_keeps_contents(
    entries: Seq<(Seq<char>, Seq<u8>)>,
    key: Seq<char>,
    other: Seq<char>,
)
    requires
        keys_distinct(entries),
    ensures
        value_of(touched(entries, key), other) == value_of(entries, other),
{
    lemma_key_index(entries, key);
    if let Some(k) = key_index(entries, key) {
        let moved = touched(entries, key);
        assert(keys_distinct(moved));
        lemma_key_index(entries, other);
        lemma_key_index(moved, other);
        match key_index(entries, other) {
            Some(i) => {
                let at = if i == k {
                    0
                } else if i < k {
                    i + 1
                } else {
                    i
                };
                assert(moved[at] == entries[i]);
                lemma_key_index_unique(moved, at);
            },
            None => {
                if let Some(j) = key_index(moved, other) {
                    let from = if j == 0 {
                        k
                    } else if j <= k {
                        j - 1
                    } else {
                        j
                    };
                    assert(moved[j] == entries[from]);
                }
            },
        }
    }
}

impl ImageLruCache {
    /// In a cache that is in order no key occurs twice, and what the images hold together stays
    /// within the limit.
    pub proof fn law_order(&self)
        requires
            self.wf(),
        ensures
            keys_distinct(self.entries()),
            0 <= total_bytes(self.entries()) <= self.limit() <= usize::MAX,
    {
        lemma_total_nonnegative(self.entries());
    }
}

/// A call on the image cache.
pub enum CacheCall {
    /// An image is looked up.
    Get { key: Seq<char> },
    /// An image is stored.
    Insert { key: Seq<char>, data: Seq<u8> },
}

/// The entries after a call.
pub open spec fn after_call(
    entries: Seq<(Seq<char>, Seq<u8>)>,
    call: CacheCall,
    max: int,
) -> Seq<(Seq<char>, Seq<u8>)> {
    match call {
        CacheCall::Get { key } => touched(entries, key),
        CacheCall::Insert { key, data } => stored(entries, key, data, max),
    }
}

/// The entries of a cache that was empty, after calls in their order.
pub open spec fn after_calls(calls: Seq<CacheCall>, max: int) -> Seq<(Seq<char>, Seq<u8>)>
    decreases calls.len(),
{
    if calls.len() == 0 {
        Seq::empty()
    } else {
        after_call(after_calls(calls.drop_last(), max), calls.last(), max)
    }
}

proof fn lemma_call_keeps_order(
    entries: Seq<(Seq<char>, Seq<u8>)>,
    call: CacheCall,
    max: int,
)
    requires
        keys_distinct(entries),
        total_bytes(entries) <= max,
        max >= 0,
    ensures
        keys_distinct(after_call(entries, call, max)),
        total_bytes(after_call(entries, call, max)) <= max,
{
    match call {
        CacheCall::Get { key } => {
            lemma_key_index(entries, key);
            if let Some(i) = key_index(entries, key) {
                lemma_total_remove(entries, i);
                lemma_total_front(entries[i], entries.remove(i));
            }
        },
        CacheCall::Insert { key, data } => {
            if data.len() <= max {
                let all = seq![(key, data)] + without_key(entries, key);
                let kept = stored(entries, key, data, max);
                lemma_key_index(entries, key);
                lemma_evicted_prefix(all, max);
                assert(keys_distinct(all));
                assert forall|i: int, j: int| 0 <= i < j < kept.len() implies (
                #[trigger] kept[i]).0 != (#[trigger] kept[j]).0 by {
                    assert(kept[i] == all[i] && kept[j] == all[j]);
                }
            }
        },
    }
}

/// After any lookups and stores no key occurs twice, and what the images hold together is at most
/// the limit.
pub proof fn law_order_after_any_calls(calls: Seq<CacheCall>, max: int)
    requires
        max >= 0,
    ensures
        keys_distinct(after_calls(calls, max)),
        0 <= total_bytes(after_calls(calls, max)) <= max,
    decreases calls.len(),
{
    lemma_total_nonnegative(after_calls(calls, max));
    if calls.len() > 0 {
        law_order_after_any_calls(calls.drop_last(), max);
        lemma_call_keeps_order(after_calls(calls.drop_last(), max), calls.last(), max);
    }
}

/// What a store does after any lookups and stores. An image that alone exceeds the limit changes
/// nothing. Any other becomes the most recently used entry, and what its key held no longer counts.
/// Of the others the most recently used stay as they are, and no more go than the limit asks for.
pub proof fn law_store_after_any_calls(
    calls: Seq<CacheCall>,
    key: Seq<char>,
    data: Seq<u8>,
    max: int,
)
    requires
        max >= 0,
    ensures
        ({
            let before = after_calls(calls, max);
            let after = after_calls(calls.push(CacheCall::Insert { key, data }), max);
            let others = without_key(before, key);
            &&& total_bytes(after) <= max
            &&& data.len() > max ==> after == before
            &&& data.len() <= max ==> {
                &&& after.len() > 0
                &&& after[0] == (key, data)
                &&& value_of(after, key) == Some(data)
                &&& after.skip(1).is_prefix_of(others)
                &&& total_bytes(after) == data.len() + total_bytes(others.take(after.len() - 1))
                &&& after.len() - 1 < others.len() ==> data.len() + total_bytes(
                    others.take(after.len() as int),
                ) > max
            }
        }),
{
    let before = after_calls(calls, max);
    let with = calls.push(CacheCall::Insert { key, data });
    let after = after_calls(with, max);
    let others = without_key(before, key);
    assert(with.drop_last() =~= calls);
    law_order_after_any_calls(calls, max);
    law_order_after_any_calls(with, max);
    if data.len() <= max {
        let all = seq![(key, data)] + others;
        law_read_after_write(before, key, data, max);
        law_least_recent_go_first(before, key, data, max);
        lemma_evicted_prefix(all, max);
        assert(all[0] == (key, data));
        assert(after == all.take(after.len() as int));
        assert(after.skip(1) =~= others.take(after.len() - 1));
        assert(after =~= seq![(key, data)] + others.take(after.len() - 1));
        lemma_total_front((key, data), others.take(after.len() - 1));
        if after.len() - 1 < others.len() {
            assert(all.take(after.len() + 1int) =~= seq![(key, data)] + others.take(
                after.len() as int,
            ));
            lemma_total_front((key, data), others.take(after.len() as int));
        }
    }
}

// ---------------------------------------------------------------------------------------------
// All caches together
// ---------------------------------------------------------------------------------------------

/// Where a manga is kept: its title, and the folder of that title.
#[derive(Debug)]
pub struct MangaDir {
    pub title: String,
    pub folder: String,
}

/// The contents of a [`MangaDir`].
pub struct MangaDirView {
    pub title: Seq<char>,
    pub folder: Seq<char>,
}

impl View for MangaDir {
    type V = MangaDirView;

    open spec fn view(&self) -> MangaDirView {
        MangaDirView { title: self.title@, folder: self.folder@ }
    }
}

/// The contents of an optional place.
pub open spec fn dir_view(d: Option<MangaDir>) -> Option<MangaDirView> {
    match d {
        Some(d) => Some(d@),
        None => None,
    }
}

/// The place of a manga with the given title.
pub open spec fn dir_for(title: Seq<char>) -> MangaDirView {
    MangaDirView { title, folder: utils::folder_of(title) }
}

/// The place of a manga with the given title.
pub fn make_dir(title: &str) -> (d: MangaDir)
    ensures
        d@ == dir_for(title@),
{
    MangaDir { title: text::copy_str(title), folder: utils::get_folder_name(title) }
}

/// The caches that the workers of the server share.
pub struct ServerCache {
    /// Where each manga is kept, by its identifier.
    pub manga_dirs: Store<MangaDir>,
    /// The addresses of the pages of each chapter, by the identifier of the chapter.
    pub chapter_pages: Store<Vec<String>>,
    /// Images that were asked for.
    pub image_cache: ImageLruCache,
}

impl ServerCache {
    /// Whether each cache is in order.
    pub open spec fn wf(&self) -> bool {
        self.manga_dirs.wf() && self.chapter_pages.wf() && self.image_cache.wf()
    }

    /// The place of a manga, where it is known.
    pub open spec fn dir_at(&self, id: Seq<char>) -> Option<MangaDirView> {
        if self.manga_dirs@.contains_key(id) {
            Some(self.manga_dirs@[id]@)
        } else {
            None
        }
    }

    /// The pages of a chapter, where they are known.
    pub open spec fn pages_at(&self, chap_id: Seq<char>) -> Option<Seq<Seq<char>>> {
        if self.chapter_pages@.contains_key(chap_id) {
            Some(text::texts(self.chapter_pages@[chap_id]@))
        } else {
            None
        }
    }

    /// Empty caches, with a limit on the bytes of images.
    pub fn new(max_image_bytes: usize) -> (cache: Self)
        ensures
            cache.wf(),
            forall|id: Seq<char>| #[trigger] cache.dir_at(id) is None,
            forall|id: Seq<char>| #[trigger] cache.pages_at(id) is None,
            cache.image_cache.limit() == max_image_bytes,
            cache.image_cache.entries() == Seq::<(Seq<char>, Seq<u8>)>::empty(),
    {
        ServerCache {
            manga_dirs: Store::new(),
            chapter_pages: Store::new(),
            image_cache: ImageLruCache::new(max_image_bytes),
        }
    }

    /// The place of a manga, where it is known.
    pub fn find_dir(&self, id: &str) -> (d: Option<MangaDir>)
        requires
            self.wf(),
        ensures
            dir_view(d) == self.dir_at(id@),
    {
        match self.manga_dirs.get(id) {
            Some(d) => Some(
                MangaDir {
                    title: text::copy_str(d.title.as_str()),
                    folder: text::copy_str(d.folder.as_str()),
                },
            ),
            None => None,
        }
    }

    /// Remembers under which title a manga is kept.
    pub fn remember_dir(&mut self, id: &str, title: &str)
        requires
            old(self).wf(),
        ensures
            final(self).wf(),
            forall|k: Seq<char>| #[trigger]
                final(self).dir_at(k) == if k == id@ {
                    Some(dir_for(title@))
                } else {
                    old(self).dir_at(k)
                },
            final(self).chapter_pages == old(self).chapter_pages,
            final(self).image_cache == old(self).image_cache,
    {
        self.manga_dirs.insert(id, make_dir(title));
    }

    /// The pages of a chapter, where they are known.
    pub fn find_pages(&self, chap_id: &str) -> (pages: Option<Vec<String>>)
        requires
            self.wf(),
        ensures
            match pages {
                Some(p) => self.pages_at(chap_id@) == Some(text::texts(p@)),
                None => self.pages_at(chap_id@) is None,
            },
    {
        match self.chapter_pages.get(chap_id) {
            Some(p) => Some(models::copy_texts(p)),
            None => None,
        }
    }

    /// Remembers the pages of a chapter.
    pub fn remember_pages(&mut self, chap_id: &str, pages: &Vec<String>)
        requires
            old(self).wf(),
        ensures
            final(self).wf(),
            forall|k: Seq<char>| #[trigger]
                final(self).pages_at(k) == if k == chap_id@ {
                    Some(text::texts(pages@))
                } else {
                    old(self).pages_at(k)
                },
            final(self).manga_dirs == old(self).manga_dirs,
            final(self).image_cache == old(self).image_cache,
    {
        self.chapter_pages.insert(chap_id, models::copy_texts(pages));
    }

    /// Forgets the pages of every chapter of a manga.
    pub fn forget_pages(&mut self, id: &str)
        requires
            old(self).wf(),
        ensures
            final(self).wf(),
            forall|k: Seq<char>| #[trigger]
                final(self).pages_at(k) == if (id@ + "::"@).is_prefix_of(k) {
                    None
                } else {
                    old(self).pages_at(k)
                },
            final(self).manga_dirs == old(self).manga_dirs,
            final(self).image_cache == old(self).image_cache,
    {
        let prefix = text::concat(id, "::");
        let ghost before = self.chapter_pages@;
        self.chapter_pages.remove_matching(&KeyPattern::StartsWith(prefix.as_str()));
        assert forall|k: Seq<char>| #[trigger] self.pages_at(k) == if prefix@.is_prefix_of(k) {
            None
        } else {
            old(self).pages_at(k)
        } by {
            assert(self.chapter_pages@.contains_key(k) <==> before.contains_key(k)
                && !prefix@.is_prefix_of(k));
        }
    }
}

/// Forgetting the pages of a manga reaches every chapter of it, whatever its number.
pub proof fn law_every_chapter_is_forgotten(id: Seq<char>, number: Seq<char>)
    ensures
        (id + "::"@).is_prefix_of(id + "::"@ + number),
{
    let key = id + "::"@ + number;
    assert(key.subrange(0, (id + "::"@).len() as int) =~= id + "::"@);
}

/// A lookup finds what stands under the key, wherever it stands, and nothing else.
pub proof fn law_lookup(entries: Seq<(Seq<char>, Seq<u8>)>, key: Seq<char>, i: int)
    requires
        keys_distinct(entries),
    ensures
        0 <= i < entries.len() && entries[i].0 == key ==> value_of(entries, key) == Some(
            entries[i].1,
        ),
        (forall|j: int| 0 <= j < entries.len() ==> (#[trigger] entries[j]).0 != key) ==> value_of(
            entries,
            key,
        ) is None,
{
    lemma_key_index(entries, key);
    if 0 <= i < entries.len() && entries[i].0 == key {
        lemma_key_index_unique(entries, i);
    }
}

/// Taking an entry out leaves the others in their order; a lookup puts the one it finds in front of
/// them. A key that does not occur changes nothing.
pub proof fn law_one_entry_moves(
    before: Seq<(Seq<char>, Seq<u8>)>,
    one: (Seq<char>, Seq<u8>),
    after: Seq<(Seq<char>, Seq<u8>)>,
    key: Seq<char>,
)
    requires
        keys_distinct(before + seq![one] + after),
    ensures
        without_key(before + seq![one] + after, one.0) == before + after,
        touched(before + seq![one] + after, one.0) == seq![one] + before + after,
        (forall|j: int| 0 <= j < before.len() ==> (#[trigger] before[j]).0 != key) ==> without_key(
            before,
            key,
        ) == before && touched(before, key) == before,
{
    let all = before + seq![one] + after;
    let n = before.len() as int;
    assert(all[n] == one);
    lemma_key_index_unique(all, n);
    assert(all.remove(n) =~= before + after);
    assert(seq![one] + (before + after) =~= seq![one] + before + after);
    lemma_key_index(before, key);
}

/// The bytes of all entries are counted.
pub proof fn law_bytes_are_counted(
    a: Seq<(Seq<char>, Seq<u8>)>,
    b: Seq<(Seq<char>, Seq<u8>)>,
    one: (Seq<char>, Seq<u8>),
)
    ensures
        total_bytes(a + b) == total_bytes(a) + total_bytes(b),
        total_bytes(seq![one]) == one.1.len(),
        total_bytes(Seq::empty()) == 0,
    decreases b.len(),
{
    assert(seq![one].drop_last() =~= Seq::<(Seq<char>, Seq<u8>)>::empty());
    assert(seq![one].last() == one);
    assert(total_bytes(seq![one].drop_last()) == 0);
    if b.len() == 0 {
        assert(a + b =~= a);
    } else {
        law_bytes_are_counted(a, b.drop_last(), one);
        assert((a + b).drop_last() =~= a + b.drop_last());
        assert((a + b).last() == b.last());
    }
}

/// A manga is kept under its title, in the folder of that title.
pub proof fn law_place_of_a_manga(title: Seq<char>, d: MangaDir)
    ensures
        dir_for(title).title == title,
        dir_for(title).folder == utils::folder_of(title),
        d@.title == d.title@ && d@.folder == d.folder@,
        dir_view(Some(d)) == Some(d@),
        dir_view(None) is None,
{
}

/// What the caches know of a manga and of a chapter is what stands under the identifier.
pub proof fn law_known_places(cache: ServerCache, id: Seq<char>)
    ensures
        cache.dir_at(id) is Some <==> cache.manga_dirs@.dom().contains(id),
        cache.dir_at(id) matches Some(d) ==> d == cache.manga_dirs@[id]@,
        cache.pages_at(id) is Some <==> cache.chapter_pages@.dom().contains(id),
        cache.pages_at(id) matches Some(p) ==> p == text::texts(cache.chapter_pages@[id]@),
{
}

} // verus!
