//! The icon cache: a bounded, time- and freshness-aware memoization
//! layer keyed by path string. A record is served only while its
//! time-to-live has not passed and the file's observed `(size, modified)`
//! pair is unchanged; capacity pressure first sweeps expired records,
//! then evicts oldest-first down to half capacity.

use vstd::prelude::*;
use vstd::utf8::encode_utf8;
use crate::encode::base64_encode;
use crate::extract::dir_icon_spec;
use crate::extract::extension_or_empty;
use crate::extract::extract_directory_icon;
use crate::extract::extract_file_icon;
use crate::extract::file_icon_spec;
use crate::placeholder::spec_glyph;
use crate::placeholder::spec_icon_category;
use crate::hash::file_fingerprint;
use crate::hash::get_file_hash;
use crate::model::CacheStats;
use crate::model::CachedIcon;
use crate::model::FileMeta;
use crate::model::IconResult;
use crate::model::PathProbe;
use crate::text::hex_of;

verus! {

/// The abstract contents of a cache: keys paired with their records, in
/// insertion order.
pub open spec fn entries_view(v: Seq<(String, CachedIcon)>) -> Seq<(Seq<char>, CachedIcon)> {
    v.map_values(|p: (String, CachedIcon)| (p.0@, p.1))
}

/// No two records share a key.
pub open spec fn distinct_keys(v: Seq<(Seq<char>, CachedIcon)>) -> bool {
    forall|i: int, j: int| 0 <= i < j < v.len() ==> (#[trigger] v[i]).0 != (#[trigger] v[j]).0
}

/// Some record carries key `k`.
pub open spec fn has_key(v: Seq<(Seq<char>, CachedIcon)>, k: Seq<char>) -> bool {
    exists|i: int| 0 <= i < v.len() && (#[trigger] v[i]).0 == k
}

/// The position of the record carrying key `k`.
pub open spec fn key_index(v: Seq<(Seq<char>, CachedIcon)>, k: Seq<char>) -> int {
    choose|i: int| 0 <= i < v.len() && (#[trigger] v[i]).0 == k
}

/// The record stored under key `k`.
pub open spec fn entry_for(v: Seq<(Seq<char>, CachedIcon)>, k: Seq<char>) -> CachedIcon {
    v[key_index(v, k)].1
}

/// With distinct keys, the record of a present key sits at exactly one
/// position.
pub proof fn lemma_key_position(v: Seq<(Seq<char>, CachedIcon)>, k: Seq<char>)
    requires
        distinct_keys(v),
        has_key(v, k),
    ensures
        0 <= key_index(v, k) < v.len(),
        v[key_index(v, k)].0 == k,
        forall|i: int| 0 <= i < v.len() && (#[trigger] v[i]).0 == k ==> i == key_index(v, k),
{
}

/// The record's age does not exceed the time-to-live. A record stamped
/// in the future counts as expired.
pub open spec fn time_fresh(e: CachedIcon, now: u64, ttl: u64) -> bool {
    e.cached_at <= now && now - e.cached_at <= ttl
}

/// The currently observed metadata, when readable, equals the pair the
/// record was stored with.
pub open spec fn meta_matches(e: CachedIcon, meta: Option<FileMeta>) -> bool {
    match meta {
        Option::Some(m) => m.size == e.file_size && m.modified == e.last_modified,
        Option::None => false,
    }
}

/// A record may be served: within its time-to-live and stored for a file
/// that looks unchanged.
pub open spec fn entry_valid(e: CachedIcon, now: u64, ttl: u64, meta: Option<FileMeta>) -> bool {
    time_fresh(e, now, ttl) && meta_matches(e, meta)
}

/// Freshness invariant: once the file's observed `(size, modified)`
/// pair differs from the one a record was stored with, the record is no
/// longer valid, so a lookup (whose contract serves only valid records)
/// returns nothing and forces re-extraction.
pub proof fn lemma_metadata_change_invalidates(e: CachedIcon, now: u64, ttl: u64, m: FileMeta)
    requires
        m.size != e.file_size || m.modified != e.last_modified,
    ensures
        !entry_valid(e, now, ttl, Option::Some(m)),
{
}

/// Time-to-live invariant: a record stored at its `cached_at` time is
/// invalid at every time past `cached_at + ttl`, file unchanged or not,
/// so a lookup then returns nothing.
pub proof fn lemma_ttl_expiry_invalidates(e: CachedIcon, now: u64, ttl: u64, meta: Option<FileMeta>)
    requires
        now > e.cached_at + ttl,
    ensures
        !entry_valid(e, now, ttl, meta),
{
}

/// The predicate the expiration sweep keeps records by.
pub open spec fn fresh_pred(now: u64, ttl: u64) -> spec_fn((Seq<char>, CachedIcon)) -> bool {
    |p: (Seq<char>, CachedIcon)| time_fresh(p.1, now, ttl)
}

/// The expiration sweep: every record older than the time-to-live is
/// dropped, order otherwise kept.
pub open spec fn sweep_expired(
    v: Seq<(Seq<char>, CachedIcon)>,
    now: u64,
    ttl: u64,
) -> Seq<(Seq<char>, CachedIcon)> {
    v.filter(fresh_pred(now, ttl))
}

/// The position of the oldest record; among equally old records, the
/// earliest-inserted one.
pub open spec fn oldest_index(v: Seq<(Seq<char>, CachedIcon)>) -> int
    decreases v.len(),
{
    if v.len() <= 1 {
        0
    } else {
        let rest = 1 + oldest_index(v.skip(1));
        if v[0].1.cached_at <= v[rest].1.cached_at {
            0
        } else {
            rest
        }
    }
}

/// The oldest position is in range, minimal, and strictly earlier than
/// any equally old later record.
pub proof fn lemma_oldest_index_props(v: Seq<(Seq<char>, CachedIcon)>)
    requires
        v.len() > 0,
    ensures
        0 <= oldest_index(v) < v.len(),
        forall|i: int|
            0 <= i < v.len() ==> v[oldest_index(v)].1.cached_at <= (#[trigger] v[i]).1.cached_at,
        forall|i: int| 0 <= i < oldest_index(v) ==> (#[trigger] v[i]).1.cached_at > v[oldest_index(
            v,
        )].1.cached_at,
    decreases v.len(),
{
    if v.len() > 1 {
        let tail = v.skip(1);
        lemma_oldest_index_props(tail);
        assert(forall|i: int| 0 <= i < tail.len() ==> #[trigger] tail[i] == v[i + 1]);
        let ro = oldest_index(tail);
        let rest = 1 + ro;
        let oi = oldest_index(v);
        if v[0].1.cached_at <= v[rest].1.cached_at {
            assert(oi == 0);
            assert forall|i: int| 0 <= i < v.len() implies v[oi].1.cached_at <= (
            #[trigger] v[i]).1.cached_at by {
                if i >= 1 {
                    assert(tail[ro].1.cached_at <= tail[i - 1].1.cached_at);
                }
            }
        } else {
            assert(oi == rest);
            assert forall|i: int| 0 <= i < v.len() implies v[oi].1.cached_at <= (
            #[trigger] v[i]).1.cached_at by {
                if i >= 1 {
                    assert(tail[ro].1.cached_at <= tail[i - 1].1.cached_at);
                }
            }
            assert forall|i: int| 0 <= i < oi implies (#[trigger] v[i]).1.cached_at
                > v[oi].1.cached_at by {
                if i >= 1 {
                    assert(tail[i - 1].1.cached_at > tail[ro].1.cached_at);
                }
            }
        }
    }
}

/// Minimality plus strictness before the position pin the oldest
/// position down: any position with both properties is it.
pub proof fn lemma_oldest_index_unique(v: Seq<(Seq<char>, CachedIcon)>, j: int)
    requires
        0 <= j < v.len(),
        forall|i: int| 0 <= i < v.len() ==> v[j].1.cached_at <= (#[trigger] v[i]).1.cached_at,
        forall|i: int| 0 <= i < j ==> (#[trigger] v[i]).1.cached_at > v[j].1.cached_at,
    ensures
        j == oldest_index(v),
{
    lemma_oldest_index_props(v);
}

/// Repeatedly removes the oldest record until at most `target` remain.
pub open spec fn evict_oldest(
    v: Seq<(Seq<char>, CachedIcon)>,
    target: nat,
) -> Seq<(Seq<char>, CachedIcon)>
    decreases v.len(),
    via evict_oldest_decreases
{
    if v.len() <= target {
        v
    } else {
        evict_oldest(v.remove(oldest_index(v)), target)
    }
}

#[via_fn]
proof fn evict_oldest_decreases(v: Seq<(Seq<char>, CachedIcon)>, target: nat) {
    if v.len() > target {
        lemma_oldest_index_props(v);
    }
}

/// What a capacity cleanup leaves: expired records swept; if the sweep
/// alone does not get below capacity, the oldest records leave until at
/// most half the capacity remains.
pub open spec fn cleanup_spec(
    v: Seq<(Seq<char>, CachedIcon)>,
    now: u64,
    ttl: u64,
    max: nat,
) -> Seq<(Seq<char>, CachedIcon)> {
    let swept = sweep_expired(v, now, ttl);
    if swept.len() >= max {
        evict_oldest(swept, max / 2)
    } else {
        swept
    }
}

/// Overwrite the record under `k`, or append a record for a new key.
pub open spec fn insert_entry(
    v: Seq<(Seq<char>, CachedIcon)>,
    k: Seq<char>,
    e: CachedIcon,
) -> Seq<(Seq<char>, CachedIcon)> {
    if has_key(v, k) {
        v.update(key_index(v, k), (k, e))
    } else {
        v.push((k, e))
    }
}

/// What a store leaves: a cleanup first when the cache is at or over
/// capacity, then the insert.
pub open spec fn set_spec(
    v: Seq<(Seq<char>, CachedIcon)>,
    k: Seq<char>,
    e: CachedIcon,
    now: u64,
    ttl: u64,
    max: nat,
) -> Seq<(Seq<char>, CachedIcon)> {
    let v1 = if v.len() >= max {
        cleanup_spec(v, now, ttl, max)
    } else {
        v
    };
    insert_entry(v1, k, e)
}

/// The record a store writes: the result's encoded image and format,
/// the result's fingerprint or, failing that, one derived from path and
/// metadata, stamped with the store time and the observed metadata.
pub open spec fn stored_entry_ok(
    e: CachedIcon,
    res: IconResult,
    path: Seq<char>,
    meta: FileMeta,
    now: u64,
) -> bool {
    &&& e.icon_data == res.icon_data
    &&& e.icon_format == res.icon_format
    &&& match res.file_hash {
        Option::Some(h) => e.file_hash == h,
        Option::None => e.file_hash@ == hex_of(
            file_fingerprint(path, meta.size, meta.modified) as nat,
        ),
    }
    &&& e.cached_at == now
    &&& e.file_size == meta.size
    &&& e.last_modified == meta.modified
}

/// Capacity invariant: a well-formed cache holds at most its configured
/// number of records. Construction establishes well-formedness and
/// every store and clear preserves it, so no sequence of stores ever
/// pushes the count reported by the statistics over the capacity.
pub proof fn lemma_capacity_invariant(c: IconCache)
    requires
        c.wf(),
    ensures
        c@.len() <= c.spec_max_entries(),
{
}

/// Eviction correctness: storing into a cache that stands exactly at
/// capacity with every record expired leaves exactly the new record.
pub proof fn lemma_eviction_of_expired(
    v: Seq<(Seq<char>, CachedIcon)>,
    k: Seq<char>,
    e: CachedIcon,
    now: u64,
    ttl: u64,
    max: nat,
)
    requires
        v.len() == max,
        max >= 1,
        forall|i: int| 0 <= i < v.len() ==> !time_fresh((#[trigger] v[i]).1, now, ttl),
    ensures
        set_spec(v, k, e, now, ttl, max) == seq![(k, e)],
{
    let pred = fresh_pred(now, ttl);
    assert(forall|i: int| 0 <= i < v.len() ==> !pred(#[trigger] v[i]));
    v.lemma_all_neg_filter_empty(pred);
    let swept = sweep_expired(v, now, ttl);
    assert(swept =~= Seq::<(Seq<char>, CachedIcon)>::empty());
    assert(!has_key(swept, k));
    assert(set_spec(v, k, e, now, ttl, max) =~= seq![(k, e)]);
}

/// Records were stored at strictly increasing times: position order is
/// age order, earliest first.
pub open spec fn stamps_increasing(v: Seq<(Seq<char>, CachedIcon)>) -> bool {
    forall|i: int, j: int|
        0 <= i < j < v.len() ==> (#[trigger] v[i]).1.cached_at < (#[trigger] v[j]).1.cached_at
}

/// A sweep keeps everything when every record satisfies the predicate.
proof fn lemma_filter_all_pos_identity(
    v: Seq<(Seq<char>, CachedIcon)>,
    pred: spec_fn((Seq<char>, CachedIcon)) -> bool,
)
    requires
        forall|i: int| 0 <= i < v.len() ==> pred(#[trigger] v[i]),
    ensures
        v.filter(pred) == v,
    decreases v.len(),
{
    reveal(Seq::<_>::filter);
    if v.len() > 0 {
        assert(forall|i: int| 0 <= i < v.drop_last().len() ==> pred(#[trigger] v.drop_last()[i]));
        lemma_filter_all_pos_identity(v.drop_last(), pred);
        assert(pred(v.last()));
        assert(v.drop_last().push(v.last()) =~= v);
    }
}

/// In a cache whose store times strictly increase, the oldest record
/// stands first.
proof fn lemma_oldest_of_increasing(v: Seq<(Seq<char>, CachedIcon)>)
    requires
        v.len() > 0,
        stamps_increasing(v),
    ensures
        oldest_index(v) == 0,
{
    assert(forall|i: int|
        0 <= i < v.len() ==> v[0].1.cached_at <= (#[trigger] v[i]).1.cached_at);
    lemma_oldest_index_unique(v, 0);
}

/// Evicting from a cache whose store times strictly increase drops a
/// prefix: the `target` most recent records remain.
proof fn lemma_evict_oldest_increasing(v: Seq<(Seq<char>, CachedIcon)>, target: nat)
    requires
        stamps_increasing(v),
    ensures
        v.len() <= target ==> evict_oldest(v, target) == v,
        v.len() > target ==> evict_oldest(v, target) == v.skip(v.len() - target),
    decreases v.len(),
{
    if v.len() > target {
        lemma_oldest_of_increasing(v);
        assert(v.remove(0) =~= v.skip(1));
        assert(forall|i: int| 0 <= i < v.skip(1).len() ==> #[trigger] v.skip(1)[i] == v[i + 1]);
        assert(stamps_increasing(v.skip(1)));
        lemma_evict_oldest_increasing(v.skip(1), target);
        if v.len() - 1 <= target {
            assert(v.skip(1) =~= v.skip(v.len() - target));
        } else {
            assert(v.skip(1).skip(v.len() - 1 - target) =~= v.skip(v.len() - target));
        }
    }
}

/// Capacity stress, oldest-first: a store into a cache that stands
/// exactly at capacity, all records still fresh and stored at strictly
/// increasing times, keeps only the most recent half-capacity records
/// and appends the new one — the earliest-inserted records are the ones
/// that leave.
pub proof fn lemma_capacity_stress_drops_earliest(
    v: Seq<(Seq<char>, CachedIcon)>,
    k: Seq<char>,
    e: CachedIcon,
    now: u64,
    ttl: u64,
    max: nat,
)
    requires
        v.len() == max,
        max >= 1,
        forall|i: int| 0 <= i < v.len() ==> time_fresh((#[trigger] v[i]).1, now, ttl),
        stamps_increasing(v),
        !has_key(v, k),
    ensures
        set_spec(v, k, e, now, ttl, max) == v.skip((max - max / 2) as int).push((k, e)),
{
    let pred = fresh_pred(now, ttl);
    assert(forall|i: int| 0 <= i < v.len() ==> pred(#[trigger] v[i]));
    lemma_filter_all_pos_identity(v, pred);
    assert(sweep_expired(v, now, ttl) == v);
    lemma_evict_oldest_increasing(v, max / 2);
    let kept = v.skip((max - max / 2) as int);
    assert(cleanup_spec(v, now, ttl, max) == kept);
    assert(!has_key(kept, k)) by {
        if has_key(kept, k) {
            let i = choose|i: int| 0 <= i < kept.len() && (#[trigger] kept[i]).0 == k;
            assert(v[(max - max / 2) + i].0 == k);
        }
    }
}

/// A bounded, freshness-aware map from path strings to cached icons.
/// All clock and filesystem reads are the caller's: lookups and stores
/// take the current time and the currently observed file metadata.
#[derive(Debug)]
pub struct IconCache {
    entries: Vec<(String, CachedIcon)>,
    max_memory_size: usize,
    cache_duration: u64,
}

impl View for IconCache {
    type V = Seq<(Seq<char>, CachedIcon)>;

    closed spec fn view(&self) -> Seq<(Seq<char>, CachedIcon)> {
        entries_view(self.entries@)
    }
}

impl IconCache {
    /// Configured capacity.
    pub closed spec fn spec_max_entries(self) -> nat {
        self.max_memory_size as nat
    }

    /// Configured time-to-live, in seconds.
    pub closed spec fn spec_ttl(self) -> u64 {
        self.cache_duration
    }

    /// Well-formed: keys are distinct and the record count never
    /// exceeds the configured capacity.
    pub open spec fn wf(self) -> bool {
        &&& distinct_keys(self@)
        &&& self.spec_max_entries() >= 1
        &&& self@.len() <= self.spec_max_entries()
    }

    /// An empty cache holding at most `max_memory_size` records, each
    /// served for at most `cache_duration` seconds.
    pub fn new(max_memory_size: usize, cache_duration: u64) -> (r: IconCache)
        requires
            max_memory_size >= 1,
        ensures
            r.wf(),
            r@ == Seq::<(Seq<char>, CachedIcon)>::empty(),
            r.spec_max_entries() == max_memory_size,
            r.spec_ttl() == cache_duration,
    {
        let r = IconCache { entries: Vec::new(), max_memory_size, cache_duration };
        proof {
            assert(r@ =~= Seq::<(Seq<char>, CachedIcon)>::empty());
        }
        r
    }

    /// The position of the record keyed by `key`, if any.
    fn find_entry_index(&self, key: &String) -> (r: Option<usize>)
        ensures
            match r {
                Option::Some(i) => i < self@.len() && self@[i as int].0 == key@,
                Option::None => !has_key(self@, key@),
            },
    {
        let n = self.entries.len();
        let mut i: usize = 0;
        while i < n
            invariant
                n == self.entries@.len(),
                self@.len() == n,
                i <= n,
                forall|j: int| 0 <= j < i ==> (#[trigger] self@[j]).0 != key@,
            decreases n - i,
        {
            if self.entries[i].0 == *key {
                return Some(i);
            }
            i = i + 1;
        }
        None
    }

    /// A record may be served at time `now` for a file whose metadata
    /// currently reads `meta`.
    fn is_cache_valid(&self, cached_icon: &CachedIcon, now: u64, meta: Option<FileMeta>) -> (b:
        bool)
        ensures
            b == entry_valid(*cached_icon, now, self.spec_ttl(), meta),
    {
        if cached_icon.cached_at > now {
            return false;
        }
        if now - cached_icon.cached_at > self.cache_duration {
            return false;
        }
        match meta {
            Option::Some(m) => m.size == cached_icon.file_size && m.modified
                == cached_icon.last_modified,
            Option::None => false,
        }
    }

    /// Serves the record under `file_path`, only if it is still within
    /// its time-to-live at `now` and was stored for metadata equal to
    /// the currently observed `meta`. A stale record is left in place,
    /// not removed.
    pub fn get(&self, file_path: &str, now: u64, meta: Option<FileMeta>) -> (r: Option<IconResult>)
        requires
            self.wf(),
        ensures
            match r {
                Option::Some(res) => {
                    &&& has_key(self@, file_path@)
                    &&& entry_valid(entry_for(self@, file_path@), now, self.spec_ttl(), meta)
                    &&& res.icon_data == entry_for(self@, file_path@).icon_data
                    &&& res.icon_format == entry_for(self@, file_path@).icon_format
                    &&& res.from_cache == true
                    &&& res.file_hash == Option::Some(entry_for(self@, file_path@).file_hash)
                },
                Option::None => !has_key(self@, file_path@) || !entry_valid(
                    entry_for(self@, file_path@),
                    now,
                    self.spec_ttl(),
                    meta,
                ),
            },
    {
        let key = String::from_str(file_path);
        match self.find_entry_index(&key) {
            Option::Some(i) => {
                proof {
                    lemma_key_position(self@, file_path@);
                }
                let cached = &self.entries[i].1;
                if self.is_cache_valid(cached, now, meta) {
                    Some(
                        IconResult {
                            icon_data: cached.icon_data.clone(),
                            icon_format: cached.icon_format.clone(),
                            from_cache: true,
                            file_hash: Some(cached.file_hash.clone()),
                        },
                    )
                } else {
                    None
                }
            },
            Option::None => None,
        }
    }

    /// The position of the oldest record; among equally old records,
    /// the earliest-inserted.
    fn find_oldest_index(&self) -> (r: usize)
        requires
            self@.len() > 0,
        ensures
            r < self@.len(),
            r == oldest_index(self@),
    {
        let n = self.entries.len();
        let mut best: usize = 0;
        let mut i: usize = 1;
        while i < n
            invariant
                n == self.entries@.len(),
                self@.len() == n,
                best < i <= n,
                n > 0,
                forall|j: int|
                    0 <= j < i ==> self@[best as int].1.cached_at <= (
                    #[trigger] self@[j]).1.cached_at,
                forall|j: int|
                    0 <= j < best ==> (#[trigger] self@[j]).1.cached_at > self@[best as int].1.cached_at,
            decreases n - i,
        {
            if self.entries[i].1.cached_at < self.entries[best].1.cached_at {
                best = i;
            }
            i = i + 1;
        }
        proof {
            lemma_oldest_index_unique(self@, best as int);
        }
        best
    }

    /// One cleanup pass, as run just before a store finds the cache at
    /// or over capacity: sweep expired records; if still at or over
    /// capacity, evict oldest-first down to half of it.
    fn cleanup_old_entries(&mut self, now: u64)
        requires
            old(self).wf(),
        ensures
            final(self)@ == cleanup_spec(
                old(self)@,
                now,
                old(self).spec_ttl(),
                old(self).spec_max_entries(),
            ),
            distinct_keys(final(self)@),
            final(self)@.len() < old(self).spec_max_entries(),
            final(self).spec_max_entries() == old(self).spec_max_entries(),
            final(self).spec_ttl() == old(self).spec_ttl(),
    {
        let ghost orig = self@;
        let ghost total = self@.len();
        let ghost pred = fresh_pred(now, self.cache_duration);
        let mut kept: Vec<(String, CachedIcon)> = Vec::new();
        proof {
            reveal(Seq::<_>::filter);
            assert(orig.take(0) =~= Seq::<(Seq<char>, CachedIcon)>::empty());
        }
        while self.entries.len() > 0
            invariant
                self.max_memory_size == old(self).max_memory_size,
                self.cache_duration == old(self).cache_duration,
                pred == fresh_pred(now, self.cache_duration),
                orig == old(self)@,
                total == orig.len(),
                self@.len() <= total,
                orig.skip((total - self@.len()) as int) == self@,
                entries_view(kept@) == sweep_expired(
                    orig.take((total - self@.len()) as int),
                    now,
                    self.cache_duration,
                ),
                distinct_keys(orig),
                distinct_keys(entries_view(kept@)),
                forall|i: int|
                    0 <= i < kept@.len() ==> exists|j: int|
                        0 <= j < (total - self@.len()) && (#[trigger] entries_view(kept@)[i]).0
                            == orig[j].0,
            decreases self@.len(),
        {
            let ghost done = (total - self@.len()) as int;
            let ghost pre_entries = self.entries@;
            let pair = self.entries.remove(0);
            proof {
                reveal(Seq::<_>::filter);
                assert(orig.skip(done)[0] == orig[done]);
                assert((pair.0@, pair.1) == orig[done]);
                pre_entries.remove_ensures(0);
                assert forall|k: int| 0 <= k < self@.len() implies self@[k] == orig.skip(done + 1)[k] by {
                    assert(self.entries@[k] == pre_entries[k + 1]);
                    assert(entries_view(pre_entries)[k + 1] == orig.skip(done)[k + 1]);
                }
                assert(self@ =~= orig.skip(done + 1));
                assert(orig.take(done + 1).drop_last() =~= orig.take(done));
                assert(orig.take(done + 1).last() == orig[done]);
            }
            let keep = pair.1.cached_at <= now && now - pair.1.cached_at <= self.cache_duration;
            if keep {
                proof {
                    assert(pred(orig[done]));
                    // A swept record's key comes from the processed prefix, so
                    // it differs from the key at `done`.
                    assert(forall|i: int|
                        0 <= i < kept@.len() ==> (#[trigger] entries_view(kept@)[i]).0
                            != orig[done].0);
                    assert(entries_view(kept@.push(pair)) =~= entries_view(kept@).push(
                        orig[done],
                    ));
                }
                kept.push(pair);
                proof {
                    assert(entries_view(kept@) =~= sweep_expired(
                        orig.take(done + 1),
                        now,
                        self.cache_duration,
                    ));
                }
            } else {
                proof {
                    assert(!pred(orig[done]));
                    assert(entries_view(kept@) =~= sweep_expired(
                        orig.take(done + 1),
                        now,
                        self.cache_duration,
                    ));
                }
            }
        }
        proof {
            assert(orig.take(total as int) =~= orig);
        }
        self.entries = kept;
        let ghost swept = sweep_expired(orig, now, self.cache_duration);
        if self.entries.len() >= self.max_memory_size {
            let target = self.max_memory_size / 2;
            while self.entries.len() > target
                invariant
                    self.max_memory_size == old(self).max_memory_size,
                    self.cache_duration == old(self).cache_duration,
                    target == old(self).spec_max_entries() / 2,
                    distinct_keys(self@),
                    evict_oldest(self@, target as nat) == evict_oldest(swept, target as nat),
                decreases self@.len(),
            {
                let j = self.find_oldest_index();
                let ghost before = self@;
                let ghost pre_entries = self.entries@;
                proof {
                    lemma_oldest_index_props(before);
                }
                self.entries.remove(j);
                proof {
                    pre_entries.remove_ensures(j as int);
                    before.remove_ensures(j as int);
                    assert forall|k: int| 0 <= k < self@.len() implies self@[k] == before.remove(
                        j as int,
                    )[k] by {
                        if k < j {
                            assert(self.entries@[k] == pre_entries[k]);
                        } else {
                            assert(self.entries@[k] == pre_entries[k + 1]);
                        }
                    }
                    assert(self@ =~= before.remove(j as int));
                    assert(forall|a: int, b: int|
                        0 <= a < b < self@.len() ==> (#[trigger] self@[a]).0 != (
                        #[trigger] self@[b]).0);
                    assert(evict_oldest(before, target as nat) == evict_oldest(
                        before.remove(oldest_index(before)),
                        target as nat,
                    ));
                }
            }
            proof {
                assert(evict_oldest(self@, target as nat) == self@);
            }
        }
    }

    /// Stores the result computed for `file_path`, stamped with the
    /// store time `now` and the metadata `meta` observed at store time.
    /// When the cache is at or over capacity, a cleanup pass runs first,
    /// so the record count stays within capacity.
    #[verifier::rlimit(50)]
    pub fn set(&mut self, file_path: &str, icon_result: &IconResult, now: u64, meta: FileMeta) -> (r:
        Result<(), String>)
        requires
            old(self).wf(),
        ensures
            final(self).wf(),
            r is Ok,
            final(self).spec_max_entries() == old(self).spec_max_entries(),
            final(self).spec_ttl() == old(self).spec_ttl(),
            exists|e: CachedIcon|
                #[trigger] stored_entry_ok(e, *icon_result, file_path@, meta, now) && final(self)@
                    == set_spec(
                    old(self)@,
                    file_path@,
                    e,
                    now,
                    old(self).spec_ttl(),
                    old(self).spec_max_entries(),
                ),
            has_key(final(self)@, file_path@),
            stored_entry_ok(
                entry_for(final(self)@, file_path@),
                *icon_result,
                file_path@,
                meta,
                now,
            ),
    {
        let entry = CachedIcon {
            icon_data: icon_result.icon_data.clone(),
            icon_format: icon_result.icon_format.clone(),
            file_hash: match &icon_result.file_hash {
                Option::Some(h) => h.clone(),
                Option::None => get_file_hash(file_path, &meta),
            },
            cached_at: now,
            file_size: meta.size,
            last_modified: meta.modified,
        };
        let ghost orig = self@;
        if self.entries.len() >= self.max_memory_size {
            self.cleanup_old_entries(now);
        }
        self.insert_or_replace(file_path, entry);
        proof {
            assert(stored_entry_ok(entry, *icon_result, file_path@, meta, now));
            assert(self@ == set_spec(
                orig,
                file_path@,
                entry,
                now,
                old(self).spec_ttl(),
                old(self).spec_max_entries(),
            ));
        }
        Ok(())
    }

    /// Overwrites the record under `file_path` in place, or appends a
    /// record for a new key.
    fn insert_or_replace(&mut self, file_path: &str, entry: CachedIcon)
        requires
            distinct_keys(old(self)@),
        ensures
            final(self)@ == insert_entry(old(self)@, file_path@, entry),
            distinct_keys(final(self)@),
            final(self)@.len() <= old(self)@.len() + 1,
            has_key(final(self)@, file_path@),
            entry_for(final(self)@, file_path@) == entry,
            final(self).spec_max_entries() == old(self).spec_max_entries(),
            final(self).spec_ttl() == old(self).spec_ttl(),
    {
        let ghost orig = self@;
        let key = String::from_str(file_path);
        match self.find_entry_index(&key) {
            Option::Some(i) => {
                proof {
                    lemma_key_position(orig, file_path@);
                }
                let ghost pre_entries = self.entries@;
                self.entries.remove(i);
                self.entries.insert(i, (key, entry));
                proof {
                    pre_entries.remove_ensures(i as int);
                    assert(self@ =~= orig.update(i as int, (file_path@, entry)));
                    assert(forall|a: int, b: int|
                        0 <= a < b < self@.len() ==> (#[trigger] self@[a]).0 != (
                        #[trigger] self@[b]).0);
                    assert((#[trigger] self@[i as int]).0 == file_path@);
                    assert(has_key(self@, file_path@));
                }
            },
            Option::None => {
                self.entries.push((key, entry));
                proof {
                    assert(self@ =~= orig.push((file_path@, entry)));
                    assert(forall|a: int, b: int|
                        0 <= a < b < self@.len() ==> (#[trigger] self@[a]).0 != (
                        #[trigger] self@[b]).0);
                    assert((#[trigger] self@[self@.len() - 1]).0 == file_path@);
                    assert(has_key(self@, file_path@));
                }
            },
        }
        proof {
            lemma_key_position(self@, file_path@);
        }
    }

    /// Unconditionally empties the cache.
    pub fn clear(&mut self) -> (r: Result<(), String>)
        requires
            old(self).wf(),
        ensures
            final(self).wf(),
            r is Ok,
            final(self)@ == Seq::<(Seq<char>, CachedIcon)>::empty(),
            final(self).spec_max_entries() == old(self).spec_max_entries(),
            final(self).spec_ttl() == old(self).spec_ttl(),
    {
        self.entries.clear();
        proof {
            assert(self@ =~= Seq::<(Seq<char>, CachedIcon)>::empty());
        }
        Ok(())
    }

    /// Read-only statistics: current record count and the configured
    /// capacity and time-to-live.
    pub fn get_stats(&self) -> (r: Result<CacheStats, String>)
        ensures
            r matches Ok(s) && s.total_entries == self@.len() && s.max_entries
                == self.spec_max_entries() && s.cache_duration == self.spec_ttl(),
    {
        Ok(
            CacheStats {
                total_entries: self.entries.len(),
                max_entries: self.max_memory_size,
                cache_duration: self.cache_duration,
            },
        )
    }

    /// One preload step: stores a freshly extracted placeholder icon
    /// for `file_path`, unless a valid record already serves it, the
    /// probe saw no file, or its metadata could not be read.
    fn preload_one(&mut self, file_path: &str, probe: &PathProbe, now: u64)
        requires
            old(self).wf(),
        ensures
            final(self).wf(),
            final(self).spec_max_entries() == old(self).spec_max_entries(),
            final(self).spec_ttl() == old(self).spec_ttl(),
            preload_step_ok(
                old(self)@,
                final(self)@,
                file_path@,
                *probe,
                now,
                old(self).spec_ttl(),
                old(self).spec_max_entries(),
            ),
    {
        match self.get(file_path, now, probe.meta) {
            Option::Some(_) => {},
            Option::None => {
                match extract_file_icon(file_path, true, probe) {
                    Ok(icon_result) => {
                        match probe.meta {
                            Option::Some(m) => {
                                let _ = self.set(file_path, &icon_result, now, m);
                                proof {
                                    let e = choose|e: CachedIcon|
                                        stored_entry_ok(e, icon_result, file_path@, m, now)
                                            && self@ == set_spec(
                                            old(self)@,
                                            file_path@,
                                            e,
                                            now,
                                            old(self).spec_ttl(),
                                            old(self).spec_max_entries(),
                                        );
                                    assert(probe.meta.unwrap() == m);
                                    assert(preloaded_entry_ok(e, file_path@, m, now));
                                }
                            },
                            Option::None => {},
                        }
                    },
                    Err(_) => {},
                }
            },
        }
    }

    /// Runs the extraction pipeline for every path that is not already
    /// validly cached, and stores what it yields, path by path in order:
    /// the final contents are the chain of per-path transitions over the
    /// starting contents. Best-effort: a path whose probe saw no file,
    /// or whose metadata the prober could not read, leaves the cache as
    /// it stood, and the remaining paths still run.
    pub fn preload_icons(&mut self, file_paths: Vec<String>, probes: Vec<PathProbe>, now: u64) -> (r:
        Result<(), String>)
        requires
            old(self).wf(),
            probes@.len() == file_paths@.len(),
        ensures
            final(self).wf(),
            r is Ok,
            final(self).spec_max_entries() == old(self).spec_max_entries(),
            final(self).spec_ttl() == old(self).spec_ttl(),
            preload_steps_ok(
                old(self)@,
                final(self)@,
                paths_view(file_paths@),
                probes@,
                now,
                old(self).spec_ttl(),
                old(self).spec_max_entries(),
            ),
    {
        let ghost pv = paths_view(file_paths@);
        let n = file_paths.len();
        let mut i: usize = 0;
        proof {
            assert(pv.take(0) =~= Seq::<Seq<char>>::empty());
            assert(probes@.take(0) =~= Seq::<PathProbe>::empty());
        }
        while i < n
            invariant
                self.wf(),
                self.spec_max_entries() == old(self).spec_max_entries(),
                self.spec_ttl() == old(self).spec_ttl(),
                n == file_paths@.len(),
                probes@.len() == n,
                i <= n,
                pv == paths_view(file_paths@),
                preload_steps_ok(
                    old(self)@,
                    self@,
                    pv.take(i as int),
                    probes@.take(i as int),
                    now,
                    old(self).spec_ttl(),
                    old(self).spec_max_entries(),
                ),
            decreases n - i,
        {
            let ghost pre = self@;
            let path = &file_paths[i];
            let probe = probes[i];
            self.preload_one(path.as_str(), &probe, now);
            proof {
                lemma_preload_steps_extend(
                    old(self)@,
                    pre,
                    self@,
                    pv.take(i as int),
                    probes@.take(i as int),
                    pv[i as int],
                    probes@[i as int],
                    now,
                    old(self).spec_ttl(),
                    old(self).spec_max_entries(),
                );
                assert(pv.take(i + 1 as int) =~= pv.take(i as int).push(pv[i as int]));
                assert(probes@.take(i + 1 as int) =~= probes@.take(i as int).push(
                    probes@[i as int],
                ));
            }
            i = i + 1;
        }
        proof {
            assert(pv.take(n as int) =~= pv);
            assert(probes@.take(n as int) =~= probes@);
        }
        Ok(())
    }
}

/// The key sequences of a path list.
pub open spec fn paths_view(v: Seq<String>) -> Seq<Seq<char>> {
    v.map_values(|s: String| s@)
}

/// One preload transition: from contents `v0`, a path already validly
/// served, seen missing, or without readable metadata leaves `v1 == v0`;
/// any other path has a freshly extracted record stored, so `v1` is the
/// store's outcome for such a record.
pub open spec fn preload_step_ok(
    v0: Seq<(Seq<char>, CachedIcon)>,
    v1: Seq<(Seq<char>, CachedIcon)>,
    path: Seq<char>,
    probe: PathProbe,
    now: u64,
    ttl: u64,
    max: nat,
) -> bool {
    let valid = has_key(v0, path) && entry_valid(entry_for(v0, path), now, ttl, probe.meta);
    if valid || !probe.exists || probe.meta is None {
        v1 == v0
    } else {
        exists|e: CachedIcon|
            #[trigger] preloaded_entry_ok(e, path, probe.meta.unwrap(), now) && v1 == set_spec(
                v0,
                path,
                e,
                now,
                ttl,
                max,
            )
    }
}

/// A chain of preload transitions, one per path in order, from `v0` to
/// `vn`.
pub open spec fn preload_steps_ok(
    v0: Seq<(Seq<char>, CachedIcon)>,
    vn: Seq<(Seq<char>, CachedIcon)>,
    paths: Seq<Seq<char>>,
    probes: Seq<PathProbe>,
    now: u64,
    ttl: u64,
    max: nat,
) -> bool
    decreases paths.len(),
{
    if paths.len() == 0 || probes.len() == 0 {
        vn == v0
    } else {
        exists|v1: Seq<(Seq<char>, CachedIcon)>|
            #[trigger] preload_step_ok(v0, v1, paths[0], probes[0], now, ttl, max)
                && preload_steps_ok(v1, vn, paths.skip(1), probes.skip(1), now, ttl, max)
    }
}

/// A chain extends by one transition at its end.
proof fn lemma_preload_steps_extend(
    v0: Seq<(Seq<char>, CachedIcon)>,
    v1: Seq<(Seq<char>, CachedIcon)>,
    v2: Seq<(Seq<char>, CachedIcon)>,
    paths: Seq<Seq<char>>,
    probes: Seq<PathProbe>,
    p: Seq<char>,
    q: PathProbe,
    now: u64,
    ttl: u64,
    max: nat,
)
    requires
        paths.len() == probes.len(),
        preload_steps_ok(v0, v1, paths, probes, now, ttl, max),
        preload_step_ok(v1, v2, p, q, now, ttl, max),
    ensures
        preload_steps_ok(v0, v2, paths.push(p), probes.push(q), now, ttl, max),
    decreases paths.len(),
{
    assert(paths.push(p)[0] == if paths.len() == 0 {
        p
    } else {
        paths[0]
    });
    assert(probes.push(q)[0] == if probes.len() == 0 {
        q
    } else {
        probes[0]
    });
    if paths.len() == 0 {
        assert(v1 == v0);
        assert(paths.push(p).skip(1) =~= paths);
        assert(probes.push(q).skip(1) =~= probes);
        assert(preload_steps_ok(v2, v2, paths, probes, now, ttl, max));
        assert(preload_step_ok(v0, v2, paths.push(p)[0], probes.push(q)[0], now, ttl, max));
    } else {
        let vm = choose|vm: Seq<(Seq<char>, CachedIcon)>|
            #[trigger] preload_step_ok(v0, vm, paths[0], probes[0], now, ttl, max)
                && preload_steps_ok(vm, v1, paths.skip(1), probes.skip(1), now, ttl, max);
        lemma_preload_steps_extend(
            vm,
            v1,
            v2,
            paths.skip(1),
            probes.skip(1),
            p,
            q,
            now,
            ttl,
            max,
        );
        assert(paths.push(p).skip(1) =~= paths.skip(1).push(p));
        assert(probes.push(q).skip(1) =~= probes.skip(1).push(q));
        assert(preload_step_ok(v0, vm, paths.push(p)[0], probes.push(q)[0], now, ttl, max));
        assert(preload_steps_ok(
            vm,
            v2,
            paths.push(p).skip(1),
            probes.push(q).skip(1),
            now,
            ttl,
            max,
        ));
    }
}

/// The record one preload step stores for a file at `path` with
/// metadata `m`: the base64 of its extension's glyph, tagged as text,
/// with the derived fingerprint and the store-time stamps.
pub open spec fn preloaded_entry_ok(e: CachedIcon, path: Seq<char>, m: FileMeta, now: u64) -> bool {
    &&& e.icon_data@ == base64_encode(
        encode_utf8(spec_glyph(spec_icon_category(extension_or_empty(path)))),
    )
    &&& e.icon_format@ == "text"@
    &&& e.file_hash@ == hex_of(file_fingerprint(path, m.size, m.modified) as nat)
    &&& e.cached_at == now
    &&& e.file_size == m.size
    &&& e.last_modified == m.modified
}

/// Cache-fronted lookup: serve the cached record when it is still valid
/// for the probed metadata at time `now`; else run the extraction
/// pipeline (the directory pipeline where the probe saw a directory),
/// store what it yields, and return it marked as freshly computed. A
/// failed store never fails the lookup; unreadable metadata skips the
/// store. The store stamps the record with this one lookup-time probe;
/// a caller holding a fresher write-time observation can store again
/// through [`IconCache::set`], which takes the metadata to stamp.
pub fn get_cached_icon(
    cache: &mut IconCache,
    file_path: &str,
    large_icon: bool,
    now: u64,
    probe: &PathProbe,
) -> (r: Result<IconResult, String>)
    requires
        old(cache).wf(),
    ensures
        final(cache).wf(),
        final(cache).spec_max_entries() == old(cache).spec_max_entries(),
        final(cache).spec_ttl() == old(cache).spec_ttl(),
        ({
            let hit = has_key(old(cache)@, file_path@) && entry_valid(
                entry_for(old(cache)@, file_path@),
                now,
                old(cache).spec_ttl(),
                probe.meta,
            );
            if hit {
                &&& r matches Ok(res)
                &&& res.from_cache == true
                &&& res.icon_data == entry_for(old(cache)@, file_path@).icon_data
                &&& res.icon_format == entry_for(old(cache)@, file_path@).icon_format
                &&& res.file_hash == Option::Some(entry_for(old(cache)@, file_path@).file_hash)
                &&& final(cache)@ == old(cache)@
            } else {
                &&& if probe.is_dir {
                    dir_icon_spec(probe.exists && probe.is_dir, r)
                } else {
                    file_icon_spec(file_path@, probe.exists, r)
                }
                &&& (r is Err ==> final(cache)@ == old(cache)@)
                &&& (r is Ok && probe.meta is None ==> final(cache)@ == old(cache)@)
                &&& (r matches Ok(res) ==> (probe.meta matches Some(m) ==> exists|e: CachedIcon|
                    #[trigger] stored_entry_ok(e, res, file_path@, m, now) && final(cache)@
                        == set_spec(
                        old(cache)@,
                        file_path@,
                        e,
                        now,
                        old(cache).spec_ttl(),
                        old(cache).spec_max_entries(),
                    )))
            }
        }),
{
    match cache.get(file_path, now, probe.meta) {
        Option::Some(res) => {
            return Ok(res);
        },
        Option::None => {},
    }
    let extracted = if probe.is_dir {
        extract_directory_icon(file_path, large_icon, probe)
    } else {
        extract_file_icon(file_path, large_icon, probe)
    };
    let icon_result = match extracted {
        Ok(res) => res,
        Err(e) => {
            return Err(e);
        },
    };
    match probe.meta {
        Option::Some(m) => {
            let _ = cache.set(file_path, &icon_result, now, m);
        },
        Option::None => {},
    }
    Ok(icon_result)
}

} // verus!
