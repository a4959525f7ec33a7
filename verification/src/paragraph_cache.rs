//! Two-generation cache keying shaped paragraphs by content, so shaping
//! survives widget-tree rebuilds instead of dying with positional state.
use vstd::prelude::*;

use rustc_hash::{FxBuildHasher, FxHashMap, FxHashSet, FxHasher};
use std::hash::{Hash, Hasher};
use std::sync::Arc;
use std::time::Instant;

use crate::clock::{nanos_since, now};
use crate::geometry::Size;

verus! {

#[verifier::external_type_specification]
#[verifier::external_body]
pub struct ExFxBuildHasher(FxBuildHasher);

/// Early-rotation bound on a single generation.
pub const GENERATION_CAP: usize = 8192usize;

/// Generations rotate no faster than this, in nanoseconds, so paragraphs
/// shaped ahead of use (prewarming) survive until their first draw.
pub const ROTATION_NANOS: u128 = 1_000_000_000u128;

/// `HashMap::get` on an Fx-hashed map keyed by integers: the value under
/// `key`, if any. `FxBuildHasher` builds identical hashers every time, so
/// the map behaves as a map of its entries.
#[verifier::external_body]
fn fx_get<V>(map: &FxHashMap<u64, V>, key: u64) -> (found: Option<&V>)
    ensures
        match found {
            Some(v) => map@.contains_key(key) && *v == map@[key],
            None => !map@.contains_key(key),
        },
{
    map.get(&key)
}

/// `HashMap::insert` on an Fx-hashed map keyed by integers: sets the value
/// under `key` and hands back the one it replaces.
#[verifier::external_body]
fn fx_insert<V>(map: &mut FxHashMap<u64, V>, key: u64, value: V) -> (replaced: Option<V>)
    ensures
        final(map)@ == old(map)@.insert(key, value),
        match replaced {
            Some(v) => old(map)@.contains_key(key) && v == old(map)@[key],
            None => !old(map)@.contains_key(key),
        },
{
    map.insert(key, value)
}

/// `HashMap::remove` on an Fx-hashed map keyed by integers: takes out the
/// value under `key`, if any.
#[verifier::external_body]
fn fx_remove<V>(map: &mut FxHashMap<u64, V>, key: u64) -> (removed: Option<V>)
    ensures
        final(map)@ == old(map)@.remove(key),
        match removed {
            Some(v) => old(map)@.contains_key(key) && v == old(map)@[key],
            None => !old(map)@.contains_key(key),
        },
{
    map.remove(&key)
}

/// `HashMap::contains_key` on an Fx-hashed map keyed by integers.
#[verifier::external_body]
fn fx_contains_key<V>(map: &FxHashMap<u64, V>, key: u64) -> (contains: bool)
    ensures
        contains == map@.contains_key(key),
{
    map.contains_key(&key)
}

/// `HashMap::len` on an Fx-hashed map keyed by integers: the number of
/// entries.
#[verifier::external_body]
fn fx_len<V>(map: &FxHashMap<u64, V>) -> (len: usize)
    ensures
        len == map@.len(),
{
    map.len()
}

/// `HashSet::insert` on an Fx-hashed set of integers: adds `key` and tells
/// whether it was new.
#[verifier::external_body]
fn fx_set_insert(set: &mut FxHashSet<u64>, key: u64) -> (added: bool)
    ensures
        final(set)@ == old(set)@.insert(key),
        added == !old(set)@.contains(key),
{
    set.insert(key)
}

/// `HashSet::remove` on an Fx-hashed set of integers: takes out `key` and
/// tells whether it was there.
#[verifier::external_body]
fn fx_set_remove(set: &mut FxHashSet<u64>, key: u64) -> (removed: bool)
    ensures
        final(set)@ == old(set)@.remove(key),
        removed == old(set)@.contains(key),
{
    set.remove(&key)
}

/// `Arc::clone`: another handle to the same shared value.
#[verifier::external_body]
fn share<T>(value: &Arc<T>) -> (shared: Arc<T>)
    ensures
        shared == *value,
{
    Arc::clone(value)
}

/// What a default `FxHasher` finishes with after hashing `base_key`,
/// `width_bits` and `height_bits` in that order on a target whose pointers
/// are `pointer_bits` wide: the hasher starts from zero and its mixing
/// constants and final rotation depend on the pointer width alone.
pub uninterp spec fn fx_full_key(base_key: u64, width_bits: u32, height_bits: u32, pointer_bits: u32) -> u64;

/// The full cache key of a paragraph with base key `base_key` and bounds
/// `bounds` on this target.
pub open spec fn paragraph_key(base_key: u64, bounds: Size) -> u64 {
    fx_full_key(base_key, bounds.width_bits, bounds.height_bits, usize::BITS)
}

/// The full cache key of a paragraph: its base key and the bits of its
/// bounds, fed in that order to an `FxHasher` (`Hash::hash` of the `u64`
/// and of each `u32`, then `Hasher::finish`). The contract names the
/// result [`fx_full_key`] of those three values and the pointer width, the
/// one property of the target the Fx hash depends on.
#[verifier::external_body]
fn full_key(base_key: u64, width_bits: u32, height_bits: u32) -> (key: u64)
    ensures
        key == fx_full_key(base_key, width_bits, height_bits, usize::BITS),
{
    let mut hasher = FxHasher::default();
    base_key.hash(&mut hasher);
    width_bits.hash(&mut hasher);
    height_bits.hash(&mut hasher);
    hasher.finish()
}

/// The entries of a cache.
pub struct CacheState<T> {
    /// The generation that receives insertions and hits.
    pub current: Map<u64, Arc<T>>,
    /// The generation before, kept until the next rotation.
    pub previous: Map<u64, Arc<T>>,
    /// Keys queued for off-thread shaping.
    pub pending: Set<u64>,
    /// The font epoch the entries were shaped in.
    pub epoch: u64,
}

/// A well-formed cache state: no queued key is already warm.
pub open spec fn state_wf<T>(s: CacheState<T>) -> bool {
    forall|k: u64| #[trigger] s.pending.contains(k) ==> !s.current.contains_key(k)
        && !s.previous.contains_key(k)
}

/// The state after a font epoch check: a new epoch empties everything.
pub open spec fn flush_step<T>(s: CacheState<T>, epoch: u64) -> CacheState<T> {
    if epoch != s.epoch {
        CacheState {
            current: Map::empty(),
            previous: Map::empty(),
            pending: Set::empty(),
            epoch,
        }
    } else {
        s
    }
}

/// The state after a rotation: the current generation becomes the
/// previous one and the current one starts empty.
pub open spec fn rotate_step<T>(s: CacheState<T>) -> CacheState<T> {
    CacheState { current: Map::empty(), previous: s.current, pending: s.pending, epoch: s.epoch }
}

/// The state and the result of a lookup of `key`: a hit in the previous
/// generation moves into the current one.
pub open spec fn get_step<T>(s: CacheState<T>, key: u64, epoch: u64) -> (CacheState<T>, Option<Arc<T>>) {
    let f = flush_step(s, epoch);
    if f.current.contains_key(key) {
        (f, Some(f.current[key]))
    } else if f.previous.contains_key(key) {
        let v = f.previous[key];
        (
            CacheState {
                current: f.current.insert(key, v),
                previous: f.previous.remove(key),
                pending: f.pending,
                epoch: f.epoch,
            },
            Some(v),
        )
    } else {
        (f, None)
    }
}

/// The state after inserting `paragraph` under `key`: a full current
/// generation rotates first, and the key stops being queued.
pub open spec fn insert_step<T>(s: CacheState<T>, key: u64, paragraph: Arc<T>, epoch: u64) -> CacheState<T> {
    let f = flush_step(s, epoch);
    let r = if f.current.len() >= GENERATION_CAP {
        rotate_step(f)
    } else {
        f
    };
    CacheState {
        current: r.current.insert(key, paragraph),
        previous: r.previous,
        pending: r.pending.remove(key),
        epoch: r.epoch,
    }
}

/// The state after queueing `key`, and whether it was newly queued: a warm
/// or already queued key is not queued again.
pub open spec fn pend_step<T>(s: CacheState<T>, key: u64, epoch: u64) -> (CacheState<T>, bool) {
    let f = flush_step(s, epoch);
    if f.current.contains_key(key) || f.previous.contains_key(key) {
        (f, false)
    } else {
        (
            CacheState {
                current: f.current,
                previous: f.previous,
                pending: f.pending.insert(key),
                epoch: f.epoch,
            },
            !f.pending.contains(key),
        )
    }
}

/// Every operation keeps a cache well formed: no queued key is ever warm.
pub proof fn lemma_steps_keep_wf<T>(s: CacheState<T>, key: u64, paragraph: Arc<T>, epoch: u64)
    requires
        state_wf(s),
    ensures
        state_wf(flush_step(s, epoch)),
        state_wf(rotate_step(s)),
        state_wf(get_step(s, key, epoch).0),
        state_wf(insert_step(s, key, paragraph, epoch)),
        state_wf(pend_step(s, key, epoch).0),
{
    let f = flush_step(s, epoch);
    assert(state_wf(f));
    assert(state_wf(rotate_step(s)));
    assert(state_wf(rotate_step(f)));
    let g = get_step(s, key, epoch).0;
    assert forall|k: u64| #[trigger] g.pending.contains(k) implies !g.current.contains_key(k)
        && !g.previous.contains_key(k) by {
        assert(f.pending.contains(k));
    }
    let i = insert_step(s, key, paragraph, epoch);
    let r = if f.current.len() >= GENERATION_CAP {
        rotate_step(f)
    } else {
        f
    };
    assert forall|k: u64| #[trigger] i.pending.contains(k) implies !i.current.contains_key(k)
        && !i.previous.contains_key(k) by {
        assert(r.pending.contains(k));
    }
    let q = pend_step(s, key, epoch).0;
    assert forall|k: u64| #[trigger] q.pending.contains(k) implies !q.current.contains_key(k)
        && !q.previous.contains_key(k) by {
        if k != key {
            assert(f.pending.contains(k));
        }
    }
}

/// The two-generation cache of shaped paragraphs, each shared through an
/// `Arc` with every user of it.
pub struct ParagraphCache<T> {
    current: FxHashMap<u64, Arc<T>>,
    previous: FxHashMap<u64, Arc<T>>,
    pending: FxHashSet<u64>,
    epoch: u64,
    rotated: Instant,
}

impl<T> ParagraphCache<T> {
    /// The entries of the cache.
    pub closed spec fn state(&self) -> CacheState<T> {
        CacheState {
            current: self.current@,
            previous: self.previous@,
            pending: self.pending@,
            epoch: self.epoch,
        }
    }

    /// When the current generation started.
    pub closed spec fn rotated_at(&self) -> Instant {
        self.rotated
    }

    /// Whether the cache is well formed.
    pub open spec fn wf(&self) -> bool {
        state_wf(self.state())
    }

    /// An empty cache for the font epoch `epoch`.
    pub fn new(epoch: u64) -> (cache: Self)
        ensures
            cache.wf(),
            cache.state().current == Map::<u64, Arc<T>>::empty(),
            cache.state().previous == Map::<u64, Arc<T>>::empty(),
            cache.state().pending == Set::<u64>::empty(),
            cache.state().epoch == epoch,
    {
        let cache = ParagraphCache {
            current: FxHashMap::default(),
            previous: FxHashMap::default(),
            pending: FxHashSet::default(),
            epoch,
            rotated: now(),
        };
        assert(cache.state().current.dom() =~= Set::<u64>::empty());
        assert(cache.state().previous.dom() =~= Set::<u64>::empty());
        cache
    }

    /// Font loads invalidate every shaped run, including queued ones: the
    /// worker discards jobs from a stale epoch, so their keys must re-queue
    /// rather than stay pending forever.
    pub fn flush_stale(&mut self, epoch: u64)
        requires
            old(self).wf(),
        ensures
            final(self).wf(),
            final(self).state() == flush_step(old(self).state(), epoch),
            final(self).rotated_at() == old(self).rotated_at(),
    {
        if epoch != self.epoch {
            self.current.clear();
            self.previous.clear();
            self.pending.clear();
            self.epoch = epoch;
            assert(self.state().current.dom() =~= Set::<u64>::empty());
            assert(self.state().previous.dom() =~= Set::<u64>::empty());
        }
    }

    /// Starts a new generation at the instant `at`: the current one becomes
    /// the previous one, whose entries it drops, and the rotation interval
    /// is measured afresh from `at`.
    pub fn rotate_at(&mut self, at: Instant)
        requires
            old(self).wf(),
        ensures
            final(self).wf(),
            final(self).state() == rotate_step(old(self).state()),
            final(self).rotated_at() == at,
    {
        let mut fresh = FxHashMap::default();
        std::mem::swap(&mut self.current, &mut fresh);
        self.previous = fresh;
        self.rotated = at;
        assert(self.state().current.dom() =~= Set::<u64>::empty());
        proof {
            lemma_steps_keep_wf(old(self).state(), 0, arbitrary(), 0);
        }
    }

    /// Starts a new generation now: the current one becomes the previous
    /// one, whose entries it drops, and the rotation interval restarts at
    /// the current instant of the monotonic clock.
    pub fn rotate(&mut self)
        requires
            old(self).wf(),
        ensures
            final(self).wf(),
            final(self).state() == rotate_step(old(self).state()),
    {
        self.rotate_at(now());
    }

    /// The paragraph cached under `key` in font epoch `epoch`, if any; a
    /// hit in the previous generation moves into the current one.
    pub fn get(&mut self, key: u64, epoch: u64) -> (found: Option<Arc<T>>)
        requires
            old(self).wf(),
        ensures
            final(self).wf(),
            (final(self).state(), found) == get_step(old(self).state(), key, epoch),
            final(self).rotated_at() == old(self).rotated_at(),
    {
        self.flush_stale(epoch);
        if let Some(hit) = fx_get(&self.current, key) {
            return Some(share(hit));
        }
        let ghost flushed = self.state();
        let hit = match fx_remove(&mut self.previous, key) {
            Some(hit) => hit,
            None => {
                assert(self.state().previous =~= flushed.previous);
                return None;
            },
        };
        let _ = fx_insert(&mut self.current, key, share(&hit));
        proof {
            lemma_steps_keep_wf(old(self).state(), key, hit, epoch);
        }
        Some(hit)
    }

    /// Caches `paragraph` under `key` in font epoch `epoch`, rotating first
    /// when the current generation is full; the key stops being queued.
    pub fn insert(&mut self, key: u64, paragraph: &Arc<T>, epoch: u64)
        requires
            old(self).wf(),
        ensures
            final(self).wf(),
            final(self).state() == insert_step(old(self).state(), key, *paragraph, epoch),
            flush_step(old(self).state(), epoch).current.len() < GENERATION_CAP
                ==> final(self).rotated_at() == old(self).rotated_at(),
    {
        self.flush_stale(epoch);
        if fx_len(&self.current) >= GENERATION_CAP {
            self.rotate();
        }
        let _ = fx_set_remove(&mut self.pending, key);
        let _ = fx_insert(&mut self.current, key, share(paragraph));
        proof {
            lemma_steps_keep_wf(old(self).state(), key, *paragraph, epoch);
        }
    }

    /// Marks `key` as queued for off-thread shaping; false when a warm or
    /// in-flight entry makes queueing redundant.
    pub fn try_pend(&mut self, key: u64, epoch: u64) -> (queued: bool)
        requires
            old(self).wf(),
        ensures
            final(self).wf(),
            (final(self).state(), queued) == pend_step(old(self).state(), key, epoch),
            final(self).rotated_at() == old(self).rotated_at(),
    {
        self.flush_stale(epoch);
        if fx_contains_key(&self.current, key) || fx_contains_key(&self.previous, key) {
            return false;
        }
        let queued = fx_set_insert(&mut self.pending, key);
        proof {
            lemma_steps_keep_wf(old(self).state(), key, arbitrary(), epoch);
        }
        queued
    }

    /// Rotates, starting the new generation at the instant `at`, when the
    /// current generation is `age` nanoseconds old or more; otherwise
    /// leaves the cache as it was.
    pub fn trim_after(&mut self, age: u128, at: Instant)
        requires
            old(self).wf(),
        ensures
            final(self).wf(),
            final(self).state() == if age >= ROTATION_NANOS {
                rotate_step(old(self).state())
            } else {
                old(self).state()
            },
            age >= ROTATION_NANOS ==> final(self).rotated_at() == at,
            age < ROTATION_NANOS ==> *final(self) == *old(self),
    {
        if age >= ROTATION_NANOS {
            self.rotate_at(at);
        }
    }

    /// Ages the cache: rotates once the current generation has lived for
    /// [`ROTATION_NANOS`], and otherwise leaves the cache as it was.
    pub fn trim(&mut self)
        requires
            old(self).wf(),
        ensures
            final(self).wf(),
            *final(self) == *old(self) || final(self).state() == rotate_step(old(self).state()),
    {
        let age = nanos_since(&self.rotated);
        self.trim_after(age, now());
    }
}

/// Ages the paragraph cache; renderers call this once per frame and the
/// internal interval gate turns that into a coarse recency window.
pub fn trim_cache<T>(cache: &mut ParagraphCache<T>)
    requires
        old(cache).wf(),
    ensures
        final(cache).wf(),
        *final(cache) == *old(cache) || final(cache).state() == rotate_step(old(cache).state()),
{
    cache.trim();
}


/// Result of a non-blocking paragraph lookup.
#[derive(Debug, Clone)]
pub enum ParagraphLookup<P> {
    /// The shaped paragraph was warm in the cache.
    Warm(P),
    /// Queued for off-thread shaping; the notifier fires on completion.
    Pending,
}

/// The state, the lookup result and whether the key was newly queued,
/// after a non-blocking lookup of `key`: a hit is warm, a miss is queued
/// unless it already was.
pub open spec fn lookup_step<T>(s: CacheState<T>, key: u64, epoch: u64) -> (
    CacheState<T>,
    ParagraphLookup<Arc<T>>,
    bool,
) {
    let (after_get, hit) = get_step(s, key, epoch);
    match hit {
        Some(paragraph) => (after_get, ParagraphLookup::Warm(paragraph), false),
        None => {
            let (after_pend, queued) = pend_step(after_get, key, epoch);
            (after_pend, ParagraphLookup::Pending, queued)
        },
    }
}

/// Non-blocking lookup of the full key `key`: the cached paragraph when
/// warm, otherwise `Pending`, with whether the key was newly queued and
/// so has to be handed to the shaping worker.
pub fn lookup_key<T>(cache: &mut ParagraphCache<T>, key: u64, epoch: u64) -> (looked_up: (
    ParagraphLookup<Arc<T>>,
    bool,
))
    requires
        old(cache).wf(),
    ensures
        final(cache).wf(),
        (final(cache).state(), looked_up.0, looked_up.1) == lookup_step(old(cache).state(), key, epoch),
        final(cache).rotated_at() == old(cache).rotated_at(),
{
    if let Some(hit) = cache.get(key, epoch) {
        return (ParagraphLookup::Warm(hit), false);
    }
    let queued = cache.try_pend(key, epoch);
    (ParagraphLookup::Pending, queued)
}

/// Non-blocking cache lookup for plain text whose base key (every shaping
/// input but the bounds) is `base_key`: looks up the full key of
/// `base_key` and `bounds`.
pub fn lookup_plain<T>(cache: &mut ParagraphCache<T>, base_key: u64, bounds: Size, epoch: u64) -> (looked_up: (
    ParagraphLookup<Arc<T>>,
    bool,
))
    requires
        old(cache).wf(),
    ensures
        final(cache).wf(),
        (final(cache).state(), looked_up.0, looked_up.1) == lookup_step(
            old(cache).state(),
            paragraph_key(base_key, bounds),
            epoch,
        ),
        final(cache).rotated_at() == old(cache).rotated_at(),
{
    let key = full_key(base_key, bounds.width_bits, bounds.height_bits);
    lookup_key(cache, key, epoch)
}

/// Non-blocking cache lookup for rich spans whose base key (every shaping
/// input but the bounds) is `base_key`: looks up the full key of
/// `base_key` and `bounds`.
pub fn lookup_spans<T>(cache: &mut ParagraphCache<T>, base_key: u64, bounds: Size, epoch: u64) -> (looked_up: (
    ParagraphLookup<Arc<T>>,
    bool,
))
    requires
        old(cache).wf(),
    ensures
        final(cache).wf(),
        (final(cache).state(), looked_up.0, looked_up.1) == lookup_step(
            old(cache).state(),
            paragraph_key(base_key, bounds),
            epoch,
        ),
        final(cache).rotated_at() == old(cache).rotated_at(),
{
    let key = full_key(base_key, bounds.width_bits, bounds.height_bits);
    lookup_key(cache, key, epoch)
}

/// The paragraph cached for base key `base_key` at `bounds`, if any: the
/// cache lookup of the blocking constructors, made before shaping.
pub fn cached_paragraph<T>(cache: &mut ParagraphCache<T>, base_key: u64, bounds: Size, epoch: u64) -> (found: Option<
    Arc<T>,
>)
    requires
        old(cache).wf(),
    ensures
        final(cache).wf(),
        (final(cache).state(), found) == get_step(old(cache).state(), paragraph_key(base_key, bounds), epoch),
        final(cache).rotated_at() == old(cache).rotated_at(),
{
    let key = full_key(base_key, bounds.width_bits, bounds.height_bits);
    cache.get(key, epoch)
}

/// Caches a freshly shaped paragraph for base key `base_key` at `bounds`.
pub fn cache_paragraph<T>(
    cache: &mut ParagraphCache<T>,
    base_key: u64,
    bounds: Size,
    paragraph: &Arc<T>,
    epoch: u64,
)
    requires
        old(cache).wf(),
    ensures
        final(cache).wf(),
        final(cache).state() == insert_step(
            old(cache).state(),
            paragraph_key(base_key, bounds),
            *paragraph,
            epoch,
        ),
        flush_step(old(cache).state(), epoch).current.len() < GENERATION_CAP
            ==> final(cache).rotated_at() == old(cache).rotated_at(),
{
    let key = full_key(base_key, bounds.width_bits, bounds.height_bits);
    cache.insert(key, paragraph, epoch);
}

/// On a resize to `bounds`, the paragraph cached under the new bounds, if
/// any; a zero base key (a default or empty paragraph) opts out of the
/// cache and finds nothing.
pub fn reuse_on_resize<T>(cache: &mut ParagraphCache<T>, base_key: u64, bounds: Size, epoch: u64) -> (found: Option<
    Arc<T>,
>)
    requires
        old(cache).wf(),
    ensures
        final(cache).wf(),
        base_key == 0 ==> found is None && final(cache).state() == old(cache).state(),
        base_key != 0 ==> (final(cache).state(), found) == get_step(
            old(cache).state(),
            paragraph_key(base_key, bounds),
            epoch,
        ),
        final(cache).rotated_at() == old(cache).rotated_at(),
{
    if base_key == 0 {
        return None;
    }
    cached_paragraph(cache, base_key, bounds, epoch)
}

/// After reshaping a resized paragraph, caches it under its new bounds,
/// unless its zero base key opts out of the cache.
pub fn keep_resized<T>(
    cache: &mut ParagraphCache<T>,
    base_key: u64,
    bounds: Size,
    paragraph: &Arc<T>,
    epoch: u64,
)
    requires
        old(cache).wf(),
    ensures
        final(cache).wf(),
        base_key == 0 ==> final(cache).state() == old(cache).state(),
        base_key != 0 ==> final(cache).state() == insert_step(
            old(cache).state(),
            paragraph_key(base_key, bounds),
            *paragraph,
            epoch,
        ),
        base_key == 0 || flush_step(old(cache).state(), epoch).current.len() < GENERATION_CAP
            ==> final(cache).rotated_at() == old(cache).rotated_at(),
{
    if base_key != 0 {
        cache_paragraph(cache, base_key, bounds, paragraph, epoch);
    }
}

/// What a write stores, a read in the same font epoch gives back.
pub proof fn law_read_after_write<T>(s: CacheState<T>, key: u64, paragraph: Arc<T>, epoch: u64)
    ensures
        get_step(insert_step(s, key, paragraph, epoch), key, epoch).1 == Some(paragraph),
        lookup_step(insert_step(s, key, paragraph, epoch), key, epoch).1 == ParagraphLookup::Warm(
            paragraph,
        ),
        !lookup_step(insert_step(s, key, paragraph, epoch), key, epoch).2,
{
}

/// Every other queued key stays queued: inserting a paragraph, looking a
/// key up or queueing a key dequeues no key but the inserted one (a new
/// font epoch aside, which dequeues everything first).
pub proof fn law_other_keys_stay_queued<T>(s: CacheState<T>, key: u64, other: u64, paragraph: Arc<T>, epoch: u64)
    requires
        other != key,
    ensures
        insert_step(s, key, paragraph, epoch).pending.contains(other) == flush_step(s, epoch).pending.contains(
            other,
        ),
        get_step(s, key, epoch).0.pending.contains(other) == flush_step(s, epoch).pending.contains(other),
        pend_step(s, key, epoch).0.pending.contains(other) == flush_step(s, epoch).pending.contains(other),
        epoch == s.epoch ==> flush_step(s, epoch).pending == s.pending,
        epoch != s.epoch ==> flush_step(s, epoch).pending == Set::<u64>::empty(),
{
}

/// Inserting a paragraph ends the queueing of its key.
pub proof fn law_insert_dequeues<T>(s: CacheState<T>, key: u64, paragraph: Arc<T>, epoch: u64)
    ensures
        !insert_step(s, key, paragraph, epoch).pending.contains(key),
{
}

/// A key is handed to the worker at most once while it is in flight, and
/// never while it is warm.
pub proof fn law_queued_at_most_once<T>(s: CacheState<T>, key: u64, epoch: u64)
    ensures
        !pend_step(pend_step(s, key, epoch).0, key, epoch).1,
        get_step(s, key, epoch).1 is Some ==> !pend_step(s, key, epoch).1,
        !lookup_step(lookup_step(s, key, epoch).0, key, epoch).2,
{
}

/// Two rotations with no access in between evict every entry.
pub proof fn law_two_rotations_evict<T>(s: CacheState<T>, key: u64)
    ensures
        get_step(rotate_step(rotate_step(s)), key, s.epoch).1 is None,
{
}

/// An entry of the current generation survives one rotation, and a hit
/// brings it back into the current generation.
pub proof fn law_hit_survives_one_rotation<T>(s: CacheState<T>, key: u64)
    requires
        s.current.contains_key(key),
    ensures
        get_step(rotate_step(s), key, s.epoch).1 == Some(s.current[key]),
        get_step(rotate_step(s), key, s.epoch).0.current.contains_key(key),
        get_step(rotate_step(rotate_step(s)), key, s.epoch).1 is None,
{
}

/// The state after `n` rotations with nothing in between.
pub open spec fn rotated_times<T>(s: CacheState<T>, n: nat) -> CacheState<T>
    decreases n,
{
    if n == 0 {
        s
    } else {
        rotate_step(rotated_times(s, (n - 1) as nat))
    }
}

/// Where `key` stands in a cache: its entry in the current generation and
/// its entry in the previous one.
pub open spec fn entry_of<T>(s: CacheState<T>, key: u64) -> (Option<Arc<T>>, Option<Arc<T>>) {
    (
        if s.current.contains_key(key) {
            Some(s.current[key])
        } else {
            None
        },
        if s.previous.contains_key(key) {
            Some(s.previous[key])
        } else {
            None
        },
    )
}

/// An inserted paragraph is found again after no rotation or one, and is
/// gone after two or more.
pub proof fn law_entry_lives_one_rotation<T>(s: CacheState<T>, key: u64, paragraph: Arc<T>, epoch: u64, n: nat)
    ensures
        get_step(rotated_times(insert_step(s, key, paragraph, epoch), n), key, epoch).1 == if n <= 1 {
            Some(paragraph)
        } else {
            None
        },
    decreases n,
{
    let i = insert_step(s, key, paragraph, epoch);
    lemma_rotated_times_epoch(i, n);
    if n >= 2 {
        lemma_rotated_times_empty(i, n);
    } else if n == 1 {
        assert(rotated_times(i, 1) == rotate_step(rotated_times(i, 0)));
    }
}

/// Rotations keep the font epoch.
proof fn lemma_rotated_times_epoch<T>(s: CacheState<T>, n: nat)
    ensures
        rotated_times(s, n).epoch == s.epoch,
    decreases n,
{
    if n > 0 {
        lemma_rotated_times_epoch(s, (n - 1) as nat);
    }
}

/// Two rotations or more leave both generations empty.
proof fn lemma_rotated_times_empty<T>(s: CacheState<T>, n: nat)
    requires
        n >= 2,
    ensures
        rotated_times(s, n).current == Map::<u64, Arc<T>>::empty(),
        rotated_times(s, n).previous == Map::<u64, Arc<T>>::empty(),
    decreases n,
{
    if n > 2 {
        lemma_rotated_times_empty(s, (n - 1) as nat);
    } else {
        assert(rotated_times(s, 1) == rotate_step(rotated_times(s, 0)));
    }
}

/// Traffic on other keys in the same font epoch leaves an entry where it
/// is, except that an insertion into a full generation rotates first; and
/// what a lookup of a key finds, and where a rotation moves it, depend on
/// where that key stands alone.
pub proof fn law_other_keys_leave_an_entry_alone<T>(
    s: CacheState<T>,
    t: CacheState<T>,
    key: u64,
    other: u64,
    paragraph: Arc<T>,
)
    requires
        key != other,
    ensures
        entry_of(get_step(s, other, s.epoch).0, key) == entry_of(s, key),
        entry_of(pend_step(s, other, s.epoch).0, key) == entry_of(s, key),
        entry_of(insert_step(s, other, paragraph, s.epoch), key) == if s.current.len() >= GENERATION_CAP {
            entry_of(rotate_step(s), key)
        } else {
            entry_of(s, key)
        },
        entry_of(s, key) == entry_of(t, key) && s.epoch == t.epoch ==> get_step(s, key, s.epoch).1
            == get_step(t, key, t.epoch).1 && entry_of(get_step(s, key, s.epoch).0, key) == entry_of(
            get_step(t, key, t.epoch).0,
            key,
        ) && entry_of(rotate_step(s), key) == entry_of(rotate_step(t), key),
{
}

/// A new font epoch flushes everything: every lookup misses and every
/// key can be queued afresh.
pub proof fn law_new_epoch_flushes<T>(s: CacheState<T>, key: u64, epoch: u64)
    requires
        epoch != s.epoch,
    ensures
        get_step(s, key, epoch).1 is None,
        pend_step(s, key, epoch).1,
        get_step(s, key, epoch).0.epoch == epoch,
{
}

} // verus!
