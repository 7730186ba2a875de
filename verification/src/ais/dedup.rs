//! Suppression of AIS sentences repeated within a time-to-live.
use std::collections::HashMap;
use std::hash::{Hash, Hasher};
use std::time::Instant;
use vstd::prelude::*;
use vstd::std_specs::iter::IteratorSpec;
use crate::clock::{instant_now, nanos_since};

verus! {

broadcast use vstd::std_specs::hash::group_hash_axioms;

/// The 64-bit hash `DefaultHasher::new()` gives of a sentence.
pub uninterp spec fn sentence_hash(sentence: Seq<char>) -> u64;

/// Hashes a sentence with a fresh `DefaultHasher` (`str::hash` then `finish`).
#[verifier::external_body]
fn hash_sentence(sentence: &str) -> (h: u64)
    ensures
        h == sentence_hash(sentence@),
{
    let mut hasher = std::collections::hash_map::DefaultHasher::new();
    sentence.hash(&mut hasher);
    hasher.finish()
}

/// Nanoseconds from `then` to `now`; zero when the clock went backwards.
pub open spec fn elapsed(then: u128, now: u128) -> u128 {
    if now >= then {
        (now - then) as u128
    } else {
        0
    }
}

/// Interval between purges of expired entries: one minute.
pub const CLEAN_INTERVAL_NS: u128 = 60_000_000_000;

/// The entries of `seen` still within `ttl` at `now`.
pub open spec fn fresh_entries(seen: Map<u64, u128>, now: u128, ttl: u128) -> Map<u64, u128> {
    Map::new(|h: u64| seen.contains_key(h) && elapsed(seen[h], now) < ttl, |h: u64| seen[h])
}

/// The cache after the periodic purge at `now`, and when it was last purged.
pub open spec fn purged(seen: Map<u64, u128>, last_clean: u128, now: u128, ttl: u128) -> (
    Map<u64, u128>,
    u128,
) {
    if elapsed(last_clean, now) > CLEAN_INTERVAL_NS {
        (fresh_entries(seen, now, ttl), now)
    } else {
        (seen, last_clean)
    }
}

/// A sentence whose hash was recorded less than `ttl` before `now` is a
/// duplicate; any other sentence has its hash recorded at `now`.
pub open spec fn dedup_step(seen: Map<u64, u128>, h: u64, now: u128, ttl: u128) -> (bool, Map<u64, u128>) {
    if seen.contains_key(h) && elapsed(seen[h], now) < ttl {
        (true, seen)
    } else {
        (false, seen.insert(h, now))
    }
}

/// The whole of one check at `now`: purge when due, then look up and
/// record: whether it was a duplicate, the entries after, the purge time after.
pub open spec fn dedup_outcome(
    seen: Map<u64, u128>,
    last_clean: u128,
    ttl: u128,
    h: u64,
    now: u128,
) -> (bool, Map<u64, u128>, u128) {
    let (kept, last) = purged(seen, last_clean, now, ttl);
    let (d, after) = dedup_step(kept, h, now, ttl);
    (d, after, last)
}

/// A sentence that was not a duplicate when checked at `t1` is a
/// duplicate when checked again at `t2`, less than the time-to-live later.
pub proof fn lemma_repeat_within_ttl(
    seen: Map<u64, u128>,
    last_clean: u128,
    ttl: u128,
    h: u64,
    t1: u128,
    t2: u128,
)
    requires
        !dedup_outcome(seen, last_clean, ttl, h, t1).0,
        t1 <= t2,
        t2 - t1 < ttl,
    ensures
        ({
            let (_, m1, c1) = dedup_outcome(seen, last_clean, ttl, h, t1);
            dedup_outcome(m1, c1, ttl, h, t2).0
        }),
{
    let (_, m1, c1) = dedup_outcome(seen, last_clean, ttl, h, t1);
    assert(m1.contains_key(h) && m1[h] == t1);
    let (kept, _) = purged(m1, c1, t2, ttl);
    assert(kept.contains_key(h) && kept[h] == t1);
}

/// A duplicate hit changes nothing for that sentence: its entry keeps the
/// time it was first recorded.
pub proof fn lemma_duplicate_keeps_time(seen: Map<u64, u128>, last_clean: u128, ttl: u128, h: u64, now: u128)
    requires
        dedup_outcome(seen, last_clean, ttl, h, now).0,
    ensures
        seen.contains_key(h),
        dedup_outcome(seen, last_clean, ttl, h, now).1.contains_key(h),
        dedup_outcome(seen, last_clean, ttl, h, now).1[h] == seen[h],
{
}

/// A sentence recorded at `t1` (or not recorded at all) is no duplicate
/// when checked at `t2`, the time-to-live or more later, and is then
/// recorded at `t2`.
pub proof fn lemma_expired_not_duplicate(
    seen: Map<u64, u128>,
    last_clean: u128,
    ttl: u128,
    h: u64,
    t1: u128,
    t2: u128,
)
    requires
        seen.contains_key(h) ==> seen[h] == t1,
        t1 <= t2,
        t2 - t1 >= ttl,
    ensures
        !dedup_outcome(seen, last_clean, ttl, h, t2).0,
        dedup_outcome(seen, last_clean, ttl, h, t2).1 == purged(seen, last_clean, t2, ttl).0.insert(h, t2),
{
}

/// On a cache with no entries, the first check of any sentence finds no
/// duplicate and records it at the time of the check.
pub proof fn lemma_first_check_not_duplicate(last_clean: u128, ttl: u128, h: u64, now: u128)
    ensures
        ({
            let (dup, after, _) = dedup_outcome(Map::empty(), last_clean, ttl, h, now);
            !dup && after == Map::<u64, u128>::empty().insert(h, now)
        }),
{
    let (kept, _) = purged(Map::empty(), last_clean, now, ttl);
    assert(kept =~= Map::<u64, u128>::empty());
}

/// Recently seen sentences, by hash, with the time each was last recorded.
pub struct DedupCache {
    seen: HashMap<u64, u128>,
    ttl_ns: u128,
    last_clean: u128,
    origin: Instant,
}

impl DedupCache {
    /// Hash of each recorded sentence and when it was recorded.
    pub closed spec fn seen_map(&self) -> Map<u64, u128> {
        self.seen@
    }

    /// Time-to-live of an entry, in nanoseconds.
    pub closed spec fn ttl(&self) -> u128 {
        self.ttl_ns
    }

    /// When expired entries were last purged.
    pub closed spec fn last_clean(&self) -> u128 {
        self.last_clean
    }

    /// An empty cache whose entries live for `ttl_ns` nanoseconds.
    pub fn new(ttl_ns: u128) -> (c: Self)
        ensures
            c.seen_map() == Map::<u64, u128>::empty(),
            c.last_clean() == 0,
            c.ttl() == ttl_ns,
    {
        let origin = instant_now();
        DedupCache {
            seen: HashMap::with_capacity(4096),
            ttl_ns,
            last_clean: 0,
            origin,
        }
    }

    /// Tells whether `sentence` was seen within the time-to-live, reading
    /// the clock; a sentence that is no duplicate is recorded.
    pub fn is_duplicate(&mut self, sentence: &str) -> (dup: bool)
        ensures
            final(self).ttl() == old(self).ttl(),
            exists|now: u128|
                #[trigger] dedup_outcome(
                    old(self).seen_map(),
                    old(self).last_clean(),
                    old(self).ttl(),
                    sentence_hash(sentence@),
                    now,
                ) == (dup, final(self).seen_map(), final(self).last_clean()),
    {
        let now = nanos_since(&self.origin);
        self.is_duplicate_at(sentence, now)
    }

    /// `is_duplicate` with the clock reading `now` (nanoseconds since the
    /// cache was made): purges expired entries when the last purge is over a
    /// minute old, then checks and records the sentence.
    pub fn is_duplicate_at(&mut self, sentence: &str, now: u128) -> (dup: bool)
        ensures
            final(self).ttl() == old(self).ttl(),
            dedup_outcome(
                old(self).seen_map(),
                old(self).last_clean(),
                old(self).ttl(),
                sentence_hash(sentence@),
                now,
            ) == (dup, final(self).seen_map(), final(self).last_clean()),
    {
        let since_clean = if now >= self.last_clean {
            now - self.last_clean
        } else {
            0
        };
        if since_clean > CLEAN_INTERVAL_NS {
            self.purge(now);
            self.last_clean = now;
        }
        let h = hash_sentence(sentence);
        match self.seen.get(&h) {
            Some(ts) => {
                let t = *ts;
                let age = if now >= t {
                    now - t
                } else {
                    0
                };
                if age < self.ttl_ns {
                    return true;
                }
            },
            None => {},
        }
        self.seen.insert(h, now);
        false
    }

    /// Drops the entries older than the time-to-live at `now`.
    fn purge(&mut self, now: u128)
        ensures
            final(self).seen_map() == fresh_entries(old(self).seen_map(), now, old(self).ttl()),
            final(self).ttl() == old(self).ttl(),
            final(self).last_clean() == old(self).last_clean(),
    {
        let ttl = self.ttl_ns;
        let ghost old_map = self.seen@;
        let ghost all = vstd::std_specs::hash::spec_hash_map_iter(&self.seen).remaining();
        let mut kept: HashMap<u64, u128> = HashMap::with_capacity(4096);
        for pair in it: self.seen.iter()
            invariant
                old_map == self.seen@,
                it.seq() == all,
                all == vstd::std_specs::hash::spec_hash_map_iter(&self.seen).remaining(),
                ttl == self.ttl_ns,
                forall|h: u64|
                    #[trigger] kept@.contains_key(h) ==> old_map.contains_key(h) && kept@[h] == old_map[h]
                        && elapsed(old_map[h], now) < ttl,
                forall|i: int|
                    0 <= i < it.index() ==> {
                        let (h, t) = #[trigger] it.seq()[i];
                        elapsed(*t, now) < ttl ==> kept@.contains_key(*h)
                    },
        {
            let (h, t) = pair;
            let age = if now >= *t {
                now - *t
            } else {
                0
            };
            if age < ttl {
                kept.insert(*h, *t);
            }
        }
        proof {
            assert forall|h: u64| #[trigger] old_map.contains_key(h) && elapsed(old_map[h], now) < ttl
                implies kept@.contains_key(h) by {
                let v = all;
                assert(v.contains((&h, &old_map[h])));
                let i = choose|i: int| 0 <= i < v.len() && v[i] == (&h, &old_map[h]);
                assert(all[i] == (&h, &old_map[h]));
            }
            assert(kept@ =~= fresh_entries(old_map, now, ttl));
        }
        self.seen = kept;
    }
}

} // verus!
