//! Self-learning route enrichment: routes looked up for callsigns, served
//! from memory, with failed lookups retried only after a day.
//!
//! The lookups themselves and the cache file are outside this module: `tick`
//! hands out the callsigns to look up and says when to save, and
//! `record_lookup` takes each answer.
use std::time::Instant;
use vstd::prelude::*;
use crate::clock::{instant_now, nanos_since};
use crate::ingest::since;
use crate::text::{str_chars, string_from_chars};

verus! {

/// Seconds between lookup batches (5 s), in nanoseconds.
pub const BATCH_INTERVAL_NS: u128 = 5_000_000_000;

/// Interval between saves of the learned routes (60 s), in nanoseconds.
pub const PERSIST_INTERVAL_NS: u128 = 60_000_000_000;

/// A failed callsign is looked up again after 24 h, in nanoseconds.
pub const RETRY_AFTER_NS: u128 = 86_400_000_000_000;

/// Callsigns looked up per batch, at most.
pub const BATCH_SIZE: usize = 20;

/// A route learned for a callsign.
pub struct LearnedRoute {
    pub airports: Option<String>,
    pub airline: Option<String>,
    pub first_seen: u64,
    pub hits: u32,
}

/// A `LearnedRoute` as plain values.
pub struct RouteModel {
    pub airports: Option<Seq<char>>,
    pub airline: Option<Seq<char>>,
    pub first_seen: u64,
    pub hits: u32,
}

/// The text of an optional string.
pub open spec fn opt_text(s: Option<String>) -> Option<Seq<char>> {
    match s {
        Some(t) => Some(t@),
        None => None,
    }
}

impl View for LearnedRoute {
    type V = RouteModel;

    open spec fn view(&self) -> RouteModel {
        RouteModel {
            airports: opt_text(self.airports),
            airline: opt_text(self.airline),
            first_seen: self.first_seen,
            hits: self.hits,
        }
    }
}

/// Index of the last entry keyed `k`, or -1.
pub open spec fn last_index_of<V>(s: Seq<(Seq<char>, V)>, k: Seq<char>) -> int
    decreases s.len(),
{
    if s.len() == 0 {
        -1
    } else if s.last().0 == k {
        s.len() - 1
    } else {
        last_index_of(s.drop_last(), k)
    }
}

/// No key occurs twice.
pub open spec fn distinct_keys<V>(s: Seq<(Seq<char>, V)>) -> bool {
    forall|i: int, j: int| 0 <= i < j < s.len() ==> s[i].0 != s[j].0
}

/// `s` with `k` mapped to `v`: the entry replaced where present, else appended.
pub open spec fn upsert<V>(s: Seq<(Seq<char>, V)>, k: Seq<char>, v: V) -> Seq<(Seq<char>, V)> {
    let i = last_index_of(s, k);
    if i >= 0 {
        s.update(i, (k, v))
    } else {
        s.push((k, v))
    }
}

/// The routes after taking the first `n` entries in order.
pub open spec fn upsert_all(s: Seq<(Seq<char>, RouteModel)>, n: nat) -> Seq<(Seq<char>, RouteModel)>
    decreases n,
{
    if n == 0 {
        Seq::empty()
    } else {
        upsert(upsert_all(s, (n - 1) as nat), s[n - 1].0, s[n - 1].1)
    }
}

/// The airline table as plain values.
pub open spec fn airlines_view(v: Seq<(String, String)>) -> Seq<(Seq<char>, Seq<char>)> {
    v.map_values(|e: (String, String)| (e.0@, e.1@))
}

/// The enrichment state as plain values.
pub struct EnrichmentModel {
    pub routes: Seq<(Seq<char>, RouteModel)>,
    pub pending: Seq<Seq<char>>,
    pub failed: Seq<(Seq<char>, u128)>,
    pub last_batch: u128,
    pub last_persist: u128,
}

/// The hot-path lookup of `cs` at `now`: a known route counts a hit (the
/// count wraps) and gives its airports; an unknown callsign is queued for
/// lookup once, unless its last lookup failed less than a day ago.
pub open spec fn route_lookup(m: EnrichmentModel, cs: Seq<char>, now: u128) -> (EnrichmentModel, Option<Seq<char>>) {
    let i = last_index_of(m.routes, cs);
    if i >= 0 {
        let r = m.routes[i].1;
        (
            EnrichmentModel {
                routes: m.routes.update(
                    i,
                    (cs, RouteModel { hits: if r.hits == u32::MAX { 0 } else { (r.hits + 1) as u32 }, ..r }),
                ),
                ..m
            },
            r.airports,
        )
    } else if m.pending.contains(cs) {
        (m, None)
    } else {
        let j = last_index_of(m.failed, cs);
        if j >= 0 && since(m.failed[j].1, now) < RETRY_AFTER_NS {
            (m, None)
        } else {
            (EnrichmentModel { pending: m.pending.push(cs), ..m }, None)
        }
    }
}

/// The periodic step at `now`: every 5 s up to 20 queued callsigns are taken
/// for lookup, and every minute a save is due.
pub open spec fn tick_step(m: EnrichmentModel, now: u128) -> (EnrichmentModel, Seq<Seq<char>>, bool) {
    let batch_due = m.pending.len() > 0 && since(m.last_batch, now) >= BATCH_INTERVAL_NS;
    let n = if m.pending.len() < BATCH_SIZE {
        m.pending.len()
    } else {
        BATCH_SIZE as nat
    };
    let m1 = if batch_due {
        EnrichmentModel { pending: m.pending.skip(n as int), last_batch: now, ..m }
    } else {
        m
    };
    let persist = since(m.last_persist, now) >= PERSIST_INTERVAL_NS;
    let m2 = if persist {
        EnrichmentModel { last_persist: now, ..m1 }
    } else {
        m1
    };
    (
        m2,
        if batch_due {
            m.pending.take(n as int)
        } else {
            Seq::empty()
        },
        persist,
    )
}

/// The state right after start: the saved routes in order (a later entry
/// for the same callsign replaces an earlier one), nothing queued or failed.
pub open spec fn initial_model(cached: Seq<(String, LearnedRoute)>) -> EnrichmentModel {
    EnrichmentModel {
        routes: upsert_all(routes_view(cached), cached.len()),
        pending: Seq::empty(),
        failed: Seq::empty(),
        last_batch: 0,
        last_persist: 0,
    }
}

/// Routes and lookups in memory, with the traffic API they are looked up at.
pub struct Enrichment {
    /// Airline names by ICAO callsign prefix.
    pub airlines: Vec<(String, String)>,
    routes: Vec<(String, LearnedRoute)>,
    pending: Vec<String>,
    last_batch: u128,
    last_persist: u128,
    traffic_api: String,
    failed: Vec<(String, u128)>,
    origin: Instant,
}

/// The work `tick` hands out: callsigns to look up and whether to save.
pub struct TickPlan {
    pub lookups: Vec<String>,
    pub persist: bool,
}

pub open spec fn routes_view(v: Seq<(String, LearnedRoute)>) -> Seq<(Seq<char>, RouteModel)> {
    v.map_values(|e: (String, LearnedRoute)| (e.0@, e.1@))
}

pub open spec fn strings_view(v: Seq<String>) -> Seq<Seq<char>> {
    v.map_values(|s: String| s@)
}

pub open spec fn failed_view(v: Seq<(String, u128)>) -> Seq<(Seq<char>, u128)> {
    v.map_values(|e: (String, u128)| (e.0@, e.1))
}

impl Enrichment {
    /// The state as plain values.
    pub closed spec fn model(&self) -> EnrichmentModel {
        EnrichmentModel {
            routes: routes_view(self.routes@),
            pending: strings_view(self.pending@),
            failed: failed_view(self.failed@),
            last_batch: self.last_batch,
            last_persist: self.last_persist,
        }
    }

    /// The airline table as plain values.
    pub closed spec fn airlines_model(&self) -> Seq<(Seq<char>, Seq<char>)> {
        airlines_view(self.airlines@)
    }

    /// The traffic API base URL.
    pub closed spec fn api(&self) -> Seq<char> {
        self.traffic_api@
    }

    /// Every callsign has at most one route and one failure entry.
    pub closed spec fn wf(&self) -> bool {
        &&& distinct_keys(self.model().routes)
        &&& distinct_keys(self.model().failed)
    }

    /// Enrichment against `traffic_api_url`, starting from the routes saved
    /// earlier (a later entry for the same callsign replaces an earlier one).
    pub fn new(traffic_api_url: &str, cached: Vec<(String, LearnedRoute)>) -> (e: Self)
        ensures
            e.wf(),
            e.api() == traffic_api_url@,
            e.model() == initial_model(cached@),
    {
        let ghost all = routes_view(cached@);
        let n = cached.len();
        let mut rest = cached;
        let mut reversed: Vec<(String, LearnedRoute)> = Vec::new();
        while rest.len() > 0
            invariant
                rest@.len() + reversed@.len() == n,
                n == all.len(),
                routes_view(rest@) == all.take(rest@.len() as int),
                forall|j: int| 0 <= j < reversed@.len() ==> #[trigger] routes_view(reversed@)[j] == all[n - 1 - j],
            decreases rest@.len(),
        {
            let ghost r0 = rest@;
            let item = rest.pop().unwrap();
            let ghost rv0 = reversed@;
            reversed.push(item);
            proof {
                assert(routes_view(rest@) =~= all.take(rest@.len() as int));
                assert forall|j: int| 0 <= j < reversed@.len() implies #[trigger] routes_view(reversed@)[j] == all[n - 1 - j] by {
                    if j < rv0.len() {
                        assert(routes_view(reversed@)[j] == routes_view(rv0)[j]);
                    } else {
                        assert(routes_view(r0)[r0.len() - 1] == all.take(r0.len() as int)[r0.len() - 1]);
                    }
                }
            }
        }
        let mut e = Enrichment {
            airlines: Vec::new(),
            routes: Vec::new(),
            pending: Vec::new(),
            last_batch: 0,
            last_persist: 0,
            traffic_api: traffic_api_url.to_owned(),
            failed: Vec::new(),
            origin: instant_now(),
        };
        assert(e.model().routes =~= upsert_all(all, 0));
        assert(e.model().pending =~= Seq::<Seq<char>>::empty());
        assert(e.model().failed =~= Seq::<(Seq<char>, u128)>::empty());
        let mut i: usize = 0;
        while reversed.len() > 0
            invariant
                i + reversed@.len() == n,
                n == all.len(),
                forall|j: int| 0 <= j < reversed@.len() ==> #[trigger] routes_view(reversed@)[j] == all[n - 1 - j],
                e.wf(),
                e.api() == traffic_api_url@,
                e.model() == (EnrichmentModel {
                    routes: upsert_all(all, i as nat),
                    pending: Seq::empty(),
                    failed: Seq::empty(),
                    last_batch: 0,
                    last_persist: 0,
                }),
            decreases reversed@.len(),
        {
            let ghost rv0 = reversed@;
            let (k, r) = reversed.pop().unwrap();
            proof {
                assert(routes_view(rv0)[rv0.len() - 1] == all[i as int]);
                assert(forall|j: int| 0 <= j < reversed@.len() ==> #[trigger] routes_view(reversed@)[j] == routes_view(rv0)[j]);
            }
            e.insert_route(k, r);
            i += 1;
        }
        e
    }

    /// Looks up the route of `callsign`, reading the clock: a known route
    /// counts a hit and gives its airports; an unknown callsign is queued for
    /// lookup (once, and not within a day of a failed lookup).
    pub fn get_route(&mut self, callsign: &str) -> (r: Option<String>)
        requires
            old(self).wf(),
        ensures
            final(self).wf(),
            final(self).api() == old(self).api(),
            exists|now: u128|
                #[trigger] route_lookup(old(self).model(), callsign@, now) == (final(self).model(), opt_text(r)),
    {
        let now = nanos_since(&self.origin);
        self.get_route_at(callsign, now)
    }

    /// `get_route` with the clock reading `now`.
    pub fn get_route_at(&mut self, callsign: &str, now: u128) -> (r: Option<String>)
        requires
            old(self).wf(),
        ensures
            final(self).wf(),
            final(self).api() == old(self).api(),
            route_lookup(old(self).model(), callsign@, now) == (final(self).model(), opt_text(r)),
    {
        let cs = callsign.to_owned();
        let ghost m0 = self.model();
        match find_route(&self.routes, &cs) {
            Some(i) => {
                let (k, mut route) = self.routes.remove(i);
                route.hits = route.hits.wrapping_add(1);
                let airports = match &route.airports {
                    Some(a) => Some(a.clone()),
                    None => None,
                };
                self.routes.insert(i, (k, route));
                proof {
                    lemma_last_index(m0.routes, cs@);
                    assert(routes_view(self.routes@) =~= m0.routes.update(
                        i as int,
                        (cs@, RouteModel { hits: route.hits, ..m0.routes[i as int].1 }),
                    ));
                    assert forall|a: int, b: int| 0 <= a < b < routes_view(self.routes@).len() implies routes_view(self.routes@)[a].0 != routes_view(self.routes@)[b].0 by {
                        assert(m0.routes[a].0 != m0.routes[b].0);
                    }
                }
                return airports;
            },
            None => {},
        }
        proof {
            lemma_last_index(m0.routes, cs@);
        }
        if self.is_pending(&cs) {
            return None;
        }
        match find_failed(&self.failed, &cs) {
            Some(j) => {
                let t = self.failed[j].1;
                let age = if now >= t {
                    now - t
                } else {
                    0
                };
                if age < RETRY_AFTER_NS {
                    return None;
                }
            },
            None => {},
        }
        let ghost pv = self.pending@;
        self.pending.push(cs);
        assert(strings_view(self.pending@) =~= strings_view(pv).push(callsign@));
        None
    }

    fn is_pending(&self, cs: &String) -> (r: bool)
        ensures
            r == self.model().pending.contains(cs@),
    {
        let mut i: usize = 0;
        while i < self.pending.len()
            invariant
                i <= self.pending@.len(),
                forall|j: int| 0 <= j < i ==> strings_view(self.pending@)[j] != cs@,
            decreases self.pending@.len() - i,
        {
            if self.pending[i] == *cs {
                assert(strings_view(self.pending@)[i as int] == cs@);
                return true;
            }
            i += 1;
        }
        false
    }

    /// The airline of a callsign's first three characters, when listed (the
    /// last entry for that prefix); none for a callsign under three characters.
    pub fn get_airline(&self, callsign: &str) -> (r: Option<&str>)
        ensures
            callsign@.len() < 3 ==> r is None,
            callsign@.len() >= 3 ==> match r {
                Some(name) => {
                    let i = last_index_of(self.airlines_model(), callsign@.take(3));
                    &&& i >= 0
                    &&& name@ == self.airlines_model()[i].1
                },
                None => last_index_of(self.airlines_model(), callsign@.take(3)) == -1,
            },
    {
        let chars = str_chars(callsign);
        if chars.len() < 3 {
            return None;
        }
        let head = [chars[0], chars[1], chars[2]];
        let key = string_from_chars(head.as_slice());
        assert(key@ =~= callsign@.take(3));
        let mut i = self.airlines.len();
        assert(airlines_view(self.airlines@).take(i as int) =~= airlines_view(self.airlines@));
        while i > 0
            invariant
                i <= self.airlines@.len(),
                callsign@.len() >= 3,
                key@ == callsign@.take(3),
                last_index_of(airlines_view(self.airlines@), key@) == last_index_of(
                    airlines_view(self.airlines@).take(i as int),
                    key@,
                ),
            decreases i,
        {
            assert(airlines_view(self.airlines@).take(i as int).drop_last() =~= airlines_view(
                self.airlines@,
            ).take(i - 1));
            if self.airlines[i - 1].0 == key {
                return Some(self.airlines[i - 1].1.as_str());
            }
            i -= 1;
        }
        None
    }

    /// The periodic step, reading the clock: the callsigns to look up now
    /// and whether the routes are due to be saved.
    pub fn tick(&mut self) -> (plan: TickPlan)
        requires
            old(self).wf(),
        ensures
            final(self).wf(),
            final(self).api() == old(self).api(),
            exists|now: u128|
                #[trigger] tick_step(old(self).model(), now) == (
                    final(self).model(),
                    strings_view(plan.lookups@),
                    plan.persist,
                ),
    {
        let now = nanos_since(&self.origin);
        self.tick_at(now)
    }

    /// `tick` with the clock reading `now`.
    pub fn tick_at(&mut self, now: u128) -> (plan: TickPlan)
        requires
            old(self).wf(),
        ensures
            final(self).wf(),
            final(self).api() == old(self).api(),
            tick_step(old(self).model(), now) == (
                final(self).model(),
                strings_view(plan.lookups@),
                plan.persist,
            ),
    {
        let ghost m0 = self.model();
        let mut lookups: Vec<String> = Vec::new();
        let since_batch = if now >= self.last_batch {
            now - self.last_batch
        } else {
            0
        };
        if self.pending.len() > 0 && since_batch >= BATCH_INTERVAL_NS {
            let n = if self.pending.len() < BATCH_SIZE {
                self.pending.len()
            } else {
                BATCH_SIZE
            };
            let mut k: usize = 0;
            while k < n
                invariant
                    n <= m0.pending.len(),
                    k <= n,
                    strings_view(lookups@) == m0.pending.take(k as int),
                    strings_view(self.pending@) == m0.pending.skip(k as int),
                    self.routes@ == old(self).routes@,
                    self.failed@ == old(self).failed@,
                    self.last_batch == old(self).last_batch,
                    self.last_persist == old(self).last_persist,
                    self.traffic_api@ == old(self).traffic_api@,
                decreases n - k,
            {
                let ghost p0 = self.pending@;
                assert(strings_view(p0).len() == p0.len());
                let cs = self.pending.remove(0);
                proof {
                    assert(strings_view(p0)[0] == cs@);
                    assert(m0.pending.skip(k as int)[0] == m0.pending[k as int]);
                }
                let ghost l0 = lookups@;
                lookups.push(cs);
                proof {
                    assert(strings_view(lookups@) =~= strings_view(l0).push(m0.pending[k as int]));
                    assert(m0.pending.take(k as int).push(m0.pending[k as int]) =~= m0.pending.take(k + 1));
                    assert forall|j: int| 0 <= j < strings_view(self.pending@).len() implies #[trigger] strings_view(self.pending@)[j] == m0.pending.skip(k + 1)[j] by {
                        assert(strings_view(self.pending@)[j] == self.pending@[j]@);
                        assert(self.pending@[j] == p0[j + 1]);
                        assert(strings_view(p0)[j + 1] == m0.pending.skip(k as int)[j + 1]);
                    }
                    assert(strings_view(self.pending@) =~= m0.pending.skip(k + 1));
                }
                k += 1;
            }
            self.last_batch = now;
        } else {
            assert(strings_view(lookups@) =~= Seq::<Seq<char>>::empty());
        }
        let since_persist = if now >= self.last_persist {
            now - self.last_persist
        } else {
            0
        };
        let persist = since_persist >= PERSIST_INTERVAL_NS;
        if persist {
            self.last_persist = now;
        }
        TickPlan { lookups, persist }
    }

    /// Takes the answer of one lookup made at `now`: a route is learned, a
    /// failure is remembered.
    pub fn record_lookup(&mut self, callsign: String, route: Option<LearnedRoute>, now: u128)
        requires
            old(self).wf(),
        ensures
            final(self).wf(),
            final(self).api() == old(self).api(),
            final(self).model() == match route {
                Some(r) => EnrichmentModel { routes: upsert(old(self).model().routes, callsign@, r@), ..old(self).model() },
                None => EnrichmentModel { failed: upsert(old(self).model().failed, callsign@, now), ..old(self).model() },
            },
    {
        match route {
            Some(r) => self.insert_route(callsign, r),
            None => self.insert_failed(callsign, now),
        }
    }

    fn insert_failed(&mut self, k: String, t: u128)
        requires
            old(self).wf(),
        ensures
            final(self).wf(),
            final(self).model() == (EnrichmentModel {
                failed: upsert(old(self).model().failed, k@, t),
                ..old(self).model()
            }),
            final(self).api() == old(self).api(),
    {
        let ghost kv = k@;
        let ghost before = self.model().failed;
        match find_failed(&self.failed, &k) {
            Some(i) => {
                self.failed.set(i, (k, t));
                proof {
                    lemma_last_index(before, kv);
                    assert(failed_view(self.failed@) =~= before.update(i as int, (kv, t)));
                    assert forall|a: int, b: int| 0 <= a < b < failed_view(self.failed@).len() implies failed_view(self.failed@)[a].0 != failed_view(self.failed@)[b].0 by {
                        assert(before[a].0 != before[b].0);
                    }
                }
            },
            None => {
                self.failed.push((k, t));
                proof {
                    lemma_last_index(before, kv);
                    assert(failed_view(self.failed@) =~= before.push((kv, t)));
                    assert forall|a: int, b: int| 0 <= a < b < failed_view(self.failed@).len() implies failed_view(self.failed@)[a].0 != failed_view(self.failed@)[b].0 by {
                        if b < before.len() {
                            assert(before[a].0 != before[b].0);
                        } else {
                            assert(before[a].0 != kv);
                        }
                    }
                }
            },
        }
    }

    /// How many callsigns have a learned route.
    pub fn route_count(&self) -> (n: usize)
        requires
            self.wf(),
        ensures
            n == self.model().routes.len(),
    {
        self.routes.len()
    }

    /// The learned routes, for saving.
    pub fn routes(&self) -> (r: &Vec<(String, LearnedRoute)>)
        ensures
            routes_view(r@) == self.model().routes,
    {
        &self.routes
    }

    fn insert_route(&mut self, k: String, r: LearnedRoute)
        requires
            old(self).wf(),
        ensures
            final(self).wf(),
            final(self).model() == (EnrichmentModel {
                routes: upsert(old(self).model().routes, k@, r@),
                ..old(self).model()
            }),
            final(self).api() == old(self).api(),
    {
        let ghost kv = k@;
        let ghost rv = r@;
        let ghost before = self.model().routes;
        match find_route(&self.routes, &k) {
            Some(i) => {
                self.routes.set(i, (k, r));
                proof {
                    lemma_last_index(before, kv);
                    assert(routes_view(self.routes@) =~= before.update(i as int, (kv, rv)));
                    assert forall|a: int, b: int| 0 <= a < b < routes_view(self.routes@).len() implies routes_view(self.routes@)[a].0 != routes_view(self.routes@)[b].0 by {
                        assert(before[a].0 != before[b].0);
                    }
                }
            },
            None => {
                self.routes.push((k, r));
                proof {
                    lemma_last_index(before, kv);
                    assert(routes_view(self.routes@) =~= before.push((kv, rv)));
                    assert forall|a: int, b: int| 0 <= a < b < routes_view(self.routes@).len() implies routes_view(self.routes@)[a].0 != routes_view(self.routes@)[b].0 by {
                        if b < before.len() {
                            assert(before[a].0 != before[b].0);
                        } else {
                            assert(before[a].0 != kv);
                        }
                    }
                }
            },
        }
    }
}

proof fn lemma_last_index_is<V>(s: Seq<(Seq<char>, V)>, k: Seq<char>, j: int)
    requires
        0 <= j < s.len(),
        s[j].0 == k,
        forall|l: int| j < l < s.len() ==> s[l].0 != k,
    ensures
        last_index_of(s, k) == j,
    decreases s.len(),
{
    if s.len() - 1 > j {
        lemma_last_index_is(s.drop_last(), k, j);
    }
}

/// The index at which `upsert` stores the entry for `k`.
proof fn lemma_upsert_found<V>(s: Seq<(Seq<char>, V)>, k: Seq<char>, v: V)
    ensures
        last_index_of(upsert(s, k, v), k) >= 0,
        upsert(s, k, v)[last_index_of(upsert(s, k, v), k)] == (k, v),
{
    lemma_last_index(s, k);
    let i = last_index_of(s, k);
    let u = upsert(s, k, v);
    if i >= 0 {
        lemma_last_index_is(u, k, i);
    } else {
        lemma_last_index_is(u, k, s.len() as int);
    }
}

/// Once a route is learned for a callsign, looking the callsign up
/// gives that route's airports.
pub proof fn lemma_learned_route_served(m: EnrichmentModel, cs: Seq<char>, r: RouteModel, now: u128)
    ensures
        route_lookup(EnrichmentModel { routes: upsert(m.routes, cs, r), ..m }, cs, now).1 == r.airports,
{
    lemma_upsert_found(m.routes, cs, r);
}

/// A callsign without a route whose lookup failed at `t` is not queued
/// for lookup again less than a day later.
pub proof fn lemma_failed_not_retried(m: EnrichmentModel, cs: Seq<char>, t: u128, now: u128)
    requires
        last_index_of(m.routes, cs) == -1,
        t <= now,
        now - t < RETRY_AFTER_NS,
    ensures
        route_lookup(EnrichmentModel { failed: upsert(m.failed, cs, t), ..m }, cs, now).0.pending
            == m.pending,
{
    lemma_upsert_found(m.failed, cs, t);
}

/// A callsign without a route is queued at most once: a lookup adds
/// at most one entry, and once queued, another lookup changes nothing.
pub proof fn lemma_queued_once(m: EnrichmentModel, cs: Seq<char>, t1: u128, t2: u128)
    requires
        last_index_of(m.routes, cs) == -1,
    ensures
        ({
            let m1 = route_lookup(m, cs, t1).0;
            &&& m1.pending.len() <= m.pending.len() + 1
            &&& m1.pending.contains(cs) ==> route_lookup(m1, cs, t2).0 == m1
        }),
{
}

/// The last index is the only place a key can be, and -1 means absent.
proof fn lemma_last_index<V>(s: Seq<(Seq<char>, V)>, k: Seq<char>)
    ensures
        -1 <= last_index_of(s, k) < s.len(),
        last_index_of(s, k) >= 0 ==> s[last_index_of(s, k)].0 == k,
        last_index_of(s, k) == -1 ==> forall|i: int| 0 <= i < s.len() ==> s[i].0 != k,
        forall|i: int| last_index_of(s, k) < i < s.len() ==> s[i].0 != k,
    decreases s.len(),
{
    if s.len() > 0 && s.last().0 != k {
        lemma_last_index(s.drop_last(), k);
        assert forall|i: int| last_index_of(s, k) < i < s.len() implies s[i].0 != k by {
            if i < s.len() - 1 {
                assert(s[i] == s.drop_last()[i]);
            }
        }
    }
}

fn find_failed(v: &Vec<(String, u128)>, k: &String) -> (r: Option<usize>)
    ensures
        match r {
            Some(i) => i as int == last_index_of(failed_view(v@), k@) && i < v@.len(),
            None => last_index_of(failed_view(v@), k@) == -1,
        },
{
    let mut i = v.len();
    assert(failed_view(v@).take(i as int) =~= failed_view(v@));
    while i > 0
        invariant
            i <= v@.len(),
            last_index_of(failed_view(v@), k@) == last_index_of(failed_view(v@).take(i as int), k@),
        decreases i,
    {
        assert(failed_view(v@).take(i as int).drop_last() =~= failed_view(v@).take(i - 1));
        if v[i - 1].0 == *k {
            return Some(i - 1);
        }
        i -= 1;
    }
    None
}

fn find_route(v: &Vec<(String, LearnedRoute)>, k: &String) -> (r: Option<usize>)
    ensures
        match r {
            Some(i) => i as int == last_index_of(routes_view(v@), k@) && i < v@.len(),
            None => last_index_of(routes_view(v@), k@) == -1,
        },
{
    let mut i = v.len();
    assert(routes_view(v@).take(i as int) =~= routes_view(v@));
    while i > 0
        invariant
            i <= v@.len(),
            last_index_of(routes_view(v@), k@) == last_index_of(routes_view(v@).take(i as int), k@),
        decreases i,
    {
        assert(routes_view(v@).take(i as int).drop_last() =~= routes_view(v@).take(i - 1));
        if v[i - 1].0 == *k {
            return Some(i - 1);
        }
        i -= 1;
    }
    None
}

} // verus!
