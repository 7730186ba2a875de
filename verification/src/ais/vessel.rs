//! The vessel table, filled from AIS position (0x01) and static (0x05)
//! frames. Quantities are kept as the frames carry them: positions in
//! 1/600000 degree, speed in 0.1 knot, course in 0.1 degree.
use std::collections::HashMap;
use std::time::Instant;
use vstd::prelude::*;
use vstd::std_specs::iter::IteratorSpec;
use crate::clock::{instant_now, nanos_since};
use crate::enrichment::opt_text;
use crate::ingest::since;

verus! {

broadcast use vstd::std_specs::hash::group_hash_axioms;

/// A vessel is dropped after 30 minutes without a frame, in nanoseconds.
pub const VESSEL_TIMEOUT_NS: u128 = 1_800_000_000_000;

/// Heading value meaning "not available".
pub const HEADING_UNAVAILABLE: u16 = 511;

/// What is known of one vessel.
pub struct Vessel {
    pub mmsi: u32,
    /// Latitude in 1/600000 degree.
    pub lat: Option<i32>,
    /// Longitude in 1/600000 degree.
    pub lon: Option<i32>,
    /// Speed over ground in 0.1 knot.
    pub sog: Option<u16>,
    /// Course over ground in 0.1 degree.
    pub cog: Option<u16>,
    pub hdg: Option<u16>,
    pub name: Option<String>,
    pub callsign: Option<String>,
    pub ship_type: Option<u8>,
    pub imo: Option<u32>,
    /// Time of the last frame, nanoseconds on the table's clock.
    pub seen: u128,
}

/// A `Vessel` as plain values.
pub struct VesselView {
    pub mmsi: u32,
    pub lat: Option<i32>,
    pub lon: Option<i32>,
    pub sog: Option<u16>,
    pub cog: Option<u16>,
    pub hdg: Option<u16>,
    pub name: Option<Seq<char>>,
    pub callsign: Option<Seq<char>>,
    pub ship_type: Option<u8>,
    pub imo: Option<u32>,
    pub seen: u128,
}

impl View for Vessel {
    type V = VesselView;

    open spec fn view(&self) -> VesselView {
        VesselView {
            mmsi: self.mmsi,
            lat: self.lat,
            lon: self.lon,
            sog: self.sog,
            cog: self.cog,
            hdg: self.hdg,
            name: opt_text(self.name),
            callsign: opt_text(self.callsign),
            ship_type: self.ship_type,
            imo: self.imo,
            seen: self.seen,
        }
    }
}

/// The little-endian 32-bit word at `i`.
pub open spec fn le32_at(d: Seq<u8>, i: int) -> u32 {
    (d[i] as u32) | ((d[i + 1] as u32) << 8u32) | ((d[i + 2] as u32) << 16u32) | ((d[i + 3] as u32) << 24u32)
}

/// The little-endian 16-bit word at `i`.
pub open spec fn le16_at(d: Seq<u8>, i: int) -> u16 {
    ((d[i] as u16) | ((d[i + 1] as u16) << 8u16)) as u16
}

/// A vessel first seen at `now`: nothing known but its MMSI.
pub open spec fn new_vessel(mmsi: u32, now: u128) -> VesselView {
    VesselView {
        mmsi,
        lat: None,
        lon: None,
        sog: None,
        cog: None,
        hdg: None,
        name: None,
        callsign: None,
        ship_type: None,
        imo: None,
        seen: now,
    }
}

/// The vessel in `m`, or a new one.
pub open spec fn known_or_new(m: Map<u32, VesselView>, mmsi: u32, now: u128) -> VesselView {
    if m.contains_key(mmsi) {
        m[mmsi]
    } else {
        new_vessel(mmsi, now)
    }
}

/// The table after a position frame at `now`: MMSI (bytes 1-4), longitude
/// (5-8) and latitude (9-12) signed, speed (13-14), course (15-16), heading
/// (17-18, 511 for none), all little-endian.
pub open spec fn position_step(m: Map<u32, VesselView>, d: Seq<u8>, now: u128) -> Map<u32, VesselView> {
    let mmsi = le32_at(d, 1);
    let hdg = le16_at(d, 17);
    let v = known_or_new(m, mmsi, now);
    m.insert(
        mmsi,
        VesselView {
            lon: Some(le32_at(d, 5) as i32),
            lat: Some(le32_at(d, 9) as i32),
            sog: Some(le16_at(d, 13)),
            cog: Some(le16_at(d, 15)),
            hdg: if hdg == HEADING_UNAVAILABLE {
                None
            } else {
                Some(hdg)
            },
            seen: now,
            ..v
        },
    )
}

/// The table after a static frame at `now`: MMSI (bytes 1-4) and IMO
/// number (33-36, little-endian); a non-empty name or callsign, a non-zero
/// ship type or IMO number replaces what is known.
pub open spec fn static_step(
    m: Map<u32, VesselView>,
    d: Seq<u8>,
    name: Seq<char>,
    callsign: Seq<char>,
    ship_type: u8,
    now: u128,
) -> Map<u32, VesselView> {
    let mmsi = le32_at(d, 1);
    let imo = le32_at(d, 33);
    let v = known_or_new(m, mmsi, now);
    m.insert(
        mmsi,
        VesselView {
            name: if name.len() > 0 {
                Some(name)
            } else {
                v.name
            },
            callsign: if callsign.len() > 0 {
                Some(callsign)
            } else {
                v.callsign
            },
            ship_type: if ship_type != 0 {
                Some(ship_type)
            } else {
                v.ship_type
            },
            imo: if imo != 0 {
                Some(imo)
            } else {
                v.imo
            },
            seen: now,
            ..v
        },
    )
}

/// The vessels heard within 30 minutes of `now`.
pub open spec fn fresh_vessels(m: Map<u32, VesselView>, now: u128) -> Map<u32, VesselView> {
    m.restrict(Set::new(|k: u32| m.contains_key(k) && since(m[k].seen, now) < VESSEL_TIMEOUT_NS))
}

fn le32(d: &[u8], i: usize) -> (r: u32)
    requires
        i + 4 <= d@.len(),
    ensures
        r == le32_at(d@, i as int),
{
    (d[i] as u32) | ((d[i + 1] as u32) << 8) | ((d[i + 2] as u32) << 16) | ((d[i + 3] as u32) << 24)
}

fn le16(d: &[u8], i: usize) -> (r: u16)
    requires
        i + 2 <= d@.len(),
    ensures
        r == le16_at(d@, i as int),
{
    (d[i] as u16) | ((d[i + 1] as u16) << 8)
}

fn blank_vessel(mmsi: u32, now: u128) -> (v: Vessel)
    ensures
        v@ == new_vessel(mmsi, now),
{
    Vessel {
        mmsi,
        lat: None,
        lon: None,
        sog: None,
        cog: None,
        hdg: None,
        name: None,
        callsign: None,
        ship_type: None,
        imo: None,
        seen: now,
    }
}

/// The vessels by MMSI.
pub struct VesselStore {
    pub map: HashMap<u32, Vessel>,
    pub origin: Instant,
}

impl VesselStore {
    /// The table as plain values.
    pub open spec fn model(&self) -> Map<u32, VesselView> {
        self.map@.map_values(|v: Vessel| v@)
    }

    /// An empty table.
    pub fn new() -> (s: Self)
        ensures
            s.model() == Map::<u32, VesselView>::empty(),
    {
        let s = VesselStore { map: HashMap::with_capacity(8192), origin: instant_now() };
        assert(s.model() =~= Map::<u32, VesselView>::empty());
        s
    }

    /// Takes the vessel `mmsi` out of the table, or makes a new one.
    fn take_or_new(&mut self, mmsi: u32, now: u128) -> (v: Vessel)
        ensures
            v@ == known_or_new(old(self).model(), mmsi, now),
            final(self).map@ == old(self).map@.remove(mmsi),
    {
        match self.map.remove(&mmsi) {
            Some(v) => v,
            None => blank_vessel(mmsi, now),
        }
    }

    /// Takes a position frame, reading the clock: see `update_position_at`.
    pub fn update_position(&mut self, data: &[u8; 19])
        ensures
            exists|now: u128| #[trigger] position_step(old(self).model(), data@, now) == final(self).model(),
    {
        let now = nanos_since(&self.origin);
        self.update_position_at(data, now);
    }

    /// Takes a position frame at `now` (see `position_step`).
    pub fn update_position_at(&mut self, data: &[u8; 19], now: u128)
        ensures
            final(self).model() == position_step(old(self).model(), data@, now),
    {
        let d = data.as_slice();
        let ghost m0 = self.model();
        let mmsi = le32(d, 1);
        let hdg = le16(d, 17);
        let mut v = self.take_or_new(mmsi, now);
        v.lon = Some(le32(d, 5) as i32);
        v.lat = Some(le32(d, 9) as i32);
        v.sog = Some(le16(d, 13));
        v.cog = Some(le16(d, 15));
        v.hdg = if hdg == HEADING_UNAVAILABLE {
            None
        } else {
            Some(hdg)
        };
        v.seen = now;
        self.map.insert(mmsi, v);
        assert(self.model() =~= position_step(m0, data@, now));
    }

    /// Takes a static frame with its decoded texts, reading the clock: see
    /// `update_static_at`.
    pub fn update_static(&mut self, data: &[u8; 44], name: &str, callsign: &str, ship_type: u8)
        ensures
            exists|now: u128|
                #[trigger] static_step(old(self).model(), data@, name@, callsign@, ship_type, now)
                    == final(self).model(),
    {
        let now = nanos_since(&self.origin);
        self.update_static_at(data, name, callsign, ship_type, now);
    }

    /// Takes a static frame with its decoded texts at `now` (see `static_step`).
    pub fn update_static_at(&mut self, data: &[u8; 44], name: &str, callsign: &str, ship_type: u8, now: u128)
        ensures
            final(self).model() == static_step(old(self).model(), data@, name@, callsign@, ship_type, now),
    {
        let d = data.as_slice();
        let ghost m0 = self.model();
        let mmsi = le32(d, 1);
        let imo = le32(d, 33);
        let mut v = self.take_or_new(mmsi, now);
        if !name.is_empty() {
            v.name = Some(name.to_owned());
        }
        if !callsign.is_empty() {
            v.callsign = Some(callsign.to_owned());
        }
        if ship_type != 0 {
            v.ship_type = Some(ship_type);
        }
        if imo != 0 {
            v.imo = Some(imo);
        }
        v.seen = now;
        self.map.insert(mmsi, v);
        assert(self.model() =~= static_step(m0, data@, name@, callsign@, ship_type, now));
    }

    /// Drops the vessels not heard for 30 minutes, reading the clock.
    pub fn reap_stale(&mut self)
        ensures
            exists|now: u128| #[trigger] fresh_vessels(old(self).model(), now) == final(self).model(),
    {
        let now = nanos_since(&self.origin);
        self.reap_stale_at(now);
    }

    /// Drops the vessels not heard within 30 minutes of `now`.
    pub fn reap_stale_at(&mut self, now: u128)
        ensures
            final(self).model() == fresh_vessels(old(self).model(), now),
    {
        let ghost old_map = self.map@;
        let ghost all = vstd::std_specs::hash::spec_hash_map_iter(&self.map).remaining();
        let mut stale: Vec<u32> = Vec::new();
        for pair in it: self.map.iter()
            invariant
                old_map == self.map@,
                it.seq() == all,
                all == vstd::std_specs::hash::spec_hash_map_iter(&self.map).remaining(),
                forall|k: u32|
                    #[trigger] stale@.contains(k) ==> old_map.contains_key(k) && since(old_map[k].seen, now)
                        >= VESSEL_TIMEOUT_NS,
                forall|i: int|
                    0 <= i < it.index() ==> {
                        let (k, v) = #[trigger] it.seq()[i];
                        since(v.seen, now) >= VESSEL_TIMEOUT_NS ==> stale@.contains(*k)
                    },
        {
            let (k, v) = pair;
            let age = if now >= v.seen {
                now - v.seen
            } else {
                0
            };
            if age >= VESSEL_TIMEOUT_NS {
                let ghost s0 = stale@;
                proof {
                    assert(old_map.contains_key(*k) && old_map[*k] == *v);
                }
                stale.push(*k);
                proof {
                    assert(stale@[s0.len() as int] == *k);
                    assert forall|x: u32| #[trigger] stale@.contains(x) implies s0.contains(x) || x == *k by {
                        let j = choose|j: int| 0 <= j < stale@.len() && stale@[j] == x;
                        if j < s0.len() {
                            assert(s0[j] == x);
                        }
                    }
                    assert forall|x: u32| #[trigger] s0.contains(x) implies stale@.contains(x) by {
                        let j = choose|j: int| 0 <= j < s0.len() && s0[j] == x;
                        assert(stale@[j] == x);
                    }
                }
            }
        }
        proof {
            assert forall|k: u32|
                #[trigger] old_map.contains_key(k) && since(old_map[k].seen, now) >= VESSEL_TIMEOUT_NS
                implies stale@.contains(k) by {
                assert(all.contains((&k, &old_map[k])));
                let i = choose|i: int| 0 <= i < all.len() && all[i] == (&k, &old_map[k]);
                assert(all[i] == (&k, &old_map[k]));
            }
        }
        let mut i: usize = 0;
        while i < stale.len()
            invariant
                i <= stale@.len(),
                forall|k: u32|
                    #[trigger] stale@.contains(k) ==> old_map.contains_key(k) && since(old_map[k].seen, now)
                        >= VESSEL_TIMEOUT_NS,
                forall|k: u32|
                    #[trigger] old_map.contains_key(k) && since(old_map[k].seen, now) >= VESSEL_TIMEOUT_NS
                        ==> stale@.contains(k),
                forall|k: u32|
                    #[trigger] self.map@.contains_key(k) <==> old_map.contains_key(k) && !stale@.take(
                        i as int,
                    ).contains(k),
                forall|k: u32| #[trigger] self.map@.contains_key(k) ==> self.map@[k] == old_map[k],
            decreases stale@.len() - i,
        {
            let k = stale[i];
            self.map.remove(&k);
            proof {
                let t0 = stale@.take(i as int);
                let t1 = stale@.take(i + 1);
                assert(t1 =~= t0.push(k));
                assert(t1[i as int] == k);
                assert forall|x: u32| #[trigger] t1.contains(x) implies t0.contains(x) || x == k by {
                    let j = choose|j: int| 0 <= j < t1.len() && t1[j] == x;
                    if j < t0.len() {
                        assert(t0[j] == x);
                    }
                }
                assert forall|x: u32| #[trigger] t0.contains(x) implies t1.contains(x) by {
                    let j = choose|j: int| 0 <= j < t0.len() && t0[j] == x;
                    assert(t1[j] == x);
                }
            }
            i += 1;
        }
        proof {
            assert(stale@.take(stale@.len() as int) =~= stale@);
            assert(self.map@.map_values(|v: Vessel| v@) =~= fresh_vessels(
                old_map.map_values(|v: Vessel| v@),
                now,
            ));
        }
    }

    /// How many vessels are in the table.
    pub fn count(&self) -> (n: usize)
        ensures
            n == self.model().len(),
    {
        proof {
            assert(self.model().dom() =~= self.map@.dom());
        }
        self.map.len()
    }
}

} // verus!
