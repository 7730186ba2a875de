//! The aircraft table: what each decoded Mode-S message teaches about its
//! aircraft, merged field by field, with registration and type from the
//! aircraft database and the route from the enrichment.
//!
//! Positions are decoded from the stored CPR frames by the caller, which
//! keeps the floating-point position state; `update` says when a new frame
//! was stored.
use std::collections::HashMap;
use std::time::Instant;
use vstd::prelude::*;
use vstd::std_specs::iter::IteratorSpec;
use crate::clock::{instant_now, nanos_since};
use crate::enrichment::{
    initial_model, opt_text, route_lookup, tick_step, Enrichment, EnrichmentModel, LearnedRoute,
    TickPlan,
};
use crate::enrichment::strings_view;
use crate::ingest::since;
use crate::mode_s::{Angle, ModeS, ModeSView, Speed};

verus! {

broadcast use vstd::std_specs::hash::group_hash_axioms;

/// An aircraft is dropped after a minute without messages, in nanoseconds.
pub const STALE_TIMEOUT_NS: u128 = 60_000_000_000;

/// The latest even and odd CPR frames one receiver heard:
/// (latitude, longitude, time).
#[derive(Clone, Copy, Debug)]
pub struct CprSlot {
    pub even: Option<(u32, u32, u128)>,
    pub odd: Option<(u32, u32, u128)>,
}

/// A CPR frame with the time and the receiver it came from.
#[derive(Clone, Copy, Debug, PartialEq, Eq, Structural)]
pub struct CprFrame {
    pub lat: u32,
    pub lon: u32,
    pub time: u128,
    pub receiver_id: u64,
}

/// What is known of one aircraft.
pub struct Aircraft {
    pub hex: u32,
    pub flight: Option<String>,
    pub alt_baro: Option<i32>,
    pub alt_geom: Option<i32>,
    pub gs: Option<Speed>,
    pub track: Option<Angle>,
    pub baro_rate: Option<i32>,
    pub geom_rate: Option<i32>,
    pub squawk: Option<u16>,
    pub category: Option<u8>,
    pub ias: Option<u16>,
    pub tas: Option<u16>,
    pub mag_heading: Option<Angle>,
    pub nic: Option<u8>,
    pub nac_p: Option<u8>,
    pub nac_v: Option<u8>,
    pub sil: Option<u8>,
    pub gva: Option<u8>,
    pub sda: Option<u8>,
    pub nic_baro: Option<u8>,
    pub adsb_version: Option<u8>,
    pub nav_altitude_mcp: Option<u32>,
    pub nav_qnh: Option<u16>,
    pub nav_heading: Option<Angle>,
    pub emergency: Option<u8>,
    /// Messages received (wrapping).
    pub messages: u64,
    /// Time of the last message, nanoseconds on the store's clock.
    pub seen: u128,
    pub addr_type: u8,
    pub on_ground: bool,
    /// Registration from the aircraft database.
    pub reg: Option<String>,
    /// Type designator from the aircraft database.
    pub typecode: Option<String>,
    /// Learned route, such as "VTBS-RJTT".
    pub route: Option<String>,
    /// The latest even and odd CPR frames from any receiver.
    pub cpr_even: Option<CprFrame>,
    pub cpr_odd: Option<CprFrame>,
    /// The latest CPR frames of each receiver.
    pub cpr_slots: HashMap<u64, CprSlot>,
}

/// An `Aircraft` as plain values.
pub struct AircraftView {
    pub hex: u32,
    pub flight: Option<Seq<char>>,
    pub alt_baro: Option<i32>,
    pub alt_geom: Option<i32>,
    pub gs: Option<Speed>,
    pub track: Option<Angle>,
    pub baro_rate: Option<i32>,
    pub geom_rate: Option<i32>,
    pub squawk: Option<u16>,
    pub category: Option<u8>,
    pub ias: Option<u16>,
    pub tas: Option<u16>,
    pub mag_heading: Option<Angle>,
    pub nic: Option<u8>,
    pub nac_p: Option<u8>,
    pub nac_v: Option<u8>,
    pub sil: Option<u8>,
    pub gva: Option<u8>,
    pub sda: Option<u8>,
    pub nic_baro: Option<u8>,
    pub adsb_version: Option<u8>,
    pub nav_altitude_mcp: Option<u32>,
    pub nav_qnh: Option<u16>,
    pub nav_heading: Option<Angle>,
    pub emergency: Option<u8>,
    pub messages: u64,
    pub seen: u128,
    pub addr_type: u8,
    pub on_ground: bool,
    pub reg: Option<Seq<char>>,
    pub typecode: Option<Seq<char>>,
    pub route: Option<Seq<char>>,
    pub cpr_even: Option<CprFrame>,
    pub cpr_odd: Option<CprFrame>,
    pub cpr_slots: Map<u64, CprSlot>,
}

impl View for Aircraft {
    type V = AircraftView;

    open spec fn view(&self) -> AircraftView {
        AircraftView {
            hex: self.hex,
            flight: opt_text(self.flight),
            alt_baro: self.alt_baro,
            alt_geom: self.alt_geom,
            gs: self.gs,
            track: self.track,
            baro_rate: self.baro_rate,
            geom_rate: self.geom_rate,
            squawk: self.squawk,
            category: self.category,
            ias: self.ias,
            tas: self.tas,
            mag_heading: self.mag_heading,
            nic: self.nic,
            nac_p: self.nac_p,
            nac_v: self.nac_v,
            sil: self.sil,
            gva: self.gva,
            sda: self.sda,
            nic_baro: self.nic_baro,
            adsb_version: self.adsb_version,
            nav_altitude_mcp: self.nav_altitude_mcp,
            nav_qnh: self.nav_qnh,
            nav_heading: self.nav_heading,
            emergency: self.emergency,
            messages: self.messages,
            seen: self.seen,
            addr_type: self.addr_type,
            on_ground: self.on_ground,
            reg: opt_text(self.reg),
            typecode: opt_text(self.typecode),
            route: opt_text(self.route),
            cpr_even: self.cpr_even,
            cpr_odd: self.cpr_odd,
            cpr_slots: self.cpr_slots@,
        }
    }
}

/// A newly seen aircraft: nothing known but its address.
pub open spec fn fresh_aircraft(icao: u32) -> AircraftView {
    AircraftView {
        hex: icao,
        flight: None,
        alt_baro: None,
        alt_geom: None,
        gs: None,
        track: None,
        baro_rate: None,
        geom_rate: None,
        squawk: None,
        category: None,
        ias: None,
        tas: None,
        mag_heading: None,
        nic: None,
        nac_p: None,
        nac_v: None,
        sil: None,
        gva: None,
        sda: None,
        nic_baro: None,
        adsb_version: None,
        nav_altitude_mcp: None,
        nav_qnh: None,
        nav_heading: None,
        emergency: None,
        messages: 0,
        seen: 0,
        addr_type: 0,
        on_ground: false,
        reg: None,
        typecode: None,
        route: None,
        cpr_even: None,
        cpr_odd: None,
        cpr_slots: Map::empty(),
    }
}

/// The newer value where the message has one, else the known one.
pub open spec fn merged<T>(known: Option<T>, new: Option<T>) -> Option<T> {
    match new {
        Some(v) => Some(v),
        None => known,
    }
}

/// A wrapping increment.
pub open spec fn bump(n: u64) -> u64 {
    if n == u64::MAX {
        0
    } else {
        (n + 1) as u64
    }
}

/// The aircraft in `m`, or a fresh one.
pub open spec fn known_or_fresh(m: Map<u32, AircraftView>, icao: u32) -> AircraftView {
    if m.contains_key(icao) {
        m[icao]
    } else {
        fresh_aircraft(icao)
    }
}

/// Registration and type from the database entry, where the aircraft has no
/// registration yet and the entry's strings are not empty.
pub open spec fn with_db(ac: AircraftView, entry: Option<(Seq<char>, Seq<char>)>) -> AircraftView {
    match entry {
        Some((r, t)) if ac.reg is None => AircraftView {
            reg: if r.len() > 0 {
                Some(r)
            } else {
                ac.reg
            },
            typecode: if t.len() > 0 {
                Some(t)
            } else {
                ac.typecode
            },
            ..ac
        },
        _ => ac,
    }
}

/// The fields of an ADS-B message merged into the aircraft (all but the
/// flight, route and CPR frames).
pub open spec fn merge_fields(ac: AircraftView, msg: ModeSView, now: u128) -> AircraftView {
    AircraftView {
        messages: bump(ac.messages),
        seen: now,
        addr_type: msg.addr_type,
        on_ground: !msg.airborne,
        alt_baro: merged(ac.alt_baro, msg.altitude),
        alt_geom: merged(ac.alt_geom, msg.alt_gnss),
        gs: merged(ac.gs, msg.gs),
        track: merged(ac.track, msg.track),
        baro_rate: merged(ac.baro_rate, msg.baro_rate),
        geom_rate: merged(ac.geom_rate, msg.geom_rate),
        squawk: merged(ac.squawk, msg.squawk),
        category: merged(ac.category, msg.category),
        ias: merged(ac.ias, msg.ias),
        tas: merged(ac.tas, msg.tas),
        mag_heading: merged(ac.mag_heading, msg.mag_heading),
        nic: merged(ac.nic, msg.nic),
        nac_p: merged(ac.nac_p, msg.nac_p),
        nac_v: merged(ac.nac_v, msg.nac_v),
        sil: merged(ac.sil, msg.sil),
        gva: merged(ac.gva, msg.gva),
        sda: merged(ac.sda, msg.sda),
        nic_baro: merged(ac.nic_baro, msg.nic_baro),
        adsb_version: merged(ac.adsb_version, msg.adsb_version),
        nav_altitude_mcp: merged(ac.nav_altitude_mcp, msg.nav_altitude_mcp),
        nav_qnh: merged(ac.nav_qnh, msg.nav_qnh),
        nav_heading: merged(ac.nav_heading, msg.nav_heading),
        emergency: merged(ac.emergency, msg.emergency),
        ..ac
    }
}

/// The CPR frame of a message, stored in the receiver's slot and as the
/// latest frame of its parity.
pub open spec fn with_cpr(ac: AircraftView, msg: ModeSView, now: u128) -> AircraftView {
    match (msg.cpr_lat, msg.cpr_lon, msg.cpr_odd) {
        (Some(lat), Some(lon), Some(odd)) => {
            let rid = msg.receiver_id;
            let slot = if ac.cpr_slots.contains_key(rid) {
                ac.cpr_slots[rid]
            } else {
                CprSlot { even: None, odd: None }
            };
            let frame = CprFrame { lat, lon, time: now, receiver_id: rid };
            if odd {
                AircraftView {
                    cpr_slots: ac.cpr_slots.insert(rid, CprSlot { odd: Some((lat, lon, now)), ..slot }),
                    cpr_odd: Some(frame),
                    ..ac
                }
            } else {
                AircraftView {
                    cpr_slots: ac.cpr_slots.insert(rid, CprSlot { even: Some((lat, lon, now)), ..slot }),
                    cpr_even: Some(frame),
                    ..ac
                }
            }
        },
        _ => ac,
    }
}

/// Whether a message carries a whole CPR frame.
pub open spec fn has_cpr(msg: ModeSView) -> bool {
    msg.cpr_lat is Some && msg.cpr_lon is Some && msg.cpr_odd is Some
}

/// The table as plain values.
pub struct StoreModel {
    pub aircraft: Map<u32, AircraftView>,
    pub messages_total: u64,
    pub enrichment: EnrichmentModel,
}

/// The database as plain values.
pub open spec fn db_view(db: Map<u32, (String, String)>) -> Map<u32, (Seq<char>, Seq<char>)> {
    db.map_values(|e: (String, String)| (e.0@, e.1@))
}

/// The database entry of an aircraft, if any.
pub open spec fn db_entry(db: Map<u32, (Seq<char>, Seq<char>)>, icao: u32) -> Option<(Seq<char>, Seq<char>)> {
    if db.contains_key(icao) {
        Some(db[icao])
    } else {
        None
    }
}

/// One message at `now`, against the database `db`: the table after it,
/// and whether a CPR frame was stored.
///
/// Invalid messages and the null address change nothing. Every other
/// message is counted. A plain Mode-S reply (address type 7) never creates
/// an aircraft from a DF11 all-call or from a reply without altitude or
/// squawk; otherwise it updates count, time, address type, altitude and
/// squawk. An ADS-B message creates or updates the aircraft: database
/// fields when it has no registration yet, every field the message carries,
/// the flight and, while the aircraft has no route, the learned route of its
/// callsign, and the CPR frame.
pub open spec fn update_step(
    s: StoreModel,
    db: Map<u32, (Seq<char>, Seq<char>)>,
    msg: ModeSView,
    now: u128,
) -> (StoreModel, bool) {
    if !msg.valid || msg.icao == 0 {
        (s, false)
    } else {
        let s1 = StoreModel { messages_total: bump(s.messages_total), ..s };
        if msg.addr_type == 7 {
            (mode_s_step(s1, msg, now), false)
        } else {
            adsb_step(s1, db, msg, now)
        }
    }
}

/// A plain Mode-S reply: a DF11 all-call, or a reply without altitude and
/// squawk, changes nothing; any other updates count, time, address type,
/// altitude and squawk, creating the aircraft if needed.
pub open spec fn mode_s_step(s: StoreModel, msg: ModeSView, now: u128) -> StoreModel {
    if msg.df == 11 || (msg.altitude is None && msg.squawk is None) {
        s
    } else {
        let ac = known_or_fresh(s.aircraft, msg.icao);
        let ac2 = AircraftView {
            messages: bump(ac.messages),
            seen: now,
            addr_type: 7,
            alt_baro: merged(ac.alt_baro, msg.altitude),
            squawk: merged(ac.squawk, msg.squawk),
            ..ac
        };
        StoreModel { aircraft: s.aircraft.insert(msg.icao, ac2), ..s }
    }
}

/// The flight of a message with a callsign, and the learned route of that
/// callsign while the aircraft has none: the aircraft and the enrichment after.
pub open spec fn callsign_step(ac: AircraftView, e: EnrichmentModel, msg: ModeSView, now: u128) -> (
    AircraftView,
    EnrichmentModel,
) {
    match msg.callsign {
        Some(cs) => {
            if ac.route is None {
                let (e2, r) = route_lookup(e, cs, now);
                (AircraftView { flight: Some(cs), route: merged(ac.route, r), ..ac }, e2)
            } else {
                (AircraftView { flight: Some(cs), ..ac }, e)
            }
        },
        None => (ac, e),
    }
}

/// An ADS-B message: the aircraft (created if needed) with database fields,
/// the message's fields, flight, route and CPR frame; and whether a CPR frame
/// was stored.
pub open spec fn adsb_step(
    s: StoreModel,
    db: Map<u32, (Seq<char>, Seq<char>)>,
    msg: ModeSView,
    now: u128,
) -> (StoreModel, bool) {
    let ac0 = with_db(known_or_fresh(s.aircraft, msg.icao), db_entry(db, msg.icao));
    let ac1 = merge_fields(ac0, msg, now);
    let (ac2, e2) = callsign_step(ac1, s.enrichment, msg, now);
    let ac3 = with_cpr(ac2, msg, now);
    (StoreModel { aircraft: s.aircraft.insert(msg.icao, ac3), enrichment: e2, ..s }, has_cpr(msg))
}

/// The aircraft heard within the timeout at `now`.
pub open spec fn fresh_aircraft_at(m: Map<u32, AircraftView>, now: u128) -> Map<u32, AircraftView> {
    m.restrict(Set::new(|k: u32| m.contains_key(k) && since(m[k].seen, now) < STALE_TIMEOUT_NS))
}

/// An invalid message, or one with the null address, changes nothing.
pub proof fn lemma_invalid_ignored(s: StoreModel, db: Map<u32, (Seq<char>, Seq<char>)>, msg: ModeSView, now: u128)
    requires
        !msg.valid || msg.icao == 0,
    ensures
        update_step(s, db, msg, now) == (s, false),
{
}

/// A plain Mode-S reply never creates an aircraft, and a DF11
/// all-call changes no aircraft at all.
pub proof fn lemma_mode_s_never_creates(
    s: StoreModel,
    db: Map<u32, (Seq<char>, Seq<char>)>,
    msg: ModeSView,
    now: u128,
)
    requires
        msg.addr_type == 7,
    ensures
        update_step(s, db, msg, now).0.aircraft.dom() == s.aircraft.dom() || (msg.df != 11
            && update_step(s, db, msg, now).0.aircraft.dom() == s.aircraft.dom().insert(msg.icao)),
        msg.df == 11 ==> update_step(s, db, msg, now).0.aircraft == s.aircraft,
        !update_step(s, db, msg, now).1,
{
    if msg.valid && msg.icao != 0 && msg.df != 11 && !(msg.altitude is None && msg.squawk is None) {
        assert(update_step(s, db, msg, now).0.aircraft.dom() =~= s.aircraft.dom().insert(msg.icao));
    }
}

/// After an ADS-B message the aircraft holds every field the message
/// carries, and the message is counted.
pub proof fn lemma_adsb_fields_kept(
    s: StoreModel,
    db: Map<u32, (Seq<char>, Seq<char>)>,
    msg: ModeSView,
    now: u128,
)
    requires
        msg.valid,
        msg.icao != 0,
        msg.addr_type != 7,
    ensures
        ({
            let ac = update_step(s, db, msg, now).0.aircraft[msg.icao];
            &&& update_step(s, db, msg, now).0.aircraft.contains_key(msg.icao)
            &&& ac.seen == now
            &&& ac.messages == bump(known_or_fresh(s.aircraft, msg.icao).messages)
            &&& msg.altitude is Some ==> ac.alt_baro == msg.altitude
            &&& msg.squawk is Some ==> ac.squawk == msg.squawk
            &&& msg.gs is Some ==> ac.gs == msg.gs
            &&& msg.track is Some ==> ac.track == msg.track
            &&& msg.callsign is Some ==> ac.flight == msg.callsign
            &&& msg.category is Some ==> ac.category == msg.category
        }),
        update_step(s, db, msg, now).0.messages_total == bump(s.messages_total),
        update_step(s, db, msg, now).1 == has_cpr(msg),
{
}

/// Geometric altitude comes from the GNSS altitude alone: after any
/// message every aircraft's geometric altitude is the message's GNSS
/// altitude when an ADS-B message for it carries one, and otherwise what it
/// was (none for an aircraft the message creates); the barometric altitude
/// never lands there.
pub proof fn lemma_geometric_altitude_from_gnss(
    s: StoreModel,
    db: Map<u32, (Seq<char>, Seq<char>)>,
    msg: ModeSView,
    now: u128,
)
    ensures
        forall|icao: u32|
            #[trigger] update_step(s, db, msg, now).0.aircraft.contains_key(icao) ==> update_step(
                s,
                db,
                msg,
                now,
            ).0.aircraft[icao].alt_geom == if icao == msg.icao && msg.valid && msg.icao != 0
                && msg.addr_type != 7 && msg.alt_gnss is Some {
                msg.alt_gnss
            } else if s.aircraft.contains_key(icao) {
                s.aircraft[icao].alt_geom
            } else {
                None
            },
{
}

/// The aircraft table, with the aircraft database and the route enrichment.
pub struct Store {
    pub map: HashMap<u32, Aircraft>,
    pub messages_total: u64,
    /// Registration and type designator by address.
    pub db: HashMap<u32, (String, String)>,
    pub enrichment: Enrichment,
    pub origin: Instant,
}

impl Store {
    /// The table as plain values.
    pub open spec fn model(&self) -> StoreModel {
        StoreModel {
            aircraft: self.map@.map_values(|a: Aircraft| a@),
            messages_total: self.messages_total,
            enrichment: self.enrichment.model(),
        }
    }

    /// The route enrichment is well formed.
    pub open spec fn wf(&self) -> bool {
        self.enrichment.wf()
    }

    /// An empty table against the traffic API at `traffic_api`, with no
    /// aircraft database and no learned routes.
    pub fn new(traffic_api: &str) -> (s: Self)
        ensures
            s.wf(),
            s.model().aircraft == Map::<u32, AircraftView>::empty(),
            s.model().messages_total == 0,
            s.db@ == Map::<u32, (String, String)>::empty(),
            s.enrichment.api() == traffic_api@,
            s.model().enrichment == initial_model(Seq::empty()),
    {
        let cached: Vec<(String, LearnedRoute)> = Vec::new();
        assert(cached@ =~= Seq::empty());
        Self::with_data(traffic_api, HashMap::new(), cached)
    }

    /// An empty table with the aircraft database `db` and the routes saved
    /// earlier.
    pub fn with_data(
        traffic_api: &str,
        db: HashMap<u32, (String, String)>,
        cached: Vec<(String, LearnedRoute)>,
    ) -> (s: Self)
        ensures
            s.wf(),
            s.model().aircraft == Map::<u32, AircraftView>::empty(),
            s.model().messages_total == 0,
            s.db@ == db@,
            s.enrichment.api() == traffic_api@,
            s.model().enrichment == initial_model(cached@),
    {
        let enrichment = Enrichment::new(traffic_api, cached);
        let s = Store {
            map: HashMap::with_capacity(16384),
            messages_total: 0,
            db,
            enrichment,
            origin: instant_now(),
        };
        assert(s.model().aircraft =~= Map::<u32, AircraftView>::empty());
        s
    }

    /// Takes one decoded message, reading the clock: see `update_at`.
    pub fn update(&mut self, msg: ModeS) -> (cpr: bool)
        requires
            old(self).wf(),
        ensures
            final(self).wf(),
            final(self).db@ == old(self).db@,
            final(self).enrichment.api() == old(self).enrichment.api(),
            exists|now: u128|
                #[trigger] update_step(old(self).model(), db_view(old(self).db@), msg@, now) == (
                    final(self).model(),
                    cpr,
                ),
    {
        let now = nanos_since(&self.origin);
        self.update_at(msg, now)
    }

    /// Takes one decoded message at `now` (see `update_step`); true when it
    /// stored a CPR frame, so that a position may be decoded.
    pub fn update_at(&mut self, msg: ModeS, now: u128) -> (cpr: bool)
        requires
            old(self).wf(),
        ensures
            final(self).wf(),
            final(self).db@ == old(self).db@,
            final(self).enrichment.api() == old(self).enrichment.api(),
            update_step(old(self).model(), db_view(old(self).db@), msg@, now) == (
                final(self).model(),
                cpr,
            ),
            forall|icao: u32|
                #[trigger] final(self).model().aircraft.contains_key(icao)
                    ==> final(self).model().aircraft[icao].alt_geom == if icao == msg.icao && msg.valid && msg.icao
                    != 0 && msg.addr_type != 7 && msg.alt_gnss is Some {
                    msg.alt_gnss
                } else if old(self).model().aircraft.contains_key(icao) {
                    old(self).model().aircraft[icao].alt_geom
                } else {
                    None
                },
    {
        proof {
            lemma_geometric_altitude_from_gnss(self.model(), db_view(self.db@), msg@, now);
        }
        if !msg.valid || msg.icao == 0 {
            return false;
        }
        self.messages_total = self.messages_total.wrapping_add(1);
        if msg.addr_type == 7 {
            self.update_mode_s(&msg, now);
            return false;
        }
        self.update_adsb(&msg, now)
    }

    fn update_mode_s(&mut self, msg: &ModeS, now: u128)
        requires
            old(self).wf(),
        ensures
            final(self).wf(),
            final(self).db@ == old(self).db@,
            final(self).enrichment == old(self).enrichment,
            final(self).model() == mode_s_step(old(self).model(), msg@, now),
    {
        if msg.df == 11 || (msg.altitude.is_none() && msg.squawk.is_none()) {
            return;
        }
        let ghost m0 = self.model();
        let icao = msg.icao;
        let mut ac = self.take_or_new(icao);
        ac.messages = ac.messages.wrapping_add(1);
        ac.seen = now;
        ac.addr_type = 7;
        ac.alt_baro = pick(ac.alt_baro, msg.altitude);
        ac.squawk = pick(ac.squawk, msg.squawk);
        let ghost acv = ac@;
        self.map.insert(icao, ac);
        proof {
            assert(self.map@.map_values(|a: Aircraft| a@) =~= m0.aircraft.insert(icao, acv));
        }
    }

    fn update_adsb(&mut self, msg: &ModeS, now: u128) -> (cpr: bool)
        requires
            old(self).wf(),
        ensures
            final(self).wf(),
            final(self).db@ == old(self).db@,
            final(self).enrichment.api() == old(self).enrichment.api(),
            (final(self).model(), cpr) == adsb_step(old(self).model(), db_view(old(self).db@), msg@, now),
    {
        let ghost m0 = self.model();
        let icao = msg.icao;
        let mut ac = self.take_or_new(icao);
        apply_db(&mut ac, &self.db, icao);
        merge_message(&mut ac, msg, now);
        apply_callsign(&mut self.enrichment, &mut ac, msg, now);
        let cpr = store_cpr(&mut ac, msg, now);
        let ghost acv = ac@;
        self.map.insert(icao, ac);
        proof {
            assert(self.map@.map_values(|a: Aircraft| a@) =~= m0.aircraft.insert(icao, acv));
        }
        cpr
    }

    /// Takes the aircraft `icao` out of the table, or makes a fresh one.
    fn take_or_new(&mut self, icao: u32) -> (ac: Aircraft)
        ensures
            ac@ == known_or_fresh(old(self).model().aircraft, icao),
            final(self).map@ == old(self).map@.remove(icao),
            final(self).messages_total == old(self).messages_total,
            final(self).db@ == old(self).db@,
            final(self).enrichment == old(self).enrichment,
    {
        match self.map.remove(&icao) {
            Some(a) => a,
            None => new_aircraft(icao),
        }
    }

    /// How many aircraft are in the table.
    pub fn aircraft_count(&self) -> (n: usize)
        ensures
            n == self.model().aircraft.len(),
    {
        proof {
            assert(self.map@.map_values(|a: Aircraft| a@).dom() =~= self.map@.dom());
        }
        self.map.len()
    }

    /// Drops the aircraft not heard for a minute and runs the periodic step
    /// of the enrichment, reading the clock: see `reap_stale_at`.
    pub fn reap_stale(&mut self) -> (plan: TickPlan)
        requires
            old(self).wf(),
        ensures
            final(self).wf(),
            final(self).db@ == old(self).db@,
            final(self).enrichment.api() == old(self).enrichment.api(),
            exists|now: u128|
                #![trigger tick_step(old(self).model().enrichment, now)]
                final(self).model().aircraft == fresh_aircraft_at(old(self).model().aircraft, now)
                    && tick_step(old(self).model().enrichment, now) == (
                    final(self).model().enrichment,
                    strings_view(plan.lookups@),
                    plan.persist,
                ),
    {
        let now = nanos_since(&self.origin);
        self.reap_stale_at(now)
    }

    /// Drops the aircraft not heard within a minute of `now` and runs the
    /// periodic step of the enrichment at `now`.
    pub fn reap_stale_at(&mut self, now: u128) -> (plan: TickPlan)
        requires
            old(self).wf(),
        ensures
            final(self).wf(),
            final(self).db@ == old(self).db@,
            final(self).enrichment.api() == old(self).enrichment.api(),
            final(self).messages_total == old(self).messages_total,
            final(self).model().aircraft == fresh_aircraft_at(old(self).model().aircraft, now),
            tick_step(old(self).model().enrichment, now) == (
                final(self).model().enrichment,
                strings_view(plan.lookups@),
                plan.persist,
            ),
    {
        let ghost old_map = self.map@;
        let ghost all = vstd::std_specs::hash::spec_hash_map_iter(&self.map).remaining();
        let mut stale: Vec<u32> = Vec::new();
        for pair in it: self.map.iter()
            invariant
                old_map == self.map@,
                it.seq() == all,
                all == vstd::std_specs::hash::spec_hash_map_iter(&self.map).remaining(),
                forall|k: u32|
                    #[trigger] stale@.contains(k) ==> old_map.contains_key(k) && since(
                        old_map[k].seen,
                        now,
                    ) >= STALE_TIMEOUT_NS,
                forall|i: int|
                    0 <= i < it.index() ==> {
                        let (k, a) = #[trigger] it.seq()[i];
                        since(a.seen, now) >= STALE_TIMEOUT_NS ==> stale@.contains(*k)
                    },
        {
            let (k, a) = pair;
            let age = if now >= a.seen {
                now - a.seen
            } else {
                0
            };
            if age >= STALE_TIMEOUT_NS {
                let ghost s0 = stale@;
                proof {
                    assert(old_map.contains_key(*k) && old_map[*k] == *a);
                }
                stale.push(*k);
                proof {
                    assert(stale@[s0.len() as int] == *k);
                    assert forall|x: u32| #[trigger] stale@.contains(x) implies s0.contains(x) || x == *k by {
                        let j = choose|j: int| 0 <= j < stale@.len() && stale@[j] == x;
                        if j < s0.len() {
                            assert(s0[j] == x);
                        }
                    }
                    assert forall|x: u32| #[trigger] s0.contains(x) implies stale@.contains(x) by {
                        let j = choose|j: int| 0 <= j < s0.len() && s0[j] == x;
                        assert(stale@[j] == x);
                    }
                }
            }
        }
        proof {
            assert forall|k: u32|
                #[trigger] old_map.contains_key(k) && since(old_map[k].seen, now) >= STALE_TIMEOUT_NS
                implies stale@.contains(k) by {
                assert(all.contains((&k, &old_map[k])));
                let i = choose|i: int| 0 <= i < all.len() && all[i] == (&k, &old_map[k]);
                assert(all[i] == (&k, &old_map[k]));
            }
        }
        let mut i: usize = 0;
        while i < stale.len()
            invariant
                i <= stale@.len(),
                forall|k: u32|
                    #[trigger] stale@.contains(k) ==> old_map.contains_key(k) && since(
                        old_map[k].seen,
                        now,
                    ) >= STALE_TIMEOUT_NS,
                forall|k: u32|
                    #[trigger] old_map.contains_key(k) && since(old_map[k].seen, now)
                        >= STALE_TIMEOUT_NS ==> stale@.contains(k),
                forall|k: u32|
                    #[trigger] self.map@.contains_key(k) <==> old_map.contains_key(k)
                        && !stale@.take(i as int).contains(k),
                forall|k: u32| #[trigger] self.map@.contains_key(k) ==> self.map@[k] == old_map[k],
                self.enrichment == old(self).enrichment,
                self.db@ == old(self).db@,
                self.messages_total == old(self).messages_total,
            decreases stale@.len() - i,
        {
            let k = stale[i];
            self.map.remove(&k);
            proof {
                let t0 = stale@.take(i as int);
                let t1 = stale@.take(i + 1);
                assert(t1 =~= t0.push(k));
                assert(t1[i as int] == k);
                assert forall|x: u32| #[trigger] t1.contains(x) implies t0.contains(x) || x == k by {
                    let j = choose|j: int| 0 <= j < t1.len() && t1[j] == x;
                    if j < t0.len() {
                        assert(t0[j] == x);
                    }
                }
                assert forall|x: u32| #[trigger] t0.contains(x) implies t1.contains(x) by {
                    let j = choose|j: int| 0 <= j < t0.len() && t0[j] == x;
                    assert(t1[j] == x);
                }
            }
            i += 1;
        }
        proof {
            assert(stale@.take(stale@.len() as int) =~= stale@);
            let fresh = fresh_aircraft_at(old_map.map_values(|a: Aircraft| a@), now);
            assert(self.map@.map_values(|a: Aircraft| a@) =~= fresh);
        }
        self.enrichment.tick_at(now)
    }
}

/// The newer value where there is one.
fn pick<T: Copy>(known: Option<T>, new: Option<T>) -> (r: Option<T>)
    ensures
        r == merged(known, new),
{
    match new {
        Some(v) => Some(v),
        None => known,
    }
}

/// Registration and type from the aircraft database.
fn apply_db(ac: &mut Aircraft, db: &HashMap<u32, (String, String)>, icao: u32)
    ensures
        final(ac)@ == with_db(old(ac)@, db_entry(db_view(db@), icao)),
{
    if ac.reg.is_none() {
        match db.get(&icao) {
            Some(entry) => {
                if !entry.0.as_str().is_empty() {
                    ac.reg = Some(entry.0.clone());
                }
                if !entry.1.as_str().is_empty() {
                    ac.typecode = Some(entry.1.clone());
                }
            },
            None => {},
        }
    }
}

/// The flight and, while there is none, the learned route.
fn apply_callsign(enrichment: &mut Enrichment, ac: &mut Aircraft, msg: &ModeS, now: u128)
    requires
        old(enrichment).wf(),
    ensures
        final(enrichment).wf(),
        final(enrichment).api() == old(enrichment).api(),
        (final(ac)@, final(enrichment).model()) == callsign_step(old(ac)@, old(enrichment).model(), msg@, now),
{
    match &msg.callsign {
        Some(cs) => {
            ac.flight = Some(cs.clone());
            if ac.route.is_none() {
                match enrichment.get_route_at(cs.as_str(), now) {
                    Some(route) => {
                        ac.route = Some(route);
                    },
                    None => {},
                }
            }
        },
        None => {},
    }
}

/// Merges the fields of an ADS-B message into `ac` (all but the flight,
/// route and CPR frame).
fn merge_message(ac: &mut Aircraft, msg: &ModeS, now: u128)
    ensures
        final(ac)@ == merge_fields(old(ac)@, msg@, now),
{
    ac.messages = ac.messages.wrapping_add(1);
    ac.seen = now;
    ac.addr_type = msg.addr_type;
    ac.on_ground = !msg.airborne;
    ac.alt_baro = pick(ac.alt_baro, msg.altitude);
    ac.alt_geom = pick(ac.alt_geom, msg.alt_gnss);
    ac.gs = pick(ac.gs, msg.gs);
    ac.track = pick(ac.track, msg.track);
    ac.baro_rate = pick(ac.baro_rate, msg.baro_rate);
    ac.geom_rate = pick(ac.geom_rate, msg.geom_rate);
    ac.squawk = pick(ac.squawk, msg.squawk);
    ac.category = pick(ac.category, msg.category);
    ac.ias = pick(ac.ias, msg.ias);
    ac.tas = pick(ac.tas, msg.tas);
    ac.mag_heading = pick(ac.mag_heading, msg.mag_heading);
    ac.nic = pick(ac.nic, msg.nic);
    ac.nac_p = pick(ac.nac_p, msg.nac_p);
    ac.nac_v = pick(ac.nac_v, msg.nac_v);
    ac.sil = pick(ac.sil, msg.sil);
    ac.gva = pick(ac.gva, msg.gva);
    ac.sda = pick(ac.sda, msg.sda);
    ac.nic_baro = pick(ac.nic_baro, msg.nic_baro);
    ac.adsb_version = pick(ac.adsb_version, msg.adsb_version);
    ac.nav_altitude_mcp = pick(ac.nav_altitude_mcp, msg.nav_altitude_mcp);
    ac.nav_qnh = pick(ac.nav_qnh, msg.nav_qnh);
    ac.nav_heading = pick(ac.nav_heading, msg.nav_heading);
    ac.emergency = pick(ac.emergency, msg.emergency);
}

/// Stores the CPR frame of `msg`, if it has one, and says whether it did.
fn store_cpr(ac: &mut Aircraft, msg: &ModeS, now: u128) -> (cpr: bool)
    ensures
        final(ac)@ == with_cpr(old(ac)@, msg@, now),
        cpr == has_cpr(msg@),
{
    match (msg.cpr_lat, msg.cpr_lon, msg.cpr_odd) {
        (Some(lat), Some(lon), Some(odd)) => {
            let rid = msg.receiver_id;
            let mut slot = match ac.cpr_slots.get(&rid) {
                Some(s) => *s,
                None => CprSlot { even: None, odd: None },
            };
            if odd {
                slot.odd = Some((lat, lon, now));
            } else {
                slot.even = Some((lat, lon, now));
            }
            ac.cpr_slots.insert(rid, slot);
            let frame = CprFrame { lat, lon, time: now, receiver_id: rid };
            if odd {
                ac.cpr_odd = Some(frame);
            } else {
                ac.cpr_even = Some(frame);
            }
            return true;
        },
        _ => {},
    }
    false
}

/// A fresh aircraft record.
fn new_aircraft(icao: u32) -> (ac: Aircraft)
    ensures
        ac@ == fresh_aircraft(icao),
{
    let ac = Aircraft {
        hex: icao,
        flight: None,
        alt_baro: None,
        alt_geom: None,
        gs: None,
        track: None,
        baro_rate: None,
        geom_rate: None,
        squawk: None,
        category: None,
        ias: None,
        tas: None,
        mag_heading: None,
        nic: None,
        nac_p: None,
        nac_v: None,
        sil: None,
        gva: None,
        sda: None,
        nic_baro: None,
        adsb_version: None,
        nav_altitude_mcp: None,
        nav_qnh: None,
        nav_heading: None,
        emergency: None,
        messages: 0,
        seen: 0,
        addr_type: 0,
        on_ground: false,
        reg: None,
        typecode: None,
        route: None,
        cpr_even: None,
        cpr_odd: None,
        cpr_slots: HashMap::new(),
    };
    assert(ac@.cpr_slots =~= Map::<u64, CprSlot>::empty());
    ac
}

} // verus!
