//! AIS: NMEA payload decoding into binary frames, sentence assembly,
//! duplicate suppression, and the list of AIS feed sources.
use std::time::Instant;
use vstd::prelude::*;
use crate::ais::dedup::DedupCache;
use crate::ais::fragments::FragmentAssembler;
use crate::text::{parse_usize, parse_usize_spec, split_chars, split_fields, str_chars, string_from_chars};

pub mod decode;
pub mod dedup;
pub mod vessel;
pub mod fragments;

verus! {

/// A TCP feed of AIS sentences and its receive statistics.
pub struct AisSource {
    pub name: String,
    pub host: String,
    pub port: u16,
    pub connected: bool,
    pub received: u64,
    pub last_msg: Option<Instant>,
}

/// How long a repeated sentence counts as a duplicate: 30 seconds.
pub const DEDUP_TTL_NS: u128 = 30_000_000_000;

/// The AIS sources with the duplicate filter and sentence assembler they share.
pub struct AisIngest {
    pub sources: Vec<AisSource>,
    dedup: DedupCache,
    assembler: FragmentAssembler,
}

/// Index of the first `c` in `s`, or -1.
pub open spec fn index_of_first(s: Seq<char>, c: char) -> int
    decreases s.len(),
{
    if s.len() == 0 {
        -1
    } else if s[0] == c {
        0
    } else {
        let r = index_of_first(s.drop_first(), c);
        if r < 0 {
            -1
        } else {
            r + 1
        }
    }
}

/// Index of the last `c` in `s`, or -1.
pub open spec fn index_of_last(s: Seq<char>, c: char) -> int
    decreases s.len(),
{
    if s.len() == 0 {
        -1
    } else if s.last() == c {
        s.len() - 1
    } else {
        index_of_last(s.drop_last(), c)
    }
}

/// `str::parse::<u16>`: a `usize` reading that fits in 16 bits.
pub open spec fn parse_u16_spec(f: Seq<char>) -> Option<u16> {
    match parse_usize_spec(f) {
        Some(v) => if v <= 65535 {
            Some(v as u16)
        } else {
            None
        },
        None => None,
    }
}

/// One `name=host:port` entry: split at the first '=' and the last ':'
/// after it; none when either is missing or the port is no `u16`.
pub open spec fn source_entry(e: Seq<char>) -> Option<(Seq<char>, Seq<char>, u16)> {
    let i = index_of_first(e, '=');
    if i < 0 {
        None
    } else {
        let name = e.take(i);
        let addr = e.skip(i + 1);
        let j = index_of_last(addr, ':');
        if j < 0 {
            None
        } else {
            match parse_u16_spec(addr.skip(j + 1)) {
                Some(port) => Some((name, addr.take(j), port)),
                None => None,
            }
        }
    }
}

/// The valid entries among the first `n` comma-separated fields, in order.
pub open spec fn sources_among(fields: Seq<Seq<char>>, n: nat) -> Seq<(Seq<char>, Seq<char>, u16)>
    decreases n,
{
    if n == 0 {
        Seq::empty()
    } else {
        let before = sources_among(fields, (n - 1) as nat);
        match source_entry(fields[n - 1]) {
            Some(s) => before.push(s),
            None => before,
        }
    }
}

/// The sources a configuration string lists.
pub open spec fn sources_of(config: Seq<char>) -> Seq<(Seq<char>, Seq<char>, u16)> {
    let f = split_fields(config, ',');
    sources_among(f, f.len())
}

/// Views of parsed sources.
pub open spec fn sources_view(v: Seq<(String, String, u16)>) -> Seq<(Seq<char>, Seq<char>, u16)> {
    v.map_values(|s: (String, String, u16)| (s.0@, s.1@, s.2))
}

fn first_index(s: &[char], c: char) -> (r: Option<usize>)
    ensures
        match r {
            Some(i) => i as int == index_of_first(s@, c) && i < s@.len(),
            None => index_of_first(s@, c) == -1,
        },
{
    let mut i: usize = 0;
    while i < s.len()
        invariant
            i <= s@.len(),
            forall|j: int| 0 <= j < i ==> s@[j] != c,
        decreases s@.len() - i,
    {
        if s[i] == c {
            proof {
                lemma_first_index(s@, c, i as int);
            }
            return Some(i);
        }
        i += 1;
    }
    proof {
        lemma_first_index(s@, c, s@.len() as int);
    }
    None
}

/// With no `c` before `i`: the first `c` is at `i` when `s[i] == c`, and
/// there is none when `i` is the end.
proof fn lemma_first_index(s: Seq<char>, c: char, i: int)
    requires
        0 <= i <= s.len(),
        forall|j: int| 0 <= j < i ==> s[j] != c,
    ensures
        i < s.len() && s[i] == c ==> index_of_first(s, c) == i,
        i == s.len() ==> index_of_first(s, c) == -1,
    decreases i,
{
    if i > 0 {
        assert forall|j: int| 0 <= j < i - 1 implies s.drop_first()[j] != c by {
            assert(s.drop_first()[j] == s[j + 1]);
        }
        lemma_first_index(s.drop_first(), c, i - 1);
    }
}

fn last_index(s: &[char], c: char) -> (r: Option<usize>)
    ensures
        match r {
            Some(i) => i as int == index_of_last(s@, c) && i < s@.len(),
            None => index_of_last(s@, c) == -1,
        },
{
    let mut k = s.len();
    assert(s@.take(k as int) =~= s@);
    while k > 0
        invariant
            k <= s@.len(),
            index_of_last(s@, c) == index_of_last(s@.take(k as int), c),
        decreases k,
    {
        assert(s@.take(k as int).drop_last() =~= s@.take(k - 1));
        if s[k - 1] == c {
            return Some(k - 1);
        }
        k -= 1;
    }
    None
}

fn parse_u16(f: &[char]) -> (r: Option<u16>)
    ensures
        r == parse_u16_spec(f@),
{
    match parse_usize(f) {
        Some(v) => if v <= 65535 {
            Some(v as u16)
        } else {
            None
        },
        None => None,
    }
}

fn source_from(e: &[char]) -> (r: Option<(String, String, u16)>)
    ensures
        match r {
            Some(s) => source_entry(e@) == Some((s.0@, s.1@, s.2)),
            None => source_entry(e@) is None,
        },
{
    let n = e.len();
    let i = match first_index(e, '=') {
        Some(i) => i,
        None => {
            return None;
        },
    };
    let name = copy_slice(e, 0, i);
    let addr = copy_slice(e, i + 1, n);
    assert(addr@ =~= e@.skip(i + 1));
    assert(name@ =~= e@.take(i as int));
    let j = match last_index(addr.as_slice(), ':') {
        Some(j) => j,
        None => {
            return None;
        },
    };
    let port_chars = copy_slice(addr.as_slice(), j + 1, addr.len());
    assert(port_chars@ =~= addr@.skip(j + 1));
    let port = match parse_u16(port_chars.as_slice()) {
        Some(p) => p,
        None => {
            return None;
        },
    };
    let host = copy_slice(addr.as_slice(), 0, j);
    assert(host@ =~= addr@.take(j as int));
    Some((string_from_chars(name.as_slice()), string_from_chars(host.as_slice()), port))
}

fn copy_slice(s: &[char], a: usize, b: usize) -> (v: Vec<char>)
    requires
        a <= b <= s@.len(),
    ensures
        v@ == s@.subrange(a as int, b as int),
{
    let mut v: Vec<char> = Vec::new();
    let mut i = a;
    while i < b
        invariant
            a <= i <= b,
            b <= s@.len(),
            v@ == s@.subrange(a as int, i as int),
        decreases b - i,
    {
        v.push(s[i]);
        assert(s@.subrange(a as int, i as int).push(s@[i as int]) =~= s@.subrange(a as int, i + 1));
        i += 1;
    }
    v
}

impl AisIngest {
    /// How many sources are listed.
    pub closed spec fn source_count(&self) -> nat {
        self.sources@.len()
    }

    /// Sentences pending assembly.
    pub closed spec fn pending(&self) -> Seq<crate::ais::fragments::Pending> {
        self.assembler.pending()
    }

    /// Time-to-live of the duplicate filter, in nanoseconds.
    pub closed spec fn dedup_ttl(&self) -> u128 {
        self.dedup.ttl()
    }

    /// Entries of the duplicate filter.
    pub closed spec fn dedup_seen(&self) -> Map<u64, u128> {
        self.dedup.seen_map()
    }

    /// No sources, an empty duplicate filter (30 s) and assembler.
    pub fn new() -> (a: Self)
        ensures
            a.source_count() == 0,
            a.pending() == Seq::<crate::ais::fragments::Pending>::empty(),
            a.dedup_ttl() == DEDUP_TTL_NS,
            a.dedup_seen() == Map::<u64, u128>::empty(),
    {
        AisIngest {
            sources: Vec::new(),
            dedup: DedupCache::new(DEDUP_TTL_NS),
            assembler: FragmentAssembler::new(),
        }
    }

    /// Parses `name1=host1:port1,name2=host2:port2`: each comma-separated
    /// entry is split at its first '=' and the last ':' after it; entries
    /// without both, or whose port is no 16-bit number, are skipped.
    pub fn parse_sources(config: &str) -> (r: Vec<(String, String, u16)>)
        ensures
            sources_view(r@) == sources_of(config@),
    {
        let cs = str_chars(config);
        let fields = split_chars(cs.as_slice(), ',');
        let ghost f = split_fields(config@, ',');
        let mut out: Vec<(String, String, u16)> = Vec::new();
        let mut k: usize = 0;
        while k < fields.len()
            invariant
                k <= fields@.len(),
                fields@.len() == f.len(),
                forall|i: int| 0 <= i < fields@.len() ==> #[trigger] fields@[i]@ == f[i],
                sources_view(out@) == sources_among(f, k as nat),
            decreases fields@.len() - k,
        {
            let ghost before = out@;
            match source_from(fields[k].as_slice()) {
                Some(s) => {
                    let ghost sv = (s.0@, s.1@, s.2);
                    out.push(s);
                    assert(sources_view(out@) =~= sources_view(before).push(sv));
                },
                None => {},
            }
            k += 1;
        }
        out
    }
}

} // verus!
