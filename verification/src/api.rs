//! HTTP request routing of the API server: which resource a request line
//! asks for, the query-parameter lookup, and the content type of a static file.
use vstd::prelude::*;
use crate::text::{parse_usize, parse_usize_spec, split_chars, split_fields, str_chars, string_from_chars};

verus! {

/// What a request is answered with.
#[derive(Debug, PartialEq, Eq)]
pub enum Route {
    /// 503 "decode off": a decoded-data resource while decoding is disabled.
    DecodeOff,
    /// The binCraft aircraft cache.
    Bincraft,
    /// The JSON aircraft cache.
    AircraftJson,
    /// The trace of one aircraft.
    Trace { icao: u32 },
    /// 400: the trace address is no hexadecimal number.
    TraceBadHex,
    Vessels,
    Health,
    /// The most recent alerts, at most `limit`.
    Alerts { limit: usize },
    FeedersMap,
    FeedersStats,
    Kick,
    RateLimit,
    Block,
    Unblock,
    /// Set the location of the feeder with this UUID.
    SetLocation { uuid: String },
    FeedersList,
    /// One feeder by UUID or address.
    FeederByKey { key: String },
    ReceiverJson,
    /// A file under the web directory.
    StaticFile { path: String },
    /// The built-in dashboard page.
    Dashboard,
}

/// A `Route` with its texts as characters.
pub enum RouteView {
    DecodeOff,
    Bincraft,
    AircraftJson,
    Trace { icao: u32 },
    TraceBadHex,
    Vessels,
    Health,
    Alerts { limit: usize },
    FeedersMap,
    FeedersStats,
    Kick,
    RateLimit,
    Block,
    Unblock,
    SetLocation { uuid: Seq<char> },
    FeedersList,
    FeederByKey { key: Seq<char> },
    ReceiverJson,
    StaticFile { path: Seq<char> },
    Dashboard,
}

impl View for Route {
    type V = RouteView;

    open spec fn view(&self) -> RouteView {
        match self {
            Route::DecodeOff => RouteView::DecodeOff,
            Route::Bincraft => RouteView::Bincraft,
            Route::AircraftJson => RouteView::AircraftJson,
            Route::Trace { icao } => RouteView::Trace { icao: *icao },
            Route::TraceBadHex => RouteView::TraceBadHex,
            Route::Vessels => RouteView::Vessels,
            Route::Health => RouteView::Health,
            Route::Alerts { limit } => RouteView::Alerts { limit: *limit },
            Route::FeedersMap => RouteView::FeedersMap,
            Route::FeedersStats => RouteView::FeedersStats,
            Route::Kick => RouteView::Kick,
            Route::RateLimit => RouteView::RateLimit,
            Route::Block => RouteView::Block,
            Route::Unblock => RouteView::Unblock,
            Route::SetLocation { uuid } => RouteView::SetLocation { uuid: uuid@ },
            Route::FeedersList => RouteView::FeedersList,
            Route::FeederByKey { key } => RouteView::FeederByKey { key: key@ },
            Route::ReceiverJson => RouteView::ReceiverJson,
            Route::StaticFile { path } => RouteView::StaticFile { path: path@ },
            Route::Dashboard => RouteView::Dashboard,
        }
    }
}

/// `s` begins with `p`.
pub open spec fn starts_with(s: Seq<char>, p: Seq<char>) -> bool {
    p.len() <= s.len() && s.take(p.len() as int) == p
}

/// `s` ends with `p`.
pub open spec fn ends_with(s: Seq<char>, p: Seq<char>) -> bool {
    p.len() <= s.len() && s.skip(s.len() - p.len()) == p
}

/// Hexadecimal digit value, if `c` is one.
pub open spec fn hex_value(c: char) -> Option<nat> {
    if '0' <= c <= '9' {
        Some((c as nat - '0' as nat) as nat)
    } else if 'a' <= c <= 'f' {
        Some((c as nat - 'a' as nat + 10) as nat)
    } else if 'A' <= c <= 'F' {
        Some((c as nat - 'A' as nat + 10) as nat)
    } else {
        None
    }
}

/// The value of a string of hexadecimal digits, if it is one.
pub open spec fn hex_number(d: Seq<char>) -> Option<nat>
    decreases d.len(),
{
    if d.len() == 0 {
        Some(0)
    } else {
        match (hex_number(d.drop_last()), hex_value(d.last())) {
            (Some(v), Some(x)) => Some(16 * v + x),
            _ => None,
        }
    }
}

/// `u32::from_str_radix(_, 16)`: an optional '+', then at least one
/// hexadecimal digit, with a value below 2^32.
pub open spec fn parse_hex_u32(f: Seq<char>) -> Option<u32> {
    let d = if f.len() > 0 && f[0] == '+' {
        f.drop_first()
    } else {
        f
    };
    if d.len() == 0 {
        None
    } else {
        match hex_number(d) {
            Some(v) => if v <= u32::MAX {
                Some(v as u32)
            } else {
                None
            },
            None => None,
        }
    }
}

/// The value of the first `key=value` pair of a `&`-separated query whose
/// name is `key` and which has an '='.
pub open spec fn query_value(pairs: Seq<Seq<char>>, key: Seq<char>, n: nat) -> Option<Seq<char>>
    decreases n,
{
    if n == 0 {
        None
    } else {
        match query_value(pairs, key, (n - 1) as nat) {
            Some(v) => Some(v),
            None => {
                let kv = split_fields(pairs[n - 1], '=');
                if kv[0] == key && kv.len() > 1 {
                    Some(pairs[n - 1].skip(kv[0].len() + 1int))
                } else {
                    None
                }
            },
        }
    }
}

/// `query_value` over a whole query string.
pub open spec fn query_param_spec(query: Seq<char>, key: Seq<char>) -> Option<Seq<char>> {
    let pairs = split_fields(query, '&');
    query_value(pairs, key, pairs.len())
}

/// `s` with every non-overlapping "..", from the left, removed.
pub open spec fn without_dot_dot(s: Seq<char>) -> Seq<char>
    decreases s.len(),
{
    if s.len() >= 2 && s[0] == '.' && s[1] == '.' {
        without_dot_dot(s.skip(2))
    } else if s.len() == 0 {
        s
    } else {
        seq![s[0]] + without_dot_dot(s.skip(1))
    }
}

/// `s` without its leading '/' characters.
pub open spec fn trim_slashes(s: Seq<char>) -> Seq<char>
    decreases s.len(),
{
    if s.len() > 0 && s[0] == '/' {
        trim_slashes(s.skip(1))
    } else {
        s
    }
}

/// What `trim_slashes` leaves does not begin with '/'.
pub proof fn lemma_trim_slashes_relative(s: Seq<char>)
    ensures
        trim_slashes(s).len() == 0 || trim_slashes(s)[0] != '/',
    decreases s.len(),
{
    if s.len() > 0 && s[0] == '/' {
        lemma_trim_slashes_relative(s.skip(1));
    }
}

/// A decoded-data resource, or "decode off" while decoding is disabled.
pub open spec fn decoded(r: RouteView, decode_enabled: bool) -> RouteView {
    if decode_enabled {
        r
    } else {
        RouteView::DecodeOff
    }
}

/// The route of a request: `method` and `raw_path` are the first two
/// words of its request line. The path is what precedes the first '?', the
/// query what lies between the first and the second.
pub open spec fn route_of(method: Seq<char>, raw_path: Seq<char>, decode_enabled: bool, has_web_dir: bool) -> RouteView {
    let parts = split_fields(raw_path, '?');
    let path = parts[0];
    let query = if parts.len() > 1 {
        parts[1]
    } else {
        Seq::empty()
    };
    let is_post = method == "POST"@;
    let feeder = if path.len() >= 13 {
        path.skip(13)
    } else {
        Seq::empty()
    };
    if starts_with(path, "/re-api"@) || path == "/api/aircraft.binCraft"@ {
        decoded(RouteView::Bincraft, decode_enabled)
    } else if starts_with(path, "/api/trace/"@) {
        decoded(
            match parse_hex_u32(path.skip("/api/trace/"@.len() as int)) {
                Some(icao) => RouteView::Trace { icao },
                None => RouteView::TraceBadHex,
            },
            decode_enabled,
        )
    } else if path == "/api/aircraft"@ {
        decoded(RouteView::AircraftJson, decode_enabled)
    } else if path == "/api/vessels"@ {
        RouteView::Vessels
    } else if path == "/health"@ {
        RouteView::Health
    } else if path == "/api/alerts"@ {
        RouteView::Alerts {
            limit: match query_param_spec(query, "limit"@) {
                Some(v) => match parse_usize_spec(v) {
                    Some(n) => n,
                    None => 50,
                },
                None => 50,
            },
        }
    } else if path == "/api/feeders/map"@ {
        RouteView::FeedersMap
    } else if path == "/api/feeders/stats"@ {
        RouteView::FeedersStats
    } else if path == "/api/feeders/kick"@ && is_post {
        RouteView::Kick
    } else if path == "/api/feeders/rate-limit"@ && is_post {
        RouteView::RateLimit
    } else if path == "/api/feeders/block"@ && is_post {
        RouteView::Block
    } else if path == "/api/feeders/unblock"@ && is_post {
        RouteView::Unblock
    } else if starts_with(path, "/api/feeders/"@) && ends_with(path, "/location"@) && is_post {
        RouteView::SetLocation {
            uuid: if ends_with(feeder, "/location"@) {
                feeder.take(feeder.len() - "/location"@.len())
            } else {
                Seq::empty()
            },
        }
    } else if path == "/api/feeders"@ {
        RouteView::FeedersList
    } else if starts_with(path, "/api/feeders/"@) && feeder.len() > 0 {
        RouteView::FeederByKey { key: feeder }
    } else if path == "/data/receiver.json"@ {
        RouteView::ReceiverJson
    } else if path == "/data/aircraft.binCraft"@ {
        decoded(RouteView::Bincraft, decode_enabled)
    } else if path == "/data/aircraft.json"@ {
        decoded(RouteView::AircraftJson, decode_enabled)
    } else if has_web_dir {
        RouteView::StaticFile {
            path: trim_slashes(
                without_dot_dot(
                    if path == "/"@ {
                        "index.html"@
                    } else {
                        path
                    },
                ),
            ),
        }
    } else {
        RouteView::Dashboard
    }
}

fn lit_chars(lit: &str) -> (v: Vec<char>)
    ensures
        v@ == lit@,
{
    str_chars(lit)
}

fn seq_eq(a: &[char], b: &[char]) -> (r: bool)
    ensures
        r == (a@ == b@),
{
    if a.len() != b.len() {
        return false;
    }
    let mut i: usize = 0;
    while i < a.len()
        invariant
            a@.len() == b@.len(),
            i <= a@.len(),
            forall|j: int| 0 <= j < i ==> a@[j] == b@[j],
        decreases a@.len() - i,
    {
        if a[i] != b[i] {
            return false;
        }
        i += 1;
    }
    assert(a@ =~= b@);
    true
}

fn is_lit(s: &[char], lit: &str) -> (r: bool)
    ensures
        r == (s@ == lit@),
{
    let l = lit_chars(lit);
    seq_eq(s, l.as_slice())
}

fn begins_with(s: &[char], lit: &str) -> (r: bool)
    ensures
        r == starts_with(s@, lit@),
{
    let p = lit_chars(lit);
    if p.len() > s.len() {
        return false;
    }
    let mut i: usize = 0;
    while i < p.len()
        invariant
            p@ == lit@,
            p@.len() <= s@.len(),
            i <= p@.len(),
            forall|j: int| 0 <= j < i ==> s@[j] == p@[j],
        decreases p@.len() - i,
    {
        if s[i] != p[i] {
            assert(s@.take(p@.len() as int)[i as int] != p@[i as int]);
            return false;
        }
        i += 1;
    }
    assert(s@.take(p@.len() as int) =~= p@);
    true
}

fn finishes_with(s: &[char], lit: &str) -> (r: bool)
    ensures
        r == ends_with(s@, lit@),
{
    let p = lit_chars(lit);
    if p.len() > s.len() {
        return false;
    }
    let n = s.len();
    let off = n - p.len();
    let mut i: usize = 0;
    while i < p.len()
        invariant
            p@ == lit@,
            p@.len() <= s@.len(),
            n == s@.len(),
            off == s@.len() - p@.len(),
            i <= p@.len(),
            forall|j: int| 0 <= j < i ==> s@[off + j] == p@[j],
        decreases p@.len() - i,
    {
        if s[off + i] != p[i] {
            assert(s@.skip(off as int)[i as int] != p@[i as int]);
            return false;
        }
        i += 1;
    }
    assert(s@.skip(off as int) =~= p@);
    true
}

fn sub_chars(s: &[char], a: usize, b: usize) -> (v: Vec<char>)
    requires
        a <= b <= s@.len(),
    ensures
        v@ == s@.subrange(a as int, b as int),
{
    let mut v: Vec<char> = Vec::new();
    let mut i = a;
    while i < b
        invariant
            a <= i <= b <= s@.len(),
            v@ == s@.subrange(a as int, i as int),
        decreases b - i,
    {
        v.push(s[i]);
        assert(s@.subrange(a as int, i as int).push(s@[i as int]) =~= s@.subrange(a as int, i + 1));
        i += 1;
    }
    v
}

fn hex_digit_value(c: char) -> (r: Option<u64>)
    ensures
        match r {
            Some(v) => hex_value(c) == Some(v as nat) && v < 16,
            None => hex_value(c) is None,
        },
{
    if '0' <= c && c <= '9' {
        Some(c as u64 - '0' as u64)
    } else if 'a' <= c && c <= 'f' {
        Some(c as u64 - 'a' as u64 + 10)
    } else if 'A' <= c && c <= 'F' {
        Some(c as u64 - 'A' as u64 + 10)
    } else {
        None
    }
}

proof fn lemma_hex_number_grows(d: Seq<char>, k: int)
    requires
        0 <= k <= d.len(),
        hex_number(d) is Some,
    ensures
        hex_number(d.take(k)) is Some,
        hex_number(d.take(k)).unwrap() <= hex_number(d).unwrap(),
    decreases d.len() - k,
{
    if k < d.len() {
        assert(d.drop_last().take(k) =~= d.take(k));
        if k < d.len() - 1 {
            lemma_hex_number_grows(d.drop_last(), k);
        } else {
            assert(d.drop_last() =~= d.take(k));
        }
    } else {
        assert(d.take(k) =~= d);
    }
}

/// Reads a `u32` written in hexadecimal, as `u32::from_str_radix(_, 16)`.
pub fn parse_hex32(f: &[char]) -> (r: Option<u32>)
    ensures
        r == parse_hex_u32(f@),
{
    let n = f.len();
    let start: usize = if n > 0 && f[0] == '+' {
        1
    } else {
        0
    };
    let ghost d = if f@.len() > 0 && f@[0] == '+' {
        f@.drop_first()
    } else {
        f@
    };
    assert(d =~= f@.subrange(start as int, n as int));
    if start == n {
        return None;
    }
    let mut v: u64 = 0;
    let mut i: usize = start;
    while i < n
        invariant
            start <= i <= n,
            start < n,
            n == f@.len(),
            d == f@.subrange(start as int, n as int),
            parse_hex_u32(f@) == (match hex_number(d) {
                Some(x) => if x <= u32::MAX {
                    Some(x as u32)
                } else {
                    None
                },
                None => None,
            }),
            hex_number(d.take(i - start)) == Some(v as nat),
            v <= u32::MAX,
        decreases n - i,
    {
        assert(d.take(i - start + 1).drop_last() =~= d.take(i - start));
        match hex_digit_value(f[i]) {
            None => {
                proof {
                    if hex_number(d) is Some {
                        lemma_hex_number_grows(d, i - start + 1);
                    }
                }
                return None;
            },
            Some(x) => {
                let w = v * 16 + x;
                if w > 0xFFFF_FFFF {
                    proof {
                        if hex_number(d) is Some {
                            lemma_hex_number_grows(d, i - start + 1);
                        }
                    }
                    return None;
                }
                v = w;
            },
        }
        i += 1;
    }
    assert(d.take(n - start) =~= d);
    Some(v as u32)
}

/// The value of the first `key=value` pair of a query, as
/// `query.split('&').find_map(..)` with `splitn(2, '=')` finds it.
pub fn query_param(query: &str, key: &str) -> (r: Option<String>)
    ensures
        match r {
            Some(v) => query_param_spec(query@, key@) == Some(v@),
            None => query_param_spec(query@, key@) is None,
        },
{
    let q = str_chars(query);
    let k = str_chars(key);
    let pairs = split_chars(q.as_slice(), '&');
    let ghost ps = split_fields(query@, '&');
    let mut i: usize = 0;
    while i < pairs.len()
        invariant
            q@ == query@,
            k@ == key@,
            pairs@.len() == ps.len(),
            ps == split_fields(query@, '&'),
            forall|j: int| 0 <= j < pairs@.len() ==> #[trigger] pairs@[j]@ == ps[j],
            i <= pairs@.len(),
            query_value(ps, key@, i as nat) is None,
        decreases pairs@.len() - i,
    {
        let kv = split_chars(pairs[i].as_slice(), '=');
        let ghost kvs = split_fields(ps[i as int], '=');
        assert(kv@[0]@ == kvs[0]);
        if seq_eq(kv[0].as_slice(), k.as_slice()) && kv.len() > 1 {
            let name_len = kv[0].len();
            let pair = &pairs[i];
            proof {
                lemma_split_first_len(ps[i as int], '=');
            }
            let value = sub_chars(pair.as_slice(), name_len + 1, pair.len());
            assert(value@ =~= ps[i as int].skip(kvs[0].len() + 1int));
            proof {
                assert(query_value(ps, key@, (i + 1) as nat) == Some(value@));
                lemma_query_value_stable(ps, key@, (i + 1) as nat, ps.len());
            }
            return Some(string_from_chars(value.as_slice()));
        }
        i += 1;
    }
    None
}

/// Once a pair matches, later pairs do not change the answer.
proof fn lemma_query_value_stable(ps: Seq<Seq<char>>, key: Seq<char>, m: nat, n: nat)
    requires
        m <= n,
        query_value(ps, key, m) is Some,
    ensures
        query_value(ps, key, n) == query_value(ps, key, m),
    decreases n - m,
{
    if m < n {
        lemma_query_value_stable(ps, key, m, (n - 1) as nat);
    }
}

/// When a string splits at `sep` into more than one field, the first field
/// is followed by the separator.
proof fn lemma_split_first_len(s: Seq<char>, sep: char)
    ensures
        split_fields(s, sep)[0].len() <= s.len(),
        split_fields(s, sep).len() > 1 ==> split_fields(s, sep)[0].len() < s.len(),
{
    lemma_split_prefix_facts(s, sep, s.len());
}

proof fn lemma_split_prefix_facts(s: Seq<char>, sep: char, n: nat)
    requires
        n <= s.len(),
    ensures
        ({
            let (done, cur) = crate::text::split_prefix(s, sep, n);
            &&& done.len() == 0 ==> cur.len() == n
            &&& done.len() > 0 ==> done[0].len() < n
            &&& cur.len() <= n
        }),
    decreases n,
{
    if n > 0 {
        lemma_split_prefix_facts(s, sep, (n - 1) as nat);
    }
}

/// The MIME type of a static file, by its extension.
pub fn content_type(p: &str) -> (t: &'static str)
    ensures
        t@ == (if ends_with(p@, ".js"@) {
            "application/javascript"@
        } else if ends_with(p@, ".css"@) {
            "text/css"@
        } else if ends_with(p@, ".html"@) {
            "text/html"@
        } else if ends_with(p@, ".json"@) {
            "application/json"@
        } else if ends_with(p@, ".png"@) {
            "image/png"@
        } else if ends_with(p@, ".svg"@) {
            "image/svg+xml"@
        } else {
            "application/octet-stream"@
        }),
{
    let c = str_chars(p);
    if finishes_with(c.as_slice(), ".js") {
        "application/javascript"
    } else if finishes_with(c.as_slice(), ".css") {
        "text/css"
    } else if finishes_with(c.as_slice(), ".html") {
        "text/html"
    } else if finishes_with(c.as_slice(), ".json") {
        "application/json"
    } else if finishes_with(c.as_slice(), ".png") {
        "image/png"
    } else if finishes_with(c.as_slice(), ".svg") {
        "image/svg+xml"
    } else {
        "application/octet-stream"
    }
}

fn strip_dot_dot(s: &[char]) -> (v: Vec<char>)
    ensures
        v@ == without_dot_dot(s@),
{
    let mut v: Vec<char> = Vec::new();
    let mut i: usize = 0;
    assert(s@.skip(0) =~= s@);
    assert(v@ + s@ =~= s@);
    while i < s.len()
        invariant
            i <= s@.len(),
            without_dot_dot(s@) == v@ + without_dot_dot(s@.skip(i as int)),
        decreases s@.len() - i,
    {
        let ghost rest = s@.skip(i as int);
        if i + 1 < s.len() && s[i] == '.' && s[i + 1] == '.' {
            assert(rest.skip(2) =~= s@.skip(i + 2));
            i += 2;
        } else {
            let ghost v0 = v@;
            v.push(s[i]);
            assert(rest.skip(1) =~= s@.skip(i + 1));
            assert(v0 + (seq![s@[i as int]] + without_dot_dot(rest.skip(1))) =~= v@ + without_dot_dot(rest.skip(1)));
            i += 1;
        }
    }
    assert(without_dot_dot(s@.skip(s@.len() as int)) =~= Seq::<char>::empty());
    assert(v@ + Seq::<char>::empty() =~= v@);
    v
}

fn skip_slashes(s: &[char]) -> (v: Vec<char>)
    ensures
        v@ == trim_slashes(s@),
{
    let mut i: usize = 0;
    assert(s@.skip(0) =~= s@);
    while i < s.len() && s[i] == '/'
        invariant
            i <= s@.len(),
            trim_slashes(s@) == trim_slashes(s@.skip(i as int)),
        decreases s@.len() - i,
    {
        assert(s@.skip(i as int).skip(1) =~= s@.skip(i + 1));
        i += 1;
    }
    let v = sub_chars(s, i, s.len());
    assert(v@ =~= s@.skip(i as int));
    v
}

/// A static file is always named relative to the web directory: its path
/// never begins with '/', so joining it to the directory stays inside it.
pub proof fn lemma_static_path_relative(
    method: Seq<char>,
    raw_path: Seq<char>,
    decode_enabled: bool,
    has_web_dir: bool,
)
    ensures
        route_of(method, raw_path, decode_enabled, has_web_dir) matches RouteView::StaticFile { path }
            ==> path.len() == 0 || path[0] != '/',
{
    let parts = split_fields(raw_path, '?');
    let p = parts[0];
    lemma_trim_slashes_relative(without_dot_dot(
        if p == "/"@ {
            "index.html"@
        } else {
            p
        },
    ));
}

/// Routes a request from the method and path (with query) of its request
/// line; `has_web_dir` tells whether static files are served.
pub fn route_request(method: &str, raw_path: &str, decode_enabled: bool, has_web_dir: bool) -> (r: Route)
    ensures
        r@ == route_of(method@, raw_path@, decode_enabled, has_web_dir),
{
    let raw = str_chars(raw_path);
    let m = str_chars(method);
    let parts = split_chars(raw.as_slice(), '?');
    let ghost ps = split_fields(raw_path@, '?');
    assert(parts@[0]@ == ps[0]);
    let path = &parts[0];
    let p = path.as_slice();
    let is_post = is_lit(m.as_slice(), "POST");
    let feeder: Vec<char> = if p.len() >= 13 {
        sub_chars(p, 13, p.len())
    } else {
        Vec::new()
    };
    assert(feeder@ =~= (if p@.len() >= 13 {
        p@.skip(13)
    } else {
        Seq::empty()
    }));
    if begins_with(p, "/re-api") || is_lit(p, "/api/aircraft.binCraft") {
        return decoded_route(Route::Bincraft, decode_enabled);
    }
    if begins_with(p, "/api/trace/") {
        let pre = lit_chars("/api/trace/");
        let hex = sub_chars(p, pre.len(), p.len());
        let t = match parse_hex32(hex.as_slice()) {
            Some(icao) => Route::Trace { icao },
            None => Route::TraceBadHex,
        };
        return decoded_route(t, decode_enabled);
    }
    if is_lit(p, "/api/aircraft") {
        return decoded_route(Route::AircraftJson, decode_enabled);
    }
    if is_lit(p, "/api/vessels") {
        return Route::Vessels;
    }
    if is_lit(p, "/health") {
        return Route::Health;
    }
    if is_lit(p, "/api/alerts") {
        let query: Vec<char> = if parts.len() > 1 {
            assert(parts@[1]@ == ps[1]);
            sub_chars(parts[1].as_slice(), 0, parts[1].len())
        } else {
            Vec::new()
        };
        assert(query@ =~= (if ps.len() > 1 {
            ps[1]
        } else {
            Seq::empty()
        }));
        let qs = string_from_chars(query.as_slice());
        let limit = match query_param(qs.as_str(), "limit") {
            Some(v) => {
                let vc = str_chars(v.as_str());
                match parse_usize(vc.as_slice()) {
                    Some(n) => n,
                    None => 50,
                }
            },
            None => 50,
        };
        return Route::Alerts { limit };
    }
    if is_lit(p, "/api/feeders/map") {
        return Route::FeedersMap;
    }
    if is_lit(p, "/api/feeders/stats") {
        return Route::FeedersStats;
    }
    if is_lit(p, "/api/feeders/kick") && is_post {
        return Route::Kick;
    }
    if is_lit(p, "/api/feeders/rate-limit") && is_post {
        return Route::RateLimit;
    }
    if is_lit(p, "/api/feeders/block") && is_post {
        return Route::Block;
    }
    if is_lit(p, "/api/feeders/unblock") && is_post {
        return Route::Unblock;
    }
    if begins_with(p, "/api/feeders/") && finishes_with(p, "/location") && is_post {
        let suffix = lit_chars("/location");
        let uuid = if finishes_with(feeder.as_slice(), "/location") {
            sub_chars(feeder.as_slice(), 0, feeder.len() - suffix.len())
        } else {
            Vec::new()
        };
        proof {
            if ends_with(feeder@, "/location"@) {
                assert(uuid@ =~= feeder@.take(feeder@.len() - "/location"@.len()));
            }
        }
        return Route::SetLocation { uuid: string_from_chars(uuid.as_slice()) };
    }
    if is_lit(p, "/api/feeders") {
        return Route::FeedersList;
    }
    if begins_with(p, "/api/feeders/") && feeder.len() > 0 {
        return Route::FeederByKey { key: string_from_chars(feeder.as_slice()) };
    }
    if is_lit(p, "/data/receiver.json") {
        return Route::ReceiverJson;
    }
    if is_lit(p, "/data/aircraft.binCraft") {
        return decoded_route(Route::Bincraft, decode_enabled);
    }
    if is_lit(p, "/data/aircraft.json") {
        return decoded_route(Route::AircraftJson, decode_enabled);
    }
    if has_web_dir {
        let file = if is_lit(p, "/") {
            lit_chars("index.html")
        } else {
            sub_chars(p, 0, p.len())
        };
        assert(file@ =~= if path@ == "/"@ {
            "index.html"@
        } else {
            path@
        });
        let clean = strip_dot_dot(file.as_slice());
        let rel = skip_slashes(clean.as_slice());
        return Route::StaticFile { path: string_from_chars(rel.as_slice()) };
    }
    Route::Dashboard
}

fn decoded_route(r: Route, decode_enabled: bool) -> (out: Route)
    ensures
        out@ == decoded(r@, decode_enabled),
{
    if decode_enabled {
        r
    } else {
        Route::DecodeOff
    }
}

} // verus!
