//! Reassembly of multi-sentence AIS messages (`!AIVDM,total,part,seq,channel,payload,...`).
use std::time::Instant;
use vstd::prelude::*;
use crate::ais::dedup::elapsed;
use crate::clock::{instant_now, nanos_since};
use crate::text::{
    parse_usize, parse_usize_spec, split_chars, split_fields, str_chars, str_trim,
    string_from_chars, string_push, trim_ws,
};

verus! {

/// Parts of a message older than this (30 s) are dropped.
pub const FRAGMENT_TTL_NS: u128 = 30_000_000_000;

/// A message being assembled: its key (sequence id, '-', channel), the
/// parts received so far, and when it was started.
pub type Pending = (Seq<char>, Seq<Option<Seq<char>>>, u128);

struct Fragments {
    key: Vec<char>,
    parts: Vec<Option<Vec<char>>>,
    stamp: u128,
}

spec fn parts_view(ps: Seq<Option<Vec<char>>>) -> Seq<Option<Seq<char>>> {
    ps.map_values(
        |p: Option<Vec<char>>|
            match p {
                Some(v) => Some(v@),
                None => None,
            },
    )
}

spec fn entry_view(e: Fragments) -> Pending {
    (e.key@, parts_view(e.parts@), e.stamp)
}

spec fn entries_view(v: Seq<Fragments>) -> Seq<Pending> {
    v.map_values(|e: Fragments| entry_view(e))
}

/// The pending messages still younger than the time-to-live at `now`, in order.
pub open spec fn fresh_only(s: Seq<Pending>, now: u128) -> Seq<Pending>
    decreases s.len(),
{
    if s.len() == 0 {
        Seq::empty()
    } else {
        let r = fresh_only(s.drop_last(), now);
        if elapsed(s.last().2, now) < FRAGMENT_TTL_NS {
            r.push(s.last())
        } else {
            r
        }
    }
}

/// Index of the pending message with key `k` (the last one), or -1.
pub open spec fn find_key(s: Seq<Pending>, k: Seq<char>) -> int
    decreases s.len(),
{
    if s.len() == 0 {
        -1
    } else if s.last().0 == k {
        s.len() - 1
    } else {
        find_key(s.drop_last(), k)
    }
}

/// Every part has arrived.
pub open spec fn all_received(ps: Seq<Option<Seq<char>>>) -> bool {
    forall|i: int| 0 <= i < ps.len() ==> #[trigger] ps[i] is Some
}

/// The parts' payloads, concatenated in order.
pub open spec fn joined(ps: Seq<Option<Seq<char>>>) -> Seq<char>
    decreases ps.len(),
{
    if ps.len() == 0 {
        Seq::empty()
    } else {
        joined(ps.drop_last()) + match ps.last() {
            Some(p) => p,
            None => Seq::empty(),
        }
    }
}

/// The comma-separated fields of a trimmed sentence.
pub open spec fn sentence_fields(sentence: Seq<char>) -> Seq<Seq<char>> {
    split_fields(trim_ws(sentence), ',')
}

/// Part number and total of a sentence with at least seven fields whose
/// second and third fields are numbers.
pub open spec fn part_and_total(sentence: Seq<char>) -> Option<(usize, usize)> {
    let f = sentence_fields(sentence);
    if f.len() < 7 {
        None
    } else {
        match (parse_usize_spec(f[1]), parse_usize_spec(f[2])) {
            (Some(total), Some(part)) => Some((part, total)),
            _ => None,
        }
    }
}

/// One sentence into the assembler holding `entries` at time `now`: the
/// pending messages after and the payload completed, if any. Expired
/// messages are dropped first; sentences of under seven fields or with a
/// missing, unreadable or zero total or part number are ignored; a
/// single-part sentence gives its payload; a part number beyond the total
/// of a multi-part message is ignored; otherwise the part is stored
/// under its key (a message with another part count is restarted), and when
/// all parts are in the concatenated payload is given and the message dropped.
pub open spec fn assemble_step(entries: Seq<Pending>, sentence: Seq<char>, now: u128) -> (
    Seq<Pending>,
    Option<Seq<char>>,
) {
    let kept = fresh_only(entries, now);
    let f = sentence_fields(sentence);
    match part_and_total(sentence) {
        None => (kept, None),
        Some((part, total)) => if total == 0 || part == 0 {
            (kept, None)
        } else if total == 1 {
            (kept, Some(f[5]))
        } else if part > total {
            (kept, None)
        } else {
            let key = f[3] + seq!['-'] + f[4];
            let i = find_key(kept, key);
            let reuse = i >= 0 && kept[i].1.len() == total;
            let base = if reuse {
                kept[i].1
            } else {
                Seq::new(total as nat, |j: int| None)
            };
            let stamp = if reuse {
                kept[i].2
            } else {
                now
            };
            let parts = base.update(part - 1, Some(f[5]));
            if all_received(parts) {
                (
                    if i >= 0 {
                        kept.remove(i)
                    } else {
                        kept
                    },
                    Some(joined(parts)),
                )
            } else if i >= 0 {
                (kept.update(i, (key, parts, stamp)), None)
            } else {
                (kept.push((key, parts, stamp)), None)
            }
        },
    }
}

/// Fields of a part sentence: key fields `seq` and `chan`, payload `payload`.
pub open spec fn part_of(sentence: Seq<char>, part: usize, total: usize, seq_id: Seq<char>, chan: Seq<char>, payload: Seq<char>) -> bool {
    &&& part_and_total(sentence) == Some((part, total))
    &&& sentence_fields(sentence)[3] == seq_id
    &&& sentence_fields(sentence)[4] == chan
    &&& sentence_fields(sentence)[5] == payload
}

proof fn lemma_fresh_only_push(s: Seq<Pending>, x: Pending, now: u128)
    requires
        elapsed(x.2, now) < FRAGMENT_TTL_NS,
    ensures
        fresh_only(s.push(x), now) == fresh_only(s, now).push(x),
{
    assert(s.push(x).drop_last() =~= s);
}

/// The two parts of a two-part message, the first part arriving when
/// no part of that message is pending and the second within the 30 s
/// time-to-live, give nothing on the first part and the two payloads joined
/// on the second.
pub proof fn lemma_two_parts_in_order(
    entries: Seq<Pending>,
    s1: Seq<char>,
    s2: Seq<char>,
    seq_id: Seq<char>,
    chan: Seq<char>,
    p1: Seq<char>,
    p2: Seq<char>,
    t1: u128,
    t2: u128,
)
    requires
        part_of(s1, 1, 2, seq_id, chan, p1),
        part_of(s2, 2, 2, seq_id, chan, p2),
        find_key(fresh_only(entries, t1), seq_id + seq!['-'] + chan) == -1,
        t1 <= t2,
        t2 - t1 < FRAGMENT_TTL_NS,
    ensures
        assemble_step(entries, s1, t1).1 == None::<Seq<char>>,
        assemble_step(assemble_step(entries, s1, t1).0, s2, t2).1 == Some(p1 + p2),
{
    let key = seq_id + seq!['-'] + chan;
    let kept = fresh_only(entries, t1);
    let parts1 = Seq::new(2, |j: int| None::<Seq<char>>).update(0, Some(p1));
    assert(!all_received(parts1)) by {
        assert(parts1[1] is None);
    }
    let e1 = kept.push((key, parts1, t1));
    assert(assemble_step(entries, s1, t1) == (e1, None::<Seq<char>>));
    let kept2 = fresh_only(e1, t2);
    lemma_fresh_only_push(kept, (key, parts1, t1), t2);
    let k2 = fresh_only(kept, t2);
    assert(kept2 == k2.push((key, parts1, t1)));
    assert(find_key(kept2, key) == k2.len());
    let parts2 = parts1.update(1, Some(p2));
    assert(all_received(parts2));
    let q = parts2.drop_last();
    assert(q.len() == 1 && q.last() == Some(p1));
    assert(q.drop_last() =~= Seq::<Option<Seq<char>>>::empty());
    assert(joined(q.drop_last()) == Seq::<char>::empty());
    assert(joined(q) =~= p1);
    assert(parts2.last() == Some(p2));
    assert(joined(parts2) =~= p1 + p2);
}

/// The sentences `ss`, checked at the times `ts`, one after another
/// into the assembler holding `entries`: the pending messages after the
/// first `m` and what each of them gave.
pub open spec fn assemble_run(entries: Seq<Pending>, ss: Seq<Seq<char>>, ts: Seq<u128>, m: nat) -> (
    Seq<Pending>,
    Seq<Option<Seq<char>>>,
)
    decreases m,
{
    if m == 0 {
        (entries, Seq::empty())
    } else {
        let (e, outs) = assemble_run(entries, ss, ts, (m - 1) as nat);
        let (e2, o) = assemble_step(e, ss[m - 1], ts[m - 1]);
        (e2, outs.push(o))
    }
}

/// The slots of an `n`-part message once the parts `order[0..m]` are in.
pub open spec fn received(p: Seq<Seq<char>>, order: Seq<int>, m: int) -> Seq<Option<Seq<char>>> {
    Seq::new(
        p.len(),
        |j: int|
            if order.take(m).contains(j) {
                Some(p[j])
            } else {
                None
            },
    )
}

proof fn lemma_find_key_fresh(s: Seq<Pending>, k: Seq<char>, now: u128)
    requires
        find_key(s, k) >= 0,
        elapsed(s[find_key(s, k)].2, now) < FRAGMENT_TTL_NS,
    ensures
        find_key(fresh_only(s, now), k) >= 0,
        fresh_only(s, now)[find_key(fresh_only(s, now), k)] == s[find_key(s, k)],
    decreases s.len(),
{
    lemma_find_key_matches(s, k);
    let r = fresh_only(s.drop_last(), now);
    if s.last().0 != k {
        assert(s.drop_last()[find_key(s, k)] == s[find_key(s, k)]);
        lemma_find_key_fresh(s.drop_last(), k, now);
        lemma_find_key_matches(r, k);
        if elapsed(s.last().2, now) < FRAGMENT_TTL_NS {
            assert(r.push(s.last()).drop_last() =~= r);
            assert(r.push(s.last())[find_key(r, k)] == r[find_key(r, k)]);
        }
    } else {
        assert(r.push(s.last()).drop_last() =~= r);
    }
}

proof fn lemma_find_key_update(s: Seq<Pending>, k: Seq<char>, x: Pending)
    requires
        find_key(s, k) >= 0,
        x.0 == k,
    ensures
        find_key(s.update(find_key(s, k), x), k) == find_key(s, k),
    decreases s.len(),
{
    lemma_find_key_matches(s, k);
    let i = find_key(s, k);
    let u = s.update(i, x);
    if i == s.len() - 1 {
        assert(u.last() == x);
    } else {
        lemma_find_key_matches(s.drop_last(), k);
        lemma_find_key_update(s.drop_last(), k, x);
        assert(u.drop_last() =~= s.drop_last().update(i, x));
        assert(u.last() == s.last());
    }
}

/// At most one pending message has key `k`.
pub open spec fn key_unique(s: Seq<Pending>, k: Seq<char>) -> bool {
    forall|a: int, b: int|
        0 <= a < s.len() && 0 <= b < s.len() && #[trigger] s[a].0 == k && #[trigger] s[b].0 == k
            ==> a == b
}

proof fn lemma_find_key_none(s: Seq<Pending>, k: Seq<char>)
    ensures
        find_key(s, k) == -1 <==> forall|q: int| 0 <= q < s.len() ==> #[trigger] s[q].0 != k,
    decreases s.len(),
{
    if s.len() > 0 {
        lemma_find_key_none(s.drop_last(), k);
        if s.last().0 != k {
            assert forall|q: int| 0 <= q < s.len() - 1 implies s[q].0 == s.drop_last()[q].0 by {}
        }
    }
}

proof fn lemma_fresh_only_from(s: Seq<Pending>, now: u128)
    ensures
        forall|q: int|
            0 <= q < fresh_only(s, now).len() ==> exists|u: int|
                0 <= u < s.len() && #[trigger] fresh_only(s, now)[q] == s[u],
    decreases s.len(),
{
    if s.len() > 0 {
        lemma_fresh_only_from(s.drop_last(), now);
        let r = fresh_only(s.drop_last(), now);
        assert forall|q: int| 0 <= q < fresh_only(s, now).len() implies exists|u: int|
            0 <= u < s.len() && #[trigger] fresh_only(s, now)[q] == s[u] by {
            if q < r.len() {
                let u = choose|u: int| 0 <= u < s.drop_last().len() && r[q] == s.drop_last()[u];
                assert(fresh_only(s, now)[q] == r[q]);
                assert(s[u] == s.drop_last()[u]);
            } else {
                assert(fresh_only(s, now)[q] == s[s.len() - 1]);
            }
        }
    }
}

proof fn lemma_fresh_only_unique(s: Seq<Pending>, k: Seq<char>, now: u128)
    requires
        key_unique(s, k),
    ensures
        key_unique(fresh_only(s, now), k),
    decreases s.len(),
{
    if s.len() > 0 {
        let d = s.drop_last();
        assert(key_unique(d, k)) by {
            assert forall|a: int, b: int|
                0 <= a < d.len() && 0 <= b < d.len() && #[trigger] d[a].0 == k && #[trigger] d[b].0
                    == k implies a == b by {
                assert(s[a] == d[a] && s[b] == d[b]);
            }
        }
        lemma_fresh_only_unique(d, k, now);
        let r = fresh_only(d, now);
        if elapsed(s.last().2, now) < FRAGMENT_TTL_NS {
            let f = r.push(s.last());
            if s.last().0 == k {
                lemma_fresh_only_from(d, now);
                assert forall|q: int| 0 <= q < r.len() implies #[trigger] r[q].0 != k by {
                    let u = choose|u: int| 0 <= u < d.len() && r[q] == d[u];
                    assert(s[u] == d[u]);
                    assert(s[s.len() - 1].0 == k);
                }
            }
            assert forall|a: int, b: int|
                0 <= a < f.len() && 0 <= b < f.len() && #[trigger] f[a].0 == k && #[trigger] f[b].0
                    == k implies a == b by {
                if a < r.len() {
                    assert(f[a] == r[a]);
                }
                if b < r.len() {
                    assert(f[b] == r[b]);
                }
            }
        }
    }
}

/// No two pending messages share a key.
pub open spec fn keys_unique(s: Seq<Pending>) -> bool {
    forall|k: Seq<char>| #[trigger] key_unique(s, k)
}

/// Taking a sentence never makes two pending messages share a key: the
/// pending list keeps the one-entry-per-key shape of a map.
pub proof fn lemma_step_keeps_keys_unique(entries: Seq<Pending>, sentence: Seq<char>, now: u128)
    requires
        keys_unique(entries),
    ensures
        keys_unique(assemble_step(entries, sentence, now).0),
{
    let kept = fresh_only(entries, now);
    assert forall|k: Seq<char>| #[trigger] key_unique(kept, k) by {
        assert(key_unique(entries, k));
        lemma_fresh_only_unique(entries, k, now);
    }
    let f = sentence_fields(sentence);
    match part_and_total(sentence) {
        None => {},
        Some((part, total)) => {
            if total == 0 || part == 0 || total == 1 || part > total {
            } else {
                let key = f[3] + seq!['-'] + f[4];
                let i = find_key(kept, key);
                lemma_find_key_matches(kept, key);
                let reuse = i >= 0 && kept[i].1.len() == total;
                let base = if reuse {
                    kept[i].1
                } else {
                    Seq::new(total as nat, |j: int| None)
                };
                let stamp = if reuse {
                    kept[i].2
                } else {
                    now
                };
                let parts = base.update(part - 1, Some(f[5]));
                let out = assemble_step(entries, sentence, now).0;
                if all_received(parts) {
                    if i >= 0 {
                        assert forall|k: Seq<char>| #[trigger] key_unique(out, k) by {
                            assert(key_unique(kept, k));
                            assert forall|a: int, b: int|
                                0 <= a < out.len() && 0 <= b < out.len() && #[trigger] out[a].0 == k
                                    && #[trigger] out[b].0 == k implies a == b by {
                                let a2 = if a < i { a } else { a + 1 };
                                let b2 = if b < i { b } else { b + 1 };
                                assert(out[a] == kept[a2]);
                                assert(out[b] == kept[b2]);
                            }
                        }
                    }
                } else if i >= 0 {
                    assert forall|k: Seq<char>| #[trigger] key_unique(out, k) by {
                        assert(key_unique(kept, k));
                        assert forall|a: int, b: int|
                            0 <= a < out.len() && 0 <= b < out.len() && #[trigger] out[a].0 == k
                                && #[trigger] out[b].0 == k implies a == b by {
                            if a != i {
                                assert(out[a] == kept[a]);
                            }
                            if b != i {
                                assert(out[b] == kept[b]);
                            }
                            assert(kept[i].0 == key);
                        }
                    }
                } else {
                    lemma_find_key_none(kept, key);
                    assert forall|k: Seq<char>| #[trigger] key_unique(out, k) by {
                        assert(key_unique(kept, k));
                        assert forall|a: int, b: int|
                            0 <= a < out.len() && 0 <= b < out.len() && #[trigger] out[a].0 == k
                                && #[trigger] out[b].0 == k implies a == b by {
                            if a < kept.len() {
                                assert(out[a] == kept[a]);
                            }
                            if b < kept.len() {
                                assert(out[b] == kept[b]);
                            }
                        }
                    }
                }
            }
        },
    }
}

/// The state after the first `m` (from 1 to n - 1) parts of an `n`-part
/// message, arriving in the order `order` within the time-to-live, when no
/// part of it was pending: nothing given so far, and one message under its
/// key, started at the first part's time, holding the parts received.
proof fn lemma_parts_pending(
    entries: Seq<Pending>,
    ss: Seq<Seq<char>>,
    ts: Seq<u128>,
    p: Seq<Seq<char>>,
    order: Seq<int>,
    seq_id: Seq<char>,
    chan: Seq<char>,
    m: nat,
)
    requires
        parts_arrive(entries, ss, ts, p, order, seq_id, chan),
        1 <= m < p.len(),
    ensures
        assemble_run(entries, ss, ts, m).1.len() == m,
        forall|t: int| 0 <= t < m ==> #[trigger] assemble_run(entries, ss, ts, m).1[t] is None,
        find_key(assemble_run(entries, ss, ts, m).0, seq_id + seq!['-'] + chan) >= 0,
        assemble_run(entries, ss, ts, m).0[find_key(
            assemble_run(entries, ss, ts, m).0,
            seq_id + seq!['-'] + chan,
        )] == (seq_id + seq!['-'] + chan, received(p, order, m as int), ts[0]),
        key_unique(assemble_run(entries, ss, ts, m).0, seq_id + seq!['-'] + chan),
    decreases m,
{
    let key = seq_id + seq!['-'] + chan;
    let n = p.len();
    let t = (m - 1) as int;
    let (st0, outs0) = assemble_run(entries, ss, ts, (m - 1) as nat);
    let sentence = ss[t];
    let j = order[t];
    assert(part_of(sentence, (j + 1) as usize, n as usize, seq_id, chan, p[j]));
    let f = sentence_fields(sentence);
    let kept = fresh_only(st0, ts[t]);
    assert(part_and_total(sentence) == Some(((j + 1) as usize, n as usize)));
    assert(f[3] + seq!['-'] + f[4] == key);
    assert(f[5] == p[j]);
    assert(order[n - 1] != j);
    assert(!order.take(m as int).contains(order[n - 1])) by {
        assert forall|u: int| 0 <= u < m implies order.take(m as int)[u] != order[n - 1] by {
            assert(order.take(m as int)[u] == order[u]);
        }
    }
    let parts = received(p, order, m as int);
    assert(!all_received(parts)) by {
        assert(parts[order[n - 1]] is None);
    }
    if m == 1 {
        assert(find_key(kept, key) == -1);
        let base = Seq::new(n as nat, |q: int| None::<Seq<char>>);
        assert(base.update(j, Some(f[5])) =~= parts) by {
            assert forall|q: int| 0 <= q < n implies (order.take(1).contains(q) <==> q == j) by {
                if q == j {
                    assert(order.take(1)[0] == j);
                }
            }
        }
        assert(outs0 =~= Seq::<Option<Seq<char>>>::empty());
        assert(find_key(kept.push((key, parts, ts[0])), key) == kept.len());
        assert(assemble_step(st0, sentence, ts[t]) == (kept.push((key, parts, ts[0])), None::<Seq<char>>));
        assert(kept.push((key, parts, ts[0]))[kept.len() as int] == (key, parts, ts[0]));
        lemma_find_key_none(kept, key);
        let e = kept.push((key, parts, ts[0]));
        assert forall|a: int, b: int|
            0 <= a < e.len() && 0 <= b < e.len() && #[trigger] e[a].0 == key && #[trigger] e[b].0
                == key implies a == b by {
            if a < kept.len() {
                assert(e[a] == kept[a]);
            }
            if b < kept.len() {
                assert(e[b] == kept[b]);
            }
        }
    } else {
        lemma_parts_pending(entries, ss, ts, p, order, seq_id, chan, (m - 1) as nat);
        let i0 = find_key(st0, key);
        assert(elapsed(ts[0], ts[t]) < FRAGMENT_TTL_NS);
        lemma_find_key_fresh(st0, key, ts[t]);
        let i = find_key(kept, key);
        let prev = received(p, order, t);
        assert(kept[i] == (key, prev, ts[0]));
        assert(prev.update(j, Some(f[5])) =~= parts) by {
            assert forall|q: int| 0 <= q < n implies (order.take(m as int).contains(q) <==> (
            order.take(t).contains(q) || q == j)) by {
                if order.take(m as int).contains(q) {
                    let u = choose|u: int| 0 <= u < m && order.take(m as int)[u] == q;
                    if u < t {
                        assert(order.take(t)[u] == q);
                    }
                }
                if order.take(t).contains(q) {
                    let u = choose|u: int| 0 <= u < t && order.take(t)[u] == q;
                    assert(order.take(m as int)[u] == q);
                }
                if q == j {
                    assert(order.take(m as int)[t] == q);
                }
            }
        }
        lemma_find_key_update(kept, key, (key, parts, ts[0]));
        assert(assemble_step(st0, sentence, ts[t]) == (kept.update(i, (key, parts, ts[0])), None::<Seq<char>>));
        lemma_find_key_matches(kept, key);
        assert(kept.update(i, (key, parts, ts[0]))[i] == (key, parts, ts[0]));
        lemma_fresh_only_unique(st0, key, ts[t]);
        let e = kept.update(i, (key, parts, ts[0]));
        assert forall|a: int, b: int|
            0 <= a < e.len() && 0 <= b < e.len() && #[trigger] e[a].0 == key && #[trigger] e[b].0
                == key implies a == b by {
            if a != i {
                assert(e[a] == kept[a]);
            }
            if b != i {
                assert(e[b] == kept[b]);
            }
            assert(kept[i].0 == key);
        }
    }
}

/// `n` sentences carrying the `n` parts of one message, `p[j]` the payload
/// of part `j + 1`, arriving in the order `order` (a permutation of the
/// part indices) at the nondecreasing times `ts`, all within the 30 s
/// time-to-live, when no part of that message is pending.
pub open spec fn parts_arrive(
    entries: Seq<Pending>,
    ss: Seq<Seq<char>>,
    ts: Seq<u128>,
    p: Seq<Seq<char>>,
    order: Seq<int>,
    seq_id: Seq<char>,
    chan: Seq<char>,
) -> bool {
    let n = p.len();
    &&& 2 <= n <= usize::MAX
    &&& ss.len() == n && ts.len() == n && order.len() == n
    &&& forall|t: int| 0 <= t < n ==> 0 <= #[trigger] order[t] < n
    &&& forall|a: int, b: int| 0 <= a < b < n ==> order[a] != order[b]
    &&& forall|j: int| 0 <= j < n ==> order.contains(j)
    &&& forall|t: int|
        0 <= t < n ==> part_of(
            #[trigger] ss[t],
            (order[t] + 1) as usize,
            n as usize,
            seq_id,
            chan,
            p[order[t]],
        )
    &&& forall|a: int, b: int| 0 <= a <= b < n ==> ts[a] <= ts[b]
    &&& ts[n - 1] - ts[0] < FRAGMENT_TTL_NS
    &&& find_key(fresh_only(entries, ts[0]), seq_id + seq!['-'] + chan) == -1
}

/// All the parts of an `n`-part message, arriving in any order within the
/// time-to-live when no part of it is pending: the first `n - 1` give
/// nothing, the last gives the payloads joined in part-number order, and
/// nothing is left pending under the message's key.
pub proof fn lemma_all_parts_any_order(
    entries: Seq<Pending>,
    ss: Seq<Seq<char>>,
    ts: Seq<u128>,
    p: Seq<Seq<char>>,
    order: Seq<int>,
    seq_id: Seq<char>,
    chan: Seq<char>,
)
    requires
        parts_arrive(entries, ss, ts, p, order, seq_id, chan),
    ensures
        ({
            let outs = assemble_run(entries, ss, ts, p.len()).1;
            &&& outs.len() == p.len()
            &&& forall|t: int| 0 <= t < p.len() - 1 ==> #[trigger] outs[t] is None
            &&& outs[p.len() - 1] == Some(joined(Seq::new(p.len(), |j: int| Some(p[j]))))
            &&& find_key(assemble_run(entries, ss, ts, p.len()).0, seq_id + seq!['-'] + chan) == -1
        }),
{
    let key = seq_id + seq!['-'] + chan;
    let n = p.len();
    let t = n - 1;
    lemma_parts_pending(entries, ss, ts, p, order, seq_id, chan, t as nat);
    let (st0, outs0) = assemble_run(entries, ss, ts, t as nat);
    let sentence = ss[t];
    let j = order[t];
    assert(part_of(sentence, (j + 1) as usize, n as usize, seq_id, chan, p[j]));
    let f = sentence_fields(sentence);
    let kept = fresh_only(st0, ts[t]);
    assert(elapsed(ts[0], ts[t]) < FRAGMENT_TTL_NS);
    lemma_find_key_fresh(st0, key, ts[t]);
    let i = find_key(kept, key);
    let prev = received(p, order, t);
    assert(kept[i] == (key, prev, ts[0]));
    let all = Seq::new(n, |q: int| Some(p[q]));
    assert(prev.update(j, Some(f[5])) =~= all) by {
        assert forall|q: int| 0 <= q < n && q != j implies order.take(t).contains(q) by {
            assert(order.contains(q));
            let u = choose|u: int| 0 <= u < n && order[u] == q;
            assert(u != t);
            assert(order.take(t)[u] == q);
        }
    }
    assert(all_received(all));
    lemma_fresh_only_unique(st0, key, ts[t]);
    lemma_find_key_matches(kept, key);
    let after = kept.remove(i);
    assert(assemble_step(st0, sentence, ts[t]).0 == after);
    assert forall|q: int| 0 <= q < after.len() implies #[trigger] after[q].0 != key by {
        if q < i {
            assert(after[q] == kept[q]);
        } else {
            assert(after[q] == kept[q + 1]);
        }
    }
    lemma_find_key_none(after, key);
}

/// Collects the parts of multi-sentence AIS messages.
pub struct FragmentAssembler {
    fragments: Vec<Fragments>,
    origin: Instant,
}

impl FragmentAssembler {
    /// The messages being assembled.
    pub closed spec fn pending(&self) -> Seq<Pending> {
        entries_view(self.fragments@)
    }

    /// An assembler with nothing pending.
    pub fn new() -> (a: Self)
        ensures
            a.pending() == Seq::<Pending>::empty(),
            keys_unique(a.pending()),
    {
        let a = FragmentAssembler { fragments: Vec::new(), origin: instant_now() };
        assert(a.pending() =~= Seq::<Pending>::empty());
        a
    }

    /// Takes one sentence, reading the clock; returns the assembled payload
    /// when the sentence completes a message.
    pub fn process(&mut self, sentence: &str) -> (r: Option<String>)
        ensures
            exists|now: u128|
                #[trigger] assemble_step(old(self).pending(), sentence@, now) == (
                    final(self).pending(),
                    match r {
                        Some(s) => Some(s@),
                        None => None,
                    },
                ),
    {
        let now = nanos_since(&self.origin);
        self.process_at(sentence, now)
    }

    /// `process` with the clock reading `now` (nanoseconds since the
    /// assembler was made).
    pub fn process_at(&mut self, sentence: &str, now: u128) -> (r: Option<String>)
        ensures
            assemble_step(old(self).pending(), sentence@, now) == (
                final(self).pending(),
                match r {
                    Some(s) => Some(s@),
                    None => None,
                },
            ),
    {
        self.drop_expired(now);
        let ghost kept = self.pending();
        let t = str_trim(sentence);
        let cs = str_chars(t);
        let f = split_chars(cs.as_slice(), ',');
        let ghost fs = sentence_fields(sentence@);
        if f.len() < 7 {
            return None;
        }
        let total = match parse_usize(f[1].as_slice()) {
            Some(x) => x,
            None => {
                return None;
            },
        };
        let part = match parse_usize(f[2].as_slice()) {
            Some(x) => x,
            None => {
                return None;
            },
        };
        if part == 0 || total == 0 {
            return None;
        }
        if total == 1 {
            return Some(string_from_chars(f[5].as_slice()));
        }
        if part > total {
            return None;
        }
        let key = join_key(f[3].as_slice(), f[4].as_slice());
        let payload = copy_chars(f[5].as_slice());
        let ghost i = find_key(kept, key@);
        assert(f@[1]@ == fs[1] && f@[2]@ == fs[2] && f@[3]@ == fs[3] && f@[4]@ == fs[4] && f@[5]@
            == fs[5]);
        assert(part_and_total(sentence@) == Some((part, total)));
        assert(part <= total);
        proof {
            lemma_find_key_matches(kept, key@);
        }
        let found = self.find(&key);
        let ghost pv = Some(payload@);
        match found {
            Some(idx) => {
                let ghost frags = self.fragments@;
                let mut e = self.fragments.remove(idx);
                assert(entry_view(e) == kept[i]);
                if e.parts.len() != total {
                    e.parts = no_parts(total);
                    e.stamp = now;
                }
                assert(e.parts@.len() == total);
                let ghost before_parts = parts_view(e.parts@);
                e.parts.set(part - 1, Some(payload));
                assert(parts_view(e.parts@) =~= before_parts.update(part - 1, pv));
                if all_in(&e.parts) {
                    let s = join_parts(&e.parts);
                    assert(self.pending() =~= kept.remove(i));
                    return Some(s);
                }
                self.fragments.insert(idx, e);
                assert(self.fragments@ =~= frags.update(idx as int, e));
                assert(entry_view(e) == (key@, parts_view(e.parts@), e.stamp));
                assert(self.pending() =~= kept.update(i, (key@, parts_view(e.parts@), e.stamp)));
                None
            },
            None => {
                let mut parts = no_parts(total);
                let ghost before_parts = parts_view(parts@);
                parts.set(part - 1, Some(payload));
                assert(parts_view(parts@) =~= before_parts.update(part - 1, pv));
                let e = Fragments { key, parts, stamp: now };
                if all_in(&e.parts) {
                    let s = join_parts(&e.parts);
                    return Some(s);
                }
                self.fragments.push(e);
                assert(self.pending() =~= kept.push(entry_view(e)));
                None
            },
        }
    }

    /// Drops the messages older than the time-to-live at `now`.
    fn drop_expired(&mut self, now: u128)
        ensures
            final(self).pending() == fresh_only(old(self).pending(), now),
    {
        let ghost orig = self.pending();
        let mut rest: Vec<Fragments> = Vec::new();
        std::mem::swap(&mut rest, &mut self.fragments);
        let n = rest.len();
        let mut consumed: usize = 0;
        while rest.len() > 0
            invariant
                rest@.len() + consumed == n,
                entries_view(rest@) == orig.skip(consumed as int),
                orig.len() == n,
                consumed <= n,
                self.pending() == fresh_only(orig.take(consumed as int), now),
            decreases rest@.len(),
        {
            let ghost r0 = rest@;
            let e = rest.remove(0);
            assert(orig.take(consumed + 1).drop_last() =~= orig.take(consumed as int));
            assert(entries_view(r0)[0] == entry_view(r0[0]));
            assert(orig.skip(consumed as int)[0] == orig[consumed as int]);
            assert(orig[consumed as int] == entry_view(e));
            let age = if now >= e.stamp {
                now - e.stamp
            } else {
                0
            };
            let ghost before = self.fragments@;
            if age < FRAGMENT_TTL_NS {
                self.fragments.push(e);
                assert(entries_view(self.fragments@) =~= entries_view(before).push(orig[consumed as int]));
            }
            let ghost c0 = consumed as int;
            consumed += 1;
            assert(rest@ =~= r0.skip(1));
            assert forall|j: int| 0 <= j < rest@.len() implies #[trigger] entries_view(rest@)[j]
                == orig.skip(consumed as int)[j] by {
                assert(entries_view(rest@)[j] == entry_view(r0[j + 1]));
                assert(entries_view(r0)[j + 1] == entry_view(r0[j + 1]));
                assert(orig.skip(c0)[j + 1] == orig[c0 + j + 1]);
            }
            assert(entries_view(rest@) =~= orig.skip(consumed as int));
        }
        assert(orig.take(n as int) =~= orig);
    }

    /// Index of the pending message with `key` (the last one).
    fn find(&self, key: &Vec<char>) -> (r: Option<usize>)
        ensures
            match r {
                Some(i) => i as int == find_key(self.pending(), key@) && i < self.fragments@.len(),
                None => find_key(self.pending(), key@) == -1,
            },
    {
        let mut k = self.fragments.len();
        assert(self.pending().take(k as int) =~= self.pending());
        while k > 0
            invariant
                k <= self.fragments@.len(),
                find_key(self.pending(), key@) == find_key(self.pending().take(k as int), key@),
            decreases k,
        {
            let ghost p = self.pending().take(k as int);
            assert(p.drop_last() =~= self.pending().take(k - 1));
            if chars_eq(&self.fragments[k - 1].key, key) {
                return Some(k - 1);
            }
            k -= 1;
        }
        None
    }
}

proof fn lemma_find_key_matches(s: Seq<Pending>, k: Seq<char>)
    ensures
        -1 <= find_key(s, k) < s.len(),
        find_key(s, k) >= 0 ==> s[find_key(s, k)].0 == k,
    decreases s.len(),
{
    if s.len() > 0 && s.last().0 != k {
        lemma_find_key_matches(s.drop_last(), k);
    }
}

fn chars_eq(a: &Vec<char>, b: &Vec<char>) -> (r: bool)
    ensures
        r == (a@ == b@),
{
    if a.len() != b.len() {
        return false;
    }
    let mut i: usize = 0;
    while i < a.len()
        invariant
            a@.len() == b@.len(),
            i <= a@.len(),
            forall|j: int| 0 <= j < i ==> a@[j] == b@[j],
        decreases a@.len() - i,
    {
        if a[i] != b[i] {
            return false;
        }
        i += 1;
    }
    assert(a@ =~= b@);
    true
}

fn copy_chars(s: &[char]) -> (v: Vec<char>)
    ensures
        v@ == s@,
{
    let mut v: Vec<char> = Vec::new();
    let mut i: usize = 0;
    while i < s.len()
        invariant
            i <= s@.len(),
            v@ == s@.take(i as int),
        decreases s@.len() - i,
    {
        v.push(s[i]);
        assert(s@.take(i as int).push(s@[i as int]) =~= s@.take(i + 1));
        i += 1;
    }
    assert(s@.take(s@.len() as int) =~= s@);
    v
}

/// The key of a message: sequence id, '-', channel.
fn join_key(seq_id: &[char], channel: &[char]) -> (k: Vec<char>)
    ensures
        k@ == seq_id@ + seq!['-'] + channel@,
{
    let mut k = copy_chars(seq_id);
    k.push('-');
    let mut i: usize = 0;
    let ghost head = k@;
    while i < channel.len()
        invariant
            i <= channel@.len(),
            k@ == head + channel@.take(i as int),
        decreases channel@.len() - i,
    {
        k.push(channel[i]);
        assert(head + channel@.take(i as int) + seq![channel@[i as int]] =~= head + channel@.take(
            i + 1,
        ));
        i += 1;
    }
    assert(channel@.take(channel@.len() as int) =~= channel@);
    k
}

/// `n` empty part slots.
fn no_parts(n: usize) -> (v: Vec<Option<Vec<char>>>)
    ensures
        v@.len() == n,
        parts_view(v@) == Seq::new(n as nat, |j: int| None::<Seq<char>>),
{
    let mut v: Vec<Option<Vec<char>>> = Vec::new();
    let mut i: usize = 0;
    while i < n
        invariant
            i <= n,
            v@.len() == i,
            forall|j: int| 0 <= j < i ==> #[trigger] v@[j] is None,
        decreases n - i,
    {
        v.push(None);
        i += 1;
    }
    assert(parts_view(v@) =~= Seq::new(n as nat, |j: int| None::<Seq<char>>));
    v
}

fn all_in(parts: &Vec<Option<Vec<char>>>) -> (r: bool)
    ensures
        r == all_received(parts_view(parts@)),
{
    let mut i: usize = 0;
    while i < parts.len()
        invariant
            i <= parts@.len(),
            forall|j: int| 0 <= j < i ==> #[trigger] parts@[j] is Some,
        decreases parts@.len() - i,
    {
        if parts[i].is_none() {
            assert(parts_view(parts@)[i as int] is None);
            return false;
        }
        i += 1;
    }
    assert forall|j: int| 0 <= j < parts_view(parts@).len() implies #[trigger] parts_view(parts@)[j] is Some by {
        assert(parts@[j] is Some);
    }
    true
}

fn join_parts(parts: &Vec<Option<Vec<char>>>) -> (s: String)
    ensures
        s@ == joined(parts_view(parts@)),
{
    let mut s = String::new();
    let mut i: usize = 0;
    while i < parts.len()
        invariant
            i <= parts@.len(),
            s@ == joined(parts_view(parts@).take(i as int)),
        decreases parts@.len() - i,
    {
        let ghost pv = parts_view(parts@);
        assert(pv.take(i + 1).drop_last() =~= pv.take(i as int));
        match &parts[i] {
            Some(p) => {
                let mut k: usize = 0;
                let ghost head = s@;
                while k < p.len()
                    invariant
                        k <= p@.len(),
                        s@ == head + p@.take(k as int),
                    decreases p@.len() - k,
                {
                    string_push(&mut s, p[k]);
                    assert(head + p@.take(k as int) + seq![p@[k as int]] =~= head + p@.take(k + 1));
                    k += 1;
                }
                assert(p@.take(p@.len() as int) =~= p@);
            },
            None => {
                assert(s@ + Seq::<char>::empty() =~= s@);
            },
        }
        i += 1;
    }
    assert(parts_view(parts@).take(parts@.len() as int) =~= parts_view(parts@));
    s
}

} // verus!
