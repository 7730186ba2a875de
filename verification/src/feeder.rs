//! Matching feeder connections against block entries, and the feeder
//! statistics. A feeder is known by its address ("host:port") and, once it
//! has sent one, by its UUID.
use vstd::prelude::*;
use crate::text::{str_chars, string_from_chars};

verus! {

/// The host of an address: everything before the first ':'.
pub open spec fn host_part(addr: Seq<char>) -> Seq<char>
    decreases addr.len(),
{
    if addr.len() == 0 || addr[0] == ':' {
        Seq::empty()
    } else {
        seq![addr[0]] + host_part(addr.drop_first())
    }
}

proof fn lemma_host_part(s: Seq<char>, i: int)
    requires
        0 <= i <= s.len(),
        forall|j: int| 0 <= j < i ==> s[j] != ':',
        i == s.len() || s[i] == ':',
    ensures
        host_part(s) == s.take(i),
    decreases s.len(),
{
    if i > 0 {
        lemma_host_part(s.drop_first(), i - 1);
        assert(s.take(i) =~= seq![s[0]] + s.drop_first().take(i - 1));
    } else {
        assert(s.take(0) =~= Seq::<char>::empty());
    }
}

/// The host part of a feeder address.
pub fn feeder_host(addr: &str) -> (h: String)
    ensures
        h@ == host_part(addr@),
{
    let cs = str_chars(addr);
    let mut i: usize = 0;
    while i < cs.len() && cs[i] != ':'
        invariant
            i <= cs@.len(),
            forall|j: int| 0 <= j < i ==> cs@[j] != ':',
        decreases cs@.len() - i,
    {
        i += 1;
    }
    proof {
        lemma_host_part(cs@, i as int);
    }
    let mut head: Vec<char> = Vec::new();
    let mut k: usize = 0;
    while k < i
        invariant
            k <= i <= cs@.len(),
            head@ == cs@.take(k as int),
        decreases i - k,
    {
        head.push(cs[k]);
        assert(cs@.take(k as int).push(cs@[k as int]) =~= cs@.take(k + 1));
        k += 1;
    }
    string_from_chars(head.as_slice())
}

/// Whether blocking `id` removes the feeder connected from `addr` with the
/// UUID `uuid`: `id` names its host, its whole address, or its UUID.
pub open spec fn blocked_by(addr: Seq<char>, uuid: Option<Seq<char>>, id: Seq<char>) -> bool {
    host_part(addr) == id || addr == id || uuid == Some(id)
}

/// Whether blocking `id` removes this feeder.
pub fn block_matches(addr: &String, uuid: &Option<String>, id: &String) -> (r: bool)
    ensures
        r == blocked_by(
            addr@,
            match uuid {
                Some(u) => Some(u@),
                None => None,
            },
            id@,
        ),
{
    let host = feeder_host(addr.as_str());
    if host == *id || *addr == *id {
        return true;
    }
    match uuid {
        Some(u) => *u == *id,
        None => false,
    }
}

/// Feeder `a` comes before feeder `b` when listing by a key in descending
/// order: a larger key first, and between equal keys the earlier feeder.
pub open spec fn ranks_before(keys: Seq<u64>, a: int, b: int) -> bool {
    keys[a] > keys[b] || (keys[a] == keys[b] && a < b)
}

/// `r` lists the first `limit` feeders (all of them when there are fewer)
/// of the stable descending order of `keys`: in that order, and every
/// feeder left out comes after every one listed.
pub open spec fn is_top_ranking(keys: Seq<u64>, limit: nat, r: Seq<usize>) -> bool {
    &&& r.len() == if limit < keys.len() {
        limit
    } else {
        keys.len()
    }
    &&& forall|i: int| 0 <= i < r.len() ==> #[trigger] r[i] < keys.len()
    &&& forall|i: int, j: int| 0 <= i < j < r.len() ==> ranks_before(keys, r[i] as int, r[j] as int)
    &&& forall|x: int, i: int|
        0 <= x < keys.len() && !r.contains(x as usize) && 0 <= i < r.len() ==> #[trigger] ranks_before(
            keys,
            r[i] as int,
            x,
        )
}

proof fn lemma_top_ranking_prefix(keys: Seq<u64>, limit: nat, r1: Seq<usize>, r2: Seq<usize>, k: int)
    requires
        is_top_ranking(keys, limit, r1),
        is_top_ranking(keys, limit, r2),
        0 <= k <= r1.len(),
    ensures
        forall|i: int| 0 <= i < k ==> r1[i] == r2[i],
    decreases k,
{
    if k > 0 {
        lemma_top_ranking_prefix(keys, limit, r1, r2, k - 1);
        let i = k - 1;
        let x = r1[i];
        let y = r2[i];
        if x != y {
            assert(ranks_before(keys, y as int, x as int)) by {
                if r2.contains(x) {
                    let j = choose|j: int| 0 <= j < r2.len() && r2[j] == x;
                    if j < i {
                        assert(r1[j] == x);
                        assert(ranks_before(keys, r1[j] as int, r1[i] as int));
                    }
                } else {
                    assert(ranks_before(keys, r2[i] as int, x as int));
                }
            }
            assert(ranks_before(keys, x as int, y as int)) by {
                if r1.contains(y) {
                    let j = choose|j: int| 0 <= j < r1.len() && r1[j] == y;
                    if j < i {
                        assert(r2[j] == y);
                        assert(ranks_before(keys, r2[j] as int, r2[i] as int));
                    }
                } else {
                    assert(ranks_before(keys, r1[i] as int, y as int));
                }
            }
        }
    }
}

/// The ranking is determined: only one list meets `is_top_ranking` for
/// given keys and limit.
pub proof fn lemma_top_ranking_unique(keys: Seq<u64>, limit: nat, r1: Seq<usize>, r2: Seq<usize>)
    requires
        is_top_ranking(keys, limit, r1),
        is_top_ranking(keys, limit, r2),
    ensures
        r1 == r2,
{
    lemma_top_ranking_prefix(keys, limit, r1, r2, r1.len() as int);
    assert(r1 =~= r2);
}

spec fn holds_index(s: Seq<usize>, x: int) -> bool {
    exists|a: int| 0 <= a < s.len() && s[a] == x
}

fn ranks_before_exec(keys: &[u64], a: usize, b: usize) -> (r: bool)
    requires
        a < keys@.len(),
        b < keys@.len(),
    ensures
        r == ranks_before(keys@, a as int, b as int),
{
    keys[a] > keys[b] || (keys[a] == keys[b] && a < b)
}

/// The indices of the first `limit` feeders when listed by `keys` in
/// descending order, equal keys in their original order.
pub fn rank_descending(keys: &[u64], limit: usize) -> (r: Vec<usize>)
    ensures
        is_top_ranking(keys@, limit as nat, r@),
{
    let n = keys.len();
    let m = if limit < n {
        limit
    } else {
        n
    };
    let mut idx: Vec<usize> = Vec::new();
    let mut k: usize = 0;
    while k < n
        invariant
            n == keys@.len(),
            k <= n,
            idx@.len() == k,
            forall|a: int| 0 <= a < k ==> #[trigger] idx@[a] == a,
        decreases n - k,
    {
        idx.push(k);
        k += 1;
    }
    assert forall|x: int| 0 <= x < n implies #[trigger] holds_index(idx@, x) by {
        assert(idx@[x] == x);
    }
    let mut i: usize = 0;
    while i < m
        invariant
            n == keys@.len(),
            m <= n,
            i <= m,
            idx@.len() == n,
            forall|a: int| 0 <= a < n ==> #[trigger] idx@[a] < n,
            forall|a: int, b: int| 0 <= a < b < n ==> idx@[a] != idx@[b],
            forall|x: int| 0 <= x < n ==> #[trigger] holds_index(idx@, x),
            forall|a: int, b: int|
                0 <= a < b < n && a < i ==> ranks_before(keys@, idx@[a] as int, idx@[b] as int),
        decreases m - i,
    {
        let mut p: usize = i;
        let mut q: usize = i + 1;
        while q < n
            invariant
                n == keys@.len(),
                i < n,
                i <= p < q <= n,
                idx@.len() == n,
                forall|a: int| 0 <= a < n ==> #[trigger] idx@[a] < n,
                forall|a: int, b: int| 0 <= a < b < n ==> idx@[a] != idx@[b],
                forall|c: int|
                    i <= c < q && c != p ==> ranks_before(keys@, idx@[p as int] as int, #[trigger] idx@[c] as int),
            decreases n - q,
        {
            if ranks_before_exec(keys, idx[q], idx[p]) {
                p = q;
            }
            q += 1;
        }
        let ghost before = idx@;
        let vi = idx[i];
        let vp = idx[p];
        idx.set(i, vp);
        idx.set(p, vi);
        proof {
            assert forall|x: int| 0 <= x < n implies #[trigger] holds_index(idx@, x) by {
                assert(holds_index(before, x));
                let a = choose|a: int| 0 <= a < before.len() && before[a] == x;
                if a == i {
                    assert(idx@[p as int] == x);
                } else if a == p {
                    assert(idx@[i as int] == x);
                } else {
                    assert(idx@[a] == x);
                }
            }
            assert forall|a: int, b: int| 0 <= a < b < n && a < i + 1 implies ranks_before(
                keys@,
                idx@[a] as int,
                idx@[b] as int,
            ) by {
                if a < i {
                    if b == p {
                        assert(idx@[b] == before[i as int]);
                    } else if b == i {
                        assert(idx@[b] == before[p as int]);
                    } else {
                        assert(idx@[b] == before[b]);
                    }
                } else {
                    assert(idx@[a] == before[p as int]);
                    if b == p {
                        assert(idx@[b] == before[i as int]);
                    } else {
                        assert(idx@[b] == before[b]);
                    }
                }
            }
        }
        i += 1;
    }
    let mut r: Vec<usize> = Vec::new();
    let mut t: usize = 0;
    while t < m
        invariant
            m <= n,
            idx@.len() == n,
            t <= m,
            r@ == idx@.take(t as int),
        decreases m - t,
    {
        r.push(idx[t]);
        assert(idx@.take(t as int).push(idx@[t as int]) =~= idx@.take(t + 1));
        t += 1;
    }
    proof {
        assert forall|x: int, j: int| 0 <= x < n && !r@.contains(x as usize) && 0 <= j < r@.len()
            implies #[trigger] ranks_before(keys@, r@[j] as int, x) by {
            assert(holds_index(idx@, x));
            let a = choose|a: int| 0 <= a < idx@.len() && idx@[a] == x;
            if a < m {
                assert(r@[a] == x);
            }
            assert(r@[j] == idx@[j]);
        }
    }
    r
}

/// Sum of the message counts of `f` (count, garbage).
pub open spec fn message_total(f: Seq<(u64, bool)>) -> nat
    decreases f.len(),
{
    if f.len() == 0 {
        0
    } else {
        message_total(f.drop_last()) + f.last().0 as nat
    }
}

/// Number of feeders in `f` (count, garbage) marked as garbage.
pub open spec fn garbage_total(f: Seq<(u64, bool)>) -> nat
    decreases f.len(),
{
    if f.len() == 0 {
        0
    } else {
        garbage_total(f.drop_last()) + if f.last().1 {
            1nat
        } else {
            0nat
        }
    }
}

/// The feeder counts of the statistics.
pub struct FeederTally {
    pub total: usize,
    pub active: usize,
    pub garbage: usize,
    pub total_messages: u64,
}

/// Counts the feeders (message count, garbage flag): how many there are,
/// how many are active and how many garbage, and their messages in all.
pub fn feeder_tally(feeders: &[(u64, bool)]) -> (t: FeederTally)
    requires
        message_total(feeders@) <= u64::MAX,
    ensures
        t.total == feeders@.len(),
        t.garbage == garbage_total(feeders@),
        t.active == feeders@.len() - garbage_total(feeders@),
        t.total_messages == message_total(feeders@),
{
    let mut garbage: usize = 0;
    let mut msgs: u64 = 0;
    let mut i: usize = 0;
    while i < feeders.len()
        invariant
            i <= feeders@.len(),
            message_total(feeders@) <= u64::MAX,
            garbage == garbage_total(feeders@.take(i as int)),
            garbage <= i,
            msgs == message_total(feeders@.take(i as int)),
        decreases feeders@.len() - i,
    {
        assert(feeders@.take(i + 1).drop_last() =~= feeders@.take(i as int));
        proof {
            lemma_message_total_prefix(feeders@, i + 1);
        }
        let (c, g) = feeders[i];
        msgs = msgs + c;
        if g {
            garbage = garbage + 1;
        }
        i += 1;
    }
    assert(feeders@.take(feeders@.len() as int) =~= feeders@);
    FeederTally { total: feeders.len(), active: feeders.len() - garbage, garbage, total_messages: msgs }
}

proof fn lemma_message_total_prefix(f: Seq<(u64, bool)>, k: int)
    requires
        0 <= k <= f.len(),
    ensures
        message_total(f.take(k)) <= message_total(f),
    decreases f.len() - k,
{
    if k < f.len() {
        lemma_message_total_prefix(f, k + 1);
        assert(f.take(k + 1).drop_last() =~= f.take(k));
    } else {
        assert(f.take(k) =~= f);
    }
}

} // verus!
