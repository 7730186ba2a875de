//! Text helpers: building `String`s, trimming, splitting into fields and
//! reading decimal numbers, all over characters.
use vstd::prelude::*;
use vstd::std_specs::iter::IteratorSpec;

verus! {

/// The characters whose code points are the given bytes (Latin-1).
pub open spec fn latin1_chars(s: Seq<u8>) -> Seq<char> {
    Seq::new(s.len(), |i: int| s[i] as char)
}

/// `String::push`: appends one character.
#[verifier::external_body]
pub(crate) fn string_push(s: &mut String, c: char)
    ensures
        final(s)@ == old(s)@.push(c),
{
    s.push(c)
}

/// The string whose characters have the given byte code points.
pub fn latin1_string(codes: &[u8]) -> (s: String)
    ensures
        s@ == latin1_chars(codes@),
{
    let mut s = String::new();
    let mut i: usize = 0;
    while i < codes.len()
        invariant
            i <= codes@.len(),
            s@ == latin1_chars(codes@.take(i as int)),
        decreases codes@.len() - i,
    {
        string_push(&mut s, codes[i] as char);
        i += 1;
        assert(s@ =~= latin1_chars(codes@.take(i as int)));
    }
    assert(codes@.take(codes@.len() as int) =~= codes@);
    s
}

/// Unicode `White_Space` characters (what `str::trim` removes).
pub open spec fn is_white_space(c: char) -> bool {
    let u = c as u32;
    (0x09 <= u <= 0x0D) || u == 0x20 || u == 0x85 || u == 0xA0 || u == 0x1680 || (0x2000 <= u
        <= 0x200A) || u == 0x2028 || u == 0x2029 || u == 0x202F || u == 0x205F || u == 0x3000
}

/// `s` without leading white space.
pub open spec fn trim_start_ws(s: Seq<char>) -> Seq<char>
    decreases s.len(),
{
    if s.len() > 0 && is_white_space(s[0]) {
        trim_start_ws(s.drop_first())
    } else {
        s
    }
}

/// `s` without trailing white space.
pub open spec fn trim_end_ws(s: Seq<char>) -> Seq<char>
    decreases s.len(),
{
    if s.len() > 0 && is_white_space(s.last()) {
        trim_end_ws(s.drop_last())
    } else {
        s
    }
}

/// `s` without leading and trailing white space.
pub open spec fn trim_ws(s: Seq<char>) -> Seq<char> {
    trim_end_ws(trim_start_ws(s))
}

/// `str::trim`: the slice without leading and trailing Unicode white space,
/// as the standard library documents it.
#[verifier::external_body]
pub(crate) fn str_trim(s: &str) -> (r: &str)
    ensures
        r@ == trim_ws(s@),
{
    s.trim()
}

/// The characters of `s`.
pub fn str_chars(s: &str) -> (v: Vec<char>)
    ensures
        v@ == s@,
{
    let mut v: Vec<char> = Vec::new();
    for c in it: s.chars()
        invariant
            it.seq() == s@,
            v@ == it.seq().take(it.index()),
    {
        v.push(c);
        assert(it.seq().take(it.index()).push(c) =~= it.seq().take(it.index() + 1));
    }
    assert(v@ =~= s@);
    v
}

/// The string made of the characters `cs`.
pub fn string_from_chars(cs: &[char]) -> (s: String)
    ensures
        s@ == cs@,
{
    let mut s = String::new();
    let mut i: usize = 0;
    while i < cs.len()
        invariant
            i <= cs@.len(),
            s@ == cs@.take(i as int),
        decreases cs@.len() - i,
    {
        string_push(&mut s, cs[i]);
        assert(cs@.take(i as int).push(cs@[i as int]) =~= cs@.take(i + 1));
        i += 1;
    }
    assert(cs@.take(cs@.len() as int) =~= cs@);
    s
}

/// Splitting the first `n` characters of `s` at `sep`: the fields completed
/// so far and the field under way.
pub open spec fn split_prefix(s: Seq<char>, sep: char, n: nat) -> (Seq<Seq<char>>, Seq<char>)
    decreases n,
{
    if n == 0 {
        (Seq::empty(), Seq::empty())
    } else {
        let (done, cur) = split_prefix(s, sep, (n - 1) as nat);
        if s[n - 1] == sep {
            (done.push(cur), Seq::empty())
        } else {
            (done, cur.push(s[n - 1]))
        }
    }
}

/// The fields of `s` separated by `sep` (as `str::split`): one more than
/// the separators, possibly empty.
pub open spec fn split_fields(s: Seq<char>, sep: char) -> Seq<Seq<char>> {
    let (done, cur) = split_prefix(s, sep, s.len());
    done.push(cur)
}

/// Splits the characters at every `sep`.
pub fn split_chars(s: &[char], sep: char) -> (fields: Vec<Vec<char>>)
    ensures
        fields@.len() == split_fields(s@, sep).len(),
        forall|i: int| 0 <= i < fields@.len() ==> #[trigger] fields@[i]@ == split_fields(s@, sep)[i],
{
    let mut done: Vec<Vec<char>> = Vec::new();
    let mut cur: Vec<char> = Vec::new();
    let mut i: usize = 0;
    while i < s.len()
        invariant
            i <= s@.len(),
            ({
                let (d, c) = split_prefix(s@, sep, i as nat);
                &&& done@.len() == d.len()
                &&& forall|j: int| 0 <= j < done@.len() ==> #[trigger] done@[j]@ == d[j]
                &&& cur@ == c
            }),
        decreases s@.len() - i,
    {
        if s[i] == sep {
            let finished = cur;
            done.push(finished);
            cur = Vec::new();
        } else {
            cur.push(s[i]);
        }
        i += 1;
    }
    done.push(cur);
    done
}

/// Decimal digits '0'-'9'.
pub open spec fn is_digit(c: char) -> bool {
    '0' <= c <= '9'
}

/// The value of a string of decimal digits.
pub open spec fn decimal_value(d: Seq<char>) -> nat
    decreases d.len(),
{
    if d.len() == 0 {
        0
    } else {
        10 * decimal_value(d.drop_last()) + (d.last() as nat - '0' as nat) as nat
    }
}

/// `str::parse::<usize>`: an optional '+' then at least one decimal digit,
/// with a value that fits in `usize`.
pub open spec fn parse_usize_spec(f: Seq<char>) -> Option<usize> {
    parse_usize_spec_digits(
        if f.len() > 0 && f[0] == '+' {
            f.drop_first()
        } else {
            f
        },
    )
}

proof fn lemma_decimal_prefix_grows(d: Seq<char>, k: int)
    requires
        0 <= k <= d.len(),
        forall|i: int| 0 <= i < d.len() ==> is_digit(#[trigger] d[i]),
    ensures
        decimal_value(d.take(k)) <= decimal_value(d),
    decreases d.len() - k,
{
    if k < d.len() {
        lemma_decimal_prefix_grows(d, k + 1);
        assert(d.take(k + 1).drop_last() =~= d.take(k));
    } else {
        assert(d.take(k) =~= d);
    }
}

/// A digit string whose prefix of `k + 1` characters already exceeds
/// `usize::MAX` is refused.
proof fn lemma_overflow_refuses(d: Seq<char>, k: int, v: nat)
    requires
        0 <= k < d.len(),
        v == decimal_value(d.take(k)),
        is_digit(d[k]),
        10 * v + (d[k] as nat - '0' as nat) > usize::MAX,
    ensures
        parse_usize_spec_digits(d) is None,
{
    assert(d.take(k + 1).drop_last() =~= d.take(k));
    assert(decimal_value(d.take(k + 1)) == 10 * v + (d[k] as nat - '0' as nat));
    if forall|j: int| 0 <= j < d.len() ==> is_digit(#[trigger] d[j]) {
        lemma_decimal_prefix_grows(d, k + 1);
    } else {
        let j = choose|j: int| !(0 <= j < d.len() ==> is_digit(#[trigger] d[j]));
        assert(0 <= j < d.len() && !is_digit(d[j]));
    }
}

/// The digits part of `parse_usize_spec`.
pub open spec fn parse_usize_spec_digits(d: Seq<char>) -> Option<usize> {
    if d.len() == 0 || exists|i: int| 0 <= i < d.len() && !is_digit(#[trigger] d[i]) {
        None
    } else if decimal_value(d) > usize::MAX {
        None
    } else {
        Some(decimal_value(d) as usize)
    }
}

/// Reads a `usize` as `str::parse` does.
pub fn parse_usize(f: &[char]) -> (r: Option<usize>)
    ensures
        r == parse_usize_spec(f@),
{
    let n = f.len();
    let start: usize = if n > 0 && f[0] == '+' {
        1
    } else {
        0
    };
    let ghost d = if f@.len() > 0 && f@[0] == '+' {
        f@.drop_first()
    } else {
        f@
    };
    assert(d =~= f@.subrange(start as int, n as int));
    if start == n {
        return None;
    }
    let mut v: usize = 0;
    let mut i: usize = start;
    while i < n
        invariant
            start <= i <= n,
            n == f@.len(),
            d == f@.subrange(start as int, n as int),
            parse_usize_spec(f@) == parse_usize_spec_digits(d),
            forall|j: int| 0 <= j < i - start ==> is_digit(#[trigger] d[j]),
            v == decimal_value(d.take(i - start)),
        decreases n - i,
    {
        let c = f[i];
        if !('0' <= c && c <= '9') {
            assert(0 <= i - start < d.len() && !is_digit(d[i - start]));
            return None;
        }
        let digit = (c as u32 - '0' as u32) as usize;
        assert(d.take(i - start + 1).drop_last() =~= d.take(i - start));
        match v.checked_mul(10) {
            Some(t) => match t.checked_add(digit) {
                Some(u) => {
                    v = u;
                },
                None => {
                    proof {
                        lemma_overflow_refuses(d, (i - start) as int, v as nat);
                    }
                    return None;
                },
            },
            None => {
                proof {
                    lemma_overflow_refuses(d, (i - start) as int, v as nat);
                }
                return None;
            },
        }
        i += 1;
    }
    assert(d.take(n - start) =~= d);
    Some(v)
}

} // verus!
