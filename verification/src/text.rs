//! Text helpers over character sequences: Unicode whitespace trimming,
//! prefixes, and building strings from character ranges.

use vstd::prelude::*;
use crate::paths::push_char;
use vstd::std_specs::iter::IteratorSpec;

verus! {

/// `char::is_whitespace`: the Unicode `White_Space` property.
pub open spec fn is_unicode_ws(c: char) -> bool {
    let v = c as u32;
    ||| 9 <= v <= 13
    ||| v == 32
    ||| v == 0x85
    ||| v == 0xa0
    ||| v == 0x1680
    ||| 0x2000 <= v <= 0x200a
    ||| v == 0x2028
    ||| v == 0x2029
    ||| v == 0x202f
    ||| v == 0x205f
    ||| v == 0x3000
}

/// Whether `c` is Unicode whitespace.
pub fn is_whitespace(c: char) -> (r: bool)
    ensures
        r == is_unicode_ws(c),
{
    let v = c as u32;
    (9 <= v && v <= 13) || v == 32 || v == 0x85 || v == 0xa0 || v == 0x1680 || (0x2000 <= v && v
        <= 0x200a) || v == 0x2028 || v == 0x2029 || v == 0x202f || v == 0x205f || v == 0x3000
}

/// First index in `[lo, hi)` whose char is not whitespace (`hi` if none).
pub open spec fn ws_lo(s: Seq<char>, lo: int, hi: int) -> int
    decreases hi - lo,
{
    if lo >= hi {
        hi
    } else if is_unicode_ws(s[lo]) {
        ws_lo(s, lo + 1, hi)
    } else {
        lo
    }
}

/// One past the last index in `[lo, hi)` whose char is not whitespace
/// (`lo` if none).
pub open spec fn ws_hi(s: Seq<char>, lo: int, hi: int) -> int
    decreases hi - lo,
{
    if hi <= lo {
        lo
    } else if is_unicode_ws(s[hi - 1]) {
        ws_hi(s, lo, hi - 1)
    } else {
        hi
    }
}

/// `str::trim`: `s` without leading and trailing whitespace.
pub open spec fn trimmed(s: Seq<char>) -> Seq<char> {
    let lo = ws_lo(s, 0, s.len() as int);
    s.subrange(lo, ws_hi(s, lo, s.len() as int))
}

proof fn lemma_ws_lo_bounds(s: Seq<char>, lo: int, hi: int)
    requires
        lo <= hi,
    ensures
        lo <= ws_lo(s, lo, hi) <= hi,
    decreases hi - lo,
{
    if lo < hi && is_unicode_ws(s[lo]) {
        lemma_ws_lo_bounds(s, lo + 1, hi);
    }
}

proof fn lemma_ws_hi_bounds(s: Seq<char>, lo: int, hi: int)
    requires
        lo <= hi,
    ensures
        lo <= ws_hi(s, lo, hi) <= hi,
    decreases hi - lo,
{
    if lo < hi && is_unicode_ws(s[hi - 1]) {
        lemma_ws_hi_bounds(s, lo, hi - 1);
    }
}

/// The characters of `s`.
pub fn chars_of(s: &str) -> (v: Vec<char>)
    ensures
        v@ == s@,
{
    let n = s.unicode_len();
    let mut v: Vec<char> = Vec::new();
    let mut it = s.chars();
    assert(it.remaining() == s@.skip(0)) by {
        assert(s@.skip(0) =~= s@);
    }
    let mut i: usize = 0;
    while i < n
        invariant
            n == s@.len(),
            0 <= i <= n,
            v@ == s@.take(i as int),
            it.remaining() == s@.skip(i as int),
        decreases n - i,
    {
        let c = it.next();
        proof {
            assert(s@.skip(i as int).len() > 0);
        }
        match c {
            Some(ch) => {
                v.push(ch);
                assert(s@.skip(i as int)[0] == s@[i as int]);
                assert(v@ =~= s@.take(i + 1));
                assert(s@.skip(i as int).drop_first() =~= s@.skip(i + 1));
            },
            None => {
                assert(false);
            },
        }
        i = i + 1;
    }
    assert(s@.take(n as int) =~= s@);
    v
}

/// The string of `cs[lo..hi]`.
pub fn string_of(cs: &Vec<char>, lo: usize, hi: usize) -> (r: String)
    requires
        lo <= hi <= cs.len(),
    ensures
        r@ == cs@.subrange(lo as int, hi as int),
{
    let mut out = String::new();
    let mut i = lo;
    while i < hi
        invariant
            lo <= i <= hi <= cs.len(),
            out@ == cs@.subrange(lo as int, i as int),
        decreases hi - i,
    {
        push_char(&mut out, cs[i]);
        assert(out@ =~= cs@.subrange(lo as int, i + 1));
        i = i + 1;
    }
    out
}

/// The whitespace-trimmed bounds `(lo, hi)` of `cs[from..to]`.
pub fn trim_bounds(cs: &Vec<char>, from: usize, to: usize) -> (r: (usize, usize))
    requires
        from <= to <= cs.len(),
    ensures
        r.0 == ws_lo(cs@, from as int, to as int),
        r.1 == ws_hi(cs@, r.0 as int, to as int),
        from <= r.0 <= r.1 <= to,
{
    let mut lo = from;
    while lo < to && is_whitespace(cs[lo])
        invariant
            from <= lo <= to <= cs.len(),
            ws_lo(cs@, lo as int, to as int) == ws_lo(cs@, from as int, to as int),
        decreases to - lo,
    {
        lo = lo + 1;
    }
    let mut hi = to;
    while hi > lo && is_whitespace(cs[hi - 1])
        invariant
            from <= lo <= hi <= to <= cs.len(),
            ws_hi(cs@, lo as int, hi as int) == ws_hi(cs@, lo as int, to as int),
        decreases hi - lo,
    {
        hi = hi - 1;
    }
    (lo, hi)
}

/// `s.trim()`, owned.
pub fn trim(s: &str) -> (r: String)
    ensures
        r@ == trimmed(s@),
{
    let cs = chars_of(s);
    let (lo, hi) = trim_bounds(&cs, 0, cs.len());
    string_of(&cs, lo, hi)
}

/// `s` without the prefix `p`, when `s` starts with `p`.
pub fn strip_prefix(s: &str, p: &str) -> (r: Option<String>)
    ensures
        match r {
            Some(rest) => p@.is_prefix_of(s@) && rest@ == s@.skip(p@.len() as int),
            None => !p@.is_prefix_of(s@),
        },
{
    let cs = chars_of(s);
    let ps = chars_of(p);
    if ps.len() > cs.len() {
        return None;
    }
    let mut i: usize = 0;
    while i < ps.len()
        invariant
            cs@ == s@,
            ps@ == p@,
            ps.len() <= cs.len(),
            0 <= i <= ps.len(),
            forall|j: int| 0 <= j < i ==> ps@[j] == cs@[j],
        decreases ps.len() - i,
    {
        if ps[i] != cs[i] {
            assert(s@.subrange(0, p@.len() as int)[i as int] == s@[i as int]);
            return None;
        }
        i = i + 1;
    }
    assert(ps@ =~= cs@.take(ps@.len() as int));
    let rest = string_of(&cs, ps.len(), cs.len());
    assert(rest@ =~= s@.skip(p@.len() as int));
    Some(rest)
}

/// Whether two strings hold the same characters.
pub fn str_eq(a: &str, b: &str) -> (r: bool)
    ensures
        r == (a@ == b@),
{
    a.to_owned() == b.to_owned()
}

proof fn lemma_ws_lo_shift(s: Seq<char>, from: int, to: int, a: int)
    requires
        0 <= from,
        0 <= a,
        from + a <= to <= s.len(),
    ensures
        ws_lo(s, from + a, to) == from + ws_lo(s.subrange(from, to), a, to - from),
    decreases to - from - a,
{
    if from + a < to {
        assert(s.subrange(from, to)[a] == s[from + a]);
        lemma_ws_lo_shift(s, from, to, a + 1);
    }
}

proof fn lemma_ws_hi_shift(s: Seq<char>, from: int, to: int, a: int, b: int)
    requires
        0 <= from,
        0 <= a <= b,
        from + b <= to <= s.len(),
    ensures
        ws_hi(s, from + a, from + b) == from + ws_hi(s.subrange(from, to), a, b),
    decreases b - a,
{
    if a < b {
        assert(s.subrange(from, to)[b - 1] == s[from + b - 1]);
        lemma_ws_hi_shift(s, from, to, a, b - 1);
    }
}

/// Trimming a range of `s` in place gives the trimmed sub-sequence.
pub proof fn lemma_trimmed_sub(s: Seq<char>, from: int, to: int)
    requires
        0 <= from <= to <= s.len(),
    ensures
        ({
            let lo = ws_lo(s, from, to);
            let hi = ws_hi(s, lo, to);
            s.subrange(lo, hi) == trimmed(s.subrange(from, to))
        }),
{
    let sub = s.subrange(from, to);
    lemma_ws_lo_shift(s, from, to, 0);
    let lo_rel = ws_lo(sub, 0, to - from);
    lemma_ws_lo_bounds(sub, 0, to - from);
    lemma_ws_hi_shift(s, from, to, lo_rel, to - from);
    lemma_ws_hi_bounds(sub, lo_rel, to - from);
    let hi_rel = ws_hi(sub, lo_rel, to - from);
    assert(s.subrange(from + lo_rel, from + hi_rel) =~= sub.subrange(lo_rel, hi_rel));
}

} // verus!
