//! Decimal text for unsigned integers, both ways: the `to_string` rendering
//! and the `str::parse` reading (optional leading `+`, ASCII digits only,
//! no overflow).

use vstd::prelude::*;
use crate::paths::push_char;

verus! {

/// The ASCII digit for `d < 10`.
pub open spec fn digit_char(d: nat) -> char {
    if d == 0 { '0' }
    else if d == 1 { '1' }
    else if d == 2 { '2' }
    else if d == 3 { '3' }
    else if d == 4 { '4' }
    else if d == 5 { '5' }
    else if d == 6 { '6' }
    else if d == 7 { '7' }
    else if d == 8 { '8' }
    else { '9' }
}

/// Decimal rendering of `n`, most significant digit first, no leading zeros.
pub open spec fn dec(n: nat) -> Seq<char>
    decreases n,
{
    if n < 10 {
        seq![digit_char(n)]
    } else {
        dec(n / 10).push(digit_char(n % 10))
    }
}

/// Whether `c` is an ASCII decimal digit.
pub open spec fn is_digit(c: char) -> bool {
    ('0' as u32) <= (c as u32) && (c as u32) <= ('9' as u32)
}

/// The value of a digit character.
pub open spec fn digit_value(c: char) -> nat {
    ((c as u32) - ('0' as u32)) as nat
}

/// The value of a non-empty run of digits.
pub open spec fn digits_value(ds: Seq<char>) -> nat
    decreases ds.len(),
{
    if ds.len() == 0 {
        0
    } else {
        digits_value(ds.drop_last()) * 10 + digit_value(ds.last())
    }
}

/// The digits of `s` after an optional leading `+`.
pub open spec fn unsigned_body(s: Seq<char>) -> Seq<char> {
    if s.len() > 0 && s[0] == '+' {
        s.drop_first()
    } else {
        s
    }
}

/// The number `s` denotes as unsigned decimal text, ignoring width: `None`
/// unless `s` is an optional `+` followed by one or more ASCII digits.
pub open spec fn parse_unsigned(s: Seq<char>) -> Option<nat> {
    let body = unsigned_body(s);
    if body.len() > 0 && forall|i: int| 0 <= i < body.len() ==> is_digit(#[trigger] body[i]) {
        Some(digits_value(body))
    } else {
        None
    }
}

/// The decimal digit character of `d`.
pub(crate) fn digit_of(d: u64) -> (c: char)
    requires
        d < 10,
    ensures
        c == digit_char(d as nat),
{
    if d == 0 { '0' }
    else if d == 1 { '1' }
    else if d == 2 { '2' }
    else if d == 3 { '3' }
    else if d == 4 { '4' }
    else if d == 5 { '5' }
    else if d == 6 { '6' }
    else if d == 7 { '7' }
    else if d == 8 { '8' }
    else { '9' }
}

fn push_dec(out: &mut String, n: u64)
    ensures
        final(out)@ == old(out)@ + dec(n as nat),
    decreases n,
{
    if n < 10 {
        push_char(out, digit_of(n));
        assert(dec(n as nat) == seq![digit_char(n as nat)]);
    } else {
        push_dec(out, n / 10);
        push_char(out, digit_of(n % 10));
        assert(dec(n as nat) == dec((n / 10) as nat).push(digit_char((n % 10) as nat)));
    }
}

/// `n.to_string()`: the decimal rendering of `n`.
pub fn u64_to_decimal(n: u64) -> (r: String)
    ensures
        r@ == dec(n as nat),
{
    let mut out = String::new();
    push_dec(&mut out, n);
    out
}

/// Appends to `out` the decimal rendering of `n`.
pub fn append_decimal(out: &mut String, n: u64)
    ensures
        final(out)@ == old(out)@ + dec(n as nat),
{
    push_dec(out, n);
}

proof fn lemma_digits_value_prefix(ds: Seq<char>, i: int)
    requires
        0 <= i <= ds.len(),
    ensures
        digits_value(ds.take(i)) <= digits_value(ds),
    decreases ds.len() - i,
{
    if i < ds.len() {
        lemma_digits_value_prefix(ds, i + 1);
        assert(ds.take(i + 1).drop_last() =~= ds.take(i));
    } else {
        assert(ds.take(i) =~= ds);
    }
}

/// `s.parse::<u64>()`, as `Option`: the value when `s` is an optional `+`
/// followed by ASCII digits whose value fits in a `u64`.
pub fn parse_u64(s: &str) -> (r: Option<u64>)
    ensures
        r == (match parse_unsigned(s@) {
            Some(v) => if v <= u64::MAX { Some(v as u64) } else { None },
            None => None,
        }),
{
    let n = s.unicode_len();
    let mut i: usize = 0;
    if n > 0 && s.get_char(0) == '+' {
        i = 1;
    }
    let ghost body = unsigned_body(s@);
    assert(body =~= s@.subrange(i as int, n as int));
    if i == n {
        assert(body.len() == 0);
        assert(parse_unsigned(s@) is None);
        return None;
    }
    let start = i;
    let mut v: u64 = 0;
    let mut overflow = false;
    while i < n
        invariant
            n == s@.len(),
            start <= i <= n,
            body =~= s@.subrange(start as int, n as int),
            body == unsigned_body(s@),
            forall|j: int| start <= j < i ==> is_digit(#[trigger] s@[j]),
            !overflow ==> v == digits_value(body.take(i - start)),
            overflow ==> digits_value(body.take(i - start)) > u64::MAX,
        decreases n - i,
    {
        let c = s.get_char(i);
        if !(('0' as u32) <= (c as u32) && (c as u32) <= ('9' as u32)) {
            assert(!is_digit(body[i - start]));
            return None;
        }
        let d = (c as u32 - '0' as u32) as u64;
        proof {
            assert(body.take(i + 1 - start).drop_last() =~= body.take(i - start));
            assert(body.take(i + 1 - start).last() == c);
        }
        if !overflow {
            if v > (u64::MAX - d) / 10 {
                overflow = true;
                assert(v * 10 + d > u64::MAX) by (nonlinear_arith)
                    requires
                        v > (u64::MAX - d) / 10,
                        d < 10,
                ;
            } else {
                assert(v * 10 + d <= u64::MAX) by (nonlinear_arith)
                    requires
                        v <= (u64::MAX - d) / 10,
                        d < 10,
                ;
                v = v * 10 + d;
            }
        } else {
            assert(digits_value(body.take(i + 1 - start)) >= digits_value(body.take(i - start)))
                by (nonlinear_arith)
                requires
                    digits_value(body.take(i + 1 - start)) == digits_value(body.take(i - start))
                        * 10 + digit_value(c),
            ;
        }
        i = i + 1;
    }
    assert(body.take(n - start) =~= body);
    if overflow {
        None
    } else {
        Some(v)
    }
}

/// `s.parse::<usize>()`, as `Option` (see [`parse_u64`]).
pub fn parse_usize(s: &str) -> (r: Option<usize>)
    ensures
        r == (match parse_unsigned(s@) {
            Some(v) => if v <= usize::MAX { Some(v as usize) } else { None },
            None => None,
        }),
{
    match parse_u64(s) {
        Some(v) => {
            if v as u128 <= usize::MAX as u128 {
                Some(v as usize)
            } else {
                None
            }
        },
        None => {
            proof {
                if let Some(v) = parse_unsigned(s@) {
                    assert(v > u64::MAX);
                    assert(usize::MAX <= u64::MAX);
                }
            }
            None
        },
    }
}

/// Reading back a rendered number gives the number.
pub proof fn lemma_parse_dec(n: nat)
    ensures
        parse_unsigned(dec(n)) == Some(n),
    decreases n,
{
    lemma_dec_shape(n);
    assert(unsigned_body(dec(n)) == dec(n));
    lemma_dec_value(n);
}

proof fn lemma_dec_shape(n: nat)
    ensures
        dec(n).len() > 0,
        forall|i: int| 0 <= i < dec(n).len() ==> is_digit(#[trigger] dec(n)[i]),
    decreases n,
{
    if n >= 10 {
        lemma_dec_shape(n / 10);
        assert forall|i: int| 0 <= i < dec(n).len() implies is_digit(#[trigger] dec(n)[i]) by {
            if i < dec(n / 10).len() {
                assert(dec(n)[i] == dec(n / 10)[i]);
            }
        }
    }
}

proof fn lemma_digit_roundtrip(d: nat)
    requires
        d < 10,
    ensures
        digit_value(digit_char(d)) == d,
        is_digit(digit_char(d)),
{
}

proof fn lemma_dec_value(n: nat)
    ensures
        digits_value(dec(n)) == n,
    decreases n,
{
    lemma_digit_roundtrip(n % 10);
    if n < 10 {
        assert(dec(n).drop_last() =~= Seq::<char>::empty());
        assert(digits_value(Seq::<char>::empty()) == 0);
        assert(dec(n).last() == digit_char(n));
    } else {
        lemma_dec_value(n / 10);
        assert(dec(n).drop_last() =~= dec(n / 10));
        assert(dec(n).last() == digit_char(n % 10));
        assert((n / 10) * 10 + n % 10 == n) by (nonlinear_arith);
    }
}

} // verus!
