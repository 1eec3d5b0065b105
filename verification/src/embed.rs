//! The embeddings client's decisions: batching, retry with capped
//! exponential backoff and jitter, and validation of a response.
//!
//! Sending requests and sleeping are the caller's; this module says how
//! texts are split into requests, what to do after a failure, and whether a
//! response is usable.

use vstd::prelude::*;
use crate::decimal::{dec, u64_to_decimal};
use crate::paths::push_char;
use crate::text::{chars_of, string_of, trim, trimmed};
use crate::clock::subsec_nanos_now;

verus! {

/// How failed requests are retried.
#[derive(Debug, Clone, Copy)]
pub struct RetryPolicy {
    pub max_retries: usize,
    pub initial_delay_ms: u64,
    pub max_delay_ms: u64,
    pub jitter: bool,
}

/// The embeddings retry policy: rate limits are per-minute windows, so up
/// to 7 retries from 1 s doubling to a 30 s cap, with jitter.
pub fn default_retry() -> (r: RetryPolicy)
    ensures
        r.max_retries == 7,
        r.initial_delay_ms == 1000,
        r.max_delay_ms == 30000,
        r.jitter,
{
    RetryPolicy { max_retries: 7, initial_delay_ms: 1000, max_delay_ms: 30000, jitter: true }
}

/// `2^n`.
pub open spec fn pow2(n: nat) -> nat
    decreases n,
{
    if n == 0 {
        1
    } else {
        2 * pow2((n - 1) as nat)
    }
}

/// The delay before retry `attempt` (counted from 0), before jitter: the
/// initial delay doubled per attempt (saturating), capped at the maximum.
pub open spec fn backoff(p: RetryPolicy, attempt: nat) -> nat {
    let d: nat = (p.initial_delay_ms as nat) * pow2(attempt);
    let s: nat = if d > u64::MAX {
        u64::MAX as nat
    } else {
        d
    };
    if s < p.max_delay_ms {
        s
    } else {
        p.max_delay_ms as nat
    }
}

proof fn lemma_pow2_shift(n: u64)
    requires
        n < 64,
    ensures
        (1u64 << n) as nat == pow2(n as nat),
    decreases n,
{
    if n == 0 {
        assert(1u64 << 0u64 == 1u64) by (bit_vector);
    } else {
        lemma_pow2_shift((n - 1) as u64);
        let m = (n - 1) as u64;
        assert((1u64 << n) == 2 * (1u64 << m)) by (bit_vector)
            requires
                n < 64,
                m == n - 1,
                n >= 1,
        ;
    }
}

/// The backoff delay before retry `attempt` (see [`backoff`]).
pub fn backoff_delay(p: &RetryPolicy, attempt: usize) -> (r: u64)
    requires
        attempt < 64,
    ensures
        r == backoff(*p, attempt as nat),
{
    let shift: u64 = 1u64 << (attempt as u64);
    proof {
        lemma_pow2_shift(attempt as u64);
    }
    let d = match p.initial_delay_ms.checked_mul(shift) {
        Some(v) => v,
        None => u64::MAX,
    };
    if d < p.max_delay_ms {
        d
    } else {
        p.max_delay_ms
    }
}

/// The jitter added to a delay `base`, from a varying number `nanos`: a
/// quarter of the base plus up to another quarter.
pub open spec fn jitter_of(base: nat, nanos: nat) -> nat {
    base / 4 + nanos % (base / 4 + 1)
}

/// The jitter for `base` given the varying `nanos` (see [`jitter_of`]).
pub fn jitter_from(base: u64, nanos: u64) -> (r: u64)
    ensures
        r == jitter_of(base as nat, nanos as nat),
        r <= base / 4 + base / 4,
{
    base / 4 + nanos % (base / 4 + 1)
}

/// The jitter for `base`, drawn from the clock: between a quarter and a
/// half of the base.
pub fn rand_jitter(base: u64) -> (r: u64)
    ensures
        base / 4 <= r <= base / 4 + base / 4,
{
    let n = subsec_nanos_now();
    jitter_from(base, n)
}

/// What to do after request attempt `attempt` failed: retry after the
/// backoff delay (plus `jitter` when the policy jitters) while attempts
/// remain and the error is retryable; otherwise give up (`None`).
pub open spec fn retry_delay(p: RetryPolicy, attempt: nat, retryable: bool, jitter: nat) -> Option<nat> {
    if attempt < p.max_retries && retryable {
        Some(
            backoff(p, attempt) + if p.jitter {
                jitter
            } else {
                0
            },
        )
    } else {
        None
    }
}

/// Decide the retry after failed attempt `attempt` (see [`retry_delay`]),
/// given the jitter drawn for the backoff delay.
pub fn next_retry(p: &RetryPolicy, attempt: usize, retryable: bool, jitter: u64) -> (r: Option<u64>)
    requires
        attempt < p.max_retries && retryable ==> attempt < 64 && (p.jitter ==> backoff(*p, attempt as nat)
            + jitter <= u64::MAX),
    ensures
        match retry_delay(*p, attempt as nat, retryable, jitter as nat) {
            Some(d) => r == Some(d as u64),
            None => r is None,
        },
{
    if attempt < p.max_retries && retryable {
        let delay = backoff_delay(p, attempt);
        if p.jitter {
            Some(delay + jitter)
        } else {
            Some(delay)
        }
    } else {
        None
    }
}

/// Whether request `i` of a run waits first: every request but the first,
/// when a minimum interval is set.
pub fn throttle_before(i: usize, min_interval_ms: u64) -> (r: bool)
    ensures
        r == (i > 0 && min_interval_ms > 0),
{
    i > 0 && min_interval_ms > 0
}

/// The batch size actually used: at least one.
pub fn effective_batch(batch: usize) -> (r: usize)
    ensures
        r == if batch >= 1 {
            batch
        } else {
            1
        },
{
    if batch >= 1 {
        batch
    } else {
        1
    }
}

/// The request ranges for `n` texts in batches of `b`: consecutive, in
/// order, each holding `b` texts but the last.
pub fn batch_ranges(n: usize, b: usize) -> (r: Vec<(usize, usize)>)
    requires
        b >= 1,
    ensures
        r.len() == (n + b - 1) / b as int,
        forall|i: int|
            0 <= i < r.len() ==> (#[trigger] r@[i]).0 == i * b && r@[i].1 == if (i + 1) * b <= n {
                (i + 1) * b
            } else {
                n as int
            },
{
    let mut out: Vec<(usize, usize)> = Vec::new();
    let mut start: usize = 0;
    assert(0 * b == 0) by (nonlinear_arith);
    while start < n
        invariant
            b >= 1,
            start <= n,
            start as int == if out.len() * b <= n {
                out.len() * b
            } else {
                n as int
            },
            out.len() == 0 || (out.len() - 1) * b < n,
            forall|i: int|
                0 <= i < out.len() ==> (#[trigger] out@[i]).0 == i * b && out@[i].1 == if (i + 1)
                    * b <= n {
                    (i + 1) * b
                } else {
                    n as int
                },
        decreases n - start,
    {
        let k = out.len();
        assert(start as int == k * b) by (nonlinear_arith)
            requires
                start < n,
                start as int == if k * b <= n {
                    k * b
                } else {
                    n as int
                },
        ;
        let end = if n - start >= b {
            start + b
        } else {
            n
        };
        assert((k + 1) * b == k * b + b) by (nonlinear_arith);
        out.push((start, end));
        start = end;
    }
    proof {
        let k = out.len() as int;
        assert(k * b >= n) by (nonlinear_arith)
            requires
                start == n,
                start as int == if k * b <= n {
                    k * b
                } else {
                    n as int
                },
        ;
        if k > 0 {
            assert((n + b - 1) / b as int == k) by (nonlinear_arith)
                requires
                    k * b >= n,
                    (k - 1) * b < n,
                    b >= 1,
                    n >= 0,
            ;
        } else {
            assert(n == 0);
            assert((n + b - 1) / b as int == 0) by (nonlinear_arith)
                requires
                    n == 0,
                    b >= 1,
            ;
        }
    }
    out
}

/// A failed embeddings call.
#[derive(Debug)]
pub enum EmbedError {
    /// The endpoint answered with an error status.
    Http { status: u16, retryable: bool, detail: String },
    /// The response held a different number of embeddings than asked for.
    Count { want: usize, got: usize },
    /// The embeddings do not all have the dimension of the first.
    Dim { first: usize, idx: usize, got: usize },
    /// The request did not complete (by its message).
    Network(String),
}

impl EmbedError {
    /// Whether retrying may help: a retryable status, or a network failure.
    pub fn is_retryable(&self) -> (r: bool)
        ensures
            r == match self {
                EmbedError::Http { retryable, .. } => *retryable,
                EmbedError::Network(_) => true,
                _ => false,
            },
    {
        match self {
            EmbedError::Http { retryable, .. } => *retryable,
            EmbedError::Network(_) => true,
            _ => false,
        }
    }

    /// The displayed message.
    pub open spec fn text(&self) -> Seq<char> {
        match self {
            EmbedError::Http { status, detail, .. } => "embeddings API HTTP "@ + dec(*status as nat)
                + ": "@ + detail@,
            EmbedError::Count { want, got } => "embedding 响应条数不符:期望 "@ + dec(*want as nat)
                + ",实得 "@ + dec(*got as nat),
            EmbedError::Dim { first, idx, got } => "embedding 维度不一致:首批 "@ + dec(*first as nat)
                + ",第 "@ + dec(*idx as nat) + " 条为 "@ + dec(*got as nat),
            EmbedError::Network(m) => "网络错误: "@ + m@,
        }
    }

    /// The displayed message.
    pub fn message(&self) -> (r: String)
        ensures
            r@ == self.text(),
    {
        match self {
            EmbedError::Http { status, detail, .. } => {
                let mut s = "embeddings API HTTP ".to_owned();
                s.append(u64_to_decimal(*status as u64).as_str());
                s.append(": ");
                s.append(detail.as_str());
                s
            },
            EmbedError::Count { want, got } => {
                let mut s = "embedding 响应条数不符:期望 ".to_owned();
                s.append(u64_to_decimal(*want as u64).as_str());
                s.append(",实得 ");
                s.append(u64_to_decimal(*got as u64).as_str());
                s
            },
            EmbedError::Dim { first, idx, got } => {
                let mut s = "embedding 维度不一致:首批 ".to_owned();
                s.append(u64_to_decimal(*first as u64).as_str());
                s.append(",第 ");
                s.append(u64_to_decimal(*idx as u64).as_str());
                s.append(" 条为 ");
                s.append(u64_to_decimal(*got as u64).as_str());
                s
            },
            EmbedError::Network(m) => {
                let mut s = "网络错误: ".to_owned();
                s.append(m.as_str());
                s
            },
        }
    }
}

/// The text of `s` cut to `max` characters, with `…` when cut.
pub open spec fn truncated(s: Seq<char>, max: nat) -> Seq<char> {
    if s.len() <= max {
        s
    } else {
        s.take(max as int).push('…')
    }
}

/// Character-safe truncation (see [`truncated`]).
pub fn truncate_chars(s: &str, max: usize) -> (r: String)
    ensures
        r@ == truncated(s@, max as nat),
{
    let cs = chars_of(s);
    if cs.len() <= max {
        return s.to_owned();
    }
    let mut out = string_of(&cs, 0, max);
    push_char(&mut out, '…');
    out
}

/// The error of an unsuccessful status: retryable on 429 and on server
/// errors (5xx); the detail is the trimmed body cut to 400 characters.
pub fn http_error(status: u16, body: &str) -> (r: EmbedError)
    ensures
        r matches EmbedError::Http { status: s, retryable, detail } && s == status && retryable == (
        status == 429 || (500 <= status && status < 600)) && detail@ == truncated(trimmed(body@), 400),
{
    let t = trim(body);
    EmbedError::Http {
        status,
        retryable: status == 429 || (500 <= status && status < 600),
        detail: truncate_chars(t.as_str(), 400),
    }
}

/// The endpoint of a base URL: trailing `/`s dropped, then `/embeddings`.
pub open spec fn embeddings_url_of(base: Seq<char>) -> Seq<char> {
    without_trailing_slashes(base) + "/embeddings"@
}

/// `base` without its trailing `/`s.
pub open spec fn without_trailing_slashes(base: Seq<char>) -> Seq<char>
    decreases base.len(),
{
    if base.len() > 0 && base.last() == '/' {
        without_trailing_slashes(base.drop_last())
    } else {
        base
    }
}

/// The embeddings endpoint (see [`embeddings_url_of`]).
pub fn embeddings_url(base: &str) -> (r: String)
    ensures
        r@ == embeddings_url_of(base@),
{
    let cs = chars_of(base);
    let mut n = cs.len();
    assert(base@.take(n as int) =~= base@);
    while n > 0 && cs[n - 1] == '/'
        invariant
            cs@ == base@,
            0 <= n <= cs.len(),
            without_trailing_slashes(base@) == without_trailing_slashes(base@.take(n as int)),
        decreases n,
    {
        assert(base@.take(n as int).drop_last() =~= base@.take(n - 1));
        n = n - 1;
    }
    assert(base@.take(base@.len() as int) =~= base@);
    let mut out = string_of(&cs, 0, n);
    assert(out@ =~= base@.take(n as int));
    out.append("/embeddings");
    out
}

/// Check the embeddings of a response, given the dimension of each in
/// index order: as many as asked for, all of the first one's dimension.
pub open spec fn embeddings_check(want: nat, dims: Seq<usize>) -> Option<(nat, nat, nat, nat)> {
    if dims.len() != want {
        Some((0, want, dims.len(), 0))
    } else {
        match first_bad_dim(dims, 0) {
            Some(i) => Some((1, dims[0] as nat, i as nat, dims[i] as nat)),
            None => None,
        }
    }
}

/// The first index from `i` on whose dimension differs from the first's.
pub open spec fn first_bad_dim(dims: Seq<usize>, i: int) -> Option<int>
    decreases dims.len() - i,
{
    if i < 0 || i >= dims.len() {
        None
    } else if dims[i] != dims[0] {
        Some(i)
    } else {
        first_bad_dim(dims, i + 1)
    }
}

/// Validate a response (see [`embeddings_check`]): `Count` when the number
/// differs, else `Dim` at the first embedding of another dimension.
pub fn check_embeddings(want: usize, dims: &Vec<usize>) -> (r: Result<(), EmbedError>)
    ensures
        match embeddings_check(want as nat, dims@) {
            None => r is Ok,
            Some((tag, a, b, c)) => if tag == 0 {
                r matches Err(EmbedError::Count { want: w, got: g }) && w == a && g == b
            } else {
                r matches Err(EmbedError::Dim { first: f, idx: i, got: g }) && f == a && i == b && g == c
            },
        },
{
    if dims.len() != want {
        return Err(EmbedError::Count { want, got: dims.len() });
    }
    let first = if dims.len() > 0 {
        dims[0]
    } else {
        0
    };
    let mut i: usize = 0;
    while i < dims.len()
        invariant
            dims.len() == want,
            0 <= i <= dims.len(),
            dims.len() > 0 ==> first == dims@[0],
            first_bad_dim(dims@, 0) == first_bad_dim(dims@, i as int),
        decreases dims.len() - i,
    {
        if dims[i] != first {
            assert(first_bad_dim(dims@, i as int) == Some(i as int));
            return Err(EmbedError::Dim { first, idx: i, got: dims[i] });
        }
        i = i + 1;
    }
    Ok(())
}

/// `a` is served before `b`: lower index first, ties in arrival order.
pub open spec fn index_before(ka: usize, ia: int, kb: usize, ib: int) -> bool {
    ka < kb || (ka == kb && ia < ib)
}

/// The order of a response's items sorted by their `index` field, ties
/// kept in arrival order (a stable sort).
pub fn order_by_index(keys: &Vec<usize>) -> (order: Vec<usize>)
    ensures
        order.len() == keys.len(),
        forall|i: int| 0 <= i < order.len() ==> (#[trigger] order@[i]) < keys.len(),
        forall|i: int, j: int| 0 <= i < j < order.len() ==> order@[i] != order@[j],
        forall|i: int, j: int|
            0 <= i < j < order.len() ==> index_before(
                keys@[order@[i] as int],
                order@[i] as int,
                keys@[order@[j] as int],
                order@[j] as int,
            ),
{
    let mut order: Vec<usize> = Vec::new();
    let mut n: usize = 0;
    while n < keys.len()
        invariant
            0 <= n <= keys.len(),
            order.len() == n,
            forall|i: int| 0 <= i < n ==> (#[trigger] order@[i]) < n,
            forall|i: int, j: int| 0 <= i < j < n ==> order@[i] != order@[j],
            forall|i: int, j: int|
                0 <= i < j < order.len() ==> index_before(
                    keys@[order@[i] as int],
                    order@[i] as int,
                    keys@[order@[j] as int],
                    order@[j] as int,
                ),
        decreases keys.len() - n,
    {
        let k = keys[n];
        let mut pos: usize = 0;
        while pos < order.len() && keys[order[pos]] <= k
            invariant
                0 <= pos <= order.len(),
                order.len() == n,
                n < keys.len(),
                k == keys@[n as int],
                forall|i: int| 0 <= i < n ==> (#[trigger] order@[i]) < n,
                forall|i: int| 0 <= i < pos ==> keys@[(#[trigger] order@[i]) as int] <= k,
            decreases order.len() - pos,
        {
            pos = pos + 1;
        }
        let ghost before = order@;
        order.insert(pos, n);
        proof {
            assert forall|i: int| 0 <= i < n + 1 implies (#[trigger] order@[i]) < n + 1 by {
                if i < pos {
                    assert(order@[i] == before[i]);
                } else if i > pos {
                    assert(order@[i] == before[i - 1]);
                }
            }
            assert forall|i: int, j: int| 0 <= i < j < n + 1 implies order@[i] != order@[j] by {
                if i < pos && j < pos {
                    assert(order@[i] == before[i] && order@[j] == before[j]);
                } else if i < pos && j == pos {
                    assert(order@[i] == before[i]);
                } else if i < pos {
                    assert(order@[i] == before[i] && order@[j] == before[j - 1]);
                } else if i == pos {
                    assert(order@[j] == before[j - 1]);
                } else {
                    assert(order@[i] == before[i - 1] && order@[j] == before[j - 1]);
                }
            }
            assert forall|i: int, j: int| 0 <= i < j < order.len() implies index_before(
                keys@[order@[i] as int],
                order@[i] as int,
                keys@[order@[j] as int],
                order@[j] as int,
            ) by {
                if i < pos && j < pos {
                    assert(order@[i] == before[i] && order@[j] == before[j]);
                } else if i < pos && j == pos {
                    assert(order@[i] == before[i]);
                    assert(before[i] < n);
                } else if i < pos {
                    assert(order@[i] == before[i] && order@[j] == before[j - 1]);
                } else if i == pos {
                    assert(order@[j] == before[j - 1]);
                    assert(before[pos as int] < n);
                    assert(keys@[before[pos as int] as int] > k);
                    if j - 1 > pos {
                        assert(index_before(
                            keys@[before[pos as int] as int],
                            before[pos as int] as int,
                            keys@[before[j - 1] as int],
                            before[j - 1] as int,
                        ));
                    }
                } else {
                    assert(order@[i] == before[i - 1] && order@[j] == before[j - 1]);
                }
            }
        }
        n = n + 1;
    }
    order
}

} // verus!
