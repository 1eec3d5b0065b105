//! JSONL transcript scanning: split a buffer into non-blank lines and decide,
//! from how each line decoded, which rows survive, whether a torn tail is to
//! be dropped, and which line (if any) fails the load.
//!
//! Policy: a corrupt line followed by any further non-blank line is real
//! damage and fails the load naming its file line; a corrupt *last* line is
//! a torn tail (a crash mid-append) and is dropped; when `fail_closed` is
//! set, a well-formed row of an unknown shape fails the load wherever it is.

use vstd::prelude::*;
use crate::decimal::{append_decimal, dec};

verus! {

/// ASCII whitespace as `u8::is_ascii_whitespace` defines it.
pub open spec fn is_ws(b: u8) -> bool {
    b == 32 || b == 9 || b == 10 || b == 12 || b == 13
}

/// First index in `[lo, hi)` that is not whitespace (`hi` if none).
pub open spec fn trim_lo(b: Seq<u8>, lo: int, hi: int) -> int
    decreases hi - lo,
{
    if lo >= hi {
        hi
    } else if is_ws(b[lo]) {
        trim_lo(b, lo + 1, hi)
    } else {
        lo
    }
}

/// One past the last index in `[lo, hi)` that is not whitespace (`lo` if none).
pub open spec fn trim_hi(b: Seq<u8>, lo: int, hi: int) -> int
    decreases hi - lo,
{
    if hi <= lo {
        lo
    } else if is_ws(b[hi - 1]) {
        trim_hi(b, lo, hi - 1)
    } else {
        hi
    }
}

/// A non-blank line of a JSONL buffer: its 1-based file line number, the
/// byte offset where the raw line starts, the trimmed content `[lo, hi)`,
/// and whether a newline terminates it.
#[derive(Clone, Copy, Debug, PartialEq, Eq)]
pub struct LineUnit {
    pub line_no: usize,
    pub start: usize,
    pub lo: usize,
    pub hi: usize,
    pub terminated: bool,
}

/// The line `[start, end)` numbered `line_no`, if it is not blank.
pub open spec fn unit_of(b: Seq<u8>, start: int, end: int, line_no: int, terminated: bool) -> Seq<
    LineUnit,
> {
    let lo = trim_lo(b, start, end);
    let hi = trim_hi(b, lo, end);
    if lo < hi {
        seq![
            LineUnit {
                line_no: line_no as usize,
                start: start as usize,
                lo: lo as usize,
                hi: hi as usize,
                terminated,
            },
        ]
    } else {
        seq![]
    }
}

/// The non-blank lines of `b` from byte `idx` on, where the current line
/// began at `line_start` and `line_no` lines have ended before it.
pub open spec fn units_from(b: Seq<u8>, idx: int, line_start: int, line_no: int) -> Seq<LineUnit>
    decreases b.len() - idx,
{
    if idx >= b.len() {
        unit_of(b, line_start, b.len() as int, line_no + 1, false)
    } else if b[idx] == 10 {
        unit_of(b, line_start, idx, line_no + 1, true) + units_from(b, idx + 1, idx + 1, line_no + 1)
    } else {
        units_from(b, idx + 1, line_start, line_no)
    }
}

/// The non-blank lines of a whole buffer, in file order.
pub open spec fn units_of(b: Seq<u8>) -> Seq<LineUnit> {
    units_from(b, 0, 0, 0)
}

fn trim_range(b: &[u8], start: usize, end: usize) -> (r: (usize, usize))
    requires
        start <= end <= b@.len(),
    ensures
        r.0 == trim_lo(b@, start as int, end as int),
        r.1 == trim_hi(b@, r.0 as int, end as int),
        start <= r.0 <= r.1 <= end,
{
    let mut lo = start;
    while lo < end && (b[lo] == 32 || b[lo] == 9 || b[lo] == 10 || b[lo] == 12 || b[lo] == 13)
        invariant
            start <= lo <= end <= b@.len(),
            trim_lo(b@, lo as int, end as int) == trim_lo(b@, start as int, end as int),
        decreases end - lo,
    {
        lo = lo + 1;
    }
    let mut hi = end;
    while hi > lo && (b[hi - 1] == 32 || b[hi - 1] == 9 || b[hi - 1] == 10 || b[hi - 1] == 12
        || b[hi - 1] == 13)
        invariant
            start <= lo <= hi <= end <= b@.len(),
            trim_hi(b@, lo as int, hi as int) == trim_hi(b@, lo as int, end as int),
        decreases hi - lo,
    {
        hi = hi - 1;
    }
    (lo, hi)
}

fn push_unit(
    out: &mut Vec<LineUnit>,
    b: &[u8],
    start: usize,
    end: usize,
    line_no: usize,
    terminated: bool,
)
    requires
        start <= end <= b@.len(),
    ensures
        final(out)@ == old(out)@ + unit_of(b@, start as int, end as int, line_no as int, terminated),
{
    let (lo, hi) = trim_range(b, start, end);
    if lo < hi {
        out.push(LineUnit { line_no, start, lo, hi, terminated });
    }
}

/// Split `b` into its non-blank lines (see [`units_of`]): one pass, each
/// line trimmed of ASCII whitespace, the final unterminated fragment kept.
pub fn split_lines(b: &[u8]) -> (r: Vec<LineUnit>)
    ensures
        r@ == units_of(b@),
{
    let mut out: Vec<LineUnit> = Vec::new();
    let mut idx: usize = 0;
    let mut line_start: usize = 0;
    let mut line_no: usize = 0;
    while idx < b.len()
        invariant
            0 <= line_no <= line_start <= idx <= b@.len(),
            out@ + units_from(b@, idx as int, line_start as int, line_no as int) == units_of(b@),
        decreases b@.len() - idx,
    {
        if b[idx] == 10 {
            let ghost before = out@;
            push_unit(&mut out, b, line_start, idx, line_no + 1, true);
            assert(before + units_from(b@, idx as int, line_start as int, line_no as int) == out@
                + units_from(b@, idx + 1, idx + 1, line_no + 1)) by {
                assert(units_from(b@, idx as int, line_start as int, line_no as int) == unit_of(
                    b@,
                    line_start as int,
                    idx as int,
                    line_no + 1,
                    true,
                ) + units_from(b@, idx + 1, idx + 1, line_no + 1));
            }
            line_no = line_no + 1;
            idx = idx + 1;
            line_start = idx;
        } else {
            idx = idx + 1;
        }
    }
    if line_start < b.len() {
        push_unit(&mut out, b, line_start, b.len(), line_no + 1, false);
    } else {
        assert(unit_of(b@, line_start as int, b@.len() as int, line_no + 1, false) =~= seq![]);
        assert(out@ == out@ + unit_of(b@, line_start as int, b@.len() as int, line_no + 1, false));
    }
    out
}

/// How a line decoded: into a row, as malformed text (a syntax error, as a
/// write cut short leaves), or as well-formed text of an unknown shape.
#[derive(Clone, Copy, Debug, PartialEq, Eq, Structural)]
pub enum DecodeKind {
    Row,
    Malformed,
    Unrecognized,
}

/// The outcome of decoding one line: the row, or the decoder's message.
pub enum LineDecode<T> {
    Row(T),
    Malformed(String),
    Unrecognized(String),
}

impl<T> LineDecode<T> {
    /// What kind of outcome this is.
    pub open spec fn kind(self) -> DecodeKind {
        match self {
            LineDecode::Row(_) => DecodeKind::Row,
            LineDecode::Malformed(_) => DecodeKind::Malformed,
            LineDecode::Unrecognized(_) => DecodeKind::Unrecognized,
        }
    }

    /// The decoded row (meaningful only for `Row`).
    pub open spec fn row(self) -> T {
        match self {
            LineDecode::Row(t) => t,
            _ => arbitrary(),
        }
    }

    /// The decoder's message (empty for `Row`).
    pub open spec fn message(self) -> Seq<char> {
        match self {
            LineDecode::Row(_) => Seq::empty(),
            LineDecode::Malformed(m) => m@,
            LineDecode::Unrecognized(m) => m@,
        }
    }
}

/// The ruling over units `i..` given the rows kept so far and the bad line
/// still awaiting judgement: `(failing unit, kept units, torn unit)`. A
/// failing unit, when present, decides the load; the other two are then
/// meaningless.
pub open spec fn ruling_from(
    units: Seq<LineUnit>,
    kinds: Seq<DecodeKind>,
    fail_closed: bool,
    i: int,
    kept: Seq<int>,
    pending: Option<int>,
) -> (Option<int>, Seq<int>, Option<int>)
    decreases units.len() - i,
{
    if i < 0 || i >= units.len() {
        (None, kept, pending)
    } else if units[i].terminated {
        if kinds[i] == DecodeKind::Row {
            if pending is Some {
                (pending, kept, None)
            } else {
                ruling_from(units, kinds, fail_closed, i + 1, kept.push(i), None)
            }
        } else if fail_closed && kinds[i] == DecodeKind::Unrecognized {
            (Some(i), kept, None)
        } else if pending is Some {
            (pending, kept, None)
        } else {
            ruling_from(units, kinds, fail_closed, i + 1, kept, Some(i))
        }
    } else {
        if pending is Some {
            (pending, kept, None)
        } else if kinds[i] == DecodeKind::Row {
            (None, kept.push(i), None)
        } else if fail_closed && kinds[i] == DecodeKind::Unrecognized {
            (Some(i), kept, None)
        } else {
            (None, kept, Some(i))
        }
    }
}

/// The ruling over a whole buffer's units.
pub open spec fn ruling(units: Seq<LineUnit>, kinds: Seq<DecodeKind>, fail_closed: bool) -> (
    Option<int>,
    Seq<int>,
    Option<int>,
) {
    ruling_from(units, kinds, fail_closed, 0, Seq::empty(), None)
}

/// Decide the fate of a scanned buffer from how each of its lines decoded
/// (see [`ruling`]): `Err(u)` names the unit that fails the load;
/// `Ok((kept, torn))` lists the units whose rows survive and the torn tail.
pub fn jsonl_ruling(units: &Vec<LineUnit>, kinds: &Vec<DecodeKind>, fail_closed: bool) -> (r:
    Result<(Vec<usize>, Option<usize>), usize>)
    requires
        units.len() == kinds.len(),
    ensures
        ({
            let v = ruling(units@, kinds@, fail_closed);
            match r {
                Err(u) => v.0 == Some(u as int) && u < units.len(),
                Ok((kept, torn)) => {
                    &&& v.0 is None
                    &&& forall|j: int| 0 <= j < kept.len() ==> #[trigger] kept@[j] < units.len()
                    &&& (torn matches Some(t) ==> t < units.len())
                    &&& kept@.map_values(|k: usize| k as int) == v.1
                    &&& match torn {
                        Some(t) => v.2 == Some(t as int),
                        None => v.2 is None,
                    }
                },
            }
        }),
{
    let mut kept: Vec<usize> = Vec::new();
    let mut pending: Option<usize> = None;
    let mut i: usize = 0;
    let n = units.len();
    assert(kept@.map_values(|k: usize| k as int) =~= Seq::<int>::empty());
    while i < n
        invariant
            n == units.len() == kinds.len(),
            0 <= i <= n,
            forall|j: int| 0 <= j < kept.len() ==> #[trigger] kept@[j] < i,
            pending matches Some(p) ==> p < i,
            ruling_from(
                units@,
                kinds@,
                fail_closed,
                i as int,
                kept@.map_values(|k: usize| k as int),
                match pending {
                    Some(p) => Some(p as int),
                    None => None,
                },
            ) == ruling(units@, kinds@, fail_closed),
        decreases n - i,
    {
        let ghost gk = kept@.map_values(|k: usize| k as int);
        let u = units[i];
        let k = kinds[i];
        if u.terminated {
            if k == DecodeKind::Row {
                if let Some(p) = pending {
                    return Err(p);
                }
                kept.push(i);
                assert(kept@.map_values(|k: usize| k as int) =~= gk.push(i as int));
            } else if fail_closed && k == DecodeKind::Unrecognized {
                return Err(i);
            } else if let Some(p) = pending {
                return Err(p);
            } else {
                pending = Some(i);
            }
        } else {
            if let Some(p) = pending {
                return Err(p);
            } else if k == DecodeKind::Row {
                kept.push(i);
                assert(kept@.map_values(|k: usize| k as int) =~= gk.push(i as int));
                return Ok((kept, None));
            } else if fail_closed && k == DecodeKind::Unrecognized {
                return Err(i);
            } else {
                return Ok((kept, Some(i)));
            }
        }
        i = i + 1;
    }
    Ok((kept, pending))
}

/// Units `< n` whose line decoded into a row, in order.
pub open spec fn row_idx_upto(kinds: Seq<DecodeKind>, n: int) -> Seq<int>
    decreases n,
{
    if n <= 0 {
        Seq::empty()
    } else {
        row_idx_upto(kinds, n - 1) + if kinds[n - 1] == DecodeKind::Row {
            seq![n - 1]
        } else {
            Seq::empty()
        }
    }
}

/// The row indices below `m` are a prefix of those below `n`.
pub proof fn lemma_row_idx_prefix(kinds: Seq<DecodeKind>, m: int, n: int)
    requires
        0 <= m <= n,
    ensures
        row_idx_upto(kinds, m).len() <= row_idx_upto(kinds, n).len(),
        row_idx_upto(kinds, n).take(row_idx_upto(kinds, m).len() as int) == row_idx_upto(kinds, m),
    decreases n - m,
{
    if m < n {
        lemma_row_idx_prefix(kinds, m, n - 1);
        let a = row_idx_upto(kinds, n - 1);
        let x: Seq<int> = if kinds[n - 1] == DecodeKind::Row {
            seq![n - 1]
        } else {
            Seq::empty()
        };
        assert((a + x).take(row_idx_upto(kinds, m).len() as int) =~= a.take(
            row_idx_upto(kinds, m).len() as int,
        ));
    } else {
        assert(row_idx_upto(kinds, n).take(row_idx_upto(kinds, n).len() as int) =~= row_idx_upto(
            kinds,
            n,
        ));
    }
}

/// The row indices below `n` lie in `[0, n)`.
pub proof fn lemma_row_idx_bounds(kinds: Seq<DecodeKind>, n: int)
    requires
        0 <= n,
    ensures
        forall|j: int|
            0 <= j < row_idx_upto(kinds, n).len() ==> 0 <= #[trigger] row_idx_upto(kinds, n)[j]
                < n,
    decreases n,
{
    if n > 0 {
        lemma_row_idx_bounds(kinds, n - 1);
        let a = row_idx_upto(kinds, n - 1);
        assert forall|j: int| 0 <= j < row_idx_upto(kinds, n).len() implies 0
            <= #[trigger] row_idx_upto(kinds, n)[j] < n by {
            if j < a.len() {
                assert(row_idx_upto(kinds, n)[j] == a[j]);
            }
        }
    }
}

/// Along a ruling that does not fail, the kept units are exactly the row
/// units below some point `m`.
pub proof fn lemma_ruling_kept(
    units: Seq<LineUnit>,
    kinds: Seq<DecodeKind>,
    fail_closed: bool,
    i: int,
    pending: Option<int>,
) -> (m: int)
    requires
        0 <= i <= units.len(),
        units.len() == kinds.len(),
    ensures
        ruling_from(units, kinds, fail_closed, i, row_idx_upto(kinds, i), pending).0 is None ==> {
            &&& i <= m <= units.len()
            &&& ruling_from(units, kinds, fail_closed, i, row_idx_upto(kinds, i), pending).1
                == row_idx_upto(kinds, m)
        },
    decreases units.len() - i,
{
    if i >= units.len() {
        i
    } else {
        assert(row_idx_upto(kinds, i + 1) == row_idx_upto(kinds, i) + if kinds[i]
            == DecodeKind::Row {
            seq![i]
        } else {
            Seq::<int>::empty()
        });
        if kinds[i] == DecodeKind::Row {
            assert(row_idx_upto(kinds, i).push(i) =~= row_idx_upto(kinds, i + 1));
        } else {
            assert(row_idx_upto(kinds, i) =~= row_idx_upto(kinds, i + 1));
        }
        if units[i].terminated {
            if kinds[i] == DecodeKind::Row {
                if pending is Some {
                    i
                } else {
                    lemma_ruling_kept(units, kinds, fail_closed, i + 1, None)
                }
            } else if fail_closed && kinds[i] == DecodeKind::Unrecognized {
                i
            } else if pending is Some {
                i
            } else {
                lemma_ruling_kept(units, kinds, fail_closed, i + 1, Some(i))
            }
        } else {
            if kinds[i] == DecodeKind::Row {
                i + 1
            } else {
                i
            }
        }
    }
}

/// The row units below `n` depend only on the first `n` kinds.
pub proof fn lemma_row_idx_extend(kinds: Seq<DecodeKind>, x: DecodeKind, n: int)
    requires
        0 <= n <= kinds.len(),
    ensures
        row_idx_upto(kinds.push(x), n) == row_idx_upto(kinds, n),
    decreases n,
{
    if n > 0 {
        lemma_row_idx_extend(kinds, x, n - 1);
        assert(kinds.push(x)[n - 1] == kinds[n - 1]);
    }
}

proof fn lemma_trim_bounds(b: Seq<u8>, start: int, end: int)
    requires
        start <= end,
    ensures
        start <= trim_lo(b, start, end) <= end,
        trim_lo(b, start, end) <= trim_hi(b, trim_lo(b, start, end), end) <= end,
{
    lemma_trim_lo_bounds(b, start, end);
    lemma_trim_hi_bounds(b, trim_lo(b, start, end), end);
}

proof fn lemma_trim_lo_bounds(b: Seq<u8>, lo: int, hi: int)
    requires
        lo <= hi,
    ensures
        lo <= trim_lo(b, lo, hi) <= hi,
    decreases hi - lo,
{
    if lo < hi && is_ws(b[lo]) {
        lemma_trim_lo_bounds(b, lo + 1, hi);
    }
}

proof fn lemma_trim_hi_bounds(b: Seq<u8>, lo: int, hi: int)
    requires
        lo <= hi,
    ensures
        lo <= trim_hi(b, lo, hi) <= hi,
    decreases hi - lo,
{
    if lo < hi && is_ws(b[hi - 1]) {
        lemma_trim_hi_bounds(b, lo, hi - 1);
    }
}

proof fn lemma_unit_of_bounds(b: Seq<u8>, start: int, end: int, line_no: int, t: bool)
    requires
        0 <= start <= end <= b.len() <= usize::MAX,
    ensures
        forall|j: int|
            0 <= j < unit_of(b, start, end, line_no, t).len() ==> {
                let u = #[trigger] unit_of(b, start, end, line_no, t)[j];
                u.lo < u.hi <= b.len()
            },
{
    lemma_trim_bounds(b, start, end);
}

/// Every unit of a buffer names a non-empty trimmed range inside it.
pub proof fn lemma_units_bounds(b: Seq<u8>, idx: int, line_start: int, line_no: int)
    requires
        0 <= line_start <= idx <= b.len(),
        b.len() <= usize::MAX,
    ensures
        forall|j: int|
            0 <= j < units_from(b, idx, line_start, line_no).len() ==> {
                let u = #[trigger] units_from(b, idx, line_start, line_no)[j];
                u.lo < u.hi <= b.len()
            },
    decreases b.len() - idx,
{
    if idx >= b.len() {
        lemma_unit_of_bounds(b, line_start, b.len() as int, line_no + 1, false);
    } else if b[idx] == 10 {
        lemma_unit_of_bounds(b, line_start, idx, line_no + 1, true);
        lemma_units_bounds(b, idx + 1, idx + 1, line_no + 1);
        let a = unit_of(b, line_start, idx, line_no + 1, true);
        let rest = units_from(b, idx + 1, idx + 1, line_no + 1);
        assert(units_from(b, idx, line_start, line_no) == a + rest);
        assert forall|j: int| 0 <= j < (a + rest).len() implies {
            let u = #[trigger] (a + rest)[j];
            u.lo < u.hi <= b.len()
        } by {
            if j >= a.len() {
                assert((a + rest)[j] == rest[j - a.len()]);
            }
        }
    } else {
        lemma_units_bounds(b, idx + 1, line_start, line_no);
        assert(units_from(b, idx, line_start, line_no) == units_from(
            b,
            idx + 1,
            line_start,
            line_no,
        ));
    }
}

/// The number of newlines among `b[i..j]`.
pub open spec fn newlines(b: Seq<u8>, i: int, j: int) -> int
    decreases j - i,
{
    if i >= j {
        0
    } else {
        newlines(b, i + 1, j) + if b[i] == 10 {
            1int
        } else {
            0int
        }
    }
}

proof fn lemma_trim_agree(b: Seq<u8>, c: Seq<u8>, lo: int, hi: int)
    requires
        0 <= lo <= hi <= b.len(),
        hi <= c.len(),
        forall|j: int| lo <= j < hi ==> b[j] == c[j],
    ensures
        trim_lo(b, lo, hi) == trim_lo(c, lo, hi),
        trim_hi(b, trim_lo(b, lo, hi), hi) == trim_hi(c, trim_lo(c, lo, hi), hi),
{
    lemma_trim_lo_agree(b, c, lo, hi);
    lemma_trim_lo_bounds(b, lo, hi);
    lemma_trim_hi_agree(b, c, trim_lo(b, lo, hi), hi);
}

proof fn lemma_trim_lo_agree(b: Seq<u8>, c: Seq<u8>, lo: int, hi: int)
    requires
        0 <= lo <= hi <= b.len(),
        hi <= c.len(),
        forall|j: int| lo <= j < hi ==> b[j] == c[j],
    ensures
        trim_lo(b, lo, hi) == trim_lo(c, lo, hi),
    decreases hi - lo,
{
    if lo < hi {
        lemma_trim_lo_agree(b, c, lo + 1, hi);
    }
}

proof fn lemma_trim_hi_agree(b: Seq<u8>, c: Seq<u8>, lo: int, hi: int)
    requires
        0 <= lo <= hi <= b.len(),
        hi <= c.len(),
        forall|j: int| lo <= j < hi ==> b[j] == c[j],
    ensures
        trim_hi(b, lo, hi) == trim_hi(c, lo, hi),
    decreases hi - lo,
{
    if lo < hi {
        lemma_trim_hi_agree(b, c, lo, hi - 1);
    }
}

/// Cutting a buffer at a line start `c` keeps the units of the lines before
/// it: the units of `b` are those of `b[..c]` followed by those of the
/// lines from `c` on.
proof fn lemma_units_cut(b: Seq<u8>, c: int, idx: int, ls: int, ln: int)
    requires
        0 <= ls <= idx <= c <= b.len(),
        c == 0 || b[c - 1] == 10,
        forall|j: int| ls <= j < idx ==> b[j] != 10,
    ensures
        units_from(b, idx, ls, ln) == units_from(b.take(c), idx, ls, ln) + units_from(
            b,
            c,
            c,
            ln + newlines(b, idx, c),
        ),
    decreases c - idx,
{
    let t = b.take(c);
    if idx == c {
        assert(ls == c);
        assert(unit_of(t, c, c, ln + 1, false) =~= Seq::<LineUnit>::empty());
        assert(units_from(t, c, c, ln) =~= Seq::<LineUnit>::empty());
        assert(Seq::<LineUnit>::empty() + units_from(b, c, c, ln) =~= units_from(b, c, c, ln));
    } else {
        assert(t[idx] == b[idx]);
        if b[idx] == 10 {
            lemma_trim_agree(b, t, ls, idx);
            assert(unit_of(b, ls, idx, ln + 1, true) == unit_of(t, ls, idx, ln + 1, true));
            lemma_units_cut(b, c, idx + 1, idx + 1, ln + 1);
            let u = unit_of(b, ls, idx, ln + 1, true);
            assert(u + (units_from(t, idx + 1, idx + 1, ln + 1) + units_from(
                b,
                c,
                c,
                ln + 1 + newlines(b, idx + 1, c),
            )) =~= (u + units_from(t, idx + 1, idx + 1, ln + 1)) + units_from(
                b,
                c,
                c,
                ln + 1 + newlines(b, idx + 1, c),
            ));
        } else {
            lemma_units_cut(b, c, idx + 1, ls, ln);
        }
    }
}

/// Every unit from `idx` on starts at or after the current line's start,
/// and only the first can start there.
proof fn lemma_units_starts(b: Seq<u8>, idx: int, ls: int, ln: int)
    requires
        0 <= ls <= idx <= b.len(),
        b.len() <= usize::MAX,
    ensures
        forall|j: int|
            0 <= j < units_from(b, idx, ls, ln).len() ==> (#[trigger] units_from(b, idx, ls, ln)[j]).start
                >= ls && (j > 0 ==> units_from(b, idx, ls, ln)[j].start > ls),
    decreases b.len() - idx,
{
    if idx >= b.len() {
    } else if b[idx] == 10 {
        lemma_units_starts(b, idx + 1, idx + 1, ln + 1);
        let a = unit_of(b, ls, idx, ln + 1, true);
        let rest = units_from(b, idx + 1, idx + 1, ln + 1);
        assert(units_from(b, idx, ls, ln) == a + rest);
        assert forall|j: int| 0 <= j < (a + rest).len() implies (#[trigger] (a + rest)[j]).start >= ls
            && (j > 0 ==> (a + rest)[j].start > ls) by {
            if j >= a.len() {
                assert((a + rest)[j] == rest[j - a.len()]);
            }
        }
    } else {
        lemma_units_starts(b, idx + 1, ls, ln);
        assert(units_from(b, idx, ls, ln) == units_from(b, idx + 1, ls, ln));
    }
}

/// Every unit of a buffer starts before its end.
proof fn lemma_units_start_before_end(b: Seq<u8>, idx: int, ls: int, ln: int)
    requires
        0 <= ls <= idx <= b.len(),
        b.len() <= usize::MAX,
    ensures
        forall|j: int|
            0 <= j < units_from(b, idx, ls, ln).len() ==> (#[trigger] units_from(b, idx, ls, ln)[j]).start
                < b.len(),
    decreases b.len() - idx,
{
    if idx >= b.len() {
        lemma_trim_bounds(b, ls, b.len() as int);
    } else if b[idx] == 10 {
        lemma_trim_bounds(b, ls, idx);
        lemma_units_start_before_end(b, idx + 1, idx + 1, ln + 1);
        let a = unit_of(b, ls, idx, ln + 1, true);
        let rest = units_from(b, idx + 1, idx + 1, ln + 1);
        assert(units_from(b, idx, ls, ln) == a + rest);
        assert forall|j: int| 0 <= j < (a + rest).len() implies (#[trigger] (a + rest)[j]).start
            < b.len() by {
            if j >= a.len() {
                assert((a + rest)[j] == rest[j - a.len()]);
            }
        }
    } else {
        lemma_units_start_before_end(b, idx + 1, ls, ln);
        assert(units_from(b, idx, ls, ln) == units_from(b, idx + 1, ls, ln));
    }
}

/// A unit starts at a line start: the buffer's start or just past a
/// newline.
proof fn lemma_units_start_at_line(b: Seq<u8>, idx: int, ls: int, ln: int)
    requires
        0 <= ls <= idx <= b.len(),
        b.len() <= usize::MAX,
        ls == 0 || b[ls - 1] == 10,
    ensures
        forall|j: int|
            0 <= j < units_from(b, idx, ls, ln).len() ==> ({
                let s = (#[trigger] units_from(b, idx, ls, ln)[j]).start as int;
                s == 0 || (0 < s <= b.len() && b[s - 1] == 10)
            }),
    decreases b.len() - idx,
{
    if idx >= b.len() {
    } else if b[idx] == 10 {
        lemma_units_start_at_line(b, idx + 1, idx + 1, ln + 1);
        let a = unit_of(b, ls, idx, ln + 1, true);
        let rest = units_from(b, idx + 1, idx + 1, ln + 1);
        assert(units_from(b, idx, ls, ln) == a + rest);
        assert forall|j: int| 0 <= j < (a + rest).len() implies ({
            let s = (#[trigger] (a + rest)[j]).start as int;
            s == 0 || (0 < s <= b.len() && b[s - 1] == 10)
        }) by {
            if j >= a.len() {
                assert((a + rest)[j] == rest[j - a.len()]);
            }
        }
    } else {
        lemma_units_start_at_line(b, idx + 1, ls, ln);
        assert(units_from(b, idx, ls, ln) == units_from(b, idx + 1, ls, ln));
    }
}

/// Only the last unit of a buffer can lack a terminating newline.
proof fn lemma_units_terminated(b: Seq<u8>, idx: int, ls: int, ln: int)
    requires
        0 <= ls <= idx <= b.len(),
    ensures
        forall|j: int|
            0 <= j < units_from(b, idx, ls, ln).len() - 1 ==> (#[trigger] units_from(b, idx, ls, ln)[j]).terminated,
    decreases b.len() - idx,
{
    if idx >= b.len() {
    } else if b[idx] == 10 {
        lemma_units_terminated(b, idx + 1, idx + 1, ln + 1);
        let a = unit_of(b, ls, idx, ln + 1, true);
        let rest = units_from(b, idx + 1, idx + 1, ln + 1);
        assert(units_from(b, idx, ls, ln) == a + rest);
        assert forall|j: int| 0 <= j < (a + rest).len() - 1 implies (#[trigger] (a + rest)[j]).terminated by {
            if j >= a.len() {
                assert((a + rest)[j] == rest[j - a.len()]);
            }
        }
    } else {
        lemma_units_terminated(b, idx + 1, ls, ln);
        assert(units_from(b, idx, ls, ln) == units_from(b, idx + 1, ls, ln));
    }
}

/// Rescanning the bytes before unit `k`'s line gives exactly the units
/// before `k`.
pub proof fn lemma_units_prefix(b: Seq<u8>, k: int)
    requires
        0 <= k < units_of(b).len(),
        b.len() <= usize::MAX,
    ensures
        units_of(b.take(units_of(b)[k].start as int)) == units_of(b).take(k),
{
    let us = units_of(b);
    lemma_units_start_at_line(b, 0, 0, 0);
    lemma_units_start_before_end(b, 0, 0, 0);
    let c = us[k].start as int;
    assert(c == 0 || b[c - 1] == 10);
    lemma_units_cut(b, c, 0, 0, 0);
    let t = b.take(c);
    let a = units_of(t);
    let rest = units_from(b, c, c, newlines(b, 0, c));
    assert(us == a + rest);
    lemma_units_start_before_end(t, 0, 0, 0);
    lemma_units_starts(b, c, c, newlines(b, 0, c));
    // Units of the prefix start before `c`, those of the rest at or after it,
    // and only the first of the rest can start at `c`: unit `k` is that one.
    if k < a.len() {
        assert(us[k] == a[k]);
        assert(a[k].start < t.len());
        assert(false);
    }
    if k > a.len() {
        assert(us[k] == rest[k - a.len()]);
        assert(false);
    }
    assert(us.take(k) =~= a);
}

/// After a torn tail, the units before it were whole rows: ruling over
/// them alone keeps the same rows and finds no tail.
proof fn lemma_ruling_torn_prefix(
    units: Seq<LineUnit>,
    kinds: Seq<DecodeKind>,
    fc: bool,
    i: int,
    kept: Seq<int>,
)
    requires
        units.len() == kinds.len(),
        forall|j: int| 0 <= j < units.len() - 1 ==> (#[trigger] units[j]).terminated,
        0 <= i <= units.len(),
        ruling_from(units, kinds, fc, i, kept, None).0 is None,
        ruling_from(units, kinds, fc, i, kept, None).2 is Some,
    ensures
        ({
            let r = ruling_from(units, kinds, fc, i, kept, None);
            let k = r.2.unwrap();
            &&& k == units.len() - 1
            &&& i <= k
            &&& ruling_from(units.take(k), kinds.take(k), fc, i, kept, None) == (None::<int>, r.1, None::<int>)
        }),
    decreases units.len() - i,
{
    let r = ruling_from(units, kinds, fc, i, kept, None);
    if i >= units.len() {
    } else if units[i].terminated {
        if kinds[i] == DecodeKind::Row {
            lemma_ruling_torn_prefix(units, kinds, fc, i + 1, kept.push(i));
            let k = r.2.unwrap();
            assert(units.take(k)[i] == units[i]);
            assert(kinds.take(k)[i] == kinds[i]);
        } else {
            // A damaged terminated line awaits judgement: a torn tail only
            // when nothing follows it.
            if i + 1 < units.len() {
                assert(ruling_from(units, kinds, fc, i + 1, kept, Some(i)).0 is Some);
            }
            assert(i == units.len() - 1);
            assert(units.take(i).len() == i);
        }
    } else {
        assert(i == units.len() - 1) by {
            if i < units.len() - 1 {
                assert(units[i].terminated);
            }
        }
        assert(units.take(i).len() == i);
    }
}

/// The torn-tail law: when a scan's ruling drops a torn tail, the torn line
/// is the last one, and rescanning the bytes before it (as the repair
/// leaves the file) finds the same lines before it and, decoded as before,
/// keeps the same rows and no torn tail.
pub proof fn lemma_rescan_after_repair(b: Seq<u8>, kinds: Seq<DecodeKind>, fc: bool)
    requires
        b.len() <= usize::MAX,
        kinds.len() == units_of(b).len(),
        ruling(units_of(b), kinds, fc).0 is None,
        ruling(units_of(b), kinds, fc).2 is Some,
    ensures
        ({
            let r = ruling(units_of(b), kinds, fc);
            let k = r.2.unwrap();
            let c = units_of(b)[k].start as int;
            &&& k == units_of(b).len() - 1
            &&& 0 <= c < b.len()
            &&& units_of(b.take(c)) == units_of(b).take(k)
            &&& ruling(units_of(b.take(c)), kinds.take(k), fc) == (None::<int>, r.1, None::<int>)
        }),
{
    let us = units_of(b);
    lemma_units_terminated(b, 0, 0, 0);
    lemma_ruling_torn_prefix(us, kinds, fc, 0, Seq::empty());
    let k = ruling(us, kinds, fc).2.unwrap();
    lemma_units_start_before_end(b, 0, 0, 0);
    lemma_units_starts(b, 0, 0, 0);
    lemma_units_prefix(b, k);
}

/// The bytes of a batch of rows as they are appended: each row followed by
/// a newline.
pub open spec fn jsonl_bytes(lines: Seq<Seq<u8>>) -> Seq<u8>
    decreases lines.len(),
{
    if lines.len() == 0 {
        Seq::empty()
    } else {
        lines[0] + seq![10u8] + jsonl_bytes(lines.drop_first())
    }
}

/// A row as a writer emits it: non-empty, free of newlines, and not
/// whitespace at either end.
pub open spec fn clean_line(l: Seq<u8>) -> bool {
    &&& l.len() > 0
    &&& !is_ws(l[0])
    &&& !is_ws(l[l.len() - 1])
    &&& forall|j: int| 0 <= j < l.len() ==> l[j] != 10
}

/// The units of newline-terminated clean rows laid out from byte `p`, the
/// first numbered `k + 1`.
pub open spec fn line_units(lines: Seq<Seq<u8>>, p: int, k: int) -> Seq<LineUnit>
    decreases lines.len(),
{
    if lines.len() == 0 {
        Seq::empty()
    } else {
        seq![
            LineUnit {
                line_no: (k + 1) as usize,
                start: p as usize,
                lo: p as usize,
                hi: (p + lines[0].len()) as usize,
                terminated: true,
            },
        ] + line_units(lines.drop_first(), p + lines[0].len() + 1, k + 1)
    }
}

/// Bytes without a newline do not move the line split.
proof fn lemma_units_skip(b: Seq<u8>, idx: int, e: int, s: int, k: int)
    requires
        0 <= idx <= e <= b.len(),
        forall|j: int| idx <= j < e ==> b[j] != 10,
    ensures
        units_from(b, idx, s, k) == units_from(b, e, s, k),
    decreases e - idx,
{
    if idx < e {
        lemma_units_skip(b, idx + 1, e, s, k);
    }
}

/// A clean range trims to itself.
proof fn lemma_trim_clean(b: Seq<u8>, p: int, e: int)
    requires
        0 <= p < e <= b.len(),
        !is_ws(b[p]),
        !is_ws(b[e - 1]),
    ensures
        trim_lo(b, p, e) == p,
        trim_hi(b, p, e) == e,
{
}

/// A clean row at `p` followed by a newline is one terminated unit.
proof fn lemma_units_clean_line(b: Seq<u8>, p: int, l: Seq<u8>, k: int)
    requires
        0 <= p,
        p + l.len() < b.len(),
        clean_line(l),
        b.subrange(p, p + l.len()) == l,
        b[p + l.len()] == 10,
    ensures
        units_from(b, p, p, k) == seq![
            LineUnit {
                line_no: (k + 1) as usize,
                start: p as usize,
                lo: p as usize,
                hi: (p + l.len()) as usize,
                terminated: true,
            },
        ] + units_from(b, p + l.len() + 1, p + l.len() + 1, k + 1),
{
    let e = p + l.len();
    assert forall|j: int| p <= j < e implies b[j] != 10 by {
        assert(b[j] == b.subrange(p, e)[j - p]);
    }
    lemma_units_skip(b, p, e, p, k);
    assert(b[p] == l[0]);
    assert(b[e - 1] == l[l.len() - 1]);
    lemma_trim_clean(b, p, e);
}

/// The units of a buffer holding `pre`, then a batch of clean rows, then
/// anything: one terminated unit per row, then the units of the rest.
pub proof fn lemma_units_batch(pre: Seq<u8>, lines: Seq<Seq<u8>>, t: Seq<u8>, k: int)
    requires
        forall|i: int| 0 <= i < lines.len() ==> #[trigger] clean_line(lines[i]),
    ensures
        ({
            let b = pre + jsonl_bytes(lines) + t;
            let e = (pre.len() + jsonl_bytes(lines).len()) as int;
            units_from(b, pre.len() as int, pre.len() as int, k) == line_units(
                lines,
                pre.len() as int,
                k,
            ) + units_from(b, e, e, k + lines.len())
        }),
    decreases lines.len(),
{
    let b = pre + jsonl_bytes(lines) + t;
    if lines.len() == 0 {
        assert(line_units(lines, pre.len() as int, k) =~= Seq::<LineUnit>::empty());
        assert(line_units(lines, pre.len() as int, k) + units_from(
            b,
            pre.len() as int,
            pre.len() as int,
            k,
        ) =~= units_from(b, pre.len() as int, pre.len() as int, k));
    } else {
        let l = lines[0];
        let rest = lines.drop_first();
        let p = pre.len() as int;
        let pre2 = pre + l + seq![10u8];
        assert(jsonl_bytes(lines) == l + seq![10u8] + jsonl_bytes(rest));
        assert(b =~= pre2 + jsonl_bytes(rest) + t);
        assert(clean_line(lines[0]));
        assert(b.subrange(p, p + l.len()) =~= l);
        assert(b[p + l.len()] == 10);
        lemma_units_clean_line(b, p, l, k);
        assert forall|i: int| 0 <= i < rest.len() implies #[trigger] clean_line(rest[i]) by {
            assert(rest[i] == lines[i + 1]);
        }
        lemma_units_batch(pre2, rest, t, k + 1);
        assert(pre2.len() == p + l.len() + 1);
        let e = (pre.len() + jsonl_bytes(lines).len()) as int;
        assert(pre2.len() + jsonl_bytes(rest).len() == e);
        let u = seq![
            LineUnit {
                line_no: (k + 1) as usize,
                start: p as usize,
                lo: p as usize,
                hi: (p + l.len()) as usize,
                terminated: true,
            },
        ];
        assert(line_units(lines, p, k) == u + line_units(rest, p + l.len() + 1, k + 1));
        assert(u + (line_units(rest, p + l.len() + 1, k + 1) + units_from(b, e, e, k + lines.len()))
            =~= (u + line_units(rest, p + l.len() + 1, k + 1)) + units_from(
            b,
            e,
            e,
            k + lines.len(),
        ));
    }
}

/// The units of a batch of clean lines: one per line, each terminated and numbered from `k + 1`.
pub proof fn lemma_line_units_shape(lines: Seq<Seq<u8>>, p: int, k: int)
    ensures
        line_units(lines, p, k).len() == lines.len(),
        forall|i: int|
            0 <= i < lines.len() ==> (#[trigger] line_units(lines, p, k)[i]).terminated
                && line_units(lines, p, k)[i].line_no == (k + i + 1) as usize,
    decreases lines.len(),
{
    if lines.len() > 0 {
        lemma_line_units_shape(lines.drop_first(), p + lines[0].len() + 1, k + 1);
        let rest = line_units(lines.drop_first(), p + lines[0].len() + 1, k + 1);
        assert forall|i: int| 0 <= i < lines.len() implies (#[trigger] line_units(
            lines,
            p,
            k,
        )[i]).terminated && line_units(lines, p, k)[i].line_no == (k + i + 1) as usize by {
            if i > 0 {
                assert(line_units(lines, p, k)[i] == rest[i - 1]);
            }
        }
    }
}

/// The unit of clean row `i` covers exactly that row's bytes.
pub proof fn lemma_line_units_cover(pre: Seq<u8>, lines: Seq<Seq<u8>>, t: Seq<u8>, k: int, i: int)
    requires
        0 <= i < lines.len(),
        pre.len() + jsonl_bytes(lines).len() + t.len() <= usize::MAX,
    ensures
        ({
            let b = pre + jsonl_bytes(lines) + t;
            let u = line_units(lines, pre.len() as int, k)[i];
            &&& u.lo as int == pre.len() + jsonl_bytes(lines.take(i)).len()
            &&& u.start == u.lo
            &&& b.subrange(u.lo as int, u.hi as int) == lines[i]
        }),
    decreases i,
{
    let l = lines[0];
    let rest = lines.drop_first();
    let p = pre.len() as int;
    let pre2 = pre + l + seq![10u8];
    assert(jsonl_bytes(lines) == l + seq![10u8] + jsonl_bytes(rest));
    let b = pre + jsonl_bytes(lines) + t;
    assert(b =~= pre2 + jsonl_bytes(rest) + t);
    if i == 0 {
        assert(lines.take(0) =~= Seq::<Seq<u8>>::empty());
        assert(b.subrange(p, p + l.len()) =~= l);
    } else {
        lemma_line_units_cover(pre2, rest, t, k + 1, i - 1);
        lemma_line_units_shape(rest, p + l.len() + 1, k + 1);
        assert(line_units(lines, p, k)[i] == line_units(rest, p + l.len() + 1, k + 1)[i - 1]);
        assert(lines.take(i).drop_first() =~= rest.take(i - 1));
        assert(lines.take(i)[0] == l);
        assert(jsonl_bytes(lines.take(i)) == l + seq![10u8] + jsonl_bytes(rest.take(i - 1)));
    }
}

/// Terminated units that all decoded into rows are all kept, in order.
pub proof fn lemma_ruling_rows(
    units: Seq<LineUnit>,
    kinds: Seq<DecodeKind>,
    fail_closed: bool,
    i: int,
    m: int,
    kept: Seq<int>,
)
    requires
        units.len() == kinds.len(),
        0 <= i <= m <= units.len(),
        forall|j: int| i <= j < m ==> (#[trigger] units[j]).terminated && kinds[j] == DecodeKind::Row,
    ensures
        ruling_from(units, kinds, fail_closed, i, kept, None) == ruling_from(
            units,
            kinds,
            fail_closed,
            m,
            kept + Seq::new((m - i) as nat, |j: int| i + j),
            None,
        ),
    decreases m - i,
{
    if i < m {
        assert(units[i].terminated && kinds[i] == DecodeKind::Row);
        assert forall|j: int| i + 1 <= j < m implies (#[trigger] units[j]).terminated && kinds[j]
            == DecodeKind::Row by {
            assert(i <= j < m);
            assert(units[j].terminated);
            assert(kinds[j] == DecodeKind::Row);
        }
        lemma_ruling_rows(units, kinds, fail_closed, i + 1, m, kept.push(i));
        assert(kept.push(i) + Seq::new((m - (i + 1)) as nat, |j: int| i + 1 + j) =~= kept + Seq::new(
            (m - i) as nat,
            |j: int| i + j,
        ));
    } else {
        assert(kept + Seq::new(0, |j: int| i + j) =~= kept);
    }
}

/// Nothing after the last newline: no more units.
pub proof fn lemma_units_end(b: Seq<u8>, k: int)
    ensures
        units_from(b, b.len() as int, b.len() as int, k) == Seq::<LineUnit>::empty(),
{
    assert(unit_of(b, b.len() as int, b.len() as int, k + 1, false) =~= Seq::<LineUnit>::empty());
}

/// A clean row with no newline after it is one unterminated unit.
pub proof fn lemma_units_tail(b: Seq<u8>, e: int, k: int)
    requires
        0 <= e < b.len(),
        clean_line(b.subrange(e, b.len() as int)),
    ensures
        units_from(b, e, e, k) == seq![
            LineUnit {
                line_no: (k + 1) as usize,
                start: e as usize,
                lo: e as usize,
                hi: b.len() as usize,
                terminated: false,
            },
        ],
{
    let t = b.subrange(e, b.len() as int);
    assert forall|j: int| e <= j < b.len() implies b[j] != 10 by {
        assert(b[j] == t[j - e]);
    }
    lemma_units_skip(b, e, b.len() as int, e, k);
    assert(b[e] == t[0]);
    assert(b[b.len() - 1] == t[t.len() - 1]);
    lemma_trim_clean(b, e, b.len() as int);
}

/// Every row takes at least two bytes.
pub proof fn lemma_jsonl_bytes_len(lines: Seq<Seq<u8>>)
    requires
        forall|i: int| 0 <= i < lines.len() ==> #[trigger] clean_line(lines[i]),
    ensures
        jsonl_bytes(lines).len() >= 2 * lines.len(),
    decreases lines.len(),
{
    if lines.len() > 0 {
        let rest = lines.drop_first();
        assert forall|i: int| 0 <= i < rest.len() implies #[trigger] clean_line(rest[i]) by {
            assert(rest[i] == lines[i + 1]);
        }
        assert(clean_line(lines[0]));
        lemma_jsonl_bytes_len(rest);
    }
}

} // verus!
