//! The retrieval store's decisions: the embedding fingerprint that locks an
//! index to one model and dimension, and how nearest-neighbour results are
//! joined back to their chunks. Scores are carried as the bits of the
//! vector engine's `f32`.

use vstd::prelude::*;
use crate::decimal::{dec, parse_unsigned, parse_usize, u64_to_decimal};
use crate::text::str_eq;
use crate::event_store::opt_text;
use crate::tool::signed_dec;

verus! {

/// The stored fingerprint: the model and dimension recorded at first
/// ingest, when both are present and the dimension parses as a `usize`.
pub open spec fn fingerprint_of(model: Option<Seq<char>>, dim: Option<Seq<char>>) -> Option<(Seq<char>, nat)> {
    match (model, dim) {
        (Some(m), Some(d)) => match parse_unsigned(d) {
            Some(n) => if n <= usize::MAX {
                Some((m, n))
            } else {
                None
            },
            None => None,
        },
        _ => None,
    }
}

/// Read the fingerprint from the stored `embedding_model` and
/// `embedding_dim` values (see [`fingerprint_of`]).
pub fn parse_fingerprint(model: Option<&str>, dim: Option<&str>) -> (r: Option<(String, usize)>)
    ensures
        match fingerprint_of(
            match model {
                Some(m) => Some(m@),
                None => None,
            },
            match dim {
                Some(d) => Some(d@),
                None => None,
            },
        ) {
            Some((m, n)) => r matches Some((x, k)) && x@ == m && k == n,
            None => r is None,
        },
{
    match (model, dim) {
        (Some(m), Some(d)) => match parse_usize(d) {
            Some(n) => Some((m.to_owned(), n)),
            None => None,
        },
        _ => None,
    }
}

/// The refusal of an index built for another model or dimension.
pub open spec fn fingerprint_changed_message(m: Seq<char>, d: nat, model: Seq<char>, dim: nat) -> Seq<char> {
    "embedding 指纹变更:库中 "@ + m + "["@ + dec(d) + "],请求 "@ + model + "["@ + dec(dim)
        + "]。请使用 --rebuild 重建索引"@
}

/// What creating the vector index does, given the stored fingerprint and
/// the requested model and dimension: refused when a stored fingerprint
/// differs; otherwise the dimension to create with and whether the
/// fingerprint is to be recorded (only when none was).
pub fn vector_plan(stored: &Option<(String, usize)>, dim: usize, model: &str) -> (r: Result<(usize, bool), String>)
    ensures
        match *stored {
            Some((m, d)) => if m@ == model@ && d == dim {
                r == Ok::<(usize, bool), String>((d, false))
            } else {
                r matches Err(e) && e@ == fingerprint_changed_message(m@, d as nat, model@, dim as nat)
            },
            None => r == Ok::<(usize, bool), String>((dim, true)),
        },
{
    match stored {
        Some((m, d)) => {
            if str_eq(m.as_str(), model) && *d == dim {
                Ok((*d, false))
            } else {
                let mut e = "embedding 指纹变更:库中 ".to_owned();
                e.append(m.as_str());
                e.append("[");
                e.append(u64_to_decimal(*d as u64).as_str());
                e.append("],请求 ");
                e.append(model);
                e.append("[");
                e.append(u64_to_decimal(dim as u64).as_str());
                e.append("]。请使用 --rebuild 重建索引");
                Err(e)
            }
        },
        None => Ok((dim, true)),
    }
}

/// A scored point of a nearest-neighbour search: its numeric id (absent
/// for a point with a UUID id) and its score as `f32` bits.
#[derive(Debug, Clone, Copy)]
pub struct ScoredPoint {
    pub id: Option<u64>,
    pub score_bits: u32,
}

/// A chunk row joined with its document.
#[derive(Debug)]
pub struct ChunkRow {
    pub rowid: i64,
    pub source: String,
    pub path: String,
    pub ordinal: i64,
    pub content: String,
}

/// A search hit: the chunk and its score (`f32` bits; the cosine
/// similarity, higher is better).
#[derive(Debug)]
pub struct Hit {
    pub source: String,
    pub path: String,
    pub ordinal: usize,
    pub content: String,
    pub score_bits: u32,
}

/// The ids a search asks the chunk table for: the numeric ids of the
/// scored points, in order, as signed row ids.
pub open spec fn point_ids(ps: Seq<ScoredPoint>) -> Seq<i64>
    decreases ps.len(),
{
    if ps.len() == 0 {
        Seq::empty()
    } else {
        point_ids(ps.drop_last()) + match ps.last().id {
            Some(n) => seq![n as i64],
            None => Seq::empty(),
        }
    }
}

/// The ids of the scored points to look up (see [`point_ids`]).
pub fn numeric_ids(scored: &Vec<ScoredPoint>) -> (r: Vec<i64>)
    ensures
        r@ == point_ids(scored@),
{
    let mut out: Vec<i64> = Vec::new();
    let mut i: usize = 0;
    assert(scored@.take(0) =~= Seq::<ScoredPoint>::empty());
    while i < scored.len()
        invariant
            0 <= i <= scored.len(),
            out@ == point_ids(scored@.take(i as int)),
        decreases scored.len() - i,
    {
        let ghost t = scored@.take(i + 1);
        assert(t.drop_last() =~= scored@.take(i as int));
        match scored[i].id {
            Some(n) => {
                out.push(n as i64);
            },
            None => {},
        }
        assert(out@ =~= point_ids(t));
        i = i + 1;
    }
    assert(scored@.take(scored.len() as int) =~= scored@);
    out
}

/// The integers in decimal, separated by commas.
pub open spec fn int_list_body(ids: Seq<i64>) -> Seq<char>
    decreases ids.len(),
{
    if ids.len() == 0 {
        Seq::empty()
    } else if ids.len() == 1 {
        signed_dec(ids[0] as int)
    } else {
        int_list_body(ids.drop_last()) + ","@ + signed_dec(ids.last() as int)
    }
}

/// The compact JSON array of the integers: `[`, the decimals separated by
/// commas, `]`.
pub open spec fn int_list_text(ids: Seq<i64>) -> Seq<char> {
    "["@ + int_list_body(ids) + "]"@
}

/// `serde_json::to_string` of the id list the chunk query binds. serde_json
/// writes a `Vec<i64>` as a compact array (`[`, elements separated by `,`,
/// `]`), each element through `itoa` (a `-` before the digits of a negative
/// number, no leading zeros), and writing to memory cannot fail.
#[verifier::external_body]
fn json_ids(ids: &Vec<i64>) -> (r: Option<String>)
    ensures
        opt_text(r) == Some(int_list_text(ids@)),
{
    serde_json::to_string(ids).ok()
}

/// The bound parameter of the chunk query: the JSON array of the scored
/// points' numeric ids.
pub fn ids_parameter(scored: &Vec<ScoredPoint>) -> (r: Option<String>)
    ensures
        r matches Some(x) && x@ == int_list_text(point_ids(scored@)),
{
    let ids = numeric_ids(scored);
    json_ids(&ids)
}

/// The index of the last row with row id `id`, among the first `n`.
pub open spec fn row_with_id(rows: Seq<ChunkRow>, id: i64, n: int) -> Option<int>
    decreases n,
{
    if n <= 0 {
        None
    } else if rows[n - 1].rowid == id {
        Some(n - 1)
    } else {
        row_with_id(rows, id, n - 1)
    }
}

/// Whether hit `h` is row `r` scored `score`.
pub open spec fn hit_of(h: Hit, r: ChunkRow, score: u32) -> bool {
    &&& h.source@ == r.source@
    &&& h.path@ == r.path@
    &&& h.ordinal == r.ordinal as usize
    &&& h.content@ == r.content@
    &&& h.score_bits == score
}

/// The rows each scored point finds, in score order: points with a UUID id
/// and points whose row is gone (orphans of a crashed run) drop out.
pub open spec fn joined(ps: Seq<ScoredPoint>, rows: Seq<ChunkRow>) -> Seq<(int, u32)>
    decreases ps.len(),
{
    if ps.len() == 0 {
        Seq::empty()
    } else {
        joined(ps.drop_last(), rows) + match ps.last().id {
            Some(n) => match row_with_id(rows, n as i64, rows.len() as int) {
                Some(k) => seq![(k, ps.last().score_bits)],
                None => Seq::empty(),
            },
            None => Seq::empty(),
        }
    }
}

fn find_row(rows: &Vec<ChunkRow>, id: i64) -> (r: Option<usize>)
    ensures
        match row_with_id(rows@, id, rows.len() as int) {
            Some(k) => r == Some(k as usize),
            None => r is None,
        },
{
    let mut n = rows.len();
    while n > 0
        invariant
            0 <= n <= rows.len(),
            row_with_id(rows@, id, rows.len() as int) == row_with_id(rows@, id, n as int),
        decreases n,
    {
        if rows[n - 1].rowid == id {
            return Some(n - 1);
        }
        n = n - 1;
    }
    None
}

/// Join the scored points back to their chunk rows (see [`joined`]): one
/// hit per point that finds its row, in the points' order.
pub fn join_hits(scored: &Vec<ScoredPoint>, rows: &Vec<ChunkRow>) -> (r: Vec<Hit>)
    ensures
        r.len() == joined(scored@, rows@).len(),
        forall|i: int|
            0 <= i < r.len() ==> hit_of(
                #[trigger] r@[i],
                rows@[joined(scored@, rows@)[i].0],
                joined(scored@, rows@)[i].1,
            ),
{
    let mut out: Vec<Hit> = Vec::new();
    let mut i: usize = 0;
    assert(scored@.take(0) =~= Seq::<ScoredPoint>::empty());
    while i < scored.len()
        invariant
            0 <= i <= scored.len(),
            out.len() == joined(scored@.take(i as int), rows@).len(),
            forall|j: int|
                0 <= j < out.len() ==> hit_of(
                    #[trigger] out@[j],
                    rows@[joined(scored@.take(i as int), rows@)[j].0],
                    joined(scored@.take(i as int), rows@)[j].1,
                ),
        decreases scored.len() - i,
    {
        let ghost t = scored@.take(i + 1);
        assert(t.drop_last() =~= scored@.take(i as int));
        assert(t.last() == scored@[i as int]);
        let ghost prev = joined(scored@.take(i as int), rows@);
        let ghost before = out@;
        match scored[i].id {
            Some(n) => match find_row(rows, n as i64) {
                Some(k) => {
                    proof {
                        lemma_row_with_id_bounds(rows@, n as i64, rows.len() as int);
                    }
                    let row = &rows[k];
                    out.push(
                        Hit {
                            source: row.source.clone(),
                            path: row.path.clone(),
                            ordinal: row.ordinal as usize,
                            content: row.content.clone(),
                            score_bits: scored[i].score_bits,
                        },
                    );
                    assert(joined(t, rows@) =~= prev.push((k as int, scored@[i as int].score_bits)));
                    assert forall|j: int|
                        0 <= j < out.len() implies hit_of(
                        #[trigger] out@[j],
                        rows@[joined(t, rows@)[j].0],
                        joined(t, rows@)[j].1,
                    ) by {
                        if j < before.len() {
                            assert(out@[j] == before[j]);
                        }
                    }
                },
                None => {
                    assert(joined(t, rows@) =~= prev);
                },
            },
            None => {
                assert(joined(t, rows@) =~= prev);
            },
        }
        i = i + 1;
    }
    assert(scored@.take(scored.len() as int) =~= scored@);
    out
}

proof fn lemma_row_with_id_bounds(rows: Seq<ChunkRow>, id: i64, n: int)
    requires
        n <= rows.len(),
    ensures
        row_with_id(rows, id, n) matches Some(k) ==> 0 <= k < n && rows[k].rowid == id,
    decreases n,
{
    if n > 0 && rows[n - 1].rowid != id {
        lemma_row_with_id_bounds(rows, id, n - 1);
    }
}

} // verus!
