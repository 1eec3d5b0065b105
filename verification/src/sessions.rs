//! The session-store API shared by every transport (list, rename, delete,
//! search), and the full-text index over session event logs: which events
//! become rows, and what an incremental reindex inserts.

use vstd::prelude::*;
use crate::name_map::{name_less, name_lt};
use crate::paths::push_char;
use crate::session_id::{is_valid_session_id, valid_session_id};
use crate::text::{chars_of, trim, trimmed};

verus! {

broadcast use vstd::seq_lib::group_to_multiset_ensures;

/// One listed session: id, message count, display name, and modification
/// time in milliseconds since the epoch (0 when unknown).
#[derive(Debug, Clone)]
pub struct SessionListItem {
    pub id: String,
    pub msg_count: usize,
    pub name: Option<String>,
    pub mtime_ms: u64,
}

/// A session-API failure: `BadRequest` (HTTP 400), `NotFound` (404),
/// `Internal` (500; fail loud, never silently adopted).
#[derive(Debug)]
pub enum SessionApiError {
    BadRequest(String),
    NotFound(String),
    Internal(String),
}

impl SessionApiError {
    /// The displayed message: the variant's text.
    pub fn message(&self) -> (r: String)
        ensures
            r@ == match self {
                SessionApiError::BadRequest(m) => m@,
                SessionApiError::NotFound(m) => m@,
                SessionApiError::Internal(m) => m@,
            },
    {
        match self {
            SessionApiError::BadRequest(m) => m.clone(),
            SessionApiError::NotFound(m) => m.clone(),
            SessionApiError::Internal(m) => m.clone(),
        }
    }
}

/// `a` comes before `b` in the listing: newer first, and among equal times
/// the one listed earlier first.
pub open spec fn listed_before(ka: u64, ia: int, kb: u64, ib: int) -> bool {
    ka > kb || (ka == kb && ia < ib)
}

/// `order` lists every index below `n` exactly once.
pub open spec fn is_permutation(order: Seq<usize>, n: int) -> bool {
    &&& order.len() == n
    &&& forall|i: int| 0 <= i < n ==> (#[trigger] order[i]) < n
    &&& forall|i: int, j: int| 0 <= i < j < n ==> order[i] != order[j]
}

/// The listing order of sessions with modification times `keys`: newest
/// first, ties in their original order.
pub fn newest_first_order(keys: &Vec<u64>) -> (order: Vec<usize>)
    ensures
        is_permutation(order@, keys.len() as int),
        forall|i: int, j: int|
            0 <= i < j < order.len() ==> listed_before(
                keys@[order@[i] as int],
                order@[i] as int,
                keys@[order@[j] as int],
                order@[j] as int,
            ),
{
    let mut order: Vec<usize> = Vec::new();
    let mut n: usize = 0;
    while n < keys.len()
        invariant
            0 <= n <= keys.len(),
            order.len() == n,
            forall|i: int| 0 <= i < n ==> (#[trigger] order@[i]) < n,
            forall|i: int, j: int| 0 <= i < j < n ==> order@[i] != order@[j],
            forall|i: int, j: int|
                0 <= i < j < order.len() ==> listed_before(
                    keys@[order@[i] as int],
                    order@[i] as int,
                    keys@[order@[j] as int],
                    order@[j] as int,
                ),
        decreases keys.len() - n,
    {
        let k = keys[n];
        let mut pos: usize = 0;
        while pos < order.len() && keys[order[pos]] >= k
            invariant
                0 <= pos <= order.len(),
                order.len() == n,
                n < keys.len(),
                k == keys@[n as int],
                forall|i: int| 0 <= i < n ==> (#[trigger] order@[i]) < n,
                forall|i: int| 0 <= i < pos ==> keys@[(#[trigger] order@[i]) as int] >= k,
            decreases order.len() - pos,
        {
            pos = pos + 1;
        }
        let ghost before = order@;
        order.insert(pos, n);
        proof {
            assert forall|i: int| 0 <= i < n + 1 implies (#[trigger] order@[i]) < n + 1 by {
                if i < pos {
                    assert(order@[i] == before[i]);
                } else if i > pos {
                    assert(order@[i] == before[i - 1]);
                }
            }
            assert forall|i: int, j: int| 0 <= i < j < n + 1 implies order@[i] != order@[j] by {
                if i < pos && j < pos {
                    assert(order@[i] == before[i] && order@[j] == before[j]);
                } else if i < pos && j == pos {
                    assert(order@[i] == before[i]);
                } else if i < pos {
                    assert(order@[i] == before[i] && order@[j] == before[j - 1]);
                } else if i == pos {
                    assert(order@[j] == before[j - 1]);
                } else {
                    assert(order@[i] == before[i - 1] && order@[j] == before[j - 1]);
                }
            }
            assert forall|i: int, j: int| 0 <= i < j < order.len() implies listed_before(
                keys@[order@[i] as int],
                order@[i] as int,
                keys@[order@[j] as int],
                order@[j] as int,
            ) by {
                if i < pos && j < pos {
                    assert(order@[i] == before[i] && order@[j] == before[j]);
                } else if i < pos && j == pos {
                    assert(order@[i] == before[i]);
                    assert(before[i] < n);
                } else if i < pos {
                    assert(order@[i] == before[i] && order@[j] == before[j - 1]);
                } else if i == pos {
                    assert(order@[j] == before[j - 1]);
                    assert(before[pos as int] < n);
                    assert(keys@[before[pos as int] as int] < k);
                    if j - 1 > pos {
                        assert(listed_before(
                            keys@[before[pos as int] as int],
                            before[pos as int] as int,
                            keys@[before[j - 1] as int],
                            before[j - 1] as int,
                        ));
                    }
                } else {
                    assert(order@[i] == before[i - 1] && order@[j] == before[j - 1]);
                }
            }
        }
        n = n + 1;
    }
    order
}

/// Why a rename is refused, if it is: an invalid id, or a name that is
/// empty or longer than 200 characters once trimmed.
pub open spec fn rename_refusal(id: Seq<char>, name: Seq<char>) -> Option<Seq<char>> {
    if !valid_session_id(id) {
        Some("invalid session id"@)
    } else if trimmed(name).len() == 0 || trimmed(name).len() > 200 {
        Some("name must be 1..=200 chars"@)
    } else {
        None
    }
}

/// Validate a rename: the display name to store (trimmed), or
/// `BadRequest` (see [`rename_refusal`]).
pub fn rename_name(session_id: &str, name: &str) -> (r: Result<String, SessionApiError>)
    ensures
        match rename_refusal(session_id@, name@) {
            Some(m) => r matches Err(SessionApiError::BadRequest(x)) && x@ == m,
            None => r matches Ok(n) && n@ == trimmed(name@),
        },
{
    if !is_valid_session_id(session_id) {
        return Err(SessionApiError::BadRequest("invalid session id".to_owned()));
    }
    let n = trim(name);
    let len = n.as_str().unicode_len();
    if len == 0 || len > 200 {
        return Err(SessionApiError::BadRequest("name must be 1..=200 chars".to_owned()));
    }
    Ok(n)
}

/// Validate a delete: only a valid id may be removed.
pub fn delete_check(session_id: &str) -> (r: Result<(), SessionApiError>)
    ensures
        match r {
            Ok(()) => valid_session_id(session_id@),
            Err(SessionApiError::BadRequest(m)) => !valid_session_id(session_id@) && m@
                == "invalid session id"@,
            Err(_) => false,
        },
{
    if !is_valid_session_id(session_id) {
        return Err(SessionApiError::BadRequest("invalid session id".to_owned()));
    }
    Ok(())
}

/// Validate a search query: trimmed, and not empty.
pub fn search_query(q: &str) -> (r: Result<String, SessionApiError>)
    ensures
        if trimmed(q@).len() == 0 {
            r matches Err(SessionApiError::BadRequest(m)) && m@ == "q must be non-empty"@
        } else {
            r matches Ok(t) && t@ == trimmed(q@)
        },
{
    let t = trim(q);
    if t.as_str().is_empty() {
        return Err(SessionApiError::BadRequest("q must be non-empty".to_owned()));
    }
    Ok(t)
}

/// Whether a session has on-disk data: an event log, or a legacy
/// transcript to migrate. Without either there is nothing to read.
pub fn has_session_data(has_events: bool, legacy_exists: bool) -> (r: bool)
    ensures
        r == (has_events || legacy_exists),
{
    has_events || legacy_exists
}

// ---------------------------------------------------------------------------
// Full-text index
// ---------------------------------------------------------------------------

/// One content block of a message: text, or something else (a tool call,
/// an image) that the index does not read.
#[derive(Debug, Clone)]
pub enum Block {
    Text(String),
    Other,
}

/// A message as the index reads it: its blocks, or a custom message with
/// no text to index.
#[derive(Debug, Clone)]
pub enum IndexMessage {
    Blocks(Vec<Block>),
    Custom,
}

/// The role of an event that carries a message.
#[derive(Debug, Clone, Copy, PartialEq, Eq, Structural)]
pub enum EventRole {
    User,
    Assistant,
    ToolResult,
}

/// A session event as the index reads it: a message under a role, or a
/// marker (turn start or end, a clear, a compaction), which has no row.
#[derive(Debug, Clone)]
pub enum IndexEvent {
    Message(EventRole, IndexMessage),
    Marker,
}

/// The text of the text blocks, joined with newlines.
pub open spec fn blocks_text(bs: Seq<Block>) -> Seq<char>
    decreases bs.len(),
{
    if bs.len() == 0 {
        Seq::empty()
    } else {
        let rest = blocks_text(bs.drop_last());
        match bs.last() {
            Block::Text(t) => if texts_before(bs.drop_last()) {
                rest + seq!['\n'] + t@
            } else {
                t@
            },
            Block::Other => rest,
        }
    }
}

/// Whether `bs` holds a text block.
pub open spec fn texts_before(bs: Seq<Block>) -> bool {
    exists|i: int| 0 <= i < bs.len() && bs[i] is Text
}

proof fn lemma_no_text_empty(bs: Seq<Block>)
    requires
        !texts_before(bs),
    ensures
        blocks_text(bs).len() == 0,
    decreases bs.len(),
{
    if bs.len() > 0 {
        assert(!texts_before(bs.drop_last())) by {
            if texts_before(bs.drop_last()) {
                let j = choose|j: int| 0 <= j < bs.drop_last().len() && bs.drop_last()[j] is Text;
                assert(bs[j] is Text);
            }
        }
        assert(!(bs[bs.len() - 1] is Text));
        lemma_no_text_empty(bs.drop_last());
    }
}

/// The text of a message's text blocks, joined with newlines.
pub fn block_text(content: &Vec<Block>) -> (r: String)
    ensures
        r@ == blocks_text(content@),
{
    let mut out = String::new();
    let mut any = false;
    let mut i: usize = 0;
    while i < content.len()
        invariant
            0 <= i <= content.len(),
            out@ == blocks_text(content@.take(i as int)),
            any == texts_before(content@.take(i as int)),
        decreases content.len() - i,
    {
        let ghost t = content@.take(i + 1);
        assert(t.drop_last() =~= content@.take(i as int));
        assert(t.last() == content@[i as int]);
        match &content[i] {
            Block::Text(s) => {
                proof {
                    if !any {
                        lemma_no_text_empty(content@.take(i as int));
                    }
                }
                if any {
                    push_char(&mut out, '\n');
                }
                out.append(s.as_str());
                assert(t[i as int] is Text);
                assert(texts_before(t));
            },
            Block::Other => {
                assert(texts_before(t) == texts_before(content@.take(i as int))) by {
                    if texts_before(t) {
                        let j = choose|j: int| 0 <= j < t.len() && t[j] is Text;
                        assert(content@.take(i as int)[j] == t[j]);
                    }
                    if texts_before(content@.take(i as int)) {
                        let j = choose|j: int| 0 <= j < i && content@.take(i as int)[j] is Text;
                        assert(t[j] == content@.take(i as int)[j]);
                    }
                }
            },
        }
        assert(out@ =~= blocks_text(t));
        if let Block::Text(_) = &content[i] {
            any = true;
        }
        i = i + 1;
    }
    assert(content@.take(content.len() as int) =~= content@);
    out
}

/// One indexable row: the event's position in the log, its role, its text.
#[derive(Debug, Clone)]
pub struct Row {
    pub seq: usize,
    pub kind: EventRole,
    pub text: String,
}

/// The text an event contributes, if any: a message's joined text when it
/// is not empty.
pub open spec fn event_text(e: IndexEvent) -> Option<(EventRole, Seq<char>)> {
    match e {
        IndexEvent::Message(role, IndexMessage::Blocks(bs)) => if blocks_text(bs@).len() > 0 {
            Some((role, blocks_text(bs@)))
        } else {
            None
        },
        _ => None,
    }
}

/// The rows of events `es[..n]`: one per event with text, in log order.
pub open spec fn rows_of(es: Seq<IndexEvent>, n: int) -> Seq<(int, EventRole, Seq<char>)>
    decreases n,
{
    if n <= 0 {
        Seq::empty()
    } else {
        rows_of(es, n - 1) + match event_text(es[n - 1]) {
            Some((role, t)) => seq![(n - 1, role, t)],
            None => Seq::empty(),
        }
    }
}

/// Rows as values.
pub open spec fn rows_view(rs: Seq<Row>) -> Seq<(int, EventRole, Seq<char>)> {
    rs.map_values(|r: Row| (r.seq as int, r.kind, r.text@))
}

/// Project a session's event log into indexable rows (see [`rows_of`]);
/// `seq` is the event's index in the log, so markers leave gaps.
pub fn event_rows(events: &Vec<IndexEvent>) -> (r: Vec<Row>)
    ensures
        rows_view(r@) == rows_of(events@, events.len() as int),
{
    let mut out: Vec<Row> = Vec::new();
    let mut i: usize = 0;
    assert(rows_view(out@) =~= rows_of(events@, 0));
    while i < events.len()
        invariant
            0 <= i <= events.len(),
            rows_view(out@) == rows_of(events@, i as int),
        decreases events.len() - i,
    {
        let ghost before = out@;
        match &events[i] {
            IndexEvent::Message(role, IndexMessage::Blocks(bs)) => {
                let t = block_text(bs);
                if !t.as_str().is_empty() {
                    out.push(Row { seq: i, kind: *role, text: t });
                    assert(rows_view(out@) =~= rows_view(before).push((i as int, *role, blocks_text(bs@))));
                } else {
                    assert(rows_view(out@) =~= rows_of(events@, i + 1));
                }
            },
            _ => {
                assert(rows_view(out@) =~= rows_of(events@, i + 1));
            },
        }
        assert(rows_view(out@) =~= rows_of(events@, i + 1));
        i = i + 1;
    }
    out
}

/// The rows of a reindex: those past the high-water mark `last` (`-1`
/// before the first run), in order.
pub open spec fn rows_after(rows: Seq<(int, EventRole, Seq<char>)>, last: int) -> Seq<
    (int, EventRole, Seq<char>),
> {
    rows.filter(|r: (int, EventRole, Seq<char>)| r.0 > last)
}

/// What a reindex of one session does: the rows to insert and the new
/// high-water mark (unchanged when nothing is inserted).
pub struct ReindexPlan {
    pub rows: Vec<Row>,
    pub mark: i64,
}

/// Plan the reindex of one session whose rows are `rows` (in log order)
/// and whose high-water mark is `last`.
pub fn plan_reindex(rows: &Vec<Row>, last: i64) -> (p: ReindexPlan)
    requires
        forall|i: int| 0 <= i < rows.len() ==> (#[trigger] rows@[i]).seq <= i64::MAX,
    ensures
        forall|i: int| 0 <= i < p.rows.len() ==> (#[trigger] p.rows@[i]).seq as int > last,
        rows_view(p.rows@) == rows_after(rows_view(rows@), last as int),
        p.mark as int == max_seq(rows_view(p.rows@), last as int),
        p.mark >= last,
        forall|i: int| 0 <= i < p.rows.len() ==> (#[trigger] p.rows@[i]).seq as int <= p.mark,
{
    let ghost f = |r: (int, EventRole, Seq<char>)| r.0 > last as int;
    let mut out: Vec<Row> = Vec::new();
    let mut mark = last;
    let mut i: usize = 0;
    proof {
        lemma_filter_nil(rows_view(rows@).take(0), f);
    }
    assert(rows_view(out@) =~= rows_view(rows@).take(0).filter(f));
    while i < rows.len()
        invariant
            forall|j: int| 0 <= j < rows.len() ==> (#[trigger] rows@[j]).seq <= i64::MAX,
            0 <= i <= rows.len(),
            f == (|r: (int, EventRole, Seq<char>)| r.0 > last as int),
            rows_view(out@) == rows_view(rows@).take(i as int).filter(f),
            forall|j: int| 0 <= j < out.len() ==> (#[trigger] out@[j]).seq as int > last,
            forall|j: int| 0 <= j < out.len() ==> (#[trigger] out@[j]).seq as int <= mark,
            mark as int == max_seq(rows_view(out@), last as int),
            mark >= last,
        decreases rows.len() - i,
    {
        let ghost t = rows_view(rows@).take(i + 1);
        assert(t.drop_last() =~= rows_view(rows@).take(i as int));
        proof {
            lemma_filter_step(rows_view(rows@).take(i as int), f, t.last());
            assert(t =~= rows_view(rows@).take(i as int).push(t.last()));
        }
        let s = rows[i].seq as i64;
        if s > last {
            let ghost before = out@;
            out.push(Row { seq: rows[i].seq, kind: rows[i].kind, text: rows[i].text.clone() });
            assert(rows_view(out@) =~= rows_view(before).push(t.last()));
            assert(rows_view(out@).drop_last() =~= rows_view(before));
            assert(rows_view(out@).last().0 == s as int);
            if s > mark {
                mark = s;
            }
        }
        i = i + 1;
    }
    assert(rows_view(rows@).take(rows.len() as int) =~= rows_view(rows@));
    ReindexPlan { rows: out, mark }
}

/// The largest position among `rows` and `floor`.
pub open spec fn max_seq(rows: Seq<(int, EventRole, Seq<char>)>, floor: int) -> int
    decreases rows.len(),
{
    if rows.len() == 0 {
        floor
    } else {
        let m = max_seq(rows.drop_last(), floor);
        if rows.last().0 > m {
            rows.last().0
        } else {
            m
        }
    }
}

proof fn lemma_filter_step<A>(s: Seq<A>, f: spec_fn(A) -> bool, x: A)
    ensures
        s.push(x).filter(f) == if f(x) {
            s.filter(f).push(x)
        } else {
            s.filter(f)
        },
{
    reveal(Seq::filter);
    assert(s.push(x).drop_last() =~= s);
}

proof fn lemma_filter_nil<A>(s: Seq<A>, f: spec_fn(A) -> bool)
    requires
        s.len() == 0,
    ensures
        s.filter(f) == s,
{
    reveal(Seq::filter);
}

/// Reindexing is incremental: after a reindex moved the mark, a second one
/// over the same rows inserts nothing.
pub proof fn lemma_reindex_twice_inserts_nothing(rows: Seq<(int, EventRole, Seq<char>)>, last: int, mark: int)
    requires
        forall|i: int| 0 <= i < rows_after(rows, last).len() ==> (#[trigger] rows_after(rows, last)[i]).0 <= mark,
        mark >= last,
    ensures
        rows_after(rows, mark).len() == 0,
{
    let f = |r: (int, EventRole, Seq<char>)| r.0 > last;
    let g = |r: (int, EventRole, Seq<char>)| r.0 > mark;
    assert forall|i: int| 0 <= i < rows.len() implies !g(rows[i]) by {
        if f(rows[i]) {
            rows.lemma_filter_contains_rev(f, rows[i]);
            let j = choose|j: int| 0 <= j < rows.filter(f).len() && rows.filter(f)[j] == rows[i];
            assert(rows_after(rows, last)[j] == rows[i]);
        }
    }
    rows.lemma_all_neg_filter_empty(g);
}

/// The rows of the events at positions `n..n + j` of `es`, in log order.
pub open spec fn rows_between(es: Seq<IndexEvent>, n: int, j: int) -> Seq<(int, EventRole, Seq<char>)>
    decreases j,
{
    if j <= 0 {
        Seq::empty()
    } else {
        rows_between(es, n, j - 1) + match event_text(es[n + j - 1]) {
            Some((role, t)) => seq![(n + j - 1, role, t)],
            None => Seq::empty(),
        }
    }
}

proof fn lemma_rows_split(all: Seq<IndexEvent>, es: Seq<IndexEvent>, n: int, j: int)
    requires
        n == es.len(),
        0 <= j,
        n + j <= all.len(),
        all.take(n) == es,
    ensures
        rows_of(all, n + j) == rows_of(es, n) + rows_between(all, n, j),
        rows_between(all, n, j).len() == rows_of(all.skip(n), j).len(),
        forall|i: int| 0 <= i < rows_between(all, n, j).len() ==> #[trigger] rows_between(all, n, j)[i].0 >= n,
    decreases j,
{
    if j == 0 {
        lemma_rows_prefix(all, es, n);
        assert(rows_of(es, n) + Seq::empty() =~= rows_of(es, n));
    } else {
        lemma_rows_split(all, es, n, j - 1);
        assert(all.skip(n)[j - 1] == all[n + j - 1]);
        let tail = match event_text(all[n + j - 1]) {
            Some((role, t)) => seq![(n + j - 1, role, t)],
            None => Seq::<(int, EventRole, Seq<char>)>::empty(),
        };
        assert(rows_of(es, n) + rows_between(all, n, j - 1) + tail =~= rows_of(es, n) + (
        rows_between(all, n, j - 1) + tail));
    }
}

proof fn lemma_rows_prefix(all: Seq<IndexEvent>, es: Seq<IndexEvent>, n: int)
    requires
        0 <= n <= es.len(),
        n <= all.len(),
        forall|i: int| 0 <= i < n ==> all[i] == es[i],
    ensures
        rows_of(all, n) == rows_of(es, n),
    decreases n,
{
    if n > 0 {
        lemma_rows_prefix(all, es, n - 1);
    }
}

/// Reindexing after an append: when a session's mark covers every row of
/// its log `es` (as after a reindex), and events `more` are appended, the
/// next reindex inserts exactly the rows of the new events, one per new
/// event with text, in order; none of the old rows is inserted again.
pub proof fn lemma_reindex_after_append(es: Seq<IndexEvent>, more: Seq<IndexEvent>, mark: int)
    requires
        forall|i: int| 0 <= i < rows_of(es, es.len() as int).len() ==> (#[trigger] rows_of(
            es,
            es.len() as int,
        )[i]).0 <= mark,
        mark < es.len(),
    ensures
        rows_after(rows_of(es + more, (es + more).len() as int), mark) == rows_between(
            es + more,
            es.len() as int,
            more.len() as int,
        ),
        rows_after(rows_of(es + more, (es + more).len() as int), mark).len() == rows_of(
            more,
            more.len() as int,
        ).len(),
{
    let all = es + more;
    let n = es.len() as int;
    let k = more.len() as int;
    assert(all.take(n) =~= es);
    assert(all.skip(n) =~= more);
    lemma_rows_split(all, es, n, k);
    let f = |r: (int, EventRole, Seq<char>)| r.0 > mark;
    let a = rows_of(es, n);
    let b = rows_between(all, n, k);
    Seq::filter_distributes_over_add(a, b, f);
    assert forall|i: int| 0 <= i < a.len() implies !f(a[i]) by {}
    a.lemma_all_neg_filter_empty(f);
    assert forall|i: int| 0 <= i < b.len() implies f(#[trigger] b[i]) by {}
    lemma_filter_all(b, f);
    assert(a.filter(f) + b.filter(f) =~= b);
}

proof fn lemma_filter_all<A>(s: Seq<A>, f: spec_fn(A) -> bool)
    requires
        forall|i: int| 0 <= i < s.len() ==> f(#[trigger] s[i]),
    ensures
        s.filter(f) == s,
    decreases s.len(),
{
    reveal(Seq::filter);
    if s.len() > 0 {
        lemma_filter_all(s.drop_last(), f);
        assert(s.drop_last().push(s.last()) =~= s);
    }
}

/// The phrase an FTS5 `MATCH` searches for: the query in double quotes,
/// inner double quotes doubled, so user input is never read as query
/// syntax.
pub open spec fn fts_phrase_of(q: Seq<char>) -> Seq<char> {
    seq!['"'] + quote_doubled(q) + seq!['"']
}

/// `q` with each `"` doubled.
pub open spec fn quote_doubled(q: Seq<char>) -> Seq<char>
    decreases q.len(),
{
    if q.len() == 0 {
        Seq::empty()
    } else {
        quote_doubled(q.drop_last()) + if q.last() == '"' {
            seq!['"', '"']
        } else {
            seq![q.last()]
        }
    }
}

/// Quote a search query as an FTS5 phrase (see [`fts_phrase_of`]).
pub fn fts_phrase(q: &str) -> (r: String)
    ensures
        r@ == fts_phrase_of(q@),
{
    let cs = chars_of(q);
    let mut out = String::new();
    push_char(&mut out, '"');
    let mut i: usize = 0;
    while i < cs.len()
        invariant
            cs@ == q@,
            0 <= i <= cs.len(),
            out@ == seq!['"'] + quote_doubled(q@.take(i as int)),
        decreases cs.len() - i,
    {
        let ghost t = q@.take(i + 1);
        assert(t.drop_last() =~= q@.take(i as int));
        if cs[i] == '"' {
            push_char(&mut out, '"');
            push_char(&mut out, '"');
        } else {
            push_char(&mut out, cs[i]);
        }
        assert(out@ =~= seq!['"'] + quote_doubled(t));
        i = i + 1;
    }
    push_char(&mut out, '"');
    assert(q@.take(q@.len() as int) =~= q@);
    out
}

/// One search hit: the session, its display name, and the matching
/// snippet.
#[derive(Debug, Clone)]
pub struct SessionHit {
    pub session_id: String,
    pub name: Option<String>,
    pub snippet: String,
}

/// What a reindex did: sessions with new rows, and rows inserted.
#[derive(Debug, Clone, Copy, PartialEq, Eq, Structural)]
pub struct Stats {
    pub sessions: usize,
    pub events_indexed: usize,
}

impl Stats {
    /// Nothing indexed.
    pub fn new() -> (r: Self)
        ensures
            r.sessions == 0,
            r.events_indexed == 0,
    {
        Stats { sessions: 0, events_indexed: 0 }
    }

    /// Count one session's run: it counts only when it inserted rows.
    pub fn record(&mut self, inserted: usize)
        requires
            old(self).sessions < usize::MAX,
            old(self).events_indexed + inserted <= usize::MAX,
        ensures
            final(self).sessions == old(self).sessions + if inserted > 0 {
                1int
            } else {
                0int
            },
            final(self).events_indexed == old(self).events_indexed + inserted,
    {
        if inserted > 0 {
            self.sessions = self.sessions + 1;
            self.events_indexed = self.events_indexed + inserted;
        }
    }
}

proof fn lemma_insert_multiset<A>(s: Seq<A>, pos: int, x: A)
    requires
        0 <= pos <= s.len(),
    ensures
        s.insert(pos, x).to_multiset() == s.to_multiset().insert(x),
{
    let t = s.insert(pos, x);
    assert(t.remove(pos) =~= s);
    assert(t[pos] == x);
    assert(t.to_multiset().remove(x) == s.to_multiset());
    assert(t.to_multiset().count(x) > 0) by {
        assert(t.contains(x));
    }
    assert(t.to_multiset() =~= s.to_multiset().insert(x));
}

/// The sessions the index covers, from a directory listing: the names
/// that are valid session ids, in ascending order.
pub fn session_ids(names: &Vec<String>) -> (r: Vec<String>)
    ensures
        forall|i: int| 0 <= i < r.len() ==> valid_session_id(#[trigger] r@[i]@),
        forall|i: int, j: int| 0 <= i < j < r.len() ==> !name_lt(#[trigger] r@[j]@, #[trigger] r@[i]@),
        r@.map_values(|s: String| s@).to_multiset() == names@.map_values(|s: String| s@).filter(
            |s: Seq<char>| valid_session_id(s),
        ).to_multiset(),
{
    let ghost f = |s: Seq<char>| valid_session_id(s);
    let ghost v = names@.map_values(|s: String| s@);
    let mut out: Vec<String> = Vec::new();
    let mut n: usize = 0;
    proof {
        lemma_filter_nil(v.take(0), f);
    }
    assert(out@.map_values(|s: String| s@) =~= Seq::<Seq<char>>::empty());
    while n < names.len()
        invariant
            v == names@.map_values(|s: String| s@),
            f == (|s: Seq<char>| valid_session_id(s)),
            0 <= n <= names.len(),
            forall|i: int| 0 <= i < out.len() ==> valid_session_id(#[trigger] out@[i]@),
            forall|i: int, j: int| 0 <= i < j < out.len() ==> !name_lt(#[trigger] out@[j]@, #[trigger] out@[i]@),
            out@.map_values(|s: String| s@).to_multiset() == v.take(n as int).filter(f).to_multiset(),
        decreases names.len() - n,
    {
        let ghost t = v.take(n + 1);
        assert(t.drop_last() =~= v.take(n as int));
        proof {
            lemma_filter_step(v.take(n as int), f, t.last());
            assert(t =~= v.take(n as int).push(t.last()));
        }
        let name = &names[n];
        if is_valid_session_id(name.as_str()) {
            let mut pos: usize = 0;
            while pos < out.len() && !name_less(name.as_str(), out[pos].as_str())
                invariant
                    0 <= pos <= out.len(),
                    forall|i: int| 0 <= i < pos ==> !name_lt(name@, #[trigger] out@[i]@),
                decreases out.len() - pos,
            {
                pos = pos + 1;
            }
            let ghost before = out@;
            out.insert(pos, name.clone());
            proof {
                let bv = before.map_values(|s: String| s@);
                assert(out@.map_values(|s: String| s@) =~= bv.insert(pos as int, name@));
                lemma_insert_multiset(bv, pos as int, name@);
                assert(t.last() == name@);
                assert(v.take(n as int).filter(f).push(name@).to_multiset() =~= v.take(n as int).filter(f).to_multiset().insert(name@));
                assert forall|i: int| 0 <= i < out.len() implies valid_session_id(#[trigger] out@[i]@) by {
                    if i < pos {
                        assert(out@[i] == before[i]);
                    } else if i > pos {
                        assert(out@[i] == before[i - 1]);
                    }
                }
                assert forall|i: int, j: int| 0 <= i < j < out.len() implies !name_lt(
                    #[trigger] out@[j]@,
                    #[trigger] out@[i]@,
                ) by {
                    if i < pos && j < pos {
                        assert(out@[i] == before[i] && out@[j] == before[j]);
                    } else if i < pos && j == pos {
                        assert(out@[i] == before[i]);
                        crate::name_map::lemma_name_order(name@, before[i]@, name@);
                    } else if i < pos {
                        assert(out@[i] == before[i] && out@[j] == before[j - 1]);
                    } else if i == pos {
                        assert(out@[j] == before[j - 1]);
                        assert(name_lt(name@, before[pos as int]@));
                        crate::name_map::lemma_name_order(before[j - 1]@, name@, before[pos as int]@);
                        crate::name_map::lemma_name_order(before[j - 1]@, before[pos as int]@, name@);
                        if j - 1 > pos {
                            assert(!name_lt(before[j - 1]@, before[pos as int]@));
                            crate::name_map::lemma_name_order(before[pos as int]@, before[j - 1]@, name@);
                            crate::name_map::lemma_name_order(before[j - 1]@, name@, before[pos as int]@);
                        }
                    } else {
                        assert(out@[i] == before[i - 1] && out@[j] == before[j - 1]);
                    }
                }
            }
        }
        n = n + 1;
    }
    assert(v.take(names.len() as int) =~= v);
    out
}

/// The counters after one session's reindex inserted `n` rows.
pub open spec fn recorded(st: Stats, n: int) -> Stats {
    Stats {
        sessions: (st.sessions + if n > 0 {
            1int
        } else {
            0int
        }) as usize,
        events_indexed: (st.events_indexed + n) as usize,
    }
}

/// What a session's reindex writes: the rows to insert, and the new
/// high-water mark when any were inserted (otherwise the mark is left
/// alone).
#[derive(Debug)]
pub struct SessionReindex {
    pub rows: Vec<Row>,
    pub meta: Option<i64>,
}

/// Reindex one session whose rows are `rows` and whose mark is `last`:
/// the rows past the mark are inserted, the mark moves to the largest
/// inserted position when any were, and the session is counted when it
/// inserted rows.
pub fn reindex_session(rows: &Vec<Row>, last: i64, stats: &mut Stats) -> (r: SessionReindex)
    requires
        forall|i: int| 0 <= i < rows.len() ==> (#[trigger] rows@[i]).seq <= i64::MAX,
        old(stats).sessions < usize::MAX,
        old(stats).events_indexed + rows.len() <= usize::MAX,
    ensures
        rows_view(r.rows@) == rows_after(rows_view(rows@), last as int),
        r.meta == if r.rows.len() > 0 {
            Some(max_seq(rows_view(r.rows@), last as int) as i64)
        } else {
            None::<i64>
        },
        *final(stats) == recorded(*old(stats), r.rows.len() as int),
{
    let p = plan_reindex(rows, last);
    proof {
        let f = |x: (int, EventRole, Seq<char>)| x.0 > last as int;
        rows_view(rows@).lemma_filter_len(f);
        assert(rows_view(rows@).len() == rows.len());
    }
    stats.record(p.rows.len());
    let meta = if p.rows.len() > 0 {
        Some(p.mark)
    } else {
        None
    };
    SessionReindex { rows: p.rows, meta }
}

proof fn lemma_rows_between_ascending(es: Seq<IndexEvent>, n: int, j: int)
    requires
        0 <= j,
    ensures
        forall|a: int, b: int|
            0 <= a < b < rows_between(es, n, j).len() ==> #[trigger] rows_between(es, n, j)[a].0
                < #[trigger] rows_between(es, n, j)[b].0,
        forall|a: int| 0 <= a < rows_between(es, n, j).len() ==> #[trigger] rows_between(es, n, j)[a].0 < n + j,
    decreases j,
{
    if j > 0 {
        lemma_rows_between_ascending(es, n, j - 1);
        let p = rows_between(es, n, j - 1);
        let q = rows_between(es, n, j);
        assert forall|a: int| 0 <= a < q.len() implies #[trigger] q[a].0 < n + j by {
            if a < p.len() {
                assert(q[a] == p[a]);
            }
        }
        assert forall|a: int, b: int| 0 <= a < b < q.len() implies #[trigger] q[a].0 < #[trigger] q[b].0 by {
            if b < p.len() {
                assert(q[a] == p[a] && q[b] == p[b]);
            } else {
                assert(q[a] == p[a]);
            }
        }
    }
}

proof fn lemma_max_seq_ascending(rows: Seq<(int, EventRole, Seq<char>)>, floor: int)
    requires
        forall|a: int, b: int| 0 <= a < b < rows.len() ==> #[trigger] rows[a].0 < #[trigger] rows[b].0,
        forall|a: int| 0 <= a < rows.len() ==> #[trigger] rows[a].0 > floor,
    ensures
        max_seq(rows, floor) == if rows.len() > 0 {
            rows.last().0
        } else {
            floor
        },
    decreases rows.len(),
{
    if rows.len() > 1 {
        let d = rows.drop_last();
        assert forall|a: int, b: int| 0 <= a < b < d.len() implies #[trigger] d[a].0 < #[trigger] d[b].0 by {
            assert(d[a] == rows[a] && d[b] == rows[b]);
        }
        assert forall|a: int| 0 <= a < d.len() implies #[trigger] d[a].0 > floor by {
            assert(d[a] == rows[a]);
        }
        lemma_max_seq_ascending(d, floor);
        assert(d.last() == rows[rows.len() - 2]);
        assert(rows[rows.len() - 2].0 < rows[rows.len() - 1].0);
    } else if rows.len() == 1 {
        assert(rows.drop_last().len() == 0);
        assert(max_seq(rows.drop_last(), floor) == floor);
        assert(rows[0].0 > floor);
    }
}

/// Reindex counts after an append: when a session's mark covers every row
/// of its log `es` and events `more` are appended, its next reindex inserts
/// one row per new event with text, counts the session exactly when there
/// is one, and moves the mark to the last new text event's position (it
/// stays when there is none).
pub proof fn lemma_reindex_stats_after_append(es: Seq<IndexEvent>, more: Seq<IndexEvent>, mark: int, st: Stats)
    requires
        forall|i: int| 0 <= i < rows_of(es, es.len() as int).len() ==> (#[trigger] rows_of(
            es,
            es.len() as int,
        )[i]).0 <= mark,
        -1 <= mark < es.len(),
        st.sessions < usize::MAX,
        st.events_indexed + rows_of(more, more.len() as int).len() <= usize::MAX,
    ensures
        ({
            let ins = rows_after(rows_of(es + more, (es + more).len() as int), mark);
            let count = rows_of(more, more.len() as int).len() as int;
            &&& ins.len() == count
            &&& recorded(st, ins.len() as int) == recorded(st, count)
            &&& (count > 0 ==> recorded(st, count).sessions == st.sessions + 1)
            &&& (count == 0 ==> recorded(st, count).sessions == st.sessions)
            &&& recorded(st, count).events_indexed == st.events_indexed + count
            &&& max_seq(ins, mark) == if count > 0 {
                ins.last().0
            } else {
                mark
            }
            &&& forall|i: int| 0 <= i < ins.len() ==> (#[trigger] ins[i]).0 >= es.len()
        }),
{
    let all = es + more;
    let n = es.len() as int;
    let k = more.len() as int;
    let ins = rows_between(all, n, k);
    let count = rows_of(more, k).len() as int;
    assert(rows_after(rows_of(all, all.len() as int), mark) == ins && ins.len() == count) by {
        lemma_reindex_after_append(es, more, mark);
        assert(all.take(n) =~= es);
        assert(all.skip(n) =~= more);
        lemma_rows_split(all, es, n, k);
    }
    assert(forall|i: int| 0 <= i < ins.len() ==> (#[trigger] ins[i]).0 >= n) by {
        assert(all.take(n) =~= es);
        lemma_rows_split(all, es, n, k);
    }
    assert(max_seq(ins, mark) == if count > 0 {
        ins.last().0
    } else {
        mark
    }) by {
        lemma_rows_between_ascending(all, n, k);
        lemma_max_seq_ascending(ins, mark);
    }
}

} // verus!
