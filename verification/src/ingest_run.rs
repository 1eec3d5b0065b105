//! The ingest run as a state machine: scan each selected source, remove the
//! stored documents that are gone, skip unchanged files (modification time
//! first, then content hash), queue the changed ones, embed every queued
//! chunk in one flat batch, then upsert each document with its slice.
//!
//! The caller performs each action (scanning, reading, cleaning, hashing
//! with [`crate::ingest::content_hash`], chunking, calling the embedding
//! service, writing the store) and hands back what it learned as the next
//! event.

use vstd::prelude::*;
use crate::ingest::{
    embedding_slices, lemma_filter_nil, lemma_filter_step, prefix_sum, DocRow, IngestStats,
};
use crate::text::str_eq;

verus! {

/// A changed document waiting to be embedded and upserted.
#[derive(Debug)]
pub struct PendingDoc {
    pub source: String,
    pub path: String,
    pub mtime: i64,
    pub hash: String,
    /// How many chunks its cleaned text was cut into.
    pub chunks: usize,
    /// Stored before this run (an update, not an addition).
    pub existed: bool,
}

/// Where a run is.
#[derive(Debug, Clone, Copy, PartialEq, Eq, Structural)]
pub enum IngestPhase {
    /// Waiting for the scan of source `src`.
    Scan,
    /// Waiting for the modification time of file `file`.
    Stat,
    /// Waiting for the read of file `file`.
    Read,
    /// Waiting for the embeddings of every queued chunk.
    Embed,
    /// Finished.
    Done,
    /// Stopped by a failed embedding call.
    Failed,
}

/// The state of a run.
#[derive(Debug)]
pub struct IngestState {
    /// The sources to ingest, in configuration order.
    pub sources: Vec<String>,
    /// The source in progress.
    pub src: usize,
    /// Its scanned files.
    pub files: Vec<String>,
    /// Its documents as stored before this run.
    pub stored: Vec<DocRow>,
    /// The file in progress.
    pub file: usize,
    /// The modification time of the file in progress (nanoseconds).
    pub mtime: i64,
    /// The queued documents, in order.
    pub pending: Vec<PendingDoc>,
    /// The number of queued chunks.
    pub total: usize,
    pub stats: IngestStats,
    pub phase: IngestPhase,
}

/// What the caller learned.
#[derive(Debug)]
pub enum IngestEvent {
    /// The scan of the source in progress: its files, and its documents as
    /// stored.
    Scanned { files: Vec<String>, stored: Vec<DocRow> },
    /// The modification time of the file in progress (0 when unknown).
    Mtime(i64),
    /// The read of the file in progress: the content hash of its cleaned
    /// text and its number of chunks, or why it could not be read.
    Read(Result<(String, usize), String>),
    /// The embedding of every queued chunk, in one flat batch.
    Embedded(Result<(), String>),
}

/// What the caller does next, in order.
#[derive(Debug)]
pub enum IngestAction {
    /// Scan this source and list its stored documents.
    Scan(String),
    /// Remove these stored documents of this source.
    Remove { source: String, paths: Vec<String> },
    /// Read the modification time of this file.
    Stat(String),
    /// Read this file, clean it, hash it and chunk it.
    Read(String),
    /// Record a new modification time for an unchanged document.
    Touch { source: String, path: String, mtime: i64 },
    /// Embed the queued chunks, this many, as one flat batch.
    Embed(usize),
    /// Make sure the vector index exists for the batch's dimension.
    EnsureVec,
    /// Upsert queued document `doc` with the embeddings `start..end` of the
    /// batch.
    Upsert { doc: usize, start: usize, end: usize },
    /// Close the store: the run is over.
    Finish,
    /// The run failed with this message.
    Fail(String),
}

/// The chunk counts of queued documents.
pub open spec fn chunk_counts(p: Seq<PendingDoc>) -> Seq<usize> {
    p.map_values(|d: PendingDoc| d.chunks)
}

/// How many queued documents were stored before.
pub open spec fn existed_count(p: Seq<PendingDoc>) -> nat
    decreases p.len(),
{
    if p.len() == 0 {
        0
    } else {
        existed_count(p.drop_last()) + if p.last().existed {
            1nat
        } else {
            0nat
        }
    }
}

/// The first stored document with this path.
pub open spec fn stored_doc(stored: Seq<DocRow>, path: Seq<char>) -> Option<DocRow>
    decreases stored.len(),
{
    if stored.len() == 0 {
        None
    } else {
        match stored_doc(stored.drop_last(), path) {
            Some(d) => Some(d),
            None => if stored.last().path@ == path {
                Some(stored.last())
            } else {
                None
            },
        }
    }
}

/// The paths of stored documents that were not scanned again: those to
/// remove, in stored order.
pub open spec fn gone_paths(stored: Seq<DocRow>, files: Seq<String>) -> Seq<Seq<char>> {
    stored.map_values(|d: DocRow| d.path@).filter(
        |p: Seq<char>| !files.map_values(|f: String| f@).contains(p),
    )
}

/// The scanned files still to be finished in the source in progress.
pub open spec fn in_progress(s: IngestState) -> int {
    if s.phase is Stat || s.phase is Read {
        s.files.len() - s.file
    } else {
        0
    }
}

/// The queued documents not yet counted as added or updated.
pub open spec fn queued(s: IngestState) -> int {
    if s.phase is Done {
        0
    } else {
        s.pending.len() as int
    }
}

/// A run's invariant: positions in range, the chunk total is the sum of the
/// queued counts, and every scanned file is counted exactly once, as added,
/// updated, skipped, failed, queued or still in progress.
pub open spec fn wf(s: IngestState) -> bool {
    &&& s.src <= s.sources.len()
    &&& (s.phase is Scan ==> s.src < s.sources.len())
    &&& (s.phase is Stat || s.phase is Read ==> s.src < s.sources.len() && s.file < s.files.len())
    &&& (s.phase is Embed ==> s.pending.len() > 0)
    &&& s.total == prefix_sum(chunk_counts(s.pending@), s.pending.len() as int)
    &&& s.stats.scanned == s.stats.added + s.stats.updated + s.stats.skipped + s.stats.failed + queued(s)
        + in_progress(s)
}

/// Whether every counter the event moves stays within `usize`.
pub open spec fn fits(s: IngestState, ev: IngestEvent) -> bool {
    match ev {
        IngestEvent::Scanned { files, stored } => s.stats.scanned + files.len() <= usize::MAX
            && s.stats.removed + stored.len() <= usize::MAX,
        IngestEvent::Mtime(_) => s.stats.skipped < usize::MAX,
        IngestEvent::Read(r) => s.stats.failed < usize::MAX && s.stats.skipped < usize::MAX && match r {
            Ok((_, n)) => s.total + n <= usize::MAX,
            Err(_) => true,
        },
        IngestEvent::Embedded(_) => s.stats.chunks + s.total <= usize::MAX && s.stats.added
            + s.pending.len() <= usize::MAX && s.stats.updated + s.pending.len() <= usize::MAX,
    }
}

/// Whether `t` and `a` leave source `src`: the next source is scanned; after
/// the last one the queued chunks are embedded, or the run finishes when
/// nothing is queued.
pub open spec fn leave_source(
    sources: Seq<String>,
    src: int,
    stats: IngestStats,
    pending: Seq<PendingDoc>,
    total: usize,
    mtime: i64,
    t: IngestState,
    a: Seq<IngestAction>,
) -> bool {
    &&& t.sources@ == sources && t.src == src + 1 && t.files@.len() == 0 && t.stored@.len() == 0
    &&& t.file == 0 && t.mtime == mtime
    &&& t.pending@ == pending && t.total == total && t.stats == stats
    &&& if src + 1 < sources.len() {
        t.phase == IngestPhase::Scan && a.len() == 1 && (a[0] matches IngestAction::Scan(n) && n@
            == sources[src + 1]@)
    } else if pending.len() > 0 {
        t.phase == IngestPhase::Embed && a.len() == 1 && (a[0] matches IngestAction::Embed(k) && k
            == total)
    } else {
        t.phase == IngestPhase::Done && a.len() == 1 && a[0] is Finish
    }
}

/// Whether `t` and `a` move past the file in progress of `s`: the next
/// file's time is asked for, or the source is left (see [`leave_source`]).
pub open spec fn next_file(
    s: IngestState,
    stats: IngestStats,
    pending: Seq<PendingDoc>,
    total: usize,
    t: IngestState,
    a: Seq<IngestAction>,
) -> bool {
    if s.file + 1 < s.files.len() {
        &&& t.sources == s.sources && t.src == s.src && t.files == s.files && t.stored == s.stored
        &&& t.file == s.file + 1 && t.mtime == s.mtime && t.phase == IngestPhase::Stat
        &&& t.pending@ == pending && t.total == total && t.stats == stats
        &&& a.len() == 1 && (a[0] matches IngestAction::Stat(p) && p@ == s.files@[s.file + 1]@)
    } else {
        leave_source(s.sources@, s.src as int, stats, pending, total, s.mtime, t, a)
    }
}

/// Whether the event finds the input unchanged: nothing stored has gone,
/// the file's time is the stored one, or its content hash is.
pub open spec fn unchanged_event(s: IngestState, ev: IngestEvent) -> bool {
    match ev {
        IngestEvent::Scanned { files, stored } => gone_paths(stored@, files@).len() == 0,
        IngestEvent::Mtime(m) => stored_doc(s.stored@, s.files@[s.file as int]@) matches Some(d)
            && d.mtime == m,
        IngestEvent::Read(Ok((h, _))) => stored_doc(s.stored@, s.files@[s.file as int]@) matches Some(
            d,
        ) && d.content_hash@ == h@,
        _ => false,
    }
}

/// Whether a step on unchanged input kept a run with nothing queued
/// unchanged: still nothing queued, and nothing added, updated, removed,
/// failed or embedded.
pub open spec fn unchanged_ok(s: IngestState, ev: IngestEvent, t: IngestState) -> bool {
    s.pending@.len() == 0 && unchanged_event(s, ev) ==> {
        &&& t.pending@.len() == 0
        &&& t.stats.added == s.stats.added
        &&& t.stats.updated == s.stats.updated
        &&& t.stats.removed == s.stats.removed
        &&& t.stats.failed == s.stats.failed
        &&& t.stats.chunks == s.stats.chunks
    }
}

/// A second run over unchanged input: a run that starts with nothing
/// counted and nothing queued, whose every event finds the input unchanged
/// (nothing stored has gone, every file's time or content hash is the
/// stored one), adds, updates, removes, fails and embeds nothing; when it
/// finishes, every scanned file was skipped.
pub proof fn lemma_unchanged_run(states: Seq<IngestState>, events: Seq<IngestEvent>)
    requires
        states.len() == events.len() + 1,
        states[0].pending@.len() == 0,
        states[0].stats.added == 0 && states[0].stats.updated == 0 && states[0].stats.removed == 0,
        states[0].stats.failed == 0 && states[0].stats.chunks == 0,
        forall|i: int| 0 <= i < states.len() ==> wf(#[trigger] states[i]),
        forall|i: int| 0 <= i < events.len() ==> #[trigger] unchanged_event(states[i], events[i]),
        forall|i: int| 0 <= i < events.len() ==> unchanged_ok(states[i], events[i], #[trigger] states[i + 1]),
    ensures
        ({
            let last = states.last();
            &&& last.pending@.len() == 0
            &&& last.stats.added == 0 && last.stats.updated == 0 && last.stats.removed == 0
            &&& last.stats.failed == 0 && last.stats.chunks == 0
            &&& last.phase is Done ==> last.stats.skipped == last.stats.scanned
        }),
    decreases events.len(),
{
    if events.len() > 0 {
        let n = events.len() as int;
        let ps = states.drop_last();
        let pe = events.drop_last();
        assert forall|i: int| 0 <= i < ps.len() implies wf(#[trigger] ps[i]) by {
            assert(ps[i] == states[i]);
        }
        assert forall|i: int| 0 <= i < pe.len() implies #[trigger] unchanged_event(ps[i], pe[i]) by {
            assert(ps[i] == states[i] && pe[i] == events[i]);
        }
        assert forall|i: int| 0 <= i < pe.len() implies unchanged_ok(ps[i], pe[i], #[trigger] ps[i + 1]) by {
            assert(ps[i] == states[i] && pe[i] == events[i] && ps[i + 1] == states[i + 1]);
            assert(unchanged_ok(states[i], events[i], states[i + 1]));
        }
        lemma_unchanged_run(ps, pe);
        assert(ps.last() == states[n - 1]);
        let j = n - 1;
        assert(unchanged_event(states[j], events[j]));
        assert(unchanged_ok(states[j], events[j], states[j + 1]));
        assert(states[j + 1] == states.last());
    }
}

/// Whether the counters stay within `usize` under the event (see
/// [`fits`]); a caller checks it before each step.
pub fn ingest_fits(s: &IngestState, ev: &IngestEvent) -> (r: bool)
    ensures
        r == fits(*s, *ev),
{
    match ev {
        IngestEvent::Scanned { files, stored } => files.len() <= usize::MAX - s.stats.scanned
            && stored.len() <= usize::MAX - s.stats.removed,
        IngestEvent::Mtime(_) => s.stats.skipped < usize::MAX,
        IngestEvent::Read(r) => s.stats.failed < usize::MAX && s.stats.skipped < usize::MAX && match r {
            Ok((_, n)) => *n <= usize::MAX - s.total,
            Err(_) => true,
        },
        IngestEvent::Embedded(_) => s.total <= usize::MAX - s.stats.chunks && s.pending.len()
            <= usize::MAX - s.stats.added && s.pending.len() <= usize::MAX - s.stats.updated,
    }
}

fn leave(
    sources: Vec<String>,
    src: usize,
    stats: IngestStats,
    pending: Vec<PendingDoc>,
    total: usize,
    mtime: i64,
    a: &mut Vec<IngestAction>,
) -> (t: IngestState)
    requires
        src < sources.len(),
    ensures
        leave_source(
            sources@,
            src as int,
            stats,
            pending@,
            total,
            mtime,
            t,
            final(a)@.subrange(old(a)@.len() as int, final(a)@.len() as int),
        ),
        final(a)@.len() >= old(a)@.len(),
        final(a)@.subrange(0, old(a)@.len() as int) == old(a)@,
{
    let ghost a0 = a@;
    let next = src + 1;
    let phase = if next < sources.len() {
        a.push(IngestAction::Scan(sources[next].clone()));
        IngestPhase::Scan
    } else if pending.len() > 0 {
        a.push(IngestAction::Embed(total));
        IngestPhase::Embed
    } else {
        a.push(IngestAction::Finish);
        IngestPhase::Done
    };
    assert(a@.subrange(0, a0.len() as int) =~= a0);
    IngestState {
        sources,
        src: next,
        files: Vec::new(),
        stored: Vec::new(),
        file: 0,
        mtime,
        pending,
        total,
        stats,
        phase,
    }
}

fn advance(s: IngestState, stats: IngestStats, pending: Vec<PendingDoc>, total: usize, a: &mut Vec<
    IngestAction,
>) -> (t: IngestState)
    requires
        s.src < s.sources.len(),
        s.file < s.files.len(),
    ensures
        next_file(s, stats, pending@, total, t, final(a)@.subrange(old(a)@.len() as int, final(a)@.len() as int)),
        final(a)@.len() >= old(a)@.len(),
        final(a)@.subrange(0, old(a)@.len() as int) == old(a)@,
{
    let ghost a0 = a@;
    if s.file + 1 < s.files.len() {
        a.push(IngestAction::Stat(s.files[s.file + 1].clone()));
        assert(a@.subrange(0, a0.len() as int) =~= a0);
        IngestState {
            sources: s.sources,
            src: s.src,
            files: s.files,
            stored: s.stored,
            file: s.file + 1,
            mtime: s.mtime,
            pending,
            total,
            stats,
            phase: IngestPhase::Stat,
        }
    } else {
        leave(s.sources, s.src, stats, pending, total, s.mtime, a)
    }
}

fn find_doc(stored: &Vec<DocRow>, path: &str) -> (r: Option<usize>)
    ensures
        match stored_doc(stored@, path@) {
            Some(d) => r matches Some(i) && i < stored.len() && stored@[i as int] == d,
            None => r is None,
        },
{
    let mut i: usize = 0;
    while i < stored.len()
        invariant
            0 <= i <= stored.len(),
            stored_doc(stored@.take(i as int), path@) is None,
        decreases stored.len() - i,
    {
        assert(stored@.take(i + 1).drop_last() =~= stored@.take(i as int));
        if str_eq(stored[i].path.as_str(), path) {
            proof {
                lemma_stored_doc_prefix(stored@, i + 1, path@);
            }
            return Some(i);
        }
        i = i + 1;
    }
    assert(stored@.take(stored.len() as int) =~= stored@);
    None
}

/// A document found among the first `n` stored ones is the one found among
/// all of them.
proof fn lemma_stored_doc_prefix(stored: Seq<DocRow>, n: int, p: Seq<char>)
    requires
        0 <= n <= stored.len(),
        stored_doc(stored.take(n), p) is Some,
    ensures
        stored_doc(stored, p) == stored_doc(stored.take(n), p),
    decreases stored.len() - n,
{
    if n < stored.len() {
        assert(stored.take(n + 1).drop_last() =~= stored.take(n));
        lemma_stored_doc_prefix(stored, n + 1, p);
    } else {
        assert(stored.take(n) =~= stored);
    }
}

fn existed_total(p: &Vec<PendingDoc>) -> (r: usize)
    ensures
        r == existed_count(p@),
        r <= p.len(),
{
    let mut k: usize = 0;
    let mut i: usize = 0;
    while i < p.len()
        invariant
            0 <= i <= p.len(),
            k == existed_count(p@.take(i as int)),
            k <= i,
        decreases p.len() - i,
    {
        assert(p@.take(i + 1).drop_last() =~= p@.take(i as int));
        if p[i].existed {
            k = k + 1;
        }
        i = i + 1;
    }
    assert(p@.take(p.len() as int) =~= p@);
    k
}

fn gone(stored: &Vec<DocRow>, files: &Vec<String>) -> (r: Vec<String>)
    ensures
        r@.map_values(|x: String| x@) == gone_paths(stored@, files@),
        r.len() <= stored.len(),
{
    let ghost fv = files@.map_values(|f: String| f@);
    let ghost sv = stored@.map_values(|d: DocRow| d.path@);
    let ghost f = |p: Seq<char>| !fv.contains(p);
    let mut out: Vec<String> = Vec::new();
    let mut i: usize = 0;
    proof {
        lemma_filter_nil(sv.take(0), f);
    }
    assert(out@.map_values(|x: String| x@) =~= sv.take(0).filter(f));
    while i < stored.len()
        invariant
            fv == files@.map_values(|f: String| f@),
            sv == stored@.map_values(|d: DocRow| d.path@),
            f == (|p: Seq<char>| !fv.contains(p)),
            0 <= i <= stored.len(),
            out@.map_values(|x: String| x@) == sv.take(i as int).filter(f),
            out.len() <= i,
        decreases stored.len() - i,
    {
        proof {
            lemma_filter_step(sv.take(i as int), f, sv[i as int]);
            assert(sv.take(i + 1) =~= sv.take(i as int).push(sv[i as int]));
        }
        let mut found = false;
        let mut j: usize = 0;
        while j < files.len()
            invariant
                fv == files@.map_values(|f: String| f@),
                sv == stored@.map_values(|d: DocRow| d.path@),
                0 <= j <= files.len(),
                i < stored.len(),
                found == exists|k: int| 0 <= k < j && fv[k] == sv[i as int],
            decreases files.len() - j,
        {
            assert(fv[j as int] == files@[j as int]@);
            assert(sv[i as int] == stored@[i as int].path@);
            if str_eq(files[j].as_str(), stored[i].path.as_str()) {
                found = true;
            }
            assert(found == exists|k: int| 0 <= k < j + 1 && fv[k] == sv[i as int]) by {
                if exists|k: int| 0 <= k < j + 1 && fv[k] == sv[i as int] {
                    let k = choose|k: int| 0 <= k < j + 1 && fv[k] == sv[i as int];
                    if k < j {
                    }
                }
            }
            j = j + 1;
        }
        assert(found == fv.contains(sv[i as int]));
        if !found {
            let ghost before = out@;
            out.push(stored[i].path.clone());
            assert(out@.map_values(|x: String| x@) =~= before.map_values(|x: String| x@).push(
                sv[i as int],
            ));
        }
        i = i + 1;
    }
    assert(sv.take(stored.len() as int) =~= sv);
    out
}

/// Start a run over the configured source names, keeping only `only` when
/// it is given: the first selected source is scanned, or the run finishes
/// at once when none is selected.
pub fn ingest_start(names: Vec<String>, only: Option<&str>) -> (r: (IngestState, Vec<IngestAction>))
    ensures
        r.0.sources@.map_values(|x: String| x@) == names@.map_values(|x: String| x@).filter(
            |n: Seq<char>|
                match only {
                    Some(o) => n == o@,
                    None => true,
                },
        ),
        r.0.src == 0 && r.0.file == 0 && r.0.files@.len() == 0 && r.0.stored@.len() == 0,
        r.0.pending@.len() == 0 && r.0.total == 0 && r.0.mtime == 0,
        r.0.stats == (IngestStats {
            scanned: 0,
            added: 0,
            updated: 0,
            removed: 0,
            skipped: 0,
            failed: 0,
            chunks: 0,
        }),
        if r.0.sources.len() > 0 {
            r.0.phase == IngestPhase::Scan && r.1@.len() == 1 && (r.1@[0] matches IngestAction::Scan(n)
                && n@ == r.0.sources@[0]@)
        } else {
            r.0.phase == IngestPhase::Done && r.1@.len() == 1 && r.1@[0] is Finish
        },
        wf(r.0),
{
    let ghost nv = names@.map_values(|x: String| x@);
    let ghost f = |n: Seq<char>|
        match only {
            Some(o) => n == o@,
            None => true,
        };
    let mut sources: Vec<String> = Vec::new();
    let mut i: usize = 0;
    proof {
        lemma_filter_nil(nv.take(0), f);
    }
    assert(sources@.map_values(|x: String| x@) =~= nv.take(0).filter(f));
    while i < names.len()
        invariant
            nv == names@.map_values(|x: String| x@),
            f == (|n: Seq<char>|
                match only {
                    Some(o) => n == o@,
                    None => true,
                }),
            0 <= i <= names.len(),
            sources@.map_values(|x: String| x@) == nv.take(i as int).filter(f),
        decreases names.len() - i,
    {
        proof {
            lemma_filter_step(nv.take(i as int), f, nv[i as int]);
            assert(nv.take(i + 1) =~= nv.take(i as int).push(nv[i as int]));
        }
        let selected = match only {
            Some(o) => str_eq(o, names[i].as_str()),
            None => true,
        };
        if selected {
            let ghost before = sources@;
            sources.push(names[i].clone());
            assert(sources@.map_values(|x: String| x@) =~= before.map_values(|x: String| x@).push(
                nv[i as int],
            ));
        }
        i = i + 1;
    }
    assert(nv.take(names.len() as int) =~= nv);
    let mut a: Vec<IngestAction> = Vec::new();
    let phase = if sources.len() > 0 {
        a.push(IngestAction::Scan(sources[0].clone()));
        IngestPhase::Scan
    } else {
        a.push(IngestAction::Finish);
        IngestPhase::Done
    };
    let s = IngestState {
        sources,
        src: 0,
        files: Vec::new(),
        stored: Vec::new(),
        file: 0,
        mtime: 0,
        pending: Vec::new(),
        total: 0,
        stats: IngestStats::new(),
        phase,
    };
    (s, a)
}

/// One step of a run (see the module's header): the next state and the
/// actions to perform, in order. An event the phase does not wait for
/// changes nothing.
#[verifier::rlimit(50)]
pub fn ingest_step(s: IngestState, ev: IngestEvent) -> (r: (IngestState, Vec<IngestAction>))
    requires
        wf(s),
        fits(s, ev),
    ensures
        wf(r.0),
        match (s.phase, ev) {
            (IngestPhase::Scan, IngestEvent::Scanned { files, stored }) => {
                let st = IngestStats {
                    scanned: (s.stats.scanned + files.len()) as usize,
                    removed: (s.stats.removed + gone_paths(stored@, files@).len()) as usize,
                    ..s.stats
                };
                &&& r.1@.len() >= 1
                &&& r.1@[0] matches IngestAction::Remove { source, paths } && source@
                    == s.sources@[s.src as int]@ && paths@.map_values(|x: String| x@) == gone_paths(
                    stored@,
                    files@,
                )
                &&& if files.len() > 0 {
                    &&& r.0.sources == s.sources && r.0.src == s.src && r.0.files == files
                    &&& r.0.stored == stored && r.0.file == 0 && r.0.mtime == s.mtime
                    &&& r.0.phase == IngestPhase::Stat && r.0.pending == s.pending && r.0.total
                        == s.total && r.0.stats == st
                    &&& r.1@.len() == 2 && (r.1@[1] matches IngestAction::Stat(p) && p@ == files@[0]@)
                } else {
                    leave_source(
                        s.sources@,
                        s.src as int,
                        st,
                        s.pending@,
                        s.total,
                        s.mtime,
                        r.0,
                        r.1@.skip(1),
                    )
                }
            },
            (IngestPhase::Stat, IngestEvent::Mtime(m)) => {
                let path = s.files@[s.file as int];
                match stored_doc(s.stored@, path@) {
                    Some(d) if d.mtime == m => next_file(
                        s,
                        IngestStats { skipped: (s.stats.skipped + 1) as usize, ..s.stats },
                        s.pending@,
                        s.total,
                        r.0,
                        r.1@,
                    ),
                    _ => {
                        &&& r.0.sources == s.sources && r.0.src == s.src && r.0.files == s.files
                        &&& r.0.stored == s.stored && r.0.file == s.file && r.0.mtime == m
                        &&& r.0.phase == IngestPhase::Read && r.0.pending == s.pending && r.0.total
                            == s.total && r.0.stats == s.stats
                        &&& r.1@.len() == 1 && (r.1@[0] matches IngestAction::Read(p) && p@ == path@)
                    },
                }
            },
            (IngestPhase::Read, IngestEvent::Read(Err(_))) => next_file(
                s,
                IngestStats { failed: (s.stats.failed + 1) as usize, ..s.stats },
                s.pending@,
                s.total,
                r.0,
                r.1@,
            ),
            (IngestPhase::Read, IngestEvent::Read(Ok((h, n)))) => {
                let path = s.files@[s.file as int];
                let prev = stored_doc(s.stored@, path@);
                if prev matches Some(d) && d.content_hash@ == h@ {
                    &&& r.1@.len() >= 1
                    &&& r.1@[0] matches IngestAction::Touch { source, path: p, mtime } && source@
                        == s.sources@[s.src as int]@ && p@ == path@ && mtime == s.mtime
                    &&& next_file(
                        s,
                        IngestStats { skipped: (s.stats.skipped + 1) as usize, ..s.stats },
                        s.pending@,
                        s.total,
                        r.0,
                        r.1@.skip(1),
                    )
                } else {
                    &&& r.0.pending@.len() == s.pending.len() + 1
                    &&& r.0.pending@.take(s.pending.len() as int) == s.pending@
                    &&& ({
                        let q = r.0.pending@[s.pending.len() as int];
                        &&& q.source@ == s.sources@[s.src as int]@ && q.path@ == path@
                        &&& q.mtime == s.mtime && q.hash@ == h@ && q.chunks == n
                        &&& q.existed == prev is Some
                    })
                    &&& next_file(s, s.stats, r.0.pending@, (s.total + n) as usize, r.0, r.1@)
                }
            },
            (IngestPhase::Embed, IngestEvent::Embedded(Err(e))) => {
                &&& r.0.sources == s.sources && r.0.src == s.src && r.0.files == s.files
                &&& r.0.stored == s.stored && r.0.file == s.file && r.0.mtime == s.mtime
                &&& r.0.pending == s.pending && r.0.total == s.total && r.0.stats == s.stats
                &&& r.0.phase == IngestPhase::Failed
                &&& r.1@.len() == 1 && (r.1@[0] matches IngestAction::Fail(m) && m@
                    == "embedding 调用失败: "@ + e@)
            },
            (IngestPhase::Embed, IngestEvent::Embedded(Ok(()))) => {
                let k = s.pending.len() as int;
                let off: int = if s.total > 0 {
                    1
                } else {
                    0
                };
                &&& r.0.sources == s.sources && r.0.src == s.src && r.0.files == s.files
                &&& r.0.stored == s.stored && r.0.file == s.file && r.0.mtime == s.mtime
                &&& r.0.pending == s.pending && r.0.total == s.total
                &&& r.0.stats == IngestStats {
                    chunks: (s.stats.chunks + s.total) as usize,
                    updated: (s.stats.updated + existed_count(s.pending@)) as usize,
                    added: (s.stats.added + k - existed_count(s.pending@)) as usize,
                    ..s.stats
                }
                &&& r.0.phase == IngestPhase::Done
                &&& r.1@.len() == off + k + 1
                &&& (s.total > 0 ==> r.1@[0] is EnsureVec)
                &&& forall|i: int|
                    0 <= i < k ==> (#[trigger] r.1@[off + i] matches IngestAction::Upsert { doc, start, end }
                        && doc == i && start == prefix_sum(chunk_counts(s.pending@), i) && end
                        == prefix_sum(chunk_counts(s.pending@), i + 1))
                &&& r.1@[off + k] is Finish
            },
            _ => r.0 == s && r.1@.len() == 0,
        },
        unchanged_ok(s, ev, r.0),
{
    let mut a: Vec<IngestAction> = Vec::new();
    match (s.phase, ev) {
        (IngestPhase::Scan, IngestEvent::Scanned { files, stored }) => {
            let paths = gone(&stored, &files);
            let mut st = s.stats;
            st.scanned = st.scanned + files.len();
            st.removed = st.removed + paths.len();
            a.push(IngestAction::Remove { source: s.sources[s.src].clone(), paths });
            if files.len() > 0 {
                a.push(IngestAction::Stat(files[0].clone()));
                let t = IngestState {
                    sources: s.sources,
                    src: s.src,
                    files,
                    stored,
                    file: 0,
                    mtime: s.mtime,
                    pending: s.pending,
                    total: s.total,
                    stats: st,
                    phase: IngestPhase::Stat,
                };
                (t, a)
            } else {
                let ghost a1 = a@;
                let t = leave(s.sources, s.src, st, s.pending, s.total, s.mtime, &mut a);
                assert(a@.skip(1) =~= a@.subrange(a1.len() as int, a@.len() as int));
                assert(a@[0] == a1[0]) by {
                    assert(a@.subrange(0, a1.len() as int)[0] == a@[0]);
                }
                (t, a)
            }
        },
        (IngestPhase::Stat, IngestEvent::Mtime(m)) => {
            let found = find_doc(&s.stored, s.files[s.file].as_str());
            let same = match found {
                Some(i) => s.stored[i].mtime == m,
                None => false,
            };
            if same {
                let mut st = s.stats;
                st.skipped = st.skipped + 1;
                let pending = s.pending;
                let total = s.total;
                let ghost a0 = a@;
                let t = advance(
                    IngestState { pending: Vec::new(), ..s },
                    st,
                    pending,
                    total,
                    &mut a,
                );
                assert(a@ =~= a@.subrange(a0.len() as int, a@.len() as int));
                (t, a)
            } else {
                a.push(IngestAction::Read(s.files[s.file].clone()));
                (IngestState { mtime: m, phase: IngestPhase::Read, ..s }, a)
            }
        },
        (IngestPhase::Read, IngestEvent::Read(Err(_))) => {
            let mut st = s.stats;
            st.failed = st.failed + 1;
            let pending = s.pending;
            let total = s.total;
            let t = advance(IngestState { pending: Vec::new(), ..s }, st, pending, total, &mut a);
            assert(a@ =~= a@.subrange(0, a@.len() as int));
            (t, a)
        },
        (IngestPhase::Read, IngestEvent::Read(Ok((h, n)))) => {
            let found = find_doc(&s.stored, s.files[s.file].as_str());
            let same = match found {
                Some(i) => str_eq(s.stored[i].content_hash.as_str(), h.as_str()),
                None => false,
            };
            if same {
                a.push(
                    IngestAction::Touch {
                        source: s.sources[s.src].clone(),
                        path: s.files[s.file].clone(),
                        mtime: s.mtime,
                    },
                );
                let mut st = s.stats;
                st.skipped = st.skipped + 1;
                let pending = s.pending;
                let total = s.total;
                let ghost a1 = a@;
                let t = advance(IngestState { pending: Vec::new(), ..s }, st, pending, total, &mut a);
                assert(a@.skip(1) =~= a@.subrange(a1.len() as int, a@.len() as int));
                assert(a@[0] == a1[0]) by {
                    assert(a@.subrange(0, a1.len() as int)[0] == a@[0]);
                }
                (t, a)
            } else {
                let mut pending = s.pending;
                let ghost p0 = pending@;
                pending.push(
                    PendingDoc {
                        source: s.sources[s.src].clone(),
                        path: s.files[s.file].clone(),
                        mtime: s.mtime,
                        hash: h,
                        chunks: n,
                        existed: found.is_some(),
                    },
                );
                proof {
                    assert(pending@.take(p0.len() as int) =~= p0);
                    lemma_prefix_sum_prefix(chunk_counts(pending@), chunk_counts(p0), p0.len() as int);
                }
                let total = s.total + n;
                let t = advance(IngestState { pending: Vec::new(), ..s }, s.stats, pending, total, &mut a);
                assert(a@ =~= a@.subrange(0, a@.len() as int));
                (t, a)
            }
        },
        (IngestPhase::Embed, IngestEvent::Embedded(Err(e))) => {
            let mut m = "embedding 调用失败: ".to_owned();
            m.append(e.as_str());
            a.push(IngestAction::Fail(m));
            (IngestState { phase: IngestPhase::Failed, ..s }, a)
        },
        (IngestPhase::Embed, IngestEvent::Embedded(Ok(()))) => {
            let ghost counts = chunk_counts(s.pending@);
            let mut counts_v: Vec<usize> = Vec::new();
            let mut i: usize = 0;
            while i < s.pending.len()
                invariant
                    counts == chunk_counts(s.pending@),
                    0 <= i <= s.pending.len(),
                    counts_v@ == counts.take(i as int),
                decreases s.pending.len() - i,
            {
                counts_v.push(s.pending[i].chunks);
                assert(counts_v@ =~= counts.take(i + 1));
                i = i + 1;
            }
            assert(counts_v@ =~= counts);
            let slices = embedding_slices(&counts_v);
            let off: usize = if s.total > 0 {
                a.push(IngestAction::EnsureVec);
                1
            } else {
                0
            };
            let mut j: usize = 0;
            while j < slices.len()
                invariant
                    counts == chunk_counts(s.pending@),
                    slices.len() == s.pending.len(),
                    forall|x: int|
                        0 <= x < slices.len() ==> (#[trigger] slices@[x]).0 == prefix_sum(counts_v@, x)
                            && slices@[x].1 == prefix_sum(counts_v@, x + 1),
                    counts_v@ == counts,
                    off == (if s.total > 0 {
                        1usize
                    } else {
                        0usize
                    }),
                    0 <= j <= slices.len(),
                    a.len() == off + j,
                    s.total > 0 ==> a@[0] is EnsureVec,
                    forall|x: int|
                        0 <= x < j ==> (#[trigger] a@[off + x] matches IngestAction::Upsert { doc, start, end }
                            && doc == x && start == prefix_sum(counts, x) && end == prefix_sum(counts, x + 1)),
                decreases slices.len() - j,
            {
                let (st, en) = slices[j];
                a.push(IngestAction::Upsert { doc: j, start: st, end: en });
                j = j + 1;
            }
            a.push(IngestAction::Finish);
            let ex = existed_total(&s.pending);
            let mut stats = s.stats;
            stats.chunks = stats.chunks + s.total;
            stats.updated = stats.updated + ex;
            stats.added = stats.added + (s.pending.len() - ex);
            (IngestState { stats, phase: IngestPhase::Done, ..s }, a)
        },
        (phase, ev) => {
            (IngestState { phase, ..s }, a)
        },
    }
}

/// Sequences that agree below `n` have the same sum below `n`.
proof fn lemma_prefix_sum_prefix(a: Seq<usize>, b: Seq<usize>, n: int)
    requires
        0 <= n <= a.len(),
        n <= b.len(),
        forall|i: int| 0 <= i < n ==> a[i] == b[i],
    ensures
        prefix_sum(a, n) == prefix_sum(b, n),
    decreases n,
{
    if n > 0 {
        lemma_prefix_sum_prefix(a, b, n - 1);
    }
}

/// A finished run counted every scanned file once: as added, updated,
/// skipped or failed.
pub proof fn lemma_finished_run_accounts(s: IngestState)
    requires
        wf(s),
        s.phase is Done,
    ensures
        s.stats.scanned == s.stats.added + s.stats.updated + s.stats.skipped + s.stats.failed,
{
}

} // verus!
