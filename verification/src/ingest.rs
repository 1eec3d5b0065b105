//! The retrieval index's ingest decisions: which documents changed, what
//! a document's content hash is, which stored documents are gone, how a
//! flat batch of embeddings is handed back to its documents, and the
//! store's file layout.
//!
//! Scanning directories, reading files, calling the embedding service and
//! writing the store are the caller's.

use vstd::prelude::*;
use sha2::Digest;
use crate::decimal::{dec, digit_char, digit_of, u64_to_decimal};
use vstd::string::StringSliceAdditionalSpecFns;
use crate::name_map::NameMap;
use crate::paths::push_char;
use crate::rag_config::{RagConfig, SourceConfig};
use crate::text::{chars_of, str_eq, string_of};

verus! {

/// Counters of one ingest run.
#[derive(Debug, Clone, Copy, PartialEq, Eq, Structural)]
pub struct IngestStats {
    pub scanned: usize,
    pub added: usize,
    pub updated: usize,
    pub removed: usize,
    pub skipped: usize,
    pub failed: usize,
    pub chunks: usize,
}

impl IngestStats {
    /// All counters at zero.
    pub fn new() -> (r: Self)
        ensures
            r == (IngestStats {
                scanned: 0,
                added: 0,
                updated: 0,
                removed: 0,
                skipped: 0,
                failed: 0,
                chunks: 0,
            }),
    {
        IngestStats { scanned: 0, added: 0, updated: 0, removed: 0, skipped: 0, failed: 0, chunks: 0 }
    }

    /// Count an upserted document of `n` chunks: updated when it existed,
    /// added otherwise.
    pub fn record_upsert(&mut self, existed: bool, n: usize)
        requires
            old(self).chunks + n <= usize::MAX,
            old(self).added < usize::MAX,
            old(self).updated < usize::MAX,
        ensures
            final(self).chunks == old(self).chunks + n,
            final(self).updated == old(self).updated + if existed {
                1int
            } else {
                0int
            },
            final(self).added == old(self).added + if existed {
                0int
            } else {
                1int
            },
            final(self).scanned == old(self).scanned,
            final(self).removed == old(self).removed,
            final(self).skipped == old(self).skipped,
            final(self).failed == old(self).failed,
    {
        self.chunks = self.chunks + n;
        if existed {
            self.updated = self.updated + 1;
        } else {
            self.added = self.added + 1;
        }
    }
}

/// Whether an ingest run failed outright: files failed and none was
/// added, updated or skipped.
pub fn failed_outright(s: &IngestStats) -> (r: bool)
    ensures
        r == (s.failed > 0 && s.added as int + s.updated + s.skipped == 0),
{
    s.failed > 0 && s.added == 0 && s.updated == 0 && s.skipped == 0
}

/// The one-line summary of a run.
pub open spec fn stats_text(s: IngestStats) -> Seq<char> {
    "scanned="@ + dec(s.scanned as nat) + " added="@ + dec(s.added as nat) + " updated="@ + dec(
        s.updated as nat,
    ) + " removed="@ + dec(s.removed as nat) + " skipped="@ + dec(s.skipped as nat)
        + " failed="@ + dec(s.failed as nat) + " chunks="@ + dec(s.chunks as nat)
}

/// Render the one-line summary (see [`stats_text`]).
pub fn stats_line(s: &IngestStats) -> (r: String)
    ensures
        r@ == stats_text(*s),
{
    let mut out = "scanned=".to_owned();
    out.append(u64_to_decimal(s.scanned as u64).as_str());
    out.append(" added=");
    out.append(u64_to_decimal(s.added as u64).as_str());
    out.append(" updated=");
    out.append(u64_to_decimal(s.updated as u64).as_str());
    out.append(" removed=");
    out.append(u64_to_decimal(s.removed as u64).as_str());
    out.append(" skipped=");
    out.append(u64_to_decimal(s.skipped as u64).as_str());
    out.append(" failed=");
    out.append(u64_to_decimal(s.failed as u64).as_str());
    out.append(" chunks=");
    out.append(u64_to_decimal(s.chunks as u64).as_str());
    out
}

/// A stored document: its path, modification time (nanoseconds) and
/// content hash.
#[derive(Debug, Clone)]
pub struct DocRow {
    pub path: String,
    pub mtime: i64,
    pub content_hash: String,
}

/// Per-source counts of the store.
#[derive(Debug, Clone)]
pub struct SourceStat {
    pub source: String,
    pub docs: i64,
    pub chunks: i64,
}

/// Whether ingest covers source `name`: every source, or only the one
/// asked for.
pub fn source_selected(only: Option<&str>, name: &str) -> (r: bool)
    ensures
        r == match only {
            Some(o) => o@ == name@,
            None => true,
        },
{
    match only {
        Some(o) => str_eq(o, name),
        None => true,
    }
}

/// What ingest does with a scanned file.
#[derive(Debug, Clone, Copy, PartialEq, Eq, Structural)]
pub enum FileStep {
    /// Unchanged: skip it.
    Skip,
    /// Same content under a new time: record the new time and skip it.
    Touch,
    /// New or changed: chunk, embed and upsert it.
    Embed { existed: bool },
}

/// The first check: a stored document with the same modification time is
/// skipped without reading the file.
pub fn unchanged_mtime(prev: Option<&DocRow>, mtime: i64) -> (r: bool)
    ensures
        r == match prev {
            Some(d) => d.mtime == mtime,
            None => false,
        },
{
    match prev {
        Some(d) => d.mtime == mtime,
        None => false,
    }
}

/// The second check, on the cleaned content's hash: the same hash only
/// refreshes the stored time; otherwise the document is embedded, as an
/// update when it was stored before.
pub fn step_by_hash(prev: Option<&DocRow>, hash: &str) -> (r: FileStep)
    ensures
        r == match prev {
            Some(d) => if d.content_hash@ == hash@ {
                FileStep::Touch
            } else {
                FileStep::Embed { existed: true }
            },
            None => FileStep::Embed { existed: false },
        },
{
    match prev {
        Some(d) => if str_eq(d.content_hash.as_str(), hash) {
            FileStep::Touch
        } else {
            FileStep::Embed { existed: true }
        },
        None => FileStep::Embed { existed: false },
    }
}

/// The stored documents no longer present among the live paths, in
/// stored order: those to remove.
pub fn missing_docs(stored: &Vec<String>, live: &Vec<String>) -> (r: Vec<String>)
    ensures
        r@.map_values(|s: String| s@) == stored@.map_values(|s: String| s@).filter(
            |p: Seq<char>| !live@.map_values(|s: String| s@).contains(p),
        ),
{
    let ghost lv = live@.map_values(|s: String| s@);
    let ghost f = |p: Seq<char>| !lv.contains(p);
    let ghost sv = stored@.map_values(|s: String| s@);
    let mut out: Vec<String> = Vec::new();
    let mut i: usize = 0;
    proof {
        lemma_filter_nil(sv.take(0), f);
    }
    assert(out@.map_values(|s: String| s@) =~= sv.take(0).filter(f));
    while i < stored.len()
        invariant
            lv == live@.map_values(|s: String| s@),
            sv == stored@.map_values(|s: String| s@),
            f == (|p: Seq<char>| !lv.contains(p)),
            0 <= i <= stored.len(),
            out@.map_values(|s: String| s@) == sv.take(i as int).filter(f),
        decreases stored.len() - i,
    {
        let ghost t = sv.take(i + 1);
        assert(t.drop_last() =~= sv.take(i as int));
        proof {
            lemma_filter_step(sv.take(i as int), f, t.last());
            assert(t =~= sv.take(i as int).push(t.last()));
        }
        let mut found = false;
        let mut j: usize = 0;
        while j < live.len()
            invariant
                lv == live@.map_values(|s: String| s@),
                0 <= j <= live.len(),
                i < stored.len(),
                found == exists|k: int| 0 <= k < j && lv[k] == stored@[i as int]@,
            decreases live.len() - j,
        {
            assert(lv[j as int] == live@[j as int]@);
            if str_eq(live[j].as_str(), stored[i].as_str()) {
                found = true;
            }
            assert(found == exists|k: int| 0 <= k < j + 1 && lv[k] == stored@[i as int]@) by {
                if exists|k: int| 0 <= k < j + 1 && lv[k] == stored@[i as int]@ {
                    let k = choose|k: int| 0 <= k < j + 1 && lv[k] == stored@[i as int]@;
                    if k < j {
                    }
                }
            }
            j = j + 1;
        }
        assert(found == lv.contains(t.last()));
        if !found {
            let ghost before = out@;
            out.push(stored[i].clone());
            assert(out@.map_values(|s: String| s@) =~= before.map_values(|s: String| s@).push(t.last()));
        }
        i = i + 1;
    }
    assert(sv.take(stored.len() as int) =~= sv);
    out
}

/// Filtering a sequence extended by one item filters the item last.
pub(crate) proof fn lemma_filter_step<A>(s: Seq<A>, f: spec_fn(A) -> bool, x: A)
    ensures
        s.push(x).filter(f) == if f(x) {
            s.filter(f).push(x)
        } else {
            s.filter(f)
        },
{
    reveal(Seq::filter);
    assert(s.push(x).drop_last() =~= s);
}

/// Filtering an empty sequence gives it back.
pub(crate) proof fn lemma_filter_nil<A>(s: Seq<A>, f: spec_fn(A) -> bool)
    requires
        s.len() == 0,
    ensures
        s.filter(f) == s,
{
    reveal(Seq::filter);
}

/// The sum of `counts[..i]`.
pub open spec fn prefix_sum(counts: Seq<usize>, i: int) -> int
    decreases i,
{
    if i <= 0 {
        0
    } else {
        prefix_sum(counts, i - 1) + counts[i - 1]
    }
}

/// Where each pending document's embeddings lie in the flat batch: the
/// documents' chunks are embedded in one flat list, so document `i` owns
/// `[sum of earlier counts, that plus its own count)`. The slices follow
/// one another and together cover the whole batch.
pub fn embedding_slices(counts: &Vec<usize>) -> (r: Vec<(usize, usize)>)
    requires
        prefix_sum(counts@, counts.len() as int) <= usize::MAX,
    ensures
        r.len() == counts.len(),
        forall|i: int|
            0 <= i < r.len() ==> (#[trigger] r@[i]).0 == prefix_sum(counts@, i) && r@[i].1
                == prefix_sum(counts@, i + 1),
{
    let mut out: Vec<(usize, usize)> = Vec::new();
    let mut cursor: usize = 0;
    let mut i: usize = 0;
    while i < counts.len()
        invariant
            prefix_sum(counts@, counts.len() as int) <= usize::MAX,
            0 <= i <= counts.len(),
            out.len() == i,
            cursor == prefix_sum(counts@, i as int),
            forall|j: int|
                0 <= j < i ==> (#[trigger] out@[j]).0 == prefix_sum(counts@, j) && out@[j].1
                    == prefix_sum(counts@, j + 1),
        decreases counts.len() - i,
    {
        proof {
            lemma_prefix_sum_mono(counts@, i + 1, counts.len() as int);
        }
        let end = cursor + counts[i];
        out.push((cursor, end));
        cursor = end;
        i = i + 1;
    }
    out
}

proof fn lemma_prefix_sum_mono(counts: Seq<usize>, i: int, j: int)
    requires
        0 <= i <= j <= counts.len(),
    ensures
        prefix_sum(counts, i) <= prefix_sum(counts, j),
    decreases j - i,
{
    if i < j {
        lemma_prefix_sum_mono(counts, i, j - 1);
    }
}

/// Embedding slices partition the batch: each starts where the previous
/// ended, the first at 0 and the last at the batch's end.
pub proof fn lemma_slices_partition(counts: Seq<usize>, i: int)
    requires
        0 < i < counts.len(),
    ensures
        prefix_sum(counts, 0) == 0,
        prefix_sum(counts, i) == prefix_sum(counts, i - 1) + counts[i - 1],
        prefix_sum(counts, i) <= prefix_sum(counts, counts.len() as int),
{
    lemma_prefix_sum_mono(counts, i, counts.len() as int);
}

/// `db` with `suffix` appended to its file name.
pub open spec fn sidecar_of(db: Seq<char>, suffix: Seq<char>) -> Seq<char> {
    db + suffix
}

fn sidecar(db: &str, suffix: &str) -> (r: String)
    ensures
        r@ == sidecar_of(db@, suffix@),
{
    let mut s = db.to_owned();
    s.append(suffix);
    s
}

/// The vector shard's directory beside a store file: `{db}.edge`.
pub fn edge_dir(db: &str) -> (r: String)
    ensures
        r@ == db@ + ".edge"@,
{
    sidecar(db, ".edge")
}

/// The files a rebuild deletes: the store file and its `-wal` and `-shm`
/// sidecars (the shard directory goes too, see [`edge_dir`]).
pub fn store_files(db: &str) -> (r: Vec<String>)
    ensures
        r@.len() == 3,
        r@[0]@ == db@,
        r@[1]@ == db@ + "-wal"@,
        r@[2]@ == db@ + "-shm"@,
{
    let mut v: Vec<String> = Vec::new();
    v.push(db.to_owned());
    v.push(sidecar(db, "-wal"));
    v.push(sidecar(db, "-shm"));
    v
}

/// The lowercase hexadecimal digit of `d` (below 16).
pub open spec fn hex_digit(d: nat) -> char {
    if d < 10 {
        digit_char(d)
    } else if d == 10 {
        'a'
    } else if d == 11 {
        'b'
    } else if d == 12 {
        'c'
    } else if d == 13 {
        'd'
    } else if d == 14 {
        'e'
    } else {
        'f'
    }
}

/// Bytes as lowercase hexadecimal, two digits each.
pub open spec fn hex_of(bytes: Seq<u8>) -> Seq<char>
    decreases bytes.len(),
{
    if bytes.len() == 0 {
        Seq::empty()
    } else {
        hex_of(bytes.drop_last()) + seq![
            hex_digit((bytes.last() / 16) as nat),
            hex_digit((bytes.last() % 16) as nat),
        ]
    }
}

fn hex_char(d: u8) -> (c: char)
    requires
        d < 16,
    ensures
        c == hex_digit(d as nat),
{
    if d < 10 {
        digit_of(d as u64)
    } else if d == 10 {
        'a'
    } else if d == 11 {
        'b'
    } else if d == 12 {
        'c'
    } else if d == 13 {
        'd'
    } else if d == 14 {
        'e'
    } else {
        'f'
    }
}

/// Lowercase hexadecimal of `bytes` (see [`hex_of`]).
pub fn hex(bytes: &[u8]) -> (r: String)
    ensures
        r@ == hex_of(bytes@),
        r@.len() == 2 * bytes@.len(),
{
    let mut out = String::new();
    let mut i: usize = 0;
    while i < bytes.len()
        invariant
            0 <= i <= bytes.len(),
            out@ == hex_of(bytes@.take(i as int)),
            out@.len() == 2 * i,
        decreases bytes.len() - i,
    {
        let ghost t = bytes@.take(i + 1);
        assert(t.drop_last() =~= bytes@.take(i as int));
        let b = bytes[i];
        push_char(&mut out, hex_char(b / 16));
        push_char(&mut out, hex_char(b % 16));
        assert(out@ =~= hex_of(t));
        i = i + 1;
    }
    assert(bytes@.take(bytes.len() as int) =~= bytes@);
    out
}

/// The SHA-256 digest of some bytes.
pub uninterp spec fn sha256(data: Seq<u8>) -> Seq<u8>;

/// `sha2::Sha256::digest`: the SHA-256 digest of `data`, 32 bytes (the
/// digest's output size).
#[verifier::external_body]
fn sha256_digest(data: &[u8]) -> (r: Vec<u8>)
    ensures
        r@ == sha256(data@),
        r@.len() == 32,
{
    sha2::Sha256::digest(data).to_vec()
}

/// A document's content hash: the SHA-256 of its cleaned text's UTF-8
/// bytes, in lowercase hexadecimal (64 digits).
pub fn content_hash(cleaned: &str) -> (r: String)
    ensures
        r@ == hex_of(sha256(cleaned.spec_bytes())),
        r@.len() == 64,
{
    let d = sha256_digest(cleaned.as_bytes());
    hex(d.as_slice())
}

/// The part of `path` below `root` as `Path::strip_prefix` computes it
/// (component by component), if `root` is a prefix.
pub uninterp spec fn path_below(path: Seq<char>, root: Seq<char>) -> Option<Seq<char>>;

/// `Path::strip_prefix`, with the remainder as text: std compares whole
/// components; what it returns is left to the name.
#[verifier::external_body]
fn strip_path_prefix(path: &str, root: &str) -> (r: Option<String>)
    ensures
        match path_below(path@, root@) {
            Some(rest) => r matches Some(x) && x@ == rest,
            None => r is None,
        },
{
    std::path::Path::new(path).strip_prefix(root).ok().map(|p| p.to_string_lossy().into_owned())
}

/// The path a search hit is shown under: relative to its source's root
/// when the source is configured and the path lies below it; otherwise as
/// stored.
pub fn hit_path(cfg: &RagConfig, source: &str, path: &str) -> (r: String)
    ensures
        r@ == match cfg.sources.get_spec(source@) {
            Some(src) => match path_below(path@, src.path@) {
                Some(rest) => rest,
                None => path@,
            },
            None => path@,
        },
{
    match cfg.sources.get(source) {
        Some(src) => match strip_path_prefix(path, src.path.as_str()) {
            Some(rest) => rest,
            None => path.to_owned(),
        },
        None => path.to_owned(),
    }
}

} // verus!
