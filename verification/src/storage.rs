//! Append-only JSONL session stores: paths, write payloads and the
//! torn-tail load policy.
//!
//! Layout under the store root: `{session_id}/events.jsonl` (one event per
//! line), the legacy `{session_id}/messages.jsonl`, and the
//! `{session_id}/meta.json` sidecar. Reading and writing the files is the
//! caller's; this module decides what to write, where, and what a buffer
//! read back means.

use vstd::prelude::*;
use vstd::utf8::{encode_scalar, encode_utf8, leading_byte_width_1};
use crate::decimal::{append_decimal, dec};
use crate::paths::{join_path, path_join, push_char};
use crate::session_id::{is_valid_session_id, valid_session_id};
use crate::jsonl::{
    clean_line, jsonl_bytes, lemma_jsonl_bytes_len, lemma_line_units_cover, lemma_line_units_shape,
    lemma_units_batch, lemma_units_end, lemma_units_tail, lemma_ruling_rows, line_units,
    lemma_row_idx_bounds, lemma_row_idx_extend, lemma_row_idx_prefix, lemma_units_bounds, lemma_ruling_kept, lemma_rescan_after_repair, row_idx_upto, split_lines,
    units_of, ruling, ruling_from, jsonl_ruling, DecodeKind, LineDecode, LineUnit,
};

verus! {

/// A store failure.
#[derive(Debug)]
pub enum StorageError {
    /// The session id is not a flat safe identifier.
    InvalidSessionId(String),
    /// A transcript line is damaged (mid-file corruption or an unknown row).
    Transcript(String),
}

impl StorageError {
    /// The human-readable message.
    pub fn message(&self) -> (r: String)
        ensures
            r@ == match self {
                StorageError::InvalidSessionId(id) => "invalid session id: "@ + id@,
                StorageError::Transcript(m) => m@,
            },
    {
        match self {
            StorageError::InvalidSessionId(id) => {
                let mut s = "invalid session id: ".to_owned();
                s.append(id.as_str());
                s
            },
            StorageError::Transcript(m) => m.clone(),
        }
    }
}

/// A torn-tail ruling: the bad line's number, its start byte offset (where
/// the file is to be truncated), and the decoder's message.
#[derive(Debug)]
pub struct TornTail {
    pub line_no: usize,
    pub start: usize,
    pub message: String,
}

/// `invalid line {line_no} in {path}: {err}`.
pub open spec fn invalid_line_message(line_no: nat, path: Seq<char>, err: Seq<char>) -> Seq<char> {
    "invalid line "@ + dec(line_no) + " in "@ + path + ": "@ + err
}

fn invalid_line(line_no: usize, path: &str, err: &str) -> (r: String)
    ensures
        r@ == invalid_line_message(line_no as nat, path@, err@),
{
    let mut s = "invalid line ".to_owned();
    append_decimal(&mut s, line_no as u64);
    s.append(" in ");
    s.append(path);
    s.append(": ");
    s.append(err);
    s
}

/// Line `u` of `b` decoded into `o` under `decode`.
pub open spec fn decoded_line<T, F: Fn(&[u8]) -> LineDecode<T>>(
    decode: F,
    b: Seq<u8>,
    u: LineUnit,
    o: LineDecode<T>,
) -> bool {
    exists|s: &[u8]|
        s@ == b.subrange(u.lo as int, u.hi as int) && #[trigger] decode.ensures((s,), o)
}

/// What a scan returns, given the units of the buffer and how each decoded.
pub open spec fn scan_outcome<T>(
    units: Seq<LineUnit>,
    outs: Seq<LineDecode<T>>,
    path: Seq<char>,
    fail_closed: bool,
    r: Result<(Vec<T>, Option<TornTail>), StorageError>,
) -> bool {
    let v = ruling(units, outs.map_values(|d: LineDecode<T>| d.kind()), fail_closed);
    match r {
        Err(e) => match v.0 {
            Some(u) => match e {
                StorageError::Transcript(m) => m@ == invalid_line_message(
                    units[u].line_no as nat,
                    path,
                    outs[u].message(),
                ),
                _ => false,
            },
            None => false,
        },
        Ok((items, torn)) => {
            &&& v.0 is None
            &&& items@ == v.1.map_values(|k: int| outs[k].row())
            &&& match torn {
                None => v.2 is None,
                Some(t) => match v.2 {
                    Some(k) => {
                        &&& t.line_no == units[k].line_no
                        &&& t.start == units[k].start
                        &&& t.message@ == outs[k].message()
                    },
                    None => false,
                },
            }
        },
    }
}

/// Whether `r` is what scanning `b` gives: some decoding of each of its
/// lines under `decode`, judged by [`scan_outcome`].
pub open spec fn scanned<T, F: Fn(&[u8]) -> LineDecode<T>>(
    b: Seq<u8>,
    decode: F,
    path: Seq<char>,
    fail_closed: bool,
    r: Result<(Vec<T>, Option<TornTail>), StorageError>,
) -> bool {
    exists|outs: Seq<LineDecode<T>>|
        {
            &&& outs.len() == units_of(b).len()
            &&& forall|i: int| 0 <= i < outs.len() ==> #[trigger] decoded_line(decode, b, units_of(b)[i], outs[i])
            &&& scan_outcome(units_of(b), outs, path, fail_closed, r)
        }
}

/// Whether `decode` gives one outcome per line: equal bytes decode alike.
pub open spec fn deterministic<T, F: Fn(&[u8]) -> LineDecode<T>>(decode: F) -> bool {
    forall|s1: &[u8], s2: &[u8], o1: LineDecode<T>, o2: LineDecode<T>|
        s1@ == s2@ && #[trigger] decode.ensures((s1,), o1) && #[trigger] decode.ensures((s2,), o2) ==> o1 == o2
}

/// Scan an in-memory JSONL buffer into rows plus an optional torn tail,
/// decoding each non-blank line with `decode` and applying the load policy
/// of [`ruling`]: a damaged line followed by another line fails the load
/// with `invalid line {n} in {path}: {err}`; a damaged last line is the torn
/// tail; with `fail_closed_on_data`, a well-formed row of unknown shape
/// fails the load wherever it stands.
pub fn scan_jsonl_buffer<T, F: Fn(&[u8]) -> LineDecode<T>>(
    bytes: &[u8],
    path: &str,
    fail_closed_on_data: bool,
    decode: F,
) -> (r: Result<(Vec<T>, Option<TornTail>), StorageError>)
    requires
        forall|s: &[u8]| #[trigger] decode.requires((s,)),
    ensures
        scanned(bytes@, decode, path@, fail_closed_on_data, r),
{
    let units = split_lines(bytes);
    let n = units.len();
    let mut kinds: Vec<DecodeKind> = Vec::new();
    let mut msgs: Vec<String> = Vec::new();
    let mut rows: Vec<T> = Vec::new();
    let ghost mut outs: Seq<LineDecode<T>> = Seq::empty();
    let mut i: usize = 0;
    let blen = bytes.len();
    proof {
        lemma_units_bounds(bytes@, 0, 0, 0);
    }
    assert(row_idx_upto(kinds@, 0).map_values(|k: int| outs[k].row()) =~= Seq::<T>::empty());
    while i < n
        invariant
            n == units.len(),
            units@ == units_of(bytes@),
            forall|s: &[u8]| #[trigger] decode.requires((s,)),
            forall|j: int|
                0 <= j < units.len() ==> #[trigger] units@[j].lo <= units@[j].hi <= bytes@.len(),
            0 <= i <= n,
            outs.len() == i,
            kinds@ == outs.map_values(|d: LineDecode<T>| d.kind()),
            msgs.len() == i,
            forall|j: int| 0 <= j < i ==> (#[trigger] msgs@[j])@ == outs[j].message(),
            rows@ == row_idx_upto(kinds@, i as int).map_values(|k: int| outs[k].row()),
            forall|j: int|
                0 <= j < i ==> #[trigger] decoded_line(decode, bytes@, units@[j], outs[j]),
        decreases n - i,
    {
        let u = units[i];
        let line = &bytes[u.lo..u.hi];
        let d = decode(line);
        let ghost gd = d;
        let ghost prev_outs = outs;
        let ghost prev_kinds = kinds@;
        proof {
            outs = outs.push(gd);
            assert(decoded_line(decode, bytes@, units@[i as int], gd));
            lemma_row_idx_extend(prev_kinds, gd.kind(), i as int);
            lemma_row_idx_bounds(prev_kinds, i as int);
            assert(row_idx_upto(prev_kinds, i as int).map_values(|k: int| outs[k].row())
                =~= row_idx_upto(prev_kinds, i as int).map_values(|k: int| prev_outs[k].row()));
        }
        match d {
            LineDecode::Row(t) => {
                kinds.push(DecodeKind::Row);
                msgs.push(String::new());
                rows.push(t);
                assert(kinds@ == prev_kinds.push(gd.kind()));
                assert(row_idx_upto(kinds@, i + 1) == row_idx_upto(prev_kinds, i as int).push(
                    i as int,
                ));
                assert(rows@ =~= row_idx_upto(kinds@, i + 1).map_values(|k: int| outs[k].row()));
            },
            LineDecode::Malformed(m) => {
                kinds.push(DecodeKind::Malformed);
                msgs.push(m);
                assert(kinds@ == prev_kinds.push(gd.kind()));
                assert(row_idx_upto(kinds@, i + 1) =~= row_idx_upto(prev_kinds, i as int));
            },
            LineDecode::Unrecognized(m) => {
                kinds.push(DecodeKind::Unrecognized);
                msgs.push(m);
                assert(kinds@ == prev_kinds.push(gd.kind()));
                assert(row_idx_upto(kinds@, i + 1) =~= row_idx_upto(prev_kinds, i as int));
            },
        }
        i = i + 1;
    }
    match jsonl_ruling(&units, &kinds, fail_closed_on_data) {
        Err(u) => Err(StorageError::Transcript(invalid_line(units[u].line_no, path, msgs[u].as_str()))),
        Ok((kept, torn)) => {
            proof {
                let m = lemma_ruling_kept(units@, kinds@, fail_closed_on_data, 0, None);
                assert(row_idx_upto(kinds@, 0) =~= Seq::<int>::empty());
                lemma_row_idx_prefix(kinds@, m, n as int);
                assert(kept@.map_values(|k: usize| k as int).len() == kept.len());
            }
            rows.truncate(kept.len());
            proof {
                let v = ruling(units@, kinds@, fail_closed_on_data);
                assert(rows@ =~= v.1.map_values(|k: int| outs[k].row()));
            }
            let t = match torn {
                Some(k) => Some(
                    TornTail {
                        line_no: units[k].line_no,
                        start: units[k].start,
                        message: msgs[k].clone(),
                    },
                ),
                None => None,
            };
            Ok((rows, t))
        },
    }
}

/// The repair law at the scan: when scanning `b` with a decoder that gives
/// one outcome per line ends in a torn tail, scanning the bytes before the
/// torn line (what the repair leaves in the file) returns the same rows and
/// no torn tail.
pub proof fn lemma_rescan_clean<T, F: Fn(&[u8]) -> LineDecode<T>>(
    b: Seq<u8>,
    decode: F,
    path: Seq<char>,
    fail_closed: bool,
    first: Result<(Vec<T>, Option<TornTail>), StorageError>,
    again: Result<(Vec<T>, Option<TornTail>), StorageError>,
)
    requires
        b.len() <= usize::MAX,
        deterministic(decode),
        scanned(b, decode, path, fail_closed, first),
        first matches Ok((_, Some(t))) && scanned(
            b.take(t.start as int),
            decode,
            path,
            fail_closed,
            again,
        ),
    ensures
        again matches Ok((rows, None)) && first matches Ok((kept, _)) && rows@ == kept@,
{
    let us = units_of(b);
    let outs1 = choose|outs: Seq<LineDecode<T>>|
        {
            &&& outs.len() == us.len()
            &&& forall|i: int| 0 <= i < outs.len() ==> #[trigger] decoded_line(decode, b, us[i], outs[i])
            &&& scan_outcome(us, outs, path, fail_closed, first)
        };
    let kinds1 = outs1.map_values(|d: LineDecode<T>| d.kind());
    let v = ruling(us, kinds1, fail_closed);
    lemma_rescan_after_repair(b, kinds1, fail_closed);
    let k = v.2.unwrap();
    let c = us[k].start as int;
    let b2 = b.take(c);
    let us2 = units_of(b2);
    let outs2 = choose|outs: Seq<LineDecode<T>>|
        {
            &&& outs.len() == us2.len()
            &&& forall|i: int| 0 <= i < outs.len() ==> #[trigger] decoded_line(decode, b2, us2[i], outs[i])
            &&& scan_outcome(us2, outs, path, fail_closed, again)
        };
    lemma_units_bounds(b2, 0, 0, 0);
    assert forall|j: int| 0 <= j < k implies outs2[j] == outs1[j] by {
        let u = us2[j];
        assert(u == us[j]);
        assert(decoded_line(decode, b2, us2[j], outs2[j]));
        assert(decoded_line(decode, b, us[j], outs1[j]));
        let s2 = choose|s: &[u8]|
            s@ == b2.subrange(u.lo as int, u.hi as int) && #[trigger] decode.ensures((s,), outs2[j]);
        let s1 = choose|s: &[u8]|
            s@ == b.subrange(u.lo as int, u.hi as int) && #[trigger] decode.ensures((s,), outs1[j]);
        assert(b2.subrange(u.lo as int, u.hi as int) =~= b.subrange(u.lo as int, u.hi as int));
    }
    let kinds2 = outs2.map_values(|d: LineDecode<T>| d.kind());
    assert(kinds2 =~= kinds1.take(k));
    let m = lemma_ruling_kept(us2, kinds2, fail_closed, 0, None);
    assert(row_idx_upto(kinds2, 0) =~= Seq::<int>::empty());
    lemma_row_idx_bounds(kinds2, m);
    let kept = v.1;
    assert(kept.map_values(|x: int| outs2[x].row()) =~= kept.map_values(|x: int| outs1[x].row()));
}

/// Whether `e` refuses the session id `id`, naming it.
pub open spec fn bad_id(e: StorageError, id: Seq<char>) -> bool {
    e matches StorageError::InvalidSessionId(x) && x@ == id
}

/// `Ok(())` for a valid session id, else `InvalidSessionId`.
pub fn validate_session_id(id: &str) -> (r: Result<(), StorageError>)
    ensures
        match r {
            Ok(()) => valid_session_id(id@),
            Err(StorageError::InvalidSessionId(s)) => !valid_session_id(id@) && s@ == id@,
            Err(_) => false,
        },
{
    if is_valid_session_id(id) {
        Ok(())
    } else {
        Err(StorageError::InvalidSessionId(id.to_owned()))
    }
}

/// The text appended for a batch of rows: each row followed by a newline.
pub open spec fn jsonl_payload(lines: Seq<Seq<char>>) -> Seq<char>
    decreases lines.len(),
{
    if lines.len() == 0 {
        Seq::empty()
    } else {
        jsonl_payload(lines.drop_last()) + lines.last().push('\n')
    }
}

/// A write to perform: append `payload` to the file at `path`.
#[derive(Debug)]
pub struct AppendPlan {
    pub path: String,
    pub payload: String,
}

/// Rows read back from a log, and the byte offset to truncate the file at
/// when a torn tail was dropped.
pub struct LoadOutcome<T> {
    pub rows: Vec<T>,
    pub truncate_at: Option<usize>,
}

/// The payload for `lines`, one row per line.
pub fn encode_lines(lines: &Vec<String>) -> (r: String)
    ensures
        r@ == jsonl_payload(lines@.map_values(|l: String| l@)),
{
    let mut out = String::new();
    let mut i: usize = 0;
    while i < lines.len()
        invariant
            0 <= i <= lines.len(),
            out@ == jsonl_payload(lines@.take(i as int).map_values(|l: String| l@)),
        decreases lines.len() - i,
    {
        let ghost prev = lines@.take(i as int).map_values(|l: String| l@);
        out.append(lines[i].as_str());
        push_char(&mut out, '\n');
        proof {
            let next = lines@.take(i + 1).map_values(|l: String| l@);
            assert(next.drop_last() =~= prev);
            assert(next.last() == lines@[i as int]@);
        }
        i = i + 1;
    }
    assert(lines@.take(lines.len() as int) =~= lines@);
    out
}

/// What loading a log means, given how its lines decoded: the scan of
/// [`scan_outcome`], with a torn tail turned into the offset at which the
/// file is to be truncated.
pub open spec fn load_matches<T>(
    units: Seq<LineUnit>,
    outs: Seq<LineDecode<T>>,
    path: Seq<char>,
    fail_closed: bool,
    r: Result<LoadOutcome<T>, StorageError>,
) -> bool {
    let v = ruling(units, outs.map_values(|d: LineDecode<T>| d.kind()), fail_closed);
    &&& outs.len() == units.len()
    &&& match r {
        Err(e) => match v.0 {
            Some(u) => match e {
                StorageError::Transcript(m) => m@ == invalid_line_message(
                    units[u].line_no as nat,
                    path,
                    outs[u].message(),
                ),
                _ => false,
            },
            None => false,
        },
        Ok(o) => {
            &&& v.0 is None
            &&& o.rows@ == v.1.map_values(|k: int| outs[k].row())
            &&& match v.2 {
                Some(k) => o.truncate_at == Some(units[k].start),
                None => o.truncate_at is None,
            }
        },
    }
}

/// Loading a log whose file holds `b`: some decoding of each of its lines
/// under `decode` such that the result is the one [`load_matches`] gives.
pub open spec fn load_from_bytes<T, F: Fn(&[u8]) -> LineDecode<T>>(
    b: Seq<u8>,
    decode: F,
    path: Seq<char>,
    fail_closed: bool,
    r: Result<LoadOutcome<T>, StorageError>,
) -> bool {
    exists|outs: Seq<LineDecode<T>>|
        {
            &&& forall|i: int|
                0 <= i < outs.len() ==> #[trigger] decoded_line(decode, b, units_of(b)[i], outs[i])
            &&& #[trigger] load_matches(units_of(b), outs, path, fail_closed, r)
        }
}

/// Loading a log with no file: an empty log.
pub open spec fn load_missing<T>(r: Result<LoadOutcome<T>, StorageError>) -> bool {
    r matches Ok(o) && o.rows@.len() == 0 && o.truncate_at is None
}

fn load_log<T, F: Fn(&[u8]) -> LineDecode<T>>(
    bytes: Option<&[u8]>,
    path: &str,
    fail_closed: bool,
    decode: F,
) -> (r: Result<LoadOutcome<T>, StorageError>)
    requires
        forall|s: &[u8]| #[trigger] decode.requires((s,)),
    ensures
        match bytes {
            Some(b) => load_from_bytes(b@, decode, path@, fail_closed, r),
            None => load_missing(r),
        },
{
    if bytes.is_none() {
        let rows: Vec<T> = Vec::new();
        return Ok(LoadOutcome { rows, truncate_at: None });
    }
    let b = bytes.unwrap();
    let sr = scan_jsonl_buffer(b, path, fail_closed, decode);
    let ghost gsr = sr;
    let r = match sr {
        Err(e) => Err(e),
        Ok((rows, torn)) => {
            let truncate_at = match torn {
                Some(t) => Some(t.start),
                None => None,
            };
            Ok(LoadOutcome { rows, truncate_at })
        },
    };
    proof {
        let outs = choose|outs: Seq<LineDecode<T>>|
            {
                &&& outs.len() == units_of(b@).len()
                &&& forall|i: int|
                    0 <= i < outs.len() ==> #[trigger] decoded_line(
                        decode,
                        b@,
                        units_of(b@)[i],
                        outs[i],
                    )
                &&& scan_outcome(units_of(b@), outs, path@, fail_closed, gsr)
            };
        assert(load_matches(units_of(b@), outs, path@, fail_closed, r));
    }
    r
}

/// A session's directory under a store root.
pub open spec fn session_dir_of(root: Seq<char>, id: Seq<char>) -> Seq<char> {
    path_join(root, id)
}

/// A file of a session's directory.
pub open spec fn session_file(root: Seq<char>, id: Seq<char>, name: Seq<char>) -> Seq<char> {
    path_join(session_dir_of(root, id), name)
}

/// The plan for appending `lines` to the file `path`.
pub open spec fn appends(p: AppendPlan, path: Seq<char>, lines: Seq<String>) -> bool {
    &&& p.path@ == path
    &&& p.payload@ == jsonl_payload(lines.map_values(|l: String| l@))
}

fn plan_append(path: String, lines: &Vec<String>) -> (p: AppendPlan)
    ensures
        appends(p, path@, lines@),
{
    AppendPlan { path, payload: encode_lines(lines) }
}

fn single(line: &str) -> (v: Vec<String>)
    ensures
        v@.len() == 1,
        v@[0]@ == line@,
{
    let mut v = Vec::new();
    v.push(line.to_owned());
    v
}

/// The legacy append-only message store: `{root}/{session_id}/messages.jsonl`.
#[derive(Debug, Clone)]
pub struct JsonlStorage {
    base_dir: String,
}

impl View for JsonlStorage {
    type V = Seq<char>;

    /// The store root.
    closed spec fn view(&self) -> Seq<char> {
        self.base_dir@
    }
}

impl JsonlStorage {
    /// A store rooted at `base_dir`.
    pub fn new(base_dir: String) -> (r: Self)
        ensures
            r@ == base_dir@,
    {
        JsonlStorage { base_dir }
    }

    /// The default store: `{config_dir}/sessions`.
    pub fn default_root(config_dir: &str) -> (r: Self)
        ensures
            r@ == path_join(config_dir@, "sessions"@),
    {
        JsonlStorage { base_dir: join_path(config_dir, "sessions") }
    }

    /// The store root.
    pub fn base_dir_clone(&self) -> (r: String)
        ensures
            r@ == self@,
    {
        self.base_dir.clone()
    }

    fn session_dir(&self, session_id: &str) -> (r: String)
        ensures
            r@ == session_dir_of(self@, session_id@),
    {
        join_path(self.base_dir.as_str(), session_id)
    }

    /// Path to a session's `messages.jsonl` (whether or not it exists yet).
    pub fn messages_path(&self, session_id: &str) -> (r: String)
        ensures
            r@ == session_file(self@, session_id@, "messages.jsonl"@),
    {
        let d = self.session_dir(session_id);
        join_path(d.as_str(), "messages.jsonl")
    }

    /// Append one message line: the session id must be valid.
    pub fn append_message(&self, session_id: &str, line: &str) -> (r: Result<AppendPlan, StorageError>)
        ensures
            match r {
                Ok(p) => valid_session_id(session_id@) && p.path@ == session_file(
                    self@,
                    session_id@,
                    "messages.jsonl"@,
                ) && p.payload@ == line@.push('\n'),
                Err(e) => !valid_session_id(session_id@) && bad_id(e, session_id@),
            },
    {
        validate_session_id(session_id)?;
        let lines = single(line);
        let p = plan_append(self.messages_path(session_id), &lines);
        proof {
            let m = lines@.map_values(|l: String| l@);
            assert(m.drop_last() =~= Seq::<Seq<char>>::empty());
            assert(m.last() == line@);
            assert(jsonl_payload(m.drop_last()) =~= Seq::<char>::empty());
            assert(jsonl_payload(m) =~= line@.push('\n'));
        }
        Ok(p)
    }

    /// Append a batch of message lines in order; an empty batch is a no-op
    /// (nothing to write, whatever the id).
    pub fn append_messages(&self, session_id: &str, lines: &Vec<String>) -> (r: Result<
        Option<AppendPlan>,
        StorageError,
    >)
        ensures
            lines.len() == 0 ==> r matches Ok(None),
            lines.len() > 0 ==> match r {
                Ok(Some(p)) => valid_session_id(session_id@) && appends(
                    p,
                    session_file(self@, session_id@, "messages.jsonl"@),
                    lines@,
                ),
                Ok(None) => false,
                Err(e) => !valid_session_id(session_id@) && bad_id(e, session_id@),
            },
    {
        if lines.len() == 0 {
            return Ok(None);
        }
        validate_session_id(session_id)?;
        Ok(Some(plan_append(self.messages_path(session_id), lines)))
    }

    /// Load a session's messages from the bytes of its `messages.jsonl`
    /// (`None`: no file). Legacy policy: a damaged last line of any kind is
    /// a torn tail.
    pub fn load_messages<T, F: Fn(&[u8]) -> LineDecode<T>>(
        &self,
        session_id: &str,
        bytes: Option<&[u8]>,
        decode: F,
    ) -> (r: Result<LoadOutcome<T>, StorageError>)
        requires
            forall|s: &[u8]| #[trigger] decode.requires((s,)),
        ensures
            !valid_session_id(session_id@) ==> (r matches Err(e) && bad_id(e, session_id@)),
            valid_session_id(session_id@) ==> match bytes {
                Some(b) => load_from_bytes(
                    b@,
                    decode,
                    session_file(self@, session_id@, "messages.jsonl"@),
                    false,
                    r,
                ),
                None => load_missing(r),
            },
    {
        validate_session_id(session_id)?;
        let path = self.messages_path(session_id);
        load_log(bytes, path.as_str(), false, decode)
    }

    /// Load messages from the bytes of an arbitrary file, same policy.
    pub fn load_from_file<T, F: Fn(&[u8]) -> LineDecode<T>>(
        path: &str,
        bytes: Option<&[u8]>,
        decode: F,
    ) -> (r: Result<LoadOutcome<T>, StorageError>)
        requires
            forall|s: &[u8]| #[trigger] decode.requires((s,)),
        ensures
            match bytes {
                Some(b) => load_from_bytes(b@, decode, path@, false, r),
                None => load_missing(r),
            },
    {
        load_log(bytes, path, false, decode)
    }
}

/// A session's metadata sidecar (`meta.json`): the display name.
#[derive(Debug, Clone, Default)]
pub struct SessionMeta {
    pub name: Option<String>,
}

/// An atomic install: write `payload` to `tmp`, then rename it onto `dest`.
#[derive(Debug)]
pub struct AtomicWrite {
    pub tmp: String,
    pub dest: String,
    pub payload: String,
}

/// The append-only session event store: `{root}/{session_id}/events.jsonl`,
/// with the legacy `messages.jsonl` and the `meta.json` sidecar beside it.
#[derive(Debug, Clone)]
pub struct EventStorage {
    root: String,
}

impl View for EventStorage {
    type V = Seq<char>;

    /// The store root.
    closed spec fn view(&self) -> Seq<char> {
        self.root@
    }
}

impl EventStorage {
    /// A store rooted at `root`.
    pub fn new(root: String) -> (r: Self)
        ensures
            r@ == root@,
    {
        EventStorage { root }
    }

    /// A session's directory (whether or not it exists).
    pub fn session_dir(&self, session_id: &str) -> (r: String)
        ensures
            r@ == session_dir_of(self@, session_id@),
    {
        join_path(self.root.as_str(), session_id)
    }

    fn file(&self, session_id: &str, name: &str) -> (r: String)
        ensures
            r@ == session_file(self@, session_id@, name@),
    {
        let d = self.session_dir(session_id);
        join_path(d.as_str(), name)
    }

    /// Path to a session's `events.jsonl` (whether or not it exists yet).
    pub fn events_path(&self, session_id: &str) -> (r: String)
        ensures
            r@ == session_file(self@, session_id@, "events.jsonl"@),
    {
        self.file(session_id, "events.jsonl")
    }

    /// Path to a session's legacy `messages.jsonl`, the migration source.
    pub fn messages_path(&self, session_id: &str) -> (r: String)
        ensures
            r@ == session_file(self@, session_id@, "messages.jsonl"@),
    {
        self.file(session_id, "messages.jsonl")
    }

    /// Path to a session's in-flight `events.jsonl.tmp`, the staging file of
    /// an atomic install; the loaders never look at it.
    fn events_tmp_path(&self, session_id: &str) -> (r: String)
        ensures
            r@ == session_file(self@, session_id@, "events.jsonl.tmp"@),
    {
        self.file(session_id, "events.jsonl.tmp")
    }

    /// Path to a session's `meta.json` sidecar.
    pub fn meta_path(&self, session_id: &str) -> (r: String)
        ensures
            r@ == session_file(self@, session_id@, "meta.json"@),
    {
        self.file(session_id, "meta.json")
    }

    /// Whether the session has an event log, given whether its
    /// `events.jsonl` exists on disk: never for an invalid id.
    pub fn has_events(&self, session_id: &str, events_file_exists: bool) -> (r: bool)
        ensures
            r == (valid_session_id(session_id@) && events_file_exists),
    {
        is_valid_session_id(session_id) && events_file_exists
    }

    /// Append one event line to the session's log.
    pub fn append_event(&self, session_id: &str, line: &str) -> (r: Result<AppendPlan, StorageError>)
        ensures
            match r {
                Ok(p) => valid_session_id(session_id@) && p.path@ == session_file(
                    self@,
                    session_id@,
                    "events.jsonl"@,
                ) && p.payload@ == line@.push('\n'),
                Err(e) => !valid_session_id(session_id@) && bad_id(e, session_id@),
            },
    {
        validate_session_id(session_id)?;
        let lines = single(line);
        let p = plan_append(self.events_path(session_id), &lines);
        proof {
            let m = lines@.map_values(|l: String| l@);
            assert(m.drop_last() =~= Seq::<Seq<char>>::empty());
            assert(m.last() == line@);
            assert(jsonl_payload(m.drop_last()) =~= Seq::<char>::empty());
            assert(jsonl_payload(m) =~= line@.push('\n'));
        }
        Ok(p)
    }

    /// Append a batch of event lines in order; an empty batch is a no-op.
    pub fn append_events(&self, session_id: &str, lines: &Vec<String>) -> (r: Result<
        Option<AppendPlan>,
        StorageError,
    >)
        ensures
            lines.len() == 0 ==> r matches Ok(None),
            lines.len() > 0 ==> match r {
                Ok(Some(p)) => valid_session_id(session_id@) && appends(
                    p,
                    session_file(self@, session_id@, "events.jsonl"@),
                    lines@,
                ),
                Ok(None) => false,
                Err(e) => !valid_session_id(session_id@) && bad_id(e, session_id@),
            },
    {
        if lines.len() == 0 {
            return Ok(None);
        }
        validate_session_id(session_id)?;
        Ok(Some(plan_append(self.events_path(session_id), lines)))
    }

    /// The synchronous single-event append: the same plan as
    /// [`append_event`](Self::append_event).
    pub fn append_event_sync(&self, session_id: &str, line: &str) -> (r: Result<
        AppendPlan,
        StorageError,
    >)
        ensures
            match r {
                Ok(p) => valid_session_id(session_id@) && p.path@ == session_file(
                    self@,
                    session_id@,
                    "events.jsonl"@,
                ) && p.payload@ == line@.push('\n'),
                Err(e) => !valid_session_id(session_id@) && bad_id(e, session_id@),
            },
    {
        self.append_event(session_id, line)
    }

    /// The synchronous batch append: the same plan as
    /// [`append_events`](Self::append_events).
    pub fn append_events_sync(&self, session_id: &str, lines: &Vec<String>) -> (r: Result<
        Option<AppendPlan>,
        StorageError,
    >)
        ensures
            lines.len() == 0 ==> r matches Ok(None),
            lines.len() > 0 ==> match r {
                Ok(Some(p)) => valid_session_id(session_id@) && appends(
                    p,
                    session_file(self@, session_id@, "events.jsonl"@),
                    lines@,
                ),
                Ok(None) => false,
                Err(e) => !valid_session_id(session_id@) && bad_id(e, session_id@),
            },
    {
        self.append_events(session_id, lines)
    }

    /// Install a whole batch as the session's log: written to
    /// `events.jsonl.tmp`, then renamed onto `events.jsonl`, so a crash can
    /// never leave a partial log. An empty batch is a no-op.
    pub fn append_events_atomic(&self, session_id: &str, lines: &Vec<String>) -> (r: Result<
        Option<AtomicWrite>,
        StorageError,
    >)
        ensures
            lines.len() == 0 ==> r matches Ok(None),
            lines.len() > 0 ==> match r {
                Ok(Some(w)) => {
                    &&& valid_session_id(session_id@)
                    &&& w.tmp@ == session_file(self@, session_id@, "events.jsonl.tmp"@)
                    &&& w.dest@ == session_file(self@, session_id@, "events.jsonl"@)
                    &&& w.payload@ == jsonl_payload(lines@.map_values(|l: String| l@))
                },
                Ok(None) => false,
                Err(e) => !valid_session_id(session_id@) && bad_id(e, session_id@),
            },
    {
        if lines.len() == 0 {
            return Ok(None);
        }
        validate_session_id(session_id)?;
        Ok(
            Some(
                AtomicWrite {
                    tmp: self.events_tmp_path(session_id),
                    dest: self.events_path(session_id),
                    payload: encode_lines(lines),
                },
            ),
        )
    }

    /// Load a session's events from the bytes of its `events.jsonl`
    /// (`None`: no file). Fail-closed: a well-formed row of unknown shape
    /// fails the load wherever it stands; it is never healed as a tail.
    pub fn load_events<T, F: Fn(&[u8]) -> LineDecode<T>>(
        &self,
        session_id: &str,
        bytes: Option<&[u8]>,
        decode: F,
    ) -> (r: Result<LoadOutcome<T>, StorageError>)
        requires
            forall|s: &[u8]| #[trigger] decode.requires((s,)),
        ensures
            !valid_session_id(session_id@) ==> (r matches Err(e) && bad_id(e, session_id@)),
            valid_session_id(session_id@) ==> match bytes {
                Some(b) => load_from_bytes(
                    b@,
                    decode,
                    session_file(self@, session_id@, "events.jsonl"@),
                    true,
                    r,
                ),
                None => load_missing(r),
            },
    {
        validate_session_id(session_id)?;
        let path = self.events_path(session_id);
        load_log(bytes, path.as_str(), true, decode)
    }

    /// The synchronous twin of [`load_events`](Self::load_events): the same
    /// policy over the same bytes.
    pub fn load_events_sync<T, F: Fn(&[u8]) -> LineDecode<T>>(
        &self,
        session_id: &str,
        bytes: Option<&[u8]>,
        decode: F,
    ) -> (r: Result<LoadOutcome<T>, StorageError>)
        requires
            forall|s: &[u8]| #[trigger] decode.requires((s,)),
        ensures
            !valid_session_id(session_id@) ==> (r matches Err(e) && bad_id(e, session_id@)),
            valid_session_id(session_id@) ==> match bytes {
                Some(b) => load_from_bytes(
                    b@,
                    decode,
                    session_file(self@, session_id@, "events.jsonl"@),
                    true,
                    r,
                ),
                None => load_missing(r),
            },
    {
        self.load_events(session_id, bytes, decode)
    }

    /// Load the legacy `messages.jsonl` (the migration source) under the
    /// legacy policy.
    pub fn load_messages<T, F: Fn(&[u8]) -> LineDecode<T>>(
        &self,
        session_id: &str,
        bytes: Option<&[u8]>,
        decode: F,
    ) -> (r: Result<LoadOutcome<T>, StorageError>)
        requires
            forall|s: &[u8]| #[trigger] decode.requires((s,)),
        ensures
            !valid_session_id(session_id@) ==> (r matches Err(e) && bad_id(e, session_id@)),
            valid_session_id(session_id@) ==> match bytes {
                Some(b) => load_from_bytes(
                    b@,
                    decode,
                    session_file(self@, session_id@, "messages.jsonl"@),
                    false,
                    r,
                ),
                None => load_missing(r),
            },
    {
        validate_session_id(session_id)?;
        let path = self.messages_path(session_id);
        load_log(bytes, path.as_str(), false, decode)
    }

    /// The legacy file to remove after a migration (a missing file is fine).
    pub fn delete_legacy(&self, session_id: &str) -> (r: Result<String, StorageError>)
        ensures
            match r {
                Ok(p) => valid_session_id(session_id@) && p@ == session_file(
                    self@,
                    session_id@,
                    "messages.jsonl"@,
                ),
                Err(e) => !valid_session_id(session_id@) && bad_id(e, session_id@),
            },
    {
        validate_session_id(session_id)?;
        Ok(self.messages_path(session_id))
    }

    /// Where the metadata sidecar is written (a staging file, renamed onto
    /// `meta.json`); the payload is the serialized metadata plus a newline.
    pub fn write_meta(&self, session_id: &str, serialized: &str) -> (r: Result<
        AtomicWrite,
        StorageError,
    >)
        ensures
            match r {
                Ok(w) => {
                    &&& valid_session_id(session_id@)
                    &&& w.tmp@ == session_file(self@, session_id@, "meta.json.tmp"@)
                    &&& w.dest@ == session_file(self@, session_id@, "meta.json"@)
                    &&& w.payload@ == serialized@.push('\n')
                },
                Err(e) => !valid_session_id(session_id@) && bad_id(e, session_id@),
            },
    {
        validate_session_id(session_id)?;
        let mut payload = serialized.to_owned();
        push_char(&mut payload, '\n');
        Ok(
            AtomicWrite {
                tmp: self.file(session_id, "meta.json.tmp"),
                dest: self.meta_path(session_id),
                payload,
            },
        )
    }

    /// The metadata sidecar to read, or `None` for an invalid id (metadata
    /// is optional decoration: a bad id simply has none).
    pub fn load_meta_sync(&self, session_id: &str) -> (r: Option<String>)
        ensures
            match r {
                Some(p) => valid_session_id(session_id@) && p@ == session_file(
                    self@,
                    session_id@,
                    "meta.json"@,
                ),
                None => !valid_session_id(session_id@),
            },
    {
        if !is_valid_session_id(session_id) {
            return None;
        }
        Some(self.meta_path(session_id))
    }

    /// Remove a session, given whether its directory exists: the directory
    /// to remove wholesale when it does (the session existed), `None` when
    /// there is nothing to remove.
    pub fn remove_session(&self, session_id: &str, dir_exists: bool) -> (r: Result<
        Option<String>,
        StorageError,
    >)
        ensures
            match r {
                Ok(Some(p)) => valid_session_id(session_id@) && dir_exists && p@ == session_dir_of(
                    self@,
                    session_id@,
                ),
                Ok(None) => valid_session_id(session_id@) && !dir_exists,
                Err(e) => !valid_session_id(session_id@) && bad_id(e, session_id@),
            },
    {
        validate_session_id(session_id)?;
        if dir_exists {
            Ok(Some(self.session_dir(session_id)))
        } else {
            Ok(None)
        }
    }
}

/// Every decoding of row `l` under `decode` is a row.
pub open spec fn decodes_to_row<T, F: Fn(&[u8]) -> LineDecode<T>>(decode: F, l: Seq<u8>) -> bool {
    forall|s: &[u8], o: LineDecode<T>| s@ == l && #[trigger] decode.ensures((s,), o) ==> o is Row
}

/// No decoding of `l` under `decode` is a row.
pub open spec fn decodes_damaged<T, F: Fn(&[u8]) -> LineDecode<T>>(decode: F, l: Seq<u8>) -> bool {
    forall|s: &[u8], o: LineDecode<T>| s@ == l && #[trigger] decode.ensures((s,), o) ==> !(o is Row)
}

/// Every decoding of `l` is damaged in the way a crash mid-append leaves a
/// line: malformed, or (on a log that is not fail-closed) unrecognized.
pub open spec fn decodes_torn<T, F: Fn(&[u8]) -> LineDecode<T>>(
    decode: F,
    l: Seq<u8>,
    fail_closed: bool,
) -> bool {
    forall|s: &[u8], o: LineDecode<T>|
        s@ == l && #[trigger] decode.ensures((s,), o) ==> (o is Malformed || (!fail_closed
            && o is Unrecognized))
}

/// `o` is what `decode` gives for `l`.
pub open spec fn decodes_as<T, F: Fn(&[u8]) -> LineDecode<T>>(
    decode: F,
    l: Seq<u8>,
    o: LineDecode<T>,
) -> bool {
    exists|s: &[u8]| s@ == l && #[trigger] decode.ensures((s,), o)
}

/// `x` is what `decode` gives as the row of `l`.
pub open spec fn decoded_row<T, F: Fn(&[u8]) -> LineDecode<T>>(decode: F, l: Seq<u8>, x: T) -> bool {
    exists|s: &[u8]| s@ == l && #[trigger] decode.ensures((s,), LineDecode::Row(x))
}

proof fn lemma_outs_rows<T, F: Fn(&[u8]) -> LineDecode<T>>(
    lines: Seq<Seq<u8>>,
    t: Seq<u8>,
    decode: F,
    outs: Seq<LineDecode<T>>,
    m: int,
)
    requires
        forall|i: int| 0 <= i < lines.len() ==> #[trigger] clean_line(lines[i]),
        jsonl_bytes(lines).len() + t.len() <= usize::MAX,
        0 <= m <= lines.len(),
        outs.len() >= lines.len(),
        units_of(jsonl_bytes(lines) + t).len() >= lines.len(),
        units_of(jsonl_bytes(lines) + t).take(lines.len() as int) == line_units(lines, 0, 0),
        forall|i: int|
            0 <= i < outs.len() ==> #[trigger] decoded_line(
                decode,
                jsonl_bytes(lines) + t,
                units_of(jsonl_bytes(lines) + t)[i],
                outs[i],
            ),
        forall|i: int| 0 <= i < m ==> decodes_to_row(decode, #[trigger] lines[i]),
    ensures
        forall|i: int|
            0 <= i < m ==> (#[trigger] outs[i]) is Row && decoded_row(decode, lines[i], outs[i].row()),
        forall|i: int| 0 <= i < lines.len() ==> decodes_as(decode, lines[i], #[trigger] outs[i]),
{
    let b = jsonl_bytes(lines) + t;
    assert(b =~= Seq::<u8>::empty() + jsonl_bytes(lines) + t);
    lemma_line_units_shape(lines, 0, 0);
    assert forall|i: int| 0 <= i < lines.len() implies decodes_as(
        decode,
        lines[i],
        #[trigger] outs[i],
    ) by {
        lemma_line_units_cover(Seq::<u8>::empty(), lines, t, 0, i);
        assert(units_of(b).take(lines.len() as int)[i] == units_of(b)[i]);
        assert(units_of(b)[i] == line_units(lines, 0, 0)[i]);
        let u = units_of(b)[i];
        assert(decoded_line(decode, b, u, outs[i]));
        let w = choose|w: &[u8]|
            w@ == b.subrange(u.lo as int, u.hi as int) && #[trigger] decode.ensures((w,), outs[i]);
        assert(w@ == lines[i]);
        assert(decode.ensures((w,), outs[i]));
    }
    assert forall|i: int| 0 <= i < m implies (#[trigger] outs[i]) is Row && decoded_row(
        decode,
        lines[i],
        outs[i].row(),
    ) by {
        let s = choose|s: &[u8]| s@ == lines[i] && #[trigger] decode.ensures((s,), outs[i]);
        assert(decodes_to_row(decode, lines[i]));
        assert(outs[i] is Row);
        assert(LineDecode::Row(outs[i].row()) == outs[i]);
    }
}

/// Reading back what was appended: a log whose bytes are clean rows, each
/// followed by a newline, each of which decodes to a row, loads as exactly
/// those rows in file order, with nothing to truncate.
pub proof fn lemma_load_appended<T, F: Fn(&[u8]) -> LineDecode<T>>(
    lines: Seq<Seq<u8>>,
    decode: F,
    path: Seq<char>,
    fail_closed: bool,
    r: Result<LoadOutcome<T>, StorageError>,
)
    requires
        forall|i: int| 0 <= i < lines.len() ==> #[trigger] clean_line(lines[i]),
        forall|i: int| 0 <= i < lines.len() ==> decodes_to_row(decode, #[trigger] lines[i]),
        jsonl_bytes(lines).len() <= usize::MAX,
        load_from_bytes(jsonl_bytes(lines), decode, path, fail_closed, r),
    ensures
        r matches Ok(o) && {
            &&& o.truncate_at is None
            &&& o.rows@.len() == lines.len()
            &&& forall|i: int|
                0 <= i < lines.len() ==> decoded_row(decode, lines[i], #[trigger] o.rows@[i])
        },
{
    let b = jsonl_bytes(lines);
    let n = lines.len() as int;
    let e = Seq::<u8>::empty();
    assert(b =~= e + jsonl_bytes(lines) + e);
    lemma_units_batch(e, lines, e, 0);
    lemma_units_end(b, n);
    let units = units_of(b);
    assert(units =~= line_units(lines, 0, 0));
    lemma_line_units_shape(lines, 0, 0);
    let outs = choose|outs: Seq<LineDecode<T>>|
        {
            &&& forall|i: int|
                0 <= i < outs.len() ==> #[trigger] decoded_line(decode, b, units_of(b)[i], outs[i])
            &&& #[trigger] load_matches(units_of(b), outs, path, fail_closed, r)
        };
    assert(b + e =~= b);
    assert(units.take(n) =~= units);
    lemma_outs_rows(lines, e, decode, outs, n);
    let kinds = outs.map_values(|d: LineDecode<T>| d.kind());
    assert forall|j: int| 0 <= j < n implies (#[trigger] units[j]).terminated && kinds[j]
        == DecodeKind::Row by {
        assert(outs[j] is Row);
    }
    lemma_ruling_rows(units, kinds, fail_closed, 0, n, Seq::empty());
    let range = Seq::new(n as nat, |j: int| j);
    assert(Seq::<int>::empty() + Seq::new((n - 0) as nat, |j: int| 0 + j) =~= range);
    match r {
        Ok(o) => {
            assert(o.rows@ == range.map_values(|k: int| outs[k].row()));
            assert forall|i: int| 0 <= i < lines.len() implies decoded_row(
                decode,
                lines[i],
                #[trigger] o.rows@[i],
            ) by {
                assert(o.rows@[i] == outs[i].row());
            }
        },
        Err(_) => {},
    }
}

proof fn lemma_encode_concat(a: Seq<char>, b: Seq<char>)
    ensures
        encode_utf8(a + b) == encode_utf8(a) + encode_utf8(b),
    decreases a.len(),
{
    if a.len() > 0 {
        assert((a + b).drop_first() =~= a.drop_first() + b);
        lemma_encode_concat(a.drop_first(), b);
        assert((a + b)[0] == a[0]);
        assert(encode_scalar(a[0] as u32) + (encode_utf8(a.drop_first()) + encode_utf8(b))
            =~= encode_scalar(a[0] as u32) + encode_utf8(a.drop_first()) + encode_utf8(b));
    } else {
        assert(a + b =~= b);
        assert(encode_utf8(a) + encode_utf8(b) =~= encode_utf8(b));
    }
}

proof fn lemma_jsonl_bytes_push(xs: Seq<Seq<u8>>, x: Seq<u8>)
    ensures
        jsonl_bytes(xs.push(x)) == jsonl_bytes(xs) + x + seq![10u8],
    decreases xs.len(),
{
    if xs.len() == 0 {
        let p = xs.push(x);
        assert(p.drop_first() =~= Seq::<Seq<u8>>::empty());
        assert(jsonl_bytes(p.drop_first()) =~= Seq::<u8>::empty());
        assert(p[0] == x);
        assert(jsonl_bytes(p) =~= x + seq![10u8] + Seq::<u8>::empty());
        assert(jsonl_bytes(xs) + x + seq![10u8] =~= x + seq![10u8]);
    } else {
        assert(xs.push(x).drop_first() =~= xs.drop_first().push(x));
        lemma_jsonl_bytes_push(xs.drop_first(), x);
        assert(xs.push(x)[0] == xs[0]);
        assert(xs[0] + seq![10u8] + (jsonl_bytes(xs.drop_first()) + x + seq![10u8]) =~= xs[0] + seq![10u8]
            + jsonl_bytes(xs.drop_first()) + x + seq![10u8]);
    }
}

/// The bytes of rows appended as text are the newline-terminated UTF-8
/// encodings of the rows.
pub proof fn lemma_payload_bytes(lines: Seq<Seq<char>>)
    ensures
        encode_utf8(jsonl_payload(lines)) == jsonl_bytes(lines.map_values(|l: Seq<char>| encode_utf8(l))),
    decreases lines.len(),
{
    let enc = |l: Seq<char>| encode_utf8(l);
    if lines.len() == 0 {
        assert(lines.map_values(enc) =~= Seq::<Seq<u8>>::empty());
        assert(encode_utf8(Seq::<char>::empty()) =~= Seq::<u8>::empty());
    } else {
        let d = lines.drop_last();
        let l = lines.last();
        lemma_payload_bytes(d);
        lemma_encode_concat(jsonl_payload(d), l.push('\n'));
        assert(l.push('\n') =~= l + seq!['\n']);
        lemma_encode_concat(l, seq!['\n']);
        assert(('\n' as u32) == 10u32);
        assert((10u32 & 0x7Fu32) == 10u32) by (bit_vector);
        let nl = seq!['\n'];
        assert(nl[0] == '\n');
        assert(nl.drop_first() =~= Seq::<char>::empty());
        assert(encode_utf8(nl.drop_first()) =~= Seq::<u8>::empty());
        assert(leading_byte_width_1(10u32) == 10u8);
        assert(encode_scalar(nl[0] as u32) =~= seq![10u8]);
        assert(encode_utf8(nl) =~= seq![10u8]);
        assert(lines.map_values(enc) =~= d.map_values(enc).push(encode_utf8(l)));
        lemma_jsonl_bytes_push(d.map_values(enc), encode_utf8(l));
        assert(encode_utf8(jsonl_payload(d)) + (encode_utf8(l) + seq![10u8]) =~= jsonl_bytes(d.map_values(enc))
            + encode_utf8(l) + seq![10u8]);
    }
}

proof fn lemma_jsonl_bytes_concat(a: Seq<Seq<u8>>, b: Seq<Seq<u8>>)
    ensures
        jsonl_bytes(a) + jsonl_bytes(b) == jsonl_bytes(a + b),
    decreases a.len(),
{
    if a.len() == 0 {
        assert(a + b =~= b);
        assert(jsonl_bytes(a) + jsonl_bytes(b) =~= jsonl_bytes(b));
    } else {
        assert((a + b).drop_first() =~= a.drop_first() + b);
        lemma_jsonl_bytes_concat(a.drop_first(), b);
        assert((a + b)[0] == a[0]);
        assert(a[0] + seq![10u8] + jsonl_bytes(a.drop_first()) + jsonl_bytes(b) =~= a[0] + seq![10u8] + (
        jsonl_bytes(a.drop_first()) + jsonl_bytes(b)));
    }
}

/// Appending then loading: two batches of rows appended one after the
/// other to a new log (each batch written as its payload's UTF-8 bytes)
/// load back as all the rows, in append order, with nothing truncated.
pub proof fn lemma_append_then_load<T, F: Fn(&[u8]) -> LineDecode<T>>(
    first: Seq<Seq<char>>,
    second: Seq<Seq<char>>,
    decode: F,
    path: Seq<char>,
    fail_closed: bool,
    r: Result<LoadOutcome<T>, StorageError>,
)
    requires
        forall|i: int| 0 <= i < (first + second).len() ==> #[trigger] clean_line(encode_utf8((first + second)[i])),
        forall|i: int|
            0 <= i < (first + second).len() ==> decodes_to_row(decode, encode_utf8(#[trigger] (first + second)[i])),
        encode_utf8(jsonl_payload(first)).len() + encode_utf8(jsonl_payload(second)).len() <= usize::MAX,
        load_from_bytes(
            encode_utf8(jsonl_payload(first)) + encode_utf8(jsonl_payload(second)),
            decode,
            path,
            fail_closed,
            r,
        ),
    ensures
        r matches Ok(o) && {
            &&& o.truncate_at is None
            &&& o.rows@.len() == first.len() + second.len()
            &&& forall|i: int|
                0 <= i < first.len() + second.len() ==> decoded_row(
                    decode,
                    encode_utf8((first + second)[i]),
                    #[trigger] o.rows@[i],
                )
        },
{
    let enc = |l: Seq<char>| encode_utf8(l);
    lemma_payload_bytes(first);
    lemma_payload_bytes(second);
    let a = first.map_values(enc);
    let b = second.map_values(enc);
    lemma_jsonl_bytes_concat(a, b);
    let lines = a + b;
    assert(lines =~= (first + second).map_values(enc));
    assert forall|i: int| 0 <= i < lines.len() implies #[trigger] clean_line(lines[i]) by {
        assert(lines[i] == encode_utf8((first + second)[i]));
    }
    assert forall|i: int| 0 <= i < lines.len() implies decodes_to_row(decode, #[trigger] lines[i]) by {
        assert(lines[i] == encode_utf8((first + second)[i]));
    }
    lemma_load_appended(lines, decode, path, fail_closed, r);
    assert forall|i: int| 0 <= i < lines.len() implies lines[i] == encode_utf8((first + second)[i]) by {}
}

/// A torn tail is dropped: a log of clean, newline-terminated rows followed
/// by an unterminated clean line that does not decode (a crash
/// mid-append) loads as the rows before it, and asks for the file to be
/// truncated where the torn line starts.
pub proof fn lemma_load_torn_tail<T, F: Fn(&[u8]) -> LineDecode<T>>(
    lines: Seq<Seq<u8>>,
    tail: Seq<u8>,
    decode: F,
    path: Seq<char>,
    fail_closed: bool,
    r: Result<LoadOutcome<T>, StorageError>,
)
    requires
        forall|i: int| 0 <= i < lines.len() ==> #[trigger] clean_line(lines[i]),
        forall|i: int| 0 <= i < lines.len() ==> decodes_to_row(decode, #[trigger] lines[i]),
        clean_line(tail),
        decodes_torn(decode, tail, fail_closed),
        jsonl_bytes(lines).len() + tail.len() <= usize::MAX,
        load_from_bytes(jsonl_bytes(lines) + tail, decode, path, fail_closed, r),
    ensures
        r matches Ok(o) && {
            &&& o.truncate_at == Some(jsonl_bytes(lines).len() as usize)
            &&& o.rows@.len() == lines.len()
            &&& forall|i: int|
                0 <= i < lines.len() ==> decoded_row(decode, lines[i], #[trigger] o.rows@[i])
        },
{
    let j = jsonl_bytes(lines);
    let b = j + tail;
    let n = lines.len() as int;
    let e = Seq::<u8>::empty();
    assert(b =~= e + jsonl_bytes(lines) + tail);
    lemma_units_batch(e, lines, tail, 0);
    assert(b.subrange(j.len() as int, b.len() as int) =~= tail);
    lemma_units_tail(b, j.len() as int, n);
    let units = units_of(b);
    let last = LineUnit {
        line_no: (n + 1) as usize,
        start: j.len() as usize,
        lo: j.len() as usize,
        hi: b.len() as usize,
        terminated: false,
    };
    assert(units =~= line_units(lines, 0, 0).push(last));
    lemma_line_units_shape(lines, 0, 0);
    let outs = choose|outs: Seq<LineDecode<T>>|
        {
            &&& forall|i: int|
                0 <= i < outs.len() ==> #[trigger] decoded_line(decode, b, units_of(b)[i], outs[i])
            &&& #[trigger] load_matches(units_of(b), outs, path, fail_closed, r)
        };
    assert(units.take(n) =~= line_units(lines, 0, 0));
    lemma_outs_rows(lines, tail, decode, outs, n);
    let kinds = outs.map_values(|d: LineDecode<T>| d.kind());
    assert forall|k: int| 0 <= k < n implies (#[trigger] units[k]).terminated && kinds[k]
        == DecodeKind::Row by {
        assert(units[k] == line_units(lines, 0, 0)[k]);
        assert(outs[k] is Row);
    }
    lemma_ruling_rows(units, kinds, fail_closed, 0, n, Seq::empty());
    let range = Seq::new(n as nat, |k: int| k);
    assert(Seq::<int>::empty() + Seq::new((n - 0) as nat, |k: int| 0 + k) =~= range);
    assert(decoded_line(decode, b, units[n], outs[n]));
    assert(b.subrange(last.lo as int, last.hi as int) =~= tail);
    assert(outs[n] is Malformed || (!fail_closed && outs[n] is Unrecognized));
    assert(units[n] == last);
    match r {
        Ok(o) => {
            assert(o.rows@ == range.map_values(|k: int| outs[k].row()));
            assert forall|i: int| 0 <= i < lines.len() implies decoded_row(
                decode,
                lines[i],
                #[trigger] o.rows@[i],
            ) by {
                assert(o.rows@[i] == outs[i].row());
            }
        },
        Err(_) => {},
    }
}

/// Real damage fails the load: when a row of a log of clean,
/// newline-terminated rows does not decode and another row follows it, the
/// load fails; on a log that is not fail-closed the error names that row's
/// file line.
pub proof fn lemma_load_damaged_middle<T, F: Fn(&[u8]) -> LineDecode<T>>(
    lines: Seq<Seq<u8>>,
    bad: int,
    decode: F,
    path: Seq<char>,
    fail_closed: bool,
    r: Result<LoadOutcome<T>, StorageError>,
)
    requires
        forall|i: int| 0 <= i < lines.len() ==> #[trigger] clean_line(lines[i]),
        0 <= bad,
        bad + 1 < lines.len(),
        forall|i: int| 0 <= i < bad ==> decodes_to_row(decode, #[trigger] lines[i]),
        decodes_damaged(decode, lines[bad]),
        jsonl_bytes(lines).len() <= usize::MAX,
        load_from_bytes(jsonl_bytes(lines), decode, path, fail_closed, r),
    ensures
        r matches Err(StorageError::Transcript(m)) && (!fail_closed ==> exists|s: &[u8], o: LineDecode<T>|
            {
                &&& s@ == lines[bad]
                &&& #[trigger] decode.ensures((s,), o)
                &&& m@ == invalid_line_message((bad + 1) as nat, path, o.message())
            }),
{
    let b = jsonl_bytes(lines);
    let n = lines.len() as int;
    let e = Seq::<u8>::empty();
    assert(b =~= e + jsonl_bytes(lines) + e);
    lemma_units_batch(e, lines, e, 0);
    lemma_units_end(b, n);
    lemma_jsonl_bytes_len(lines);
    let units = units_of(b);
    assert(units =~= line_units(lines, 0, 0));
    lemma_line_units_shape(lines, 0, 0);
    let outs = choose|outs: Seq<LineDecode<T>>|
        {
            &&& forall|i: int|
                0 <= i < outs.len() ==> #[trigger] decoded_line(decode, b, units_of(b)[i], outs[i])
            &&& #[trigger] load_matches(units_of(b), outs, path, fail_closed, r)
        };
    assert(b + e =~= b);
    assert(units.take(n) =~= units);
    lemma_outs_rows(lines, e, decode, outs, bad);
    let kinds = outs.map_values(|d: LineDecode<T>| d.kind());
    assert forall|k: int| 0 <= k < bad implies (#[trigger] units[k]).terminated && kinds[k]
        == DecodeKind::Row by {
        assert(outs[k] is Row);
    }
    lemma_ruling_rows(units, kinds, fail_closed, 0, bad, Seq::empty());
    let s = choose|s: &[u8]| s@ == lines[bad] && #[trigger] decode.ensures((s,), outs[bad]);
    assert(!(outs[bad] is Row));
    assert(units[bad].terminated && units[bad + 1].terminated);
    assert(units[bad].line_no == (bad + 1) as usize);
    let v = ruling(units, kinds, fail_closed);
    let kept = Seq::<int>::empty() + Seq::new((bad - 0) as nat, |j: int| 0 + j);
    assert(v == ruling_from(units, kinds, fail_closed, bad, kept, None));
    assert(kinds[bad] == outs[bad].kind());
    assert(kinds[bad] != DecodeKind::Row);
    if fail_closed && kinds[bad] == DecodeKind::Unrecognized {
        assert(v.0 == Some(bad));
    } else {
        assert(v == ruling_from(units, kinds, fail_closed, bad + 1, kept, Some(bad)));
        let w = ruling_from(units, kinds, fail_closed, bad + 1, kept, Some(bad));
        assert(w.0 == Some(bad) || w.0 == Some(bad + 1));
        if !fail_closed {
            assert(w.0 == Some(bad));
        }
    }
    assert(v.0 is Some);
}

/// Every decoding of `l` is a well-formed row of a shape this reader does
/// not know.
pub open spec fn decodes_unknown<T, F: Fn(&[u8]) -> LineDecode<T>>(decode: F, l: Seq<u8>) -> bool {
    forall|s: &[u8], o: LineDecode<T>| s@ == l && #[trigger] decode.ensures((s,), o) ==> o is Unrecognized
}

/// A fail-closed log never adopts a row it does not know: when a
/// newline-terminated row of unknown shape follows rows that decode, the
/// load fails, also when that row is the last one.
pub proof fn lemma_load_unknown_fails_closed<T, F: Fn(&[u8]) -> LineDecode<T>>(
    lines: Seq<Seq<u8>>,
    bad: int,
    decode: F,
    path: Seq<char>,
    r: Result<LoadOutcome<T>, StorageError>,
)
    requires
        forall|i: int| 0 <= i < lines.len() ==> #[trigger] clean_line(lines[i]),
        0 <= bad < lines.len(),
        forall|i: int| 0 <= i < bad ==> decodes_to_row(decode, #[trigger] lines[i]),
        decodes_unknown(decode, lines[bad]),
        jsonl_bytes(lines).len() <= usize::MAX,
        load_from_bytes(jsonl_bytes(lines), decode, path, true, r),
    ensures
        r matches Err(StorageError::Transcript(_)),
{
    let b = jsonl_bytes(lines);
    let n = lines.len() as int;
    let e = Seq::<u8>::empty();
    assert(b =~= e + jsonl_bytes(lines) + e);
    lemma_units_batch(e, lines, e, 0);
    lemma_units_end(b, n);
    lemma_jsonl_bytes_len(lines);
    let units = units_of(b);
    assert(units =~= line_units(lines, 0, 0));
    lemma_line_units_shape(lines, 0, 0);
    let outs = choose|outs: Seq<LineDecode<T>>|
        {
            &&& forall|i: int|
                0 <= i < outs.len() ==> #[trigger] decoded_line(decode, b, units_of(b)[i], outs[i])
            &&& #[trigger] load_matches(units_of(b), outs, path, true, r)
        };
    assert(b + e =~= b);
    assert(units.take(n) =~= units);
    lemma_outs_rows(lines, e, decode, outs, bad);
    let kinds = outs.map_values(|d: LineDecode<T>| d.kind());
    assert forall|k: int| 0 <= k < bad implies (#[trigger] units[k]).terminated && kinds[k]
        == DecodeKind::Row by {
        assert(outs[k] is Row);
    }
    lemma_ruling_rows(units, kinds, true, 0, bad, Seq::empty());
    let s = choose|s: &[u8]| s@ == lines[bad] && #[trigger] decode.ensures((s,), outs[bad]);
    assert(outs[bad] is Unrecognized);
    assert(units[bad].terminated);
    let v = ruling(units, kinds, true);
    let kept = Seq::<int>::empty() + Seq::new((bad - 0) as nat, |j: int| 0 + j);
    assert(v == ruling_from(units, kinds, true, bad, kept, None));
    assert(kinds[bad] == DecodeKind::Unrecognized);
    assert(v.0 == Some(bad));
}

} // verus!