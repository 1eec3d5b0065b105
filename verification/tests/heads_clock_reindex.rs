use conga_core::clock::MonotonicClock;
use conga_core::event_store::updated_branches;
use conga_core::ingest_run::{ingest_fits, ingest_start, IngestEvent};
use conga_core::jsonl::LineDecode;
use conga_core::sessions::{reindex_session, EventRole, Row, Stats};
use conga_core::storage::scan_jsonl_buffer;

fn heads(stored: Option<&str>, branch: Option<&str>, id: &str) -> String {
    updated_branches(stored, branch, id).expect("branch heads text")
}

#[test]
fn first_event_starts_the_main_branch() {
    assert_eq!(heads(None, None, "e1"), "{\"main\":\"e1\"}");
}

#[test]
fn moving_a_head_keeps_the_other_branches() {
    let stored = "{\"main\":\"x\",\"dev\":\"a\"}";
    assert_eq!(heads(Some(stored), Some("main"), "e2"), "{\"dev\":\"a\",\"main\":\"e2\"}");
}

#[test]
fn a_new_branch_joins_in_name_order() {
    assert_eq!(heads(Some("{\"main\":\"e1\"}"), Some("feature"), "e3"), "{\"feature\":\"e3\",\"main\":\"e1\"}");
}

#[test]
fn branch_heads_that_are_not_an_object_are_kept() {
    assert_eq!(heads(Some("[1, 2]"), None, "e4"), "[1,2]");
}

#[test]
fn unreadable_branch_heads_start_afresh() {
    assert_eq!(heads(Some("garbage"), None, "e5"), "{\"main\":\"e5\"}");
}

#[test]
fn event_ids_are_written_as_json_strings() {
    assert_eq!(heads(None, Some("b\"x"), "a\"b"), "{\"b\\\"x\":\"a\\\"b\"}");
}

#[test]
fn monotonic_clock_never_goes_back() {
    let mut c = MonotonicClock::new();
    let t1 = c.now();
    let t2 = c.now();
    assert!(t2 >= t1);
    assert_eq!(c.last, t2);
    c.last = 9_000_000_000_000_000;
    assert_eq!(c.now(), 9_000_000_000_000_000);
}

fn row(seq: usize, text: &str) -> Row {
    Row { seq, kind: EventRole::User, text: text.to_string() }
}

#[test]
fn reindex_counts_only_new_rows_and_moves_the_mark() {
    let rows = vec![row(0, "a"), row(2, "b"), row(5, "c")];
    let mut stats = Stats::new();
    let r = reindex_session(&rows, 2, &mut stats);
    assert_eq!(r.rows.len(), 1);
    assert_eq!(r.rows[0].seq, 5);
    assert_eq!(r.meta, Some(5));
    assert_eq!(stats, Stats { sessions: 1, events_indexed: 1 });
    let again = reindex_session(&rows, 5, &mut stats);
    assert!(again.rows.is_empty());
    assert_eq!(again.meta, None);
    assert_eq!(stats, Stats { sessions: 1, events_indexed: 1 });
    let fresh = reindex_session(&rows, -1, &mut stats);
    assert_eq!(fresh.rows.len(), 3);
    assert_eq!(fresh.meta, Some(5));
    assert_eq!(stats, Stats { sessions: 2, events_indexed: 4 });
}

fn decode(line: &[u8]) -> LineDecode<String> {
    match serde_json::from_slice::<serde_json::Value>(line) {
        Err(e) => LineDecode::Malformed(e.to_string()),
        Ok(v) => match v.get("type").and_then(|t| t.as_str()) {
            Some(t) => LineDecode::Row(t.to_string()),
            None => LineDecode::Unrecognized("missing field `type`".to_string()),
        },
    }
}

#[test]
fn torn_tail_cut_rescans_to_the_same_rows() {
    let buf = "{\"type\":\"user\"}\n\n{\"type\":\"assistant\"}\n{\"type\":\"us";
    let (rows, torn) = scan_jsonl_buffer(buf.as_bytes(), "p", false, decode).ok().unwrap();
    let torn = torn.expect("torn tail");
    assert_eq!(torn.line_no, 4);
    let (again, none) = scan_jsonl_buffer(&buf.as_bytes()[..torn.start], "p", false, decode).ok().unwrap();
    assert_eq!(again, rows);
    assert_eq!(again, vec!["user".to_string(), "assistant".to_string()]);
    assert!(none.is_none());
}

#[test]
fn ordinary_ingest_events_fit() {
    let (s, _) = ingest_start(vec!["notes".to_string()], None);
    let ev = IngestEvent::Scanned { files: vec!["/n/a.md".to_string()], stored: vec![] };
    assert!(ingest_fits(&s, &ev));
}
