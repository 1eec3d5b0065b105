use conga_core::ingest::DocRow;
use conga_core::ingest_run::{ingest_start, ingest_step, IngestAction, IngestEvent, IngestPhase, IngestState};

fn doc(path: &str, mtime: i64, hash: &str) -> DocRow {
    DocRow { path: path.to_string(), mtime, content_hash: hash.to_string() }
}

fn names(v: &[&str]) -> Vec<String> {
    v.iter().map(|s| s.to_string()).collect()
}

fn step(s: IngestState, ev: IngestEvent) -> (IngestState, Vec<IngestAction>) {
    ingest_step(s, ev)
}

#[test]
fn ingest_run_removes_skips_queues_and_embeds_once() {
    let (s, a) = ingest_start(names(&["notes", "docs"]), None);
    assert!(matches!(a.as_slice(), [IngestAction::Scan(n)] if n == "notes"));
    let stored = vec![doc("/n/a.md", 1, "ha"), doc("/n/b.md", 2, "hb"), doc("/n/gone.md", 3, "hg")];
    let (s, a) = step(s, IngestEvent::Scanned { files: names(&["/n/a.md", "/n/b.md", "/n/c.md", "/n/bad.md"]), stored });
    match a.as_slice() {
        [IngestAction::Remove { source, paths }, IngestAction::Stat(p)] => {
            assert_eq!(source, "notes");
            assert_eq!(paths, &vec!["/n/gone.md".to_string()]);
            assert_eq!(p, "/n/a.md");
        }
        other => panic!("{other:?}"),
    }
    // a.md: same time, skipped without reading.
    let (s, a) = step(s, IngestEvent::Mtime(1));
    assert!(matches!(a.as_slice(), [IngestAction::Stat(p)] if p == "/n/b.md"));
    // b.md: new time, same content: touched.
    let (s, a) = step(s, IngestEvent::Mtime(20));
    assert!(matches!(a.as_slice(), [IngestAction::Read(p)] if p == "/n/b.md"));
    let (s, a) = step(s, IngestEvent::Read(Ok(("hb".to_string(), 2))));
    assert!(matches!(a.as_slice(), [IngestAction::Touch { path, mtime: 20, .. }, IngestAction::Stat(n)] if path == "/n/b.md" && n == "/n/c.md"));
    // c.md: new: queued.
    let (s, a) = step(s, IngestEvent::Mtime(5));
    assert!(matches!(a.as_slice(), [IngestAction::Read(_)]));
    let (s, a) = step(s, IngestEvent::Read(Ok(("hc".to_string(), 3))));
    assert!(matches!(a.as_slice(), [IngestAction::Stat(p)] if p == "/n/bad.md"));
    // bad.md: unreadable.
    let (s, _) = step(s, IngestEvent::Mtime(6));
    let (s, a) = step(s, IngestEvent::Read(Err("denied".to_string())));
    assert!(matches!(a.as_slice(), [IngestAction::Scan(n)] if n == "docs"));
    // docs: one changed file.
    let (s, _) = step(s, IngestEvent::Scanned { files: names(&["/d/x.md"]), stored: vec![doc("/d/x.md", 1, "old")] });
    let (s, _) = step(s, IngestEvent::Mtime(9));
    let (s, a) = step(s, IngestEvent::Read(Ok(("new".to_string(), 2))));
    assert!(matches!(a.as_slice(), [IngestAction::Embed(5)]));
    assert_eq!(s.pending.len(), 2);
    assert!(!s.pending[0].existed && s.pending[1].existed);
    let (s, a) = step(s, IngestEvent::Embedded(Ok(())));
    match a.as_slice() {
        [IngestAction::EnsureVec, IngestAction::Upsert { doc: 0, start: 0, end: 3 }, IngestAction::Upsert { doc: 1, start: 3, end: 5 }, IngestAction::Finish] => {}
        other => panic!("{other:?}"),
    }
    assert_eq!(s.phase, IngestPhase::Done);
    let st = s.stats;
    assert_eq!((st.scanned, st.added, st.updated, st.removed, st.skipped, st.failed, st.chunks), (5, 1, 1, 1, 2, 1, 5));
    assert_eq!(st.scanned, st.added + st.updated + st.skipped + st.failed);
}

#[test]
fn ingest_run_over_unchanged_input_changes_nothing() {
    let (s, _) = ingest_start(names(&["notes", "docs"]), Some("notes"));
    assert_eq!(s.sources, names(&["notes"]));
    let (s, a) = step(s, IngestEvent::Scanned { files: names(&["/n/a.md"]), stored: vec![doc("/n/a.md", 1, "ha")] });
    assert!(matches!(&a[0], IngestAction::Remove { paths, .. } if paths.is_empty()));
    let (s, a) = step(s, IngestEvent::Mtime(1));
    assert!(matches!(a.as_slice(), [IngestAction::Finish]));
    assert_eq!(s.phase, IngestPhase::Done);
    assert_eq!((s.stats.added, s.stats.updated, s.stats.removed, s.stats.skipped), (0, 0, 0, 1));
}

#[test]
fn failed_embedding_fails_the_run_and_stray_events_are_ignored() {
    let (s, _) = ingest_start(names(&["notes"]), None);
    let (s, a) = step(s, IngestEvent::Mtime(3));
    assert!(a.is_empty() && s.phase == IngestPhase::Scan);
    let (s, _) = step(s, IngestEvent::Scanned { files: names(&["/n/a.md"]), stored: vec![] });
    let (s, _) = step(s, IngestEvent::Mtime(1));
    let (s, _) = step(s, IngestEvent::Read(Ok(("h".to_string(), 1))));
    let (s, a) = step(s, IngestEvent::Embedded(Err("429".to_string())));
    assert!(matches!(a.as_slice(), [IngestAction::Fail(m)] if m == "embedding 调用失败: 429"));
    assert_eq!(s.phase, IngestPhase::Failed);
    let (_, a) = ingest_start(names(&["notes"]), Some("other"));
    assert!(matches!(a.as_slice(), [IngestAction::Finish]));
}
