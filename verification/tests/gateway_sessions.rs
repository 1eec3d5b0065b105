use conga_core::gateway::{
    already_connected_message, commands, cors_entries, default_cors_origins, delete_outcome,
    done_event, DeleteOutcome, Done, is_loopback_host, route_idle, route_in_turn, search_limit, status_of,
    unknown_session_message, ws_session_id, Connections, IdleAction, ToolNames, TurnAction, Usage,
    step, Conn, Frame, Phase, Wire, WsAction, WsEvent,
};
use conga_core::sessions::{
    block_text, delete_check, event_rows, fts_phrase, has_session_data, newest_first_order,
    plan_reindex, rename_name, search_query, session_ids, Block, EventRole, IndexEvent,
    IndexMessage, SessionApiError, Stats,
};

#[test]
fn ws_session_id_uses_only_valid_client_ids() {
    assert_eq!(ws_session_id(Some("user-1"), "fresh".to_string()), "user-1");
    assert_eq!(ws_session_id(Some("../etc"), "fresh".to_string()), "fresh");
    assert_eq!(ws_session_id(None, "fresh".to_string()), "fresh");
    assert_eq!(already_connected_message("s1"), "session already connected: s1");
}

#[test]
fn concurrent_same_id_upgrades_register_exactly_one() {
    let mut live = Connections::new();
    let first = live.claim("s1");
    let second = live.claim("s1");
    assert!(first && !second);
    assert!(live.contains("s1"));
    live.release("s1");
    assert!(!live.contains("s1"));
    assert!(live.claim("s1"));
}

#[test]
fn idle_frames_route_by_type_and_command() {
    assert!(matches!(route_idle("message", Some("hello")), IdleAction::RunTurn(t) if t == "hello"));
    assert!(matches!(route_idle("message", Some("   ")), IdleAction::Ignore));
    assert!(matches!(route_idle("message", None), IdleAction::Ignore));
    assert!(matches!(route_idle("message", Some("/clear")), IdleAction::Clear));
    assert!(matches!(route_idle("message", Some("/help me")), IdleAction::Reply(m) if m == "commands: /clear  /help"));
    assert!(matches!(route_idle("message", Some("/nope x")), IdleAction::ReplyError(m) if m == "unknown command /nope"));
    assert!(matches!(route_idle("message", Some("/  ")), IdleAction::Ignore));
    assert!(matches!(route_idle("cancel", None), IdleAction::Cancel));
    assert!(matches!(route_idle("approval_response", None), IdleAction::ApprovalResponse));
    assert!(matches!(route_idle("bogus", None), IdleAction::Unknown));
    let cmds = commands();
    assert_eq!(cmds.len(), 2);
    assert_eq!(cmds[1].aliases, vec!["?".to_string()]);
}

#[test]
fn turn_frames_steer_messages() {
    assert!(matches!(route_in_turn("message", Some("more")), TurnAction::Steer(t) if t == "more"));
    assert!(matches!(route_in_turn("message", Some(" ")), TurnAction::Ignore));
    assert!(matches!(route_in_turn("cancel", None), TurnAction::Cancel));
    assert!(matches!(route_in_turn("approval_response", None), TurnAction::ApprovalResponse));
    assert!(matches!(route_in_turn("x", None), TurnAction::Unknown));
}

#[test]
fn usage_accumulates_and_resets() {
    let mut u = Usage::new();
    u.add_response(10, 5, Some(3), None);
    u.add_response(20, 1, None, Some(4));
    assert_eq!(u.usage_in, 30);
    assert_eq!(u.usage_out, 6);
    assert_eq!(u.cache_read, 3);
    assert_eq!(u.cache_write, 4);
    assert_eq!(u.last_input_tokens, 20);
    u.add_subagent(1, 1, 1, 1);
    assert_eq!(u.usage_in, 31);
    let d = done_event(&u, Some(1200));
    assert_eq!(d, Done::Summary { usage_in: 31, usage_out: 7, cache_read: 4, cache_write: 5, elapsed_ms: 1200 });
    assert_eq!(done_event(&u, Some(0)), Done::Plain);
    assert_eq!(done_event(&u, None), Done::Plain);
    u.reset();
    assert_eq!(u, Usage::new());
}

#[test]
fn tool_names_remember_started_calls() {
    let mut t = ToolNames::new();
    t.started("c1", "bash");
    t.started("c2", "read");
    assert_eq!(t.name_of("c1"), Some("bash".to_string()));
    assert_eq!(t.name_of("zz"), None);
    t.clear();
    assert_eq!(t.name_of("c1"), None);
}

#[test]
fn api_errors_map_to_statuses() {
    assert_eq!(status_of(&SessionApiError::BadRequest("x".to_string())), 400);
    assert_eq!(status_of(&SessionApiError::NotFound("x".to_string())), 404);
    assert_eq!(status_of(&SessionApiError::Internal("x".to_string())), 500);
    assert_eq!(unknown_session_message("k"), "unknown session: k");
    assert_eq!(search_limit(None), 20);
    assert_eq!(search_limit(Some(500)), 100);
    assert_eq!(search_limit(Some(0)), 1);
}

#[test]
fn cors_defaults_to_loopback() {
    assert!(is_loopback_host("127.0.0.1"));
    assert!(is_loopback_host("localhost"));
    assert!(!is_loopback_host("0.0.0.0"));
    assert_eq!(default_cors_origins(), vec!["http://localhost:1420".to_string(), "http://127.0.0.1:1420".to_string()]);
    assert_eq!(cors_entries(" https://a , ,https://b "), vec!["https://a".to_string(), "https://b".to_string()]);
}

#[test]
fn delete_refuses_a_connected_session() {
    assert_eq!(delete_outcome(true, Some(true)), Some(DeleteOutcome::Conflict));
    assert_eq!(delete_outcome(false, Some(true)), Some(DeleteOutcome::Deleted));
    assert_eq!(delete_outcome(false, Some(false)), Some(DeleteOutcome::NotFound));
    assert_eq!(delete_outcome(false, None), None);
}

#[test]
fn rename_rejects_empty_and_overlong_names() {
    assert_eq!(rename_name("s1", "  my chat  ").unwrap(), "my chat");
    assert!(matches!(rename_name("s1", "   "), Err(SessionApiError::BadRequest(m)) if m == "name must be 1..=200 chars"));
    assert!(rename_name("s1", &"x".repeat(201)).is_err());
    assert!(rename_name("s1", &"字".repeat(200)).is_ok());
    assert!(matches!(rename_name("../x", "n"), Err(SessionApiError::BadRequest(m)) if m == "invalid session id"));
    assert!(delete_check("s1").is_ok());
    assert!(delete_check("a/b").is_err());
    assert!(matches!(search_query("  "), Err(SessionApiError::BadRequest(m)) if m == "q must be non-empty"));
    assert_eq!(search_query(" q ").unwrap(), "q");
    assert!(has_session_data(false, true));
    assert!(!has_session_data(false, false));
}

#[test]
fn listing_is_newest_first_and_stable() {
    assert_eq!(newest_first_order(&vec![5, 9, 5, 1, 9]), vec![1, 4, 0, 2, 3]);
    assert!(newest_first_order(&Vec::new()).is_empty());
}

#[test]
fn session_ids_keep_valid_names_sorted() {
    let names = vec!["b".to_string(), "bad/one".to_string(), "a".to_string(), ".hidden".to_string()];
    assert_eq!(session_ids(&names), vec!["a".to_string(), "b".to_string()]);
}

#[test]
fn event_rows_extracts_text_and_skips_markers() {
    let events = vec![
        IndexEvent::Marker,
        IndexEvent::Message(EventRole::User, IndexMessage::Blocks(vec![Block::Text("hello".to_string())])),
        IndexEvent::Message(EventRole::Assistant, IndexMessage::Blocks(vec![Block::Other])),
        IndexEvent::Message(
            EventRole::ToolResult,
            IndexMessage::Blocks(vec![Block::Text("a".to_string()), Block::Other, Block::Text("b".to_string())]),
        ),
        IndexEvent::Message(EventRole::User, IndexMessage::Custom),
    ];
    let rows = event_rows(&events);
    assert_eq!(rows.len(), 2);
    assert_eq!((rows[0].seq, rows[0].kind, rows[0].text.as_str()), (1, EventRole::User, "hello"));
    assert_eq!((rows[1].seq, rows[1].kind, rows[1].text.as_str()), (3, EventRole::ToolResult, "a\nb"));
    assert_eq!(block_text(&vec![Block::Other]), "");
}

#[test]
fn reindex_plan_is_incremental() {
    let events = vec![
        IndexEvent::Message(EventRole::User, IndexMessage::Blocks(vec![Block::Text("one".to_string())])),
        IndexEvent::Message(EventRole::Assistant, IndexMessage::Blocks(vec![Block::Text("two".to_string())])),
    ];
    let rows = event_rows(&events);
    let first = plan_reindex(&rows, -1);
    assert_eq!(first.rows.len(), 2);
    assert_eq!(first.mark, 1);
    let again = plan_reindex(&rows, first.mark);
    assert!(again.rows.is_empty());
    assert_eq!(again.mark, 1);
    let mut stats = Stats::new();
    stats.record(first.rows.len());
    stats.record(again.rows.len());
    assert_eq!(stats, Stats { sessions: 1, events_indexed: 2 });
}

#[test]
fn fts_phrase_doubles_quotes() {
    assert_eq!(fts_phrase("say \"hi\""), "\"say \"\"hi\"\"\"");
    assert_eq!(fts_phrase(""), "\"\"");
}

fn text(t: &str, content: Option<&str>) -> WsEvent {
    WsEvent::Frame(Frame::Text { msg_type: Some(t.to_string()), content: content.map(String::from) })
}

#[test]
fn connection_loop_runs_turns_and_closes_cleanly() {
    let idle = Conn { phase: Phase::Idle, timed: false };
    let (c, a) = step(idle, text("message", Some("hi")));
    assert_eq!(c, Conn { phase: Phase::InTurn, timed: true });
    assert!(matches!(a.as_slice(), [WsAction::StartTurn(t)] if t == "hi"));
    let (c, a) = step(c, text("message", Some("also this")));
    assert!(matches!(a.as_slice(), [WsAction::Steer(t), WsAction::Send(Wire::Queued(q))] if t == "also this" && q == "also this"));
    let (c, a) = step(c, text("message", Some("   ")));
    assert!(a.is_empty());
    let (c, a) = step(c, WsEvent::TurnFinished(Some("boom".to_string())));
    assert_eq!(c, Conn { phase: Phase::Idle, timed: true });
    assert!(matches!(a.as_slice(), [WsAction::ClearPending, WsAction::Send(Wire::Done), WsAction::Send(Wire::Error(e))] if e == "boom"));
    let (c, a) = step(c, text("message", Some("/help")));
    assert_eq!(c, Conn { phase: Phase::Idle, timed: false });
    assert!(matches!(a.as_slice(), [WsAction::Send(Wire::Content(m)), WsAction::Send(Wire::Done)] if m == "commands: /clear  /help"));
    let (c, a) = step(c, text("message", Some("/clear")));
    assert!(matches!(a.as_slice(), [WsAction::ClearSession]));
    let (c, a) = step(c, WsEvent::ClearFinished(None));
    assert!(matches!(a.as_slice(), [WsAction::ResetUsage, WsAction::Send(Wire::Content(m)), WsAction::Send(Wire::Done)] if m == "(session cleared)"));
    let (_, a) = step(c, WsEvent::ClearFinished(Some("disk full".to_string())));
    assert!(matches!(a.as_slice(), [WsAction::Send(Wire::Error(m)), WsAction::Send(Wire::Done)] if m == "clear failed: disk full"));
    let (c, a) = step(c, WsEvent::Frame(Frame::Ping(vec![1, 2])));
    assert!(matches!(a.as_slice(), [WsAction::Pong(d)] if d == &vec![1u8, 2]));
    let (_, a) = step(c, WsEvent::Frame(Frame::Text { msg_type: None, content: None }));
    assert!(matches!(a.as_slice(), [WsAction::Warn]));
    let (_, a) = step(c, text("cancel", None));
    assert!(matches!(a.as_slice(), [WsAction::Cancel]));
    let (c, a) = step(c, WsEvent::Frame(Frame::Closed));
    assert_eq!(c.phase, Phase::Closed);
    assert!(matches!(a.as_slice(), [WsAction::End]));
    let (c2, a) = step(c, text("message", Some("late")));
    assert!(a.is_empty() && c2 == c);
}

#[test]
fn close_during_turn_cancels_without_done() {
    let in_turn = Conn { phase: Phase::InTurn, timed: true };
    let (c, a) = step(in_turn, WsEvent::Frame(Frame::Failed));
    assert_eq!(c.phase, Phase::Closed);
    assert!(matches!(a.as_slice(), [WsAction::Cancel, WsAction::ClearPending, WsAction::End]));
    let (_, a) = step(in_turn, text("approval_response", None));
    assert!(matches!(a.as_slice(), [WsAction::Approval]));
    let (_, a) = step(in_turn, text("bogus", None));
    assert!(matches!(a.as_slice(), [WsAction::Warn]));
}

#[test]
fn reindex_after_append_inserts_only_new_rows() {
    let text = |role: EventRole, t: &str| IndexEvent::Message(role, IndexMessage::Blocks(vec![Block::Text(t.to_string())]));
    let mut events = vec![text(EventRole::User, "one"), text(EventRole::Assistant, "two")];
    let first = plan_reindex(&event_rows(&events), -1);
    assert_eq!((first.rows.len(), first.mark), (2, 1));
    events.push(IndexEvent::Marker);
    events.push(text(EventRole::User, "three"));
    events.push(IndexEvent::Message(EventRole::Assistant, IndexMessage::Blocks(vec![Block::Other])));
    let second = plan_reindex(&event_rows(&events), first.mark);
    assert_eq!(second.rows.iter().map(|r| (r.seq, r.text.as_str())).collect::<Vec<_>>(), vec![(3, "three")]);
    assert_eq!(second.mark, 3);
    let mut stats = Stats::new();
    stats.record(second.rows.len());
    assert_eq!((stats.sessions, stats.events_indexed), (1, 1));
}
