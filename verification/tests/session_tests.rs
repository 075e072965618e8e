use workforest_core::registry::{AgentMeta, RegistryError, SessionRegistry};
use workforest_core::session::{PtySize, Session};
use workforest_core::snapshot::{default_terminal_snapshot, ScrollRegion, TerminalColor};

fn size() -> PtySize {
    PtySize { rows: 24, cols: 80 }
}

fn meta(tool: &str, worktree: &str) -> Option<AgentMeta> {
    Some(AgentMeta { tool: tool.to_string(), worktree_path: worktree.to_string() })
}

#[test]
fn session_chunk_updates_history_and_snapshot() {
    let mut s = Session::new(
        "demo".to_string(),
        "opencode".to_string(),
        "/tmp/wt".to_string(),
        size(),
        64,
    );
    s.apply_chunk(b"hello\x1b[31m", &Vec::new());
    assert_eq!(s.history.snapshot_bytes(), b"hello\x1b[31m".to_vec());
    assert_eq!(s.builder.snapshot.attributes.foreground, TerminalColor::Ansi(1));
}

#[test]
fn attach_replies_with_history_and_snapshot_of_one_instant() {
    let mut s = Session::new(
        "demo".to_string(),
        "opencode".to_string(),
        "/tmp/wt".to_string(),
        size(),
        64,
    );
    s.apply_chunk(b"abc", &Vec::new());
    let reply = s.attach();
    assert_eq!(reply.history, b"abc".to_vec());
    assert_eq!(reply.snapshot, s.builder.snapshot);
    assert_eq!(reply.subscriber_id, 0);
    assert_eq!(s.subscribers.len(), 1);
}

#[test]
fn failed_subscriber_writes_remove_only_the_failed() {
    let mut s = Session::new(
        "demo".to_string(),
        "opencode".to_string(),
        "/tmp/wt".to_string(),
        size(),
        1024,
    );
    let first = s.attach().subscriber_id;
    let second = s.attach().subscriber_id;
    assert_ne!(first, second);
    s.apply_chunk(b"data", &vec![false, true]);
    assert_eq!(s.subscribers.len(), 1);
    assert_eq!(s.subscribers[0].id, second);
    s.apply_chunk(b"more", &vec![true]);
    assert_eq!(s.subscribers.len(), 1);
}

#[test]
fn start_session_is_idempotent() {
    let mut r = SessionRegistry::new(1024);
    let started = r.start_session(
        &"demo".to_string(),
        &"opencode".to_string(),
        &"/tmp/wt".to_string(),
        size(),
    );
    assert!(started);
    let again = r.start_session(
        &"demo".to_string(),
        &"aider".to_string(),
        &"/elsewhere".to_string(),
        size(),
    );
    assert!(!again);
    assert_eq!(r.sessions.len(), 1);
    assert_eq!(r.sessions[0].tool, "opencode");
}

#[test]
fn stop_then_ensure_reinstalls_from_metadata() {
    let mut r = SessionRegistry::new(1024);
    r.start_session(
        &"demo".to_string(),
        &"opencode".to_string(),
        &"/tmp/wt".to_string(),
        size(),
    );
    let existed = r.stop_session(&"demo".to_string());
    assert!(existed);
    assert_eq!(r.sessions.len(), 0);

    let ensured = r.ensure_session(&"demo".to_string(), &meta("codex", "/tmp/wt"), size());
    assert_eq!(ensured, Ok(true));
    assert_eq!(r.sessions.len(), 1);
    assert_eq!(r.sessions[0].tool, "codex");
    assert_eq!(r.sessions[0].worktree_path, "/tmp/wt");
    assert_eq!(r.sessions[0].history.len(), 0);
}

#[test]
fn ensure_unknown_agent_fails() {
    let mut r = SessionRegistry::new(1024);
    let ensured = r.ensure_session(&"ghost".to_string(), &None, size());
    assert_eq!(ensured, Err(RegistryError::UnknownAgent));
    assert_eq!(r.sessions.len(), 0);
}

#[test]
fn attach_auto_starts_absent_session() {
    let mut r = SessionRegistry::new(1024);
    let reply = r
        .handle_attach(&"demo".to_string(), &meta("opencode", "/tmp/wt"), size())
        .unwrap();
    assert_eq!(reply.history.len(), 0);
    assert_eq!(reply.snapshot, default_terminal_snapshot());
    assert_eq!(r.sessions.len(), 1);
    assert_eq!(r.sessions[0].subscribers.len(), 1);
}

#[test]
fn attach_without_metadata_fails() {
    let mut r = SessionRegistry::new(1024);
    let reply = r.handle_attach(&"ghost".to_string(), &None, size());
    assert!(matches!(reply, Err(RegistryError::UnknownAgent)));
}

#[test]
fn attach_with_empty_name_is_rejected() {
    let mut r = SessionRegistry::new(1024);
    // Even with metadata on offer, an empty name starts nothing.
    let reply = r.handle_attach(&String::new(), &meta("opencode", "/tmp/wt"), size());
    assert!(matches!(reply, Err(RegistryError::EmptyName)));
    assert_eq!(r.sessions.len(), 0);
}

#[test]
fn resize_rejects_zero_and_clears_scroll_region() {
    let mut r = SessionRegistry::new(1024);
    r.start_session(
        &"demo".to_string(),
        &"opencode".to_string(),
        &"/tmp/wt".to_string(),
        size(),
    );
    // Latch a scroll region first.
    let mut idx = None;
    for (i, s) in r.sessions.iter().enumerate() {
        if s.agent_name == "demo" {
            idx = Some(i);
        }
    }
    let i = idx.unwrap();
    r.sessions[i].apply_chunk(b"\x1b[3;10r", &Vec::new());
    assert_eq!(
        r.sessions[i].builder.snapshot.scroll_region,
        Some(ScrollRegion { top: 2, bottom: 9 })
    );

    let rejected = r.handle_resize(&"demo".to_string(), 0, 24);
    assert_eq!(rejected, Err(RegistryError::InvalidSize));
    assert_eq!(
        r.sessions[i].builder.snapshot.scroll_region,
        Some(ScrollRegion { top: 2, bottom: 9 })
    );

    let accepted = r.handle_resize(&"demo".to_string(), 100, 40);
    assert_eq!(accepted, Ok(()));
    assert_eq!(r.sessions[i].size, PtySize { rows: 40, cols: 100 });
    assert_eq!(r.sessions[i].builder.snapshot.scroll_region, None);
}

#[test]
fn resize_of_unknown_agent_fails() {
    let mut r = SessionRegistry::new(1024);
    let rejected = r.handle_resize(&"ghost".to_string(), 80, 24);
    assert_eq!(rejected, Err(RegistryError::UnknownAgent));
}

#[test]
fn empty_input_succeeds_without_a_write() {
    let mut r = SessionRegistry::new(1024);
    let outcome = r.handle_input(
        &"demo".to_string(),
        &meta("opencode", "/tmp/wt"),
        size(),
        b"",
    );
    assert_eq!(outcome, Ok(false));
    assert_eq!(r.sessions.len(), 1);

    let write = r.handle_input(
        &"demo".to_string(),
        &meta("opencode", "/tmp/wt"),
        size(),
        b"ls\n",
    );
    assert_eq!(write, Ok(true));
}
