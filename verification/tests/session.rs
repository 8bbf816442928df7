use cognicode_explorer::session::{
    enrich_question, generate_session_id, BrainSessionState, HistoryEntry, SessionError, SessionRegistry,
    DEFAULT_HISTORY_CAP, DEFAULT_TTL_SECS,
};

const SECOND: i64 = 1_000_000_000;
const T0: i64 = 1_700_000_000 * SECOND;

#[test]
fn service_enrich_question_prepends_focus_as_backtick_token() {
    let focus: Option<String> = Some("Foo::bar".into());
    let question = "what does it call?";
    let enriched = enrich_question(focus.as_deref(), question);
    assert_eq!(enriched, "`Foo::bar` what does it call?");
}

#[test]
fn service_enrich_question_passthrough_when_no_focus() {
    let focus: Option<String> = None;
    let question = "what does it call?";
    let enriched = enrich_question(focus.as_deref(), question);
    assert_eq!(enriched, "what does it call?");
}

#[test]
fn service_set_focus_stores_value() {
    let mut s = BrainSessionState::new(
        "00000000-0000-4000-8000-000000000001".into(),
        "ws".into(),
        DEFAULT_TTL_SECS,
        T0,
    );
    assert!(s.focus_node().is_none());
    s.set_focus(Some("Foo::bar".into()));
    assert_eq!(s.focus_node(), Some("Foo::bar".into()));
}

#[test]
fn service_set_focus_none_clears() {
    let mut s = BrainSessionState::new(
        "00000000-0000-4000-8000-000000000002".into(),
        "ws".into(),
        DEFAULT_TTL_SECS,
        T0,
    );
    s.set_focus(Some("Foo::bar".into()));
    s.set_focus(None);
    assert!(s.focus_node().is_none());
}

#[test]
fn service_history_caps_at_50_fifo() {
    let mut s = BrainSessionState::new(
        "00000000-0000-4000-8000-000000000003".into(),
        "ws".into(),
        DEFAULT_TTL_SECS,
        T0,
    );
    for i in 0..55 {
        s.push_history(HistoryEntry {
            question: format!("q-{i:03}"),
            answer_summary: format!("a-{i:03}"),
            pattern_id: 0,
            ts: T0 + i as i64,
        });
    }
    assert_eq!(s.history_len(), 50, "history must cap at 50");
    assert_eq!(
        s.history_first_question().as_deref(),
        Some("q-005"),
        "oldest must be q-005 after 55 pushes (cap 50)"
    );
    assert_eq!(s.history_last_question().as_deref(), Some("q-054"), "newest must be q-054");
}

#[test]
fn registry_attach_unknown_id_returns_session_not_found() {
    let mut reg = SessionRegistry::new();
    let result = reg.attach("00000000-0000-4000-8000-000000000000", T0);
    assert!(matches!(result, Err(SessionError::NotFound)));
}

#[test]
fn registry_close_unknown_id_returns_false_idempotent() {
    let mut reg = SessionRegistry::new();
    assert!(!reg.close("deadbeef-0000-4000-8000-000000000000"));
    assert!(!reg.close("deadbeef-0000-4000-8000-000000000000"));
}

#[test]
fn registry_close_known_id_returns_true_and_removes_session() {
    let mut reg = SessionRegistry::new();
    let id = reg.open("ws-1".into(), DEFAULT_TTL_SECS, T0);
    assert_eq!(reg.len(), 1);
    assert!(reg.close(&id));
    assert_eq!(reg.len(), 0);
    assert!(matches!(reg.attach(&id, T0), Err(SessionError::NotFound)));
    assert!(!reg.close(&id));
}

#[test]
fn registry_ttl_zero_disables_expiry() {
    let mut reg = SessionRegistry::new();
    let id = reg.open("ws-forever".into(), 0, T0);
    let _id2 = reg.open("ws-other".into(), DEFAULT_TTL_SECS, T0 + 100_000 * SECOND);
    assert!(reg.attach(&id, T0 + 100_000 * SECOND).is_ok(), "ttl=0 session must survive eviction");
}

#[test]
fn registry_lazy_eviction_drops_expired_sessions() {
    let mut reg = SessionRegistry::new();
    let stale = reg.open("ws-stale".into(), 1, T0);
    let later = T0 + 1_100_000_000;
    let _fresh = reg.open("ws-fresh".into(), DEFAULT_TTL_SECS, later);
    assert!(matches!(reg.attach(&stale, later), Err(SessionError::NotFound)));
}

#[test]
fn registry_get_does_not_refresh_last_activity() {
    let mut reg = SessionRegistry::new();
    let id = reg.open("ws-get".into(), 1, T0);
    assert!(reg.get(&id, T0 + 600_000_000).is_ok(), "get within TTL");
    let later = T0 + 1_200_000_000;
    let _trigger = reg.open("ws-trigger".into(), DEFAULT_TTL_SECS, later);
    assert!(matches!(reg.get(&id, later), Err(SessionError::NotFound)));
}

#[test]
fn attach_refreshes_last_activity() {
    let mut reg = SessionRegistry::new();
    let id = reg.open("ws".into(), 1, T0);
    assert!(reg.attach(&id, T0 + 900_000_000).is_ok());
    // One second after the attach, not after the open: still alive.
    let st = reg.get(&id, T0 + 1_800_000_000).expect("alive after attach");
    assert_eq!(st.workspace_id, "ws");
    assert_eq!(st.last_activity, T0 + 900_000_000);
}

#[test]
fn session_error_codes() {
    assert_eq!(SessionError::NotFound.message(), "session_not_found");
    assert_eq!(SessionError::Expired.message(), "session_expired");
    assert_eq!(DEFAULT_HISTORY_CAP, 50);
}

#[test]
fn registry_open_returns_uuid_and_workspace_id() {
    let mut reg = SessionRegistry::new();
    let id = reg.open("ws-alpha".into(), DEFAULT_TTL_SECS, T0);
    assert_eq!(id.len(), 36, "session id must be 36 chars, got `{id}`");
    assert_eq!(id.chars().filter(|c| *c == '-').count(), 4);
    let hex_count = id.chars().filter(|c| c.is_ascii_hexdigit()).count();
    assert_eq!(hex_count, 32);
    reg.attach(&id, T0).expect("attach after open");
    let st = reg.get(&id, T0).expect("open");
    assert_eq!(st.workspace_id, "ws-alpha");
    assert_eq!(st.session_id, id);
}

#[test]
fn session_ids_follow_the_clock() {
    for nanos in [0u64, 1, 1_700_000_000_000_000_000, u64::MAX] {
        let id = generate_session_id(nanos, 7);
        assert_eq!(id.len(), 36);
        let c: Vec<char> = id.chars().collect();
        assert_eq!(c[14], '4');
        assert!(matches!(c[19], '8' | '9' | 'a' | 'b'));
        for (i, ch) in c.iter().enumerate() {
            if [8, 13, 18, 23].contains(&i) {
                assert_eq!(*ch, '-');
            } else {
                assert!(ch.is_ascii_hexdigit() && !ch.is_ascii_uppercase());
            }
        }
        assert_eq!(generate_session_id(nanos, 7), id);
    }
    assert_ne!(generate_session_id(1, 0), generate_session_id(2, 0));
}

#[test]
fn session_ids_from_one_instant_differ() {
    let a = generate_session_id(5, 0);
    let b = generate_session_id(5, 1);
    assert_ne!(a, b);
    assert_eq!(&a[21..], "00-000000000000");
    assert_eq!(&b[21..], "01-000000000000");
}

#[test]
fn two_sessions_opened_at_one_instant_both_stay_open() {
    let mut reg = SessionRegistry::new();
    let a = reg.open("ws".to_string(), 60, 1_000);
    let b = reg.open("ws".to_string(), 60, 1_000);
    assert_ne!(a, b);
    assert_eq!(reg.len(), 2);
    assert!(reg.get(&a, 1_000).is_ok());
    assert!(reg.get(&b, 1_000).is_ok());
}

#[test]
fn touch_marks_activity_only() {
    let mut s = BrainSessionState::new("id".into(), "ws".into(), 5, T0);
    s.set_focus(Some("f".into()));
    s.touch(T0 + 3 * SECOND);
    assert_eq!(s.last_activity, T0 + 3 * SECOND);
    assert_eq!(s.created_at, T0);
    assert_eq!(s.focus_node().as_deref(), Some("f"));
    assert_eq!(s.history_len(), 0);
    assert!(s.history_first_question().is_none());
}
