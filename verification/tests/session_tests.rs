use codex_beacon::sessions::{normalize_codex_sessions, normalize_codex_sessions_at, CodexSession};

fn now_millis() -> i64 {
    std::time::SystemTime::now()
        .duration_since(std::time::UNIX_EPOCH)
        .map(|duration| duration.as_millis() as i64)
        .unwrap_or_default()
}

fn session(session_id: &str, turn_id: &str, phase: &str, started_at: i64, updated_at: i64) -> CodexSession {
    CodexSession {
        session_id: session_id.to_string(),
        turn_id: turn_id.to_string(),
        phase: phase.to_string(),
        prompt: String::new(),
        cwd: String::new(),
        model: String::new(),
        last_assistant_message: String::new(),
        started_at,
        updated_at,
        activity: String::new(),
        attention: String::new(),
        plan_completed: 0,
        plan_total: 0,
        current_step: String::new(),
    }
}

#[test]
fn only_latest_turn_in_a_thread_stays_running() {
    let now = now_millis();
    let mut sessions = vec![
        session("thread", "stopped-turn", "running", now - 2_000, now - 2_000),
        session("thread", "current-turn", "running", now, now),
    ];

    normalize_codex_sessions(&mut sessions);

    assert_eq!(
        sessions
            .iter()
            .find(|session| session.turn_id == "stopped-turn")
            .expect("stopped turn")
            .phase,
        "failed"
    );
    assert_eq!(
        sessions
            .iter()
            .find(|session| session.turn_id == "current-turn")
            .expect("current turn")
            .phase,
        "running"
    );
}

#[test]
fn stopped_turns_say_so() {
    let mut sessions = vec![
        session("thread", "old", "running", 1_000, 1_000),
        session("thread", "new", "running", 2_000, 2_000),
    ];
    sessions[0].attention = "approval".to_string();
    normalize_codex_sessions_at(&mut sessions, 3_000);
    let old = sessions.iter().find(|s| s.turn_id == "old").expect("old turn");
    assert_eq!(old.phase, "failed");
    assert_eq!(old.activity, "任务已停止");
    assert!(old.attention.is_empty());
}

#[test]
fn sessions_without_ids_are_dropped_and_unknown_phases_become_idle() {
    let mut sessions = vec![
        session("  ", "t", "running", 1, 1),
        session("a", "t", "thinking", 0, 7),
        session("b", "t", "stale", 5, -3),
    ];
    normalize_codex_sessions_at(&mut sessions, 10);
    assert_eq!(sessions.len(), 2);
    assert_eq!(sessions[0].session_id, "a");
    assert_eq!(sessions[0].phase, "idle");
    assert_eq!(sessions[0].started_at, 7);
    assert_eq!(sessions[1].session_id, "b");
    assert_eq!(sessions[1].started_at, 5);
}

#[test]
fn old_running_turns_become_stale() {
    let hour = 60 * 60 * 1000;
    let mut sessions = vec![
        session("a", "t", "running", 1, 10 * hour),
        session("b", "t", "running", 1, 9 * hour),
        session("c", "t", "running", 1, 0),
    ];
    normalize_codex_sessions_at(&mut sessions, 11 * hour);
    assert_eq!(sessions.iter().find(|s| s.session_id == "a").expect("a").phase, "running");
    assert_eq!(sessions.iter().find(|s| s.session_id == "b").expect("b").phase, "stale");
    assert_eq!(sessions.iter().find(|s| s.session_id == "c").expect("c").phase, "running");
}

#[test]
fn running_turns_come_first_then_the_latest_and_at_most_six_stay() {
    let mut sessions = Vec::new();
    for i in 0..8 {
        sessions.push(session(&format!("s{i}"), "t", "completed", 1, i));
    }
    sessions.push(session("r", "t", "running", 1, 0));
    normalize_codex_sessions_at(&mut sessions, 100);
    let ids: Vec<&str> = sessions.iter().map(|s| s.session_id.as_str()).collect();
    assert_eq!(ids, vec!["r", "s7", "s6", "s5", "s4", "s3"]);
}

#[test]
fn equal_ranks_keep_their_order() {
    let mut sessions = vec![
        session("first", "t", "idle", 1, 5),
        session("second", "t", "idle", 1, 5),
    ];
    normalize_codex_sessions_at(&mut sessions, 10);
    assert_eq!(sessions[0].session_id, "first");
    assert_eq!(sessions[1].session_id, "second");
}

#[test]
fn normalizing_twice_at_one_time_changes_nothing() {
    let hour = 60 * 60 * 1000;
    let mut sessions = vec![
        session("a", "old", "running", 1_000, 2_000),
        session("a", "new", "running", 5_000, 3_000),
        session("b", "t", "bogus", 0, 0),
        session("c", "t", "running", 0, 10 * hour),
    ];
    normalize_codex_sessions_at(&mut sessions, 12 * hour);
    let first: Vec<(String, String, String, i64)> = sessions
        .iter()
        .map(|s| (s.session_id.clone(), s.turn_id.clone(), s.phase.clone(), s.started_at))
        .collect();
    normalize_codex_sessions_at(&mut sessions, 12 * hour);
    let second: Vec<(String, String, String, i64)> = sessions
        .iter()
        .map(|s| (s.session_id.clone(), s.turn_id.clone(), s.phase.clone(), s.started_at))
        .collect();
    assert_eq!(first, second);
}
