use codex_beacon::status::{codex_thread_url, is_valid_codex_thread_id};

#[test]
fn codex_thread_links_only_accept_uuid_ids() {
    assert!(is_valid_codex_thread_id(
        "019f8ca3-5c75-7c71-8c3d-59eacd1f284a"
    ));
    assert!(!is_valid_codex_thread_id(
        "019f8ca3-5c75-7c71-8c3d-59eacd1f284a?unsafe=true"
    ));
    assert!(!is_valid_codex_thread_id("codex://threads/example"));
}

#[test]
fn thread_ids_need_dashes_in_place_and_hex_elsewhere() {
    assert!(is_valid_codex_thread_id("ABCDEF01-2345-6789-abcd-ef0123456789"));
    assert!(!is_valid_codex_thread_id("019f8ca3x5c75-7c71-8c3d-59eacd1f284a"));
    assert!(!is_valid_codex_thread_id("019f8ca3-5c75-7c71-8c3d-59eacd1f284g"));
    assert!(!is_valid_codex_thread_id("019f8ca3-5c75-7c71-8c3d-59eacd1f284"));
    assert!(!is_valid_codex_thread_id(""));
    assert!(!is_valid_codex_thread_id("019f8ca3-5c75-7c71-8c3d-59eacd1f28é"));
}

#[test]
fn thread_url_is_built_for_valid_ids_only() {
    assert_eq!(
        codex_thread_url("019f8ca3-5c75-7c71-8c3d-59eacd1f284a"),
        Ok("codex://threads/019f8ca3-5c75-7c71-8c3d-59eacd1f284a".to_string())
    );
    assert_eq!(
        codex_thread_url("codex://threads/example"),
        Err("Codex task ID is invalid.".to_string())
    );
}

use codex_beacon::sessions::CodexSession;
use codex_beacon::status::{cleared_codex_status, codex_integration_status, codex_status_snapshot};

fn session(session_id: &str, phase: &str, updated_at: i64) -> CodexSession {
    CodexSession {
        session_id: session_id.to_string(),
        turn_id: "t".to_string(),
        phase: phase.to_string(),
        prompt: String::new(),
        cwd: String::new(),
        model: String::new(),
        last_assistant_message: String::new(),
        started_at: 1,
        updated_at,
        activity: String::new(),
        attention: String::new(),
        plan_completed: 0,
        plan_total: 0,
        current_step: String::new(),
    }
}

#[test]
fn status_snapshot_tidies_sessions_and_falls_back_to_now() {
    let snapshot = codex_status_snapshot(
        vec![session("", "running", 5), session("a", "done", 3), session("b", "running", 2)],
        0,
        1_000,
        "status.json".to_string(),
    );
    assert_eq!(snapshot.updated_at, 1_000);
    assert_eq!(snapshot.status_path, "status.json");
    let ids: Vec<&str> = snapshot.sessions.iter().map(|s| s.session_id.as_str()).collect();
    assert_eq!(ids, vec!["b", "a"]);
    assert_eq!(snapshot.sessions[1].phase, "idle");

    let kept = codex_status_snapshot(Vec::new(), 42, 1_000, "s".to_string());
    assert_eq!(kept.updated_at, 42);
}

#[test]
fn cleared_status_has_no_sessions() {
    let cleared = cleared_codex_status(77, "status.json".to_string());
    assert!(cleared.sessions.is_empty());
    assert_eq!(cleared.updated_at, 77);
}

#[test]
fn integration_is_verified_only_when_configured() {
    let hooks = r#"{"hooks":{"UserPromptSubmit":["codex-beacon-event.ps1"],"Stop":["codex-beacon-event.ps1"]}}"#;
    let marker = r#"{"verifiedAt":5}"#;
    let status = codex_integration_status(
        true,
        Some(hooks),
        Some(marker),
        "h".to_string(),
        "s".to_string(),
        "v".to_string(),
    );
    assert!(status.configured);
    assert!(status.verified);
    assert_eq!(status.hooks_path, "h");

    let no_script = codex_integration_status(false, Some(hooks), Some(marker), String::new(), String::new(), String::new());
    assert!(!no_script.configured);
    assert!(!no_script.verified);

    let waiting = codex_integration_status(true, Some(hooks), None, String::new(), String::new(), String::new());
    assert!(waiting.configured);
    assert!(!waiting.verified);
}
