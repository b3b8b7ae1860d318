use codex_beacon::rollout::{
    enrich_codex_sessions, is_rollout_file_for, parse_rollout_activity, read_rollout_tail_activity,
    refresh_rollout_activity, rollout_tail_start, CachedRolloutActivity, DirectoryEntry, EntryKind,
    RolloutActivity, RolloutSearch, RolloutTerminal,
};
use codex_beacon::sessions::CodexSession;

fn quoted(text: &str) -> String {
    serde_json::to_string(text).expect("quote text")
}

fn response_item(payload: &str) -> String {
    format!("{{\"type\":\"response_item\",\"payload\":{payload}}}")
}

fn event_msg(payload: &str) -> String {
    format!("{{\"type\":\"event_msg\",\"payload\":{payload}}}")
}

fn function_call(name: &str, arguments: &str, call_id: &str) -> String {
    response_item(&format!(
        "{{\"type\":\"function_call\",\"name\":{},\"arguments\":{},\"call_id\":{}}}",
        quoted(name),
        quoted(arguments),
        quoted(call_id)
    ))
}

fn function_call_output(call_id: &str, output: &str) -> String {
    response_item(&format!(
        "{{\"type\":\"function_call_output\",\"call_id\":{},\"output\":{}}}",
        quoted(call_id),
        quoted(output)
    ))
}

#[test]
fn rollout_activity_tracks_plan_and_pending_approval() {
    let plan_arguments = "{\"plan\":[{\"status\":\"completed\",\"step\":\"检查接口\"},{\"status\":\"in_progress\",\"step\":\"构建 Windows 应用\"},{\"status\":\"pending\",\"step\":\"验证安装包\"}]}";
    let approval_arguments = "{\"cmd\":\"pnpm tauri build\",\"sandbox_permissions\":\"require_escalated\"}";
    let content = [
        function_call("update_plan", plan_arguments, "plan"),
        function_call_output("plan", "ok"),
        function_call("exec_command", approval_arguments, "approval"),
    ]
    .join("\n");

    let activity = parse_rollout_activity(&content);

    assert_eq!(activity.plan_completed, 1);
    assert_eq!(activity.plan_total, 3);
    assert_eq!(activity.current_step, "构建 Windows 应用");
    assert_eq!(activity.attention, "approval");
    assert_eq!(activity.activity, "等待你批准 Codex 操作");
}

#[test]
fn rollout_activity_clears_attention_after_tool_output() {
    let content = [
        function_call(
            "exec_command",
            "{\"sandbox_permissions\":\"require_escalated\"}",
            "approval",
        ),
        function_call_output("approval", "done"),
    ]
    .join("\n");

    assert!(parse_rollout_activity(&content).attention.is_empty());
}

#[test]
fn rollout_activity_ignores_attention_from_an_older_turn() {
    let content = [
        function_call(
            "exec_command",
            "{\"sandbox_permissions\":\"require_escalated\"}",
            "old-approval",
        ),
        event_msg("{\"type\":\"task_started\",\"turn_id\":\"new-turn\"}"),
        event_msg("{\"type\":\"agent_reasoning\",\"text\":\"working\"}"),
    ]
    .join("\n");

    let activity = parse_rollout_activity(&content);

    assert!(activity.attention.is_empty());
    assert_eq!(activity.activity, "正在分析下一步");
}

#[test]
fn rollout_activity_marks_interrupted_turn_failed() {
    let content = [
        event_msg("{\"type\":\"task_started\",\"turn_id\":\"stopped-turn\"}"),
        event_msg(
            "{\"type\":\"turn_aborted\",\"turn_id\":\"stopped-turn\",\"reason\":\"interrupted\",\"completed_at\":1784790288}",
        ),
    ]
    .join("\n");

    let activity = parse_rollout_activity(&content);
    let terminal = activity
        .terminal_turn("stopped-turn")
        .expect("interrupted turn should be terminal");

    assert_eq!(terminal.phase, "failed");
    assert_eq!(terminal.updated_at, 1_784_790_288_000);
}

#[test]
fn empty_rollout_gives_the_starting_activity() {
    let activity = parse_rollout_activity("");
    assert_eq!(activity.activity, "正在分析任务");
    assert!(activity.attention.is_empty());
    assert_eq!(activity.plan_total, 0);
    assert!(activity.terminal_turns.is_empty());
}

#[test]
fn lines_that_are_not_json_are_skipped() {
    let content = [
        "not json".to_string(),
        event_msg("{\"type\":\"task_started\",\"turn_id\":\"t\"}"),
        "{broken".to_string(),
    ]
    .join("\n");
    assert_eq!(parse_rollout_activity(&content).activity, "正在分析任务");
}

#[test]
fn rollout_tail_starts_two_mebibytes_before_the_end() {
    assert_eq!(rollout_tail_start(100), 0);
    assert_eq!(rollout_tail_start(2 * 1024 * 1024), 0);
    assert_eq!(rollout_tail_start(2 * 1024 * 1024 + 10), 10);
}

#[test]
fn a_cut_first_line_of_the_tail_is_dropped() {
    let first = event_msg("{\"type\":\"turn_aborted\",\"turn_id\":\"x\",\"completed_at\":5}");
    let second = event_msg("{\"type\":\"task_started\",\"turn_id\":\"t\"}");
    let text = format!("{first}\n{second}");
    assert!(read_rollout_tail_activity(&text, 5).terminal_turn("x").is_none());
    assert_eq!(
        read_rollout_tail_activity(&text, 0).terminal_turn("x").expect("whole file").updated_at,
        5_000
    );
}

#[test]
fn rollout_file_names_end_with_the_session_id() {
    let id = "019f8ca3-5c75-7c71-8c3d-59eacd1f284a";
    assert!(is_rollout_file_for(
        "rollout-2026-01-01T00-00-00-019f8ca3-5c75-7c71-8c3d-59eacd1f284a.jsonl",
        id
    ));
    assert!(!is_rollout_file_for("rollout-019f8ca3.jsonl", id));
    assert!(!is_rollout_file_for(
        "019f8ca3-5c75-7c71-8c3d-59eacd1f284a.jsonl",
        id
    ));
}

#[test]
fn rollout_search_goes_depth_first_and_stops_at_the_rollout() {
    let id = "019f8ca3-5c75-7c71-8c3d-59eacd1f284a";
    assert!(RolloutSearch::new("not-an-id", "sessions".to_string()).is_none());
    let mut search = RolloutSearch::new(id, "sessions".to_string()).expect("valid id");
    assert_eq!(search.next_directory(), Some("sessions".to_string()));
    let found = search.visit(vec![
        DirectoryEntry { path: "sessions/2025".to_string(), file_name: "2025".to_string(), kind: EntryKind::Directory },
        DirectoryEntry { path: "sessions/2026".to_string(), file_name: "2026".to_string(), kind: EntryKind::Directory },
        DirectoryEntry { path: "sessions/notes".to_string(), file_name: "notes".to_string(), kind: EntryKind::File },
    ]);
    assert_eq!(found, None);
    assert_eq!(search.next_directory(), Some("sessions/2026".to_string()));
    let rollout = format!("rollout-x-{id}.jsonl");
    let found = search.visit(vec![
        DirectoryEntry { path: "sessions/2026/link".to_string(), file_name: rollout.clone(), kind: EntryKind::Other },
        DirectoryEntry { path: format!("sessions/2026/{rollout}"), file_name: rollout.clone(), kind: EntryKind::File },
        DirectoryEntry { path: "sessions/2026/deeper".to_string(), file_name: "deeper".to_string(), kind: EntryKind::Directory },
    ]);
    assert_eq!(found, Some(format!("sessions/2026/{rollout}")));
    assert_eq!(search.pending, vec!["sessions/2025".to_string()]);
}

fn session(session_id: &str, turn_id: &str, phase: &str, started_at: i64, updated_at: i64) -> CodexSession {
    CodexSession {
        session_id: session_id.to_string(),
        turn_id: turn_id.to_string(),
        phase: phase.to_string(),
        prompt: String::new(),
        cwd: String::new(),
        model: String::new(),
        last_assistant_message: String::new(),
        started_at,
        updated_at,
        activity: String::new(),
        attention: String::new(),
        plan_completed: 0,
        plan_total: 0,
        current_step: String::new(),
    }
}

fn activity_with_end(turn_id: &str, phase: &str, updated_at: i64) -> RolloutActivity {
    RolloutActivity {
        activity: "正在运行命令".to_string(),
        attention: "approval".to_string(),
        plan_completed: 2,
        plan_total: 4,
        current_step: "step".to_string(),
        updated_at: 50,
        terminal_turns: vec![(
            turn_id.to_string(),
            RolloutTerminal { phase: phase.to_string(), updated_at },
        )],
    }
}

#[test]
fn enrichment_takes_live_activity_or_the_turn_end() {
    let mut sessions = vec![
        session("a", "live", "running", 1, 10),
        session("b", "done", "stale", 1, 10),
        session("c", "idle-turn", "completed", 1, 10),
        session("d", "no-rollout", "running", 1, 10),
    ];
    let activities = vec![
        Some(activity_with_end("other", "completed", 5)),
        Some(activity_with_end("done", "completed", 99)),
        Some(activity_with_end("other", "completed", 5)),
        None,
    ];
    enrich_codex_sessions(&mut sessions, &activities);

    assert_eq!(sessions[0].activity, "正在运行命令");
    assert_eq!(sessions[0].attention, "approval");
    assert_eq!(sessions[0].plan_completed, 2);
    assert_eq!(sessions[0].plan_total, 4);
    assert_eq!(sessions[0].updated_at, 50);
    assert_eq!(sessions[0].phase, "running");

    assert_eq!(sessions[1].phase, "completed");
    assert_eq!(sessions[1].activity, "任务已完成");
    assert!(sessions[1].attention.is_empty());
    assert_eq!(sessions[1].updated_at, 99);

    assert_eq!(sessions[2].activity, "");
    assert_eq!(sessions[2].updated_at, 10);
    assert_eq!(sessions[3].activity, "");
}

#[test]
fn refreshed_activity_keeps_cached_turn_ends_while_the_file_grows() {
    let cached = CachedRolloutActivity {
        file_length: 100,
        modified_at: 1,
        activity: activity_with_end("old-turn", "failed", 7),
    };
    let fresh = activity_with_end("new-turn", "completed", 8);
    let refreshed = refresh_rollout_activity(fresh, Some(&cached), 200, 1234);
    assert_eq!(refreshed.updated_at, 1234);
    assert_eq!(refreshed.terminal_turn("old-turn").expect("kept").phase, "failed");
    assert_eq!(refreshed.terminal_turn("new-turn").expect("fresh").phase, "completed");

    let shrunk = refresh_rollout_activity(activity_with_end("new-turn", "completed", 8), Some(&cached), 50, 9);
    assert!(shrunk.terminal_turn("old-turn").is_none());
}
