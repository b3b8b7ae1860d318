use codex_beacon::rollout::{activity_label_for_call, call_requires_approval, parse_rollout_activity};
use codex_beacon::text::compact_activity_text;

#[test]
fn tool_calls_get_labels_by_name_and_command() {
    assert_eq!(activity_label_for_call("apply_patch", ""), "正在修改项目文件");
    assert_eq!(activity_label_for_call("view_image", ""), "正在检查图像");
    assert_eq!(activity_label_for_call("image_gen", ""), "正在生成图像");
    assert_eq!(activity_label_for_call("run", ""), "正在查询资料");
    assert_eq!(activity_label_for_call("write_stdin", ""), "正在等待任务结果");
    assert_eq!(activity_label_for_call("exec", "PNPM run BUILD"), "正在构建并验证");
    assert_eq!(activity_label_for_call("exec_command", "{\"cmd\":\"CARGO TEST --all\"}"), "正在运行测试");
    assert_eq!(activity_label_for_call("exec_command", "rg needle src"), "正在检查项目文件");
    assert_eq!(activity_label_for_call("exec_command", "ls"), "正在执行命令");
    assert_eq!(activity_label_for_call("request_user_input", ""), "等待你回复 Codex");
    assert_eq!(activity_label_for_call("mystery", "cargo test"), "正在调用工具");
}

#[test]
fn approval_is_asked_for_escalated_calls() {
    assert!(call_requires_approval("{\"sandbox_permissions\":\"require_escalated\"}"));
    assert!(call_requires_approval("x require_escalated y"));
    assert!(!call_requires_approval("{\"sandbox_permissions\":\"default\"}"));
}

#[test]
fn activity_text_is_collapsed_and_cut() {
    assert_eq!(compact_activity_text("  a \n\t b  c "), "a b c");
    let long = "x".repeat(130);
    let compact = compact_activity_text(&long);
    assert_eq!(compact.chars().count(), 121);
    assert!(compact.ends_with('…'));
    assert_eq!(compact_activity_text(&"y".repeat(120)), "y".repeat(120));
}

#[test]
fn pending_input_request_outranks_approval() {
    let content = [
        "{\"type\":\"response_item\",\"payload\":{\"type\":\"function_call\",\"name\":\"exec_command\",\"arguments\":\"require_escalated\",\"call_id\":\"a\"}}",
        "{\"type\":\"response_item\",\"payload\":{\"type\":\"custom_tool_call\",\"name\":\"request_user_input\",\"input\":\"?\",\"call_id\":\"b\"}}",
    ]
    .join("\n");
    let activity = parse_rollout_activity(&content);
    assert_eq!(activity.attention, "input");
    assert_eq!(activity.activity, "等待你回复 Codex");
}

#[test]
fn commentary_messages_become_the_activity() {
    let content = [
        "{\"type\":\"event_msg\",\"payload\":{\"type\":\"agent_message\",\"phase\":\"commentary\",\"message\":\"Reading   the\\nconfig\"}}",
        "{\"type\":\"event_msg\",\"payload\":{\"type\":\"agent_message\",\"phase\":\"final\",\"message\":\"done\"}}",
    ]
    .join("\n");
    assert_eq!(parse_rollout_activity(&content).activity, "Reading the config");
}

#[test]
fn completed_turn_is_recorded_in_milliseconds() {
    let content = [
        "{\"type\":\"event_msg\",\"payload\":{\"type\":\"task_started\",\"turn_id\":\"t\"}}",
        "{\"type\":\"event_msg\",\"payload\":{\"type\":\"task_complete\",\"turn_id\":\"t\",\"completed_at\":12}}",
        "{\"type\":\"event_msg\",\"payload\":{\"type\":\"task_started\",\"turn_id\":\"u\"}}",
    ]
    .join("\n");
    let activity = parse_rollout_activity(&content);
    let ended = activity.terminal_turn("t").expect("ended turn kept");
    assert_eq!(ended.phase, "completed");
    assert_eq!(ended.updated_at, 12_000);
    assert_eq!(activity.activity, "正在分析任务");
}

#[test]
fn plan_updates_count_steps_and_name_the_current_one() {
    let arguments = "{\"plan\":[{\"step\":\"a\",\"status\":\"completed\"},{\"step\":\"b\",\"status\":\"completed\"},{\"step\":\"  c \\n d \",\"status\":\"in_progress\"},{\"step\":\"e\",\"status\":\"in_progress\"}]}";
    let line = format!(
        "{{\"type\":\"response_item\",\"payload\":{{\"type\":\"function_call\",\"name\":\"update_plan\",\"arguments\":{}}}}}",
        serde_json::to_string(arguments).expect("quote")
    );
    let activity = parse_rollout_activity(&line);
    assert_eq!(activity.plan_total, 4);
    assert_eq!(activity.plan_completed, 2);
    assert_eq!(activity.current_step, "c d");
    assert_eq!(activity.activity, "c d");
    assert!(activity.attention.is_empty());
}

#[test]
fn compacting_twice_changes_nothing() {
    let long = format!("{} tail", "word ".repeat(40));
    for text in ["  a  b ", "", "x\u{2003}y", long.as_str()] {
        let once = compact_activity_text(text);
        assert!(once.chars().count() <= 121);
        assert_eq!(compact_activity_text(&once), once);
    }
}

#[test]
fn ignored_lines_change_nothing() {
    let start = "{\"type\":\"event_msg\",\"payload\":{\"type\":\"task_started\",\"turn_id\":\"t\"}}";
    let call = "{\"type\":\"response_item\",\"payload\":{\"type\":\"function_call\",\"name\":\"exec_command\",\"arguments\":\"ls\",\"call_id\":\"c\"}}";
    let ignored = "{\"type\":\"session_meta\",\"payload\":{\"type\":\"function_call\",\"name\":\"apply_patch\"}}";
    let with = parse_rollout_activity(&[start, ignored, call, "[1]"].join("\n"));
    let without = parse_rollout_activity(&[start, call].join("\n"));
    assert_eq!(with.activity, without.activity);
    assert_eq!(with.activity, "正在执行命令");
    assert_eq!(with.attention, without.attention);
}
