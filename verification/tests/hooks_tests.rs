use codex_beacon::hooks::{
    codex_config_with_status_hooks, codex_event_hook_entry, codex_hook_is_verified,
    codex_hooks_are_installed, install_codex_hook_event, install_codex_status_hooks,
    remove_managed_hooks, value_contains_managed_hook_signature, value_contains_signature,
};
use serde_json::Value;

const SCRIPT: &str = "C:\\Users\\me\\AppData\\Roaming\\app.codexbeacon.desktop\\codex-beacon-event.ps1";

fn parse(text: &str) -> Value {
    serde_json::from_str(text).expect("valid JSON")
}

#[test]
fn codex_hooks_install_is_idempotent_and_preserves_other_hooks() {
    let existing = r#"{
  "custom": "preserved",
  "hooks": {
    "UserPromptSubmit": [
      {"hooks": [{"type": "command", "command": "other-tool"}]},
      {"hooks": [{"type": "command", "command": "focusd-codex-old.ps1"}]}
    ]
  }
}"#;

    let installed_once = install_codex_status_hooks(Some(existing), SCRIPT).expect("install hooks");
    let installed_twice =
        install_codex_status_hooks(Some(&installed_once), SCRIPT).expect("reinstall hooks");

    let installed = parse(&installed_twice);
    assert_eq!(installed["custom"], "preserved");
    assert_eq!(
        installed["hooks"]["UserPromptSubmit"]
            .as_array()
            .unwrap()
            .len(),
        2
    );
    assert_eq!(installed["hooks"]["Stop"].as_array().unwrap().len(), 1);
    assert!(codex_hooks_are_installed(Some(&installed_twice)));
    assert_eq!(installed_once, installed_twice);
}

#[test]
fn installed_entries_run_the_script_with_their_phase() {
    let text = install_codex_status_hooks(None, SCRIPT).expect("install hooks");
    let installed = parse(&text);
    let prompt = &installed["hooks"]["UserPromptSubmit"][0]["hooks"][0];
    assert_eq!(prompt["type"], "command");
    assert_eq!(
        prompt["command"],
        format!("powershell.exe -NoProfile -NonInteractive -ExecutionPolicy Bypass -File \"{SCRIPT}\" running")
    );
    assert_eq!(prompt["timeout"], 5);
    assert_eq!(prompt["statusMessage"], "Syncing Codex task to Codex Beacon");
    let stop = &installed["hooks"]["Stop"][0]["hooks"][0];
    assert!(stop["command"].as_str().unwrap().ends_with("\" completed"));
    assert_eq!(text, serde_json::to_string_pretty(&installed).unwrap());
}

#[test]
fn blank_hooks_file_is_read_as_an_empty_object() {
    let text = install_codex_status_hooks(Some("  \n\t"), SCRIPT).expect("install hooks");
    let installed = parse(&text);
    assert_eq!(installed.as_object().unwrap().len(), 1);
    assert!(codex_hooks_are_installed(Some(&text)));
}

#[test]
fn hooks_file_that_is_not_an_object_is_refused() {
    assert_eq!(
        install_codex_status_hooks(Some("[1, 2]"), SCRIPT),
        Err("Codex hooks.json must contain a JSON object.".to_string())
    );
}

#[test]
fn hooks_file_that_does_not_parse_is_refused() {
    let error = install_codex_status_hooks(Some("{\"hooks\":"), SCRIPT).expect_err("refused");
    assert!(error.starts_with("Failed to parse Codex hooks.json: "));
    assert!(error.len() > "Failed to parse Codex hooks.json: ".len());
}

#[test]
fn hooks_member_that_is_not_an_object_is_replaced() {
    let config = parse(r#"{"hooks": [1], "other": {"a": 1}}"#);
    let installed = codex_config_with_status_hooks(config, SCRIPT).expect("object");
    assert_eq!(installed["other"]["a"], 1);
    assert_eq!(installed["hooks"].as_object().unwrap().len(), 2);
    assert_eq!(
        codex_config_with_status_hooks(Value::String("x".to_string()), SCRIPT),
        Err("Codex hooks.json must contain a JSON object.".to_string())
    );
}

#[test]
fn other_events_stay_untouched() {
    let mut hooks = parse(r#"{"PreToolUse": [{"hooks": [{"command": "codex-beacon-x"}]}], "Stop": "odd"}"#)
        .as_object()
        .unwrap()
        .clone();
    install_codex_hook_event(&mut hooks, "Stop", codex_event_hook_entry(SCRIPT, "completed"));
    assert_eq!(hooks["PreToolUse"][0]["hooks"][0]["command"], "codex-beacon-x");
    assert_eq!(hooks["Stop"].as_array().unwrap().len(), 1);
}

#[test]
fn managed_hooks_are_removed_from_an_entry() {
    let entry = parse(
        r#"{"matcher": "x", "hooks": [{"command": "keep"}, {"command": "codex-beacon-event.ps1"}, {"args": ["focusd-codex-1"]}]}"#,
    );
    let kept = remove_managed_hooks(entry).expect("one hook left");
    assert_eq!(kept["matcher"], "x");
    assert_eq!(kept["hooks"].as_array().unwrap().len(), 1);
    assert_eq!(kept["hooks"][0]["command"], "keep");

    let only_ours = parse(r#"{"hooks": [{"command": "codex-beacon-event.ps1"}]}"#);
    assert_eq!(remove_managed_hooks(only_ours), None);

    let no_list = parse(r#"{"hooks": "codex-beacon-event.ps1"}"#);
    assert_eq!(remove_managed_hooks(no_list.clone()), Some(no_list));
    let not_object = parse(r#"["codex-beacon-event.ps1"]"#);
    assert_eq!(remove_managed_hooks(not_object.clone()), Some(not_object));
}

#[test]
fn signatures_are_found_at_any_depth() {
    let value = parse(r#"{"a": [1, {"b": ["xx-focusd-codex-yy"]}], "c": null}"#);
    assert!(value_contains_signature(&value, "focusd-codex-"));
    assert!(value_contains_managed_hook_signature(&value));
    assert!(!value_contains_signature(&value, "codex-beacon-"));
    assert!(!value_contains_managed_hook_signature(&parse(r#"{"codex-beacon-": 1}"#)));
}

#[test]
fn hooks_count_as_installed_only_when_both_events_run_the_script() {
    assert!(!codex_hooks_are_installed(None));
    assert!(!codex_hooks_are_installed(Some("not json")));
    assert!(!codex_hooks_are_installed(Some(
        r#"{"hooks": {"UserPromptSubmit": [{"hooks": [{"command": "codex-beacon-event.ps1 running"}]}]}}"#
    )));
    assert!(codex_hooks_are_installed(Some(
        r#"{"hooks": {"UserPromptSubmit": ["codex-beacon-event.ps1"], "Stop": {"x": "codex-beacon-event.ps1"}}}"#
    )));
}

#[test]
fn codex_hook_verification_requires_a_valid_timestamp() {
    assert!(!codex_hook_is_verified(Some(r#"{"verifiedAt":0}"#)));
    assert!(codex_hook_is_verified(Some(r#"{"verifiedAt":1784778346765}"#)));
    assert!(!codex_hook_is_verified(Some(r#"{"verifiedAt":"1784778346765"}"#)));
    assert!(!codex_hook_is_verified(Some(r#"{"verifiedAt":-1}"#)));
    assert!(!codex_hook_is_verified(Some("")));
    assert!(!codex_hook_is_verified(None));
}
