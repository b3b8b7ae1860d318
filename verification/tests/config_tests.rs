use codex_beacon::config::codex_config_with_hooks_enabled;

#[test]
fn codex_hooks_feature_is_enabled_without_changing_other_settings() {
    let config = r#"model = "gpt-5.6"

[features]
js_repl = false
hooks = false
memories = true

[windows]
sandbox = "elevated"
"#;

    let enabled = codex_config_with_hooks_enabled(config);

    assert!(enabled.contains("js_repl = false\nhooks = true\nmemories = true"));
    assert!(enabled.contains("js_repl = false"));
    assert!(enabled.contains("memories = true"));
    assert!(enabled.contains("[windows]\nsandbox = \"elevated\""));
    assert_eq!(enabled.matches("hooks = true").count(), 1);
}

#[test]
fn codex_hooks_feature_section_is_added_once() {
    let config = "model = \"gpt-5.6\"\n";
    let enabled = codex_config_with_hooks_enabled(config);
    let enabled_again = codex_config_with_hooks_enabled(&enabled);

    assert_eq!(enabled, enabled_again);
    assert_eq!(enabled.matches("[features]").count(), 1);
    assert_eq!(enabled.matches("hooks = true").count(), 1);
}

#[test]
fn empty_config_gets_a_features_section() {
    assert_eq!(codex_config_with_hooks_enabled(""), "[features]\nhooks = true\n");
}

#[test]
fn config_without_final_newline_keeps_it_off() {
    assert_eq!(
        codex_config_with_hooks_enabled("model = \"x\""),
        "model = \"x\"\n\n[features]\nhooks = true"
    );
}

#[test]
fn blank_last_line_is_not_doubled() {
    assert_eq!(
        codex_config_with_hooks_enabled("model = \"x\"\n\n"),
        "model = \"x\"\n\n[features]\nhooks = true\n"
    );
}

#[test]
fn missing_hooks_key_is_inserted_after_the_header() {
    let config = "[features]\nmemories = true\n[other]\nhooks = false\n";
    assert_eq!(
        codex_config_with_hooks_enabled(config),
        "[features]\nhooks = true\nmemories = true\n[other]\nhooks = false\n"
    );
}

#[test]
fn hooks_key_with_spaces_is_replaced() {
    let config = "[features]\n  hooks   =  false # off\n";
    assert_eq!(codex_config_with_hooks_enabled(config), "[features]\nhooks = true\n");
}

#[test]
fn enabled_config_is_stable() {
    let config = "a = 1\r\n[features]\r\nhooks = true\r\n";
    let once = codex_config_with_hooks_enabled(config);
    assert_eq!(codex_config_with_hooks_enabled(&once), once);
}

#[test]
fn features_header_with_a_comment_is_the_section() {
    assert_eq!(
        codex_config_with_hooks_enabled("[features] # flags\njs_repl = false\n"),
        "[features] # flags\nhooks = true\njs_repl = false\n"
    );
    assert_eq!(
        codex_config_with_hooks_enabled("  [features]#x\nhooks = false\n"),
        "  [features]#x\nhooks = true\n"
    );
}

#[test]
fn other_text_after_the_header_is_no_features_section() {
    assert_eq!(
        codex_config_with_hooks_enabled("[features] x\n"),
        "[features] x\n\n[features]\nhooks = true\n"
    );
    assert_eq!(
        codex_config_with_hooks_enabled("[features.sub]\n"),
        "[features.sub]\n\n[features]\nhooks = true\n"
    );
}
