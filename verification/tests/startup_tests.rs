use codex_beacon::startup::{
    startup_add_args, startup_delete_args, startup_query_args, startup_values_to_remove,
};

const KEY: &str = r"HKCU\Software\Microsoft\Windows\CurrentVersion\Run";

#[test]
fn registry_commands_name_the_run_key() {
    assert_eq!(startup_query_args("Codex Beacon"), vec!["query", KEY, "/v", "Codex Beacon"]);
    assert_eq!(
        startup_add_args("C:\\Program Files\\Codex Beacon\\codex-beacon.exe"),
        vec![
            "add",
            KEY,
            "/v",
            "Codex Beacon",
            "/t",
            "REG_SZ",
            "/d",
            "\"C:\\Program Files\\Codex Beacon\\codex-beacon.exe\"",
            "/f"
        ]
    );
    assert_eq!(startup_delete_args("FocuSD Island"), vec!["delete", KEY, "/v", "FocuSD Island", "/f"]);
}

#[test]
fn changing_the_setting_removes_the_former_entry() {
    assert_eq!(startup_values_to_remove(true), vec!["FocuSD Island"]);
    assert_eq!(startup_values_to_remove(false), vec!["Codex Beacon", "FocuSD Island"]);
}
