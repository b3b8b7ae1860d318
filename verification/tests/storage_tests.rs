use codex_beacon::storage::{
    backup_file_name, normalize_windows_line_endings, windows_app_data_dir, windows_home_dir,
};

#[test]
fn line_endings_become_crlf() {
    assert_eq!(normalize_windows_line_endings("a\nb\r\nc"), "a\r\nb\r\nc");
    assert_eq!(normalize_windows_line_endings("\n"), "\r\n");
    assert_eq!(normalize_windows_line_endings("\r\r\n"), "\r\r\n");
    assert_eq!(normalize_windows_line_endings("a\rb"), "a\rb");
    assert_eq!(normalize_windows_line_endings(""), "");
}

#[test]
fn normalizing_twice_changes_nothing() {
    for text in ["a\nb", "\r\n\n\r", "x\r\r\n\ny", "plain"] {
        let once = normalize_windows_line_endings(text);
        assert_eq!(normalize_windows_line_endings(&once), once);
    }
}

#[test]
fn home_directory_prefers_the_user_profile() {
    assert_eq!(
        windows_home_dir(Some("  C:\\Users\\me \n"), Some("D:"), Some("\\home")),
        Ok("C:\\Users\\me".to_string())
    );
    assert_eq!(
        windows_home_dir(Some("   "), Some("D:"), Some("\\home")),
        Ok("D:\\home".to_string())
    );
    assert_eq!(
        windows_home_dir(None, Some("D:"), Some("\\home")),
        Ok("D:\\home".to_string())
    );
    assert_eq!(
        windows_home_dir(None, Some(""), Some("\\home")),
        Err("Failed to resolve the Windows user profile directory.".to_string())
    );
    assert_eq!(
        windows_home_dir(None, Some("D:"), None),
        Err("Failed to resolve the Windows user profile directory.".to_string())
    );
}

#[test]
fn app_data_directory_needs_appdata() {
    assert_eq!(windows_app_data_dir(Some("C:\\AppData")), Ok("C:\\AppData".to_string()));
    assert_eq!(
        windows_app_data_dir(None),
        Err("Failed to resolve Windows APPDATA directory.".to_string())
    );
}

#[test]
fn backups_are_named_after_the_file() {
    assert_eq!(backup_file_name("hooks.json"), "hooks.json.codex-beacon-backup");
}
