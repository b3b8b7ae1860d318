use codex_beacon::hooks::codex_hooks_are_installed;
use codex_beacon::install::{
    install_codex_hooks_for_current_user, CodexHooksInstall, InstallAction, InstallEvent,
    InstallPaths, InstallTarget,
};
use codex_beacon::storage::backup_file_name;
use std::collections::{HashMap, HashSet};

/// A file system held in memory, with the environment the install reads.
struct World {
    files: HashMap<String, String>,
    dirs: HashSet<String>,
    app_data: Option<String>,
    user_profile: Option<String>,
}

const SCRIPT_TEXT: &str = "param($phase)\nWrite-Output $phase\n";

impl World {
    fn new() -> World {
        let mut dirs = HashSet::new();
        dirs.insert("/roaming".to_string());
        dirs.insert("/home".to_string());
        World {
            files: HashMap::new(),
            dirs,
            app_data: Some("/roaming".to_string()),
            user_profile: Some("/home".to_string()),
        }
    }

    fn paths(app_data: &str, home: &str) -> InstallPaths {
        let app_dir = format!("{app_data}/app.codexbeacon.desktop");
        let legacy_dir = format!("{app_data}/com.focusd.island");
        let hooks_file = format!("{home}/.codex/hooks.json");
        let config_file = format!("{home}/.codex/config.toml");
        InstallPaths {
            legacy_status: format!("{legacy_dir}/codex-status.json"),
            status: format!("{app_dir}/codex-status.json"),
            legacy_event_script: format!("{legacy_dir}/codex-beacon-event.ps1"),
            legacy_former_event_script: format!("{legacy_dir}/focusd-codex-event.ps1"),
            legacy_verification: format!("{legacy_dir}/codex-hook-verification.json"),
            event_script: format!("{app_dir}/codex-beacon-event.ps1"),
            former_event_script: format!("{app_dir}/focusd-codex-event.ps1"),
            hooks_backup: format!("{home}/.codex/{}", backup_file_name("hooks.json")),
            config_backup: format!("{home}/.codex/{}", backup_file_name("config.toml")),
            verification_marker: format!("{app_dir}/codex-hook-verification.json"),
            hooks_file,
            config_file,
            app_dir,
            legacy_dir,
        }
    }

    fn is_empty_dir(&self, dir: &str) -> bool {
        let prefix = format!("{dir}/");
        self.dirs.contains(dir)
            && !self.files.keys().any(|path| path.starts_with(&prefix))
            && !self.dirs.iter().any(|path| path.starts_with(&prefix))
    }

    /// Runs an install to its end and gives its outcome.
    fn install(&mut self) -> Result<(), String> {
        let (mut install, mut action) = CodexHooksInstall::new();
        let mut layout: Option<InstallPaths> = None;
        for _ in 0..100 {
            let path = |target: InstallTarget| -> String {
                layout.as_ref().expect("paths resolved").path_of(target).clone()
            };
            let event = match action {
                InstallAction::ReadEnvironment => InstallEvent::Environment {
                    app_data: self.app_data.clone(),
                    user_profile: self.user_profile.clone(),
                    home_drive: None,
                    home_path: None,
                    event_script: SCRIPT_TEXT.to_string(),
                },
                InstallAction::ResolvePaths { app_data, home } => {
                    let home = home.unwrap_or_default();
                    layout = Some(World::paths(&app_data, &home));
                    InstallEvent::Paths(World::paths(&app_data, &home))
                }
                InstallAction::IsDir(target) => InstallEvent::Answer(self.dirs.contains(&path(target))),
                InstallAction::IsFile(target) => InstallEvent::Answer(self.files.contains_key(&path(target))),
                InstallAction::Exists(target) => {
                    let p = path(target);
                    InstallEvent::Answer(self.files.contains_key(&p) || self.dirs.contains(&p))
                }
                InstallAction::DirIsEmpty(target) => InstallEvent::Answer(self.is_empty_dir(&path(target))),
                InstallAction::CreateDirAll(target) => {
                    self.dirs.insert(path(target));
                    InstallEvent::Done
                }
                InstallAction::RemoveFile(target) => match self.files.remove(&path(target)) {
                    Some(_) => InstallEvent::Done,
                    None => InstallEvent::Failed { error: "not found".to_string(), not_found: true },
                },
                InstallAction::RemoveDir(target) => {
                    self.dirs.remove(&path(target));
                    InstallEvent::Done
                }
                InstallAction::MoveFile(from, to) => match self.files.remove(&path(from)) {
                    Some(text) => {
                        self.files.insert(path(to), text);
                        InstallEvent::Done
                    }
                    None => InstallEvent::Failed { error: "missing".to_string(), not_found: true },
                },
                InstallAction::CopyFile(from, to) => match self.files.get(&path(from)).cloned() {
                    Some(text) => {
                        self.files.insert(path(to), text);
                        InstallEvent::Done
                    }
                    None => InstallEvent::Failed { error: "missing".to_string(), not_found: true },
                },
                InstallAction::ReadText(target) => InstallEvent::Text(self.files.get(&path(target)).cloned()),
                InstallAction::WriteText(target, text) => {
                    self.files.insert(path(target), text);
                    InstallEvent::Done
                }
                InstallAction::Finish(outcome) => return outcome,
            };
            assert!(install.expects(&event));
            action = install_codex_hooks_for_current_user(&mut install, event);
        }
        panic!("the install did not end");
    }
}

const APP: &str = "/roaming/app.codexbeacon.desktop";
const LEGACY: &str = "/roaming/com.focusd.island";

#[test]
fn reinstall_resets_hook_verification() {
    let mut world = World::new();
    world.dirs.insert(APP.to_string());
    world.files.insert(
        format!("{APP}/codex-hook-verification.json"),
        r#"{"verifiedAt":1784778346765}"#.to_string(),
    );

    assert_eq!(world.install(), Ok(()));

    assert!(!world.files.contains_key(&format!("{APP}/codex-hook-verification.json")));
    assert_eq!(
        world.files[&format!("{APP}/codex-beacon-event.ps1")],
        "param($phase)\r\nWrite-Output $phase\r\n"
    );
    assert!(codex_hooks_are_installed(
        world.files.get("/home/.codex/hooks.json").map(|text| text.as_str())
    ));
    assert_eq!(world.files["/home/.codex/config.toml"], "[features]\nhooks = true\n");
    assert!(!world.files.contains_key("/home/.codex/hooks.json.codex-beacon-backup"));
    assert!(!world.files.contains_key("/home/.codex/config.toml.codex-beacon-backup"));
}

#[test]
fn preserves_the_first_codex_config_backup() {
    let mut world = World::new();
    world.files.insert("/home/.codex/config.toml".to_string(), "model = \"first\"\n".to_string());
    world.files.insert("/home/.codex/hooks.json".to_string(), "{}".to_string());

    assert_eq!(world.install(), Ok(()));
    assert_eq!(world.files["/home/.codex/config.toml.codex-beacon-backup"], "model = \"first\"\n");
    assert_eq!(world.files["/home/.codex/hooks.json.codex-beacon-backup"], "{}");

    world.files.insert("/home/.codex/config.toml".to_string(), "model = \"second\"\n".to_string());
    assert_eq!(world.install(), Ok(()));

    assert_eq!(world.files["/home/.codex/config.toml.codex-beacon-backup"], "model = \"first\"\n");
    assert_eq!(world.files["/home/.codex/hooks.json.codex-beacon-backup"], "{}");
    assert_eq!(
        world.files["/home/.codex/config.toml"],
        "model = \"second\"\n\n[features]\nhooks = true\n"
    );
}

#[test]
fn unchanged_config_is_left_alone() {
    let mut world = World::new();
    let config = "[features]\nhooks = true\n";
    world.files.insert("/home/.codex/config.toml".to_string(), config.to_string());
    assert_eq!(world.install(), Ok(()));
    assert_eq!(world.files["/home/.codex/config.toml"], config);
    assert!(!world.files.contains_key("/home/.codex/config.toml.codex-beacon-backup"));
}

#[test]
fn legacy_app_data_is_migrated_without_preserving_trust() {
    let mut world = World::new();
    world.dirs.insert(LEGACY.to_string());
    world.files.insert(format!("{LEGACY}/codex-status.json"), "status".to_string());
    world.files.insert(format!("{LEGACY}/codex-beacon-event.ps1"), "legacy script".to_string());
    world.files.insert(
        format!("{LEGACY}/codex-hook-verification.json"),
        r#"{"verifiedAt":1784778346765}"#.to_string(),
    );

    assert_eq!(world.install(), Ok(()));

    assert_eq!(world.files[&format!("{APP}/codex-status.json")], "status");
    assert!(!world.files.contains_key(&format!("{APP}/codex-hook-verification.json")));
    assert!(!world.dirs.contains(LEGACY));
}

#[test]
fn legacy_directory_with_other_files_stays() {
    let mut world = World::new();
    world.dirs.insert(LEGACY.to_string());
    world.dirs.insert(APP.to_string());
    world.files.insert(format!("{LEGACY}/codex-status.json"), "old status".to_string());
    world.files.insert(format!("{LEGACY}/notes.txt"), "keep".to_string());
    world.files.insert(format!("{APP}/codex-status.json"), "new status".to_string());

    assert_eq!(world.install(), Ok(()));

    assert_eq!(world.files[&format!("{APP}/codex-status.json")], "new status");
    assert_eq!(world.files[&format!("{LEGACY}/codex-status.json")], "old status");
    assert!(world.dirs.contains(LEGACY));
}

#[test]
fn former_event_script_is_removed() {
    let mut world = World::new();
    world.dirs.insert(APP.to_string());
    world.files.insert(format!("{APP}/focusd-codex-event.ps1"), "old".to_string());
    assert_eq!(world.install(), Ok(()));
    assert!(!world.files.contains_key(&format!("{APP}/focusd-codex-event.ps1")));
}

#[test]
fn install_needs_appdata() {
    let mut world = World::new();
    world.app_data = None;
    assert_eq!(world.install(), Err("Failed to resolve Windows APPDATA directory.".to_string()));
    assert!(world.files.is_empty());
}

#[test]
fn install_without_a_home_directory_migrates_then_fails() {
    let mut world = World::new();
    world.user_profile = None;
    world.dirs.insert(LEGACY.to_string());
    world.files.insert(format!("{LEGACY}/codex-status.json"), "status".to_string());

    assert_eq!(
        world.install(),
        Err("Failed to resolve the Windows user profile directory.".to_string())
    );
    assert_eq!(world.files[&format!("{APP}/codex-status.json")], "status");
    assert!(!world.files.contains_key(&format!("{APP}/codex-beacon-event.ps1")));
}

#[test]
fn broken_hooks_file_stops_the_install_before_the_config() {
    let mut world = World::new();
    world.files.insert("/home/.codex/hooks.json".to_string(), "{ broken".to_string());
    world.files.insert(format!("{APP}/codex-hook-verification.json"), "{}".to_string());

    let error = world.install().expect_err("refused");

    assert!(error.starts_with("Failed to parse Codex hooks.json: "));
    assert_eq!(world.files["/home/.codex/hooks.json"], "{ broken");
    assert_eq!(world.files["/home/.codex/hooks.json.codex-beacon-backup"], "{ broken");
    assert!(!world.files.contains_key("/home/.codex/config.toml"));
    assert!(world.files.contains_key(&format!("{APP}/codex-hook-verification.json")));
}
