//! Installing the Codex hooks for the current user, as a sequence of decisions.
//!
//! The install reads the environment and works on files; both stay with the caller.
//! `install_codex_hooks_for_current_user` takes the install's state and the answer
//! to the last request, and gives the next request: what to read, check, create,
//! move, copy, write or remove, or how the install ended. Every decision between
//! those requests, and every text written, is made here.
use vstd::prelude::*;
use crate::config::{codex_config_with_hooks_enabled, config_with_hooks_enabled};
use crate::hooks::{
    config_with_status_hooks, hooks_file_config, install_codex_status_hooks, opt_text,
};
use crate::json::{json_pretty_text, JsonModel};
use crate::storage::{
    home_dir_of, normalize_windows_line_endings, opt_view, windows_app_data_dir,
    windows_home_dir, windows_line_endings,
};
use crate::text::{concat_text, contains_seq};

verus! {

/// A file or directory the install works on. The caller knows where each one lies.
#[derive(Clone, Copy, Debug, PartialEq, Eq, Structural)]
pub enum InstallTarget {
    /// The application data directory.
    AppDir,
    /// The data directory the application had under its former name.
    LegacyDir,
    /// The task status file in the former data directory.
    LegacyStatus,
    /// The task status file.
    Status,
    /// The event script in the former data directory.
    LegacyEventScript,
    /// The event script of the former name, in the former data directory.
    LegacyFormerEventScript,
    /// The hook verification marker in the former data directory.
    LegacyVerification,
    /// The event script the hooks run.
    EventScript,
    /// The event script of the former name, in the data directory.
    FormerEventScript,
    /// Codex's `hooks.json`.
    HooksFile,
    /// The copy kept of `hooks.json` before its first change.
    HooksBackup,
    /// Codex's `config.toml`.
    ConfigFile,
    /// The copy kept of `config.toml` before its first change.
    ConfigBackup,
    /// The marker the event script writes once Codex has run a hook.
    VerificationMarker,
}

/// Where the targets lie, as the caller shows their paths.
#[derive(Debug)]
pub struct InstallPaths {
    pub app_dir: String,
    pub legacy_dir: String,
    pub legacy_status: String,
    pub status: String,
    pub legacy_event_script: String,
    pub legacy_former_event_script: String,
    pub legacy_verification: String,
    pub event_script: String,
    pub former_event_script: String,
    pub hooks_file: String,
    pub hooks_backup: String,
    pub config_file: String,
    pub config_backup: String,
    pub verification_marker: String,
}

/// The text of the path of a target.
pub open spec fn path_text(p: InstallPaths, target: InstallTarget) -> Seq<char> {
    match target {
        InstallTarget::AppDir => p.app_dir@,
        InstallTarget::LegacyDir => p.legacy_dir@,
        InstallTarget::LegacyStatus => p.legacy_status@,
        InstallTarget::Status => p.status@,
        InstallTarget::LegacyEventScript => p.legacy_event_script@,
        InstallTarget::LegacyFormerEventScript => p.legacy_former_event_script@,
        InstallTarget::LegacyVerification => p.legacy_verification@,
        InstallTarget::EventScript => p.event_script@,
        InstallTarget::FormerEventScript => p.former_event_script@,
        InstallTarget::HooksFile => p.hooks_file@,
        InstallTarget::HooksBackup => p.hooks_backup@,
        InstallTarget::ConfigFile => p.config_file@,
        InstallTarget::ConfigBackup => p.config_backup@,
        InstallTarget::VerificationMarker => p.verification_marker@,
    }
}

impl InstallPaths {
    /// The path of a target.
    pub fn path_of(&self, target: InstallTarget) -> (r: &String)
        ensures
            r@ == path_text(*self, target),
    {
        match target {
            InstallTarget::AppDir => &self.app_dir,
            InstallTarget::LegacyDir => &self.legacy_dir,
            InstallTarget::LegacyStatus => &self.legacy_status,
            InstallTarget::Status => &self.status,
            InstallTarget::LegacyEventScript => &self.legacy_event_script,
            InstallTarget::LegacyFormerEventScript => &self.legacy_former_event_script,
            InstallTarget::LegacyVerification => &self.legacy_verification,
            InstallTarget::EventScript => &self.event_script,
            InstallTarget::FormerEventScript => &self.former_event_script,
            InstallTarget::HooksFile => &self.hooks_file,
            InstallTarget::HooksBackup => &self.hooks_backup,
            InstallTarget::ConfigFile => &self.config_file,
            InstallTarget::ConfigBackup => &self.config_backup,
            InstallTarget::VerificationMarker => &self.verification_marker,
        }
    }
}

/// What the install asks of the caller next.
#[derive(Debug)]
pub enum InstallAction {
    /// Read `APPDATA`, `USERPROFILE`, `HOMEDRIVE` and `HOMEPATH`; answer `Environment`.
    ReadEnvironment,
    /// Lay out the targets under the data directory `app_data` and, when it is known,
    /// the home directory `home`; answer `Paths`.
    ResolvePaths { app_data: String, home: Option<String> },
    /// Answer `Answer`: whether the target is a directory.
    IsDir(InstallTarget),
    /// Answer `Answer`: whether the target is a file.
    IsFile(InstallTarget),
    /// Answer `Answer`: whether the target exists.
    Exists(InstallTarget),
    /// Answer `Answer`: whether the directory is empty (false when it cannot be read).
    DirIsEmpty(InstallTarget),
    /// Create the directory and its parents; answer `Done` or `Failed`.
    CreateDirAll(InstallTarget),
    /// Remove the file; answer `Done` or `Failed`.
    RemoveFile(InstallTarget),
    /// Remove the empty directory; answer `Done` or `Failed`.
    RemoveDir(InstallTarget),
    /// Move the first file to the second (rename, or copy and remove); answer `Done` or `Failed`.
    MoveFile(InstallTarget, InstallTarget),
    /// Copy the first file to the second; answer `Done` or `Failed`.
    CopyFile(InstallTarget, InstallTarget),
    /// Read the file's text; answer `Text`.
    ReadText(InstallTarget),
    /// Replace the file's text, through a temporary file; answer `Done`, or `Failed`
    /// with the whole message.
    WriteText(InstallTarget, String),
    /// The install ended, with this outcome.
    Finish(Result<(), String>),
}

/// The caller's answer to the last request.
#[derive(Debug)]
pub enum InstallEvent {
    /// The environment, and the text of the event script the application ships.
    Environment {
        app_data: Option<String>,
        user_profile: Option<String>,
        home_drive: Option<String>,
        home_path: Option<String>,
        event_script: String,
    },
    /// Where the targets lie.
    Paths(InstallPaths),
    /// The answer to a check.
    Answer(bool),
    /// The work was done.
    Done,
    /// The work failed with this error; `not_found` when the target was not there.
    Failed { error: String, not_found: bool },
    /// A file's text; nothing when it could not be read.
    Text(Option<String>),
}

/// How far the install has come: which answer it waits for.
#[derive(Clone, Copy, Debug, PartialEq, Eq, Structural)]
pub enum InstallStage {
    AwaitEnvironment,
    AwaitPaths,
    LegacyDirCheck,
    MigrationAppDirCreation,
    LegacyStatusCheck,
    StatusCheck,
    StatusMove,
    LegacyEventScriptRemoval,
    LegacyFormerEventScriptRemoval,
    LegacyVerificationRemoval,
    LegacyDirEmptyCheck,
    LegacyDirRemoval,
    AppDirCreation,
    EventScriptWrite,
    FormerEventScriptCheck,
    FormerEventScriptRemoval,
    HooksFileCheck,
    HooksBackupCheck,
    HooksBackupCopy,
    HooksRead,
    HooksWrite,
    ConfigRead,
    ConfigFileCheck,
    ConfigBackupCheck,
    ConfigBackupCopy,
    ConfigWrite,
    VerificationReset,
    Finished,
}

/// The state of an install.
#[derive(Debug)]
pub struct CodexHooksInstall {
    /// The answer the install waits for.
    pub stage: InstallStage,
    /// Where the targets lie, once the caller has said so.
    pub paths: Option<InstallPaths>,
    /// The home directory, or why it could not be found.
    pub home: Result<String, String>,
    /// The text of the event script to install.
    pub event_script: String,
    /// The `config.toml` text to write.
    pub config_text: String,
    /// How the install ended, once it has.
    pub outcome: Result<(), String>,
    /// Whether only the former data directory is dealt with, without installing.
    pub migrate_only: bool,
}

/// The text of a result whose error is a string.
pub open spec fn result_view<T>(r: Result<T, String>) -> Result<T, Seq<char>> {
    match r {
        Ok(v) => Ok(v),
        Err(e) => Err(e@),
    }
}

/// A request, with its texts as character sequences.
pub enum ActionView {
    ReadEnvironment,
    ResolvePaths { app_data: Seq<char>, home: Option<Seq<char>> },
    IsDir(InstallTarget),
    IsFile(InstallTarget),
    Exists(InstallTarget),
    DirIsEmpty(InstallTarget),
    CreateDirAll(InstallTarget),
    RemoveFile(InstallTarget),
    RemoveDir(InstallTarget),
    MoveFile(InstallTarget, InstallTarget),
    CopyFile(InstallTarget, InstallTarget),
    ReadText(InstallTarget),
    WriteText(InstallTarget, Seq<char>),
    Finish(Result<(), Seq<char>>),
}

impl View for InstallAction {
    type V = ActionView;

    open spec fn view(&self) -> ActionView {
        match *self {
            InstallAction::ReadEnvironment => ActionView::ReadEnvironment,
            InstallAction::ResolvePaths { app_data, home } => ActionView::ResolvePaths {
                app_data: app_data@,
                home: match home {
                    Some(h) => Some(h@),
                    None => None,
                },
            },
            InstallAction::IsDir(t) => ActionView::IsDir(t),
            InstallAction::IsFile(t) => ActionView::IsFile(t),
            InstallAction::Exists(t) => ActionView::Exists(t),
            InstallAction::DirIsEmpty(t) => ActionView::DirIsEmpty(t),
            InstallAction::CreateDirAll(t) => ActionView::CreateDirAll(t),
            InstallAction::RemoveFile(t) => ActionView::RemoveFile(t),
            InstallAction::RemoveDir(t) => ActionView::RemoveDir(t),
            InstallAction::MoveFile(a, b) => ActionView::MoveFile(a, b),
            InstallAction::CopyFile(a, b) => ActionView::CopyFile(a, b),
            InstallAction::ReadText(t) => ActionView::ReadText(t),
            InstallAction::WriteText(t, text) => ActionView::WriteText(t, text@),
            InstallAction::Finish(outcome) => ActionView::Finish(result_view(outcome)),
        }
    }
}

/// The state of an install, with its texts as character sequences.
pub struct InstallView {
    pub stage: InstallStage,
    pub paths: Option<InstallPaths>,
    pub home: Result<Seq<char>, Seq<char>>,
    pub event_script: Seq<char>,
    pub config_text: Seq<char>,
    pub outcome: Result<(), Seq<char>>,
    pub migrate_only: bool,
}

impl View for CodexHooksInstall {
    type V = InstallView;

    open spec fn view(&self) -> InstallView {
        InstallView {
            stage: self.stage,
            paths: self.paths,
            home: match self.home {
                Ok(h) => Ok(h@),
                Err(e) => Err(e@),
            },
            event_script: self.event_script@,
            config_text: self.config_text@,
            outcome: result_view(self.outcome),
            migrate_only: self.migrate_only,
        }
    }
}

} // verus!

verus! {

/// Whether an answer is of the kind the stage waits for.
pub open spec fn answers(stage: InstallStage, event: InstallEvent) -> bool {
    match stage {
        InstallStage::AwaitEnvironment => event is Environment,
        InstallStage::AwaitPaths => event is Paths,
        InstallStage::LegacyDirCheck | InstallStage::LegacyStatusCheck | InstallStage::StatusCheck
        | InstallStage::LegacyDirEmptyCheck | InstallStage::FormerEventScriptCheck
        | InstallStage::HooksFileCheck | InstallStage::HooksBackupCheck
        | InstallStage::ConfigFileCheck | InstallStage::ConfigBackupCheck => event is Answer,
        InstallStage::HooksRead | InstallStage::ConfigRead => event is Text,
        InstallStage::Finished => true,
        _ => event is Done || event is Failed,
    }
}

/// Whether a stage belongs to dealing with the former data directory (or is the end).
pub open spec fn is_migration_stage(stage: InstallStage) -> bool {
    match stage {
        InstallStage::AwaitEnvironment | InstallStage::AwaitPaths | InstallStage::LegacyDirCheck
        | InstallStage::MigrationAppDirCreation | InstallStage::LegacyStatusCheck
        | InstallStage::StatusCheck | InstallStage::StatusMove
        | InstallStage::LegacyEventScriptRemoval | InstallStage::LegacyFormerEventScriptRemoval
        | InstallStage::LegacyVerificationRemoval | InstallStage::LegacyDirEmptyCheck
        | InstallStage::LegacyDirRemoval | InstallStage::Finished => true,
        _ => false,
    }
}

/// Whether the state is one an install can be in: until it ends, the paths are known
/// from the stage after the one that waits for them on; a run that only moves the
/// former data over stays among the stages that do that.
pub open spec fn install_wf(s: InstallView) -> bool {
    &&& s.stage != InstallStage::AwaitEnvironment && s.stage != InstallStage::AwaitPaths && s.stage
        != InstallStage::Finished ==> s.paths is Some
    &&& s.migrate_only ==> is_migration_stage(s.stage)
}

/// The state moved on to `stage`, with the request `action`.
pub open spec fn ask(s: InstallView, stage: InstallStage, action: ActionView) -> (InstallView, ActionView) {
    (InstallView { stage, ..s }, action)
}

/// The install ended with `outcome`.
pub open spec fn finish(s: InstallView, outcome: Result<(), Seq<char>>) -> (InstallView, ActionView) {
    (InstallView { stage: InstallStage::Finished, outcome, ..s }, ActionView::Finish(outcome))
}

/// The path of a target in the state's layout.
pub open spec fn target_path(s: InstallView, target: InstallTarget) -> Seq<char> {
    path_text(s.paths->Some_0, target)
}

/// The step after the former data directory has been dealt with: end there when only
/// that was asked; else refuse when there is no home directory, else create the data
/// directory.
pub open spec fn after_migration(s: InstallView) -> (InstallView, ActionView) {
    if s.migrate_only {
        finish(s, Ok(()))
    } else {
        match s.home {
        Err(e) => finish(s, Err(e)),
            Ok(_) => ask(s, InstallStage::AppDirCreation, ActionView::CreateDirAll(InstallTarget::AppDir)),
        }
    }
}

/// The step on the answer to a removal that may find the file gone already.
pub open spec fn after_removal(
    s: InstallView,
    event: InstallEvent,
    next: (InstallView, ActionView),
    prefix: Seq<char>,
    target: InstallTarget,
) -> (InstallView, ActionView) {
    match event {
        InstallEvent::Failed { error, not_found } => if not_found {
            next
        } else {
            finish(s, Err(prefix + target_path(s, target) + ": "@ + error@))
        },
        _ => next,
    }
}

/// The step on the answer to a piece of work whose failure ends the install with
/// `prefix` followed by the error.
pub open spec fn after_work(
    s: InstallView,
    event: InstallEvent,
    next: (InstallView, ActionView),
    prefix: Seq<char>,
) -> (InstallView, ActionView) {
    match event {
        InstallEvent::Failed { error, .. } => finish(s, Err(prefix + error@)),
        _ => next,
    }
}

/// The step on the answer to a copy into a backup.
pub open spec fn after_backup(
    s: InstallView,
    event: InstallEvent,
    next: (InstallView, ActionView),
    from: InstallTarget,
    to: InstallTarget,
) -> (InstallView, ActionView) {
    match event {
        InstallEvent::Failed { error, .. } => finish(
            s,
            Err("Failed to back up "@ + target_path(s, from) + " to "@ + target_path(s, to) + ": "@
                + error@),
        ),
        _ => next,
    }
}

/// The answer to a check.
pub open spec fn answer_of(event: InstallEvent) -> bool {
    match event {
        InstallEvent::Answer(b) => b,
        _ => false,
    }
}

/// The text of a file read, as `str`s show it.
pub open spec fn read_text(event: InstallEvent) -> Option<Seq<char>> {
    match event {
        InstallEvent::Text(Some(t)) => Some(t@),
        _ => None,
    }
}

/// The next state and request, on every stage but the one that reads `hooks.json`.
pub open spec fn next_install(s: InstallView, event: InstallEvent) -> (InstallView, ActionView) {
    match s.stage {
        InstallStage::AwaitEnvironment => match event {
            InstallEvent::Environment { app_data, user_profile, home_drive, home_path, event_script } => {
                match app_data {
                    None => finish(s, Err("Failed to resolve Windows APPDATA directory."@)),
                    Some(dir) => {
                        let home = home_dir_of(
                            opt_view_string(user_profile),
                            opt_view_string(home_drive),
                            opt_view_string(home_path),
                        );
                        let next = InstallView {
                            stage: InstallStage::AwaitPaths,
                            home: match home {
                                Some(h) => Ok(h),
                                None => Err("Failed to resolve the Windows user profile directory."@),
                            },
                            event_script: event_script@,
                            ..s
                        };
                        (next, ActionView::ResolvePaths { app_data: dir@, home })
                    },
                }
            },
            _ => (s, ActionView::ReadEnvironment),
        },
        InstallStage::AwaitPaths => match event {
            InstallEvent::Paths(p) => {
                let next = InstallView { paths: Some(p), ..s };
                if p.app_dir@ == p.legacy_dir@ {
                    after_migration(next)
                } else {
                    ask(next, InstallStage::LegacyDirCheck, ActionView::IsDir(InstallTarget::LegacyDir))
                }
            },
            _ => (s, ActionView::ReadEnvironment),
        },
        InstallStage::LegacyDirCheck => if answer_of(event) {
            ask(s, InstallStage::MigrationAppDirCreation, ActionView::CreateDirAll(InstallTarget::AppDir))
        } else {
            after_migration(s)
        },
        InstallStage::MigrationAppDirCreation => after_work(
            s,
            event,
            ask(s, InstallStage::LegacyStatusCheck, ActionView::IsFile(InstallTarget::LegacyStatus)),
            "Failed to create app data directory: "@,
        ),
        InstallStage::LegacyStatusCheck => if answer_of(event) {
            ask(s, InstallStage::StatusCheck, ActionView::Exists(InstallTarget::Status))
        } else {
            ask(s, InstallStage::LegacyEventScriptRemoval, ActionView::RemoveFile(InstallTarget::LegacyEventScript))
        },
        InstallStage::StatusCheck => if answer_of(event) {
            ask(s, InstallStage::LegacyEventScriptRemoval, ActionView::RemoveFile(InstallTarget::LegacyEventScript))
        } else {
            ask(s, InstallStage::StatusMove, ActionView::MoveFile(InstallTarget::LegacyStatus, InstallTarget::Status))
        },
        InstallStage::StatusMove => after_work(
            s,
            event,
            ask(s, InstallStage::LegacyEventScriptRemoval, ActionView::RemoveFile(InstallTarget::LegacyEventScript)),
            "Failed to migrate Codex task status: "@,
        ),
        InstallStage::LegacyEventScriptRemoval => after_removal(
            s,
            event,
            ask(s, InstallStage::LegacyFormerEventScriptRemoval, ActionView::RemoveFile(InstallTarget::LegacyFormerEventScript)),
            "Failed to remove legacy app data file "@,
            InstallTarget::LegacyEventScript,
        ),
        InstallStage::LegacyFormerEventScriptRemoval => after_removal(
            s,
            event,
            ask(s, InstallStage::LegacyVerificationRemoval, ActionView::RemoveFile(InstallTarget::LegacyVerification)),
            "Failed to remove legacy app data file "@,
            InstallTarget::LegacyFormerEventScript,
        ),
        InstallStage::LegacyVerificationRemoval => after_removal(
            s,
            event,
            ask(s, InstallStage::LegacyDirEmptyCheck, ActionView::DirIsEmpty(InstallTarget::LegacyDir)),
            "Failed to remove legacy app data file "@,
            InstallTarget::LegacyVerification,
        ),
        InstallStage::LegacyDirEmptyCheck => if answer_of(event) {
            ask(s, InstallStage::LegacyDirRemoval, ActionView::RemoveDir(InstallTarget::LegacyDir))
        } else {
            after_migration(s)
        },
        InstallStage::LegacyDirRemoval => match event {
            InstallEvent::Failed { error, .. } => finish(
                s,
                Err("Failed to remove legacy app data directory "@ + target_path(s, InstallTarget::LegacyDir)
                    + ": "@ + error@),
            ),
            _ => after_migration(s),
        },
        InstallStage::AppDirCreation => after_work(
            s,
            event,
            ask(
                s,
                InstallStage::EventScriptWrite,
                ActionView::WriteText(InstallTarget::EventScript, windows_line_endings(s.event_script)),
            ),
            "Failed to create app data directory: "@,
        ),
        InstallStage::EventScriptWrite => after_work(
            s,
            event,
            ask(s, InstallStage::FormerEventScriptCheck, ActionView::IsFile(InstallTarget::FormerEventScript)),
            Seq::empty(),
        ),
        InstallStage::FormerEventScriptCheck => if answer_of(event) {
            ask(s, InstallStage::FormerEventScriptRemoval, ActionView::RemoveFile(InstallTarget::FormerEventScript))
        } else {
            ask(s, InstallStage::HooksFileCheck, ActionView::IsFile(InstallTarget::HooksFile))
        },
        InstallStage::FormerEventScriptRemoval => match event {
            InstallEvent::Failed { error, .. } => finish(
                s,
                Err("Failed to remove legacy event script "@ + target_path(s, InstallTarget::FormerEventScript)
                    + ": "@ + error@),
            ),
            _ => ask(s, InstallStage::HooksFileCheck, ActionView::IsFile(InstallTarget::HooksFile)),
        },
        InstallStage::HooksFileCheck => if answer_of(event) {
            ask(s, InstallStage::HooksBackupCheck, ActionView::Exists(InstallTarget::HooksBackup))
        } else {
            ask(s, InstallStage::HooksRead, ActionView::ReadText(InstallTarget::HooksFile))
        },
        InstallStage::HooksBackupCheck => if answer_of(event) {
            ask(s, InstallStage::HooksRead, ActionView::ReadText(InstallTarget::HooksFile))
        } else {
            ask(s, InstallStage::HooksBackupCopy, ActionView::CopyFile(InstallTarget::HooksFile, InstallTarget::HooksBackup))
        },
        InstallStage::HooksBackupCopy => after_backup(
            s,
            event,
            ask(s, InstallStage::HooksRead, ActionView::ReadText(InstallTarget::HooksFile)),
            InstallTarget::HooksFile,
            InstallTarget::HooksBackup,
        ),
        InstallStage::HooksWrite => after_work(
            s,
            event,
            ask(s, InstallStage::ConfigRead, ActionView::ReadText(InstallTarget::ConfigFile)),
            Seq::empty(),
        ),
        InstallStage::ConfigRead => {
            let content = match read_text(event) {
                Some(t) => t,
                None => Seq::empty(),
            };
            let enabled = config_with_hooks_enabled(content);
            if enabled == content {
                ask(s, InstallStage::VerificationReset, ActionView::RemoveFile(InstallTarget::VerificationMarker))
            } else {
                ask(
                    InstallView { config_text: enabled, ..s },
                    InstallStage::ConfigFileCheck,
                    ActionView::IsFile(InstallTarget::ConfigFile),
                )
            }
        },
        InstallStage::ConfigFileCheck => if answer_of(event) {
            ask(s, InstallStage::ConfigBackupCheck, ActionView::Exists(InstallTarget::ConfigBackup))
        } else {
            ask(s, InstallStage::ConfigWrite, ActionView::WriteText(InstallTarget::ConfigFile, s.config_text))
        },
        InstallStage::ConfigBackupCheck => if answer_of(event) {
            ask(s, InstallStage::ConfigWrite, ActionView::WriteText(InstallTarget::ConfigFile, s.config_text))
        } else {
            ask(s, InstallStage::ConfigBackupCopy, ActionView::CopyFile(InstallTarget::ConfigFile, InstallTarget::ConfigBackup))
        },
        InstallStage::ConfigBackupCopy => after_backup(
            s,
            event,
            ask(s, InstallStage::ConfigWrite, ActionView::WriteText(InstallTarget::ConfigFile, s.config_text)),
            InstallTarget::ConfigFile,
            InstallTarget::ConfigBackup,
        ),
        InstallStage::ConfigWrite => after_work(
            s,
            event,
            ask(s, InstallStage::VerificationReset, ActionView::RemoveFile(InstallTarget::VerificationMarker)),
            Seq::empty(),
        ),
        InstallStage::VerificationReset => after_removal(
            s,
            event,
            finish(s, Ok(())),
            "Failed to reset Codex hook verification "@,
            InstallTarget::VerificationMarker,
        ),
        InstallStage::HooksRead => (s, ActionView::ReadText(InstallTarget::HooksFile)),
        InstallStage::Finished => (s, ActionView::Finish(s.outcome)),
    }
}

/// The text of an optional string.
pub open spec fn opt_view_string(text: Option<String>) -> Option<Seq<char>> {
    match text {
        Some(t) => Some(t@),
        None => None,
    }
}

/// The step on the text of `hooks.json` (nothing when it could not be read): the text
/// with the status hooks installed is written; a text that does not parse, or is not a
/// JSON object, ends the install.
pub open spec fn hooks_step(s: InstallView, event: InstallEvent, next: InstallView, action: ActionView) -> bool {
    let script = target_path(s, InstallTarget::EventScript);
    match hooks_file_config(read_text(event)) {
        None => exists|m: Seq<char>|
            "Failed to parse Codex hooks.json: "@.is_prefix_of(m) && (next, action) == finish(s, Err(m)),
        Some(config) => match config_with_status_hooks(config, script) {
            None => (next, action) == finish(s, Err("Codex hooks.json must contain a JSON object."@)),
            Some(installed) => (next, action) == ask(
                s,
                InstallStage::HooksWrite,
                ActionView::WriteText(InstallTarget::HooksFile, json_pretty_text(installed)),
            ),
        },
    }
}

/// Whether `next` and `action` are a step of the install from `s` on `event`.
pub open spec fn install_step(s: InstallView, event: InstallEvent, next: InstallView, action: ActionView) -> bool {
    if s.stage == InstallStage::HooksRead {
        hooks_step(s, event, next, action)
    } else {
        (next, action) == next_install(s, event)
    }
}

} // verus!

verus! {

/// The text `prefix`, the path, `": "` and the error, one after another.
fn message_with_path(prefix: &str, path: &String, error: &String) -> (r: String)
    ensures
        r@ == prefix@ + path@ + ": "@ + error@,
{
    let head = concat_text(prefix, path.as_str());
    let middle = concat_text(head.as_str(), ": ");
    let all = concat_text(middle.as_str(), error.as_str());
    all
}

/// A copy of an outcome.
fn copy_outcome(outcome: &Result<(), String>) -> (r: Result<(), String>)
    ensures
        result_view(r) == result_view(*outcome),
{
    match outcome {
        Ok(()) => Ok(()),
        Err(e) => Err(e.clone()),
    }
}

impl CodexHooksInstall {
    /// Whether the install is in a state it can be in, as `install_wf` says.
    pub open spec fn wf(&self) -> bool {
        install_wf(self@)
    }

    /// A new install, and its first request: the environment.
    pub fn new() -> (r: (CodexHooksInstall, InstallAction))
        ensures
            r.0@.stage == InstallStage::AwaitEnvironment,
            r.0@.outcome == Ok::<(), Seq<char>>(()),
            !r.0@.migrate_only,
            r.0.wf(),
            r.1@ == ActionView::ReadEnvironment,
    {
        CodexHooksInstall::starting(false)
    }

    /// A run that only moves the former data directory's task status over and clears
    /// the rest of it, as the island does when it reads its data; and its first
    /// request: the environment.
    pub fn migration() -> (r: (CodexHooksInstall, InstallAction))
        ensures
            r.0@.stage == InstallStage::AwaitEnvironment,
            r.0@.outcome == Ok::<(), Seq<char>>(()),
            r.0@.migrate_only,
            r.0.wf(),
            r.1@ == ActionView::ReadEnvironment,
    {
        CodexHooksInstall::starting(true)
    }

    fn starting(migrate_only: bool) -> (r: (CodexHooksInstall, InstallAction))
        ensures
            r.0@.stage == InstallStage::AwaitEnvironment,
            r.0@.outcome == Ok::<(), Seq<char>>(()),
            r.0@.migrate_only == migrate_only,
            r.0.wf(),
            r.1@ == ActionView::ReadEnvironment,
    {
        (
            CodexHooksInstall {
                stage: InstallStage::AwaitEnvironment,
                paths: None,
                home: Err(String::new()),
                event_script: String::new(),
                config_text: String::new(),
                outcome: Ok(()),
                migrate_only,
            },
            InstallAction::ReadEnvironment,
        )
    }

    /// Whether `event` is of the kind the install waits for, as `answers` says.
    pub fn expects(&self, event: &InstallEvent) -> (r: bool)
        ensures
            r == answers(self.stage, *event),
    {
        match self.stage {
            InstallStage::AwaitEnvironment => matches!(event, InstallEvent::Environment { .. }),
            InstallStage::AwaitPaths => matches!(event, InstallEvent::Paths(_)),
            InstallStage::LegacyDirCheck | InstallStage::LegacyStatusCheck | InstallStage::StatusCheck
            | InstallStage::LegacyDirEmptyCheck | InstallStage::FormerEventScriptCheck
            | InstallStage::HooksFileCheck | InstallStage::HooksBackupCheck
            | InstallStage::ConfigFileCheck | InstallStage::ConfigBackupCheck => matches!(event, InstallEvent::Answer(_)),
            InstallStage::HooksRead | InstallStage::ConfigRead => matches!(event, InstallEvent::Text(_)),
            InstallStage::Finished => true,
            _ => matches!(event, InstallEvent::Done) || matches!(event, InstallEvent::Failed { .. }),
        }
    }

    /// Ends the install with `outcome`.
    fn finish(&mut self, outcome: Result<(), String>) -> (r: InstallAction)
        ensures
            (final(self)@, r@) == finish(old(self)@, result_view(outcome)),
    {
        let stored = copy_outcome(&outcome);
        self.stage = InstallStage::Finished;
        self.outcome = stored;
        InstallAction::Finish(outcome)
    }

    /// Moves on to `stage` with the request `action`.
    fn ask(&mut self, stage: InstallStage, action: InstallAction) -> (r: InstallAction)
        ensures
            (final(self)@, r@) == ask(old(self)@, stage, action@),
    {
        self.stage = stage;
        action
    }

    /// The path of a target, once the paths are known.
    fn path(&self, target: InstallTarget) -> (r: String)
        requires
            self.paths is Some,
        ensures
            r@ == target_path(self@, target),
    {
        match &self.paths {
            Some(p) => p.path_of(target).clone(),
            None => String::new(),
        }
    }

    /// The step after the former data directory has been dealt with, as
    /// `after_migration` says.
    fn after_migration(&mut self) -> (r: InstallAction)
        ensures
            (final(self)@, r@) == after_migration(old(self)@),
    {
        if self.migrate_only {
            return self.finish(Ok(()));
        }
        match &self.home {
            Err(e) => {
                let message = e.clone();
                self.finish(Err(message))
            },
            Ok(_) => self.ask(InstallStage::AppDirCreation, InstallAction::CreateDirAll(InstallTarget::AppDir)),
        }
    }
}

} // verus!

verus! {

impl CodexHooksInstall {
    /// The step on the answer to a piece of work, as `after_work` says, where going
    /// on means `stage` with the request `action`.
    fn after_work(
        &mut self,
        event: InstallEvent,
        stage: InstallStage,
        action: InstallAction,
        prefix: &str,
    ) -> (r: InstallAction)
        ensures
            (final(self)@, r@) == after_work(
                old(self)@,
                event,
                ask(old(self)@, stage, action@),
                prefix@,
            ),
    {
        match event {
            InstallEvent::Failed { error, .. } => self.finish(Err(concat_text(prefix, error.as_str()))),
            _ => self.ask(stage, action),
        }
    }

    /// The step on the answer to a removal that may find the file gone, as
    /// `after_removal` says, where going on means `stage` with the request `action`.
    fn after_removal(
        &mut self,
        event: InstallEvent,
        stage: InstallStage,
        action: InstallAction,
        prefix: &str,
        target: InstallTarget,
    ) -> (r: InstallAction)
        requires
            old(self).paths is Some,
        ensures
            (final(self)@, r@) == after_removal(
                old(self)@,
                event,
                ask(old(self)@, stage, action@),
                prefix@,
                target,
            ),
    {
        match event {
            InstallEvent::Failed { error, not_found } => {
                if not_found {
                    self.ask(stage, action)
                } else {
                    let path = self.path(target);
                    self.finish(Err(message_with_path(prefix, &path, &error)))
                }
            },
            _ => self.ask(stage, action),
        }
    }

    /// The step on the answer to a copy into a backup, as `after_backup` says, where
    /// going on means `stage` with the request `action`.
    fn after_backup(
        &mut self,
        event: InstallEvent,
        stage: InstallStage,
        action: InstallAction,
        from: InstallTarget,
        to: InstallTarget,
    ) -> (r: InstallAction)
        requires
            old(self).paths is Some,
        ensures
            (final(self)@, r@) == after_backup(old(self)@, event, ask(old(self)@, stage, action@), from, to),
    {
        match event {
            InstallEvent::Failed { error, .. } => {
                let from_path = self.path(from);
                let to_path = self.path(to);
                let start = concat_text("Failed to back up ", from_path.as_str());
                let head = concat_text(start.as_str(), " to ");
                let message = message_with_path(head.as_str(), &to_path, &error);
                assert(message@ =~= "Failed to back up "@ + from_path@ + " to "@ + to_path@ + ": "@ + error@);
                self.finish(Err(message))
            },
            _ => self.ask(stage, action),
        }
    }
}

} // verus!

verus! {

/// One step of installing the Codex hooks for the current user: given the answer to
/// the install's last request, moves the install on and gives its next request, as
/// `install_step` says. The caller starts with `CodexHooksInstall::new` and answers
/// each request until one is `Finish`.
pub fn install_codex_hooks_for_current_user(
    install: &mut CodexHooksInstall,
    event: InstallEvent,
) -> (r: InstallAction)
    requires
        old(install).wf(),
        answers(old(install).stage, event),
    ensures
        final(install).wf(),
        install_step(old(install)@, event, final(install)@, r@),
{
    let ghost s = install@;
    proof {
        reveal_strlit("");
    }
    match install.stage {
        InstallStage::AwaitEnvironment => match event {
            InstallEvent::Environment { app_data, user_profile, home_drive, home_path, event_script } => {
                let app_dir = match windows_app_data_dir(opt_str(&app_data)) {
                    Ok(dir) => dir,
                    Err(message) => {
                        return install.finish(Err(message));
                    },
                };
                let home = windows_home_dir(opt_str(&user_profile), opt_str(&home_drive), opt_str(&home_path));
                let known_home = match &home {
                    Ok(h) => Some(h.clone()),
                    Err(_) => None,
                };
                install.home = home;
                install.event_script = event_script;
                install.stage = InstallStage::AwaitPaths;
                InstallAction::ResolvePaths { app_data: app_dir, home: known_home }
            },
            _ => InstallAction::ReadEnvironment,
        },
        InstallStage::AwaitPaths => match event {
            InstallEvent::Paths(p) => {
                let same = p.app_dir == p.legacy_dir;
                install.paths = Some(p);
                if same {
                    install.after_migration()
                } else {
                    install.ask(InstallStage::LegacyDirCheck, InstallAction::IsDir(InstallTarget::LegacyDir))
                }
            },
            _ => InstallAction::ReadEnvironment,
        },
        InstallStage::LegacyDirCheck => if answer_exec(&event) {
            install.ask(InstallStage::MigrationAppDirCreation, InstallAction::CreateDirAll(InstallTarget::AppDir))
        } else {
            install.after_migration()
        },
        InstallStage::MigrationAppDirCreation => install.after_work(
            event,
            InstallStage::LegacyStatusCheck,
            InstallAction::IsFile(InstallTarget::LegacyStatus),
            "Failed to create app data directory: ",
        ),
        InstallStage::LegacyStatusCheck => if answer_exec(&event) {
            install.ask(InstallStage::StatusCheck, InstallAction::Exists(InstallTarget::Status))
        } else {
            install.ask(InstallStage::LegacyEventScriptRemoval, InstallAction::RemoveFile(InstallTarget::LegacyEventScript))
        },
        InstallStage::StatusCheck => if answer_exec(&event) {
            install.ask(InstallStage::LegacyEventScriptRemoval, InstallAction::RemoveFile(InstallTarget::LegacyEventScript))
        } else {
            install.ask(InstallStage::StatusMove, InstallAction::MoveFile(InstallTarget::LegacyStatus, InstallTarget::Status))
        },
        InstallStage::StatusMove => install.after_work(
            event,
            InstallStage::LegacyEventScriptRemoval,
            InstallAction::RemoveFile(InstallTarget::LegacyEventScript),
            "Failed to migrate Codex task status: ",
        ),
        InstallStage::LegacyEventScriptRemoval => install.after_removal(
            event,
            InstallStage::LegacyFormerEventScriptRemoval,
            InstallAction::RemoveFile(InstallTarget::LegacyFormerEventScript),
            "Failed to remove legacy app data file ",
            InstallTarget::LegacyEventScript,
        ),
        InstallStage::LegacyFormerEventScriptRemoval => install.after_removal(
            event,
            InstallStage::LegacyVerificationRemoval,
            InstallAction::RemoveFile(InstallTarget::LegacyVerification),
            "Failed to remove legacy app data file ",
            InstallTarget::LegacyFormerEventScript,
        ),
        InstallStage::LegacyVerificationRemoval => install.after_removal(
            event,
            InstallStage::LegacyDirEmptyCheck,
            InstallAction::DirIsEmpty(InstallTarget::LegacyDir),
            "Failed to remove legacy app data file ",
            InstallTarget::LegacyVerification,
        ),
        InstallStage::LegacyDirEmptyCheck => if answer_exec(&event) {
            install.ask(InstallStage::LegacyDirRemoval, InstallAction::RemoveDir(InstallTarget::LegacyDir))
        } else {
            install.after_migration()
        },
        InstallStage::LegacyDirRemoval => match event {
            InstallEvent::Failed { error, .. } => {
                let path = install.path(InstallTarget::LegacyDir);
                install.finish(Err(message_with_path("Failed to remove legacy app data directory ", &path, &error)))
            },
            _ => install.after_migration(),
        },
        InstallStage::AppDirCreation => {
            let script = normalize_windows_line_endings(install.event_script.as_str());
            install.after_work(
                event,
                InstallStage::EventScriptWrite,
                InstallAction::WriteText(InstallTarget::EventScript, script),
                "Failed to create app data directory: ",
            )
        },
        InstallStage::EventScriptWrite => install.after_work(
            event,
            InstallStage::FormerEventScriptCheck,
            InstallAction::IsFile(InstallTarget::FormerEventScript),
            "",
        ),
        InstallStage::FormerEventScriptCheck => if answer_exec(&event) {
            install.ask(InstallStage::FormerEventScriptRemoval, InstallAction::RemoveFile(InstallTarget::FormerEventScript))
        } else {
            install.ask(InstallStage::HooksFileCheck, InstallAction::IsFile(InstallTarget::HooksFile))
        },
        InstallStage::FormerEventScriptRemoval => match event {
            InstallEvent::Failed { error, .. } => {
                let path = install.path(InstallTarget::FormerEventScript);
                install.finish(Err(message_with_path("Failed to remove legacy event script ", &path, &error)))
            },
            _ => install.ask(InstallStage::HooksFileCheck, InstallAction::IsFile(InstallTarget::HooksFile)),
        },
        InstallStage::HooksFileCheck => if answer_exec(&event) {
            install.ask(InstallStage::HooksBackupCheck, InstallAction::Exists(InstallTarget::HooksBackup))
        } else {
            install.ask(InstallStage::HooksRead, InstallAction::ReadText(InstallTarget::HooksFile))
        },
        InstallStage::HooksBackupCheck => if answer_exec(&event) {
            install.ask(InstallStage::HooksRead, InstallAction::ReadText(InstallTarget::HooksFile))
        } else {
            install.ask(InstallStage::HooksBackupCopy, InstallAction::CopyFile(InstallTarget::HooksFile, InstallTarget::HooksBackup))
        },
        InstallStage::HooksBackupCopy => install.after_backup(
            event,
            InstallStage::HooksRead,
            InstallAction::ReadText(InstallTarget::HooksFile),
            InstallTarget::HooksFile,
            InstallTarget::HooksBackup,
        ),
        InstallStage::HooksRead => {
            let existing = match &event {
                InstallEvent::Text(Some(t)) => Some(t.as_str()),
                _ => None,
            };
            assert(opt_text(existing) == read_text(event));
            let script = install.path(InstallTarget::EventScript);
            match install_codex_status_hooks(existing, script.as_str()) {
                Ok(content) => install.ask(InstallStage::HooksWrite, InstallAction::WriteText(InstallTarget::HooksFile, content)),
                Err(message) => {
                    let ghost m = message@;
                    let r = install.finish(Err(message));
                    assert((install@, r@) == finish(s, Err(m)));
                    r
                },
            }
        },
        InstallStage::HooksWrite => install.after_work(
            event,
            InstallStage::ConfigRead,
            InstallAction::ReadText(InstallTarget::ConfigFile),
            "",
        ),
        InstallStage::ConfigRead => {
            let content = match event {
                InstallEvent::Text(Some(t)) => t,
                _ => String::new(),
            };
            let enabled = codex_config_with_hooks_enabled(content.as_str());
            if enabled == content {
                install.ask(InstallStage::VerificationReset, InstallAction::RemoveFile(InstallTarget::VerificationMarker))
            } else {
                install.config_text = enabled;
                install.ask(InstallStage::ConfigFileCheck, InstallAction::IsFile(InstallTarget::ConfigFile))
            }
        },
        InstallStage::ConfigFileCheck => if answer_exec(&event) {
            install.ask(InstallStage::ConfigBackupCheck, InstallAction::Exists(InstallTarget::ConfigBackup))
        } else {
            let text = install.config_text.clone();
            install.ask(InstallStage::ConfigWrite, InstallAction::WriteText(InstallTarget::ConfigFile, text))
        },
        InstallStage::ConfigBackupCheck => if answer_exec(&event) {
            let text = install.config_text.clone();
            install.ask(InstallStage::ConfigWrite, InstallAction::WriteText(InstallTarget::ConfigFile, text))
        } else {
            install.ask(InstallStage::ConfigBackupCopy, InstallAction::CopyFile(InstallTarget::ConfigFile, InstallTarget::ConfigBackup))
        },
        InstallStage::ConfigBackupCopy => {
            let text = install.config_text.clone();
            install.after_backup(
                event,
                InstallStage::ConfigWrite,
                InstallAction::WriteText(InstallTarget::ConfigFile, text),
                InstallTarget::ConfigFile,
                InstallTarget::ConfigBackup,
            )
        },
        InstallStage::ConfigWrite => install.after_work(
            event,
            InstallStage::VerificationReset,
            InstallAction::RemoveFile(InstallTarget::VerificationMarker),
            "",
        ),
        InstallStage::VerificationReset => match event {
            InstallEvent::Failed { error, not_found } => {
                if not_found {
                    install.finish(Ok(()))
                } else {
                    let path = install.path(InstallTarget::VerificationMarker);
                    install.finish(Err(message_with_path("Failed to reset Codex hook verification ", &path, &error)))
                }
            },
            _ => install.finish(Ok(())),
        },
        InstallStage::Finished => InstallAction::Finish(copy_outcome(&install.outcome)),
    }
}

/// The text of an optional string, borrowed.
fn opt_str(text: &Option<String>) -> (r: Option<&str>)
    ensures
        opt_view(r) == opt_view_string(*text),
{
    match text {
        Some(t) => Some(t.as_str()),
        None => None,
    }
}

/// The answer to a check.
fn answer_exec(event: &InstallEvent) -> (r: bool)
    ensures
        r == answer_of(*event),
{
    match event {
        InstallEvent::Answer(b) => *b,
        _ => false,
    }
}

} // verus!

verus! {

/// An install (not a run that only moves the former data over) ends well only on the
/// step that waits for the verification marker to be removed, once the caller says it
/// is gone (or was never there), and that step is entered only with the request to
/// remove the marker: an install that succeeds has reset the hook verification, so
/// the island asks Codex to run the hooks again.
pub proof fn lemma_success_follows_verification_reset(
    s: InstallView,
    event: InstallEvent,
    next: InstallView,
    action: ActionView,
)
    requires
        install_step(s, event, next, action),
        answers(s.stage, event),
        !s.migrate_only,
    ensures
        action == ActionView::Finish(Ok(())) ==> (s.stage == InstallStage::VerificationReset && (
        event is Done || (event matches InstallEvent::Failed { not_found, .. } && not_found))) || (
        s.stage == InstallStage::Finished && s.outcome == Ok::<(), Seq<char>>(())),
        next.stage == InstallStage::VerificationReset && s.stage != InstallStage::VerificationReset
            ==> action == ActionView::RemoveFile(InstallTarget::VerificationMarker),
{
}

/// A file is copied into its backup only when the caller has just said that the
/// backup does not exist, and that question is asked only when the file exists: the
/// first backup of a file is never overwritten.
pub proof fn lemma_backup_is_made_once(
    s: InstallView,
    event: InstallEvent,
    next: InstallView,
    action: ActionView,
)
    requires
        install_step(s, event, next, action),
        answers(s.stage, event),
    ensures
        action matches ActionView::CopyFile(from, to) ==> !answer_of(event) && ((s.stage
            == InstallStage::HooksBackupCheck && from == InstallTarget::HooksFile && to
            == InstallTarget::HooksBackup) || (s.stage == InstallStage::ConfigBackupCheck && from
            == InstallTarget::ConfigFile && to == InstallTarget::ConfigBackup)),
        action == ActionView::Exists(InstallTarget::HooksBackup) ==> s.stage
            == InstallStage::HooksFileCheck && answer_of(event),
        action == ActionView::Exists(InstallTarget::ConfigBackup) ==> s.stage
            == InstallStage::ConfigFileCheck && answer_of(event),
{
}

/// `hooks.json` is written only with the configuration just read with the status
/// hooks installed, for the event script's path; `config.toml` only with the text
/// that enables hooks, and only when that differs from what was read.
pub proof fn lemma_writes_are_the_installed_texts(
    s: InstallView,
    event: InstallEvent,
    next: InstallView,
    action: ActionView,
)
    requires
        install_step(s, event, next, action),
        answers(s.stage, event),
    ensures
        action matches ActionView::WriteText(target, text) ==> (target == InstallTarget::HooksFile
            ==> s.stage == InstallStage::HooksRead && exists|installed: JsonModel|
            config_with_status_hooks(
                hooks_file_config(read_text(event))->Some_0,
                target_path(s, InstallTarget::EventScript),
            ) == Some(installed) && text == json_pretty_text(installed)),
        action matches ActionView::WriteText(target, text) ==> (target == InstallTarget::ConfigFile
            ==> text == s.config_text),
        s.stage == InstallStage::ConfigRead && next.stage == InstallStage::ConfigFileCheck
            ==> next.config_text == config_with_hooks_enabled(
            match read_text(event) {
                Some(t) => t,
                None => Seq::empty(),
            },
        ) && next.config_text != match read_text(event) {
            Some(t) => t,
            None => Seq::empty(),
        },
{
}

/// Once the install has ended it stays ended with the same outcome, and every end
/// is recorded as the install's outcome.
pub proof fn lemma_finish_is_final(
    s: InstallView,
    event: InstallEvent,
    next: InstallView,
    action: ActionView,
)
    requires
        install_step(s, event, next, action),
        answers(s.stage, event),
    ensures
        s.stage == InstallStage::Finished ==> next == s && action == ActionView::Finish(s.outcome),
        action matches ActionView::Finish(outcome) ==> next.stage == InstallStage::Finished
            && next.outcome == outcome,
{
}

} // verus!

verus! {

/// A run that only moves the former data over reads, writes and copies nothing: it
/// never touches the event script, `hooks.json`, `config.toml` or their backups.
pub proof fn lemma_migration_leaves_the_install_alone(
    s: InstallView,
    event: InstallEvent,
    next: InstallView,
    action: ActionView,
)
    requires
        install_wf(s),
        s.migrate_only,
        install_step(s, event, next, action),
        answers(s.stage, event),
    ensures
        !(action is WriteText),
        !(action is CopyFile),
        !(action is ReadText),
        is_migration_stage(next.stage),
{
}

} // verus!

verus! {

/// Of the former data directory only the task status is carried over, and only when
/// the data directory has none: the event script and the verification marker there are
/// removed, never moved, so no trust in the hooks is carried over.
pub proof fn lemma_only_the_status_moves(
    s: InstallView,
    event: InstallEvent,
    next: InstallView,
    action: ActionView,
)
    requires
        install_step(s, event, next, action),
        answers(s.stage, event),
    ensures
        action matches ActionView::MoveFile(from, to) ==> from == InstallTarget::LegacyStatus && to
            == InstallTarget::Status && s.stage == InstallStage::StatusCheck && !answer_of(event),
        action == ActionView::RemoveFile(InstallTarget::LegacyVerification) ==> s.stage
            == InstallStage::LegacyFormerEventScriptRemoval,
{
}

} // verus!

verus! {

/// A second install reading back what a first one wrote writes nothing new: given the
/// `hooks.json` text written for a configuration with the status hooks installed (and
/// reading back as that configuration, see `lemma_hooks_text_install_is_idempotent`),
/// the install writes that same text; given a `config.toml` that already enables hooks,
/// it writes and backs up nothing and goes on to reset the verification.
pub proof fn lemma_reinstall_writes_the_same(
    s: InstallView,
    event: InstallEvent,
    next: InstallView,
    action: ActionView,
    config: JsonModel,
)
    requires
        install_step(s, event, next, action),
        answers(s.stage, event),
        install_wf(s),
        contains_seq(target_path(s, InstallTarget::EventScript), "codex-beacon-"@),
        s.stage == InstallStage::HooksRead ==> ({
            let installed = config_with_status_hooks(config, target_path(s, InstallTarget::EventScript));
            &&& installed is Some
            &&& read_text(event) == Some(json_pretty_text(installed->Some_0))
            &&& hooks_file_config(read_text(event)) == installed
        }),
        s.stage == InstallStage::ConfigRead ==> read_text(event) is Some && config_with_hooks_enabled(
            read_text(event)->Some_0,
        ) == read_text(event)->Some_0,
    ensures
        s.stage == InstallStage::HooksRead ==> action == ActionView::WriteText(
            InstallTarget::HooksFile,
            read_text(event)->Some_0,
        ),
        s.stage == InstallStage::ConfigRead ==> action == ActionView::RemoveFile(
            InstallTarget::VerificationMarker,
        ),
{
    if s.stage == InstallStage::HooksRead {
        crate::hooks::lemma_status_hooks_install_is_idempotent(
            config,
            target_path(s, InstallTarget::EventScript),
        );
    }
}

} // verus!
