//! Codex task links: which task ids may be handed to the `codex://` URL handler.
use vstd::prelude::*;
use crate::hooks::{codex_hook_is_verified, codex_hooks_are_installed, hooks_text_installed, opt_text, verification_text_valid};
use crate::sessions::{is_normalized, normalize_codex_sessions_at, sessions_view, CodexSession};
use crate::text::{chars_of, concat_text};

verus! {

/// Whether a character is an ASCII hexadecimal digit.
pub open spec fn is_hex_digit(c: char) -> bool {
    ('0' <= c <= '9') || ('a' <= c <= 'f') || ('A' <= c <= 'F')
}

/// Whether a text is a task id in the UUID form: 36 characters, dashes at positions
/// 8, 13, 18 and 23, and hexadecimal digits everywhere else.
pub open spec fn is_thread_id(s: Seq<char>) -> bool {
    &&& s.len() == 36
    &&& forall|i: int|
        0 <= i < 36 ==> if i == 8 || i == 13 || i == 18 || i == 23 {
            #[trigger] s[i] == '-'
        } else {
            is_hex_digit(s[i])
        }
}

/// Whether the text is a task id in the UUID form, as `is_thread_id` says.
pub fn is_valid_codex_thread_id(value: &str) -> (r: bool)
    ensures
        r == is_thread_id(value@),
{
    let chars = chars_of(value);
    if chars.len() != 36 {
        return false;
    }
    let mut i: usize = 0;
    while i < 36
        invariant
            chars@ == value@,
            chars@.len() == 36,
            i <= 36,
            forall|j: int|
                0 <= j < i ==> if j == 8 || j == 13 || j == 18 || j == 23 {
                    #[trigger] chars@[j] == '-'
                } else {
                    is_hex_digit(chars@[j])
                },
        decreases 36 - i,
    {
        let c = chars[i];
        let fits = if i == 8 || i == 13 || i == 18 || i == 23 {
            c == '-'
        } else {
            ('0' <= c && c <= '9') || ('a' <= c && c <= 'f') || ('A' <= c && c <= 'F')
        };
        if !fits {
            return false;
        }
        i = i + 1;
    }
    true
}

/// The `codex://` link that opens a task, for an id in the UUID form; any other text
/// is refused.
pub fn codex_thread_url(session_id: &str) -> (r: Result<String, String>)
    ensures
        is_thread_id(session_id@) ==> r is Ok && r->Ok_0@ == "codex://threads/"@ + session_id@,
        !is_thread_id(session_id@) ==> r is Err && r->Err_0@ == "Codex task ID is invalid."@,
{
    if !is_valid_codex_thread_id(session_id) {
        return Err(String::from_str("Codex task ID is invalid."));
    }
    Ok(concat_text("codex://threads/", session_id))
}

} // verus!

verus! {

/// The task status the island shows: the sessions, when they last changed, and where
/// the status file lies.
#[derive(Debug)]
pub struct CodexStatusSnapshot {
    pub sessions: Vec<CodexSession>,
    pub updated_at: i64,
    pub status_path: String,
}

/// The status shown for the sessions read from the status file at time `now`: the
/// sessions tidied at `now`, and the file's time of update, or `now` when the file
/// gives none above zero.
pub fn codex_status_snapshot(
    sessions: Vec<CodexSession>,
    updated_at: i64,
    now: i64,
    status_path: String,
) -> (r: CodexStatusSnapshot)
    ensures
        is_normalized(sessions_view(sessions@), now, sessions_view(r.sessions@)),
        r.updated_at == if updated_at > 0 {
            updated_at
        } else {
            now
        },
        r.status_path@ == status_path@,
{
    let mut sessions = sessions;
    normalize_codex_sessions_at(&mut sessions, now);
    let updated_at = if updated_at > 0 {
        updated_at
    } else {
        now
    };
    CodexStatusSnapshot { sessions, updated_at, status_path }
}

/// The status shown once the status file has been cleared at time `now`: no sessions.
pub fn cleared_codex_status(now: i64, status_path: String) -> (r: CodexStatusSnapshot)
    ensures
        r.sessions@.len() == 0,
        r.updated_at == now,
        r.status_path@ == status_path@,
{
    CodexStatusSnapshot { sessions: Vec::new(), updated_at: now, status_path }
}

/// Whether the island's hooks are installed and whether Codex has run them, with
/// where the files involved lie.
#[derive(Debug)]
pub struct CodexIntegrationStatus {
    pub configured: bool,
    pub verified: bool,
    pub hooks_path: String,
    pub script_path: String,
    pub verification_path: String,
}

/// The integration status: configured when the event script is a file and
/// `hooks.json` installs the status hooks; verified when, besides, the verification
/// marker records a run of the hooks. The texts are `None` when the file could not be
/// read.
pub fn codex_integration_status(
    script_is_file: bool,
    hooks_text: Option<&str>,
    verification_text: Option<&str>,
    hooks_path: String,
    script_path: String,
    verification_path: String,
) -> (r: CodexIntegrationStatus)
    ensures
        r.configured == (script_is_file && hooks_text_installed(opt_text(hooks_text))),
        r.verified == (r.configured && verification_text_valid(opt_text(verification_text))),
        r.hooks_path@ == hooks_path@,
        r.script_path@ == script_path@,
        r.verification_path@ == verification_path@,
{
    let configured = script_is_file && codex_hooks_are_installed(hooks_text);
    let verified = configured && codex_hook_is_verified(verification_text);
    CodexIntegrationStatus { configured, verified, hooks_path, script_path, verification_path }
}

} // verus!
