//! Where the application keeps its files, and the text of the files it writes.
use vstd::prelude::*;
use crate::text::{chars_of, concat_text, string_from_chars, trim, trim_text};

verus! {

/// The text with every `"\r\n"` read as one `"\n"`, left to right, as
/// `str::replace("\r\n", "\n")` gives it.
pub open spec fn without_crlf(s: Seq<char>) -> Seq<char>
    decreases s.len(),
{
    if s.len() == 0 {
        s
    } else if s.len() >= 2 && s[0] == '\r' && s[1] == '\n' {
        seq!['\n'] + without_crlf(s.skip(2))
    } else {
        seq![s[0]] + without_crlf(s.skip(1))
    }
}

/// The text with every `"\n"` written as `"\r\n"`, as `str::replace('\n', "\r\n")`
/// gives it.
pub open spec fn lf_as_crlf(s: Seq<char>) -> Seq<char>
    decreases s.len(),
{
    if s.len() == 0 {
        s
    } else if s[0] == '\n' {
        seq!['\r', '\n'] + lf_as_crlf(s.skip(1))
    } else {
        seq![s[0]] + lf_as_crlf(s.skip(1))
    }
}

/// The text with Windows line endings: first every `"\r\n"` becomes `"\n"`, then
/// every `"\n"` becomes `"\r\n"`.
pub open spec fn windows_line_endings(s: Seq<char>) -> Seq<char> {
    lf_as_crlf(without_crlf(s))
}

/// The characters with every `"\r\n"` read as `"\n"`, as `without_crlf` says.
fn without_crlf_chars(s: &Vec<char>) -> (r: Vec<char>)
    ensures
        r@ == without_crlf(s@),
{
    let mut out: Vec<char> = Vec::new();
    let mut i: usize = 0;
    assert(s@.skip(0) =~= s@);
    assert(out@ + without_crlf(s@) =~= without_crlf(s@));
    while i < s.len()
        invariant
            i <= s@.len(),
            out@ + without_crlf(s@.skip(i as int)) == without_crlf(s@),
        decreases s.len() - i,
    {
        let ghost rest = s@.skip(i as int);
        if i + 1 < s.len() && s[i] == '\r' && s[i + 1] == '\n' {
            assert(rest.skip(2) =~= s@.skip(i + 2));
            out.push('\n');
            assert(out@ + without_crlf(s@.skip(i + 2)) =~= out@.drop_last() + (seq!['\n'] + without_crlf(rest.skip(2))));
            i = i + 2;
        } else {
            assert(rest.skip(1) =~= s@.skip(i + 1));
            let c = s[i];
            out.push(c);
            assert(out@ + without_crlf(s@.skip(i + 1)) =~= out@.drop_last() + (seq![c] + without_crlf(rest.skip(1))));
            i = i + 1;
        }
    }
    assert(s@.skip(i as int) =~= Seq::<char>::empty());
    assert(out@ + Seq::<char>::empty() =~= out@);
    out
}

/// The characters with every `"\n"` written as `"\r\n"`, as `lf_as_crlf` says.
fn lf_as_crlf_chars(s: &Vec<char>) -> (r: Vec<char>)
    ensures
        r@ == lf_as_crlf(s@),
{
    let mut out: Vec<char> = Vec::new();
    let mut i: usize = 0;
    assert(s@.skip(0) =~= s@);
    assert(out@ + lf_as_crlf(s@) =~= lf_as_crlf(s@));
    while i < s.len()
        invariant
            i <= s@.len(),
            out@ + lf_as_crlf(s@.skip(i as int)) == lf_as_crlf(s@),
        decreases s.len() - i,
    {
        let ghost rest = s@.skip(i as int);
        assert(rest.skip(1) =~= s@.skip(i + 1));
        let ghost before = out@;
        let c = s[i];
        if c == '\n' {
            out.push('\r');
            out.push('\n');
            assert(out@ =~= before + seq!['\r', '\n']);
        } else {
            out.push(c);
            assert(out@ =~= before + seq![c]);
        }
        i = i + 1;
    }
    assert(s@.skip(i as int) =~= Seq::<char>::empty());
    assert(out@ + Seq::<char>::empty() =~= out@);
    out
}

/// The text with Windows line endings, as `windows_line_endings` says.
pub fn normalize_windows_line_endings(content: &str) -> (r: String)
    ensures
        r@ == windows_line_endings(content@),
{
    let chars = chars_of(content);
    let unix = without_crlf_chars(&chars);
    let windows = lf_as_crlf_chars(&unix);
    string_from_chars(windows.as_slice())
}

} // verus!

verus! {

/// A text with `"\n"` written as `"\r\n"` never starts with `"\n"`.
proof fn lemma_crlf_text_start(s: Seq<char>)
    ensures
        lf_as_crlf(s).len() > 0 ==> lf_as_crlf(s)[0] != '\n',
        lf_as_crlf(s).len() == 0 <==> s.len() == 0,
{
}

/// Reading `"\r\n"` as `"\n"` undoes writing `"\n"` as `"\r\n"`.
pub proof fn lemma_crlf_round_trip(s: Seq<char>)
    ensures
        without_crlf(lf_as_crlf(s)) == s,
    decreases s.len(),
{
    if s.len() > 0 {
        let rest = s.skip(1);
        lemma_crlf_round_trip(rest);
        lemma_crlf_text_start(rest);
        let t = lf_as_crlf(s);
        if s[0] == '\n' {
            assert(t.skip(2) =~= lf_as_crlf(rest));
        } else {
            assert(t.skip(1) =~= lf_as_crlf(rest));
        }
        assert(s =~= seq![s[0]] + rest);
    }
}

/// Giving a text Windows line endings a second time changes nothing.
pub proof fn lemma_windows_line_endings_is_stable(s: Seq<char>)
    ensures
        windows_line_endings(windows_line_endings(s)) == windows_line_endings(s),
{
    lemma_crlf_round_trip(without_crlf(s));
}

/// In a text with `"\n"` written as `"\r\n"`, every `"\n"` follows a `"\r"`.
pub proof fn lemma_crlf_newlines_follow_returns(s: Seq<char>)
    ensures
        forall|i: int|
            0 <= i < lf_as_crlf(s).len() && #[trigger] lf_as_crlf(s)[i] == '\n' ==> i > 0
                && lf_as_crlf(s)[i - 1] == '\r',
    decreases s.len(),
{
    if s.len() > 0 {
        let rest = s.skip(1);
        lemma_crlf_newlines_follow_returns(rest);
        lemma_crlf_text_start(rest);
        let t = lf_as_crlf(s);
        let k: int = if s[0] == '\n' { 2 } else { 1 };
        assert(t.skip(k) =~= lf_as_crlf(rest));
        assert forall|i: int| 0 <= i < t.len() && #[trigger] t[i] == '\n' implies i > 0 && t[i - 1] == '\r' by {
            if i >= k {
                assert(t[i] == lf_as_crlf(rest)[i - k]);
                if i - k == 0 {
                    assert(false);
                } else {
                    assert(t[i - 1] == lf_as_crlf(rest)[i - k - 1]);
                }
            }
        }
    }
}

/// Every `"\n"` in a text with Windows line endings follows a `"\r"`.
pub proof fn lemma_windows_newlines_follow_returns(s: Seq<char>)
    ensures
        forall|i: int|
            0 <= i < windows_line_endings(s).len() && #[trigger] windows_line_endings(s)[i] == '\n'
                ==> i > 0 && windows_line_endings(s)[i - 1] == '\r',
{
    lemma_crlf_newlines_follow_returns(without_crlf(s));
}

} // verus!

verus! {

/// The text of an optional string.
pub open spec fn opt_view(text: Option<&str>) -> Option<Seq<char>> {
    match text {
        Some(t) => Some(t@),
        None => None,
    }
}

/// The Windows application data directory: the value of `APPDATA`, when it is set.
pub fn windows_app_data_dir(app_data: Option<&str>) -> (r: Result<String, String>)
    ensures
        match app_data {
            Some(dir) => r is Ok && r->Ok_0@ == dir@,
            None => r is Err && r->Err_0@ == "Failed to resolve Windows APPDATA directory."@,
        },
{
    match app_data {
        Some(dir) => Ok(String::from_str(dir)),
        None => Err(String::from_str("Failed to resolve Windows APPDATA directory.")),
    }
}

/// The user's home directory as Windows gives it: `USERPROFILE` without surrounding
/// white space when that is not empty, else `HOMEDRIVE` followed by `HOMEPATH` when
/// both are set and not empty; else nothing.
pub open spec fn home_dir_of(
    user_profile: Option<Seq<char>>,
    home_drive: Option<Seq<char>>,
    home_path: Option<Seq<char>>,
) -> Option<Seq<char>> {
    if user_profile is Some && trim(user_profile->Some_0).len() > 0 {
        Some(trim(user_profile->Some_0))
    } else {
        match (home_drive, home_path) {
            (Some(drive), Some(path)) => if drive.len() > 0 && path.len() > 0 {
                Some(drive + path)
            } else {
                None
            },
            _ => None,
        }
    }
}

/// The user's home directory, as `home_dir_of` says; refused when there is none.
pub fn windows_home_dir(
    user_profile: Option<&str>,
    home_drive: Option<&str>,
    home_path: Option<&str>,
) -> (r: Result<String, String>)
    ensures
        match home_dir_of(opt_view(user_profile), opt_view(home_drive), opt_view(home_path)) {
            Some(dir) => r is Ok && r->Ok_0@ == dir,
            None => r is Err && r->Err_0@
                == "Failed to resolve the Windows user profile directory."@,
        },
{
    if let Some(profile) = user_profile {
        let trimmed = trim_text(profile);
        if !trimmed.as_str().is_empty() {
            return Ok(trimmed);
        }
    }
    match (home_drive, home_path) {
        (Some(drive), Some(path)) => {
            if !drive.is_empty() && !path.is_empty() {
                Ok(concat_text(drive, path))
            } else {
                Err(String::from_str("Failed to resolve the Windows user profile directory."))
            }
        },
        _ => Err(String::from_str("Failed to resolve the Windows user profile directory.")),
    }
}

/// The name of the copy kept of a file before its first change: the file's name
/// followed by `.codex-beacon-backup`.
pub fn backup_file_name(file_name: &str) -> (r: String)
    ensures
        r@ == file_name@ + ".codex-beacon-backup"@,
{
    concat_text(file_name, ".codex-beacon-backup")
}

} // verus!
