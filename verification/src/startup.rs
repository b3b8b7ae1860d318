//! Launching the island when the user signs in: the `reg` commands that query, add
//! and delete the startup entry, and which entries a change of the setting removes.
use vstd::prelude::*;
use crate::text::concat_text;

verus! {

/// The registry key under which Windows keeps the programs started at sign-in.
pub open spec fn startup_key() -> Seq<char> {
    "HKCU\\Software\\Microsoft\\Windows\\CurrentVersion\\Run"@
}

/// The name of the island's startup entry.
pub open spec fn startup_value() -> Seq<char> {
    "Codex Beacon"@
}

/// The name the startup entry had under the application's former name.
pub open spec fn legacy_startup_value() -> Seq<char> {
    "FocuSD Island"@
}

/// The texts of a vector of strings.
pub open spec fn args_view(args: Seq<String>) -> Seq<Seq<char>> {
    Seq::new(args.len(), |i: int| args[i]@)
}

/// The arguments of `reg` that ask whether the startup entry `value_name` exists.
pub fn startup_query_args(value_name: &str) -> (r: Vec<String>)
    ensures
        args_view(r@) == seq!["query"@, startup_key(), "/v"@, value_name@],
{
    let mut args: Vec<String> = Vec::new();
    args.push(String::from_str("query"));
    args.push(String::from_str("HKCU\\Software\\Microsoft\\Windows\\CurrentVersion\\Run"));
    args.push(String::from_str("/v"));
    args.push(String::from_str(value_name));
    assert(args_view(args@) =~= seq!["query"@, startup_key(), "/v"@, value_name@]);
    args
}

/// The arguments of `reg` that set the island's startup entry to start the program at
/// `executable`, quoted.
pub fn startup_add_args(executable: &str) -> (r: Vec<String>)
    ensures
        args_view(r@) == seq![
            "add"@,
            startup_key(),
            "/v"@,
            startup_value(),
            "/t"@,
            "REG_SZ"@,
            "/d"@,
            "\""@ + executable@ + "\""@,
            "/f"@,
        ],
{
    let mut args: Vec<String> = Vec::new();
    args.push(String::from_str("add"));
    args.push(String::from_str("HKCU\\Software\\Microsoft\\Windows\\CurrentVersion\\Run"));
    args.push(String::from_str("/v"));
    args.push(String::from_str("Codex Beacon"));
    args.push(String::from_str("/t"));
    args.push(String::from_str("REG_SZ"));
    args.push(String::from_str("/d"));
    let opened = concat_text("\"", executable);
    args.push(concat_text(opened.as_str(), "\""));
    args.push(String::from_str("/f"));
    assert(args_view(args@) =~= seq![
        "add"@,
        startup_key(),
        "/v"@,
        startup_value(),
        "/t"@,
        "REG_SZ"@,
        "/d"@,
        "\""@ + executable@ + "\""@,
        "/f"@,
    ]);
    args
}

/// The arguments of `reg` that delete the startup entry `value_name`.
pub fn startup_delete_args(value_name: &str) -> (r: Vec<String>)
    ensures
        args_view(r@) == seq!["delete"@, startup_key(), "/v"@, value_name@, "/f"@],
{
    let mut args: Vec<String> = Vec::new();
    args.push(String::from_str("delete"));
    args.push(String::from_str("HKCU\\Software\\Microsoft\\Windows\\CurrentVersion\\Run"));
    args.push(String::from_str("/v"));
    args.push(String::from_str(value_name));
    args.push(String::from_str("/f"));
    assert(args_view(args@) =~= seq!["delete"@, startup_key(), "/v"@, value_name@, "/f"@]);
    args
}

/// The startup entries a change of the setting removes, in order: turning it on
/// replaces the entry of the former name; turning it off removes both entries.
pub fn startup_values_to_remove(enabled: bool) -> (r: Vec<String>)
    ensures
        enabled ==> args_view(r@) == seq![legacy_startup_value()],
        !enabled ==> args_view(r@) == seq![startup_value(), legacy_startup_value()],
{
    let mut values: Vec<String> = Vec::new();
    if !enabled {
        values.push(String::from_str("Codex Beacon"));
    }
    values.push(String::from_str("FocuSD Island"));
    if enabled {
        assert(args_view(values@) =~= seq![legacy_startup_value()]);
    } else {
        assert(args_view(values@) =~= seq![startup_value(), legacy_startup_value()]);
    }
    values
}

} // verus!
