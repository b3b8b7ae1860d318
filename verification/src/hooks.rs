//! The Codex `hooks.json` configuration: installing the island's two event hooks
//! without touching anyone else's hooks, and telling whether they are installed and
//! whether Codex has run them.
use vstd::prelude::*;
use serde_json::Value;
use crate::json::{
    json_as_i64, json_as_object, json_as_str, json_as_array, json_from_parts, json_get, json_i64,
    json_into_parts, json_map_get, json_map_insert, json_map_model, json_map_new, json_map_remove,
    json_map_entries, json_member, json_number_from, json_number_from_i64,
    json_pretty_text, json_text_value, json_to_pretty_text, json_value_model, json_values_model,
    no_members, parse_json, JsonModel, JsonObject, JsonParts,
};
use crate::text::{
    append_chars, chars_of, concat_text, contains_chars, contains_seq, is_blank, lemma_contains_seq_within,
    string_from_chars, trim,
};

verus! {

/// Whether some string value inside a JSON value contains `signature` (member names
/// are not searched).
pub open spec fn json_contains_text(value: JsonModel, signature: Seq<char>) -> bool
    decreases value,
{
    match value {
        JsonModel::Str(text) => contains_seq(text, signature),
        JsonModel::Array(items) => exists|i: int|
            0 <= i < items.len() && json_contains_text(#[trigger] items[i], signature),
        JsonModel::Object(members) => exists|k: Seq<char>|
            members.dom().contains(k) && json_contains_text(#[trigger] members[k], signature),
        _ => false,
    }
}

} // verus!

verus! {

/// Whether some string inside the value contains `signature`, as `json_contains_text` says.
pub fn value_contains_signature(value: &Value, signature: &str) -> (r: bool)
    ensures
        r == json_contains_text(json_value_model(*value), signature@),
{
    let chars = chars_of(signature);
    value_contains_chars(value, &chars)
}

/// Whether some string inside the value contains the characters of `signature`.
fn value_contains_chars(value: &Value, signature: &Vec<char>) -> (r: bool)
    ensures
        r == json_contains_text(json_value_model(*value), signature@),
    decreases json_value_model(*value),
{
    if let Some(text) = json_as_str(value) {
        let chars = chars_of(text);
        return contains_chars(&chars, signature);
    }
    if let Some(items) = json_as_array(value) {
        let ghost model = json_values_model(items@);
        let mut i: usize = 0;
        while i < items.len()
            invariant
                model == json_values_model(items@),
                json_value_model(*value) == JsonModel::Array(model),
                i <= items@.len(),
                forall|j: int| 0 <= j < i ==> !json_contains_text(#[trigger] model[j], signature@),
            decreases items.len() - i,
        {
            proof {
                assert(model[i as int] == json_value_model(items@[i as int]));
                assert(decreases_to!(json_value_model(*value) => json_value_model(*value)->Array_0));
                assert(decreases_to!(model => model[i as int]));
            }
            if value_contains_chars(&items[i], signature) {
                assert(json_contains_text(model[i as int], signature@));
                assert(json_contains_text(JsonModel::Array(model), signature@));
                return true;
            }
            i = i + 1;
        }
        return false;
    }
    if let Some(members) = json_as_object(value) {
        let ghost m = json_map_model(*members);
        let entries = json_map_entries(members);
        let mut i: usize = 0;
        while i < entries.len()
            invariant
                m == json_map_model(*members),
                m.dom().finite(),
                json_value_model(*value) == JsonModel::Object(m),
                i <= entries@.len(),
                forall|j: int|
                    0 <= j < entries@.len() ==> m.dom().contains((#[trigger] entries@[j]).0@)
                        && m[entries@[j].0@] == json_value_model(*entries@[j].1),
                forall|j: int| 0 <= j < i ==> !json_contains_text(m[(#[trigger] entries@[j]).0@], signature@),
            decreases entries.len() - i,
        {
            let ghost k = entries@[i as int].0@;
            proof {
                assert(m.dom().contains(k));
                assert(decreases_to!(json_value_model(*value) => json_value_model(*value)->Object_0));
                assert(decreases_to!(m => m[k]));
            }
            if value_contains_chars(entries[i].1, signature) {
                assert(json_contains_text(m[k], signature@));
                assert(json_contains_text(JsonModel::Object(m), signature@));
                return true;
            }
            i = i + 1;
        }
        proof {
            assert forall|k: Seq<char>| m.dom().contains(k) implies !json_contains_text(m[k], signature@) by {
                let j = choose|j: int| 0 <= j < entries@.len() && (#[trigger] entries@[j]).0@ == k;
                assert(!json_contains_text(m[entries@[j].0@], signature@));
            }
        }
        return false;
    }
    false
}

} // verus!

verus! {

/// Whether a hook carries one of the marks of this application's own hooks: the
/// prefix of the present script's name, or that of the script it had before.
pub open spec fn is_managed_hook(hook: JsonModel) -> bool {
    json_contains_text(hook, "codex-beacon-"@) || json_contains_text(hook, "focusd-codex-"@)
}

/// A hook kept, or dropped when it is one of this application's.
pub open spec fn unmanaged(hook: JsonModel) -> Option<JsonModel> {
    if is_managed_hook(hook) {
        None
    } else {
        Some(hook)
    }
}

/// `unmanaged` as a function value.
pub open spec fn unmanaged_fn() -> spec_fn(JsonModel) -> Option<JsonModel> {
    |hook: JsonModel| unmanaged(hook)
}

/// The hooks of a list that are not this application's, in order.
pub open spec fn unmanaged_hooks(hooks: Seq<JsonModel>) -> Seq<JsonModel> {
    hooks.filter_map(unmanaged_fn())
}

/// An event entry with this application's hooks taken out of its `hooks` list:
/// nothing when no hook is left; the entry unchanged when it has no such list.
pub open spec fn entry_without_managed_hooks(entry: JsonModel) -> Option<JsonModel> {
    match entry {
        JsonModel::Object(m) => {
            if m.dom().contains("hooks"@) && m["hooks"@] is Array {
                let kept = unmanaged_hooks(m["hooks"@]->Array_0);
                if kept.len() == 0 {
                    None
                } else {
                    Some(JsonModel::Object(m.insert("hooks"@, JsonModel::Array(kept))))
                }
            } else {
                Some(entry)
            }
        },
        _ => Some(entry),
    }
}

/// `entry_without_managed_hooks` as a function value.
pub open spec fn entry_without_managed_fn() -> spec_fn(JsonModel) -> Option<JsonModel> {
    |entry: JsonModel| entry_without_managed_hooks(entry)
}

/// The entries of an event with this application's hooks taken out, in order.
pub open spec fn entries_without_managed_hooks(entries: Seq<JsonModel>) -> Seq<JsonModel> {
    entries.filter_map(entry_without_managed_fn())
}

/// Whether the value carries one of the marks of this application's hooks.
pub fn value_contains_managed_hook_signature(value: &Value) -> (r: bool)
    ensures
        r == is_managed_hook(json_value_model(*value)),
{
    value_contains_signature(value, "codex-beacon-") || value_contains_signature(value, "focusd-codex-")
}

/// The hooks that are not this application's, in order.
fn unmanaged_hook_values(hooks: Vec<Value>) -> (r: Vec<Value>)
    ensures
        json_values_model(r@) == unmanaged_hooks(json_values_model(hooks@)),
{
    let ghost input = json_values_model(hooks@);
    let ghost mut done: int = 0;
    let mut rest = hooks;
    let mut kept: Vec<Value> = Vec::new();
    while rest.len() > 0
        invariant
            0 <= done <= input.len(),
            input.len() == done + rest@.len(),
            json_values_model(rest@) == input.skip(done),
            json_values_model(kept@) == input.take(done).filter_map(unmanaged_fn()),
        decreases rest.len(),
    {
        let ghost before = rest@;
        let hook = rest.remove(0);
        proof {
            assert(json_values_model(before)[0] == input[done]);
            input.lemma_filter_map_take_succ(unmanaged_fn(), done);
            assert forall|j: int| 0 <= j < rest@.len() implies json_values_model(rest@)[j]
                == input.skip(done + 1)[j] by {
                assert(rest@[j] == before[j + 1]);
                assert(json_values_model(before)[j + 1] == input.skip(done)[j + 1]);
            }
            assert(json_values_model(rest@) =~= input.skip(done + 1));
        }
        if !value_contains_managed_hook_signature(&hook) {
            let ghost old_kept = kept@;
            kept.push(hook);
            assert(json_values_model(kept@) =~= json_values_model(old_kept).push(input[done]));
        }
        proof {
            done = done + 1;
        }
    }
    assert(input.take(done) =~= input);
    kept
}

/// An event entry with this application's hooks taken out, as
/// `entry_without_managed_hooks` says.
pub fn remove_managed_hooks(entry: Value) -> (r: Option<Value>)
    ensures
        match r {
            Some(v) => entry_without_managed_hooks(json_value_model(entry)) == Some(
                json_value_model(v),
            ),
            None => entry_without_managed_hooks(json_value_model(entry)) is None,
        },
{
    let ghost em = json_value_model(entry);
    match json_into_parts(entry) {
        JsonParts::Object(mut members) => {
            let ghost m = json_map_model(members);
            match json_map_remove(&mut members, "hooks") {
                Some(hooks) => {
                    let ghost hm = json_value_model(hooks);
                    match json_into_parts(hooks) {
                        JsonParts::Array(items) => {
                            let kept = unmanaged_hook_values(items);
                            if kept.len() == 0 {
                                None
                            } else {
                                let ghost kept_model = json_values_model(kept@);
                                json_map_insert(
                                    &mut members,
                                    String::from_str("hooks"),
                                    json_from_parts(JsonParts::Array(kept)),
                                );
                                assert(json_map_model(members) =~= m.insert(
                                    "hooks"@,
                                    JsonModel::Array(kept_model),
                                ));
                                Some(json_from_parts(JsonParts::Object(members)))
                            }
                        },
                        other => {
                            json_map_insert(
                                &mut members,
                                String::from_str("hooks"),
                                json_from_parts(other),
                            );
                            assert(json_map_model(members) =~= m);
                            Some(json_from_parts(JsonParts::Object(members)))
                        },
                    }
                },
                None => {
                    assert(json_map_model(members) =~= m);
                    Some(json_from_parts(JsonParts::Object(members)))
                },
            }
        },
        other => Some(json_from_parts(other)),
    }
}

/// The entries of an event with this application's hooks taken out, as
/// `entries_without_managed_hooks` says.
fn entries_without_managed_hook_values(entries: Vec<Value>) -> (r: Vec<Value>)
    ensures
        json_values_model(r@) == entries_without_managed_hooks(json_values_model(entries@)),
{
    let ghost input = json_values_model(entries@);
    let ghost mut done: int = 0;
    let mut rest = entries;
    let mut kept: Vec<Value> = Vec::new();
    while rest.len() > 0
        invariant
            0 <= done <= input.len(),
            input.len() == done + rest@.len(),
            json_values_model(rest@) == input.skip(done),
            json_values_model(kept@) == input.take(done).filter_map(entry_without_managed_fn()),
        decreases rest.len(),
    {
        let ghost before = rest@;
        let entry = rest.remove(0);
        proof {
            assert(json_values_model(before)[0] == input[done]);
            input.lemma_filter_map_take_succ(entry_without_managed_fn(), done);
            assert forall|j: int| 0 <= j < rest@.len() implies json_values_model(rest@)[j]
                == input.skip(done + 1)[j] by {
                assert(rest@[j] == before[j + 1]);
                assert(json_values_model(before)[j + 1] == input.skip(done)[j + 1]);
            }
            assert(json_values_model(rest@) =~= input.skip(done + 1));
        }
        match remove_managed_hooks(entry) {
            Some(v) => {
                let ghost old_kept = kept@;
                kept.push(v);
                assert(json_values_model(kept@) =~= json_values_model(old_kept).push(
                    json_value_model(v),
                ));
            },
            None => {},
        }
        proof {
            done = done + 1;
        }
    }
    assert(input.take(done) =~= input);
    kept
}

} // verus!

verus! {

/// The command a hook runs: PowerShell on the event script, with the phase to report.
pub open spec fn hook_command_text(script: Seq<char>, phase: Seq<char>) -> Seq<char> {
    "powershell.exe -NoProfile -NonInteractive -ExecutionPolicy Bypass -File \""@ + script
        + "\" "@ + phase
}

/// The hook that runs the event script for one phase.
pub open spec fn hook_for_phase(script: Seq<char>, phase: Seq<char>) -> JsonModel {
    JsonModel::Object(
        no_members().insert("type"@, JsonModel::Str("command"@)).insert(
            "command"@,
            JsonModel::Str(hook_command_text(script, phase)),
        ).insert("timeout"@, JsonModel::Number(json_number_from(5))).insert(
            "statusMessage"@,
            JsonModel::Str("Syncing Codex task to Codex Beacon"@),
        ),
    )
}

/// The event entry this application installs: one hook, for the given phase.
pub open spec fn hook_entry(script: Seq<char>, phase: Seq<char>) -> JsonModel {
    JsonModel::Object(
        no_members().insert("hooks"@, JsonModel::Array(seq![hook_for_phase(script, phase)])),
    )
}

/// The entries listed under an event: none unless the event holds a list.
pub open spec fn event_entries(hooks: Map<Seq<char>, JsonModel>, event: Seq<char>) -> Seq<JsonModel> {
    if hooks.dom().contains(event) && hooks[event] is Array {
        hooks[event]->Array_0
    } else {
        Seq::empty()
    }
}

/// The hooks object with `entry` installed under `event`: the event's other entries
/// stay, in order, without this application's former hooks, and `entry` comes last.
pub open spec fn with_event_hook(
    hooks: Map<Seq<char>, JsonModel>,
    event: Seq<char>,
    entry: JsonModel,
) -> Map<Seq<char>, JsonModel> {
    hooks.insert(
        event,
        JsonModel::Array(entries_without_managed_hooks(event_entries(hooks, event)).push(entry)),
    )
}

/// The `hooks` object of a configuration: an empty one unless it has an object there.
pub open spec fn hooks_member(root: Map<Seq<char>, JsonModel>) -> Map<Seq<char>, JsonModel> {
    if root.dom().contains("hooks"@) && root["hooks"@] is Object {
        root["hooks"@]->Object_0
    } else {
        no_members()
    }
}

/// The configuration's members with the two status hooks installed: one that reports
/// `running` when a prompt is submitted, one that reports `completed` when Codex stops.
pub open spec fn with_status_hooks(root: Map<Seq<char>, JsonModel>, script: Seq<char>) -> Map<
    Seq<char>,
    JsonModel,
> {
    let prompt = with_event_hook(
        hooks_member(root),
        "UserPromptSubmit"@,
        hook_entry(script, "running"@),
    );
    root.insert(
        "hooks"@,
        JsonModel::Object(with_event_hook(prompt, "Stop"@, hook_entry(script, "completed"@))),
    )
}

/// A configuration with the status hooks installed; nothing when it is not an object.
pub open spec fn config_with_status_hooks(config: JsonModel, script: Seq<char>) -> Option<JsonModel> {
    match config {
        JsonModel::Object(root) => Some(JsonModel::Object(with_status_hooks(root, script))),
        _ => None,
    }
}

/// The command text of the hook for `phase`.
fn hook_command(script_path: &str, phase: &str) -> (r: String)
    ensures
        r@ == hook_command_text(script_path@, phase@),
{
    let mut text = chars_of("powershell.exe -NoProfile -NonInteractive -ExecutionPolicy Bypass -File \"");
    let script = chars_of(script_path);
    append_chars(&mut text, script.as_slice());
    let quote = chars_of("\" ");
    append_chars(&mut text, quote.as_slice());
    let phase_chars = chars_of(phase);
    append_chars(&mut text, phase_chars.as_slice());
    string_from_chars(text.as_slice())
}

/// The event entry that runs the script at `script_path` for `phase`.
pub fn codex_event_hook_entry(script_path: &str, phase: &str) -> (r: Value)
    ensures
        json_value_model(r) == hook_entry(script_path@, phase@),
{
    let command = hook_command(script_path, phase);
    let mut hook = json_map_new();
    json_map_insert(
        &mut hook,
        String::from_str("type"),
        json_from_parts(JsonParts::Str(String::from_str("command"))),
    );
    json_map_insert(&mut hook, String::from_str("command"), json_from_parts(JsonParts::Str(command)));
    json_map_insert(
        &mut hook,
        String::from_str("timeout"),
        json_from_parts(JsonParts::Number(json_number_from_i64(5))),
    );
    json_map_insert(
        &mut hook,
        String::from_str("statusMessage"),
        json_from_parts(JsonParts::Str(String::from_str("Syncing Codex task to Codex Beacon"))),
    );
    let ghost hook_model = json_map_model(hook);
    let mut list: Vec<Value> = Vec::new();
    list.push(json_from_parts(JsonParts::Object(hook)));
    assert(json_values_model(list@) =~= seq![JsonModel::Object(hook_model)]);
    let mut entry = json_map_new();
    json_map_insert(&mut entry, String::from_str("hooks"), json_from_parts(JsonParts::Array(list)));
    json_from_parts(JsonParts::Object(entry))
}

/// Installs `entry` under `event_name`, as `with_event_hook` says.
pub fn install_codex_hook_event(hooks: &mut JsonObject, event_name: &str, entry: Value)
    ensures
        json_map_model(*final(hooks)) == with_event_hook(
            json_map_model(*old(hooks)),
            event_name@,
            json_value_model(entry),
        ),
{
    let ghost before = json_map_model(*hooks);
    let existing = json_map_remove(hooks, event_name);
    let entries: Vec<Value> = match existing {
        Some(value) => match json_into_parts(value) {
            JsonParts::Array(items) => items,
            _ => Vec::new(),
        },
        None => Vec::new(),
    };
    assert(json_values_model(entries@) == event_entries(before, event_name@)) by {
        if !(before.dom().contains(event_name@) && before[event_name@] is Array) {
            assert(json_values_model(entries@) =~= Seq::<JsonModel>::empty());
        }
    }
    let mut kept = entries_without_managed_hook_values(entries);
    let ghost kept_model = json_values_model(kept@);
    kept.push(entry);
    assert(json_values_model(kept@) =~= kept_model.push(json_value_model(entry)));
    json_map_insert(hooks, String::from_str(event_name), json_from_parts(JsonParts::Array(kept)));
    assert(json_map_model(*hooks) =~= with_event_hook(before, event_name@, json_value_model(entry)));
}

/// A configuration with the status hooks installed, as `config_with_status_hooks` says;
/// a configuration that is not a JSON object is refused.
pub fn codex_config_with_status_hooks(config: Value, script_path: &str) -> (r: Result<Value, String>)
    ensures
        match r {
            Ok(v) => config_with_status_hooks(json_value_model(config), script_path@) == Some(
                json_value_model(v),
            ),
            Err(e) => config_with_status_hooks(json_value_model(config), script_path@) is None
                && e@ == "Codex hooks.json must contain a JSON object."@,
        },
{
    match json_into_parts(config) {
        JsonParts::Object(mut root) => {
            let ghost before = json_map_model(root);
            let existing = json_map_remove(&mut root, "hooks");
            let mut hooks = match existing {
                Some(value) => match json_into_parts(value) {
                    JsonParts::Object(members) => members,
                    _ => json_map_new(),
                },
                None => json_map_new(),
            };
            assert(json_map_model(hooks) == hooks_member(before));
            install_codex_hook_event(
                &mut hooks,
                "UserPromptSubmit",
                codex_event_hook_entry(script_path, "running"),
            );
            install_codex_hook_event(&mut hooks, "Stop", codex_event_hook_entry(script_path, "completed"));
            json_map_insert(&mut root, String::from_str("hooks"), json_from_parts(JsonParts::Object(hooks)));
            assert(json_map_model(root) =~= with_status_hooks(before, script_path@));
            Ok(json_from_parts(JsonParts::Object(root)))
        },
        _ => Err(String::from_str("Codex hooks.json must contain a JSON object.")),
    }
}

} // verus!

verus! {

/// The text of an optional string.
pub open spec fn opt_text(text: Option<&str>) -> Option<Seq<char>> {
    match text {
        Some(t) => Some(t@),
        None => None,
    }
}

/// The configuration a `hooks.json` holds: an empty object when the file could not be
/// read or holds only white space, else what its text parses to (nothing when it does
/// not parse).
pub open spec fn hooks_file_config(existing: Option<Seq<char>>) -> Option<JsonModel> {
    match existing {
        Some(content) => if trim(content).len() == 0 {
            Some(JsonModel::Object(no_members()))
        } else {
            json_text_value(content)
        },
        None => Some(JsonModel::Object(no_members())),
    }
}

/// The new text of `hooks.json`, given its present text (`None` when it could not be
/// read) and the path of the event script: the configuration with the status hooks
/// installed, written as indented JSON; refused when the text does not parse or is not
/// a JSON object.
pub fn install_codex_status_hooks(existing: Option<&str>, script_path: &str) -> (r: Result<String, String>)
    ensures
        match hooks_file_config(opt_text(existing)) {
            None => r is Err && "Failed to parse Codex hooks.json: "@.is_prefix_of(r->Err_0@),
            Some(config) => match config_with_status_hooks(config, script_path@) {
                None => r is Err && r->Err_0@ == "Codex hooks.json must contain a JSON object."@,
                Some(installed) => r is Ok && r->Ok_0@ == json_pretty_text(installed),
            },
        },
{
    let config = match existing {
        Some(content) => {
            let chars = chars_of(content);
            if is_blank(chars.as_slice()) {
                json_from_parts(JsonParts::Object(json_map_new()))
            } else {
                match parse_json(content) {
                    Ok(value) => value,
                    Err(message) => {
                        let text = concat_text("Failed to parse Codex hooks.json: ", message.as_str());
                        assert(text@.subrange(0, "Failed to parse Codex hooks.json: "@.len() as int)
                            =~= "Failed to parse Codex hooks.json: "@);
                        return Err(text);
                    },
                }
            }
        },
        None => json_from_parts(JsonParts::Object(json_map_new())),
    };
    let installed = match codex_config_with_status_hooks(config, script_path) {
        Ok(value) => value,
        Err(message) => {
            return Err(message);
        },
    };
    match json_to_pretty_text(&installed) {
        Ok(text) => Ok(text),
        Err(message) => {
            let text = concat_text("Failed to serialize Codex hooks.json: ", message.as_str());
            assert(text@.subrange(0, "Failed to serialize Codex hooks.json: "@.len() as int)
                =~= "Failed to serialize Codex hooks.json: "@);
            Err(text)
        },
    }
}

/// Whether an event of the hooks object has an entry that runs the event script.
pub open spec fn event_runs_script(hooks: Map<Seq<char>, JsonModel>, event: Seq<char>) -> bool {
    hooks.dom().contains(event) && json_contains_text(hooks[event], "codex-beacon-event.ps1"@)
}

/// Whether a configuration runs the event script both when a prompt is submitted and
/// when Codex stops.
pub open spec fn config_runs_status_hooks(config: JsonModel) -> bool {
    match json_member(config, "hooks"@) {
        Some(JsonModel::Object(hooks)) => event_runs_script(hooks, "UserPromptSubmit"@)
            && event_runs_script(hooks, "Stop"@),
        _ => false,
    }
}

/// Whether a `hooks.json` text (`None` when it could not be read) has the status hooks.
pub open spec fn hooks_text_installed(content: Option<Seq<char>>) -> bool {
    match content {
        Some(text) => match json_text_value(text) {
            Some(config) => config_runs_status_hooks(config),
            None => false,
        },
        None => false,
    }
}

/// Whether the event `event_name` runs the event script.
fn event_runs_event_script(hooks: &JsonObject, event_name: &str) -> (r: bool)
    ensures
        r == event_runs_script(json_map_model(*hooks), event_name@),
{
    match json_map_get(hooks, event_name) {
        Some(entry) => value_contains_signature(entry, "codex-beacon-event.ps1"),
        None => false,
    }
}

/// Whether the `hooks.json` text (`None` when it could not be read) installs the
/// status hooks, as `hooks_text_installed` says.
pub fn codex_hooks_are_installed(content: Option<&str>) -> (r: bool)
    ensures
        r == hooks_text_installed(opt_text(content)),
{
    let text = match content {
        Some(text) => text,
        None => {
            return false;
        },
    };
    let config = match parse_json(text) {
        Ok(value) => value,
        Err(_) => {
            return false;
        },
    };
    let hooks = match json_get(&config, "hooks") {
        Some(value) => match json_as_object(value) {
            Some(members) => members,
            None => {
                return false;
            },
        },
        None => {
            return false;
        },
    };
    event_runs_event_script(hooks, "UserPromptSubmit") && event_runs_event_script(hooks, "Stop")
}

/// Whether a verification marker text (`None` when it could not be read) records that
/// Codex ran the hooks: its `verifiedAt` is an integer above zero.
pub open spec fn verification_text_valid(content: Option<Seq<char>>) -> bool {
    match content {
        Some(text) => match json_text_value(text) {
            Some(marker) => match json_i64(json_member(marker, "verifiedAt"@)) {
                Some(at) => at > 0,
                None => false,
            },
            None => false,
        },
        None => false,
    }
}

/// Whether the verification marker text records a run of the hooks, as
/// `verification_text_valid` says.
pub fn codex_hook_is_verified(content: Option<&str>) -> (r: bool)
    ensures
        r == verification_text_valid(opt_text(content)),
{
    let text = match content {
        Some(text) => text,
        None => {
            return false;
        },
    };
    let marker = match parse_json(text) {
        Ok(value) => value,
        Err(_) => {
            return false;
        },
    };
    match json_get(&marker, "verifiedAt") {
        Some(value) => match json_as_i64(value) {
            Some(at) => at > 0,
            None => false,
        },
        None => false,
    }
}

} // verus!

verus! {

/// An array holds a text when one of its items does.
proof fn lemma_array_contains_text(items: Seq<JsonModel>, i: int, needle: Seq<char>)
    requires
        0 <= i < items.len(),
        json_contains_text(items[i], needle),
    ensures
        json_contains_text(JsonModel::Array(items), needle),
{
    let array = JsonModel::Array(items);
    assert(decreases_to!(array => array->Array_0));
    assert(decreases_to!(items => items[i]));
}

/// An object holds a text when one of its members does.
proof fn lemma_object_contains_text(members: Map<Seq<char>, JsonModel>, key: Seq<char>, needle: Seq<char>)
    requires
        members.dom().finite(),
        members.dom().contains(key),
        json_contains_text(members[key], needle),
    ensures
        json_contains_text(JsonModel::Object(members), needle),
{
    let object = JsonModel::Object(members);
    assert(decreases_to!(object => object->Object_0));
    assert(decreases_to!(members => members[key]));
}

/// `filter_map` over a sequence with one more element at its end.
proof fn lemma_filter_map_push<A, B>(s: Seq<A>, x: A, f: spec_fn(A) -> Option<B>)
    ensures
        s.push(x).filter_map(f) == s.filter_map(f) + match f(x) {
            Some(b) => seq![b],
            None => Seq::<B>::empty(),
        },
{
    assert(s.push(x).drop_last() =~= s);
    assert(s.push(x).last() == x);
    match f(x) {
        Some(b) => {},
        None => {
            assert(s.filter_map(f) + Seq::<B>::empty() =~= s.filter_map(f));
        },
    }
}

/// A `filter_map` whose function keeps what it gave back gives the same sequence when
/// applied a second time.
proof fn lemma_filter_map_settled<A>(s: Seq<A>, f: spec_fn(A) -> Option<A>)
    requires
        forall|x: A| #[trigger] f(x) is Some ==> f(f(x)->Some_0) == f(x),
    ensures
        s.filter_map(f).filter_map(f) == s.filter_map(f),
    decreases s.len(),
{
    if s.len() > 0 {
        let rest = s.drop_last();
        let x = s.last();
        lemma_filter_map_settled(rest, f);
        assert(s =~= rest.push(x));
        lemma_filter_map_push(rest, x, f);
        match f(x) {
            Some(y) => {
                assert(f(f(x)->Some_0) == f(x));
                assert(rest.filter_map(f) + seq![y] =~= rest.filter_map(f).push(y));
                lemma_filter_map_push(rest.filter_map(f), y, f);
            },
            None => {
                assert(rest.filter_map(f) + Seq::<A>::empty() =~= rest.filter_map(f));
            },
        }
    }
}

/// An element that a `filter_map` keeps as it is appears in its result.
proof fn lemma_filter_map_keeps<A>(s: Seq<A>, f: spec_fn(A) -> Option<A>, x: A)
    requires
        s.contains(x),
        f(x) == Some(x),
    ensures
        s.filter_map(f).contains(x),
    decreases s.len(),
{
    let rest = s.drop_last();
    assert(s =~= rest.push(s.last()));
    lemma_filter_map_push(rest, s.last(), f);
    if s.last() == x {
        assert(s.filter_map(f)[s.filter_map(f).len() - 1] == x);
    } else {
        let i = choose|i: int| 0 <= i < s.len() && s[i] == x;
        assert(rest[i] == x);
        lemma_filter_map_keeps(rest, f, x);
        let j = choose|j: int| 0 <= j < rest.filter_map(f).len() && rest.filter_map(f)[j] == x;
        assert(s.filter_map(f)[j] == x);
    }
}

/// Taking this application's hooks out of an entry a second time changes nothing.
proof fn lemma_entry_without_managed_settled(entry: JsonModel)
    ensures
        entry_without_managed_hooks(entry) is Some ==> entry_without_managed_hooks(
            entry_without_managed_hooks(entry)->Some_0,
        ) == entry_without_managed_hooks(entry),
{
    match entry {
        JsonModel::Object(m) => {
            if m.dom().contains("hooks"@) && m["hooks"@] is Array {
                let kept = unmanaged_hooks(m["hooks"@]->Array_0);
                lemma_filter_map_settled(m["hooks"@]->Array_0, unmanaged_fn());
                if kept.len() > 0 {
                    let m2 = m.insert("hooks"@, JsonModel::Array(kept));
                    assert(m2.insert("hooks"@, JsonModel::Array(kept)) =~= m2);
                }
            }
        },
        _ => {},
    }
}

/// The command of a hook holds every piece of the script path.
proof fn lemma_command_holds_script(script: Seq<char>, phase: Seq<char>, needle: Seq<char>)
    requires
        contains_seq(script, needle),
    ensures
        contains_seq(hook_command_text(script, phase), needle),
{
    let head = "powershell.exe -NoProfile -NonInteractive -ExecutionPolicy Bypass -File \""@;
    let tail = "\" "@ + phase;
    lemma_contains_seq_within(head, script, tail, needle);
    assert(head + script + tail =~= hook_command_text(script, phase));
}

/// The hook of an entry this application installs holds every piece of the script path.
proof fn lemma_hook_holds_script(script: Seq<char>, phase: Seq<char>, needle: Seq<char>)
    requires
        contains_seq(script, needle),
    ensures
        json_contains_text(hook_for_phase(script, phase), needle),
        json_contains_text(hook_entry(script, phase), needle),
{
    reveal_strlit("type");
    reveal_strlit("command");
    reveal_strlit("timeout");
    reveal_strlit("statusMessage");
    assert("command"@[0] != "timeout"@[0]);
    assert("command"@.len() != "statusMessage"@.len());
    lemma_command_holds_script(script, phase, needle);
    let hook = hook_for_phase(script, phase);
    let members = hook->Object_0;
    assert(members.dom().contains("command"@));
    assert(members["command"@] == JsonModel::Str(hook_command_text(script, phase)));
    assert(json_contains_text(members["command"@], needle));
    lemma_object_contains_text(members, "command"@, needle);
    let list = seq![hook];
    assert(list[0] == hook);
    lemma_array_contains_text(list, 0, needle);
    let entry_members = hook_entry(script, phase)->Object_0;
    assert(entry_members["hooks"@] == JsonModel::Array(list));
    lemma_object_contains_text(entry_members, "hooks"@, needle);
}

/// An entry this application installs is recognised as its own and taken out whole.
proof fn lemma_hook_entry_is_managed(script: Seq<char>, phase: Seq<char>)
    requires
        contains_seq(script, "codex-beacon-"@),
    ensures
        entry_without_managed_hooks(hook_entry(script, phase)) is None,
{
    let hook = hook_for_phase(script, phase);
    lemma_hook_holds_script(script, phase, "codex-beacon-"@);
    assert(is_managed_hook(hook));
    Seq::lemma_filter_map_singleton(hook, unmanaged_fn());
    let entry_members = hook_entry(script, phase)->Object_0;
    assert(entry_members["hooks"@] == JsonModel::Array(seq![hook]));
}

/// Installing an entry under an event where it is already installed changes nothing.
proof fn lemma_event_install_settled(
    hooks: Map<Seq<char>, JsonModel>,
    event: Seq<char>,
    script: Seq<char>,
    phase: Seq<char>,
)
    requires
        contains_seq(script, "codex-beacon-"@),
    ensures
        with_event_hook(
            with_event_hook(hooks, event, hook_entry(script, phase)),
            event,
            hook_entry(script, phase),
        ) == with_event_hook(hooks, event, hook_entry(script, phase)),
{
    let entry = hook_entry(script, phase);
    let once = entries_without_managed_hooks(event_entries(hooks, event));
    let h1 = with_event_hook(hooks, event, entry);
    assert(event_entries(h1, event) == once.push(entry));
    lemma_hook_entry_is_managed(script, phase);
    lemma_filter_map_push(once, entry, entry_without_managed_fn());
    assert forall|x: JsonModel| #[trigger] entry_without_managed_fn()(x) is Some implies entry_without_managed_fn()(
        entry_without_managed_fn()(x)->Some_0,
    ) == entry_without_managed_fn()(x) by {
        lemma_entry_without_managed_settled(x);
    }
    lemma_filter_map_settled(event_entries(hooks, event), entry_without_managed_fn());
    assert(entries_without_managed_hooks(once.push(entry)) =~= once);
    assert(h1.insert(event, JsonModel::Array(once.push(entry))) =~= h1);
}

/// Installing the status hooks into a configuration they are already installed in
/// changes nothing: the install is idempotent for a script whose path carries the
/// application's mark.
pub proof fn lemma_status_hooks_install_is_idempotent(config: JsonModel, script: Seq<char>)
    requires
        contains_seq(script, "codex-beacon-"@),
    ensures
        config_with_status_hooks(config, script) matches Some(installed)
            ==> config_with_status_hooks(installed, script) == Some(installed),
{
    reveal_strlit("UserPromptSubmit");
    reveal_strlit("Stop");
    reveal_strlit("hooks");
    assert("UserPromptSubmit"@.len() != "Stop"@.len());
    if let JsonModel::Object(root) = config {
        let prompt_entry = hook_entry(script, "running"@);
        let stop_entry = hook_entry(script, "completed"@);
        let h1 = with_event_hook(hooks_member(root), "UserPromptSubmit"@, prompt_entry);
        let h2 = with_event_hook(h1, "Stop"@, stop_entry);
        let root1 = with_status_hooks(root, script);
        assert(hooks_member(root1) == h2);
        assert(event_entries(h2, "UserPromptSubmit"@) == event_entries(
            with_event_hook(hooks_member(root), "UserPromptSubmit"@, prompt_entry),
            "UserPromptSubmit"@,
        ));
        lemma_event_install_settled(hooks_member(root), "UserPromptSubmit"@, script, "running"@);
        let again = with_event_hook(h2, "UserPromptSubmit"@, prompt_entry);
        assert(again =~= h2);
        lemma_event_install_settled(h1, "Stop"@, script, "completed"@);
        assert(with_event_hook(h2, "Stop"@, stop_entry) =~= h2);
        assert(root1.insert("hooks"@, JsonModel::Object(h2)) =~= root1);
    }
}

} // verus!

verus! {

/// After the install, the configuration runs the event script when a prompt is
/// submitted and when Codex stops, so the installed check holds.
pub proof fn lemma_installed_config_runs_status_hooks(config: JsonModel, script: Seq<char>)
    requires
        contains_seq(script, "codex-beacon-event.ps1"@),
    ensures
        config_with_status_hooks(config, script) matches Some(installed) ==> config_runs_status_hooks(
            installed,
        ),
{
    reveal_strlit("UserPromptSubmit");
    reveal_strlit("Stop");
    assert("UserPromptSubmit"@.len() != "Stop"@.len());
    if let JsonModel::Object(root) = config {
        let prompt_entry = hook_entry(script, "running"@);
        let stop_entry = hook_entry(script, "completed"@);
        let h1 = with_event_hook(hooks_member(root), "UserPromptSubmit"@, prompt_entry);
        let h2 = with_event_hook(h1, "Stop"@, stop_entry);
        let prompt_list = entries_without_managed_hooks(
            event_entries(hooks_member(root), "UserPromptSubmit"@),
        ).push(prompt_entry);
        let stop_list = entries_without_managed_hooks(event_entries(h1, "Stop"@)).push(stop_entry);
        lemma_hook_holds_script(script, "running"@, "codex-beacon-event.ps1"@);
        lemma_hook_holds_script(script, "completed"@, "codex-beacon-event.ps1"@);
        assert(prompt_list[prompt_list.len() - 1] == prompt_entry);
        lemma_array_contains_text(prompt_list, prompt_list.len() - 1, "codex-beacon-event.ps1"@);
        assert(stop_list[stop_list.len() - 1] == stop_entry);
        lemma_array_contains_text(stop_list, stop_list.len() - 1, "codex-beacon-event.ps1"@);
        assert(h2["UserPromptSubmit"@] == JsonModel::Array(prompt_list));
        assert(h2["Stop"@] == JsonModel::Array(stop_list));
        assert(json_member(JsonModel::Object(with_status_hooks(root, script)), "hooks"@) == Some(
            JsonModel::Object(h2),
        ));
    }
}

/// The install leaves the rest of the configuration as it was: every member but
/// `hooks`, every event but the two it installs under, and, under those two, every
/// entry that holds none of this application's hooks.
pub proof fn lemma_status_hooks_install_keeps_the_rest(
    root: Map<Seq<char>, JsonModel>,
    script: Seq<char>,
)
    ensures
        forall|k: Seq<char>|
            k != "hooks"@ ==> (#[trigger] with_status_hooks(root, script).dom().contains(k)
                == root.dom().contains(k)) && (root.dom().contains(k) ==> with_status_hooks(
                root,
                script,
            )[k] == root[k]),
        forall|e: Seq<char>|
            e != "UserPromptSubmit"@ && e != "Stop"@ ==> (#[trigger] hooks_member(
                with_status_hooks(root, script),
            ).dom().contains(e) == hooks_member(root).dom().contains(e)) && (hooks_member(
                root,
            ).dom().contains(e) ==> hooks_member(with_status_hooks(root, script))[e]
                == hooks_member(root)[e]),
        forall|e: Seq<char>, entry: JsonModel|
            (e == "UserPromptSubmit"@ || e == "Stop"@) && #[trigger] event_entries(
                hooks_member(root),
                e,
            ).contains(entry) && entry_without_managed_hooks(entry) == Some(entry)
                ==> #[trigger] event_entries(hooks_member(with_status_hooks(root, script)), e).contains(
                entry,
            ),
{
    reveal_strlit("UserPromptSubmit");
    reveal_strlit("Stop");
    assert("UserPromptSubmit"@.len() != "Stop"@.len());
    let prompt_entry = hook_entry(script, "running"@);
    let stop_entry = hook_entry(script, "completed"@);
    let h0 = hooks_member(root);
    let h1 = with_event_hook(h0, "UserPromptSubmit"@, prompt_entry);
    let h2 = with_event_hook(h1, "Stop"@, stop_entry);
    assert(hooks_member(with_status_hooks(root, script)) == h2);
    assert forall|e: Seq<char>, entry: JsonModel|
        (e == "UserPromptSubmit"@ || e == "Stop"@) && #[trigger] event_entries(h0, e).contains(entry)
            && entry_without_managed_hooks(entry) == Some(entry) implies #[trigger] event_entries(
        h2,
        e,
    ).contains(entry) by {
        let f = entry_without_managed_fn();
        assert(f(entry) == Some(entry));
        if e == "UserPromptSubmit"@ {
            lemma_filter_map_keeps(event_entries(h0, e), f, entry);
            let kept = entries_without_managed_hooks(event_entries(h0, e));
            let j = choose|j: int| 0 <= j < kept.len() && kept[j] == entry;
            assert(event_entries(h2, e) == kept.push(prompt_entry));
            assert(kept.push(prompt_entry)[j] == entry);
        } else {
            assert(event_entries(h1, e) == event_entries(h0, e));
            lemma_filter_map_keeps(event_entries(h1, e), f, entry);
            let kept = entries_without_managed_hooks(event_entries(h1, e));
            let j = choose|j: int| 0 <= j < kept.len() && kept[j] == entry;
            assert(event_entries(h2, e) == kept.push(stop_entry));
            assert(kept.push(stop_entry)[j] == entry);
        }
    }
}

} // verus!

verus! {

/// Installing the status hooks into the `hooks.json` text an install wrote writes the
/// same text again, for a script whose path carries the application's mark. This is
/// stated for texts that read back as the configuration they were written from;
/// `serde_json` does not promise that of every value (floating-point numbers read
/// back exactly only with its `float_roundtrip` feature), so it is the law's condition.
pub proof fn lemma_hooks_text_install_is_idempotent(existing: Option<Seq<char>>, script: Seq<char>)
    requires
        contains_seq(script, "codex-beacon-"@),
        hooks_file_config(existing) is Some,
        config_with_status_hooks(hooks_file_config(existing)->Some_0, script) is Some,
        hooks_file_config(
            Some(json_pretty_text(config_with_status_hooks(hooks_file_config(existing)->Some_0, script)->Some_0)),
        ) == config_with_status_hooks(hooks_file_config(existing)->Some_0, script),
    ensures
        ({
            let installed = config_with_status_hooks(hooks_file_config(existing)->Some_0, script)->Some_0;
            let written = json_pretty_text(installed);
            &&& hooks_file_config(Some(written)) == Some(installed)
            &&& config_with_status_hooks(hooks_file_config(Some(written))->Some_0, script) == Some(
                installed,
            )
        }),
{
    lemma_status_hooks_install_is_idempotent(hooks_file_config(existing)->Some_0, script);
}

} // verus!

verus! {

/// An object holds a text when one of its members does, whatever its size.
proof fn lemma_member_text_is_held(members: Map<Seq<char>, JsonModel>, key: Seq<char>, needle: Seq<char>)
    requires
        members.dom().contains(key),
        json_contains_text(members[key], needle),
    ensures
        json_contains_text(JsonModel::Object(members), needle),
{
    let object = JsonModel::Object(members);
    assert(decreases_to!(object => object->Object_0));
}

/// The hooks count as installed only when both `UserPromptSubmit` and `Stop` hold a
/// string naming the event script `codex-beacon-event.ps1`: a `hooks.json` that names
/// only other scripts, such as the former `focusd-codex-event.ps1`, or that does not
/// name the event script anywhere, is not installed.
pub proof fn lemma_installed_hooks_name_the_event_script(content: Seq<char>)
    ensures
        hooks_text_installed(Some(content)) ==> ({
            let config = json_text_value(content)->Some_0;
            let hooks = json_member(config, "hooks"@);
            &&& json_text_value(content) is Some
            &&& hooks matches Some(JsonModel::Object(h)) && h.dom().contains("UserPromptSubmit"@)
                && h.dom().contains("Stop"@) && json_contains_text(
                h["UserPromptSubmit"@],
                "codex-beacon-event.ps1"@,
            ) && json_contains_text(h["Stop"@], "codex-beacon-event.ps1"@)
            &&& json_contains_text(config, "codex-beacon-event.ps1"@)
        }),
        json_text_value(content) matches Some(config) && !json_contains_text(
            config,
            "codex-beacon-event.ps1"@,
        ) ==> !hooks_text_installed(Some(content)),
{
    if hooks_text_installed(Some(content)) {
        let config = json_text_value(content)->Some_0;
        let h = json_member(config, "hooks"@)->Some_0->Object_0;
        lemma_member_text_is_held(h, "Stop"@, "codex-beacon-event.ps1"@);
        let m = config->Object_0;
        assert(m["hooks"@] == JsonModel::Object(h));
        lemma_member_text_is_held(m, "hooks"@, "codex-beacon-event.ps1"@);
    }
}

} // verus!
