//! The live activity of a running Codex turn, read from the JSON lines of its
//! rollout: the latest activity label, the plan progress, turns that ended, and
//! whether Codex waits for the user's reply or approval.
use vstd::prelude::*;
use serde_json::Value;
use crate::sessions::{text_is, CodexSession, SessionView};
use crate::json::{
    json_as_array, json_as_i64, json_as_object, json_as_str, json_get, json_i64, json_member,
    json_text, json_text_value, json_value_model, json_values_model, parse_json, JsonModel,
};
use crate::pairs::{assoc_map, assoc_remove, assoc_set, find_key, keys_unique, pairs_view, lemma_assoc_dom, lemma_assoc_value};
use crate::text::{
    ascii_lower, ascii_lower_chars, chars_of, compact_activity_text, compact_text, contains_literal,
    contains_seq, first_from, lemma_first_from_is, lines, split_lines,
    str_is, string_from_chars, view_lines,
};

verus! {

/// How a turn ended, as its rollout records it.
#[derive(Debug)]
pub struct RolloutTerminal {
    pub phase: String,
    pub updated_at: i64,
}

pub struct TerminalView {
    pub phase: Seq<char>,
    pub updated_at: i64,
}

impl View for RolloutTerminal {
    type V = TerminalView;

    open spec fn view(&self) -> TerminalView {
        TerminalView { phase: self.phase@, updated_at: self.updated_at }
    }
}

/// A tool call that has no output yet.
#[derive(Debug)]
pub struct PendingCall {
    pub name: String,
    pub input: String,
}

pub struct PendingView {
    pub name: Seq<char>,
    pub input: Seq<char>,
}

impl View for PendingCall {
    type V = PendingView;

    open spec fn view(&self) -> PendingView {
        PendingView { name: self.name@, input: self.input@ }
    }
}

/// What the rollout of a session shows about its current turn.
#[derive(Debug)]
pub struct RolloutActivity {
    pub activity: String,
    pub attention: String,
    pub plan_completed: usize,
    pub plan_total: usize,
    pub current_step: String,
    pub updated_at: i64,
    /// The turns that ended, by turn id, each id once.
    pub terminal_turns: Vec<(String, RolloutTerminal)>,
}

pub struct ActivityView {
    pub activity: Seq<char>,
    pub attention: Seq<char>,
    pub plan_completed: nat,
    pub plan_total: nat,
    pub current_step: Seq<char>,
    pub updated_at: i64,
    pub terminal_turns: Map<Seq<char>, TerminalView>,
}

impl View for RolloutActivity {
    type V = ActivityView;

    open spec fn view(&self) -> ActivityView {
        ActivityView {
            activity: self.activity@,
            attention: self.attention@,
            plan_completed: self.plan_completed as nat,
            plan_total: self.plan_total as nat,
            current_step: self.current_step@,
            updated_at: self.updated_at,
            terminal_turns: assoc_map(pairs_view(self.terminal_turns@)),
        }
    }
}

impl RolloutActivity {
    /// Each ended turn is listed once.
    pub open spec fn wf(&self) -> bool {
        keys_unique(pairs_view(self.terminal_turns@))
    }

    /// How the turn `turn_id` ended, if the rollout records its end.
    pub fn terminal_turn(&self, turn_id: &str) -> (r: Option<&RolloutTerminal>)
        requires
            self.wf(),
        ensures
            match r {
                Some(t) => self@.terminal_turns.dom().contains(turn_id@)
                    && self@.terminal_turns[turn_id@] == t@,
                None => !self@.terminal_turns.dom().contains(turn_id@),
            },
    {
        let ghost pv = pairs_view(self.terminal_turns@);
        proof {
            lemma_assoc_dom(pv, turn_id@);
        }
        match find_key(&self.terminal_turns, turn_id) {
            Some(i) => {
                proof {
                    assert(pv[i as int].0 == turn_id@);
                    lemma_assoc_value(pv, i as int);
                }
                Some(&self.terminal_turns[i].1)
            },
            None => {
                proof {
                    assert forall|j: int| 0 <= j < pv.len() implies pv[j].0 != turn_id@ by {
                        assert(pv[j].0 == self.terminal_turns@[j].0@);
                    }
                }
                None
            },
        }
    }
}

/// The activity of a turn that has just started, keeping the ended turns.
pub open spec fn fresh_activity(terminal_turns: Map<Seq<char>, TerminalView>) -> ActivityView {
    ActivityView {
        activity: "正在分析任务"@,
        attention: Seq::empty(),
        plan_completed: 0,
        plan_total: 0,
        current_step: Seq::empty(),
        updated_at: 0,
        terminal_turns,
    }
}

/// What the reading of a rollout has gathered so far.
pub struct RolloutState {
    pub activity: ActivityView,
    pub pending: Map<Seq<char>, PendingView>,
}

pub open spec fn text_or_empty(text: Option<Seq<char>>) -> Seq<char> {
    match text {
        Some(t) => t,
        None => Seq::empty(),
    }
}

/// The text of the string member `key` of a value.
pub open spec fn member_text(value: JsonModel, key: Seq<char>) -> Option<Seq<char>> {
    json_text(json_member(value, key))
}

/// `x * 1000`, clamped to the range of `i64`, as `i64::saturating_mul` computes it.
pub open spec fn saturating_millis(x: i64) -> i64 {
    let m = x * 1000;
    if m > i64::MAX {
        i64::MAX
    } else if m < i64::MIN {
        i64::MIN
    } else {
        m as i64
    }
}

/// The activity with the turn named by the payload's `turn_id` recorded as ended in
/// `phase` at the payload's `completed_at` (seconds, 0 when absent) in milliseconds;
/// unchanged when the payload names no turn.
pub open spec fn with_terminal(a: ActivityView, payload: JsonModel, phase: Seq<char>) -> ActivityView {
    let turn = member_text(payload, "turn_id"@);
    if turn is Some && turn->Some_0.len() > 0 {
        let seconds = match json_i64(json_member(payload, "completed_at"@)) {
            Some(s) => s,
            None => 0,
        };
        ActivityView {
            terminal_turns: a.terminal_turns.insert(
                turn->Some_0,
                TerminalView { phase, updated_at: saturating_millis(seconds) },
            ),
            ..a
        }
    } else {
        a
    }
}

/// The steps of the plan that an `update_plan` call's arguments hold.
pub open spec fn plan_steps(input: Seq<char>) -> Option<Seq<JsonModel>> {
    match json_text_value(input) {
        Some(arguments) => match json_member(arguments, "plan"@) {
            Some(JsonModel::Array(steps)) => Some(steps),
            _ => None,
        },
        None => None,
    }
}

pub open spec fn step_status_is(step: JsonModel, status: Seq<char>) -> bool {
    member_text(step, "status"@) == Some(status)
}

/// The number of completed steps.
pub open spec fn completed_steps(steps: Seq<JsonModel>) -> nat
    decreases steps.len(),
{
    if steps.len() == 0 {
        0
    } else {
        completed_steps(steps.drop_last()) + if step_status_is(steps.last(), "completed"@) {
            1nat
        } else {
            0nat
        }
    }
}

pub open spec fn in_progress_pred() -> spec_fn(JsonModel) -> bool {
    |step: JsonModel| step_status_is(step, "in_progress"@)
}

/// The compacted text of the first step in progress, or nothing.
pub open spec fn current_step_of(steps: Seq<JsonModel>) -> Seq<char> {
    let i = first_from(steps, 0, in_progress_pred());
    if 0 <= i < steps.len() {
        match member_text(steps[i], "step"@) {
            Some(t) => compact_text(t),
            None => Seq::empty(),
        }
    } else {
        Seq::empty()
    }
}

/// The activity after an `update_plan` call: the plan's size, its completed steps
/// and its step in progress, which becomes the activity when there is one; unchanged
/// when the arguments hold no plan.
pub open spec fn with_plan(a: ActivityView, input: Seq<char>) -> ActivityView {
    match plan_steps(input) {
        Some(steps) => {
            let current = current_step_of(steps);
            ActivityView {
                plan_total: steps.len(),
                plan_completed: completed_steps(steps),
                current_step: current,
                activity: if current.len() > 0 {
                    current
                } else {
                    a.activity
                },
                ..a
            }
        },
        None => a,
    }
}

/// The label shown for a tool call.
pub open spec fn activity_label(name: Seq<char>, input: Seq<char>) -> Seq<char> {
    let lower = ascii_lower(input);
    if name == "apply_patch"@ {
        "正在修改项目文件"@
    } else if name == "view_image"@ {
        "正在检查图像"@
    } else if name == "imagegen"@ || name == "image_gen"@ {
        "正在生成图像"@
    } else if name == "run"@ {
        "正在查询资料"@
    } else if name == "wait"@ || name == "write_stdin"@ {
        "正在等待任务结果"@
    } else if name == "exec"@ || name == "exec_command"@ {
        if contains_seq(lower, "pnpm"@) && contains_seq(lower, "build"@) {
            "正在构建并验证"@
        } else if contains_seq(lower, "cargo test"@) || contains_seq(lower, "pnpm test"@)
            || contains_seq(lower, "npm test"@) {
            "正在运行测试"@
        } else if contains_seq(lower, "get-content"@) || contains_seq(lower, "rg "@)
            || contains_seq(lower, "git status"@) {
            "正在检查项目文件"@
        } else {
            "正在执行命令"@
        }
    } else if name == "request_user_input"@ {
        "等待你回复 Codex"@
    } else {
        "正在调用工具"@
    }
}

/// Whether a tool call asks for escalated permissions, which the user must approve.
pub open spec fn requires_approval(input: Seq<char>) -> bool {
    contains_seq(input, "require_escalated"@) || contains_seq(
        input,
        "\"sandbox_permissions\":\"require_escalated\""@,
    )
}

/// The name, input and id of a tool call; the input is the `arguments` member when
/// there is one, else the `input` member.
pub open spec fn call_name(payload: JsonModel) -> Seq<char> {
    text_or_empty(member_text(payload, "name"@))
}

pub open spec fn call_input(payload: JsonModel) -> Seq<char> {
    match json_member(payload, "arguments"@) {
        Some(arguments) => text_or_empty(json_text(Some(arguments))),
        None => text_or_empty(member_text(payload, "input"@)),
    }
}

pub open spec fn call_id(payload: JsonModel) -> Seq<char> {
    text_or_empty(member_text(payload, "call_id"@))
}

pub open spec fn reasoning_activity(a: ActivityView) -> Seq<char> {
    if a.current_step.len() == 0 {
        "正在分析下一步"@
    } else {
        a.current_step
    }
}

/// One rollout record of kind `kind` with the given payload, applied to the state.
pub open spec fn rollout_payload_step(
    st: RolloutState,
    kind: Option<Seq<char>>,
    payload: JsonModel,
) -> RolloutState {
    let ptype = text_or_empty(member_text(payload, "type"@));
    let a = st.activity;
    let event = kind == Some("event_msg"@);
    let item = kind == Some("response_item"@);
    if event && ptype == "task_started"@ {
        RolloutState { activity: fresh_activity(a.terminal_turns), pending: Map::empty() }
    } else if event && ptype == "task_complete"@ {
        let b = with_terminal(a, payload, "completed"@);
        RolloutState {
            activity: ActivityView { activity: "任务已完成"@, attention: Seq::empty(), ..b },
            pending: Map::empty(),
        }
    } else if event && ptype == "turn_aborted"@ {
        let b = with_terminal(a, payload, "failed"@);
        RolloutState {
            activity: ActivityView { activity: "任务已停止"@, attention: Seq::empty(), ..b },
            pending: Map::empty(),
        }
    } else if event && ptype == "agent_message"@ {
        if member_text(payload, "phase"@) == Some("commentary"@) && member_text(
            payload,
            "message"@,
        ) is Some {
            RolloutState {
                activity: ActivityView {
                    activity: compact_text(member_text(payload, "message"@)->Some_0),
                    ..a
                },
                pending: st.pending,
            }
        } else {
            st
        }
    } else if (event && ptype == "agent_reasoning"@) || (item && ptype == "reasoning"@) {
        RolloutState {
            activity: ActivityView { activity: reasoning_activity(a), ..a },
            pending: st.pending,
        }
    } else if item && (ptype == "function_call"@ || ptype == "custom_tool_call"@) {
        let name = call_name(payload);
        let input = call_input(payload);
        let id = call_id(payload);
        let b = if name == "update_plan"@ {
            with_plan(a, input)
        } else {
            ActivityView { activity: activity_label(name, input), ..a }
        };
        RolloutState {
            activity: b,
            pending: if id.len() > 0 {
                st.pending.insert(id, PendingView { name, input })
            } else {
                st.pending
            },
        }
    } else if item && (ptype == "function_call_output"@ || ptype == "custom_tool_call_output"@) {
        match member_text(payload, "call_id"@) {
            Some(id) => RolloutState { activity: a, pending: st.pending.remove(id) },
            None => st,
        }
    } else {
        st
    }
}

/// One rollout line applied to the state: a JSON record with an object `payload`;
/// any other line changes nothing.
pub open spec fn rollout_line_step(st: RolloutState, line: Seq<char>) -> RolloutState {
    match json_text_value(line) {
        Some(record) => match json_member(record, "payload"@) {
            Some(JsonModel::Object(members)) => rollout_payload_step(
                st,
                member_text(record, "type"@),
                JsonModel::Object(members),
            ),
            _ => st,
        },
        None => st,
    }
}

pub open spec fn initial_rollout_state() -> RolloutState {
    RolloutState { activity: fresh_activity(Map::empty()), pending: Map::empty() }
}

/// The state after reading the lines in order.
pub open spec fn rollout_state_of(ls: Seq<Seq<char>>) -> RolloutState
    decreases ls.len(),
{
    if ls.len() == 0 {
        initial_rollout_state()
    } else {
        rollout_line_step(rollout_state_of(ls.drop_last()), ls.last())
    }
}

pub open spec fn awaits_input(pending: Map<Seq<char>, PendingView>) -> bool {
    exists|id: Seq<char>| #[trigger] pending.dom().contains(id) && pending[id].name == "request_user_input"@
}

pub open spec fn awaits_approval(pending: Map<Seq<char>, PendingView>) -> bool {
    exists|id: Seq<char>| #[trigger] pending.dom().contains(id) && requires_approval(pending[id].input)
}

/// The activity at the end of the rollout: a call still waiting for the user's reply
/// asks for input; otherwise a call still waiting for escalated permissions asks for
/// approval.
pub open spec fn settle_attention(st: RolloutState) -> ActivityView {
    if awaits_input(st.pending) {
        ActivityView { attention: "input"@, activity: "等待你回复 Codex"@, ..st.activity }
    } else if awaits_approval(st.pending) {
        ActivityView { attention: "approval"@, activity: "等待你批准 Codex 操作"@, ..st.activity }
    } else {
        st.activity
    }
}

/// The activity that a rollout text shows.
pub open spec fn rollout_activity(content: Seq<char>) -> ActivityView {
    settle_attention(rollout_state_of(lines(content)))
}

} // verus!

verus! {

/// The label shown for a tool call, as `activity_label` gives it.
pub fn activity_label_for_call(name: &str, input: &str) -> (r: String)
    ensures
        r@ == activity_label(name@, input@),
{
    let input_chars = chars_of(input);
    let lower = ascii_lower_chars(&input_chars);
    let label = if str_is(name, "apply_patch") {
        "正在修改项目文件"
    } else if str_is(name, "view_image") {
        "正在检查图像"
    } else if str_is(name, "imagegen") || str_is(name, "image_gen") {
        "正在生成图像"
    } else if str_is(name, "run") {
        "正在查询资料"
    } else if str_is(name, "wait") || str_is(name, "write_stdin") {
        "正在等待任务结果"
    } else if str_is(name, "exec") || str_is(name, "exec_command") {
        if contains_literal(&lower, "pnpm") && contains_literal(&lower, "build") {
            "正在构建并验证"
        } else if contains_literal(&lower, "cargo test") || contains_literal(&lower, "pnpm test")
            || contains_literal(&lower, "npm test") {
            "正在运行测试"
        } else if contains_literal(&lower, "get-content") || contains_literal(&lower, "rg ")
            || contains_literal(&lower, "git status") {
            "正在检查项目文件"
        } else {
            "正在执行命令"
        }
    } else if str_is(name, "request_user_input") {
        "等待你回复 Codex"
    } else {
        "正在调用工具"
    };
    String::from_str(label)
}

/// Whether a tool call's input asks for escalated permissions.
pub fn call_requires_approval(input: &str) -> (r: bool)
    ensures
        r == requires_approval(input@),
{
    let chars = chars_of(input);
    contains_literal(&chars, "require_escalated") || contains_literal(
        &chars,
        "\"sandbox_permissions\":\"require_escalated\"",
    )
}

/// The text of the string member `key` of a value.
pub fn member_str<'a>(value: &'a Value, key: &str) -> (r: Option<&'a str>)
    ensures
        match r {
            Some(t) => member_text(json_value_model(*value), key@) == Some(t@),
            None => member_text(json_value_model(*value), key@) is None,
        },
{
    match json_get(value, key) {
        Some(member) => json_as_str(member),
        None => None,
    }
}

fn saturating_millis_exec(x: i64) -> (r: i64)
    ensures
        r == saturating_millis(x),
{
    match x.checked_mul(1000) {
        Some(m) => m,
        None => {
            if x > 0 {
                i64::MAX
            } else {
                i64::MIN
            }
        },
    }
}

/// Records the turn the payload names as ended in `phase`, as `with_terminal` describes.
pub fn record_rollout_terminal(activity: &mut RolloutActivity, payload: &Value, phase: &str)
    requires
        old(activity).wf(),
    ensures
        final(activity).wf(),
        final(activity)@ == with_terminal(old(activity)@, json_value_model(*payload), phase@),
{
    let turn_id = match member_str(payload, "turn_id") {
        Some(t) => t,
        None => {
            return ;
        },
    };
    if turn_id.unicode_len() == 0 {
        return ;
    }
    let seconds = match json_get(payload, "completed_at") {
        Some(v) => match json_as_i64(v) {
            Some(s) => s,
            None => 0,
        },
        None => 0,
    };
    let updated_at = saturating_millis_exec(seconds);
    assoc_set(
        &mut activity.terminal_turns,
        String::from_str(turn_id),
        RolloutTerminal { phase: String::from_str(phase), updated_at },
    );
}

fn step_in_progress(step: &Value) -> (r: bool)
    ensures
        r == in_progress_pred()(json_value_model(*step)),
{
    match member_str(step, "status") {
        Some(status) => str_is(status, "in_progress"),
        None => false,
    }
}

/// Applies an `update_plan` call's arguments, as `with_plan` describes.
pub fn apply_plan_update(activity: &mut RolloutActivity, input: &str)
    requires
        old(activity).wf(),
    ensures
        final(activity).wf(),
        final(activity)@ == with_plan(old(activity)@, input@),
{
    let arguments = match parse_json(input) {
        Ok(v) => v,
        Err(_) => {
            return ;
        },
    };
    let plan = match json_get(&arguments, "plan") {
        Some(p) => p,
        None => {
            return ;
        },
    };
    let steps = match json_as_array(plan) {
        Some(s) => s,
        None => {
            return ;
        },
    };
    let ghost model = json_values_model(steps@);
    let mut completed: usize = 0;
    let mut i: usize = 0;
    while i < steps.len()
        invariant
            model == json_values_model(steps@),
            i <= steps@.len(),
            completed == completed_steps(model.take(i as int)),
            completed <= i,
        decreases steps.len() - i,
    {
        assert(model.take(i + 1).drop_last() =~= model.take(i as int));
        assert(model.take(i + 1).last() == json_value_model(steps@[i as int]));
        match member_str(&steps[i], "status") {
            Some(status) => {
                if str_is(status, "completed") {
                    completed = completed + 1;
                }
            },
            None => {},
        }
        i = i + 1;
    }
    assert(model.take(steps@.len() as int) =~= model);
    let mut j: usize = 0;
    while j < steps.len() && !step_in_progress(&steps[j])
        invariant
            model == json_values_model(steps@),
            j <= steps@.len(),
            forall|k: int| 0 <= k < j ==> !in_progress_pred()(#[trigger] model[k]),
        decreases steps.len() - j,
    {
        j = j + 1;
    }
    proof {
        lemma_first_from_is(model, 0, in_progress_pred(), j as int);
    }
    let found: Option<usize> = if j < steps.len() {
        Some(j)
    } else {
        None
    };
    let current = match found {
        Some(k) => match member_str(&steps[k], "step") {
            Some(text) => compact_activity_text(text),
            None => String::new(),
        },
        None => String::new(),
    };
    activity.plan_total = steps.len();
    activity.plan_completed = completed;
    if current.unicode_len() > 0 {
        activity.activity = current.clone();
    }
    activity.current_step = current;
}

} // verus!

verus! {

pub open spec fn kind_view(kind: Option<&str>) -> Option<Seq<char>> {
    match kind {
        Some(k) => Some(k@),
        None => None,
    }
}

pub open spec fn state_view(activity: ActivityView, pending: Seq<(String, PendingCall)>) -> RolloutState {
    RolloutState { activity, pending: assoc_map(pairs_view(pending)) }
}

fn text_or_empty_str<'a>(text: Option<&'a str>) -> (r: &'a str)
    ensures
        r@ == text_or_empty(match text {
            Some(t) => Some(t@),
            None => None,
        }),
{
    match text {
        Some(t) => t,
        None => {
            proof {
                reveal_strlit("");
            }
            assert(""@ =~= Seq::<char>::empty());
            ""
        },
    }
}

/// Applies one rollout record, as `rollout_payload_step` describes.
pub fn apply_rollout_record(
    activity: &mut RolloutActivity,
    pending: &mut Vec<(String, PendingCall)>,
    kind: Option<&str>,
    payload: &Value,
)
    requires
        old(activity).wf(),
        keys_unique(pairs_view(old(pending)@)),
    ensures
        final(activity).wf(),
        keys_unique(pairs_view(final(pending)@)),
        state_view(final(activity)@, final(pending)@) == rollout_payload_step(
            state_view(old(activity)@, old(pending)@),
            kind_view(kind),
            json_value_model(*payload),
        ),
{
    let ghost p = json_value_model(*payload);
    let ptype = text_or_empty_str(member_str(payload, "type"));
    let event = match kind {
        Some(k) => str_is(k, "event_msg"),
        None => false,
    };
    let item = match kind {
        Some(k) => str_is(k, "response_item"),
        None => false,
    };
    assert(event == (kind_view(kind) == Some("event_msg"@)));
    assert(item == (kind_view(kind) == Some("response_item"@)));
    if event && str_is(ptype, "task_started") {
        activity.activity = String::from_str("正在分析任务");
        activity.attention = String::new();
        activity.plan_completed = 0;
        activity.plan_total = 0;
        activity.current_step = String::new();
        activity.updated_at = 0;
        pending.clear();
        assert(pairs_view(pending@) =~= Seq::<(Seq<char>, PendingView)>::empty());
    } else if event && str_is(ptype, "task_complete") {
        record_rollout_terminal(activity, payload, "completed");
        activity.activity = String::from_str("任务已完成");
        activity.attention = String::new();
        pending.clear();
        assert(pairs_view(pending@) =~= Seq::<(Seq<char>, PendingView)>::empty());
    } else if event && str_is(ptype, "turn_aborted") {
        record_rollout_terminal(activity, payload, "failed");
        activity.activity = String::from_str("任务已停止");
        activity.attention = String::new();
        pending.clear();
        assert(pairs_view(pending@) =~= Seq::<(Seq<char>, PendingView)>::empty());
    } else if event && str_is(ptype, "agent_message") {
        let commentary = match member_str(payload, "phase") {
            Some(phase) => str_is(phase, "commentary"),
            None => false,
        };
        if commentary {
            match member_str(payload, "message") {
                Some(message) => {
                    activity.activity = compact_activity_text(message);
                },
                None => {},
            }
        }
    } else if (event && str_is(ptype, "agent_reasoning")) || (item && str_is(ptype, "reasoning")) {
        if activity.current_step.as_str().unicode_len() == 0 {
            activity.activity = String::from_str("正在分析下一步");
        } else {
            activity.activity = activity.current_step.clone();
        }
    } else if item && (str_is(ptype, "function_call") || str_is(ptype, "custom_tool_call")) {
        let name = text_or_empty_str(member_str(payload, "name"));
        let input = match json_get(payload, "arguments") {
            Some(arguments) => text_or_empty_str(json_as_str(arguments)),
            None => text_or_empty_str(member_str(payload, "input")),
        };
        let id = text_or_empty_str(member_str(payload, "call_id"));
        assert(name@ == call_name(p));
        assert(input@ == call_input(p));
        assert(id@ == call_id(p));
        if str_is(name, "update_plan") {
            apply_plan_update(activity, input);
        } else {
            activity.activity = activity_label_for_call(name, input);
        }
        if id.unicode_len() > 0 {
            assoc_set(
                pending,
                String::from_str(id),
                PendingCall { name: String::from_str(name), input: String::from_str(input) },
            );
        }
    } else if item && (str_is(ptype, "function_call_output") || str_is(
        ptype,
        "custom_tool_call_output",
    )) {
        match member_str(payload, "call_id") {
            Some(id) => {
                assoc_remove(pending, id);
            },
            None => {},
        }
    }
}

/// Reads the activity of a turn from the text of its rollout: each line that is a
/// JSON record with an object payload is applied in order, as `rollout_activity`
/// describes; a call still waiting at the end asks for input or approval.
pub fn parse_rollout_activity(content: &str) -> (r: RolloutActivity)
    ensures
        r.wf(),
        r@ == rollout_activity(content@),
{
    let chars = chars_of(content);
    let ls = split_lines(&chars);
    let ghost lv = view_lines(ls@);
    let mut activity = RolloutActivity {
        activity: String::from_str("正在分析任务"),
        attention: String::new(),
        plan_completed: 0,
        plan_total: 0,
        current_step: String::new(),
        updated_at: 0,
        terminal_turns: Vec::new(),
    };
    let mut pending: Vec<(String, PendingCall)> = Vec::new();
    assert(pairs_view(activity.terminal_turns@) =~= Seq::<(Seq<char>, TerminalView)>::empty());
    assert(pairs_view(pending@) =~= Seq::<(Seq<char>, PendingView)>::empty());
    assert(lv.take(0) =~= Seq::<Seq<char>>::empty());
    let mut i: usize = 0;
    while i < ls.len()
        invariant
            lv == view_lines(ls@),
            lv == lines(content@),
            i <= ls@.len(),
            activity.wf(),
            keys_unique(pairs_view(pending@)),
            state_view(activity@, pending@) == rollout_state_of(lv.take(i as int)),
        decreases ls.len() - i,
    {
        assert(lv.take(i + 1).drop_last() =~= lv.take(i as int));
        assert(lv.take(i + 1).last() == ls@[i as int]@);
        let line = string_from_chars(ls[i].as_slice());
        match parse_json(line.as_str()) {
            Ok(record) => {
                match json_get(&record, "payload") {
                    Some(payload) => {
                        if json_as_object(payload).is_some() {
                            let kind = match json_get(&record, "type") {
                                Some(t) => json_as_str(t),
                                None => None,
                            };
                            assert(kind_view(kind) == member_text(
                                json_value_model(record),
                                "type"@,
                            ));
                            apply_rollout_record(&mut activity, &mut pending, kind, payload);
                        }
                    },
                    None => {},
                }
            },
            Err(_) => {},
        }
        i = i + 1;
    }
    assert(lv.take(ls@.len() as int) =~= lv);
    let ghost st = state_view(activity@, pending@);
    let ghost pv = pairs_view(pending@);
    let mut waits_input = false;
    let mut waits_approval = false;
    let mut k: usize = 0;
    while k < pending.len()
        invariant
            pv == pairs_view(pending@),
            keys_unique(pv),
            k <= pending@.len(),
            waits_input == exists|j: int| 0 <= j < k && #[trigger] pv[j].1.name == "request_user_input"@,
            waits_approval == exists|j: int| 0 <= j < k && requires_approval(#[trigger] pv[j].1.input),
        decreases pending.len() - k,
    {
        let is_input = str_is(pending[k].1.name.as_str(), "request_user_input");
        let is_approval = call_requires_approval(pending[k].1.input.as_str());
        proof {
            assert(pv[k as int].1 == pending@[k as int].1@);
            if is_input {
                assert(pv[k as int].1.name == "request_user_input"@);
            }
            if is_approval {
                assert(requires_approval(pv[k as int].1.input));
            }
            assert((waits_input || is_input) == exists|j: int|
                0 <= j < k + 1 && #[trigger] pv[j].1.name == "request_user_input"@);
            assert((waits_approval || is_approval) == exists|j: int|
                0 <= j < k + 1 && requires_approval(#[trigger] pv[j].1.input));
        }
        waits_input = waits_input || is_input;
        waits_approval = waits_approval || is_approval;
        k = k + 1;
    }
    proof {
        let m = assoc_map(pv);
        if waits_input {
            let j = choose|j: int| 0 <= j < pending@.len() && #[trigger] pv[j].1.name == "request_user_input"@;
            lemma_assoc_value(pv, j);
            assert(m.dom().contains(pv[j].0));
        }
        if awaits_input(m) {
            let id = choose|id: Seq<char>| #[trigger] m.dom().contains(id) && m[id].name == "request_user_input"@;
            lemma_assoc_dom(pv, id);
            let j = choose|j: int| 0 <= j < pv.len() && pv[j].0 == id;
            lemma_assoc_value(pv, j);
            assert(pv[j].1.name == "request_user_input"@);
        }
        if waits_approval {
            let j = choose|j: int| 0 <= j < pending@.len() && requires_approval(#[trigger] pv[j].1.input);
            lemma_assoc_value(pv, j);
            assert(m.dom().contains(pv[j].0));
        }
        if awaits_approval(m) {
            let id = choose|id: Seq<char>| #[trigger] m.dom().contains(id) && requires_approval(m[id].input);
            lemma_assoc_dom(pv, id);
            let j = choose|j: int| 0 <= j < pv.len() && pv[j].0 == id;
            lemma_assoc_value(pv, j);
            assert(requires_approval(pv[j].1.input));
        }
        assert(waits_input == awaits_input(m));
        assert(waits_approval == awaits_approval(m));
    }
    if waits_input {
        activity.attention = String::from_str("input");
        activity.activity = String::from_str("等待你回复 Codex");
    } else if waits_approval {
        activity.attention = String::from_str("approval");
        activity.activity = String::from_str("等待你批准 Codex 操作");
    }
    activity
}

} // verus!

verus! {

/// Whether the island reads the rollout of a session: only for running or stale turns.
pub fn should_enrich_session(session: &CodexSession) -> (r: bool)
    ensures
        r == (session.phase@ == "running"@ || session.phase@ == "stale"@),
{
    text_is(&session.phase, "running") || text_is(&session.phase, "stale")
}

/// A session updated from the activity of its rollout: when the rollout records the
/// end of the session's turn, the session takes that phase, the matching ended
/// activity, no attention, and the later of the two update times; otherwise it takes
/// the live activity, attention, plan progress and step, and the later update time.
pub open spec fn enriched_session(s: SessionView, a: ActivityView) -> SessionView {
    if a.terminal_turns.dom().contains(s.turn_id) {
        let t = a.terminal_turns[s.turn_id];
        SessionView {
            phase: t.phase,
            activity: if t.phase == "completed"@ {
                "任务已完成"@
            } else {
                "任务已停止"@
            },
            attention: Seq::empty(),
            updated_at: if s.updated_at >= t.updated_at {
                s.updated_at
            } else {
                t.updated_at
            },
            ..s
        }
    } else {
        SessionView {
            activity: a.activity,
            attention: a.attention,
            plan_completed: a.plan_completed as usize,
            plan_total: a.plan_total as usize,
            current_step: a.current_step,
            updated_at: if s.updated_at >= a.updated_at {
                s.updated_at
            } else {
                a.updated_at
            },
            ..s
        }
    }
}

/// Updates a session from the activity of its rollout, as `enriched_session` describes.
pub fn apply_rollout_activity(session: &mut CodexSession, activity: &RolloutActivity)
    requires
        activity.wf(),
    ensures
        final(session)@ == enriched_session(old(session)@, activity@),
{
    match activity.terminal_turn(session.turn_id.as_str()) {
        Some(terminal) => {
            session.phase = terminal.phase.clone();
            session.activity = if text_is(&terminal.phase, "completed") {
                String::from_str("任务已完成")
            } else {
                String::from_str("任务已停止")
            };
            session.attention = String::new();
            if terminal.updated_at > session.updated_at {
                session.updated_at = terminal.updated_at;
            }
        },
        None => {
            session.activity = activity.activity.clone();
            session.attention = activity.attention.clone();
            session.plan_completed = activity.plan_completed;
            session.plan_total = activity.plan_total;
            session.current_step = activity.current_step.clone();
            if activity.updated_at > session.updated_at {
                session.updated_at = activity.updated_at;
            }
        },
    }
}

/// A rollout activity kept with the length and modification time of the file it was read from.
#[derive(Debug)]
pub struct CachedRolloutActivity {
    pub file_length: u64,
    pub modified_at: i64,
    pub activity: RolloutActivity,
}

/// Whether a cached activity still describes the rollout file: same length and modification time.
pub fn cached_activity_is_current(cached: &CachedRolloutActivity, file_length: u64, modified_at: i64) -> (r: bool)
    ensures
        r == (cached.file_length == file_length && cached.modified_at == modified_at),
{
    cached.file_length == file_length && cached.modified_at == modified_at
}

fn copy_terminal(t: &RolloutTerminal) -> (r: RolloutTerminal)
    ensures
        r@ == t@,
{
    RolloutTerminal { phase: t.phase.clone(), updated_at: t.updated_at }
}

/// A freshly read activity completed from the cache: when the cached activity was read
/// from a file no longer than the current one (the file only grew), the turns it
/// recorded as ended are kept, those of the fresh reading winning; the activity's
/// update time becomes the file's modification time.
pub open spec fn refreshed_activity(fresh: ActivityView, cached: Option<(u64, ActivityView)>, file_length: u64, modified_at: i64) -> ActivityView {
    let turns = match cached {
        Some(c) => if c.0 <= file_length {
            c.1.terminal_turns.union_prefer_right(fresh.terminal_turns)
        } else {
            fresh.terminal_turns
        },
        None => fresh.terminal_turns,
    };
    ActivityView { terminal_turns: turns, updated_at: modified_at, ..fresh }
}

pub open spec fn cached_view(cached: Option<&CachedRolloutActivity>) -> Option<(u64, ActivityView)> {
    match cached {
        Some(c) => Some((c.file_length, c.activity@)),
        None => None,
    }
}

/// Completes a freshly read activity from the cache, as `refreshed_activity` describes.
pub fn refresh_rollout_activity(
    fresh: RolloutActivity,
    cached: Option<&CachedRolloutActivity>,
    file_length: u64,
    modified_at: i64,
) -> (r: RolloutActivity)
    requires
        fresh.wf(),
        cached matches Some(c) ==> c.activity.wf(),
    ensures
        r.wf(),
        r@ == refreshed_activity(fresh@, cached_view(cached), file_length, modified_at),
{
    let mut activity = fresh;
    match cached {
        Some(c) => {
            if c.file_length <= file_length {
                let ghost latest = pairs_view(activity.terminal_turns@);
                let mut turns: Vec<(String, RolloutTerminal)> = Vec::new();
                let mut i: usize = 0;
                let ghost base = pairs_view(c.activity.terminal_turns@);
                while i < c.activity.terminal_turns.len()
                    invariant
                        base == pairs_view(c.activity.terminal_turns@),
                        keys_unique(base),
                        i <= base.len(),
                        pairs_view(turns@) == base.take(i as int),
                    decreases c.activity.terminal_turns.len() - i,
                {
                    let entry = &c.activity.terminal_turns[i];
                    let key = entry.0.clone();
                    let value = copy_terminal(&entry.1);
                    let ghost before = turns@;
                    turns.push((key, value));
                    proof {
                        assert(base[i as int] == (key@, value@));
                        assert(turns@ == before.push((key, value)));
                        assert(pairs_view(turns@) =~= pairs_view(before).push((key@, value@)));
                        assert(base.take(i + 1) =~= base.take(i as int).push(base[i as int]));
                    }
                    i = i + 1;
                }
                assert(base.take(base.len() as int) =~= base);
                let mut j: usize = 0;
                while j < activity.terminal_turns.len()
                    invariant
                        latest == pairs_view(activity.terminal_turns@),
                        keys_unique(latest),
                        keys_unique(pairs_view(turns@)),
                        j <= latest.len(),
                        assoc_map(pairs_view(turns@)) == assoc_map(base).union_prefer_right(
                            assoc_map(latest.take(j as int)),
                        ),
                    decreases activity.terminal_turns.len() - j,
                {
                    let entry = &activity.terminal_turns[j];
                    let ghost before = assoc_map(pairs_view(turns@));
                    assoc_set(&mut turns, entry.0.clone(), copy_terminal(&entry.1));
                    proof {
                        assert(latest.take(j + 1).drop_last() =~= latest.take(j as int));
                        assert(latest.take(j + 1).last() == latest[j as int]);
                        assert(assoc_map(pairs_view(turns@)) =~= assoc_map(base).union_prefer_right(
                            assoc_map(latest.take(j + 1)),
                        ));
                    }
                    j = j + 1;
                }
                assert(latest.take(latest.len() as int) =~= latest);
                activity.terminal_turns = turns;
            }
        },
        None => {},
    }
    activity.updated_at = modified_at;
    activity
}

/// Rollout tails longer than this many bytes are cut.
pub const MAX_ROLLOUT_TAIL_BYTES: u64 = 2_097_152;

/// The byte offset from which the tail of a rollout file of the given length is read.
pub fn rollout_tail_start(file_length: u64) -> (r: u64)
    ensures
        r == if file_length > MAX_ROLLOUT_TAIL_BYTES {
            file_length - MAX_ROLLOUT_TAIL_BYTES
        } else {
            0
        },
{
    file_length.saturating_sub(MAX_ROLLOUT_TAIL_BYTES)
}

/// The text of a rollout tail without its first, possibly cut, line: when the tail does
/// not start at the beginning of the file, everything up to and including the first
/// `'\n'` is dropped.
pub open spec fn rollout_tail_text(text: Seq<char>, start: u64) -> Seq<char> {
    let i = first_from(text, 0, crate::text::newline_pred());
    if start > 0 && i < text.len() {
        text.skip(i + 1)
    } else {
        text
    }
}

/// Reads the activity from the tail of a rollout file that starts at byte `start`.
pub fn read_rollout_tail_activity(text: &str, start: u64) -> (r: RolloutActivity)
    ensures
        r.wf(),
        r@ == rollout_activity(rollout_tail_text(text@, start)),
{
    let chars = chars_of(text);
    let mut i: usize = 0;
    while i < chars.len() && chars[i] != '\n'
        invariant
            i <= chars@.len(),
            forall|j: int| 0 <= j < i ==> !crate::text::newline_pred()(#[trigger] chars@[j]),
        decreases chars.len() - i,
    {
        i = i + 1;
    }
    proof {
        lemma_first_from_is(chars@, 0, crate::text::newline_pred(), i as int);
    }
    if start > 0 && i < chars.len() {
        let rest = crate::text::copy_range(&chars, i + 1, chars.len());
        assert(rest@ =~= chars@.skip(i + 1));
        let rest_text = string_from_chars(rest.as_slice());
        parse_rollout_activity(rest_text.as_str())
    } else {
        parse_rollout_activity(text)
    }
}

/// Whether a file name is that of the rollout of the given session: it ends with
/// `-{session_id}.jsonl`.
pub open spec fn is_rollout_file_name(file_name: Seq<char>, session_id: Seq<char>) -> bool {
    let suffix = seq!['-'] + session_id + ".jsonl"@;
    file_name.len() >= suffix.len() && file_name.skip(file_name.len() - suffix.len()) == suffix
}

/// Whether a file name is that of the rollout of the given session, as
/// `is_rollout_file_name` says.
pub fn is_rollout_file_for(file_name: &str, session_id: &str) -> (r: bool)
    ensures
        r == is_rollout_file_name(file_name@, session_id@),
{
    let name = chars_of(file_name);
    let mut suffix: Vec<char> = Vec::new();
    suffix.push('-');
    let id = chars_of(session_id);
    crate::text::append_chars(&mut suffix, id.as_slice());
    let ext = chars_of(".jsonl");
    crate::text::append_chars(&mut suffix, ext.as_slice());
    assert(suffix@ =~= seq!['-'] + session_id@ + ".jsonl"@);
    if name.len() < suffix.len() {
        return false;
    }
    let start = name.len() - suffix.len();
    let r = crate::text::range_equals(name.as_slice(), start, name.len(), suffix.as_slice());
    assert(name@.subrange(start as int, name@.len() as int) =~= name@.skip(start as int));
    r
}

} // verus!

verus! {

proof fn lemma_completed_steps_bound(steps: Seq<JsonModel>)
    ensures
        completed_steps(steps) <= steps.len(),
    decreases steps.len(),
{
    if steps.len() > 0 {
        lemma_completed_steps_bound(steps.drop_last());
    }
}

/// One rollout line never forgets a turn recorded as ended, and keeps the number of
/// completed plan steps within the size of the plan.
pub proof fn lemma_rollout_line_step_keeps(st: RolloutState, line: Seq<char>)
    requires
        st.activity.plan_completed <= st.activity.plan_total,
    ensures
        st.activity.terminal_turns.dom().subset_of(
            rollout_line_step(st, line).activity.terminal_turns.dom(),
        ),
        rollout_line_step(st, line).activity.plan_completed <= rollout_line_step(
            st,
            line,
        ).activity.plan_total,
{
    match json_text_value(line) {
        Some(record) => match json_member(record, "payload"@) {
            Some(JsonModel::Object(members)) => {
                let payload = JsonModel::Object(members);
                let ptype = text_or_empty(member_text(payload, "type"@));
                let turn = member_text(payload, "turn_id"@);
                if turn is Some && turn->Some_0.len() > 0 {
                    assert(st.activity.terminal_turns.dom().subset_of(
                        st.activity.terminal_turns.insert(turn->Some_0, TerminalView {
                            phase: "completed"@, updated_at: 0 }).dom()));
                }
                let input = call_input(payload);
                match plan_steps(input) {
                    Some(steps) => {
                        lemma_completed_steps_bound(steps);
                    },
                    None => {},
                }
            },
            _ => {},
        },
        None => {},
    }
}

/// However a rollout reads, the turns it records as ended after some of its lines stay
/// recorded after more lines, and the completed plan steps never outnumber the plan.
pub proof fn lemma_rollout_state_keeps(ls: Seq<Seq<char>>, k: int)
    requires
        0 <= k <= ls.len(),
    ensures
        rollout_state_of(ls.take(k)).activity.terminal_turns.dom().subset_of(
            rollout_state_of(ls).activity.terminal_turns.dom(),
        ),
        rollout_state_of(ls).activity.plan_completed <= rollout_state_of(ls).activity.plan_total,
    decreases ls.len(),
{
    if ls.len() == 0 {
        assert(ls.take(k) =~= ls);
    } else if k == ls.len() {
        assert(ls.take(k) =~= ls);
        lemma_rollout_state_keeps(ls.drop_last(), 0);
        lemma_rollout_line_step_keeps(rollout_state_of(ls.drop_last()), ls.last());
    } else {
        assert(ls.drop_last().take(k) =~= ls.take(k));
        lemma_rollout_state_keeps(ls.drop_last(), k);
        lemma_rollout_line_step_keeps(rollout_state_of(ls.drop_last()), ls.last());
    }
}

} // verus!

verus! {

impl RolloutActivity {
    /// Whether each ended turn is listed once, as `wf` says.
    pub fn has_unique_turns(&self) -> (r: bool)
        ensures
            r == self.wf(),
    {
        let ghost pv = pairs_view(self.terminal_turns@);
        let n = self.terminal_turns.len();
        let mut j: usize = 0;
        while j < n
            invariant
                n == pv.len(),
                pv == pairs_view(self.terminal_turns@),
                j <= n,
                forall|a: int, b: int| 0 <= a < b < j ==> #[trigger] pv[a].0 != #[trigger] pv[b].0,
            decreases n - j,
        {
            let mut i: usize = 0;
            while i < j
                invariant
                    n == pv.len(),
                    pv == pairs_view(self.terminal_turns@),
                    i <= j < n,
                    forall|a: int, b: int| 0 <= a < b < j ==> #[trigger] pv[a].0 != #[trigger] pv[b].0,
                    forall|a: int| 0 <= a < i ==> #[trigger] pv[a].0 != pv[j as int].0,
                decreases j - i,
            {
                if text_is(&self.terminal_turns[i].0, self.terminal_turns[j].0.as_str()) {
                    assert(pv[i as int].0 == pv[j as int].0);
                    return false;
                }
                i = i + 1;
            }
            j = j + 1;
        }
        true
    }
}

/// Updates the sessions from the activities of their rollouts: each running or stale
/// session whose rollout activity was read (the activity at the same place) is updated
/// as `enriched_session` describes; every other session stays as it was.
pub fn enrich_codex_sessions(sessions: &mut Vec<CodexSession>, activities: &Vec<Option<RolloutActivity>>)
    requires
        activities@.len() == old(sessions)@.len(),
        forall|i: int| 0 <= i < activities@.len() ==> (#[trigger] activities@[i] matches Some(a) ==> a.wf()),
    ensures
        final(sessions)@.len() == old(sessions)@.len(),
        forall|i: int|
            0 <= i < old(sessions)@.len() ==> #[trigger] final(sessions)@[i]@ == match activities@[i] {
                Some(a) => if old(sessions)@[i]@.phase == "running"@ || old(sessions)@[i]@.phase == "stale"@ {
                    enriched_session(old(sessions)@[i]@, a@)
                } else {
                    old(sessions)@[i]@
                },
                None => old(sessions)@[i]@,
            },
{
    let ghost before = sessions@;
    let mut i: usize = 0;
    while i < sessions.len()
        invariant
            activities@.len() == before.len(),
            forall|k: int| 0 <= k < activities@.len() ==> (#[trigger] activities@[k] matches Some(a) ==> a.wf()),
            sessions@.len() == before.len(),
            i <= before.len(),
            forall|k: int| i <= k < before.len() ==> #[trigger] sessions@[k] == before[k],
            forall|k: int|
                0 <= k < i ==> #[trigger] sessions@[k]@ == match activities@[k] {
                    Some(a) => if before[k]@.phase == "running"@ || before[k]@.phase == "stale"@ {
                        enriched_session(before[k]@, a@)
                    } else {
                        before[k]@
                    },
                    None => before[k]@,
                },
        decreases before.len() - i,
    {
        match &activities[i] {
            Some(activity) => {
                if should_enrich_session(&sessions[i]) {
                    let mut session = sessions.remove(i);
                    apply_rollout_activity(&mut session, activity);
                    sessions.insert(i, session);
                }
            },
            None => {},
        }
        i = i + 1;
    }
}

} // verus!

verus! {

/// The texts of a vector of strings.
pub open spec fn texts_view(v: Seq<String>) -> Seq<Seq<char>> {
    Seq::new(v.len(), |i: int| v[i]@)
}

/// What a directory entry is.
#[derive(Clone, Copy, Debug, PartialEq, Eq, Structural)]
pub enum EntryKind {
    Directory,
    File,
    Other,
}

/// A directory entry: its path, its file name and what it is.
#[derive(Debug)]
pub struct DirectoryEntry {
    pub path: String,
    pub file_name: String,
    pub kind: EntryKind,
}

/// The directories still to search after the entries of one directory, and the
/// rollout file found among them: entries are taken in order, each directory is added
/// to those to search, and the first file named as the session's rollout ends the scan.
pub open spec fn scan_entries(
    pending: Seq<Seq<char>>,
    entries: Seq<DirectoryEntry>,
    session_id: Seq<char>,
) -> (Seq<Seq<char>>, Option<Seq<char>>)
    decreases entries.len(),
{
    if entries.len() == 0 {
        (pending, None)
    } else {
        let e = entries[0];
        if e.kind == EntryKind::Directory {
            scan_entries(pending.push(e.path@), entries.skip(1), session_id)
        } else if e.kind == EntryKind::File && is_rollout_file_name(e.file_name@, session_id) {
            (pending, Some(e.path@))
        } else {
            scan_entries(pending, entries.skip(1), session_id)
        }
    }
}

/// The search for the rollout file of a session under the Codex sessions directory,
/// depth first, the directory found last searched first.
#[derive(Debug)]
pub struct RolloutSearch {
    pub session_id: String,
    pub pending: Vec<String>,
}

impl RolloutSearch {
    /// A search from `sessions_dir`; nothing for a session id that is not in the UUID
    /// form, whose rollout is never looked for.
    pub fn new(session_id: &str, sessions_dir: String) -> (r: Option<RolloutSearch>)
        ensures
            r is Some <==> crate::status::is_thread_id(session_id@),
            r matches Some(search) ==> search.session_id@ == session_id@ && search.pending@.len() == 1
                && search.pending@[0]@ == sessions_dir@,
    {
        if !crate::status::is_valid_codex_thread_id(session_id) {
            return None;
        }
        let mut pending: Vec<String> = Vec::new();
        pending.push(sessions_dir);
        Some(RolloutSearch { session_id: String::from_str(session_id), pending })
    }

    /// The next directory to search, taken off the search: the one added last.
    pub fn next_directory(&mut self) -> (r: Option<String>)
        ensures
            final(self).session_id == old(self).session_id,
            old(self).pending@.len() == 0 ==> r is None && final(self).pending@ == old(self).pending@,
            old(self).pending@.len() > 0 ==> r == Some(old(self).pending@.last())
                && final(self).pending@ == old(self).pending@.drop_last(),
    {
        self.pending.pop()
    }

    /// Takes in the entries of the directory being searched, as `scan_entries` says:
    /// subdirectories join the search, and the session's rollout file, when one is
    /// there, is the answer.
    pub fn visit(&mut self, entries: Vec<DirectoryEntry>) -> (r: Option<String>)
        ensures
            final(self).session_id@ == old(self).session_id@,
            (texts_view(final(self).pending@), match r {
                Some(p) => Some(p@),
                None => None,
            }) == scan_entries(
                texts_view(old(self).pending@),
                entries@,
                old(self).session_id@,
            ),
    {
        let ghost all = entries@;
        let ghost id = self.session_id@;
        let ghost start = texts_view(self.pending@);
        let mut rest = entries;
        let ghost mut done: int = 0;
        assert(all.skip(0) =~= all);
        while rest.len() > 0
            invariant
                0 <= done <= all.len(),
                rest@ == all.skip(done),
                self.session_id@ == id,
                id == old(self).session_id@,
                start == texts_view(old(self).pending@),
                all == entries@,
                scan_entries(texts_view(self.pending@), rest@, id) == scan_entries(start, all, id),
            decreases rest.len(),
        {
            let ghost before = texts_view(self.pending@);
            let ghost before_rest = rest@;
            assert(scan_entries(before, before_rest, id) == scan_entries(start, all, id));
            let entry = rest.remove(0);
            assert(rest@ =~= before_rest.skip(1));
            proof {
                done = done + 1;
                assert(rest@ =~= all.skip(done));
            }
            match entry.kind {
                EntryKind::Directory => {
                    self.pending.push(entry.path);
                    assert(texts_view(self.pending@) =~= before.push(before_rest[0].path@));
                },
                EntryKind::File => {
                    if is_rollout_file_for(entry.file_name.as_str(), self.session_id.as_str()) {
                        assert(scan_entries(before, before_rest, id) == (before, Some(before_rest[0].path@)));
                        return Some(entry.path);
                    }
                },
                EntryKind::Other => {},
            }
        }
        None
    }
}

} // verus!

verus! {

/// Whether a record kind and payload type are ones the reading of a rollout acts on.
pub open spec fn is_recognised_record(kind: Option<Seq<char>>, ptype: Seq<char>) -> bool {
    ||| kind == Some("event_msg"@) && (ptype == "task_started"@ || ptype == "task_complete"@
        || ptype == "turn_aborted"@ || ptype == "agent_message"@ || ptype == "agent_reasoning"@)
    ||| kind == Some("response_item"@) && (ptype == "reasoning"@ || ptype == "function_call"@
        || ptype == "custom_tool_call"@ || ptype == "function_call_output"@ || ptype
        == "custom_tool_call_output"@)
}

/// Whether the reading of a rollout passes over a line: it is not JSON, has no object
/// `payload`, or is a record of a kind and payload type it does not act on.
pub open spec fn is_ignored_line(line: Seq<char>) -> bool {
    match json_text_value(line) {
        Some(record) => match json_member(record, "payload"@) {
            Some(JsonModel::Object(members)) => !is_recognised_record(
                member_text(record, "type"@),
                text_or_empty(member_text(JsonModel::Object(members), "type"@)),
            ),
            _ => true,
        },
        None => true,
    }
}

/// A line the reading passes over changes nothing.
proof fn lemma_ignored_line_step(st: RolloutState, line: Seq<char>)
    requires
        is_ignored_line(line),
    ensures
        rollout_line_step(st, line) == st,
{
}

/// Lines the reading passes over leave the state of the lines read.
proof fn lemma_ignored_line_in_state(a: Seq<Seq<char>>, g: Seq<char>, b: Seq<Seq<char>>)
    requires
        is_ignored_line(g),
    ensures
        rollout_state_of(a + seq![g] + b) == rollout_state_of(a + b),
    decreases b.len(),
{
    if b.len() == 0 {
        assert(a + seq![g] + b =~= a.push(g));
        assert(a + b =~= a);
        assert((a + seq![g] + b).drop_last() =~= a);
        lemma_ignored_line_step(rollout_state_of(a), g);
    } else {
        lemma_ignored_line_in_state(a, g, b.drop_last());
        assert((a + seq![g] + b).drop_last() =~= a + seq![g] + b.drop_last());
        assert((a + b).drop_last() =~= a + b.drop_last());
    }
}

/// A rollout line that is not JSON, has no object payload, or is a record the reading
/// does not act on changes nothing: two rollouts whose lines differ by such a line
/// give the same activity.
pub proof fn lemma_ignored_lines_change_nothing(
    c1: Seq<char>,
    c2: Seq<char>,
    a: Seq<Seq<char>>,
    g: Seq<char>,
    b: Seq<Seq<char>>,
)
    requires
        is_ignored_line(g),
        lines(c1) == a + seq![g] + b,
        lines(c2) == a + b,
    ensures
        rollout_activity(c1) == rollout_activity(c2),
{
    lemma_ignored_line_in_state(a, g, b);
}

/// The state after lines that the reading all passes over is the starting state.
proof fn lemma_all_ignored_state(ls: Seq<Seq<char>>)
    requires
        forall|i: int| 0 <= i < ls.len() ==> is_ignored_line(#[trigger] ls[i]),
    ensures
        rollout_state_of(ls) == initial_rollout_state(),
    decreases ls.len(),
{
    if ls.len() > 0 {
        lemma_all_ignored_state(ls.drop_last());
        lemma_ignored_line_step(rollout_state_of(ls.drop_last()), ls.last());
    }
}

/// A rollout whose lines the reading all passes over (an empty one among them) gives
/// the activity of a task that has just started: nothing ended, no plan, no attention.
pub proof fn lemma_ignored_rollout_is_fresh(content: Seq<char>)
    requires
        forall|i: int| 0 <= i < lines(content).len() ==> is_ignored_line(#[trigger] lines(content)[i]),
    ensures
        rollout_activity(content) == fresh_activity(Map::empty()),
{
    lemma_all_ignored_state(lines(content));
    assert(!awaits_input(Map::<Seq<char>, PendingView>::empty()));
    assert(!awaits_approval(Map::<Seq<char>, PendingView>::empty()));
}

} // verus!

verus! {

/// What holds of the activity at every point of reading a rollout.
pub open spec fn reading_bounds(a: ActivityView) -> bool {
    &&& a.plan_completed <= a.plan_total
    &&& a.updated_at == 0
    &&& a.current_step.len() > 0 ==> a.plan_total >= 1
    &&& a.current_step.len() <= 121
    &&& a.attention.len() == 0
    &&& !a.terminal_turns.dom().contains(Seq::<char>::empty())
}

/// One line keeps the bounds of the reading.
proof fn lemma_line_step_bounds(st: RolloutState, line: Seq<char>)
    requires
        reading_bounds(st.activity),
    ensures
        reading_bounds(rollout_line_step(st, line).activity),
{
    lemma_rollout_line_step_keeps(st, line);
    match json_text_value(line) {
        Some(record) => match json_member(record, "payload"@) {
            Some(JsonModel::Object(members)) => {
                let payload = JsonModel::Object(members);
                let input = call_input(payload);
                match plan_steps(input) {
                    Some(steps) => {
                        let i = first_from(steps, 0, in_progress_pred());
                        if 0 <= i < steps.len() {
                            match member_text(steps[i], "step"@) {
                                Some(t) => crate::text::lemma_compact_text_is_stable(t),
                                None => {},
                            }
                        }
                    },
                    None => {},
                }
                match member_text(payload, "message"@) {
                    Some(t) => crate::text::lemma_compact_text_is_stable(t),
                    None => {},
                }
            },
            _ => {},
        },
        None => {},
    }
}

proof fn lemma_state_bounds(ls: Seq<Seq<char>>)
    ensures
        reading_bounds(rollout_state_of(ls).activity),
    decreases ls.len(),
{
    if ls.len() > 0 {
        lemma_state_bounds(ls.drop_last());
        lemma_line_step_bounds(rollout_state_of(ls.drop_last()), ls.last());
    }
}

/// Whatever a rollout holds, its activity has no more completed plan steps than
/// steps, no update time of its own, a current step only when there is a plan, a
/// current step of at most 121 characters, an attention that is empty, `input` or
/// `approval`, and no ended turn without an id.
pub proof fn lemma_rollout_activity_bounds(content: Seq<char>)
    ensures
        ({
            let a = rollout_activity(content);
            &&& a.plan_completed <= a.plan_total
            &&& a.updated_at == 0
            &&& a.current_step.len() > 0 ==> a.plan_total >= 1
            &&& a.current_step.len() <= 121
            &&& a.attention == Seq::<char>::empty() || a.attention == "input"@ || a.attention
                == "approval"@
            &&& !a.terminal_turns.dom().contains(Seq::<char>::empty())
        }),
{
    lemma_state_bounds(lines(content));
}

} // verus!

verus! {

/// A plan update whose plan has no step in progress leaves the activity as it was: only
/// a step in progress (with a non-empty text) becomes the activity.
pub proof fn lemma_plan_without_step_in_progress_keeps_activity(
    st: RolloutState,
    line: Seq<char>,
    record: JsonModel,
    payload: Map<Seq<char>, JsonModel>,
)
    requires
        json_text_value(line) == Some(record),
        member_text(record, "type"@) == Some("response_item"@),
        json_member(record, "payload"@) == Some(JsonModel::Object(payload)),
        member_text(JsonModel::Object(payload), "type"@) == Some("function_call"@) || member_text(
            JsonModel::Object(payload),
            "type"@,
        ) == Some("custom_tool_call"@),
        member_text(JsonModel::Object(payload), "name"@) == Some("update_plan"@),
        forall|steps: Seq<JsonModel>, i: int|
            plan_steps(call_input(JsonModel::Object(payload))) == Some(steps) && 0 <= i
                < steps.len() ==> member_text(#[trigger] steps[i], "status"@) != Some(
                "in_progress"@,
            ),
    ensures
        rollout_line_step(st, line).activity.activity == st.activity.activity,
        rollout_line_step(st, line).activity.current_step.len() == 0 || plan_steps(
            call_input(JsonModel::Object(payload)),
        ) is None,
{
    let p = JsonModel::Object(payload);
    reveal_strlit("function_call");
    reveal_strlit("custom_tool_call");
    reveal_strlit("task_started");
    reveal_strlit("task_complete");
    reveal_strlit("turn_aborted");
    reveal_strlit("agent_message");
    reveal_strlit("agent_reasoning");
    reveal_strlit("reasoning");
    reveal_strlit("response_item");
    reveal_strlit("event_msg");
    reveal_strlit("function_call_output");
    reveal_strlit("custom_tool_call_output");
    assert("response_item"@ != "event_msg"@) by { assert("response_item"@[0] != "event_msg"@[0]); }
    assert("function_call"@ != "reasoning"@) by { assert("function_call"@[0] != "reasoning"@[0]); }
    assert("custom_tool_call"@ != "reasoning"@) by { assert("custom_tool_call"@[0] != "reasoning"@[0]); }
    match plan_steps(call_input(p)) {
        Some(steps) => {
            crate::text::lemma_first_from(steps, 0, in_progress_pred());
            let i = first_from(steps, 0, in_progress_pred());
            if i < steps.len() {
                assert(in_progress_pred()(steps[i]));
                assert(member_text(steps[i], "status"@) != Some("in_progress"@));
            }
        },
        None => {},
    }
}

/// When the rollout records the session's turn as ended, the session takes that end:
/// its phase, the completed activity only for a completed end and the stopped activity
/// for any other, no attention, and an update time no earlier than either. Otherwise
/// it takes the live activity, attention, plan progress and step, keeping its phase.
pub proof fn lemma_enriched_session_reports_the_end(s: SessionView, a: ActivityView)
    ensures
        a.terminal_turns.dom().contains(s.turn_id) ==> {
            let t = a.terminal_turns[s.turn_id];
            let r = enriched_session(s, a);
            &&& r.phase == t.phase
            &&& t.phase == "completed"@ ==> r.activity == "任务已完成"@
            &&& t.phase != "completed"@ ==> r.activity == "任务已停止"@
            &&& r.attention.len() == 0
            &&& r.updated_at >= s.updated_at && r.updated_at >= t.updated_at
            &&& (r.updated_at == s.updated_at || r.updated_at == t.updated_at)
            &&& r.session_id == s.session_id && r.turn_id == s.turn_id
        },
        !a.terminal_turns.dom().contains(s.turn_id) ==> {
            let r = enriched_session(s, a);
            &&& r.phase == s.phase
            &&& r.activity == a.activity
            &&& r.attention == a.attention
            &&& r.current_step == a.current_step
            &&& r.updated_at >= s.updated_at && r.updated_at >= a.updated_at
        },
{
}

} // verus!
