//! Codex task sessions as the island shows them, and the rules that tidy the
//! list read from the status file: unknown phases, stale and superseded
//! running turns, ordering and the cap on the number of entries.
use vstd::prelude::*;
use crate::text::{chars_of, is_blank, trim};

verus! {

/// The number of sessions the island keeps.
pub const MAX_SESSIONS: usize = 6;

/// A running turn without an update for this long (in milliseconds) is stale.
pub const CODEX_RUNNING_STALE_AFTER_MS: i64 = 7_200_000;

/// One Codex turn of one session, as the status file and the rollout describe it.
#[derive(Debug)]
pub struct CodexSession {
    pub session_id: String,
    pub turn_id: String,
    pub phase: String,
    pub prompt: String,
    pub cwd: String,
    pub model: String,
    pub last_assistant_message: String,
    pub started_at: i64,
    pub updated_at: i64,
    pub activity: String,
    pub attention: String,
    pub plan_completed: usize,
    pub plan_total: usize,
    pub current_step: String,
}

pub struct SessionView {
    pub session_id: Seq<char>,
    pub turn_id: Seq<char>,
    pub phase: Seq<char>,
    pub prompt: Seq<char>,
    pub cwd: Seq<char>,
    pub model: Seq<char>,
    pub last_assistant_message: Seq<char>,
    pub started_at: i64,
    pub updated_at: i64,
    pub activity: Seq<char>,
    pub attention: Seq<char>,
    pub plan_completed: usize,
    pub plan_total: usize,
    pub current_step: Seq<char>,
}

impl View for CodexSession {
    type V = SessionView;

    open spec fn view(&self) -> SessionView {
        SessionView {
            session_id: self.session_id@,
            turn_id: self.turn_id@,
            phase: self.phase@,
            prompt: self.prompt@,
            cwd: self.cwd@,
            model: self.model@,
            last_assistant_message: self.last_assistant_message@,
            started_at: self.started_at,
            updated_at: self.updated_at,
            activity: self.activity@,
            attention: self.attention@,
            plan_completed: self.plan_completed,
            plan_total: self.plan_total,
            current_step: self.current_step@,
        }
    }
}

pub open spec fn sessions_view(v: Seq<CodexSession>) -> Seq<SessionView> {
    Seq::new(v.len(), |i: int| v[i]@)
}

/// The phase a session has when the status file names none.
pub fn default_codex_phase() -> (r: String)
    ensures
        r@ == "idle"@,
{
    String::from_str("idle")
}

pub open spec fn is_known_phase(phase: Seq<char>) -> bool {
    ||| phase == "idle"@
    ||| phase == "running"@
    ||| phase == "completed"@
    ||| phase == "failed"@
    ||| phase == "stale"@
}

pub open spec fn is_running(s: SessionView) -> bool {
    s.phase == "running"@
}

/// `a - b`, clamped to the range of `i64`, as `i64::saturating_sub` computes it.
pub open spec fn saturating_sub_i64(a: i64, b: i64) -> i64 {
    let d = a - b;
    if d > i64::MAX {
        i64::MAX
    } else if d < i64::MIN {
        i64::MIN
    } else {
        d as i64
    }
}

/// A session with its phase and start time made sound at time `now`: an unknown
/// phase becomes `idle`, a missing start time is taken from the last update (not
/// below 0), and a running turn whose last update is at least two hours old is stale.
pub open spec fn settled(s: SessionView, now: i64) -> SessionView {
    let known = if is_known_phase(s.phase) {
        s.phase
    } else {
        "idle"@
    };
    let started_at = if s.started_at <= 0 {
        if s.updated_at > 0 {
            s.updated_at
        } else {
            0
        }
    } else {
        s.started_at
    };
    let phase = if known == "running"@ && s.updated_at > 0 && saturating_sub_i64(now, s.updated_at)
        >= CODEX_RUNNING_STALE_AFTER_MS {
        "stale"@
    } else {
        known
    };
    SessionView { phase, started_at, ..s }
}

/// The sessions whose id is not blank, in order.
pub open spec fn with_session_ids(s: Seq<SessionView>) -> Seq<SessionView>
    decreases s.len(),
{
    if s.len() == 0 {
        s
    } else {
        let rest = with_session_ids(s.drop_last());
        if trim(s.last().session_id).len() > 0 {
            rest.push(s.last())
        } else {
            rest
        }
    }
}

/// Start time and turn of the running turn of session `sid` that started last;
/// among turns that started at the same time, the first one listed.
pub open spec fn newest_running_turn(s: Seq<SessionView>, sid: Seq<char>) -> Option<(i64, Seq<char>)>
    decreases s.len(),
{
    if s.len() == 0 {
        None
    } else {
        let prev = newest_running_turn(s.drop_last(), sid);
        let x = s.last();
        let newer = match prev {
            Some(p) => x.started_at > p.0,
            None => true,
        };
        if is_running(x) && x.session_id == sid && newer {
            Some((x.started_at, x.turn_id))
        } else {
            prev
        }
    }
}

/// A turn marked as stopped.
pub open spec fn stopped(s: SessionView) -> SessionView {
    SessionView { phase: "failed"@, activity: "任务已停止"@, attention: Seq::empty(), ..s }
}

/// Whether the running turn at `i` is not the newest running turn of its session.
pub open spec fn is_superseded(s: Seq<SessionView>, i: int) -> bool {
    is_running(s[i]) && match newest_running_turn(s, s[i].session_id) {
        Some(n) => n.1 != s[i].turn_id,
        None => false,
    }
}

/// Every running turn that is not the newest running turn of its session is stopped.
pub open spec fn without_superseded_turns(s: Seq<SessionView>) -> Seq<SessionView> {
    Seq::new(
        s.len(),
        |i: int|
            if is_superseded(s, i) {
                stopped(s[i])
            } else {
                s[i]
            },
    )
}

/// Whether `a` comes no later than `b` in the island's list: running turns
/// first, then the most recently updated.
pub open spec fn ranks_no_later(a: SessionView, b: SessionView) -> bool {
    (is_running(a) && !is_running(b)) || (is_running(a) == is_running(b) && a.updated_at
        >= b.updated_at)
}

/// The sessions of `s` that rank equal to one running as `running` and updated at `updated_at`.
pub open spec fn of_rank(s: Seq<SessionView>, running: bool, updated_at: i64) -> Seq<SessionView>
    decreases s.len(),
{
    if s.len() == 0 {
        s
    } else {
        let rest = of_rank(s.drop_last(), running, updated_at);
        if is_running(s.last()) == running && s.last().updated_at == updated_at {
            rest.push(s.last())
        } else {
            rest
        }
    }
}

pub open spec fn is_ranked(s: Seq<SessionView>) -> bool {
    forall|i: int, j: int| 0 <= i < j < s.len() ==> ranks_no_later(#[trigger] s[i], #[trigger] s[j])
}

/// `out` is `input` sorted stably by rank: ranked, and each group of equal rank
/// keeps the sessions of that rank in their input order.
pub open spec fn is_stable_ranking(input: Seq<SessionView>, out: Seq<SessionView>) -> bool {
    &&& out.len() == input.len()
    &&& is_ranked(out)
    &&& forall|running: bool, updated_at: i64|
        #[trigger] of_rank(out, running, updated_at) == of_rank(input, running, updated_at)
}

pub open spec fn at_most(s: Seq<SessionView>, n: nat) -> Seq<SessionView> {
    if s.len() > n {
        s.take(n as int)
    } else {
        s
    }
}

/// The sessions before ranking: blank ids dropped, each settled at `now`, and
/// superseded running turns stopped.
pub open spec fn prepared_sessions(s: Seq<SessionView>, now: i64) -> Seq<SessionView> {
    let kept = with_session_ids(s);
    without_superseded_turns(Seq::new(kept.len(), |i: int| settled(kept[i], now)))
}

/// The tidied list: the prepared sessions sorted stably by rank, at most six of them.
pub open spec fn is_normalized(s: Seq<SessionView>, now: i64, out: Seq<SessionView>) -> bool {
    exists|ranked: Seq<SessionView>|
        is_stable_ranking(prepared_sessions(s, now), ranked) && out == at_most(
            ranked,
            MAX_SESSIONS as nat,
        )
}

} // verus!

verus! {

/// Whether the string holds exactly the given text.
pub fn text_is(s: &String, literal: &str) -> (r: bool)
    ensures
        r == (s@ == literal@),
{
    let other = String::from_str(literal);
    *s == other
}

fn is_known_phase_text(phase: &String) -> (r: bool)
    ensures
        r == is_known_phase(phase@),
{
    text_is(phase, "idle") || text_is(phase, "running") || text_is(phase, "completed") || text_is(
        phase,
        "failed",
    ) || text_is(phase, "stale")
}

fn saturating_sub(a: i64, b: i64) -> (r: i64)
    ensures
        r == saturating_sub_i64(a, b),
{
    match a.checked_sub(b) {
        Some(d) => d,
        None => {
            if b > 0 {
                i64::MIN
            } else {
                i64::MAX
            }
        },
    }
}

/// The session settled at time `now`, as `settled` describes.
pub fn settle_session(s: CodexSession, now: i64) -> (r: CodexSession)
    ensures
        r@ == settled(s@, now),
{
    let mut s = s;
    if !is_known_phase_text(&s.phase) {
        s.phase = default_codex_phase();
    }
    if s.started_at <= 0 {
        s.started_at = if s.updated_at > 0 {
            s.updated_at
        } else {
            0
        };
    }
    if text_is(&s.phase, "running") && s.updated_at > 0 && saturating_sub(now, s.updated_at)
        >= CODEX_RUNNING_STALE_AFTER_MS {
        s.phase = String::from_str("stale");
    }
    s
}

fn keep_and_settle(input: Vec<CodexSession>, now: i64) -> (r: Vec<CodexSession>)
    ensures
        sessions_view(r@) == ({
            let kept = with_session_ids(sessions_view(input@));
            Seq::new(kept.len(), |i: int| settled(kept[i], now))
        }),
{
    let ghost orig = sessions_view(input@);
    let mut rest = input;
    let mut out: Vec<CodexSession> = Vec::new();
    let n = rest.len();
    let mut i: usize = 0;
    while i < n
        invariant
            n == orig.len(),
            i <= n,
            sessions_view(rest@) == orig.skip(i as int),
            sessions_view(out@) == ({
                let kept = with_session_ids(orig.take(i as int));
                Seq::new(kept.len(), |k: int| settled(kept[k], now))
            }),
        decreases n - i,
    {
        let ghost before = sessions_view(out@);
        proof {
            assert(sessions_view(rest@).len() == rest@.len());
            assert(sessions_view(rest@)[0] == rest@[0]@);
            assert(orig.skip(i as int)[0] == orig[i as int]);
        }
        let ghost prev_rest = rest@;
        let s = rest.remove(0);
        assert(s@ == orig[i as int]);
        assert forall|k: int| 0 <= k < rest@.len() implies sessions_view(rest@)[k] == orig.skip(
            i + 1,
        )[k] by {
            assert(rest@[k] == prev_rest[k + 1]);
            assert(sessions_view(prev_rest)[k + 1] == prev_rest[k + 1]@);
            assert(orig.skip(i as int)[k + 1] == orig.skip(i + 1)[k]);
        }
        assert(sessions_view(rest@) =~= orig.skip(i + 1));
        assert(orig.take(i + 1).drop_last() =~= orig.take(i as int));
        let id_chars = chars_of(s.session_id.as_str());
        if !is_blank(id_chars.as_slice()) {
            let settled_session = settle_session(s, now);
            out.push(settled_session);
            assert(sessions_view(out@) =~= before.push(settled(orig[i as int], now)));
        } else {
            assert(sessions_view(out@) =~= before);
        }
        i = i + 1;
        let ghost kept = with_session_ids(orig.take(i as int));
        assert(sessions_view(out@) =~= Seq::new(kept.len(), |k: int| settled(kept[k], now)));
    }
    assert(orig.take(n as int) =~= orig);
    out
}

fn is_running_session(s: &CodexSession) -> (r: bool)
    ensures
        r == is_running(s@),
{
    text_is(&s.phase, "running")
}

/// Index of the session whose start time and turn make up the newest running turn of `sid`.
fn newest_running_index(v: &Vec<CodexSession>, sid: &String) -> (r: Option<usize>)
    ensures
        match r {
            None => newest_running_turn(sessions_view(v@), sid@) is None,
            Some(b) => b < v@.len() && newest_running_turn(sessions_view(v@), sid@) == Some(
                (v@[b as int].started_at, v@[b as int].turn_id@),
            ),
        },
{
    let ghost sv = sessions_view(v@);
    let mut best: Option<usize> = None;
    let mut i: usize = 0;
    while i < v.len()
        invariant
            sv == sessions_view(v@),
            i <= v@.len(),
            match best {
                None => newest_running_turn(sv.take(i as int), sid@) is None,
                Some(b) => b < i && newest_running_turn(sv.take(i as int), sid@) == Some(
                    (v@[b as int].started_at, v@[b as int].turn_id@),
                ),
            },
        decreases v.len() - i,
    {
        assert(sv.take(i + 1).drop_last() =~= sv.take(i as int));
        assert(sv.take(i + 1).last() == v@[i as int]@);
        let newer = match best {
            Some(b) => v[i].started_at > v[b].started_at,
            None => true,
        };
        if is_running_session(&v[i]) && v[i].session_id == *sid && newer {
            best = Some(i);
        }
        i = i + 1;
    }
    assert(sv.take(v@.len() as int) =~= sv);
    best
}

fn stop_session(s: CodexSession) -> (r: CodexSession)
    ensures
        r@ == stopped(s@),
{
    let mut s = s;
    s.phase = String::from_str("failed");
    s.activity = String::from_str("任务已停止");
    s.attention = String::new();
    s
}

fn stop_superseded_turns(input: Vec<CodexSession>) -> (r: Vec<CodexSession>)
    ensures
        sessions_view(r@) == without_superseded_turns(sessions_view(input@)),
{
    let ghost orig = sessions_view(input@);
    let n = input.len();
    let mut flags: Vec<bool> = Vec::new();
    let mut i: usize = 0;
    while i < n
        invariant
            n == input@.len(),
            orig == sessions_view(input@),
            i <= n,
            flags@.len() == i,
            forall|k: int| 0 <= k < i ==> flags@[k] == is_superseded(orig, k),
        decreases n - i,
    {
        let mut flag = false;
        if is_running_session(&input[i]) {
            match newest_running_index(&input, &input[i].session_id) {
                Some(b) => {
                    flag = input[b].turn_id != input[i].turn_id;
                },
                None => {},
            }
        }
        flags.push(flag);
        i = i + 1;
    }
    let mut rest = input;
    let mut out: Vec<CodexSession> = Vec::new();
    let mut j: usize = 0;
    while j < n
        invariant
            n == orig.len(),
            flags@.len() == n,
            forall|k: int| 0 <= k < n ==> flags@[k] == is_superseded(orig, k),
            j <= n,
            sessions_view(rest@) == orig.skip(j as int),
            sessions_view(out@) == without_superseded_turns(orig).take(j as int),
        decreases n - j,
    {
        proof {
            assert(sessions_view(rest@).len() == rest@.len());
            assert(sessions_view(rest@)[0] == rest@[0]@);
            assert(orig.skip(j as int)[0] == orig[j as int]);
        }
        let ghost prev_rest = rest@;
        let s = rest.remove(0);
        assert(s@ == orig[j as int]);
        assert forall|k: int| 0 <= k < rest@.len() implies sessions_view(rest@)[k] == orig.skip(
            j + 1,
        )[k] by {
            assert(rest@[k] == prev_rest[k + 1]);
            assert(sessions_view(prev_rest)[k + 1] == prev_rest[k + 1]@);
            assert(orig.skip(j as int)[k + 1] == orig.skip(j + 1)[k]);
        }
        assert(sessions_view(rest@) =~= orig.skip(j + 1));
        let ghost before = sessions_view(out@);
        if flags[j] {
            out.push(stop_session(s));
        } else {
            out.push(s);
        }
        assert(sessions_view(out@) =~= without_superseded_turns(orig).take(j + 1)) by {
            assert(sessions_view(out@) =~= before.push(without_superseded_turns(orig)[j as int]));
        }
        j = j + 1;
    }
    assert(without_superseded_turns(orig).take(n as int) =~= without_superseded_turns(orig));
    out
}

} // verus!

verus! {

proof fn lemma_of_rank_append(a: Seq<SessionView>, b: Seq<SessionView>, running: bool, updated_at: i64)
    ensures
        of_rank(a + b, running, updated_at) == of_rank(a, running, updated_at) + of_rank(
            b,
            running,
            updated_at,
        ),
    decreases b.len(),
{
    if b.len() == 0 {
        assert(a + b =~= a);
        assert(of_rank(a, running, updated_at) + of_rank(b, running, updated_at) =~= of_rank(
            a,
            running,
            updated_at,
        ));
    } else {
        assert((a + b).drop_last() =~= a + b.drop_last());
        assert((a + b).last() == b.last());
        lemma_of_rank_append(a, b.drop_last(), running, updated_at);
        let ra = of_rank(a, running, updated_at);
        let rb = of_rank(b.drop_last(), running, updated_at);
        assert((ra + rb).push(b.last()) =~= ra + rb.push(b.last()));
    }
}

proof fn lemma_of_rank_absent(s: Seq<SessionView>, running: bool, updated_at: i64)
    requires
        forall|i: int|
            0 <= i < s.len() ==> !(is_running(#[trigger] s[i]) == running && s[i].updated_at
                == updated_at),
    ensures
        of_rank(s, running, updated_at) == Seq::<SessionView>::empty(),
    decreases s.len(),
{
    if s.len() > 0 {
        lemma_of_rank_absent(s.drop_last(), running, updated_at);
    }
}

fn ranks_no_later_exec(a: &CodexSession, b: &CodexSession) -> (r: bool)
    ensures
        r == ranks_no_later(a@, b@),
{
    let ra = is_running_session(a);
    let rb = is_running_session(b);
    (ra && !rb) || (ra == rb && a.updated_at >= b.updated_at)
}

fn insert_ranked(out: &mut Vec<CodexSession>, e: CodexSession)
    requires
        is_ranked(sessions_view(old(out)@)),
    ensures
        is_ranked(sessions_view(final(out)@)),
        final(out)@.len() == old(out)@.len() + 1,
        forall|running: bool, updated_at: i64|
            #[trigger] of_rank(sessions_view(final(out)@), running, updated_at) == of_rank(
                sessions_view(old(out)@).push(e@),
                running,
                updated_at,
            ),
{
    let ghost before = sessions_view(out@);
    let mut p = out.len();
    while p > 0 && !ranks_no_later_exec(&out[p - 1], &e)
        invariant
            before == sessions_view(out@),
            p <= out@.len(),
            forall|j: int| p <= j < out@.len() ==> !ranks_no_later(#[trigger] before[j], e@),
        decreases p,
    {
        p = p - 1;
    }
    let ghost ev = e@;
    out.insert(p, e);
    proof {
        let after = sessions_view(out@);
        assert(after =~= before.insert(p as int, ev));
        assert(forall|j: int| 0 <= j < p ==> ranks_no_later(#[trigger] before[j], ev)) by {
            if p > 0 {
                assert forall|j: int| 0 <= j < p implies ranks_no_later(#[trigger] before[j], ev) by {
                    if j < p - 1 {
                        assert(ranks_no_later(before[j], before[p - 1]));
                    }
                }
            }
        }
        assert forall|i: int, j: int| 0 <= i < j < after.len() implies ranks_no_later(
            #[trigger] after[i],
            #[trigger] after[j],
        ) by {
            if j < p {
                assert(after[i] == before[i] && after[j] == before[j]);
            } else if j == p {
                assert(after[i] == before[i]);
            } else if i < p {
                assert(after[i] == before[i] && after[j] == before[j - 1]);
            } else if i == p {
                assert(after[j] == before[j - 1]);
            } else {
                assert(after[i] == before[i - 1] && after[j] == before[j - 1]);
            }
        }
        let head = before.take(p as int);
        let tail = before.skip(p as int);
        assert(before =~= head + tail);
        assert(after =~= head + seq![ev] + tail);
        assert(before.push(ev) =~= head + tail + seq![ev]);
        assert forall|running: bool, updated_at: i64| #[trigger]
            of_rank(after, running, updated_at) == of_rank(before.push(ev), running, updated_at) by {
            lemma_of_rank_append(head + seq![ev], tail, running, updated_at);
            lemma_of_rank_append(head, seq![ev], running, updated_at);
            lemma_of_rank_append(head + tail, seq![ev], running, updated_at);
            lemma_of_rank_append(head, tail, running, updated_at);
            let one = seq![ev];
            assert(one.drop_last() =~= Seq::<SessionView>::empty());
            assert(one.last() == ev);
            assert(of_rank(one.drop_last(), running, updated_at) =~= Seq::<SessionView>::empty());
            let rh = of_rank(head, running, updated_at);
            let rt = of_rank(tail, running, updated_at);
            let re = of_rank(one, running, updated_at);
            if is_running(ev) == running && ev.updated_at == updated_at {
                assert forall|i: int| 0 <= i < tail.len() implies !(is_running(#[trigger] tail[i])
                    == running && tail[i].updated_at == updated_at) by {
                    assert(tail[i] == before[p + i]);
                }
                lemma_of_rank_absent(tail, running, updated_at);
                assert(rh + re + rt =~= rh + rt + re);
            } else {
                assert(re =~= Seq::<SessionView>::empty());
                assert(rh + re + rt =~= rh + rt + re);
            }
            assert(of_rank(after, running, updated_at) == rh + re + rt);
            assert(of_rank(before.push(ev), running, updated_at) == rh + rt + re);
        }
    }
}

fn rank_sessions(input: Vec<CodexSession>) -> (r: Vec<CodexSession>)
    ensures
        is_stable_ranking(sessions_view(input@), sessions_view(r@)),
{
    let ghost orig = sessions_view(input@);
    let n = input.len();
    let mut rest = input;
    let mut out: Vec<CodexSession> = Vec::new();
    let mut i: usize = 0;
    while i < n
        invariant
            n == orig.len(),
            i <= n,
            sessions_view(rest@) == orig.skip(i as int),
            out@.len() == i,
            is_ranked(sessions_view(out@)),
            forall|running: bool, updated_at: i64|
                #[trigger] of_rank(sessions_view(out@), running, updated_at) == of_rank(
                    orig.take(i as int),
                    running,
                    updated_at,
                ),
        decreases n - i,
    {
        proof {
            assert(sessions_view(rest@).len() == rest@.len());
            assert(sessions_view(rest@)[0] == rest@[0]@);
            assert(orig.skip(i as int)[0] == orig[i as int]);
        }
        let ghost prev_rest = rest@;
        let s = rest.remove(0);
        assert(s@ == orig[i as int]);
        assert forall|k: int| 0 <= k < rest@.len() implies sessions_view(rest@)[k] == orig.skip(
            i + 1,
        )[k] by {
            assert(rest@[k] == prev_rest[k + 1]);
            assert(sessions_view(prev_rest)[k + 1] == prev_rest[k + 1]@);
            assert(orig.skip(i as int)[k + 1] == orig.skip(i + 1)[k]);
        }
        assert(sessions_view(rest@) =~= orig.skip(i + 1));
        let ghost before = sessions_view(out@);
        insert_ranked(&mut out, s);
        proof {
            assert(orig.take(i + 1).drop_last() =~= orig.take(i as int));
            assert(orig.take(i + 1).last() == orig[i as int]);
            assert forall|running: bool, updated_at: i64| #[trigger]
                of_rank(sessions_view(out@), running, updated_at) == of_rank(
                    orig.take(i + 1),
                    running,
                    updated_at,
                ) by {
                assert(before.push(orig[i as int]).drop_last() =~= before);
                assert(before.push(orig[i as int]).last() == orig[i as int]);
                assert(of_rank(before, running, updated_at) == of_rank(
                    orig.take(i as int),
                    running,
                    updated_at,
                ));
            }
        }
        i = i + 1;
    }
    assert(orig.take(n as int) =~= orig);
    out
}

/// Tidies the sessions read from the status file at time `now`: drops sessions
/// without an id, settles phases and start times, stops running turns that a newer
/// running turn of the same session superseded, orders running turns first and then
/// by last update (stably), and keeps the first six.
pub fn normalize_codex_sessions_at(sessions: &mut Vec<CodexSession>, now: i64)
    ensures
        is_normalized(sessions_view(old(sessions)@), now, sessions_view(final(sessions)@)),
{
    let ghost orig = sessions_view(sessions@);
    let mut input: Vec<CodexSession> = Vec::new();
    std::mem::swap(&mut input, sessions);
    let settled_sessions = keep_and_settle(input, now);
    let ghost kept = with_session_ids(orig);
    assert(sessions_view(settled_sessions@) =~= Seq::new(
        kept.len(),
        |i: int| settled(kept[i], now),
    ));
    let prepared = stop_superseded_turns(settled_sessions);
    assert(sessions_view(prepared@) =~= prepared_sessions(orig, now));
    let mut ranked = rank_sessions(prepared);
    let ghost full = sessions_view(ranked@);
    ranked.truncate(MAX_SESSIONS);
    proof {
        if full.len() > MAX_SESSIONS {
            assert(sessions_view(ranked@) =~= full.take(MAX_SESSIONS as int));
        } else {
            assert(sessions_view(ranked@) =~= full);
        }
        assert(is_stable_ranking(prepared_sessions(orig, now), full));
        assert(sessions_view(ranked@) == at_most(full, MAX_SESSIONS as nat));
    }
    std::mem::swap(&mut ranked, sessions);
}

/// The current time in milliseconds since the Unix epoch (0 before the epoch).
/// Calls `SystemTime::elapsed` on `UNIX_EPOCH`; what the clock reads is not stated.
#[verifier::external_body]
pub(crate) fn current_unix_millis() -> i64 {
    std::time::UNIX_EPOCH.elapsed().map(|duration| duration.as_millis() as i64).unwrap_or_default()
}

/// Tidies the sessions at the current time, as `normalize_codex_sessions_at` does.
pub fn normalize_codex_sessions(sessions: &mut Vec<CodexSession>)
    ensures
        exists|now: i64|
            is_normalized(sessions_view(old(sessions)@), now, sessions_view(final(sessions)@)),
{
    let now = current_unix_millis();
    normalize_codex_sessions_at(sessions, now);
}

} // verus!

verus! {

proof fn lemma_of_rank_members(s: Seq<SessionView>, running: bool, updated_at: i64, x: SessionView)
    requires
        of_rank(s, running, updated_at).contains(x),
    ensures
        s.contains(x),
    decreases s.len(),
{
    if s.len() > 0 {
        let rest = of_rank(s.drop_last(), running, updated_at);
        if rest.contains(x) {
            lemma_of_rank_members(s.drop_last(), running, updated_at, x);
            let k = choose|k: int| 0 <= k < s.drop_last().len() && s.drop_last()[k] == x;
            assert(s[k] == x);
        } else {
            assert(x == s.last());
            assert(s[s.len() - 1] == x);
        }
    }
}

proof fn lemma_of_rank_holds(s: Seq<SessionView>, x: SessionView)
    requires
        s.contains(x),
    ensures
        of_rank(s, is_running(x), x.updated_at).contains(x),
    decreases s.len(),
{
    let k = choose|k: int| 0 <= k < s.len() && s[k] == x;
    let r = of_rank(s, is_running(x), x.updated_at);
    if k == s.len() - 1 {
        assert(r.last() == x);
        assert(r[r.len() - 1] == x);
    } else {
        assert(s.drop_last()[k] == x);
        lemma_of_rank_holds(s.drop_last(), x);
        let rest = of_rank(s.drop_last(), is_running(x), x.updated_at);
        let m = choose|m: int| 0 <= m < rest.len() && rest[m] == x;
        if r != rest {
            assert(r == rest.push(s.last()));
            assert(r[m] == x);
        }
    }
}

proof fn lemma_ranked_members(input: Seq<SessionView>, out: Seq<SessionView>, i: int)
    requires
        is_stable_ranking(input, out),
        0 <= i < out.len(),
    ensures
        input.contains(out[i]),
{
    let x = out[i];
    assert(out.contains(x));
    lemma_of_rank_holds(out, x);
    assert(of_rank(out, is_running(x), x.updated_at) == of_rank(input, is_running(x), x.updated_at));
    lemma_of_rank_members(input, is_running(x), x.updated_at, x);
}

proof fn lemma_kept_ids(s: Seq<SessionView>)
    ensures
        forall|i: int|
            0 <= i < with_session_ids(s).len() ==> trim(#[trigger] with_session_ids(s)[i].session_id).len()
                > 0,
    decreases s.len(),
{
    if s.len() > 0 {
        lemma_kept_ids(s.drop_last());
        let rest = with_session_ids(s.drop_last());
        assert forall|i: int| 0 <= i < with_session_ids(s).len() implies trim(
            #[trigger] with_session_ids(s)[i].session_id,
        ).len() > 0 by {
            if i < rest.len() {
                assert(with_session_ids(s)[i] == rest[i]);
            }
        }
    }
}

proof fn lemma_newest_exists(s: Seq<SessionView>, j: int)
    requires
        0 <= j < s.len(),
        is_running(s[j]),
    ensures
        newest_running_turn(s, s[j].session_id) is Some,
    decreases s.len(),
{
    if j < s.len() - 1 {
        assert(s.drop_last()[j] == s[j]);
        lemma_newest_exists(s.drop_last(), j);
    }
}

/// The tidied list holds at most six sessions, each with an id and a known phase,
/// ordered with running turns first and then by last update; and of each session at
/// most one turn stays running: two running entries of the same session are the same turn.
pub proof fn lemma_normalized_sessions_are_tidy(s: Seq<SessionView>, now: i64, out: Seq<SessionView>)
    requires
        is_normalized(s, now, out),
    ensures
        out.len() <= MAX_SESSIONS,
        forall|i: int|
            0 <= i < out.len() ==> is_known_phase(#[trigger] out[i].phase) && trim(
                out[i].session_id,
            ).len() > 0,
        forall|i: int, j: int|
            0 <= i < j < out.len() ==> ranks_no_later(#[trigger] out[i], #[trigger] out[j]),
        forall|i: int, j: int|
            0 <= i < out.len() && 0 <= j < out.len() && is_running(#[trigger] out[i]) && is_running(
                #[trigger] out[j],
            ) && out[i].session_id == out[j].session_id ==> out[i].turn_id == out[j].turn_id,
{
    let ranked = choose|ranked: Seq<SessionView>|
        is_stable_ranking(prepared_sessions(s, now), ranked) && out == at_most(
            ranked,
            MAX_SESSIONS as nat,
        );
    let kept = with_session_ids(s);
    let settled_seq = Seq::new(kept.len(), |i: int| settled(kept[i], now));
    let prep = prepared_sessions(s, now);
    assert(prep == without_superseded_turns(settled_seq));
    lemma_kept_ids(s);
    let good = |x: SessionView|
        is_known_phase(x.phase) && trim(x.session_id).len() > 0 && (is_running(x) ==> match newest_running_turn(settled_seq, x.session_id) {
            Some(n) => n.1 == x.turn_id,
            None => false,
        });
    assert forall|j: int| 0 <= j < prep.len() implies #[trigger] good(prep[j]) by {
        assert(trim(kept[j].session_id).len() > 0);
        reveal_strlit("failed");
        reveal_strlit("running");
        assert(settled_seq[j] == settled(kept[j], now));
        if is_superseded(settled_seq, j) {
            assert(prep[j] == stopped(settled_seq[j]));
            assert("failed"@.len() == 6);
            assert("running"@.len() == 7);
            assert(!is_running(prep[j]));
        } else {
            assert(prep[j] == settled_seq[j]);
            if is_running(settled_seq[j]) {
                lemma_newest_exists(settled_seq, j);
            }
        }
    }
    assert forall|i: int| 0 <= i < out.len() implies #[trigger] good(out[i]) by {
        assert(out[i] == ranked[i]);
        lemma_ranked_members(prep, ranked, i);
        let j = choose|j: int| 0 <= j < prep.len() && prep[j] == ranked[i];
        assert(good(prep[j]));
    }
    assert forall|i: int, j: int| 0 <= i < j < out.len() implies ranks_no_later(
        #[trigger] out[i],
        #[trigger] out[j],
    ) by {
        assert(out[i] == ranked[i] && out[j] == ranked[j]);
    }
    assert forall|i: int| 0 <= i < out.len() implies is_known_phase(#[trigger] out[i].phase) && trim(
        out[i].session_id,
    ).len() > 0 by {
        assert(good(out[i]));
    }
    assert forall|i: int, j: int|
        0 <= i < out.len() && 0 <= j < out.len() && is_running(#[trigger] out[i]) && is_running(
            #[trigger] out[j],
        ) && out[i].session_id == out[j].session_id implies out[i].turn_id == out[j].turn_id by {
        assert(good(out[i]));
        assert(good(out[j]));
    }
}

} // verus!

verus! {

/// Whether the session at `k` is a running turn of session `sid`.
pub open spec fn runs_in(s: Seq<SessionView>, k: int, sid: Seq<char>) -> bool {
    0 <= k < s.len() && is_running(s[k]) && s[k].session_id == sid
}

/// The newest running turn of a session is, when the session has a running turn, the
/// first listed of its running turns that started last.
pub proof fn lemma_newest_running_turn(s: Seq<SessionView>, sid: Seq<char>)
    ensures
        newest_running_turn(s, sid) is None <==> forall|k: int| !#[trigger] runs_in(s, k, sid),
        newest_running_turn(s, sid) matches Some(n) ==> exists|j: int|
            #[trigger] runs_in(s, j, sid) && n == (s[j].started_at, s[j].turn_id) && (forall|k: int|
                #[trigger] runs_in(s, k, sid) ==> s[k].started_at <= s[j].started_at) && (forall|
                k: int,
            | 0 <= k < j && #[trigger] runs_in(s, k, sid) ==> s[k].started_at < s[j].started_at),
    decreases s.len(),
{
    if s.len() > 0 {
        let rest = s.drop_last();
        let x = s.last();
        let last = s.len() - 1;
        lemma_newest_running_turn(rest, sid);
        assert forall|k: int| 0 <= k < last implies runs_in(s, k, sid) == runs_in(rest, k, sid) by {}
        match newest_running_turn(rest, sid) {
            Some(p) => {
                let j = choose|j: int|
                    #[trigger] runs_in(rest, j, sid) && p == (rest[j].started_at, rest[j].turn_id)
                        && (forall|k: int| #[trigger] runs_in(rest, k, sid) ==> rest[k].started_at <= rest[j].started_at)
                        && (forall|k: int| 0 <= k < j && #[trigger] runs_in(rest, k, sid) ==> rest[k].started_at < rest[j].started_at);
                assert(runs_in(s, j, sid));
                if is_running(x) && x.session_id == sid && x.started_at > p.0 {
                    assert(runs_in(s, last, sid));
                    assert forall|k: int| #[trigger] runs_in(s, k, sid) implies s[k].started_at <= s[last].started_at by {
                        if k < last {
                            assert(runs_in(rest, k, sid));
                        }
                    }
                    assert forall|k: int| 0 <= k < last && #[trigger] runs_in(s, k, sid) implies s[k].started_at < s[last].started_at by {
                        assert(runs_in(rest, k, sid));
                    }
                } else {
                    assert forall|k: int| #[trigger] runs_in(s, k, sid) implies s[k].started_at <= s[j].started_at by {
                        if k < last {
                            assert(runs_in(rest, k, sid));
                        }
                    }
                    assert forall|k: int| 0 <= k < j && #[trigger] runs_in(s, k, sid) implies s[k].started_at < s[j].started_at by {
                        assert(runs_in(rest, k, sid));
                    }
                }
            },
            None => {
                if is_running(x) && x.session_id == sid {
                    assert(runs_in(s, last, sid));
                    assert forall|k: int| #[trigger] runs_in(s, k, sid) implies s[k].started_at <= s[last].started_at by {
                        if k < last {
                            assert(runs_in(rest, k, sid));
                        }
                    }
                    assert forall|k: int| 0 <= k < last && #[trigger] runs_in(s, k, sid) implies s[k].started_at < s[last].started_at by {
                        assert(runs_in(rest, k, sid));
                    }
                } else {
                    assert forall|k: int| !#[trigger] runs_in(s, k, sid) by {
                        if 0 <= k < last {
                            assert(!runs_in(rest, k, sid));
                        }
                    }
                }
            },
        }
    }
}

/// Before ranking, a turn that was running after settling stays running exactly when
/// its turn is that of the newest running turn of its session (the first listed of
/// those that started last); every other such turn becomes `failed`, with the stopped
/// activity and no attention; sessions that were not running stay as they were.
pub proof fn lemma_superseded_turns_stop(s: Seq<SessionView>, now: i64)
    ensures
        ({
            let kept = with_session_ids(s);
            let settled_list = Seq::new(kept.len(), |i: int| settled(kept[i], now));
            let prepared = prepared_sessions(s, now);
            &&& prepared.len() == settled_list.len()
            &&& forall|i: int|
                0 <= i < settled_list.len() && is_running(#[trigger] settled_list[i]) ==> {
                    let newest = newest_running_turn(settled_list, settled_list[i].session_id);
                    &&& newest is Some
                    &&& (newest->Some_0.1 == settled_list[i].turn_id ==> prepared[i]
                        == settled_list[i])
                    &&& (newest->Some_0.1 != settled_list[i].turn_id ==> prepared[i] == stopped(
                        settled_list[i],
                    ) && prepared[i].phase == "failed"@ && prepared[i].activity == "任务已停止"@
                        && prepared[i].attention == Seq::<char>::empty())
                }
            &&& forall|i: int|
                0 <= i < settled_list.len() && !is_running(#[trigger] settled_list[i])
                    ==> prepared[i] == settled_list[i]
        }),
{
    let kept = with_session_ids(s);
    let settled_list = Seq::new(kept.len(), |i: int| settled(kept[i], now));
    assert forall|i: int|
        0 <= i < settled_list.len() && is_running(#[trigger] settled_list[i]) implies newest_running_turn(
            settled_list,
            settled_list[i].session_id,
        ) is Some by {
        lemma_newest_running_turn(settled_list, settled_list[i].session_id);
        assert(runs_in(settled_list, i, settled_list[i].session_id));
    }
}

} // verus!

verus! {

/// Two ranked lists with the same sessions of every rank are the same list.
proof fn lemma_ranked_lists_agree(a: Seq<SessionView>, b: Seq<SessionView>)
    requires
        is_ranked(a),
        is_ranked(b),
        a.len() == b.len(),
        forall|running: bool, updated_at: i64|
            #[trigger] of_rank(a, running, updated_at) == of_rank(b, running, updated_at),
    ensures
        a == b,
    decreases a.len(),
{
    if a.len() > 0 {
        let x = a.last();
        let y = b.last();
        let n = a.len() - 1;
        assert(of_rank(a, is_running(x), x.updated_at) == of_rank(a.drop_last(), is_running(x), x.updated_at).push(x));
        assert(of_rank(a, is_running(x), x.updated_at).contains(x)) by {
            let r = of_rank(a, is_running(x), x.updated_at);
            assert(r[r.len() - 1] == x);
        }
        assert(of_rank(b, is_running(y), y.updated_at) == of_rank(b.drop_last(), is_running(y), y.updated_at).push(y));
        assert(of_rank(b, is_running(y), y.updated_at).contains(y)) by {
            let r = of_rank(b, is_running(y), y.updated_at);
            assert(r[r.len() - 1] == y);
        }
        assert(of_rank(a, is_running(x), x.updated_at) == of_rank(b, is_running(x), x.updated_at));
        assert(of_rank(a, is_running(y), y.updated_at) == of_rank(b, is_running(y), y.updated_at));
        lemma_of_rank_members(b, is_running(x), x.updated_at, x);
        lemma_of_rank_members(a, is_running(y), y.updated_at, y);
        let kb = choose|k: int| 0 <= k < b.len() && b[k] == x;
        let ka = choose|k: int| 0 <= k < a.len() && a[k] == y;
        if kb < n {
            assert(ranks_no_later(b[kb], b[n]));
        }
        if ka < n {
            assert(ranks_no_later(a[ka], a[n]));
        }
        assert(is_running(x) == is_running(y) && x.updated_at == y.updated_at);
        let rx = of_rank(a, is_running(x), x.updated_at);
        let ry = of_rank(b, is_running(y), y.updated_at);
        assert(rx.last() == x);
        assert(ry.last() == y);
        assert(rx == of_rank(b, is_running(x), x.updated_at));
        assert(rx == ry);
        assert(x == y);
        let a2 = a.drop_last();
        let b2 = b.drop_last();
        assert forall|running: bool, updated_at: i64|
            #[trigger] of_rank(a2, running, updated_at) == of_rank(b2, running, updated_at) by {
            assert(of_rank(a, running, updated_at) == of_rank(b, running, updated_at));
            if is_running(x) == running && x.updated_at == updated_at {
                assert(of_rank(a2, running, updated_at) =~= of_rank(a, running, updated_at).drop_last());
                assert(of_rank(b2, running, updated_at) =~= of_rank(b, running, updated_at).drop_last());
            }
        }
        assert forall|i: int, j: int| 0 <= i < j < a2.len() implies ranks_no_later(#[trigger] a2[i], #[trigger] a2[j]) by {
            assert(a2[i] == a[i] && a2[j] == a[j]);
        }
        assert forall|i: int, j: int| 0 <= i < j < b2.len() implies ranks_no_later(#[trigger] b2[i], #[trigger] b2[j]) by {
            assert(b2[i] == b[i] && b2[j] == b[j]);
        }
        lemma_ranked_lists_agree(a2, b2);
        assert(a =~= a2.push(x));
        assert(b =~= b2.push(y));
    }
}

/// Whether a session comes out of settling and stopping unchanged.
pub open spec fn is_settled_at(x: SessionView, now: i64) -> bool {
    settled(x, now) == x
}

/// Settling a session, and stopping a settled session, give sessions that settle to
/// themselves.
proof fn lemma_settled_is_settled(y: SessionView, now: i64)
    ensures
        is_settled_at(settled(y, now), now),
        is_settled_at(stopped(settled(y, now)), now),
{
    reveal_strlit("running");
    reveal_strlit("stale");
    reveal_strlit("failed");
    reveal_strlit("idle");
    assert("running"@ != "stale"@) by {
        assert("running"@.len() != "stale"@.len());
    }
    assert("running"@ != "failed"@) by {
        assert("running"@[0] != "failed"@[0]);
    }
}

/// A list whose ids are all non-blank keeps all its sessions.
proof fn lemma_all_ids_kept(s: Seq<SessionView>)
    requires
        forall|i: int| 0 <= i < s.len() ==> trim(#[trigger] s[i].session_id).len() > 0,
    ensures
        with_session_ids(s) == s,
    decreases s.len(),
{
    if s.len() > 0 {
        lemma_all_ids_kept(s.drop_last());
        assert(s.drop_last().push(s.last()) =~= s);
    }
}

/// Tidying a tidied list again at the same time changes nothing.
pub proof fn lemma_normalize_is_stable(
    s: Seq<SessionView>,
    now: i64,
    out: Seq<SessionView>,
    again: Seq<SessionView>,
)
    requires
        is_normalized(s, now, out),
        is_normalized(out, now, again),
    ensures
        again == out,
{
    lemma_normalized_sessions_are_tidy(s, now, out);
    let ranked = choose|ranked: Seq<SessionView>|
        is_stable_ranking(prepared_sessions(s, now), ranked) && out == at_most(
            ranked,
            MAX_SESSIONS as nat,
        );
    let kept = with_session_ids(s);
    let settled_seq = Seq::new(kept.len(), |i: int| settled(kept[i], now));
    let prep = prepared_sessions(s, now);
    assert forall|j: int| 0 <= j < prep.len() implies is_settled_at(#[trigger] prep[j], now) by {
        lemma_settled_is_settled(kept[j], now);
        assert(settled_seq[j] == settled(kept[j], now));
    }
    assert forall|i: int| 0 <= i < out.len() implies is_settled_at(#[trigger] out[i], now) by {
        assert(out[i] == ranked[i]);
        lemma_ranked_members(prep, ranked, i);
        let j = choose|j: int| 0 <= j < prep.len() && prep[j] == ranked[i];
        assert(is_settled_at(prep[j], now));
    }
    lemma_all_ids_kept(out);
    let settled_out = Seq::new(out.len(), |i: int| settled(out[i], now));
    assert(settled_out =~= out) by {
        assert forall|i: int| 0 <= i < out.len() implies settled_out[i] == out[i] by {
            assert(is_settled_at(out[i], now));
        }
    }
    assert(prepared_sessions(out, now) =~= out) by {
        assert forall|i: int| 0 <= i < out.len() implies !is_superseded(out, i) by {
            if is_running(out[i]) {
                lemma_newest_running_turn(out, out[i].session_id);
                assert(runs_in(out, i, out[i].session_id));
                let n = newest_running_turn(out, out[i].session_id)->Some_0;
                let j = choose|j: int|
                    #[trigger] runs_in(out, j, out[i].session_id) && n == (out[j].started_at, out[j].turn_id)
                        && (forall|k: int| #[trigger] runs_in(out, k, out[i].session_id) ==> out[k].started_at <= out[j].started_at)
                        && (forall|k: int| 0 <= k < j && #[trigger] runs_in(out, k, out[i].session_id) ==> out[k].started_at < out[j].started_at);
                assert(is_running(out[j]) && out[j].session_id == out[i].session_id);
            }
        }
    }
    let ranked2 = choose|ranked2: Seq<SessionView>|
        is_stable_ranking(prepared_sessions(out, now), ranked2) && again == at_most(
            ranked2,
            MAX_SESSIONS as nat,
        );
    assert(is_ranked(out));
    assert forall|running: bool, updated_at: i64|
        #[trigger] of_rank(out, running, updated_at) == of_rank(ranked2, running, updated_at) by {
        assert(of_rank(ranked2, running, updated_at) == of_rank(prepared_sessions(out, now), running, updated_at));
    }
    lemma_ranked_lists_agree(out, ranked2);
}

} // verus!

verus! {

/// Tidying keeps the phases `idle`, `completed`, `failed` and `stale` as they are, and a
/// `running` turn stays `running` unless it is stale or superseded (then `stale` or
/// `failed`); every phase outside these five becomes `idle`.
pub proof fn lemma_known_phases_are_kept(s: Seq<SessionView>, now: i64)
    ensures
        ({
            let kept = with_session_ids(s);
            let prepared = prepared_sessions(s, now);
            &&& prepared.len() == kept.len()
            &&& forall|i: int|
                0 <= i < kept.len() ==> {
                    let p = kept[i].phase;
                    &&& (p == "idle"@ || p == "completed"@ || p == "failed"@ || p == "stale"@)
                        ==> #[trigger] prepared[i].phase == p
                    &&& p == "running"@ ==> (prepared[i].phase == "running"@ || prepared[i].phase
                        == "stale"@ || prepared[i].phase == "failed"@)
                    &&& !(p == "idle"@ || p == "running"@ || p == "completed"@ || p == "failed"@
                        || p == "stale"@) ==> prepared[i].phase == "idle"@
                }
        }),
{
    reveal_strlit("running");
    reveal_strlit("idle");
    reveal_strlit("completed");
    reveal_strlit("failed");
    reveal_strlit("stale");
    assert("running"@ != "idle"@) by { assert("running"@.len() != "idle"@.len()); }
    assert("running"@ != "completed"@) by { assert("running"@.len() != "completed"@.len()); }
    assert("running"@ != "failed"@) by { assert("running"@[0] != "failed"@[0]); }
    assert("running"@ != "stale"@) by { assert("running"@.len() != "stale"@.len()); }
}

} // verus!
