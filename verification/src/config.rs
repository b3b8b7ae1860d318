//! Enabling Codex hooks in the `[features]` section of Codex's `config.toml`,
//! leaving every other line as it was.
use vstd::prelude::*;
use crate::text::{
    ends_with_cr, has_no_newline, lemma_first_from, lemma_join_last, lemma_lines_have_no_newline,
    lemma_lines_last_nonempty, lemma_lines_of_join, chars_of, copy_range, first_from, is_blank, join, lemma_first_from_is, lines, range_equals,
    split_lines, string_from_chars, trim, trim_bounds, trim_start, view_lines, join_lines,
    is_white_space_char,
};

verus! {

/// A line that opens the `[features]` table: its trimmed text is `[features]`,
/// optionally followed by white space and a `#` comment.
pub open spec fn is_features_header(line: Seq<char>) -> bool {
    let t = trim(line);
    let rest = trim_start(t.skip(10));
    t.len() >= 10 && t.take(10) == "[features]"@ && (rest.len() == 0 || rest[0] == '#')
}

pub open spec fn features_header_pred() -> spec_fn(Seq<char>) -> bool {
    |line: Seq<char>| is_features_header(line)
}

/// A line that opens a TOML section: its trimmed text starts with `'['`.
pub open spec fn section_start_pred() -> spec_fn(Seq<char>) -> bool {
    |line: Seq<char>| trim(line).len() > 0 && trim(line)[0] == '['
}

pub open spec fn equals_sign_pred() -> spec_fn(char) -> bool {
    |c: char| c == '='
}

/// A line `key = value` whose trimmed key is `hooks`, split at the first `'='`.
pub open spec fn is_hooks_assignment(line: Seq<char>) -> bool {
    let eq = first_from(line, 0, equals_sign_pred());
    eq < line.len() && trim(line.take(eq)) == "hooks"@
}

pub open spec fn hooks_assignment_pred() -> spec_fn(Seq<char>) -> bool {
    |line: Seq<char>| is_hooks_assignment(line)
}

/// Index of the first `[features]` table header (as `is_features_header` reads one),
/// or the number of lines.
pub open spec fn features_header_index(ls: Seq<Seq<char>>) -> int {
    first_from(ls, 0, features_header_pred())
}

/// Index of the line that opens the section after the header at `h`, or the number of lines.
pub open spec fn section_end_index(ls: Seq<Seq<char>>, h: int) -> int {
    first_from(ls, h + 1, section_start_pred())
}

/// Index of the first `hooks = ...` line of the section that starts at `h` and ends at `end`,
/// or `end` when the section has none.
pub open spec fn hooks_line_index(ls: Seq<Seq<char>>, h: int, end: int) -> int {
    first_from(ls.take(end), h + 1, hooks_assignment_pred())
}

/// The lines of a configuration with hooks enabled: the first `hooks` key of the
/// first `[features]` section becomes `hooks = true`; without such a key the line
/// is added right below the header; without such a section one is appended, after
/// a blank line when the text ends with a non-blank line.
pub open spec fn lines_with_hooks_enabled(ls: Seq<Seq<char>>) -> Seq<Seq<char>> {
    let h = features_header_index(ls);
    if h < ls.len() {
        let end = section_end_index(ls, h);
        let k = hooks_line_index(ls, h, end);
        if k < end {
            ls.update(k, "hooks = true"@)
        } else {
            ls.insert(h + 1, "hooks = true"@)
        }
    } else {
        let padded = if ls.len() > 0 && trim(ls.last()).len() > 0 {
            ls.push(Seq::empty())
        } else {
            ls
        };
        padded.push("[features]"@).push("hooks = true"@)
    }
}

/// Whether the text ends with a line ending (or is empty), so that the result does too.
pub open spec fn keeps_final_newline(content: Seq<char>) -> bool {
    content.len() == 0 || content.last() == '\n'
}

/// The configuration text with hooks enabled: its lines as `lines_with_hooks_enabled`
/// gives them, joined by `'\n'`, with a final `'\n'` when the text had one or was empty.
pub open spec fn config_with_hooks_enabled(content: Seq<char>) -> Seq<char> {
    join(lines_with_hooks_enabled(lines(content)), seq!['\n']) + if keeps_final_newline(content) {
        seq!['\n']
    } else {
        Seq::<char>::empty()
    }
}

/// Whether the characters `from..to`, without leading white space, are empty or start a
/// `#` comment.
fn comment_or_nothing(v: &[char], from: usize, to: usize) -> (r: bool)
    requires
        from <= to <= v@.len(),
    ensures
        r == ({
            let rest = trim_start(v@.subrange(from as int, to as int));
            rest.len() == 0 || rest[0] == '#'
        }),
{
    let mut i = from;
    while i < to && is_white_space_char(v[i])
        invariant
            from <= i <= to <= v@.len(),
            trim_start(v@.subrange(from as int, to as int)) == trim_start(v@.subrange(i as int, to as int)),
        decreases to - i,
    {
        assert(v@.subrange(i as int, to as int).drop_first() =~= v@.subrange(i + 1, to as int));
        i = i + 1;
    }
    if i == to {
        assert(v@.subrange(i as int, to as int) =~= Seq::<char>::empty());
        true
    } else {
        v[i] == '#'
    }
}

fn find_features_header(ls: &Vec<Vec<char>>, header: &Vec<char>) -> (r: usize)
    requires
        header@ == "[features]"@,
    ensures
        r == features_header_index(view_lines(ls@)),
{
    let ghost v = view_lines(ls@);
    let mut i: usize = 0;
    while i < ls.len()
        invariant
            v == view_lines(ls@),
            header@ == "[features]"@,
            i <= ls@.len(),
            forall|j: int| 0 <= j < i ==> !features_header_pred()(#[trigger] v[j]),
        decreases ls.len() - i,
    {
        let (lo, hi) = trim_bounds(ls[i].as_slice());
        let ghost t = ls@[i as int]@.subrange(lo as int, hi as int);
        proof {
            if hi - lo >= 10 {
                assert(t.take(10) =~= ls@[i as int]@.subrange(lo as int, lo + 10));
                assert(t.skip(10) =~= ls@[i as int]@.subrange(lo + 10, hi as int));
            }
        }
        let is_header = hi - lo >= 10 && range_equals(ls[i].as_slice(), lo, lo + 10, header.as_slice())
            && comment_or_nothing(ls[i].as_slice(), lo + 10, hi);
        assert(is_header == features_header_pred()(v[i as int]));
        if is_header {
            proof {
                lemma_first_from_is(v, 0, features_header_pred(), i as int);
            }
            return i;
        }
        i = i + 1;
    }
    proof {
        lemma_first_from_is(v, 0, features_header_pred(), v.len() as int);
    }
    i
}

fn find_section_end(ls: &Vec<Vec<char>>, h: usize) -> (r: usize)
    requires
        h < ls@.len(),
    ensures
        r == section_end_index(view_lines(ls@), h as int),
        h < r <= ls@.len(),
{
    let ghost v = view_lines(ls@);
    let n = ls.len();
    let mut i: usize = h + 1;
    while i < ls.len()
        invariant
            v == view_lines(ls@),
            h < i <= ls@.len(),
            forall|j: int| h + 1 <= j < i ==> !section_start_pred()(#[trigger] v[j]),
        decreases ls.len() - i,
    {
        let (lo, hi) = trim_bounds(ls[i].as_slice());
        if lo < hi && ls[i][lo] == '[' {
            proof {
                lemma_first_from_is(v, h + 1, section_start_pred(), i as int);
            }
            return i;
        }
        i = i + 1;
    }
    proof {
        lemma_first_from_is(v, h + 1, section_start_pred(), v.len() as int);
    }
    i
}

fn is_hooks_line(line: &Vec<char>, key: &Vec<char>) -> (r: bool)
    requires
        key@ == "hooks"@,
    ensures
        r == is_hooks_assignment(line@),
{
    let mut eq: usize = 0;
    while eq < line.len() && line[eq] != '='
        invariant
            eq <= line@.len(),
            forall|j: int| 0 <= j < eq ==> !equals_sign_pred()(#[trigger] line@[j]),
        decreases line.len() - eq,
    {
        eq = eq + 1;
    }
    proof {
        lemma_first_from_is(line@, 0, equals_sign_pred(), eq as int);
    }
    if eq == line.len() {
        return false;
    }
    assert(line@.subrange(0, eq as int) =~= line@.take(eq as int));
    let head = copy_range(line, 0, eq);
    let (lo, hi) = trim_bounds(head.as_slice());
    range_equals(head.as_slice(), lo, hi, key.as_slice())
}

fn find_hooks_line(ls: &Vec<Vec<char>>, h: usize, end: usize, key: &Vec<char>) -> (r: usize)
    requires
        h < end <= ls@.len(),
        key@ == "hooks"@,
    ensures
        r == hooks_line_index(view_lines(ls@), h as int, end as int),
        h < r <= end,
{
    let ghost v = view_lines(ls@);
    let ghost t = v.take(end as int);
    let mut i: usize = h + 1;
    while i < end
        invariant
            v == view_lines(ls@),
            t == v.take(end as int),
            key@ == "hooks"@,
            h < i <= end <= ls@.len(),
            forall|j: int| h + 1 <= j < i ==> !hooks_assignment_pred()(#[trigger] t[j]),
        decreases end - i,
    {
        if is_hooks_line(&ls[i], key) {
            proof {
                lemma_first_from_is(t, h + 1, hooks_assignment_pred(), i as int);
            }
            return i;
        }
        i = i + 1;
    }
    proof {
        lemma_first_from_is(t, h + 1, hooks_assignment_pred(), end as int);
    }
    i
}

/// Enables Codex hooks in a `config.toml` text and gives the new text.
pub fn codex_config_with_hooks_enabled(content: &str) -> (r: String)
    ensures
        r@ == config_with_hooks_enabled(content@),
{
    let chars = chars_of(content);
    let mut ls = split_lines(&chars);
    let ghost given_lines = view_lines(ls@);
    let header = chars_of("[features]");
    let key = chars_of("hooks");
    let hooks_true = chars_of("hooks = true");
    let h = find_features_header(&ls, &header);
    if h < ls.len() {
        let end = find_section_end(&ls, h);
        let k = find_hooks_line(&ls, h, end, &key);
        if k < end {
            ls.set(k, hooks_true);
            assert(view_lines(ls@) =~= given_lines.update(k as int, "hooks = true"@));
        } else {
            ls.insert(h + 1, hooks_true);
            assert(view_lines(ls@) =~= given_lines.insert(h + 1, "hooks = true"@));
        }
    } else {
        if ls.len() > 0 && !is_blank(ls[ls.len() - 1].as_slice()) {
            ls.push(Vec::new());
        }
        ls.push(header);
        ls.push(hooks_true);
        proof {
            let padded = if given_lines.len() > 0 && trim(given_lines.last()).len() > 0 {
                given_lines.push(Seq::empty())
            } else {
                given_lines
            };
            assert(view_lines(ls@) =~= padded.push("[features]"@).push("hooks = true"@));
        }
    }
    let mut out = join_lines(&ls, '\n');
    if chars.len() == 0 || chars[chars.len() - 1] == '\n' {
        out.push('\n');
    }
    string_from_chars(out.as_slice())
}

} // verus!

verus! {

/// Whether the first `[features]` section holds `hooks = true` as its first `hooks` key.
pub open spec fn hooks_enabled(ls: Seq<Seq<char>>) -> bool {
    let h = features_header_index(ls);
    &&& h < ls.len()
    &&& hooks_line_index(ls, h, section_end_index(ls, h)) < section_end_index(ls, h)
    &&& ls[hooks_line_index(ls, h, section_end_index(ls, h))] == "hooks = true"@
}

/// Whether joining the lines with `'\n'` (and a final `'\n'` when asked) and cutting the
/// text into lines again gives the same lines: no line that a `'\n'` follows ends with `'\r'`.
pub open spec fn rejoins_exactly(ls: Seq<Seq<char>>, final_newline: bool) -> bool {
    forall|i: int|
        0 <= i < ls.len() && (final_newline || i + 1 < ls.len()) ==> !ends_with_cr(#[trigger] ls[i])
}

proof fn lemma_literal_lines()
    ensures
        trim("hooks = true"@) == "hooks = true"@,
        trim("[features]"@) == "[features]"@,
        trim(Seq::<char>::empty()) == Seq::<char>::empty(),
        "hooks = true"@.len() == 12,
        features_header_pred()("[features]"@),
        !features_header_pred()("hooks = true"@),
        !features_header_pred()(Seq::<char>::empty()),
        !section_start_pred()("hooks = true"@),
        hooks_assignment_pred()("hooks = true"@),
        has_no_newline("hooks = true"@),
        has_no_newline("[features]"@),
        has_no_newline(Seq::<char>::empty()),
        !ends_with_cr("hooks = true"@),
        !ends_with_cr("[features]"@),
        !ends_with_cr(Seq::<char>::empty()),
{
    reveal_strlit("hooks = true");
    reveal_strlit("[features]");
    reveal_strlit("hooks");
    let hl = "hooks = true"@;
    let f = "[features]"@;
    assert(trim_start_is_self(hl));
    assert(trim_start_is_self(f));
    assert(f.take(10) =~= f);
    assert(f.skip(10) =~= Seq::<char>::empty());
    assert(hl.take(10) != f) by {
        assert(hl.take(10)[0] != f[0]);
    }
    let head = hl.take(6);
    lemma_first_from_is(hl, 0, equals_sign_pred(), 6);
    assert(crate::text::trim_start(head) == head);
    assert(crate::text::trim_end(head) == crate::text::trim_end(head.drop_last()));
    assert(head.drop_last() =~= "hooks"@);
    assert(crate::text::trim_end("hooks"@) == "hooks"@);
}

spec fn trim_start_is_self(s: Seq<char>) -> bool {
    s.len() > 0 && !crate::text::is_white_space(s[0]) && !crate::text::is_white_space(s.last())
        && trim(s) == s
}

/// The enabled lines keep the lines they came from or are new lines without `'\n'`.
proof fn lemma_enabled_lines_no_newline(ls: Seq<Seq<char>>)
    requires
        forall|i: int| 0 <= i < ls.len() ==> has_no_newline(#[trigger] ls[i]),
    ensures
        forall|i: int|
            0 <= i < lines_with_hooks_enabled(ls).len() ==> has_no_newline(
                #[trigger] lines_with_hooks_enabled(ls)[i],
            ),
        lines_with_hooks_enabled(ls).len() > 0,
{
    lemma_literal_lines();
    let l1 = lines_with_hooks_enabled(ls);
    let h = features_header_index(ls);
    lemma_first_from(ls, 0, features_header_pred());
    if h < ls.len() {
        let end = section_end_index(ls, h);
        lemma_first_from(ls, h + 1, section_start_pred());
        let k = hooks_line_index(ls, h, end);
        lemma_first_from(ls.take(end), h + 1, hooks_assignment_pred());
        if k < end {
            assert forall|i: int| 0 <= i < l1.len() implies has_no_newline(#[trigger] l1[i]) by {
                if i != k {
                    assert(l1[i] == ls[i]);
                }
            }
        } else {
            assert forall|i: int| 0 <= i < l1.len() implies has_no_newline(#[trigger] l1[i]) by {
                if i < h + 1 {
                    assert(l1[i] == ls[i]);
                } else if i > h + 1 {
                    assert(l1[i] == ls[i - 1]);
                }
            }
        }
    } else {
        assert forall|i: int| 0 <= i < l1.len() implies has_no_newline(#[trigger] l1[i]) by {
            if i < ls.len() {
                assert(l1[i] == ls[i]);
            }
        }
    }
}

/// Enabling hooks in lines gives lines whose first `[features]` section has
/// `hooks = true`, and enabling hooks again changes nothing.
pub proof fn lemma_enabled_lines_are_stable(ls: Seq<Seq<char>>)
    ensures
        hooks_enabled(lines_with_hooks_enabled(ls)),
        lines_with_hooks_enabled(lines_with_hooks_enabled(ls)) == lines_with_hooks_enabled(ls),
{
    lemma_literal_lines();
    let hl = "hooks = true"@;
    let l1 = lines_with_hooks_enabled(ls);
    let h = features_header_index(ls);
    lemma_first_from(ls, 0, features_header_pred());
    if h < ls.len() {
        let end = section_end_index(ls, h);
        lemma_first_from(ls, h + 1, section_start_pred());
        let k = hooks_line_index(ls, h, end);
        lemma_first_from(ls.take(end), h + 1, hooks_assignment_pred());
        if k < end {
            assert forall|j: int| 0 <= j < h implies !features_header_pred()(#[trigger] l1[j]) by {
                assert(l1[j] == ls[j]);
            }
            assert(l1[h] == ls[h]);
            lemma_first_from_is(l1, 0, features_header_pred(), h);
            assert forall|j: int| h + 1 <= j < end implies !section_start_pred()(#[trigger] l1[j]) by {
                if j != k {
                    assert(l1[j] == ls[j]);
                }
            }
            if end < ls.len() {
                assert(l1[end] == ls[end]);
            }
            lemma_first_from_is(l1, h + 1, section_start_pred(), end);
            assert forall|j: int| h + 1 <= j < k implies !hooks_assignment_pred()(
                #[trigger] l1.take(end)[j],
            ) by {
                assert(l1.take(end)[j] == ls.take(end)[j]);
            }
            assert(l1.take(end)[k] == hl);
            lemma_first_from_is(l1.take(end), h + 1, hooks_assignment_pred(), k);
            assert(l1.update(k, hl) =~= l1);
        } else {
            assert forall|j: int| 0 <= j < h implies !features_header_pred()(#[trigger] l1[j]) by {
                assert(l1[j] == ls[j]);
            }
            assert(l1[h] == ls[h]);
            lemma_first_from_is(l1, 0, features_header_pred(), h);
            assert forall|j: int| h + 1 <= j < end + 1 implies !section_start_pred()(
                #[trigger] l1[j],
            ) by {
                if j > h + 1 {
                    assert(l1[j] == ls[j - 1]);
                }
            }
            if end < ls.len() {
                assert(l1[end + 1] == ls[end]);
            }
            lemma_first_from_is(l1, h + 1, section_start_pred(), end + 1);
            assert(l1.take(end + 1)[h + 1] == hl);
            lemma_first_from_is(l1.take(end + 1), h + 1, hooks_assignment_pred(), h + 1);
            assert(l1.update(h + 1, hl) =~= l1);
        }
    } else {
        let padded = if ls.len() > 0 && trim(ls.last()).len() > 0 {
            ls.push(Seq::empty())
        } else {
            ls
        };
        let m = padded.len() as int;
        assert(l1 == padded.push("[features]"@).push(hl));
        assert forall|j: int| 0 <= j < m implies !features_header_pred()(#[trigger] l1[j]) by {
            assert(l1[j] == padded[j]);
            if j < ls.len() {
                assert(padded[j] == ls[j]);
            }
        }
        assert(l1[m] == "[features]"@);
        lemma_first_from_is(l1, 0, features_header_pred(), m);
        assert(l1[m + 1] == hl);
        lemma_first_from_is(l1, m + 1, section_start_pred(), m + 2);
        assert(l1.take(m + 2) =~= l1);
        lemma_first_from_is(l1.take(m + 2), m + 1, hooks_assignment_pred(), m + 1);
        assert(l1.update(m + 1, hl) =~= l1);
    }
}

/// The last enabled line is not empty when the lines end with a non-empty line.
proof fn lemma_enabled_last_nonempty(ls: Seq<Seq<char>>)
    requires
        ls.len() > 0,
        ls.last().len() > 0,
    ensures
        lines_with_hooks_enabled(ls).last().len() > 0,
{
    lemma_literal_lines();
    let h = features_header_index(ls);
    lemma_first_from(ls, 0, features_header_pred());
    if h < ls.len() {
        let end = section_end_index(ls, h);
        lemma_first_from(ls, h + 1, section_start_pred());
        let k = hooks_line_index(ls, h, end);
        lemma_first_from(ls.take(end), h + 1, hooks_assignment_pred());
        let l1 = lines_with_hooks_enabled(ls);
        if k < end {
            if k != ls.len() - 1 {
                assert(l1.last() == ls.last());
            }
        } else if h + 1 < ls.len() {
            assert(l1.last() == ls.last());
        }
    }
}

/// Enabling hooks in a configuration text gives a text whose lines are the enabled
/// lines, whose first `[features]` section holds `hooks = true`, and on which
/// enabling hooks again changes nothing. This holds whenever the enabled lines come
/// back unchanged when the text is cut into lines again, that is, unless a line that
/// a `'\n'` follows in the result ends with `'\r'`.
pub proof fn lemma_config_hooks_enabled_is_stable(content: Seq<char>)
    requires
        rejoins_exactly(lines_with_hooks_enabled(lines(content)), keeps_final_newline(content)),
    ensures
        lines(config_with_hooks_enabled(content)) == lines_with_hooks_enabled(lines(content)),
        hooks_enabled(lines(config_with_hooks_enabled(content))),
        config_with_hooks_enabled(config_with_hooks_enabled(content)) == config_with_hooks_enabled(
            content,
        ),
{
    let ls = lines(content);
    let l1 = lines_with_hooks_enabled(ls);
    let t = keeps_final_newline(content);
    let out = config_with_hooks_enabled(content);
    lemma_lines_have_no_newline(content);
    lemma_enabled_lines_no_newline(ls);
    if !t {
        lemma_lines_last_nonempty(content);
        lemma_enabled_last_nonempty(ls);
    }
    lemma_lines_of_join(l1, t);
    lemma_enabled_lines_are_stable(ls);
    if t {
        assert(out.last() == '\n');
    } else {
        assert(out =~= join(l1, seq!['\n']));
        lemma_join_last(l1, seq!['\n']);
        assert(has_no_newline(l1.last()));
        assert(l1.last()[l1.last().len() - 1] != '\n');
    }
    assert(keeps_final_newline(out) == t);
}

} // verus!

verus! {

/// Whether a line opens a TOML table: its trimmed text starts with `'['`.
pub open spec fn opens_table(line: Seq<char>) -> bool {
    trim(line).len() > 0 && trim(line)[0] == '['
}

/// When the first `[features]` table holds a `hooks` key before any later line opens a
/// table (blank lines and comments belong to the table), enabling hooks rewrites one
/// line, a `hooks` key of that table, to `hooks = true`, and adds none: the table never
/// ends up with two `hooks` keys.
pub proof fn lemma_existing_hooks_key_is_replaced(ls: Seq<Seq<char>>, k: int)
    requires
        features_header_index(ls) < k < ls.len(),
        is_hooks_assignment(ls[k]),
        forall|j: int| features_header_index(ls) < j <= k ==> !opens_table(#[trigger] ls[j]),
    ensures
        lines_with_hooks_enabled(ls).len() == ls.len(),
        exists|m: int|
            features_header_index(ls) < m <= k && is_hooks_assignment(#[trigger] ls[m])
                && lines_with_hooks_enabled(ls) == ls.update(m, "hooks = true"@),
{
    let h = features_header_index(ls);
    lemma_first_from(ls, 0, features_header_pred());
    let end = section_end_index(ls, h);
    lemma_first_from(ls, h + 1, section_start_pred());
    if end <= k {
        assert(section_start_pred()(ls[end]));
        assert(opens_table(ls[end]));
    }
    let m = hooks_line_index(ls, h, end);
    lemma_first_from(ls.take(end), h + 1, hooks_assignment_pred());
    if m >= k {
        assert(ls.take(end)[k] == ls[k]);
        assert(hooks_assignment_pred()(ls.take(end)[k]));
    }
    assert(ls.take(end)[m] == ls[m]);
    assert(is_hooks_assignment(ls[m]));
}

/// When the first `[features]` table has no `hooks` key before the next line that
/// opens a table (or the end), enabling hooks puts `hooks = true` right below the
/// header and leaves every other line where it was.
pub proof fn lemma_missing_hooks_key_is_added(ls: Seq<Seq<char>>, end: int)
    requires
        features_header_index(ls) < end <= ls.len(),
        end < ls.len() ==> opens_table(ls[end]),
        forall|j: int| features_header_index(ls) < j < end ==> !opens_table(#[trigger] ls[j])
            && !is_hooks_assignment(ls[j]),
    ensures
        lines_with_hooks_enabled(ls) == ls.insert(features_header_index(ls) + 1, "hooks = true"@),
{
    let h = features_header_index(ls);
    lemma_first_from(ls, 0, features_header_pred());
    assert forall|j: int| h + 1 <= j < end implies !section_start_pred()(#[trigger] ls[j]) by {
        assert(!opens_table(ls[j]));
    }
    lemma_first_from_is(ls, h + 1, section_start_pred(), end);
    assert forall|j: int| h + 1 <= j < end implies !hooks_assignment_pred()(#[trigger] ls.take(end)[j]) by {
        assert(ls.take(end)[j] == ls[j]);
    }
    lemma_first_from_is(ls.take(end), h + 1, hooks_assignment_pred(), end);
}

} // verus!
