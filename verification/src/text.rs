//! Character-level text helpers shared by the configuration, rollout and
//! session logic. Text is handled as a sequence of Unicode scalar values.
use vstd::prelude::*;

verus! {

/// The Unicode `White_Space` property, the set that `char::is_whitespace` tests.
pub open spec fn is_white_space(c: char) -> bool {
    let n = c as u32;
    ||| 0x9 <= n <= 0xd
    ||| n == 0x20
    ||| n == 0x85
    ||| n == 0xa0
    ||| n == 0x1680
    ||| 0x2000 <= n <= 0x200a
    ||| n == 0x2028
    ||| n == 0x2029
    ||| n == 0x202f
    ||| n == 0x205f
    ||| n == 0x3000
}

pub fn is_white_space_char(c: char) -> (r: bool)
    ensures
        r == is_white_space(c),
{
    let n = c as u32;
    (0x9 <= n && n <= 0xd) || n == 0x20 || n == 0x85 || n == 0xa0 || n == 0x1680 || (0x2000 <= n
        && n <= 0x200a) || n == 0x2028 || n == 0x2029 || n == 0x202f || n == 0x205f || n == 0x3000
}

/// The characters of a string slice, in order.
pub fn chars_of(s: &str) -> (r: Vec<char>)
    ensures
        r@ == s@,
{
    let mut out: Vec<char> = Vec::new();
    for c in it: s.chars()
        invariant
            out@ == it.seq().take(it.index() as int),
    {
        out.push(c);
    }
    out
}

} // verus!

verus! {

/// Index of the first element at or after `start` that satisfies `p`,
/// or the length of `s` when there is none.
pub open spec fn first_from<A>(s: Seq<A>, start: int, p: spec_fn(A) -> bool) -> int
    decreases s.len() - start,
{
    if start < 0 || start >= s.len() {
        s.len() as int
    } else if p(s[start]) {
        start
    } else {
        first_from(s, start + 1, p)
    }
}

pub proof fn lemma_first_from<A>(s: Seq<A>, start: int, p: spec_fn(A) -> bool)
    requires
        0 <= start <= s.len(),
    ensures
        start <= first_from(s, start, p) <= s.len(),
        first_from(s, start, p) < s.len() ==> p(s[first_from(s, start, p)]),
        forall|j: int| start <= j < first_from(s, start, p) ==> !p(#[trigger] s[j]),
    decreases s.len() - start,
{
    if start < s.len() && !p(s[start]) {
        lemma_first_from(s, start + 1, p);
    }
}

/// `first_from` is pinned down by its defining properties.
pub proof fn lemma_first_from_is<A>(s: Seq<A>, start: int, p: spec_fn(A) -> bool, k: int)
    requires
        0 <= start <= k <= s.len(),
        k < s.len() ==> p(s[k]),
        forall|j: int| start <= j < k ==> !p(#[trigger] s[j]),
    ensures
        first_from(s, start, p) == k,
    decreases k - start,
{
    if start < k {
        assert(!p(s[start]));
        lemma_first_from_is(s, start + 1, p, k);
    }
}

pub open spec fn is_newline(c: char) -> bool {
    c == '\n'
}

pub open spec fn newline_pred() -> spec_fn(char) -> bool {
    |c: char| is_newline(c)
}

/// A line without the `'\r'` that ends it, if any.
pub open spec fn strip_cr(line: Seq<char>) -> Seq<char> {
    if line.len() > 0 && line.last() == '\r' {
        line.drop_last()
    } else {
        line
    }
}

/// The lines of a text as `str::lines` yields them: the text is cut after
/// each `'\n'`, each piece loses its `"\n"` or `"\r\n"` ending, and no
/// empty line is produced after a final line ending.
pub open spec fn lines(s: Seq<char>) -> Seq<Seq<char>>
    decreases s.len(),
{
    if s.len() == 0 {
        Seq::empty()
    } else {
        let i = first_from(s, 0, newline_pred());
        if i >= s.len() {
            seq![s]
        } else {
            proof {
                lemma_first_from(s, 0, newline_pred());
            }
            seq![strip_cr(s.take(i))] + lines(s.skip(i + 1))
        }
    }
}

/// The lines joined by `sep`, as `[String]::join` builds them.
pub open spec fn join(parts: Seq<Seq<char>>, sep: Seq<char>) -> Seq<char>
    decreases parts.len(),
{
    if parts.len() == 0 {
        Seq::empty()
    } else if parts.len() == 1 {
        parts[0]
    } else {
        join(parts.drop_last(), sep) + sep + parts.last()
    }
}

/// `s` without its leading white space.
pub open spec fn trim_start(s: Seq<char>) -> Seq<char>
    decreases s.len(),
{
    if s.len() > 0 && is_white_space(s[0]) {
        trim_start(s.drop_first())
    } else {
        s
    }
}

/// `s` without its trailing white space.
pub open spec fn trim_end(s: Seq<char>) -> Seq<char>
    decreases s.len(),
{
    if s.len() > 0 && is_white_space(s.last()) {
        trim_end(s.drop_last())
    } else {
        s
    }
}

/// `s` without leading and trailing white space, as `str::trim` gives it.
pub open spec fn trim(s: Seq<char>) -> Seq<char> {
    trim_end(trim_start(s))
}

/// Whether `needle` occurs in `s` as a contiguous piece.
pub open spec fn contains_seq(s: Seq<char>, needle: Seq<char>) -> bool {
    exists|i: int| 0 <= i <= s.len() - needle.len() && #[trigger] s.subrange(i, i + needle.len()) == needle
}

/// The elements `lo..hi` of `v`, copied.
pub fn copy_range(v: &Vec<char>, lo: usize, hi: usize) -> (r: Vec<char>)
    requires
        lo <= hi <= v.len(),
    ensures
        r@ == v@.subrange(lo as int, hi as int),
{
    let mut out: Vec<char> = Vec::new();
    let mut i = lo;
    while i < hi
        invariant
            lo <= i <= hi <= v.len(),
            out@ == v@.subrange(lo as int, i as int),
        decreases hi - i,
    {
        out.push(v[i]);
        i = i + 1;
    }
    out
}

/// Whether two character sequences are equal.
pub fn chars_equal(a: &[char], b: &[char]) -> (r: bool)
    ensures
        r == (a@ == b@),
{
    if a.len() != b.len() {
        return false;
    }
    let mut i: usize = 0;
    while i < a.len()
        invariant
            a@.len() == b@.len(),
            i <= a@.len(),
            forall|j: int| 0 <= j < i ==> a@[j] == b@[j],
        decreases a.len() - i,
    {
        if a[i] != b[i] {
            return false;
        }
        i = i + 1;
    }
    assert(a@ =~= b@);
    true
}

/// Whether the piece `lo..hi` of `v` equals `b`.
pub fn range_equals(v: &[char], lo: usize, hi: usize, b: &[char]) -> (r: bool)
    requires
        lo <= hi <= v@.len(),
    ensures
        r == (v@.subrange(lo as int, hi as int) == b@),
{
    if hi - lo != b.len() {
        return false;
    }
    let mut i: usize = 0;
    while i < b.len()
        invariant
            hi - lo == b@.len(),
            lo <= hi <= v@.len(),
            i <= b@.len(),
            forall|j: int| 0 <= j < i ==> v@[lo + j] == b@[j],
        decreases b.len() - i,
    {
        if v[lo + i] != b[i] {
            return false;
        }
        i = i + 1;
    }
    assert(v@.subrange(lo as int, hi as int) =~= b@);
    true
}

/// The bounds of the trimmed piece of `v`.
pub fn trim_bounds(v: &[char]) -> (r: (usize, usize))
    ensures
        r.0 <= r.1 <= v@.len(),
        trim(v@) == v@.subrange(r.0 as int, r.1 as int),
{
    let n = v.len();
    let mut lo: usize = 0;
    assert(v@.subrange(0, n as int) =~= v@);
    while lo < n && is_white_space_char(v[lo])
        invariant
            n == v@.len(),
            lo <= n,
            trim_start(v@) == trim_start(v@.subrange(lo as int, n as int)),
        decreases n - lo,
    {
        assert(v@.subrange(lo as int, n as int).drop_first() =~= v@.subrange(lo + 1, n as int));
        lo = lo + 1;
    }
    let mut hi: usize = n;
    while hi > lo && is_white_space_char(v[hi - 1])
        invariant
            n == v@.len(),
            lo <= hi <= n,
            trim(v@) == trim_end(v@.subrange(lo as int, hi as int)),
        decreases hi - lo,
    {
        assert(v@.subrange(lo as int, hi as int).drop_last() =~= v@.subrange(lo as int, hi - 1));
        hi = hi - 1;
    }
    (lo, hi)
}

/// Whether the whole of `v` is white space.
pub fn is_blank(v: &[char]) -> (r: bool)
    ensures
        r == (trim(v@).len() == 0),
{
    let (lo, hi) = trim_bounds(v);
    lo == hi
}

/// The character sequences held by a vector of lines.
pub open spec fn view_lines(v: Seq<Vec<char>>) -> Seq<Seq<char>> {
    Seq::new(v.len(), |i: int| v[i]@)
}

/// The lines of `s`, as `lines` defines them.
pub fn split_lines(s: &Vec<char>) -> (r: Vec<Vec<char>>)
    ensures
        view_lines(r@) == lines(s@),
{
    let n = s.len();
    let mut out: Vec<Vec<char>> = Vec::new();
    let mut start: usize = 0;
    let mut i: usize = 0;
    assert(s@.skip(0) =~= s@);
    while i < n
        invariant
            n == s@.len(),
            start <= i <= n,
            lines(s@) == view_lines(out@) + lines(s@.skip(start as int)),
            forall|j: int| start <= j < i ==> s@[j] != '\n',
        decreases n - i,
    {
        if s[i] == '\n' {
            let mut end = i;
            if end > start && s[end - 1] == '\r' {
                end = end - 1;
            }
            let line = copy_range(s, start, end);
            proof {
                let rest = s@.skip(start as int);
                lemma_first_from_is(rest, 0, newline_pred(), i - start);
                assert(rest.take(i - start) =~= s@.subrange(start as int, i as int));
                assert(strip_cr(rest.take(i - start)) =~= line@);
                assert(rest.skip(i - start + 1) =~= s@.skip(i + 1));
                assert(view_lines(out@).push(line@) =~= view_lines(out@) + seq![line@]);
            }
            let ghost prev = view_lines(out@);
            out.push(line);
            assert(view_lines(out@) =~= prev.push(line@));
            start = i + 1;
        }
        i = i + 1;
    }
    if start < n {
        let line = copy_range(s, start, n);
        proof {
            let rest = s@.skip(start as int);
            lemma_first_from_is(rest, 0, newline_pred(), rest.len() as int);
            assert(rest =~= line@);
        }
        let ghost prev = view_lines(out@);
        out.push(line);
        assert(view_lines(out@) =~= prev + seq![line@]);
    }
    out
}

} // verus!

verus! {

/// Appends one character to a string.
/// Calls `String::push`, which adds the character at the end.
#[verifier::external_body]
pub(crate) fn push_char(s: &mut String, c: char)
    ensures
        final(s)@ == old(s)@.push(c),
{
    s.push(c);
}

/// A string holding the given characters.
pub fn string_from_chars(v: &[char]) -> (r: String)
    ensures
        r@ == v@,
{
    let mut out = String::new();
    let mut i: usize = 0;
    while i < v.len()
        invariant
            i <= v@.len(),
            out@ == v@.take(i as int),
        decreases v.len() - i,
    {
        push_char(&mut out, v[i]);
        assert(v@.take(i + 1) =~= v@.take(i as int).push(v@[i as int]));
        i = i + 1;
    }
    assert(v@.take(v@.len() as int) =~= v@);
    out
}

/// Appends the characters of `b` to `a`.
pub fn append_chars(a: &mut Vec<char>, b: &[char])
    ensures
        final(a)@ == old(a)@ + b@,
{
    let mut i: usize = 0;
    while i < b.len()
        invariant
            i <= b@.len(),
            a@ == old(a)@ + b@.take(i as int),
        decreases b.len() - i,
    {
        a.push(b[i]);
        assert(b@.take(i + 1) =~= b@.take(i as int).push(b@[i as int]));
        i = i + 1;
    }
    assert(b@.take(b@.len() as int) =~= b@);
}

/// The lines joined by one separator character.
pub fn join_lines(parts: &Vec<Vec<char>>, sep: char) -> (r: Vec<char>)
    ensures
        r@ == join(view_lines(parts@), seq![sep]),
{
    let mut out: Vec<char> = Vec::new();
    let mut i: usize = 0;
    while i < parts.len()
        invariant
            i <= parts@.len(),
            out@ == join(view_lines(parts@).take(i as int), seq![sep]),
        decreases parts.len() - i,
    {
        let ghost before = out@;
        if i > 0 {
            out.push(sep);
        }
        append_chars(&mut out, parts[i].as_slice());
        proof {
            let ls = view_lines(parts@);
            assert(ls.take(i + 1).drop_last() =~= ls.take(i as int));
            if i == 0 {
                assert(before =~= Seq::<char>::empty());
                assert(out@ =~= ls[0]);
            } else {
                assert(out@ =~= before + seq![sep] + ls[i as int]);
            }
        }
        i = i + 1;
    }
    assert(view_lines(parts@).take(parts@.len() as int) =~= view_lines(parts@));
    out
}

} // verus!

verus! {

pub open spec fn has_no_newline(line: Seq<char>) -> bool {
    forall|j: int| 0 <= j < line.len() ==> line[j] != '\n'
}

pub open spec fn ends_with_cr(line: Seq<char>) -> bool {
    line.len() > 0 && line.last() == '\r'
}

/// The lines of a text never hold a `'\n'`.
pub proof fn lemma_lines_have_no_newline(s: Seq<char>)
    ensures
        forall|i: int| 0 <= i < lines(s).len() ==> has_no_newline(#[trigger] lines(s)[i]),
    decreases s.len(),
{
    if s.len() > 0 {
        let i = first_from(s, 0, newline_pred());
        lemma_first_from(s, 0, newline_pred());
        if i < s.len() {
            lemma_lines_have_no_newline(s.skip(i + 1));
            let head = strip_cr(s.take(i));
            assert(has_no_newline(head));
            assert forall|k: int| 0 <= k < lines(s).len() implies has_no_newline(
                #[trigger] lines(s)[k],
            ) by {
                if k > 0 {
                    assert(lines(s)[k] == lines(s.skip(i + 1))[k - 1]);
                }
            }
        }
    }
}

/// A non-empty text that does not end with `'\n'` has lines, the last of them non-empty.
pub proof fn lemma_lines_last_nonempty(s: Seq<char>)
    requires
        s.len() > 0,
        s.last() != '\n',
    ensures
        lines(s).len() > 0,
        lines(s).last().len() > 0,
    decreases s.len(),
{
    let i = first_from(s, 0, newline_pred());
    lemma_first_from(s, 0, newline_pred());
    if i < s.len() {
        let rest = s.skip(i + 1);
        assert(rest.len() > 0);
        assert(rest.last() == s.last());
        lemma_lines_last_nonempty(rest);
    }
}

/// `join` seen from its first part.
pub proof fn lemma_join_front(parts: Seq<Seq<char>>, sep: Seq<char>)
    requires
        parts.len() >= 2,
    ensures
        join(parts, sep) == parts[0] + sep + join(parts.drop_first(), sep),
    decreases parts.len(),
{
    if parts.len() == 2 {
        assert(join(parts.drop_last(), sep) == parts[0]);
        assert(join(parts.drop_first(), sep) == parts[1]);
    } else {
        let init = parts.drop_last();
        lemma_join_front(init, sep);
        assert(init.drop_first() =~= parts.drop_first().drop_last());
        assert(parts.drop_first().last() == parts.last());
        assert(init[0] == parts[0]);
        assert(join(parts.drop_first(), sep) == join(init.drop_first(), sep) + sep + parts.last());
        assert(join(parts, sep) =~= parts[0] + sep + join(parts.drop_first(), sep));
    }
}

/// The last character of a join is that of the last part, when that part is not empty.
pub proof fn lemma_join_last(parts: Seq<Seq<char>>, sep: Seq<char>)
    requires
        parts.len() > 0,
        parts.last().len() > 0,
    ensures
        join(parts, sep).len() > 0,
        join(parts, sep).last() == parts.last().last(),
{
}

/// Joining lines with `'\n'` and cutting the result into lines again gives the
/// same lines, when no line holds `'\n'`, no line ends with `'\r'` where a `'\n'`
/// follows it, and an empty last line is followed by a final `'\n'`.
pub proof fn lemma_lines_of_join(ls: Seq<Seq<char>>, final_newline: bool)
    requires
        ls.len() > 0,
        forall|i: int| 0 <= i < ls.len() ==> has_no_newline(#[trigger] ls[i]),
        forall|i: int|
            0 <= i < ls.len() && (final_newline || i + 1 < ls.len()) ==> !ends_with_cr(
                #[trigger] ls[i],
            ),
        !final_newline ==> ls.last().len() > 0,
    ensures
        lines(
            join(ls, seq!['\n']) + if final_newline {
                seq!['\n']
            } else {
                Seq::<char>::empty()
            },
        ) == ls,
    decreases ls.len(),
{
    let suffix = if final_newline {
        seq!['\n']
    } else {
        Seq::<char>::empty()
    };
    let s = join(ls, seq!['\n']) + suffix;
    let l0 = ls[0];
    assert(has_no_newline(l0));
    if ls.len() == 1 {
        if final_newline {
            assert(s =~= l0.push('\n'));
            lemma_first_from_is(s, 0, newline_pred(), l0.len() as int);
            assert(s.take(l0.len() as int) =~= l0);
            assert(!ends_with_cr(l0));
            assert(s.skip(l0.len() as int + 1) =~= Seq::<char>::empty());
            assert(lines(Seq::<char>::empty()) == Seq::<Seq<char>>::empty());
            assert(strip_cr(l0) == l0);
            assert(lines(s) =~= seq![l0]);
        } else {
            assert(s =~= l0);
            lemma_first_from_is(s, 0, newline_pred(), s.len() as int);
            assert(lines(s) =~= seq![l0]);
        }
    } else {
        let tail = ls.drop_first();
        lemma_join_front(ls, seq!['\n']);
        let rest = join(tail, seq!['\n']) + suffix;
        assert(s =~= l0 + seq!['\n'] + rest);
        lemma_first_from_is(s, 0, newline_pred(), l0.len() as int);
        assert(s.take(l0.len() as int) =~= l0);
        assert(s.skip(l0.len() as int + 1) =~= rest);
        assert(!ends_with_cr(l0));
        assert forall|i: int| 0 <= i < tail.len() implies has_no_newline(#[trigger] tail[i]) by {
            assert(tail[i] == ls[i + 1]);
        }
        assert forall|i: int|
            0 <= i < tail.len() && (final_newline || i + 1 < tail.len()) implies !ends_with_cr(
            #[trigger] tail[i],
        ) by {
            assert(tail[i] == ls[i + 1]);
        }
        lemma_lines_of_join(tail, final_newline);
        assert(lines(s) =~= seq![l0] + tail);
        assert(seq![l0] + tail =~= ls);
    }
}

} // verus!

verus! {

/// The words of a text, as `str::split_whitespace` yields them: the maximal runs of
/// characters that are not white space, in order.
pub open spec fn words(s: Seq<char>) -> Seq<Seq<char>>
    decreases s.len(),
{
    if s.len() == 0 {
        Seq::empty()
    } else {
        let w = words(s.drop_last());
        let c = s.last();
        if is_white_space(c) {
            w
        } else if s.len() > 1 && !is_white_space(s[s.len() - 2]) && w.len() > 0 {
            w.update(w.len() - 1, w.last().push(c))
        } else {
            w.push(seq![c])
        }
    }
}

proof fn lemma_words_nonempty_after_word(s: Seq<char>)
    requires
        s.len() > 0,
        !is_white_space(s.last()),
    ensures
        words(s).len() > 0,
{
}

proof fn lemma_join_extend_last(w: Seq<Seq<char>>, sep: Seq<char>, c: char)
    requires
        w.len() > 0,
    ensures
        join(w.update(w.len() - 1, w.last().push(c)), sep) == join(w, sep).push(c),
{
    let w2 = w.update(w.len() - 1, w.last().push(c));
    if w.len() > 1 {
        assert(w2.drop_last() =~= w.drop_last());
        assert(join(w2, sep) =~= join(w, sep).push(c));
    }
}

proof fn lemma_join_push(w: Seq<Seq<char>>, sep: Seq<char>, x: Seq<char>)
    ensures
        join(w.push(x), sep) == if w.len() == 0 {
            x
        } else {
            join(w, sep) + sep + x
        },
{
    assert(w.push(x).drop_last() =~= w);
}

/// The words of a text joined by single spaces.
pub open spec fn collapse_white_space(s: Seq<char>) -> Seq<char> {
    join(words(s), seq![' '])
}

/// The text with its white space collapsed, cut to 120 characters with `'…'`
/// appended when it is longer.
pub open spec fn compact_text(s: Seq<char>) -> Seq<char> {
    let compact = collapse_white_space(s);
    if compact.len() > 120 {
        compact.take(120).push('…')
    } else {
        compact
    }
}

/// The characters of `s` with white space collapsed, as `collapse_white_space` defines them.
pub fn collapse_white_space_chars(s: &Vec<char>) -> (r: Vec<char>)
    ensures
        r@ == collapse_white_space(s@),
{
    let mut out: Vec<char> = Vec::new();
    let mut any_word = false;
    let mut i: usize = 0;
    while i < s.len()
        invariant
            i <= s@.len(),
            out@ == join(words(s@.take(i as int)), seq![' ']),
            any_word == (words(s@.take(i as int)).len() > 0),
        decreases s.len() - i,
    {
        let c = s[i];
        let ghost prefix = s@.take(i as int);
        let ghost next = s@.take(i + 1);
        assert(next.drop_last() =~= prefix);
        assert(next.last() == c);
        if !is_white_space_char(c) {
            let continues = i > 0 && !is_white_space_char(s[i - 1]);
            if continues {
                proof {
                    assert(next[next.len() - 2] == s@[i - 1]);
                    assert(prefix.last() == s@[i - 1]);
                    lemma_words_nonempty_after_word(prefix);
                    lemma_join_extend_last(words(prefix), seq![' '], c);
                }
                out.push(c);
            } else {
                proof {
                    lemma_join_push(words(prefix), seq![' '], seq![c]);
                }
                if any_word {
                    out.push(' ');
                }
                out.push(c);
                proof {
                    if any_word {
                        assert(out@ =~= join(words(prefix), seq![' ']) + seq![' '] + seq![c]);
                    } else {
                        assert(out@ =~= seq![c]);
                    }
                }
            }
            any_word = true;
        }
        i = i + 1;
    }
    assert(s@.take(s@.len() as int) =~= s@);
    out
}

/// The text with white space collapsed and cut, as `compact_text` defines it.
pub fn compact_activity_text(value: &str) -> (r: String)
    ensures
        r@ == compact_text(value@),
{
    let chars = chars_of(value);
    let compact = collapse_white_space_chars(&chars);
    if compact.len() > 120 {
        let mut shortened = copy_range(&compact, 0, 120);
        shortened.push('…');
        assert(shortened@ =~= compact@.take(120).push('…'));
        string_from_chars(shortened.as_slice())
    } else {
        string_from_chars(compact.as_slice())
    }
}

pub open spec fn ascii_lower_char(c: char) -> char {
    if 'A' <= c && c <= 'Z' {
        ((c as u32) + 32) as char
    } else {
        c
    }
}

/// The text with ASCII upper-case letters made lower-case, as `str::to_ascii_lowercase` does.
pub open spec fn ascii_lower(s: Seq<char>) -> Seq<char> {
    Seq::new(s.len(), |i: int| ascii_lower_char(s[i]))
}

pub fn ascii_lower_chars(s: &Vec<char>) -> (r: Vec<char>)
    ensures
        r@ == ascii_lower(s@),
{
    let mut out: Vec<char> = Vec::new();
    let mut i: usize = 0;
    while i < s.len()
        invariant
            i <= s@.len(),
            out@ == ascii_lower(s@.take(i as int)),
        decreases s.len() - i,
    {
        let c = s[i];
        let n = c as u32;
        let l = if 65 <= n && n <= 90 {
            char_from_u32(n + 32)
        } else {
            c
        };
        out.push(l);
        assert(out@ =~= ascii_lower(s@.take(i + 1)));
        i = i + 1;
    }
    assert(s@.take(s@.len() as int) =~= s@);
    out
}

/// The lower-case ASCII letter with a given code.
fn char_from_u32(n: u32) -> (r: char)
    requires
        97 <= n <= 122,
    ensures
        r == n as char,
{
    let b = n as u8;
    assert(b == n);
    b as char
}

/// Whether `needle` occurs in `s`.
pub fn contains_chars(s: &Vec<char>, needle: &Vec<char>) -> (r: bool)
    ensures
        r == contains_seq(s@, needle@),
{
    let n = needle.len();
    if n > s.len() {
        return false;
    }
    if n == 0 {
        assert(s@.subrange(0int, 0int + needle@.len()) =~= needle@);
        return true;
    }
    let last = s.len() - n;
    let mut i: usize = 0;
    while i <= last
        invariant
            n == needle@.len(),
            0 < n <= s@.len(),
            last == s@.len() - n,
            i <= last + 1,
            forall|j: int| 0 <= j < i ==> #[trigger] s@.subrange(j, j + needle@.len()) != needle@,
        decreases last + 1 - i,
    {
        let len = s.len();
        assert(i + n <= len);
        if range_equals(s.as_slice(), i, i + n, needle.as_slice()) {
            assert(s@.subrange(i as int, i + needle@.len()) == needle@);
            return true;
        }
        i = i + 1;
    }
    assert forall|j: int| 0 <= j <= s@.len() - needle@.len() implies #[trigger] s@.subrange(j, j + needle@.len()) != needle@ by {
        assert(j < i);
    }
    false
}

/// Whether the literal occurs in `s`.
pub fn contains_literal(s: &Vec<char>, literal: &str) -> (r: bool)
    ensures
        r == contains_seq(s@, literal@),
{
    let needle = chars_of(literal);
    contains_chars(s, &needle)
}

} // verus!

verus! {

/// The text of `prefix` followed by the text of `rest`.
pub fn concat_text(prefix: &str, rest: &str) -> (r: String)
    ensures
        r@ == prefix@ + rest@,
{
    let mut chars = chars_of(prefix);
    let tail = chars_of(rest);
    append_chars(&mut chars, tail.as_slice());
    string_from_chars(chars.as_slice())
}

} // verus!

verus! {

/// A piece of the middle of a text is a piece of the whole.
pub proof fn lemma_contains_seq_within(a: Seq<char>, s: Seq<char>, b: Seq<char>, needle: Seq<char>)
    requires
        contains_seq(s, needle),
    ensures
        contains_seq(a + s + b, needle),
{
    let i = choose|i: int|
        0 <= i <= s.len() - needle.len() && #[trigger] s.subrange(i, i + needle.len()) == needle;
    let t = a + s + b;
    assert(t.subrange(a.len() + i, a.len() + i + needle.len()) =~= s.subrange(i, i + needle.len()));
}

} // verus!

verus! {

/// Whether the text is exactly the literal.
pub fn str_is(a: &str, literal: &str) -> (r: bool)
    ensures
        r == (a@ == literal@),
{
    let x = String::from_str(a);
    let y = String::from_str(literal);
    x == y
}

} // verus!

verus! {

/// The text without its leading and trailing white space, as `trim` says.
pub fn trim_text(s: &str) -> (r: String)
    ensures
        r@ == trim(s@),
{
    let chars = chars_of(s);
    let (lo, hi) = trim_bounds(chars.as_slice());
    let piece = copy_range(&chars, lo, hi);
    string_from_chars(piece.as_slice())
}

} // verus!

verus! {

/// Whether every white space character of a text is a single space between two
/// characters that are not white space, except that the text may end with one.
pub open spec fn spaced_open(t: Seq<char>) -> bool {
    &&& t.len() == 0 || !is_white_space(t[0])
    &&& forall|i: int|
        0 <= i < t.len() && is_white_space(#[trigger] t[i]) ==> t[i] == ' ' && i > 0
            && !is_white_space(t[i - 1]) && (i + 1 < t.len() ==> !is_white_space(t[i + 1]))
}

/// Whether a text is already collapsed: single spaces between words, none at either end.
pub open spec fn is_collapsed(t: Seq<char>) -> bool {
    spaced_open(t) && (t.len() == 0 || !is_white_space(t.last()))
}

/// Joining the words of a text whose white space is single spaces between words gives
/// the text back, without a trailing space.
proof fn lemma_words_of_spaced(t: Seq<char>)
    requires
        spaced_open(t),
    ensures
        join(words(t), seq![' ']) == if t.len() > 0 && is_white_space(t.last()) {
            t.drop_last()
        } else {
            t
        },
        t.len() > 0 ==> words(t).len() > 0,
    decreases t.len(),
{
    if t.len() > 0 {
        let u = t.drop_last();
        let c = t.last();
        assert(spaced_open(u)) by {
            assert forall|i: int| 0 <= i < u.len() && is_white_space(#[trigger] u[i]) implies u[i]
                == ' ' && i > 0 && !is_white_space(u[i - 1]) && (i + 1 < u.len()
                ==> !is_white_space(u[i + 1])) by {
                assert(t[i] == u[i]);
            }
        }
        lemma_words_of_spaced(u);
        if is_white_space(c) {
            assert(t[t.len() - 1] == c);
            assert(u.len() > 0);
            assert(!is_white_space(u.last()));
        } else if u.len() == 0 {
            assert(words(t) == Seq::<Seq<char>>::empty().push(seq![c]));
            assert(t =~= seq![c]);
        } else if !is_white_space(u.last()) {
            lemma_words_nonempty_after_word(u);
            lemma_join_extend_last(words(u), seq![' '], c);
            assert(t =~= u.push(c));
        } else {
            lemma_join_push(words(u), seq![' '], seq![c]);
            assert(u.last() == ' ');
            assert(t =~= u.drop_last() + seq![' '] + seq![c]);
        }
    }
}

/// Collapsing the white space of a collapsed text changes nothing.
pub proof fn lemma_collapsed_is_stable(t: Seq<char>)
    requires
        is_collapsed(t),
    ensures
        collapse_white_space(t) == t,
{
    lemma_words_of_spaced(t);
}

/// The words of a text are not empty and hold no white space.
proof fn lemma_words_are_words(s: Seq<char>)
    ensures
        forall|k: int|
            0 <= k < words(s).len() ==> (#[trigger] words(s)[k]).len() > 0 && forall|j: int|
                0 <= j < words(s)[k].len() ==> !is_white_space(#[trigger] words(s)[k][j]),
    decreases s.len(),
{
    if s.len() > 0 {
        let w = words(s.drop_last());
        lemma_words_are_words(s.drop_last());
        let c = s.last();
        if !is_white_space(c) && s.len() > 1 && !is_white_space(s[s.len() - 2]) && w.len() > 0 {
            let w2 = w.update(w.len() - 1, w.last().push(c));
            assert forall|k: int| 0 <= k < w2.len() implies (#[trigger] w2[k]).len() > 0 && forall|
                j: int,
            | 0 <= j < w2[k].len() ==> !is_white_space(#[trigger] w2[k][j]) by {
                if k == w.len() - 1 {
                    assert forall|j: int| 0 <= j < w2[k].len() implies !is_white_space(#[trigger] w2[k][j]) by {
                        if j < w.last().len() {
                            assert(w2[k][j] == w[k][j]);
                        }
                    }
                }
            }
        } else if !is_white_space(c) {
            let w2 = w.push(seq![c]);
            assert forall|k: int| 0 <= k < w2.len() implies (#[trigger] w2[k]).len() > 0 && forall|
                j: int,
            | 0 <= j < w2[k].len() ==> !is_white_space(#[trigger] w2[k][j]) by {
                if k < w.len() {
                    assert(w2[k] == w[k]);
                }
            }
        }
    }
}

/// Words joined by single spaces make a collapsed text.
proof fn lemma_join_of_words_is_collapsed(ws: Seq<Seq<char>>)
    requires
        forall|k: int|
            0 <= k < ws.len() ==> (#[trigger] ws[k]).len() > 0 && forall|j: int|
                0 <= j < ws[k].len() ==> !is_white_space(#[trigger] ws[k][j]),
    ensures
        is_collapsed(join(ws, seq![' '])),
        ws.len() > 0 ==> join(ws, seq![' ']).len() > 0,
    decreases ws.len(),
{
    if ws.len() == 1 {
        let x = ws[0];
        assert(x[0] == ws[0][0]);
        assert(x.last() == ws[0][x.len() - 1]);
    } else if ws.len() > 1 {
        let rest = ws.drop_last();
        let x = ws.last();
        assert forall|k: int| 0 <= k < rest.len() implies (#[trigger] rest[k]).len() > 0 && forall|
            j: int,
        | 0 <= j < rest[k].len() ==> !is_white_space(#[trigger] rest[k][j]) by {
            assert(rest[k] == ws[k]);
        }
        lemma_join_of_words_is_collapsed(rest);
        let a = join(rest, seq![' ']);
        let t = join(ws, seq![' ']);
        assert(t == a + seq![' '] + x);
        assert(!is_white_space(x[0])) by {
            assert(x[0] == ws[ws.len() - 1][0]);
        }
        assert(!is_white_space(t.last())) by {
            assert(t.last() == x[x.len() - 1]);
            assert(x[x.len() - 1] == ws[ws.len() - 1][x.len() - 1]);
        }
        assert(' ' as u32 == 0x20);
        assert forall|i: int| 0 <= i < t.len() && is_white_space(#[trigger] t[i]) implies t[i] == ' '
            && i > 0 && !is_white_space(t[i - 1]) && (i + 1 < t.len() ==> !is_white_space(
            t[i + 1],
        )) by {
            if i < a.len() {
                assert(t[i] == a[i]);
                assert(t[i - 1] == a[i - 1]);
                if i + 1 < a.len() {
                    assert(t[i + 1] == a[i + 1]);
                }
            } else if i == a.len() {
                assert(t[i - 1] == a.last());
                assert(t[i + 1] == x[0]);
            } else {
                assert(t[i] == x[i - a.len() - 1]);
                assert(x[i - a.len() - 1] == ws[ws.len() - 1][i - a.len() - 1]);
            }
        }
        assert(t[0] == a[0]);
    }
}

/// The white space of a text collapsed is collapsed.
pub proof fn lemma_collapse_is_collapsed(s: Seq<char>)
    ensures
        is_collapsed(collapse_white_space(s)),
{
    lemma_words_are_words(s);
    lemma_join_of_words_is_collapsed(words(s));
}

/// Compacted text is at most 121 characters long and compacting it again changes
/// nothing.
pub proof fn lemma_compact_text_is_stable(s: Seq<char>)
    ensures
        compact_text(s).len() <= 121,
        compact_text(compact_text(s)) == compact_text(s),
{
    let c = collapse_white_space(s);
    lemma_collapse_is_collapsed(s);
    let r = compact_text(s);
    if c.len() > 120 {
        assert(!is_white_space('…'));
        assert(is_collapsed(r)) by {
            assert forall|i: int| 0 <= i < r.len() && is_white_space(#[trigger] r[i]) implies r[i]
                == ' ' && i > 0 && !is_white_space(r[i - 1]) && (i + 1 < r.len()
                ==> !is_white_space(r[i + 1])) by {
                assert(i < 120);
                assert(r[i] == c[i]);
                assert(r[i - 1] == c[i - 1]);
                if i + 1 < 120 {
                    assert(r[i + 1] == c[i + 1]);
                }
            }
            assert(r[0] == c[0]);
        }
        lemma_collapsed_is_stable(r);
        assert(r.take(120).push('…') =~= r);
    } else {
        lemma_collapsed_is_stable(r);
    }
}

} // verus!
