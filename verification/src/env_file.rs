//! The `.env` file that the server reads its settings from: line-oriented
//! `KEY=VALUE` text in which lines whose first non-blank character is `#`
//! or `;` are comments. Keys match without regard to ASCII case and to
//! surrounding whitespace.

use vstd::prelude::*;
use crate::hex::push_char;
use crate::text::{
    chars_vec, eq_ignore_ascii_case, push_chars, slice_eq_ignore_ascii_case, trim, trim_bounds,
    trim_start,
};

verus! {

/// A line read before a `\n` loses one `\r` that ends it.
pub open spec fn strip_cr(line: Seq<char>) -> Seq<char> {
    if line.len() > 0 && line.last() == '\r' {
        line.drop_last()
    } else {
        line
    }
}

/// Reading `s` from the start: the lines ended by `\n` so far, and the
/// characters of the line in progress.
pub open spec fn scan_lines(s: Seq<char>) -> (Seq<Seq<char>>, Seq<char>)
    decreases s.len(),
{
    if s.len() == 0 {
        (Seq::empty(), Seq::empty())
    } else {
        let (done, cur) = scan_lines(s.drop_last());
        if s.last() == '\n' {
            (done.push(strip_cr(cur)), Seq::empty())
        } else {
            (done, cur.push(s.last()))
        }
    }
}

/// The lines of `s` as `str::lines` yields them: split at `\n` or `\r\n`,
/// the last line ending being optional.
pub open spec fn text_lines(s: Seq<char>) -> Seq<Seq<char>> {
    let (done, cur) = scan_lines(s);
    if cur.len() > 0 {
        done.push(cur)
    } else {
        done
    }
}

/// The index of the first `=` of a line.
pub open spec fn is_first_eq(line: Seq<char>, i: int) -> bool {
    0 <= i < line.len() && line[i] == '=' && forall|j: int| 0 <= j < i ==> line[j] != '='
}

pub open spec fn has_eq(line: Seq<char>) -> bool {
    exists|i: int| is_first_eq(line, i)
}

pub open spec fn eq_index(line: Seq<char>) -> int {
    choose|i: int| is_first_eq(line, i)
}

/// A comment line: its first non-blank character is `#` or `;`.
pub open spec fn is_comment(line: Seq<char>) -> bool {
    let t = trim_start(line);
    t.len() > 0 && (t[0] == '#' || t[0] == ';')
}

/// The part of a line before its first `=`, trimmed.
pub open spec fn line_key(line: Seq<char>) -> Seq<char> {
    trim(line.take(eq_index(line)))
}

/// The part of a line after its first `=`.
pub open spec fn line_value(line: Seq<char>) -> Seq<char> {
    line.skip(eq_index(line) + 1)
}

/// A line that sets `key`: not a comment, with an `=`, and whose trimmed
/// part before the first `=` equals `key` up to ASCII case.
pub open spec fn assigns_key(line: Seq<char>, key: Seq<char>) -> bool {
    !is_comment(line) && has_eq(line) && eq_ignore_ascii_case(line_key(line), key)
}

pub open spec fn is_first_assignment(lines: Seq<Seq<char>>, key: Seq<char>, i: int) -> bool {
    0 <= i < lines.len() && assigns_key(lines[i], key) && forall|j: int|
        0 <= j < i ==> !assigns_key(#[trigger] lines[j], key)
}

/// The index of the first line that sets `key`, if any.
pub open spec fn first_assignment(lines: Seq<Seq<char>>, key: Seq<char>) -> Option<int> {
    if exists|i: int| is_first_assignment(lines, key, i) {
        Some(choose|i: int| is_first_assignment(lines, key, i))
    } else {
        None
    }
}

/// The line `key=value`.
pub open spec fn assignment(key: Seq<char>, value: Seq<char>) -> Seq<char> {
    key + seq!['='] + value
}

/// The lines with the first line that sets `key` replaced by `key=value`,
/// or `key=value` appended where no line sets it.
pub open spec fn merged_lines(lines: Seq<Seq<char>>, key: Seq<char>, value: Seq<char>) -> Seq<Seq<char>> {
    match first_assignment(lines, key) {
        Some(i) => lines.update(i, assignment(key, value)),
        None => lines.push(assignment(key, value)),
    }
}

/// Lines written out, each followed by `\n`.
pub open spec fn env_text(lines: Seq<Seq<char>>) -> Seq<char>
    decreases lines.len(),
{
    if lines.len() == 0 {
        Seq::empty()
    } else {
        env_text(lines.drop_last()) + lines.last() + seq!['\n']
    }
}

/// `content` with `key` set to `value`: the first line that sets `key` is
/// replaced, or a line is appended; every other line is kept as read.
pub open spec fn with_env_var(content: Seq<char>, key: Seq<char>, value: Seq<char>) -> Seq<char> {
    env_text(merged_lines(text_lines(content), key, value))
}

/// Whether some line sets `ADMIN_API_TOKEN_HASH` to a value that is not
/// blank.
pub open spec fn sets_token_hash(content: Seq<char>) -> bool {
    exists|i: int|
        0 <= i < text_lines(content).len() && #[trigger] assigns_key(
            text_lines(content)[i],
            TOKEN_HASH_KEY@,
        ) && trim(line_value(text_lines(content)[i])).len() > 0
}

/// The setting that holds the bcrypt hash of the legacy admin token.
pub const TOKEN_HASH_KEY: &'static str = "ADMIN_API_TOKEN_HASH";

/// The setting that holds the JWT signing secret.
pub const JWT_SECRET_KEY: &'static str = "ADMIN_API_JWT_SECRET";

/// The line bounds of `cs`: for each line, the range of its characters.
fn line_bounds(cs: &Vec<char>) -> (b: Vec<(usize, usize)>)
    ensures
        b@.len() == text_lines(cs@).len(),
        forall|k: int|
            0 <= k < b@.len() ==> (#[trigger] b@[k]).0 <= b@[k].1 <= cs@.len() && text_lines(cs@)[k]
                == cs@.subrange(b@[k].0 as int, b@[k].1 as int),
{
    let ghost s = cs@;
    let n = cs.len();
    let mut b: Vec<(usize, usize)> = Vec::new();
    let mut start: usize = 0;
    let mut i: usize = 0;
    while i < n
        invariant
            n == s.len(),
            s == cs@,
            start <= i <= n,
            scan_lines(s.take(i as int)).0.len() == b@.len(),
            scan_lines(s.take(i as int)).1 == s.subrange(start as int, i as int),
            forall|k: int|
                0 <= k < b@.len() ==> (#[trigger] b@[k]).0 <= b@[k].1 <= n && scan_lines(
                    s.take(i as int),
                ).0[k] == s.subrange(b@[k].0 as int, b@[k].1 as int),
        decreases n - i,
    {
        let ghost prev = scan_lines(s.take(i as int));
        proof {
            assert(s.take(i + 1).drop_last() =~= s.take(i as int));
            assert(s.take(i + 1).last() == s[i as int]);
        }
        if cs[i] == '\n' {
            let mut end = i;
            if end > start && cs[end - 1] == '\r' {
                end = end - 1;
            }
            proof {
                assert(strip_cr(s.subrange(start as int, i as int)) =~= s.subrange(
                    start as int,
                    end as int,
                ));
            }
            b.push((start, end));
            start = i + 1;
        }
        i = i + 1;
        proof {
            assert(scan_lines(s.take(i as int)).1 =~= s.subrange(start as int, i as int));
        }
    }
    assert(s.take(n as int) =~= s);
    if start < n {
        b.push((start, n));
    }
    b
}

/// Finds the first `=` of `cs[from..to]`.
fn find_eq(cs: &Vec<char>, from: usize, to: usize) -> (r: Option<usize>)
    requires
        from <= to <= cs@.len(),
    ensures
        match r {
            Some(e) => from <= e < to && has_eq(cs@.subrange(from as int, to as int)) && eq_index(
                cs@.subrange(from as int, to as int),
            ) == e - from,
            None => !has_eq(cs@.subrange(from as int, to as int)),
        },
{
    let ghost line = cs@.subrange(from as int, to as int);
    let mut e = from;
    while e < to
        invariant
            from <= e <= to <= cs@.len(),
            line == cs@.subrange(from as int, to as int),
            forall|j: int| from <= j < e ==> cs@[j] != '=',
        decreases to - e,
    {
        if cs[e] == '=' {
            proof {
                assert(is_first_eq(line, e - from));
                let c = choose|c: int| is_first_eq(line, c);
                if c < e - from {
                    assert(line[c] == cs@[from + c]);
                } else if c > e - from {
                    assert(line[e - from] == '=');
                }
            }
            return Some(e);
        }
        e = e + 1;
    }
    proof {
        if has_eq(line) {
            let c = choose|c: int| is_first_eq(line, c);
            assert(line[c] == cs@[from + c]);
        }
    }
    None
}

/// Decides `assigns_key` on the line `cs[from..to]`, and gives the first
/// `=` where it holds.
fn line_assigns_key(cs: &Vec<char>, from: usize, to: usize, key: &Vec<char>) -> (r: Option<usize>)
    requires
        from <= to <= cs@.len(),
    ensures
        r is Some == assigns_key(cs@.subrange(from as int, to as int), key@),
        r matches Some(e) ==> from <= e < to && eq_index(cs@.subrange(from as int, to as int)) == e
            - from,
{
    let ghost line = cs@.subrange(from as int, to as int);
    let (ts, _te) = trim_bounds(cs, from, to);
    if ts < to && (cs[ts] == '#' || cs[ts] == ';') {
        assert(trim_start(line)[0] == cs@[ts as int]);
        return None;
    }
    proof {
        if ts < to {
            assert(trim_start(line)[0] == cs@[ts as int]);
        }
    }
    let e = match find_eq(cs, from, to) {
        Some(e) => e,
        None => {
            return None;
        },
    };
    let (ks, ke) = trim_bounds(cs, from, e);
    proof {
        assert(line.take(e - from) =~= cs@.subrange(from as int, e as int));
    }
    if slice_eq_ignore_ascii_case(cs, ks, ke, key) {
        Some(e)
    } else {
        None
    }
}

/// Appends `cs[from..to]` to `out`.
fn push_range(out: &mut String, cs: &Vec<char>, from: usize, to: usize)
    requires
        from <= to <= cs@.len(),
    ensures
        final(out)@ == old(out)@ + cs@.subrange(from as int, to as int),
{
    let ghost start = out@;
    let mut i = from;
    while i < to
        invariant
            from <= i <= to <= cs@.len(),
            out@ == start + cs@.subrange(from as int, i as int),
        decreases to - i,
    {
        push_char(out, cs[i]);
        i = i + 1;
        assert(out@ =~= start + cs@.subrange(from as int, i as int));
    }
}

proof fn lemma_env_text_push(lines: Seq<Seq<char>>, line: Seq<char>)
    ensures
        env_text(lines.push(line)) == env_text(lines) + line + seq!['\n'],
{
    assert(lines.push(line).drop_last() =~= lines);
}

/// Sets `key` to `value` in the text of an `.env` file: the first line that
/// sets `key` becomes `key=value`, or that line is appended; every other
/// line, comments included, is kept. Each line of the result ends with `\n`.
pub fn merge_env_var(existing: &str, key: &str, value: &str) -> (content: String)
    ensures
        content@ == with_env_var(existing@, key@, value@),
{
    let cs = chars_vec(existing);
    let key_chars = chars_vec(key);
    let value_chars = chars_vec(value);
    let bounds = line_bounds(&cs);
    let ghost lines = text_lines(cs@);
    let ghost kv = assignment(key@, value@);
    let ghost first = first_assignment(lines, key@);
    let mut out = String::new();
    let mut found = false;
    let mut k: usize = 0;
    proof {
        assert(out@ =~= env_text(lines.take(0)));
    }
    while k < bounds.len()
        invariant
            cs@ == existing@,
            key_chars@ == key@,
            value_chars@ == value@,
            lines == text_lines(cs@),
            kv == assignment(key@, value@),
            first == first_assignment(lines, key@),
            bounds@.len() == lines.len(),
            forall|t: int|
                0 <= t < bounds@.len() ==> (#[trigger] bounds@[t]).0 <= bounds@[t].1 <= cs@.len()
                    && lines[t] == cs@.subrange(bounds@[t].0 as int, bounds@[t].1 as int),
            k <= bounds@.len(),
            !found ==> forall|j: int| 0 <= j < k ==> !assigns_key(#[trigger] lines[j], key@),
            found ==> first is Some && first->0 < k,
            out@ == env_text(
                if found {
                    lines.update(first->0, kv).take(k as int)
                } else {
                    lines.take(k as int)
                },
            ),
        decreases bounds@.len() - k,
    {
        let (st, en) = bounds[k];
        let ghost before = if found {
            lines.update(first->0, kv).take(k as int)
        } else {
            lines.take(k as int)
        };
        let hit = if found {
            false
        } else {
            line_assigns_key(&cs, st, en, &key_chars).is_some()
        };
        if hit {
            proof {
                assert(is_first_assignment(lines, key@, k as int));
                let c = choose|c: int| is_first_assignment(lines, key@, c);
                if c < k {
                } else if c > k {
                    assert(!assigns_key(lines[k as int], key@));
                }
                assert(lines.update(k as int, kv).take(k as int) =~= lines.take(k as int));
            }
            push_chars(&mut out, &key_chars);
            push_char(&mut out, '=');
            push_chars(&mut out, &value_chars);
            push_char(&mut out, '\n');
            found = true;
            proof {
                assert(lines.update(k as int, kv).take(k + 1) =~= lines.take(k as int).push(kv));
                lemma_env_text_push(lines.take(k as int), kv);
                assert(out@ =~= env_text(lines.take(k as int)) + kv + seq!['\n']);
            }
        } else {
            push_range(&mut out, &cs, st, en);
            push_char(&mut out, '\n');
            proof {
                let after = if found {
                    lines.update(first->0, kv).take(k + 1)
                } else {
                    lines.take(k + 1)
                };
                if found {
                    assert(lines.update(first->0, kv)[k as int] == lines[k as int]);
                }
                assert(after =~= before.push(lines[k as int]));
                lemma_env_text_push(before, lines[k as int]);
                assert(out@ =~= env_text(before) + lines[k as int] + seq!['\n']);
            }
        }
        k = k + 1;
    }
    if !found {
        proof {
            if exists|i: int| is_first_assignment(lines, key@, i) {
                let c = choose|c: int| is_first_assignment(lines, key@, c);
                assert(!assigns_key(lines[c], key@));
            }
            assert(lines.take(lines.len() as int) =~= lines);
        }
        push_chars(&mut out, &key_chars);
        push_char(&mut out, '=');
        push_chars(&mut out, &value_chars);
        push_char(&mut out, '\n');
        proof {
            lemma_env_text_push(lines, kv);
            assert(out@ =~= env_text(lines) + kv + seq!['\n']);
        }
    } else {
        proof {
            assert(lines.update(first->0, kv).take(lines.len() as int) =~= lines.update(first->0, kv));
        }
    }
    out
}

/// Whether an `.env` text already holds a token hash: some line sets
/// `ADMIN_API_TOKEN_HASH` to a value that is not blank.
pub fn has_admin_token_hash(content: &str) -> (b: bool)
    ensures
        b == sets_token_hash(content@),
{
    let cs = chars_vec(content);
    let key_chars = chars_vec(TOKEN_HASH_KEY);
    let bounds = line_bounds(&cs);
    let ghost lines = text_lines(cs@);
    let mut k: usize = 0;
    while k < bounds.len()
        invariant
            cs@ == content@,
            key_chars@ == TOKEN_HASH_KEY@,
            lines == text_lines(cs@),
            bounds@.len() == lines.len(),
            forall|t: int|
                0 <= t < bounds@.len() ==> (#[trigger] bounds@[t]).0 <= bounds@[t].1 <= cs@.len()
                    && lines[t] == cs@.subrange(bounds@[t].0 as int, bounds@[t].1 as int),
            k <= bounds@.len(),
            forall|j: int|
                0 <= j < k ==> !(#[trigger] assigns_key(lines[j], TOKEN_HASH_KEY@) && trim(
                    line_value(lines[j]),
                ).len() > 0),
        decreases bounds@.len() - k,
    {
        let (st, en) = bounds[k];
        match line_assigns_key(&cs, st, en, &key_chars) {
            Some(e) => {
                let (vs, ve) = trim_bounds(&cs, e + 1, en);
                proof {
                    let line = lines[k as int];
                    assert(line_value(line) =~= cs@.subrange(e + 1, en as int));
                }
                if vs < ve {
                    return true;
                }
            },
            None => {},
        }
        k = k + 1;
    }
    false
}

/// One character read: `\n` ends the line in progress.
pub open spec fn scan_step(st: (Seq<Seq<char>>, Seq<char>), c: char) -> (Seq<Seq<char>>, Seq<char>) {
    if c == '\n' {
        (st.0.push(strip_cr(st.1)), Seq::empty())
    } else {
        (st.0, st.1.push(c))
    }
}

/// Reading `s` on from the state `st`.
pub open spec fn scan_from(st: (Seq<Seq<char>>, Seq<char>), s: Seq<char>) -> (Seq<Seq<char>>, Seq<char>)
    decreases s.len(),
{
    if s.len() == 0 {
        st
    } else {
        scan_step(scan_from(st, s.drop_last()), s.last())
    }
}

pub proof fn lemma_scan_lines_from(s: Seq<char>)
    ensures
        scan_lines(s) == scan_from((Seq::<Seq<char>>::empty(), Seq::<char>::empty()), s),
    decreases s.len(),
{
    if s.len() > 0 {
        lemma_scan_lines_from(s.drop_last());
    }
}

pub proof fn lemma_scan_from_append(st: (Seq<Seq<char>>, Seq<char>), a: Seq<char>, b: Seq<char>)
    ensures
        scan_from(st, a + b) == scan_from(scan_from(st, a), b),
    decreases b.len(),
{
    if b.len() == 0 {
        assert(a + b =~= a);
    } else {
        assert((a + b).drop_last() =~= a + b.drop_last());
        assert((a + b).last() == b.last());
        lemma_scan_from_append(st, a, b.drop_last());
    }
}

pub proof fn lemma_scan_line_body(done: Seq<Seq<char>>, l: Seq<char>)
    requires
        !l.contains('\n'),
    ensures
        scan_from((done, Seq::<char>::empty()), l) == (done, l),
    decreases l.len(),
{
    if l.len() > 0 {
        assert(!l.drop_last().contains('\n')) by {
            if l.drop_last().contains('\n') {
                let i = choose|i: int| 0 <= i < l.drop_last().len() && l.drop_last()[i] == '\n';
                assert(l[i] == '\n');
            }
        }
        lemma_scan_line_body(done, l.drop_last());
        assert(l[l.len() - 1] != '\n');
        assert(l.drop_last().push(l.last()) =~= l);
    }
}

/// Written lines that hold no `\n` are read back as written, each losing
/// one `\r` that ends it.
pub proof fn lemma_read_written_lines(ls: Seq<Seq<char>>)
    requires
        forall|i: int| 0 <= i < ls.len() ==> !(#[trigger] ls[i]).contains('\n'),
    ensures
        scan_lines(env_text(ls)) == (ls.map_values(|l: Seq<char>| strip_cr(l)), Seq::<char>::empty()),
        text_lines(env_text(ls)) == ls.map_values(|l: Seq<char>| strip_cr(l)),
    decreases ls.len(),
{
    let init = (Seq::<Seq<char>>::empty(), Seq::<char>::empty());
    if ls.len() == 0 {
        assert(ls.map_values(|l: Seq<char>| strip_cr(l)) =~= Seq::<Seq<char>>::empty());
    } else {
        let front = ls.drop_last();
        let l = ls.last();
        assert forall|i: int| 0 <= i < front.len() implies !(#[trigger] front[i]).contains('\n') by {
            assert(front[i] == ls[i]);
        }
        lemma_read_written_lines(front);
        let t = env_text(front);
        lemma_scan_lines_from(t);
        lemma_scan_lines_from(env_text(ls));
        lemma_scan_from_append(init, t + l, seq!['\n']);
        lemma_scan_from_append(init, t, l);
        assert(!l.contains('\n')) by {
            assert(l == ls[ls.len() - 1]);
        }
        let d = front.map_values(|l: Seq<char>| strip_cr(l));
        lemma_scan_line_body(d, l);
        assert(env_text(ls) == t + l + seq!['\n']);
        assert(scan_from(init, t) == (d, Seq::<char>::empty()));
        assert(scan_from(init, t + l) == (d, l));
        let nl = seq!['\n'];
        assert(nl.len() == 1);
        assert(nl.last() == '\n');
        assert(nl.drop_last() =~= Seq::<char>::empty());
        assert(scan_from((d, l), nl.drop_last()) == (d, l));
        assert(scan_from((d, l), seq!['\n']) == scan_step((d, l), '\n'));
        assert(scan_lines(env_text(ls)) == (d.push(strip_cr(l)), Seq::<char>::empty()));
        assert(ls.map_values(|l: Seq<char>| strip_cr(l)) =~= d.push(strip_cr(l)));
    }
}

/// No line read from a text holds a `\n`.
pub proof fn lemma_read_lines_have_no_newline(s: Seq<char>)
    ensures
        forall|i: int| 0 <= i < scan_lines(s).0.len() ==> !(#[trigger] scan_lines(s).0[i]).contains('\n'),
        !scan_lines(s).1.contains('\n'),
        forall|i: int| 0 <= i < text_lines(s).len() ==> !(#[trigger] text_lines(s)[i]).contains('\n'),
    decreases s.len(),
{
    if s.len() > 0 {
        lemma_read_lines_have_no_newline(s.drop_last());
        let (done, cur) = scan_lines(s.drop_last());
        if s.last() == '\n' {
            assert(!strip_cr(cur).contains('\n')) by {
                if strip_cr(cur).contains('\n') {
                    let i = choose|i: int| 0 <= i < strip_cr(cur).len() && strip_cr(cur)[i] == '\n';
                    assert(cur[i] == '\n');
                }
            }
            assert forall|i: int| 0 <= i < scan_lines(s).0.len() implies !(#[trigger] scan_lines(s).0[i]).contains('\n') by {
                if i < done.len() {
                    assert(scan_lines(s).0[i] == done[i]);
                }
            }
            assert(scan_lines(s).1 =~= Seq::<char>::empty());
        } else {
            assert(!cur.push(s.last()).contains('\n')) by {
                if cur.push(s.last()).contains('\n') {
                    let i = choose|i: int| 0 <= i < cur.push(s.last()).len() && cur.push(s.last())[i] == '\n';
                    if i < cur.len() {
                        assert(cur[i] == '\n');
                    }
                }
            }
        }
    }
    let (done, cur) = scan_lines(s);
    assert forall|i: int| 0 <= i < text_lines(s).len() implies !(#[trigger] text_lines(s)[i]).contains('\n') by {
        if i < done.len() {
            assert(text_lines(s)[i] == done[i]);
        }
    }
}

} // verus!
