//! Character-level helpers over strings: whitespace, ASCII case folding,
//! trimming, and conversions between strings and character vectors.

use vstd::prelude::*;
use crate::hex::push_char;

verus! {

/// The characters of `s`, in order.
pub fn chars_vec(s: &str) -> (v: Vec<char>)
    ensures
        v@ == s@,
{
    let mut v: Vec<char> = Vec::new();
    for c in it: s.chars()
        invariant
            it.seq() == s@,
            v@ == it.seq().take(it.index() as int),
    {
        v.push(c);
        assert(v@ =~= it.seq().take(it.index() + 1));
    }
    assert(v@ =~= s@);
    v
}

/// Appends the characters of `v` to `s`.
pub fn push_chars(s: &mut String, v: &Vec<char>)
    ensures
        final(s)@ == old(s)@ + v@,
{
    let ghost start = s@;
    let mut i: usize = 0;
    while i < v.len()
        invariant
            i <= v@.len(),
            s@ == start + v@.subrange(0, i as int),
        decreases v@.len() - i,
    {
        push_char(s, v[i]);
        i = i + 1;
        assert(s@ =~= start + v@.subrange(0, i as int));
    }
    assert(v@.subrange(0, v@.len() as int) =~= v@);
}

/// The characters with the Unicode `White_Space` property, which
/// `char::is_whitespace` recognizes.
pub open spec fn is_ws(c: char) -> bool {
    let n = c as u32;
    (9 <= n <= 13) || n == 32 || n == 0x85 || n == 0xA0 || n == 0x1680 || (0x2000 <= n <= 0x200A)
        || n == 0x2028 || n == 0x2029 || n == 0x202F || n == 0x205F || n == 0x3000
}

pub fn is_whitespace(c: char) -> (b: bool)
    ensures
        b == is_ws(c),
{
    let n = c as u32;
    (9 <= n && n <= 13) || n == 32 || n == 0x85 || n == 0xA0 || n == 0x1680 || (0x2000 <= n && n
        <= 0x200A) || n == 0x2028 || n == 0x2029 || n == 0x202F || n == 0x205F || n == 0x3000
}

/// ASCII lowercase of a character; other characters are unchanged.
pub open spec fn ascii_lower(c: char) -> char {
    if 'A' <= c <= 'Z' {
        ((c as u32) + 32) as char
    } else {
        c
    }
}

/// Equality up to ASCII case, as `str::eq_ignore_ascii_case` decides it.
pub open spec fn eq_ignore_ascii_case(a: Seq<char>, b: Seq<char>) -> bool {
    a.len() == b.len() && forall|i: int| 0 <= i < a.len() ==> ascii_lower(#[trigger] a[i]) == ascii_lower(b[i])
}

fn lower_char(c: char) -> (r: char)
    ensures
        r == ascii_lower(c),
{
    if 'A' <= c && c <= 'Z' {
        ((c as u32) + 32) as u8 as char
    } else {
        c
    }
}

/// Decides `eq_ignore_ascii_case` on `a[from..to]` against all of `b`.
pub fn slice_eq_ignore_ascii_case(a: &Vec<char>, from: usize, to: usize, b: &Vec<char>) -> (r: bool)
    requires
        from <= to <= a@.len(),
    ensures
        r == eq_ignore_ascii_case(a@.subrange(from as int, to as int), b@),
{
    if to - from != b.len() {
        return false;
    }
    let mut i: usize = 0;
    while i < b.len()
        invariant
            from <= to <= a@.len(),
            to - from == b@.len(),
            i <= b@.len(),
            forall|j: int| 0 <= j < i ==> ascii_lower(a@[from + j]) == ascii_lower(b@[j]),
        decreases b@.len() - i,
    {
        if lower_char(a[from + i]) != lower_char(b[i]) {
            assert(a@.subrange(from as int, to as int)[i as int] == a@[from + i]);
            return false;
        }
        i = i + 1;
    }
    true
}

/// Number of leading whitespace characters of `s`.
pub open spec fn leading_ws(s: Seq<char>) -> nat
    decreases s.len(),
{
    if s.len() > 0 && is_ws(s[0]) {
        1 + leading_ws(s.drop_first())
    } else {
        0
    }
}

/// Number of trailing whitespace characters of `s`.
pub open spec fn trailing_ws(s: Seq<char>) -> nat
    decreases s.len(),
{
    if s.len() > 0 && is_ws(s.last()) {
        1 + trailing_ws(s.drop_last())
    } else {
        0
    }
}

/// `s` without leading whitespace (`str::trim_start`).
pub open spec fn trim_start(s: Seq<char>) -> Seq<char> {
    s.skip(leading_ws(s) as int)
}

/// `s` without leading or trailing whitespace (`str::trim`).
pub open spec fn trim(s: Seq<char>) -> Seq<char> {
    let t = trim_start(s);
    t.take(t.len() - trailing_ws(t))
}

pub proof fn lemma_leading_ws(s: Seq<char>)
    ensures
        leading_ws(s) <= s.len(),
        forall|i: int| 0 <= i < leading_ws(s) ==> is_ws(#[trigger] s[i]),
        leading_ws(s) < s.len() ==> !is_ws(s[leading_ws(s) as int]),
    decreases s.len(),
{
    if s.len() > 0 && is_ws(s[0]) {
        lemma_leading_ws(s.drop_first());
        assert forall|i: int| 0 <= i < leading_ws(s) implies is_ws(#[trigger] s[i]) by {
            if i > 0 {
                assert(s[i] == s.drop_first()[i - 1]);
            }
        }
    }
}

/// Characterizes the number of leading whitespace characters.
pub proof fn lemma_leading_ws_is(s: Seq<char>, n: int)
    requires
        0 <= n <= s.len(),
        forall|i: int| 0 <= i < n ==> is_ws(#[trigger] s[i]),
        n < s.len() ==> !is_ws(s[n]),
    ensures
        leading_ws(s) == n,
    decreases n,
{
    if n > 0 {
        assert(is_ws(s[0]));
        assert forall|i: int| 0 <= i < n - 1 implies is_ws(#[trigger] s.drop_first()[i]) by {
            assert(s.drop_first()[i] == s[i + 1]);
        }
        if n - 1 < s.drop_first().len() {
            assert(s.drop_first()[n - 1] == s[n]);
        }
        lemma_leading_ws_is(s.drop_first(), n - 1);
    } else {
        lemma_leading_ws(s);
        if s.len() > 0 {
            assert(!is_ws(s[0]));
        }
    }
}

/// Characterizes the number of trailing whitespace characters.
pub proof fn lemma_trailing_ws_is(s: Seq<char>, n: int)
    requires
        0 <= n <= s.len(),
        forall|i: int| s.len() - n <= i < s.len() ==> is_ws(#[trigger] s[i]),
        n < s.len() ==> !is_ws(s[s.len() - n - 1]),
    ensures
        trailing_ws(s) == n,
    decreases n,
{
    if n > 0 {
        assert(is_ws(s.last()));
        assert forall|i: int| s.drop_last().len() - (n - 1) <= i < s.drop_last().len() implies is_ws(
            #[trigger] s.drop_last()[i],
        ) by {
            assert(s.drop_last()[i] == s[i]);
        }
        if n - 1 < s.drop_last().len() {
            assert(s.drop_last()[s.drop_last().len() - (n - 1) - 1] == s[s.len() - n - 1]);
        }
        lemma_trailing_ws_is(s.drop_last(), n - 1);
    } else {
        if s.len() > 0 {
            assert(!is_ws(s.last()));
        }
    }
}

/// The bounds `[start, end)` within `a[from..to]` of its trimmed part:
/// `trim(a[from..to]) == a[start..end]`.
pub fn trim_bounds(a: &Vec<char>, from: usize, to: usize) -> (r: (usize, usize))
    requires
        from <= to <= a@.len(),
    ensures
        from <= r.0 <= r.1 <= to,
        trim(a@.subrange(from as int, to as int)) == a@.subrange(r.0 as int, r.1 as int),
        trim_start(a@.subrange(from as int, to as int)) == a@.subrange(r.0 as int, to as int),
{
    let ghost s = a@.subrange(from as int, to as int);
    let mut start = from;
    while start < to && is_whitespace(a[start])
        invariant
            from <= start <= to <= a@.len(),
            forall|i: int| from <= i < start ==> is_ws(#[trigger] a@[i]),
        decreases to - start,
    {
        start = start + 1;
    }
    proof {
        assert forall|i: int| 0 <= i < start - from implies is_ws(#[trigger] s[i]) by {
            assert(s[i] == a@[from + i]);
        }
        if start < to {
            assert(s[start - from] == a@[start as int]);
        }
        lemma_leading_ws_is(s, start - from);
        assert(trim_start(s) =~= a@.subrange(start as int, to as int));
    }
    let ghost t = a@.subrange(start as int, to as int);
    let mut end = to;
    while end > start && is_whitespace(a[end - 1])
        invariant
            from <= start <= end <= to <= a@.len(),
            forall|i: int| end <= i < to ==> is_ws(#[trigger] a@[i]),
        decreases end - start,
    {
        end = end - 1;
    }
    proof {
        assert forall|i: int| t.len() - (to - end) <= i < t.len() implies is_ws(#[trigger] t[i]) by {
            assert(t[i] == a@[start + i]);
        }
        if to - end < t.len() {
            assert(t[t.len() - (to - end) - 1] == a@[end - 1]);
        }
        lemma_trailing_ws_is(t, to - end);
        assert(trim(s) =~= a@.subrange(start as int, end as int));
    }
    (start, end)
}

} // verus!
