//! Character-level helpers over the patch buffer.
use vstd::prelude::*;

verus! {

/// Relies on String::push: the character is appended at the end.
#[verifier::external_body]
fn push_char(s: &mut String, c: char)
    ensures
        final(s)@ == old(s)@.push(c),
{
    s.push(c)
}

/// The characters of `s`, in order.
pub fn chars_of(s: &str) -> (r: Vec<char>)
    ensures
        r@ == s@,
{
    let mut r: Vec<char> = Vec::new();
    for c in it: s.chars()
        invariant
            r@ == it.seq().take(it.index() as int),
    {
        r.push(c);
    }
    r
}

/// The string made of the characters `t[start..end]`.
pub fn string_of(t: &[char], start: usize, end: usize) -> (r: String)
    requires
        start <= end <= t@.len(),
    ensures
        r@ == t@.subrange(start as int, end as int),
{
    let mut r = String::new();
    let mut i: usize = start;
    while i < end
        invariant
            start <= i <= end <= t@.len(),
            r@ == t@.subrange(start as int, i as int),
        decreases end - i,
    {
        push_char(&mut r, t[i]);
        i = i + 1;
        assert(r@ =~= t@.subrange(start as int, i as int));
    }
    r
}

/// The position of the first line feed at or after `p`, or the length of `t`.
pub open spec fn line_end(t: Seq<char>, p: int) -> int
    decreases t.len() - p,
{
    if p >= t.len() {
        t.len() as int
    } else if p < 0 || t[p] == '\n' {
        p
    } else {
        line_end(t, p + 1)
    }
}

pub proof fn lemma_line_end_bounds(t: Seq<char>, p: int)
    requires
        0 <= p,
    ensures
        p <= line_end(t, p) || p > t.len(),
        line_end(t, p) <= t.len(),
        forall|k: int| p <= k < line_end(t, p) ==> t[k] != '\n',
        line_end(t, p) < t.len() ==> t[line_end(t, p)] == '\n',
    decreases t.len() - p,
{
    if p < t.len() && t[p] != '\n' {
        lemma_line_end_bounds(t, p + 1);
    }
}

/// Computes `line_end(t, p)`.
pub fn find_line_end(t: &[char], p: usize) -> (r: usize)
    requires
        p <= t@.len(),
    ensures
        r as int == line_end(t@, p as int),
        p <= r <= t@.len(),
{
    let mut i: usize = p;
    while i < t.len() && t[i] != '\n'
        invariant
            p <= i <= t@.len(),
            line_end(t@, i as int) == line_end(t@, p as int),
        decreases t@.len() - i,
    {
        i = i + 1;
    }
    i
}

/// Whitespace that trimming removes from either end of a field: the characters
/// with the Unicode White_Space property.
pub open spec fn is_space(c: char) -> bool {
    ||| ('\u{9}' <= c && c <= '\u{d}')
    ||| c == ' '
    ||| c == '\u{85}'
    ||| c == '\u{a0}'
    ||| c == '\u{1680}'
    ||| ('\u{2000}' <= c && c <= '\u{200a}')
    ||| c == '\u{2028}'
    ||| c == '\u{2029}'
    ||| c == '\u{202f}'
    ||| c == '\u{205f}'
    ||| c == '\u{3000}'
}

fn space(c: char) -> (r: bool)
    ensures
        r == is_space(c),
{
    ('\u{9}' <= c && c <= '\u{d}') || c == ' ' || c == '\u{85}' || c == '\u{a0}' || c
        == '\u{1680}' || ('\u{2000}' <= c && c <= '\u{200a}') || c == '\u{2028}' || c
        == '\u{2029}' || c == '\u{202f}' || c == '\u{205f}' || c == '\u{3000}'
}

/// `s` without its leading whitespace.
pub open spec fn trim_start(s: Seq<char>) -> Seq<char>
    decreases s.len(),
{
    if s.len() > 0 && is_space(s[0]) {
        trim_start(s.drop_first())
    } else {
        s
    }
}

/// `s` without its trailing whitespace.
pub open spec fn trim_end(s: Seq<char>) -> Seq<char>
    decreases s.len(),
{
    if s.len() > 0 && is_space(s.last()) {
        trim_end(s.drop_last())
    } else {
        s
    }
}

/// `s` without whitespace at either end.
pub open spec fn trim(s: Seq<char>) -> Seq<char> {
    trim_end(trim_start(s))
}

/// The bounds of `trim(t[start..end])` within `t`.
pub fn trim_span(t: &[char], start: usize, end: usize) -> (r: (usize, usize))
    requires
        start <= end <= t@.len(),
    ensures
        start <= r.0 <= r.1 <= end,
        t@.subrange(r.0 as int, r.1 as int) == trim(t@.subrange(start as int, end as int)),
{
    let mut a: usize = start;
    while a < end && space(t[a])
        invariant
            start <= a <= end <= t@.len(),
            trim_start(t@.subrange(a as int, end as int)) == trim_start(
                t@.subrange(start as int, end as int),
            ),
        decreases end - a,
    {
        assert(t@.subrange(a as int, end as int).drop_first() =~= t@.subrange(
            a + 1,
            end as int,
        ));
        a = a + 1;
    }
    let mut b: usize = end;
    while b > a && space(t[b - 1])
        invariant
            start <= a <= b <= end <= t@.len(),
            trim_end(t@.subrange(a as int, b as int)) == trim(t@.subrange(start as int, end as int)),
        decreases b - a,
    {
        assert(t@.subrange(a as int, b as int).drop_last() =~= t@.subrange(
            a as int,
            b - 1,
        ));
        b = b - 1;
    }
    (a, b)
}

/// Whether `t` holds the characters of `w` from position `p` on.
pub open spec fn word_at(t: Seq<char>, p: int, w: Seq<char>) -> bool {
    0 <= p && p + w.len() <= t.len() && t.subrange(p, p + w.len()) == w
}

/// Computes `word_at(t, p, w)`.
pub fn has_word_at(t: &[char], p: usize, w: &str) -> (r: bool)
    ensures
        r == word_at(t@, p as int, w@),
{
    let wc = chars_of(w);
    if p > t.len() || wc.len() > t.len() - p {
        return false;
    }
    let mut i: usize = 0;
    while i < wc.len()
        invariant
            p + wc@.len() <= t@.len(),
            t@.len() <= usize::MAX,
            0 <= i <= wc@.len(),
            wc@ == w@,
            forall|k: int| 0 <= k < i ==> t@[p + k] == wc@[k],
        decreases wc@.len() - i,
    {
        if t[p + i] != wc[i] {
            assert(t@.subrange(p as int, p + wc@.len())[i as int] != w@[i as int]);
            return false;
        }
        i = i + 1;
    }
    assert(t@.subrange(p as int, p + w@.len()) =~= w@);
    true
}

} // verus!
