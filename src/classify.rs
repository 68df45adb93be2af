//! Classification of single patch lines into events.
use vstd::prelude::*;
use crate::text::{
    chars_of, find_line_end, has_word_at, lemma_line_end_bounds, line_end, string_of, trim,
    trim_span, word_at,
};

verus! {

/// A file-diff marker: the paths before and after the change.
pub struct Diff {
    pub left_path: String,
    pub right_path: String,
}

/// What one line of patch text stands for.
pub enum Event {
    Commit(String),
    Diff(Diff),
    Addition(String),
    Deletion(String),
}

/// The mathematical form of an [`Event`].
pub enum EventView {
    Commit(Seq<char>),
    Diff(Seq<char>, Seq<char>),
    Addition(Seq<char>),
    Deletion(Seq<char>),
}

impl View for Event {
    type V = EventView;

    open spec fn view(&self) -> EventView {
        match self {
            Event::Commit(h) => EventView::Commit(h@),
            Event::Diff(d) => EventView::Diff(d.left_path@, d.right_path@),
            Event::Addition(s) => EventView::Addition(s@),
            Event::Deletion(s) => EventView::Deletion(s@),
        }
    }
}

/// The mathematical form of an optional [`Event`].
pub open spec fn opt_event_view(e: Option<Event>) -> Option<EventView> {
    match e {
        Some(ev) => Some(ev@),
        None => None,
    }
}

/// A character that may stand in a commit hash.
pub open spec fn is_hash_char(c: char) -> bool {
    ('0' <= c && c <= '9') || ('a' <= c && c <= 'f') || ('A' <= c && c <= 'F')
}

fn hash_char(c: char) -> (r: bool)
    ensures
        r == is_hash_char(c),
{
    ('0' <= c && c <= '9') || ('a' <= c && c <= 'f') || ('A' <= c && c <= 'F')
}

/// `From ` followed by a 40-character hash starts at `p`.
pub open spec fn hash_at(t: Seq<char>, p: int) -> bool {
    &&& 0 <= p
    &&& p + 45 <= t.len()
    &&& word_at(t, p, "From "@)
    &&& forall|k: int| p + 5 <= k < p + 45 ==> is_hash_char(#[trigger] t[k])
}

/// Computes `hash_at(t, p)`.
pub fn has_hash_at(t: &[char], p: usize) -> (r: bool)
    ensures
        r == hash_at(t@, p as int),
{
    if p > t.len() || t.len() - p < 45 || !has_word_at(t, p, "From ") {
        return false;
    }
    let end: usize = p + 45;
    let mut k: usize = p + 5;
    while k < end
        invariant
            end == p + 45,
            p + 45 <= t@.len(),
            p + 5 <= k <= p + 45,
            forall|j: int| p + 5 <= j < k ==> is_hash_char(#[trigger] t@[j]),
        decreases p + 45 - k,
    {
        if !hash_char(t[k]) {
            return false;
        }
        k = k + 1;
    }
    true
}

/// The position of the last ` b/` in `t[i + 14 .. e - 1]` that leaves both paths
/// of the marker starting at `i` non-empty, searching down from `p`; -1 if none.
pub open spec fn sep_from(t: Seq<char>, i: int, p: int) -> int
    decreases p - i,
{
    if p < i + 14 {
        -1
    } else if word_at(t, p, " b/"@) {
        p
    } else {
        sep_from(t, i, p - 1)
    }
}

/// The separator of the marker `diff --git a/<left> b/<right>` that starts at `i`
/// and runs to `e`: the last ` b/` with a non-empty path on each side.
pub open spec fn diff_sep(t: Seq<char>, i: int, e: int) -> int {
    if word_at(t, i, "diff --git a/"@) {
        sep_from(t, i, e - 4)
    } else {
        -1
    }
}

/// Computes `diff_sep(t, i, e)`, or `None` where it is -1.
pub fn find_diff_sep(t: &[char], i: usize, e: usize) -> (r: Option<usize>)
    requires
        i <= e <= t@.len(),
    ensures
        match r {
            Some(p) => p as int == diff_sep(t@, i as int, e as int) && p >= 0,
            None => diff_sep(t@, i as int, e as int) == -1,
        },
        r is Some ==> i + 14 <= r->0 && r->0 + 4 <= e,
{
    if !has_word_at(t, i, "diff --git a/") || e - i < 18 {
        proof {
            if word_at(t@, i as int, "diff --git a/"@) {
                assert(sep_from(t@, i as int, e - 4) == -1);
            }
        }
        return None;
    }
    let mut p: usize = e - 4;
    while p >= i + 14
        invariant
            i + 14 <= e - 4,
            i + 13 <= p <= e - 4,
            e <= t@.len(),
            word_at(t@, i as int, "diff --git a/"@),
            sep_from(t@, i as int, p as int) == sep_from(t@, i as int, e - 4),
        decreases p,
    {
        if has_word_at(t, p, " b/") {
            return Some(p);
        }
        p = p - 1;
    }
    None
}

/// The event that a line stands for, if any.
pub open spec fn classify(line: Seq<char>) -> Option<EventView> {
    if line.len() <= 1 {
        None
    } else if line[0] == '+' && !word_at(line, 0, "+++"@) {
        Some(EventView::Addition(line.drop_first()))
    } else if line[0] == '-' && !word_at(line, 0, "---"@) {
        Some(EventView::Deletion(line.drop_first()))
    } else if diff_sep(line, 0, line.len() as int) >= 0 {
        let p = diff_sep(line, 0, line.len() as int);
        Some(EventView::Diff(trim(line.subrange(13, p)), trim(line.subrange(p + 3, line.len() as int))))
    } else if hash_at(line, 0) {
        Some(EventView::Commit(line.subrange(5, 45)))
    } else {
        None
    }
}

/// A unified-diff file header line, one that starts with `+++` or `---`, never
/// stands for an added or a deleted line.
pub proof fn lemma_file_header_lines(line: Seq<char>)
    requires
        word_at(line, 0, "+++"@) || word_at(line, 0, "---"@),
    ensures
        !(classify(line) matches Some(EventView::Addition(_))),
        !(classify(line) matches Some(EventView::Deletion(_))),
{
    reveal_strlit("+++");
    reveal_strlit("---");
    assert(line.subrange(0, 3)[0] == line[0]);
}

/// Classifies one line (without its line feed).
pub fn classify_line(line: &[char]) -> (r: Option<Event>)
    ensures
        opt_event_view(r) == classify(line@),
{
    let n = line.len();
    if n <= 1 {
        return None;
    }
    if line[0] == '+' && !has_word_at(line, 0, "+++") {
        let s = string_of(line, 1, n);
        assert(line@.subrange(1, n as int) =~= line@.drop_first());
        return Some(Event::Addition(s));
    }
    if line[0] == '-' && !has_word_at(line, 0, "---") {
        let s = string_of(line, 1, n);
        assert(line@.subrange(1, n as int) =~= line@.drop_first());
        return Some(Event::Deletion(s));
    }
    match find_diff_sep(line, 0, n) {
        Some(p) => {
            let (la, lb) = trim_span(line, 13, p);
            let (ra, rb) = trim_span(line, p + 3, n);
            let d = Diff { left_path: string_of(line, la, lb), right_path: string_of(line, ra, rb) };
            return Some(Event::Diff(d));
        },
        None => {},
    }
    if has_hash_at(line, 0) {
        return Some(Event::Commit(string_of(line, 5, 45)));
    }
    None
}

/// Classifies one line given as a string slice.
pub fn classify_str(line: &str) -> (r: Option<Event>)
    ensures
        opt_event_view(r) == classify(line@),
{
    let cs = chars_of(line);
    classify_line(cs.as_slice())
}

/// A line without the carriage return that ends it, where a line feed follows
/// (`followed`); a carriage return at the very end of the text stays.
pub open spec fn strip_cr(l: Seq<char>, followed: bool) -> Seq<char> {
    if followed && l.len() > 0 && l.last() == '\r' {
        l.drop_last()
    } else {
        l
    }
}

/// The events of the lines of `r` from position `p` on; lines are split at line
/// feeds or at a carriage return and line feed, and a final line feed starts no
/// further line.
pub open spec fn line_events(r: Seq<char>, p: int) -> Seq<EventView>
    decreases r.len() + 1 - p,
{
    let e = line_end(r, p);
    if 0 <= p < r.len() && p <= e <= r.len() {
        let head = match classify(strip_cr(r.subrange(p, e), e < r.len())) {
            Some(ev) => seq![ev],
            None => seq![],
        };
        head + line_events(r, e + 1)
    } else {
        seq![]
    }
}

/// The events of the lines of `r`.
pub open spec fn region_events(r: Seq<char>) -> Seq<EventView> {
    line_events(r, 0)
}

/// Every added or deleted line of `evs` is non-empty, and no added line starts
/// with `++` nor any deleted line with `--`: file header lines give no change.
pub open spec fn change_lines_ok(evs: Seq<EventView>) -> bool {
    forall|i: int|
        0 <= i < evs.len() ==> match #[trigger] evs[i] {
            EventView::Addition(l) => l.len() > 0 && !word_at(l, 0, "++"@),
            EventView::Deletion(l) => l.len() > 0 && !word_at(l, 0, "--"@),
            _ => true,
        }
}

proof fn lemma_classify_change(line: Seq<char>)
    ensures
        change_lines_ok(
            match classify(line) {
                Some(ev) => seq![ev],
                None => seq![],
            },
        ),
{
    reveal_strlit("+++");
    reveal_strlit("---");
    reveal_strlit("++");
    reveal_strlit("--");
    if line.len() > 1 {
        let l = line.drop_first();
        if word_at(l, 0, "++"@) {
            assert(l.subrange(0, 2)[0] == l[0] && l.subrange(0, 2)[1] == l[1]);
            if line[0] == '+' {
                assert(line.subrange(0, 3) =~= "+++"@);
            }
        }
        if word_at(l, 0, "--"@) {
            assert(l.subrange(0, 2)[0] == l[0] && l.subrange(0, 2)[1] == l[1]);
            if line[0] == '-' {
                assert(line.subrange(0, 3) =~= "---"@);
            }
        }
    }
}

/// The lines of any text give only well-formed changes.
pub proof fn lemma_line_events_ok(r: Seq<char>, p: int)
    ensures
        change_lines_ok(line_events(r, p)),
    decreases r.len() + 1 - p,
{
    let e = line_end(r, p);
    if 0 <= p < r.len() && p <= e <= r.len() {
        let line = strip_cr(r.subrange(p, e), e < r.len());
        let head = match classify(line) {
            Some(ev) => seq![ev],
            None => seq![],
        };
        lemma_classify_change(line);
        lemma_line_events_ok(r, e + 1);
        let rest = line_events(r, e + 1);
        assert(line_events(r, p) == head + rest);
        assert forall|i: int| 0 <= i < (head + rest).len() implies #[trigger] (head + rest)[i] == (
        if i < head.len() {
            head[i]
        } else {
            rest[i - head.len()]
        }) by {}
    }
}

/// The mathematical form of a sequence of events.
pub open spec fn events_view(evs: Seq<Event>) -> Seq<EventView> {
    evs.map_values(|e: Event| e@)
}

/// Classifies each line of `r`, in order, keeping the lines that stand for an event.
pub fn events_of(r: &[char]) -> (evs: Vec<Event>)
    ensures
        events_view(evs@) == region_events(r@),
{
    let mut evs: Vec<Event> = Vec::new();
    let mut p: usize = 0;
    while p < r.len()
        invariant
            p <= r@.len(),
            events_view(evs@) + line_events(r@, p as int) == region_events(r@),
        decreases r@.len() - p,
    {
        let e = find_line_end(r, p);
        let stop: usize = if e < r.len() && e > p && r[e - 1] == '\r' {
            e - 1
        } else {
            e
        };
        let line = vstd::slice::slice_subrange(r, p, stop);
        proof {
            lemma_line_end_bounds(r@, p as int);
            let l = r@.subrange(p as int, e as int);
            if e < r@.len() && e > p && r@[e - 1] == '\r' {
                assert(l.drop_last() =~= line@);
            } else {
                assert(l =~= line@);
            }
        }
        let ev = classify_line(line);
        let ghost before = evs@;
        match ev {
            Some(x) => {
                evs.push(x);
            },
            None => {},
        }
        proof {
            let head = match classify(line@) {
                Some(v) => seq![v],
                None => seq![],
            };
            assert(events_view(evs@) =~= events_view(before) + head);
            assert(events_view(before) + head + line_events(r@, e + 1) =~= events_view(before) + (
            head + line_events(r@, e + 1)));
        }
        p = if e < r.len() {
            e + 1
        } else {
            e
        };
    }
    assert(events_view(evs@) + line_events(r@, p as int) =~= events_view(evs@));
    evs
}

} // verus!
