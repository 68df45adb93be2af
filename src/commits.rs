//! The commit segmenter: splits a patch stream into commits, each with its header.
use vstd::prelude::*;
use crate::changeset::{Header, HeaderView};
use crate::classify::{has_hash_at, hash_at};
use crate::text::{
    find_line_end, has_word_at, lemma_line_end_bounds, line_end, string_of, trim, trim_span,
    word_at,
};

verus! {

/// A commit marker starts at `i`: `From <hash>` and the rest of that line, then a
/// `From: <author>` line and a `Date: <date>` line, author and date not empty.
pub open spec fn commit_at(t: Seq<char>, i: int) -> bool {
    let e1 = line_end(t, i);
    let e2 = line_end(t, e1 + 7);
    let e3 = line_end(t, e2 + 7);
    &&& hash_at(t, i)
    &&& e1 < t.len() && word_at(t, e1 + 1, "From: "@)
    &&& e1 + 7 < e2 < t.len() && word_at(t, e2 + 1, "Date: "@)
    &&& e2 + 7 < e3
}

/// Where the commit marker starting at `i` ends: the end of its date line.
pub open spec fn commit_end(t: Seq<char>, i: int) -> int {
    line_end(t, line_end(t, line_end(t, i) + 7) + 7)
}

/// The header that the commit marker starting at `i` gives.
pub open spec fn header_at(t: Seq<char>, i: int) -> HeaderView {
    let e1 = line_end(t, i);
    let e2 = line_end(t, e1 + 7);
    let e3 = line_end(t, e2 + 7);
    HeaderView {
        hash: t.subrange(i + 5, i + 45),
        author: trim(t.subrange(e1 + 7, e2)),
        date: trim(t.subrange(e2 + 7, e3)),
    }
}

/// The first position at or after `p` where a commit marker starts; -1 if none.
pub open spec fn next_commit(t: Seq<char>, p: int) -> int
    decreases t.len() - p,
{
    if p < 0 || p >= t.len() {
        -1
    } else if commit_at(t, p) {
        p
    } else {
        next_commit(t, p + 1)
    }
}

/// Where one commit lies in the stream: its marker starts at `start`, and its
/// text runs from `body` to `end`.
pub struct CommitSpan {
    pub start: int,
    pub body: int,
    pub end: int,
}

/// The commits found from `p` on, each marker searched for from the end of the
/// one before; a commit's text runs to the next marker or to the end of `t`.
pub open spec fn spans_from(t: Seq<char>, p: int) -> Seq<CommitSpan>
    decreases t.len() + 1 - p,
{
    let i = next_commit(t, p);
    let e = commit_end(t, i);
    let j = next_commit(t, e);
    let stop = if j < 0 {
        t.len() as int
    } else {
        j
    };
    if 0 <= p <= i < e <= t.len() {
        seq![CommitSpan { start: i, body: e, end: stop }] + spans_from(t, e)
    } else {
        seq![]
    }
}

/// The commits of the whole stream; text before the first marker belongs to none.
pub open spec fn commit_spans(t: Seq<char>) -> Seq<CommitSpan> {
    spans_from(t, 0)
}

proof fn lemma_commit_end(t: Seq<char>, i: int)
    requires
        commit_at(t, i),
    ensures
        i < commit_end(t, i) <= t.len(),
{
    reveal_strlit("From ");
    reveal_strlit("From: ");
    let e1 = line_end(t, i);
    lemma_line_end_bounds(t, i);
    lemma_line_end_bounds(t, e1 + 7);
    let e2 = line_end(t, e1 + 7);
    lemma_line_end_bounds(t, e2 + 7);
}

proof fn lemma_next_commit(t: Seq<char>, p: int)
    requires
        0 <= p,
    ensures
        next_commit(t, p) == -1 ==> forall|q: int| p <= q ==> !commit_at(t, q),
        next_commit(t, p) != -1 ==> {
            &&& p <= next_commit(t, p) < t.len()
            &&& commit_at(t, next_commit(t, p))
            &&& forall|q: int| p <= q < next_commit(t, p) ==> !commit_at(t, q)
        },
    decreases t.len() - p,
{
    if p < t.len() && !commit_at(t, p) {
        lemma_next_commit(t, p + 1);
    }
}

/// The text of the commits `rs` of `t`, marker and body, one after the other.
pub open spec fn joined(t: Seq<char>, rs: Seq<CommitSpan>) -> Seq<char>
    decreases rs.len(),
{
    if rs.len() == 0 {
        seq![]
    } else {
        t.subrange(rs[0].start, rs[0].end) + joined(t, rs.drop_first())
    }
}

proof fn lemma_spans_from(t: Seq<char>, p: int)
    requires
        0 <= p <= t.len(),
    ensures
        ({
            let rs = spans_from(t, p);
            &&& forall|k: int|
                0 <= k < rs.len() ==> {
                    &&& commit_at(t, #[trigger] rs[k].start)
                    &&& rs[k].body == commit_end(t, rs[k].start)
                    &&& p <= rs[k].start < rs[k].body <= rs[k].end <= t.len()
                }
            &&& forall|k: int| 0 <= k < rs.len() - 1 ==> #[trigger] rs[k].end == rs[k + 1].start
            &&& rs.len() > 0 ==> rs.last().end == t.len()
            &&& forall|q: int|
                p <= q < (if rs.len() > 0 {
                    rs[0].start
                } else {
                    t.len() as int
                }) ==> !commit_at(t, q)
            &&& forall|k: int, q: int|
                #![trigger rs[k], commit_at(t, q)]
                0 <= k < rs.len() && rs[k].body <= q < rs[k].end ==> !commit_at(t, q)
            &&& rs.len() > 0 ==> joined(t, rs) == t.subrange(rs[0].start, t.len() as int)
        }),
    decreases t.len() + 1 - p,
{
    lemma_next_commit(t, p);
    let i = next_commit(t, p);
    if i >= 0 {
        lemma_commit_end(t, i);
        let e = commit_end(t, i);
        lemma_next_commit(t, e);
        let j = next_commit(t, e);
        if j >= 0 {
            lemma_commit_end(t, j);
        }
        lemma_spans_from(t, e);
        let rs = spans_from(t, p);
        let rest = spans_from(t, e);
        assert(rs.drop_first() =~= rest);
        assert(forall|k: int| 0 < k < rs.len() ==> rs[k] == rest[k - 1]);
        if rest.len() > 0 {
            assert(joined(t, rs) =~= t.subrange(i, j) + t.subrange(j, t.len() as int));
            assert(joined(t, rs) =~= t.subrange(i, t.len() as int));
        } else {
            assert(j < 0);
            assert(rs[0].end == t.len());
            assert(joined(t, rest) == Seq::<char>::empty());
            assert(joined(t, rs) =~= t.subrange(i, t.len() as int) + joined(t, rest));
        }
    }
}

/// Every commit marker of `t` that the scan meets starts one commit, and the
/// commits tile the stream: each commit's text runs from the end of its marker
/// to the start of the next marker, the last one to the end of `t`, no marker
/// starts before the first commit or inside a commit's text, and marker and
/// text of all commits together give back `t` from the first marker on.
pub proof fn lemma_commit_segments(t: Seq<char>)
    ensures
        ({
            let rs = commit_spans(t);
            &&& forall|k: int|
                0 <= k < rs.len() ==> {
                    &&& commit_at(t, #[trigger] rs[k].start)
                    &&& rs[k].body == commit_end(t, rs[k].start)
                    &&& rs[k].start < rs[k].body <= rs[k].end <= t.len()
                }
            &&& forall|k: int| 0 <= k < rs.len() - 1 ==> #[trigger] rs[k].end == rs[k + 1].start
            &&& rs.len() > 0 ==> rs.last().end == t.len()
            &&& forall|q: int|
                0 <= q < (if rs.len() > 0 {
                    rs[0].start
                } else {
                    t.len() as int
                }) ==> !commit_at(t, q)
            &&& forall|k: int, q: int|
                #![trigger rs[k], commit_at(t, q)]
                0 <= k < rs.len() && rs[k].body <= q < rs[k].end ==> !commit_at(t, q)
            &&& rs.len() > 0 ==> joined(t, rs) == t.subrange(rs[0].start, t.len() as int)
        }),
{
    lemma_spans_from(t, 0);
}

/// Tests for a commit marker at `i`; gives the ends of its three lines.
fn commit_match(t: &[char], i: usize) -> (r: Option<(usize, usize, usize)>)
    requires
        i <= t@.len(),
    ensures
        r is Some <==> commit_at(t@, i as int),
        r matches Some((e1, e2, e3)) ==> {
            &&& e1 as int == line_end(t@, i as int)
            &&& e2 as int == line_end(t@, e1 + 7)
            &&& e3 as int == line_end(t@, e2 + 7)
            &&& i + 45 <= e1 && e1 + 7 < e2 && e2 + 7 < e3 <= t@.len()
        },
{
    proof {
        reveal_strlit("From ");
        reveal_strlit("From: ");
        reveal_strlit("Date: ");
    }
    if !has_hash_at(t, i) {
        return None;
    }
    let e1 = find_line_end(t, i);
    proof {
        lemma_line_end_bounds(t@, i as int);
        assert(forall|k: int| i + 5 <= k < i + 45 ==> t@[k] != '\n');
        assert(t@.subrange(i as int, i + 5)[0] == t@[i as int]);
        if e1 < i + 45 {
            if e1 < i + 5 {
                assert(t@.subrange(i as int, i + 5)[e1 - i] == t@[e1 as int]);
            }
        }
    }
    if e1 >= t.len() || !has_word_at(t, e1 + 1, "From: ") {
        return None;
    }
    let e2 = find_line_end(t, e1 + 7);
    if e2 <= e1 + 7 || e2 >= t.len() || !has_word_at(t, e2 + 1, "Date: ") {
        return None;
    }
    let e3 = find_line_end(t, e2 + 7);
    if e3 <= e2 + 7 {
        return None;
    }
    Some((e1, e2, e3))
}

/// Computes `next_commit(t, p)`, with the ends of the marker's three lines.
fn find_next_commit(t: &[char], p: usize) -> (r: Option<(usize, (usize, usize, usize))>)
    requires
        p <= t@.len(),
    ensures
        match r {
            None => next_commit(t@, p as int) == -1,
            Some((i, (e1, e2, e3))) => {
                &&& i as int == next_commit(t@, p as int)
                &&& commit_at(t@, i as int)
                &&& e1 as int == line_end(t@, i as int)
                &&& e2 as int == line_end(t@, e1 + 7)
                &&& e3 as int == line_end(t@, e2 + 7)
                &&& p <= i && i + 45 <= e1 && e1 + 7 < e2 && e2 + 7 < e3 <= t@.len()
            },
        },
{
    let mut k: usize = p;
    while k < t.len()
        invariant
            p <= k <= t@.len(),
            next_commit(t@, k as int) == next_commit(t@, p as int),
        decreases t@.len() - k,
    {
        if t[k] == 'F' {
            match commit_match(t, k) {
                Some(ends) => {
                    return Some((k, ends));
                },
                None => {},
            }
        } else {
            proof {
                reveal_strlit("From ");
                if hash_at(t@, k as int) {
                    assert(t@.subrange(k as int, k + 5)[0] == t@[k as int]);
                }
            }
        }
        k = k + 1;
    }
    None
}

/// Lazily yields the commits of a patch stream: each header with the commit's text.
pub struct Patches<'t> {
    text: &'t [char],
    pos: usize,
}

impl<'t> Patches<'t> {
    /// The stream being split.
    pub closed spec fn text(&self) -> Seq<char> {
        self.text@
    }

    /// The commits still to come.
    pub closed spec fn remaining(&self) -> Seq<CommitSpan> {
        spans_from(self.text@, self.pos as int)
    }

    pub closed spec fn wf(&self) -> bool {
        self.pos <= self.text@.len()
    }

    pub fn new(text: &'t [char]) -> (r: Patches<'t>)
        ensures
            r.wf(),
            r.text() == text@,
            r.remaining() == commit_spans(text@),
    {
        Patches { text, pos: 0 }
    }

    /// The next commit's header and text, or `None` once all have been yielded.
    pub fn next(&mut self) -> (r: Option<(Header, &'t [char])>)
        requires
            old(self).wf(),
        ensures
            final(self).wf(),
            final(self).text() == old(self).text(),
            match r {
                None => old(self).remaining().len() == 0 && final(self).remaining().len() == 0,
                Some((h, body)) => {
                    let s = old(self).remaining()[0];
                    &&& old(self).remaining().len() > 0
                    &&& h@ == header_at(old(self).text(), s.start)
                    &&& body@ == old(self).text().subrange(s.body, s.end)
                    &&& final(self).remaining() == old(self).remaining().drop_first()
                },
            },
    {
        let ghost t = self.text@;
        match find_next_commit(self.text, self.pos) {
            None => None,
            Some((i, (e1, e2, e3))) => {
                let stop = match find_next_commit(self.text, e3) {
                    Some((j, _)) => {
                        proof {
                            lemma_commit_end(t, j as int);
                        }
                        j
                    },
                    None => self.text.len(),
                };
                let hash = string_of(self.text, i + 5, i + 45);
                let (aa, ab) = trim_span(self.text, e1 + 7, e2);
                let (da, db) = trim_span(self.text, e2 + 7, e3);
                let header = Header::new(
                    hash,
                    string_of(self.text, aa, ab),
                    string_of(self.text, da, db),
                );
                let body = vstd::slice::slice_subrange(self.text, e3, stop);
                assert(spans_from(t, stop as int) == spans_from(t, e3 as int));
                self.pos = stop;
                assert(spans_from(t, old(self).pos as int).drop_first() =~= spans_from(t, e3 as int));
                Some((header, body))
            },
        }
    }
}

/// Splits a patch stream into commits.
pub struct PatchParser {}

impl PatchParser {
    pub fn new() -> PatchParser {
        PatchParser {  }
    }

    /// The commits of `text`.
    pub fn patches<'t>(&self, text: &'t [char]) -> (r: Patches<'t>)
        ensures
            r.wf(),
            r.text() == text@,
            r.remaining() == commit_spans(text@),
    {
        Patches::new(text)
    }
}

} // verus!
