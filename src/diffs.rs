//! The diff segmenter: splits one commit's text into per-file change records.
use vstd::prelude::*;
use crate::changeset::{Changeset, ChangesetView, Header, HeaderView};
use crate::classify::{diff_sep, events_of, find_diff_sep, lemma_line_events_ok, region_events};
use crate::group::{blocks_wf, group_events, grouped, lemma_grouped_ok, lines_clean};
use crate::text::{find_line_end, has_word_at, line_end, string_of, trim, trim_span, word_at};

verus! {

/// A file-diff marker starts at `i`.
pub open spec fn diff_at(b: Seq<char>, i: int) -> bool {
    0 <= i && diff_sep(b, i, line_end(b, i)) >= 0
}

/// The first position at or after `p` where a file-diff marker starts; -1 if none.
pub open spec fn next_diff(b: Seq<char>, p: int) -> int
    decreases b.len() - p,
{
    if p < 0 || p >= b.len() {
        -1
    } else if diff_at(b, p) {
        p
    } else {
        next_diff(b, p + 1)
    }
}

/// The record for the file-diff marker at `i`: the path after its ` b/`, and the
/// blocks of the lines from the marker's end to the next marker or the end of `b`.
pub open spec fn file_change(h: HeaderView, b: Seq<char>, i: int) -> ChangesetView {
    let e = line_end(b, i);
    let p = diff_sep(b, i, e);
    let j = next_diff(b, e);
    let stop = if j < 0 {
        b.len() as int
    } else {
        j
    };
    let g = grouped(region_events(b.subrange(e, stop)));
    ChangesetView {
        header: h,
        path: trim(b.subrange(p + 3, e)),
        additions: g.additions,
        deletions: g.deletions,
    }
}

/// The records of the file-diff markers found from `p` on, in order, each marker
/// searched for from the end of the one before.
pub open spec fn changes_from(h: HeaderView, b: Seq<char>, p: int) -> Seq<ChangesetView>
    decreases b.len() + 1 - p,
{
    let i = next_diff(b, p);
    let e = line_end(b, i);
    if 0 <= p <= i < e <= b.len() {
        seq![file_change(h, b, i)] + changes_from(h, b, e)
    } else {
        seq![]
    }
}

/// The records of all file-diff markers of one commit's text.
pub open spec fn file_changes(h: HeaderView, b: Seq<char>) -> Seq<ChangesetView> {
    changes_from(h, b, 0)
}

/// The record of a file is well formed and clean: no empty block or line, no
/// added line that starts with `++`, no deleted line that starts with `--`
/// (file header lines give no change), and no garbled byte-order mark.
pub open spec fn change_clean(c: ChangesetView) -> bool {
    &&& blocks_wf(c.additions)
    &&& blocks_wf(c.deletions)
    &&& lines_clean(c.additions, "++"@)
    &&& lines_clean(c.deletions, "--"@)
}

proof fn lemma_changes_from_clean(h: HeaderView, b: Seq<char>, p: int)
    ensures
        forall|k: int|
            0 <= k < changes_from(h, b, p).len() ==> change_clean(
                #[trigger] changes_from(h, b, p)[k],
            ),
    decreases b.len() + 1 - p,
{
    let i = next_diff(b, p);
    let e = line_end(b, i);
    if 0 <= p <= i < e <= b.len() {
        let j = next_diff(b, e);
        let stop = if j < 0 {
            b.len() as int
        } else {
            j
        };
        let evs = region_events(b.subrange(e, stop));
        lemma_line_events_ok(b.subrange(e, stop), 0);
        lemma_grouped_ok(evs);
        lemma_changes_from_clean(h, b, e);
        let all = changes_from(h, b, p);
        let rest = changes_from(h, b, e);
        assert(all == seq![file_change(h, b, i)] + rest);
        assert forall|k: int| 0 < k < all.len() implies #[trigger] all[k] == rest[k - 1] by {}
    }
}

/// Every record that one commit's text gives is clean: header lines such as
/// `+++ b/x.txt` and `--- a/x.txt` never become changes, the garbled
/// byte-order mark never appears, and no block or line is empty.
pub proof fn lemma_file_changes_clean(h: HeaderView, b: Seq<char>)
    ensures
        forall|k: int|
            0 <= k < file_changes(h, b).len() ==> change_clean(#[trigger] file_changes(h, b)[k]),
{
    lemma_changes_from_clean(h, b, 0);
}

/// Computes `next_diff(b, p)`, with the end of its line and its separator.
fn find_next_diff(b: &[char], p: usize) -> (r: Option<(usize, usize, usize)>)
    requires
        p <= b@.len(),
    ensures
        match r {
            None => next_diff(b@, p as int) == -1,
            Some((i, e, s)) => {
                &&& i as int == next_diff(b@, p as int)
                &&& e as int == line_end(b@, i as int)
                &&& s as int == diff_sep(b@, i as int, e as int)
                &&& p <= i && i + 14 <= s && s + 4 <= e <= b@.len()
            },
        },
{
    let mut k: usize = p;
    while k < b.len()
        invariant
            p <= k <= b@.len(),
            next_diff(b@, k as int) == next_diff(b@, p as int),
        decreases b@.len() - k,
    {
        if b[k] == 'd' && has_word_at(b, k, "diff --git a/") {
            let e = find_line_end(b, k);
            match find_diff_sep(b, k, e) {
                Some(s) => {
                    return Some((k, e, s));
                },
                None => {},
            }
        } else {
            proof {
                reveal_strlit("diff --git a/");
                if word_at(b@, k as int, "diff --git a/"@) {
                    assert(b@.subrange(k as int, k + 13)[0] == b@[k as int]);
                }
            }
        }
        k = k + 1;
    }
    None
}

/// Lazily yields the change records of one commit's text, one per file-diff marker.
pub struct Changesets<'t> {
    header: &'t Header,
    text: &'t [char],
    pos: usize,
}

impl<'t> Changesets<'t> {
    /// The records still to come.
    pub closed spec fn remaining(&self) -> Seq<ChangesetView> {
        changes_from(self.header@, self.text@, self.pos as int)
    }

    pub closed spec fn wf(&self) -> bool {
        self.pos <= self.text@.len()
    }

    pub fn new(header: &'t Header, text: &'t [char]) -> (r: Changesets<'t>)
        ensures
            r.wf(),
            r.remaining() == file_changes(header@, text@),
    {
        Changesets { header, text, pos: 0 }
    }

    /// The next record, or `None` once all have been yielded.
    pub fn next(&mut self) -> (r: Option<Changeset>)
        requires
            old(self).wf(),
        ensures
            final(self).wf(),
            match r {
                None => old(self).remaining().len() == 0 && final(self).remaining().len() == 0,
                Some(c) => {
                    &&& old(self).remaining().len() > 0
                    &&& c@ == old(self).remaining()[0]
                    &&& change_clean(c@)
                    &&& final(self).remaining() == old(self).remaining().drop_first()
                },
            },
    {
        let ghost h = self.header@;
        let ghost b = self.text@;
        match find_next_diff(self.text, self.pos) {
            None => None,
            Some((i, e, s)) => {
                let stop = match find_next_diff(self.text, e) {
                    Some((j, _, _)) => j,
                    None => self.text.len(),
                };
                let (ra, rb) = trim_span(self.text, s + 3, e);
                let path = string_of(self.text, ra, rb);
                let region = vstd::slice::slice_subrange(self.text, e, stop);
                let evs = events_of(region);
                let blocks = group_events(&evs);
                proof {
                    lemma_line_events_ok(region@, 0);
                    lemma_grouped_ok(region_events(region@));
                }
                let c = Changeset::new(self.header.duplicate(), path, blocks.additions, blocks.deletions);
                assert(c@ == file_change(h, b, i as int));
                assert(changes_from(h, b, stop as int) == changes_from(h, b, e as int));
                self.pos = stop;
                assert(changes_from(h, b, old(self).pos as int).drop_first() =~= changes_from(h, b, e as int));
                Some(c)
            },
        }
    }
}

/// Splits one commit's text into change records.
pub struct ChangesetParser {}

impl ChangesetParser {
    pub fn new() -> ChangesetParser {
        ChangesetParser {  }
    }

    /// The change records of `text`, the text of the commit with header `header`.
    pub fn changesets<'t>(&self, header: &'t Header, text: &'t [char]) -> (r: Changesets<'t>)
        ensures
            r.wf(),
            r.remaining() == file_changes(header@, text@),
    {
        Changesets::new(header, text)
    }
}

} // verus!
