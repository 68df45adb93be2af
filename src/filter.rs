//! The path filter: keeps the change records whose path holds a given substring.
use vstd::prelude::*;
use crate::changeset::{Changeset, ChangesetView};
use crate::text::{chars_of, word_at};

verus! {

/// `pat` occurs in `s` as a run of consecutive characters.
pub open spec fn contains(s: Seq<char>, pat: Seq<char>) -> bool {
    exists|k: int| word_at(s, k, pat)
}

/// The records of `cs` whose path contains `pat`, in order.
pub open spec fn filtered(cs: Seq<ChangesetView>, pat: Seq<char>) -> Seq<ChangesetView>
    decreases cs.len(),
{
    if cs.len() == 0 {
        seq![]
    } else if contains(cs.last().path, pat) {
        filtered(cs.drop_last(), pat).push(cs.last())
    } else {
        filtered(cs.drop_last(), pat)
    }
}

/// The mathematical form of a sequence of change records.
pub open spec fn views(cs: Seq<Changeset>) -> Seq<ChangesetView> {
    cs.map_values(|c: Changeset| c@)
}

/// Keeps the change records whose path contains a configured substring.
pub struct PathFilter {
    pattern: String,
}

impl View for PathFilter {
    type V = Seq<char>;

    closed spec fn view(&self) -> Seq<char> {
        self.pattern@
    }
}

fn find_in(s: &[char], pat: &[char]) -> (r: bool)
    ensures
        r == contains(s@, pat@),
{
    if pat.len() > s.len() {
        assert forall|k: int| !word_at(s@, k, pat@) by {}
        return false;
    }
    let mut k: usize = 0;
    while k <= s.len() - pat.len()
        invariant
            pat@.len() <= s@.len(),
            k <= s@.len() - pat@.len() + 1,
            forall|j: int| 0 <= j < k ==> !word_at(s@, j, pat@),
        decreases s@.len() - pat@.len() + 1 - k,
    {
        let mut i: usize = 0;
        let mut same = true;
        while i < pat.len()
            invariant
                k + pat@.len() <= s@.len(),
                s@.len() <= usize::MAX,
                i <= pat@.len(),
                same == forall|m: int| 0 <= m < i ==> s@[k + m] == pat@[m],
            decreases pat@.len() - i,
        {
            if s[k + i] != pat[i] {
                same = false;
            }
            i = i + 1;
        }
        if same {
            assert(s@.subrange(k as int, k + pat@.len()) =~= pat@);
            assert(word_at(s@, k as int, pat@));
            return true;
        }
        assert(!word_at(s@, k as int, pat@)) by {
            if word_at(s@, k as int, pat@) {
                assert forall|m: int| 0 <= m < pat@.len() implies s@[k + m] == pat@[m] by {
                    assert(s@.subrange(k as int, k + pat@.len())[m] == s@[k + m]);
                }
            }
        }
        k = k + 1;
    }
    false
}

impl PathFilter {
    /// A filter that keeps the records whose path contains `pattern`.
    pub fn new(pattern: &str) -> (r: PathFilter)
        ensures
            r@ == pattern@,
    {
        PathFilter { pattern: pattern.to_owned() }
    }

    /// Whether `path` contains the configured substring.
    pub fn matches(&self, path: &str) -> (r: bool)
        ensures
            r == contains(path@, self@),
    {
        let s = chars_of(path);
        let p = chars_of(self.pattern.as_str());
        find_in(s.as_slice(), p.as_slice())
    }

    /// The records of `sets` whose path contains the configured substring, in order.
    pub fn apply(&self, sets: Vec<Changeset>) -> (r: Vec<Changeset>)
        ensures
            views(r@) == filtered(views(sets@), self@),
    {
        let mut out: Vec<Changeset> = Vec::new();
        let ghost all = views(sets@);
        for c in it: sets.into_iter()
            invariant
                it.seq() == sets@,
                all == views(sets@),
                views(out@) == filtered(all.take(it.index() as int), self@),
        {
            let ghost i = it.index() as int;
            assert(all.take(i + 1).drop_last() =~= all.take(i));
            assert(all.take(i + 1).last() == c@);
            let keep = self.matches(c.path());
            let ghost before = out@;
            if keep {
                out.push(c);
                assert(views(out@) =~= views(before).push(c@));
            }
        }
        assert(all.take(sets@.len() as int) =~= all);
        out
    }
}

/// Filtering twice with one substring keeps what filtering once keeps.
pub proof fn lemma_filter_idempotent(cs: Seq<ChangesetView>, pat: Seq<char>)
    ensures
        filtered(filtered(cs, pat), pat) == filtered(cs, pat),
    decreases cs.len(),
{
    if cs.len() > 0 {
        lemma_filter_idempotent(cs.drop_last(), pat);
        let f = filtered(cs.drop_last(), pat);
        if contains(cs.last().path, pat) {
            let g = f.push(cs.last());
            assert(g.drop_last() =~= f);
        }
    }
}

} // verus!
