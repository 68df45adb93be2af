//! The whole extraction: commits, then files, then the path filter.
use vstd::prelude::*;
use crate::changeset::{Changeset, ChangesetView};
use crate::commits::{commit_spans, header_at, CommitSpan, PatchParser};
use crate::diffs::{file_changes, ChangesetParser};
use crate::filter::{filtered, views, PathFilter};
use crate::text::chars_of;

verus! {

/// The records of the commits `spans` of `t`, commit after commit.
pub open spec fn changes_of(t: Seq<char>, spans: Seq<CommitSpan>) -> Seq<ChangesetView>
    decreases spans.len(),
{
    if spans.len() == 0 {
        seq![]
    } else {
        file_changes(header_at(t, spans[0].start), t.subrange(spans[0].body, spans[0].end))
            + changes_of(t, spans.drop_first())
    }
}

/// The records of every file-diff marker of every commit of `t`, in order.
pub open spec fn all_changes(t: Seq<char>) -> Seq<ChangesetView> {
    changes_of(t, commit_spans(t))
}

/// The records of `t` whose path contains `pat`, in order.
pub open spec fn extract(t: Seq<char>, pat: Seq<char>) -> Seq<ChangesetView> {
    filtered(all_changes(t), pat)
}

/// Splits `text` into commits and files and keeps the records that `filter` admits.
pub fn extract_changesets(text: &[char], filter: &PathFilter) -> (r: Vec<Changeset>)
    ensures
        views(r@) == extract(text@, filter@),
{
    let parser = PatchParser::new();
    let cparser = ChangesetParser::new();
    let mut patches = parser.patches(text);
    let mut all: Vec<Changeset> = Vec::new();
    let ghost t = text@;
    loop
        invariant
            patches.wf(),
            patches.text() == t,
            views(all@) + changes_of(t, patches.remaining()) == all_changes(t),
        ensures
            views(all@) == all_changes(t),
        decreases patches.remaining().len(),
    {
        let ghost rest = patches.remaining();
        match patches.next() {
            None => {
                assert(views(all@) + changes_of(t, rest) =~= views(all@));
                break;
            },
            Some((header, body)) => {
                let ghost later = patches.remaining();
                assert(later == rest.drop_first());
                let mut sets = cparser.changesets(&header, body);
                assert(views(all@) + sets.remaining() + changes_of(t, later) =~= all_changes(t));
                loop
                    invariant
                        sets.wf(),
                        views(all@) + sets.remaining() + changes_of(t, later) == all_changes(t),
                    ensures
                        views(all@) + changes_of(t, later) == all_changes(t),
                    decreases sets.remaining().len(),
                {
                    let ghost srest = sets.remaining();
                    match sets.next() {
                        None => {
                            assert(views(all@) + srest =~= views(all@));
                            break;
                        },
                        Some(c) => {
                            let ghost before = all@;
                            all.push(c);
                            assert(views(all@) =~= views(before).push(c@));
                            assert(views(all@) + sets.remaining() =~= views(before) + srest);
                        },
                    }
                }
            },
        }
    }
    filter.apply(all)
}

/// Splits `text` into commits and files and keeps the records whose path
/// contains `pattern`.
pub fn extract_from_str(text: &str, pattern: &str) -> (r: Vec<Changeset>)
    ensures
        views(r@) == extract(text@, pattern@),
{
    let cs = chars_of(text);
    let filter = PathFilter::new(pattern);
    extract_changesets(cs.as_slice(), &filter)
}

} // verus!
