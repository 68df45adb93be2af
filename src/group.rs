//! Grouping of addition and deletion lines into blocks of consecutive lines.
use vstd::prelude::*;
use crate::classify::{change_lines_ok, Event, EventView, events_view};
use crate::text::word_at;

verus! {

/// The byte-order mark as it reads after a wrong decoding: three characters
/// that a line holding nothing else stands for no change.
pub open spec fn is_bom(s: Seq<char>) -> bool {
    s == seq!['\u{ef}', '\u{bb}', '\u{bf}']
}

fn bom(s: &String) -> (r: bool)
    ensures
        r == is_bom(s@),
{
    let cs = crate::text::chars_of(s.as_str());
    let r = cs.len() == 3 && cs[0] == '\u{ef}' && cs[1] == '\u{bb}' && cs[2] == '\u{bf}';
    proof {
        if is_bom(s@) {
            assert(cs@.len() == 3);
        }
        if r {
            assert(cs@ =~= seq!['\u{ef}', '\u{bb}', '\u{bf}']);
        }
    }
    r
}

/// The grouped blocks of one file's changes: each block is a run of lines of
/// one kind that stood together.
pub struct Blocks {
    pub additions: Vec<Vec<String>>,
    pub deletions: Vec<Vec<String>>,
}

/// The mathematical form of [`Blocks`].
pub struct BlocksView {
    pub additions: Seq<Seq<Seq<char>>>,
    pub deletions: Seq<Seq<Seq<char>>>,
}

impl View for Blocks {
    type V = BlocksView;

    open spec fn view(&self) -> BlocksView {
        BlocksView { additions: self.additions.deep_view(), deletions: self.deletions.deep_view() }
    }
}

/// Blocks being grouped, with the kind of the block still open (`true` for
/// additions); the open block is the last of its kind.
pub struct GroupState {
    pub blocks: BlocksView,
    pub open: Option<bool>,
}

/// No blocks yet, none open.
pub open spec fn empty_state() -> GroupState {
    GroupState { blocks: BlocksView { additions: seq![], deletions: seq![] }, open: None }
}

/// `bs` with `line` appended to its last block, or with a new block holding
/// `line` when `extend` is false.
pub open spec fn add_line(bs: Seq<Seq<Seq<char>>>, line: Seq<char>, extend: bool) -> Seq<
    Seq<Seq<char>>,
> {
    if extend && bs.len() > 0 {
        bs.update(bs.len() - 1, bs.last().push(line))
    } else {
        bs.push(seq![line])
    }
}

/// The state after one more event.
pub open spec fn step(st: GroupState, ev: EventView) -> GroupState {
    match ev {
        EventView::Addition(line) => if is_bom(line) {
            st
        } else {
            GroupState {
                blocks: BlocksView {
                    additions: add_line(st.blocks.additions, line, st.open == Some(true)),
                    deletions: st.blocks.deletions,
                },
                open: Some(true),
            }
        },
        EventView::Deletion(line) => if is_bom(line) {
            st
        } else {
            GroupState {
                blocks: BlocksView {
                    additions: st.blocks.additions,
                    deletions: add_line(st.blocks.deletions, line, st.open == Some(false)),
                },
                open: Some(false),
            }
        },
        _ => st,
    }
}

/// The state after all of `evs`, in order.
pub open spec fn group_state(evs: Seq<EventView>) -> GroupState
    decreases evs.len(),
{
    if evs.len() == 0 {
        empty_state()
    } else {
        step(group_state(evs.drop_last()), evs.last())
    }
}

/// The blocks that a sequence of events groups into.
pub open spec fn grouped(evs: Seq<EventView>) -> BlocksView {
    group_state(evs).blocks
}

/// The blocks of `closed`, with `current` as their last block when it is open.
pub open spec fn with_open(closed: Seq<Vec<String>>, current: Seq<String>, open: bool) -> Seq<
    Seq<Seq<char>>,
> {
    let c = closed.map_values(|v: Vec<String>| v.deep_view());
    if open {
        c.push(current.map_values(|s: String| s@))
    } else {
        c
    }
}

/// An addition or deletion whose line is the garbled byte-order mark.
pub open spec fn is_bom_change(ev: EventView) -> bool {
    match ev {
        EventView::Addition(line) => is_bom(line),
        EventView::Deletion(line) => is_bom(line),
        _ => false,
    }
}

/// `evs` without its garbled byte-order-mark changes.
pub open spec fn without_bom(evs: Seq<EventView>) -> Seq<EventView>
    decreases evs.len(),
{
    if evs.len() == 0 {
        seq![]
    } else if is_bom_change(evs.last()) {
        without_bom(evs.drop_last())
    } else {
        without_bom(evs.drop_last()).push(evs.last())
    }
}

/// A garbled byte-order-mark line is dropped entirely: the blocks, their lines
/// and their number are those of the events without it.
pub proof fn lemma_bom_dropped(evs: Seq<EventView>)
    ensures
        grouped(evs) == grouped(without_bom(evs)),
        group_state(evs) == group_state(without_bom(evs)),
    decreases evs.len(),
{
    if evs.len() > 0 {
        lemma_bom_dropped(evs.drop_last());
        if !is_bom_change(evs.last()) {
            let w = without_bom(evs.drop_last()).push(evs.last());
            assert(w.drop_last() =~= without_bom(evs.drop_last()));
        }
    }
}

/// Every block of `bs` holds at least one line, and every line is non-empty.
pub open spec fn blocks_wf(bs: Seq<Seq<Seq<char>>>) -> bool {
    forall|i: int|
        0 <= i < bs.len() ==> #[trigger] bs[i].len() > 0 && forall|j: int|
            0 <= j < bs[i].len() ==> #[trigger] bs[i][j].len() > 0
}

/// No line of `bs` starts with `w`, and none is the garbled byte-order mark.
pub open spec fn lines_clean(bs: Seq<Seq<Seq<char>>>, w: Seq<char>) -> bool {
    forall|i: int, j: int|
        0 <= i < bs.len() && 0 <= j < bs[i].len() ==> !word_at(#[trigger] bs[i][j], 0, w)
            && !is_bom(bs[i][j])
}

proof fn lemma_add_line(bs: Seq<Seq<Seq<char>>>, line: Seq<char>, extend: bool, w: Seq<char>)
    requires
        blocks_wf(bs),
        lines_clean(bs, w),
        line.len() > 0,
        !word_at(line, 0, w),
        !is_bom(line),
    ensures
        blocks_wf(add_line(bs, line, extend)),
        lines_clean(add_line(bs, line, extend), w),
{
    let nb = add_line(bs, line, extend);
    if extend && bs.len() > 0 {
        assert forall|i: int, j: int| 0 <= i < nb.len() && 0 <= j < nb[i].len() implies nb[i][j]
            == (if i == bs.len() - 1 && j == bs[i].len() {
            line
        } else {
            bs[i][j]
        }) by {}
    } else {
        assert forall|i: int, j: int| 0 <= i < nb.len() && 0 <= j < nb[i].len() implies nb[i][j]
            == (if i == bs.len() {
            line
        } else {
            bs[i][j]
        }) by {}
    }
}

/// Blocks grouped from well-formed changes hold no empty block and no empty
/// line, no added line that starts with `++`, no deleted line that starts with
/// `--`, and no garbled byte-order mark.
pub proof fn lemma_grouped_ok(evs: Seq<EventView>)
    requires
        change_lines_ok(evs),
    ensures
        blocks_wf(grouped(evs).additions),
        blocks_wf(grouped(evs).deletions),
        lines_clean(grouped(evs).additions, "++"@),
        lines_clean(grouped(evs).deletions, "--"@),
    decreases evs.len(),
{
    if evs.len() > 0 {
        let d = evs.drop_last();
        assert forall|i: int| 0 <= i < d.len() implies #[trigger] d[i] == evs[i] by {}
        assert(change_lines_ok(d)) by {
            assert forall|i: int| 0 <= i < d.len() implies match #[trigger] d[i] {
                EventView::Addition(l) => l.len() > 0 && !word_at(l, 0, "++"@),
                EventView::Deletion(l) => l.len() > 0 && !word_at(l, 0, "--"@),
                _ => true,
            } by {
                assert(d[i] == evs[i]);
            }
        }
        lemma_grouped_ok(d);
        let st = group_state(d);
        let last = evs[evs.len() - 1];
        assert(evs.last() == last);
        match last {
            EventView::Addition(line) => {
                if !is_bom(line) {
                    lemma_add_line(st.blocks.additions, line, st.open == Some(true), "++"@);
                }
            },
            EventView::Deletion(line) => {
                if !is_bom(line) {
                    lemma_add_line(st.blocks.deletions, line, st.open == Some(false), "--"@);
                }
            },
            _ => {},
        }
    } else {
        assert(grouped(evs).additions =~= seq![]);
    }
}

proof fn lemma_close(closed: Seq<Vec<String>>, v: Vec<String>, other: Seq<String>)
    ensures
        with_open(closed.push(v), other, false) =~= with_open(closed, v@, true),
{
    let f = |w: Vec<String>| w.deep_view();
    assert(closed.push(v).map_values(f) =~= closed.map_values(f).push(f(v)));
    assert(v.deep_view() =~= v@.map_values(|s: String| s@));
}

proof fn lemma_extend(closed: Seq<Vec<String>>, cur: Seq<String>, s: String)
    ensures
        with_open(closed, cur.push(s), true) =~= add_line(
            with_open(closed, cur, true),
            s@,
            true,
        ),
{
    let g = |x: String| x@;
    assert(cur.push(s).map_values(g) =~= cur.map_values(g).push(s@));
}

proof fn lemma_start(closed: Seq<Vec<String>>, cur: Seq<String>, s: String)
    ensures
        with_open(closed, seq![s], true) =~= add_line(with_open(closed, cur, false), s@, false),
{
    assert(seq![s].map_values(|x: String| x@) =~= seq![s@]);
}

/// Groups the addition and deletion events of one file, in order, into blocks of
/// consecutive lines of one kind. Other events and byte-order-mark lines are left out.
pub fn group_events(events: &Vec<Event>) -> (r: Blocks)
    ensures
        r@ == grouped(events_view(events@)),
{
    let mut adds: Vec<Vec<String>> = Vec::new();
    let mut dels: Vec<Vec<String>> = Vec::new();
    let mut current: Vec<String> = Vec::new();
    // 0: no open block, 1: additions open, 2: deletions open
    let mut open: u8 = 0;
    let mut i: usize = 0;
    assert(with_open(adds@, current@, false) =~= seq![]);
    assert(events_view(events@).take(0) =~= seq![]);
    while i < events.len()
        invariant
            0 <= i <= events@.len(),
            open <= 2,
            ({
                let st = group_state(events_view(events@).take(i as int));
                &&& st.open == (if open == 0 {
                    None::<bool>
                } else {
                    Some(open == 1)
                })
                &&& st.blocks.additions == with_open(adds@, current@, open == 1)
                &&& st.blocks.deletions == with_open(dels@, current@, open == 2)
            }),
        decreases events@.len() - i,
    {
        let ghost evs = events_view(events@);
        let ghost st = group_state(evs.take(i as int));
        assert(evs.take(i + 1).drop_last() =~= evs.take(i as int));
        assert(evs.take(i + 1).last() == events@[i as int]@);
        let ghost nst = step(st, events@[i as int]@);
        assert(group_state(evs.take(i + 1)) == nst);
        match &events[i] {
            Event::Addition(s) => {
                if !bom(s) {
                    if open == 1 {
                        proof {
                            lemma_extend(adds@, current@, *s);
                        }
                        current.push(s.clone());
                    } else {
                        if open == 2 {
                            proof {
                                lemma_close(dels@, current, current@);
                            }
                            dels.push(current);
                        }
                        proof {
                            lemma_start(adds@, current@, *s);
                        }
                        current = Vec::new();
                        current.push(s.clone());
                        open = 1;
                        assert(current@ =~= seq![*s]);
                    }
                }
            },
            Event::Deletion(s) => {
                if !bom(s) {
                    if open == 2 {
                        proof {
                            lemma_extend(dels@, current@, *s);
                        }
                        current.push(s.clone());
                    } else {
                        if open == 1 {
                            proof {
                                lemma_close(adds@, current, current@);
                            }
                            adds.push(current);
                        }
                        proof {
                            lemma_start(dels@, current@, *s);
                        }
                        current = Vec::new();
                        current.push(s.clone());
                        open = 2;
                        assert(current@ =~= seq![*s]);
                    }
                }
            },
            _ => {},
        }
        i = i + 1;
    }
    assert(events_view(events@).take(events@.len() as int) =~= events_view(events@));
    if open == 1 {
        proof {
            lemma_close(adds@, current, current@);
        }
        adds.push(current);
    } else if open == 2 {
        proof {
            lemma_close(dels@, current, current@);
        }
        dels.push(current);
    }
    let r = Blocks { additions: adds, deletions: dels };
    assert(r@.additions =~= with_open(adds@, seq![], false));
    assert(r@.deletions =~= with_open(dels@, seq![], false));
    r
}

} // verus!
