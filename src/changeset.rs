//! Commit headers, per-file change records, their text renderings, and the path filter.
use vstd::prelude::*;
use crate::group::blocks_wf;
use vstd::string::StringExecFns;

verus! {

/// The header of one commit: its hash, author and date.
pub struct Header {
    hash: String,
    author: String,
    date: String,
}

/// The mathematical form of a [`Header`].
pub struct HeaderView {
    pub hash: Seq<char>,
    pub author: Seq<char>,
    pub date: Seq<char>,
}

impl View for Header {
    type V = HeaderView;

    closed spec fn view(&self) -> HeaderView {
        HeaderView { hash: self.hash@, author: self.author@, date: self.date@ }
    }
}

impl Header {
    pub fn new(hash: String, author: String, date: String) -> (r: Header)
        ensures
            r@ == (HeaderView { hash: hash@, author: author@, date: date@ }),
    {
        Header { hash, author, date }
    }

    /// A copy of this header.
    pub fn duplicate(&self) -> (r: Header)
        ensures
            r@ == self@,
    {
        Header { hash: self.hash.clone(), author: self.author.clone(), date: self.date.clone() }
    }

    pub fn hash(&self) -> (r: &str)
        ensures
            r@ == self@.hash,
    {
        self.hash.as_str()
    }

    pub fn author(&self) -> (r: &str)
        ensures
            r@ == self@.author,
    {
        self.author.as_str()
    }

    pub fn date(&self) -> (r: &str)
        ensures
            r@ == self@.date,
    {
        self.date.as_str()
    }
}

/// The changes made to one file in one commit: its path after the change and
/// its added and deleted lines, grouped into blocks of consecutive lines.
pub struct Changeset {
    header: Header,
    path: String,
    additions: Vec<Vec<String>>,
    deletions: Vec<Vec<String>>,
}

/// The mathematical form of a [`Changeset`].
pub struct ChangesetView {
    pub header: HeaderView,
    pub path: Seq<char>,
    pub additions: Seq<Seq<Seq<char>>>,
    pub deletions: Seq<Seq<Seq<char>>>,
}

impl View for Changeset {
    type V = ChangesetView;

    closed spec fn view(&self) -> ChangesetView {
        ChangesetView {
            header: self.header@,
            path: self.path@,
            additions: self.additions.deep_view(),
            deletions: self.deletions.deep_view(),
        }
    }
}

/// All lines of `bs`, block after block.
pub open spec fn flat(bs: Seq<Seq<Seq<char>>>) -> Seq<Seq<char>>
    decreases bs.len(),
{
    if bs.len() == 0 {
        seq![]
    } else {
        flat(bs.drop_last()) + bs.last()
    }
}

/// The lines of `ls` with a line feed between each two.
pub open spec fn join_lines(ls: Seq<Seq<char>>) -> Seq<char>
    decreases ls.len(),
{
    if ls.len() == 0 {
        seq![]
    } else if ls.len() == 1 {
        ls[0]
    } else {
        join_lines(ls.drop_last()) + seq!['\n'] + ls.last()
    }
}

/// The lines of `b`, each followed by a line feed.
pub open spec fn block_text(b: Seq<Seq<char>>) -> Seq<char>
    decreases b.len(),
{
    if b.len() == 0 {
        seq![]
    } else {
        block_text(b.drop_last()) + b.last() + seq!['\n']
    }
}

/// The gap marker written between two blocks.
pub open spec fn gap() -> Seq<char> {
    seq![' ', '.', '.', '.', '\n']
}

/// The blocks of `bs` as text, with a gap marker between each two.
pub open spec fn gapped(bs: Seq<Seq<Seq<char>>>) -> Seq<char>
    decreases bs.len(),
{
    if bs.len() == 0 {
        seq![]
    } else if bs.len() == 1 {
        block_text(bs[0])
    } else {
        gapped(bs.drop_last()) + gap() + block_text(bs.last())
    }
}

proof fn lemma_text_empty(bs: Seq<Seq<Seq<char>>>)
    requires
        blocks_wf(bs),
    ensures
        join_lines(flat(bs)).len() == 0 <==> bs.len() == 0,
        gapped(bs).len() == 0 <==> bs.len() == 0,
{
    if bs.len() > 0 {
        let last = bs[bs.len() - 1];
        assert(bs.last() == last);
        assert(last.len() > 0 && last[last.len() - 1].len() > 0);
        let ls = flat(bs);
        assert(ls == flat(bs.drop_last()) + last);
        assert(ls.last() == last.last());
        if ls.len() == 1 {
            assert(join_lines(ls) == ls[0]);
        } else {
            assert(join_lines(ls) == join_lines(ls.drop_last()) + seq!['\n'] + ls.last());
        }
        assert(block_text(last) == block_text(last.drop_last()) + last.last() + seq!['\n']);
        if bs.len() == 1 {
            assert(gapped(bs) == block_text(bs[0]));
        } else {
            assert(gapped(bs) == gapped(bs.drop_last()) + gap() + block_text(last));
        }
    } else {
        assert(flat(bs) == Seq::<Seq<char>>::empty());
    }
}

/// Joins all lines of `bs` with line feeds.
fn join_flat(bs: &Vec<Vec<String>>) -> (r: String)
    ensures
        r@ == join_lines(flat(bs.deep_view())),
{
    let mut out = String::new();
    let mut none_yet = true;
    let mut b: usize = 0;
    let ghost bv = bs.deep_view();
    while b < bs.len()
        invariant
            b <= bs@.len(),
            bv == bs.deep_view(),
            out@ == join_lines(flat(bv.take(b as int))),
            none_yet == (flat(bv.take(b as int)).len() == 0),
        decreases bs@.len() - b,
    {
        let block = &bs[b];
        assert(bv[b as int] == block.deep_view());
        let mut k: usize = 0;
        assert(flat(bv.take(b as int)) + bv[b as int].take(0) =~= flat(bv.take(b as int)));
        while k < block.len()
            invariant
                b < bs@.len(),
                k <= block@.len(),
                bv == bs.deep_view(),
                block.deep_view() == bv[b as int],
                out@ == join_lines(flat(bv.take(b as int)) + bv[b as int].take(k as int)),
                none_yet == ((flat(bv.take(b as int)) + bv[b as int].take(k as int)).len() == 0),
            decreases block@.len() - k,
        {
            let ghost ls = flat(bv.take(b as int)) + bv[b as int].take(k as int);
            let ghost ls2 = flat(bv.take(b as int)) + bv[b as int].take(k + 1);
            assert(ls2.drop_last() =~= ls);
            assert(ls2.last() == block[k as int]@);
            if !none_yet {
                out.append("\n");
                proof {
                    reveal_strlit("\n");
                }
            }
            out.append(block[k].as_str());
            proof {
                if ls.len() == 0 {
                    assert(ls2 =~= seq![block[k as int]@]);
                }
            }
            assert(out@ =~= join_lines(ls2));
            none_yet = false;
            k = k + 1;
        }
        assert(block@.len() == bv[b as int].len());
        assert(bv.take(b + 1).drop_last() =~= bv.take(b as int));
        assert(bv[b as int].take(k as int) =~= bv[b as int]);
        b = b + 1;
    }
    assert(bv.take(b as int) =~= bv);
    out
}

/// Writes the blocks of `bs` with a gap marker between each two.
fn join_gapped(bs: &Vec<Vec<String>>) -> (r: String)
    ensures
        r@ == gapped(bs.deep_view()),
{
    let mut out = String::new();
    let mut b: usize = 0;
    let ghost bv = bs.deep_view();
    while b < bs.len()
        invariant
            b <= bs@.len(),
            bv == bs.deep_view(),
            out@ == gapped(bv.take(b as int)),
        decreases bs@.len() - b,
    {
        let block = &bs[b];
        assert(bv[b as int] == block.deep_view());
        let ghost before = out@;
        if b > 0 {
            out.append(" ...\n");
            proof {
                reveal_strlit(" ...\n");
            }
        }
        let mut k: usize = 0;
        while k < block.len()
            invariant
                b < bs@.len(),
                k <= block@.len(),
                bv == bs.deep_view(),
                block.deep_view() == bv[b as int],
                out@ == (if b > 0 {
                    before + gap()
                } else {
                    before
                }) + block_text(bv[b as int].take(k as int)),
            decreases block@.len() - k,
        {
            assert(bv[b as int].take(k + 1).drop_last() =~= bv[b as int].take(k as int));
            out.append(block[k].as_str());
            out.append("\n");
            proof {
                reveal_strlit("\n");
            }
            assert(out@ =~= (if b > 0 {
                before + gap()
            } else {
                before
            }) + block_text(bv[b as int].take(k + 1)));
            k = k + 1;
        }
        assert(block@.len() == bv[b as int].len());
        assert(bv[b as int].take(k as int) =~= bv[b as int]);
        assert(bv.take(b + 1).drop_last() =~= bv.take(b as int));
        proof {
            if b == 0 {
                assert(before =~= seq![]);
                assert(out@ =~= block_text(bv[0]));
            } else {
                assert(out@ =~= before + gap() + block_text(bv[b as int]));
            }
        }
        b = b + 1;
    }
    assert(bv.take(b as int) =~= bv);
    out
}

impl Changeset {
    /// Every block holds at least one line, and no line is empty.
    #[verifier::type_invariant]
    spec fn inv(&self) -> bool {
        &&& blocks_wf(self.additions.deep_view())
        &&& blocks_wf(self.deletions.deep_view())
    }

    pub fn new(
        header: Header,
        path: String,
        additions: Vec<Vec<String>>,
        deletions: Vec<Vec<String>>,
    ) -> (r: Changeset)
        requires
            blocks_wf(additions.deep_view()),
            blocks_wf(deletions.deep_view()),
        ensures
            r@ == (ChangesetView {
                header: header@,
                path: path@,
                additions: additions.deep_view(),
                deletions: deletions.deep_view(),
            }),
    {
        Changeset { header, path, additions, deletions }
    }

    /// The path of the file after the change.
    pub fn path(&self) -> (r: &str)
        ensures
            r@ == self@.path,
    {
        self.path.as_str()
    }

    pub fn header(&self) -> (r: &Header)
        ensures
            r@ == self@.header,
    {
        &self.header
    }

    /// The blocks of added lines.
    pub fn addition_blocks(&self) -> (r: &Vec<Vec<String>>)
        ensures
            r.deep_view() == self@.additions,
            blocks_wf(r.deep_view()),
    {
        proof {
            use_type_invariant(self);
        }
        &self.additions
    }

    /// The blocks of deleted lines.
    pub fn deletion_blocks(&self) -> (r: &Vec<Vec<String>>)
        ensures
            r.deep_view() == self@.deletions,
            blocks_wf(r.deep_view()),
    {
        proof {
            use_type_invariant(self);
        }
        &self.deletions
    }

    /// All added lines, joined with line feeds.
    pub fn additions(&self) -> (r: String)
        ensures
            r@ == join_lines(flat(self@.additions)),
            r@.len() == 0 <==> self@.additions.len() == 0,
    {
        proof {
            use_type_invariant(self);
            lemma_text_empty(self@.additions);
        }
        join_flat(&self.additions)
    }

    /// All deleted lines, joined with line feeds.
    pub fn deletions(&self) -> (r: String)
        ensures
            r@ == join_lines(flat(self@.deletions)),
            r@.len() == 0 <==> self@.deletions.len() == 0,
    {
        proof {
            use_type_invariant(self);
            lemma_text_empty(self@.deletions);
        }
        join_flat(&self.deletions)
    }

    /// The added lines, block by block, with a gap marker between blocks.
    pub fn gapped_additions(&self) -> (r: String)
        ensures
            r@ == gapped(self@.additions),
            r@.len() == 0 <==> self@.additions.len() == 0,
    {
        proof {
            use_type_invariant(self);
            lemma_text_empty(self@.additions);
        }
        join_gapped(&self.additions)
    }

    /// The deleted lines, block by block, with a gap marker between blocks.
    pub fn gapped_deletions(&self) -> (r: String)
        ensures
            r@ == gapped(self@.deletions),
            r@.len() == 0 <==> self@.deletions.len() == 0,
    {
        proof {
            use_type_invariant(self);
            lemma_text_empty(self@.deletions);
        }
        join_gapped(&self.deletions)
    }
}

} // verus!
