//! The line-count tree handed out to callers: every directory carries its
//! total, its totals per language key, and its children.

use vstd::prelude::*;
use crate::counts::{
    add_count, add_count_exec, counts_map, counts_sum, keys_distinct, merge_counts_exec,
    union_counts,
};
use crate::tree::{
    dir_langs, dir_total, dir_wf, lemma_child_total_le, lemma_dir_langs_step,
    lemma_dir_total_prefix, lemma_dir_total_step, lemma_view_entries_index, node_langs, node_wf,
    view_entries, view_node, BuildNode, TreeNode,
};

verus! {

/// A child of a directory: a file's line count, or a nested directory.
#[derive(Debug, PartialEq, Eq)]
pub enum LocsChild {
    File(u64),
    Dir(Locs),
}

/// Line counts of a directory. Keys of `loc_by_langs` and names of
/// `children` are distinct, as in the maps they stand for.
#[derive(Debug, PartialEq, Eq)]
pub struct Locs {
    pub loc: u64,
    pub loc_by_langs: Option<Vec<(String, u64)>>,
    pub children: Option<Vec<(String, LocsChild)>>,
}

/// Model of a child.
pub enum ChildView {
    File(int),
    Dir(LocsView),
}

/// Model of `Locs`: per-language totals as a map, children in order.
pub struct LocsView {
    pub loc: int,
    pub loc_by_langs: Option<Map<Seq<char>, int>>,
    pub children: Option<Seq<(Seq<char>, ChildView)>>,
}

pub open spec fn locs_view(l: Locs) -> LocsView
    decreases l, 1nat,
{
    LocsView {
        loc: l.loc as int,
        loc_by_langs: match l.loc_by_langs {
            Some(v) => Some(counts_map(v@)),
            None => None,
        },
        children: match l.children {
            Some(v) => Some(children_view(v@)),
            None => None,
        },
    }
}

pub open spec fn children_view(cs: Seq<(String, LocsChild)>) -> Seq<(Seq<char>, ChildView)>
    decreases cs, 0nat,
{
    if cs.len() == 0 {
        seq![]
    } else {
        children_view(cs.drop_last()).push(
            (
                cs.last().0@,
                match cs.last().1 {
                    LocsChild::File(n) => ChildView::File(n as int),
                    LocsChild::Dir(l) => ChildView::Dir(locs_view(l)),
                },
            ),
        )
    }
}

impl Default for Locs {
    /// No lines, and neither breakdown present.
    fn default() -> (l: Self)
        ensures
            l.loc == 0,
            l.loc_by_langs is None,
            l.children is None,
    {
        Locs { loc: 0, loc_by_langs: None, children: None }
    }
}

impl View for Locs {
    type V = LocsView;

    open spec fn view(&self) -> LocsView {
        locs_view(*self)
    }
}

/// The line counts of a directory whose children are `es`: the total of the
/// subtree, its totals per language key, and each child's line count or
/// nested counts, in the children's order.
pub open spec fn spec_finalize(es: Seq<(Seq<char>, TreeNode)>) -> LocsView
    decreases es, 1nat,
{
    LocsView {
        loc: dir_total(es),
        loc_by_langs: Some(dir_langs(es)),
        children: Some(finalize_entries(es)),
    }
}

pub open spec fn finalize_entries(es: Seq<(Seq<char>, TreeNode)>) -> Seq<(Seq<char>, ChildView)>
    decreases es, 0nat,
{
    if es.len() == 0 {
        seq![]
    } else {
        finalize_entries(es.drop_last()).push(
            (
                es.last().0,
                match es.last().1 {
                    TreeNode::File { loc, .. } => ChildView::File(loc as int),
                    TreeNode::Dir(sub) => ChildView::Dir(spec_finalize(sub)),
                },
            ),
        )
    }
}

/// Sum of the line counts of the children, taken one level deep.
pub open spec fn children_sum(cs: Seq<(String, LocsChild)>) -> int
    decreases cs.len(),
{
    if cs.len() == 0 {
        0
    } else {
        children_sum(cs.drop_last()) + match cs.last().1 {
            LocsChild::File(n) => n as int,
            LocsChild::Dir(l) => l.loc as int,
        }
    }
}

pub open spec fn child_names_distinct(cs: Seq<(String, LocsChild)>) -> bool {
    forall|i: int, j: int| 0 <= i < j < cs.len() ==> cs[i].0@ != cs[j].0@
}

/// At every level: both maps are present with distinct keys, the total is
/// the sum of the children's counts, and it is also the sum of the
/// per-language counts.
pub open spec fn locs_consistent(l: Locs) -> bool
    decreases l,
{
    match (l.loc_by_langs, l.children) {
        (Some(langs), Some(cs)) => {
            &&& keys_distinct(langs@)
            &&& counts_sum(langs@) == l.loc
            &&& child_names_distinct(cs@)
            &&& children_sum(cs@) == l.loc
            &&& forall|i: int| 0 <= i < cs@.len() ==> child_consistent(#[trigger] cs@[i].1)
        },
        _ => false,
    }
}

pub open spec fn child_consistent(c: LocsChild) -> bool
    decreases c,
{
    match c {
        LocsChild::File(_) => true,
        LocsChild::Dir(l) => locs_consistent(l),
    }
}

proof fn lemma_children_push(cs: Seq<(String, LocsChild)>, e: (String, LocsChild))
    ensures
        children_view(cs.push(e)) == children_view(cs).push(
            (
                e.0@,
                match e.1 {
                    LocsChild::File(n) => ChildView::File(n as int),
                    LocsChild::Dir(l) => ChildView::Dir(locs_view(l)),
                },
            ),
        ),
        children_sum(cs.push(e)) == children_sum(cs) + match e.1 {
            LocsChild::File(n) => n as int,
            LocsChild::Dir(l) => l.loc as int,
        },
{
    assert(cs.push(e).drop_last() =~= cs);
}

proof fn lemma_finalize_entries_step(es: Seq<(Seq<char>, TreeNode)>, i: int)
    requires
        0 <= i < es.len(),
    ensures
        finalize_entries(es.take(i + 1)) == finalize_entries(es.take(i)).push(
            (
                es[i].0,
                match es[i].1 {
                    TreeNode::File { loc, .. } => ChildView::File(loc as int),
                    TreeNode::Dir(sub) => ChildView::Dir(spec_finalize(sub)),
                },
            ),
        ),
{
    assert(es.take(i + 1).drop_last() =~= es.take(i));
}

/// Aggregates a directory's children into line counts.
fn finalize_dir(es: &Vec<(String, BuildNode)>) -> (r: Locs)
    requires
        dir_wf(view_entries(es@)),
        dir_total(view_entries(es@)) <= u64::MAX,
    ensures
        r@ == spec_finalize(view_entries(es@)),
        locs_consistent(r),
    decreases es@,
{
    let ghost v = view_entries(es@);
    proof {
        lemma_view_entries_index(es@);
    }
    let n = es.len();
    let mut total: u64 = 0;
    let mut langs: Vec<(String, u64)> = Vec::new();
    let mut out: Vec<(String, LocsChild)> = Vec::new();
    let mut i: usize = 0;
    assert(v.take(0) =~= Seq::<(Seq<char>, TreeNode)>::empty());
    assert(counts_map(langs@) =~= dir_langs(v.take(0)));
    while i < n
        invariant
            n == es@.len(),
            v == view_entries(es@),
            v.len() == n,
            forall|j: int| 0 <= j < n ==> #[trigger] v[j] == (es@[j].0@, view_node(es@[j].1)),
            dir_wf(v),
            dir_total(v) <= u64::MAX,
            i <= n,
            total == dir_total(v.take(i as int)),
            keys_distinct(langs@),
            counts_map(langs@) == dir_langs(v.take(i as int)),
            counts_sum(langs@) == total,
            children_view(out@) == finalize_entries(v.take(i as int)),
            out@.len() == i,
            forall|j: int| 0 <= j < i ==> (#[trigger] out@[j]).0@ == v[j].0,
            children_sum(out@) == total,
            forall|j: int| 0 <= j < i ==> child_consistent(#[trigger] out@[j].1),
        decreases n - i,
    {
        proof {
            lemma_dir_total_step(v, i as int);
            lemma_dir_total_prefix(v, i as int + 1);
            lemma_dir_langs_step(v, i as int);
            lemma_finalize_entries_step(v, i as int);
            lemma_child_total_le(v, i as int);
        }
        let name = &es[i].0;
        match &es[i].1 {
            BuildNode::File { loc, lang } => {
                total = total + *loc;
                add_count_exec(&mut langs, lang, *loc);
                proof {
                    let m = dir_langs(v.take(i as int));
                    assert(add_count(m, lang@, *loc as int) =~= union_counts(m, node_langs(v[i as int].1)));
                }
                let entry = (name.clone(), LocsChild::File(*loc));
                proof {
                    lemma_children_push(out@, entry);
                }
                out.push(entry);
            },
            BuildNode::Dir(sub) => {
                assert(v[i as int].1 == TreeNode::Dir(view_entries(sub@)));
                assert(node_wf(v[i as int].1));
                let d = finalize_dir(sub);
                total = total + d.loc;
                match &d.loc_by_langs {
                    Some(sub_langs) => {
                        merge_counts_exec(&mut langs, sub_langs);
                        assert(counts_map(sub_langs@) =~= node_langs(v[i as int].1));
                    },
                    None => {},
                }
                let entry = (name.clone(), LocsChild::Dir(d));
                proof {
                    lemma_children_push(out@, entry);
                }
                out.push(entry);
            },
        }
        i = i + 1;
    }
    assert(v.take(n as int) =~= v);
    proof {
        assert forall|a: int, b: int| 0 <= a < b < out@.len() implies out@[a].0@ != out@[b].0@ by {
            assert(out@[a].0@ == v[a].0);
            assert(out@[b].0@ == v[b].0);
        }
    }
    Locs { loc: total, loc_by_langs: Some(langs), children: Some(out) }
}

/// Aggregates the build tree into line counts: every directory gets the
/// total of its subtree and its totals per language key.
pub fn finalize(children: Vec<(String, BuildNode)>) -> (r: Locs)
    requires
        dir_wf(view_entries(children@)),
        dir_total(view_entries(children@)) <= u64::MAX,
    ensures
        r@ == spec_finalize(view_entries(children@)),
        locs_consistent(r),
{
    finalize_dir(&children)
}

} // verus!
