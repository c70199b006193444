//! The directory tree that line counts are gathered into while an archive is
//! walked, its mathematical model, and insertion of a file at a path.

use vstd::prelude::*;
use crate::counts::{count_of, union_counts};

verus! {

/// Model of a tree node: a file with its line count and language key, or a
/// directory holding named children in order.
pub enum TreeNode {
    File { loc: u64, lang: Seq<char> },
    Dir(Seq<(Seq<char>, TreeNode)>),
}

/// Mutable tree used while walking the archive, before totals are aggregated.
pub enum BuildNode {
    File { loc: u64, lang: String },
    Dir(Vec<(String, BuildNode)>),
}

pub open spec fn view_node(n: BuildNode) -> TreeNode
    decreases n, 1nat,
{
    match n {
        BuildNode::File { loc, lang } => TreeNode::File { loc, lang: lang@ },
        BuildNode::Dir(v) => TreeNode::Dir(view_entries(v@)),
    }
}

/// Model of the children of a directory.
pub open spec fn view_entries(es: Seq<(String, BuildNode)>) -> Seq<(Seq<char>, TreeNode)>
    decreases es, 0nat,
{
    if es.len() == 0 {
        seq![]
    } else {
        view_entries(es.drop_last()).push((es.last().0@, view_node(es.last().1)))
    }
}

/// Character views of a sequence of strings.
pub open spec fn string_views(s: Seq<String>) -> Seq<Seq<char>> {
    s.map_values(|x: String| x@)
}

// ---------------------------------------------------------------------------
// Totals

/// Lines of a node: its own count for a file, the sum over its subtree for a
/// directory.
pub open spec fn node_total(n: TreeNode) -> int
    decreases n, 1nat,
{
    match n {
        TreeNode::File { loc, .. } => loc as int,
        TreeNode::Dir(es) => dir_total(es),
    }
}

pub open spec fn dir_total(es: Seq<(Seq<char>, TreeNode)>) -> int
    decreases es, 0nat,
{
    if es.len() == 0 {
        0
    } else {
        dir_total(es.drop_last()) + node_total(es.last().1)
    }
}

pub proof fn lemma_node_total_nonneg(n: TreeNode)
    ensures
        node_total(n) >= 0,
    decreases n, 1nat,
{
    match n {
        TreeNode::File { .. } => {},
        TreeNode::Dir(es) => lemma_dir_total_nonneg(es),
    }
}

pub proof fn lemma_dir_total_nonneg(es: Seq<(Seq<char>, TreeNode)>)
    ensures
        dir_total(es) >= 0,
    decreases es, 0nat,
{
    if es.len() > 0 {
        lemma_dir_total_nonneg(es.drop_last());
        lemma_node_total_nonneg(es.last().1);
    }
}

/// The total of the first `i + 1` children adds the total of child `i`.
pub proof fn lemma_dir_total_step(es: Seq<(Seq<char>, TreeNode)>, i: int)
    requires
        0 <= i < es.len(),
    ensures
        dir_total(es.take(i + 1)) == dir_total(es.take(i)) + node_total(es[i].1),
{
    assert(es.take(i + 1).drop_last() =~= es.take(i));
}

/// Totals of prefixes never exceed the total of the directory.
pub proof fn lemma_dir_total_prefix(es: Seq<(Seq<char>, TreeNode)>, i: int)
    requires
        0 <= i <= es.len(),
    ensures
        dir_total(es.take(i)) <= dir_total(es),
        0 <= dir_total(es.take(i)),
    decreases es.len() - i,
{
    lemma_dir_total_nonneg(es.take(i));
    if i == es.len() {
        assert(es.take(i) =~= es);
    } else {
        lemma_dir_total_step(es, i);
        lemma_node_total_nonneg(es[i].1);
        lemma_dir_total_prefix(es, i + 1);
    }
}

/// A child's total never exceeds the total of its directory.
pub proof fn lemma_child_total_le(es: Seq<(Seq<char>, TreeNode)>, i: int)
    requires
        0 <= i < es.len(),
    ensures
        node_total(es[i].1) <= dir_total(es),
{
    lemma_dir_total_step(es, i);
    lemma_dir_total_prefix(es, i + 1);
    lemma_dir_total_prefix(es, i);
}

// ---------------------------------------------------------------------------
// Languages

/// A file with language key `k` lies in the subtree.
pub open spec fn node_has_lang(n: TreeNode, k: Seq<char>) -> bool
    decreases n, 1nat,
{
    match n {
        TreeNode::File { lang, .. } => lang == k,
        TreeNode::Dir(es) => dir_has_lang(es, k),
    }
}

pub open spec fn dir_has_lang(es: Seq<(Seq<char>, TreeNode)>, k: Seq<char>) -> bool
    decreases es, 0nat,
{
    exists|i: int| 0 <= i < es.len() && node_has_lang(#[trigger] es[i].1, k)
}

/// Lines of the files with language key `k` in the subtree.
pub open spec fn node_lang_total(n: TreeNode, k: Seq<char>) -> int
    decreases n, 1nat,
{
    match n {
        TreeNode::File { loc, lang } => if lang == k {
            loc as int
        } else {
            0
        },
        TreeNode::Dir(es) => dir_lang_total(es, k),
    }
}

pub open spec fn dir_lang_total(es: Seq<(Seq<char>, TreeNode)>, k: Seq<char>) -> int
    decreases es, 0nat,
{
    if es.len() == 0 {
        0
    } else {
        dir_lang_total(es.drop_last(), k) + node_lang_total(es.last().1, k)
    }
}

/// Each language key present in the subtree, mapped to its lines.
pub open spec fn node_langs(n: TreeNode) -> Map<Seq<char>, int> {
    Map::new(|k: Seq<char>| node_has_lang(n, k), |k: Seq<char>| node_lang_total(n, k))
}

/// Each language key present below a directory, mapped to its lines.
pub open spec fn dir_langs(es: Seq<(Seq<char>, TreeNode)>) -> Map<Seq<char>, int> {
    Map::new(|k: Seq<char>| dir_has_lang(es, k), |k: Seq<char>| dir_lang_total(es, k))
}

pub proof fn lemma_node_lang_absent(n: TreeNode, k: Seq<char>)
    requires
        !node_has_lang(n, k),
    ensures
        node_lang_total(n, k) == 0,
    decreases n, 1nat,
{
    match n {
        TreeNode::File { .. } => {},
        TreeNode::Dir(es) => lemma_dir_lang_absent(es, k),
    }
}

pub proof fn lemma_dir_lang_absent(es: Seq<(Seq<char>, TreeNode)>, k: Seq<char>)
    requires
        !dir_has_lang(es, k),
    ensures
        dir_lang_total(es, k) == 0,
    decreases es, 0nat,
{
    if es.len() > 0 {
        let d = es.drop_last();
        assert(!dir_has_lang(d, k)) by {
            if dir_has_lang(d, k) {
                let i = choose|i: int| 0 <= i < d.len() && node_has_lang(#[trigger] d[i].1, k);
                assert(es[i] == d[i]);
            }
        }
        lemma_dir_lang_absent(d, k);
        assert(!node_has_lang(es[es.len() - 1].1, k));
        lemma_node_lang_absent(es.last().1, k);
    }
}

/// The languages of the first `i + 1` children join those of child `i`.
pub proof fn lemma_dir_langs_step(es: Seq<(Seq<char>, TreeNode)>, i: int)
    requires
        0 <= i < es.len(),
    ensures
        dir_langs(es.take(i + 1)) == union_counts(dir_langs(es.take(i)), node_langs(es[i].1)),
{
    let a = es.take(i);
    let b = es.take(i + 1);
    assert(b.drop_last() =~= a);
    assert forall|k: Seq<char>| #[trigger] dir_has_lang(b, k) == (dir_has_lang(a, k) || node_has_lang(es[i].1, k)) by {
        if dir_has_lang(b, k) {
            let j = choose|j: int| 0 <= j < b.len() && node_has_lang(#[trigger] b[j].1, k);
            if j < i {
                assert(a[j] == b[j]);
            }
        }
        if dir_has_lang(a, k) {
            let j = choose|j: int| 0 <= j < a.len() && node_has_lang(#[trigger] a[j].1, k);
            assert(b[j] == a[j]);
        }
        if node_has_lang(es[i].1, k) {
            assert(b[i] == es[i]);
        }
    }
    assert forall|k: Seq<char>| dir_has_lang(b, k) implies #[trigger] dir_lang_total(b, k) == count_of(
        dir_langs(a),
        k,
    ) + count_of(node_langs(es[i].1), k) by {
        if !dir_has_lang(a, k) {
            lemma_dir_lang_absent(a, k);
        }
        if !node_has_lang(es[i].1, k) {
            lemma_node_lang_absent(es[i].1, k);
        }
    }
    assert(dir_langs(b) =~= union_counts(dir_langs(a), node_langs(es[i].1)));
}

// ---------------------------------------------------------------------------
// Well-formedness: the names of a directory's children are distinct, at
// every level.

pub open spec fn names_distinct(es: Seq<(Seq<char>, TreeNode)>) -> bool {
    forall|i: int, j: int| 0 <= i < j < es.len() ==> es[i].0 != es[j].0
}

pub open spec fn node_wf(n: TreeNode) -> bool
    decreases n, 1nat,
{
    match n {
        TreeNode::File { .. } => true,
        TreeNode::Dir(es) => dir_wf(es),
    }
}

pub open spec fn dir_wf(es: Seq<(Seq<char>, TreeNode)>) -> bool
    decreases es, 0nat,
{
    &&& names_distinct(es)
    &&& forall|i: int| 0 <= i < es.len() ==> node_wf(#[trigger] es[i].1)
}

// ---------------------------------------------------------------------------
// Lookup and insertion

pub open spec fn has_name(es: Seq<(Seq<char>, TreeNode)>, name: Seq<char>) -> bool {
    exists|i: int| 0 <= i < es.len() && es[i].0 == name
}

pub open spec fn index_of(es: Seq<(Seq<char>, TreeNode)>, name: Seq<char>) -> int {
    choose|i: int| 0 <= i < es.len() && es[i].0 == name
}

/// The children with `name` bound to `node`: the entry of that name is
/// replaced in place, or a new one is appended.
pub open spec fn set_entry(es: Seq<(Seq<char>, TreeNode)>, name: Seq<char>, node: TreeNode) -> Seq<
    (Seq<char>, TreeNode),
> {
    if has_name(es, name) {
        es.update(index_of(es, name), (name, node))
    } else {
        es.push((name, node))
    }
}

/// The children of the directory called `name`, or none when there is no such
/// entry or it is a file.
pub open spec fn subdir(es: Seq<(Seq<char>, TreeNode)>, name: Seq<char>) -> Seq<(Seq<char>, TreeNode)> {
    if has_name(es, name) {
        match es[index_of(es, name)].1 {
            TreeNode::Dir(sub) => sub,
            TreeNode::File { .. } => seq![],
        }
    } else {
        seq![]
    }
}

/// Places a file at `path` (at least one component): every directory along
/// the way is created if missing and replaced by an empty directory if a file
/// stands in its place; the last component is bound to the file.
pub open spec fn dir_insert(
    es: Seq<(Seq<char>, TreeNode)>,
    path: Seq<Seq<char>>,
    loc: u64,
    lang: Seq<char>,
) -> Seq<(Seq<char>, TreeNode)>
    decreases path.len(),
{
    if path.len() <= 1 {
        set_entry(es, path[0], TreeNode::File { loc, lang })
    } else {
        set_entry(
            es,
            path[0],
            TreeNode::Dir(dir_insert(subdir(es, path[0]), path.drop_first(), loc, lang)),
        )
    }
}

/// The node found by following `path` from a directory's children.
pub open spec fn lookup(es: Seq<(Seq<char>, TreeNode)>, path: Seq<Seq<char>>) -> Option<TreeNode>
    decreases path.len(),
{
    if path.len() == 0 || !has_name(es, path[0]) {
        None
    } else if path.len() == 1 {
        Some(es[index_of(es, path[0])].1)
    } else {
        match es[index_of(es, path[0])].1 {
            TreeNode::Dir(sub) => lookup(sub, path.drop_first()),
            TreeNode::File { .. } => None,
        }
    }
}

// ---------------------------------------------------------------------------
// Lemmas on the view

pub proof fn lemma_view_entries_index(es: Seq<(String, BuildNode)>)
    ensures
        view_entries(es).len() == es.len(),
        forall|i: int|
            0 <= i < es.len() ==> #[trigger] view_entries(es)[i] == (es[i].0@, view_node(es[i].1)),
    decreases es.len(),
{
    if es.len() > 0 {
        lemma_view_entries_index(es.drop_last());
    }
}

pub proof fn lemma_view_entries_push(es: Seq<(String, BuildNode)>, e: (String, BuildNode))
    ensures
        view_entries(es.push(e)) == view_entries(es).push((e.0@, view_node(e.1))),
{
    assert(es.push(e).drop_last() =~= es);
}

pub proof fn lemma_view_entries_update(es: Seq<(String, BuildNode)>, i: int, e: (String, BuildNode))
    requires
        0 <= i < es.len(),
    ensures
        view_entries(es.update(i, e)) == view_entries(es).update(i, (e.0@, view_node(e.1))),
{
    lemma_view_entries_index(es);
    lemma_view_entries_index(es.update(i, e));
    assert(view_entries(es.update(i, e)) =~= view_entries(es).update(i, (e.0@, view_node(e.1))));
}

// ---------------------------------------------------------------------------
// Lemmas on the model

pub proof fn lemma_index_of(es: Seq<(Seq<char>, TreeNode)>, name: Seq<char>, i: int)
    requires
        names_distinct(es),
        0 <= i < es.len(),
        es[i].0 == name,
    ensures
        has_name(es, name),
        index_of(es, name) == i,
{
    assert(has_name(es, name));
    let k = index_of(es, name);
    if k != i {
        if k < i {
            assert(es[k].0 != es[i].0);
        } else {
            assert(es[i].0 != es[k].0);
        }
    }
}

pub proof fn lemma_set_entry_wf(es: Seq<(Seq<char>, TreeNode)>, name: Seq<char>, node: TreeNode)
    requires
        dir_wf(es),
        node_wf(node),
    ensures
        dir_wf(set_entry(es, name, node)),
{
    let r = set_entry(es, name, node);
    if has_name(es, name) {
        let k = index_of(es, name);
        assert forall|i: int, j: int| 0 <= i < j < r.len() implies r[i].0 != r[j].0 by {
            assert(r[i].0 == es[i].0);
            assert(r[j].0 == es[j].0);
        }
    } else {
        assert forall|i: int, j: int| 0 <= i < j < r.len() implies r[i].0 != r[j].0 by {
            if j == es.len() {
                assert(r[i].0 == es[i].0);
            }
        }
    }
    assert forall|i: int| 0 <= i < r.len() implies node_wf(#[trigger] r[i].1) by {
        if has_name(es, name) && i == index_of(es, name) {
        } else if i < es.len() {
            assert(r[i] == es[i]);
        }
    }
}

pub proof fn lemma_subdir_wf(es: Seq<(Seq<char>, TreeNode)>, name: Seq<char>)
    requires
        dir_wf(es),
    ensures
        dir_wf(subdir(es, name)),
{
    if has_name(es, name) {
        let k = index_of(es, name);
        assert(node_wf(es[k].1));
    }
}

/// Inserting into a well-formed tree keeps it well-formed.
pub proof fn lemma_insert_wf(es: Seq<(Seq<char>, TreeNode)>, path: Seq<Seq<char>>, loc: u64, lang: Seq<char>)
    requires
        dir_wf(es),
        path.len() >= 1,
    ensures
        dir_wf(dir_insert(es, path, loc, lang)),
    decreases path.len(),
{
    if path.len() <= 1 {
        lemma_set_entry_wf(es, path[0], TreeNode::File { loc, lang });
    } else {
        let sub = subdir(es, path[0]);
        lemma_subdir_wf(es, path[0]);
        lemma_insert_wf(sub, path.drop_first(), loc, lang);
        lemma_set_entry_wf(
            es,
            path[0],
            TreeNode::Dir(dir_insert(sub, path.drop_first(), loc, lang)),
        );
    }
}

/// The entry bound by `set_entry` is found again under its name.
pub proof fn lemma_set_entry_found(es: Seq<(Seq<char>, TreeNode)>, name: Seq<char>, node: TreeNode)
    requires
        dir_wf(es),
        node_wf(node),
    ensures
        has_name(set_entry(es, name, node), name),
        set_entry(es, name, node)[index_of(set_entry(es, name, node), name)].1 == node,
{
    let r = set_entry(es, name, node);
    lemma_set_entry_wf(es, name, node);
    let k = if has_name(es, name) {
        index_of(es, name)
    } else {
        es.len() as int
    };
    assert(r[k] == (name, node));
    lemma_index_of(r, name, k);
}

/// Binding one name leaves every other name where it was.
pub proof fn lemma_set_entry_other(
    es: Seq<(Seq<char>, TreeNode)>,
    name: Seq<char>,
    node: TreeNode,
    other: Seq<char>,
)
    requires
        dir_wf(es),
        node_wf(node),
        other != name,
    ensures
        has_name(set_entry(es, name, node), other) == has_name(es, other),
        has_name(es, other) ==> set_entry(es, name, node)[index_of(
            set_entry(es, name, node),
            other,
        )] == es[index_of(es, other)],
{
    let r = set_entry(es, name, node);
    lemma_set_entry_wf(es, name, node);
    if has_name(es, other) {
        let k = index_of(es, other);
        assert(r[k] == es[k]);
        lemma_index_of(r, other, k);
    }
    if has_name(r, other) {
        let k = choose|k: int| 0 <= k < r.len() && r[k].0 == other;
        assert(es[k].0 == other);
    }
}

/// Read after write: the file inserted at a path is what a lookup of that
/// path finds.
pub proof fn lemma_lookup_inserted(
    es: Seq<(Seq<char>, TreeNode)>,
    path: Seq<Seq<char>>,
    loc: u64,
    lang: Seq<char>,
)
    requires
        dir_wf(es),
        path.len() >= 1,
    ensures
        lookup(dir_insert(es, path, loc, lang), path) == Some(TreeNode::File { loc, lang }),
    decreases path.len(),
{
    if path.len() <= 1 {
        lemma_set_entry_found(es, path[0], TreeNode::File { loc, lang });
    } else {
        let sub = subdir(es, path[0]);
        lemma_subdir_wf(es, path[0]);
        lemma_insert_wf(sub, path.drop_first(), loc, lang);
        lemma_lookup_inserted(sub, path.drop_first(), loc, lang);
        lemma_set_entry_found(
            es,
            path[0],
            TreeNode::Dir(dir_insert(sub, path.drop_first(), loc, lang)),
        );
    }
}

/// Two paths diverge when they name different children at some level that
/// both reach.
pub open spec fn paths_diverge(p: Seq<Seq<char>>, q: Seq<Seq<char>>) -> bool {
    exists|k: int| 0 <= k < p.len() && k < q.len() && p[k] != q[k]
}

/// Inserting a file leaves every path that diverges from its own unchanged.
pub proof fn lemma_lookup_unrelated(
    es: Seq<(Seq<char>, TreeNode)>,
    p: Seq<Seq<char>>,
    q: Seq<Seq<char>>,
    loc: u64,
    lang: Seq<char>,
)
    requires
        dir_wf(es),
        p.len() >= 1,
        paths_diverge(p, q),
    ensures
        lookup(dir_insert(es, p, loc, lang), q) == lookup(es, q),
    decreases p.len(),
{
    let k = choose|k: int| 0 <= k < p.len() && k < q.len() && p[k] != q[k];
    if p[0] != q[0] {
        let node = if p.len() <= 1 {
            TreeNode::File { loc, lang }
        } else {
            lemma_subdir_wf(es, p[0]);
            lemma_insert_wf(subdir(es, p[0]), p.drop_first(), loc, lang);
            TreeNode::Dir(dir_insert(subdir(es, p[0]), p.drop_first(), loc, lang))
        };
        assert(dir_insert(es, p, loc, lang) == set_entry(es, p[0], node));
        lemma_set_entry_other(es, p[0], node, q[0]);
    } else {
        assert(k >= 1);
        let sub = subdir(es, p[0]);
        lemma_subdir_wf(es, p[0]);
        assert(p.drop_first()[k - 1] != q.drop_first()[k - 1]);
        lemma_lookup_unrelated(sub, p.drop_first(), q.drop_first(), loc, lang);
        lemma_insert_wf(sub, p.drop_first(), loc, lang);
        lemma_set_entry_found(
            es,
            p[0],
            TreeNode::Dir(dir_insert(sub, p.drop_first(), loc, lang)),
        );
        if !has_name(es, q[0]) {
            assert(lookup(sub, q.drop_first()) == None::<TreeNode>);
        } else {
            match es[index_of(es, q[0])].1 {
                TreeNode::Dir(s2) => {},
                TreeNode::File { .. } => {
                    assert(lookup(sub, q.drop_first()) == None::<TreeNode>);
                },
            }
        }
    }
}

// ---------------------------------------------------------------------------
// Executable insertion

/// Finds the position of the child called `name`.
fn find_entry(es: &Vec<(String, BuildNode)>, name: &String) -> (r: Option<usize>)
    ensures
        match r {
            Some(i) => i < es@.len() && es@[i as int].0@ == name@ && forall|j: int|
                0 <= j < i ==> es@[j].0@ != name@,
            None => forall|j: int| 0 <= j < es@.len() ==> es@[j].0@ != name@,
        },
{
    let mut i: usize = 0;
    while i < es.len()
        invariant
            i <= es@.len(),
            forall|j: int| 0 <= j < i ==> es@[j].0@ != name@,
        decreases es.len() - i,
    {
        if es[i].0 == *name {
            return Some(i);
        }
        i = i + 1;
    }
    None
}

/// Relates the executable search to the model's `has_name` / `index_of`.
proof fn lemma_find_model(es: Seq<(String, BuildNode)>, name: Seq<char>, r: Option<usize>)
    requires
        names_distinct(view_entries(es)),
        match r {
            Some(i) => i < es.len() && es[i as int].0@ == name,
            None => forall|j: int| 0 <= j < es.len() ==> es[j].0@ != name,
        },
    ensures
        match r {
            Some(i) => has_name(view_entries(es), name) && index_of(view_entries(es), name) == i
                && view_entries(es)[i as int].1 == view_node(es[i as int].1),
            None => !has_name(view_entries(es), name),
        },
{
    lemma_view_entries_index(es);
    match r {
        Some(i) => {
            lemma_index_of(view_entries(es), name, i as int);
        },
        None => {
            if has_name(view_entries(es), name) {
                let k = choose|k: int|
                    0 <= k < view_entries(es).len() && view_entries(es)[k].0 == name;
                assert(es[k].0@ == name);
            }
        },
    }
}

fn insert_from(
    dir: &mut Vec<(String, BuildNode)>,
    components: &[String],
    start: usize,
    loc: u64,
    lang: String,
)
    requires
        start < components@.len(),
        dir_wf(view_entries(old(dir)@)),
    ensures
        view_entries(final(dir)@) == dir_insert(
            view_entries(old(dir)@),
            string_views(components@).skip(start as int),
            loc,
            lang@,
        ),
    decreases components@.len() - start,
{
    let ghost old_view = view_entries(dir@);
    let ghost path = string_views(components@).skip(start as int);
    let name = &components[start];
    assert(path[0] == name@);
    let found = find_entry(dir, name);
    proof {
        lemma_find_model(dir@, name@, found);
    }
    if start + 1 == components.len() {
        let entry = (name.clone(), BuildNode::File { loc, lang });
        match found {
            Some(i) => {
                proof {
                    lemma_view_entries_update(dir@, i as int, entry);
                }
                dir.set(i, entry);
            },
            None => {
                proof {
                    lemma_view_entries_push(dir@, entry);
                }
                dir.push(entry);
            },
        }
        assert(path.len() == 1);
    } else {
        let mut sub: Vec<(String, BuildNode)> = Vec::new();
        let ghost before = dir@;
        match found {
            Some(i) => {
                let (old_name, node) = dir.remove(i);
                match node {
                    BuildNode::Dir(children) => {
                        sub = children;
                    },
                    BuildNode::File { .. } => {},
                }
                proof {
                    lemma_view_entries_index(before);
                }
            },
            None => {},
        }
        assert(view_entries(sub@) == subdir(old_view, path[0]));
        proof {
            lemma_subdir_wf(old_view, path[0]);
        }
        insert_from(&mut sub, components, start + 1, loc, lang);
        assert(string_views(components@).skip(start + 1) =~= path.drop_first());
        let entry = (name.clone(), BuildNode::Dir(sub));
        match found {
            Some(i) => {
                dir.insert(i, entry);
                assert(dir@ =~= before.update(i as int, entry));
                proof {
                    lemma_view_entries_update(before, i as int, entry);
                }
            },
            None => {
                proof {
                    lemma_view_entries_push(dir@, entry);
                }
                dir.push(entry);
            },
        }
    }
}

/// Inserts a file with `loc` lines in language `lang` at the path
/// `components` (at least one component) below the directory `root`.
pub fn insert(root: &mut Vec<(String, BuildNode)>, components: &[String], loc: u64, lang: String)
    requires
        components@.len() >= 1,
        dir_wf(view_entries(old(root)@)),
    ensures
        view_entries(final(root)@) == dir_insert(
            view_entries(old(root)@),
            string_views(components@),
            loc,
            lang@,
        ),
        dir_wf(view_entries(final(root)@)),
{
    insert_from(root, components, 0, loc, lang);
    assert(string_views(components@).skip(0) =~= string_views(components@));
    proof {
        lemma_insert_wf(view_entries(old(root)@), string_views(components@), loc, lang@);
    }
}

} // verus!
