//! Walking an archive: which entries are counted, and how they build the
//! line-count tree.

use vstd::prelude::*;
use crate::archive::{
    archive_entries, entries_source, entry_is_regular, entry_item, entry_path, entry_read_to_end,
    entries_failed, entry_source, io_error_text, next_entry, open_tarball, path_components, path_components_of,
    pending_entries, tarball_data_read, tarball_entries, tarball_paths_read, tarball_reads,
    tarball_walks,
};
use crate::error::AppError;
use crate::files::{
    count_lines, extension_key, extension_key_of, is_binary, line_count,
    looks_binary,
};
use crate::filters::{filter_views, matches_filters, passes_filters, Filter};
use crate::locs::{finalize, locs_consistent, spec_finalize, Locs};
use crate::text::concat;
use crate::tree::{
    dir_insert, dir_total, dir_wf, insert, lemma_view_entries_index, string_views, view_entries,
    view_node, BuildNode, TreeNode,
};

verus! {

/// What an archive entry contributes: whether it is a regular file, the
/// components of its path, and its content.
pub struct EntryView {
    pub regular: bool,
    pub path: Seq<Seq<char>>,
    pub content: Seq<u8>,
}

/// An archive entry as plain values.
pub struct ArchiveEntry {
    pub regular: bool,
    pub path: Vec<String>,
    pub content: Vec<u8>,
}

impl View for ArchiveEntry {
    type V = EntryView;

    open spec fn view(&self) -> EntryView {
        EntryView { regular: self.regular, path: string_views(self.path@), content: self.content@ }
    }
}

pub open spec fn entry_views(es: Seq<ArchiveEntry>) -> Seq<EntryView> {
    es.map_values(|e: ArchiveEntry| e@)
}

/// The path below the archive's synthetic root directory (e.g.
/// "owner-repo-sha/"), which is dropped.
pub open spec fn counted_path(path: Seq<Seq<char>>) -> Seq<Seq<char>> {
    path.drop_first()
}

/// Whether an entry is counted: a regular file with a path below the root
/// directory, a language key that passes the filters, and no NUL byte among
/// its first bytes.
pub open spec fn entry_counted(e: EntryView, filters: Seq<Seq<char>>) -> bool {
    &&& e.regular
    &&& e.path.len() > 1
    &&& passes_filters(filters, extension_key_of(counted_path(e.path).last()))
    &&& !looks_binary(e.content)
}

/// Counting one entry: a counted entry places a file with its line count and
/// language key at its path below the root directory; others change nothing.
pub open spec fn count_entry(
    root: Seq<(Seq<char>, TreeNode)>,
    e: EntryView,
    filters: Seq<Seq<char>>,
) -> Seq<(Seq<char>, TreeNode)> {
    if entry_counted(e, filters) {
        let path = counted_path(e.path);
        dir_insert(root, path, line_count(e.content) as u64, extension_key_of(path.last()))
    } else {
        root
    }
}

/// The tree built from a sequence of entries, in order.
pub open spec fn build_tree(entries: Seq<EntryView>, filters: Seq<Seq<char>>) -> Seq<
    (Seq<char>, TreeNode),
>
    decreases entries.len(),
{
    if entries.len() == 0 {
        seq![]
    } else {
        count_entry(build_tree(entries.drop_last(), filters), entries.last(), filters)
    }
}

proof fn lemma_build_tree_push(entries: Seq<EntryView>, e: EntryView, filters: Seq<Seq<char>>)
    ensures
        build_tree(entries.push(e), filters) == count_entry(build_tree(entries, filters), e, filters),
{
    assert(entries.push(e).drop_last() =~= entries);
}

/// Whatever the entries, the tree they build has distinct names at every
/// level.
pub proof fn lemma_build_tree_wf(entries: Seq<EntryView>, filters: Seq<Seq<char>>)
    ensures
        dir_wf(build_tree(entries, filters)),
    decreases entries.len(),
{
    if entries.len() > 0 {
        lemma_build_tree_wf(entries.drop_last(), filters);
        let e = entries.last();
        if entry_counted(e, filters) {
            let path = counted_path(e.path);
            crate::tree::lemma_insert_wf(
                build_tree(entries.drop_last(), filters),
                path,
                line_count(e.content) as u64,
                extension_key_of(path.last()),
            );
        }
    }
}

/// Without filters, every regular file below the root directory that does
/// not look binary is counted; with filters, a file whose language key no
/// filter matches is not.
pub proof fn lemma_filters_select(e: EntryView, filters: Seq<Seq<char>>)
    ensures
        filters.len() == 0 ==> (entry_counted(e, filters) <==> (e.regular && e.path.len() > 1
            && !looks_binary(e.content))),
        (e.path.len() > 1 && filters.len() > 0 && forall|i: int|
            0 <= i < filters.len() ==> !crate::filters::regex_is_match(
                filters[i],
                extension_key_of(counted_path(e.path).last()),
            )) ==> !entry_counted(e, filters),
{
}

/// The regular-file entries among some entries, in order.
pub open spec fn regular_entries(entries: Seq<EntryView>) -> Seq<EntryView> {
    entries.filter(|e: EntryView| e.regular)
}

/// Entries that are not regular files (directories, links, devices and the
/// like) never change the tree: dropping them all gives the same tree.
pub proof fn lemma_irregular_entries_ignored(entries: Seq<EntryView>, filters: Seq<Seq<char>>)
    ensures
        build_tree(regular_entries(entries), filters) == build_tree(entries, filters),
    decreases entries.len(),
{
    reveal(Seq::filter);
    if entries.len() > 0 {
        let rest = entries.drop_last();
        let e = entries.last();
        lemma_irregular_entries_ignored(rest, filters);
        if e.regular {
            assert(regular_entries(entries) == regular_entries(rest).push(e));
            lemma_build_tree_push(regular_entries(rest), e, filters);
        } else {
            assert(regular_entries(entries) == regular_entries(rest));
        }
    }
}

/// A tarball whose entries, as counting sees them, are another tarball's
/// regular-file entries in the same order builds the same tree: the entries
/// that are not regular files never count.
pub proof fn lemma_stripped_tarball(tarball: Seq<u8>, stripped: Seq<u8>, filters: Seq<Seq<char>>)
    requires
        tarball_views(stripped) == regular_entries(tarball_views(tarball)),
    ensures
        build_tree(tarball_views(stripped), filters) == build_tree(tarball_views(tarball), filters),
{
    lemma_irregular_entries_ignored(tarball_views(tarball), filters);
}

/// Whether a pattern matches every language key.
pub open spec fn matches_every_key(pattern: Seq<char>) -> bool {
    forall|k: Seq<char>| #[trigger] crate::filters::regex_is_match(pattern, k)
}

/// A filter list with a pattern that matches every language key selects
/// what no filters select: the tree is the unfiltered one.
pub proof fn lemma_match_all_filter(entries: Seq<EntryView>, filters: Seq<Seq<char>>)
    requires
        exists|i: int| 0 <= i < filters.len() && #[trigger] matches_every_key(filters[i]),
    ensures
        build_tree(entries, filters) == build_tree(entries, Seq::<Seq<char>>::empty()),
    decreases entries.len(),
{
    if entries.len() > 0 {
        let rest = entries.drop_last();
        let e = entries.last();
        lemma_match_all_filter(rest, filters);
        let i = choose|i: int| 0 <= i < filters.len() && #[trigger] matches_every_key(filters[i]);
        if e.path.len() > 1 {
            let key = extension_key_of(counted_path(e.path).last());
            assert(crate::filters::regex_is_match(filters[i], key));
            assert(passes_filters(filters, key));
        }
        assert(entry_counted(e, filters) == entry_counted(e, Seq::<Seq<char>>::empty()));
    }
}

/// A counted entry is found at its path below the root directory, as a file
/// with its line count and language key, right after it is counted.
pub proof fn lemma_counted_entry_found(
    root: Seq<(Seq<char>, TreeNode)>,
    e: EntryView,
    filters: Seq<Seq<char>>,
)
    requires
        dir_wf(root),
        entry_counted(e, filters),
    ensures
        crate::tree::lookup(count_entry(root, e, filters), counted_path(e.path)) == Some(
            TreeNode::File {
                loc: line_count(e.content) as u64,
                lang: extension_key_of(counted_path(e.path).last()),
            },
        ),
{
    let path = counted_path(e.path);
    crate::tree::lemma_lookup_inserted(
        root,
        path,
        line_count(e.content) as u64,
        extension_key_of(path.last()),
    );
}

/// Counting one entry changes the tree only at that entry's path below the
/// root directory: every path that diverges from it finds the same node
/// before and after, so the files beside it stay where they are.
pub proof fn lemma_count_entry_frame(
    root: Seq<(Seq<char>, TreeNode)>,
    e: EntryView,
    filters: Seq<Seq<char>>,
    q: Seq<Seq<char>>,
)
    requires
        dir_wf(root),
        exists|k: int| 0 <= k < e.path.len() - 1 && k < q.len() && e.path[k + 1] != q[k],
    ensures
        crate::tree::lookup(count_entry(root, e, filters), q) == crate::tree::lookup(root, q),
{
    if entry_counted(e, filters) {
        let path = counted_path(e.path);
        let k = choose|k: int| 0 <= k < e.path.len() - 1 && k < q.len() && e.path[k + 1] != q[k];
        assert(path[k] == e.path[k + 1]);
        assert(crate::tree::paths_diverge(path, q));
        crate::tree::lemma_lookup_unrelated(
            root,
            path,
            q,
            line_count(e.content) as u64,
            extension_key_of(path.last()),
        );
    }
}

/// Adding an entry at the end of the walk leaves every path that diverges
/// from the entry's own path below the root directory as it was.
pub proof fn lemma_build_tree_frame(
    entries: Seq<EntryView>,
    e: EntryView,
    filters: Seq<Seq<char>>,
    q: Seq<Seq<char>>,
)
    requires
        exists|k: int| 0 <= k < e.path.len() - 1 && k < q.len() && e.path[k + 1] != q[k],
    ensures
        crate::tree::lookup(build_tree(entries.push(e), filters), q) == crate::tree::lookup(
            build_tree(entries, filters),
            q,
        ),
{
    lemma_build_tree_wf(entries, filters);
    lemma_build_tree_push(entries, e, filters);
    lemma_count_entry_frame(build_tree(entries, filters), e, filters, q);
}

/// A regular file below the root directory with no 0 byte among its first
/// 8000 bytes, whose extension key some filter matches (or with no filters
/// at all), is counted: right after it, its path below the root holds a file
/// with its line count and its extension key, whatever its name.
pub proof fn lemma_selected_file_counted(
    root: Seq<(Seq<char>, TreeNode)>,
    e: EntryView,
    filters: Seq<Seq<char>>,
)
    requires
        dir_wf(root),
        e.regular,
        e.path.len() > 1,
        forall|i: int| 0 <= i < e.content.len() && i < 8000 ==> e.content[i] != 0u8,
        filters.len() == 0 || exists|i: int|
            0 <= i < filters.len() && crate::filters::regex_is_match(
                filters[i],
                extension_key_of(e.path.last()),
            ),
    ensures
        crate::tree::lookup(count_entry(root, e, filters), e.path.drop_first()) == Some(
            TreeNode::File {
                loc: line_count(e.content) as u64,
                lang: extension_key_of(e.path.last()),
            },
        ),
{
    assert(counted_path(e.path).last() == e.path.last());
    if looks_binary(e.content) {
        let i = choose|i: int|
            0 <= i < e.content.len() && i < crate::files::binary_sample_len() && e.content[i] == 0u8;
        assert(e.content[i] != 0u8);
    }
    assert(entry_counted(e, filters));
    lemma_counted_entry_found(root, e, filters);
}

/// The message of an archive whose line counts exceed a 64-bit counter.
pub open spec fn overflow_message() -> Seq<char> {
    "line count exceeds the range of a 64-bit counter"@
}

/// Whether `m` begins with `prefix`.
pub open spec fn starts_with(m: Seq<char>, prefix: Seq<char>) -> bool {
    prefix.len() <= m.len() && m.take(prefix.len() as int) == prefix
}

/// The beginning of the message when the archive cannot be walked at all.
pub open spec fn archive_error_prefix() -> Seq<char> {
    "invalid archive: "@
}

/// The beginning of the message when `tar` fails to read the next entry.
pub open spec fn entry_error_prefix() -> Seq<char> {
    "invalid archive entry: "@
}

/// An error message: `prefix` followed by `detail`.
fn error_message(prefix: &str, detail: &str) -> (m: String)
    ensures
        m@ == prefix@ + detail@,
        starts_with(m@, prefix@),
{
    let m = concat(&[prefix, detail]);
    proof {
        assert(seq![prefix, detail].map_values(|p: &str| p@) =~= seq![prefix@, detail@]);
        crate::text::lemma_concat_two(prefix@, detail@);
        assert((prefix@ + detail@).take(prefix@.len() as int) =~= prefix@);
    }
    m
}

/// The components below the archive's root directory, if any remain.
fn counted_components(mut path: Vec<String>) -> (r: Option<Vec<String>>)
    ensures
        match r {
            Some(c) => path@.len() > 1 && string_views(c@) == counted_path(string_views(path@)),
            None => path@.len() <= 1,
        },
{
    if path.len() <= 1 {
        return None;
    }
    let ghost before = path@;
    path.remove(0);
    assert(string_views(path@) =~= counted_path(string_views(before)));
    Some(path)
}

/// The per-entry decision for a regular file with the given path
/// components: when its path lies below the root directory and its language
/// key passes the filters, the components below the root and the key.
fn select_file(all: Vec<String>, filters: &[Filter]) -> (r: Option<(Vec<String>, String)>)
    ensures
        match r {
            Some((components, lang)) => {
                &&& string_views(all@).len() > 1
                &&& string_views(components@) == counted_path(string_views(all@))
                &&& lang@ == extension_key_of(counted_path(string_views(all@)).last())
                &&& passes_filters(filter_views(filters@), lang@)
            },
            None => !(string_views(all@).len() > 1 && passes_filters(
                filter_views(filters@),
                extension_key_of(counted_path(string_views(all@)).last()),
            )),
        },
{
    let ghost all_view = string_views(all@);
    let components = match counted_components(all) {
        Some(components) => components,
        None => {
            return None;
        },
    };
    assert(string_views(components@).len() == components@.len());
    let last = components.len() - 1;
    let lang = extension_key(components[last].as_str());
    assert(counted_path(all_view).last() == components@[last as int]@);
    if !matches_filters(filters, lang.as_str()) {
        return None;
    }
    Some((components, lang))
}

/// Places a file with the content's line count at `components`, unless the
/// content looks binary.
fn add_file(root: &mut Vec<(String, BuildNode)>, components: &[String], content: &[u8], lang: String)
    requires
        components@.len() >= 1,
        dir_wf(view_entries(old(root)@)),
    ensures
        dir_wf(view_entries(final(root)@)),
        view_entries(final(root)@) == if looks_binary(content@) {
            view_entries(old(root)@)
        } else {
            dir_insert(
                view_entries(old(root)@),
                string_views(components@),
                line_count(content@) as u64,
                lang@,
            )
        },
{
    if is_binary(content) {
        return;
    }
    let loc = count_lines(content);
    insert(root, components, loc, lang);
}

/// Total lines of the tree, when it fits in a `u64`.
fn tree_total(es: &Vec<(String, BuildNode)>) -> (r: Option<u64>)
    ensures
        match r {
            Some(t) => t == dir_total(view_entries(es@)),
            None => dir_total(view_entries(es@)) > u64::MAX,
        },
    decreases es@,
{
    let ghost v = view_entries(es@);
    proof {
        lemma_view_entries_index(es@);
    }
    let mut total: u64 = 0;
    let mut i: usize = 0;
    assert(v.take(0) =~= Seq::<(Seq<char>, TreeNode)>::empty());
    while i < es.len()
        invariant
            v == view_entries(es@),
            v.len() == es@.len(),
            forall|j: int| 0 <= j < es@.len() ==> #[trigger] v[j] == (es@[j].0@, view_node(es@[j].1)),
            i <= es@.len(),
            total == dir_total(v.take(i as int)),
        decreases es.len() - i,
    {
        proof {
            crate::tree::lemma_dir_total_step(v, i as int);
        }
        let n = match &es[i].1 {
            BuildNode::File { loc, .. } => *loc,
            BuildNode::Dir(sub) => match tree_total(sub) {
                Some(t) => t,
                None => {
                    proof {
                        crate::tree::lemma_dir_total_prefix(v, i as int);
                        crate::tree::lemma_dir_total_prefix(v, i as int + 1);
                    }
                    return None;
                },
            },
        };
        if n > u64::MAX - total {
            proof {
                crate::tree::lemma_dir_total_prefix(v, i as int + 1);
            }
            return None;
        }
        total = total + n;
        i = i + 1;
    }
    assert(v.take(es@.len() as int) =~= v);
    Some(total)
}

/// Line counts of the finished tree, or the overflow error when they do not
/// fit in 64 bits.
fn finish(root: Vec<(String, BuildNode)>) -> (r: Result<Locs, AppError>)
    requires
        dir_wf(view_entries(root@)),
    ensures
        dir_total(view_entries(root@)) <= u64::MAX ==> (r matches Ok(l) && l@ == spec_finalize(
            view_entries(root@),
        ) && locs_consistent(l)),
        dir_total(view_entries(root@)) > u64::MAX ==> (r matches Err(AppError::Upstream(m)) && m@
            == overflow_message()),
{
    match tree_total(&root) {
        Some(_) => Ok(finalize(root)),
        None => {
            let m = String::from_str("line count exceeds the range of a 64-bit counter");
            proof {
                reveal_strlit("line count exceeds the range of a 64-bit counter");
            }
            Err(AppError::Upstream(m))
        },
    }
}

/// Counts the lines of the given archive entries, in order, as
/// `compute_locs` does for the entries of a tarball.
pub fn tally_entries(entries: &[ArchiveEntry], filters: &[Filter]) -> (r: Result<Locs, AppError>)
    ensures
        ({
            let t = build_tree(entry_views(entries@), filter_views(filters@));
            &&& dir_total(t) <= u64::MAX ==> (r matches Ok(l) && l@ == spec_finalize(t)
                && locs_consistent(l))
            &&& dir_total(t) > u64::MAX ==> (r matches Err(AppError::Upstream(m)) && m@
                == overflow_message())
        }),
        r matches Err(e) ==> e is Upstream,
{
    let ghost fv = filter_views(filters@);
    let ghost ev = entry_views(entries@);
    let mut root: Vec<(String, BuildNode)> = Vec::new();
    let mut i: usize = 0;
    assert(ev.take(0) =~= Seq::<EntryView>::empty());
    while i < entries.len()
        invariant
            fv == filter_views(filters@),
            ev == entry_views(entries@),
            i <= entries@.len(),
            view_entries(root@) == build_tree(ev.take(i as int), fv),
            dir_wf(view_entries(root@)),
        decreases entries.len() - i,
    {
        let e = &entries[i];
        assert(ev.take(i as int + 1) =~= ev.take(i as int).push(e@));
        proof {
            lemma_build_tree_push(ev.take(i as int), e@, fv);
        }
        if e.regular {
            match select_file(e.path.clone(), filters) {
                Some((components, lang)) => {
                    add_file(&mut root, components.as_slice(), e.content.as_slice(), lang);
                },
                None => {},
            }
        }
        i = i + 1;
    }
    assert(ev.take(entries@.len() as int) =~= ev);
    finish(root)
}

/// An archive entry as counting sees it: its path split into components.
pub open spec fn item_view(item: (bool, Seq<char>, Seq<u8>)) -> EntryView {
    EntryView { regular: item.0, path: path_components_of(item.1), content: item.2 }
}

/// The entries of a gzipped tarball, as counting sees them.
pub open spec fn tarball_views(tarball: Seq<u8>) -> Seq<EntryView> {
    tarball_entries(tarball).map_values(|item: (bool, Seq<char>, Seq<u8>)| item_view(item))
}

/// Walks a gzipped tarball held in memory, counting lines of code per file,
/// aggregated into a directory tree broken down by language key. When it
/// succeeds, the result is the line counts of the tree that the tarball's
/// entries build, and it is consistent at every level; it succeeds only on a
/// tarball that `tar` walks to the end of the archive. A tarball that `tar`
/// reads to its end gives that result, or the overflow error when its line
/// counts do not fit in 64 bits. Every error is `Upstream`.
pub fn compute_locs(tarball: &[u8], filters: &[Filter]) -> (r: Result<Locs, AppError>)
    ensures
        r matches Ok(l) ==> ({
            let t = build_tree(tarball_views(tarball@), filter_views(filters@));
            &&& tarball_walks(tarball@)
            &&& dir_total(t) <= u64::MAX
            &&& l@ == spec_finalize(t)
            &&& locs_consistent(l)
        }),
        tarball_reads(tarball@) && tarball_entries(tarball@).len() < u64::MAX ==> ({
            let t = build_tree(tarball_views(tarball@), filter_views(filters@));
            &&& dir_total(t) <= u64::MAX ==> r is Ok
            &&& dir_total(t) > u64::MAX ==> (r matches Err(AppError::Upstream(m)) && m@
                == overflow_message())
        }),
        r matches Err(e) ==> e is Upstream,
        r matches Err(AppError::Upstream(m)) ==> {
            ||| m@ == overflow_message()
            ||| starts_with(m@, archive_error_prefix())
            ||| starts_with(m@, entry_error_prefix())
            ||| !tarball_paths_read(tarball@)
            ||| !tarball_data_read(tarball@)
        },
        tarball_paths_read(tarball@) && tarball_data_read(tarball@) && !tarball_walks(tarball@)
            && tarball_entries(tarball@).len() < u64::MAX ==> (r matches Err(AppError::Upstream(m))
            && starts_with(m@, entry_error_prefix())),
        r matches Err(AppError::Upstream(m)) ==> {
            ||| m@ == overflow_message()
            ||| starts_with(m@, archive_error_prefix())
            ||| starts_with(m@, entry_error_prefix())
            ||| !tarball_paths_read(tarball@)
            ||| !tarball_data_read(tarball@)
        },
        tarball_paths_read(tarball@) && tarball_data_read(tarball@) && !tarball_walks(tarball@)
            && tarball_entries(tarball@).len() < u64::MAX ==> (r matches Err(AppError::Upstream(m))
            && starts_with(m@, entry_error_prefix())),
{
    let ghost fv = filter_views(filters@);
    let ghost all_items = tarball_entries(tarball@);
    let mut archive = open_tarball(tarball);
    let mut entries = match archive_entries(&mut archive) {
        Ok(entries) => entries,
        Err(e) => {
            let text = io_error_text(&e);
            return Err(AppError::Upstream(error_message("invalid archive: ", text.as_str())));
        },
    };
    let mut root: Vec<(String, BuildNode)> = Vec::new();
    let ghost mut seen: Seq<(bool, Seq<char>, Seq<u8>)> = seq![];
    let mut budget: u64 = u64::MAX;
    loop
        invariant_except_break
            all_items == seen + pending_entries(entries),
            budget as int + seen.len() == u64::MAX,
            entries_source(entries) == tarball@,
            !entries_failed(entries),
        invariant
            fv == filter_views(filters@),
            all_items == tarball_entries(tarball@),
            view_entries(root@) == build_tree(seen.map_values(|item: (bool, Seq<char>, Seq<u8>)| item_view(item)), fv),
            dir_wf(view_entries(root@)),
        ensures
            all_items == seen,
            tarball_walks(tarball@),
            view_entries(root@) == build_tree(seen.map_values(|item: (bool, Seq<char>, Seq<u8>)| item_view(item)), fv),
            dir_wf(view_entries(root@)),
        decreases budget,
    {
        if budget == 0 {
            return Err(AppError::Upstream(error_message("invalid archive: ", "too many entries")));
        }
        budget = budget - 1;
        let ghost before = pending_entries(entries);
        let entry = match next_entry(&mut entries) {
            None => {
                assert(all_items =~= seen);
                break;
            },
            Some(Err(e)) => {
                assert(!tarball_reads(tarball@));
                let text = io_error_text(&e);
                return Err(AppError::Upstream(error_message("invalid archive entry: ", text.as_str())));
            },
            Some(Ok(entry)) => entry,
        };
        let ghost item = entry_item(entry);
        let ghost old_seen = seen;
        proof {
            seen = seen.push(item);
            assert(all_items =~= seen + before.drop_first()) by {
                assert(before =~= seq![item] + before.drop_first());
            }
            let f = |it: (bool, Seq<char>, Seq<u8>)| item_view(it);
            assert(seen.map_values(f) =~= old_seen.map_values(f).push(item_view(item)));
            lemma_build_tree_push(old_seen.map_values(f), item_view(item), fv);
        }
        if !entry_is_regular(&entry) {
            continue;
        }
        let path = match entry_path(&entry) {
            Ok(path) => path,
            Err(e) => {
                return Err(AppError::Upstream(io_error_text(&e)));
            },
        };
        let all = path_components(path.as_str());
        assert(string_views(all@) == item_view(item).path);
        let (components, lang) = match select_file(all, filters) {
            Some(selected) => selected,
            None => {
                continue;
            },
        };
        let content = match entry_read_to_end(entry) {
            Ok(content) => content,
            Err(e) => {
                return Err(AppError::Upstream(io_error_text(&e)));
            },
        };
        add_file(&mut root, components.as_slice(), content.as_slice(), lang);
    }
    assert(seen.map_values(|item: (bool, Seq<char>, Seq<u8>)| item_view(item)) =~= tarball_views(tarball@));
    finish(root)
}

} // verus!
