//! The direct children of a directory, picked out of a listing that may
//! reach deeper and may name the directory itself.

use vstd::prelude::*;
use vstd::slice::{slice_subrange, slice_to_vec};
use crate::entry::{text_view, FileEntry, FileEntryView, RawEntry, RawEntryView};
use crate::path::{
    chars_of, depth, has_slash, leading_slash_len, lemma_query_prefix, lemma_slash_count_zero,
    query_prefix, relative_path, starts_with, strip_leading_slash, trim_slashes, trimmed_bounds,
    SEPARATOR,
};

verus! {

/// The display name that a path relative to a directory stands for: the path
/// without one leading and one trailing separator. `None` where the path is
/// the directory itself, reaches deeper than one segment, or leaves an empty
/// name.
pub open spec fn segment_name(relative: Seq<char>) -> Option<Seq<char>> {
    let trimmed = trim_slashes(relative);
    if relative.len() == 0 || relative == seq![SEPARATOR] {
        None
    } else if trimmed.contains(SEPARATOR) {
        None
    } else if trimmed.len() == 0 {
        None
    } else {
        Some(trimmed)
    }
}

/// The display name of the entry at `path` if it is a direct child of the
/// directory with the given prefix, `None` if it is not.
pub open spec fn child_name(prefix: Seq<char>, path: Seq<char>) -> Option<Seq<char>> {
    segment_name(relative_path(prefix, path))
}

/// What a listing of the directory with the given prefix shows of `raw`:
/// the entry under its display name, or nothing.
pub open spec fn listed(prefix: Seq<char>, raw: RawEntryView) -> Option<FileEntryView> {
    match child_name(prefix, raw.path) {
        Some(name) => Some(raw.named(name)),
        None => None,
    }
}

/// The direct children of the directory `query` among `raws`, in the order
/// in which `raws` holds them.
pub open spec fn direct_children(query: Seq<char>, raws: Seq<RawEntryView>) -> Seq<FileEntryView> {
    raws.filter_map(|raw: RawEntryView| listed(query_prefix(query), raw))
}

/// The prefix under which the entries of the directory `query_path` are
/// reported.
pub fn prefix_of_query(query_path: &str) -> (prefix: Vec<char>)
    ensures
        prefix@ == query_prefix(query_path@),
{
    let query = chars_of(query_path);
    let skip = leading_slash_len(query.as_slice());
    let prefix = slice_to_vec(slice_subrange(query.as_slice(), skip, query.len()));
    proof {
        lemma_query_prefix(query_path@);
        assert(prefix@ =~= strip_leading_slash(query_path@));
    }
    prefix
}

/// Where in `relative` the display name that it stands for lies.
pub fn segment_name_bounds(relative: &[char]) -> (bounds: Option<(usize, usize)>)
    ensures
        match bounds {
            Some((lo, hi)) => {
                &&& lo <= hi <= relative.len()
                &&& lo == relative.len() - strip_leading_slash(relative@).len()
                &&& segment_name(relative@) == Some(relative@.subrange(lo as int, hi as int))
            },
            None => segment_name(relative@) is None,
        },
{
    if relative.len() == 0 {
        return None;
    }
    if relative.len() == 1 && relative[0] == SEPARATOR {
        assert(relative@ =~= seq![SEPARATOR]);
        return None;
    }
    assert(relative@ != seq![SEPARATOR]) by {
        if relative@.len() == 1 {
            assert(seq![SEPARATOR][0] == SEPARATOR);
        }
    }
    let (lo, hi) = trimmed_bounds(relative);
    if has_slash(slice_subrange(relative, lo, hi)) || lo == hi {
        return None;
    }
    Some((lo, hi))
}

/// Where in `path` the display name of a direct child stands.
pub fn child_name_bounds(prefix: &[char], path: &[char]) -> (bounds: Option<(usize, usize)>)
    ensures
        match bounds {
            Some((lo, hi)) => {
                &&& lo <= hi <= path.len()
                &&& lo == path.len() - strip_leading_slash(relative_path(prefix@, path@)).len()
                &&& child_name(prefix@, path@) == Some(path@.subrange(lo as int, hi as int))
            },
            None => child_name(prefix@, path@) is None,
        },
{
    let start = if starts_with(path, prefix) {
        prefix.len()
    } else {
        0
    };
    let relative = slice_subrange(path, start, path.len());
    assert(relative@ =~= relative_path(prefix@, path@));
    match segment_name_bounds(relative) {
        Some((lo, hi)) => {
            assert(relative@.subrange(lo as int, hi as int) =~= path@.subrange(
                start + lo as int,
                start + hi as int,
            ));
            Some((start + lo, start + hi))
        },
        None => None,
    }
}

/// The display name of the entry at `entry_path` if it is a direct child of
/// the directory `query_path`.
pub fn direct_child_name(query_path: &str, entry_path: &str) -> (name: Option<String>)
    ensures
        text_view(name) == child_name(query_prefix(query_path@), entry_path@),
{
    let prefix = prefix_of_query(query_path);
    name_under(prefix.as_slice(), entry_path)
}

/// The display name of the entry at `entry_path` if it is a direct child of
/// the directory with the given prefix.
pub fn name_under(prefix: &[char], entry_path: &str) -> (name: Option<String>)
    ensures
        text_view(name) == child_name(prefix@, entry_path@),
{
    let path = chars_of(entry_path);
    match child_name_bounds(prefix, path.as_slice()) {
        Some((lo, hi)) => Some(entry_path.substring_char(lo, hi).to_owned()),
        None => None,
    }
}

/// Reduces the listing that the storage backend gave for the directory
/// `query_path` to that directory's direct children, each under its display
/// name, in the order of the listing.
pub fn filter_direct_children(query_path: &str, raw_entries: &[RawEntry]) -> (entries: Vec<
    FileEntry,
>)
    ensures
        entries.deep_view() == direct_children(query_path@, raw_entries.deep_view()),
        entries.len() <= raw_entries.len(),
        forall|j: int|
            #![trigger entries[j]]
            0 <= j < entries.len() ==> {
                let relative = relative_path(query_prefix(query_path@), entries[j].path@);
                &&& depth(relative) == 1
                &&& entries[j].name@ == trim_slashes(relative)
                &&& entries[j].name@.len() > 0
                &&& !entries[j].name@.contains(SEPARATOR)
            },
{
    let prefix = prefix_of_query(query_path);
    let ghost raws = raw_entries.deep_view();
    let ghost pick = |raw: RawEntryView| listed(query_prefix(query_path@), raw);
    let mut entries: Vec<FileEntry> = Vec::new();
    let mut i: usize = 0;
    assert(raws.take(0).filter_map(pick) =~= Seq::<FileEntryView>::empty());
    while i < raw_entries.len()
        invariant
            i <= raw_entries.len(),
            prefix@ == query_prefix(query_path@),
            raws == raw_entries.deep_view(),
            pick == |raw: RawEntryView| listed(query_prefix(query_path@), raw),
            entries.deep_view() == raws.take(i as int).filter_map(pick),
            entries.len() <= i,
        decreases raw_entries.len() - i,
    {
        let raw = &raw_entries[i];
        let ghost before = entries.deep_view();
        proof {
            raws.lemma_filter_map_take_succ(pick, i as int);
            assert(raws[i as int] == raw@);
        }
        match name_under(prefix.as_slice(), raw.path.as_str()) {
            Some(name) => {
                let entry = raw.named(name);
                entries.push(entry);
                assert(entries.deep_view() =~= before + seq![entry@]);
            },
            None => {},
        }
        i += 1;
    }
    proof {
        assert(raws.take(i as int) =~= raws);
        lemma_children_are_single_segments(query_path@, raws);
        assert forall|j: int| 0 <= j < entries.len() implies (#[trigger] entries[j])@
            == direct_children(query_path@, raws)[j] by {
            assert(entries.deep_view()[j] == entries[j]@);
        }
    }
    entries
}

/// The raw forms of a sequence of entries: each without its name.
pub open spec fn raw_forms(entries: Seq<FileEntryView>) -> Seq<RawEntryView> {
    entries.map_values(|entry: FileEntryView| entry.raw())
}

/// A relative path stands for a display name exactly if its depth is 1, and
/// the name is then the path without one leading and one trailing separator.
pub proof fn lemma_segment_name_by_depth(relative: Seq<char>)
    ensures
        depth(relative) == 1 ==> segment_name(relative) == Some(trim_slashes(relative)),
        depth(relative) != 1 ==> segment_name(relative) is None,
        segment_name(relative) matches Some(name) ==> name.len() > 0 && !name.contains(SEPARATOR),
{
    lemma_slash_count_zero(trim_slashes(relative));
    if relative == seq![SEPARATOR] {
        assert(relative[0] == SEPARATOR);
        assert(trim_slashes(relative).len() == 0);
    }
}

/// Every entry of a filtered listing comes from a raw entry of the listing
/// that is a direct child, and carries the name of that child.
pub proof fn lemma_children_come_from_listing(
    query: Seq<char>,
    raws: Seq<RawEntryView>,
    j: int,
) -> (i: int)
    requires
        0 <= j < direct_children(query, raws).len(),
    ensures
        0 <= i < raws.len(),
        listed(query_prefix(query), raws[i]) == Some(direct_children(query, raws)[j]),
{
    let pick = |raw: RawEntryView| listed(query_prefix(query), raw);
    let children = raws.filter_map(pick);
    assert(children.contains(children[j]));
    raws.lemma_filter_map_contains(pick, children[j]);
    let raw = choose|raw: RawEntryView|
        #[trigger] raws.contains(raw) && pick(raw) == Some(children[j]);
    choose|i: int| 0 <= i < raws.len() && raws[i] == raw
}

/// A raw entry that is a direct child appears in the filtered listing.
pub proof fn lemma_listed_entry_is_kept(query: Seq<char>, raws: Seq<RawEntryView>, i: int)
    requires
        0 <= i < raws.len(),
        listed(query_prefix(query), raws[i]) is Some,
    ensures
        direct_children(query, raws).contains(listed(query_prefix(query), raws[i])->0),
    decreases raws.len(),
{
    let pick = |raw: RawEntryView| listed(query_prefix(query), raw);
    let children = raws.filter_map(pick);
    let rest = raws.drop_last().filter_map(pick);
    if i == raws.len() - 1 {
        assert(children == rest + seq![pick(raws[i])->0]);
        assert(children[children.len() - 1] == pick(raws[i])->0);
    } else {
        lemma_listed_entry_is_kept(query, raws.drop_last(), i);
        let k = choose|k: int| 0 <= k < rest.len() && rest[k] == pick(raws[i])->0;
        assert(children[k] == rest[k]);
    }
}

/// The directory's own entry is left out: no entry of the filtered listing
/// has the path of a raw entry of depth 0.
pub proof fn lemma_self_entry_excluded(query: Seq<char>, raws: Seq<RawEntryView>, i: int)
    requires
        0 <= i < raws.len(),
        depth(relative_path(query_prefix(query), raws[i].path)) == 0,
    ensures
        forall|j: int|
            0 <= j < direct_children(query, raws).len() ==> (#[trigger] direct_children(
                query,
                raws,
            )[j]).path != raws[i].path,
{
    lemma_only_depth_one_is_kept(query, raws, i);
}

/// What lies deeper than one segment is left out: no entry of the filtered
/// listing has the path of a raw entry of depth 2 or more.
pub proof fn lemma_nested_entry_excluded(query: Seq<char>, raws: Seq<RawEntryView>, i: int)
    requires
        0 <= i < raws.len(),
        depth(relative_path(query_prefix(query), raws[i].path)) >= 2,
    ensures
        forall|j: int|
            0 <= j < direct_children(query, raws).len() ==> (#[trigger] direct_children(
                query,
                raws,
            )[j]).path != raws[i].path,
{
    lemma_only_depth_one_is_kept(query, raws, i);
}

/// No entry of the filtered listing has the path of a raw entry whose depth
/// is not 1.
pub proof fn lemma_only_depth_one_is_kept(query: Seq<char>, raws: Seq<RawEntryView>, i: int)
    requires
        0 <= i < raws.len(),
        depth(relative_path(query_prefix(query), raws[i].path)) != 1,
    ensures
        forall|j: int|
            0 <= j < direct_children(query, raws).len() ==> (#[trigger] direct_children(
                query,
                raws,
            )[j]).path != raws[i].path,
{
    let prefix = query_prefix(query);
    let children = direct_children(query, raws);
    assert forall|j: int| 0 <= j < children.len() implies (#[trigger] children[j]).path
        != raws[i].path by {
        let k = lemma_children_come_from_listing(query, raws, j);
        if children[j].path == raws[i].path {
            lemma_segment_name_by_depth(relative_path(prefix, raws[i].path));
            assert(raws[k].path == raws[i].path);
        }
    }
}

/// A raw entry of depth 1 is kept, under the name of its one segment and
/// with its other fields unchanged.
pub proof fn lemma_direct_child_included(query: Seq<char>, raws: Seq<RawEntryView>, i: int)
    requires
        0 <= i < raws.len(),
        depth(relative_path(query_prefix(query), raws[i].path)) == 1,
    ensures
        direct_children(query, raws).contains(
            raws[i].named(trim_slashes(relative_path(query_prefix(query), raws[i].path))),
        ),
{
    lemma_segment_name_by_depth(relative_path(query_prefix(query), raws[i].path));
    lemma_listed_entry_is_kept(query, raws, i);
}

/// Every entry of a filtered listing lies at depth 1 below the directory,
/// and its name is its one segment: not empty and without a separator.
pub proof fn lemma_children_are_single_segments(query: Seq<char>, raws: Seq<RawEntryView>)
    ensures
        forall|j: int|
            #![trigger direct_children(query, raws)[j]]
            0 <= j < direct_children(query, raws).len() ==> {
                let child = direct_children(query, raws)[j];
                let relative = relative_path(query_prefix(query), child.path);
                &&& depth(relative) == 1
                &&& child.name == trim_slashes(relative)
                &&& child.name.len() > 0
                &&& !child.name.contains(SEPARATOR)
            },
{
    let children = direct_children(query, raws);
    assert forall|j: int| #![trigger children[j]] 0 <= j < children.len() implies {
        let child = children[j];
        let relative = relative_path(query_prefix(query), child.path);
        &&& depth(relative) == 1
        &&& child.name == trim_slashes(relative)
        &&& child.name.len() > 0
        &&& !child.name.contains(SEPARATOR)
    } by {
        let i = lemma_children_come_from_listing(query, raws, j);
        lemma_segment_name_by_depth(relative_path(query_prefix(query), raws[i].path));
    }
}

/// The filtered listing keeps the order of the listing: its entries come
/// from raw entries at strictly increasing positions, which the result names.
pub proof fn lemma_order_is_kept(query: Seq<char>, raws: Seq<RawEntryView>) -> (picked: Seq<int>)
    ensures
        picked.len() == direct_children(query, raws).len(),
        picked.len() <= raws.len(),
        forall|j: int|
            0 <= j < picked.len() ==> 0 <= #[trigger] picked[j] < raws.len() && listed(
                query_prefix(query),
                raws[picked[j]],
            ) == Some(direct_children(query, raws)[j]),
        forall|j: int, k: int| 0 <= j < k < picked.len() ==> picked[j] < picked[k],
    decreases raws.len(),
{
    let pick = |raw: RawEntryView| listed(query_prefix(query), raw);
    if raws.len() == 0 {
        Seq::empty()
    } else {
        let before = lemma_order_is_kept(query, raws.drop_last());
        match pick(raws.last()) {
            Some(child) => before.push(raws.len() - 1),
            None => before,
        }
    }
}

/// Filtering is idempotent: the entries of a filtered listing, taken as a
/// listing again, all stay, each as it was.
pub proof fn lemma_filter_is_idempotent(query: Seq<char>, raws: Seq<RawEntryView>)
    ensures
        direct_children(query, raw_forms(direct_children(query, raws))) == direct_children(
            query,
            raws,
        ),
    decreases raws.len(),
{
    let pick = |raw: RawEntryView| listed(query_prefix(query), raw);
    let children = direct_children(query, raws);
    if raws.len() == 0 {
        assert(raw_forms(children) =~= Seq::<RawEntryView>::empty());
    } else {
        let rest = direct_children(query, raws.drop_last());
        lemma_filter_is_idempotent(query, raws.drop_last());
        match pick(raws.last()) {
            Some(child) => {
                assert(child.raw() == raws.last());
                let again = raw_forms(children);
                assert(again.drop_last() =~= raw_forms(rest));
                assert(again.last() == child.raw());
            },
            None => {},
        }
    }
}

/// A listing that holds direct children only passes the filter whole: every
/// entry stays, in its place, with what was reported of it.
pub proof fn lemma_single_segment_listing_is_kept(query: Seq<char>, raws: Seq<RawEntryView>)
    requires
        forall|i: int|
            0 <= i < raws.len() ==> depth(
                relative_path(query_prefix(query), (#[trigger] raws[i]).path),
            ) == 1,
    ensures
        raw_forms(direct_children(query, raws)) == raws,
    decreases raws.len(),
{
    let children = direct_children(query, raws);
    if raws.len() == 0 {
        assert(raw_forms(children) =~= raws);
    } else {
        let init = raws.drop_last();
        assert forall|i: int| 0 <= i < init.len() implies depth(
            relative_path(query_prefix(query), (#[trigger] init[i]).path),
        ) == 1 by {
            assert(init[i] == raws[i]);
        }
        lemma_single_segment_listing_is_kept(query, init);
        lemma_segment_name_by_depth(relative_path(query_prefix(query), raws.last().path));
        let child = listed(query_prefix(query), raws.last())->0;
        assert(child.raw() == raws.last());
        assert(children == direct_children(query, init) + seq![child]);
        assert(raw_forms(children) =~= raw_forms(direct_children(query, init)).push(child.raw()));
        assert(init.push(raws.last()) =~= raws);
    }
}

} // verus!
