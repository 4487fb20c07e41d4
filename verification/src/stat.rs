//! A single object named from its path alone, without a listing.

use vstd::prelude::*;
use vstd::slice::slice_subrange;
use crate::entry::{FileEntry, RawEntry};
use crate::path::{
    chars_of, last_segment, last_segment_bound, lemma_last_segment, strip_trailing_slash,
    SEPARATOR,
};

verus! {

/// The display name of the object at `path`: the last segment of the path
/// once one trailing separator is dropped; all of that where it holds no
/// separator.
pub open spec fn stat_name(path: Seq<char>) -> Seq<char> {
    last_segment(strip_trailing_slash(path))
}

/// The display name is the end of the path without one trailing separator,
/// holds no separator itself, and is either all of that path or what follows
/// its last separator.
pub proof fn lemma_stat_name(path: Seq<char>)
    ensures
        stat_name(path).is_suffix_of(strip_trailing_slash(path)),
        !stat_name(path).contains(SEPARATOR),
        !strip_trailing_slash(path).contains(SEPARATOR) ==> stat_name(path)
            == strip_trailing_slash(path),
        strip_trailing_slash(path).contains(SEPARATOR) ==> strip_trailing_slash(
            path,
        )[strip_trailing_slash(path).len() - stat_name(path).len() - 1] == SEPARATOR,
{
    let trimmed = strip_trailing_slash(path);
    lemma_last_segment(trimmed);
    if !trimmed.contains(SEPARATOR) {
        assert(trimmed.skip(0) =~= trimmed);
    }
}

/// The display name of the object at `path`.
pub fn entry_name(path: &str) -> (name: String)
    ensures
        name@ == stat_name(path@),
        !name@.contains(SEPARATOR),
{
    let chars = chars_of(path);
    let len = chars.len();
    let end = if len > 0 && chars[len - 1] == SEPARATOR {
        len - 1
    } else {
        len
    };
    let trimmed = slice_subrange(chars.as_slice(), 0, end);
    let start = last_segment_bound(trimmed);
    proof {
        assert(trimmed@ =~= strip_trailing_slash(path@));
        lemma_last_segment(trimmed@);
        assert(path@.subrange(start as int, end as int) =~= last_segment(trimmed@));
    }
    path.substring_char(start, end).to_owned()
}

/// The entry for the object at `raw.path`, as a request for that one path
/// describes it: named from the path, all else as reported.
pub fn single_entry(raw: &RawEntry) -> (entry: FileEntry)
    ensures
        entry@ == raw@.named(stat_name(raw.path@)),
{
    raw.named(entry_name(raw.path.as_str()))
}

} // verus!
