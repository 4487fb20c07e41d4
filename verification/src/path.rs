//! Slash-separated paths as sequences of characters.
//!
//! The specification functions speak of `Seq<char>`, the view of a `&str`.
//! The executable functions work on slices of characters, which can be
//! indexed in constant time.

use vstd::prelude::*;

verus! {

/// The path separator.
pub const SEPARATOR: char = '/';

/// `s` without its first character, if that character is a separator.
pub open spec fn strip_leading_slash(s: Seq<char>) -> Seq<char> {
    if s.len() > 0 && s[0] == SEPARATOR {
        s.skip(1)
    } else {
        s
    }
}

/// `s` without its last character, if that character is a separator.
pub open spec fn strip_trailing_slash(s: Seq<char>) -> Seq<char> {
    if s.len() > 0 && s.last() == SEPARATOR {
        s.drop_last()
    } else {
        s
    }
}

/// `s` without one leading and without one trailing separator.
pub open spec fn trim_slashes(s: Seq<char>) -> Seq<char> {
    strip_trailing_slash(strip_leading_slash(s))
}

/// The prefix under which the entries of the directory `query` are reported:
/// nothing for the root `/`, else `query` without one leading separator.
pub open spec fn query_prefix(query: Seq<char>) -> Seq<char> {
    if query == seq![SEPARATOR] {
        Seq::empty()
    } else {
        strip_leading_slash(query)
    }
}

/// `path` as seen from the directory with the given prefix: `path` without
/// the prefix where it starts with it, the whole of `path` where it does not.
pub open spec fn relative_path(prefix: Seq<char>, path: Seq<char>) -> Seq<char> {
    if prefix.is_prefix_of(path) {
        path.skip(prefix.len() as int)
    } else {
        path
    }
}

/// The number of separators in `s`.
pub open spec fn slash_count(s: Seq<char>) -> nat {
    s.filter(|c: char| c == SEPARATOR).len()
}

/// How many levels below its directory a relative path lies: 0 for the
/// directory itself, else the number of segments that the separators cut the
/// trimmed path into.
pub open spec fn depth(relative: Seq<char>) -> nat {
    let trimmed = trim_slashes(relative);
    if trimmed.len() == 0 {
        0
    } else {
        slash_count(trimmed) + 1
    }
}

/// The index just behind the last separator of `s`, 0 where it has none.
pub open spec fn last_segment_start(s: Seq<char>) -> int
    decreases s.len(),
{
    if s.len() == 0 {
        0
    } else if s.last() == SEPARATOR {
        s.len() as int
    } else {
        last_segment_start(s.drop_last())
    }
}

/// What follows the last separator of `s`; the whole of `s` where it has none.
pub open spec fn last_segment(s: Seq<char>) -> Seq<char> {
    s.skip(last_segment_start(s))
}

/// The characters of `s`, in order.
pub fn chars_of(s: &str) -> (v: Vec<char>)
    ensures
        v@ == s@,
{
    broadcast use vstd::string::axiom_spec_iter;

    let mut v: Vec<char> = Vec::new();
    for c in it: s.chars()
        invariant
            it.seq() == s@,
            v@ == s@.take(it.index()),
    {
        v.push(c);
    }
    v
}

/// Whether `s` holds a separator.
pub fn has_slash(s: &[char]) -> (found: bool)
    ensures
        found == s@.contains(SEPARATOR),
{
    let mut i: usize = 0;
    while i < s.len()
        invariant
            i <= s.len(),
            forall|j: int| 0 <= j < i ==> s@[j] != SEPARATOR,
        decreases s.len() - i,
    {
        if s[i] == SEPARATOR {
            return true;
        }
        i += 1;
    }
    false
}

/// Whether `s` starts with `prefix`.
pub fn starts_with(s: &[char], prefix: &[char]) -> (yes: bool)
    ensures
        yes == prefix@.is_prefix_of(s@),
{
    if prefix.len() > s.len() {
        return false;
    }
    let mut i: usize = 0;
    while i < prefix.len()
        invariant
            i <= prefix.len() <= s.len(),
            forall|j: int| 0 <= j < i ==> prefix@[j] == s@[j],
        decreases prefix.len() - i,
    {
        if prefix[i] != s[i] {
            assert(s@.subrange(0, prefix.len() as int)[i as int] != prefix@[i as int]);
            return false;
        }
        i += 1;
    }
    assert(prefix@ =~= s@.subrange(0, prefix.len() as int));
    true
}

/// Where `s` starts once one leading separator is dropped: 1 or 0.
pub fn leading_slash_len(s: &[char]) -> (n: usize)
    ensures
        n <= s.len(),
        s@.skip(n as int) == strip_leading_slash(s@),
{
    if s.len() > 0 && s[0] == SEPARATOR {
        1
    } else {
        assert(s@.skip(0) =~= s@);
        0
    }
}

/// The bounds, within `s`, of `s` without one leading and one trailing
/// separator.
pub fn trimmed_bounds(s: &[char]) -> (bounds: (usize, usize))
    ensures
        bounds.0 <= bounds.1 <= s.len(),
        bounds.0 == s.len() - strip_leading_slash(s@).len(),
        s@.subrange(bounds.0 as int, bounds.1 as int) == trim_slashes(s@),
{
    let lo = leading_slash_len(s);
    let len = s.len();
    let hi = if lo < len && s[len - 1] == SEPARATOR {
        len - 1
    } else {
        len
    };
    proof {
        let stripped = strip_leading_slash(s@);
        assert(stripped =~= s@.subrange(lo as int, len as int));
        if stripped.len() > 0 {
            assert(stripped.last() == s@[len - 1]);
        }
        assert(s@.subrange(lo as int, hi as int) =~= trim_slashes(s@));
    }
    (lo, hi)
}

/// The index in `s` just behind its last separator, 0 where it has none.
pub fn last_segment_bound(s: &[char]) -> (start: usize)
    ensures
        start == last_segment_start(s@),
        start <= s.len(),
{
    let mut i: usize = s.len();
    proof {
        assert(s@.take(i as int) =~= s@);
    }
    while i > 0
        invariant
            i <= s.len(),
            last_segment_start(s@) == last_segment_start(s@.take(i as int)),
        decreases i,
    {
        if s[i - 1] == SEPARATOR {
            return i;
        }
        proof {
            assert(s@.take(i as int).drop_last() =~= s@.take(i - 1));
        }
        i -= 1;
    }
    0
}

/// A sequence has no separator exactly if it counts none.
pub proof fn lemma_slash_count_zero(s: Seq<char>)
    ensures
        slash_count(s) == 0 <==> !s.contains(SEPARATOR),
{
    let is_slash = |c: char| c == SEPARATOR;
    let slashes = s.filter(is_slash);
    if s.contains(SEPARATOR) {
        let i = choose|i: int| 0 <= i < s.len() && s[i] == SEPARATOR;
        s.lemma_filter_contains(is_slash, i);
        assert(slashes.len() > 0);
    }
    if slashes.len() > 0 {
        s.lemma_filter_pred(is_slash, 0);
        s.lemma_filter_contains_rev(is_slash, slashes[0]);
    }
}

/// The root is no special case: the prefix of any query is the query
/// without one leading separator, which for the root leaves nothing.
pub proof fn lemma_query_prefix(query: Seq<char>)
    ensures
        query_prefix(query) == strip_leading_slash(query),
        query_prefix(seq![SEPARATOR]) == Seq::<char>::empty(),
{
    assert(seq![SEPARATOR].skip(1) =~= Seq::<char>::empty());
}

/// The last segment is the one suffix of `s` that holds no separator and
/// that either is all of `s` or stands right behind a separator.
pub proof fn lemma_last_segment(s: Seq<char>)
    ensures
        0 <= last_segment_start(s) <= s.len(),
        !last_segment(s).contains(SEPARATOR),
        last_segment_start(s) > 0 ==> s[last_segment_start(s) - 1] == SEPARATOR,
        last_segment_start(s) == 0 <==> !s.contains(SEPARATOR),
    decreases s.len(),
{
    if s.len() == 0 {
    } else if s.last() == SEPARATOR {
    } else {
        let init = s.drop_last();
        lemma_last_segment(init);
        let k = last_segment_start(init);
        assert forall|i: int| 0 <= i < last_segment(s).len() implies last_segment(s)[i]
            != SEPARATOR by {
            if i < last_segment(init).len() {
                assert(last_segment(init)[i] == s[k + i]);
                assert(last_segment(init).contains(last_segment(init)[i]));
            }
        }
        if init.contains(SEPARATOR) {
            let j = choose|j: int| 0 <= j < init.len() && init[j] == SEPARATOR;
            assert(s[j] == SEPARATOR);
        }
        if s.contains(SEPARATOR) {
            let j = choose|j: int| 0 <= j < s.len() && s[j] == SEPARATOR;
            assert(init[j] == SEPARATOR);
        }
    }
}

} // verus!
