//! Paths as strings with slashes between their segments.
use vstd::prelude::*;
use vstd::slice::slice_subrange;
use vstd::string::StringExecFns;
use crate::text::{chars_of, join_with, joined, str_eq, string_of, views};

verus! {

/// Where the first slash of `path` stands; the length of `path` where it
/// has none.
pub open spec fn first_slash(path: Seq<char>) -> int
    decreases path.len(),
{
    if path.len() == 0 || path[0] == '/' {
        0
    } else {
        1 + first_slash(path.drop_first())
    }
}

/// The segments of `path`: what stands between its slashes, without the
/// empty pieces.
pub open spec fn segments(path: Seq<char>) -> Seq<Seq<char>>
    decreases path.len(),
{
    if path.len() == 0 {
        Seq::empty()
    } else {
        let n = first_slash(path);
        if 0 <= n < path.len() {
            let rest = segments(path.subrange(n + 1, path.len() as int));
            if n == 0 {
                rest
            } else {
                seq![path.subrange(0, n)] + rest
            }
        } else {
            seq![path]
        }
    }
}

/// Whether `path` starts at the root of the file system.
pub open spec fn is_rooted(path: Seq<char>) -> bool {
    path.len() > 0 && path[0] == '/'
}

/// Whether `path` lies at or below `base`: both start at the root or
/// neither does, and the segments of `base` are the first of `path`.
pub open spec fn lies_below(path: Seq<char>, base: Seq<char>) -> bool {
    &&& is_rooted(path) == is_rooted(base)
    &&& segments(base).len() <= segments(path).len()
    &&& segments(path).subrange(0, segments(base).len() as int) == segments(base)
}

/// `parts` with a slash between each two.
pub open spec fn join_segments(parts: Seq<Seq<char>>) -> Seq<char> {
    joined(parts, '/')
}

/// `path` as seen from `base`: the segments behind those of `base` where
/// `path` lies below it, else `path` as it stands.
pub open spec fn relative_to(path: Seq<char>, base: Seq<char>) -> Seq<char> {
    if lies_below(path, base) {
        join_segments(segments(path).subrange(segments(base).len() as int, segments(path).len() as int))
    } else {
        path
    }
}

/// Whether one of the segments of `path` is `name`.
pub open spec fn has_segment(path: Seq<char>, name: Seq<char>) -> bool {
    segments(path).contains(name)
}

/// The first slash stands behind characters that are none.
pub proof fn lemma_first_slash(path: Seq<char>, n: int)
    requires
        0 <= n <= path.len(),
        forall|i: int| 0 <= i < n ==> #[trigger] path[i] != '/',
        n < path.len() ==> path[n] == '/',
    ensures
        first_slash(path) == n,
    decreases path.len(),
{
    if n > 0 {
        let rest = path.drop_first();
        assert forall|i: int| 0 <= i < n - 1 implies #[trigger] rest[i] != '/' by {
            assert(rest[i] == path[i + 1]);
        }
        lemma_first_slash(rest, n - 1);
    }
}

/// The segments of `path`.
pub fn path_segments(path: &str) -> (parts: Vec<String>)
    ensures
        views(parts@) == segments(path@),
{
    let chars = chars_of(path);
    let mut parts: Vec<String> = Vec::new();
    let mut start: usize = 0;
    let mut i: usize = 0;
    assert(chars@.subrange(0, chars@.len() as int) == chars@);
    while i < chars.len()
        invariant
            chars@ == path@,
            start <= i <= chars@.len(),
            forall|j: int| start <= j < i ==> #[trigger] chars@[j] != '/',
            views(parts@) + segments(chars@.subrange(start as int, chars@.len() as int))
                == segments(chars@),
        decreases chars@.len() - i,
    {
        if chars[i] == '/' {
            let ghost rest = chars@.subrange(start as int, chars@.len() as int);
            let ghost done = views(parts@);
            proof {
                assert forall|j: int| 0 <= j < i - start implies #[trigger] rest[j] != '/' by {
                    assert(rest[j] == chars@[start + j]);
                }
                lemma_first_slash(rest, i - start);
                assert(rest.subrange(0, i - start) == chars@.subrange(start as int, i as int));
                assert(rest.subrange(i - start + 1, rest.len() as int) == chars@.subrange(
                    i + 1,
                    chars@.len() as int,
                ));
            }
            if i > start {
                let part = string_of(slice_subrange(chars.as_slice(), start, i));
                parts.push(part);
                assert(views(parts@) == done + seq![part@]);
            }
            start = i + 1;
        }
        i += 1;
    }
    if start < chars.len() {
        let ghost rest = chars@.subrange(start as int, chars@.len() as int);
        let ghost done = views(parts@);
        proof {
            assert forall|j: int| 0 <= j < rest.len() implies #[trigger] rest[j] != '/' by {
                assert(rest[j] == chars@[start + j]);
            }
            lemma_first_slash(rest, rest.len() as int);
        }
        let part = string_of(slice_subrange(chars.as_slice(), start, chars.len()));
        parts.push(part);
        assert(views(parts@) == done + seq![rest]);
    }
    parts
}

/// Whether `path` starts at the root of the file system.
pub fn rooted(path: &str) -> (at_root: bool)
    ensures
        at_root == is_rooted(path@),
{
    let chars = chars_of(path);
    chars.len() > 0 && chars[0] == '/'
}

/// Whether the first strings of `parts` are those of `base`.
fn first_are(parts: &Vec<String>, base: &Vec<String>) -> (same: bool)
    ensures
        same == (base@.len() <= parts@.len() && views(parts@).subrange(0, base@.len() as int) == views(
            base@,
        )),
{
    if base.len() > parts.len() {
        return false;
    }
    let mut i: usize = 0;
    while i < base.len()
        invariant
            i <= base@.len() <= parts@.len(),
            forall|j: int| 0 <= j < i ==> (#[trigger] parts@[j])@ == base@[j]@,
        decreases base@.len() - i,
    {
        if !str_eq(parts[i].as_str(), base[i].as_str()) {
            assert(views(parts@).subrange(0, base@.len() as int)[i as int] == parts@[i as int]@);
            assert(views(base@)[i as int] == base@[i as int]@);
            return false;
        }
        i += 1;
    }
    assert(views(parts@).subrange(0, base@.len() as int) =~= views(base@));
    true
}

/// Whether `path` lies at or below `base`.
pub fn starts_with(path: &str, base: &str) -> (below: bool)
    ensures
        below == lies_below(path@, base@),
{
    if rooted(path) != rooted(base) {
        return false;
    }
    let parts = path_segments(path);
    let base_parts = path_segments(base);
    first_are(&parts, &base_parts)
}

/// `path` as seen from `base`.
pub fn relative_path(path: &str, base: &str) -> (relative: String)
    ensures
        relative@ == relative_to(path@, base@),
{
    if rooted(path) != rooted(base) {
        return String::from_str(path);
    }
    let parts = path_segments(path);
    let base_parts = path_segments(base);
    if !first_are(&parts, &base_parts) {
        return String::from_str(path);
    }
    join_with(parts.as_slice(), base_parts.len(), parts.len(), '/')
}

/// Whether one of the segments of `path` is `name`.
pub fn contains_segment(path: &str, name: &str) -> (found: bool)
    ensures
        found == has_segment(path@, name@),
{
    let parts = path_segments(path);
    let mut i: usize = 0;
    while i < parts.len()
        invariant
            i <= parts@.len(),
            views(parts@) == segments(path@),
            forall|j: int| 0 <= j < i ==> (#[trigger] parts@[j])@ != name@,
        decreases parts@.len() - i,
    {
        if str_eq(parts[i].as_str(), name) {
            assert(views(parts@)[i as int] == name@);
            return true;
        }
        i += 1;
    }
    assert(!segments(path@).contains(name@)) by {
        if segments(path@).contains(name@) {
            let j = choose|j: int| 0 <= j < segments(path@).len() && segments(path@)[j] == name@;
            assert(views(parts@)[j] == parts@[j]@);
        }
    }
    false
}

} // verus!
