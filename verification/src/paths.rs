//! Mapping source paths to output paths: extension replacement, relative
//! paths under a root, and joining.

use vstd::prelude::*;

use crate::links::last_slash_before;
use crate::links::lemma_last_slash_before_properties;

verus! {

/// Index of the last `.` of the final path component, when the component
/// has an extension: a dot at the start of the component does not begin
/// one. `floor` is the first index of the component; the result is `floor`
/// when there is no extension dot.
pub open spec fn last_dot_after(s: Seq<char>, i: int, floor: int) -> int
    decreases i - floor,
{
    if i <= floor + 1 {
        floor
    } else if s[i - 1] == '.' {
        i - 1
    } else {
        last_dot_after(s, i - 1, floor)
    }
}

pub proof fn lemma_last_dot_after_unique(s: Seq<char>, i: int, floor: int, k: int)
    requires
        0 <= floor <= k <= i <= s.len(),
        k > floor ==> s[k] == '.' && k < i,
        forall|j: int| k < j < i && j > floor ==> s[j] != '.',
        k == floor ==> forall|j: int| floor < j < i ==> s[j] != '.',
    ensures
        last_dot_after(s, i, floor) == k,
    decreases i - floor,
{
    if i > floor + 1 && s[i - 1] != '.' {
        lemma_last_dot_after_unique(s, i - 1, floor, k);
    }
}

/// The first index of the final component of a `/`-separated path.
pub open spec fn component_start(p: Seq<char>) -> int {
    let ls = last_slash_before(p, p.len() as int);
    if p.len() > 0 && p[ls] == '/' {
        ls + 1
    } else {
        0
    }
}

/// The path with its final component's extension replaced by `html`, or
/// with `.html` appended when the component has none. A dot at the start of
/// the component does not begin an extension.
pub open spec fn spec_html_path(p: Seq<char>) -> Seq<char> {
    let floor = component_start(p);
    let d = last_dot_after(p, p.len() as int, floor);
    if d > floor {
        p.subrange(0, d) + ".html"@
    } else {
        p + ".html"@
    }
}

/// Replaces the extension of the path's final component with `html`, or
/// appends `.html` when the component has none.
pub fn html_output_path(p: &str) -> (r: String)
    ensures
        r@ == spec_html_path(p@),
{
    let len = p.unicode_len();
    let ls = find_last_slash_here(p, len);
    proof {
        lemma_last_slash_before_properties(p@, len as int);
    }
    let floor: usize = if len > 0 && p.get_char(ls) == '/' {
        ls + 1
    } else {
        0
    };
    let mut i: usize = len;
    while i >= 1 && i - 1 > floor && !dot_at(p, i - 1)
        invariant
            i <= len,
            len == p@.len(),
            forall|j: int| i <= j < len && j > floor ==> p@[j] != '.',
        decreases i,
    {
        i = i - 1;
    }
    let d: usize = if i >= 1 && i - 1 > floor {
        i - 1
    } else {
        floor
    };
    proof {
        if i >= 1 && i - 1 > floor {
            lemma_last_dot_after_unique(p@, len as int, floor as int, i as int - 1);
        } else {
            lemma_last_dot_after_unique(p@, len as int, floor as int, floor as int);
        }
    }
    let mut r = String::from_str(if d > floor {
        p.substring_char(0, d)
    } else {
        p
    });
    r.append(".html");
    r
}

/// Reports whether the character at `i` is a dot.
fn dot_at(s: &str, i: usize) -> (r: bool)
    requires
        i < s@.len(),
    ensures
        r == (s@[i as int] == '.'),
{
    s.get_char(i) == '.'
}

/// Finds the last `/` strictly before `end`, or `0` when there is none.
fn find_last_slash_here(s: &str, end: usize) -> (r: usize)
    requires
        end <= s@.len(),
    ensures
        r == last_slash_before(s@, end as int),
{
    let mut i: usize = end;
    while i > 0 && !slash_at(s, i - 1)
        invariant
            i <= end <= s@.len(),
            forall|j: int| i <= j < end ==> s@[j] != '/',
        decreases i,
    {
        i = i - 1;
    }
    proof {
        if i > 0 {
            crate::links::lemma_last_slash_before_unique(s@, end as int, i as int - 1);
        } else {
            crate::links::lemma_last_slash_before_unique(s@, end as int, 0);
        }
    }
    if i > 0 {
        i - 1
    } else {
        0
    }
}

/// Reports whether the character at `i` is a slash.
fn slash_at(s: &str, i: usize) -> (r: bool)
    requires
        i < s@.len(),
    ensures
        r == (s@[i as int] == '/'),
{
    s.get_char(i) == '/'
}

/// The part of `path` below `root`, when `path` lies strictly below it:
/// `root` must be a proper prefix followed by a slash.
pub open spec fn spec_relative_to(path: Seq<char>, root: Seq<char>) -> Option<Seq<char>> {
    if path.len() > root.len() && path.subrange(0, root.len() as int) == root && path[root.len() as int]
        == '/' {
        Some(path.subrange(root.len() as int + 1, path.len() as int))
    } else {
        None
    }
}

/// The part of `path` below `root`, when `path` lies strictly below it.
pub fn relative_to<'a>(path: &'a str, root: &str) -> (r: Option<&'a str>)
    ensures
        (match r {
            Some(t) => spec_relative_to(path@, root@) == Some(t@),
            None => spec_relative_to(path@, root@) is None,
        }),
{
    let plen = path.unicode_len();
    let rlen = root.unicode_len();
    if plen <= rlen {
        return None;
    }
    let prefix = path.substring_char(0, rlen);
    if !crate::text::str_eq(prefix, root) {
        return None;
    }
    if path.get_char(rlen) != '/' {
        return None;
    }
    Some(path.substring_char(rlen + 1, plen))
}

/// `dir` and `name` joined with a single slash; an empty `dir` or one that
/// already ends in a slash adds none.
pub open spec fn spec_join_path(dir: Seq<char>, name: Seq<char>) -> Seq<char> {
    if dir.len() == 0 {
        name
    } else if dir.last() == '/' {
        dir + name
    } else {
        dir + "/"@ + name
    }
}

/// Joins a directory and a path below it with a single slash.
pub fn join_path(dir: &str, name: &str) -> (r: String)
    ensures
        r@ == spec_join_path(dir@, name@),
{
    let dlen = dir.unicode_len();
    if dlen == 0 {
        return String::from_str(name);
    }
    let mut r = String::from_str(dir);
    if dir.get_char(dlen - 1) != '/' {
        r.append("/");
    }
    r.append(name);
    r
}

} // verus!
