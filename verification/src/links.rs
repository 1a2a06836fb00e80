//! Splitting link destinations into path and trailing parts, hidden-segment
//! detection, and the character filters that guard link rewriting.

use vstd::prelude::*;

use crate::policy::CaseFolding;
use crate::text::find_char_from;
use crate::text::first_index_from;
use crate::text::lemma_first_index_from_properties;
use crate::text::lemma_first_index_from_unique;

verus! {

/// Index of the last `/` strictly before `i`, or `0` when there is none.
pub open spec fn last_slash_before(s: Seq<char>, i: int) -> int
    decreases i,
{
    if i <= 0 {
        0
    } else if s[i - 1] == '/' {
        i - 1
    } else {
        last_slash_before(s, i - 1)
    }
}

/// The index at which a link destination splits into its path part and its
/// trailing query/fragment part.
///
/// The destination is cut at the first `#`; within the last `/`-separated
/// segment before that cut, a `?` starts the trailing part instead. A `?`
/// before the last separator belongs to the path.
pub open spec fn split_point(s: Seq<char>) -> int {
    let h = first_index_from(s, '#', 0);
    let ls = last_slash_before(s, h);
    let q = first_index_from(s, '?', ls);
    if q < h {
        q
    } else {
        h
    }
}

/// The path part of a link destination.
pub open spec fn spec_url_path(s: Seq<char>) -> Seq<char> {
    s.subrange(0, split_point(s))
}

/// The trailing query/fragment part of a link destination.
pub open spec fn spec_url_trailing(s: Seq<char>) -> Seq<char> {
    s.subrange(split_point(s), s.len() as int)
}

pub proof fn lemma_last_slash_before_properties(s: Seq<char>, i: int)
    requires
        0 <= i <= s.len(),
    ensures
        0 <= last_slash_before(s, i) <= i,
        last_slash_before(s, i) == 0 || last_slash_before(s, i) < i,
        last_slash_before(s, i) < i ==> forall|j: int|
            last_slash_before(s, i) < j < i ==> s[j] != '/',
        forall|j: int| 0 <= j < i && s[j] == '/' ==> j <= last_slash_before(s, i),
        last_slash_before(s, i) > 0 ==> s[last_slash_before(s, i)] == '/',
    decreases i,
{
    if i > 0 && s[i - 1] != '/' {
        lemma_last_slash_before_properties(s, i - 1);
    }
}

pub proof fn lemma_last_slash_before_unique(s: Seq<char>, i: int, k: int)
    requires
        0 <= k < i <= s.len() || (k == 0 && 0 <= i <= s.len()),
        k > 0 ==> s[k] == '/',
        forall|j: int| k < j < i ==> s[j] != '/',
        k == 0 && 0 < i <= s.len() ==> (s[0] != '/' ==> forall|j: int| 0 <= j < i ==> s[j] != '/'),
    ensures
        last_slash_before(s, i) == k,
    decreases i,
{
    if i > k + 1 || (i > 0 && k == 0 && s[0] != '/') {
        if i > 0 && s[i - 1] != '/' {
            lemma_last_slash_before_unique(s, i - 1, k);
        }
    }
}

/// The split point lies within the string.
pub proof fn lemma_split_point_in_bounds(s: Seq<char>)
    ensures
        0 <= split_point(s) <= s.len(),
{
    lemma_first_index_from_properties(s, '#', 0);
    let h = first_index_from(s, '#', 0);
    lemma_last_slash_before_properties(s, h);
    let ls = last_slash_before(s, h);
    lemma_first_index_from_properties(s, '?', ls);
}

/// Law: a destination is reproduced exactly by concatenating the path part
/// and the trailing part that splitting it returns.
pub proof fn lemma_split_concat(s: Seq<char>)
    ensures
        spec_url_path(s) + spec_url_trailing(s) == s,
{
    lemma_split_point_in_bounds(s);
    assert(spec_url_path(s) + spec_url_trailing(s) =~= s);
}

/// Finds the last `/` strictly before `end`, or `0` when there is none.
fn find_last_slash(s: &str, end: usize) -> (r: usize)
    requires
        end <= s@.len(),
    ensures
        r == last_slash_before(s@, end as int),
{
    let mut i: usize = end;
    while i > 0
        invariant
            i <= end <= s@.len(),
            forall|j: int| i <= j < end ==> s@[j] != '/',
        decreases i,
    {
        if s.get_char(i - 1) == '/' {
            proof {
                lemma_last_slash_before_unique(s@, end as int, i as int - 1);
            }
            return i - 1;
        }
        i = i - 1;
    }
    proof {
        lemma_last_slash_before_unique(s@, end as int, 0);
    }
    0
}

/// Splits the given url at a query or fragment, returning the slice before
/// and after as a pair.
///
/// The url is cut at its first `#`; a `?` in the final path segment before
/// that cut starts the trailing part instead, while a `?` in an earlier
/// segment is kept as part of the path.
pub fn split_url<'a>(url: &'a str) -> (r: (&'a str, &'a str))
    ensures
        r.0@ == spec_url_path(url@),
        r.1@ == spec_url_trailing(url@),
{
    let len = url.unicode_len();
    let h = find_char_from(url, '#', 0);
    proof {
        lemma_first_index_from_properties(url@, '#', 0);
    }
    let ls = find_last_slash(url, h);
    proof {
        lemma_last_slash_before_properties(url@, h as int);
    }
    let q = find_char_from(url, '?', ls);
    let k = if q < h {
        q
    } else {
        h
    };
    proof {
        lemma_split_point_in_bounds(url@);
    }
    (url.substring_char(0, k), url.substring_char(k, len))
}

/// A path segment other than `.` and `..` begins with `.` at index `i`.
pub open spec fn hidden_segment_at(s: Seq<char>, i: int) -> bool {
    &&& 0 <= i < s.len()
    &&& (i == 0 || s[i - 1] == '/')
    &&& s[i] == '.'
    &&& !(i + 1 == s.len() || s[i + 1] == '/')
    &&& !(s[i + 1] == '.' && (i + 2 == s.len() || s[i + 2] == '/'))
}

/// True when some `/`-separated segment of `s`, other than `.` and `..`,
/// begins with a dot.
pub open spec fn spec_has_hidden(s: Seq<char>) -> bool {
    exists|i: int| hidden_segment_at(s, i)
}

/// Reports whether any path segment of the url, other than `.` and `..`,
/// begins with a dot: such a segment names a hidden file or directory.
pub fn has_hidden(url: &str) -> (r: bool)
    ensures
        r == spec_has_hidden(url@),
{
    let len = url.unicode_len();
    let mut i: usize = 0;
    while i < len
        invariant
            i <= len,
            len == url@.len(),
            forall|j: int| 0 <= j < i ==> !hidden_segment_at(url@, j),
        decreases len - i,
    {
        if (i == 0 || url.get_char(i - 1) == '/') && url.get_char(i) == '.' {
            let dot_seg = i + 1 == len || url.get_char(i + 1) == '/';
            if !dot_seg {
                let dotdot_seg = url.get_char(i + 1) == '.' && (i + 2 == len || url.get_char(
                    i + 2,
                ) == '/');
                if !dotdot_seg {
                    assert(hidden_segment_at(url@, i as int));
                    return true;
                }
            }
        }
        i = i + 1;
    }
    false
}

/// A control character or a character reserved in file names on targets
/// that reserve them.
pub open spec fn is_illegal_path_char(c: char) -> bool {
    (c as u32) <= 31 || c == '"' || c == '<' || c == '>' || c == '|' || c == ':' || c == '*'
        || c == '?' || c == '\\'
}

/// True when `s` holds a control character or a reserved file-name character.
pub open spec fn spec_is_illegal_filepath(s: Seq<char>) -> bool {
    exists|i: int| 0 <= i < s.len() && is_illegal_path_char(s[i])
}

/// Reports whether the string holds a character that cannot appear in a file
/// path on a target with reserved file-name characters; used as the
/// aggressive link filter when file names are compared case-insensitively.
pub fn is_illegal_filepath(s: &str) -> (r: bool)
    ensures
        r == spec_is_illegal_filepath(s@),
{
    let len = s.unicode_len();
    let mut i: usize = 0;
    while i < len
        invariant
            i <= len,
            len == s@.len(),
            forall|j: int| 0 <= j < i ==> !is_illegal_path_char(s@[j]),
        decreases len - i,
    {
        let c = s.get_char(i);
        if (c as u32) <= 31 || c == '"' || c == '<' || c == '>' || c == '|' || c == ':' || c
            == '*' || c == '?' || c == '\\' {
            return true;
        }
        i = i + 1;
    }
    false
}

/// True when `s` holds the character `c` somewhere.
pub open spec fn spec_contains_char(s: Seq<char>, c: char) -> bool {
    exists|i: int| 0 <= i < s.len() && s[i] == c
}

/// Reports whether the string holds the given character.
pub fn contains_char(s: &str, c: char) -> (r: bool)
    ensures
        r == spec_contains_char(s@, c),
{
    let len = s.unicode_len();
    let mut i: usize = 0;
    while i < len
        invariant
            i <= len,
            len == s@.len(),
            forall|j: int| 0 <= j < i ==> s@[j] != c,
        decreases len - i,
    {
        if s.get_char(i) == c {
            return true;
        }
        i = i + 1;
    }
    false
}

/// True when the character filter of the given policy blocks the path part
/// of a link: a scheme-introducing `:` always does; on a case-insensitive
/// target every reserved file-name character does.
pub open spec fn spec_link_blocked(url: Seq<char>, folding: CaseFolding) -> bool {
    match folding {
        CaseFolding::Sensitive => spec_contains_char(url, ':'),
        CaseFolding::Insensitive => spec_is_illegal_filepath(url),
    }
}

/// The suffix that rewriting puts in place of `.md`.
pub open spec fn html_suffix() -> Seq<char> {
    seq!['.', 'h', 't', 'm', 'l']
}

/// True when the path part ends in `.md`.
pub open spec fn spec_md_path(url: Seq<char>) -> bool {
    let n = url.len() as int;
    n >= 3 && url[n - 3] == '.' && url[n - 2] == 'm' && url[n - 1] == 'd'
}

/// The rewritten destination: the path part with its `.md` suffix replaced
/// by `.html`, followed by the trailing part verbatim.
pub open spec fn spec_rewritten(dest: Seq<char>) -> Seq<char> {
    let url = spec_url_path(dest);
    url.subrange(0, url.len() - 3) + html_suffix() + spec_url_trailing(dest)
}

/// The rewriting decision for one link destination, given whether hidden
/// segments are being skipped, the target's case-folding policy, and whether
/// the destination's path part resolves to a regular file inside the
/// conversion root.
pub open spec fn spec_rewrite(
    dest: Seq<char>,
    skip_hidden: bool,
    folding: CaseFolding,
    target_ok: bool,
) -> Option<Seq<char>> {
    let url = spec_url_path(dest);
    if skip_hidden && spec_has_hidden(url) {
        None
    } else if spec_link_blocked(url, folding) {
        None
    } else if !target_ok {
        None
    } else if !spec_md_path(url) {
        None
    } else {
        Some(spec_rewritten(dest))
    }
}

/// Law: a destination whose path part does not resolve to a regular file
/// inside the conversion root is never rewritten, whatever it looks like.
pub proof fn lemma_no_rewrite_outside_root(dest: Seq<char>, skip_hidden: bool, folding: CaseFolding)
    ensures
        spec_rewrite(dest, skip_hidden, folding, false) is None,
{
}

/// Decides the rewriting of one link destination from plain facts: the
/// destination string, whether hidden segments are skipped, the case-folding
/// policy, and whether the resolved target was found to be a regular file
/// inside the conversion root.
pub fn decide_rewrite(dest: &str, skip_hidden: bool, folding: CaseFolding, target_ok: bool) -> (r:
    Option<String>)
    ensures
        (match r {
            Some(t) => Some(t@),
            None => None,
        }) == spec_rewrite(dest@, skip_hidden, folding, target_ok),
{
    let (url, rest) = split_url(dest);
    if skip_hidden && has_hidden(url) {
        return None;
    }
    let blocked = match folding {
        CaseFolding::Sensitive => contains_char(url, ':'),
        CaseFolding::Insensitive => is_illegal_filepath(url),
    };
    if blocked {
        return None;
    }
    if !target_ok {
        return None;
    }
    let ulen = url.unicode_len();
    if ulen < 3 || !(url.get_char(ulen - 3) == '.' && url.get_char(ulen - 2) == 'm'
        && url.get_char(ulen - 1) == 'd') {
        return None;
    }
    let mut out = String::from_str(url.substring_char(0, ulen - 3));
    out.append(".html");
    out.append(rest);
    proof {
        reveal_strlit(".html");
        assert(".html"@ =~= html_suffix());
        assert(out@ =~= spec_rewritten(dest@));
    }
    Some(out)
}

/// Relies on normpath's `BasePath::new`, `parent`, `join` and `normalize`,
/// and on std's `Path::starts_with` and `Path::is_file`: reports whether
/// `url`, resolved against the directory holding `file_path` (or against
/// `root` when it begins with `/`), names an existing regular file whose
/// normalized path stays under `root`. The answer depends on the filesystem
/// at call time, so nothing is promised of it.
#[verifier::external_body]
fn target_is_file_in_root(root: &str, file_path: &str, url: &str) -> bool {
    let parent = match normpath::BasePath::new(std::path::Path::new(file_path)) {
        Ok(f) => match f.parent() {
            Ok(Some(p)) => p.to_owned(),
            _ => return false,
        },
        Err(_) => return false,
    };
    let target = match url.strip_prefix('/') {
        Some(rest) => normpath::BasePathBuf::new(root).map(|b| b.join(rest)),
        None => Ok(parent.join(url)),
    };
    match target.and_then(|t| t.normalize()) {
        Ok(t) => t.starts_with(std::path::Path::new(root)) && t.is_file(),
        Err(_) => false,
    }
}

/// Decides the rewriting of one link destination found in the document at
/// `file_path`, which lies under the canonicalized conversion root `root`.
///
/// The pure checks are decided by `spec_rewrite`; whether the target is a
/// regular file inside the root is read from the filesystem, so the result
/// is only pinned down when it rewrites: a rewrite is exactly the decision
/// for a target that was found inside the root.
pub fn rewrite_link(
    dest: &str,
    file_path: &str,
    root: &str,
    skip_hidden: bool,
    folding: CaseFolding,
) -> (r: Option<String>)
    ensures
        r is Some ==> (match r {
            Some(t) => Some(t@),
            None => None,
        }) == spec_rewrite(dest@, skip_hidden, folding, true),
        spec_rewrite(dest@, skip_hidden, folding, true) is None ==> r is None,
{
    let (url, rest) = split_url(dest);
    if skip_hidden && has_hidden(url) {
        return None;
    }
    let blocked = match folding {
        CaseFolding::Sensitive => contains_char(url, ':'),
        CaseFolding::Insensitive => is_illegal_filepath(url),
    };
    if blocked {
        return None;
    }
    let target_ok = target_is_file_in_root(root, file_path, url);
    decide_rewrite(dest, skip_hidden, folding, target_ok)
}

/// Decides the rewriting of one link destination seen while converting a
/// document in a directory tree: a destination beginning with `/` passes
/// through unless such site-root-relative links were asked for; everything
/// else is decided by `rewrite_link`.
pub fn hook_rewrite(
    dest: &str,
    file_path: &str,
    root: &str,
    skip_hidden: bool,
    folding: CaseFolding,
    convert_base_urls: bool,
) -> (r: Option<String>)
    ensures
        !convert_base_urls && dest@.len() > 0 && dest@[0] == '/' ==> r is None,
        r is Some ==> (match r {
            Some(t) => Some(t@),
            None => None,
        }) == spec_rewrite(dest@, skip_hidden, folding, true),
        spec_rewrite(dest@, skip_hidden, folding, true) is None ==> r is None,
{
    if !convert_base_urls && !dest.is_empty() && dest.get_char(0) == '/' {
        return None;
    }
    rewrite_link(dest, file_path, root, skip_hidden, folding)
}

/// Law: rewriting is idempotent under re-resolution: a destination that
/// rewriting produced never matches the `.md` rule again, whatever the
/// flags, the policy and the filesystem say the second time.
pub proof fn lemma_rewrite_idempotent(
    dest: Seq<char>,
    sh1: bool,
    f1: CaseFolding,
    t: Seq<char>,
    sh2: bool,
    f2: CaseFolding,
    ok2: bool,
)
    requires
        spec_rewrite(dest, sh1, f1, true) == Some(t),
    ensures
        spec_rewrite(t, sh2, f2, ok2) is None,
{
    let len = dest.len() as int;
    let h = first_index_from(dest, '#', 0);
    lemma_first_index_from_properties(dest, '#', 0);
    let ls = last_slash_before(dest, h);
    lemma_last_slash_before_properties(dest, h);
    let q = first_index_from(dest, '?', ls);
    lemma_first_index_from_properties(dest, '?', ls);
    let k = split_point(dest);
    let url = spec_url_path(dest);
    let rest = spec_url_trailing(dest);
    let w = url.subrange(0, k - 3);
    assert(spec_md_path(url));
    assert(url.len() == k);
    assert(3 <= k <= h <= len);
    assert(t == w + html_suffix() + rest);
    assert(t.len() == len + 2);
    assert(forall|j: int| 0 <= j < k ==> url[j] == dest[j]);
    assert(forall|j: int| 0 <= j < k - 3 ==> t[j] == dest[j]);
    assert(t[k - 3] == '.' && t[k - 2] == 'h' && t[k - 1] == 't' && t[k] == 'm' && t[k + 1] == 'l');
    assert(forall|j: int| k + 2 <= j < len + 2 ==> t[j] == dest[j - 2]);
    // The first `#` of the rewritten destination sits two places after the
    // first `#` of the original.
    let h2 = h + 2;
    assert forall|j: int| 0 <= j < h2 implies t[j] != '#' by {
        if j < k - 3 {
            assert(t[j] == dest[j]);
        } else if j < k + 2 {
        } else {
            assert(t[j] == dest[j - 2]);
        }
    }
    lemma_first_index_from_unique(t, '#', 0, h2);
    // The `.md` suffix keeps the last slash strictly inside the shortened
    // path part, so it sits at the same index in the rewritten destination.
    assert(ls <= k);
    if ls > 0 {
        assert(dest[ls] == '/');
        if q < h {
            assert(dest[q] == '?');
            assert(ls < k);
        }
        assert(ls < k - 3 || ls == k - 3 || ls == k - 2 || ls == k - 1);
        assert(dest[k - 3] == '.' && dest[k - 2] == 'm' && dest[k - 1] == 'd');
        assert(ls < k - 3);
        assert(t[ls] == '/');
    }
    assert forall|j: int| ls < j < h2 implies t[j] != '/' by {
        if j < k - 3 {
            assert(t[j] == dest[j] && ls < j < h);
        } else if j < k + 2 {
        } else {
            assert(t[j] == dest[j - 2]);
            if j - 2 == k && k < h {
                assert(dest[k] == '?');
            } else {
                assert(ls < j - 2 < h);
            }
        }
    }
    if ls == 0 && (dest.len() == 0 || dest[0] != '/') {
        assert forall|j: int| 0 <= j < h2 implies t[j] != '/' by {
            if j == 0 {
                assert(t[0] == dest[0] || t[0] == '.');
            }
        }
        lemma_last_slash_before_unique(t, h2, 0);
    } else {
        assert(t[ls] == '/' || ls == 0);
        lemma_last_slash_before_unique(t, h2, ls);
    }
    assert(last_slash_before(t, h2) == ls);
    // A `?` in the rewritten destination first occurs where it first
    // occurred in the original.
    let q2 = first_index_from(t, '?', ls);
    lemma_first_index_from_properties(t, '?', ls);
    if k < h {
        // The path part was cut at a `?`, which reappears right after the
        // new suffix.
        assert(dest[k] == '?');
        assert(t[k + 2] == '?');
        assert forall|j: int| ls <= j < k + 2 implies t[j] != '?' by {
            if j < k - 3 {
                assert(t[j] == dest[j] && ls <= j < q);
            }
        }
        if q2 < k + 2 {
            assert(t[q2] == '?');
            assert(false);
        }
        if q2 > k + 2 {
            assert(t[k + 2] != '?');
            assert(false);
        }
        assert(split_point(t) == k + 2);
    } else {
        // No `?` splits the path part, and none can appear before the first
        // `#` of the rewritten destination.
        assert(k == h && h2 == k + 2);
        if q2 < h2 {
            assert(t[q2] == '?');
            assert forall|j: int| ls <= j < h2 implies t[j] != '?' by {
                if j < k - 3 {
                    assert(t[j] == dest[j] && ls <= j < q);
                }
            }
            assert(false);
        }
        assert(split_point(t) == h2);
    }
    let url2 = spec_url_path(t);
    assert(url2.len() == k + 2);
    assert(url2[k - 1] == 't');
    assert(!spec_md_path(url2));
}

} // verus!

