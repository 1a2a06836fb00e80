//! Small verified string utilities shared by the parsing modules.

use vstd::prelude::*;

verus! {

/// Index of the first occurrence of `c` in `s` at or after `i`, or `s.len()`
/// when there is none.
pub open spec fn first_index_from(s: Seq<char>, c: char, i: int) -> int
    decreases s.len() - i,
{
    if i < 0 || i >= s.len() {
        s.len() as int
    } else if s[i] == c {
        i
    } else {
        first_index_from(s, c, i + 1)
    }
}

pub proof fn lemma_first_index_from_properties(s: Seq<char>, c: char, i: int)
    requires
        0 <= i <= s.len(),
    ensures
        i <= first_index_from(s, c, i) <= s.len(),
        forall|j: int| i <= j < first_index_from(s, c, i) ==> s[j] != c,
        first_index_from(s, c, i) < s.len() ==> s[first_index_from(s, c, i)] == c,
    decreases s.len() - i,
{
    if i < s.len() && s[i] != c {
        lemma_first_index_from_properties(s, c, i + 1);
    }
}

/// `k` is the first occurrence of `c` at or after `i` exactly when nothing
/// before it matches and it matches or the string is exhausted.
pub proof fn lemma_first_index_from_unique(s: Seq<char>, c: char, i: int, k: int)
    requires
        0 <= i <= k <= s.len(),
        forall|j: int| i <= j < k ==> s[j] != c,
        k < s.len() ==> s[k] == c,
    ensures
        first_index_from(s, c, i) == k,
    decreases k - i,
{
    if i < k {
        lemma_first_index_from_unique(s, c, i + 1, k);
    }
}

/// Finds the first occurrence of `c` in `s` at or after `from`.
pub fn find_char_from(s: &str, c: char, from: usize) -> (r: usize)
    requires
        from <= s@.len(),
    ensures
        r == first_index_from(s@, c, from as int),
        from <= r <= s@.len(),
{
    let len = s.unicode_len();
    let mut i: usize = from;
    while i < len
        invariant
            from <= i <= len,
            len == s@.len(),
            forall|j: int| from <= j < i ==> s@[j] != c,
        decreases len - i,
    {
        if s.get_char(i) == c {
            proof {
                lemma_first_index_from_unique(s@, c, from as int, i as int);
            }
            return i;
        }
        i = i + 1;
    }
    proof {
        lemma_first_index_from_unique(s@, c, from as int, len as int);
    }
    len
}

/// The whitespace that surrounds a document: space, tab, carriage return
/// and line feed.
pub open spec fn is_doc_ws(c: char) -> bool {
    c == ' ' || c == '\t' || c == '\n' || c == '\r'
}

/// Index of the first character at or after `i` that is not document
/// whitespace, or `s.len()` when all of the rest is.
pub open spec fn first_non_ws(s: Seq<char>, i: int) -> int
    decreases s.len() - i,
{
    if i < 0 || i >= s.len() {
        s.len() as int
    } else if is_doc_ws(s[i]) {
        first_non_ws(s, i + 1)
    } else {
        i
    }
}

/// End of the last character before `i` that is not document whitespace,
/// or `0` when all of the prefix is.
pub open spec fn last_non_ws_end(s: Seq<char>, i: int) -> int
    decreases i,
{
    if i <= 0 {
        0
    } else if is_doc_ws(s[i - 1]) {
        last_non_ws_end(s, i - 1)
    } else {
        i
    }
}

/// `s` without its leading document whitespace.
pub open spec fn spec_trim_start(s: Seq<char>) -> Seq<char> {
    s.subrange(first_non_ws(s, 0), s.len() as int)
}

/// `s` without its surrounding document whitespace.
pub open spec fn spec_trim(s: Seq<char>) -> Seq<char> {
    let a = first_non_ws(s, 0);
    let b = last_non_ws_end(s, s.len() as int);
    if a < b {
        s.subrange(a, b)
    } else {
        Seq::empty()
    }
}

pub proof fn lemma_first_non_ws_properties(s: Seq<char>, i: int)
    requires
        0 <= i <= s.len(),
    ensures
        i <= first_non_ws(s, i) <= s.len(),
        forall|j: int| i <= j < first_non_ws(s, i) ==> is_doc_ws(s[j]),
        first_non_ws(s, i) < s.len() ==> !is_doc_ws(s[first_non_ws(s, i)]),
    decreases s.len() - i,
{
    if i < s.len() && is_doc_ws(s[i]) {
        lemma_first_non_ws_properties(s, i + 1);
    }
}

pub proof fn lemma_first_non_ws_unique(s: Seq<char>, i: int, k: int)
    requires
        0 <= i <= k <= s.len(),
        forall|j: int| i <= j < k ==> is_doc_ws(s[j]),
        k < s.len() ==> !is_doc_ws(s[k]),
    ensures
        first_non_ws(s, i) == k,
    decreases k - i,
{
    if i < k {
        lemma_first_non_ws_unique(s, i + 1, k);
    }
}

pub proof fn lemma_last_non_ws_end_properties(s: Seq<char>, i: int)
    requires
        0 <= i <= s.len(),
    ensures
        0 <= last_non_ws_end(s, i) <= i,
        forall|j: int| last_non_ws_end(s, i) <= j < i ==> is_doc_ws(s[j]),
        last_non_ws_end(s, i) > 0 ==> !is_doc_ws(s[last_non_ws_end(s, i) - 1]),
    decreases i,
{
    if i > 0 && is_doc_ws(s[i - 1]) {
        lemma_last_non_ws_end_properties(s, i - 1);
    }
}

pub proof fn lemma_last_non_ws_end_unique(s: Seq<char>, i: int, k: int)
    requires
        0 <= k <= i <= s.len(),
        forall|j: int| k <= j < i ==> is_doc_ws(s[j]),
        k > 0 ==> !is_doc_ws(s[k - 1]),
    ensures
        last_non_ws_end(s, i) == k,
    decreases i,
{
    if i > k {
        lemma_last_non_ws_end_unique(s, i - 1, k);
    }
}

/// Finds the first character at or after `from` that is not document
/// whitespace.
pub fn find_non_ws(s: &str, from: usize) -> (r: usize)
    requires
        from <= s@.len(),
    ensures
        r == first_non_ws(s@, from as int),
        from <= r <= s@.len(),
{
    let len = s.unicode_len();
    let mut i: usize = from;
    while i < len
        invariant
            from <= i <= len,
            len == s@.len(),
            forall|j: int| from <= j < i ==> is_doc_ws(s@[j]),
        decreases len - i,
    {
        let c = s.get_char(i);
        if !(c == ' ' || c == '\t' || c == '\n' || c == '\r') {
            proof {
                lemma_first_non_ws_unique(s@, from as int, i as int);
            }
            return i;
        }
        i = i + 1;
    }
    proof {
        lemma_first_non_ws_unique(s@, from as int, len as int);
    }
    len
}

/// `s` without its leading document whitespace.
pub fn trim_start<'a>(s: &'a str) -> (r: &'a str)
    ensures
        r@ == spec_trim_start(s@),
{
    let len = s.unicode_len();
    let a = find_non_ws(s, 0);
    s.substring_char(a, len)
}

/// `s` without its surrounding document whitespace.
pub fn trim<'a>(s: &'a str) -> (r: &'a str)
    ensures
        r@ == spec_trim(s@),
{
    let len = s.unicode_len();
    let a = find_non_ws(s, 0);
    let mut b: usize = len;
    proof {
        lemma_first_non_ws_properties(s@, 0);
    }
    while b > 0 && is_ws_at(s, b - 1)
        invariant
            0 <= b <= len,
            len == s@.len(),
            forall|j: int| b <= j < len ==> is_doc_ws(s@[j]),
        decreases b,
    {
        b = b - 1;
    }
    proof {
        lemma_last_non_ws_end_unique(s@, len as int, b as int);
    }
    if a < b {
        s.substring_char(a, b)
    } else {
        proof {
            assert(Seq::<char>::empty() =~= ""@) by {
                reveal_strlit("");
            }
        }
        ""
    }
}

/// Reports whether the two strings hold the same characters.
pub fn str_eq(a: &str, b: &str) -> (r: bool)
    ensures
        r == (a@ == b@),
{
    let alen = a.unicode_len();
    let blen = b.unicode_len();
    if alen != blen {
        return false;
    }
    let mut i: usize = 0;
    while i < alen
        invariant
            i <= alen,
            alen == a@.len(),
            alen == b@.len(),
            forall|j: int| 0 <= j < i ==> a@[j] == b@[j],
        decreases alen - i,
    {
        if a.get_char(i) != b.get_char(i) {
            return false;
        }
        i = i + 1;
    }
    proof {
        assert(a@ =~= b@);
    }
    true
}

/// Reports whether the character at `i` is document whitespace.
pub fn is_ws_at(s: &str, i: usize) -> (r: bool)
    requires
        i < s@.len(),
    ensures
        r == is_doc_ws(s@[i as int]),
{
    let c = s.get_char(i);
    c == ' ' || c == '\t' || c == '\n' || c == '\r'
}

} // verus!
