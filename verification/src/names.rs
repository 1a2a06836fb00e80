//! Output file names, their case-folding keys, and duplicate-name
//! detection when many inputs are flattened into one output directory.

use vstd::prelude::*;

use crate::error::ConvertError;
use crate::error::ConvertErrorView;
use crate::links::last_slash_before;
use crate::links::lemma_last_slash_before_properties;
use crate::links::lemma_last_slash_before_unique;
use crate::policy::CaseFolding;
use crate::text::str_eq;

verus! {

/// What the given characters fold to under upper-case folding; the result
/// depends on the characters alone.
pub uninterp spec fn upper_of(s: Seq<char>) -> Seq<char>;

/// Relies on str::to_uppercase: the uppercase form of the string, a
/// function of its characters alone.
#[verifier::external_body]
fn to_uppercase(s: &str) -> (r: String)
    ensures
        r@ == upper_of(s@),
{
    s.to_uppercase()
}

/// The comparison key of a file name under the policy: the name itself on a
/// case-sensitive target, its uppercase folding on a case-insensitive one.
pub open spec fn spec_name_key(name: Seq<char>, folding: CaseFolding) -> Seq<char> {
    match folding {
        CaseFolding::Sensitive => name,
        CaseFolding::Insensitive => upper_of(name),
    }
}

/// End of `s` without its trailing slashes.
pub open spec fn end_sans_slashes(s: Seq<char>, i: int) -> int
    decreases i,
{
    if i <= 0 {
        0
    } else if s[i - 1] == '/' {
        end_sans_slashes(s, i - 1)
    } else {
        i
    }
}

pub proof fn lemma_end_sans_slashes_unique(s: Seq<char>, i: int, k: int)
    requires
        0 <= k <= i <= s.len(),
        forall|j: int| k <= j < i ==> s[j] == '/',
        k > 0 ==> s[k - 1] != '/',
    ensures
        end_sans_slashes(s, i) == k,
    decreases i,
{
    if i > k {
        lemma_end_sans_slashes_unique(s, i - 1, k);
    }
}

/// The file name of a `/`-separated path: the last non-empty component,
/// trailing slashes ignored. `.` and `..` name no file, and neither does a
/// path without a component.
pub open spec fn spec_file_name(p: Seq<char>) -> Option<Seq<char>> {
    let t = p.subrange(0, end_sans_slashes(p, p.len() as int));
    let ls = last_slash_before(t, t.len() as int);
    let start: int = if t.len() > 0 && t[ls] == '/' {
        ls + 1
    } else {
        0
    };
    let name = t.subrange(start, t.len() as int);
    if name.len() == 0 || name == seq!['.'] || name == seq!['.', '.'] {
        None
    } else {
        Some(name)
    }
}

/// An output file name together with its comparison key.
#[derive(Debug)]
pub struct FileName {
    name: String,
    key: String,
}

/// The mathematical value of a `FileName`.
pub ghost struct FileNameView {
    pub name: Seq<char>,
    pub key: Seq<char>,
}

impl View for FileName {
    type V = FileNameView;

    closed spec fn view(&self) -> FileNameView {
        FileNameView { name: self.name@, key: self.key@ }
    }
}

impl FileName {
    /// Extracts the file name of a path and computes its comparison key
    /// under the policy; a path without a usable file name is a path error
    /// naming the path.
    pub fn new(p: &str, folding: CaseFolding) -> (r: Result<FileName, ConvertError>)
        ensures
            (match r {
                Ok(f) => spec_file_name(p@) == Some(f@.name) && f@.key == spec_name_key(
                    f@.name,
                    folding,
                ),
                Err(e) => spec_file_name(p@) is None && e@ == ConvertErrorView::Path(p@),
            }),
    {
        let len = p.unicode_len();
        let mut t_end: usize = len;
        while t_end > 0 && slash_at(p, t_end - 1)
            invariant
                t_end <= len,
                len == p@.len(),
                forall|j: int| t_end <= j < len ==> p@[j] == '/',
            decreases t_end,
        {
            t_end = t_end - 1;
        }
        proof {
            lemma_end_sans_slashes_unique(p@, len as int, t_end as int);
        }
        let t = p.substring_char(0, t_end);
        let ls = find_last_slash(t, t_end);
        proof {
            lemma_last_slash_before_properties(t@, t_end as int);
        }
        let start: usize = if t_end > 0 && t.get_char(ls) == '/' {
            ls + 1
        } else {
            0
        };
        let name = t.substring_char(start, t_end);
        let nlen = t_end - start;
        let dot = nlen == 1 && name.get_char(0) == '.';
        let dotdot = nlen == 2 && name.get_char(0) == '.' && name.get_char(1) == '.';
        proof {
            if nlen == 1 && name@[0] == '.' {
                assert(name@ =~= seq!['.']);
            }
            if nlen == 2 && name@[0] == '.' && name@[1] == '.' {
                assert(name@ =~= seq!['.', '.']);
            }
            if name@.len() == 1 && name@ == seq!['.'] {
                assert(name@[0] == '.');
            }
            if name@.len() == 2 && name@ == seq!['.', '.'] {
                assert(name@[0] == '.' && name@[1] == '.');
            }
        }
        if nlen == 0 || dot || dotdot {
            return Err(ConvertError::Path(String::from_str(p)));
        }
        let key = match folding {
            CaseFolding::Sensitive => String::from_str(name),
            CaseFolding::Insensitive => to_uppercase(name),
        };
        Ok(FileName { name: String::from_str(name), key })
    }

    /// The file name itself.
    pub fn name(&self) -> (r: &String)
        ensures
            r@ == self@.name,
    {
        &self.name
    }

    /// The comparison key.
    pub fn key(&self) -> (r: &String)
        ensures
            r@ == self@.key,
    {
        &self.key
    }
}

/// Reports whether the character at `i` is a slash.
fn slash_at(s: &str, i: usize) -> (r: bool)
    requires
        i < s@.len(),
    ensures
        r == (s@[i as int] == '/'),
{
    s.get_char(i) == '/'
}

/// Finds the last `/` strictly before `end`, or `0` when there is none.
fn find_last_slash(s: &str, end: usize) -> (r: usize)
    requires
        end <= s@.len(),
    ensures
        r == last_slash_before(s@, end as int),
{
    let mut i: usize = end;
    while i > 0 && !slash_at(s, i - 1)
        invariant
            i <= end <= s@.len(),
            forall|j: int| i <= j < end ==> s@[j] != '/',
        decreases i,
    {
        i = i - 1;
    }
    proof {
        if i > 0 {
            lemma_last_slash_before_unique(s@, end as int, i as int - 1);
        } else {
            lemma_last_slash_before_unique(s@, end as int, 0);
        }
    }
    if i > 0 {
        i - 1
    } else {
        0
    }
}

/// The mapping from case-normalized output names to the first canonical
/// source path claiming each, built before any conversion begins.
pub struct OutputNameTable {
    keys: Vec<String>,
    paths: Vec<String>,
}

/// The mathematical value of an `OutputNameTable`.
pub ghost struct NameTableView {
    pub keys: Seq<Seq<char>>,
    pub paths: Seq<Seq<char>>,
}

impl NameTableView {
    /// The keys are distinct and each key has a path.
    pub open spec fn wf(self) -> bool {
        self.keys.no_duplicates() && self.keys.len() == self.paths.len()
    }
}

impl View for OutputNameTable {
    type V = NameTableView;

    closed spec fn view(&self) -> NameTableView {
        NameTableView { keys: self.keys.deep_view(), paths: self.paths.deep_view() }
    }
}

/// The claim of `path` on `key`: a fresh key records the pair, the same
/// canonical path listed again is a no-op, and a different path colliding
/// on the key fails with both paths.
pub open spec fn spec_claim(t: NameTableView, key: Seq<char>, path: Seq<char>) -> Result<
    NameTableView,
    (Seq<char>, Seq<char>),
> {
    if t.keys.contains(key) {
        let i = choose|i: int| 0 <= i < t.keys.len() && t.keys[i] == key;
        if t.paths[i] == path {
            Ok(t)
        } else {
            Err((t.paths[i], path))
        }
    } else {
        Ok(NameTableView { keys: t.keys.push(key), paths: t.paths.push(path) })
    }
}

impl OutputNameTable {
    /// The empty table.
    pub fn new() -> (r: OutputNameTable)
        ensures
            r@.wf(),
            r@.keys == Seq::<Seq<char>>::empty(),
            r@.paths == Seq::<Seq<char>>::empty(),
    {
        let r = OutputNameTable { keys: Vec::new(), paths: Vec::new() };
        proof {
            assert(r.keys.deep_view() =~= Seq::<Seq<char>>::empty());
            assert(r.paths.deep_view() =~= Seq::<Seq<char>>::empty());
        }
        r
    }

    /// Claims `key` for the canonical `path`: records a fresh key, accepts
    /// the same path again, and reports a duplicate-name error naming first
    /// the recorded path and then the new one when a different path
    /// collides.
    pub fn claim(&mut self, name: &FileName, path: &String) -> (r: Result<(), ConvertError>)
        requires
            old(self)@.wf(),
        ensures
            final(self)@.wf(),
            (match r {
                Ok(_) => spec_claim(old(self)@, name@.key, path@) == Ok::<
                    NameTableView,
                    (Seq<char>, Seq<char>),
                >(final(self)@),
                Err(e) => {
                    &&& spec_claim(old(self)@, name@.key, path@) matches Err(pair)
                    &&& e@ == ConvertErrorView::DuplicateName(pair.0, pair.1)
                    &&& final(self)@ == old(self)@
                },
            }),
    {
        let n = self.keys.len();
        let mut i: usize = 0;
        while i < n
            invariant
                i <= n,
                n == self.keys.len(),
                self@.wf(),
                self@ == old(self)@,
                self.paths.len() == n,
                forall|j: int| 0 <= j < i ==> self.keys.deep_view()[j] != name@.key,
            decreases n - i,
        {
            if str_eq(self.keys[i].as_str(), name.key().as_str()) {
                proof {
                    assert(self.keys.deep_view()[i as int] == name@.key);
                    assert(self@.keys.contains(name@.key));
                    let w = choose|w: int|
                        0 <= w < self@.keys.len() && self@.keys[w] == name@.key;
                    assert(w == i as int);
                }
                if str_eq(self.paths[i].as_str(), path.as_str()) {
                    return Ok(());
                } else {
                    return Err(
                        ConvertError::DuplicateName(self.paths[i].clone(), path.clone()),
                    );
                }
            }
            i = i + 1;
        }
        proof {
            if self@.keys.contains(name@.key) {
                let w = choose|w: int| 0 <= w < self@.keys.len() && self@.keys[w] == name@.key;
                assert(false);
            }
        }
        let ghost before = self@;
        self.keys.push(name.key().clone());
        self.paths.push(path.clone());
        proof {
            assert(self.keys.deep_view() =~= before.keys.push(name@.key));
            assert(self.paths.deep_view() =~= before.paths.push(path@));
            assert(self@.keys.no_duplicates()) by {
                assert(forall|j: int|
                    0 <= j < before.keys.len()
                        ==> self@.keys[j] == before.keys[j] && before.keys.contains(
                        before.keys[j],
                    ));
            }
        }
        Ok(())
    }

    /// How many names are recorded.
    pub fn len(&self) -> (r: usize)
        ensures
            r == self@.keys.len(),
    {
        self.keys.len()
    }
}

/// Law: once a path has claimed a key, a different path claiming the same
/// key fails, reporting the recorded path and then the new one; a fresh key
/// always succeeds. On a case-insensitive target the keys of two names that
/// differ only in case coincide, so the second name collides; on a
/// case-sensitive target the key is the name itself, so distinct names
/// never collide.
pub proof fn lemma_duplicate_name_detection(
    t: NameTableView,
    key1: Seq<char>,
    p1: Seq<char>,
    key2: Seq<char>,
    p2: Seq<char>,
)
    requires
        t.wf(),
        !t.keys.contains(key1),
    ensures
        ({
            let t2 = NameTableView { keys: t.keys.push(key1), paths: t.paths.push(p1) };
            &&& spec_claim(t, key1, p1) == Ok::<NameTableView, (Seq<char>, Seq<char>)>(t2)
            &&& (key2 == key1 && p2 != p1 ==> spec_claim(t2, key2, p2) == Err::<
                NameTableView,
                (Seq<char>, Seq<char>),
            >((p1, p2)))
            &&& (key2 == key1 && p2 == p1 ==> spec_claim(t2, key2, p2) == Ok::<
                NameTableView,
                (Seq<char>, Seq<char>),
            >(t2))
            &&& (key2 != key1 && !t.keys.contains(key2) ==> spec_claim(t2, key2, p2) is Ok)
        }),
{
    let t2 = NameTableView { keys: t.keys.push(key1), paths: t.paths.push(p1) };
    assert(t2.keys.contains(key1)) by {
        assert(t2.keys.last() == key1);
    }
    let i = choose|i: int| 0 <= i < t2.keys.len() && t2.keys[i] == key1;
    assert(i == t.keys.len()) by {
        if i < t.keys.len() {
            assert(t.keys[i] == key1 && t.keys.contains(t.keys[i]));
        }
    }
    assert(t2.paths[i] == p1);
    if key2 != key1 && !t.keys.contains(key2) {
        assert(!t2.keys.contains(key2)) by {
            if t2.keys.contains(key2) {
                let w = choose|w: int| 0 <= w < t2.keys.len() && t2.keys[w] == key2;
                if w < t.keys.len() {
                    assert(t.keys.contains(t.keys[w]));
                }
            }
        }
    }
}

} // verus!
