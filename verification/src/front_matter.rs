//! Splitting a document into front matter and body, and parsing the front
//! matter's key/value block.
//!
//! A front-matter block is recognized only when the document, after leading
//! whitespace, starts with `---` followed by a line break, a later line
//! starts with `---`, and that closing delimiter is followed by a line break
//! or only whitespace. The block between the delimiters holds one entry per
//! line: `key: value` scalars for `title`, `lang`, `head` and `hard_breaks`,
//! and `css:` or `script:` opening a list of `- value` lines. Values may be
//! wrapped in one pair of matching single or double quotes; blank lines are
//! skipped; unknown keys are ignored together with their list items; a
//! repeated key, a malformed line, an empty list item, a non-boolean
//! `hard_breaks` value or a scalar value on a list key is a parse error.
//! A parse error is recovered from by treating the whole block as absent.

use vstd::prelude::*;

use indexmap::IndexSet;

use crate::index_set::index_set_insert;
use crate::index_set::index_set_new;
use crate::index_set::set_elems;
use crate::metadata::push_unique;
use crate::metadata::Metadata;
use crate::metadata::MetadataView;
use crate::text::find_char_from;
use crate::text::find_non_ws;
use crate::text::first_index_from;
use crate::text::first_non_ws;
use crate::text::is_doc_ws;
use crate::text::is_ws_at;
use crate::text::lemma_first_non_ws_properties;
use crate::text::lemma_last_non_ws_end_properties;
use crate::text::spec_trim;
use crate::text::spec_trim_start;
use crate::text::str_eq;
use crate::text::trim;
use crate::text::trim_start;

verus! {

/// What a line of the block may continue: the list opened by the last key,
/// a list under an unknown key, or nothing.
#[derive(Clone, Copy, PartialEq, Eq, Structural, Debug)]
pub enum PendingKey {
    /// No list is open: a stray list item is an error.
    NoKey,
    /// `css:` was just seen: list items are stylesheet URLs.
    CssKey,
    /// `script:` was just seen: list items are script URLs.
    ScriptKey,
    /// An unknown key opened a list: its items are ignored.
    IgnoredKey,
}

/// The state accumulated while reading the block line by line.
pub ghost struct MetaAcc {
    pub title: Option<Seq<char>>,
    pub lang: Option<Seq<char>>,
    pub css: Seq<Seq<char>>,
    pub script: Seq<Seq<char>>,
    pub head: Option<Seq<char>>,
    pub hard_breaks: Option<bool>,
    pub seen: Seq<Seq<char>>,
    pub pending: PendingKey,
}

/// The state before any line was read.
pub open spec fn init_acc() -> MetaAcc {
    MetaAcc {
        title: None,
        lang: None,
        css: Seq::empty(),
        script: Seq::empty(),
        head: None,
        hard_breaks: None,
        seen: Seq::empty(),
        pending: PendingKey::NoKey,
    }
}

/// The URL lists hold no duplicates.
pub open spec fn acc_wf(acc: MetaAcc) -> bool {
    acc.css.no_duplicates() && acc.script.no_duplicates()
}

/// The metadata that the accumulated state denotes.
pub open spec fn acc_to_metadata(acc: MetaAcc) -> MetadataView {
    MetadataView {
        title: acc.title,
        lang: acc.lang,
        css: acc.css,
        script: acc.script,
        head: match acc.head {
            Some(h) => h,
            None => Seq::empty(),
        },
        hard_breaks: acc.hard_breaks,
    }
}

/// A value without one pair of surrounding matching quotes, if it has one.
pub open spec fn spec_unquote(v: Seq<char>) -> Seq<char> {
    if v.len() >= 2 && ((v.first() == '"' && v.last() == '"') || (v.first() == '\'' && v.last()
        == '\'')) {
        v.subrange(1, v.len() - 1)
    } else {
        v
    }
}

/// Reads one line of the block into the accumulated state, or fails on a
/// malformed line.
pub open spec fn spec_line_step(acc: MetaAcc, line: Seq<char>) -> Option<MetaAcc> {
    if spec_trim(line).len() == 0 {
        Some(acc)
    } else {
        let a = first_non_ws(line, 0);
        if line[a] == '-' && (a + 1 == line.len() || is_doc_ws(line[a + 1])) {
            let item = spec_unquote(spec_trim(line.subrange(a + 1, line.len() as int)));
            if item.len() == 0 {
                None
            } else {
                match acc.pending {
                    PendingKey::CssKey => Some(
                        MetaAcc { css: push_unique(acc.css, item), ..acc },
                    ),
                    PendingKey::ScriptKey => Some(
                        MetaAcc { script: push_unique(acc.script, item), ..acc },
                    ),
                    PendingKey::IgnoredKey => Some(acc),
                    PendingKey::NoKey => None,
                }
            }
        } else {
            let c = first_index_from(line, ':', 0);
            if c == line.len() {
                None
            } else {
                let key = spec_trim(line.subrange(0, c));
                let val = spec_unquote(spec_trim(line.subrange(c + 1, line.len() as int)));
                if key.len() == 0 {
                    None
                } else if acc.seen.contains(key) {
                    None
                } else {
                    let acc1 = MetaAcc {
                        seen: acc.seen.push(key),
                        pending: PendingKey::NoKey,
                        ..acc
                    };
                    if key == "title"@ {
                        if val.len() == 0 {
                            Some(acc1)
                        } else {
                            Some(MetaAcc { title: Some(val), ..acc1 })
                        }
                    } else if key == "lang"@ {
                        if val.len() == 0 {
                            Some(acc1)
                        } else {
                            Some(MetaAcc { lang: Some(val), ..acc1 })
                        }
                    } else if key == "head"@ {
                        if val.len() == 0 {
                            Some(acc1)
                        } else {
                            Some(MetaAcc { head: Some(val), ..acc1 })
                        }
                    } else if key == "hard_breaks"@ {
                        if val.len() == 0 {
                            Some(acc1)
                        } else if val == "true"@ {
                            Some(MetaAcc { hard_breaks: Some(true), ..acc1 })
                        } else if val == "false"@ {
                            Some(MetaAcc { hard_breaks: Some(false), ..acc1 })
                        } else {
                            None
                        }
                    } else if key == "css"@ {
                        if val.len() == 0 {
                            Some(MetaAcc { pending: PendingKey::CssKey, ..acc1 })
                        } else {
                            None
                        }
                    } else if key == "script"@ {
                        if val.len() == 0 {
                            Some(MetaAcc { pending: PendingKey::ScriptKey, ..acc1 })
                        } else {
                            None
                        }
                    } else {
                        if val.len() == 0 {
                            Some(MetaAcc { pending: PendingKey::IgnoredKey, ..acc1 })
                        } else {
                            Some(acc1)
                        }
                    }
                }
            }
        }
    }
}

/// A line without its trailing carriage return, if it has one.
pub open spec fn strip_cr(line: Seq<char>) -> Seq<char> {
    if line.len() > 0 && line.last() == '\r' {
        line.drop_last()
    } else {
        line
    }
}

/// The lines of `s` from index `i` on, split at each line feed, each without
/// its trailing carriage return.
pub open spec fn spec_lines_from(s: Seq<char>, i: int) -> Seq<Seq<char>>
    decreases s.len() - i,
{
    if i < 0 || i > s.len() {
        Seq::empty()
    } else {
        let nl = first_index_from(s, '\n', i);
        if nl < i {
            Seq::empty()
        } else if nl >= s.len() {
            seq![strip_cr(s.subrange(i, s.len() as int))]
        } else {
            seq![strip_cr(s.subrange(i, nl))] + spec_lines_from(s, nl + 1)
        }
    }
}

/// Reads the lines into the accumulated state, or fails on the first
/// malformed one.
pub open spec fn spec_parse_lines(lines: Seq<Seq<char>>, acc: MetaAcc) -> Option<MetaAcc>
    decreases lines.len(),
{
    if lines.len() == 0 {
        Some(acc)
    } else {
        match spec_line_step(acc, lines.first()) {
            Some(a2) => spec_parse_lines(lines.drop_first(), a2),
            None => None,
        }
    }
}

/// The metadata held by the block between the delimiters, or `None` when
/// the block is malformed.
pub open spec fn spec_parse_block(block: Seq<char>) -> Option<MetadataView> {
    match spec_parse_lines(spec_lines_from(block, 0), init_acc()) {
        Some(acc) => Some(acc_to_metadata(acc)),
        None => None,
    }
}

/// A closing delimiter begins at `j`: a line feed followed by `---`.
pub open spec fn delim_at(s: Seq<char>, j: int) -> bool {
    &&& 0 <= j
    &&& j + 4 <= s.len()
    &&& s[j] == '\n'
    &&& s[j + 1] == '-'
    &&& s[j + 2] == '-'
    &&& s[j + 3] == '-'
}

/// Index of the first closing delimiter at or after `i`, or `s.len()` when
/// there is none.
pub open spec fn first_delim_from(s: Seq<char>, i: int) -> int
    decreases s.len() - i,
{
    if i < 0 || i >= s.len() {
        s.len() as int
    } else if delim_at(s, i) {
        i
    } else {
        first_delim_from(s, i + 1)
    }
}

pub proof fn lemma_first_delim_from_properties(s: Seq<char>, i: int)
    requires
        0 <= i <= s.len(),
    ensures
        i <= first_delim_from(s, i) <= s.len(),
        forall|j: int| i <= j < first_delim_from(s, i) ==> !delim_at(s, j),
        first_delim_from(s, i) < s.len() ==> delim_at(s, first_delim_from(s, i)),
    decreases s.len() - i,
{
    if i < s.len() && !delim_at(s, i) {
        lemma_first_delim_from_properties(s, i + 1);
    }
}

pub proof fn lemma_first_delim_from_unique(s: Seq<char>, i: int, k: int)
    requires
        0 <= i <= k <= s.len(),
        forall|j: int| i <= j < k ==> !delim_at(s, j),
        k < s.len() ==> delim_at(s, k),
    ensures
        first_delim_from(s, i) == k,
    decreases k - i,
{
    if i < k {
        lemma_first_delim_from_unique(s, i + 1, k);
    }
}

/// The opening delimiter stands at the start of the trimmed document: `---`
/// followed by a line break.
pub open spec fn opens_front_matter(s: Seq<char>) -> bool {
    &&& s.len() >= 4
    &&& s[0] == '-'
    &&& s[1] == '-'
    &&& s[2] == '-'
    &&& (s[3] == '\n' || (s[3] == '\r' && s.len() >= 5 && s[4] == '\n'))
}

/// Splits the start-trimmed document into the text between the delimiters
/// and the raw remainder after the closing delimiter, when the structure is
/// recognized.
pub open spec fn spec_front_split(s: Seq<char>) -> Option<(Seq<char>, Seq<char>)> {
    if opens_front_matter(s) {
        let m = first_delim_from(s, 3);
        if m < s.len() {
            let block = s.subrange(3, m);
            let raw = s.subrange(m + 4, s.len() as int);
            if raw.len() == 0 || raw[0] == '\n' || (raw[0] == '\r' && raw.len() >= 2 && raw[1]
                == '\n') || spec_trim(raw).len() == 0 {
                Some((block, raw))
            } else {
                None
            }
        } else {
            None
        }
    } else {
        None
    }
}

/// The metadata and the body of a whole document: the parsed front matter
/// and the trimmed remainder when a well-formed block is present, and the
/// all-defaults metadata with the whole trimmed text otherwise.
pub open spec fn spec_parse_document(source: Seq<char>) -> (MetadataView, Seq<char>) {
    let s = spec_trim_start(source);
    match spec_front_split(s) {
        Some((block, raw)) => match spec_parse_block(block) {
            Some(md) => (md, spec_trim(raw)),
            None => (MetadataView::default_spec(), spec_trim(s)),
        },
        None => (MetadataView::default_spec(), spec_trim(s)),
    }
}

/// The working state of the block parser: the fields read so far, the keys
/// already handled, and the list the next item line would extend.
struct Draft {
    title: Option<String>,
    lang: Option<String>,
    css: Vec<String>,
    script: Vec<String>,
    head: Option<String>,
    hard_breaks: Option<bool>,
    seen: Vec<String>,
    pending: PendingKey,
}

impl View for Draft {
    type V = MetaAcc;

    closed spec fn view(&self) -> MetaAcc {
        MetaAcc {
            title: match self.title {
                Some(t) => Some(t@),
                None => None,
            },
            lang: match self.lang {
                Some(l) => Some(l@),
                None => None,
            },
            css: self.css.deep_view(),
            script: self.script.deep_view(),
            head: match self.head {
                Some(h) => Some(h@),
                None => None,
            },
            hard_breaks: self.hard_breaks,
            seen: self.seen.deep_view(),
            pending: self.pending,
        }
    }
}

/// Reports whether some entry of the vector holds the given characters.
fn vec_contains_str(v: &Vec<String>, s: &str) -> (r: bool)
    ensures
        r == v.deep_view().contains(s@),
{
    let n = v.len();
    let mut i: usize = 0;
    while i < n
        invariant
            i <= n,
            n == v.len(),
            forall|j: int| 0 <= j < i ==> v.deep_view()[j] != s@,
        decreases n - i,
    {
        if str_eq(v[i].as_str(), s) {
            proof {
                assert(v.deep_view()[i as int] == s@);
            }
            return true;
        }
        i = i + 1;
    }
    proof {
        if v.deep_view().contains(s@) {
            let k = choose|k: int| 0 <= k < v.deep_view().len() && v.deep_view()[k] == s@;
            assert(false);
        }
    }
    false
}

/// Appends the value unless it is already present.
fn vec_push_unique(v: &mut Vec<String>, s: String)
    ensures
        final(v).deep_view() == push_unique(old(v).deep_view(), s@),
{
    if !vec_contains_str(v, s.as_str()) {
        let ghost before = v.deep_view();
        v.push(s);
        proof {
            assert(v.deep_view() =~= before.push(s@));
        }
    }
}

impl Draft {
    fn new() -> (r: Draft)
        ensures
            r@ == init_acc(),
    {
        let r = Draft {
            title: None,
            lang: None,
            css: Vec::new(),
            script: Vec::new(),
            head: None,
            hard_breaks: None,
            seen: Vec::new(),
            pending: PendingKey::NoKey,
        };
        proof {
            assert(r.css.deep_view() =~= Seq::<Seq<char>>::empty());
            assert(r.script.deep_view() =~= Seq::<Seq<char>>::empty());
            assert(r.seen.deep_view() =~= Seq::<Seq<char>>::empty());
        }
        r
    }

    /// Reads one line into the state; `false` reports a malformed line.
    fn step(&mut self, line: &str) -> (ok: bool)
        ensures
            (match spec_line_step(old(self)@, line@) {
                Some(a) => ok && final(self)@ == a,
                None => !ok,
            }),
    {
        let llen = line.unicode_len();
        let a = find_non_ws(line, 0);
        proof {
            lemma_first_non_ws_properties(line@, 0);
            lemma_last_non_ws_end_properties(line@, llen as int);
        }
        if a == llen {
            // A blank line changes nothing.
            return true;
        }
        proof {
            assert(spec_trim(line@).len() > 0);
        }
        if line.get_char(a) == '-' && (a + 1 == llen || is_ws_at(line, a + 1)) {
            // A list item extends the list that the last key opened.
            let item = unquote(trim(line.substring_char(a + 1, llen)));
            if item.is_empty() {
                return false;
            }
            match self.pending {
                PendingKey::CssKey => {
                    vec_push_unique(&mut self.css, String::from_str(item));
                    true
                },
                PendingKey::ScriptKey => {
                    vec_push_unique(&mut self.script, String::from_str(item));
                    true
                },
                PendingKey::IgnoredKey => true,
                PendingKey::NoKey => false,
            }
        } else {
            let c = find_char_from(line, ':', 0);
            if c == llen {
                return false;
            }
            let key = trim(line.substring_char(0, c));
            let val = unquote(trim(line.substring_char(c + 1, llen)));
            if key.is_empty() {
                return false;
            }
            if vec_contains_str(&self.seen, key) {
                return false;
            }
            self.seen.push(String::from_str(key));
            proof {
                assert(self.seen.deep_view() =~= old(self).seen.deep_view().push(key@));
            }
            self.pending = PendingKey::NoKey;
            if str_eq(key, "title") {
                if !val.is_empty() {
                    self.title = Some(String::from_str(val));
                }
                true
            } else if str_eq(key, "lang") {
                if !val.is_empty() {
                    self.lang = Some(String::from_str(val));
                }
                true
            } else if str_eq(key, "head") {
                if !val.is_empty() {
                    self.head = Some(String::from_str(val));
                }
                true
            } else if str_eq(key, "hard_breaks") {
                if val.is_empty() {
                    true
                } else if str_eq(val, "true") {
                    self.hard_breaks = Some(true);
                    true
                } else if str_eq(val, "false") {
                    self.hard_breaks = Some(false);
                    true
                } else {
                    false
                }
            } else if str_eq(key, "css") {
                if val.is_empty() {
                    self.pending = PendingKey::CssKey;
                    true
                } else {
                    false
                }
            } else if str_eq(key, "script") {
                if val.is_empty() {
                    self.pending = PendingKey::ScriptKey;
                    true
                } else {
                    false
                }
            } else {
                if val.is_empty() {
                    self.pending = PendingKey::IgnoredKey;
                }
                true
            }
        }
    }
}

/// A value without one pair of surrounding matching quotes, if it has one.
fn unquote<'a>(v: &'a str) -> (r: &'a str)
    ensures
        r@ == spec_unquote(v@),
{
    let len = v.unicode_len();
    if len >= 2 {
        let f = v.get_char(0);
        let l = v.get_char(len - 1);
        if (f == '"' && l == '"') || (f == '\'' && l == '\'') {
            return v.substring_char(1, len - 1);
        }
    }
    v
}

/// Builds the ordered URL set from a duplicate-free list.
fn build_set(v: &Vec<String>) -> (r: IndexSet<String>)
    requires
        v.deep_view().no_duplicates(),
    ensures
        set_elems(r) == v.deep_view(),
{
    let ghost all = v.deep_view();
    let mut r = index_set_new();
    let n = v.len();
    let mut i: usize = 0;
    proof {
        assert(all.take(0) =~= Seq::<Seq<char>>::empty());
    }
    while i < n
        invariant
            i <= n,
            n == v.len(),
            all == v.deep_view(),
            all.no_duplicates(),
            set_elems(r) == all.take(i as int),
        decreases n - i,
    {
        proof {
            if all.take(i as int).contains(all[i as int]) {
                let k = choose|k: int| 0 <= k < i && all.take(i as int)[k] == all[i as int];
                assert(all[k] == all[i as int]);
            }
        }
        index_set_insert(&mut r, v[i].clone());
        proof {
            assert(all.take(i as int).push(all[i as int]) =~= all.take(i + 1));
        }
        i = i + 1;
    }
    proof {
        assert(all.take(n as int) =~= all);
    }
    r
}

/// Parses the text between the delimiters, or fails on a malformed block.
pub fn parse_meta_block(block: &str) -> (r: Option<Metadata>)
    ensures
        (match r {
            Some(m) => spec_parse_block(block@) == Some(m@) && m@.wf(),
            None => spec_parse_block(block@) is None,
        }),
{
    let len = block.unicode_len();
    let mut draft = Draft::new();
    let mut pos: usize = 0;
    let mut done = false;
    let ghost goal = spec_parse_lines(spec_lines_from(block@, 0), init_acc());
    while !done
        invariant
            pos <= len,
            len == block@.len(),
            acc_wf(draft@),
            !done ==> spec_parse_lines(spec_lines_from(block@, pos as int), draft@) == goal,
            done ==> goal == Some(draft@),
            goal == spec_parse_lines(spec_lines_from(block@, 0), init_acc()),
        decreases len - pos, (if done {
            0int
        } else {
            1int
        }),
    {
        let nl = find_char_from(block, '\n', pos);
        let mut e = nl;
        if nl > pos && block.get_char(nl - 1) == '\r' {
            e = nl - 1;
        }
        let line = block.substring_char(pos, e);
        proof {
            assert(line@ == strip_cr(block@.subrange(pos as int, nl as int))) by {
                if nl > pos && block@[nl as int - 1] == '\r' {
                    assert(block@.subrange(pos as int, nl as int).last() == '\r');
                    assert(block@.subrange(pos as int, nl as int).drop_last() =~= block@.subrange(
                        pos as int,
                        e as int,
                    ));
                } else {
                    if block@.subrange(pos as int, nl as int).len() > 0 {
                        assert(block@.subrange(pos as int, nl as int).last() == block@[nl as int
                            - 1]);
                    }
                }
            }
        }
        let ghost acc0 = draft@;
        let ok = draft.step(line);
        if !ok {
            proof {
                if nl < len {
                    assert(spec_lines_from(block@, pos as int).first() == line@);
                } else {
                    assert(spec_lines_from(block@, pos as int).first() == line@);
                }
            }
            return None;
        }
        proof {
            let lines = spec_lines_from(block@, pos as int);
            if nl < len {
                assert(lines.first() == line@);
                assert(lines.drop_first() =~= spec_lines_from(block@, nl as int + 1));
            } else {
                assert(lines.first() == line@);
                assert(lines.drop_first() =~= Seq::<Seq<char>>::empty());
                assert(spec_parse_lines(Seq::<Seq<char>>::empty(), draft@) == Some(draft@));
            }
            assert(acc_wf(draft@)) by {
                let a = first_non_ws(line@, 0);
                if spec_trim(line@).len() != 0 && line@[a] == '-' && (a + 1 == line@.len()
                    || is_doc_ws(line@[a + 1])) {
                    let item = spec_unquote(
                        spec_trim(line@.subrange(a + 1, line@.len() as int)),
                    );
                    crate::metadata::lemma_push_unique_no_dup(acc0.css, item);
                    crate::metadata::lemma_push_unique_no_dup(acc0.script, item);
                }
            }
        }
        if nl < len {
            pos = nl + 1;
        } else {
            done = true;
        }
    }
    let css = build_set(&draft.css);
    let script = build_set(&draft.script);
    let md = Metadata {
        title: draft.title,
        lang: draft.lang,
        css,
        script,
        head: match draft.head {
            Some(h) => h,
            None => String::new(),
        },
        hard_breaks: draft.hard_breaks,
    };
    Some(md)
}

/// Splits a whole document into its metadata and its body.
///
/// A well-formed front-matter block yields its metadata and the trimmed
/// remainder; a missing or malformed block yields the all-defaults metadata
/// and the whole trimmed text.
pub fn parse_document(source: &str) -> (r: (Metadata, String))
    ensures
        r.0@ == spec_parse_document(source@).0,
        r.1@ == spec_parse_document(source@).1,
        r.0@.wf(),
{
    let s = trim_start(source);
    let slen = s.unicode_len();
    let open_ok = slen >= 4 && s.get_char(0) == '-' && s.get_char(1) == '-' && s.get_char(2)
        == '-' && (s.get_char(3) == '\n' || (s.get_char(3) == '\r' && slen >= 5 && s.get_char(4)
        == '\n'));
    if open_ok {
        let m = find_delim(s, 3);
        if m < slen {
            let block = s.substring_char(3, m);
            let raw = s.substring_char(m + 4, slen);
            let rlen = raw.unicode_len();
            let raw_ok = rlen == 0 || raw.get_char(0) == '\n' || (raw.get_char(0) == '\r' && rlen
                >= 2 && raw.get_char(1) == '\n') || trim(raw).unicode_len() == 0;
            if raw_ok {
                match parse_meta_block(block) {
                    Some(md) => {
                        return (md, String::from_str(trim(raw)));
                    },
                    None => {
                    },
                }
            }
        }
    }
    let body = String::from_str(trim(s));
    (Metadata::new(), body)
}

/// Finds the first closing delimiter at or after `from`.
fn find_delim(s: &str, from: usize) -> (r: usize)
    requires
        from <= s@.len(),
    ensures
        r == first_delim_from(s@, from as int),
        from <= r <= s@.len(),
        r < s@.len() ==> r + 4 <= s@.len(),
{
    let len = s.unicode_len();
    let mut i: usize = from;
    while i < len
        invariant
            from <= i <= len,
            len == s@.len(),
            forall|j: int| from <= j < i ==> !delim_at(s@, j),
        decreases len - i,
    {
        if s.get_char(i) == '\n' && len - i >= 4 && s.get_char(i + 1) == '-' && s.get_char(i + 2)
            == '-' && s.get_char(i + 3) == '-' {
            proof {
                lemma_first_delim_from_unique(s@, from as int, i as int);
            }
            return i;
        }
        i = i + 1;
    }
    proof {
        lemma_first_delim_from_unique(s@, from as int, len as int);
    }
    len
}

} // verus!
