//! Document metadata and its merge with the global rendering options.

use vstd::prelude::*;

use indexmap::IndexSet;

use crate::index_set::index_set_index_of;
use crate::index_set::index_set_insert;
use crate::index_set::index_set_move_index;
use crate::index_set::index_set_new;
use crate::index_set::index_set_to_vec;
use crate::index_set::set_elems;

verus! {

/// The attributes attached to one document: from its front matter, merged
/// with the global options before rendering.
pub struct Metadata {
    /// The document title, when one was given.
    pub title: Option<String>,
    /// The language tag for the `html` element, when one was given.
    pub lang: Option<String>,
    /// Stylesheet URLs in insertion order, without duplicates.
    pub css: IndexSet<String>,
    /// Script URLs in insertion order, without duplicates.
    pub script: IndexSet<String>,
    /// A raw fragment injected into the document head.
    pub head: String,
    /// An override of the hard-line-break rendering behaviour.
    pub hard_breaks: Option<bool>,
}

/// The mathematical value of a `Metadata`.
pub ghost struct MetadataView {
    pub title: Option<Seq<char>>,
    pub lang: Option<Seq<char>>,
    pub css: Seq<Seq<char>>,
    pub script: Seq<Seq<char>>,
    pub head: Seq<char>,
    pub hard_breaks: Option<bool>,
}

impl View for Metadata {
    type V = MetadataView;

    open spec fn view(&self) -> MetadataView {
        MetadataView {
            title: match self.title {
                Some(t) => Some(t@),
                None => None,
            },
            lang: match self.lang {
                Some(l) => Some(l@),
                None => None,
            },
            css: set_elems(self.css),
            script: set_elems(self.script),
            head: self.head@,
            hard_breaks: self.hard_breaks,
        }
    }
}

impl MetadataView {
    /// The URL sets hold no duplicates.
    pub open spec fn wf(self) -> bool {
        self.css.no_duplicates() && self.script.no_duplicates()
    }

    /// The all-defaults metadata of a document without front matter.
    pub open spec fn default_spec() -> MetadataView {
        MetadataView {
            title: None,
            lang: None,
            css: Seq::empty(),
            script: Seq::empty(),
            head: Seq::empty(),
            hard_breaks: None,
        }
    }
}

impl Metadata {
    /// The all-defaults metadata: no title, no language, no URLs, an empty
    /// head fragment and no hard-break override.
    pub fn new() -> (r: Metadata)
        ensures
            r@ == MetadataView::default_spec(),
            r@.wf(),
    {
        Metadata {
            title: None,
            lang: None,
            css: index_set_new(),
            script: index_set_new(),
            head: String::new(),
            hard_breaks: None,
        }
    }

    /// The stylesheet URLs in order, as a vector.
    pub fn css_list(&self) -> (r: Vec<String>)
        ensures
            r.deep_view() == self@.css,
    {
        index_set_to_vec(&self.css)
    }

    /// The script URLs in order, as a vector.
    pub fn script_list(&self) -> (r: Vec<String>)
        ensures
            r.deep_view() == self@.script,
    {
        index_set_to_vec(&self.script)
    }
}

/// The global rendering options given at the command level.
pub struct RenderOptions {
    /// The language tag to fall back to.
    pub lang: Option<String>,
    /// Stylesheet URLs to append, in command-line order.
    pub css: Vec<String>,
    /// Script URLs to append, in command-line order.
    pub script: Vec<String>,
    /// Put the well-known normalize stylesheet first.
    pub normalize_css: bool,
    /// Append the well-known minimalist stylesheet last.
    pub sakura_css: bool,
    /// The head fragment to fall back to.
    pub head: String,
    /// Render soft line breaks as hard breaks unless a document overrides it.
    pub hard_breaks: bool,
    /// Leave `.md` links unchanged while converting a directory.
    pub no_convert_urls: bool,
    /// Also rewrite links that begin with `/`.
    pub convert_base_urls: bool,
}

/// The mathematical value of a `RenderOptions`.
pub ghost struct RenderOptionsView {
    pub lang: Option<Seq<char>>,
    pub css: Seq<Seq<char>>,
    pub script: Seq<Seq<char>>,
    pub normalize_css: bool,
    pub sakura_css: bool,
    pub head: Seq<char>,
    pub hard_breaks: bool,
    pub no_convert_urls: bool,
    pub convert_base_urls: bool,
}

impl View for RenderOptions {
    type V = RenderOptionsView;

    open spec fn view(&self) -> RenderOptionsView {
        RenderOptionsView {
            lang: match self.lang {
                Some(l) => Some(l@),
                None => None,
            },
            css: self.css.deep_view(),
            script: self.script.deep_view(),
            normalize_css: self.normalize_css,
            sakura_css: self.sakura_css,
            head: self.head@,
            hard_breaks: self.hard_breaks,
            no_convert_urls: self.no_convert_urls,
            convert_base_urls: self.convert_base_urls,
        }
    }
}

impl RenderOptions {
    /// Options with everything off: no fallbacks, no extra URLs.
    pub fn new() -> (r: RenderOptions)
        ensures
            r@ == (RenderOptionsView {
                lang: None,
                css: Seq::<Seq<char>>::empty(),
                script: Seq::<Seq<char>>::empty(),
                normalize_css: false,
                sakura_css: false,
                head: Seq::<char>::empty(),
                hard_breaks: false,
                no_convert_urls: false,
                convert_base_urls: false,
            }),
    {
        let r = RenderOptions {
            lang: None,
            css: Vec::new(),
            script: Vec::new(),
            normalize_css: false,
            sakura_css: false,
            head: String::new(),
            hard_breaks: false,
            no_convert_urls: false,
            convert_base_urls: false,
        };
        proof {
            assert(r.css.deep_view() =~= Seq::<Seq<char>>::empty());
            assert(r.script.deep_view() =~= Seq::<Seq<char>>::empty());
        }
        r
    }
}

/// The well-known URL of the normalize stylesheet.
pub open spec fn spec_normalize_css_url() -> Seq<char> {
    "https://unpkg.com/normalize.css@8.0.1/normalize.css"@
}

/// The well-known URL of the normalize stylesheet.
pub fn normalize_css_url() -> (r: &'static str)
    ensures
        r@ == spec_normalize_css_url(),
{
    "https://unpkg.com/normalize.css@8.0.1/normalize.css"
}

/// The well-known URL of the minimalist sakura stylesheet.
pub open spec fn spec_sakura_css_url() -> Seq<char> {
    "https://cdn.jsdelivr.net/npm/sakura.css/css/sakura.css"@
}

/// The well-known URL of the minimalist sakura stylesheet.
pub fn sakura_css_url() -> (r: &'static str)
    ensures
        r@ == spec_sakura_css_url(),
{
    "https://cdn.jsdelivr.net/npm/sakura.css/css/sakura.css"
}

/// `s` with `v` appended, unless `v` is already present: appending an URL a
/// second time is a no-op that keeps the first position.
pub open spec fn push_unique(s: Seq<Seq<char>>, v: Seq<char>) -> Seq<Seq<char>> {
    if s.contains(v) {
        s
    } else {
        s.push(v)
    }
}

/// `s` with each of `items` appended in order, duplicates left in place.
pub open spec fn append_unique(s: Seq<Seq<char>>, items: Seq<Seq<char>>) -> Seq<Seq<char>>
    decreases items.len(),
{
    if items.len() == 0 {
        s
    } else {
        append_unique(push_unique(s, items.first()), items.drop_first())
    }
}

/// `s` with every occurrence of `v` removed, everything else keeping its
/// order.
pub open spec fn without(s: Seq<Seq<char>>, v: Seq<char>) -> Seq<Seq<char>>
    decreases s.len(),
{
    if s.len() == 0 {
        Seq::empty()
    } else if s.first() == v {
        without(s.drop_first(), v)
    } else {
        seq![s.first()] + without(s.drop_first(), v)
    }
}

/// `s` reordered so that `v` comes first: `v` is put at the front and any
/// prior occurrence disappears, everything else keeping its order.
pub open spec fn to_front(s: Seq<Seq<char>>, v: Seq<char>) -> Seq<Seq<char>> {
    seq![v] + without(s, v)
}

/// The merged rendering context of one document, applied in this order: the
/// hard-break override falls back to the global flag; the normalize
/// stylesheet, when asked for, is put first; the global stylesheet and
/// script URLs are appended in command-line order, duplicates being no-ops;
/// an empty head fragment and an unset language fall back to the global
/// values; and the minimalist stylesheet, when asked for, is appended last.
pub open spec fn spec_merge(md: MetadataView, opts: RenderOptionsView) -> MetadataView {
    let css1 = if opts.normalize_css {
        to_front(md.css, spec_normalize_css_url())
    } else {
        md.css
    };
    let css2 = append_unique(css1, opts.css);
    let css3 = if opts.sakura_css {
        push_unique(css2, spec_sakura_css_url())
    } else {
        css2
    };
    MetadataView {
        title: md.title,
        lang: if md.lang is None {
            opts.lang
        } else {
            md.lang
        },
        css: css3,
        script: append_unique(md.script, opts.script),
        head: if md.head.len() == 0 {
            opts.head
        } else {
            md.head
        },
        hard_breaks: Some(
            match md.hard_breaks {
                Some(b) => b,
                None => opts.hard_breaks,
            },
        ),
    }
}

/// A sequence that does not hold `v` is left unchanged by removing `v`.
proof fn lemma_without_absent(s: Seq<Seq<char>>, v: Seq<char>)
    requires
        !s.contains(v),
    ensures
        without(s, v) == s,
    decreases s.len(),
{
    if s.len() > 0 {
        assert(s.first() != v);
        assert(!s.drop_first().contains(v)) by {
            if s.drop_first().contains(v) {
                let k = choose|k: int|
                    0 <= k < s.drop_first().len() && s.drop_first()[k] == v;
                assert(s[k + 1] == v);
            }
        }
        lemma_without_absent(s.drop_first(), v);
        assert(seq![s.first()] + s.drop_first() =~= s);
    } else {
        assert(without(s, v) =~= s);
    }
}

/// In a sequence without duplicates, removing the value at index `i`
/// removes exactly that index.
proof fn lemma_without_removes_index(s: Seq<Seq<char>>, v: Seq<char>, i: int)
    requires
        s.no_duplicates(),
        0 <= i < s.len(),
        s[i] == v,
    ensures
        without(s, v) == s.remove(i),
    decreases s.len(),
{
    let d = s.drop_first();
    assert(d.no_duplicates()) by {
        assert(forall|a: int| 0 <= a < d.len() ==> d[a] == s[a + 1]);
    }
    if i == 0 {
        assert(s.first() == v);
        assert(!d.contains(v)) by {
            if d.contains(v) {
                let k = choose|k: int| 0 <= k < d.len() && d[k] == v;
                assert(s[k + 1] == s[0]);
            }
        }
        lemma_without_absent(d, v);
        assert(s.remove(0) =~= d);
    } else {
        assert(s.first() != v);
        assert(d[i - 1] == v);
        lemma_without_removes_index(d, v, i - 1);
        assert(seq![s.first()] + d.remove(i - 1) =~= s.remove(i));
    }
}

/// Appending one more URL to the items extends the merged list by exactly
/// that URL.
proof fn lemma_append_unique_push(s: Seq<Seq<char>>, items: Seq<Seq<char>>, v: Seq<char>)
    ensures
        append_unique(s, items.push(v)) == push_unique(append_unique(s, items), v),
    decreases items.len(),
{
    if items.len() == 0 {
        assert(items.push(v).first() == v);
        assert(items.push(v).drop_first() =~= Seq::<Seq<char>>::empty());
        assert(append_unique(push_unique(s, v), items.push(v).drop_first()) == push_unique(s, v));
    } else {
        assert(items.push(v).first() == items.first());
        assert(items.push(v).drop_first() =~= items.drop_first().push(v));
        lemma_append_unique_push(push_unique(s, items.first()), items.drop_first(), v);
    }
}

/// Appending a fresh URL keeps the list free of duplicates.
pub proof fn lemma_push_unique_no_dup(s: Seq<Seq<char>>, v: Seq<char>)
    requires
        s.no_duplicates(),
    ensures
        push_unique(s, v).no_duplicates(),
{
    if !s.contains(v) {
        assert(forall|i: int| 0 <= i < s.len() ==> push_unique(s, v)[i] == s[i] && s.contains(s[i]));
    }
}

/// Appending URLs one at a time keeps the result free of duplicates.
proof fn lemma_append_unique_no_dup(s: Seq<Seq<char>>, items: Seq<Seq<char>>)
    requires
        s.no_duplicates(),
    ensures
        append_unique(s, items).no_duplicates(),
    decreases items.len(),
{
    if items.len() > 0 {
        lemma_push_unique_no_dup(s, items.first());
        lemma_append_unique_no_dup(push_unique(s, items.first()), items.drop_first());
    }
}

/// Removing one index of a duplicate-free sequence keeps it
/// duplicate-free.
proof fn lemma_remove_no_dup(s: Seq<Seq<char>>, i: int)
    requires
        s.no_duplicates(),
        0 <= i < s.len(),
    ensures
        s.remove(i).no_duplicates(),
{
    let rem = s.remove(i);
    assert(forall|a: int|
        0 <= a < rem.len() ==> rem[a] == (if a < i {
            s[a]
        } else {
            s[a + 1]
        }));
}

/// Moving the only occurrence of `v` to the front reorders the list into
/// `v` followed by everything else in its prior order.
proof fn lemma_move_to_front(
    orig: Seq<Seq<char>>,
    before: Seq<Seq<char>>,
    idx: int,
    v: Seq<char>,
    inserted: bool,
)
    requires
        orig.no_duplicates(),
        inserted ==> !orig.contains(v) && before == orig.push(v),
        !inserted ==> orig.contains(v) && before == orig,
        0 <= idx < before.len(),
        before[idx] == v,
    ensures
        before.remove(idx).insert(0, v) == to_front(orig, v),
        to_front(orig, v).no_duplicates(),
{
    assert(before.no_duplicates()) by {
        if inserted {
            assert(forall|i: int|
                0 <= i < orig.len() ==> before[i] == orig[i] && orig.contains(orig[i]));
        }
    }
    let rem = before.remove(idx);
    lemma_remove_no_dup(before, idx);
    if inserted {
        assert(before.last() == v);
        assert(idx == before.len() - 1);
        assert(rem =~= orig);
        lemma_without_absent(orig, v);
    } else {
        lemma_without_removes_index(before, v, idx);
    }
    assert(rem == without(orig, v));
    assert(rem.insert(0, v) =~= seq![v] + without(orig, v));
    assert forall|a: int| 0 <= a < rem.len() implies rem[a] != v by {
        if a < idx {
            assert(rem[a] == before[a]);
        } else {
            assert(rem[a] == before[a + 1]);
        }
    }
    let g = seq![v] + rem;
    assert forall|a: int, b: int|
        0 <= a < g.len() && 0 <= b < g.len() && a != b implies g[a] != g[b] by {
        if a == 0 {
            assert(g[b] == rem[b - 1]);
        } else if b == 0 {
            assert(g[a] == rem[a - 1]);
        } else {
            assert(g[a] == rem[a - 1] && g[b] == rem[b - 1]);
        }
    }
    assert(g.no_duplicates());
    assert(to_front(orig, v) == g);
}

/// Appends each of `items` to the set, skipping the ones already present.
fn extend_unique(s: &mut IndexSet<String>, items: &Vec<String>)
    ensures
        set_elems(*final(s)) == append_unique(set_elems(*old(s)), items.deep_view()),
{
    let ghost orig = set_elems(*s);
    let ghost all = items.deep_view();
    let n = items.len();
    let mut i: usize = 0;
    proof {
        assert(all.take(0) =~= Seq::<Seq<char>>::empty());
    }
    while i < n
        invariant
            i <= n,
            n == all.len(),
            all == items.deep_view(),
            set_elems(*s) == append_unique(orig, all.take(i as int)),
        decreases n - i,
    {
        let v = items[i].clone();
        proof {
            assert(v@ == all[i as int]);
        }
        index_set_insert(s, v);
        proof {
            assert(all.take(i + 1) =~= all.take(i as int).push(all[i as int]));
            lemma_append_unique_push(orig, all.take(i as int), all[i as int]);
        }
        i = i + 1;
    }
    proof {
        assert(all.take(n as int) =~= all);
    }
}

/// Puts `v` at the front of the set: inserts it, then moves it to the first
/// position, everything else keeping its order.
fn move_url_to_front(s: &mut IndexSet<String>, v: String)
    requires
        set_elems(*old(s)).no_duplicates(),
    ensures
        set_elems(*final(s)) == to_front(set_elems(*old(s)), v@),
        set_elems(*final(s)).no_duplicates(),
{
    let ghost orig = set_elems(*s);
    let v2 = v.clone();
    let inserted = index_set_insert(s, v);
    proof {
        lemma_push_unique_no_dup(orig, v2@);
    }
    let idx = match index_set_index_of(s, &v2) {
        Some(i) => i,
        None => {
            proof {
                assert(set_elems(*s).contains(v2@)) by {
                    if inserted {
                        assert(set_elems(*s).last() == v2@);
                    }
                }
                assert(false);
            }
            0
        },
    };
    if idx > 0 {
        index_set_move_index(s, idx, 0);
        proof {
            lemma_move_to_front(orig, push_unique(orig, v2@), idx as int, v2@, inserted);
        }
    } else {
        proof {
            lemma_move_to_front(orig, push_unique(orig, v2@), 0, v2@, inserted);
            assert(push_unique(orig, v2@).remove(0).insert(0, v2@) =~= push_unique(orig, v2@));
        }
    }
}

impl Metadata {
    /// Merges the global rendering options into this document's metadata,
    /// producing the rendering context used for one render call.
    pub fn merge(&mut self, opts: &RenderOptions)
        requires
            old(self)@.wf(),
        ensures
            final(self)@ == spec_merge(old(self)@, opts@),
            final(self)@.wf(),
    {
        let ghost orig = self@;
        // Put the normalize stylesheet first.
        if opts.normalize_css {
            move_url_to_front(&mut self.css, String::from_str(normalize_css_url()));
        }
        // Append the global stylesheet URLs in command-line order.
        let ghost css1 = set_elems(self.css);
        extend_unique(&mut self.css, &opts.css);
        proof {
            lemma_append_unique_no_dup(css1, opts.css.deep_view());
        }
        // Append the global script URLs the same way.
        extend_unique(&mut self.script, &opts.script);
        proof {
            lemma_append_unique_no_dup(orig.script, opts.script.deep_view());
        }
        // Fall back to the global head fragment and language.
        if self.head.as_str().is_empty() {
            self.head = opts.head.clone();
        }
        if self.lang.is_none() {
            self.lang = match &opts.lang {
                Some(l) => Some(l.clone()),
                None => None,
            };
        }
        // Append the minimalist stylesheet last.
        if opts.sakura_css {
            let ghost css2 = set_elems(self.css);
            index_set_insert(&mut self.css, String::from_str(sakura_css_url()));
            proof {
                lemma_push_unique_no_dup(css2, spec_sakura_css_url());
                assert(set_elems(self.css) == push_unique(css2, spec_sakura_css_url()));
            }
        }
        // The effective hard-break flag.
        self.hard_breaks = match self.hard_breaks {
            Some(b) => Some(b),
            None => Some(opts.hard_breaks),
        };
    }
}

/// Law: with the normalize and minimalist stylesheets both enabled, one
/// stylesheet declared by the document and one given globally, the merged
/// stylesheet list is exactly: the normalize URL, the document's URL, the
/// global URL, the minimalist URL.
pub proof fn lemma_css_merge_order(
    md: MetadataView,
    opts: RenderOptionsView,
    doc_url: Seq<char>,
    global_url: Seq<char>,
)
    requires
        md.css == seq![doc_url],
        opts.css == seq![global_url],
        opts.normalize_css,
        opts.sakura_css,
        doc_url != global_url,
        doc_url != spec_normalize_css_url(),
        doc_url != spec_sakura_css_url(),
        global_url != spec_normalize_css_url(),
        global_url != spec_sakura_css_url(),
    ensures
        spec_merge(md, opts).css == seq![
            spec_normalize_css_url(),
            doc_url,
            global_url,
            spec_sakura_css_url(),
        ],
{
    let norm = spec_normalize_css_url();
    let sak = spec_sakura_css_url();
    assert(norm != sak) by {
        reveal_strlit("https://unpkg.com/normalize.css@8.0.1/normalize.css");
        reveal_strlit("https://cdn.jsdelivr.net/npm/sakura.css/css/sakura.css");
        assert(norm.len() != sak.len());
    }
    let c1 = to_front(md.css, norm);
    assert(without(md.css, norm) == seq![doc_url]) by {
        assert(md.css.first() == doc_url);
        assert(md.css.drop_first() =~= Seq::<Seq<char>>::empty());
        assert(without(Seq::<Seq<char>>::empty(), norm) =~= Seq::<Seq<char>>::empty());
        assert(seq![doc_url] + Seq::<Seq<char>>::empty() =~= seq![doc_url]);
    }
    assert(c1 =~= seq![norm, doc_url]);
    let c2 = append_unique(c1, opts.css);
    assert(c2 == seq![norm, doc_url, global_url]) by {
        assert(!c1.contains(global_url)) by {
            if c1.contains(global_url) {
                let k = choose|k: int| 0 <= k < c1.len() && c1[k] == global_url;
                assert(k == 0 || k == 1);
            }
        }
        assert(opts.css.first() == global_url);
        assert(push_unique(c1, global_url) == c1.push(global_url));
        assert(opts.css.drop_first() =~= Seq::<Seq<char>>::empty());
        assert(append_unique(c1.push(global_url), Seq::<Seq<char>>::empty()) == c1.push(
            global_url,
        ));
        assert(c1.push(global_url) =~= seq![norm, doc_url, global_url]);
    }
    let c3 = push_unique(c2, sak);
    assert(c3 == seq![norm, doc_url, global_url, sak]) by {
        assert(!c2.contains(sak)) by {
            if c2.contains(sak) {
                let k = choose|k: int| 0 <= k < c2.len() && c2[k] == sak;
                assert(k == 0 || k == 1 || k == 2);
            }
        }
        assert(c2.push(sak) =~= seq![norm, doc_url, global_url, sak]);
    }
    assert(spec_merge(md, opts).css == c3);
}

} // verus!
