//! Writing metadata back out as a front-matter block.

use vstd::prelude::*;

use crate::metadata::Metadata;
use crate::metadata::MetadataView;

verus! {

/// One `key: value` line.
pub open spec fn spec_scalar_line(key: Seq<char>, v: Seq<char>) -> Seq<char> {
    key + ": "@ + v
}

/// One `- value` list-item line.
pub open spec fn spec_item_line(v: Seq<char>) -> Seq<char> {
    "- "@ + v
}

/// The list-item lines of the URLs, in order.
pub open spec fn spec_item_lines(urls: Seq<Seq<char>>) -> Seq<Seq<char>> {
    Seq::new(urls.len(), |i: int| spec_item_line(urls[i]))
}

/// The lines of the serialized block: the scalar entries that are set, in a
/// fixed order, then each URL list under its key.
pub open spec fn spec_serialize_lines(md: MetadataView) -> Seq<Seq<char>> {
    (match md.title {
        Some(t) => seq![spec_scalar_line("title"@, t)],
        None => Seq::<Seq<char>>::empty(),
    }) + (match md.lang {
        Some(l) => seq![spec_scalar_line("lang"@, l)],
        None => Seq::<Seq<char>>::empty(),
    }) + (if md.head.len() > 0 {
        seq![spec_scalar_line("head"@, md.head)]
    } else {
        Seq::<Seq<char>>::empty()
    }) + (match md.hard_breaks {
        Some(true) => seq![spec_scalar_line("hard_breaks"@, "true"@)],
        Some(false) => seq![spec_scalar_line("hard_breaks"@, "false"@)],
        None => Seq::<Seq<char>>::empty(),
    }) + (if md.css.len() > 0 {
        seq!["css:"@] + spec_item_lines(md.css)
    } else {
        Seq::<Seq<char>>::empty()
    }) + (if md.script.len() > 0 {
        seq!["script:"@] + spec_item_lines(md.script)
    } else {
        Seq::<Seq<char>>::empty()
    })
}

/// The block text of the lines: each line preceded by a line feed.
pub open spec fn spec_emit(lines: Seq<Seq<char>>) -> Seq<char>
    decreases lines.len(),
{
    if lines.len() == 0 {
        Seq::empty()
    } else {
        spec_emit(lines.drop_last()) + "\n"@ + lines.last()
    }
}

/// The serialized document: the opening delimiter, the lines, the closing
/// delimiter, and no body.
pub open spec fn spec_serialize(md: MetadataView) -> Seq<char> {
    "---"@ + spec_emit(spec_serialize_lines(md)) + "\n---"@
}

/// The block text of the URLs' item lines.
pub open spec fn spec_emit_items(urls: Seq<Seq<char>>) -> Seq<char> {
    spec_emit(spec_item_lines(urls))
}

/// Emitting concatenated lines concatenates their texts.
proof fn lemma_emit_concat(a: Seq<Seq<char>>, b: Seq<Seq<char>>)
    ensures
        spec_emit(a + b) == spec_emit(a) + spec_emit(b),
    decreases b.len(),
{
    if b.len() == 0 {
        assert(a + b =~= a);
        assert(spec_emit(a) + spec_emit(b) =~= spec_emit(a));
    } else {
        assert((a + b).drop_last() =~= a + b.drop_last());
        assert((a + b).last() == b.last());
        lemma_emit_concat(a, b.drop_last());
        assert(spec_emit(a) + spec_emit(b.drop_last()) + "\n"@ + b.last() =~= spec_emit(a)
            + spec_emit(b));
    }
}

/// Emitting one more line appends it after a line feed.
proof fn lemma_emit_push(lines: Seq<Seq<char>>, l: Seq<char>)
    ensures
        spec_emit(lines.push(l)) == spec_emit(lines) + "\n"@ + l,
{
    assert(lines.push(l).drop_last() =~= lines);
    assert(lines.push(l).last() == l);
}

/// Writes the metadata as a front-matter document: the set fields as
/// `key: value` lines and the URL sets as lists, between `---` delimiters,
/// with no body. Parsing the result back yields the same metadata when the
/// values are plain enough to survive the grammar.
/// Builds one `key: value` line.
fn scalar_line(key: &str, v: &str) -> (r: String)
    ensures
        r@ == spec_scalar_line(key@, v@),
{
    let mut r = String::from_str(key);
    r.append(": ");
    r.append(v);
    r
}

/// Builds the list-item lines of the URLs.
fn item_lines(urls: &Vec<String>) -> (r: Vec<String>)
    ensures
        r.deep_view() == spec_item_lines(urls.deep_view()),
{
    let ghost all = urls.deep_view();
    let mut r: Vec<String> = Vec::new();
    let n = urls.len();
    let mut i: usize = 0;
    proof {
        assert(r.deep_view() =~= spec_item_lines(all.take(0)));
    }
    while i < n
        invariant
            i <= n,
            n == urls.len(),
            all == urls.deep_view(),
            r.deep_view() == spec_item_lines(all.take(i as int)),
        decreases n - i,
    {
        let mut line = String::from_str("- ");
        line.append(urls[i].as_str());
        let ghost before = r.deep_view();
        r.push(line);
        proof {
            assert(r.deep_view() =~= before.push(spec_item_line(all[i as int])));
            assert(spec_item_lines(all.take(i + 1)) =~= before.push(
                spec_item_line(all[i as int]),
            ));
        }
        i = i + 1;
    }
    proof {
        assert(all.take(n as int) =~= all);
    }
    r
}

/// Builds the lines of the serialized block, in order.
#[verifier::rlimit(60)]
fn serialize_lines(md: &Metadata) -> (r: Vec<String>)
    ensures
        r.deep_view() == spec_serialize_lines(md@),
{
    let ghost g_title: Seq<Seq<char>> = match md@.title {
        Some(t) => seq![spec_scalar_line("title"@, t)],
        None => Seq::<Seq<char>>::empty(),
    };
    let ghost g_lang: Seq<Seq<char>> = match md@.lang {
        Some(l) => seq![spec_scalar_line("lang"@, l)],
        None => Seq::<Seq<char>>::empty(),
    };
    let ghost g_head: Seq<Seq<char>> = if md@.head.len() > 0 {
        seq![spec_scalar_line("head"@, md@.head)]
    } else {
        Seq::<Seq<char>>::empty()
    };
    let ghost g_hb: Seq<Seq<char>> = match md@.hard_breaks {
        Some(true) => seq![spec_scalar_line("hard_breaks"@, "true"@)],
        Some(false) => seq![spec_scalar_line("hard_breaks"@, "false"@)],
        None => Seq::<Seq<char>>::empty(),
    };
    let ghost g_css: Seq<Seq<char>> = if md@.css.len() > 0 {
        seq!["css:"@] + spec_item_lines(md@.css)
    } else {
        Seq::<Seq<char>>::empty()
    };
    let ghost g_script: Seq<Seq<char>> = if md@.script.len() > 0 {
        seq!["script:"@] + spec_item_lines(md@.script)
    } else {
        Seq::<Seq<char>>::empty()
    };
    let mut r: Vec<String> = Vec::new();
    match &md.title {
        Some(t) => {
            r.push(scalar_line("title", t.as_str()));
        },
        None => {
        },
    }
    proof {
        assert(r.deep_view() =~= g_title);
    }
    match &md.lang {
        Some(l) => {
            r.push(scalar_line("lang", l.as_str()));
        },
        None => {
        },
    }
    proof {
        assert(r.deep_view() =~= g_title + g_lang);
    }
    if !md.head.as_str().is_empty() {
        r.push(scalar_line("head", md.head.as_str()));
    }
    proof {
        assert(r.deep_view() =~= g_title + g_lang + g_head);
    }
    match md.hard_breaks {
        Some(true) => {
            r.push(scalar_line("hard_breaks", "true"));
        },
        Some(false) => {
            r.push(scalar_line("hard_breaks", "false"));
        },
        None => {
        },
    }
    proof {
        assert(r.deep_view() =~= g_title + g_lang + g_head + g_hb);
    }
    let css = md.css_list();
    if css.len() > 0 {
        r.push(String::from_str("css:"));
        let items = item_lines(&css);
        let ghost before = r.deep_view();
        append_all(&mut r, items);
        proof {
            assert(before + spec_item_lines(md@.css) =~= g_title + g_lang + g_head + g_hb
                + g_css);
        }
    }
    proof {
        assert(r.deep_view() =~= g_title + g_lang + g_head + g_hb + g_css);
    }
    let script = md.script_list();
    if script.len() > 0 {
        r.push(String::from_str("script:"));
        let ghost before = r.deep_view();
        let items = item_lines(&script);
        append_all(&mut r, items);
        proof {
            assert(before + spec_item_lines(md@.script) =~= g_title + g_lang + g_head + g_hb
                + g_css + g_script);
        }
    }
    proof {
        assert(r.deep_view() =~= g_title + g_lang + g_head + g_hb + g_css + g_script);
        assert(spec_serialize_lines(md@) == g_title + g_lang + g_head + g_hb + g_css + g_script);
    }
    r
}

/// Moves every line of `items` to the end of `r`.
fn append_all(r: &mut Vec<String>, items: Vec<String>)
    ensures
        final(r).deep_view() == old(r).deep_view() + items.deep_view(),
{
    let ghost all = items.deep_view();
    let n = items.len();
    let mut i: usize = 0;
    proof {
        assert(r.deep_view() + all.take(0) =~= r.deep_view());
    }
    while i < n
        invariant
            i <= n,
            n == all.len(),
            items.deep_view() == all,
            i <= items.len(),
            n == items.len(),
            r.deep_view() == old(r).deep_view() + all.take(i as int),
        decreases n - i,
    {
        let line = items[i].clone();
        proof {
            assert(line@ == all[i as int]);
        }
        let ghost before = r.deep_view();
        r.push(line);
        proof {
            assert(r.deep_view() =~= before.push(all[i as int]));
            assert(old(r).deep_view() + all.take(i + 1) =~= before.push(all[i as int]));
        }
        i = i + 1;
    }
    proof {
        assert(all.take(n as int) =~= all);
    }
}

/// Writes the metadata as a front-matter document: the set fields as
/// `key: value` lines and the URL sets as lists, between `---` delimiters,
/// with no body. Parsing the result back yields the same metadata when the
/// values are plain enough to survive the grammar.
pub fn to_front_matter(md: &Metadata) -> (r: String)
    ensures
        r@ == spec_serialize(md@),
{
    let lines = serialize_lines(md);
    let ghost all = lines.deep_view();
    let mut out = String::from_str("---");
    let n = lines.len();
    let mut i: usize = 0;
    proof {
        assert(spec_emit(all.take(0)) =~= Seq::<char>::empty());
        assert(out@ =~= "---"@ + spec_emit(all.take(0)));
    }
    while i < n
        invariant
            i <= n,
            n == lines.len(),
            all == lines.deep_view(),
            out@ == "---"@ + spec_emit(all.take(i as int)),
        decreases n - i,
    {
        out.append("\n");
        out.append(lines[i].as_str());
        proof {
            lemma_emit_push(all.take(i as int), all[i as int]);
            assert(all.take(i + 1) =~= all.take(i as int).push(all[i as int]));
        }
        i = i + 1;
    }
    out.append("\n---");
    proof {
        assert(all.take(n as int) =~= all);
        assert(out@ =~= spec_serialize(md@));
    }
    out
}

} // verus!
