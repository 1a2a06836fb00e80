//! The front-matter round trip: a serialized metadata record parses back to
//! itself.

use vstd::prelude::*;

use crate::front_matter::acc_to_metadata;
use crate::front_matter::delim_at;
use crate::front_matter::first_delim_from;
use crate::front_matter::init_acc;
use crate::front_matter::lemma_first_delim_from_unique;
use crate::front_matter::spec_front_split;
use crate::front_matter::spec_line_step;
use crate::front_matter::spec_lines_from;
use crate::front_matter::spec_parse_block;
use crate::front_matter::spec_parse_document;
use crate::front_matter::spec_parse_lines;
use crate::front_matter::spec_unquote;
use crate::front_matter::strip_cr;
use crate::front_matter::MetaAcc;
use crate::front_matter::PendingKey;
use crate::metadata::push_unique;
use crate::metadata::MetadataView;
use crate::serialize::spec_emit;
use crate::serialize::spec_item_line;
use crate::serialize::spec_item_lines;
use crate::serialize::spec_scalar_line;
use crate::serialize::spec_serialize;
use crate::serialize::spec_serialize_lines;
use crate::text::first_index_from;
use crate::text::first_non_ws;
use crate::text::is_doc_ws;
use crate::text::lemma_first_index_from_unique;
use crate::text::lemma_first_non_ws_unique;
use crate::text::lemma_last_non_ws_end_unique;
use crate::text::spec_trim;
use crate::text::spec_trim_start;

verus! {

/// A value that survives one pass through the front-matter grammar: it is
/// not empty, holds no line break, starts and ends with visible characters,
/// and is not wrapped in one pair of matching quotes.
pub open spec fn good_scalar(v: Seq<char>) -> bool {
    &&& v.len() > 0
    &&& (forall|i: int| 0 <= i < v.len() ==> v[i] != '\n' && v[i] != '\r')
    &&& !is_doc_ws(v.first())
    &&& !is_doc_ws(v.last())
    &&& !(v.len() >= 2 && ((v.first() == '"' && v.last() == '"') || (v.first() == '\'' && v.last()
        == '\'')))
}

/// A metadata record whose values survive serialization: every set scalar
/// and every URL is a good scalar, and the URL lists hold no duplicates.
pub open spec fn serializable(md: MetadataView) -> bool {
    &&& md.wf()
    &&& (md.title matches Some(t) ==> good_scalar(t))
    &&& (md.lang matches Some(l) ==> good_scalar(l))
    &&& (md.head.len() > 0 ==> good_scalar(md.head))
    &&& (forall|i: int| 0 <= i < md.css.len() ==> good_scalar(#[trigger] md.css[i]))
    &&& (forall|i: int| 0 <= i < md.script.len() ==> good_scalar(#[trigger] md.script[i]))
}

/// A line the block writer emits: at least three characters, no line break,
/// and not beginning like a delimiter.
pub open spec fn good_line(l: Seq<char>) -> bool {
    &&& l.len() >= 3
    &&& (forall|i: int| 0 <= i < l.len() ==> l[i] != '\n' && l[i] != '\r')
    &&& !(l[0] == '-' && l[1] == '-' && l[2] == '-')
}

/// A key of the block grammar: visible characters without a colon, not
/// beginning like a list item.
pub open spec fn good_key(key: Seq<char>) -> bool {
    &&& key.len() > 0
    &&& (forall|i: int| 0 <= i < key.len() ==> !is_doc_ws(key[i]) && key[i] != ':')
    &&& key[0] != '-'
}

/// The emitted text of a nonempty line list starts with its first line
/// after a line feed.
proof fn lemma_emit_cons(lines: Seq<Seq<char>>)
    requires
        lines.len() > 0,
    ensures
        spec_emit(lines) == "\n"@ + lines.first() + spec_emit(lines.drop_first()),
    decreases lines.len(),
{
    reveal_strlit("\n");
    if lines.len() == 1 {
        assert(lines.drop_last() =~= Seq::<Seq<char>>::empty());
        assert(lines.drop_first() =~= Seq::<Seq<char>>::empty());
        assert(spec_emit(Seq::<Seq<char>>::empty()) =~= Seq::<char>::empty());
        assert(lines.last() == lines.first());
        assert(spec_emit(lines) =~= "\n"@ + lines.first() + spec_emit(lines.drop_first()));
    } else {
        lemma_emit_cons(lines.drop_last());
        assert(lines.drop_last().first() == lines.first());
        assert(lines.drop_last().drop_first() =~= lines.drop_first().drop_last());
        assert(lines.drop_first().last() == lines.last());
        assert(spec_emit(lines.drop_first()) == spec_emit(lines.drop_first().drop_last()) + "\n"@
            + lines.last());
        assert(spec_emit(lines) =~= "\n"@ + lines.first() + spec_emit(lines.drop_first()));
    }
}

/// Good lines emit no carriage return and no line feed outside the line
/// boundaries; the last three characters are line characters.
proof fn lemma_emit_last_chars(lines: Seq<Seq<char>>)
    requires
        lines.len() > 0,
        forall|i: int| 0 <= i < lines.len() ==> good_line(#[trigger] lines[i]),
    ensures
        spec_emit(lines).len() >= 4,
        spec_emit(lines)[0] == '\n',
        forall|j: int|
            spec_emit(lines).len() - 3 <= j < spec_emit(lines).len() ==> spec_emit(lines)[j]
                != '\n',
    decreases lines.len(),
{
    reveal_strlit("\n");
    let l = lines.last();
    assert(good_line(l));
    if lines.len() == 1 {
        lemma_emit_cons(lines);
        assert(spec_emit(lines.drop_first()) =~= Seq::<char>::empty());
        assert(spec_emit(lines) =~= "\n"@ + l);
        assert(spec_emit(lines)[0] == '\n');
        assert(forall|j: int|
            spec_emit(lines).len() - 3 <= j < spec_emit(lines).len() ==> spec_emit(lines)[j] == l[j
                - 1]);
    } else {
        assert(forall|i: int|
            0 <= i < lines.drop_last().len() ==> good_line(#[trigger] lines.drop_last()[i])) by {
            assert(forall|i: int|
                0 <= i < lines.drop_last().len() ==> lines.drop_last()[i] == lines[i]);
        }
        lemma_emit_last_chars(lines.drop_last());
        let e = spec_emit(lines);
        let ep = spec_emit(lines.drop_last());
        assert(e == ep + "\n"@ + l);
        assert(e[0] == ep[0]);
        assert(forall|j: int| e.len() - 3 <= j < e.len() ==> e[j] == l[j - (ep.len() + 1)]);
    }
}

/// The closing delimiter of a serialized document is the first one: no line
/// feed inside the emitted block begins `---`.
proof fn lemma_serialized_delim(lines: Seq<Seq<char>>)
    requires
        forall|i: int| 0 <= i < lines.len() ==> good_line(#[trigger] lines[i]),
    ensures
        ({
            let s = "---"@ + spec_emit(lines) + "\n---"@;
            first_delim_from(s, 3) == spec_emit(lines).len() as int + 3
        }),
    decreases lines.len(),
{
    let e = spec_emit(lines);
    let s = "---"@ + e + "\n---"@;
    let m: int = e.len() as int + 3;
    reveal_strlit("---");
    reveal_strlit("\n---");
    reveal_strlit("\n");
    assert(s.len() == m + 4);
    assert(s[m] == '\n' && s[m + 1] == '-' && s[m + 2] == '-' && s[m + 3] == '-');
    assert(delim_at(s, m));
    if lines.len() == 0 {
        assert(e =~= Seq::<char>::empty());
        assert(m == 3);
        lemma_first_delim_from_unique(s, 3, 3);
    } else {
        let lp = lines.drop_last();
        let l = lines.last();
        assert(forall|i: int| 0 <= i < lp.len() ==> good_line(#[trigger] lp[i])) by {
            assert(forall|i: int| 0 <= i < lp.len() ==> lp[i] == lines[i]);
        }
        lemma_serialized_delim(lp);
        let ep = spec_emit(lp);
        let sp = "---"@ + ep + "\n---"@;
        let p: int = ep.len() as int + 3;
        crate::front_matter::lemma_first_delim_from_properties(sp, 3);
        assert(e == ep + "\n"@ + l);
        assert(good_line(l));
        // The two serialized forms agree up to the line feed before the new
        // last line.
        assert(forall|j: int| 0 <= j <= p ==> s[j] == sp[j]);
        assert forall|j: int| 3 <= j < m implies !delim_at(s, j) by {
            if j <= p - 3 {
                assert(delim_at(s, j) == delim_at(sp, j)) by {
                    assert(s[j] == sp[j] && s[j + 1] == sp[j + 1] && s[j + 2] == sp[j + 2] && s[j
                        + 3] == sp[j + 3]);
                }
            } else if j < p {
                // Inside the last three characters of the previous block,
                // which are line characters, not line feeds.
                if lp.len() == 0 {
                    assert(p == 3);
                } else {
                    lemma_emit_last_chars(lp);
                    assert(s[j] == ep[j - 3]);
                    assert(s[j] != '\n');
                }
            } else if j == p {
                // The line feed before the last line, which does not begin
                // like a delimiter.
                assert(s[p + 1] == l[0] && s[p + 2] == l[1] && s[p + 3] == l[2]);
            } else {
                // Inside the last line, which holds no line feed.
                assert(s[j] == l[j - p - 1]);
                assert(s[j] != '\n');
            }
        }
        lemma_first_delim_from_unique(s, 3, m);
    }
}

/// The lines read back from an emitted tail are exactly its lines.
proof fn lemma_lines_from_suffix(e: Seq<char>, k: int, lines: Seq<Seq<char>>)
    requires
        0 <= k <= e.len(),
        lines.len() > 0,
        forall|i: int| 0 <= i < lines.len() ==> good_line(#[trigger] lines[i]),
        e.subrange(k, e.len() as int) == lines.first() + spec_emit(lines.drop_first()),
    ensures
        spec_lines_from(e, k) == lines,
    decreases lines.len(),
{
    reveal_strlit("\n");
    let l0 = lines.first();
    let rest = lines.drop_first();
    let em = spec_emit(rest);
    let suf = e.subrange(k, e.len() as int);
    assert(good_line(l0));
    assert(suf.len() == e.len() - k);
    assert(suf == l0 + em);
    assert(suf.len() == l0.len() + em.len());
    let nl: int = k + l0.len() as int;
    assert forall|j: int| k <= j < nl implies e[j] == l0[j - k] by {
        assert(suf[j - k] == e[j]);
        assert((l0 + em)[j - k] == l0[j - k]);
    }
    assert forall|j: int| k <= j < nl implies e[j] != '\n' by {
        assert(e[j] == l0[j - k]);
    }
    assert forall|t: int| 0 <= t < l0.len() implies e.subrange(k, nl)[t] == l0[t] by {
        assert(e.subrange(k, nl)[t] == e[t + k]);
        assert(e[t + k] == l0[t]);
    }
    assert(e.subrange(k, nl) =~= l0);
    assert(strip_cr(l0) == l0) by {
        assert(l0.last() != '\r');
    }
    if rest.len() == 0 {
        assert(em =~= Seq::<char>::empty());
        assert(nl == e.len());
        lemma_first_index_from_unique(e, '\n', k, e.len() as int);
        assert(spec_lines_from(e, k) =~= seq![l0]);
        assert(lines =~= seq![l0]);
    } else {
        assert(forall|i: int| 0 <= i < rest.len() ==> good_line(#[trigger] rest[i])) by {
            assert(forall|i: int| 0 <= i < rest.len() ==> rest[i] == lines[i + 1]);
        }
        lemma_emit_cons(rest);
        assert(em == "\n"@ + rest.first() + spec_emit(rest.drop_first()));
        assert(em.len() >= 1);
        assert(em[0] == '\n') by {
            assert(("\n"@ + rest.first() + spec_emit(rest.drop_first()))[0] == "\n"@[0]);
        }
        assert(e[nl] == '\n') by {
            assert(suf[l0.len() as int] == e[nl]);
            assert((l0 + em)[l0.len() as int] == em[0]);
        }
        lemma_first_index_from_unique(e, '\n', k, nl);
        let tail = rest.first() + spec_emit(rest.drop_first());
        assert forall|t: int| 0 <= t < e.len() - nl - 1 implies e.subrange(
            nl + 1,
            e.len() as int,
        )[t] == tail[t] by {
            assert(e.subrange(nl + 1, e.len() as int)[t] == e[t + (nl + 1)]);
            assert(suf[l0.len() + 1 + t] == e[k + (l0.len() + 1 + t)]);
            assert((l0 + em)[l0.len() + 1 + t] == em[1 + t]);
            assert(("\n"@ + rest.first() + spec_emit(rest.drop_first()))[1 + t] == tail[t]);
        }
        assert(e.subrange(nl + 1, e.len() as int) =~= tail);
        lemma_lines_from_suffix(e, nl + 1, rest);
        assert(spec_lines_from(e, k) =~= seq![l0] + rest);
        assert(lines =~= seq![l0] + rest);
    }
}

/// The lines read back from an emitted block.
proof fn lemma_lines_of_emit(lines: Seq<Seq<char>>)
    requires
        forall|i: int| 0 <= i < lines.len() ==> good_line(#[trigger] lines[i]),
    ensures
        spec_lines_from(spec_emit(lines), 0) == seq![Seq::<char>::empty()] + lines,
{
    reveal_strlit("\n");
    let e = spec_emit(lines);
    if lines.len() == 0 {
        assert(e =~= Seq::<char>::empty());
        lemma_first_index_from_unique(e, '\n', 0, 0);
        assert(strip_cr(e.subrange(0, 0)) =~= Seq::<char>::empty());
        assert(spec_lines_from(e, 0) =~= seq![Seq::<char>::empty()]);
        assert(seq![Seq::<char>::empty()] + lines =~= seq![Seq::<char>::empty()]);
    } else {
        lemma_emit_cons(lines);
        assert(e[0] == '\n');
        lemma_first_index_from_unique(e, '\n', 0, 0);
        assert(e.len() > 0);
        assert(strip_cr(e.subrange(0, 0)) =~= Seq::<char>::empty());
        assert(e.subrange(1, e.len() as int) =~= lines.first() + spec_emit(lines.drop_first()));
        lemma_lines_from_suffix(e, 1, lines);
        assert(spec_lines_from(e, 0) =~= seq![Seq::<char>::empty()] + lines);
    }
}

/// Parsing concatenated line lists parses the first, then the second.
proof fn lemma_parse_lines_concat(l1: Seq<Seq<char>>, l2: Seq<Seq<char>>, acc: MetaAcc)
    ensures
        spec_parse_lines(l1 + l2, acc) == (match spec_parse_lines(l1, acc) {
            Some(a) => spec_parse_lines(l2, a),
            None => None,
        }),
    decreases l1.len(),
{
    if l1.len() == 0 {
        assert(l1 + l2 =~= l2);
    } else {
        assert((l1 + l2).first() == l1.first());
        assert((l1 + l2).drop_first() =~= l1.drop_first() + l2);
        match spec_line_step(acc, l1.first()) {
            Some(a2) => {
                lemma_parse_lines_concat(l1.drop_first(), l2, a2);
            },
            None => {
            },
        }
    }
}

/// Trimming a good scalar changes nothing.
proof fn lemma_trim_good(v: Seq<char>)
    requires
        v.len() > 0,
        !is_doc_ws(v.first()),
        !is_doc_ws(v.last()),
    ensures
        spec_trim(v) == v,
{
    lemma_first_non_ws_unique(v, 0, 0);
    lemma_last_non_ws_end_unique(v, v.len() as int, v.len() as int);
    assert(v.subrange(0, v.len() as int) =~= v);
}

/// How a `key: value` line splits back into its parts.
#[verifier::rlimit(100)]
proof fn lemma_scalar_line_parts(key: Seq<char>, v: Seq<char>)
    requires
        good_key(key),
        good_scalar(v),
    ensures
        ({
            let line = spec_scalar_line(key, v);
            &&& line.len() == key.len() + 2 + v.len()
            &&& spec_trim(line) == line
            &&& first_non_ws(line, 0) == 0
            &&& line[0] == key[0]
            &&& first_index_from(line, ':', 0) == key.len()
            &&& spec_trim(line.subrange(0, key.len() as int)) == key
            &&& spec_unquote(spec_trim(line.subrange(key.len() as int + 1, line.len() as int))) == v
        }),
{
    let line = spec_scalar_line(key, v);
    reveal_strlit(": ");
    assert(": "@.len() == 2 && ": "@[0] == ':' && ": "@[1] == ' ');
    assert(forall|t: int| 0 <= t < key.len() ==> line[t] == key[t]);
    assert(line[key.len() as int] == ':');
    assert(line[key.len() as int + 1] == ' ');
    assert(forall|t: int| 0 <= t < v.len() ==> line[key.len() as int + 2 + t] == v[t]);
    assert(line.last() == v.last());
    lemma_trim_good(line);
    lemma_first_non_ws_unique(line, 0, 0);
    lemma_first_index_from_unique(line, ':', 0, key.len() as int);
    assert(line.subrange(0, key.len() as int) =~= key);
    lemma_trim_good(key);
    let w = line.subrange(key.len() as int + 1, line.len() as int);
    assert(w.len() == v.len() + 1);
    assert(w[0] == ' ');
    assert(forall|t: int| 0 <= t < v.len() ==> w[1 + t] == v[t]);
    lemma_first_non_ws_unique(w, 0, 1);
    lemma_last_non_ws_end_unique(w, w.len() as int, w.len() as int);
    assert(spec_trim(w) =~= v);
    assert(spec_unquote(v) == v);
}

/// How a `- value` line splits back into its item.
proof fn lemma_item_line_parts(u: Seq<char>)
    requires
        good_scalar(u),
    ensures
        ({
            let line = spec_item_line(u);
            &&& line.len() == u.len() + 2
            &&& spec_trim(line) == line
            &&& first_non_ws(line, 0) == 0
            &&& line[0] == '-'
            &&& line[1] == ' '
            &&& is_doc_ws(line[1])
            &&& spec_unquote(spec_trim(line.subrange(1, line.len() as int))) == u
        }),
{
    let line = spec_item_line(u);
    reveal_strlit("- ");
    assert("- "@.len() == 2 && "- "@[0] == '-' && "- "@[1] == ' ');
    assert(forall|t: int| 0 <= t < u.len() ==> line[2 + t] == u[t]);
    assert(line.last() == u.last());
    lemma_trim_good(line);
    lemma_first_non_ws_unique(line, 0, 0);
    let w = line.subrange(1, line.len() as int);
    assert(w[0] == ' ');
    assert(forall|t: int| 0 <= t < u.len() ==> w[1 + t] == u[t]);
    assert(w.last() == u.last());
    lemma_first_non_ws_unique(w, 0, 1);
    lemma_last_non_ws_end_unique(w, w.len() as int, w.len() as int);
    assert(spec_trim(w) =~= u);
    assert(spec_unquote(u) == u);
}

/// A list of good item lines under an open URL list appends each item in
/// order.
proof fn lemma_parse_items_css(acc: MetaAcc, urls: Seq<Seq<char>>)
    requires
        acc.pending == PendingKey::CssKey,
        forall|i: int| 0 <= i < urls.len() ==> good_scalar(#[trigger] urls[i]),
        forall|i: int| 0 <= i < urls.len() ==> !acc.css.contains(#[trigger] urls[i]),
        urls.no_duplicates(),
    ensures
        spec_parse_lines(spec_item_lines(urls), acc) == Some(MetaAcc { css: acc.css + urls, ..acc }),
    decreases urls.len(),
{
    if urls.len() == 0 {
        assert(spec_item_lines(urls) =~= Seq::<Seq<char>>::empty());
        assert(acc.css + urls =~= acc.css);
        assert(MetaAcc { css: acc.css + urls, ..acc } == acc);
    } else {
        let u0 = urls.first();
        lemma_item_line_parts(u0);
        let items = spec_item_lines(urls);
        assert(items.first() == spec_item_line(u0));
        assert(items.drop_first() =~= spec_item_lines(urls.drop_first()));
        let line = spec_item_line(u0);
        assert(spec_trim(line).len() > 0);
        let a2 = MetaAcc { css: push_unique(acc.css, u0), ..acc };
        assert(spec_line_step(acc, line) == Some(a2));
        assert(push_unique(acc.css, u0) == acc.css.push(u0));
        assert(forall|i: int|
            0 <= i < urls.drop_first().len() ==> good_scalar(#[trigger] urls.drop_first()[i])
                && urls.drop_first()[i] == urls[i + 1]);
        assert(forall|i: int|
            0 <= i < urls.drop_first().len() ==> !a2.css.contains(
                #[trigger] urls.drop_first()[i],
            )) by {
            assert forall|i: int|
                0 <= i < urls.drop_first().len() implies !a2.css.contains(
                urls.drop_first()[i],
            ) by {
                let x = urls.drop_first()[i];
                assert(x == urls[i + 1]);
                if a2.css.contains(x) {
                    let w = choose|w: int| 0 <= w < a2.css.len() && a2.css[w] == x;
                    if w < acc.css.len() {
                        assert(acc.css[w] == x && acc.css.contains(acc.css[w]));
                    } else {
                        assert(a2.css[w] == u0);
                    }
                }
            }
        }
        assert(urls.drop_first().no_duplicates()) by {
            assert(forall|i: int|
                0 <= i < urls.drop_first().len() ==> urls.drop_first()[i] == urls[i + 1]);
        }
        lemma_parse_items_css(a2, urls.drop_first());
        assert(a2.css + urls.drop_first() =~= acc.css + urls);
    }
}

/// A list of good item lines under an open script list appends each item in
/// order.
proof fn lemma_parse_items_script(acc: MetaAcc, urls: Seq<Seq<char>>)
    requires
        acc.pending == PendingKey::ScriptKey,
        forall|i: int| 0 <= i < urls.len() ==> good_scalar(#[trigger] urls[i]),
        forall|i: int| 0 <= i < urls.len() ==> !acc.script.contains(#[trigger] urls[i]),
        urls.no_duplicates(),
    ensures
        spec_parse_lines(spec_item_lines(urls), acc) == Some(
            MetaAcc { script: acc.script + urls, ..acc },
        ),
    decreases urls.len(),
{
    if urls.len() == 0 {
        assert(spec_item_lines(urls) =~= Seq::<Seq<char>>::empty());
        assert(acc.script + urls =~= acc.script);
        assert(MetaAcc { script: acc.script + urls, ..acc } == acc);
    } else {
        let u0 = urls.first();
        lemma_item_line_parts(u0);
        let items = spec_item_lines(urls);
        assert(items.first() == spec_item_line(u0));
        assert(items.drop_first() =~= spec_item_lines(urls.drop_first()));
        let line = spec_item_line(u0);
        assert(spec_trim(line).len() > 0);
        let a2 = MetaAcc { script: push_unique(acc.script, u0), ..acc };
        assert(spec_line_step(acc, line) == Some(a2));
        assert(push_unique(acc.script, u0) == acc.script.push(u0));
        assert(forall|i: int|
            0 <= i < urls.drop_first().len() ==> good_scalar(#[trigger] urls.drop_first()[i])
                && urls.drop_first()[i] == urls[i + 1]);
        assert(forall|i: int|
            0 <= i < urls.drop_first().len() ==> !a2.script.contains(
                #[trigger] urls.drop_first()[i],
            )) by {
            assert forall|i: int|
                0 <= i < urls.drop_first().len() implies !a2.script.contains(
                urls.drop_first()[i],
            ) by {
                let x = urls.drop_first()[i];
                assert(x == urls[i + 1]);
                if a2.script.contains(x) {
                    let w = choose|w: int| 0 <= w < a2.script.len() && a2.script[w] == x;
                    if w < acc.script.len() {
                        assert(acc.script[w] == x && acc.script.contains(acc.script[w]));
                    } else {
                        assert(a2.script[w] == u0);
                    }
                }
            }
        }
        assert(urls.drop_first().no_duplicates()) by {
            assert(forall|i: int|
                0 <= i < urls.drop_first().len() ==> urls.drop_first()[i] == urls[i + 1]);
        }
        lemma_parse_items_script(a2, urls.drop_first());
        assert(a2.script + urls.drop_first() =~= acc.script + urls);
    }
}

/// Every key of the grammar is a good key, and the keys are pairwise
/// distinct.
proof fn lemma_keys_good()
    ensures
        good_key("title"@),
        good_key("lang"@),
        good_key("head"@),
        good_key("hard_breaks"@),
        good_key("css"@),
        good_key("script"@),
        "lang"@ != "title"@,
        "head"@ != "title"@ && "head"@ != "lang"@,
        "hard_breaks"@ != "title"@ && "hard_breaks"@ != "lang"@ && "hard_breaks"@ != "head"@,
        "css"@ != "title"@ && "css"@ != "lang"@ && "css"@ != "head"@ && "css"@ != "hard_breaks"@,
        "script"@ != "title"@ && "script"@ != "lang"@ && "script"@ != "head"@ && "script"@
            != "hard_breaks"@ && "script"@ != "css"@,
{
    reveal_strlit("title");
    reveal_strlit("lang");
    reveal_strlit("head");
    reveal_strlit("hard_breaks");
    reveal_strlit("css");
    reveal_strlit("script");
    assert("lang"@[0] != "head"@[0]);
}

/// A scalar entry is a good line.
proof fn lemma_scalar_line_good(key: Seq<char>, v: Seq<char>)
    requires
        good_key(key),
        good_scalar(v),
    ensures
        good_line(spec_scalar_line(key, v)),
{
    let line = spec_scalar_line(key, v);
    reveal_strlit(": ");
    assert(forall|t: int| 0 <= t < key.len() ==> line[t] == key[t]);
    assert(line[key.len() as int] == ':');
    assert(line[key.len() as int + 1] == ' ');
    assert(forall|t: int| 0 <= t < v.len() ==> line[key.len() as int + 2 + t] == v[t]);
    assert forall|i: int| 0 <= i < line.len() implies line[i] != '\n' && line[i] != '\r' by {
        if i < key.len() {
            assert(!is_doc_ws(line[i]));
        } else if i >= key.len() + 2 {
            assert(line[i] == v[i - key.len() - 2]);
        }
    }
}

/// A list item is a good line.
proof fn lemma_item_line_good(u: Seq<char>)
    requires
        good_scalar(u),
    ensures
        good_line(spec_item_line(u)),
{
    let line = spec_item_line(u);
    reveal_strlit("- ");
    assert(forall|t: int| 0 <= t < u.len() ==> line[2 + t] == u[t]);
    assert(line[1] == ' ');
    assert forall|i: int| 0 <= i < line.len() implies line[i] != '\n' && line[i] != '\r' by {
        if i >= 2 {
            assert(line[i] == u[i - 2]);
        }
    }
}

/// Lines good in two lists are good in their concatenation.
proof fn lemma_good_concat(a: Seq<Seq<char>>, b: Seq<Seq<char>>)
    requires
        forall|i: int| 0 <= i < a.len() ==> good_line(#[trigger] a[i]),
        forall|i: int| 0 <= i < b.len() ==> good_line(#[trigger] b[i]),
    ensures
        forall|i: int| 0 <= i < (a + b).len() ==> good_line(#[trigger] (a + b)[i]),
{
    assert forall|i: int| 0 <= i < (a + b).len() implies good_line((a + b)[i]) by {
        if i < a.len() {
            assert((a + b)[i] == a[i]);
        } else {
            assert((a + b)[i] == b[i - a.len()]);
        }
    }
}

/// How a bare list key line splits back into its parts.
proof fn lemma_list_line_parts(key: Seq<char>)
    requires
        good_key(key),
    ensures
        ({
            let line = key + ":"@;
            &&& line.len() == key.len() + 1
            &&& spec_trim(line) == line
            &&& first_non_ws(line, 0) == 0
            &&& line[0] == key[0]
            &&& first_index_from(line, ':', 0) == key.len()
            &&& spec_trim(line.subrange(0, key.len() as int)) == key
            &&& spec_unquote(spec_trim(line.subrange(key.len() as int + 1, line.len() as int)))
                =~= Seq::<char>::empty()
        }),
{
    let line = key + ":"@;
    reveal_strlit(":");
    assert(forall|t: int| 0 <= t < key.len() ==> line[t] == key[t]);
    assert(line[key.len() as int] == ':');
    assert(line.last() == ':');
    assert(!is_doc_ws(':'));
    lemma_trim_good(line);
    lemma_first_non_ws_unique(line, 0, 0);
    lemma_first_index_from_unique(line, ':', 0, key.len() as int);
    assert(line.subrange(0, key.len() as int) =~= key);
    lemma_trim_good(key);
    let w = line.subrange(key.len() as int + 1, line.len() as int);
    assert(w =~= Seq::<char>::empty());
    assert(spec_trim(w).len() == 0);
    assert(spec_trim(w) =~= Seq::<char>::empty());
}

/// A bare list key line is a good line when the key has at least two
/// characters.
proof fn lemma_list_line_good(key: Seq<char>)
    requires
        good_key(key),
        key.len() >= 2,
    ensures
        good_line(key + ":"@),
{
    let line = key + ":"@;
    reveal_strlit(":");
    assert(forall|t: int| 0 <= t < key.len() ==> line[t] == key[t]);
    assert(line[key.len() as int] == ':');
    assert forall|i: int| 0 <= i < line.len() implies line[i] != '\n' && line[i] != '\r' by {
        if i < key.len() {
            assert(!is_doc_ws(line[i]));
        } else {
            assert(line[i] == ':');
        }
    }
}

/// The boolean words are good scalars and distinct.
proof fn lemma_bool_words()
    ensures
        good_scalar("true"@),
        good_scalar("false"@),
        "false"@ != "true"@,
{
    reveal_strlit("true");
    reveal_strlit("false");
}

/// A key missing from the seen list is still missing after another key is
/// recorded.
proof fn lemma_push_not_contains(s: Seq<Seq<char>>, x: Seq<char>, y: Seq<char>)
    requires
        !s.contains(y),
        x != y,
    ensures
        !s.push(x).contains(y),
{
    if s.push(x).contains(y) {
        let w = choose|w: int| 0 <= w < s.push(x).len() && s.push(x)[w] == y;
        if w < s.len() {
            assert(s[w] == y && s.contains(s[w]));
        }
    }
}

/// Reading a `title` entry sets the title.
proof fn lemma_step_title(acc: MetaAcc, t: Seq<char>)
    requires
        good_scalar(t),
        !acc.seen.contains("title"@),
    ensures
        spec_parse_lines(seq![spec_scalar_line("title"@, t)], acc) == Some(
            MetaAcc {
                title: Some(t),
                seen: acc.seen.push("title"@),
                pending: PendingKey::NoKey,
                ..acc
            },
        ),
{
    lemma_keys_good();
    lemma_scalar_line_parts("title"@, t);
    let line = spec_scalar_line("title"@, t);
    let x = MetaAcc {
        title: Some(t),
        seen: acc.seen.push("title"@),
        pending: PendingKey::NoKey,
        ..acc
    };
    assert(spec_line_step(acc, line) == Some(x));
    assert(seq![line].first() == line);
    assert(seq![line].drop_first() =~= Seq::<Seq<char>>::empty());
    assert(spec_parse_lines(Seq::<Seq<char>>::empty(), x) == Some(x));
}

/// Reading a `lang` entry sets the language.
proof fn lemma_step_lang(acc: MetaAcc, v: Seq<char>)
    requires
        good_scalar(v),
        !acc.seen.contains("lang"@),
    ensures
        spec_parse_lines(seq![spec_scalar_line("lang"@, v)], acc) == Some(
            MetaAcc {
                lang: Some(v),
                seen: acc.seen.push("lang"@),
                pending: PendingKey::NoKey,
                ..acc
            },
        ),
{
    lemma_keys_good();
    lemma_scalar_line_parts("lang"@, v);
    let line = spec_scalar_line("lang"@, v);
    let x = MetaAcc {
        lang: Some(v),
        seen: acc.seen.push("lang"@),
        pending: PendingKey::NoKey,
        ..acc
    };
    assert(spec_line_step(acc, line) == Some(x));
    assert(seq![line].first() == line);
    assert(seq![line].drop_first() =~= Seq::<Seq<char>>::empty());
    assert(spec_parse_lines(Seq::<Seq<char>>::empty(), x) == Some(x));
}

/// Reading a `head` entry sets the head fragment.
proof fn lemma_step_head(acc: MetaAcc, v: Seq<char>)
    requires
        good_scalar(v),
        !acc.seen.contains("head"@),
    ensures
        spec_parse_lines(seq![spec_scalar_line("head"@, v)], acc) == Some(
            MetaAcc {
                head: Some(v),
                seen: acc.seen.push("head"@),
                pending: PendingKey::NoKey,
                ..acc
            },
        ),
{
    lemma_keys_good();
    lemma_scalar_line_parts("head"@, v);
    let line = spec_scalar_line("head"@, v);
    let x = MetaAcc {
        head: Some(v),
        seen: acc.seen.push("head"@),
        pending: PendingKey::NoKey,
        ..acc
    };
    assert(spec_line_step(acc, line) == Some(x));
    assert(seq![line].first() == line);
    assert(seq![line].drop_first() =~= Seq::<Seq<char>>::empty());
    assert(spec_parse_lines(Seq::<Seq<char>>::empty(), x) == Some(x));
}

/// Reading a `hard_breaks` entry sets the override.
proof fn lemma_step_hard_breaks(acc: MetaAcc, b: bool)
    requires
        !acc.seen.contains("hard_breaks"@),
    ensures
        spec_parse_lines(
            seq![spec_scalar_line("hard_breaks"@, if b { "true"@ } else { "false"@ })],
            acc,
        ) == Some(
            MetaAcc {
                hard_breaks: Some(b),
                seen: acc.seen.push("hard_breaks"@),
                pending: PendingKey::NoKey,
                ..acc
            },
        ),
{
    lemma_keys_good();
    lemma_bool_words();
    if b {
        lemma_scalar_line_parts("hard_breaks"@, "true"@);
    } else {
        lemma_scalar_line_parts("hard_breaks"@, "false"@);
    }
    let line = spec_scalar_line("hard_breaks"@, if b { "true"@ } else { "false"@ });
    let x = MetaAcc {
        hard_breaks: Some(b),
        seen: acc.seen.push("hard_breaks"@),
        pending: PendingKey::NoKey,
        ..acc
    };
    assert(spec_line_step(acc, line) == Some(x));
    assert(seq![line].first() == line);
    assert(seq![line].drop_first() =~= Seq::<Seq<char>>::empty());
    assert(spec_parse_lines(Seq::<Seq<char>>::empty(), x) == Some(x));
}

/// Reading a bare `css:` entry opens the stylesheet list.
proof fn lemma_step_css_key(acc: MetaAcc)
    requires
        !acc.seen.contains("css"@),
    ensures
        spec_line_step(acc, "css:"@) == Some(
            MetaAcc { seen: acc.seen.push("css"@), pending: PendingKey::CssKey, ..acc },
        ),
{
    lemma_keys_good();
    lemma_list_line_parts("css"@);
    assert("css:"@ =~= "css"@ + ":"@) by {
        reveal_strlit("css:");
        reveal_strlit("css");
        reveal_strlit(":");
    }
}

/// Reading a bare `script:` entry opens the script list.
proof fn lemma_step_script_key(acc: MetaAcc)
    requires
        !acc.seen.contains("script"@),
    ensures
        spec_line_step(acc, "script:"@) == Some(
            MetaAcc { seen: acc.seen.push("script"@), pending: PendingKey::ScriptKey, ..acc },
        ),
{
    lemma_keys_good();
    lemma_list_line_parts("script"@);
    assert("script:"@ =~= "script"@ + ":"@) by {
        reveal_strlit("script:");
        reveal_strlit("script");
        reveal_strlit(":");
    }
}

/// Every line the serializer emits is a good line.
proof fn lemma_serialized_lines_good(md: MetadataView)
    requires
        serializable(md),
    ensures
        forall|i: int|
            0 <= i < spec_serialize_lines(md).len() ==> good_line(
                #[trigger] spec_serialize_lines(md)[i],
            ),
{
    lemma_keys_good();
    reveal_strlit("css:");
    reveal_strlit("script:");
    reveal_strlit("css");
    reveal_strlit("script");
    reveal_strlit(":");
    let g1: Seq<Seq<char>> = match md.title {
        Some(t) => seq![spec_scalar_line("title"@, t)],
        None => Seq::<Seq<char>>::empty(),
    };
    let g2: Seq<Seq<char>> = match md.lang {
        Some(l) => seq![spec_scalar_line("lang"@, l)],
        None => Seq::<Seq<char>>::empty(),
    };
    let g3: Seq<Seq<char>> = if md.head.len() > 0 {
        seq![spec_scalar_line("head"@, md.head)]
    } else {
        Seq::<Seq<char>>::empty()
    };
    let g4: Seq<Seq<char>> = match md.hard_breaks {
        Some(true) => seq![spec_scalar_line("hard_breaks"@, "true"@)],
        Some(false) => seq![spec_scalar_line("hard_breaks"@, "false"@)],
        None => Seq::<Seq<char>>::empty(),
    };
    let g5: Seq<Seq<char>> = if md.css.len() > 0 {
        seq!["css:"@] + spec_item_lines(md.css)
    } else {
        Seq::<Seq<char>>::empty()
    };
    let g6: Seq<Seq<char>> = if md.script.len() > 0 {
        seq!["script:"@] + spec_item_lines(md.script)
    } else {
        Seq::<Seq<char>>::empty()
    };
    let ll = spec_serialize_lines(md);
    assert(ll == g1 + g2 + g3 + g4 + g5 + g6);
    assert(forall|i: int| 0 <= i < g1.len() ==> good_line(#[trigger] g1[i])) by {
        match md.title {
            Some(t) => {
                lemma_scalar_line_good("title"@, t);
            },
            None => {
            },
        }
    }
    assert(forall|i: int| 0 <= i < g2.len() ==> good_line(#[trigger] g2[i])) by {
        match md.lang {
            Some(l) => {
                lemma_scalar_line_good("lang"@, l);
            },
            None => {
            },
        }
    }
    assert(forall|i: int| 0 <= i < g3.len() ==> good_line(#[trigger] g3[i])) by {
        if md.head.len() > 0 {
            lemma_scalar_line_good("head"@, md.head);
        }
    }
    assert(forall|i: int| 0 <= i < g4.len() ==> good_line(#[trigger] g4[i])) by {
        lemma_bool_words();
        match md.hard_breaks {
            Some(true) => {
                lemma_scalar_line_good("hard_breaks"@, "true"@);
            },
            Some(false) => {
                lemma_scalar_line_good("hard_breaks"@, "false"@);
            },
            None => {
            },
        }
    }
    assert(forall|i: int| 0 <= i < g5.len() ==> good_line(#[trigger] g5[i])) by {
        if md.css.len() > 0 {
            lemma_list_line_good("css"@);
            assert("css:"@ =~= "css"@ + ":"@);
            assert forall|i: int| 0 <= i < g5.len() implies good_line(g5[i]) by {
                if i == 0 {
                    assert(g5[0] == "css:"@);
                } else {
                    assert(g5[i] == spec_item_lines(md.css)[i - 1]);
                    assert(spec_item_lines(md.css)[i - 1] == spec_item_line(md.css[i - 1]));
                    lemma_item_line_good(md.css[i - 1]);
                }
            }
        }
    }
    assert(forall|i: int| 0 <= i < g6.len() ==> good_line(#[trigger] g6[i])) by {
        if md.script.len() > 0 {
            lemma_list_line_good("script"@);
            assert("script:"@ =~= "script"@ + ":"@);
            assert forall|i: int| 0 <= i < g6.len() implies good_line(g6[i]) by {
                if i == 0 {
                    assert(g6[0] == "script:"@);
                } else {
                    assert(g6[i] == spec_item_lines(md.script)[i - 1]);
                    assert(spec_item_lines(md.script)[i - 1] == spec_item_line(md.script[i - 1]));
                    lemma_item_line_good(md.script[i - 1]);
                }
            }
        }
    }
    lemma_good_concat(g1, g2);
    lemma_good_concat(g1 + g2, g3);
    lemma_good_concat(g1 + g2 + g3, g4);
    lemma_good_concat(g1 + g2 + g3 + g4, g5);
    lemma_good_concat(g1 + g2 + g3 + g4 + g5, g6);
}

/// Parsing the scalar entries from the initial state fills the scalar
/// fields.
#[verifier::rlimit(100)]
proof fn lemma_parse_scalar_groups(md: MetadataView)
    requires
        serializable(md),
    ensures
        ({
            let g1: Seq<Seq<char>> = match md.title {
                Some(t) => seq![spec_scalar_line("title"@, t)],
                None => Seq::<Seq<char>>::empty(),
            };
            let g2: Seq<Seq<char>> = match md.lang {
                Some(l) => seq![spec_scalar_line("lang"@, l)],
                None => Seq::<Seq<char>>::empty(),
            };
            let g3: Seq<Seq<char>> = if md.head.len() > 0 {
                seq![spec_scalar_line("head"@, md.head)]
            } else {
                Seq::<Seq<char>>::empty()
            };
            let g4: Seq<Seq<char>> = match md.hard_breaks {
                Some(true) => seq![spec_scalar_line("hard_breaks"@, "true"@)],
                Some(false) => seq![spec_scalar_line("hard_breaks"@, "false"@)],
                None => Seq::<Seq<char>>::empty(),
            };
            let r = spec_parse_lines(g1 + g2 + g3 + g4, init_acc());
            &&& r is Some
            &&& r.unwrap().title == md.title
            &&& r.unwrap().lang == md.lang
            &&& r.unwrap().head == (if md.head.len() > 0 {
                Some(md.head)
            } else {
                None
            })
            &&& r.unwrap().hard_breaks == md.hard_breaks
            &&& r.unwrap().css == Seq::<Seq<char>>::empty()
            &&& r.unwrap().script == Seq::<Seq<char>>::empty()
            &&& !r.unwrap().seen.contains("css"@)
            &&& !r.unwrap().seen.contains("script"@)
        }),
{
    lemma_keys_good();
    let g1: Seq<Seq<char>> = match md.title {
        Some(t) => seq![spec_scalar_line("title"@, t)],
        None => Seq::<Seq<char>>::empty(),
    };
    let g2: Seq<Seq<char>> = match md.lang {
        Some(l) => seq![spec_scalar_line("lang"@, l)],
        None => Seq::<Seq<char>>::empty(),
    };
    let g3: Seq<Seq<char>> = if md.head.len() > 0 {
        seq![spec_scalar_line("head"@, md.head)]
    } else {
        Seq::<Seq<char>>::empty()
    };
    let g4: Seq<Seq<char>> = match md.hard_breaks {
        Some(true) => seq![spec_scalar_line("hard_breaks"@, "true"@)],
        Some(false) => seq![spec_scalar_line("hard_breaks"@, "false"@)],
        None => Seq::<Seq<char>>::empty(),
    };
    let acc0 = init_acc();
    // Stage one: the title.
    let acc1 = match md.title {
        Some(t) => MetaAcc {
            title: Some(t),
            seen: acc0.seen.push("title"@),
            pending: PendingKey::NoKey,
            ..acc0
        },
        None => acc0,
    };
    assert(spec_parse_lines(g1, acc0) == Some(acc1)) by {
        match md.title {
            Some(t) => {
                lemma_step_title(acc0, t);
                assert(g1 == seq![spec_scalar_line("title"@, t)]);
            },
            None => {
            },
        }
    }
    assert(!acc1.seen.contains("lang"@) && !acc1.seen.contains("head"@) && !acc1.seen.contains(
        "hard_breaks"@,
    ) && !acc1.seen.contains("css"@) && !acc1.seen.contains("script"@)) by {
        if md.title is Some {
            lemma_push_not_contains(acc0.seen, "title"@, "lang"@);
            lemma_push_not_contains(acc0.seen, "title"@, "head"@);
            lemma_push_not_contains(acc0.seen, "title"@, "hard_breaks"@);
            lemma_push_not_contains(acc0.seen, "title"@, "css"@);
            lemma_push_not_contains(acc0.seen, "title"@, "script"@);
        }
    }
    // Stage two: the language.
    let acc2 = match md.lang {
        Some(l) => MetaAcc {
            lang: Some(l),
            seen: acc1.seen.push("lang"@),
            pending: PendingKey::NoKey,
            ..acc1
        },
        None => acc1,
    };
    assert(spec_parse_lines(g2, acc1) == Some(acc2)) by {
        match md.lang {
            Some(l) => {
                lemma_step_lang(acc1, l);
                assert(g2 == seq![spec_scalar_line("lang"@, l)]);
            },
            None => {
            },
        }
    }
    assert(!acc2.seen.contains("head"@) && !acc2.seen.contains("hard_breaks"@)
        && !acc2.seen.contains("css"@) && !acc2.seen.contains("script"@)) by {
        if md.lang is Some {
            lemma_push_not_contains(acc1.seen, "lang"@, "head"@);
            lemma_push_not_contains(acc1.seen, "lang"@, "hard_breaks"@);
            lemma_push_not_contains(acc1.seen, "lang"@, "css"@);
            lemma_push_not_contains(acc1.seen, "lang"@, "script"@);
        }
    }
    // Stage three: the head fragment.
    let acc3 = if md.head.len() > 0 {
        MetaAcc {
            head: Some(md.head),
            seen: acc2.seen.push("head"@),
            pending: PendingKey::NoKey,
            ..acc2
        }
    } else {
        acc2
    };
    assert(spec_parse_lines(g3, acc2) == Some(acc3)) by {
        if md.head.len() > 0 {
            lemma_step_head(acc2, md.head);
            assert(g3 == seq![spec_scalar_line("head"@, md.head)]);
        }
    }
    assert(!acc3.seen.contains("hard_breaks"@) && !acc3.seen.contains("css"@)
        && !acc3.seen.contains("script"@)) by {
        if md.head.len() > 0 {
            lemma_push_not_contains(acc2.seen, "head"@, "hard_breaks"@);
            lemma_push_not_contains(acc2.seen, "head"@, "css"@);
            lemma_push_not_contains(acc2.seen, "head"@, "script"@);
        }
    }
    // Stage four: the hard-break override.
    let acc4 = match md.hard_breaks {
        Some(b) => MetaAcc {
            hard_breaks: Some(b),
            seen: acc3.seen.push("hard_breaks"@),
            pending: PendingKey::NoKey,
            ..acc3
        },
        None => acc3,
    };
    assert(spec_parse_lines(g4, acc3) == Some(acc4)) by {
        match md.hard_breaks {
            Some(b) => {
                lemma_step_hard_breaks(acc3, b);
                assert(g4 == seq![
                    spec_scalar_line("hard_breaks"@, if b { "true"@ } else { "false"@ }),
                ]);
            },
            None => {
            },
        }
    }
    assert(!acc4.seen.contains("css"@) && !acc4.seen.contains("script"@)) by {
        if md.hard_breaks is Some {
            lemma_push_not_contains(acc3.seen, "hard_breaks"@, "css"@);
            lemma_push_not_contains(acc3.seen, "hard_breaks"@, "script"@);
        }
    }
    // Chain the four stages.
    lemma_parse_lines_concat(g1, g2 + g3 + g4, acc0);
    lemma_parse_lines_concat(g2, g3 + g4, acc1);
    lemma_parse_lines_concat(g3, g4, acc2);
    assert(g1 + g2 + g3 + g4 =~= g1 + (g2 + g3 + g4));
    assert(g2 + g3 + g4 =~= g2 + (g3 + g4));
    assert(spec_parse_lines(g1 + g2 + g3 + g4, acc0) == Some(acc4));
}

/// Parsing the URL lists fills the URL fields and touches nothing else.
#[verifier::rlimit(100)]
proof fn lemma_parse_list_groups(md: MetadataView, acc: MetaAcc)
    requires
        serializable(md),
        acc.css == Seq::<Seq<char>>::empty(),
        acc.script == Seq::<Seq<char>>::empty(),
        !acc.seen.contains("css"@),
        !acc.seen.contains("script"@),
    ensures
        ({
            let g5: Seq<Seq<char>> = if md.css.len() > 0 {
                seq!["css:"@] + spec_item_lines(md.css)
            } else {
                Seq::<Seq<char>>::empty()
            };
            let g6: Seq<Seq<char>> = if md.script.len() > 0 {
                seq!["script:"@] + spec_item_lines(md.script)
            } else {
                Seq::<Seq<char>>::empty()
            };
            let r = spec_parse_lines(g5 + g6, acc);
            &&& r is Some
            &&& r.unwrap().title == acc.title
            &&& r.unwrap().lang == acc.lang
            &&& r.unwrap().head == acc.head
            &&& r.unwrap().hard_breaks == acc.hard_breaks
            &&& r.unwrap().css == md.css
            &&& r.unwrap().script == md.script
        }),
{
    lemma_keys_good();
    let g5: Seq<Seq<char>> = if md.css.len() > 0 {
        seq!["css:"@] + spec_item_lines(md.css)
    } else {
        Seq::<Seq<char>>::empty()
    };
    let g6: Seq<Seq<char>> = if md.script.len() > 0 {
        seq!["script:"@] + spec_item_lines(md.script)
    } else {
        Seq::<Seq<char>>::empty()
    };
    // The stylesheet list.
    let acc5 = if md.css.len() > 0 {
        MetaAcc { css: md.css, seen: acc.seen.push("css"@), pending: PendingKey::CssKey, ..acc }
    } else {
        acc
    };
    assert(spec_parse_lines(g5, acc) == Some(acc5)) by {
        if md.css.len() > 0 {
            lemma_step_css_key(acc);
            let acck = MetaAcc {
                seen: acc.seen.push("css"@),
                pending: PendingKey::CssKey,
                ..acc
            };
            assert(g5.first() == "css:"@);
            assert(g5.drop_first() =~= spec_item_lines(md.css));
            assert(forall|i: int|
                0 <= i < md.css.len() ==> !acck.css.contains(#[trigger] md.css[i]));
            lemma_parse_items_css(acck, md.css);
            assert(acck.css + md.css =~= md.css);
            assert(MetaAcc { css: acck.css + md.css, ..acck } == acc5);
        } else {
            assert(acc.css =~= md.css);
        }
    }
    assert(acc5.css == md.css) by {
        if md.css.len() == 0 {
            assert(acc5.css =~= md.css);
        }
    }
    assert(!acc5.seen.contains("script"@)) by {
        if md.css.len() > 0 {
            lemma_push_not_contains(acc.seen, "css"@, "script"@);
        }
    }
    // The script list.
    let acc6 = if md.script.len() > 0 {
        MetaAcc {
            script: md.script,
            seen: acc5.seen.push("script"@),
            pending: PendingKey::ScriptKey,
            ..acc5
        }
    } else {
        acc5
    };
    assert(spec_parse_lines(g6, acc5) == Some(acc6)) by {
        if md.script.len() > 0 {
            lemma_step_script_key(acc5);
            let acck = MetaAcc {
                seen: acc5.seen.push("script"@),
                pending: PendingKey::ScriptKey,
                ..acc5
            };
            assert(g6.first() == "script:"@);
            assert(g6.drop_first() =~= spec_item_lines(md.script));
            assert(forall|i: int|
                0 <= i < md.script.len() ==> !acck.script.contains(#[trigger] md.script[i]));
            lemma_parse_items_script(acck, md.script);
            assert(acck.script + md.script =~= md.script);
            assert(MetaAcc { script: acck.script + md.script, ..acck } == acc6);
        } else {
            assert(acc5.script =~= md.script);
        }
    }
    assert(acc6.script == md.script) by {
        if md.script.len() == 0 {
            assert(acc6.script =~= md.script);
        }
    }
    lemma_parse_lines_concat(g5, g6, acc);
}

/// Parsing the serialized lines from the initial state rebuilds the record.
#[verifier::rlimit(100)]
proof fn lemma_parse_serialized_lines(md: MetadataView)
    requires
        serializable(md),
    ensures
        ({
            let r = spec_parse_lines(spec_serialize_lines(md), init_acc());
            &&& r is Some
            &&& acc_to_metadata(r.unwrap()) == md
        }),
{
    let g1: Seq<Seq<char>> = match md.title {
        Some(t) => seq![spec_scalar_line("title"@, t)],
        None => Seq::<Seq<char>>::empty(),
    };
    let g2: Seq<Seq<char>> = match md.lang {
        Some(l) => seq![spec_scalar_line("lang"@, l)],
        None => Seq::<Seq<char>>::empty(),
    };
    let g3: Seq<Seq<char>> = if md.head.len() > 0 {
        seq![spec_scalar_line("head"@, md.head)]
    } else {
        Seq::<Seq<char>>::empty()
    };
    let g4: Seq<Seq<char>> = match md.hard_breaks {
        Some(true) => seq![spec_scalar_line("hard_breaks"@, "true"@)],
        Some(false) => seq![spec_scalar_line("hard_breaks"@, "false"@)],
        None => Seq::<Seq<char>>::empty(),
    };
    let g5: Seq<Seq<char>> = if md.css.len() > 0 {
        seq!["css:"@] + spec_item_lines(md.css)
    } else {
        Seq::<Seq<char>>::empty()
    };
    let g6: Seq<Seq<char>> = if md.script.len() > 0 {
        seq!["script:"@] + spec_item_lines(md.script)
    } else {
        Seq::<Seq<char>>::empty()
    };
    let ll = spec_serialize_lines(md);
    assert(ll == g1 + g2 + g3 + g4 + g5 + g6);
    lemma_parse_scalar_groups(md);
    let scalars = g1 + g2 + g3 + g4;
    let lists = g5 + g6;
    let a = spec_parse_lines(scalars, init_acc()).unwrap();
    lemma_parse_list_groups(md, a);
    lemma_parse_lines_concat(scalars, lists, init_acc());
    assert(ll =~= scalars + lists);
    let r = spec_parse_lines(ll, init_acc());
    assert(r is Some);
    let f = r.unwrap();
    assert(f.title == md.title && f.lang == md.lang && f.hard_breaks == md.hard_breaks && f.css
        == md.css && f.script == md.script);
    assert(acc_to_metadata(f).head == md.head) by {
        if md.head.len() == 0 {
            assert(f.head is None);
            assert(Seq::<char>::empty() =~= md.head);
        }
    }
    assert(acc_to_metadata(f) == md);
}

/// Law: front-matter round trip: a serialized metadata record, parsed back
/// as a whole document, yields the same metadata and an empty body, for
/// every record whose values survive the grammar.
#[verifier::rlimit(100)]
pub proof fn lemma_front_matter_round_trip(md: MetadataView)
    requires
        serializable(md),
    ensures
        spec_parse_document(spec_serialize(md)) == (md, Seq::<char>::empty()),
{
    reveal_strlit("---");
    reveal_strlit("\n---");
    reveal_strlit("\n");
    let ll = spec_serialize_lines(md);
    lemma_serialized_lines_good(md);
    let e = spec_emit(ll);
    let s = spec_serialize(md);
    assert(s == "---"@ + e + "\n---"@);
    assert(s.len() == e.len() + 7);
    assert(s[0] == '-' && s[1] == '-' && s[2] == '-');
    assert(!is_doc_ws(s[0]));
    lemma_first_non_ws_unique(s, 0, 0);
    assert(spec_trim_start(s) =~= s);
    if ll.len() > 0 {
        lemma_emit_last_chars(ll);
        assert(s[3] == e[0]);
    } else {
        assert(e =~= Seq::<char>::empty());
        assert(s[3] == '\n');
    }
    assert(crate::front_matter::opens_front_matter(s));
    lemma_serialized_delim(ll);
    let m: int = e.len() as int + 3;
    assert(first_delim_from(s, 3) == m);
    assert(m < s.len());
    let block = s.subrange(3, m);
    assert(block =~= e);
    let raw = s.subrange(m + 4, s.len() as int);
    assert(raw =~= Seq::<char>::empty());
    assert(spec_front_split(s) == Some((block, raw)));
    lemma_lines_of_emit(ll);
    assert(spec_lines_from(block, 0) == seq![Seq::<char>::empty()] + ll);
    let acc0 = init_acc();
    assert(spec_trim(Seq::<char>::empty()).len() == 0);
    assert(spec_line_step(acc0, Seq::<char>::empty()) == Some(acc0));
    let blank = seq![Seq::<char>::empty()];
    assert((blank + ll).first() =~= Seq::<char>::empty());
    assert((blank + ll).drop_first() =~= ll);
    assert(spec_parse_lines(blank + ll, acc0) == spec_parse_lines(ll, acc0));
    lemma_parse_serialized_lines(md);
    assert(spec_parse_block(block) == Some(md));
    assert(spec_trim(raw) =~= Seq::<char>::empty());
    assert(spec_parse_document(s) == (md, Seq::<char>::empty()));
}

} // verus!
