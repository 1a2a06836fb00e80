//! The conversion pipeline for one document, the full-page template, and
//! the choice of conversion mode.

use vstd::prelude::*;

use crate::error::ConvertError;
use crate::error::ConvertErrorView;
use crate::front_matter::parse_document;
use crate::front_matter::spec_parse_document;
use crate::metadata::spec_merge;
use crate::metadata::Metadata;
use crate::metadata::MetadataView;
use crate::metadata::RenderOptions;
use crate::policy::CaseFolding;
use crate::text::spec_trim;
use crate::text::trim;

verus! {

/// The rendered HTML of a Markdown body; the result depends on the text and
/// the hard-break flag alone.
pub uninterp spec fn html_of(md: Seq<char>, hard_breaks: bool) -> Seq<char>;

/// Relies on pulldown_cmark's `Parser::new_ext` and `html::push_html` with
/// all extensions enabled: the rendered HTML of the Markdown body, a
/// function of the text and the hard-break flag alone; a soft line break
/// renders as a hard break when the flag is set.
#[verifier::external_body]
pub fn render_markdown(md: &str, hard_breaks: bool) -> (r: String)
    ensures
        r@ == html_of(md@, hard_breaks),
{
    let parser = pulldown_cmark::Parser::new_ext(md, pulldown_cmark::Options::all()).map(
        |e| match e {
            pulldown_cmark::Event::SoftBreak if hard_breaks => pulldown_cmark::Event::HardBreak,
            other => other,
        },
    );
    let mut out = String::new();
    pulldown_cmark::html::push_html(&mut out, parser);
    out
}

/// Relies on pulldown_cmark's `Parser::new_ext` and `html::push_html`:
/// renders the Markdown body while handing each link destination to the
/// library's rewriting decision, which reads the filesystem, so nothing is
/// promised of the result.
#[verifier::external_body]
fn render_markdown_rewriting(
    md: &str,
    hard_breaks: bool,
    file_path: &str,
    root: &str,
    skip_hidden: bool,
    folding: CaseFolding,
    convert_base_urls: bool,
) -> String {
    let parser = pulldown_cmark::Parser::new_ext(md, pulldown_cmark::Options::all()).map(|e| match e {
        pulldown_cmark::Event::SoftBreak if hard_breaks => pulldown_cmark::Event::HardBreak,
        pulldown_cmark::Event::Start(pulldown_cmark::Tag::Link { link_type, dest_url, title, id }) => {
            let r = crate::links::hook_rewrite(&dest_url, file_path, root, skip_hidden, folding, convert_base_urls);
            let dest_url = match r { Some(n) => n.into(), None => dest_url };
            pulldown_cmark::Event::Start(pulldown_cmark::Tag::Link { link_type, dest_url, title, id })
        },
        other => other,
    });
    let mut out = String::new();
    pulldown_cmark::html::push_html(&mut out, parser);
    out
}

/// The stylesheet links of the document head, one per URL, in order.
pub open spec fn spec_css_links(urls: Seq<Seq<char>>) -> Seq<char>
    decreases urls.len(),
{
    if urls.len() == 0 {
        Seq::empty()
    } else {
        spec_css_links(urls.drop_last()) + "<link rel=\"stylesheet\" href=\""@ + urls.last()
            + "\">\n"@
    }
}

/// The script tags of the document head, one per URL, in order.
pub open spec fn spec_script_tags(urls: Seq<Seq<char>>) -> Seq<char>
    decreases urls.len(),
{
    if urls.len() == 0 {
        Seq::empty()
    } else {
        spec_script_tags(urls.drop_last()) + "<script src=\""@ + urls.last() + "\"></script>\n"@
    }
}

/// The complete HTML document for a rendering context and a body: a head
/// holding the charset, the title when one is set, the stylesheet links and
/// script tags in order, and the raw head fragment, followed by the body.
/// All values are written verbatim.
pub open spec fn spec_render_document(md: MetadataView, body: Seq<char>) -> Seq<char> {
    "<!DOCTYPE html>\n<html"@ + (match md.lang {
        Some(l) => " lang=\""@ + l + "\""@,
        None => Seq::<char>::empty(),
    }) + ">\n<head>\n<meta charset=\"utf-8\">\n"@ + (match md.title {
        Some(t) => "<title>"@ + t + "</title>\n"@,
        None => Seq::<char>::empty(),
    }) + spec_css_links(md.css) + spec_script_tags(md.script) + (if md.head.len() > 0 {
        md.head + "\n"@
    } else {
        Seq::<char>::empty()
    }) + "</head>\n<body>\n"@ + body + "\n</body>\n</html>\n"@
}

/// Appends the stylesheet links to the page.
fn append_css_links(out: &mut String, md: &Metadata)
    ensures
        final(out)@ == old(out)@ + spec_css_links(md@.css),
{
    let urls = md.css_list();
    let ghost all = md@.css;
    let n = urls.len();
    let mut i: usize = 0;
    proof {
        assert(all.take(0) =~= Seq::<Seq<char>>::empty());
    }
    while i < n
        invariant
            i <= n,
            n == urls.len(),
            urls.deep_view() == all,
            out@ == old(out)@ + spec_css_links(all.take(i as int)),
        decreases n - i,
    {
        out.append("<link rel=\"stylesheet\" href=\"");
        out.append(urls[i].as_str());
        out.append("\">\n");
        proof {
            assert(all.take(i + 1).drop_last() =~= all.take(i as int));
            assert(all.take(i + 1).last() == all[i as int]);
        }
        i = i + 1;
    }
    proof {
        assert(all.take(n as int) =~= all);
    }
}

/// Appends the script tags to the page.
fn append_script_tags(out: &mut String, md: &Metadata)
    ensures
        final(out)@ == old(out)@ + spec_script_tags(md@.script),
{
    let urls = md.script_list();
    let ghost all = md@.script;
    let n = urls.len();
    let mut i: usize = 0;
    proof {
        assert(all.take(0) =~= Seq::<Seq<char>>::empty());
    }
    while i < n
        invariant
            i <= n,
            n == urls.len(),
            urls.deep_view() == all,
            out@ == old(out)@ + spec_script_tags(all.take(i as int)),
        decreases n - i,
    {
        out.append("<script src=\"");
        out.append(urls[i].as_str());
        out.append("\"></script>\n");
        proof {
            assert(all.take(i + 1).drop_last() =~= all.take(i as int));
            assert(all.take(i + 1).last() == all[i as int]);
        }
        i = i + 1;
    }
    proof {
        assert(all.take(n as int) =~= all);
    }
}

/// Builds the complete HTML document for a rendering context and a body.
pub fn render_document(md: &Metadata, body: &str) -> (r: String)
    ensures
        r@ == spec_render_document(md@, body@),
{
    let mut out = String::from_str("<!DOCTYPE html>\n<html");
    match &md.lang {
        Some(l) => {
            out.append(" lang=\"");
            out.append(l.as_str());
            out.append("\"");
        },
        None => {
        },
    }
    out.append(">\n<head>\n<meta charset=\"utf-8\">\n");
    match &md.title {
        Some(t) => {
            out.append("<title>");
            out.append(t.as_str());
            out.append("</title>\n");
        },
        None => {
        },
    }
    append_css_links(&mut out, md);
    append_script_tags(&mut out, md);
    if !md.head.as_str().is_empty() {
        out.append(md.head.as_str());
        out.append("\n");
    }
    out.append("</head>\n<body>\n");
    out.append(body);
    out.append("\n</body>\n</html>\n");
    out
}

/// The scratch buffers reused across the documents of one conversion run.
pub struct Buffer {
    /// The raw Markdown input of the current document.
    pub buf: String,
    /// The HTML rendered from the document body.
    pub body: String,
    /// The complete page built around the body.
    pub rendered: String,
}

impl Buffer {
    /// Empty scratch buffers.
    pub fn new() -> (r: Buffer)
        ensures
            r.buf@ == Seq::<char>::empty(),
            r.body@ == Seq::<char>::empty(),
            r.rendered@ == Seq::<char>::empty(),
    {
        Buffer { buf: String::new(), body: String::new(), rendered: String::new() }
    }

    /// Renders the document held in `buf` into a complete page in
    /// `rendered`, without link rewriting: the front matter is parsed and
    /// merged with the options, the body goes through the Markdown engine,
    /// and the template wraps the result.
    pub fn render(&mut self, opts: &RenderOptions)
        ensures
            final(self).buf == old(self).buf,
            ({
                let parsed = spec_parse_document(old(self).buf@);
                let m = spec_merge(parsed.0, opts@);
                final(self).rendered@ == spec_render_document(
                    m,
                    spec_trim(html_of(parsed.1, m.hard_breaks == Some(true))),
                )
            }),
    {
        let (mut md, body_text) = parse_document(self.buf.as_str());
        md.merge(opts);
        let hb = match md.hard_breaks {
            Some(b) => b,
            None => {
                proof {
                    assert(false);
                }
                false
            },
        };
        self.body = render_markdown(body_text.as_str(), hb);
        let page = render_document(&md, trim(self.body.as_str()));
        self.rendered = page;
        proof {
            assert((md@.hard_breaks == Some(true)) == hb);
        }
    }

    /// Renders the document held in `buf` into a complete page in
    /// `rendered` while rewriting its links against the conversion root:
    /// what the Markdown engine returns depends on the filesystem, so the
    /// page is pinned down only up to the rendered body.
    pub fn render_in_tree(
        &mut self,
        opts: &RenderOptions,
        file_path: &str,
        root: &str,
        skip_hidden: bool,
        folding: CaseFolding,
    )
        ensures
            final(self).buf == old(self).buf,
            exists|h: Seq<char>|
                final(self).rendered@ == spec_render_document(
                    spec_merge(spec_parse_document(old(self).buf@).0, opts@),
                    spec_trim(h),
                ),
    {
        let (mut md, body_text) = parse_document(self.buf.as_str());
        md.merge(opts);
        let hb = match md.hard_breaks {
            Some(b) => b,
            None => {
                proof {
                    assert(false);
                }
                false
            },
        };
        if opts.no_convert_urls {
            self.body = render_markdown(body_text.as_str(), hb);
        } else {
            self.body = render_markdown_rewriting(
                body_text.as_str(),
                hb,
                file_path,
                root,
                skip_hidden,
                folding,
                opts.convert_base_urls,
            );
        }
        let page = render_document(&md, trim(self.body.as_str()));
        self.rendered = page;
        proof {
            let m = spec_merge(spec_parse_document(old(self).buf@).0, opts@);
            assert(self.rendered@ == spec_render_document(m, spec_trim(self.body@)));
        }
    }
}

/// How one invocation converts its inputs.
#[derive(Copy, Clone, PartialEq, Eq, Structural, Debug)]
pub enum Mode {
    /// One source to one destination, links untouched.
    SingleDocument,
    /// An explicit list of files flattened into one output directory.
    FlattenList,
    /// A directory tree mirrored under the output directory, links
    /// rewritten.
    DirectoryTree,
}

/// The conversion mode the inputs select: an output directory with a single
/// directory input converts the tree, an output directory with anything
/// else flattens the list, and without an output directory exactly one
/// input is rendered to one destination.
pub open spec fn spec_choose_mode(n_inputs: int, first_is_dir: bool, has_out_dir: bool) -> Result<
    Mode,
    Seq<char>,
> {
    if has_out_dir {
        if n_inputs == 1 && first_is_dir {
            Ok(Mode::DirectoryTree)
        } else {
            Ok(Mode::FlattenList)
        }
    } else if n_inputs != 1 {
        Err("cannot write multiple files into one; use the --out-dir option instead"@)
    } else {
        Ok(Mode::SingleDocument)
    }
}

/// Chooses the conversion mode from the number of inputs, whether the first
/// is a directory, and whether an output directory was given.
pub fn choose_mode(n_inputs: usize, first_is_dir: bool, has_out_dir: bool) -> (r: Result<
    Mode,
    ConvertError,
>)
    ensures
        (match r {
            Ok(m) => spec_choose_mode(n_inputs as int, first_is_dir, has_out_dir) == Ok::<
                Mode,
                Seq<char>,
            >(m),
            Err(e) => {
                &&& spec_choose_mode(n_inputs as int, first_is_dir, has_out_dir) matches Err(msg)
                &&& e@ == ConvertErrorView::Usage(msg)
            },
        }),
{
    if has_out_dir {
        if n_inputs == 1 && first_is_dir {
            Ok(Mode::DirectoryTree)
        } else {
            Ok(Mode::FlattenList)
        }
    } else if n_inputs != 1 {
        Err(
            ConvertError::Usage(
                String::from_str(
                    "cannot write multiple files into one; use the --out-dir option instead",
                ),
            ),
        )
    } else {
        Ok(Mode::SingleDocument)
    }
}

} // verus!
