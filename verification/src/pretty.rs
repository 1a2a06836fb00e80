//! Parsing `key=value` formatting options and applying them to the
//! formatter configuration.

use vstd::prelude::*;

use crate::text::spec_trim;
use crate::text::str_eq;
use crate::text::trim;

verus! {

/// How output lines are indented.
#[derive(Copy, Clone, Eq, PartialEq, Structural, Debug)]
pub enum IndentStyle {
    /// Indent with hard tabs.
    Tabs,
    /// Indent with the given number of spaces per level.
    Spaces(u16),
}

/// The line ending written between output lines.
#[derive(Copy, Clone, Eq, PartialEq, Structural, Debug)]
pub enum LineEnding {
    Lf,
    CrLf,
    Cr,
}

/// One formatting option parsed from a `key=value` argument.
#[derive(Copy, Clone, Eq, PartialEq, Structural, Debug)]
pub enum FormatArg {
    Indent(IndentStyle),
    IndentAttributes(bool),
    IndentCdata(bool),
    Wrap(u32),
    RemoveComments(bool),
    Eol(LineEnding),
    JoinClasses(bool),
    JoinStyles(bool),
    NewlineAfterBr(bool),
    MergeDivs(bool),
    MergeSpans(bool),
}

/// The formatter configuration the options are applied to. The starting
/// values mirror the formatter's own defaults.
pub struct FormatConfig {
    /// Indent with hard tabs instead of spaces.
    pub tabs: bool,
    /// Spaces per indentation level, or the tab aggressiveness.
    pub indent_size: u16,
    /// Put each attribute on an indented line of its own.
    pub indent_attributes: bool,
    /// Indent the contents of character-data sections.
    pub indent_cdata: bool,
    /// The maximum line width; `0` disables wrapping.
    pub wrap: u32,
    /// Remove all comments.
    pub strip_comments: bool,
    /// The line ending to write.
    pub eol: LineEnding,
    /// Join multiple class assignments into one.
    pub join_classes: bool,
    /// Join multiple style attributes into one.
    pub join_styles: bool,
    /// Add a newline after each hard line break.
    pub br_newline: bool,
    /// Merge nested `div` elements.
    pub merge_divs: bool,
    /// Merge nested `span` elements.
    pub merge_spans: bool,
}

impl FormatConfig {
    /// The formatter's default configuration: four spaces of indentation,
    /// plain line feeds, lines wrapped at 80 columns, styles joined.
    pub fn new() -> (r: FormatConfig)
        ensures
            r == spec_default_config(),
    {
        FormatConfig {
            tabs: false,
            indent_size: 4,
            indent_attributes: false,
            indent_cdata: false,
            wrap: 80,
            strip_comments: false,
            eol: LineEnding::Lf,
            join_classes: false,
            join_styles: true,
            br_newline: false,
            merge_divs: false,
            merge_spans: false,
        }
    }
}

/// The formatter's default configuration.
pub open spec fn spec_default_config() -> FormatConfig {
    FormatConfig {
        tabs: false,
        indent_size: 4,
        indent_attributes: false,
        indent_cdata: false,
        wrap: 80,
        strip_comments: false,
        eol: LineEnding::Lf,
        join_classes: false,
        join_styles: true,
        br_newline: false,
        merge_divs: false,
        merge_spans: false,
    }
}

/// What the given characters fold to under full case folding; the result
/// depends on the characters alone.
pub uninterp spec fn lower_of(s: Seq<char>) -> Seq<char>;

/// Relies on str::to_lowercase: the lowercase form of the string, a
/// function of its characters alone.
#[verifier::external_body]
fn to_lowercase(s: &str) -> (r: String)
    ensures
        r@ == lower_of(s@),
{
    s.to_lowercase()
}

/// The numeric value of a digit string read in base ten.
pub open spec fn digits_val(s: Seq<char>) -> int
    decreases s.len(),
{
    if s.len() == 0 {
        0
    } else {
        digits_val(s.drop_last()) * 10 + (s.last() as int - '0' as int)
    }
}

/// A decimal digit.
pub open spec fn is_digit(c: char) -> bool {
    '0' <= c && c <= '9'
}

/// Every character is a decimal digit.
pub open spec fn all_digits(s: Seq<char>) -> bool {
    forall|i: int| 0 <= i < s.len() ==> is_digit(s[i])
}

/// The digits of a number with an optional leading plus sign.
pub open spec fn spec_digits_part(s: Seq<char>) -> Seq<char> {
    if s.len() > 0 && s[0] == '+' {
        s.drop_first()
    } else {
        s
    }
}

/// The number a string denotes in base ten with an optional leading plus
/// sign, when it denotes one at most `bound`.
pub open spec fn spec_parse_uint(s: Seq<char>, bound: int) -> Option<int> {
    let d = spec_digits_part(s);
    if d.len() > 0 && all_digits(d) && digits_val(d) <= bound {
        Some(digits_val(d))
    } else {
        None
    }
}

proof fn lemma_digits_val_nonneg(s: Seq<char>)
    requires
        all_digits(s),
    ensures
        digits_val(s) >= 0,
    decreases s.len(),
{
    if s.len() > 0 {
        assert(all_digits(s.drop_last())) by {
            assert(forall|i: int|
                0 <= i < s.drop_last().len() ==> s.drop_last()[i] == s[i]);
        }
        lemma_digits_val_nonneg(s.drop_last());
    }
}

/// Reading more digits never makes the value smaller.
proof fn lemma_digits_val_prefix(s: Seq<char>, i: int)
    requires
        all_digits(s),
        0 <= i <= s.len(),
    ensures
        digits_val(s.subrange(0, i)) <= digits_val(s),
    decreases s.len() - i,
{
    if i < s.len() {
        assert(all_digits(s.subrange(0, i + 1))) by {
            assert(forall|j: int|
                0 <= j < i + 1 ==> s.subrange(0, i + 1)[j] == s[j]);
        }
        assert(s.subrange(0, i + 1).drop_last() =~= s.subrange(0, i));
        assert(all_digits(s.subrange(0, i))) by {
            assert(forall|j: int| 0 <= j < i ==> s.subrange(0, i)[j] == s[j]);
        }
        lemma_digits_val_nonneg(s.subrange(0, i));
        lemma_digits_val_prefix(s, i + 1);
        assert(digits_val(s.subrange(0, i + 1)) >= digits_val(s.subrange(0, i)));
    } else {
        assert(s.subrange(0, i) =~= s);
    }
}

/// Reads a base-ten number no larger than `bound` from the digits of `s`,
/// after an optional leading plus sign.
fn parse_uint(s: &str, bound: u64) -> (r: Option<u64>)
    requires
        bound <= 0xFFFF_FFFF,
    ensures
        (match r {
            Some(n) => spec_parse_uint(s@, bound as int) == Some(n as int) && n <= bound,
            None => spec_parse_uint(s@, bound as int) is None,
        }),
{
    let len = s.unicode_len();
    let start: usize = if len > 0 && s.get_char(0) == '+' {
        1
    } else {
        0
    };
    proof {
        assert(spec_digits_part(s@) =~= s@.subrange(start as int, len as int));
    }
    if start == len {
        return None;
    }
    let ghost d = s@.subrange(start as int, len as int);
    let mut acc: u64 = 0;
    let mut i: usize = start;
    proof {
        assert(d.subrange(0, 0) =~= Seq::<char>::empty());
    }
    while i < len
        invariant
            start <= i <= len,
            len == s@.len(),
            d == s@.subrange(start as int, len as int),
            d == spec_digits_part(s@),
            d.len() > 0,
            all_digits(d.subrange(0, i - start)),
            acc == digits_val(d.subrange(0, i - start)),
            acc <= bound,
            bound <= 0xFFFF_FFFF,
        decreases len - i,
    {
        let c = s.get_char(i);
        if !('0' <= c && c <= '9') {
            proof {
                assert(d[i - start] == c);
                assert(!is_digit(d[i - start]));
                assert(!all_digits(d));
            }
            return None;
        }
        let digit: u64 = (c as u32 as u64) - ('0' as u32 as u64);
        let next: u64 = acc * 10 + digit;
        proof {
            assert(d.subrange(0, i - start + 1).drop_last() =~= d.subrange(0, i - start));
            assert(d.subrange(0, i - start + 1).last() == c);
            assert(all_digits(d.subrange(0, i - start + 1)));
            assert(next == digits_val(d.subrange(0, i - start + 1)));
        }
        if next > bound {
            proof {
                if spec_parse_uint(s@, bound as int) is Some {
                    assert(d.len() > 0 && all_digits(d) && digits_val(d) <= bound as int);
                    lemma_digits_val_prefix(d, i - start + 1);
                    assert(false);
                }
            }
            return None;
        }
        acc = next;
        i = i + 1;
    }
    proof {
        assert(d.subrange(0, len - start) =~= d);
    }
    Some(acc)
}

/// Index of the first `:` or `=` in `s` at or after `i`, or `s.len()` when
/// there is none.
pub open spec fn first_sep_from(s: Seq<char>, i: int) -> int
    decreases s.len() - i,
{
    if i < 0 || i >= s.len() {
        s.len() as int
    } else if s[i] == ':' || s[i] == '=' {
        i
    } else {
        first_sep_from(s, i + 1)
    }
}

proof fn lemma_first_sep_from_unique(s: Seq<char>, i: int, k: int)
    requires
        0 <= i <= k <= s.len(),
        forall|j: int| i <= j < k ==> !(s[j] == ':' || s[j] == '='),
        k < s.len() ==> (s[k] == ':' || s[k] == '='),
    ensures
        first_sep_from(s, i) == k,
    decreases k - i,
{
    if i < k {
        lemma_first_sep_from_unique(s, i + 1, k);
    }
}

/// Finds the first `:` or `=` in `s`.
fn find_sep(s: &str) -> (r: usize)
    ensures
        r == first_sep_from(s@, 0),
        r <= s@.len(),
{
    let len = s.unicode_len();
    let mut i: usize = 0;
    while i < len
        invariant
            i <= len,
            len == s@.len(),
            forall|j: int| 0 <= j < i ==> !(s@[j] == ':' || s@[j] == '='),
        decreases len - i,
    {
        let c = s.get_char(i);
        if c == ':' || c == '=' {
            proof {
                lemma_first_sep_from_unique(s@, 0, i as int);
            }
            return i;
        }
        i = i + 1;
    }
    proof {
        lemma_first_sep_from_unique(s@, 0, len as int);
    }
    len
}

/// The argument part and the value part of `key=value` or `key:value`,
/// split at the first separator; without one the whole string is the
/// argument.
pub open spec fn spec_split_sep(s: Seq<char>) -> (Seq<char>, Seq<char>) {
    let c = first_sep_from(s, 0);
    if c < s.len() {
        (s.subrange(0, c), s.subrange(c + 1, s.len() as int))
    } else {
        (s, Seq::empty())
    }
}

/// The message for a value that does not fit its option.
pub open spec fn spec_error_msg(arg: Seq<char>, val: Seq<char>, msg: Seq<char>) -> Seq<char> {
    "invalid value '"@ + val + "' for `"@ + arg + "`: "@ + msg
}

/// Builds the message for a value that does not fit its option.
pub fn error(arg: &str, val: &str, msg: &str) -> (r: String)
    ensures
        r@ == spec_error_msg(arg@, val@, msg@),
{
    let mut r = String::from_str("invalid value '");
    r.append(val);
    r.append("' for `");
    r.append(arg);
    r.append("`: ");
    r.append(msg);
    r
}

/// What a boolean option value denotes: an empty value and the usual
/// affirmative words enable it, the negative words disable it, anything
/// else is an error. The value is folded to lower case once more first.
pub open spec fn spec_bool_val(val: Seq<char>) -> Option<bool> {
    let v = lower_of(val);
    if v == "true"@ || v == "t"@ || v == "on"@ || v == "yes"@ || v == "1"@ {
        Some(true)
    } else if v == "false"@ || v == "f"@ || v == "off"@ || v == "no"@ || v == "0"@ {
        Some(false)
    } else {
        None
    }
}

/// The parse of one `key=value` formatting argument. The key and the value
/// are trimmed and folded to lower case; the error messages quote the
/// trimmed value before folding.
pub open spec fn spec_parse_format(s: Seq<char>) -> Result<FormatArg, Seq<char>> {
    let parts = spec_split_sep(s);
    let orig_arg = spec_trim(parts.0);
    let arg = lower_of(orig_arg);
    let orig_val = spec_trim(parts.1);
    let val = lower_of(orig_val);
    if arg == "indent"@ {
        if val == "tabs"@ || val == "tab"@ {
            Ok(FormatArg::Indent(IndentStyle::Tabs))
        } else if val.len() == 0 || val == "spaces"@ || val == "space"@ {
            Ok(FormatArg::Indent(IndentStyle::Spaces(4)))
        } else {
            match spec_parse_uint(val, 0xFFFF) {
                Some(n) => Ok(FormatArg::Indent(IndentStyle::Spaces(n as u16))),
                None => Err(
                    spec_error_msg(
                        arg,
                        orig_val,
                        "value must be 'tabs', 'spaces' or a non-negative integer"@,
                    ),
                ),
            }
        }
    } else if arg == "wrap"@ {
        match spec_parse_uint(val, 0xFFFF_FFFF) {
            Some(n) => Ok(FormatArg::Wrap(n as u32)),
            None => Err(spec_error_msg(arg, orig_val, "value must be a non-negative integer"@)),
        }
    } else if arg == "eol"@ || arg == "newline"@ {
        if val == "lf"@ {
            Ok(FormatArg::Eol(LineEnding::Lf))
        } else if val == "crlf"@ {
            Ok(FormatArg::Eol(LineEnding::CrLf))
        } else if val == "cr"@ {
            Ok(FormatArg::Eol(LineEnding::Cr))
        } else {
            Err(spec_error_msg(arg, orig_val, "value must be one of 'lf', 'crlf' and 'cr'"@))
        }
    } else if arg == "indent-attributes"@ {
        spec_bool_arg(arg, val, orig_val, BoolOption::IndentAttributes)
    } else if arg == "indent-cdata"@ {
        spec_bool_arg(arg, val, orig_val, BoolOption::IndentCdata)
    } else if arg == "remove-comments"@ {
        spec_bool_arg(arg, val, orig_val, BoolOption::RemoveComments)
    } else if arg == "join-classes"@ {
        spec_bool_arg(arg, val, orig_val, BoolOption::JoinClasses)
    } else if arg == "join-styles"@ {
        spec_bool_arg(arg, val, orig_val, BoolOption::JoinStyles)
    } else if arg == "newline-after-br"@ {
        spec_bool_arg(arg, val, orig_val, BoolOption::NewlineAfterBr)
    } else if arg == "merge-divs"@ {
        spec_bool_arg(arg, val, orig_val, BoolOption::MergeDivs)
    } else if arg == "merge-spans"@ {
        spec_bool_arg(arg, val, orig_val, BoolOption::MergeSpans)
    } else {
        Err("unknown format option `"@ + orig_arg + "`"@)
    }
}

/// The boolean formatting options, in the order they are recognized.
#[derive(Copy, Clone, Eq, PartialEq, Structural, Debug)]
pub enum BoolOption {
    IndentAttributes,
    IndentCdata,
    RemoveComments,
    JoinClasses,
    JoinStyles,
    NewlineAfterBr,
    MergeDivs,
    MergeSpans,
}

/// The formatting option that a boolean choice selects.
pub open spec fn spec_bool_option(o: BoolOption, b: bool) -> FormatArg {
    match o {
        BoolOption::IndentAttributes => FormatArg::IndentAttributes(b),
        BoolOption::IndentCdata => FormatArg::IndentCdata(b),
        BoolOption::RemoveComments => FormatArg::RemoveComments(b),
        BoolOption::JoinClasses => FormatArg::JoinClasses(b),
        BoolOption::JoinStyles => FormatArg::JoinStyles(b),
        BoolOption::NewlineAfterBr => FormatArg::NewlineAfterBr(b),
        BoolOption::MergeDivs => FormatArg::MergeDivs(b),
        BoolOption::MergeSpans => FormatArg::MergeSpans(b),
    }
}

/// The parse of a boolean option's value: an empty value enables it.
pub open spec fn spec_bool_arg(
    arg: Seq<char>,
    val: Seq<char>,
    orig_val: Seq<char>,
    o: BoolOption,
) -> Result<FormatArg, Seq<char>> {
    if val.len() == 0 {
        Ok(spec_bool_option(o, true))
    } else {
        match spec_bool_val(val) {
            Some(b) => Ok(spec_bool_option(o, b)),
            None => Err(spec_error_msg(arg, orig_val, "value must be boolean"@)),
        }
    }
}

impl FormatArg {
    /// Parses one `key=value` or `key:value` formatting argument.
    pub fn parse(s: &str) -> (r: Result<FormatArg, String>)
        ensures
            (match r {
                Ok(a) => spec_parse_format(s@) == Ok::<FormatArg, Seq<char>>(a),
                Err(e) => spec_parse_format(s@) == Err::<FormatArg, Seq<char>>(e@),
            }),
    {
        let len = s.unicode_len();
        let c = find_sep(s);
        let (left, right) = if c < len {
            (s.substring_char(0, c), s.substring_char(c + 1, len))
        } else {
            (s, "")
        };
        proof {
            if c >= len {
                reveal_strlit("");
                assert(""@ =~= Seq::<char>::empty());
            }
        }
        let orig_arg = trim(left);
        let arg = to_lowercase(orig_arg);
        let orig_val = trim(right);
        let val = to_lowercase(orig_val);
        let args = arg.as_str();
        let vals = val.as_str();
        if str_eq(args, "indent") {
            if str_eq(vals, "tabs") || str_eq(vals, "tab") {
                Ok(FormatArg::Indent(IndentStyle::Tabs))
            } else if vals.is_empty() || str_eq(vals, "spaces") || str_eq(vals, "space") {
                Ok(FormatArg::Indent(IndentStyle::Spaces(4)))
            } else {
                match parse_uint(vals, 0xFFFF) {
                    Some(n) => Ok(FormatArg::Indent(IndentStyle::Spaces(n as u16))),
                    None => Err(
                        error(
                            args,
                            orig_val,
                            "value must be 'tabs', 'spaces' or a non-negative integer",
                        ),
                    ),
                }
            }
        } else if str_eq(args, "wrap") {
            match parse_uint(vals, 0xFFFF_FFFF) {
                Some(n) => Ok(FormatArg::Wrap(n as u32)),
                None => Err(error(args, orig_val, "value must be a non-negative integer")),
            }
        } else if str_eq(args, "eol") || str_eq(args, "newline") {
            if str_eq(vals, "lf") {
                Ok(FormatArg::Eol(LineEnding::Lf))
            } else if str_eq(vals, "crlf") {
                Ok(FormatArg::Eol(LineEnding::CrLf))
            } else if str_eq(vals, "cr") {
                Ok(FormatArg::Eol(LineEnding::Cr))
            } else {
                Err(error(args, orig_val, "value must be one of 'lf', 'crlf' and 'cr'"))
            }
        } else if str_eq(args, "indent-attributes") {
            bool_arg(args, vals, orig_val, BoolOption::IndentAttributes)
        } else if str_eq(args, "indent-cdata") {
            bool_arg(args, vals, orig_val, BoolOption::IndentCdata)
        } else if str_eq(args, "remove-comments") {
            bool_arg(args, vals, orig_val, BoolOption::RemoveComments)
        } else if str_eq(args, "join-classes") {
            bool_arg(args, vals, orig_val, BoolOption::JoinClasses)
        } else if str_eq(args, "join-styles") {
            bool_arg(args, vals, orig_val, BoolOption::JoinStyles)
        } else if str_eq(args, "newline-after-br") {
            bool_arg(args, vals, orig_val, BoolOption::NewlineAfterBr)
        } else if str_eq(args, "merge-divs") {
            bool_arg(args, vals, orig_val, BoolOption::MergeDivs)
        } else if str_eq(args, "merge-spans") {
            bool_arg(args, vals, orig_val, BoolOption::MergeSpans)
        } else {
            let mut e = String::from_str("unknown format option `");
            e.append(orig_arg);
            e.append("`");
            Err(e)
        }
    }

    /// Applies this option to the configuration.
    #[verifier::rlimit(50)]
    pub fn apply(self, o: &mut FormatConfig)
        ensures
            *final(o) == spec_apply(self, *old(o)),
    {
        match self {
            FormatArg::Indent(IndentStyle::Tabs) => {
                o.tabs = true;
                o.indent_size = 8;
            },
            FormatArg::Indent(IndentStyle::Spaces(n)) => {
                o.tabs = false;
                o.indent_size = n;
            },
            FormatArg::IndentAttributes(x) => {
                o.indent_attributes = x;
            },
            FormatArg::IndentCdata(x) => {
                o.indent_cdata = x;
            },
            FormatArg::Wrap(x) => {
                o.wrap = x;
            },
            FormatArg::RemoveComments(x) => {
                o.strip_comments = x;
            },
            FormatArg::Eol(x) => {
                o.eol = x;
            },
            FormatArg::JoinClasses(x) => {
                o.join_classes = x;
            },
            FormatArg::JoinStyles(x) => {
                o.join_styles = x;
            },
            FormatArg::NewlineAfterBr(x) => {
                o.br_newline = x;
            },
            FormatArg::MergeDivs(x) => {
                o.merge_divs = x;
            },
            FormatArg::MergeSpans(x) => {
                o.merge_spans = x;
            },
        }
    }
}

/// The configuration after one option is applied.
pub open spec fn spec_apply(a: FormatArg, o: FormatConfig) -> FormatConfig {
    match a {
        FormatArg::Indent(IndentStyle::Tabs) => FormatConfig {
            tabs: true,
            indent_size: 8,
            ..o
        },
        FormatArg::Indent(IndentStyle::Spaces(n)) => FormatConfig {
            tabs: false,
            indent_size: n,
            ..o
        },
        FormatArg::IndentAttributes(x) => FormatConfig { indent_attributes: x, ..o },
        FormatArg::IndentCdata(x) => FormatConfig { indent_cdata: x, ..o },
        FormatArg::Wrap(x) => FormatConfig { wrap: x, ..o },
        FormatArg::RemoveComments(x) => FormatConfig { strip_comments: x, ..o },
        FormatArg::Eol(x) => FormatConfig { eol: x, ..o },
        FormatArg::JoinClasses(x) => FormatConfig { join_classes: x, ..o },
        FormatArg::JoinStyles(x) => FormatConfig { join_styles: x, ..o },
        FormatArg::NewlineAfterBr(x) => FormatConfig { br_newline: x, ..o },
        FormatArg::MergeDivs(x) => FormatConfig { merge_divs: x, ..o },
        FormatArg::MergeSpans(x) => FormatConfig { merge_spans: x, ..o },
    }
}

/// Parses the value of a boolean option.
fn bool_arg(arg: &str, val: &str, orig_val: &str, o: BoolOption) -> (r: Result<
    FormatArg,
    String,
>)
    ensures
        (match r {
            Ok(a) => spec_bool_arg(arg@, val@, orig_val@, o) == Ok::<FormatArg, Seq<char>>(a),
            Err(e) => spec_bool_arg(arg@, val@, orig_val@, o) == Err::<FormatArg, Seq<char>>(e@),
        }),
{
    if val.is_empty() {
        return Ok(bool_option(o, true));
    }
    let v = to_lowercase(val);
    let vs = v.as_str();
    if str_eq(vs, "true") || str_eq(vs, "t") || str_eq(vs, "on") || str_eq(vs, "yes") || str_eq(
        vs,
        "1",
    ) {
        Ok(bool_option(o, true))
    } else if str_eq(vs, "false") || str_eq(vs, "f") || str_eq(vs, "off") || str_eq(vs, "no")
        || str_eq(vs, "0") {
        Ok(bool_option(o, false))
    } else {
        Err(error(arg, orig_val, "value must be boolean"))
    }
}

/// The formatting option that a boolean choice selects.
fn bool_option(o: BoolOption, b: bool) -> (r: FormatArg)
    ensures
        r == spec_bool_option(o, b),
{
    match o {
        BoolOption::IndentAttributes => FormatArg::IndentAttributes(b),
        BoolOption::IndentCdata => FormatArg::IndentCdata(b),
        BoolOption::RemoveComments => FormatArg::RemoveComments(b),
        BoolOption::JoinClasses => FormatArg::JoinClasses(b),
        BoolOption::JoinStyles => FormatArg::JoinStyles(b),
        BoolOption::NewlineAfterBr => FormatArg::NewlineAfterBr(b),
        BoolOption::MergeDivs => FormatArg::MergeDivs(b),
        BoolOption::MergeSpans => FormatArg::MergeSpans(b),
    }
}

} // verus!
