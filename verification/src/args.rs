//! Reading extra command-line arguments from a configuration file's text:
//! one argument per line, blank lines and comment lines skipped.

use vstd::prelude::*;

use crate::front_matter::spec_lines_from;
use crate::front_matter::strip_cr;
use crate::text::find_char_from;
use crate::text::spec_trim;
use crate::text::trim;

verus! {

/// The argument a configuration line holds: its trimmed text, unless that
/// is empty or begins a comment with `#`.
pub open spec fn spec_config_arg(line: Seq<char>) -> Option<Seq<char>> {
    let t = spec_trim(line);
    if t.len() == 0 || t[0] == '#' {
        None
    } else {
        Some(t)
    }
}

/// The arguments the given lines hold, in order.
pub open spec fn spec_config_args(lines: Seq<Seq<char>>) -> Seq<Seq<char>>
    decreases lines.len(),
{
    if lines.len() == 0 {
        Seq::empty()
    } else {
        match spec_config_arg(lines.first()) {
            Some(t) => seq![t] + spec_config_args(lines.drop_first()),
            None => spec_config_args(lines.drop_first()),
        }
    }
}

/// The argument one configuration line holds, if any.
pub fn config_arg<'a>(line: &'a str) -> (r: Option<&'a str>)
    ensures
        (match r {
            Some(t) => spec_config_arg(line@) == Some(t@),
            None => spec_config_arg(line@) is None,
        }),
{
    let t = trim(line);
    if t.is_empty() || t.get_char(0) == '#' {
        None
    } else {
        Some(t)
    }
}

/// The arguments held in a configuration file's text, line by line, in
/// order: each line is trimmed, and blank lines and lines beginning with
/// `#` are skipped.
pub fn config_args(text: &str) -> (r: Vec<String>)
    ensures
        r.deep_view() == spec_config_args(spec_lines_from(text@, 0)),
{
    let len = text.unicode_len();
    let mut out: Vec<String> = Vec::new();
    let mut pos: usize = 0;
    let mut done = false;
    let ghost goal = spec_config_args(spec_lines_from(text@, 0));
    proof {
        assert(out.deep_view() =~= Seq::<Seq<char>>::empty());
    }
    while !done
        invariant
            pos <= len,
            len == text@.len(),
            !done ==> goal == out.deep_view() + spec_config_args(
                spec_lines_from(text@, pos as int),
            ),
            done ==> goal == out.deep_view(),
        decreases len - pos, (if done {
            0int
        } else {
            1int
        }),
    {
        let nl = find_char_from(text, '\n', pos);
        let mut e = nl;
        if nl > pos && text.get_char(nl - 1) == '\r' {
            e = nl - 1;
        }
        let line = text.substring_char(pos, e);
        proof {
            assert(line@ == strip_cr(text@.subrange(pos as int, nl as int))) by {
                if nl > pos && text@[nl as int - 1] == '\r' {
                    assert(text@.subrange(pos as int, nl as int).last() == '\r');
                    assert(text@.subrange(pos as int, nl as int).drop_last() =~= text@.subrange(
                        pos as int,
                        e as int,
                    ));
                } else {
                    if text@.subrange(pos as int, nl as int).len() > 0 {
                        assert(text@.subrange(pos as int, nl as int).last() == text@[nl as int
                            - 1]);
                    }
                }
            }
        }
        let ghost before = out.deep_view();
        match config_arg(line) {
            Some(t) => {
                out.push(String::from_str(t));
                proof {
                    assert(out.deep_view() =~= before.push(t@));
                    assert(before.push(t@) =~= before + seq![t@]);
                }
            },
            None => {
            },
        }
        proof {
            let lines = spec_lines_from(text@, pos as int);
            assert(lines.first() == line@);
            if nl < len {
                assert(lines.drop_first() =~= spec_lines_from(text@, nl as int + 1));
            } else {
                assert(lines.drop_first() =~= Seq::<Seq<char>>::empty());
                assert(spec_config_args(Seq::<Seq<char>>::empty()) =~= Seq::<Seq<char>>::empty());
            }
        }
        if nl < len {
            pos = nl + 1;
        } else {
            done = true;
        }
    }
    out
}

} // verus!
