//! How a command of cargo is shown to the user: in the progress messages,
//! in the list that `--print-command-list` prints and in error messages.

use vstd::prelude::*;

use crate::pattern::{join_strings, join_with};
use crate::text::{chars_of, str_eq, string_from_chars, views};

verus! {

/// Whether every `--manifest-path` among `args` that is read as a flag has
/// its path after it.
pub open spec fn paths_follow(args: Seq<Seq<char>>) -> bool
    decreases args.len(),
{
    if args.len() == 0 {
        true
    } else if args[0] == "--manifest-path"@ {
        args.len() >= 2 && paths_follow(args.skip(2))
    } else {
        paths_follow(args.drop_first())
    }
}

/// The arguments as shown, each after a space: `--manifest-path` and its
/// path only where the command is shown in `full`.
pub open spec fn shown_args(args: Seq<Seq<char>>, full: bool) -> Seq<char>
    decreases args.len(),
{
    if args.len() == 0 {
        Seq::empty()
    } else if args[0] == "--manifest-path"@ && args.len() >= 2 {
        (if full {
            " --manifest-path "@ + args[1]
        } else {
            Seq::empty()
        }) + shown_args(args.skip(2), full)
    } else {
        " "@ + args[0] + shown_args(args.drop_first(), full)
    }
}

/// Each word after a space.
pub open spec fn spaced(words: Seq<Seq<char>>) -> Seq<char>
    decreases words.len(),
{
    if words.len() == 0 {
        Seq::empty()
    } else {
        spaced(words.drop_last()) + " "@ + words.last()
    }
}

/// The text of a command: the program, the leading arguments, the other
/// arguments (see `shown_args`), ` --features` with the features joined by
/// commas where there are any, and ` --` with the trailing arguments where
/// there are any.
pub open spec fn spec_command_text(
    program: Seq<char>,
    leading: Seq<Seq<char>>,
    args: Seq<Seq<char>>,
    features: Seq<Seq<char>>,
    trailing: Seq<Seq<char>>,
    full: bool,
) -> Seq<char> {
    program + spaced(leading) + shown_args(args, full) + (if features.len() > 0 {
        " --features "@ + join_with(features, ","@)
    } else {
        Seq::empty()
    }) + (if trailing.len() > 0 {
        " --"@ + spaced(trailing)
    } else {
        Seq::empty()
    })
}

/// Appends each word after a space.
fn push_spaced(out: &mut String, words: &Vec<String>)
    ensures
        final(out)@ == old(out)@ + spaced(views(words@)),
{
    let ghost start = out@;
    let ghost wv = views(words@);
    let mut i: usize = 0;
    proof {
        assert(wv.take(0) =~= Seq::<Seq<char>>::empty());
        assert(start + Seq::<char>::empty() =~= start);
    }
    while i < words.len()
        invariant
            i <= words@.len(),
            wv == views(words@),
            out@ == start + spaced(wv.take(i as int)),
        decreases words@.len() - i,
    {
        proof {
            assert(wv.take(i + 1).drop_last() =~= wv.take(i as int));
            assert(wv.take(i + 1).last() == words@[i as int]@);
        }
        out.append(" ");
        out.append(words[i].as_str());
        proof {
            assert(out@ =~= start + spaced(wv.take(i + 1)));
        }
        i = i + 1;
    }
    proof {
        assert(wv.take(words@.len() as int) =~= wv);
    }
}

/// The text of a command (see `spec_command_text`); the program is given as
/// it is to be shown.
pub fn command_text(
    program: &str,
    leading: &Vec<String>,
    args: &Vec<String>,
    features: &Vec<String>,
    trailing: &Vec<String>,
    full: bool,
) -> (res: String)
    requires
        paths_follow(views(args@)),
    ensures
        res@ == spec_command_text(program@, views(leading@), views(args@), views(features@), views(trailing@), full),
{
    let mut out = String::from_str(program);
    push_spaced(&mut out, leading);
    let ghost av = views(args@);
    let ghost base = out@;
    let mut i: usize = 0;
    proof {
        assert(av.skip(0) =~= av);
    }
    while i < args.len()
        invariant
            i <= args@.len(),
            av == views(args@),
            paths_follow(av.skip(i as int)),
            out@ + shown_args(av.skip(i as int), full) == base + shown_args(av, full),
        decreases args@.len() - i,
    {
        let ghost rest = av.skip(i as int);
        proof {
            assert(rest[0] == args@[i as int]@);
        }
        if str_eq(args[i].as_str(), "--manifest-path") {
            proof {
                assert(rest.len() >= 2);
                assert(rest[1] == args@[i + 1]@);
                assert(rest.skip(2) =~= av.skip(i + 2));
            }
            if full {
                out.append(" --manifest-path ");
                out.append(args[i + 1].as_str());
            }
            proof {
                assert(out@ + shown_args(av.skip(i + 2), full) =~= base + shown_args(av, full));
            }
            i = i + 2;
        } else {
            out.append(" ");
            out.append(args[i].as_str());
            proof {
                assert(rest.drop_first() =~= av.skip(i + 1));
                assert(out@ + shown_args(av.skip(i + 1), full) =~= base + shown_args(av, full));
            }
            i = i + 1;
        }
    }
    proof {
        assert(av.skip(args@.len() as int) =~= Seq::<Seq<char>>::empty());
        assert(out@ =~= base + shown_args(av, full));
    }
    let ghost after_args = out@;
    if features.len() > 0 {
        out.append(" --features ");
        let joined = join_strings(features.as_slice(), ",");
        out.append(joined.as_str());
    }
    let ghost after_features = out@;
    proof {
        assert(after_features =~= after_args + (if features@.len() > 0 {
            " --features "@ + join_with(views(features@), ","@)
        } else {
            Seq::empty()
        }));
    }
    if trailing.len() > 0 {
        out.append(" --");
        push_spaced(&mut out, trailing);
    }
    proof {
        assert(out@ =~= after_features + (if trailing@.len() > 0 {
            " --"@ + spaced(views(trailing@))
        } else {
            Seq::empty()
        }));
    }
    out
}

/// Whether `c` is white space as Unicode's `White_Space` property has it,
/// which is what `char::is_whitespace` tests.
pub open spec fn is_white_space(c: char) -> bool {
    ('\u{9}' <= c <= '\u{d}') || c == ' ' || c == '\u{85}' || c == '\u{a0}' || c == '\u{1680}' || ('\u{2000}'
        <= c <= '\u{200a}') || c == '\u{2028}' || c == '\u{2029}' || c == '\u{202f}' || c == '\u{205f}' || c
        == '\u{3000}'
}

/// Whether the text is only white space, as `str::trim_start` leaving
/// nothing tells.
pub open spec fn blank(s: Seq<char>) -> bool {
    forall|i: int| 0 <= i < s.len() ==> is_white_space(#[trigger] s[i])
}

fn is_white_space_exec(c: char) -> (res: bool)
    ensures
        res == is_white_space(c),
{
    ('\u{9}' <= c && c <= '\u{d}') || c == ' ' || c == '\u{85}' || c == '\u{a0}' || c == '\u{1680}' || ('\u{2000}'
        <= c && c <= '\u{200a}') || c == '\u{2028}' || c == '\u{2029}' || c == '\u{202f}' || c == '\u{205f}'
        || c == '\u{3000}'
}

fn is_blank(s: &str) -> (res: bool)
    ensures
        res == blank(s@),
{
    let cs = chars_of(s);
    let mut i: usize = 0;
    while i < cs.len()
        invariant
            i <= cs@.len(),
            cs@ == s@,
            forall|k: int| 0 <= k < i ==> is_white_space(#[trigger] cs@[k]),
        decreases cs@.len() - i,
    {
        if !is_white_space_exec(cs[i]) {
            return false;
        }
        i = i + 1;
    }
    true
}

/// The output of a stream that is shown after a failure: its heading and
/// the text, where it is text that is not blank.
pub open spec fn output_section(heading: Seq<char>, out: Option<Seq<char>>) -> Seq<char> {
    match out {
        Some(t) => if blank(t) {
            Seq::empty()
        } else {
            heading + t
        },
        None => Seq::empty(),
    }
}

/// The message of a process that failed: the message, then the exit
/// status in brackets (or that it never ran), then the standard output and
/// the standard error where they are text and not blank.
pub open spec fn spec_process_error(
    msg: Seq<char>,
    status: Option<Seq<char>>,
    stdout: Option<Seq<char>>,
    stderr: Option<Seq<char>>,
) -> Seq<char> {
    msg + match status {
        Some(st) => " ("@ + st + ")"@,
        None => " (never executed)"@,
    } + output_section("\n--- stdout\n"@, stdout) + output_section("\n--- stderr\n"@, stderr)
}

/// The message of a process that failed (see `spec_process_error`); an
/// output is given where it is UTF-8.
pub fn process_error(msg: &str, status: Option<&str>, stdout: Option<&str>, stderr: Option<&str>) -> (res: String)
    ensures
        res@ == spec_process_error(
            msg@,
            crate::text::opt_str_view(status),
            crate::text::opt_str_view(stdout),
            crate::text::opt_str_view(stderr),
        ),
{
    let mut out = String::from_str(msg);
    match status {
        Some(st) => {
            out.append(" (");
            out.append(st);
            out.append(")");
        },
        None => {
            out.append(" (never executed)");
        },
    }
    let ghost a = out@;
    match stdout {
        Some(t) => {
            if !is_blank(t) {
                out.append("\n--- stdout\n");
                out.append(t);
            }
        },
        None => {},
    }
    proof {
        assert(out@ =~= a + output_section("\n--- stdout\n"@, crate::text::opt_str_view(stdout)));
    }
    let ghost b = out@;
    match stderr {
        Some(t) => {
            if !is_blank(t) {
                out.append("\n--- stderr\n");
                out.append(t);
            }
        },
        None => {},
    }
    proof {
        assert(out@ =~= b + output_section("\n--- stderr\n"@, crate::text::opt_str_view(stderr)));
    }
    out
}

/// The text without its trailing line ends: the `\n` and `\r` at its end
/// are taken off.
pub open spec fn without_line_ends(s: Seq<char>) -> Seq<char>
    decreases s.len(),
{
    if s.len() > 0 && (s.last() == '\n' || s.last() == '\r') {
        without_line_ends(s.drop_last())
    } else {
        s
    }
}

/// The output of a command as it is read: without its trailing line ends.
pub fn trim_line_ends(s: &str) -> (res: String)
    ensures
        res@ == without_line_ends(s@),
{
    let cs = chars_of(s);
    let mut n: usize = cs.len();
    proof {
        assert(cs@.take(n as int) =~= s@);
    }
    while n > 0 && (cs[n - 1] == '\n' || cs[n - 1] == '\r')
        invariant
            n <= cs@.len(),
            cs@ == s@,
            without_line_ends(cs@.take(n as int)) == without_line_ends(s@),
        decreases n,
    {
        proof {
            assert(cs@.take(n as int).drop_last() =~= cs@.take(n - 1));
        }
        n = n - 1;
    }
    proof {
        assert(cs@.take(n as int) =~= cs@.subrange(0, n as int));
    }
    let kept = vstd::slice::slice_subrange(cs.as_slice(), 0, n);
    string_from_chars(kept)
}

} // verus!
