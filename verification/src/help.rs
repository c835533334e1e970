//! The text of `--help` and `-h`.

use vstd::prelude::*;

use crate::cli::{help_line_of, help_lines, help_table, HelpLine, HelpText};
use crate::text::{split_chars, split_on, views};
use vstd::string::StringSliceAdditionalSpecFns;

verus! {

/// Which help to show.
pub struct Help {
    /// The long help, with all descriptions, else the short one.
    pub long: bool,
    /// The width of the terminal.
    pub term_size: usize,
    /// Whether the version follows the name.
    pub print_version: bool,
}

/// The widest the help is written.
pub const MAX_TERM_WIDTH: usize = 100;

/// `n` spaces.
pub open spec fn spaces(n: nat) -> Seq<char> {
    Seq::new(n, |i: int| ' ')
}

/// `s` padded with spaces to `width` characters.
pub open spec fn pad(s: Seq<char>, width: nat) -> Seq<char> {
    if s.len() < width {
        s + spaces((width - s.len()) as nat)
    } else {
        s
    }
}

/// The number of bytes of the UTF-8 encoding of `w`, as `str::len`
/// reports it.
pub open spec fn byte_len(w: Seq<char>) -> int {
    (vstd::utf8::encode_utf8(w).len() as usize) as int
}

/// One word of the wrapping: the text so far and the width of its last line.
pub open spec fn wrap_step(acc: (Seq<char>, int), w: Seq<char>, indent: nat, size: int) -> (Seq<char>, int) {
    let l = byte_len(w);
    if acc.1 + l + 1 >= size {
        (acc.0 + "\n"@ + spaces(indent) + w, l)
    } else if acc.1 == 0 {
        (acc.0 + w, l)
    } else {
        (acc.0 + " "@ + w, acc.1 + l + 1)
    }
}

/// The words written one by one, breaking the line before a word that
/// would reach the width `size`; continuation lines are indented.
pub open spec fn wrap_words(words: Seq<Seq<char>>, indent: nat, size: int) -> (Seq<char>, int)
    decreases words.len(),
{
    if words.len() == 0 {
        (Seq::empty(), 0)
    } else {
        wrap_step(wrap_words(words.drop_last(), indent, size), words.last(), indent, size)
    }
}

/// `desc` wrapped to `term_size`, with its lines indented by `indent`
/// (the first one only when `first_indent`).
pub open spec fn wrap_text(desc: Seq<char>, indent: nat, first_indent: bool, term_size: int) -> Seq<char> {
    (if first_indent { spaces(indent) } else { Seq::empty() }) + wrap_words(split_on(desc, ' '), indent, term_size - indent).0
}

/// The additional descriptions of a long help line.
pub open spec fn additional_text(add: Seq<Seq<char>>, term_size: int) -> Seq<char>
    decreases add.len(),
{
    if add.len() == 0 {
        Seq::empty()
    } else {
        additional_text(add.drop_last(), term_size) + wrap_text(add.last(), 12, true, term_size) + "\n\n"@
    }
}

/// The flag and value name of a help line.
pub open spec fn flag_and_value(h: HelpLine) -> Seq<char> {
    if h.2.len() == 0 {
        h.1
    } else {
        h.1 + " "@ + h.2
    }
}

/// The start of a line of the help: its short flag.
pub open spec fn entry_prefix(h: HelpLine) -> Seq<char> {
    "    "@ + pad(h.0, 2) + (if h.0.len() == 0 { " "@ } else { ","@ }) + " "@
}

/// The rest of a line of the long help.
pub open spec fn long_body(term_size: int, h: HelpLine) -> Seq<char> {
    flag_and_value(h) + "\n"@ + wrap_text(h.3, 12, true, term_size) + ".\n\n"@ + additional_text(h.4, term_size)
}

/// The rest of a line of the short help.
pub open spec fn short_body(term_size: int, h: HelpLine) -> Seq<char> {
    pad(flag_and_value(h), 32) + " "@ + wrap_text(h.3, 41, false, term_size) + "\n"@
}

/// The text of one line of the help.
pub open spec fn entry_text(long: bool, term_size: int, h: HelpLine) -> Seq<char> {
    entry_prefix(h) + if long {
        long_body(term_size, h)
    } else {
        short_body(term_size, h)
    }
}

/// The text of the help lines.
pub open spec fn entries_text(long: bool, term_size: int, t: Seq<HelpLine>) -> Seq<char>
    decreases t.len(),
{
    if t.len() == 0 {
        Seq::empty()
    } else {
        entries_text(long, term_size, t.drop_last()) + entry_text(long, term_size, t.last())
    }
}

/// The header of the help.
pub open spec fn header_text(name: Seq<char>, version: Seq<char>, description: Seq<char>, print_version: bool) -> Seq<char> {
    name + (if print_version { " "@ + version } else { Seq::empty() }) + "\n"@ + description
        + "\nUSAGE:\n    cargo hack [OPTIONS] [SUBCOMMAND]\n\nUse -h for short descriptions and --help for more details.\n\nOPTIONS:\n"@
}

/// The end of the help.
pub open spec fn footer_text() -> Seq<char> {
    "Some common cargo commands are (see all commands with --list):\n    build       Compile the current package\n    check       Analyze the current package and report errors, but don't build object files\n    run         Run a binary or example of the local package\n    test        Run the tests\n"@
}

/// The whole help for the help lines `t`.
pub open spec fn help_text(help: Help, t: Seq<HelpLine>, name: Seq<char>, version: Seq<char>, description: Seq<char>) -> Seq<char> {
    header_text(name, version, description, help.print_version) + entries_text(help.long, help.term_size as int, t)
        + (if help.long { Seq::<char>::empty() } else { "\n"@ }) + footer_text()
}

fn push_spaces(s: &mut String, n: usize)
    ensures
        final(s)@ == old(s)@ + spaces(n as nat),
{
    let ghost start = s@;
    let mut i: usize = 0;
    proof {
        reveal_strlit(" ");
        assert(start + spaces(0) =~= start);
    }
    while i < n
        invariant
            i <= n,
            s@ == start + spaces(i as nat),
            " "@ == seq![' '],
        decreases n - i,
    {
        s.append(" ");
        i = i + 1;
        proof {
            assert(s@ =~= start + spaces(i as nat));
        }
    }
}

/// Appends `text` padded to `width` characters.
fn push_padded(s: &mut String, text: &str, width: usize)
    ensures
        final(s)@ == old(s)@ + pad(text@, width as nat),
{
    let n = text.unicode_len();
    s.append(text);
    if n < width {
        push_spaces(s, width - n);
    }
}

/// Appends `desc` wrapped as [`wrap_text`] says.
fn push_wrapped(s: &mut String, indent: usize, first_indent: bool, term_size: usize, desc: &str)
    requires
        indent <= term_size,
    ensures
        final(s)@ == old(s)@ + wrap_text(desc@, indent as nat, first_indent, term_size as int),
{
    let ghost start = s@;
    if first_indent {
        push_spaces(s, indent);
    }
    let ghost base = s@;
    let words = split_chars(desc, ' ');
    let ghost ws = views(words@);
    let size = term_size - indent;
    let mut written: usize = 0;
    let mut i: usize = 0;
    proof {
        assert(ws.take(0) =~= Seq::<Seq<char>>::empty());
        assert(base + wrap_words(ws.take(0), indent as nat, size as int).0 =~= base);
    }
    while i < words.len()
        invariant
            ws == views(words@),
            ws == split_on(desc@, ' '),
            i <= ws.len(),
            size == term_size - indent,
            s@ == base + wrap_words(ws.take(i as int), indent as nat, size as int).0,
            written as int == wrap_words(ws.take(i as int), indent as nat, size as int).1,
        decreases words.len() - i,
    {
        let w = words[i].as_str();
        let l = w.len();
        proof {
            assert(ws[i as int] == words@[i as int]@);
            assert(ws.take(i as int + 1).drop_last() =~= ws.take(i as int));
            assert(ws.take(i as int + 1).last() == ws[i as int]);
            assert(l as int == byte_len(w@)) by {
                assert(w.spec_bytes() == vstd::utf8::encode_utf8(w@));
            }
        }
        let breaks = if l >= size { true } else { written >= size - l - 1 };
        if breaks {
            s.append("\n");
            push_spaces(s, indent);
            s.append(w);
            written = l;
        } else if written == 0 {
            s.append(w);
            written = l;
        } else {
            s.append(" ");
            s.append(w);
            written = written + l + 1;
        }
        i = i + 1;
        proof {
            assert(s@ =~= base + wrap_words(ws.take(i as int), indent as nat, size as int).0);
        }
    }
    proof {
        assert(ws.take(ws.len() as int) =~= ws);
    }
}

/// Appends the short flag of a line of the help.
fn push_entry_prefix(s: &mut String, h: &HelpText)
    ensures
        final(s)@ == old(s)@ + entry_prefix(help_line_of(*h)),
{
    let ghost before = s@;
    s.append("    ");
    push_padded(s, h.short, 2);
    if h.short.is_empty() {
        s.append(" ");
    } else {
        s.append(",");
    }
    s.append(" ");
    proof {
        assert(s@ =~= before + entry_prefix(help_line_of(*h)));
    }
}

/// The flag and value name of a help line.
fn flag_and_value_exec(h: &HelpText) -> (res: String)
    ensures
        res@ == flag_and_value(help_line_of(*h)),
{
    let mut fv = String::from_str(h.long);
    if !h.value_name.is_empty() {
        fv.append(" ");
        fv.append(h.value_name);
    }
    fv
}

/// Appends the rest of a line of the long help.
fn push_long_body(s: &mut String, term_size: usize, h: &HelpText)
    requires
        term_size >= 41,
    ensures
        final(s)@ == old(s)@ + long_body(term_size as int, help_line_of(*h)),
{
    let ghost before = s@;
    let fv = flag_and_value_exec(h);
    s.append(fv.as_str());
    s.append("\n");
    push_wrapped(s, 12, true, term_size, h.desc);
    s.append(".\n\n");
    let ghost mid = s@;
    let ghost adds = help_line_of(*h).4;
    let mut k: usize = 0;
    proof {
        assert(adds.take(0) =~= Seq::<Seq<char>>::empty());
        assert(mid + additional_text(adds.take(0), term_size as int) =~= mid);
    }
    while k < h.additional.len()
        invariant
            k <= h.additional@.len(),
            term_size >= 41,
            adds == h.additional@.map_values(|a: &str| a@),
            s@ == mid + additional_text(adds.take(k as int), term_size as int),
        decreases h.additional.len() - k,
    {
        push_wrapped(s, 12, true, term_size, h.additional[k]);
        s.append("\n\n");
        proof {
            assert(adds.take(k as int + 1).drop_last() =~= adds.take(k as int));
            assert(adds.take(k as int + 1).last() == h.additional@[k as int]@);
        }
        k = k + 1;
    }
    proof {
        assert(adds.take(h.additional@.len() as int) =~= adds);
        assert(s@ =~= before + long_body(term_size as int, help_line_of(*h)));
    }
}

/// Appends the rest of a line of the short help.
fn push_short_body(s: &mut String, term_size: usize, h: &HelpText)
    requires
        term_size >= 41,
    ensures
        final(s)@ == old(s)@ + short_body(term_size as int, help_line_of(*h)),
{
    let ghost before = s@;
    let fv = flag_and_value_exec(h);
    push_padded(s, fv.as_str(), 32);
    s.append(" ");
    push_wrapped(s, 41, false, term_size, h.desc);
    s.append("\n");
    proof {
        assert(s@ =~= before + short_body(term_size as int, help_line_of(*h)));
    }
}

/// Appends one line of the help.
fn push_entry(s: &mut String, long: bool, term_size: usize, h: &HelpText)
    requires
        term_size >= 41,
    ensures
        final(s)@ == old(s)@ + entry_text(long, term_size as int, help_line_of(*h)),
{
    let ghost before = s@;
    push_entry_prefix(s, h);
    if long {
        push_long_body(s, term_size, h);
    } else {
        push_short_body(s, term_size, h);
    }
    proof {
        assert(s@ =~= before + entry_text(long, term_size as int, help_line_of(*h)));
    }
}

impl Help {
    /// The long help.
    pub fn long() -> (res: Help)
        ensures
            res == (Help { long: true, term_size: MAX_TERM_WIDTH, print_version: true }),
    {
        Help { long: true, term_size: MAX_TERM_WIDTH, print_version: true }
    }

    /// The short help.
    pub fn short() -> (res: Help)
        ensures
            res == (Help { long: false, term_size: MAX_TERM_WIDTH, print_version: true }),
    {
        Help { long: false, term_size: MAX_TERM_WIDTH, print_version: true }
    }

    /// The help for the lines `table`, headed by the program's `name`,
    /// `version` and `description`.
    pub fn render_with(&self, table: &Vec<HelpText>, name: &str, version: &str, description: &str) -> (res: String)
        requires
            self.term_size >= 41,
        ensures
            res@ == help_text(*self, table@.map_values(|h: HelpText| help_line_of(h)), name@, version@, description@),
    {
        let mut s = String::from_str(name);
        if self.print_version {
            s.append(" ");
            s.append(version);
        }
        s.append("\n");
        s.append(description);
        s.append("\nUSAGE:\n    cargo hack [OPTIONS] [SUBCOMMAND]\n\nUse -h for short descriptions and --help for more details.\n\nOPTIONS:\n");
        let ghost head = s@;
        let ghost tv = table@.map_values(|h: HelpText| help_line_of(h));
        let mut i: usize = 0;
        proof {
            assert(tv.take(0) =~= Seq::<HelpLine>::empty());
            assert(head + entries_text(self.long, self.term_size as int, tv.take(0)) =~= head);
        }
        while i < table.len()
            invariant
                i <= table@.len(),
                self.term_size >= 41,
                tv == table@.map_values(|h: HelpText| help_line_of(h)),
                s@ == head + entries_text(self.long, self.term_size as int, tv.take(i as int)),
            decreases table.len() - i,
        {
            let h = &table[i];
            push_entry(&mut s, self.long, self.term_size, h);
            proof {
                assert(tv.take(i as int + 1).drop_last() =~= tv.take(i as int));
                assert(tv.take(i as int + 1).last() == help_line_of(table@[i as int]));
            }
            i = i + 1;
        }
        proof {
            assert(tv.take(table@.len() as int) =~= tv);
        }
        if !self.long {
            s.append("\n");
        }
        s.append("Some common cargo commands are (see all commands with --list):\n    build       Compile the current package\n    check       Analyze the current package and report errors, but don't build object files\n    run         Run a binary or example of the local package\n    test        Run the tests\n");
        s
    }

    /// The help for the program's flags (the lines of [`help_table`]),
    /// headed by the program's `name`, `version` and `description`.
    pub fn render(&self, name: &str, version: &str, description: &str) -> (res: String)
        requires
            self.term_size >= 41,
        ensures
            res@ == help_text(*self, help_lines(), name@, version@, description@),
    {
        let table = help_table();
        self.render_with(&table, name, version, description)
    }
}

} // verus!
