//! Reading the command line: each argument, as a tokenizer hands it over,
//! updates the state of the parse.

use vstd::prelude::*;

use crate::cli::{
    flag_text, group_list_message, group_parts, mini_usage_message, multi_arg, multi_arg_message,
    removed_flags, replacement_of, requires_message, similar_flag, similar_flags, similar_message,
    OwnedFlag,
};
use crate::features::{join_commas, Feature};
use crate::version::{int_error_message, parse_usize};
use crate::error::Error;
use crate::feature_map::clone_strings;
use crate::text::{chars_of, has_char, has_prefix, split_chars, split_on, str_eq, views};

verus! {

/// An argument of the command line: a long flag (its name without `--`), a
/// short flag, or a value that belongs to no flag.
pub enum Token {
    Long(String),
    Short(char),
    Value(String),
}

/// An argument of the command line as plain values.
pub enum TokenView {
    Long(Seq<char>),
    Short(char),
    Value(Seq<char>),
}

impl View for Token {
    type V = TokenView;

    open spec fn view(&self) -> TokenView {
        match self {
            Token::Long(n) => TokenView::Long(n@),
            Token::Short(c) => TokenView::Short(*c),
            Token::Value(v) => TokenView::Value(v@),
        }
    }
}

/// The lists that the parse collects.
pub const CARGO_ARGS: usize = 0;
pub const PACKAGE: usize = 1;
pub const EXCLUDE: usize = 2;
pub const FEATURES: usize = 3;
pub const EXCLUDE_FEATURES: usize = 4;
pub const INCLUDE_FEATURES: usize = 5;
pub const GROUP_FEATURES: usize = 6;
pub const AT_LEAST_ONE_OF: usize = 7;
pub const TARGET: usize = 8;
pub const N_LISTS: usize = 9;

/// The options that take one value.
pub const SUBCOMMAND: usize = 0;
pub const MANIFEST_PATH: usize = 1;
pub const COLOR: usize = 2;
pub const VERSION_RANGE: usize = 3;
pub const VERSION_STEP: usize = 4;
pub const DEPTH: usize = 5;
pub const N_OPTS: usize = 6;

/// The flags.
pub const WORKSPACE: usize = 0;
pub const NO_DEV_DEPS: usize = 1;
pub const REMOVE_DEV_DEPS: usize = 2;
pub const EACH_FEATURE: usize = 3;
pub const FEATURE_POWERSET: usize = 4;
pub const NO_PRIVATE: usize = 5;
pub const IGNORE_PRIVATE: usize = 6;
pub const IGNORE_UNKNOWN_FEATURES: usize = 7;
pub const CLEAN_PER_RUN: usize = 8;
pub const CLEAN_PER_VERSION: usize = 9;
pub const KEEP_GOING: usize = 10;
pub const PRINT_COMMAND_LIST: usize = 11;
pub const NO_MANIFEST_PATH: usize = 12;
pub const INCLUDE_DEPS_FEATURES: usize = 13;
pub const EXCLUDE_NO_DEFAULT_FEATURES: usize = 14;
pub const EXCLUDE_ALL_FEATURES: usize = 15;
pub const NO_DEFAULT_FEATURES: usize = 16;
pub const ALL_FEATURES: usize = 17;
pub const N_FLAGS: usize = 18;

/// What an argument does.
#[derive(Clone, Copy, PartialEq, Eq, Structural, Debug)]
pub enum Action {
    /// Sets the option, given once; passed on to cargo where `true`.
    Opt(usize, bool),
    /// Adds a target.
    Target,
    /// Adds its value to the list.
    Push(usize),
    /// Adds the features its value lists.
    Multi(usize),
    /// Names optional dependencies, perhaps none.
    OptionalDeps,
    /// Sets the flag, given once.
    Flag(usize),
    /// One more level of verbosity.
    Verbose,
    /// Sets the flag and is passed on to cargo.
    Propagated(usize),
    /// Prints the short help.
    ShortHelp,
    /// Prints the long help.
    LongHelp,
    /// Prints the version.
    Version,
    /// A long flag passed on to cargo.
    PassLong,
    /// A short flag passed on to cargo.
    PassShort,
    /// The subcommand, or an argument passed on to cargo.
    Positional,
}

/// Whether an argument takes a value.
#[derive(Clone, Copy, PartialEq, Eq, Structural, Debug)]
pub enum Need {
    /// No value.
    Nothing,
    /// The next argument is its value.
    Required,
    /// A value attached with `=` (or the rest of a group of short flags),
    /// if any.
    Optional,
    /// A value attached with `=`, else the next argument where it is no
    /// flag.
    OptionalOrNext,
}

/// What to do after an argument.
#[derive(Clone, Copy, PartialEq, Eq, Structural, Debug)]
pub enum Step {
    Continue,
    PrintShortHelp,
    PrintLongHelp,
    PrintVersion,
}

/// What an argument does; `-h`, `--help`, `-V` and `--version` ask for
/// help or the version only before a subcommand.
pub open spec fn spec_classify(tok: TokenView, no_subcommand: bool) -> Action {
    match tok {
        TokenView::Long(n) => {
            if n == "color"@ {
                Action::Opt(COLOR, true)
            } else if n == "target"@ {
                Action::Target
            } else if n == "manifest-path"@ {
                Action::Opt(MANIFEST_PATH, false)
            } else if n == "depth"@ {
                Action::Opt(DEPTH, false)
            } else if n == "version-range"@ {
                Action::Opt(VERSION_RANGE, false)
            } else if n == "version-step"@ {
                Action::Opt(VERSION_STEP, false)
            } else if n == "package"@ {
                Action::Push(PACKAGE)
            } else if n == "exclude"@ {
                Action::Push(EXCLUDE)
            } else if n == "group-features"@ {
                Action::Push(GROUP_FEATURES)
            } else if n == "features"@ {
                Action::Multi(FEATURES)
            } else if n == "skip"@ || n == "exclude-features"@ {
                Action::Multi(EXCLUDE_FEATURES)
            } else if n == "include-features"@ {
                Action::Multi(INCLUDE_FEATURES)
            } else if n == "optional-deps"@ {
                Action::OptionalDeps
            } else if n == "workspace"@ || n == "all"@ {
                Action::Flag(WORKSPACE)
            } else if n == "no-dev-deps"@ {
                Action::Flag(NO_DEV_DEPS)
            } else if n == "remove-dev-deps"@ {
                Action::Flag(REMOVE_DEV_DEPS)
            } else if n == "each-feature"@ {
                Action::Flag(EACH_FEATURE)
            } else if n == "feature-powerset"@ {
                Action::Flag(FEATURE_POWERSET)
            } else if n == "at-least-one-of"@ {
                Action::Push(AT_LEAST_ONE_OF)
            } else if n == "no-private"@ {
                Action::Flag(NO_PRIVATE)
            } else if n == "ignore-private"@ {
                Action::Flag(IGNORE_PRIVATE)
            } else if n == "exclude-no-default-features"@ {
                Action::Flag(EXCLUDE_NO_DEFAULT_FEATURES)
            } else if n == "exclude-all-features"@ {
                Action::Flag(EXCLUDE_ALL_FEATURES)
            } else if n == "include-deps-features"@ {
                Action::Flag(INCLUDE_DEPS_FEATURES)
            } else if n == "clean-per-run"@ {
                Action::Flag(CLEAN_PER_RUN)
            } else if n == "clean-per-version"@ {
                Action::Flag(CLEAN_PER_VERSION)
            } else if n == "keep-going"@ {
                Action::Flag(KEEP_GOING)
            } else if n == "print-command-list"@ {
                Action::Flag(PRINT_COMMAND_LIST)
            } else if n == "no-manifest-path"@ {
                Action::Flag(NO_MANIFEST_PATH)
            } else if n == "ignore-unknown-features"@ {
                Action::Flag(IGNORE_UNKNOWN_FEATURES)
            } else if n == "verbose"@ {
                Action::Verbose
            } else if n == "no-default-features"@ {
                Action::Propagated(NO_DEFAULT_FEATURES)
            } else if n == "all-features"@ {
                Action::Propagated(ALL_FEATURES)
            } else if n == "help"@ && no_subcommand {
                Action::LongHelp
            } else if n == "version"@ && no_subcommand {
                Action::Version
            } else {
                Action::PassLong
            }
        },
        TokenView::Short(c) => {
            if c == 'p' {
                Action::Push(PACKAGE)
            } else if c == 'F' {
                Action::Multi(FEATURES)
            } else if c == 'v' {
                Action::Verbose
            } else if c == 'h' && no_subcommand {
                Action::ShortHelp
            } else if c == 'V' && no_subcommand {
                Action::Version
            } else {
                Action::PassShort
            }
        },
        TokenView::Value(_) => Action::Positional,
    }
}

/// What an argument does.
pub fn classify(tok: &Token, no_subcommand: bool) -> (res: Action)
    ensures
        res == spec_classify(tok@, no_subcommand),
{
    match tok {
        Token::Long(n) => {
            let n = n.as_str();
            if str_eq(n, "color") {
                Action::Opt(COLOR, true)
            } else if str_eq(n, "target") {
                Action::Target
            } else if str_eq(n, "manifest-path") {
                Action::Opt(MANIFEST_PATH, false)
            } else if str_eq(n, "depth") {
                Action::Opt(DEPTH, false)
            } else if str_eq(n, "version-range") {
                Action::Opt(VERSION_RANGE, false)
            } else if str_eq(n, "version-step") {
                Action::Opt(VERSION_STEP, false)
            } else if str_eq(n, "package") {
                Action::Push(PACKAGE)
            } else if str_eq(n, "exclude") {
                Action::Push(EXCLUDE)
            } else if str_eq(n, "group-features") {
                Action::Push(GROUP_FEATURES)
            } else if str_eq(n, "features") {
                Action::Multi(FEATURES)
            } else if str_eq(n, "skip") || str_eq(n, "exclude-features") {
                Action::Multi(EXCLUDE_FEATURES)
            } else if str_eq(n, "include-features") {
                Action::Multi(INCLUDE_FEATURES)
            } else if str_eq(n, "optional-deps") {
                Action::OptionalDeps
            } else if str_eq(n, "workspace") || str_eq(n, "all") {
                Action::Flag(WORKSPACE)
            } else if str_eq(n, "no-dev-deps") {
                Action::Flag(NO_DEV_DEPS)
            } else if str_eq(n, "remove-dev-deps") {
                Action::Flag(REMOVE_DEV_DEPS)
            } else if str_eq(n, "each-feature") {
                Action::Flag(EACH_FEATURE)
            } else if str_eq(n, "feature-powerset") {
                Action::Flag(FEATURE_POWERSET)
            } else if str_eq(n, "at-least-one-of") {
                Action::Push(AT_LEAST_ONE_OF)
            } else if str_eq(n, "no-private") {
                Action::Flag(NO_PRIVATE)
            } else if str_eq(n, "ignore-private") {
                Action::Flag(IGNORE_PRIVATE)
            } else if str_eq(n, "exclude-no-default-features") {
                Action::Flag(EXCLUDE_NO_DEFAULT_FEATURES)
            } else if str_eq(n, "exclude-all-features") {
                Action::Flag(EXCLUDE_ALL_FEATURES)
            } else if str_eq(n, "include-deps-features") {
                Action::Flag(INCLUDE_DEPS_FEATURES)
            } else if str_eq(n, "clean-per-run") {
                Action::Flag(CLEAN_PER_RUN)
            } else if str_eq(n, "clean-per-version") {
                Action::Flag(CLEAN_PER_VERSION)
            } else if str_eq(n, "keep-going") {
                Action::Flag(KEEP_GOING)
            } else if str_eq(n, "print-command-list") {
                Action::Flag(PRINT_COMMAND_LIST)
            } else if str_eq(n, "no-manifest-path") {
                Action::Flag(NO_MANIFEST_PATH)
            } else if str_eq(n, "ignore-unknown-features") {
                Action::Flag(IGNORE_UNKNOWN_FEATURES)
            } else if str_eq(n, "verbose") {
                Action::Verbose
            } else if str_eq(n, "no-default-features") {
                Action::Propagated(NO_DEFAULT_FEATURES)
            } else if str_eq(n, "all-features") {
                Action::Propagated(ALL_FEATURES)
            } else if str_eq(n, "help") && no_subcommand {
                Action::LongHelp
            } else if str_eq(n, "version") && no_subcommand {
                Action::Version
            } else {
                Action::PassLong
            }
        },
        Token::Short(c) => {
            let c = *c;
            if c == 'p' {
                Action::Push(PACKAGE)
            } else if c == 'F' {
                Action::Multi(FEATURES)
            } else if c == 'v' {
                Action::Verbose
            } else if c == 'h' && no_subcommand {
                Action::ShortHelp
            } else if c == 'V' && no_subcommand {
                Action::Version
            } else {
                Action::PassShort
            }
        },
        Token::Value(_) => Action::Positional,
    }
}

/// How an argument that is a flag is written.
pub open spec fn token_text(tok: TokenView) -> Seq<char> {
    match tok {
        TokenView::Long(n) => "--"@ + n,
        TokenView::Short(c) => "-"@ + seq![c],
        TokenView::Value(v) => v,
    }
}

/// A value wrapped in matching single or double quotes.
pub open spec fn quoted(v: Seq<char>) -> bool {
    v.len() > 0 && ((v[0] == '\'' && v.last() == '\'') || (v[0] == '"' && v.last() == '"'))
}

/// A value without its surrounding quotes.
pub open spec fn unquote(v: Seq<char>) -> Seq<char> {
    if quoted(v) {
        v.subrange(1, v.len() - 1)
    } else {
        v
    }
}

/// The separator of a list of values: `,` where the list holds one, else
/// a space.
pub open spec fn list_sep(v: Seq<char>) -> char {
    if v.contains(',') {
        ','
    } else {
        ' '
    }
}

/// Whether a piece of a list is not empty.
pub open spec fn non_empty_fn() -> spec_fn(Seq<char>) -> bool {
    |p: Seq<char>| p.len() > 0
}

/// The features that the value of `--features` and the like lists: the
/// value, without quotes, split at its separator, without empty pieces.
pub open spec fn multi_values(v: Seq<char>) -> Seq<Seq<char>> {
    split_on(unquote(v), list_sep(unquote(v))).filter(non_empty_fn())
}

/// The dependencies that the value of `--optional-deps` lists: the value,
/// without quotes, split at its separator.
pub open spec fn dep_values(v: Seq<char>) -> Seq<Seq<char>> {
    split_on(unquote(v), list_sep(unquote(v)))
}

/// The state of the parse as plain values.
pub struct ArgsView {
    pub flags: Seq<bool>,
    pub verbose: nat,
    pub lists: Seq<Seq<Seq<char>>>,
    pub opts: Seq<Option<Seq<char>>>,
    pub optional_deps: Option<Seq<Seq<char>>>,
}

/// The state of the parse: the flags given, how verbose, the lists
/// collected, the options with one value, and the optional dependencies.
pub struct ArgsState {
    flags: Vec<bool>,
    verbose: usize,
    lists: Vec<Vec<String>>,
    opts: Vec<Option<String>>,
    optional_deps: Option<Vec<String>>,
}

/// The texts of optional strings.
pub open spec fn opts_view(v: Seq<Option<String>>) -> Seq<Option<Seq<char>>> {
    v.map_values(|o: Option<String>| crate::text::opt_view(o))
}

/// The texts of lists of strings.
pub open spec fn lists_view(v: Seq<Vec<String>>) -> Seq<Seq<Seq<char>>> {
    v.map_values(|l: Vec<String>| views(l@))
}

impl View for ArgsState {
    type V = ArgsView;

    closed spec fn view(&self) -> ArgsView {
        ArgsView {
            flags: self.flags@,
            verbose: self.verbose as nat,
            lists: lists_view(self.lists@),
            opts: opts_view(self.opts@),
            optional_deps: match self.optional_deps {
                Some(v) => Some(views(v@)),
                None => None,
            },
        }
    }
}

/// The parse is made of as many flags, lists and options as there are.
pub open spec fn shaped(st: ArgsView) -> bool {
    st.flags.len() == N_FLAGS && st.lists.len() == N_LISTS && st.opts.len() == N_OPTS
}

/// What an argument asks before its value is read: an error for a flag
/// given twice, a removed flag or a mistyped one; else whether and how it
/// takes a value.
pub open spec fn spec_begin(st: ArgsView, tok: TokenView) -> Result<Need, Seq<char>> {
    let sub = st.opts[SUBCOMMAND as int];
    let multi = multi_arg_message(token_text(tok), sub);
    match spec_classify(tok, sub is None) {
        Action::Opt(i, _) => if st.opts[i as int] is Some {
            Err(multi)
        } else {
            Ok(Need::Required)
        },
        Action::Target => Ok(Need::Required),
        Action::Push(_) => Ok(Need::Required),
        Action::Multi(_) => Ok(Need::Required),
        Action::OptionalDeps => if st.optional_deps is Some {
            Err(multi)
        } else {
            Ok(Need::OptionalOrNext)
        },
        Action::Flag(i) => if st.flags[i as int] {
            Err(multi)
        } else {
            Ok(Need::Nothing)
        },
        Action::PassLong => {
            let n = match tok {
                TokenView::Long(n) => n,
                _ => Seq::empty(),
            };
            match replacement_of(n) {
                Some(alt) => Err("--"@ + n + " was removed, use "@ + alt + " instead"@),
                None => match similar_flag(n) {
                    Some(expected) => Err(similar_message("--"@ + n, sub, expected)),
                    None => Ok(Need::Optional),
                },
            }
        },
        Action::PassShort => match tok {
            TokenView::Short(c) => if c == 'q' || c == 'r' {
                Ok(Need::Nothing)
            } else {
                Ok(Need::Optional)
            },
            _ => Ok(Need::Nothing),
        },
        _ => Ok(Need::Nothing),
    }
}

/// Whether the value handed over fits what the argument takes.
pub open spec fn value_fits(need: Need, value: Option<Seq<char>>) -> bool {
    match need {
        Need::Nothing => value is None,
        Need::Required => value is Some,
        _ => true,
    }
}

/// The state with the list `i` extended by `items`.
pub open spec fn extend_list(st: ArgsView, i: int, items: Seq<Seq<char>>) -> ArgsView {
    ArgsView { lists: st.lists.update(i, st.lists[i] + items), ..st }
}

/// What an argument does to the state of the parse, with the value
/// handed over for it.
pub open spec fn spec_apply(st: ArgsView, tok: TokenView, value: Option<Seq<char>>) -> (ArgsView, Step) {
    let sub = st.opts[SUBCOMMAND as int];
    let v = match value {
        Some(v) => v,
        None => Seq::empty(),
    };
    match spec_classify(tok, sub is None) {
        Action::Opt(i, propagate) => {
            let st2 = ArgsView { opts: st.opts.update(i as int, Some(v)), ..st };
            if propagate {
                (extend_list(st2, CARGO_ARGS as int, seq![token_text(tok), v]), Step::Continue)
            } else {
                (st2, Step::Continue)
            }
        },
        Action::Target => (extend_list(st, TARGET as int, seq![v]), Step::Continue),
        Action::Push(i) => (extend_list(st, i as int, seq![v]), Step::Continue),
        Action::Multi(i) => (extend_list(st, i as int, multi_values(v)), Step::Continue),
        Action::OptionalDeps => {
            let before = match st.optional_deps {
                Some(d) => d,
                None => Seq::empty(),
            };
            let added = match value {
                Some(v) => dep_values(v),
                None => Seq::empty(),
            };
            (ArgsView { optional_deps: Some(before + added), ..st }, Step::Continue)
        },
        Action::Flag(i) => (ArgsView { flags: st.flags.update(i as int, true), ..st }, Step::Continue),
        Action::Verbose => (ArgsView { verbose: st.verbose + 1, ..st }, Step::Continue),
        Action::Propagated(i) => {
            let flag = if i == NO_DEFAULT_FEATURES {
                "--no-default-features"@
            } else {
                "--all-features"@
            };
            (
                extend_list(
                    ArgsView { flags: st.flags.update(i as int, true), ..st },
                    CARGO_ARGS as int,
                    seq![flag],
                ),
                Step::Continue,
            )
        },
        Action::ShortHelp => (st, Step::PrintShortHelp),
        Action::LongHelp => (st, Step::PrintLongHelp),
        Action::Version => (st, Step::PrintVersion),
        Action::PassLong => {
            let arg = match value {
                Some(v) => token_text(tok) + "="@ + v,
                None => token_text(tok),
            };
            (extend_list(st, CARGO_ARGS as int, seq![arg]), Step::Continue)
        },
        Action::PassShort => (extend_list(st, CARGO_ARGS as int, seq![token_text(tok) + v]), Step::Continue),
        Action::Positional => {
            let val = token_text(tok);
            let st2 = if sub is None {
                ArgsView { opts: st.opts.update(SUBCOMMAND as int, Some(val)), ..st }
            } else {
                st
            };
            (extend_list(st2, CARGO_ARGS as int, seq![val]), Step::Continue)
        },
    }
}

} // verus!

verus! {

/// The value, without surrounding quotes.
fn unquote_exec(v: &str) -> (res: String)
    requires
        !(quoted(v@) && v@.len() < 2),
    ensures
        res@ == unquote(v@),
{
    let cs = chars_of(v);
    let n = cs.len();
    if n > 0 && ((cs[0] == '\'' && cs[n - 1] == '\'') || (cs[0] == '"' && cs[n - 1] == '"')) {
        let r = crate::pattern::chars_between(cs.as_slice(), 1, n - 1);
        r
    } else {
        String::from_str(v)
    }
}

/// The pieces of a list value, split at its separator.
fn split_list(v: &str) -> (res: Vec<String>)
    requires
        !(quoted(v@) && v@.len() < 2),
    ensures
        views(res@) == dep_values(v@),
{
    let u = unquote_exec(v);
    let sep = if has_char(u.as_str(), ',') {
        ','
    } else {
        ' '
    };
    split_chars(u.as_str(), sep)
}

/// The non-empty pieces of a list value.
fn multi_values_exec(v: &str) -> (res: Vec<String>)
    requires
        !(quoted(v@) && v@.len() < 2),
    ensures
        views(res@) == multi_values(v@),
{
    let parts = split_list(v);
    let ghost all = views(parts@);
    let mut res: Vec<String> = Vec::new();
    let mut i: usize = 0;
    proof {
        reveal(Seq::filter);
        assert(all.take(0).filter(non_empty_fn()) =~= Seq::<Seq<char>>::empty());
    }
    while i < parts.len()
        invariant
            i <= parts@.len(),
            all == views(parts@),
            views(res@) == all.take(i as int).filter(non_empty_fn()),
        decreases parts@.len() - i,
    {
        proof {
            reveal(Seq::filter);
            assert(all.take(i + 1).drop_last() =~= all.take(i as int));
            assert(all.take(i + 1).last() == parts@[i as int]@);
        }
        let ghost before = res@;
        if !parts[i].as_str().is_empty() {
            let p = String::from_str(parts[i].as_str());
            res.push(p);
            proof {
                assert(views(res@) =~= views(before).push(p@));
            }
        }
        i = i + 1;
    }
    proof {
        assert(all.take(parts@.len() as int) =~= all);
    }
    res
}

impl ArgsState {
    /// Nothing read yet.
    pub fn new() -> (res: ArgsState)
        ensures
            shaped(res@),
            forall|i: int| 0 <= i < N_FLAGS ==> !#[trigger] res@.flags[i],
            forall|i: int| 0 <= i < N_LISTS ==> #[trigger] res@.lists[i] == Seq::<Seq<char>>::empty(),
            forall|i: int| 0 <= i < N_OPTS ==> #[trigger] res@.opts[i] is None,
            res@.verbose == 0,
            res@.optional_deps is None,
    {
        let mut flags: Vec<bool> = Vec::new();
        let mut k: usize = 0;
        while k < N_FLAGS
            invariant
                k <= N_FLAGS,
                flags@.len() == k,
                forall|i: int| 0 <= i < k ==> !#[trigger] flags@[i],
            decreases N_FLAGS - k,
        {
            flags.push(false);
            k = k + 1;
        }
        let mut lists: Vec<Vec<String>> = Vec::new();
        let mut k: usize = 0;
        while k < N_LISTS
            invariant
                k <= N_LISTS,
                lists@.len() == k,
                forall|i: int| 0 <= i < k ==> (#[trigger] lists@[i])@.len() == 0,
            decreases N_LISTS - k,
        {
            lists.push(Vec::new());
            k = k + 1;
        }
        let mut opts: Vec<Option<String>> = Vec::new();
        let mut k: usize = 0;
        while k < N_OPTS
            invariant
                k <= N_OPTS,
                opts@.len() == k,
                forall|i: int| 0 <= i < k ==> #[trigger] opts@[i] is None,
            decreases N_OPTS - k,
        {
            opts.push(None);
            k = k + 1;
        }
        let res = ArgsState { flags, verbose: 0, lists, opts, optional_deps: None };
        proof {
            assert forall|i: int| 0 <= i < N_LISTS implies #[trigger] res@.lists[i] == Seq::<
                Seq<char>,
            >::empty() by {
                assert(views(res.lists@[i]@) =~= Seq::<Seq<char>>::empty());
            }
        }
        res
    }

    /// The subcommand read so far.
    fn subcommand(&self) -> (res: Option<&str>)
        requires
            shaped(self@),
        ensures
            crate::cli::sub_view(res) == self@.opts[SUBCOMMAND as int],
    {
        match &self.opts[SUBCOMMAND] {
            Some(s) => Some(s.as_str()),
            None => None,
        }
    }

    /// Extends the list `i` by `items`.
    fn extend(&mut self, i: usize, items: Vec<String>)
        requires
            i < N_LISTS,
            shaped(old(self)@),
        ensures
            final(self)@ == extend_list(old(self)@, i as int, views(items@)),
            shaped(final(self)@),
    {
        let ghost before = self@;
        let mut l = clone_strings(&self.lists[i]);
        let mut k: usize = 0;
        let ghost start = views(l@);
        while k < items.len()
            invariant
                k <= items@.len(),
                views(l@) == start + views(items@).take(k as int),
            decreases items@.len() - k,
        {
            let ghost prev = l@;
            l.push(String::from_str(items[k].as_str()));
            k = k + 1;
            proof {
                assert(views(l@) =~= views(prev).push(items@[k - 1]@));
                assert(views(items@).take(k as int) =~= views(items@).take(k - 1).push(
                    items@[k - 1]@,
                ));
            }
        }
        proof {
            assert(views(items@).take(items@.len() as int) =~= views(items@));
        }
        self.lists.set(i, l);
        proof {
            assert(self@.lists =~= before.lists.update(i as int, before.lists[i as int] + views(items@)));
            assert(self@.opts =~= before.opts);
        }
    }

    /// The flag of an argument, to name it in an error.
    fn owned_flag(tok: &Token) -> (res: OwnedFlag)
        requires
            !(tok is Value),
        ensures
            flag_text(res) == token_text(tok@),
    {
        match tok {
            Token::Long(n) => OwnedFlag::Long(String::from_str(n.as_str())),
            Token::Short(c) => OwnedFlag::Short(*c),
            Token::Value(_) => OwnedFlag::Short(' '),
        }
    }

    /// What an argument asks before its value is read: an error, or
    /// whether and how it takes a value.
    pub fn begin(&self, tok: &Token) -> (res: Result<Need, Error>)
        requires
            shaped(self@),
        ensures
            match res {
                Ok(n) => spec_begin(self@, tok@) == Ok::<Need, Seq<char>>(n),
                Err(e) => spec_begin(self@, tok@) == Err::<Need, Seq<char>>(e@),
            },
    {
        let sub = self.subcommand();
        match classify(tok, sub.is_none()) {
            Action::Opt(i, _) => {
                if self.opts[i].is_some() {
                    return match multi_arg(&Self::owned_flag(tok), sub) {
                        Err(e) => Err(e),
                        Ok(_) => Ok(Need::Required),
                    };
                }
                Ok(Need::Required)
            },
            Action::Target | Action::Push(_) | Action::Multi(_) => Ok(Need::Required),
            Action::OptionalDeps => {
                if self.optional_deps.is_some() {
                    return match multi_arg(&Self::owned_flag(tok), sub) {
                        Err(e) => Err(e),
                        Ok(_) => Ok(Need::Required),
                    };
                }
                Ok(Need::OptionalOrNext)
            },
            Action::Flag(i) => {
                if self.flags[i] {
                    return match multi_arg(&Self::owned_flag(tok), sub) {
                        Err(e) => Err(e),
                        Ok(_) => Ok(Need::Required),
                    };
                }
                Ok(Need::Nothing)
            },
            Action::PassLong => {
                let n = match tok {
                    Token::Long(n) => n.as_str(),
                    _ => "",
                };
                removed_flags(n)?;
                similar_flags(n, sub)?;
                Ok(Need::Optional)
            },
            Action::PassShort => match tok {
                Token::Short(c) => if *c == 'q' || *c == 'r' {
                    Ok(Need::Nothing)
                } else {
                    Ok(Need::Optional)
                },
                _ => Ok(Need::Nothing),
            },
            _ => Ok(Need::Nothing),
        }
    }
}

/// The text of an optional string handed over as a value.
pub open spec fn value_view(v: Option<String>) -> Option<Seq<char>> {
    crate::text::opt_view(v)
}

/// Whether the action unquotes its value (the lists of features and of
/// optional dependencies).
pub open spec fn unquotes(a: Action) -> bool {
    a is Multi || a is OptionalDeps
}

/// Whether a value is one quote character alone, which cannot be unquoted.
pub open spec fn lone_quote(v: Option<Seq<char>>) -> bool {
    match v {
        Some(v) => quoted(v) && v.len() < 2,
        None => false,
    }
}

impl ArgsState {
    /// Applies an argument that `begin` accepted, with the value handed
    /// over for it.
    pub fn apply(&mut self, tok: Token, value: Option<String>) -> (res: Step)
        requires
            shaped(old(self)@),
            spec_begin(old(self)@, tok@) matches Ok(n) && value_fits(n, value_view(value)),
            unquotes(spec_classify(tok@, old(self)@.opts[SUBCOMMAND as int] is None)) ==> !lone_quote(value_view(value)),
            spec_classify(tok@, old(self)@.opts[SUBCOMMAND as int] is None) is Verbose ==> old(
                self,
            )@.verbose < usize::MAX,
        ensures
            shaped(final(self)@),
            (final(self)@, res) == spec_apply(old(self)@, tok@, value_view(value)),
    {
        let ghost st = self@;
        let ghost vv = value_view(value);
        let no_sub = self.subcommand().is_none();
        let action = classify(&tok, no_sub);
        let v = match &value {
            Some(v) => String::from_str(v.as_str()),
            None => String::new(),
        };
        match action {
            Action::Opt(i, propagate) => {
                self.opts.set(i, Some(String::from_str(v.as_str())));
                proof {
                    assert(self@.opts =~= st.opts.update(i as int, Some(v@)));
                    assert(self@.lists =~= st.lists);
                }
                if propagate {
                    let mut items: Vec<String> = Vec::new();
                    let f = Self::owned_flag(&tok);
                    items.push(crate::cli::format_flag(&f));
                    items.push(v);
                    let ghost mid = self@;
                    self.extend(CARGO_ARGS, items);
                    proof {
                        assert(views(items@) =~= seq![token_text(tok@), vv.unwrap()]);
                    }
                }
                Step::Continue
            },
            Action::Target => {
                let mut items: Vec<String> = Vec::new();
                items.push(v);
                self.extend(TARGET, items);
                proof {
                    assert(views(items@) =~= seq![vv.unwrap()]);
                }
                Step::Continue
            },
            Action::Push(i) => {
                let mut items: Vec<String> = Vec::new();
                items.push(v);
                self.extend(i, items);
                proof {
                    assert(views(items@) =~= seq![vv.unwrap()]);
                }
                Step::Continue
            },
            Action::Multi(i) => {
                let items = multi_values_exec(v.as_str());
                self.extend(i, items);
                Step::Continue
            },
            Action::OptionalDeps => {
                let mut deps = match &self.optional_deps {
                    Some(d) => clone_strings(d),
                    None => Vec::new(),
                };
                if value.is_some() {
                    let added = split_list(v.as_str());
                    let ghost before = views(deps@);
                    let mut k: usize = 0;
                    while k < added.len()
                        invariant
                            k <= added@.len(),
                            views(deps@) == before + views(added@).take(k as int),
                        decreases added@.len() - k,
                    {
                        let ghost prev = deps@;
                        deps.push(String::from_str(added[k].as_str()));
                        k = k + 1;
                        proof {
                            assert(views(deps@) =~= views(prev).push(added@[k - 1]@));
                            assert(views(added@).take(k as int) =~= views(added@).take(k - 1).push(
                                added@[k - 1]@,
                            ));
                        }
                    }
                    proof {
                        assert(views(added@).take(added@.len() as int) =~= views(added@));
                    }
                } else {
                    proof {
                        assert(views(deps@) =~= views(deps@) + Seq::<Seq<char>>::empty());
                    }
                }
                self.optional_deps = Some(deps);
                Step::Continue
            },
            Action::Flag(i) => {
                self.flags.set(i, true);
                Step::Continue
            },
            Action::Verbose => {
                self.verbose = self.verbose + 1;
                Step::Continue
            },
            Action::Propagated(i) => {
                self.flags.set(i, true);
                let mut items: Vec<String> = Vec::new();
                if i == NO_DEFAULT_FEATURES {
                    items.push(String::from_str("--no-default-features"));
                } else {
                    items.push(String::from_str("--all-features"));
                }
                proof {
                    assert(self@.lists =~= st.lists);
                    assert(self@.opts =~= st.opts);
                }
                self.extend(CARGO_ARGS, items);
                proof {
                    if i == NO_DEFAULT_FEATURES {
                        assert(views(items@) =~= seq!["--no-default-features"@]);
                    } else {
                        assert(views(items@) =~= seq!["--all-features"@]);
                    }
                }
                Step::Continue
            },
            Action::ShortHelp => Step::PrintShortHelp,
            Action::LongHelp => Step::PrintLongHelp,
            Action::Version => Step::PrintVersion,
            Action::PassLong => {
                let f = Self::owned_flag(&tok);
                let mut arg = crate::cli::format_flag(&f);
                if value.is_some() {
                    arg.append("=");
                    arg.append(v.as_str());
                }
                let mut items: Vec<String> = Vec::new();
                items.push(arg);
                self.extend(CARGO_ARGS, items);
                proof {
                    assert(views(items@) =~= seq![items@[0]@]);
                }
                Step::Continue
            },
            Action::PassShort => {
                let f = Self::owned_flag(&tok);
                let mut arg = crate::cli::format_flag(&f);
                arg.append(v.as_str());
                let mut items: Vec<String> = Vec::new();
                items.push(arg);
                self.extend(CARGO_ARGS, items);
                proof {
                    assert(views(items@) =~= seq![items@[0]@]);
                }
                Step::Continue
            },
            Action::Positional => {
                let val = match &tok {
                    Token::Value(s) => String::from_str(s.as_str()),
                    _ => String::new(),
                };
                if no_sub {
                    self.opts.set(SUBCOMMAND, Some(String::from_str(val.as_str())));
                    proof {
                        assert(self@.opts =~= st.opts.update(SUBCOMMAND as int, Some(val@)));
                        assert(self@.lists =~= st.lists);
                    }
                }
                let mut items: Vec<String> = Vec::new();
                items.push(val);
                self.extend(CARGO_ARGS, items);
                proof {
                    assert(views(items@) =~= seq![items@[0]@]);
                }
                Step::Continue
            },
        }
    }
}

} // verus!

verus! {

/// The parsed command line.
pub struct Args {
    pub leading_args: Vec<String>,
    pub trailing_args: Vec<String>,
    pub subcommand: Option<String>,
    pub manifest_path: Option<String>,
    pub no_manifest_path: bool,
    pub package: Vec<String>,
    pub exclude: Vec<String>,
    pub workspace: bool,
    pub each_feature: bool,
    pub feature_powerset: bool,
    pub no_dev_deps: bool,
    pub remove_dev_deps: bool,
    pub no_private: bool,
    pub ignore_private: bool,
    pub ignore_unknown_features: bool,
    pub clean_per_run: bool,
    pub clean_per_version: bool,
    pub keep_going: bool,
    pub print_command_list: bool,
    pub version_range: Option<String>,
    pub version_step: Option<String>,
    pub optional_deps: Option<Vec<String>>,
    pub include_features: Vec<Feature>,
    pub include_deps_features: bool,
    pub exclude_features: Vec<String>,
    pub exclude_no_default_features: bool,
    pub exclude_all_features: bool,
    pub depth: Option<usize>,
    pub group_features: Vec<Feature>,
    pub at_least_one_of: Vec<Feature>,
    pub features: Vec<String>,
    pub target: Vec<String>,
    pub no_default_features: bool,
    /// Whether `-v` was given at least once.
    pub verbose: bool,
}

/// What the parse ends in: the arguments, or listing cargo's commands.
pub enum Finish {
    Parsed(Args),
    List,
}

/// A message for the user: a warning or an information.
pub enum Note {
    Warn(String),
    Info(String),
}

/// A note as plain values: whether it is a warning, and its text.
pub open spec fn note_view(n: Note) -> (bool, Seq<char>) {
    match n {
        Note::Warn(s) => (true, s@),
        Note::Info(s) => (false, s@),
    }
}

/// The notes as plain values.
pub open spec fn notes_view(ns: Seq<Note>) -> Seq<(bool, Seq<char>)> {
    ns.map_values(|n: Note| note_view(n))
}

/// The arguments of cargo that make a dev-dependency target.
pub open spec fn is_dev_target_arg(a: Seq<char>) -> bool {
    a == "--example"@ || a == "--examples"@ || a == "--test"@ || a == "--tests"@ || a == "--bench"@
        || a == "--benches"@ || a == "--all-targets"@ || has_prefix(a, "--example="@) || has_prefix(
        a,
        "--test="@,
    ) || has_prefix(a, "--bench="@)
}

/// The first argument that makes a dev-dependency target.
pub open spec fn first_dev_target(args: Seq<Seq<char>>) -> Option<Seq<char>>
    decreases args.len(),
{
    if args.len() == 0 {
        None
    } else if is_dev_target_arg(args[0]) {
        Some(args[0])
    } else {
        first_dev_target(args.drop_first())
    }
}

/// The message for two flags that conflict.
pub open spec fn conflict_message(a: Seq<char>, b: Seq<char>) -> Seq<char> {
    a + " may not be used together with "@ + b
}

/// The lists that group features, each split into its members, where all
/// of them are lists.
pub open spec fn all_groups(gs: Seq<Seq<char>>) -> bool {
    forall|i: int| 0 <= i < gs.len() ==> group_parts(#[trigger] gs[i]) is Some
}

/// The requirement of `--each-feature` or `--feature-powerset` that the
/// first option met without either of them has, in the order they are
/// checked.
pub open spec fn feature_mode_requirement(st: ArgsView) -> Option<Seq<char>> {
    let both = seq!["--each-feature"@, "--feature-powerset"@];
    if st.optional_deps is Some {
        Some(requires_message("--optional-deps"@, both))
    } else if st.lists[EXCLUDE_FEATURES as int].len() > 0 {
        Some(requires_message("--exclude-features (--skip)"@, both))
    } else if st.flags[EXCLUDE_NO_DEFAULT_FEATURES as int] {
        Some(requires_message("--exclude-no-default-features"@, both))
    } else if st.flags[EXCLUDE_ALL_FEATURES as int] {
        Some(requires_message("--exclude-all-features"@, both))
    } else if st.lists[INCLUDE_FEATURES as int].len() > 0 {
        Some(requires_message("--include-features"@, both))
    } else if st.flags[INCLUDE_DEPS_FEATURES as int] {
        Some(requires_message("--include-deps-features"@, both))
    } else if st.lists[AT_LEAST_ONE_OF as int].len() > 0 {
        Some(requires_message("--at-least-one-of"@, seq!["--feature-powerset"@]))
    } else {
        None
    }
}

/// The first feature of `--exclude-features` that another option also
/// names, with the message saying which.
pub open spec fn overlap_message(st: ArgsView, f: Seq<char>) -> Option<Seq<char>> {
    let start = "feature `"@ + f + "` specified by both --exclude-features and "@;
    if st.lists[FEATURES as int].contains(f) {
        Some(start + "--features"@)
    } else if (st.optional_deps matches Some(d) && d.contains(f)) {
        Some(start + "--optional-deps"@)
    } else if exists|k: int|
        0 <= k < st.lists[GROUP_FEATURES as int].len() && (#[trigger] group_parts(
            st.lists[GROUP_FEATURES as int][k],
        ))->0.contains(f) {
        Some(start + "--group-features"@)
    } else if st.lists[INCLUDE_FEATURES as int].contains(f) {
        Some(start + "--include-features"@)
    } else {
        None
    }
}

/// The message of the first overlapping feature among `fs`.
pub open spec fn first_overlap(st: ArgsView, fs: Seq<Seq<char>>) -> Option<Seq<char>>
    decreases fs.len(),
{
    if fs.len() == 0 {
        None
    } else {
        match overlap_message(st, fs[0]) {
            Some(m) => Some(m),
            None => first_overlap(st, fs.drop_first()),
        }
    }
}

/// The first error of the checks made once all arguments are read, in the
/// order they are made; `rustup` is the minor version of rustup.
pub open spec fn spec_finish_error(st: ArgsView, rustup: u32) -> Option<Seq<char>> {
    let flag = |i: usize| st.flags[i as int];
    let list = |i: usize| st.lists[i as int];
    let sub = st.opts[SUBCOMMAND as int];
    let each = flag(EACH_FEATURE);
    let powerset = flag(FEATURE_POWERSET);
    let dev_target = first_dev_target(list(CARGO_ARGS));
    if list(EXCLUDE).len() > 0 && !flag(WORKSPACE) {
        Some(requires_message("--exclude"@, seq!["--workspace"@]))
    } else if flag(IGNORE_UNKNOWN_FEATURES) && list(FEATURES).len() == 0 && list(INCLUDE_FEATURES).len()
        == 0 && list(GROUP_FEATURES).len() == 0 {
        Some(
            requires_message(
                "--ignore-unknown-features"@,
                seq!["--features"@, "--include-features"@, "--group-features"@],
            ),
        )
    } else if !each && !powerset && feature_mode_requirement(st) is Some {
        feature_mode_requirement(st)
    } else if !powerset && st.opts[DEPTH as int] is Some {
        Some(requires_message("--depth"@, seq!["--feature-powerset"@]))
    } else if !powerset && list(GROUP_FEATURES).len() > 0 {
        Some(requires_message("--group-features"@, seq!["--feature-powerset"@]))
    } else if (st.opts[DEPTH as int] matches Some(d) && parse_usize(d) is Err) {
        Some(int_error_message(parse_usize(st.opts[DEPTH as int]->0)->Err_0))
    } else if !all_groups(list(GROUP_FEATURES)) {
        Some(group_list_message("group-features"@))
    } else if !all_groups(list(AT_LEAST_ONE_OF)) {
        Some(group_list_message("at-least-one-of"@))
    } else if (sub matches Some(s) && (s == "test"@ || s == "bench"@) && flag(REMOVE_DEV_DEPS)) {
        Some("--remove-dev-deps"@ + " may not be used together with "@ + sub->0 + " subcommand"@)
    } else if (sub matches Some(s) && (s == "test"@ || s == "bench"@) && flag(NO_DEV_DEPS)) {
        Some("--no-dev-deps"@ + " may not be used together with "@ + sub->0 + " subcommand"@)
    } else if sub == Some("install"@) {
        Some("cargo-hack may not be used together with "@ + "install"@ + " subcommand"@)
    } else if dev_target is Some && flag(REMOVE_DEV_DEPS) {
        Some(conflict_message("--remove-dev-deps"@, dev_target->0))
    } else if dev_target is Some && flag(NO_DEV_DEPS) {
        Some(conflict_message("--no-dev-deps"@, dev_target->0))
    } else if list(INCLUDE_FEATURES).len() > 0 && st.optional_deps is Some {
        Some(conflict_message("--include-features"@, "--optional-deps"@))
    } else if list(INCLUDE_FEATURES).len() > 0 && flag(INCLUDE_DEPS_FEATURES) {
        Some(conflict_message("--include-features"@, "--include-deps-features"@))
    } else if flag(NO_DEV_DEPS) && flag(REMOVE_DEV_DEPS) {
        Some(conflict_message("--no-dev-deps"@, "--remove-dev-deps"@))
    } else if each && powerset {
        Some(conflict_message("--each-feature"@, "--feature-powerset"@))
    } else if flag(ALL_FEATURES) && each {
        Some(conflict_message("--all-features"@, "--each-feature"@))
    } else if flag(ALL_FEATURES) && powerset {
        Some(conflict_message("--all-features"@, "--feature-powerset"@))
    } else if flag(NO_DEFAULT_FEATURES) && each {
        Some(conflict_message("--no-default-features"@, "--each-feature"@))
    } else if flag(NO_DEFAULT_FEATURES) && powerset {
        Some(conflict_message("--no-default-features"@, "--feature-powerset"@))
    } else if first_overlap(st, list(EXCLUDE_FEATURES)) is Some {
        first_overlap(st, list(EXCLUDE_FEATURES))
    } else if sub is None && !list(CARGO_ARGS).contains("--list"@) && !flag(REMOVE_DEV_DEPS) {
        Some(mini_usage_message("no subcommand or valid flag specified"@))
    } else if sub is None && list(CARGO_ARGS).contains("--list"@) {
        None
    } else if st.opts[VERSION_RANGE as int] is Some && rustup < 23 {
        Some("--version-range requires rustup 1.23 or later"@)
    } else if st.opts[VERSION_RANGE as int] is None && st.opts[VERSION_STEP as int] is Some {
        Some(requires_message("--version-step"@, seq!["--version-range"@]))
    } else if st.opts[VERSION_RANGE as int] is None && flag(CLEAN_PER_VERSION) {
        Some(requires_message("--clean-per-version"@, seq!["--version-range"@]))
    } else {
        None
    }
}

} // verus!

verus! {

/// The notes given on the way: with `--ignore-unknown-features`, that it is
/// not fully implemented for `--include-features` and `--group-features`,
/// once the checks before them pass; with `--no-dev-deps`, what it does,
/// once all checks pass and the parse does not end in listing.
pub open spec fn spec_notes(st: ArgsView, rustup: u32) -> Seq<(bool, Seq<char>)> {
    let flag = |i: usize| st.flags[i as int];
    let list = |i: usize| st.lists[i as int];
    let early_ok = !(list(EXCLUDE).len() > 0 && !flag(WORKSPACE)) && !(flag(IGNORE_UNKNOWN_FEATURES)
        && list(FEATURES).len() == 0 && list(INCLUDE_FEATURES).len() == 0 && list(GROUP_FEATURES).len()
        == 0);
    let unknown = if early_ok && flag(IGNORE_UNKNOWN_FEATURES) {
        (if list(INCLUDE_FEATURES).len() > 0 {
            seq![(true, include_unknown_warning())]
        } else {
            Seq::empty()
        }) + (if list(GROUP_FEATURES).len() > 0 {
            seq![(true, group_unknown_warning())]
        } else {
            Seq::empty()
        })
    } else {
        Seq::empty()
    };
    let listing = st.opts[SUBCOMMAND as int] is None && list(CARGO_ARGS).contains("--list"@);
    let dev = if spec_finish_error(st, rustup) is None && !listing && flag(NO_DEV_DEPS) {
        seq![(false, no_dev_deps_info())]
    } else {
        Seq::empty()
    };
    unknown + dev
}

/// The warning for `--ignore-unknown-features` with `--include-features`.
pub open spec fn include_unknown_warning() -> Seq<char> {
    "--ignore-unknown-features for --include-features is not fully implemented and may not work as intended"@
}

/// The warning for `--ignore-unknown-features` with `--group-features`.
pub open spec fn group_unknown_warning() -> Seq<char> {
    "--ignore-unknown-features for --group-features is not fully implemented and may not work as intended"@
}

/// What `--no-dev-deps` does.
pub open spec fn no_dev_deps_info() -> Seq<char> {
    "--no-dev-deps modifies real `Cargo.toml` while cargo-hack is running and restores it when finished"@
}

/// `-v` repeated `n` times, after a `-`.
pub open spec fn verbose_flag(n: nat) -> Seq<char> {
    "-"@ + Seq::new(n, |i: int| 'v')
}

/// The arguments read, where all checks pass and the parse does not end in
/// listing; `namespaced` is whether `-Z namespaced-features` is passed to
/// cargo.
pub open spec fn spec_args(st: ArgsView, rest: Seq<Seq<char>>, args: Args) -> bool {
    let flag = |i: usize| st.flags[i as int];
    let list = |i: usize| st.lists[i as int];
    let namespaced = crate::cli::z_flag_scan(list(CARGO_ARGS), "namespaced-features"@)->0;
    let depth = match st.opts[DEPTH as int] {
        Some(d) => Some(parse_usize(d)->Ok_0),
        None => None,
    };
    &&& views(args.leading_args@) == list(CARGO_ARGS) + (if st.verbose > 1 {
        seq![verbose_flag((st.verbose - 1) as nat)]
    } else {
        Seq::empty()
    })
    &&& views(args.trailing_args@) == rest
    &&& crate::text::opt_view(args.subcommand) == st.opts[SUBCOMMAND as int]
    &&& crate::text::opt_view(args.manifest_path) == st.opts[MANIFEST_PATH as int]
    &&& crate::text::opt_view(args.version_range) == st.opts[VERSION_RANGE as int]
    &&& crate::text::opt_view(args.version_step) == st.opts[VERSION_STEP as int]
    &&& views(args.package@) == list(PACKAGE)
    &&& views(args.exclude@) == list(EXCLUDE)
    &&& views(args.features@) == list(FEATURES)
    &&& args.no_manifest_path == flag(NO_MANIFEST_PATH)
    &&& args.workspace == flag(WORKSPACE)
    &&& args.each_feature == flag(EACH_FEATURE)
    &&& args.feature_powerset == flag(FEATURE_POWERSET)
    &&& args.no_dev_deps == flag(NO_DEV_DEPS)
    &&& args.remove_dev_deps == flag(REMOVE_DEV_DEPS)
    &&& args.no_private == flag(NO_PRIVATE)
    &&& args.ignore_private == (flag(IGNORE_PRIVATE) || flag(NO_PRIVATE))
    &&& args.ignore_unknown_features == flag(IGNORE_UNKNOWN_FEATURES)
    &&& args.clean_per_run == flag(CLEAN_PER_RUN)
    &&& args.clean_per_version == flag(CLEAN_PER_VERSION)
    &&& args.keep_going == flag(KEEP_GOING)
    &&& args.print_command_list == flag(PRINT_COMMAND_LIST)
    &&& args.include_deps_features == flag(INCLUDE_DEPS_FEATURES)
    &&& args.no_default_features == flag(NO_DEFAULT_FEATURES)
    &&& args.verbose == (st.verbose != 0)
    &&& match args.optional_deps {
        Some(d) => st.optional_deps == Some(views(d@)),
        None => st.optional_deps is None,
    }
    &&& args.include_features@.len() == list(INCLUDE_FEATURES).len()
    &&& forall|i: int|
        0 <= i < args.include_features@.len() ==> (#[trigger] args.include_features@[i]) is Normal
            && args.include_features@[i].name_view() == list(INCLUDE_FEATURES)[i]
    &&& args.group_features@.len() == list(GROUP_FEATURES).len()
    &&& forall|i: int|
        0 <= i < args.group_features@.len() ==> (#[trigger] args.group_features@[i]) is Group
            && args.group_features@[i].group_view() == group_parts(list(GROUP_FEATURES)[i])->0
            && args.group_features@[i].name_view() == join_commas(group_parts(list(GROUP_FEATURES)[i])->0)
    &&& args.at_least_one_of@.len() == list(AT_LEAST_ONE_OF).len()
    &&& forall|i: int|
        0 <= i < args.at_least_one_of@.len() ==> (#[trigger] args.at_least_one_of@[i]) is Group
            && args.at_least_one_of@[i].group_view() == group_parts(list(AT_LEAST_ONE_OF)[i])->0
            && args.at_least_one_of@[i].name_view() == join_commas(group_parts(list(AT_LEAST_ONE_OF)[i])->0)
    &&& args.depth == depth
    &&& views(args.exclude_features@) == list(EXCLUDE_FEATURES) + list(FEATURES)
    &&& args.exclude_no_default_features == (flag(EXCLUDE_NO_DEFAULT_FEATURES) || list(
        AT_LEAST_ONE_OF,
    ).len() > 0 || list(INCLUDE_FEATURES).len() > 0)
    &&& args.exclude_all_features == (flag(EXCLUDE_ALL_FEATURES) || list(INCLUDE_FEATURES).len() > 0
        || list(EXCLUDE_FEATURES).len() > 0 || (flag(FEATURE_POWERSET) && !namespaced && depth is None))
    &&& crate::feature_map::strictly_sorted(views(args.target@))
    &&& views(args.target@).to_set() == list(TARGET).to_set()
}

} // verus!

verus! {

/// Whether `a` makes a dev-dependency target.
fn is_dev_target_exec(a: &String) -> (res: bool)
    ensures
        res == is_dev_target_arg(a@),
{
    let s = a.as_str();
    if str_eq(s, "--example") || str_eq(s, "--examples") || str_eq(s, "--test") || str_eq(
        s,
        "--tests",
    ) || str_eq(s, "--bench") || str_eq(s, "--benches") || str_eq(s, "--all-targets") {
        return true;
    }
    crate::pattern::strip_prefix_str(s, "--example=").is_some() || crate::pattern::strip_prefix_str(
        s,
        "--test=",
    ).is_some() || crate::pattern::strip_prefix_str(s, "--bench=").is_some()
}

/// The first argument that makes a dev-dependency target.
fn first_dev_target_exec(args: &Vec<String>) -> (res: Option<&String>)
    ensures
        match res {
            Some(a) => first_dev_target(views(args@)) == Some(a@),
            None => first_dev_target(views(args@)) is None,
        },
{
    let ghost all = views(args@);
    let mut i: usize = 0;
    proof {
        assert(all.skip(0) =~= all);
    }
    while i < args.len()
        invariant
            i <= args@.len(),
            all == views(args@),
            first_dev_target(all.skip(i as int)) == first_dev_target(all),
        decreases args@.len() - i,
    {
        proof {
            assert(all.skip(i as int)[0] == args@[i as int]@);
            assert(all.skip(i as int).drop_first() =~= all.skip(i + 1));
        }
        if is_dev_target_exec(&args[i]) {
            return Some(&args[i]);
        }
        i = i + 1;
    }
    proof {
        assert(all.skip(i as int) =~= Seq::<Seq<char>>::empty());
    }
    None
}

/// Whether some group of `groups` holds `f`.
fn groups_hold(groups: &Vec<Feature>, f: &str) -> (res: bool)
    ensures
        res == exists|k: int| 0 <= k < groups@.len() && (#[trigger] groups@[k]).group_view().contains(
            f@,
        ),
{
    let mut k: usize = 0;
    while k < groups.len()
        invariant
            k <= groups@.len(),
            forall|j: int| 0 <= j < k ==> !(#[trigger] groups@[j]).group_view().contains(f@),
        decreases groups@.len() - k,
    {
        if groups[k].matches(f) {
            return true;
        }
        k = k + 1;
    }
    false
}

/// The message for a feature that `--exclude-features` and another option
/// both name.
fn overlap_error(f: &str, other: &str) -> (res: Error)
    ensures
        res@ == "feature `"@ + f@ + "` specified by both --exclude-features and "@ + other@,
{
    let mut m = String::from_str("feature `");
    m.append(f);
    m.append("` specified by both --exclude-features and ");
    m.append(other);
    Error::msg(m)
}

/// The error from an always failing check.
fn failed(r: Result<(), Error>) -> (res: Error)
    requires
        r is Err,
    ensures
        r == Err::<(), Error>(res),
{
    match r {
        Err(e) => e,
        Ok(_) => Error::msg(String::new()),
    }
}

} // verus!

verus! {

impl ArgsState {
    /// The flag `i`.
    fn flag(&self, i: usize) -> (res: bool)
        requires
            shaped(self@),
            i < N_FLAGS,
        ensures
            res == self@.flags[i as int],
    {
        self.flags[i]
    }

    /// The list `i`.
    fn list(&self, i: usize) -> (res: &Vec<String>)
        requires
            shaped(self@),
            i < N_LISTS,
        ensures
            views(res@) == self@.lists[i as int],
    {
        &self.lists[i]
    }

    /// The option `i`.
    fn opt(&self, i: usize) -> (res: &Option<String>)
        requires
            shaped(self@),
            i < N_OPTS,
        ensures
            crate::text::opt_view(*res) == self@.opts[i as int],
    {
        &self.opts[i]
    }

    /// The first overlap between `--exclude-features` and the other
    /// options, with the groups already split.
    fn check_overlap(&self, groups: &Vec<Feature>) -> (res: Result<(), Error>)
        requires
            shaped(self@),
            groups@.len() == self@.lists[GROUP_FEATURES as int].len(),
            forall|i: int|
                0 <= i < groups@.len() ==> (#[trigger] groups@[i]).group_view() == group_parts(
                    self@.lists[GROUP_FEATURES as int][i],
                )->0,
        ensures
            match res {
                Ok(_) => first_overlap(self@, self@.lists[EXCLUDE_FEATURES as int]) is None,
                Err(e) => first_overlap(self@, self@.lists[EXCLUDE_FEATURES as int]) == Some(e@),
            },
    {
        let ghost st = self@;
        let ex = self.list(EXCLUDE_FEATURES);
        let ghost all = views(ex@);
        let mut i: usize = 0;
        proof {
            assert(all.skip(0) =~= all);
        }
        while i < ex.len()
            invariant
                i <= ex@.len(),
                all == views(ex@),
                st == self@,
                shaped(st),
                all == st.lists[EXCLUDE_FEATURES as int],
                groups@.len() == st.lists[GROUP_FEATURES as int].len(),
                forall|k: int|
                    0 <= k < groups@.len() ==> (#[trigger] groups@[k]).group_view() == group_parts(
                        st.lists[GROUP_FEATURES as int][k],
                    )->0,
                first_overlap(st, all.skip(i as int)) == first_overlap(st, all),
            decreases ex@.len() - i,
        {
            let f = &ex[i];
            proof {
                assert(all.skip(i as int)[0] == f@);
                assert(all.skip(i as int).drop_first() =~= all.skip(i + 1));
            }
            if crate::text::contains_string(self.list(FEATURES), f) {
                return Err(overlap_error(f.as_str(), "--features"));
            }
            let in_deps = match &self.optional_deps {
                Some(d) => crate::text::contains_string(d, f),
                None => false,
            };
            if in_deps {
                return Err(overlap_error(f.as_str(), "--optional-deps"));
            }
            let in_groups = groups_hold(groups, f.as_str());
            proof {
                if in_groups {
                    let k = choose|k: int|
                        0 <= k < groups@.len() && (#[trigger] groups@[k]).group_view().contains(f@);
                    assert(group_parts(st.lists[GROUP_FEATURES as int][k])->0.contains(f@));
                }
                if exists|k: int|
                    0 <= k < st.lists[GROUP_FEATURES as int].len() && (#[trigger] group_parts(
                        st.lists[GROUP_FEATURES as int][k],
                    ))->0.contains(f@) {
                    let k = choose|k: int|
                        0 <= k < st.lists[GROUP_FEATURES as int].len() && (#[trigger] group_parts(
                            st.lists[GROUP_FEATURES as int][k],
                        ))->0.contains(f@);
                    assert(groups@[k].group_view().contains(f@));
                }
            }
            if in_groups {
                return Err(overlap_error(f.as_str(), "--group-features"));
            }
            if crate::text::contains_string(self.list(INCLUDE_FEATURES), f) {
                return Err(overlap_error(f.as_str(), "--include-features"));
            }
            i = i + 1;
        }
        proof {
            assert(all.skip(i as int) =~= Seq::<Seq<char>>::empty());
        }
        Ok(())
    }
}

} // verus!

verus! {

/// The error that `flag` requires `a`.
fn requires1(flag: &str, a: &str) -> (res: Error)
    ensures
        res@ == requires_message(flag@, seq![a@]),
{
    let needed: [&str; 1] = [a];
    proof {
        assert(crate::text::str_views(needed@) =~= seq![a@]);
    }
    failed(crate::cli::requires_flag(flag, &needed))
}

/// The error that `flag` requires `a` or `b`.
fn requires2(flag: &str, a: &str, b: &str) -> (res: Error)
    ensures
        res@ == requires_message(flag@, seq![a@, b@]),
{
    let needed: [&str; 2] = [a, b];
    proof {
        assert(crate::text::str_views(needed@) =~= seq![a@, b@]);
    }
    failed(crate::cli::requires_flag(flag, &needed))
}

/// The error that `flag` requires `a`, `b` or `c`.
fn requires3(flag: &str, a: &str, b: &str, c: &str) -> (res: Error)
    ensures
        res@ == requires_message(flag@, seq![a@, b@, c@]),
{
    let needed: [&str; 3] = [a, b, c];
    proof {
        assert(crate::text::str_views(needed@) =~= seq![a@, b@, c@]);
    }
    failed(crate::cli::requires_flag(flag, &needed))
}

/// The error that `a` conflicts with `b`.
fn conflict(a: &str, b: &str) -> (res: Error)
    ensures
        res@ == conflict_message(a@, b@),
{
    failed(crate::cli::conflicts(a, b))
}

/// The error for a subcommand that a flag cannot be used with.
fn subcommand_error(flag: &str, sub: &str) -> (res: Error)
    ensures
        res@ == flag@ + " may not be used together with "@ + sub@ + " subcommand"@,
{
    let mut m = String::from_str(flag);
    m.append(" may not be used together with ");
    m.append(sub);
    m.append(" subcommand");
    Error::msg(m)
}

/// `-` and then `v` `n` times.
fn verbose_flag_exec(n: usize) -> (res: String)
    ensures
        res@ == verbose_flag(n as nat),
{
    let mut out = String::from_str("-");
    let mut k: usize = 0;
    while k < n
        invariant
            k <= n,
            out@ == "-"@ + Seq::new(k as nat, |i: int| 'v'),
        decreases n - k,
    {
        out.append("v");
        k = k + 1;
        proof {
            reveal_strlit("v");
            assert(out@ =~= "-"@ + Seq::new(k as nat, |i: int| 'v'));
        }
    }
    out
}

} // verus!

verus! {

/// What the checks hand on to the result: the depth, the groups of
/// `--group-features` and of `--at-least-one-of`, and whether the parse
/// ends in listing cargo's commands.
pub struct Checked {
    pub depth: Option<usize>,
    pub group_features: Vec<Feature>,
    pub at_least_one_of: Vec<Feature>,
    pub listing: bool,
}

/// The notes up to the checks of the feature options.
pub open spec fn unknown_notes(st: ArgsView) -> Seq<(bool, Seq<char>)> {
    let flag = |i: usize| st.flags[i as int];
    let list = |i: usize| st.lists[i as int];
    if flag(IGNORE_UNKNOWN_FEATURES) && !(list(EXCLUDE).len() > 0 && !flag(WORKSPACE)) && !(list(
        FEATURES,
    ).len() == 0 && list(INCLUDE_FEATURES).len() == 0 && list(GROUP_FEATURES).len() == 0) {
        (if list(INCLUDE_FEATURES).len() > 0 {
            seq![(true, include_unknown_warning())]
        } else {
            Seq::empty()
        }) + (if list(GROUP_FEATURES).len() > 0 {
            seq![(true, group_unknown_warning())]
        } else {
            Seq::empty()
        })
    } else {
        Seq::empty()
    }
}

impl ArgsState {
    /// The checks made once all arguments are read, in order; the first
    /// that fails is the error.
    pub fn check(&self, rustup: u32, notes: &mut Vec<Note>) -> (res: Result<Checked, Error>)
        requires
            shaped(self@),
        ensures
            notes_view(final(notes)@) == notes_view(old(notes)@) + unknown_notes(self@),
            match res {
                Err(e) => spec_finish_error(self@, rustup) == Some(e@),
                Ok(c) => {
                    &&& spec_finish_error(self@, rustup) is None
                    &&& c.listing == (self@.opts[SUBCOMMAND as int] is None && self@.lists[CARGO_ARGS as int].contains("--list"@))
                    &&& c.depth == match self@.opts[DEPTH as int] {
                        Some(d) => Some(parse_usize(d)->Ok_0),
                        None => None,
                    }
                    &&& c.group_features@.len() == self@.lists[GROUP_FEATURES as int].len()
                    &&& forall|i: int|
                        0 <= i < c.group_features@.len() ==> (#[trigger] c.group_features@[i]) is Group
                            && c.group_features@[i].group_view() == group_parts(
                            self@.lists[GROUP_FEATURES as int][i],
                        )->0
            && c.group_features@[i].name_view() == join_commas(group_parts(
                            self@.lists[GROUP_FEATURES as int][i],
                        )->0)
                    &&& c.at_least_one_of@.len() == self@.lists[AT_LEAST_ONE_OF as int].len()
                    &&& forall|i: int|
                        0 <= i < c.at_least_one_of@.len() ==> (#[trigger] c.at_least_one_of@[i]) is Group
                            && c.at_least_one_of@[i].group_view() == group_parts(
                            self@.lists[AT_LEAST_ONE_OF as int][i],
                        )->0
            && c.at_least_one_of@[i].name_view() == join_commas(group_parts(
                            self@.lists[AT_LEAST_ONE_OF as int][i],
                        )->0)
                },
            },
    {
        let ghost st = self@;
        let ghost start = notes_view(notes@);
        let each = self.flag(EACH_FEATURE);
        let powerset = self.flag(FEATURE_POWERSET);
        proof {
            assert(notes_view(notes@) =~= start + Seq::<(bool, Seq<char>)>::empty());
        }
        if self.list(EXCLUDE).len() > 0 && !self.flag(WORKSPACE) {
            return Err(requires1("--exclude", "--workspace"));
        }
        if self.flag(IGNORE_UNKNOWN_FEATURES) {
            if self.list(FEATURES).len() == 0 && self.list(INCLUDE_FEATURES).len() == 0 && self.list(
                GROUP_FEATURES,
            ).len() == 0 {
                return Err(
                    requires3(
                        "--ignore-unknown-features",
                        "--features",
                        "--include-features",
                        "--group-features",
                    ),
                );
            }
            if self.list(INCLUDE_FEATURES).len() > 0 {
                notes.push(
                    Note::Warn(
                        String::from_str(
                            "--ignore-unknown-features for --include-features is not fully implemented and may not work as intended",
                        ),
                    ),
                );
            }
            let ghost mid = notes_view(notes@);
            if self.list(GROUP_FEATURES).len() > 0 {
                notes.push(
                    Note::Warn(
                        String::from_str(
                            "--ignore-unknown-features for --group-features is not fully implemented and may not work as intended",
                        ),
                    ),
                );
            }
            proof {
                assert(notes_view(notes@) =~= start + unknown_notes(st));
            }
        }
        if !each && !powerset {
            if self.optional_deps.is_some() {
                return Err(requires2("--optional-deps", "--each-feature", "--feature-powerset"));
            } else if self.list(EXCLUDE_FEATURES).len() > 0 {
                return Err(
                    requires2("--exclude-features (--skip)", "--each-feature", "--feature-powerset"),
                );
            } else if self.flag(EXCLUDE_NO_DEFAULT_FEATURES) {
                return Err(
                    requires2("--exclude-no-default-features", "--each-feature", "--feature-powerset"),
                );
            } else if self.flag(EXCLUDE_ALL_FEATURES) {
                return Err(
                    requires2("--exclude-all-features", "--each-feature", "--feature-powerset"),
                );
            } else if self.list(INCLUDE_FEATURES).len() > 0 {
                return Err(requires2("--include-features", "--each-feature", "--feature-powerset"));
            } else if self.flag(INCLUDE_DEPS_FEATURES) {
                return Err(
                    requires2("--include-deps-features", "--each-feature", "--feature-powerset"),
                );
            } else if self.list(AT_LEAST_ONE_OF).len() > 0 {
                return Err(requires1("--at-least-one-of", "--feature-powerset"));
            }
        }
        if !powerset {
            if self.opt(DEPTH).is_some() {
                return Err(requires1("--depth", "--feature-powerset"));
            } else if self.list(GROUP_FEATURES).len() > 0 {
                return Err(requires1("--group-features", "--feature-powerset"));
            }
        }
        let depth = match self.opt(DEPTH) {
            Some(d) => match crate::version::parse_usize_exec(d.as_str()) {
                Ok(n) => Some(n),
                Err(k) => {
                    return Err(crate::version::int_error(k));
                },
            },
            None => None,
        };
        let gl = self.list(GROUP_FEATURES);
        let group_features = match crate::cli::parse_grouped_features(gl.as_slice(), "group-features") {
            Ok(v) => v,
            Err(e) => {
                proof {
                    let i = choose|i: int|
                        0 <= i < gl@.len() && group_parts(#[trigger] gl@[i]@) is None;
                    assert(st.lists[GROUP_FEATURES as int][i] == gl@[i]@);
                }
                return Err(e);
            },
        };
        proof {
            assert forall|i: int| 0 <= i < st.lists[GROUP_FEATURES as int].len() implies group_parts(
                #[trigger] st.lists[GROUP_FEATURES as int][i],
            ) is Some by {
                assert(st.lists[GROUP_FEATURES as int][i] == gl@[i]@);
            }
        }
        let al = self.list(AT_LEAST_ONE_OF);
        let at_least_one_of = match crate::cli::parse_grouped_features(al.as_slice(), "at-least-one-of") {
            Ok(v) => v,
            Err(e) => {
                proof {
                    let i = choose|i: int|
                        0 <= i < al@.len() && group_parts(#[trigger] al@[i]@) is None;
                    assert(st.lists[AT_LEAST_ONE_OF as int][i] == al@[i]@);
                }
                return Err(e);
            },
        };
        proof {
            assert forall|i: int| 0 <= i < st.lists[AT_LEAST_ONE_OF as int].len() implies group_parts(
                #[trigger] st.lists[AT_LEAST_ONE_OF as int][i],
            ) is Some by {
                assert(st.lists[AT_LEAST_ONE_OF as int][i] == al@[i]@);
            }
            assert forall|i: int| 0 <= i < group_features@.len() implies (#[trigger] group_features@[i]) is Group
                && group_features@[i].group_view() == group_parts(st.lists[GROUP_FEATURES as int][i])->0
            && group_features@[i].name_view() == join_commas(group_parts(st.lists[GROUP_FEATURES as int][i])->0) by {
                assert(st.lists[GROUP_FEATURES as int][i] == gl@[i]@);
            }
            assert forall|i: int| 0 <= i < at_least_one_of@.len() implies (#[trigger] at_least_one_of@[i]) is Group
                && at_least_one_of@[i].group_view() == group_parts(st.lists[AT_LEAST_ONE_OF as int][i])->0
            && at_least_one_of@[i].name_view() == join_commas(group_parts(st.lists[AT_LEAST_ONE_OF as int][i])->0) by {
                assert(st.lists[AT_LEAST_ONE_OF as int][i] == al@[i]@);
            }
        }
        match self.opt(SUBCOMMAND) {
            Some(sub) => {
                let s = sub.as_str();
                if str_eq(s, "test") || str_eq(s, "bench") {
                    if self.flag(REMOVE_DEV_DEPS) {
                        return Err(subcommand_error("--remove-dev-deps", s));
                    } else if self.flag(NO_DEV_DEPS) {
                        return Err(subcommand_error("--no-dev-deps", s));
                    }
                } else if str_eq(s, "install") {
                    let mut m = String::from_str("cargo-hack may not be used together with ");
                    m.append(s);
                    m.append(" subcommand");
                    return Err(Error::msg(m));
                }
            },
            None => {},
        }
        proof {
            reveal_strlit("install");
            reveal_strlit("test");
            reveal_strlit("bench");
        }
        match first_dev_target_exec(self.list(CARGO_ARGS)) {
            Some(a) => {
                if self.flag(REMOVE_DEV_DEPS) {
                    return Err(conflict("--remove-dev-deps", a.as_str()));
                } else if self.flag(NO_DEV_DEPS) {
                    return Err(conflict("--no-dev-deps", a.as_str()));
                }
            },
            None => {},
        }
        if self.list(INCLUDE_FEATURES).len() > 0 {
            if self.optional_deps.is_some() {
                return Err(conflict("--include-features", "--optional-deps"));
            } else if self.flag(INCLUDE_DEPS_FEATURES) {
                return Err(conflict("--include-features", "--include-deps-features"));
            }
        }
        if self.flag(NO_DEV_DEPS) && self.flag(REMOVE_DEV_DEPS) {
            return Err(conflict("--no-dev-deps", "--remove-dev-deps"));
        }
        if each && powerset {
            return Err(conflict("--each-feature", "--feature-powerset"));
        }
        if self.flag(ALL_FEATURES) {
            if each {
                return Err(conflict("--all-features", "--each-feature"));
            } else if powerset {
                return Err(conflict("--all-features", "--feature-powerset"));
            }
        }
        if self.flag(NO_DEFAULT_FEATURES) {
            if each {
                return Err(conflict("--no-default-features", "--each-feature"));
            } else if powerset {
                return Err(conflict("--no-default-features", "--feature-powerset"));
            }
        }
        match self.check_overlap(&group_features) {
            Ok(_) => {},
            Err(e) => {
                return Err(e);
            },
        }
        let list_arg = String::from_str("--list");
        let listing = self.opt(SUBCOMMAND).is_none() && crate::text::contains_string(
            self.list(CARGO_ARGS),
            &list_arg,
        );
        if self.opt(SUBCOMMAND).is_none() && !listing && !self.flag(REMOVE_DEV_DEPS) {
            return Err(
                failed(crate::cli::mini_usage("no subcommand or valid flag specified")),
            );
        }
        proof {
            assert(first_overlap(st, st.lists[EXCLUDE_FEATURES as int]) is None);
            assert(listing == (st.opts[SUBCOMMAND as int] is None && st.lists[CARGO_ARGS as int].contains("--list"@)));
        }
        if !listing {
            if self.opt(VERSION_RANGE).is_some() {
                if rustup < 23 {
                    return Err(
                        Error::msg(String::from_str("--version-range requires rustup 1.23 or later")),
                    );
                }
            } else {
                if self.opt(VERSION_STEP).is_some() {
                    return Err(requires1("--version-step", "--version-range"));
                }
                if self.flag(CLEAN_PER_VERSION) {
                    return Err(requires1("--clean-per-version", "--version-range"));
                }
            }
        }
        Ok(Checked { depth, group_features, at_least_one_of, listing })
    }
}

} // verus!

verus! {

/// Whether the parse ends in listing cargo's commands.
pub open spec fn spec_listing(st: ArgsView) -> bool {
    st.opts[SUBCOMMAND as int] is None && st.lists[CARGO_ARGS as int].contains("--list"@)
}

/// Whether the parse is refused for a trailing `-Z` without its value,
/// which leaves `-Z namespaced-features` unknown (only where the checks
/// pass and no listing is asked for).
pub open spec fn z_refused(st: ArgsView, rustup: u32) -> bool {
    spec_finish_error(st, rustup) is None && !spec_listing(st)
        && crate::cli::z_flag_scan(st.lists[CARGO_ARGS as int], "namespaced-features"@) is None
}

/// The error for a trailing `-Z` without its value.
pub open spec fn trailing_z_message() -> Seq<char> {
    "`-Z` is given without its value"@
}

/// Features of the current crate, one for each name.
fn normal_features(names: &Vec<String>) -> (res: Vec<Feature>)
    ensures
        res@.len() == names@.len(),
        forall|i: int|
            0 <= i < res@.len() ==> (#[trigger] res@[i]) is Normal && res@[i].name_view()
                == names@[i]@,
{
    let mut res: Vec<Feature> = Vec::new();
    let mut i: usize = 0;
    while i < names.len()
        invariant
            i <= names@.len(),
            res@.len() == i,
            forall|k: int|
                0 <= k < i ==> (#[trigger] res@[k]) is Normal && res@[k].name_view() == names@[k]@,
        decreases names@.len() - i,
    {
        res.push(Feature::normal(names[i].as_str()));
        i = i + 1;
    }
    res
}

/// The two lists one after the other.
fn concat_lists(a: &Vec<String>, b: &Vec<String>) -> (res: Vec<String>)
    ensures
        views(res@) == views(a@) + views(b@),
{
    let mut res = clone_strings(a);
    let mut k: usize = 0;
    while k < b.len()
        invariant
            k <= b@.len(),
            views(res@) == views(a@) + views(b@).take(k as int),
        decreases b@.len() - k,
    {
        let ghost prev = res@;
        res.push(crate::feature_map::clone_string(&b[k]));
        k = k + 1;
        proof {
            assert(views(res@) =~= views(prev).push(b@[k - 1]@));
            assert(views(b@).take(k as int) =~= views(b@).take(k - 1).push(b@[k - 1]@));
        }
    }
    proof {
        assert(views(b@).take(b@.len() as int) =~= views(b@));
    }
    res
}

/// A copy of an optional string.
fn copy_opt(o: &Option<String>) -> (res: Option<String>)
    ensures
        crate::text::opt_view(res) == crate::text::opt_view(*o),
{
    match o {
        Some(s) => Some(crate::feature_map::clone_string(s)),
        None => None,
    }
}

impl ArgsState {
    /// Ends the parse once all arguments are read: the checks, then the
    /// arguments (or listing cargo's commands), with the notes given on the
    /// way. `rest` are the arguments after `--`; `rustup` is the minor
    /// version of rustup, asked only with `--version-range`.
    pub fn finish(&self, rest: Vec<String>, rustup: u32) -> (res: (Result<Finish, Error>, Vec<Note>))
        requires
            shaped(self@),
            spec_finish_error(self@, rustup) is None && !spec_listing(self@)
                ==> crate::cli::z_flag_scan(self@.lists[CARGO_ARGS as int], "namespaced-features"@) is Some,
        ensures
            notes_view(res.1@) == spec_notes(self@, rustup),
            match res.0 {
                Err(e) => spec_finish_error(self@, rustup) == Some(e@),
                Ok(Finish::List) => spec_finish_error(self@, rustup) is None && spec_listing(self@),
                Ok(Finish::Parsed(a)) => spec_finish_error(self@, rustup) is None && !spec_listing(self@)
                    && spec_args(self@, views(rest@), a),
            },
    {
        let ghost st = self@;
        let mut notes: Vec<Note> = Vec::new();
        proof {
            assert(notes_view(notes@) =~= Seq::<(bool, Seq<char>)>::empty());
        }
        let checked = match self.check(rustup, &mut notes) {
            Ok(c) => c,
            Err(e) => {
                proof {
                    assert(notes_view(notes@) =~= spec_notes(st, rustup));
                }
                return (Err(e), notes);
            },
        };
        if checked.listing {
            proof {
                assert(notes_view(notes@) =~= spec_notes(st, rustup));
            }
            return (Ok(Finish::List), notes);
        }
        if self.flag(NO_DEV_DEPS) {
            notes.push(
                Note::Info(
                    String::from_str(
                        "--no-dev-deps modifies real `Cargo.toml` while cargo-hack is running and restores it when finished",
                    ),
                ),
            );
        }
        proof {
            assert(notes_view(notes@) =~= spec_notes(st, rustup));
        }
        let cargo_args = self.list(CARGO_ARGS);
        let namespaced = crate::cli::has_z_flag(cargo_args.as_slice(), "namespaced-features");
        let args = self.build_args(rest, checked, namespaced);
        (Ok(Finish::Parsed(args)), notes)
    }
}

} // verus!

verus! {

impl ArgsState {
    /// The arguments read, once all checks pass.
    fn build_args(&self, rest: Vec<String>, checked: Checked, namespaced: bool) -> (res: Args)
        requires
            shaped(self@),
            namespaced == crate::cli::z_flag_scan(self@.lists[CARGO_ARGS as int], "namespaced-features"@)->0,
            checked.depth == match self@.opts[DEPTH as int] {
                Some(d) => Some(parse_usize(d)->Ok_0),
                None => None,
            },
            checked.group_features@.len() == self@.lists[GROUP_FEATURES as int].len(),
            forall|i: int|
                0 <= i < checked.group_features@.len() ==> (#[trigger] checked.group_features@[i]) is Group
                    && checked.group_features@[i].group_view() == group_parts(
                    self@.lists[GROUP_FEATURES as int][i],
                )->0
            && checked.group_features@[i].name_view() == join_commas(group_parts(
                    self@.lists[GROUP_FEATURES as int][i],
                )->0),
            checked.at_least_one_of@.len() == self@.lists[AT_LEAST_ONE_OF as int].len(),
            forall|i: int|
                0 <= i < checked.at_least_one_of@.len() ==> (#[trigger] checked.at_least_one_of@[i]) is Group
                    && checked.at_least_one_of@[i].group_view() == group_parts(
                    self@.lists[AT_LEAST_ONE_OF as int][i],
                )->0
            && checked.at_least_one_of@[i].name_view() == join_commas(group_parts(
                    self@.lists[AT_LEAST_ONE_OF as int][i],
                )->0),
        ensures
            spec_args(self@, views(rest@), res),
    {
        let ghost st = self@;
        let cargo_args = self.list(CARGO_ARGS);
        let mut leading_args = clone_strings(cargo_args);
        if self.verbose > 1 {
            let ghost prev = leading_args@;
            leading_args.push(verbose_flag_exec(self.verbose - 1));
            proof {
                assert(views(leading_args@) =~= views(prev).push(verbose_flag((st.verbose - 1) as nat)));
            }
        } else {
            proof {
                assert(views(leading_args@) =~= views(leading_args@) + Seq::<Seq<char>>::empty());
            }
        }
        let included = self.list(INCLUDE_FEATURES);
        let exclude_features = self.list(EXCLUDE_FEATURES);
        let features = self.list(FEATURES);
        let exclude_no_default_features = self.flag(EXCLUDE_NO_DEFAULT_FEATURES) || self.list(
            AT_LEAST_ONE_OF,
        ).len() > 0 || included.len() > 0;
        let exclude_all_features = self.flag(EXCLUDE_ALL_FEATURES) || included.len() > 0
            || exclude_features.len() > 0 || (self.flag(FEATURE_POWERSET) && !namespaced
            && checked.depth.is_none());
        let ghost rest_v = views(rest@);
        let optional_deps = match &self.optional_deps {
            Some(d) => Some(clone_strings(d)),
            None => None,
        };
        let args = Args {
            leading_args,
            trailing_args: rest,
            subcommand: copy_opt(self.opt(SUBCOMMAND)),
            manifest_path: copy_opt(self.opt(MANIFEST_PATH)),
            no_manifest_path: self.flag(NO_MANIFEST_PATH),
            package: clone_strings(self.list(PACKAGE)),
            exclude: clone_strings(self.list(EXCLUDE)),
            workspace: self.flag(WORKSPACE),
            each_feature: self.flag(EACH_FEATURE),
            feature_powerset: self.flag(FEATURE_POWERSET),
            no_dev_deps: self.flag(NO_DEV_DEPS),
            remove_dev_deps: self.flag(REMOVE_DEV_DEPS),
            no_private: self.flag(NO_PRIVATE),
            ignore_private: self.flag(IGNORE_PRIVATE) || self.flag(NO_PRIVATE),
            ignore_unknown_features: self.flag(IGNORE_UNKNOWN_FEATURES),
            clean_per_run: self.flag(CLEAN_PER_RUN),
            clean_per_version: self.flag(CLEAN_PER_VERSION),
            keep_going: self.flag(KEEP_GOING),
            print_command_list: self.flag(PRINT_COMMAND_LIST),
            version_range: copy_opt(self.opt(VERSION_RANGE)),
            version_step: copy_opt(self.opt(VERSION_STEP)),
            optional_deps,
            include_features: normal_features(included),
            include_deps_features: self.flag(INCLUDE_DEPS_FEATURES),
            exclude_features: concat_lists(exclude_features, features),
            exclude_no_default_features,
            exclude_all_features,
            depth: checked.depth,
            group_features: checked.group_features,
            at_least_one_of: checked.at_least_one_of,
            features: clone_strings(features),
            target: crate::feature_map::sorted_unique(self.list(TARGET)),
            no_default_features: self.flag(NO_DEFAULT_FEATURES),
            verbose: self.verbose != 0,
        };
        proof {
            let list = |i: usize| st.lists[i as int];
            let flag = |i: usize| st.flags[i as int];
            assert(views(args.leading_args@) == list(CARGO_ARGS) + (if st.verbose > 1 {
                seq![verbose_flag((st.verbose - 1) as nat)]
            } else {
                Seq::empty()
            }));
            assert(views(args.trailing_args@) == views(rest@));
            assert(crate::text::opt_view(args.subcommand) == st.opts[SUBCOMMAND as int]);
            assert(views(args.package@) == list(PACKAGE));
            assert(views(args.exclude_features@) == list(EXCLUDE_FEATURES) + list(FEATURES));
            assert(args.include_features@.len() == list(INCLUDE_FEATURES).len());
            assert(match args.optional_deps {
                Some(d) => st.optional_deps == Some(views(d@)),
                None => st.optional_deps is None,
            });
            assert(args.exclude_no_default_features == (flag(EXCLUDE_NO_DEFAULT_FEATURES) || list(
                AT_LEAST_ONE_OF,
            ).len() > 0 || list(INCLUDE_FEATURES).len() > 0));
            assert(crate::feature_map::strictly_sorted(views(args.target@)));
            assert(views(args.target@).to_set() == list(TARGET).to_set());
        }
        args
    }
}

} // verus!

verus! {

/// A flag, an option with one value, or `--optional-deps`, once read, is
/// refused when given again.
pub proof fn lemma_given_twice_is_refused(st: ArgsView, tok: TokenView, value: Option<Seq<char>>)
    requires
        shaped(st),
        spec_begin(st, tok) matches Ok(n) && value_fits(n, value),
        spec_classify(tok, st.opts[SUBCOMMAND as int] is None) matches Action::Flag(_)
            || spec_classify(tok, st.opts[SUBCOMMAND as int] is None) matches Action::Opt(_, _)
            || spec_classify(tok, st.opts[SUBCOMMAND as int] is None) is OptionalDeps,
    ensures
        spec_begin(spec_apply(st, tok, value).0, tok) is Err,
{
    let st2 = spec_apply(st, tok, value).0;
    assert(st2.opts[SUBCOMMAND as int] == st.opts[SUBCOMMAND as int]);
}

/// An empty value given to `--features` (`-F`), `--skip`
/// (`--exclude-features`) or `--include-features` is the same as not giving
/// the flag: the argument is accepted, and the parse goes on from the state
/// it was in.
pub proof fn lemma_empty_feature_list_is_no_flag(st: ArgsView, tok: TokenView)
    requires
        shaped(st),
        tok matches TokenView::Long(n) && (n == "features"@ || n == "skip"@ || n == "exclude-features"@
            || n == "include-features"@) || tok == TokenView::Short('F'),
    ensures
        spec_begin(st, tok) == Ok::<Need, Seq<char>>(Need::Required),
        spec_apply(st, tok, Some(Seq::empty())) == (st, Step::Continue),
{
    reveal_strlit("color");
    reveal_strlit("target");
    reveal_strlit("manifest-path");
    reveal_strlit("depth");
    reveal_strlit("version-range");
    reveal_strlit("version-step");
    reveal_strlit("package");
    reveal_strlit("exclude");
    reveal_strlit("group-features");
    reveal_strlit("features");
    reveal_strlit("skip");
    reveal_strlit("exclude-features");
    reveal_strlit("include-features");
    assert(spec_classify(tok, st.opts[SUBCOMMAND as int] is None) matches Action::Multi(i) && (i == FEATURES || i
        == EXCLUDE_FEATURES || i == INCLUDE_FEATURES));
    let e = Seq::<char>::empty();
    assert(unquote(e) == e);
    assert(split_on(e, ' ') == seq![e]);
    assert(seq![e].filter(non_empty_fn()) =~= Seq::<Seq<char>>::empty()) by {
        reveal_with_fuel(Seq::filter, 2);
        assert(seq![e].drop_last() =~= Seq::<Seq<char>>::empty());
    }
    assert(multi_values(e) =~= Seq::<Seq<char>>::empty());
    let i = match spec_classify(tok, st.opts[SUBCOMMAND as int] is None) {
        Action::Multi(i) => i as int,
        _ => 0,
    };
    assert(st.lists[i] + Seq::<Seq<char>>::empty() =~= st.lists[i]);
    assert(st.lists.update(i, st.lists[i]) =~= st.lists);
}

} // verus!

verus! {

impl ArgsState {
    /// The value read so far for the option `i` (one of `SUBCOMMAND`,
    /// `MANIFEST_PATH`, `COLOR`, `VERSION_RANGE`, `VERSION_STEP`, `DEPTH`).
    pub fn option(&self, i: usize) -> (res: Option<&str>)
        requires
            shaped(self@),
            i < N_OPTS,
        ensures
            crate::cli::sub_view(res) == self@.opts[i as int],
    {
        match &self.opts[i] {
            Some(s) => Some(s.as_str()),
            None => None,
        }
    }

    /// Ends the parse as `finish` does; where the checks pass and the
    /// arguments passed on to cargo end with a `-Z` that has no value (so
    /// that `-Z namespaced-features` cannot be looked for), that input is
    /// refused with an error and no notes.
    pub fn complete(&self, rest: Vec<String>, rustup: u32) -> (res: (Result<Finish, Error>, Vec<Note>))
        requires
            shaped(self@),
        ensures
            if z_refused(self@, rustup) {
                res.0 matches Err(e) && e@ == trailing_z_message() && res.1@.len() == 0
            } else {
                &&& notes_view(res.1@) == spec_notes(self@, rustup)
                &&& match res.0 {
                    Err(e) => spec_finish_error(self@, rustup) == Some(e@),
                    Ok(Finish::List) => spec_finish_error(self@, rustup) is None && spec_listing(self@),
                    Ok(Finish::Parsed(a)) => spec_finish_error(self@, rustup) is None && !spec_listing(self@)
                        && spec_args(self@, views(rest@), a),
                }
            },
    {
        let mut probe: Vec<Note> = Vec::new();
        match self.check(rustup, &mut probe) {
            Ok(c) => {
                if !c.listing && !self.z_flags_complete() {
                    return (Err(Error::msg(String::from_str("`-Z` is given without its value"))), Vec::new());
                }
            },
            Err(_) => {},
        }
        self.finish(rest, rustup)
    }

    /// Whether the arguments passed on to cargo leave no `-Z` without its
    /// value where `-Z namespaced-features` is looked for.
    pub fn z_flags_complete(&self) -> (res: bool)
        requires
            shaped(self@),
        ensures
            res == crate::cli::z_flag_scan(self@.lists[CARGO_ARGS as int], "namespaced-features"@) is Some,
    {
        crate::cli::scan_z_flag(self.lists[CARGO_ARGS].as_slice(), "namespaced-features").is_some()
    }
}

} // verus!
