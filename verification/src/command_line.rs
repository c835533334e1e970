//! The command line of `cargo hack`: `lexopt` splits the arguments into
//! flags and values, and the parse (`args`) reads them one by one.

use vstd::prelude::*;

use crate::args::{
    Action, classify, lone_quote, shaped, spec_apply, spec_begin, spec_classify, unquotes, value_view, ArgsState,
    ArgsView, Need, Step, Token, TokenView, N_FLAGS, N_LISTS, N_OPTS, SUBCOMMAND,
};
use crate::error::Error;
use crate::text::{chars_of, opt_view, str_eq, views};

verus! {

#[verifier::external_type_specification]
#[verifier::external_body]
pub struct ExParser(lexopt::Parser);

/// Where the lexer stands within the arguments.
pub enum LexState {
    /// Between arguments.
    Idle,
    /// After `--name=value`: the value, not taken yet.
    Pending(Seq<char>),
    /// Within a group of short flags `-abc`: the characters after the
    /// flags read so far (at least one was read).
    Cluster(Seq<char>),
    /// After `--`: every argument is a value.
    Finished,
}

/// The lexer as plain values: the arguments not read yet, where it stands,
/// and the last flag it gave (as written, `--name` or `-c`).
pub struct LexModel {
    pub left: Seq<Seq<char>>,
    pub state: LexState,
    pub last: Option<Seq<char>>,
}

/// What the lexer gives next.
pub enum Lexed {
    Long(String),
    Short(char),
    Value(String),
    End,
    Failed(String),
}

/// What the lexer gives next, as plain values.
pub enum LexedView {
    Long(Seq<char>),
    Short(char),
    Value(Seq<char>),
    End,
    Failed(Seq<char>),
}

impl View for Lexed {
    type V = LexedView;

    open spec fn view(&self) -> LexedView {
        match self {
            Lexed::Long(n) => LexedView::Long(n@),
            Lexed::Short(c) => LexedView::Short(*c),
            Lexed::Value(v) => LexedView::Value(v@),
            Lexed::End => LexedView::End,
            Lexed::Failed(e) => LexedView::Failed(e@),
        }
    }
}

/// The message of `lexopt`'s error for a value given to a flag that takes
/// none (it shows the value as Rust's `Debug` writes an `OsString`).
pub uninterp spec fn lexopt_unexpected_value(option: Seq<char>, value: Seq<char>) -> Seq<char>;

/// The message of `lexopt`'s error for a flag whose value is missing.
pub open spec fn missing_value_message(last: Option<Seq<char>>) -> Seq<char> {
    match last {
        Some(o) => "missing argument for option '"@ + o + "'"@,
        None => "missing argument"@,
    }
}

/// The last flag, or nothing.
pub open spec fn last_text(last: Option<Seq<char>>) -> Seq<char> {
    match last {
        Some(o) => o,
        None => Seq::empty(),
    }
}

/// The place of the first `c` in `s`.
pub open spec fn first_of(s: Seq<char>, c: char) -> Option<int>
    decreases s.len(),
{
    if s.len() == 0 {
        None
    } else if s[0] == c {
        Some(0)
    } else {
        match first_of(s.drop_first(), c) {
            Some(i) => Some(i + 1),
            None => None,
        }
    }
}

/// A lexer over `args`, before it has read anything.
pub open spec fn lex_start(args: Seq<Seq<char>>) -> LexModel {
    LexModel { left: args, state: LexState::Idle, last: None }
}

/// A lexer stands within a value or a group of short flags only after a
/// flag.
pub open spec fn lex_wf(m: LexModel) -> bool {
    (m.state is Pending || m.state is Cluster) ==> m.last is Some
}

/// The next argument read from between arguments: `--` ends the flags;
/// `--name` and `--name=value` are long flags (the value is kept for what
/// comes next); `-abc` gives `a` and keeps `bc`; anything else (`-` too) is
/// a value.
pub open spec fn idle_next(m: LexModel) -> (LexedView, LexModel) {
    if m.left.len() == 0 {
        (LexedView::End, m)
    } else {
        let a = m.left[0];
        let rest = m.left.drop_first();
        if a == "--"@ {
            if rest.len() == 0 {
                (LexedView::End, LexModel { left: rest, state: LexState::Finished, ..m })
            } else {
                (LexedView::Value(rest[0]), LexModel { left: rest.drop_first(), state: LexState::Finished, ..m })
            }
        } else if a.len() >= 2 && a[0] == '-' && a[1] == '-' {
            match first_of(a, '=') {
                Some(i) => (
                    LexedView::Long(a.subrange(2, i)),
                    LexModel { left: rest, state: LexState::Pending(a.skip(i + 1)), last: Some(a.take(i)) },
                ),
                None => (LexedView::Long(a.skip(2)), LexModel { left: rest, state: LexState::Idle, last: Some(a) }),
            }
        } else if a.len() > 1 && a[0] == '-' {
            (
                LexedView::Short(a[1]),
                LexModel { left: rest, state: LexState::Cluster(a.skip(2)), last: Some(seq!['-', a[1]]) },
            )
        } else {
            (LexedView::Value(a), LexModel { left: rest, ..m })
        }
    }
}

/// What `Parser::next` gives, and where the lexer then stands: a value
/// still pending is an error; within a group of short flags, the next one
/// (an `=` there starts a value, which is an error); after `--`, the next
/// argument as a value.
pub open spec fn lex_next(m: LexModel) -> (LexedView, LexModel) {
    match m.state {
        LexState::Pending(v) => (
            LexedView::Failed(lexopt_unexpected_value(last_text(m.last), v)),
            LexModel { state: LexState::Idle, ..m },
        ),
        LexState::Cluster(r) => if r.len() == 0 {
            idle_next(LexModel { state: LexState::Idle, ..m })
        } else if r[0] == '=' {
            (
                LexedView::Failed(lexopt_unexpected_value(last_text(m.last), r.drop_first())),
                LexModel { state: LexState::Idle, ..m },
            )
        } else {
            (
                LexedView::Short(r[0]),
                LexModel { state: LexState::Cluster(r.drop_first()), last: Some(seq!['-', r[0]]), ..m },
            )
        },
        LexState::Finished => if m.left.len() == 0 {
            (LexedView::End, m)
        } else {
            (LexedView::Value(m.left[0]), LexModel { left: m.left.drop_first(), ..m })
        },
        LexState::Idle => idle_next(m),
    }
}

/// What `Parser::optional_value` gives: the value after `=` of a long
/// flag, or the rest of a group of short flags (without a leading `=`).
pub open spec fn lex_optional_value(m: LexModel) -> (Option<Seq<char>>, LexModel) {
    match m.state {
        LexState::Pending(v) => (Some(v), LexModel { state: LexState::Idle, ..m }),
        LexState::Cluster(r) => if r.len() == 0 {
            (None, LexModel { state: LexState::Idle, ..m })
        } else if r[0] == '=' {
            (Some(r.drop_first()), LexModel { state: LexState::Idle, ..m })
        } else {
            (Some(r), LexModel { state: LexState::Idle, ..m })
        },
        _ => (None, m),
    }
}

/// What `Parser::value` gives: the optional value, else the next argument
/// whatever it is, else an error.
pub open spec fn lex_value(m: LexModel) -> (Result<Seq<char>, Seq<char>>, LexModel) {
    let (o, m2) = lex_optional_value(m);
    match o {
        Some(v) => (Ok(v), m2),
        None => if m2.left.len() > 0 {
            (Ok(m2.left[0]), LexModel { left: m2.left.drop_first(), ..m2 })
        } else {
            (Err(missing_value_message(m.last)), m2)
        },
    }
}

/// The arguments as a `lexopt` parser, with what it stands for.
struct Lexer {
    parser: lexopt::Parser,
    model: Ghost<LexModel>,
}

impl Lexer {
    spec fn model(&self) -> LexModel {
        self.model@
    }
}

/// `lexopt::Parser::from_args`: a parser over `args`, which has read
/// nothing.
#[verifier::external_body]
fn lexer_new(args: Vec<String>) -> (res: Lexer)
    ensures
        res.model() == lex_start(views(args@)),
{
    let ghost m = lex_start(views(args@));
    Lexer { parser: lexopt::Parser::from_args(args), model: Ghost(m) }
}

/// `lexopt::Parser::next`, as `lex_next` says (every argument being a
/// `String`, each is valid Unicode); an error by its message.
#[verifier::external_body]
fn lexer_next(lx: &mut Lexer) -> (res: Lexed)
    requires
        lex_wf(old(lx).model()),
    ensures
        (res@, final(lx).model()) == lex_next(old(lx).model()),
        old(lx).model().state matches LexState::Pending(v) ==> res@ == LexedView::Failed(
            lexopt_unexpected_value(last_text(old(lx).model().last), v),
        ),
{
    let res = match lx.parser.next() {
        Ok(Some(lexopt::Arg::Long(n))) => Lexed::Long(n.to_string()),
        Ok(Some(lexopt::Arg::Short(c))) => Lexed::Short(c),
        Ok(Some(lexopt::Arg::Value(v))) => Lexed::Value(v.to_string_lossy().into_owned()),
        Ok(None) => Lexed::End,
        Err(e) => Lexed::Failed(e.to_string()),
    };
    lx.model = Ghost(lex_next(lx.model@).1);
    res
}

/// `lexopt::Parser::optional_value`, as `lex_optional_value` says.
#[verifier::external_body]
fn lexer_optional_value(lx: &mut Lexer) -> (res: Option<String>)
    requires
        lex_wf(old(lx).model()),
    ensures
        (opt_view(res), final(lx).model()) == lex_optional_value(old(lx).model()),
{
    let res = lx.parser.optional_value().map(|v| v.to_string_lossy().into_owned());
    lx.model = Ghost(lex_optional_value(lx.model@).1);
    res
}

/// `lexopt::Parser::value`, as `lex_value` says; an error by its message.
#[verifier::external_body]
fn lexer_value(lx: &mut Lexer) -> (res: Result<String, String>)
    requires
        lex_wf(old(lx).model()),
    ensures
        (match res {
            Ok(v) => Ok::<Seq<char>, Seq<char>>(v@),
            Err(e) => Err::<Seq<char>, Seq<char>>(e@),
        }, final(lx).model()) == lex_value(old(lx).model()),
{
    let res = match lx.parser.value() {
        Ok(v) => Ok(v.to_string_lossy().into_owned()),
        Err(e) => Err(e.to_string()),
    };
    lx.model = Ghost(lex_value(lx.model@).1);
    res
}

/// The size of the arguments: their characters, and one for each.
pub open spec fn args_size(s: Seq<Seq<char>>) -> nat
    decreases s.len(),
{
    if s.len() == 0 {
        0
    } else {
        s[0].len() + 1 + args_size(s.drop_first())
    }
}

/// What the lexer has left to read.
pub open spec fn lex_size(m: LexModel) -> nat {
    args_size(m.left) + match m.state {
        LexState::Pending(v) => v.len() + 1,
        LexState::Cluster(r) => r.len() + 1,
        _ => 0,
    }
}

proof fn lemma_first_of(s: Seq<char>, c: char)
    ensures
        first_of(s, c) matches Some(i) ==> 0 <= i < s.len() && s[i] == c,
    decreases s.len(),
{
    if s.len() > 0 && s[0] != c {
        lemma_first_of(s.drop_first(), c);
    }
}

proof fn lemma_idle_next(m: LexModel)
    requires
        m.state is Idle,
    ensures
        lex_size(idle_next(m).1) <= lex_size(m),
        idle_next(m).0 !is End ==> lex_size(idle_next(m).1) < lex_size(m),
        lex_wf(idle_next(m).1),
{
    if m.left.len() > 0 {
        let a = m.left[0];
        let rest = m.left.drop_first();
        if a == "--"@ {
            if rest.len() > 0 {
                assert(args_size(rest) == rest[0].len() + 1 + args_size(rest.drop_first()));
            }
        } else if a.len() >= 2 && a[0] == '-' && a[1] == '-' {
            lemma_first_of(a, '=');
        }
    }
}

proof fn lemma_lex_next(m: LexModel)
    requires
        lex_wf(m),
    ensures
        lex_size(lex_next(m).1) <= lex_size(m),
        lex_next(m).0 !is End ==> lex_size(lex_next(m).1) < lex_size(m),
        lex_wf(lex_next(m).1),
{
    match m.state {
        LexState::Cluster(r) => if r.len() == 0 {
            lemma_idle_next(LexModel { state: LexState::Idle, ..m });
        },
        LexState::Idle => lemma_idle_next(m),
        _ => {},
    }
}

proof fn lemma_lex_value(m: LexModel)
    requires
        lex_wf(m),
    ensures
        lex_size(lex_optional_value(m).1) <= lex_size(m),
        lex_wf(lex_optional_value(m).1),
        lex_size(lex_value(m).1) <= lex_size(m),
        lex_wf(lex_value(m).1),
{
}

/// What one argument leads to: the parse ends (with what is to be done),
/// it fails with a message, or it goes on from a lexer, an argument already
/// read (a flag that followed `--optional-deps`) and a state.
pub enum StepOut {
    Stop(ArgsView, Step),
    Fail(Seq<char>),
    Go(LexModel, Option<TokenView>, ArgsView),
}

/// The error for a list value that is one quote character alone.
pub open spec fn lone_quote_message(v: Seq<char>) -> Seq<char> {
    "the value `"@ + v + "` is a lone quote and cannot be unquoted"@
}

/// The argument `tok`, with its value read, applied to the state: a lone
/// quote given to a list of features or of optional dependencies is
/// refused; else the parse ends where the argument asks for help or the
/// version, or where `end` (the arguments ran out while a value was
/// looked for), and goes on otherwise.
pub open spec fn after_value(
    m: LexModel,
    st: ArgsView,
    tok: TokenView,
    value: Option<Seq<char>>,
    pending: Option<TokenView>,
    end: bool,
) -> StepOut {
    if unquotes(spec_classify(tok, st.opts[SUBCOMMAND as int] is None)) && lone_quote(value) {
        StepOut::Fail(lone_quote_message(value->0))
    } else {
        let (st2, step) = spec_apply(st, tok, value);
        if step != Step::Continue {
            StepOut::Stop(st2, step)
        } else if end {
            StepOut::Stop(st2, Step::Continue)
        } else {
            StepOut::Go(m, pending, st2)
        }
    }
}

/// The argument `tok` read: `begin` says whether it takes a value; a
/// required value is the optional one or else the next argument; an
/// optional one only what is attached; for `--optional-deps`, the attached
/// value, else the next argument where it is a value: a flag there is
/// kept to be read next, not taken as the value.
pub open spec fn spec_token_step(m: LexModel, st: ArgsView, tok: TokenView) -> StepOut {
    match spec_begin(st, tok) {
        Err(e) => StepOut::Fail(e),
        Ok(Need::Nothing) => after_value(m, st, tok, None, None, false),
        Ok(Need::Required) => match lex_value(m) {
            (Err(e), _) => StepOut::Fail(e),
            (Ok(v), m2) => after_value(m2, st, tok, Some(v), None, false),
        },
        Ok(Need::Optional) => {
            let (o, m2) = lex_optional_value(m);
            after_value(m2, st, tok, o, None, false)
        },
        Ok(Need::OptionalOrNext) => {
            let (o, m2) = lex_optional_value(m);
            match o {
                Some(v) => after_value(m2, st, tok, Some(v), None, false),
                None => match lex_next(m2) {
                    (LexedView::Value(v), m3) => after_value(m3, st, tok, Some(v), None, false),
                    (LexedView::Long(n), m3) => after_value(m3, st, tok, None, Some(TokenView::Long(n)), false),
                    (LexedView::Short(c), m3) => after_value(m3, st, tok, None, Some(TokenView::Short(c)), false),
                    (LexedView::End, m3) => after_value(m3, st, tok, None, None, true),
                    (LexedView::Failed(e), _) => StepOut::Fail(e),
                },
            }
        },
    }
}

/// One step of the parse: the argument kept from before, else the next one
/// the lexer gives (the parse ends where there is none).
#[verifier::opaque]
pub open spec fn spec_iter(m: LexModel, pending: Option<TokenView>, st: ArgsView) -> StepOut {
    match pending {
        Some(t) => spec_token_step(m, st, t),
        None => match lex_next(m) {
            (LexedView::Long(n), m1) => spec_token_step(m1, st, TokenView::Long(n)),
            (LexedView::Short(c), m1) => spec_token_step(m1, st, TokenView::Short(c)),
            (LexedView::Value(v), m1) => spec_token_step(m1, st, TokenView::Value(v)),
            (LexedView::End, _) => StepOut::Stop(st, Step::Continue),
            (LexedView::Failed(e), _) => StepOut::Fail(e),
        },
    }
}

/// The parse, step by step, for at most `fuel` steps (each step reads part
/// of the arguments, so twice their size and two more is enough).
pub open spec fn spec_run(m: LexModel, pending: Option<TokenView>, st: ArgsView, fuel: nat) -> Result<
    (ArgsView, Step),
    Seq<char>,
>
    decreases fuel,
{
    if fuel == 0 {
        Err(Seq::empty())
    } else {
        match spec_iter(m, pending, st) {
            StepOut::Stop(st2, step) => Ok((st2, step)),
            StepOut::Fail(e) => Err(e),
            StepOut::Go(m2, p2, st2) => spec_run(m2, p2, st2, (fuel - 1) as nat),
        }
    }
}

/// The state of the parse before any argument.
pub open spec fn initial_args() -> ArgsView {
    ArgsView {
        flags: Seq::new(N_FLAGS as nat, |i: int| false),
        verbose: 0,
        lists: Seq::new(N_LISTS as nat, |i: int| Seq::<Seq<char>>::empty()),
        opts: Seq::new(N_OPTS as nat, |i: int| None::<Seq<char>>),
        optional_deps: None,
    }
}

/// The place of the first `--` among the arguments, or their number.
pub open spec fn first_dashes(s: Seq<Seq<char>>) -> int
    decreases s.len(),
{
    if s.len() == 0 {
        0
    } else if s[0] == "--"@ {
        0
    } else {
        1 + first_dashes(s.drop_first())
    }
}

/// The arguments before the first `--`, and those after it.
pub open spec fn split_dashes(s: Seq<Seq<char>>) -> (Seq<Seq<char>>, Seq<Seq<char>>) {
    let j = first_dashes(s);
    (s.take(j), if j < s.len() { s.skip(j + 1) } else { Seq::empty() })
}

/// The command line after the program's name: `hack`, then the arguments
/// of `cargo hack` up to `--` (read as `spec_run` says, from an empty
/// state), then those after it, passed on as they are; or the error.
pub open spec fn spec_read_command_line(raw: Seq<Seq<char>>) -> Result<(ArgsView, Step, Seq<Seq<char>>), Seq<char>> {
    if raw.len() == 0 {
        Err("expected subcommand 'hack'"@)
    } else if raw[0] != "hack"@ {
        Err("expected subcommand 'hack', found argument '"@ + raw[0] + "'"@)
    } else {
        let (args, rest) = split_dashes(raw.drop_first());
        match spec_run(lex_start(args), None, initial_args(), 2 * args_size(args) + 2) {
            Ok((st, step)) => Ok((st, step, rest)),
            Err(e) => Err(e),
        }
    }
}

/// The outcome of one argument.
enum Outcome {
    Stop(Step),
    Fail(Error),
    Go(Option<Token>),
}

/// An argument kept, as plain values.
pub open spec fn opt_token_view(p: Option<Token>) -> Option<TokenView> {
    match p {
        Some(t) => Some(t@),
        None => None,
    }
}

spec fn outcome_view(o: Outcome, st: ArgsView, m: LexModel) -> StepOut {
    match o {
        Outcome::Stop(s) => StepOut::Stop(st, s),
        Outcome::Fail(e) => StepOut::Fail(e@),
        Outcome::Go(p) => StepOut::Go(
            m,
            match p {
                Some(t) => Some(t@),
                None => None,
            },
            st,
        ),
    }
}

/// Whether the value is one quote character alone.
fn is_lone_quote(v: &Option<String>) -> (res: bool)
    ensures
        res == lone_quote(value_view(*v)),
{
    match v {
        Some(s) => {
            let cs = chars_of(s.as_str());
            cs.len() == 1 && (cs[0] == '\'' || cs[0] == '"')
        },
        None => false,
    }
}

fn lone_quote_error(v: &Option<String>) -> (res: Error)
    requires
        v is Some,
    ensures
        res@ == lone_quote_message(value_view(*v)->0),
{
    let mut m = String::from_str("the value `");
    match v {
        Some(s) => m.append(s.as_str()),
        None => {},
    }
    m.append("` is a lone quote and cannot be unquoted");
    Error::msg(m)
}

/// Reads the value that the argument `tok` takes and applies it (see
/// `spec_token_step`).
fn step_token(lx: &mut Lexer, st: &mut ArgsState, tok: Token) -> (res: Outcome)
    requires
        lex_wf(old(lx).model()),
        shaped(old(st)@),
        old(st)@.verbose < usize::MAX,
    ensures
        outcome_view(res, final(st)@, final(lx).model()) == spec_token_step(old(lx).model(), old(st)@, tok@),
        lex_wf(final(lx).model()),
        shaped(final(st)@),
        lex_size(final(lx).model()) <= lex_size(old(lx).model()),
        res matches Outcome::Go(Some(_)) ==> lex_size(final(lx).model()) < lex_size(old(lx).model()),
        final(st)@.verbose <= old(st)@.verbose + 1,
{
    let ghost m0 = lx.model();
    proof {
        lemma_lex_value(m0);
        lemma_lex_next(lex_optional_value(m0).1);
    }
    let need = match st.begin(&tok) {
        Ok(n) => n,
        Err(e) => return Outcome::Fail(e),
    };
    let mut pending: Option<Token> = None;
    let mut end = false;
    let value: Option<String> = match need {
        Need::Nothing => None,
        Need::Required => match lexer_value(lx) {
            Ok(v) => Some(v),
            Err(e) => return Outcome::Fail(Error::msg(e)),
        },
        Need::Optional => lexer_optional_value(lx),
        Need::OptionalOrNext => match lexer_optional_value(lx) {
            Some(v) => Some(v),
            None => match lexer_next(lx) {
                Lexed::Value(v) => Some(v),
                Lexed::Long(n) => {
                    pending = Some(Token::Long(n));
                    None
                },
                Lexed::Short(c) => {
                    pending = Some(Token::Short(c));
                    None
                },
                Lexed::End => {
                    end = true;
                    None
                },
                Lexed::Failed(e) => return Outcome::Fail(Error::msg(e)),
            },
        },
    };
    let no_sub = st.option(SUBCOMMAND).is_none();
    let action = classify(&tok, no_sub);
    let unquoting = match action {
        Action::Multi(_) => true,
        Action::OptionalDeps => true,
        _ => false,
    };
    if unquoting && is_lone_quote(&value) {
        return Outcome::Fail(lone_quote_error(&value));
    }
    let step = st.apply(tok, value);
    match step {
        Step::Continue => if end {
            Outcome::Stop(Step::Continue)
        } else {
            Outcome::Go(pending)
        },
        _ => Outcome::Stop(step),
    }
}

/// The argument kept from before, else the next one the lexer gives,
/// applied (see `spec_iter`).
fn iter_step(lx: &mut Lexer, st: &mut ArgsState, pending: Option<Token>) -> (res: Outcome)
    requires
        lex_wf(old(lx).model()),
        shaped(old(st)@),
        old(st)@.verbose < usize::MAX,
    ensures
        outcome_view(res, final(st)@, final(lx).model()) == spec_iter(old(lx).model(), match pending {
            Some(t) => Some(t@),
            None => None::<TokenView>,
        }, old(st)@),
        lex_wf(final(lx).model()),
        shaped(final(st)@),
        res matches Outcome::Go(p) ==> 2 * lex_size(final(lx).model()) + (if p is Some { 1int } else { 0 }) < 2
            * lex_size(old(lx).model()) + (if pending is Some { 1int } else { 0 }),
        final(st)@.verbose <= old(st)@.verbose + 1,
{
    reveal(spec_iter);
    let ghost m0 = lx.model();
    let tok = match pending {
        Some(t) => t,
        None => {
            proof {
                lemma_lex_next(m0);
            }
            match lexer_next(lx) {
                Lexed::Long(n) => Token::Long(n),
                Lexed::Short(c) => Token::Short(c),
                Lexed::Value(v) => Token::Value(v),
                Lexed::End => {
                    return Outcome::Stop(Step::Continue);
                },
                Lexed::Failed(e) => {
                    return Outcome::Fail(Error::msg(e));
                },
            }
        },
    };
    step_token(lx, st, tok)
}

proof fn lemma_args_size_take(s: Seq<Seq<char>>, j: int)
    requires
        0 <= j <= s.len(),
    ensures
        args_size(s.take(j)) <= args_size(s),
    decreases s.len(),
{
    if j > 0 {
        assert(s.take(j).drop_first() =~= s.drop_first().take(j - 1));
        lemma_args_size_take(s.drop_first(), j - 1);
    }
}

proof fn lemma_first_dashes(s: Seq<Seq<char>>)
    ensures
        0 <= first_dashes(s) <= s.len(),
        first_dashes(s) < s.len() ==> s[first_dashes(s)] == "--"@,
        forall|k: int| 0 <= k < first_dashes(s) ==> s[k] != "--"@,
    decreases s.len(),
{
    if s.len() > 0 && s[0] != "--"@ {
        lemma_first_dashes(s.drop_first());
        assert forall|k: int| 0 <= k < first_dashes(s) implies s[k] != "--"@ by {
            if k > 0 {
                assert(s[k] == s.drop_first()[k - 1]);
            }
        }
    }
}

/// The result of reading the command line: the state of the parse, what
/// is to be done (go on, or print the help or the version), and the
/// arguments after `--`.
pub struct CommandLine {
    pub state: ArgsState,
    pub step: Step,
    pub rest: Vec<String>,
}

/// Reads the command line after the program's name (see
/// `spec_read_command_line`): `lexopt` splits the arguments into flags and
/// values, and each is applied to the parse in turn.
pub fn read_command_line(raw: Vec<String>) -> (res: Result<CommandLine, Error>)
    requires
        2 * args_size(views(raw@)) + 2 < usize::MAX,
    ensures
        match res {
            Ok(c) => shaped(c.state@) && spec_read_command_line(views(raw@)) == Ok::<
                (ArgsView, Step, Seq<Seq<char>>),
                Seq<char>,
            >((c.state@, c.step, views(c.rest@))),
            Err(e) => spec_read_command_line(views(raw@)) == Err::<(ArgsView, Step, Seq<Seq<char>>), Seq<char>>(e@),
        },
{
    let ghost rv = views(raw@);
    if raw.len() == 0 {
        return Err(Error::msg(String::from_str("expected subcommand 'hack'")));
    }
    if !str_eq(raw[0].as_str(), "hack") {
        let mut m = String::from_str("expected subcommand 'hack', found argument '");
        m.append(raw[0].as_str());
        m.append("'");
        return Err(Error::msg(m));
    }
    let ghost t = rv.drop_first();
    proof {
        lemma_first_dashes(t);
    }
    let mut args: Vec<String> = Vec::new();
    let mut i: usize = 1;
    while i < raw.len() && !str_eq(raw[i].as_str(), "--")
        invariant
            1 <= i <= raw@.len(),
            rv == views(raw@),
            t == rv.drop_first(),
            0 <= first_dashes(t) <= t.len(),
            first_dashes(t) < t.len() ==> t[first_dashes(t)] == "--"@,
            forall|k: int| 0 <= k < first_dashes(t) ==> t[k] != "--"@,
            i - 1 <= first_dashes(t),
            views(args@) == t.take(i - 1),
        decreases raw@.len() - i,
    {
        assert(t[i - 1] == raw@[i as int]@);
        let ghost before = views(args@);
        args.push(String::from_str(raw[i].as_str()));
        proof {
            assert(views(args@) =~= before.push(raw@[i as int]@));
        }
        i = i + 1;
        proof {
            assert(views(args@) =~= t.take(i - 1));
        }
    }
    proof {
        if i < raw.len() {
            assert(t[i - 1] == "--"@);
        }
        assert(i - 1 == first_dashes(t));
    }
    let mut rest: Vec<String> = Vec::new();
    if i < raw.len() {
        let mut k: usize = i + 1;
        while k < raw.len()
            invariant
                i + 1 <= k <= raw@.len(),
                rv == views(raw@),
                views(rest@) == rv.subrange(i + 1, k as int),
            decreases raw@.len() - k,
        {
            let ghost before = views(rest@);
            rest.push(String::from_str(raw[k].as_str()));
            proof {
                assert(views(rest@) =~= before.push(raw@[k as int]@));
            }
            k = k + 1;
            proof {
                assert(views(rest@) =~= rv.subrange(i + 1, k as int));
            }
        }
    }
    let ghost argsv = views(args@);
    proof {
        assert(argsv =~= split_dashes(t).0);
        assert(views(rest@) =~= split_dashes(t).1);
        lemma_args_size_take(t, i - 1);
        assert(args_size(rv) == rv[0].len() + 1 + args_size(t));
    }
    let mut lx = lexer_new(args);
    let mut st = ArgsState::new();
    proof {
        assert(st@.flags =~= initial_args().flags);
        assert(st@.lists =~= initial_args().lists);
        assert(st@.opts =~= initial_args().opts);
        assert(st@ == initial_args());
    }
    let ghost fuel0 = 2 * args_size(argsv) + 2;
    let ghost goal = spec_run(lex_start(argsv), None, initial_args(), fuel0);
    let ghost mut fuel: nat = fuel0;
    let mut pending: Option<Token> = None;
    loop
        invariant
            lex_wf(lx.model()),
            shaped(st@),
            goal == spec_run(lx.model(), match pending {
                Some(t) => Some(t@),
                None => None::<TokenView>,
            }, st@, fuel),
            fuel >= 2 * lex_size(lx.model()) + (if pending is Some { 1int } else { 0 }) + 1,
            st@.verbose + 2 * lex_size(lx.model()) + (if pending is Some { 1int } else { 0 }) <= 2 * args_size(
                argsv,
            ),
            2 * args_size(argsv) + 2 < usize::MAX,
            goal == spec_run(lex_start(argsv), None, initial_args(), fuel0),
            rv == views(raw@),
            spec_read_command_line(rv) == match goal {
                Ok((s2, step)) => Ok((s2, step, views(rest@))),
                Err(e) => Err::<(ArgsView, Step, Seq<Seq<char>>), Seq<char>>(e),
            },
        decreases 2 * lex_size(lx.model()) + (if pending is Some { 1int } else { 0 }),
    {
        let ghost m0 = lx.model();
        let ghost s0 = st@;
        let ghost pv = opt_token_view(pending);
        match iter_step(&mut lx, &mut st, pending) {
            Outcome::Stop(step) => {
                proof {
                    assert(spec_iter(m0, pv, s0) == StepOut::Stop(st@, step));
                    assert(goal == Ok::<(ArgsView, Step), Seq<char>>((st@, step)));
                }
                return Ok(CommandLine { state: st, step, rest });
            },
            Outcome::Fail(e) => {
                proof {
                    assert(spec_iter(m0, pv, s0) == StepOut::Fail(e@));
                    assert(goal == Err::<(ArgsView, Step), Seq<char>>(e@));
                }
                return Err(e);
            },
            Outcome::Go(p) => {
                pending = p;
                proof {
                    fuel = (fuel - 1) as nat;
                }
            },
        }
    }
}

} // verus!
