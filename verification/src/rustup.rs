//! Choosing Rust toolchains: the versions of a `--version-range`, the
//! arguments that install a toolchain, and the version of rustup itself.

use vstd::prelude::*;

use vstd::arithmetic::div_mod::{
    lemma_div_is_ordered, lemma_div_multiples_vanish, lemma_fundamental_div_mod, lemma_fundamental_div_mod_converse,
    lemma_mod_multiples_basic,
};

use crate::error::Error;
use crate::pattern::{decimal, decimal_string, join_strings, join_with, strip_prefix_pat, strip_prefix_str};
use crate::text::{opt_view, split_chars, split_on, str_eq, views};
use crate::version::{
    range_text, spec_parse_version, version_lt, Version, VersionRange,
};

verus! {

/// The rustup in use, by its minor version (`1.<minor>.<patch>`).
#[derive(Clone, Copy, PartialEq, Eq, Structural, Debug)]
pub struct Rustup {
    pub version: u32,
}

impl Rustup {
    /// The rustup whose minor version was found, or, where it could not be
    /// determined, the newest one.
    pub fn new(found: &Result<u32, Error>) -> (res: Rustup)
        ensures
            res.version == match found {
                Ok(v) => *v,
                Err(_) => u32::MAX,
            },
    {
        let version = match found {
            Ok(v) => *v,
            Err(_) => u32::MAX,
        };
        Rustup { version }
    }
}

/// The message for output of a command that could not be understood.
pub open spec fn unexpected_output(cmd: Seq<char>, output: Seq<char>) -> Seq<char> {
    "unexpected output from "@ + cmd + ": "@ + output
}

/// How the minor version of rustup is read from the output of
/// `rustup --version`: the second word after the word `rustup`, a version
/// `1.minor.patch`.
pub open spec fn spec_minor_version(output: Seq<char>, cmd: Seq<char>) -> Result<u32, Seq<char>> {
    let words = split_on(output, ' ');
    if words[0] != "rustup"@ || words.len() < 2 {
        Err(unexpected_output(cmd, output))
    } else {
        match spec_parse_version(words[1]) {
            Err(e) => Err(e),
            Ok(v) => if v.major != 1 || v.patch is None {
                Err(unexpected_output(cmd, output))
            } else {
                Ok(v.minor)
            },
        }
    }
}

/// The error for output of `cmd` that could not be understood.
fn unexpected_output_error(cmd: &str, output: &str) -> (res: Error)
    ensures
        res@ == unexpected_output(cmd@, output@),
{
    let mut m = String::from_str("unexpected output from ");
    m.append(cmd);
    m.append(": ");
    m.append(output);
    Error::msg(m)
}

/// Reads the minor version of rustup from `output`, the output of the
/// command whose text is `cmd`.
pub fn minor_version(output: &str, cmd: &str) -> (res: Result<u32, Error>)
    ensures
        match res {
            Ok(v) => spec_minor_version(output@, cmd@) == Ok::<u32, Seq<char>>(v),
            Err(e) => spec_minor_version(output@, cmd@) == Err::<u32, Seq<char>>(e@),
        },
{
    let words = split_chars(output, ' ');
    proof {
        crate::text::lemma_split_on_nonempty(output@, ' ');
        reveal_strlit("rustup");
    }
    if !str_eq(words[0].as_str(), "rustup") || words.len() < 2 {
        return Err(unexpected_output_error(cmd, output));
    }
    let v = Version::from_str(words[1].as_str())?;
    if v.major != 1 || v.patch.is_none() {
        return Err(unexpected_output_error(cmd, output));
    }
    Ok(v.minor)
}

/// The warning for a version whose patch is given, though the range
/// always takes the latest patch.
pub open spec fn patch_warning(patch: u32) -> Seq<char> {
    "--version-range always selects the latest patch release per minor release, not the specified patch release `"@
        + decimal(patch as nat) + "`"@
}

/// What checking an end of a range gives: an error where the major version
/// is not 1, else the warning about a given patch, if any.
pub open spec fn spec_check(v: Version) -> Result<Option<Seq<char>>, Seq<char>> {
    if v.major != 1 {
        Err("major version must be 1"@)
    } else {
        match v.patch {
            Some(p) => Ok(Some(patch_warning(p))),
            None => Ok(None),
        }
    }
}

/// Checks an end of a range given by the user.
fn check(v: &Version) -> (res: Result<Option<String>, Error>)
    ensures
        match res {
            Ok(w) => spec_check(*v) == Ok::<Option<Seq<char>>, Seq<char>>(
                opt_view(w),
            ),
            Err(e) => spec_check(*v) == Err::<Option<Seq<char>>, Seq<char>>(e@),
        },
{
    if v.major != 1 {
        return Err(Error::msg(String::from_str("major version must be 1")));
    }
    match v.patch {
        Some(p) => {
            let mut w = String::from_str(
                "--version-range always selects the latest patch release per minor release, not the specified patch release `",
            );
            let d = decimal_string(p);
            w.append(d.as_str());
            w.append("`");
            Ok(Some(w))
        },
        None => Ok(None),
    }
}

/// The lower of two optional minimum Rust versions.
pub open spec fn lower_msrv(acc: Option<Version>, pkg: Option<Version>) -> Option<Version> {
    match (acc, pkg) {
        (Some(w), Some(p)) => if version_lt(w, p) {
            Some(w)
        } else {
            Some(p)
        },
        (Some(m), None) => Some(m),
        (None, Some(m)) => Some(m),
        (None, None) => None,
    }
}

/// The lowest `rust-version` of the packages, each without its patch; the
/// first one that does not parse is an error.
pub open spec fn spec_lowest_msrv(ms: Seq<Option<Seq<char>>>) -> Result<Option<Version>, Seq<char>>
    decreases ms.len(),
{
    if ms.len() == 0 {
        Ok(None)
    } else {
        match spec_lowest_msrv(ms.drop_last()) {
            Err(e) => Err(e),
            Ok(acc) => match ms.last() {
                None => Ok(lower_msrv(acc, None)),
                Some(s) => match spec_parse_version(s) {
                    Err(e) => Err(e),
                    Ok(v) => Ok(
                        lower_msrv(acc, Some(Version { major: v.major, minor: v.minor, patch: None })),
                    ),
                },
            },
        }
    }
}

/// The texts of a list of optional strings.
pub open spec fn opt_views(list: Seq<Option<String>>) -> Seq<Option<Seq<char>>> {
    list.map_values(|o: Option<String>| match o {
        Some(s) => Some(s@),
        None => None,
    })
}

/// Once a prefix of the list fails to parse, the whole list fails with the
/// same error.
proof fn lemma_lowest_msrv_err(ms: Seq<Option<Seq<char>>>, j: int, e: Seq<char>)
    requires
        0 <= j <= ms.len(),
        spec_lowest_msrv(ms.take(j)) == Err::<Option<Version>, Seq<char>>(e),
    ensures
        spec_lowest_msrv(ms) == Err::<Option<Version>, Seq<char>>(e),
    decreases ms.len() - j,
{
    if j < ms.len() {
        assert(ms.take(j + 1).drop_last() =~= ms.take(j));
        lemma_lowest_msrv_err(ms, j + 1, e);
    } else {
        assert(ms.take(j) =~= ms);
    }
}

/// The lowest `rust-version` of the packages.
pub fn lowest_msrv(msrvs: &[Option<String>]) -> (res: Result<Option<Version>, Error>)
    ensures
        match res {
            Ok(v) => spec_lowest_msrv(opt_views(msrvs@)) == Ok::<Option<Version>, Seq<char>>(v),
            Err(e) => spec_lowest_msrv(opt_views(msrvs@)) == Err::<Option<Version>, Seq<char>>(e@),
        },
{
    let mut acc: Option<Version> = None;
    let mut i: usize = 0;
    while i < msrvs.len()
        invariant
            i <= msrvs@.len(),
            spec_lowest_msrv(opt_views(msrvs@).take(i as int)) == Ok::<Option<Version>, Seq<char>>(
                acc,
            ),
        decreases msrvs@.len() - i,
    {
        proof {
            assert(opt_views(msrvs@).take(i + 1).drop_last() =~= opt_views(msrvs@).take(i as int));
        }
        let pkg = match &msrvs[i] {
            Some(s) => match Version::from_str(s.as_str()) {
                Ok(v) => Some(v.strip_patch()),
                Err(e) => {
                    proof {
                        lemma_lowest_msrv_err(opt_views(msrvs@), i + 1, e@);
                    }
                    return Err(e);
                },
            },
            None => None,
        };
        acc = match (acc, pkg) {
            (Some(w), Some(p)) => if crate::version::version_less(&w, &p) {
                Some(w)
            } else {
                Some(p)
            },
            (Some(m), None) => Some(m),
            (None, Some(m)) => Some(m),
            (None, None) => None,
        };
        i = i + 1;
    }
    proof {
        assert(opt_views(msrvs@).take(msrvs@.len() as int) =~= opt_views(msrvs@));
    }
    Ok(acc)
}

/// The versions `1.start`, `1.(start + step)`, ... up to `1.end`, as
/// `(start..=end).step_by(step)` gives them.
pub open spec fn stepped_versions(start: u32, end: u32, step: u16) -> Seq<Version> {
    let count: int = if start > end {
        0
    } else {
        (end - start) / (step as int) + 1
    };
    Seq::new(
        count as nat,
        |i: int| Version { major: 1, minor: (start + i * step) as u32, patch: None },
    )
}

/// The versions of a range, with the warnings checking its ends gave.
pub open spec fn spec_version_range(
    range: VersionRange,
    step: u16,
    msrvs: Seq<Option<Seq<char>>>,
    stable: Option<Version>,
) -> Result<(Seq<Version>, Seq<Seq<char>>), Seq<char>> {
    let start = match range.start_inclusive {
        Some(v) => match spec_check(v) {
            Err(e) => Err(e),
            Ok(w) => Ok((v, w)),
        },
        None => match spec_lowest_msrv(msrvs) {
            Err(e) => Err(e),
            Ok(None) => Err("no rust-version field in selected Cargo.toml's is specified"@),
            Ok(Some(v)) => match spec_check(v) {
                Err(e) => Err(e),
                Ok(w) => Ok((v, w)),
            },
        },
    };
    match start {
        Err(e) => Err(e),
        Ok((s, sw)) => {
            let end = match range.end_inclusive {
                Some(v) => match spec_check(v) {
                    Err(e) => Err(e),
                    Ok(w) => Ok((v, w)),
                },
                None => Ok((stable.unwrap(), None)),
            };
            match end {
                Err(e) => Err(e),
                Ok((e, ew)) => {
                    let versions = stepped_versions(s.minor, e.minor, step);
                    let warnings = opt_seq(sw) + opt_seq(ew);
                    if versions.len() == 0 {
                        Err("specified version range `"@ + range_text(range) + "` is empty"@)
                    } else {
                        Ok((versions, warnings))
                    }
                },
            }
        },
    }
}

/// A list of the one item of an option.
pub open spec fn opt_seq(o: Option<Seq<char>>) -> Seq<Seq<char>> {
    match o {
        Some(x) => seq![x],
        None => Seq::empty(),
    }
}

/// The start of a range: the given start, or else the lowest
/// `rust-version` of the packages, checked.
pub fn resolve_start(range: &VersionRange, msrvs: &[Option<String>]) -> (res: Result<
    (Version, Option<String>),
    Error,
>)
    ensures
        match res {
            Ok((v, w)) => {
                &&& spec_lowest_msrv(opt_views(msrvs@)) is Ok || range.start_inclusive is Some
                &&& spec_check(v) == Ok::<Option<Seq<char>>, Seq<char>>(
                    opt_view(w),
                )
                &&& v == match range.start_inclusive {
                    Some(s) => s,
                    None => spec_lowest_msrv(opt_views(msrvs@))->Ok_0->Some_0,
                }
                &&& range.start_inclusive is None ==> spec_lowest_msrv(opt_views(msrvs@))->Ok_0 is Some
            },
            Err(e) => match range.start_inclusive {
                Some(s) => spec_check(s) == Err::<Option<Seq<char>>, Seq<char>>(e@),
                None => match spec_lowest_msrv(opt_views(msrvs@)) {
                    Err(m) => m == e@,
                    Ok(None) => e@ == "no rust-version field in selected Cargo.toml's is specified"@,
                    Ok(Some(v)) => spec_check(v) == Err::<Option<Seq<char>>, Seq<char>>(e@),
                },
            },
        },
{
    let v = match range.start_inclusive {
        Some(v) => v,
        None => match lowest_msrv(msrvs)? {
            Some(v) => v,
            None => {
                return Err(
                    Error::msg(
                        String::from_str("no rust-version field in selected Cargo.toml's is specified"),
                    ),
                );
            },
        },
    };
    let w = check(&v)?;
    Ok((v, w))
}

/// The versions of `(start..=end).step_by(step)`, each `1.minor`.
fn versions_between(start: u32, end: u32, step: u16) -> (res: Vec<Version>)
    requires
        step > 0,
    ensures
        res@ == stepped_versions(start, end, step),
{
    let mut res: Vec<Version> = Vec::new();
    if start > end {
        proof {
            assert(res@ =~= stepped_versions(start, end, step));
        }
        return res;
    }
    let mut minor: u32 = start;
    proof {
        assert(step * (res@.len() as int) == 0) by (nonlinear_arith)
            requires
                res@.len() == 0,
        ;
    }
    let ghost count: int = (end - start) / (step as int) + 1;
    loop
        invariant
            step > 0,
            start <= minor <= end,
            minor == start + step * res@.len(),
            res@.len() < count,
            count == (end - start) / (step as int) + 1,
            forall|i: int| #![trigger res@[i]] 0 <= i < res@.len() ==> res@[i] == (Version {
                major: 1,
                minor: (start + i * step) as u32,
                patch: None,
            }),
        decreases end - minor,
    {
        let ghost k: int = res@.len() as int;
        proof {
            assert(step * k == k * step) by (nonlinear_arith);
        }
        res.push(Version { major: 1, minor, patch: None });
        if end - minor < step as u32 {
            proof {
                lemma_fundamental_div_mod_converse(end - start, step as int, k, end - minor);
                assert(res@ =~= stepped_versions(start, end, step));
            }
            return res;
        }
        proof {
            assert(step * (k + 1) == step * k + step) by (nonlinear_arith);
            lemma_div_multiples_vanish(k + 1, step as int);
            lemma_div_is_ordered(step * (k + 1), end - start, step as int);
        }
        minor = minor + step as u32;
    }
}

/// The Rust versions of a `--version-range`, with the warnings that
/// checking its ends gave. A missing start is the lowest `rust-version` of
/// the packages; a missing end is the latest stable release, `stable`.
pub fn version_range(
    range: &VersionRange,
    step: u16,
    msrvs: &[Option<String>],
    stable: Option<Version>,
) -> (res: Result<(Vec<Version>, Vec<String>), Error>)
    requires
        step > 0,
        range.end_inclusive is None ==> stable is Some,
    ensures
        match res {
            Ok((vs, ws)) => spec_version_range(*range, step, opt_views(msrvs@), stable) == Ok::<
                (Seq<Version>, Seq<Seq<char>>),
                Seq<char>,
            >((vs@, views(ws@))),
            Err(e) => spec_version_range(*range, step, opt_views(msrvs@), stable) == Err::<
                (Seq<Version>, Seq<Seq<char>>),
                Seq<char>,
            >(e@),
        },
{
    let (start, start_warning) = resolve_start(range, msrvs)?;
    let (end, end_warning) = match range.end_inclusive {
        Some(v) => {
            let w = check(&v)?;
            (v, w)
        },
        None => (stable.unwrap(), None),
    };
    let ghost sw = opt_view(start_warning);
    let ghost ew = opt_view(end_warning);
    let versions = versions_between(start.minor, end.minor, step);
    let mut warnings: Vec<String> = Vec::new();
    if let Some(w) = start_warning {
        warnings.push(w);
    }
    proof {
        assert(views(warnings@) =~= opt_seq(sw));
    }
    if let Some(w) = end_warning {
        warnings.push(w);
    }
    proof {
        assert(views(warnings@) =~= opt_seq(sw) + opt_seq(ew));
    }
    if versions.len() == 0 {
        let mut m = String::from_str("specified version range `");
        let t = range.to_text();
        m.append(t.as_str());
        m.append("` is empty");
        return Err(Error::msg(m));
    }
    Ok((versions, warnings))
}

/// The name of a toolchain, without a leading `+`.
pub open spec fn toolchain_name(toolchain: Seq<char>) -> Seq<char> {
    match strip_prefix_pat(toolchain, "+"@) {
        Some(t) => t,
        None => toolchain,
    }
}

/// The arguments of the `rustup` command that installs a toolchain for the
/// targets, or none where there are no targets and the toolchain is
/// already installed.
pub open spec fn spec_install_args(toolchain: Seq<char>, target: Seq<Seq<char>>, installed: bool) -> Option<
    Seq<Seq<char>>,
> {
    if target.len() == 0 && installed {
        None
    } else {
        let base = seq!["toolchain"@, "add"@, toolchain_name(toolchain), "--no-self-update"@];
        if target.len() == 0 {
            Some(base)
        } else {
            Some(base + seq!["--target"@, join_with(target, ","@)])
        }
    }
}

/// The arguments that make `rustup` install `toolchain` (a leading `+`
/// dropped) for the targets; `None` where there are no targets and the
/// toolchain is already installed, which is asked only then.
pub fn install_toolchain(toolchain: &str, target: &[String], installed: bool) -> (res: Option<
    Vec<String>,
>)
    ensures
        match res {
            Some(args) => spec_install_args(toolchain@, views(target@), installed) == Some(
                views(args@),
            ),
            None => spec_install_args(toolchain@, views(target@), installed) == None::<
                Seq<Seq<char>>,
            >,
        },
{
    if target.len() == 0 && installed {
        return None;
    }
    let name = match strip_prefix_str(toolchain, "+") {
        Some(t) => t,
        None => String::from_str(toolchain),
    };
    let mut args: Vec<String> = Vec::new();
    args.push(String::from_str("toolchain"));
    args.push(String::from_str("add"));
    args.push(name);
    args.push(String::from_str("--no-self-update"));
    if target.len() > 0 {
        args.push(String::from_str("--target"));
        let joined = join_strings(target, ",");
        args.push(joined);
    }
    proof {
        assert(views(args@) =~= spec_install_args(toolchain@, views(target@), installed).unwrap());
    }
    Some(args)
}

/// The versions of a range step from its start: each is `1.m` with `m`
/// between the start and the end and a whole number of steps after the
/// start; each follows the one before by one step; the first is the start
/// (where the range is not empty); and one more step would pass the end.
pub proof fn lemma_versions_step_from_start(start: u32, end: u32, step: u16)
    requires
        step > 0,
    ensures
        forall|i: int|
            0 <= i < stepped_versions(start, end, step).len() ==> {
                let v = #[trigger] stepped_versions(start, end, step)[i];
                &&& v.major == 1
                &&& v.patch is None
                &&& start <= v.minor <= end
                &&& (v.minor - start) % (step as int) == 0
            },
        forall|i: int|
            0 < i < stepped_versions(start, end, step).len() ==> #[trigger] stepped_versions(start, end, step)[i].minor
                == stepped_versions(start, end, step)[i - 1].minor + step,
        start <= end ==> stepped_versions(start, end, step).len() > 0 && stepped_versions(start, end, step)[0].minor
            == start,
        stepped_versions(start, end, step).len() > 0 ==> stepped_versions(start, end, step).last().minor + step > end,
{
    let vs = stepped_versions(start, end, step);
    let st = step as int;
    if start <= end {
        let d = end - start;
        let q = d / st;
        lemma_fundamental_div_mod(d, st);
        assert forall|i: int| 0 <= i < vs.len() implies {
            let v = #[trigger] vs[i];
            &&& v.major == 1
            &&& v.patch is None
            &&& start <= v.minor <= end
            &&& (v.minor - start) % st == 0
        } by {
            assert(i <= q);
            assert(i * st <= q * st) by (nonlinear_arith)
                requires
                    i <= q,
                    st > 0,
            ;
            assert(st * q == q * st) by (nonlinear_arith);
            assert(0 <= i * st) by (nonlinear_arith)
                requires
                    i >= 0,
                    st > 0,
            ;
            assert(vs[i].minor == start + i * st);
            lemma_mod_multiples_basic(i, st);
        }
        assert forall|i: int| 0 < i < vs.len() implies #[trigger] vs[i].minor == vs[i - 1].minor + step by {
            assert(i * st <= q * st) by (nonlinear_arith)
                requires
                    i <= q,
                    st > 0,
            ;
            assert(st * q == q * st) by (nonlinear_arith);
            assert((i - 1) * st >= 0) by (nonlinear_arith)
                requires
                    i >= 1,
                    st > 0,
            ;
            assert(i * st == (i - 1) * st + st) by (nonlinear_arith);
        }
        assert(vs.last().minor + step > end) by {
            assert(q * st <= d) by (nonlinear_arith)
                requires
                    d == st * q + d % st,
                    d % st >= 0,
            ;
            assert(q * st >= 0) by (nonlinear_arith)
                requires
                    q >= 0,
                    st > 0,
            ;
            assert(vs.last().minor == start + q * st);
            assert(q * st + st > d) by (nonlinear_arith)
                requires
                    d == st * q + d % st,
                    d % st < st,
            ;
        }
    }
}

} // verus!
