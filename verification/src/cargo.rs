//! What cargo reports about itself and about packages: the version in the
//! output of `cargo -vV`, and whether a package ID specification given on
//! the command line names a package.

use vstd::prelude::*;

use crate::error::Error;
use crate::metadata::Package;
use crate::pattern::{chars_between, split_once_char, split_once_pat, split_once_str, strip_prefix_pat, strip_prefix_str};
use crate::rustup::unexpected_output;
use crate::text::{chars_of, has_prefix, opt_view, split_chars, split_on, str_eq, string_from_chars, views};
use crate::version::{spec_parse_version, Version};

verus! {

/// A line without its trailing `\r`, as `str::lines` gives it.
pub open spec fn without_cr(line: Seq<char>) -> Seq<char> {
    if line.len() > 0 && line.last() == '\r' {
        line.drop_last()
    } else {
        line
    }
}

/// The lines of `s`, as `str::lines` gives them: split at each `\n`, with
/// no empty line after a final `\n`, and each line without a trailing `\r`.
pub open spec fn lines_of(s: Seq<char>) -> Seq<Seq<char>> {
    let parts = split_on(s, '\n');
    let parts = if parts.last().len() == 0 {
        parts.drop_last()
    } else {
        parts
    };
    parts.map_values(|l: Seq<char>| without_cr(l))
}

/// The rest of the first line that starts with `release: `.
pub open spec fn first_release(lines: Seq<Seq<char>>) -> Option<Seq<char>>
    decreases lines.len(),
{
    if lines.len() == 0 {
        None
    } else {
        match strip_prefix_pat(lines[0], "release: "@) {
            Some(r) => Some(r),
            None => first_release(lines.drop_first()),
        }
    }
}

/// How the version of cargo is read from the output of `cargo -vV`: the
/// `release: ` line, up to a `-`, a version `1.minor.patch`.
pub open spec fn spec_cargo_version(output: Seq<char>, cmd: Seq<char>) -> Result<Version, Seq<char>> {
    match first_release(lines_of(output)) {
        None => Err(unexpected_output(cmd, output)),
        Some(release) => {
            let version = match split_once_pat(release, seq!['-']) {
                Some((v, _)) => v,
                None => release,
            };
            match spec_parse_version(version) {
                Err(e) => Err(e),
                Ok(v) => if v.major != 1 || v.patch is None {
                    Err(unexpected_output(cmd, output))
                } else {
                    Ok(v)
                },
            }
        },
    }
}

proof fn lemma_first_release_skip(lines: Seq<Seq<char>>, i: int)
    requires
        0 <= i < lines.len(),
        strip_prefix_pat(lines[i], "release: "@) is None,
    ensures
        first_release(lines.skip(i)) == first_release(lines.skip(i + 1)),
{
    assert(lines.skip(i)[0] == lines[i]);
    assert(lines.skip(i).drop_first() =~= lines.skip(i + 1));
}

/// The line `part` of output, without a trailing `\r`.
fn line_text(part: &String) -> (res: String)
    ensures
        res@ == without_cr(part@),
{
    let cs = chars_of(part.as_str());
    if cs.len() > 0 && cs[cs.len() - 1] == '\r' {
        let r = chars_between(cs.as_slice(), 0, cs.len() - 1);
        proof {
            assert(r@ =~= part@.drop_last());
        }
        r
    } else {
        String::from_str(part.as_str())
    }
}

/// The rest of the first line of `output` that starts with `release: `.
fn find_release(output: &str) -> (res: Option<String>)
    ensures
        opt_view(res) == first_release(lines_of(output@)),
{
    let parts = split_chars(output, '\n');
    proof {
        crate::text::lemma_split_on_nonempty(output@, '\n');
    }
    let ghost ls = lines_of(output@);
    let n: usize = if parts[parts.len() - 1].as_str().is_empty() {
        parts.len() - 1
    } else {
        parts.len()
    };
    proof {
        assert(ls.len() == n);
        assert forall|k: int| 0 <= k < n implies ls[k] == without_cr(#[trigger] parts@[k]@) by {
            assert(views(parts@)[k] == parts@[k]@);
        }
        assert(ls.skip(0) =~= ls);
    }
    let mut i: usize = 0;
    while i < n
        invariant
            i <= n <= parts@.len(),
            ls == lines_of(output@),
            ls.len() == n,
            forall|k: int| 0 <= k < n ==> ls[k] == without_cr(#[trigger] parts@[k]@),
            first_release(ls.skip(i as int)) == first_release(ls),
        decreases n - i,
    {
        let line = line_text(&parts[i]);
        match strip_prefix_str(line.as_str(), "release: ") {
            Some(r) => {
                proof {
                    assert(ls.skip(i as int)[0] == ls[i as int]);
                    assert(ls.skip(i as int).len() > 0);
                }
                return Some(r);
            },
            None => {
                proof {
                    lemma_first_release_skip(ls, i as int);
                }
            },
        }
        i = i + 1;
    }
    proof {
        assert(ls.skip(n as int) =~= Seq::<Seq<char>>::empty());
    }
    None
}

/// Reads the version of cargo from `output`, the output of `cargo -vV`
/// run as the command whose text is `cmd`.
pub fn version(output: &str, cmd: &str) -> (res: Result<Version, Error>)
    ensures
        match res {
            Ok(v) => spec_cargo_version(output@, cmd@) == Ok::<Version, Seq<char>>(v),
            Err(e) => spec_cargo_version(output@, cmd@) == Err::<Version, Seq<char>>(e@),
        },
{
    let release = match find_release(output) {
        Some(r) => r,
        None => return Err(unexpected_output_error(cmd, output)),
    };
    let version = match split_once_char(release.as_str(), '-') {
        Some((v, _)) => v,
        None => release,
    };
    let v = Version::from_str(version.as_str())?;
    if v.major != 1 || v.patch.is_none() {
        return Err(unexpected_output_error(cmd, output));
    }
    Ok(v)
}

/// The error for output of `cmd` that could not be understood.
fn unexpected_output_error(cmd: &str, output: &str) -> (res: Error)
    ensures
        res@ == unexpected_output(cmd@, output@),
{
    let mut m = String::from_str("unexpected output from ");
    m.append(cmd);
    m.append(": ");
    m.append(output);
    Error::msg(m)
}

// ---------------------------------------------------------------------------
// Package ID specifications
// ---------------------------------------------------------------------------

/// An empty text as `None`.
pub open spec fn non_empty(s: Seq<char>) -> Option<Seq<char>> {
    if s.len() == 0 {
        None
    } else {
        Some(s)
    }
}

/// `split_once(c).unwrap_or((s, ""))`.
pub open spec fn split_or_all(s: Seq<char>, c: char) -> (Seq<char>, Seq<char>) {
    match split_once_pat(s, seq![c]) {
        Some(p) => p,
        None => (s, Seq::empty()),
    }
}

/// The parts of a package ID specification with a protocol:
/// `[kind+]proto://hostname-and-path[?query][#pkgname-or-semver]`, as the
/// protocol (without its kind), the hostname and path, the query and the
/// name or version.
pub open spec fn split_spec(s: Seq<char>) -> Option<
    (Seq<char>, Seq<char>, Option<Seq<char>>, Option<Seq<char>>),
> {
    match split_once_pat(s, "://"@) {
        None => None,
        Some((proto_etc, rest)) => {
            let proto = match split_once_pat(proto_etc, seq!['+']) {
                Some((_, b)) => b,
                None => proto_etc,
            };
            let (hp_etc, name_or_semver) = split_or_all(rest, '#');
            let (hp, query) = split_or_all(hp_etc, '?');
            Some((proto, hp, non_empty(query), non_empty(name_or_semver)))
        },
    }
}

/// `splitn(3, '.')` into the first, second and rest.
pub open spec fn split_three(s: Seq<char>) -> (Seq<char>, Option<Seq<char>>, Option<Seq<char>>) {
    match split_once_pat(s, seq!['.']) {
        None => (s, None, None),
        Some((a, rest)) => match split_once_pat(rest, seq!['.']) {
            None => (a, Some(rest), None),
            Some((b, c)) => (a, Some(b), Some(c)),
        },
    }
}

/// The patch part of a version split into the patch number, the
/// pre-release (after `-`) and the build metadata (after `+`).
pub open spec fn split_patch(s: Seq<char>) -> (Seq<char>, Option<Seq<char>>, Option<Seq<char>>) {
    let (patch_etc, meta) = split_or_all(s, '+');
    let (patch, pre) = split_or_all(patch_etc, '-');
    (patch, non_empty(pre), non_empty(meta))
}

/// Whether a (partial) version from the command line matches the full
/// version of a package; an error where the package's version has no
/// patch number.
pub open spec fn spec_match_versions(version: Seq<char>, full: Seq<char>) -> Result<bool, Seq<char>> {
    let (major, minor, patch_etc) = split_three(version);
    let (fmajor, fminor, fpatch_etc) = split_three(full);
    if fminor is None || fpatch_etc is None {
        Err("invalid pkg version ("@ + full + ") from cargo-metadata"@)
    } else if major != fmajor {
        Ok(false)
    } else if minor is None {
        Ok(true)
    } else if minor != fminor {
        Ok(false)
    } else if patch_etc is None {
        Ok(true)
    } else {
        let (patch, pre, meta) = split_patch(patch_etc.unwrap());
        let (fpatch, fpre, fmeta) = split_patch(fpatch_etc.unwrap());
        Ok(!(patch != fpatch || (pre is Some && pre != fpre) || (meta is Some && meta != fmeta)))
    }
}

/// The position of the first `@` or `:` of `s`.
pub open spec fn find_at_or_colon(s: Seq<char>) -> Option<int>
    decreases s.len(),
{
    if s.len() == 0 {
        None
    } else if s[0] == '@' || s[0] == ':' {
        Some(0)
    } else {
        match find_at_or_colon(s.drop_first()) {
            Some(i) => Some(i + 1),
            None => None,
        }
    }
}

/// `split_once(['@', ':'])`.
pub open spec fn split_name_version(s: Seq<char>) -> Option<(Seq<char>, Seq<char>)> {
    match find_at_or_colon(s) {
        Some(i) => Some((s.take(i), s.skip(i + 1))),
        None => None,
    }
}

/// Whether `c` is ASCII whitespace, as `u8::is_ascii_whitespace` has it.
pub open spec fn is_ascii_space(c: char) -> bool {
    c == ' ' || c == '\t' || c == '\n' || c == '\x0C' || c == '\r'
}

/// `str::trim_ascii_end`.
pub open spec fn trim_ascii_end(s: Seq<char>) -> Seq<char>
    decreases s.len(),
{
    if s.len() > 0 && is_ascii_space(s.last()) {
        trim_ascii_end(s.drop_last())
    } else {
        s
    }
}

/// Whether the package specification `p` given on the command line names
/// the package with the name `name`, the ID `id` and the version
/// `version`: either `name[@|:version]`, or an ID specification with a
/// protocol whose parts match the package's ID (see `spec_match_id_spec`),
/// also where the package's name begins `p` (as `git` begins
/// `git+https://...`).
pub open spec fn spec_match_pkg_spec(name: Seq<char>, id: Seq<char>, version: Seq<char>, p: Seq<char>) -> Result<
    bool,
    Seq<char>,
> {
    if has_prefix(p, name) && p.len() == name.len() {
        Ok(true)
    } else if has_prefix(p, name) && (p[name.len() as int] == '@' || p[name.len() as int] == ':') {
        spec_match_versions(p.skip(name.len() + 1int), version)
    } else {
        spec_match_id_spec(id, p)
    }
}

/// Whether the ID specification `p` (with a protocol; trailing ASCII
/// whitespace ignored) matches the package ID `id`: the protocol and the
/// host and path are equal, the query where `p` gives one, and the package
/// name and version where `p` gives them. Errors stand for an ID or a
/// version from cargo-metadata that cannot be read.
pub open spec fn spec_match_id_spec(id: Seq<char>, p: Seq<char>) -> Result<bool, Seq<char>> {
    match split_spec(trim_ascii_end(p)) {
        None => Ok(false),
        Some((proto, hp, query, name_or_semver)) => match split_spec(id) {
            None => Err("invalid pkg spec ("@ + id + ") from cargo-metadata"@),
            Some((fproto, fhp, fquery, fname_or_semver)) => if proto != fproto || hp != fhp {
                Ok(false)
            } else if query is Some && query != fquery {
                Ok(false)
            } else if name_or_semver is None {
                Ok(true)
            } else if fname_or_semver is None {
                Ok(false)
            } else {
                match (
                    split_name_version(name_or_semver.unwrap()),
                    split_name_version(fname_or_semver.unwrap()),
                ) {
                    (Some((pname, semver)), Some((fpname, fsemver))) => if pname != fpname {
                        Ok(false)
                    } else {
                        spec_match_versions(semver, fsemver)
                    },
                    (Some(_), None) => Ok(false),
                    (None, _) => Ok(true),
                }
            },
        },
    }
}

/// `split_once(c).unwrap_or((s, ""))`.
fn split_or_all_exec(s: &str, c: char) -> (res: (String, String))
    ensures
        (res.0@, res.1@) == split_or_all(s@, c),
{
    match split_once_char(s, c) {
        Some(p) => p,
        None => (String::from_str(s), String::new()),
    }
}

/// An empty text as `None`.
fn non_empty_exec(s: String) -> (res: Option<String>)
    ensures
        opt_view(res) == non_empty(s@),
{
    if s.as_str().is_empty() {
        None
    } else {
        Some(s)
    }
}

/// The parts of a package ID specification with a protocol.
fn split_spec_exec(s: &str) -> (res: Option<(String, String, Option<String>, Option<String>)>)
    ensures
        match res {
            Some((a, b, c, d)) => split_spec(s@) == Some((a@, b@, opt_view(c), opt_view(d))),
            None => split_spec(s@) is None,
        },
{
    let (proto_etc, rest) = match split_once_str(s, "://") {
        Some(p) => p,
        None => return None,
    };
    let proto = match split_once_char(proto_etc.as_str(), '+') {
        Some((_, b)) => b,
        None => proto_etc,
    };
    let (hp_etc, name_or_semver) = split_or_all_exec(rest.as_str(), '#');
    let (hp, query) = split_or_all_exec(hp_etc.as_str(), '?');
    Some((proto, hp, non_empty_exec(query), non_empty_exec(name_or_semver)))
}

/// `splitn(3, '.')` into the first, second and rest.
fn split_three_exec(s: &str) -> (res: (String, Option<String>, Option<String>))
    ensures
        (res.0@, opt_view(res.1), opt_view(res.2)) == split_three(s@),
{
    match split_once_char(s, '.') {
        None => (String::from_str(s), None, None),
        Some((a, rest)) => match split_once_char(rest.as_str(), '.') {
            None => (a, Some(rest), None),
            Some((b, c)) => (a, Some(b), Some(c)),
        },
    }
}

/// The patch part of a version split into number, pre-release and build.
fn split_patch_exec(s: &str) -> (res: (String, Option<String>, Option<String>))
    ensures
        (res.0@, opt_view(res.1), opt_view(res.2)) == split_patch(s@),
{
    let (patch_etc, meta) = split_or_all_exec(s, '+');
    let (patch, pre) = split_or_all_exec(patch_etc.as_str(), '-');
    (patch, non_empty_exec(pre), non_empty_exec(meta))
}

/// Whether two optional texts are equal.
fn opt_str_eq(a: &Option<String>, b: &Option<String>) -> (res: bool)
    ensures
        res == (opt_view(*a) == opt_view(*b)),
{
    match (a, b) {
        (Some(x), Some(y)) => str_eq(x.as_str(), y.as_str()),
        (None, None) => true,
        _ => false,
    }
}

/// Whether a (partial) version from the command line matches the full
/// version of a package.
fn match_versions(version: &str, full: &str) -> (res: Result<bool, Error>)
    ensures
        match res {
            Ok(b) => spec_match_versions(version@, full@) == Ok::<bool, Seq<char>>(b),
            Err(e) => spec_match_versions(version@, full@) == Err::<bool, Seq<char>>(e@),
        },
{
    let (major, minor, patch_etc) = split_three_exec(version);
    let (fmajor, fminor, fpatch_etc) = split_three_exec(full);
    if fminor.is_none() || fpatch_etc.is_none() {
        let mut m = String::from_str("invalid pkg version (");
        m.append(full);
        m.append(") from cargo-metadata");
        return Err(Error::msg(m));
    }
    if !str_eq(major.as_str(), fmajor.as_str()) {
        return Ok(false);
    }
    if minor.is_none() {
        return Ok(true);
    }
    if !opt_str_eq(&minor, &fminor) {
        return Ok(false);
    }
    let patch_etc = match patch_etc {
        Some(p) => p,
        None => return Ok(true),
    };
    let fpatch_etc = fpatch_etc.unwrap();
    let (patch, pre, meta) = split_patch_exec(patch_etc.as_str());
    let (fpatch, fpre, fmeta) = split_patch_exec(fpatch_etc.as_str());
    let differs = !str_eq(patch.as_str(), fpatch.as_str()) || (pre.is_some() && !opt_str_eq(
        &pre,
        &fpre,
    )) || (meta.is_some() && !opt_str_eq(&meta, &fmeta));
    Ok(!differs)
}

proof fn lemma_find_at_or_colon(s: Seq<char>, i: int)
    requires
        0 <= i <= s.len(),
        forall|j: int| 0 <= j < i ==> !(#[trigger] s[j] == '@' || s[j] == ':'),
    ensures
        i < s.len() && (s[i] == '@' || s[i] == ':') ==> find_at_or_colon(s) == Some(i),
        i == s.len() ==> find_at_or_colon(s) == None::<int>,
    decreases i,
{
    if i > 0 {
        let t = s.drop_first();
        assert forall|j: int| 0 <= j < i - 1 implies !(#[trigger] t[j] == '@' || t[j] == ':') by {
            assert(t[j] == s[j + 1]);
        }
        lemma_find_at_or_colon(t, i - 1);
        if i < s.len() {
            assert(t[i - 1] == s[i]);
        }
    } else if s.len() > 0 {
    }
}

/// `split_once(['@', ':'])`.
fn split_name_version_exec(s: &str) -> (res: Option<(String, String)>)
    ensures
        match res {
            Some((a, b)) => split_name_version(s@) == Some((a@, b@)),
            None => split_name_version(s@) is None,
        },
{
    let cs = chars_of(s);
    let mut i: usize = 0;
    while i < cs.len()
        invariant
            cs@ == s@,
            i <= cs@.len(),
            forall|j: int| 0 <= j < i ==> !(#[trigger] cs@[j] == '@' || cs@[j] == ':'),
        decreases cs@.len() - i,
    {
        if cs[i] == '@' || cs[i] == ':' {
            proof {
                lemma_find_at_or_colon(cs@, i as int);
            }
            let n = cs.len();
            let a = chars_between(cs.as_slice(), 0, i);
            let b = chars_between(cs.as_slice(), i + 1, n);
            proof {
                assert(a@ =~= cs@.take(i as int));
                assert(b@ =~= cs@.skip(i + 1));
            }
            return Some((a, b));
        }
        i = i + 1;
    }
    proof {
        lemma_find_at_or_colon(cs@, i as int);
    }
    None
}

/// `str::trim_ascii_end`.
fn trim_ascii_end_exec(s: &str) -> (res: String)
    ensures
        res@ == trim_ascii_end(s@),
{
    let cs = chars_of(s);
    let mut n: usize = cs.len();
    proof {
        assert(cs@.take(n as int) =~= cs@);
    }
    while n > 0 && (cs[n - 1] == ' ' || cs[n - 1] == '\t' || cs[n - 1] == '\n' || cs[n - 1]
        == '\x0C' || cs[n - 1] == '\r')
        invariant
            n <= cs@.len(),
            cs@ == s@,
            trim_ascii_end(cs@.take(n as int)) == trim_ascii_end(s@),
        decreases n,
    {
        proof {
            assert(cs@.take(n as int).drop_last() =~= cs@.take(n - 1));
        }
        n = n - 1;
    }
    let r = chars_between(cs.as_slice(), 0, n);
    proof {
        assert(r@ =~= cs@.take(n as int));
    }
    r
}

/// Whether the package specification `name_or_spec` given with
/// `--package` names `pkg`.
pub fn match_pkg_spec(pkg: &Package, name_or_spec: &str) -> (res: Result<bool, Error>)
    ensures
        match res {
            Ok(b) => spec_match_pkg_spec(pkg.name@, pkg.id@, pkg.version@, name_or_spec@) == Ok::<
                bool,
                Seq<char>,
            >(b),
            Err(e) => spec_match_pkg_spec(pkg.name@, pkg.id@, pkg.version@, name_or_spec@) == Err::<
                bool,
                Seq<char>,
            >(e@),
        },
{
    let p = chars_of(name_or_spec);
    let name = chars_of(pkg.name.as_str());
    if crate::text::starts_with_chars(p.as_slice(), name.as_slice()) {
        if p.len() == name.len() {
            return Ok(true);
        }
        let c = p[name.len()];
        if !(c == '@' || c == ':') {
            return match_id_spec(pkg.id.as_str(), name_or_spec);
        }
        let n = p.len();
        let version = chars_between(p.as_slice(), name.len() + 1, n);
        proof {
            assert(version@ =~= name_or_spec@.skip(pkg.name@.len() + 1int));
        }
        return match_versions(version.as_str(), pkg.version.as_str());
    }
    match_id_spec(pkg.id.as_str(), name_or_spec)
}

/// Whether the ID specification `name_or_spec` matches the package ID `id`
/// (see `spec_match_id_spec`).
fn match_id_spec(id: &str, name_or_spec: &str) -> (res: Result<bool, Error>)
    ensures
        match res {
            Ok(b) => spec_match_id_spec(id@, name_or_spec@) == Ok::<bool, Seq<char>>(b),
            Err(e) => spec_match_id_spec(id@, name_or_spec@) == Err::<bool, Seq<char>>(e@),
        },
{
    let trimmed = trim_ascii_end_exec(name_or_spec);
    let (proto, hp, query, name_or_semver) = match split_spec_exec(trimmed.as_str()) {
        Some(parts) => parts,
        None => return Ok(false),
    };
    let (fproto, fhp, fquery, fname_or_semver) = match split_spec_exec(id) {
        Some(parts) => parts,
        None => {
            let mut m = String::from_str("invalid pkg spec (");
            m.append(id);
            m.append(") from cargo-metadata");
            return Err(Error::msg(m));
        },
    };
    if !str_eq(proto.as_str(), fproto.as_str()) || !str_eq(hp.as_str(), fhp.as_str()) {
        return Ok(false);
    }
    if query.is_some() && !opt_str_eq(&query, &fquery) {
        return Ok(false);
    }
    let name_or_semver = match name_or_semver {
        Some(x) => x,
        None => return Ok(true),
    };
    let fname_or_semver = match fname_or_semver {
        Some(x) => x,
        None => return Ok(false),
    };
    match (
        split_name_version_exec(name_or_semver.as_str()),
        split_name_version_exec(fname_or_semver.as_str()),
    ) {
        (Some((pname, semver)), Some((fpname, fsemver))) => {
            if !str_eq(pname.as_str(), fpname.as_str()) {
                return Ok(false);
            }
            match_versions(semver.as_str(), fsemver.as_str())
        },
        (Some(_), None) => Ok(false),
        (None, _) => Ok(true),
    }
}

} // verus!

verus! {

/// The version at the end of an ID, where it names the package with one:
/// whether it has a major, minor and patch part.
pub open spec fn id_version_complete(id: Seq<char>) -> bool {
    match split_spec(id) {
        Some((_, _, _, Some(nv))) => match split_name_version(nv) {
            Some((_, semver)) => split_three(semver).1 is Some && split_three(semver).2 is Some,
            None => true,
        },
        _ => true,
    }
}

/// A package's own ID, as cargo-metadata gives it (with a protocol and a
/// full version), names it, also where the package's name begins the ID.
/// Left out: an ID that the package's name followed by `@` or `:` begins
/// (that is read as `name@version`).
pub proof fn lemma_own_id_matches(name: Seq<char>, id: Seq<char>, version: Seq<char>)
    requires
        split_spec(id) is Some,
        trim_ascii_end(id) == id,
        id_version_complete(id),
        !(has_prefix(id, name) && (id.len() == name.len() || id[name.len() as int] == '@' || id[name.len() as int]
            == ':')),
    ensures
        spec_match_pkg_spec(name, id, version, id) == Ok::<bool, Seq<char>>(true),
{
}

/// A package's own name, given alone, names it.
pub proof fn lemma_name_matches(name: Seq<char>, id: Seq<char>, version: Seq<char>)
    ensures
        spec_match_pkg_spec(name, id, version, name) == Ok::<bool, Seq<char>>(true),
{
    assert(name.take(name.len() as int) =~= name);
}

/// The arguments of `cargo metadata`: `metadata --format-version=1`, then
/// `--manifest-path` and the path where one is given; then, where the
/// features of dependencies are wanted, `--filter-platform` with each
/// target, or with the host where no target is given; else `--no-deps`.
pub open spec fn spec_metadata_args(
    manifest_path: Option<Seq<char>>,
    include_deps_features: bool,
    targets: Seq<Seq<char>>,
    host: Seq<char>,
) -> Seq<Seq<char>> {
    seq!["metadata"@, "--format-version=1"@] + match manifest_path {
        Some(p) => seq!["--manifest-path"@, p],
        None => Seq::empty(),
    } + if !include_deps_features {
        seq!["--no-deps"@]
    } else if targets.len() == 0 {
        seq!["--filter-platform"@, host]
    } else {
        filter_platforms(targets)
    }
}

/// `--filter-platform` before each target.
pub open spec fn filter_platforms(targets: Seq<Seq<char>>) -> Seq<Seq<char>>
    decreases targets.len(),
{
    if targets.len() == 0 {
        Seq::empty()
    } else {
        filter_platforms(targets.drop_last()) + seq!["--filter-platform"@, targets.last()]
    }
}

/// The arguments of `cargo metadata` (see `spec_metadata_args`); `targets`
/// and `host` count only where `include_deps_features` is set.
pub fn metadata_args(manifest_path: Option<&str>, include_deps_features: bool, targets: &Vec<String>, host: &str) -> (res:
    Vec<String>)
    ensures
        views(res@) == spec_metadata_args(crate::text::opt_str_view(manifest_path), include_deps_features, views(targets@), host@),
{
    let mut args: Vec<String> = Vec::new();
    args.push(String::from_str("metadata"));
    args.push(String::from_str("--format-version=1"));
    let ghost head = views(args@);
    proof {
        assert(head =~= seq!["metadata"@, "--format-version=1"@]);
    }
    match manifest_path {
        Some(p) => {
            args.push(String::from_str("--manifest-path"));
            args.push(String::from_str(p));
            proof {
                assert(views(args@) =~= head + seq!["--manifest-path"@, p@]);
            }
        },
        None => {
            proof {
                assert(views(args@) =~= head + Seq::<Seq<char>>::empty());
            }
        },
    }
    let ghost mid = views(args@);
    if !include_deps_features {
        args.push(String::from_str("--no-deps"));
        proof {
            assert(views(args@) =~= mid + seq!["--no-deps"@]);
        }
    } else if targets.len() == 0 {
        args.push(String::from_str("--filter-platform"));
        args.push(String::from_str(host));
        proof {
            assert(views(args@) =~= mid + seq!["--filter-platform"@, host@]);
        }
    } else {
        let ghost tv = views(targets@);
        let mut i: usize = 0;
        proof {
            assert(tv.take(0) =~= Seq::<Seq<char>>::empty());
            assert(mid + filter_platforms(tv.take(0)) =~= mid);
        }
        while i < targets.len()
            invariant
                i <= targets@.len(),
                tv == views(targets@),
                views(args@) == mid + filter_platforms(tv.take(i as int)),
            decreases targets@.len() - i,
        {
            proof {
                assert(tv.take(i + 1).drop_last() =~= tv.take(i as int));
                assert(tv.take(i + 1).last() == targets@[i as int]@);
            }
            let ghost before = views(args@);
            args.push(String::from_str("--filter-platform"));
            args.push(targets[i].clone());
            proof {
                assert(views(args@) =~= before + seq!["--filter-platform"@, targets@[i as int]@]);
                assert(mid + filter_platforms(tv.take(i + 1)) =~= mid + filter_platforms(tv.take(i as int)) + seq![
                    "--filter-platform"@,
                    targets@[i as int]@,
                ]);
            }
            i = i + 1;
        }
        proof {
            assert(tv.take(targets@.len() as int) =~= tv);
        }
    }
    args
}

/// `--include-deps-features` needs the dependency kinds in the metadata,
/// which cargo gives from 1.41 on.
pub fn check_include_deps_features(cargo_minor: u32, include_deps_features: bool) -> (res: Result<(), Error>)
    ensures
        res is Err <==> (include_deps_features && cargo_minor < 41),
        res matches Err(e) ==> e@ == "--include-deps-features requires Cargo 1.41 or later"@,
{
    if include_deps_features && cargo_minor < 41 {
        Err(Error::msg(String::from_str("--include-deps-features requires Cargo 1.41 or later")))
    } else {
        Ok(())
    }
}

} // verus!
