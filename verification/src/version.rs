//! Rust versions and ranges of them, as given on the command line and in
//! the output of cargo and rustup.

use vstd::prelude::*;

use crate::error::Error;
use crate::pattern::{
    decimal, decimal_string, replace_pat, replace_str, split_once_char, split_once_pat, split_once_str,
    strip_prefix_pat, strip_prefix_str,
};
use crate::text::{chars_of, has_prefix};

verus! {

/// Why text is not an unsigned integer, as `str::parse` reports it.
#[derive(PartialEq, Eq, Structural, Clone, Copy, Debug)]
pub enum IntErrorKind {
    /// The text is empty.
    Empty,
    /// The text holds something other than digits (after an optional `+`).
    InvalidDigit,
    /// The number does not fit.
    PosOverflow,
}

/// The value of a string of decimal digits.
pub open spec fn digits_value(ds: Seq<char>) -> int
    decreases ds.len(),
{
    if ds.len() == 0 {
        0
    } else {
        digits_value(ds.drop_last()) * 10 + (ds.last() as int - '0' as int)
    }
}

/// Whether `c` is a decimal digit.
pub open spec fn is_digit(c: char) -> bool {
    '0' <= c <= '9'
}

/// The number of leading digits of `ds`.
pub open spec fn leading_digits(ds: Seq<char>) -> nat
    decreases ds.len(),
{
    if ds.len() == 0 || !is_digit(ds[0]) {
        0
    } else {
        1 + leading_digits(ds.drop_first())
    }
}

/// How `str::parse` reads an unsigned integer no greater than `max` from
/// `s`: an optional `+`, then decimal digits. The first problem met reading
/// from the left is reported: a number that no longer fits before a bad
/// character is an overflow.
pub open spec fn parse_unsigned(s: Seq<char>, max: int) -> Result<int, IntErrorKind> {
    if s.len() == 0 {
        Err(IntErrorKind::Empty)
    } else if s.len() == 1 && (s[0] == '+' || s[0] == '-') {
        Err(IntErrorKind::InvalidDigit)
    } else {
        let ds = if s[0] == '+' { s.drop_first() } else { s };
        let k = leading_digits(ds);
        if digits_value(ds.take(k as int)) > max {
            Err(IntErrorKind::PosOverflow)
        } else if k < ds.len() {
            Err(IntErrorKind::InvalidDigit)
        } else {
            Ok(digits_value(ds))
        }
    }
}

/// How `str::parse::<u32>` reads `s`.
pub open spec fn parse_u32(s: Seq<char>) -> Result<u32, IntErrorKind> {
    match parse_unsigned(s, u32::MAX as int) {
        Ok(n) => Ok(n as u32),
        Err(k) => Err(k),
    }
}

/// How `str::parse::<usize>` reads `s`.
pub open spec fn parse_usize(s: Seq<char>) -> Result<usize, IntErrorKind> {
    match parse_unsigned(s, usize::MAX as int) {
        Ok(n) => Ok(n as usize),
        Err(k) => Err(k),
    }
}

/// The message that `str::parse` gives for each kind of error.
pub open spec fn int_error_message(kind: IntErrorKind) -> Seq<char> {
    match kind {
        IntErrorKind::Empty => "cannot parse integer from empty string"@,
        IntErrorKind::InvalidDigit => "invalid digit found in string"@,
        IntErrorKind::PosOverflow => "number too large to fit in target type"@,
    }
}

proof fn lemma_digits_value_nonneg(ds: Seq<char>)
    requires
        forall|i: int| 0 <= i < ds.len() ==> is_digit(#[trigger] ds[i]),
    ensures
        digits_value(ds) >= 0,
    decreases ds.len(),
{
    if ds.len() > 0 {
        lemma_digits_value_nonneg(ds.drop_last());
    }
}

proof fn lemma_digits_value_monotone(ds: Seq<char>, i: int, j: int)
    requires
        0 <= i <= j <= ds.len(),
        forall|k: int| 0 <= k < ds.len() ==> is_digit(#[trigger] ds[k]),
    ensures
        digits_value(ds.take(i)) <= digits_value(ds.take(j)),
    decreases j - i,
{
    if i < j {
        lemma_digits_value_monotone(ds, i, j - 1);
        assert(ds.take(j).drop_last() =~= ds.take(j - 1));
        let p = ds.take(j - 1);
        assert forall|k: int| 0 <= k < p.len() implies is_digit(#[trigger] p[k]) by {
            assert(p[k] == ds[k]);
        }
        lemma_digits_value_nonneg(p);
        assert(ds.take(j).last() == ds[j - 1]);
    }
}

proof fn lemma_leading_digits(ds: Seq<char>, k: int)
    requires
        0 <= k <= ds.len(),
        forall|i: int| 0 <= i < k ==> is_digit(#[trigger] ds[i]),
        k == ds.len() || !is_digit(ds[k]),
    ensures
        leading_digits(ds) == k,
    decreases k,
{
    if k > 0 {
        let t = ds.drop_first();
        assert forall|i: int| 0 <= i < k - 1 implies is_digit(#[trigger] t[i]) by {
            assert(t[i] == ds[i + 1]);
        }
        if k < ds.len() {
            assert(t[k - 1] == ds[k]);
        }
        lemma_leading_digits(t, k - 1);
    }
}

proof fn lemma_leading_digits_facts(ds: Seq<char>)
    ensures
        leading_digits(ds) <= ds.len(),
        forall|i: int| 0 <= i < leading_digits(ds) ==> is_digit(#[trigger] ds[i]),
        leading_digits(ds) < ds.len() ==> !is_digit(ds[leading_digits(ds) as int]),
    decreases ds.len(),
{
    if ds.len() > 0 && is_digit(ds[0]) {
        let t = ds.drop_first();
        lemma_leading_digits_facts(t);
        assert forall|i: int| 0 <= i < leading_digits(ds) implies is_digit(#[trigger] ds[i]) by {
            if i > 0 {
                assert(ds[i] == t[i - 1]);
            }
        }
        if leading_digits(ds) < ds.len() {
            assert(ds[leading_digits(ds) as int] == t[leading_digits(t) as int]);
        }
    }
}

/// Once the leading digits read so far exceed `max`, so does the whole
/// run of leading digits.
proof fn lemma_overflow_persists(ds: Seq<char>, n: int, max: int)
    requires
        0 <= n <= ds.len(),
        forall|i: int| 0 <= i < n ==> is_digit(#[trigger] ds[i]),
        digits_value(ds.take(n)) > max,
    ensures
        digits_value(ds.take(leading_digits(ds) as int)) > max,
{
    lemma_leading_digits_facts(ds);
    let k = leading_digits(ds) as int;
    if k < n {
        assert(is_digit(ds[k]));
    }
    let p = ds.take(k);
    assert forall|i: int| 0 <= i < p.len() implies is_digit(#[trigger] p[i]) by {
        assert(p[i] == ds[i]);
    }
    lemma_digits_value_monotone(p, n, k);
    assert(p.take(n) =~= ds.take(n));
    assert(p.take(k) =~= p);
}

/// Reads an unsigned integer no greater than `max`, as `str::parse` does.
pub fn parse_unsigned_exec(s: &str, max: u64) -> (res: Result<u64, IntErrorKind>)
    ensures
        match res {
            Ok(n) => parse_unsigned(s@, max as int) == Ok::<int, IntErrorKind>(n as int),
            Err(k) => parse_unsigned(s@, max as int) == Err::<int, IntErrorKind>(k),
        },
{
    let cs = chars_of(s);
    if cs.len() == 0 {
        return Err(IntErrorKind::Empty);
    }
    if cs.len() == 1 && (cs[0] == '+' || cs[0] == '-') {
        return Err(IntErrorKind::InvalidDigit);
    }
    let start: usize = if cs[0] == '+' { 1 } else { 0 };
    let ghost ds = if cs@[0] == '+' { cs@.drop_first() } else { cs@ };
    let mut value: u64 = 0;
    let mut i: usize = start;
    proof {
        assert(ds.take(0) =~= Seq::<char>::empty());
    }
    while i < cs.len()
        invariant
            cs@ == s@,
            s@.len() > 0,
            !(s@.len() == 1 && (s@[0] == '+' || s@[0] == '-')),
            ds == (if s@[0] == '+' { s@.drop_first() } else { s@ }),
            start == (if s@[0] == '+' { 1usize } else { 0usize }),
            start <= i <= cs@.len(),
            start <= 1,
            ds =~= cs@.skip(start as int),
            forall|k: int| 0 <= k < i - start ==> is_digit(#[trigger] ds[k]),
            value as int == digits_value(ds.take(i - start)),
            value <= max,
        decreases cs.len() - i,
    {
        let c = cs[i];
        proof {
            assert(ds[i - start] == c);
        }
        if !('0' <= c && c <= '9') {
            proof {
                lemma_leading_digits(ds, i - start);
            }
            return Err(IntErrorKind::InvalidDigit);
        }
        let d = (c as u32 - '0' as u32) as u128;
        let next: u128 = value as u128 * 10 + d;
        proof {
            assert(ds.take(i - start + 1).drop_last() =~= ds.take(i - start));
            assert(ds.take(i - start + 1).last() == c);
        }
        if next > max as u128 {
            proof {
                lemma_overflow_persists(ds, i - start + 1, max as int);
            }
            return Err(IntErrorKind::PosOverflow);
        }
        value = next as u64;
        i = i + 1;
    }
    proof {
        lemma_leading_digits(ds, ds.len() as int);
        assert(ds.take(ds.len() as int) =~= ds);
    }
    Ok(value)
}

/// Reads an unsigned integer as `str::parse::<u32>` does.
pub fn parse_u32_exec(s: &str) -> (res: Result<u32, IntErrorKind>)
    ensures
        res == parse_u32(s@),
{
    match parse_unsigned_exec(s, u32::MAX as u64) {
        Ok(n) => Ok(n as u32),
        Err(k) => Err(k),
    }
}

/// Reads an unsigned integer as `str::parse::<usize>` does.
pub fn parse_usize_exec(s: &str) -> (res: Result<usize, IntErrorKind>)
    ensures
        res == parse_usize(s@),
{
    match parse_unsigned_exec(s, usize::MAX as u64) {
        Ok(n) => Ok(n as usize),
        Err(k) => Err(k),
    }
}

} // verus!

verus! {

/// A Rust version: `major.minor` with an optional `.patch`.
#[derive(Clone, Copy, PartialEq, Eq, Structural, Debug)]
pub struct Version {
    pub major: u32,
    pub minor: u32,
    pub patch: Option<u32>,
}

/// The error of a number that did not parse, as `?` turns it into an
/// error of this crate.
pub open spec fn parse_error_text(r: Result<u32, IntErrorKind>) -> Seq<char> {
    match r {
        Err(k) => int_error_message(k),
        Ok(_) => Seq::empty(),
    }
}

/// How `Version::from_str` reads `s`: it is split at the first two dots
/// (`splitn(3, '.')`); the major and minor parts are required, the rest is
/// the patch. Each part must be a `u32`; the first failure is reported.
pub open spec fn spec_parse_version(s: Seq<char>) -> Result<Version, Seq<char>> {
    let (first, rest) = match split_once_pat(s, seq!['.']) {
        Some((a, b)) => (a, Some(b)),
        None => (s, None),
    };
    let major = parse_u32(first);
    if major is Err {
        Err(parse_error_text(major))
    } else {
        match rest {
            None => Err("missing minor version"@),
            Some(rest) => {
                let (second, third) = match split_once_pat(rest, seq!['.']) {
                    Some((a, b)) => (a, Some(b)),
                    None => (rest, None),
                };
                let minor = parse_u32(second);
                if minor is Err {
                    Err(parse_error_text(minor))
                } else {
                    match third {
                        None => Ok(Version { major: major->Ok_0, minor: minor->Ok_0, patch: None }),
                        Some(third) => {
                            let patch = parse_u32(third);
                            if patch is Err {
                                Err(parse_error_text(patch))
                            } else {
                                Ok(
                                    Version {
                                        major: major->Ok_0,
                                        minor: minor->Ok_0,
                                        patch: Some(patch->Ok_0),
                                    },
                                )
                            }
                        },
                    }
                }
            },
        }
    }
}

/// The crate error for a number that did not parse.
pub fn int_error(kind: IntErrorKind) -> (res: Error)
    ensures
        res@ == int_error_message(kind),
{
    match kind {
        IntErrorKind::Empty => Error::msg(String::from_str("cannot parse integer from empty string")),
        IntErrorKind::InvalidDigit => Error::msg(String::from_str("invalid digit found in string")),
        IntErrorKind::PosOverflow => Error::msg(
            String::from_str("number too large to fit in target type"),
        ),
    }
}

/// Parses a `u32`, as `str::parse` with `?` does.
pub fn parse_number(s: &str) -> (res: Result<u32, Error>)
    ensures
        match res {
            Ok(n) => parse_u32(s@) == Ok::<u32, IntErrorKind>(n),
            Err(e) => parse_u32(s@) is Err && e@ == parse_error_text(parse_u32(s@)),
        },
{
    match parse_u32_exec(s) {
        Ok(n) => Ok(n),
        Err(k) => Err(int_error(k)),
    }
}

/// The step of `--version-range`: 1 without `--version-step`, else its
/// value as a `u16`, which must not be zero.
pub open spec fn spec_version_step(s: Option<Seq<char>>) -> Result<u16, Seq<char>> {
    match s {
        None => Ok(1),
        Some(t) => match parse_unsigned(t, u16::MAX as int) {
            Err(k) => Err(int_error_message(k)),
            Ok(n) => if n == 0 {
                Err("--version-step cannot be zero"@)
            } else {
                Ok(n as u16)
            },
        },
    }
}

/// Reads the step of `--version-range` (see `spec_version_step`).
pub fn version_step(s: Option<&str>) -> (res: Result<u16, Error>)
    ensures
        match res {
            Ok(n) => spec_version_step(crate::text::opt_str_view(s)) == Ok::<u16, Seq<char>>(n),
            Err(e) => spec_version_step(crate::text::opt_str_view(s)) == Err::<u16, Seq<char>>(e@),
        },
{
    match s {
        None => Ok(1),
        Some(t) => match parse_unsigned_exec(t, 65535) {
            Err(k) => Err(int_error(k)),
            Ok(n) => if n == 0 {
                Err(Error::msg(String::from_str("--version-step cannot be zero")))
            } else {
                Ok(n as u16)
            },
        },
    }
}

impl Version {
    /// Parses `major.minor[.patch]`.
    pub fn from_str(s: &str) -> (res: Result<Version, Error>)
        ensures
            match res {
                Ok(v) => spec_parse_version(s@) == Ok::<Version, Seq<char>>(v),
                Err(e) => spec_parse_version(s@) == Err::<Version, Seq<char>>(e@),
            },
    {
        let (first, rest) = match split_once_char(s, '.') {
            Some((a, b)) => (a, Some(b)),
            None => (String::from_str(s), None),
        };
        let major = parse_number(first.as_str())?;
        let rest = match rest {
            Some(rest) => rest,
            None => return Err(Error::msg(String::from_str("missing minor version"))),
        };
        let (second, third) = match split_once_char(rest.as_str(), '.') {
            Some((a, b)) => (a, Some(b)),
            None => (rest, None),
        };
        let minor = parse_number(second.as_str())?;
        let patch = match third {
            Some(third) => Some(parse_number(third.as_str())?),
            None => None,
        };
        Ok(Version { major, minor, patch })
    }

    /// The version without its patch number.
    pub fn strip_patch(self) -> (res: Version)
        ensures
            res == (Version { major: self.major, minor: self.minor, patch: None }),
    {
        Version { major: self.major, minor: self.minor, patch: None }
    }

    /// The text of the version, `major.minor` or `major.minor.patch`.
    pub fn to_text(&self) -> (res: String)
        ensures
            res@ == version_text(*self),
    {
        let mut out = decimal_string(self.major);
        out.append(".");
        let minor = decimal_string(self.minor);
        out.append(minor.as_str());
        if let Some(patch) = self.patch {
            out.append(".");
            let p = decimal_string(patch);
            out.append(p.as_str());
        }
        out
    }
}

/// The text of a version.
pub open spec fn version_text(v: Version) -> Seq<char> {
    decimal(v.major as nat) + "."@ + decimal(v.minor as nat) + match v.patch {
        Some(p) => "."@ + decimal(p as nat),
        None => Seq::empty(),
    }
}

/// The order of versions: by major, then minor, then patch, where a
/// missing patch comes first.
pub open spec fn version_lt(a: Version, b: Version) -> bool {
    a.major < b.major || (a.major == b.major && (a.minor < b.minor || (a.minor == b.minor
        && match (a.patch, b.patch) {
        (None, Some(_)) => true,
        (Some(x), Some(y)) => x < y,
        _ => false,
    })))
}

/// Whether `a` comes before `b` in the order of versions.
pub fn version_less(a: &Version, b: &Version) -> (res: bool)
    ensures
        res == version_lt(*a, *b),
{
    if a.major != b.major {
        return a.major < b.major;
    }
    if a.minor != b.minor {
        return a.minor < b.minor;
    }
    match (a.patch, b.patch) {
        (None, Some(_)) => true,
        (Some(x), Some(y)) => x < y,
        _ => false,
    }
}

} // verus!

verus! {

/// A range of Rust versions, both ends inclusive; a missing end is left
/// for the caller to choose.
#[derive(Clone, Copy, PartialEq, Eq, Structural, Debug)]
pub struct VersionRange {
    pub start_inclusive: Option<Version>,
    pub end_inclusive: Option<Version>,
}

/// An optional version: empty text is no version.
pub open spec fn spec_maybe_version(s: Seq<char>) -> Result<Option<Version>, Seq<char>> {
    if s.len() == 0 {
        Ok(None)
    } else {
        match spec_parse_version(s) {
            Ok(v) => Ok(Some(v)),
            Err(e) => Err(e),
        }
    }
}

/// The error for an inclusive range `s` written without its end.
pub open spec fn missing_end_message(s: Seq<char>, start: Seq<char>) -> Seq<char> {
    "inclusive range `"@ + s + "` must have end expression; consider using `"@ + start + "..` or `"@ + start
        + "..=<end>`"@
}

/// How `VersionRange::from_str` reads `s`: `start..=end` or `start..end`
/// (both inclusive), either end may be empty, but `..=` needs an end;
/// without `..` the whole text is the start. The end is parsed before the
/// start.
pub open spec fn spec_parse_range(s: Seq<char>) -> Result<VersionRange, Seq<char>> {
    match split_once_pat(s, ".."@) {
        Some((start, end)) => if strip_prefix_pat(end, "="@) == Some(Seq::<char>::empty()) {
            Err(missing_end_message(s, start))
        } else {
            let end = match strip_prefix_pat(end, "="@) {
                Some(e) => e,
                None => end,
            };
            match spec_maybe_version(end) {
                Err(e) => Err(e),
                Ok(end_v) => match spec_maybe_version(start) {
                    Err(e) => Err(e),
                    Ok(start_v) => Ok(VersionRange { start_inclusive: start_v, end_inclusive: end_v }),
                },
            }
        },
        None => match spec_maybe_version(s) {
            Err(e) => Err(e),
            Ok(start_v) => Ok(VersionRange { start_inclusive: start_v, end_inclusive: None }),
        },
    }
}

/// The warning for a range written with a bare `..`, which is read as
/// inclusive.
pub open spec fn spec_range_warning(s: Seq<char>) -> Option<Seq<char>> {
    match split_once_pat(s, ".."@) {
        Some((start, end)) => if strip_prefix_pat(end, "="@) is Some {
            None
        } else {
            Some(
                "using `..` for inclusive range is deprecated; consider using `"@ + replace_pat(
                    s,
                    ".."@,
                    "..="@,
                ) + "`"@,
            )
        },
        None => None,
    }
}

/// Parses an optional version: empty text is `None`.
pub fn maybe_version(s: &str) -> (res: Result<Option<Version>, Error>)
    ensures
        match res {
            Ok(v) => spec_maybe_version(s@) == Ok::<Option<Version>, Seq<char>>(v),
            Err(e) => spec_maybe_version(s@) == Err::<Option<Version>, Seq<char>>(e@),
        },
{
    if s.is_empty() {
        Ok(None)
    } else {
        match Version::from_str(s) {
            Ok(v) => Ok(Some(v)),
            Err(e) => Err(e),
        }
    }
}

impl VersionRange {
    /// Parses a range such as `1.63..=1.70`, `1.63..`, `..=1.70` or `1.63`.
    pub fn from_str(s: &str) -> (res: Result<VersionRange, Error>)
        ensures
            match res {
                Ok(r) => spec_parse_range(s@) == Ok::<VersionRange, Seq<char>>(r),
                Err(e) => spec_parse_range(s@) == Err::<VersionRange, Seq<char>>(e@),
            },
    {
        match split_once_str(s, "..") {
            Some((start, end)) => {
                let end = match strip_prefix_str(end.as_str(), "=") {
                    Some(e) => {
                        if e.as_str().is_empty() {
                            let mut m = String::from_str("inclusive range `");
                            m.append(s);
                            m.append("` must have end expression; consider using `");
                            m.append(start.as_str());
                            m.append("..` or `");
                            m.append(start.as_str());
                            m.append("..=<end>`");
                            proof {
                                assert(e@ =~= Seq::<char>::empty());
                            }
                            return Err(Error::msg(m));
                        }
                        e
                    },
                    None => end,
                };
                let end_inclusive = maybe_version(end.as_str())?;
                let start_inclusive = maybe_version(start.as_str())?;
                Ok(VersionRange { start_inclusive, end_inclusive })
            },
            None => {
                let start_inclusive = maybe_version(s)?;
                Ok(VersionRange { start_inclusive, end_inclusive: None })
            },
        }
    }

    /// The deprecation warning that reading `s` as a range gives, if any.
    pub fn warning(s: &str) -> (res: Option<String>)
        ensures
            match res {
                Some(w) => spec_range_warning(s@) == Some(w@),
                None => spec_range_warning(s@) == None::<Seq<char>>,
            },
    {
        match split_once_str(s, "..") {
            Some((_start, end)) => {
                if strip_prefix_str(end.as_str(), "=").is_some() {
                    None
                } else {
                    let mut w = String::from_str(
                        "using `..` for inclusive range is deprecated; consider using `",
                    );
                    proof {
                        reveal_strlit("..");
                    }
                    let r = replace_str(s, "..", "..=");
                    w.append(r.as_str());
                    w.append("`");
                    Some(w)
                }
            },
            None => None,
        }
    }

    /// The text of the range, `start..=end`, an end left out where it is
    /// missing.
    pub fn to_text(&self) -> (res: String)
        ensures
            res@ == range_text(*self),
    {
        let mut out = String::new();
        if let Some(v) = &self.start_inclusive {
            let t = v.to_text();
            out.append(t.as_str());
        }
        out.append("..=");
        if let Some(v) = &self.end_inclusive {
            let t = v.to_text();
            out.append(t.as_str());
        }
        proof {
            assert(out@ =~= range_text(*self));
        }
        out
    }
}

/// The text of a range.
pub open spec fn range_text(r: VersionRange) -> Seq<char> {
    opt_version_text(r.start_inclusive) + "..="@ + opt_version_text(r.end_inclusive)
}

/// The text of an optional version, empty where there is none.
pub open spec fn opt_version_text(v: Option<Version>) -> Seq<char> {
    match v {
        Some(v) => version_text(v),
        None => Seq::empty(),
    }
}

} // verus!

verus! {

/// The value of the digits of a number is the number.
proof fn lemma_decimal_value(n: nat)
    ensures
        digits_value(decimal(n)) == n,
    decreases n,
{
    lemma_digit_char((n % 10) as nat);
    if n >= 10 {
        lemma_decimal_value(n / 10);
        assert(decimal(n).drop_last() =~= decimal(n / 10));
        assert(decimal(n).last() == crate::pattern::digit_char((n % 10) as nat));
        assert((n / 10) * 10 + n % 10 == n);
        assert(digits_value(decimal(n)) == digits_value(decimal(n / 10)) * 10 + (
        crate::pattern::digit_char((n % 10) as nat) as int - '0' as int));
    } else {
        lemma_digit_char(n);
        assert(decimal(n).drop_last() =~= Seq::<char>::empty());
        assert(digits_value(Seq::<char>::empty()) == 0);
        assert(decimal(n).last() == crate::pattern::digit_char(n));
    }
}

/// The digit character of `d` stands for `d`.
proof fn lemma_digit_char(d: nat)
    requires
        d < 10,
    ensures
        crate::pattern::digit_char(d) as int - '0' as int == d,
{
    assert('1' as int == '0' as int + 1);
    assert('9' as int == '0' as int + 9);
}

/// A number no greater than `max`, written in decimal, reads back.
pub proof fn lemma_parse_decimal(n: nat, max: int)
    requires
        n <= max,
    ensures
        parse_unsigned(decimal(n), max) == Ok::<int, IntErrorKind>(n as int),
{
    let s = decimal(n);
    crate::pattern::lemma_decimal_digits(n);
    lemma_decimal_value(n);
    assert(is_digit(s[0]));
    assert forall|i: int| 0 <= i < s.len() implies is_digit(#[trigger] s[i]) by {
        assert('0' <= s[i] <= '9');
    }
    lemma_leading_digits(s, s.len() as int);
    assert(s.take(s.len() as int) =~= s);
}

/// Neither digits nor a version hold a dot where they have none.
proof fn lemma_decimal_no_dot(n: nat)
    ensures
        !decimal(n).contains('.'),
{
    crate::pattern::lemma_decimal_digits(n);
    if decimal(n).contains('.') {
        let k = choose|k: int| 0 <= k < decimal(n).len() && decimal(n)[k] == '.';
        assert('0' <= decimal(n)[k] <= '9');
    }
}

/// Writing a version and reading it back gives the version.
#[verifier::rlimit(60)]
pub proof fn lemma_version_text_parses(v: Version)
    ensures
        spec_parse_version(version_text(v)) == Ok::<Version, Seq<char>>(v),
{
    let a = decimal(v.major as nat);
    let b = decimal(v.minor as nat);
    lemma_decimal_no_dot(v.major as nat);
    lemma_decimal_no_dot(v.minor as nat);
    lemma_parse_decimal(v.major as nat, u32::MAX as int);
    lemma_parse_decimal(v.minor as nat, u32::MAX as int);
    reveal_strlit(".");
    let tail = match v.patch {
        Some(p) => "."@ + decimal(p as nat),
        None => Seq::<char>::empty(),
    };
    assert(version_text(v) =~= a + seq!['.'] + (b + tail));
    crate::pattern::lemma_find_char_after(a, '.', b + tail);
    assert((a + seq!['.'] + (b + tail)).take(a.len() as int) =~= a);
    assert((a + seq!['.'] + (b + tail)).skip(a.len() + 1int) =~= b + tail);
    match v.patch {
        Some(p) => {
            lemma_parse_decimal(p as nat, u32::MAX as int);
            let c = decimal(p as nat);
            assert(b + tail =~= b + seq!['.'] + c);
            crate::pattern::lemma_find_char_after(b, '.', c);
            assert((b + seq!['.'] + c).take(b.len() as int) =~= b);
            assert((b + seq!['.'] + c).skip(b.len() + 1int) =~= c);
        },
        None => {
            assert(b + tail =~= b);
            crate::pattern::lemma_find_char_absent(b, '.');
        },
    }
}

/// In the text of a version, a digit follows every dot, and the text ends
/// with a digit.
proof fn lemma_version_text_dots(v: Version)
    ensures
        version_text(v).len() > 0,
        '0' <= version_text(v).last() <= '9',
        forall|i: int|
            0 <= i < version_text(v).len() - 1 && #[trigger] version_text(v)[i] == '.' ==> '0' <= version_text(v)[i
                + 1] <= '9',
{
    let a = decimal(v.major as nat);
    let b = decimal(v.minor as nat);
    crate::pattern::lemma_decimal_digits(v.major as nat);
    crate::pattern::lemma_decimal_digits(v.minor as nat);
    reveal_strlit(".");
    let t = version_text(v);
    match v.patch {
        Some(p) => {
            let c = decimal(p as nat);
            crate::pattern::lemma_decimal_digits(p as nat);
            assert(t =~= a + seq!['.'] + b + seq!['.'] + c);
            assert forall|i: int| 0 <= i < t.len() - 1 && #[trigger] t[i] == '.' implies '0' <= t[i + 1] <= '9' by {
                if i < a.len() {
                    assert(t[i] == a[i]);
                } else if i == a.len() {
                    assert(t[i + 1] == b[0]);
                } else if i < a.len() + 1 + b.len() {
                    assert(t[i] == b[i - a.len() - 1]);
                } else if i == a.len() + 1 + b.len() {
                    assert(t[i + 1] == c[0]);
                } else {
                    assert(t[i] == c[i - a.len() - 2 - b.len()]);
                }
            }
            assert(t.last() == c.last());
        },
        None => {
            assert(t =~= a + seq!['.'] + b);
            assert forall|i: int| 0 <= i < t.len() - 1 && #[trigger] t[i] == '.' implies '0' <= t[i + 1] <= '9' by {
                if i < a.len() {
                    assert(t[i] == a[i]);
                } else if i == a.len() {
                    assert(t[i + 1] == b[0]);
                } else {
                    assert(t[i] == b[i - a.len() - 1]);
                }
            }
            assert(t.last() == b.last());
        },
    }
}

/// An optional version, written and read back, is itself.
proof fn lemma_opt_version_text_parses(v: Option<Version>)
    ensures
        spec_maybe_version(opt_version_text(v)) == Ok::<Option<Version>, Seq<char>>(v),
{
    if let Some(x) = v {
        lemma_version_text_parses(x);
        lemma_version_text_dots(x);
    }
}

/// Writing a range that has an end as `start..=end` and reading it back
/// gives the range.
#[verifier::rlimit(40)]
pub proof fn lemma_range_text_parses(r: VersionRange)
    requires
        r.end_inclusive is Some,
    ensures
        spec_parse_range(range_text(r)) == Ok::<VersionRange, Seq<char>>(r),
{
    let a = opt_version_text(r.start_inclusive);
    let b = opt_version_text(r.end_inclusive);
    reveal_strlit("..=");
    reveal_strlit("..");
    reveal_strlit("=");
    let s = range_text(r);
    assert(s =~= a + seq!['.', '.', '='] + b);
    if let Some(x) = r.start_inclusive {
        lemma_version_text_dots(x);
    }
    assert forall|j: int| 0 <= j < a.len() implies !has_prefix(#[trigger] s.skip(j), ".."@) by {
        if has_prefix(s.skip(j), ".."@) {
            assert(s.skip(j).take(2)[0] == s[j]);
            assert(s.skip(j).take(2)[1] == s[j + 1]);
            assert(s[j] == a[j]);
            if j < a.len() - 1 {
                assert(s[j + 1] == a[j + 1]);
                assert(a[j] == '.');
            } else {
                assert(a[j] == a.last());
            }
        }
    }
    assert(s.skip(a.len() as int).take(2) =~= ".."@);
    crate::pattern::lemma_find_some(s, ".."@, a.len() as int);
    assert(s.take(a.len() as int) =~= a);
    assert(s.skip(a.len() + 2int) =~= seq!['='] + b);
    assert((seq!['='] + b).take(1) =~= "="@);
    assert((seq!['='] + b).skip(1) =~= b);
    lemma_opt_version_text_parses(r.start_inclusive);
    lemma_opt_version_text_parses(r.end_inclusive);
}

} // verus!
