//! Removing the dev-dependencies from the text of a manifest: each table
//! `[dev-dependencies]`, `[dev-dependencies.*]` or
//! `[target.*.dev-dependencies]` goes, with everything up to the next table
//! that starts a line.

use vstd::prelude::*;

use crate::text::{chars_of, string_from_chars};
use crate::manifest::{manifest_without_dev_deps, spec_without_dev_deps};

verus! {

/// Whether `c` is white space, as `char::is_whitespace` (Unicode's
/// `White_Space`) has it.
pub open spec fn is_ws(c: char) -> bool {
    let u = c as u32;
    (0x09 <= u && u <= 0x0D) || u == 0x20 || u == 0x85 || u == 0xA0 || u == 0x1680 || (0x2000 <= u
        && u <= 0x200A) || u == 0x2028 || u == 0x2029 || u == 0x202F || u == 0x205F || u == 0x3000
}

/// How many bytes `c` takes in UTF-8.
pub open spec fn utf8_len(c: char) -> int {
    let u = c as u32;
    if u < 0x80 {
        1
    } else if u < 0x800 {
        2
    } else if u < 0x10000 {
        3
    } else {
        4
    }
}

/// The index of the character that starts `n` bytes after the one at `k`:
/// `None` where that is inside a character or past the end.
pub open spec fn advance(t: Seq<char>, k: int, n: int) -> Option<int>
    decreases n,
{
    if n <= 0 {
        if n == 0 && 0 <= k <= t.len() {
            Some(k)
        } else {
            None
        }
    } else if k < 0 || k >= t.len() || utf8_len(t[k]) > n {
        None
    } else {
        advance(t, k + 1, n - utf8_len(t[k]))
    }
}

/// The first index at or after `k` that holds `c`.
pub open spec fn find_from(t: Seq<char>, c: char, k: int) -> Option<int>
    decreases t.len() - k,
{
    if k < 0 || k >= t.len() {
        None
    } else if t[k] == c {
        Some(k)
    } else {
        find_from(t, c, k + 1)
    }
}

/// The last index in `lo..hi` that holds `c`.
pub open spec fn rfind_in(t: Seq<char>, c: char, lo: int, hi: int) -> Option<int>
    decreases hi - lo,
{
    if hi <= lo {
        None
    } else if t[hi - 1] == c {
        Some(hi - 1)
    } else {
        rfind_in(t, c, lo, hi - 1)
    }
}

/// Whether `lo..hi` holds only white space.
pub open spec fn all_ws(t: Seq<char>, lo: int, hi: int) -> bool {
    forall|k: int| lo <= k < hi ==> is_ws(#[trigger] t[k])
}

/// The first index at or after `k` that holds no white space.
pub open spec fn skip_ws(t: Seq<char>, k: int) -> int
    decreases t.len() - k,
{
    if k < 0 || k >= t.len() || !is_ws(t[k]) {
        k
    } else {
        skip_ws(t, k + 1)
    }
}

/// Whether `t` holds `pat` starting at `k`.
pub open spec fn starts_at(t: Seq<char>, k: int, pat: Seq<char>) -> bool {
    0 <= k && k + pat.len() <= t.len() && t.subrange(k, k + pat.len()) == pat
}

/// `s` without white space at either end.
pub open spec fn trim(s: Seq<char>) -> Seq<char>
    decreases s.len(),
{
    if s.len() > 0 && is_ws(s[0]) {
        trim(s.drop_first())
    } else if s.len() > 0 && is_ws(s.last()) {
        trim(s.drop_last())
    } else {
        s
    }
}

/// The start of the line of `i` within `from..`: after the last newline
/// before `i`, but not before `from`.
pub open spec fn line_start(t: Seq<char>, from: int, i: int) -> int {
    match rfind_in(t, '\n', from, i) {
        Some(n) => n + 1,
        None => from,
    }
}

/// The next table header at or after `k` (searching from `from`): a `[`
/// with only white space before it on its line; the start of that line and
/// the index of the `[`.
pub open spec fn next_header(t: Seq<char>, from: int, k: int) -> Option<(int, int)>
    decreases t.len() - k,
{
    match find_from(t, '[', k) {
        None => None,
        Some(i) => if all_ws(t, line_start(t, from, i), i) {
            Some((line_start(t, from, i), i))
        } else if k < i + 1 <= t.len() {
            next_header(t, from, i + 1)
        } else {
            None
        },
    }
}

/// The name of the tables that are removed.
pub open spec fn dev_deps() -> Seq<char> {
    "dev-dependencies"@
}

/// How a table found by `next_header` after `from` ends the one being
/// removed: the text without `prev..` up to the line of the next header,
/// and where that header now is; or the text cut at `prev`.
pub enum Cut {
    /// The text from `prev` up to the start of the next header's line
    /// goes; the header is then at the given index.
    Drain(Seq<char>, int),
    /// The rest of the text from `prev` goes.
    Truncate(Seq<char>),
}

/// Removes the table that starts at the line `prev`, up to the next
/// header found from `from`.
pub open spec fn cut(t: Seq<char>, prev: int, from: int) -> Cut {
    match next_header(t, from, from) {
        Some((lb, i)) => Cut::Drain(t.take(prev) + t.skip(lb), prev + (i - lb)),
        None => Cut::Truncate(t.take(prev)),
    }
}

/// The step of the scan at the `[` at `pos`, with the previous header at
/// `prev`: `Err(())` where the scan cannot go on (it would read past the
/// end of the text), else the text and the
/// next position (if any) and previous position to go on with.
pub open spec fn step(t: Seq<char>, prev: int, pos: int) -> Result<(Seq<char>, int, Option<int>), ()> {
    let prev = match rfind_in(t, '\n', prev, pos) {
        Some(n) => n + 1,
        None => prev,
    };
    let fallthrough = match advance(t, pos, 4) {
        Some(p4) => Ok((t, pos, find_from(t, '[', p4))),
        None => Ok((t, pos, None)),
    };
    if all_ws(t, prev, pos) {
        let s = skip_ws(t, pos + 1);
        if starts_at(t, s, dev_deps()) {
            let r = skip_ws(t, s + 16);
            if r >= t.len() {
                Err(())
            } else if t[r] == '.' || t[r] == ']' {
                match advance(t, pos, 16) {
                    None => Err(()),
                    Some(mc) => match cut(t, prev, mc) {
                        Cut::Drain(t2, j) => Ok((t2, prev, Some(j))),
                        Cut::Truncate(t2) => Ok((t2, prev, None)),
                    },
                }
            } else {
                fallthrough
            }
        } else if starts_at(t, s, "target."@) {
            match advance(t, pos, 7) {
                None => Err(()),
                Some(k7) => match find_from(t, ']', k7) {
                    None => fallthrough,
                    Some(close) => {
                        let parts = crate::text::split_on(t.subrange(pos, close), '.');
                        if parts.len() >= 3 && trim(parts[2]) == dev_deps() {
                            match cut(t, prev, close) {
                                Cut::Drain(t2, j) => Ok((t2, prev, Some(j))),
                                Cut::Truncate(t2) => Ok((t2, prev, None)),
                            }
                        } else {
                            Ok((t, pos, find_from(t, '[', close)))
                        }
                    },
                },
            }
        } else {
            fallthrough
        }
    } else {
        fallthrough
    }
}

/// The scan from the `[` at `pos` to the end: the text left, or `None`
/// where the scan cannot go on.
pub open spec fn scan(t: Seq<char>, prev: int, pos: int) -> Option<Seq<char>>
    decreases t.len() - pos,
{
    if !(0 <= prev <= pos < t.len()) {
        None
    } else {
        match step(t, prev, pos) {
            Err(_) => None,
            Ok((t2, prev2, next)) => match next {
                None => Some(t2),
                Some(p) => if 0 <= prev2 <= p < t2.len() && t2.len() - p < t.len() - pos {
                    scan(t2, prev2, p)
                } else {
                    None
                },
            },
        }
    }
}

/// The text with the dev-dependencies removed, or `None` where the scan
/// cannot go on (on text that is no valid TOML).
pub open spec fn spec_remove_dev_deps(t: Seq<char>) -> Option<Seq<char>> {
    match find_from(t, '[', 0) {
        None => Some(t),
        Some(p) => scan(t, 0, p),
    }
}

} // verus!

verus! {

/// Whether `c` is white space.
fn is_ws_exec(c: char) -> (res: bool)
    ensures
        res == is_ws(c),
{
    let u = c as u32;
    (0x09 <= u && u <= 0x0D) || u == 0x20 || u == 0x85 || u == 0xA0 || u == 0x1680 || (0x2000 <= u
        && u <= 0x200A) || u == 0x2028 || u == 0x2029 || u == 0x202F || u == 0x205F || u == 0x3000
}

/// How many bytes `c` takes in UTF-8.
fn utf8_len_exec(c: char) -> (res: usize)
    ensures
        res == utf8_len(c),
{
    let u = c as u32;
    if u < 0x80 {
        1
    } else if u < 0x800 {
        2
    } else if u < 0x10000 {
        3
    } else {
        4
    }
}

/// The index of the character that starts `n` bytes after the one at `k`.
fn advance_exec(t: &Vec<char>, k: usize, n: usize) -> (res: Option<usize>)
    requires
        k <= t@.len(),
    ensures
        match res {
            Some(r) => advance(t@, k as int, n as int) == Some(r as int) && k <= r <= t@.len() && (n > 0
                ==> k < r),
            None => advance(t@, k as int, n as int) is None,
        },
{
    let mut i = k;
    let mut left = n;
    while left > 0
        invariant
            k <= i <= t@.len(),
            left <= n,
            left < n ==> k < i,
            advance(t@, i as int, left as int) == advance(t@, k as int, n as int),
        decreases left,
    {
        if i >= t.len() {
            return None;
        }
        let l = utf8_len_exec(t[i]);
        if l > left {
            return None;
        }
        left = left - l;
        i = i + 1;
    }
    Some(i)
}

/// The first index at or after `k` that holds `c`.
fn find_from_exec(t: &Vec<char>, c: char, k: usize) -> (res: Option<usize>)
    ensures
        match res {
            Some(r) => find_from(t@, c, k as int) == Some(r as int) && k <= r < t@.len() && t@[r as int] == c,
            None => find_from(t@, c, k as int) is None,
        },
{
    let mut i = k;
    while i < t.len()
        invariant
            k <= i,
            find_from(t@, c, i as int) == find_from(t@, c, k as int),
        decreases t@.len() - i,
    {
        if t[i] == c {
            return Some(i);
        }
        i = i + 1;
    }
    None
}

/// The last index in `lo..hi` that holds `c`.
fn rfind_in_exec(t: &Vec<char>, c: char, lo: usize, hi: usize) -> (res: Option<usize>)
    requires
        lo <= hi <= t@.len(),
    ensures
        match res {
            Some(r) => rfind_in(t@, c, lo as int, hi as int) == Some(r as int) && lo <= r < hi,
            None => rfind_in(t@, c, lo as int, hi as int) is None,
        },
{
    let mut j = hi;
    while j > lo
        invariant
            lo <= j <= hi <= t@.len(),
            rfind_in(t@, c, lo as int, j as int) == rfind_in(t@, c, lo as int, hi as int),
        decreases j - lo,
    {
        if t[j - 1] == c {
            return Some(j - 1);
        }
        j = j - 1;
    }
    None
}

/// Whether `lo..hi` holds only white space.
fn all_ws_exec(t: &Vec<char>, lo: usize, hi: usize) -> (res: bool)
    requires
        lo <= hi <= t@.len(),
    ensures
        res == all_ws(t@, lo as int, hi as int),
{
    let mut k = lo;
    while k < hi
        invariant
            lo <= k <= hi <= t@.len(),
            forall|j: int| lo <= j < k ==> is_ws(#[trigger] t@[j]),
        decreases hi - k,
    {
        if !is_ws_exec(t[k]) {
            return false;
        }
        k = k + 1;
    }
    true
}

/// The first index at or after `k` that holds no white space.
fn skip_ws_exec(t: &Vec<char>, k: usize) -> (res: usize)
    requires
        k <= t@.len(),
    ensures
        res == skip_ws(t@, k as int),
        k <= res <= t@.len(),
{
    let mut i = k;
    while i < t.len() && is_ws_exec(t[i])
        invariant
            k <= i <= t@.len(),
            skip_ws(t@, i as int) == skip_ws(t@, k as int),
        decreases t@.len() - i,
    {
        i = i + 1;
    }
    i
}

/// Whether `t` holds `pat` starting at `k`.
fn starts_at_exec(t: &Vec<char>, k: usize, pat: &[char]) -> (res: bool)
    requires
        k <= t@.len(),
    ensures
        res == starts_at(t@, k as int, pat@),
{
    if pat.len() > t.len() - k {
        return false;
    }
    let mut j: usize = 0;
    while j < pat.len()
        invariant
            k + pat@.len() <= t@.len(),
            t@.len() == t.len(),
            j <= pat@.len(),
            forall|x: int| 0 <= x < j ==> t@[k + x] == pat@[x],
        decreases pat@.len() - j,
    {
        if t[k + j] != pat[j] {
            proof {
                assert(t@.subrange(k as int, k + pat@.len())[j as int] != pat@[j as int]);
            }
            return false;
        }
        j = j + 1;
    }
    proof {
        assert(t@.subrange(k as int, k + pat@.len()) =~= pat@);
    }
    true
}

/// `s` without white space at either end.
fn trim_exec(s: &Vec<char>) -> (res: Vec<char>)
    ensures
        res@ == trim(s@),
{
    let mut lo: usize = 0;
    let mut hi: usize = s.len();
    proof {
        assert(s@.subrange(0, s@.len() as int) =~= s@);
    }
    while lo < hi && (is_ws_exec(s[lo]) || is_ws_exec(s[hi - 1]))
        invariant
            lo <= hi <= s@.len(),
            trim(s@.subrange(lo as int, hi as int)) == trim(s@),
        decreases hi - lo,
    {
        if is_ws_exec(s[lo]) {
            proof {
                assert(s@.subrange(lo as int, hi as int).drop_first() =~= s@.subrange(lo + 1, hi as int));
            }
            lo = lo + 1;
        } else {
            proof {
                assert(s@.subrange(lo as int, hi as int).drop_last() =~= s@.subrange(lo as int, hi - 1));
            }
            hi = hi - 1;
        }
    }
    proof {
        assert(s@.take(s@.len() as int) =~= s@);
        assert(s@.subrange(0, s@.len() as int) =~= s@);
    }
    let r = vstd::slice::slice_to_vec(vstd::slice::slice_subrange(s.as_slice(), lo, hi));
    r
}

} // verus!

verus! {

/// The start of the line of `i` within `from..`.
fn line_start_exec(t: &Vec<char>, from: usize, i: usize) -> (res: usize)
    requires
        from <= i <= t@.len(),
    ensures
        res == line_start(t@, from as int, i as int),
        from <= res <= i,
{
    match rfind_in_exec(t, '\n', from, i) {
        Some(n) => n + 1,
        None => from,
    }
}

/// The next table header at or after `k`, searching from `from`.
fn next_header_exec(t: &Vec<char>, from: usize, k: usize) -> (res: Option<(usize, usize)>)
    requires
        from <= k <= t@.len(),
    ensures
        match res {
            Some((lb, i)) => next_header(t@, from as int, k as int) == Some((lb as int, i as int))
                && from <= lb <= i < t@.len(),
            None => next_header(t@, from as int, k as int) is None,
        },
{
    let mut j = k;
    while j <= t.len()
        invariant
            from <= k <= j <= t@.len() + 1,
            t@.len() == t.len(),
            j <= t@.len() ==> next_header(t@, from as int, j as int) == next_header(t@, from as int, k as int),
            j > t@.len() ==> next_header(t@, from as int, k as int) is None,
        decreases t@.len() + 1 - j,
    {
        match find_from_exec(t, '[', j) {
            None => {
                return None;
            },
            Some(i) => {
                let lb = line_start_exec(t, from, i);
                if all_ws_exec(t, lb, i) {
                    return Some((lb, i));
                }
                j = i + 1;
            },
        }
    }
    None
}

/// The text with `prev..lb` removed.
fn drain_exec(t: &Vec<char>, prev: usize, lb: usize) -> (res: Vec<char>)
    requires
        prev <= lb <= t@.len(),
    ensures
        res@ == t@.take(prev as int) + t@.skip(lb as int),
{
    let mut out: Vec<char> = Vec::new();
    let mut k: usize = 0;
    while k < prev
        invariant
            k <= prev <= t@.len(),
            out@ == t@.take(k as int),
        decreases prev - k,
    {
        out.push(t[k]);
        k = k + 1;
        proof {
            assert(out@ =~= t@.take(k as int));
        }
    }
    let mut k = lb;
    while k < t.len()
        invariant
            prev <= lb <= k <= t@.len(),
            out@ == t@.take(prev as int) + t@.subrange(lb as int, k as int),
        decreases t@.len() - k,
    {
        out.push(t[k]);
        k = k + 1;
        proof {
            assert(out@ =~= t@.take(prev as int) + t@.subrange(lb as int, k as int));
        }
    }
    proof {
        assert(t@.subrange(lb as int, t@.len() as int) =~= t@.skip(lb as int));
    }
    out
}

/// Removes the table that starts at the line `prev`, up to the next
/// header found from `from`.
fn cut_exec(t: &Vec<char>, prev: usize, from: usize) -> (res: (Vec<char>, Option<usize>))
    requires
        prev <= from <= t@.len(),
    ensures
        match cut(t@, prev as int, from as int) {
            Cut::Drain(t2, j) => res.0@ == t2 && (res.1 matches Some(p) && p as int == j),
            Cut::Truncate(t2) => res.0@ == t2 && res.1 is None,
        },
        res.1 matches Some(p) ==> prev <= p < res.0@.len() && res.0@.len() - p <= t@.len() - from,
{
    match next_header_exec(t, from, from) {
        Some((lb, i)) => {
            let t2 = drain_exec(t, prev, lb);
            (t2, Some(prev + (i - lb)))
        },
        None => {
            let t2 = drain_exec(t, prev, t.len());
            proof {
                assert(t@.skip(t@.len() as int) =~= Seq::<char>::empty());
                assert(t2@ =~= t@.take(prev as int));
            }
            (t2, None)
        },
    }
}

} // verus!

verus! {

/// The step of the scan at the `[` at `pos`.
fn step_exec(t: Vec<char>, prev: usize, pos: usize) -> (res: Result<(Vec<char>, usize, Option<usize>), ()>)
    requires
        prev <= pos < t@.len(),
    ensures
        match res {
            Err(_) => step(t@, prev as int, pos as int) is Err,
            Ok((t2, prev2, next)) => {
                &&& step(t@, prev as int, pos as int) == Ok::<(Seq<char>, int, Option<int>), ()>(
                    (t2@, prev2 as int, match next {
                        Some(p) => Some(p as int),
                        None => None,
                    }),
                )
                &&& next matches Some(p) ==> prev2 <= p < t2@.len() && t2@.len() - p < t@.len() - pos
            },
        },
{
    let tl = t.len();
    let ghost old_prev = prev;
    let prev = match rfind_in_exec(&t, '\n', prev, pos) {
        Some(n) => n + 1,
        None => prev,
    };
    let dev: [char; 16] = [
        'd', 'e', 'v', '-', 'd', 'e', 'p', 'e', 'n', 'd', 'e', 'n', 'c', 'i', 'e', 's',
    ];
    let target: [char; 7] = ['t', 'a', 'r', 'g', 'e', 't', '.'];
    proof {
        reveal_strlit("dev-dependencies");
        reveal_strlit("target.");
        assert(dev@ =~= dev_deps());
        assert(target@ =~= "target."@);
    }
    if all_ws_exec(&t, prev, pos) {
        let s = skip_ws_exec(&t, pos + 1);
        if starts_at_exec(&t, s, &dev) {
            let r = skip_ws_exec(&t, s + 16);
            if r >= t.len() {
                return Err(());
            }
            if t[r] == '.' || t[r] == ']' {
                match advance_exec(&t, pos, 16) {
                    None => {
                        return Err(());
                    },
                    Some(mc) => {
                        let (t2, next) = cut_exec(&t, prev, mc);
                        proof {
                            assert(step(t@, old_prev as int, pos as int) == match cut(t@, prev as int, mc as int) {
                                Cut::Drain(t3, j) => Ok::<(Seq<char>, int, Option<int>), ()>((t3, prev as int, Some(j))),
                                Cut::Truncate(t3) => Ok::<(Seq<char>, int, Option<int>), ()>((t3, prev as int, None)),
                            });
                        }
                        return Ok((t2, prev, next));
                    },
                }
            }
        } else if starts_at_exec(&t, s, &target) {
            match advance_exec(&t, pos, 7) {
                None => {
                    return Err(());
                },
                Some(k7) => match find_from_exec(&t, ']', k7) {
                    None => {},
                    Some(close) => {
                        let header = crate::pattern::chars_between(t.as_slice(), pos, close);
                        let parts = crate::text::split_chars(header.as_str(), '.');
                        let mut is_dev = false;
                        if parts.len() >= 3 {
                            let third = chars_of(parts[2].as_str());
                            let trimmed = trim_exec(&third);
                            is_dev = starts_at_exec(&trimmed, 0, &dev) && trimmed.len() == 16;
                            proof {
                                assert(crate::text::views(parts@)[2] == parts@[2]@);
                                if is_dev {
                                    assert(trimmed@.subrange(0, 16) =~= trimmed@);
                                }
                                if trimmed@ == dev_deps() {
                                    assert(trimmed@.subrange(0, 16) =~= trimmed@);
                                }
                            }
                        }
                        if is_dev {
                            let (t2, next) = cut_exec(&t, prev, close);
                            return Ok((t2, prev, next));
                        }
                        let next = find_from_exec(&t, '[', close);
                        return Ok((t, pos, next));
                    },
                },
            }
        }
    }
    match advance_exec(&t, pos, 4) {
        Some(p4) => {
            let next = find_from_exec(&t, '[', p4);
            Ok((t, pos, next))
        },
        None => Ok((t, pos, None)),
    }
}

/// Removes the dev-dependencies from the text of a manifest, as the scan
/// does; `None` where it cannot go on (on text that is no valid TOML).
pub fn try_remove_dev_deps(text: &str) -> (res: Option<String>)
    ensures
        match res {
            Some(s) => spec_remove_dev_deps(text@) == Some(s@),
            None => spec_remove_dev_deps(text@) is None,
        },
{
    let mut t = chars_of(text);
    let mut prev: usize = 0;
    let mut next = find_from_exec(&t, '[', 0);
    let ghost goal = spec_remove_dev_deps(text@);
    while next.is_some()
        invariant
            goal == spec_remove_dev_deps(text@),
            match next {
                Some(p) => prev <= p < t@.len() && goal == scan(t@, prev as int, p as int),
                None => goal == Some(t@),
            },
        decreases match next {
            Some(p) => t@.len() - p,
            None => 0,
        },
    {
        let pos = next.unwrap();
        match step_exec(t, prev, pos) {
            Err(_) => {
                return None;
            },
            Ok((t2, prev2, n2)) => {
                t = t2;
                prev = prev2;
                next = n2;
            },
        }
    }
    Some(string_from_chars(t.as_slice()))
}

/// Removes the dev-dependencies from the text of a manifest: each table
/// `[dev-dependencies]`, `[dev-dependencies.*]` or
/// `[target.*.dev-dependencies]`, with everything up to the next table
/// header that starts a line. Where the scan cannot go through the text
/// (it stops, for one, on a line inside a multi-line string that looks like
/// a header but for characters that are not ASCII), the dev-dependencies
/// are removed through the TOML document instead; text that the scan cannot
/// go through and that is no TOML is given back as it is.
pub fn remove_dev_deps(text: &str) -> (res: String)
    ensures
        res@ == match spec_remove_dev_deps(text@) {
            Some(t) => t,
            None => match spec_without_dev_deps(text@) {
                Ok(t) => t,
                Err(_) => text@,
            },
        },
{
    match try_remove_dev_deps(text) {
        Some(s) => s,
        None => match manifest_without_dev_deps(text) {
            Ok(s) => s,
            Err(_) => String::from_str(text),
        },
    }
}

} // verus!

verus! {

/// Whether `pat` occurs in `t`.
pub open spec fn occurs(t: Seq<char>, pat: Seq<char>) -> bool {
    exists|k: int| #[trigger] starts_at(t, k, pat)
}

/// A text in which `dev-dependencies` does not occur comes out of the scan
/// as it went in (where the scan goes through it).
pub proof fn lemma_without_dev_deps_unchanged(t: Seq<char>)
    requires
        !occurs(t, dev_deps()),
    ensures
        spec_remove_dev_deps(t) matches Some(r) ==> r == t,
{
    if let Some(p) = find_from(t, '[', 0) {
        lemma_scan_unchanged(t, 0, p);
    }
}

proof fn lemma_scan_unchanged(t: Seq<char>, prev: int, pos: int)
    requires
        !occurs(t, dev_deps()),
    ensures
        scan(t, prev, pos) matches Some(r) ==> r == t,
    decreases t.len() - pos,
{
    if 0 <= prev <= pos < t.len() {
        lemma_step_unchanged(t, prev, pos);
        match step(t, prev, pos) {
            Err(_) => {},
            Ok((t2, prev2, next)) => match next {
                None => {},
                Some(p) => if 0 <= prev2 <= p < t2.len() && t2.len() - p < t.len() - pos {
                    lemma_scan_unchanged(t2, prev2, p);
                },
            },
        }
    }
}

proof fn lemma_step_unchanged(t: Seq<char>, prev: int, pos: int)
    requires
        !occurs(t, dev_deps()),
        0 <= prev <= pos < t.len(),
    ensures
        step(t, prev, pos) matches Ok((t2, _, _)) ==> t2 == t,
{
    let prev1 = match rfind_in(t, '\n', prev, pos) {
        Some(n) => n + 1,
        None => prev,
    };
    if all_ws(t, prev1, pos) {
        let s = skip_ws(t, pos + 1);
        if starts_at(t, s, dev_deps()) {
            assert(occurs(t, dev_deps()));
        } else if starts_at(t, s, "target."@) {
            if let Some(k7) = advance(t, pos, 7) {
                lemma_advance_range(t, pos, 7);
                if let Some(close) = find_from(t, ']', k7) {
                    lemma_find_from_range(t, ']', k7);
                    let x = t.subrange(pos, close);
                    let parts = crate::text::split_on(x, '.');
                    if parts.len() >= 3 && trim(parts[2]) == dev_deps() {
                        let a = lemma_split_piece(x, '.', 2);
                        let b = lemma_trim_sub(parts[2]);
                        let k = pos + a + b;
                        assert(t.subrange(k, k + dev_deps().len()) =~= dev_deps());
                        assert(starts_at(t, k, dev_deps()));
                    }
                }
            }
        }
    }
}

proof fn lemma_advance_range(t: Seq<char>, k: int, n: int)
    ensures
        advance(t, k, n) matches Some(j) ==> k <= j <= t.len(),
    decreases n,
{
    if n > 0 && !(k < 0 || k >= t.len() || utf8_len(t[k]) > n) {
        lemma_advance_range(t, k + 1, n - utf8_len(t[k]));
    }
}

proof fn lemma_find_from_range(t: Seq<char>, c: char, k: int)
    ensures
        find_from(t, c, k) matches Some(i) ==> k <= i < t.len(),
    decreases t.len() - k,
{
    if 0 <= k < t.len() && t[k] != c {
        lemma_find_from_range(t, c, k + 1);
    }
}

/// Where `trim(s)` stands within `s`.
proof fn lemma_trim_sub(s: Seq<char>) -> (a: int)
    ensures
        0 <= a,
        a + trim(s).len() <= s.len(),
        s.subrange(a, a + trim(s).len()) == trim(s),
    decreases s.len(),
{
    if s.len() > 0 && is_ws(s[0]) {
        let a = lemma_trim_sub(s.drop_first());
        assert(s.subrange(a + 1, a + 1 + trim(s).len()) =~= s.drop_first().subrange(a, a + trim(s).len()));
        a + 1
    } else if s.len() > 0 && is_ws(s.last()) {
        let a = lemma_trim_sub(s.drop_last());
        assert(s.subrange(a, a + trim(s).len()) =~= s.drop_last().subrange(a, a + trim(s).len()));
        a
    } else {
        assert(s.subrange(0, s.len() as int) =~= s);
        0
    }
}

/// Where piece `i` of `split_on(s, sep)` stands within `s`; the last piece
/// ends where `s` ends.
proof fn lemma_split_piece(s: Seq<char>, sep: char, i: int) -> (a: int)
    requires
        0 <= i < crate::text::split_on(s, sep).len(),
    ensures
        0 <= a,
        a + crate::text::split_on(s, sep)[i].len() <= s.len(),
        s.subrange(a, a + crate::text::split_on(s, sep)[i].len()) == crate::text::split_on(s, sep)[i],
        i == crate::text::split_on(s, sep).len() - 1 ==> a + crate::text::split_on(s, sep)[i].len() == s.len(),
    decreases s.len(),
{
    let parts = crate::text::split_on(s, sep);
    if s.len() == 0 {
        assert(s.subrange(0, 0) =~= parts[i]);
        0
    } else {
        let d = s.drop_last();
        let r = crate::text::split_on(d, sep);
        crate::text::lemma_split_on_nonempty(d, sep);
        if s.last() == sep {
            if i < r.len() {
                let a = lemma_split_piece(d, sep, i);
                assert(s.subrange(a, a + parts[i].len()) =~= d.subrange(a, a + parts[i].len()));
                a
            } else {
                assert(s.subrange(s.len() as int, s.len() as int) =~= parts[i]);
                s.len() as int
            }
        } else {
            let a = lemma_split_piece(d, sep, i);
            if i < r.len() - 1 {
                assert(s.subrange(a, a + parts[i].len()) =~= d.subrange(a, a + parts[i].len()));
            } else {
                assert(s.subrange(a, a + parts[i].len()) =~= d.subrange(a, a + r[i].len()).push(s.last()));
            }
            a
        }
    }
}

/// Text without tables is left as it is.
pub proof fn lemma_no_tables_unchanged(t: Seq<char>)
    requires
        !t.contains('['),
    ensures
        spec_remove_dev_deps(t) == Some(t),
{
    lemma_find_none(t, '[', 0);
}

proof fn lemma_find_none(t: Seq<char>, c: char, k: int)
    requires
        !t.contains(c),
        0 <= k,
    ensures
        find_from(t, c, k) is None,
    decreases t.len() - k,
{
    if k < t.len() {
        assert(t[k] != c);
        lemma_find_none(t, c, k + 1);
    }
}

} // verus!
