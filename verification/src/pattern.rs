//! Searching text: the first occurrence of a pattern, splitting once at it,
//! stripping and replacing it, and decimal numbers.

use vstd::prelude::*;
use vstd::slice::slice_subrange;

use crate::text::{chars_of, has_prefix, starts_with_chars, string_from_chars, views};

verus! {

/// The position of the first occurrence of `pat` in `s`, if any.
pub open spec fn find_pat(s: Seq<char>, pat: Seq<char>) -> Option<int>
    decreases s.len(),
{
    if has_prefix(s, pat) {
        Some(0)
    } else if s.len() == 0 {
        None
    } else {
        match find_pat(s.drop_first(), pat) {
            Some(i) => Some(i + 1),
            None => None,
        }
    }
}

/// `str::split_once` with a text pattern: the text before the first
/// occurrence of `pat`, and the text after it.
pub open spec fn split_once_pat(s: Seq<char>, pat: Seq<char>) -> Option<(Seq<char>, Seq<char>)> {
    match find_pat(s, pat) {
        Some(i) => Some((s.take(i), s.skip(i + pat.len()))),
        None => None,
    }
}

/// `str::strip_prefix`: the rest of `s` where it starts with `pat`.
pub open spec fn strip_prefix_pat(s: Seq<char>, pat: Seq<char>) -> Option<Seq<char>> {
    if has_prefix(s, pat) {
        Some(s.skip(pat.len() as int))
    } else {
        None
    }
}

/// `str::replace`: each occurrence of `pat`, from the left and without
/// overlap, replaced by `with`.
pub open spec fn replace_pat(s: Seq<char>, pat: Seq<char>, with: Seq<char>) -> Seq<char>
    recommends
        pat.len() > 0,
    decreases s.len(),
{
    if s.len() == 0 {
        Seq::empty()
    } else if pat.len() > 0 && has_prefix(s, pat) {
        with + replace_pat(s.skip(pat.len() as int), pat, with)
    } else {
        seq![s[0]] + replace_pat(s.drop_first(), pat, with)
    }
}

/// The decimal digits of `n`, as `u32::to_string` writes them.
pub open spec fn decimal(n: nat) -> Seq<char>
    decreases n,
{
    if n < 10 {
        seq![digit_char(n)]
    } else {
        decimal(n / 10).push(digit_char(n % 10))
    }
}

/// The character of a digit below ten.
pub open spec fn digit_char(d: nat) -> char {
    if d == 0 {
        '0'
    } else if d == 1 {
        '1'
    } else if d == 2 {
        '2'
    } else if d == 3 {
        '3'
    } else if d == 4 {
        '4'
    } else if d == 5 {
        '5'
    } else if d == 6 {
        '6'
    } else if d == 7 {
        '7'
    } else if d == 8 {
        '8'
    } else {
        '9'
    }
}

/// The first occurrence of `pat` is at `i` where it occurs there and at no
/// earlier place.
pub proof fn lemma_find_some(s: Seq<char>, pat: Seq<char>, i: int)
    requires
        0 <= i <= s.len(),
        has_prefix(s.skip(i), pat),
        forall|j: int| 0 <= j < i ==> !has_prefix(#[trigger] s.skip(j), pat),
    ensures
        find_pat(s, pat) == Some(i),
    decreases i,
{
    if i == 0 {
        assert(s.skip(0) =~= s);
    } else {
        assert(s.skip(0) =~= s);
        let t = s.drop_first();
        assert forall|j: int| 0 <= j < i - 1 implies !has_prefix(#[trigger] t.skip(j), pat) by {
            assert(t.skip(j) =~= s.skip(j + 1));
        }
        assert(t.skip(i - 1) =~= s.skip(i));
        lemma_find_some(t, pat, i - 1);
    }
}

proof fn lemma_find_none(s: Seq<char>, pat: Seq<char>)
    requires
        forall|j: int| 0 <= j <= s.len() ==> !has_prefix(#[trigger] s.skip(j), pat),
    ensures
        find_pat(s, pat) == None::<int>,
    decreases s.len(),
{
    assert(s.skip(0) =~= s);
    if s.len() > 0 {
        let t = s.drop_first();
        assert forall|j: int| 0 <= j <= t.len() implies !has_prefix(#[trigger] t.skip(j), pat) by {
            assert(t.skip(j) =~= s.skip(j + 1));
        }
        lemma_find_none(t, pat);
    }
}

/// The first occurrence of `pat` in `s`, a position that `find_pat` gives.
proof fn lemma_find_facts(s: Seq<char>, pat: Seq<char>, i: int)
    requires
        find_pat(s, pat) == Some(i),
    ensures
        0 <= i <= s.len(),
        has_prefix(s.skip(i), pat),
        i + pat.len() <= s.len(),
    decreases s.len(),
{
    assert(s.skip(0) =~= s);
    if !has_prefix(s, pat) && s.len() > 0 {
        let t = s.drop_first();
        lemma_find_facts(t, pat, i - 1);
        assert(t.skip(i - 1) =~= s.skip(i));
    }
}

/// Whether `cs` holds `pat` starting at position `at`.
fn matches_at(cs: &[char], at: usize, pat: &[char]) -> (res: bool)
    requires
        at <= cs@.len(),
    ensures
        res == has_prefix(cs@.skip(at as int), pat@),
{
    let rest = slice_subrange(cs, at, cs.len());
    proof {
        assert(rest@ =~= cs@.skip(at as int));
    }
    starts_with_chars(rest, pat)
}

/// The position of the first occurrence of `pat` in `cs`.
pub fn find_chars(cs: &[char], pat: &[char]) -> (res: Option<usize>)
    ensures
        match res {
            Some(i) => find_pat(cs@, pat@) == Some(i as int),
            None => find_pat(cs@, pat@) == None::<int>,
        },
{
    let mut i: usize = 0;
    while i < cs.len()
        invariant
            i <= cs@.len(),
            forall|j: int| 0 <= j < i ==> !has_prefix(#[trigger] cs@.skip(j), pat@),
        decreases cs@.len() - i,
    {
        if matches_at(cs, i, pat) {
            proof {
                lemma_find_some(cs@, pat@, i as int);
            }
            return Some(i);
        }
        i = i + 1;
    }
    if matches_at(cs, i, pat) {
        proof {
            lemma_find_some(cs@, pat@, i as int);
        }
        return Some(i);
    }
    proof {
        lemma_find_none(cs@, pat@);
    }
    None
}

/// The text of `cs` from `from` up to `to`.
pub fn chars_between(cs: &[char], from: usize, to: usize) -> (res: String)
    requires
        from <= to <= cs@.len(),
    ensures
        res@ == cs@.subrange(from as int, to as int),
{
    string_from_chars(slice_subrange(cs, from, to))
}

/// `str::split_once` with a text pattern.
pub fn split_once_str(s: &str, pat: &str) -> (res: Option<(String, String)>)
    ensures
        match res {
            Some((a, b)) => split_once_pat(s@, pat@) == Some((a@, b@)),
            None => split_once_pat(s@, pat@) == None::<(Seq<char>, Seq<char>)>,
        },
{
    let cs = chars_of(s);
    let ps = chars_of(pat);
    match find_chars(cs.as_slice(), ps.as_slice()) {
        Some(i) => {
            proof {
                lemma_find_facts(cs@, ps@, i as int);
            }
            let n = cs.len();
            let a = chars_between(cs.as_slice(), 0, i);
            let b = chars_between(cs.as_slice(), i + ps.len(), n);
            proof {
                assert(a@ =~= cs@.take(i as int));
                assert(b@ =~= cs@.skip(i + ps@.len()));
            }
            Some((a, b))
        },
        None => None,
    }
}

/// `str::split_once` at a character.
pub fn split_once_char(s: &str, c: char) -> (res: Option<(String, String)>)
    ensures
        match res {
            Some((a, b)) => split_once_pat(s@, seq![c]) == Some((a@, b@)),
            None => split_once_pat(s@, seq![c]) == None::<(Seq<char>, Seq<char>)>,
        },
{
    let cs = chars_of(s);
    let ps: [char; 1] = [c];
    proof {
        assert(ps@ =~= seq![c]);
    }
    match find_chars(cs.as_slice(), ps.as_slice()) {
        Some(i) => {
            proof {
                lemma_find_facts(cs@, ps@, i as int);
            }
            let n = cs.len();
            let a = chars_between(cs.as_slice(), 0, i);
            let b = chars_between(cs.as_slice(), i + 1, n);
            proof {
                assert(a@ =~= cs@.take(i as int));
                assert(b@ =~= cs@.skip(i + 1));
            }
            Some((a, b))
        },
        None => None,
    }
}

/// `str::strip_prefix` with a text pattern.
pub fn strip_prefix_str(s: &str, pat: &str) -> (res: Option<String>)
    ensures
        match res {
            Some(r) => strip_prefix_pat(s@, pat@) == Some(r@),
            None => strip_prefix_pat(s@, pat@) == None::<Seq<char>>,
        },
{
    let cs = chars_of(s);
    let ps = chars_of(pat);
    if starts_with_chars(cs.as_slice(), ps.as_slice()) {
        let r = chars_between(cs.as_slice(), ps.len(), cs.len());
        proof {
            assert(r@ =~= cs@.skip(ps@.len() as int));
        }
        Some(r)
    } else {
        None
    }
}

/// `str::replace`: every occurrence of `pat`, from the left, replaced by
/// `with`.
pub fn replace_str(s: &str, pat: &str, with: &str) -> (res: String)
    requires
        pat@.len() > 0,
    ensures
        res@ == replace_pat(s@, pat@, with@),
{
    let cs = chars_of(s);
    let ps = chars_of(pat);
    let ws = chars_of(with);
    let mut out: Vec<char> = Vec::new();
    let mut i: usize = 0;
    proof {
        assert(cs@.skip(0) =~= cs@);
    }
    while i < cs.len()
        invariant
            cs@ == s@,
            ps@ == pat@,
            ws@ == with@,
            ps@.len() > 0,
            i <= cs@.len(),
            out@ + replace_pat(cs@.skip(i as int), ps@, ws@) == replace_pat(s@, pat@, with@),
        decreases cs@.len() - i,
    {
        let ghost rest = cs@.skip(i as int);
        if matches_at(cs.as_slice(), i, ps.as_slice()) {
            let ghost before = out@;
            let mut k: usize = 0;
            while k < ws.len()
                invariant
                    k <= ws@.len(),
                    out@ == before + ws@.take(k as int),
                decreases ws@.len() - k,
            {
                out.push(ws[k]);
                k = k + 1;
                proof {
                    assert(ws@.take(k as int) =~= ws@.take(k - 1).push(ws@[k - 1]));
                }
            }
            proof {
                assert(ws@.take(ws@.len() as int) =~= ws@);
                assert(rest.skip(ps@.len() as int) =~= cs@.skip(i + ps@.len()));
                assert(out@ + replace_pat(cs@.skip(i + ps@.len()), ps@, ws@) =~= before + (ws@
                    + replace_pat(rest.skip(ps@.len() as int), ps@, ws@)));
            }
            i = i + ps.len();
        } else {
            let ghost before = out@;
            out.push(cs[i]);
            proof {
                assert(rest.drop_first() =~= cs@.skip(i + 1));
                assert(rest[0] == cs@[i as int]);
                assert(out@ + replace_pat(cs@.skip(i + 1), ps@, ws@) =~= before + (seq![rest[0]]
                    + replace_pat(rest.drop_first(), ps@, ws@)));
            }
            i = i + 1;
        }
    }
    proof {
        assert(cs@.skip(i as int) =~= Seq::<char>::empty());
        assert(out@ + Seq::<char>::empty() =~= out@);
    }
    string_from_chars(out.as_slice())
}

proof fn lemma_decimal_len(n: nat)
    ensures
        decimal(n).len() >= 1,
    decreases n,
{
    if n >= 10 {
        lemma_decimal_len(n / 10);
    }
}

/// The digit character of a value below ten.
fn digit_of(d: u64) -> (c: char)
    requires
        d < 10,
    ensures
        c == digit_char(d as nat),
{
    if d == 0 {
        '0'
    } else if d == 1 {
        '1'
    } else if d == 2 {
        '2'
    } else if d == 3 {
        '3'
    } else if d == 4 {
        '4'
    } else if d == 5 {
        '5'
    } else if d == 6 {
        '6'
    } else if d == 7 {
        '7'
    } else if d == 8 {
        '8'
    } else {
        '9'
    }
}

/// The decimal digits of `n`, appended to `out`.
fn push_decimal(out: &mut Vec<char>, n: u64)
    ensures
        final(out)@ == old(out)@ + decimal(n as nat),
    decreases n,
{
    if n < 10 {
        out.push(digit_of(n));
    } else {
        push_decimal(out, n / 10);
        out.push(digit_of(n % 10));
        proof {
            assert(old(out)@ + decimal(n as nat) =~= old(out)@ + decimal((n / 10) as nat) + seq![
                digit_char((n % 10) as nat),
            ]);
        }
    }
}

/// `u32::to_string`.
pub fn decimal_string(n: u32) -> (res: String)
    ensures
        res@ == decimal(n as nat),
{
    decimal_string_u64(n as u64)
}

/// `u64::to_string`.
pub fn decimal_string_u64(n: u64) -> (res: String)
    ensures
        res@ == decimal(n as nat),
{
    let mut out: Vec<char> = Vec::new();
    push_decimal(&mut out, n);
    proof {
        assert(Seq::<char>::empty() + decimal(n as nat) =~= decimal(n as nat));
    }
    string_from_chars(out.as_slice())
}

/// The parts joined with `sep` between each two of them.
pub open spec fn join_with(parts: Seq<Seq<char>>, sep: Seq<char>) -> Seq<char>
    decreases parts.len(),
{
    if parts.len() == 0 {
        Seq::empty()
    } else if parts.len() == 1 {
        parts[0]
    } else {
        join_with(parts.drop_last(), sep) + sep + parts.last()
    }
}

/// `[String]::join`.
pub fn join_strings(parts: &[String], sep: &str) -> (res: String)
    ensures
        res@ == join_with(views(parts@), sep@),
{
    let mut out = String::new();
    let mut i: usize = 0;
    while i < parts.len()
        invariant
            i <= parts@.len(),
            out@ == join_with(views(parts@).take(i as int), sep@),
        decreases parts@.len() - i,
    {
        proof {
            assert(views(parts@).take(i + 1).drop_last() =~= views(parts@).take(i as int));
        }
        if i > 0 {
            out.append(sep);
        }
        out.append(parts[i].as_str());
        i = i + 1;
        proof {
            if i == 1 {
                assert(out@ =~= views(parts@).take(1)[0]);
            }
        }
    }
    proof {
        assert(views(parts@).take(parts@.len() as int) =~= views(parts@));
    }
    out
}

} // verus!

verus! {

/// A character that `x` does not hold is first found right after `x`.
pub proof fn lemma_find_char_after(x: Seq<char>, c: char, y: Seq<char>)
    requires
        !x.contains(c),
    ensures
        find_pat(x + seq![c] + y, seq![c]) == Some(x.len() as int),
    decreases x.len(),
{
    let s = x + seq![c] + y;
    if x.len() == 0 {
        assert(s.take(1) =~= seq![c]);
    } else {
        assert(s[0] == x[0]);
        assert(x[0] != c);
        assert(!has_prefix(s, seq![c])) by {
            if has_prefix(s, seq![c]) {
                assert(s.take(1)[0] == seq![c][0]);
            }
        }
        assert(!x.drop_first().contains(c)) by {
            if x.drop_first().contains(c) {
                let k = choose|k: int| 0 <= k < x.drop_first().len() && x.drop_first()[k] == c;
                assert(x[k + 1] == c);
            }
        }
        assert(s.drop_first() =~= x.drop_first() + seq![c] + y);
        lemma_find_char_after(x.drop_first(), c, y);
    }
}

/// A character that `x` does not hold is not found in it.
pub proof fn lemma_find_char_absent(x: Seq<char>, c: char)
    requires
        !x.contains(c),
    ensures
        find_pat(x, seq![c]) is None,
    decreases x.len(),
{
    if x.len() > 0 {
        assert(x[0] != c);
        assert(!has_prefix(x, seq![c])) by {
            if has_prefix(x, seq![c]) {
                assert(x.take(1)[0] == seq![c][0]);
            }
        }
        assert(!x.drop_first().contains(c)) by {
            if x.drop_first().contains(c) {
                let k = choose|k: int| 0 <= k < x.drop_first().len() && x.drop_first()[k] == c;
                assert(x[k + 1] == c);
            }
        }
        lemma_find_char_absent(x.drop_first(), c);
    } else {
        assert(!has_prefix(x, seq![c]));
    }
}

/// The digits of a number: each a digit character, at least one.
pub proof fn lemma_decimal_digits(n: nat)
    ensures
        decimal(n).len() >= 1,
        forall|i: int| 0 <= i < decimal(n).len() ==> '0' <= #[trigger] decimal(n)[i] <= '9',
    decreases n,
{
    if n >= 10 {
        lemma_decimal_digits(n / 10);
        let d = decimal(n / 10);
        assert forall|i: int| 0 <= i < decimal(n).len() implies '0' <= #[trigger] decimal(n)[i] <= '9' by {
            if i < d.len() {
                assert(decimal(n)[i] == d[i]);
            }
        }
    }
}

} // verus!
