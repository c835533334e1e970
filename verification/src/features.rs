//! Cargo features, their combinations and the rules that prune equivalent
//! combinations.

use vstd::prelude::*;
use vstd::arithmetic::power2::pow2;

use vstd::string::StringSliceAdditionalSpecFns;

use crate::feature_map::{chars_lt, entries_view, FeatureMap, MapView};
use crate::metadata::{is_plain_dependency, optional_dep_names, Dependency, NodeDep, Package};
pub use crate::text::views;
use crate::text::{dep_prefix, has_prefix, string_eq_str};

verus! {

broadcast use crate::text::lemma_contains_push;

// ---------------------------------------------------------------------------
// Feature
// ---------------------------------------------------------------------------

/// The names of `parts` joined with `,`.
pub open spec fn join_commas(parts: Seq<Seq<char>>) -> Seq<char>
    decreases parts.len(),
{
    if parts.len() == 0 {
        Seq::empty()
    } else if parts.len() == 1 {
        parts[0]
    } else {
        join_commas(parts.drop_last()) + seq![','] + parts.last()
    }
}

/// The sets of names held by each of a list of string lists.
pub open spec fn set_views(sets: Seq<Vec<String>>) -> Seq<Set<Seq<char>>> {
    sets.map_values(|v: Vec<String>| views(v@).to_set())
}

/// The representation of Cargo feature.
#[derive(Debug)]
pub enum Feature {
    /// A feature of the current crate.
    Normal {
        /// Feature name. It is considered indivisible.
        name: String,
    },
    /// Grouped features.
    Group {
        /// Feature name concatenated with `,`.
        name: String,
        /// The features of the group, in order.
        list: Vec<String>,
    },
    /// A feature of a dependency.
    Path {
        /// Feature path separated with `/`.
        name: String,
        /// Index of `/`.
        _slash: usize,
    },
}

impl Feature {
    /// The name of the feature as characters.
    pub open spec fn name_view(&self) -> Seq<char> {
        match self {
            Feature::Normal { name } => name@,
            Feature::Group { name, .. } => name@,
            Feature::Path { name, .. } => name@,
        }
    }

    /// The features this one stands for: the list of a group, or the
    /// feature itself.
    pub open spec fn group_view(&self) -> Seq<Seq<char>> {
        match self {
            Feature::Group { list, .. } => views(list@),
            Feature::Normal { name } => seq![name@],
            Feature::Path { name, .. } => seq![name@],
        }
    }

    /// A feature that groups `list`; its name is the list joined with `,`.
    pub fn group(list: Vec<String>) -> (res: Feature)
        ensures
            res is Group,
            res.group_view() == views(list@),
            res.name_view() == join_commas(views(list@)),
    {
        let mut name = String::new();
        let mut i: usize = 0;
        while i < list.len()
            invariant
                i <= list@.len(),
                name@ == join_commas(views(list@).take(i as int)),
            decreases list.len() - i,
        {
            proof {
                reveal_strlit(",");
                assert(views(list@).take(i as int + 1).drop_last() =~= views(list@).take(i as int));
            }
            if i > 0 {
                name.append(",");
            }
            name.append(list[i].as_str());
            i = i + 1;
            proof {
                if i == 1 {
                    assert(name@ =~= join_commas(views(list@).take(i as int)));
                } else {
                    assert(name@ =~= join_commas(views(list@).take(i as int)));
                }
            }
        }
        proof {
            assert(views(list@).take(list@.len() as int) =~= views(list@));
        }
        Feature::Group { name, list }
    }

    /// A feature `name` of the dependency `parent`, written `parent/name`.
    pub fn path(parent: &str, name: &str) -> (res: Feature)
        ensures
            res is Path,
            res.name_view() == parent@ + seq!['/'] + name@,
            res->_slash == parent.spec_bytes().len() as usize,
    {
        let mut full = String::from_str(parent);
        proof {
            reveal_strlit("/");
        }
        full.append("/");
        full.append(name);
        Feature::Path { name: full, _slash: parent.len() }
    }

    /// A feature of the current crate named `name`.
    pub fn normal(name: &str) -> (res: Feature)
        ensures
            res is Normal,
            res.name_view() == name@,
    {
        Feature::Normal { name: String::from_str(name) }
    }

    /// The name of the feature.
    pub fn name(&self) -> (res: &str)
        ensures
            res@ == self.name_view(),
    {
        match self {
            Feature::Normal { name } => name.as_str(),
            Feature::Group { name, .. } => name.as_str(),
            Feature::Path { name, .. } => name.as_str(),
        }
    }

    /// The name of the feature as an owned string.
    fn name_string(&self) -> (res: &String)
        ensures
            res@ == self.name_view(),
    {
        match self {
            Feature::Normal { name } => name,
            Feature::Group { name, .. } => name,
            Feature::Path { name, .. } => name,
        }
    }

    /// The features this one stands for: the list of a group, or the
    /// feature itself.
    pub fn as_group(&self) -> (res: &[String])
        ensures
            views(res@) == self.group_view(),
    {
        match self {
            Feature::Group { list, .. } => list.as_slice(),
            Feature::Normal { name } => {
                let r = one_item(name);
                proof {
                    assert(views(r@) =~= seq![name@]);
                }
                r
            },
            Feature::Path { name, .. } => {
                let r = one_item(name);
                proof {
                    assert(views(r@) =~= seq![name@]);
                }
                r
            },
        }
    }

    /// Whether `s` is one of the features this one stands for.
    pub fn matches(&self, s: &str) -> (res: bool)
        ensures
            res == self.group_view().contains(s@),
    {
        let group = self.as_group();
        let mut i: usize = 0;
        while i < group.len()
            invariant
                i <= group@.len(),
                views(group@) == self.group_view(),
                forall|k: int| 0 <= k < i ==> #[trigger] views(group@)[k] != s@,
            decreases group.len() - i,
        {
            if string_eq_str(&group[i], s) {
                proof {
                    assert(views(group@)[i as int] == s@);
                }
                return true;
            }
            i = i + 1;
        }
        false
    }
}

/// A slice holding only `x`.
///
/// Trusted: `core::slice::from_ref`, which std documents as turning a
/// reference into a slice of length one; the contract claims the slice is
/// exactly `[x]`.
#[verifier::external_body]
fn one_item(x: &String) -> (res: &[String])
    ensures
        res@ == seq![*x],
{
    core::slice::from_ref(x)
}

impl PartialEq<str> for Feature {
    fn eq(&self, other: &str) -> (res: bool) {
        string_eq_str(self.name_string(), other)
    }
}

impl vstd::std_specs::cmp::PartialEqSpecImpl<str> for Feature {
    open spec fn obeys_eq_spec() -> bool {
        true
    }

    open spec fn eq_spec(&self, other: &str) -> bool {
        self.name_view() == other@
    }
}

impl PartialEq<String> for Feature {
    fn eq(&self, other: &String) -> (res: bool) {
        *self.name_string() == *other
    }
}

impl vstd::std_specs::cmp::PartialEqSpecImpl<String> for Feature {
    open spec fn obeys_eq_spec() -> bool {
        true
    }

    open spec fn eq_spec(&self, other: &String) -> bool {
        self.name_view() == other@
    }
}

impl From<&str> for Feature {
    /// A feature of the current crate named `name`; see [`Feature::normal`].
    fn from(name: &str) -> (res: Feature)
        ensures
            res is Normal,
            res.name_view() == name@,
    {
        Feature::normal(name)
    }
}

impl vstd::std_specs::convert::FromSpecImpl<&str> for Feature {
    /// `Feature::normal` states what the conversion gives; a `String` with a
    /// given text cannot be written as a spec value, so none is promised here.
    open spec fn obeys_from_spec() -> bool {
        false
    }

    open spec fn from_spec(name: &str) -> Feature {
        vstd::pervasive::arbitrary()
    }
}

// ---------------------------------------------------------------------------
// Powerset
// ---------------------------------------------------------------------------

/// Whether a combination of `n` features is allowed under the optional depth.
pub open spec fn fits_depth(n: int, depth: Option<usize>) -> bool {
    match depth {
        None => true,
        Some(d) => n <= d,
    }
}

/// The combinations of `acc` extended with `e`, keeping those within the depth.
pub open spec fn grow<T>(acc: Seq<Seq<T>>, e: T, depth: Option<usize>) -> Seq<Seq<T>>
    decreases acc.len(),
{
    if acc.len() == 0 {
        Seq::empty()
    } else {
        let rest = grow(acc.drop_last(), e, depth);
        if fits_depth(acc.last().len() + 1int, depth) {
            rest.push(acc.last().push(e))
        } else {
            rest
        }
    }
}

/// The powerset of `s`, in the order produced by folding over `s`: the
/// combinations without the last element come first, then each of them
/// extended with it. Combinations longer than `depth` are left out.
pub open spec fn spec_powerset<T>(s: Seq<T>, depth: Option<usize>) -> Seq<Seq<T>>
    decreases s.len(),
{
    if s.len() == 0 {
        seq![Seq::empty()]
    } else {
        let acc = spec_powerset(s.drop_last(), depth);
        acc + grow(acc, s.last(), depth)
    }
}

/// Extending every combination without a depth limit keeps the count.
proof fn lemma_grow_len_unbounded<T>(acc: Seq<Seq<T>>, e: T)
    ensures
        grow(acc, e, None).len() == acc.len(),
    decreases acc.len(),
{
    if acc.len() > 0 {
        lemma_grow_len_unbounded(acc.drop_last(), e);
    }
}

/// Each extended combination is some combination of `acc` followed by `e`,
/// and that combination was short enough to be extended.
proof fn lemma_grow_elements<T>(acc: Seq<Seq<T>>, e: T, depth: Option<usize>, k: int)
    requires
        0 <= k < grow(acc, e, depth).len(),
    ensures
        exists|i: int|
            0 <= i < acc.len() && fits_depth(acc[i].len() + 1int, depth)
                && #[trigger] grow(acc, e, depth)[k] == acc[i].push(e),
    decreases acc.len(),
{
    let rest = grow(acc.drop_last(), e, depth);
    if k < rest.len() {
        lemma_grow_elements(acc.drop_last(), e, depth, k);
        let i = choose|i: int|
            0 <= i < acc.drop_last().len() && fits_depth(acc.drop_last()[i].len() + 1int, depth)
                && #[trigger] grow(acc.drop_last(), e, depth)[k] == acc.drop_last()[i].push(e);
        assert(grow(acc, e, depth)[k] == acc[i].push(e));
    } else {
        assert(grow(acc, e, depth)[k] == acc[acc.len() - 1].push(e));
    }
}

/// The first combination of every powerset is the empty one.
pub proof fn lemma_powerset_starts_empty<T>(s: Seq<T>, depth: Option<usize>)
    ensures
        spec_powerset(s, depth).len() >= 1,
        spec_powerset(s, depth)[0] == Seq::<T>::empty(),
    decreases s.len(),
{
    if s.len() > 0 {
        lemma_powerset_starts_empty(s.drop_last(), depth);
    }
}

/// Without a depth limit, a powerset of `n` items has `2^n` combinations.
pub proof fn lemma_powerset_len_unbounded<T>(s: Seq<T>)
    ensures
        spec_powerset(s, None).len() == pow2(s.len()),
    decreases s.len(),
{
    if s.len() == 0 {
        vstd::arithmetic::power2::lemma2_to64();
    } else {
        lemma_powerset_len_unbounded(s.drop_last());
        lemma_grow_len_unbounded(spec_powerset(s.drop_last(), None), s.last());
        vstd::arithmetic::power2::lemma_pow2_unfold(s.len());
    }
}

/// `c` picks items of `s` in order: there are strictly increasing positions
/// of `s` holding the items of `c`.
pub open spec fn is_ordered_pick<T>(c: Seq<T>, s: Seq<T>) -> bool {
    exists|idx: Seq<int>|
        #![trigger idx.len()]
        idx.len() == c.len() && (forall|k: int| 0 <= k < idx.len() ==> 0 <= #[trigger] idx[k] < s.len()
            && c[k] == s[idx[k]]) && (forall|k: int, l: int|
            0 <= k < l < idx.len() ==> #[trigger] idx[k] < #[trigger] idx[l])
}

/// Every combination picks items of the input in their original order and
/// holds no more items than the depth allows.
pub proof fn lemma_powerset_members<T>(s: Seq<T>, depth: Option<usize>, i: int)
    requires
        0 <= i < spec_powerset(s, depth).len(),
    ensures
        fits_depth(spec_powerset(s, depth)[i].len() as int, depth),
        is_ordered_pick(spec_powerset(s, depth)[i], s),
    decreases s.len(),
{
    if s.len() == 0 {
        let idx = Seq::<int>::empty();
        assert(idx.len() == 0);
        match depth {
            Some(d) => {},
            None => {},
        }
    } else {
        let s0 = s.drop_last();
        let acc = spec_powerset(s0, depth);
        if i < acc.len() {
            lemma_powerset_members(s0, depth, i);
            let c = acc[i];
            let idx = choose|idx: Seq<int>|
                #![trigger idx.len()]
                idx.len() == c.len() && (forall|k: int| 0 <= k < idx.len() ==> 0 <= #[trigger] idx[k] < s0.len()
                    && c[k] == s0[idx[k]]) && (forall|k: int, l: int|
                    0 <= k < l < idx.len() ==> #[trigger] idx[k] < #[trigger] idx[l]);
            assert(idx.len() == c.len());
            assert forall|k: int| 0 <= k < idx.len() implies 0 <= #[trigger] idx[k] < s.len() && c[k] == s[idx[k]] by {
                assert(c[k] == s0[idx[k]]);
            }
        } else {
            let k0 = i - acc.len();
            lemma_grow_elements(acc, s.last(), depth, k0);
            let j = choose|j: int|
                0 <= j < acc.len() && fits_depth(acc[j].len() + 1int, depth)
                    && #[trigger] grow(acc, s.last(), depth)[k0] == acc[j].push(s.last());
            lemma_powerset_members(s0, depth, j);
            let c = acc[j];
            let idx = choose|idx: Seq<int>|
                #![trigger idx.len()]
                idx.len() == c.len() && (forall|k: int| 0 <= k < idx.len() ==> 0 <= #[trigger] idx[k] < s0.len()
                    && c[k] == s0[idx[k]]) && (forall|k: int, l: int|
                    0 <= k < l < idx.len() ==> #[trigger] idx[k] < #[trigger] idx[l]);
            let idx2 = idx.push(s.len() - 1);
            let c2 = c.push(s.last());
            assert(spec_powerset(s, depth)[i] == c2);
            assert(idx2.len() == c2.len());
            assert forall|k: int| 0 <= k < idx2.len() implies 0 <= #[trigger] idx2[k] < s.len() && c2[k] == s[idx2[k]] by {
                if k < idx.len() {
                    assert(c[k] == s0[idx[k]]);
                }
            }
            assert forall|k: int, l: int| 0 <= k < l < idx2.len() implies #[trigger] idx2[k] < #[trigger] idx2[l] by {
                if l < idx.len() {
                    assert(idx[k] < idx[l]);
                } else {
                    assert(idx[k] < s0.len());
                }
            }
        }
    }
}

/// Once the depth is at least the number of items, it prunes nothing.
pub proof fn lemma_powerset_depth_no_limit<T>(s: Seq<T>, d: usize)
    requires
        s.len() <= d,
    ensures
        spec_powerset(s, Some(d)) == spec_powerset(s, None),
    decreases s.len(),
{
    if s.len() > 0 {
        let s0 = s.drop_last();
        lemma_powerset_depth_no_limit(s0, d);
        let acc = spec_powerset(s0, None);
        assert forall|i: int| 0 <= i < acc.len() implies #[trigger] acc[i].len() + 1 <= d by {
            lemma_powerset_members(s0, None, i);
            let c = acc[i];
            let idx = choose|idx: Seq<int>|
                #![trigger idx.len()]
                idx.len() == c.len() && (forall|k: int| 0 <= k < idx.len() ==> 0 <= #[trigger] idx[k] < s0.len()
                    && c[k] == s0[idx[k]]) && (forall|k: int, l: int|
                    0 <= k < l < idx.len() ==> #[trigger] idx[k] < #[trigger] idx[l]);
            lemma_increasing_bounded(idx, s0.len() as int);
        }
        lemma_grow_same(acc, s.last(), d);
    }
}

/// Strictly increasing positions below `n` number at most `n`.
proof fn lemma_increasing_bounded(idx: Seq<int>, n: int)
    requires
        0 <= n,
        forall|k: int| 0 <= k < idx.len() ==> 0 <= #[trigger] idx[k] < n,
        forall|k: int, l: int| 0 <= k < l < idx.len() ==> #[trigger] idx[k] < #[trigger] idx[l],
    ensures
        idx.len() <= n,
    decreases idx.len(),
{
    if idx.len() > 0 {
        let i0 = idx.drop_last();
        assert forall|k: int| 0 <= k < i0.len() implies 0 <= #[trigger] i0[k] < idx.last() by {
            assert(idx[k] < idx[idx.len() - 1]);
        }
        assert forall|k: int, l: int| 0 <= k < l < i0.len() implies #[trigger] i0[k] < #[trigger] i0[l] by {
            assert(idx[k] < idx[l]);
        }
        assert(idx[idx.len() - 1] < n);
        lemma_increasing_bounded(i0, idx.last());
        assert(i0.len() <= idx.last());
        assert(idx.len() == i0.len() + 1);
    }
}

/// Extending combinations that all fit the depth is the same with or without it.
proof fn lemma_grow_same<T>(acc: Seq<Seq<T>>, e: T, d: usize)
    requires
        forall|i: int| 0 <= i < acc.len() ==> #[trigger] acc[i].len() + 1 <= d,
    ensures
        grow(acc, e, Some(d)) == grow(acc, e, None),
    decreases acc.len(),
{
    if acc.len() > 0 {
        let a0 = acc.drop_last();
        assert forall|i: int| 0 <= i < a0.len() implies #[trigger] a0[i].len() + 1 <= d by {
            assert(acc[i].len() + 1 <= d);
        }
        lemma_grow_same(a0, e, d);
        assert(acc[acc.len() - 1].len() + 1 <= d);
    }
}

/// The combinations of a powerset with depth 1: the empty one, then each
/// item alone, in order. So a powerset of depth 1 runs each feature once.
pub proof fn lemma_powerset_depth_one<T>(s: Seq<T>)
    ensures
        spec_powerset(s, Some(1)) == seq![Seq::<T>::empty()] + s.map_values(|x: T| seq![x]),
    decreases s.len(),
{
    if s.len() > 0 {
        let s0 = s.drop_last();
        lemma_powerset_depth_one(s0);
        let acc = spec_powerset(s0, Some(1));
        lemma_grow_depth_one(acc, s.last());
        assert(s.map_values(|x: T| seq![x]) =~= s0.map_values(|x: T| seq![x]).push(seq![s.last()]));
        assert(spec_powerset(s, Some(1)) =~= seq![Seq::<T>::empty()] + s.map_values(|x: T| seq![x]));
    } else {
        assert(s.map_values(|x: T| seq![x]) =~= Seq::<Seq<T>>::empty());
        assert(spec_powerset(s, Some(1)) =~= seq![Seq::<T>::empty()] + s.map_values(|x: T| seq![x]));
    }
}

/// With depth 1, only the leading empty combination is extended.
proof fn lemma_grow_depth_one<T>(acc: Seq<Seq<T>>, e: T)
    requires
        acc.len() >= 1,
        acc[0] == Seq::<T>::empty(),
        forall|i: int| 1 <= i < acc.len() ==> #[trigger] acc[i].len() == 1,
    ensures
        grow(acc, e, Some(1)) == seq![seq![e]],
    decreases acc.len(),
{
    if acc.len() == 1 {
        let a0 = acc.drop_last();
        assert(grow(a0, e, Some(1)) =~= Seq::<Seq<T>>::empty());
        assert(acc.last().push(e) =~= seq![e]);
        assert(grow(acc, e, Some(1)) =~= seq![seq![e]]);
    } else {
        let a0 = acc.drop_last();
        assert forall|i: int| 1 <= i < a0.len() implies #[trigger] a0[i].len() == 1 by {
            assert(acc[i].len() == 1);
        }
        lemma_grow_depth_one(a0, e);
        assert(acc.last().len() == 1);
    }
}

// ---------------------------------------------------------------------------
// Features enabled by other features
// ---------------------------------------------------------------------------

/// `b` is listed under the feature `a` and is a feature, not a `dep:` action.
pub open spec fn enables_directly(m: MapView, a: Seq<char>, b: Seq<char>) -> bool {
    !has_prefix(b, dep_prefix()) && exists|i: int, j: int|
        0 <= i < m.len() && m[i].0 == a && 0 <= j < m[i].1.len() && #[trigger] m[i].1[j] == b
}

/// Each feature of `p` enables the next one directly.
pub open spec fn is_chain(m: MapView, p: Seq<Seq<char>>) -> bool {
    p.len() >= 1 && forall|k: int| 0 <= k < p.len() - 1 ==> enables_directly(m, #[trigger] p[k], p[k + 1])
}

/// Enabling `root` also enables `x`, directly or through other features;
/// `root` itself is not counted.
pub open spec fn enables(m: MapView, root: Seq<char>, x: Seq<char>) -> bool {
    x != root && exists|p: Seq<Seq<char>>| #[trigger] is_chain(m, p) && p.len() >= 2 && p[0] == root && p.last() == x
}

/// The number of `false` entries.
pub open spec fn count_false(s: Seq<bool>) -> nat
    decreases s.len(),
{
    if s.len() == 0 {
        0
    } else {
        count_false(s.drop_last()) + if s.last() { 0nat } else { 1nat }
    }
}

proof fn lemma_count_false_set(s: Seq<bool>, i: int)
    requires
        0 <= i < s.len(),
        !s[i],
    ensures
        count_false(s.update(i, true)) + 1 == count_false(s),
    decreases s.len(),
{
    if i < s.len() - 1 {
        lemma_count_false_set(s.drop_last(), i);
        assert(s.update(i, true).drop_last() =~= s.drop_last().update(i, true));
    } else {
        assert(s.update(i, true).drop_last() =~= s.drop_last());
    }
}

/// A set that holds `root` and every feature that a member enables directly
/// holds every feature that `root` enables.
proof fn lemma_closed_set_holds_chain(m: MapView, root: Seq<char>, set: Seq<Seq<char>>, p: Seq<Seq<char>>, k: int)
    requires
        is_chain(m, p),
        p[0] == root,
        0 <= k < p.len(),
        forall|a: Seq<char>, b: Seq<char>|
            (a == root || set.contains(a)) && #[trigger] enables_directly(m, a, b) ==> (b == root || set.contains(b)),
    ensures
        p[k] == root || set.contains(p[k]),
    decreases k,
{
    if k > 0 {
        lemma_closed_set_holds_chain(m, root, set, p, k - 1);
        assert(enables_directly(m, p[k - 1], p[k]));
    }
}

/// The features that `root` enables, each once.
fn enabled_by(map: &FeatureMap, root: &String) -> (res: Vec<String>)
    ensures
        views(res@).no_duplicates(),
        forall|x: Seq<char>| views(res@).contains(x) <==> enables(map@, root@, x),
{
    let ghost m = map@;
    let ghost r = root@;
    let n = map.len();
    let mut set: Vec<String> = Vec::new();
    let mut visited: Vec<bool> = Vec::new();
    let mut stack: Vec<usize> = Vec::new();
    let mut j: usize = 0;
    while j < n
        invariant
            n == m.len(),
            m == map@,
            r == root@,
            j <= n,
            visited@.len() == j,
            set@.len() == 0,
            forall|k: int| 0 <= k < j ==> (#[trigger] visited@[k] <==> m[k].0 == r),
            forall|k: int| 0 <= k < stack@.len() ==> #[trigger] stack@[k] < j && visited@[stack@[k] as int],
            forall|k: int| 0 <= k < j && visited@[k] ==> #[trigger] stack@.contains(k as usize),
            stack@.no_duplicates(),
        decreases n - j,
    {
        let ghost st0 = stack@;
        if *map.key(j) == *root {
            visited.push(true);
            stack.push(j);
            proof {
                assert(stack@ == st0.push(j));
                assert forall|a: int, b: int| 0 <= a < b < stack@.len() implies stack@[a] != stack@[b] by {
                    if b == stack@.len() - 1 {
                        assert(st0.contains(st0[a]));
                    }
                }
            }
        } else {
            visited.push(false);
        }
        j = j + 1;
        proof {
            assert forall|k: int| 0 <= k < j && visited@[k] implies #[trigger] stack@.contains(k as usize) by {
                if k < j - 1 {
                    assert(st0.contains(k as usize));
                }
            }
        }
    }
    proof {
        assert(views(set@) =~= Seq::<Seq<char>>::empty());
    }
    while stack.len() > 0
        invariant
            n == m.len(),
            m == map@,
            r == root@,
            visited@.len() == n,
            forall|k: int| 0 <= k < stack@.len() ==> #[trigger] stack@[k] < n && visited@[stack@[k] as int],
            stack@.no_duplicates(),
            views(set@).no_duplicates(),
            forall|x: Seq<char>| #[trigger] views(set@).contains(x) ==> enables(m, r, x),
            forall|k: int| 0 <= k < n ==> (#[trigger] visited@[k] <==> (m[k].0 == r || views(set@).contains(m[k].0))),
            forall|k: int, t: int|
                0 <= k < n && visited@[k] && !stack@.contains(k as usize) && 0 <= t < m[k].1.len()
                    && !has_prefix(#[trigger] m[k].1[t], dep_prefix()) ==> (m[k].1[t] == r || views(set@).contains(m[k].1[t])),
        decreases 2 * count_false(visited@) + stack@.len(),
    {
        let ghost measure0 = 2 * count_false(visited@) + stack@.len();
        let ghost stack0 = stack@;
        let i = stack.pop().unwrap();
        proof {
            assert(stack0 =~= stack@.push(i));
            assert(!stack@.contains(i)) by {
                if stack@.contains(i) {
                    let w = choose|w: int| 0 <= w < stack@.len() && stack@[w] == i;
                    assert(stack0[w] == stack0[stack0.len() - 1]);
                }
            }
        }
        let values = map.value(i);
        let mut t: usize = 0;
        while t < values.len()
            invariant
                n == m.len(),
                m == map@,
                r == root@,
                i < n,
                visited@[i as int],
                views(values@) == m[i as int].1,
                t <= values@.len(),
                visited@.len() == n,
                !stack@.contains(i),
                2 * count_false(visited@) + stack@.len() < measure0,
                forall|k: int| 0 <= k < stack@.len() ==> #[trigger] stack@[k] < n && visited@[stack@[k] as int],
                stack@.no_duplicates(),
                views(set@).no_duplicates(),
                forall|x: Seq<char>| #[trigger] views(set@).contains(x) ==> enables(m, r, x),
                forall|k: int| 0 <= k < n ==> (#[trigger] visited@[k] <==> (m[k].0 == r || views(set@).contains(m[k].0))),
                forall|k: int, u: int|
                    0 <= k < n && visited@[k] && !stack@.contains(k as usize) && k != i && 0 <= u < m[k].1.len()
                        && !has_prefix(#[trigger] m[k].1[u], dep_prefix()) ==> (m[k].1[u] == r || views(set@).contains(m[k].1[u])),
                forall|u: int| 0 <= u < t && !has_prefix(#[trigger] m[i as int].1[u], dep_prefix())
                    ==> (m[i as int].1[u] == r || views(set@).contains(m[i as int].1[u])),
            decreases values.len() - t,
        {
            let x = &values[t];
            proof {
                assert(m[i as int].1[t as int] == x@);
            }
            if !crate::text::is_dep_action(x) && *x != *root && !crate::text::contains_string(&set, x) {
                proof {
                    // `x` is enabled by the feature whose list holds it.
                    let src = m[i as int].0;
                    assert(enables_directly(m, src, x@)) by {
                        assert(m[i as int].1[t as int] == x@);
                    }
                    if src == r {
                        let p = seq![r, x@];
                        assert(is_chain(m, p));
                        assert(p.last() == x@);
                    } else {
                        assert(views(set@).contains(src));
                        let p0 = choose|p: Seq<Seq<char>>| #[trigger] is_chain(m, p) && p.len() >= 2 && p[0] == r && p.last() == src;
                        let p = p0.push(x@);
                        assert forall|k: int| 0 <= k < p.len() - 1 implies enables_directly(m, #[trigger] p[k], p[k + 1]) by {
                            if k < p0.len() - 1 {
                                assert(p[k] == p0[k] && p[k + 1] == p0[k + 1]);
                                assert(enables_directly(m, p0[k], p0[k + 1]));
                            } else {
                                assert(p[k] == src);
                            }
                        }
                        assert(is_chain(m, p));
                        assert(p.last() == x@);
                    }
                    assert(enables(m, r, x@));
                }
                let ghost set_before = views(set@);
                set.push(x.clone());
                proof {
                    assert(views(set@) =~= set_before.push(x@));
                    assert forall|y: Seq<char>| #[trigger] views(set@).contains(y) implies enables(m, r, y) by {
                        if y != x@ {
                            let w = choose|w: int| 0 <= w < views(set@).len() && views(set@)[w] == y;
                            assert(set_before[w] == y);
                            assert(set_before.contains(y));
                        }
                    }
                    assert(views(set@).no_duplicates()) by {
                        assert forall|a: int, b: int| 0 <= a < b < views(set@).len() implies views(set@)[a] != views(set@)[b] by {
                            if b == views(set@).len() - 1 {
                                assert(set_before.contains(views(set@)[a]) ==> views(set@)[a] != x@);
                                assert(views(set@)[a] == set_before[a]);
                            }
                        }
                    }
                }
                proof {
                    assert forall|y: Seq<char>| set_before.contains(y) implies #[trigger] views(set@).contains(y) by {}
                }
                let mut q: usize = 0;
                while q < n
                    invariant
                        n == m.len(),
                        m == map@,
                        r == root@,
                        i < n,
                        visited@[i as int],
                        views(values@) == m[i as int].1,
                        t < values@.len(),
                        x@ == m[i as int].1[t as int],
                        x@ != r,
                        q <= n,
                        visited@.len() == n,
                        !stack@.contains(i),
                        views(set@) == set_before.push(x@),
                        2 * count_false(visited@) + stack@.len() < measure0,
                        forall|k: int| 0 <= k < stack@.len() ==> #[trigger] stack@[k] < n && visited@[stack@[k] as int],
                        stack@.no_duplicates(),
                        views(set@).no_duplicates(),
                        forall|y: Seq<char>| #[trigger] views(set@).contains(y) ==> enables(m, r, y),
                        forall|k: int| 0 <= k < n && #[trigger] visited@[k] ==> (m[k].0 == r || views(set@).contains(m[k].0)),
                        forall|k: int| 0 <= k < n && (m[k].0 == r || set_before.contains(m[k].0)) ==> #[trigger] visited@[k],
                        forall|k: int| 0 <= k < q && m[k].0 == x@ ==> #[trigger] visited@[k],
                        forall|k: int, u: int|
                            0 <= k < n && visited@[k] && !stack@.contains(k as usize) && k != i && 0 <= u < m[k].1.len()
                                && !has_prefix(#[trigger] m[k].1[u], dep_prefix()) ==> (m[k].1[u] == r || views(set@).contains(m[k].1[u])),
                        forall|u: int| 0 <= u < t && !has_prefix(#[trigger] m[i as int].1[u], dep_prefix())
                            ==> (m[i as int].1[u] == r || views(set@).contains(m[i as int].1[u])),
                    decreases n - q,
                {
                    if !visited[q] && *map.key(q) == *x {
                        proof {
                            lemma_count_false_set(visited@, q as int);
                            assert(!stack@.contains(q)) by {
                                if stack@.contains(q) {
                                    let w = choose|w: int| 0 <= w < stack@.len() && stack@[w] == q;
                                }
                            }
                        }
                        let ghost stack1 = stack@;
                        visited.set(q, true);
                        stack.push(q);
                        proof {
                            assert(stack@ == stack1.push(q));
                            assert forall|a: int, b: int| 0 <= a < b < stack@.len() implies stack@[a] != stack@[b] by {
                                if b == stack@.len() - 1 {
                                    assert(stack@[a] == stack1[a]);
                                    assert(stack1.contains(stack1[a]));
                                }
                            }
                        }
                    }
                    q = q + 1;
                }
                proof {
                    assert forall|k: int| 0 <= k < n implies (#[trigger] visited@[k] <==> (m[k].0 == r || views(set@).contains(m[k].0))) by {
                        if views(set@).contains(m[k].0) && m[k].0 != x@ {
                            let w = choose|w: int| 0 <= w < views(set@).len() && views(set@)[w] == m[k].0;
                            assert(set_before[w] == m[k].0);
                            assert(set_before.contains(m[k].0));
                        }
                    }
                    assert forall|k: int, u: int|
                        0 <= k < n && visited@[k] && !stack@.contains(k as usize) && k != i && 0 <= u < m[k].1.len()
                            && !has_prefix(#[trigger] m[k].1[u], dep_prefix()) implies (m[k].1[u] == r || views(set@).contains(m[k].1[u])) by {
                    }
                }
            }
            t = t + 1;
            proof {
                assert forall|u: int| 0 <= u < t && !has_prefix(#[trigger] m[i as int].1[u], dep_prefix())
                    implies (m[i as int].1[u] == r || views(set@).contains(m[i as int].1[u])) by {
                    if u == t - 1 {
                        if crate::text::has_prefix(m[i as int].1[u], dep_prefix()) {
                        } else if m[i as int].1[u] == r {
                        } else {
                            assert(views(set@).contains(m[i as int].1[u]));
                        }
                    }
                }
            }
        }
    }
    proof {
        let s = views(set@);
        assert forall|a: Seq<char>, b: Seq<char>|
            (a == r || s.contains(a)) && #[trigger] enables_directly(m, a, b) implies (b == r || s.contains(b)) by {
            let (k, u) = choose|k: int, u: int|
                0 <= k < m.len() && m[k].0 == a && 0 <= u < m[k].1.len() && #[trigger] m[k].1[u] == b;
            assert(visited@[k]);
            assert(!stack@.contains(k as usize));
            assert(m[k].1[u] == b);
        }
        assert forall|x: Seq<char>| enables(m, r, x) implies s.contains(x) by {
            let p = choose|p: Seq<Seq<char>>| #[trigger] is_chain(m, p) && p.len() >= 2 && p[0] == r && p.last() == x;
            lemma_closed_set_holds_chain(m, r, s, p, p.len() - 1);
        }
    }
    set
}

/// For each feature of `map`, in order, the features it enables directly or
/// through other features (without itself); `dep:` actions are not features
/// and enable nothing here.
pub fn feature_deps(map: &FeatureMap) -> (res: FeatureMap)
    ensures
        res@.len() == map@.len(),
        forall|i: int| 0 <= i < map@.len() ==> (#[trigger] res@[i]).0 == map@[i].0,
        forall|i: int| 0 <= i < map@.len() ==> (#[trigger] res@[i]).1.no_duplicates(),
        forall|i: int, x: Seq<char>|
            #![trigger res@[i].1.contains(x)]
            #![trigger enables(map@, map@[i].0, x)]
            0 <= i < map@.len() ==> (res@[i].1.contains(x) <==> enables(map@, map@[i].0, x)),
        map.wf() ==> res.wf(),
{
    let mut entries: Vec<(String, Vec<String>)> = Vec::new();
    let mut i: usize = 0;
    while i < map.len()
        invariant
            i <= map@.len(),
            entries_view(entries@).len() == i,
            forall|k: int| 0 <= k < i ==> (#[trigger] entries_view(entries@)[k]).0 == map@[k].0,
            forall|k: int| 0 <= k < i ==> (#[trigger] entries_view(entries@)[k]).1.no_duplicates(),
            forall|k: int, x: Seq<char>|
                #![trigger entries_view(entries@)[k].1.contains(x)]
                #![trigger enables(map@, map@[k].0, x)]
                0 <= k < i ==> (entries_view(entries@)[k].1.contains(x) <==> enables(map@, map@[k].0, x)),
        decreases map@.len() - i,
    {
        let key = map.key(i);
        let set = enabled_by(map, key);
        let ghost before = entries@;
        entries.push((key.clone(), set));
        proof {
            assert(entries@ == before.push(entries@.last()));
            assert(entries_view(entries@) =~= entries_view(before).push(entries_view(entries@).last()));
        }
        i = i + 1;
    }
    let res = FeatureMap::from_entries(entries);
    proof {
        if map.wf() {
            assert forall|a: int, b: int| 0 <= a < b < res@.len() implies chars_lt(#[trigger] res@[a].0, #[trigger] res@[b].0) by {
                assert(chars_lt(map@[a].0, map@[b].0));
            }
        }
    }
    res
}

/// The features of `map` whose enabling enables `name`: `name` itself when
/// it is a feature of `map`, and each feature that enables it.
pub open spec fn enablers(fm: MapView, name: Seq<char>, e: Seq<char>) -> bool {
    exists|i: int| 0 <= i < fm.len() && #[trigger] fm[i].0 == e && (e == name || fm[i].1.contains(name))
}

/// The features `e` with `en(name, e)` for some `name` of `group`.
pub open spec fn enablers_of_group(en: spec_fn(Seq<char>, Seq<char>) -> bool, group: Seq<Seq<char>>) -> Set<Seq<char>> {
    Set::new(|e: Seq<char>| exists|k: int| 0 <= k < group.len() && en(#[trigger] group[k], e))
}

/// For each group of `groups` that something enables, the features that
/// enable one of the group's features, under the relation `en`.
pub open spec fn spec_at_least_one_of(en: spec_fn(Seq<char>, Seq<char>) -> bool, groups: Seq<Seq<Seq<char>>>) -> Seq<Set<Seq<char>>>
    decreases groups.len(),
{
    if groups.len() == 0 {
        Seq::empty()
    } else {
        let rest = spec_at_least_one_of(en, groups.drop_last());
        let s = enablers_of_group(en, groups.last());
        if s.is_empty() {
            rest
        } else {
            rest.push(s)
        }
    }
}

/// The group views of a list of features.
pub open spec fn group_views(fs: Seq<Feature>) -> Seq<Seq<Seq<char>>> {
    fs.map_values(|f: Feature| f.group_view())
}

/// Leaves only features that are possible to enable in the package: for
/// each `--at-least-one-of` group, the features of the package whose
/// enabling enables one of the group's features; groups that no feature of
/// the package can enable are left out.
pub fn at_least_one_of_for_package(at_least_one_of: &[Feature], package_features_flattened: &FeatureMap) -> (res: Vec<Vec<String>>)
    ensures
        set_views(res@)
            == spec_at_least_one_of(|n: Seq<char>, e: Seq<char>| enablers(package_features_flattened@, n, e), group_views(at_least_one_of@)),
        forall|k: int| 0 <= k < res@.len() ==> views(#[trigger] res@[k]@).no_duplicates(),
{
    let ghost fm = package_features_flattened@;
    let mut res: Vec<Vec<String>> = Vec::new();
    let mut g: usize = 0;
    while g < at_least_one_of.len()
        invariant
            fm == package_features_flattened@,
            g <= at_least_one_of@.len(),
            set_views(res@)
                == spec_at_least_one_of(|n: Seq<char>, e: Seq<char>| enablers(fm, n, e), group_views(at_least_one_of@).take(g as int)),
            forall|k: int| 0 <= k < res@.len() ==> views(#[trigger] res@[k]@).no_duplicates(),
        decreases at_least_one_of.len() - g,
    {
        let group = at_least_one_of[g].as_group();
        let ghost gv = at_least_one_of@[g as int].group_view();
        let mut set: Vec<String> = Vec::new();
        let mut i: usize = 0;
        while i < package_features_flattened.len()
            invariant
                fm == package_features_flattened@,
                views(group@) == gv,
                i <= fm.len(),
                views(set@).no_duplicates(),
                forall|e: Seq<char>| views(set@).contains(e) <==>
                    exists|j: int| 0 <= j < i && #[trigger] fm[j].0 == e
                        && exists|k: int| 0 <= k < gv.len() && (e == #[trigger] gv[k] || fm[j].1.contains(gv[k])),
            decreases package_features_flattened@.len() - i,
        {
            let key = package_features_flattened.key(i);
            let enables = package_features_flattened.value(i);
            let mut hit = false;
            let mut k: usize = 0;
            while k < group.len()
                invariant
                    fm == package_features_flattened@,
                    views(group@) == gv,
                    i < fm.len(),
                    key@ == fm[i as int].0,
                    views(enables@) == fm[i as int].1,
                    k <= gv.len(),
                    hit <==> exists|q: int| 0 <= q < k && (key@ == #[trigger] gv[q] || fm[i as int].1.contains(gv[q])),
                decreases group.len() - k,
            {
                proof {
                    assert(views(group@)[k as int] == group@[k as int]@);
                }
                if group[k] == *key || crate::text::contains_string(enables, &group[k]) {
                    hit = true;
                }
                k = k + 1;
            }
            let ghost set_before = views(set@);
            if hit && !crate::text::contains_string(&set, key) {
                set.push(key.clone());
                proof {
                    assert(views(set@) =~= set_before.push(key@));
                    assert forall|a: int, b: int| 0 <= a < b < views(set@).len() implies views(set@)[a] != views(set@)[b] by {
                        if b == views(set@).len() - 1 {
                            assert(views(set@)[a] == set_before[a]);
                            assert(set_before.contains(set_before[a]));
                        }
                    }
                }
            }
            i = i + 1;
            proof {
                assert forall|e: Seq<char>| views(set@).contains(e) <==>
                    exists|j: int| 0 <= j < i && #[trigger] fm[j].0 == e
                        && exists|k: int| 0 <= k < gv.len() && (e == #[trigger] gv[k] || fm[j].1.contains(gv[k])) by {
                    if views(set@).contains(e) && !set_before.contains(e) {
                        assert(e == key@);
                        assert(fm[i - 1].0 == e);
                    }
                    if exists|j: int| 0 <= j < i && #[trigger] fm[j].0 == e
                        && exists|k: int| 0 <= k < gv.len() && (e == #[trigger] gv[k] || fm[j].1.contains(gv[k])) {
                        let j = choose|j: int| 0 <= j < i && #[trigger] fm[j].0 == e
                            && exists|k: int| 0 <= k < gv.len() && (e == #[trigger] gv[k] || fm[j].1.contains(gv[k]));
                        if j == i - 1 {
                            let q = choose|q: int| 0 <= q < gv.len() && (e == #[trigger] gv[q] || fm[j].1.contains(gv[q]));
                            assert(hit);
                        }
                    }
                }
            }
        }
        let ghost gs = group_views(at_least_one_of@);
        proof {
            assert(gs.take(g as int + 1).drop_last() =~= gs.take(g as int));
            assert(gs.take(g as int + 1).last() == gv);
            let en = |n: Seq<char>, e: Seq<char>| enablers(fm, n, e);
            assert(views(set@).to_set() =~= enablers_of_group(en, gv)) by {
                assert forall|e: Seq<char>| views(set@).to_set().contains(e) <==> enablers_of_group(en, gv).contains(e) by {
                    if enablers_of_group(en, gv).contains(e) {
                        let k = choose|k: int| 0 <= k < gv.len() && en(#[trigger] gv[k], e);
                        let j = choose|j: int| 0 <= j < fm.len() && #[trigger] fm[j].0 == e && (e == gv[k] || fm[j].1.contains(gv[k]));
                        assert(views(set@).contains(e));
                    }
                    if views(set@).contains(e) {
                        let j = choose|j: int| 0 <= j < fm.len() && #[trigger] fm[j].0 == e
                            && exists|k: int| 0 <= k < gv.len() && (e == #[trigger] gv[k] || fm[j].1.contains(gv[k]));
                        let k = choose|k: int| 0 <= k < gv.len() && (e == #[trigger] gv[k] || fm[j].1.contains(gv[k]));
                        assert(enablers(fm, gv[k], e));
                        assert(en(gv[k], e));
                    }
                }
            }
        }
        let ghost res_before = res@;
        if set.len() > 0 {
            res.push(set);
            proof {
                assert(set_views(res@)
                    =~= set_views(res_before).push(views(set@).to_set()));
                assert(views(set@)[0] == set@[0]@);
                assert(views(set@).to_set().contains(views(set@)[0]));
            }
        } else {
            proof {
                assert(views(set@).to_set() =~= Set::<Seq<char>>::empty());
            }
        }
        g = g + 1;
    }
    proof {
        assert(group_views(at_least_one_of@).take(at_least_one_of@.len() as int) =~= group_views(at_least_one_of@));
    }
    res
}

/// Extending commutes with mapping the items.
proof fn lemma_grow_map<A, B>(acc: Seq<Seq<A>>, e: A, depth: Option<usize>, f: spec_fn(A) -> B)
    ensures
        grow(acc.map_values(|c: Seq<A>| c.map_values(f)), f(e), depth)
            == grow(acc, e, depth).map_values(|c: Seq<A>| c.map_values(f)),
    decreases acc.len(),
{
    let g = |c: Seq<A>| c.map_values(f);
    if acc.len() > 0 {
        lemma_grow_map(acc.drop_last(), e, depth, f);
        assert(acc.map_values(g).drop_last() =~= acc.drop_last().map_values(g));
        assert(acc.map_values(g).last() == g(acc.last()));
        assert(g(acc.last()).push(f(e)) =~= g(acc.last().push(e)));
        let rest = grow(acc.drop_last(), e, depth);
        if fits_depth(acc.last().len() + 1int, depth) {
            assert(rest.push(acc.last().push(e)).map_values(g) =~= rest.map_values(g).push(g(acc.last().push(e))));
        }
    } else {
        assert(acc.map_values(g) =~= Seq::<Seq<B>>::empty());
        assert(grow(acc, e, depth).map_values(g) =~= Seq::<Seq<B>>::empty());
    }
}

/// Taking the powerset commutes with mapping the items.
pub proof fn lemma_powerset_map<A, B>(s: Seq<A>, depth: Option<usize>, f: spec_fn(A) -> B)
    ensures
        spec_powerset(s.map_values(f), depth) == spec_powerset(s, depth).map_values(|c: Seq<A>| c.map_values(f)),
    decreases s.len(),
{
    let g = |c: Seq<A>| c.map_values(f);
    if s.len() == 0 {
        assert(s.map_values(f) =~= Seq::<B>::empty());
        assert(g(Seq::<A>::empty()) =~= Seq::<B>::empty());
        assert(spec_powerset(s, depth).map_values(g) =~= seq![Seq::<B>::empty()]);
        assert(spec_powerset(s.map_values(f), depth) =~= seq![Seq::<B>::empty()]);
    } else {
        lemma_powerset_map(s.drop_last(), depth, f);
        assert(s.map_values(f).drop_last() =~= s.drop_last().map_values(f));
        let acc = spec_powerset(s.drop_last(), depth);
        lemma_grow_map(acc, s.last(), depth, f);
        assert((acc + grow(acc, s.last(), depth)).map_values(g) =~= acc.map_values(g) + grow(acc, s.last(), depth).map_values(g));
    }
}

/// Returns the powerset of `items` (the empty combination first), leaving out
/// combinations of more than `depth` items.
pub fn powerset<T: Copy>(items: Vec<T>, depth: Option<usize>) -> (res: Vec<Vec<T>>)
    ensures
        res@.map_values(|c: Vec<T>| c@) == spec_powerset(items@, depth),
{
    let mut acc: Vec<Vec<T>> = Vec::new();
    acc.push(Vec::new());
    let mut i: usize = 0;
    proof {
        assert(items@.take(0) =~= Seq::<T>::empty());
        assert(acc@.map_values(|c: Vec<T>| c@) =~= seq![Seq::<T>::empty()]);
    }
    while i < items.len()
        invariant
            i <= items.len(),
            acc@.map_values(|c: Vec<T>| c@) == spec_powerset(items@.take(i as int), depth),
        decreases items.len() - i,
    {
        let elem = items[i];
        let n = acc.len();
        let ghost before = acc@.map_values(|c: Vec<T>| c@);
        let mut j: usize = 0;
        while j < n
            invariant
                n <= acc.len(),
                j <= n,
                n == before.len(),
                acc@.map_values(|c: Vec<T>| c@) == before + grow(before.take(j as int), elem, depth),
            decreases n - j,
        {
            let len = acc[j].len();
            let keep = match depth {
                None => true,
                Some(d) => len < d,
            };
            proof {
                assert(before.take(j as int + 1).drop_last() =~= before.take(j as int));
                assert(acc@.map_values(|c: Vec<T>| c@)[j as int] == acc@[j as int]@);
            }
            if keep {
                let mut ext: Vec<T> = Vec::new();
                let mut k: usize = 0;
                while k < len
                    invariant
                        j < n <= acc.len(),
                        len == acc[j as int]@.len(),
                        k <= len,
                        ext@ == acc[j as int]@.take(k as int),
                    decreases len - k,
                {
                    ext.push(acc[j][k]);
                    k = k + 1;
                    proof {
                        assert(acc[j as int]@.take(k as int) =~= acc[j as int]@.take(k - 1).push(acc[j as int]@[k - 1]));
                    }
                }
                proof {
                    assert(acc[j as int]@.take(len as int) =~= acc[j as int]@);
                }
                ext.push(elem);
                let ghost prev = acc@;
                acc.push(ext);
                proof {
                    assert(acc@.map_values(|c: Vec<T>| c@) =~= prev.map_values(|c: Vec<T>| c@).push(ext@));
                }
            }
            j = j + 1;
            proof {
                assert(acc@.map_values(|c: Vec<T>| c@) =~= before + grow(before.take(j as int), elem, depth));
            }
        }
        proof {
            assert(before.take(n as int) =~= before);
            assert(items@.take(i as int + 1).drop_last() =~= items@.take(i as int));
        }
        i = i + 1;
    }
    proof {
        assert(items@.take(items.len() as int) =~= items@);
    }
    acc
}

// ---------------------------------------------------------------------------
// The features of a package
// ---------------------------------------------------------------------------

/// The names in `names` that are not yet in `acc`, appended to it in order,
/// each once.
pub open spec fn append_new(acc: Seq<Seq<char>>, names: Seq<Seq<char>>) -> Seq<Seq<char>>
    decreases names.len(),
{
    if names.len() == 0 {
        acc
    } else {
        let r = append_new(acc, names.drop_last());
        if r.contains(names.last()) {
            r
        } else {
            r.push(names.last())
        }
    }
}

/// Some feature of the manifest lists a `dep:` action.
pub open spec fn has_namespaced_features(mf: MapView) -> bool {
    exists|i: int, j: int| 0 <= i < mf.len() && 0 <= j < mf[i].1.len() && has_prefix(#[trigger] mf[i].1[j], dep_prefix())
}

/// The names of a list of features.
pub open spec fn names_of(fs: Seq<Feature>) -> Seq<Seq<char>> {
    fs.map_values(|f: Feature| f.name_view())
}

/// The names of the entries of a map, in order.
pub open spec fn map_keys(m: MapView) -> Seq<Seq<char>> {
    m.map_values(|e: (Seq<char>, Seq<Seq<char>>)| e.0)
}

/// The first dependency named `name`.
pub open spec fn first_dep_named(deps: Seq<Dependency>, name: Seq<char>) -> Option<Dependency>
    decreases deps.len(),
{
    if deps.len() == 0 {
        None
    } else if deps[0].name@ == name {
        Some(deps[0])
    } else {
        first_dep_named(deps.drop_first(), name)
    }
}

/// The name under which a dependency is known to its package.
pub open spec fn local_name(d: Dependency) -> Seq<char> {
    match d.rename {
        Some(r) => r@,
        None => d.name@,
    }
}

/// The features of the plain dependencies `nds` of a package whose declared
/// dependencies are `deps`, each written `dependency/feature`.
pub open spec fn dep_feature_names(packages: Seq<Package>, deps: Seq<Dependency>, nds: Seq<NodeDep>) -> Seq<Seq<char>>
    decreases nds.len(),
{
    if nds.len() == 0 {
        Seq::empty()
    } else {
        let rest = dep_feature_names(packages, deps, nds.drop_last());
        let d = nds.last();
        if is_plain_dependency(d) {
            let dp = packages[d.pkg.index as int];
            match first_dep_named(deps, dp.name@) {
                Some(dep) => rest + map_keys(dp.features@).map_values(|f: Seq<char>| local_name(dep) + seq!['/'] + f),
                None => rest,
            }
        } else {
            rest
        }
    }
}

/// The features of a package: those of its manifest, then those given by
/// its optional dependencies, then features of its dependencies.
pub struct Features {
    features: Vec<Feature>,
    optional_deps_start: usize,
    deps_features_start: usize,
}

impl View for Features {
    /// The features, where the optional dependencies start, and where the
    /// features of dependencies start.
    type V = (Seq<Feature>, nat, nat);

    closed spec fn view(&self) -> (Seq<Feature>, nat, nat) {
        (self.features@, self.optional_deps_start as nat, self.deps_features_start as nat)
    }
}

impl Features {
    #[verifier::type_invariant]
    spec fn sections_in_order(self) -> bool {
        self.optional_deps_start <= self.deps_features_start <= self.features@.len()
    }

    /// The features of the package `package`, whose manifest lists
    /// `manifest_features` and whose resolved dependencies are `node_deps`.
    /// Optional dependencies count as features unless some feature uses a
    /// `dep:` action; features of dependencies are listed only when
    /// `include_deps_features` is set.
    pub fn new(
        packages: &Vec<Package>,
        package: &Package,
        node_deps: &Vec<NodeDep>,
        manifest_features: &FeatureMap,
        include_deps_features: bool,
    ) -> (res: Features)
        requires
            forall|k: int| 0 <= k < node_deps@.len() ==> (#[trigger] node_deps@[k]).pkg.index < packages@.len(),
        ensures
            res@.1 == manifest_features@.len(),
            res@.1 <= res@.2 <= res@.0.len(),
            ({
                let own = if has_namespaced_features(manifest_features@) {
                    map_keys(manifest_features@)
                } else {
                    append_new(map_keys(manifest_features@), optional_dep_names(package.dependencies@))
                };
                let deps = if include_deps_features {
                    dep_feature_names(packages@, package.dependencies@, node_deps@)
                } else {
                    Seq::empty()
                };
                &&& res@.2 == own.len()
                &&& names_of(res@.0) == own + deps
            }),
            forall|i: int| 0 <= i < res@.2 ==> (#[trigger] res@.0[i]) is Normal,
            forall|i: int| res@.2 <= i < res@.0.len() ==> (#[trigger] res@.0[i]) is Path,
    {
        let ghost mf = manifest_features@;
        let mut features: Vec<Feature> = Vec::new();
        let mut i: usize = 0;
        while i < manifest_features.len()
            invariant
                mf == manifest_features@,
                i <= mf.len(),
                names_of(features@) == map_keys(mf).take(i as int),
                forall|k: int| 0 <= k < features@.len() ==> (#[trigger] features@[k]) is Normal,
            decreases mf.len() - i,
        {
            let f = Feature::normal(manifest_features.key(i).as_str());
            let ghost before = features@;
            features.push(f);
            proof {
                assert(features@ == before.push(f));
                assert(f.name_view() == map_keys(mf)[i as int]);
                assert(names_of(features@) =~= names_of(before).push(f.name_view()));
            }
            i = i + 1;
            proof {
                assert(names_of(features@) =~= map_keys(mf).take(i as int));
            }
        }
        proof {
            assert(map_keys(mf).take(mf.len() as int) =~= map_keys(mf));
        }
        // Features with a `dep:` action make the other optional dependencies
        // stop being implicit features.
        let ghost f0 = features@;
        let mut has_namespaced = false;
        let mut a: usize = 0;
        while a < manifest_features.len()
            invariant
                mf == manifest_features@,
                features@ == f0,
                a <= mf.len(),
                has_namespaced <==> exists|i2: int, j2: int|
                    0 <= i2 < a && 0 <= j2 < mf[i2].1.len() && has_prefix(#[trigger] mf[i2].1[j2], dep_prefix()),
            decreases mf.len() - a,
        {
            let names = manifest_features.value(a);
            let mut b: usize = 0;
            while b < names.len()
                invariant
                    mf == manifest_features@,
                    features@ == f0,
                    a < mf.len(),
                    views(names@) == mf[a as int].1,
                    b <= names@.len(),
                    has_namespaced <==> (exists|i2: int, j2: int|
                        0 <= i2 < a && 0 <= j2 < mf[i2].1.len() && has_prefix(#[trigger] mf[i2].1[j2], dep_prefix()))
                        || exists|j2: int| 0 <= j2 < b && has_prefix(#[trigger] mf[a as int].1[j2], dep_prefix()),
                decreases names.len() - b,
            {
                proof {
                    assert(views(names@)[b as int] == names@[b as int]@);
                }
                if crate::text::is_dep_action(&names[b]) {
                    has_namespaced = true;
                }
                b = b + 1;
            }
            a = a + 1;
        }
        let optional_deps_start = features.len();
        proof {
            assert(names_of(f0).len() == f0.len());
            assert(optional_deps_start == mf.len());
            assert(has_namespaced == has_namespaced_features(mf));
        }
        if !has_namespaced {
            let opt = package.optional_deps();
            let ghost optv = opt@.map_values(|s: &str| s@);
            let mut k: usize = 0;
            while k < opt.len()
                invariant
                    optv == opt@.map_values(|s: &str| s@),
                    optv == optional_dep_names(package.dependencies@),
                    optional_deps_start <= features@.len(),
                    k <= optv.len(),
                    names_of(features@) == append_new(map_keys(mf), optv.take(k as int)),
                    forall|q: int| 0 <= q < features@.len() ==> (#[trigger] features@[q]) is Normal,
                decreases opt.len() - k,
            {
                let feature = Feature::normal(opt[k]);
                let ghost names = names_of(features@);
                proof {
                    assert(optv.take(k as int + 1).drop_last() =~= optv.take(k as int));
                    assert(optv[k as int] == opt@[k as int]@);
                }
                let mut found = false;
                let mut q: usize = 0;
                while q < features.len()
                    invariant
                        names == names_of(features@),
                        q <= features@.len(),
                        feature.name_view() == optv[k as int],
                        found <==> exists|q2: int| 0 <= q2 < q && names[q2] == feature.name_view(),
                    decreases features.len() - q,
                {
                    if string_eq_str(features[q].name_string(), feature.name()) {
                        found = true;
                        proof {
                            assert(names[q as int] == feature.name_view());
                        }
                    }
                    q = q + 1;
                }
                if !found {
                    let ghost before = features@;
                    features.push(feature);
                    proof {
                        assert(features@ == before.push(feature));
                        assert(names_of(features@) =~= names.push(optv[k as int]));
                    }
                } else {
                    proof {
                        let q2 = choose|q2: int| 0 <= q2 < names.len() && names[q2] == feature.name_view();
                        assert(names.contains(optv[k as int]));
                    }
                }
                k = k + 1;
            }
            proof {
                assert(optv.take(optv.len() as int) =~= optv);
            }
        }
        let deps_features_start = features.len();
        proof {
            assert(optional_deps_start <= deps_features_start);
        }
        let ghost own = names_of(features@);
        if include_deps_features {
            let mut d: usize = 0;
            while d < node_deps.len()
                invariant
                    forall|k: int| 0 <= k < node_deps@.len() ==> (#[trigger] node_deps@[k]).pkg.index < packages@.len(),
                    d <= node_deps@.len(),
                    optional_deps_start <= deps_features_start,
                    deps_features_start <= features@.len(),
                    names_of(features@) == own + dep_feature_names(packages@, package.dependencies@, node_deps@.take(d as int)),
                    forall|q: int| 0 <= q < deps_features_start ==> (#[trigger] features@[q]) is Normal,
                    forall|q: int| deps_features_start <= q < features@.len() ==> (#[trigger] features@[q]) is Path,
                    own.len() == deps_features_start,
                decreases node_deps.len() - d,
            {
                proof {
                    assert(node_deps@.take(d as int + 1).drop_last() =~= node_deps@.take(d as int));
                }
                let nd = &node_deps[d];
                if nd.is_plain() {
                    let dp = &packages[nd.pkg.index];
                    let mut e: usize = 0;
                    let ghost deps_v = package.dependencies@;
                    proof {
                        assert(deps_v.skip(0) =~= deps_v);
                    }
                    while e < package.dependencies.len() && package.dependencies[e].name != dp.name
                        invariant
                            deps_v == package.dependencies@,
                            e <= deps_v.len(),
                            first_dep_named(deps_v, dp.name@) == first_dep_named(deps_v.skip(e as int), dp.name@),
                        decreases deps_v.len() - e,
                    {
                        proof {
                            assert(deps_v.skip(e as int).drop_first() =~= deps_v.skip(e as int + 1));
                        }
                        e = e + 1;
                    }
                    proof {
                        if e < deps_v.len() {
                            assert(deps_v.skip(e as int)[0] == deps_v[e as int]);
                        }
                    }
                    if e < package.dependencies.len() {
                        let dep = &package.dependencies[e];
                        let parent = match &dep.rename {
                            Some(r) => r.as_str(),
                            None => dep.name.as_str(),
                        };
                        let ghost base = names_of(features@);
                        let ghost paths = map_keys(dp.features@).map_values(|f: Seq<char>| local_name(*dep) + seq!['/'] + f);
                        let mut j: usize = 0;
                        while j < dp.features.len()
                            invariant
                                j <= dp.features@.len(),
                                parent@ == local_name(*dep),
                                paths == map_keys(dp.features@).map_values(|f: Seq<char>| local_name(*dep) + seq!['/'] + f),
                                names_of(features@) == base + paths.take(j as int),
                                deps_features_start <= base.len(),
                                forall|q: int| 0 <= q < deps_features_start ==> (#[trigger] features@[q]) is Normal,
                                forall|q: int| deps_features_start <= q < features@.len() ==> (#[trigger] features@[q]) is Path,
                            decreases dp.features@.len() - j,
                        {
                            let f = Feature::path(parent, dp.features.key(j).as_str());
                            let ghost prev = features@;
                            features.push(f);
                            proof {
                                assert(features@ == prev.push(f));
                                assert(f.name_view() == paths[j as int]);
                                assert(names_of(features@) =~= names_of(prev).push(f.name_view()));
                            }
                            j = j + 1;
                            proof {
                                assert(names_of(features@) =~= base + paths.take(j as int));
                            }
                        }
                        proof {
                            assert(paths.take(paths.len() as int) =~= paths);
                        }
                    }
                }
                d = d + 1;
            }
            proof {
                assert(node_deps@.take(node_deps@.len() as int) =~= node_deps@);
            }
        } else {
            proof {
                assert(names_of(features@) =~= own + Seq::<Seq<char>>::empty());
            }
        }
        Features { features, optional_deps_start, deps_features_start }
    }

    /// The features of the package's manifest.
    pub fn normal(&self) -> (res: &[Feature])
        ensures
            self@.1 <= self@.2 <= self@.0.len(),
            res@ == self@.0.subrange(0, self@.1 as int),
    {
        proof {
            use_type_invariant(self);
        }
        vstd::slice::slice_subrange(self.features.as_slice(), 0, self.optional_deps_start)
    }

    /// The features given by the package's optional dependencies.
    pub fn optional_deps(&self) -> (res: &[Feature])
        ensures
            self@.1 <= self@.2 <= self@.0.len(),
            res@ == self@.0.subrange(self@.1 as int, self@.2 as int),
    {
        proof {
            use_type_invariant(self);
        }
        vstd::slice::slice_subrange(self.features.as_slice(), self.optional_deps_start, self.deps_features_start)
    }

    /// The features of the package's manifest, then those of its optional
    /// dependencies.
    pub fn normal_and_optional_deps(&self) -> (res: &[Feature])
        ensures
            self@.1 <= self@.2 <= self@.0.len(),
            res@ == self@.0.subrange(0, self@.2 as int),
    {
        proof {
            use_type_invariant(self);
        }
        vstd::slice::slice_subrange(self.features.as_slice(), 0, self.deps_features_start)
    }

    /// The features of the package's dependencies.
    pub fn deps_features(&self) -> (res: &[Feature])
        ensures
            self@.1 <= self@.2 <= self@.0.len(),
            res@ == self@.0.subrange(self@.2 as int, self@.0.len() as int),
    {
        proof {
            use_type_invariant(self);
        }
        vstd::slice::slice_subrange(self.features.as_slice(), self.deps_features_start, self.features.len())
    }

    /// All the features: those of the manifest, of the optional
    /// dependencies, and of the dependencies.
    pub(crate) fn all(&self) -> (res: &[Feature])
        ensures
            res@ == self@.0,
    {
        self.features.as_slice()
    }

    /// Whether some feature of the package is named `name`.
    pub fn contains(&self, name: &str) -> (res: bool)
        ensures
            res == exists|i: int| 0 <= i < self@.0.len() && (#[trigger] self@.0[i]).name_view() == name@,
    {
        let mut i: usize = 0;
        while i < self.features.len()
            invariant
                i <= self@.0.len(),
                self@.0 == self.features@,
                forall|k: int| 0 <= k < i ==> (#[trigger] self@.0[k]).name_view() != name@,
            decreases self.features.len() - i,
        {
            if string_eq_str(self.features[i].name_string(), name) {
                return true;
            }
            i = i + 1;
        }
        false
    }
}

// ---------------------------------------------------------------------------
// Feature powerset with pruning
// ---------------------------------------------------------------------------

/// `deps` lists, for each feature of `pf` in order, the features it enables.
pub open spec fn is_deps_of(deps: MapView, pf: MapView) -> bool {
    &&& deps.len() == pf.len()
    &&& forall|i: int| 0 <= i < pf.len() ==> #[trigger] deps[i].0 == pf[i].0
    &&& forall|i: int, x: Seq<char>|
        #![trigger deps[i].1.contains(x)]
        #![trigger enables(pf, pf[i].0, x)]
        0 <= i < pf.len() ==> (deps[i].1.contains(x) <==> enables(pf, pf[i].0, x))
}

/// `n` is a feature of the package.
pub open spec fn is_feature_of(pf: MapView, n: Seq<char>) -> bool {
    exists|i: int| 0 <= i < pf.len() && #[trigger] pf[i].0 == n
}

/// `e` is a feature of the package whose enabling enables `name`
/// (`name` counts as enabling itself).
pub open spec fn enables_or_is(pf: MapView, name: Seq<char>, e: Seq<char>) -> bool {
    is_feature_of(pf, e) && (e == name || enables(pf, e, name))
}

/// Enabling `n` enables each of `ms`.
pub open spec fn enables_all(pf: MapView, n: Seq<char>, ms: Seq<Seq<char>>) -> bool {
    forall|q: int| 0 <= q < ms.len() ==> enables(pf, n, #[trigger] ms[q])
}

/// The `k`-th feature of member `a` of `fs` is a package feature that
/// already enables all the features of some member of `fs`.
pub open spec fn redundant_at(pf: MapView, fs: Seq<&Feature>, a: int, k: int) -> bool {
    let n = fs[a].group_view()[k];
    is_feature_of(pf, n) && exists|b: int| 0 <= b < fs.len() && #[trigger] enables_all(pf, n, fs[b].group_view())
}

/// The combination `fs` enables nothing more than a smaller one: some
/// feature of a member already enables all the features of a member.
pub open spec fn is_redundant(pf: MapView, fs: Seq<&Feature>) -> bool {
    exists|a: int, k: int|
        0 <= a < fs.len() && 0 <= k < fs[a].group_view().len() && #[trigger] redundant_at(pf, fs, a, k)
}

/// Some feature of a member of `fs` is in `set`.
pub open spec fn hits(fs: Seq<&Feature>, set: Set<Seq<char>>) -> bool {
    exists|a: int, k: int|
        0 <= a < fs.len() && 0 <= k < fs[a].group_view().len() && set.contains(#[trigger] fs[a].group_view()[k])
}

/// `fs` hits every one of `sets`.
pub open spec fn covers(fs: Seq<&Feature>, sets: Seq<Set<Seq<char>>>) -> bool {
    forall|j: int| 0 <= j < sets.len() ==> hits(fs, #[trigger] sets[j])
}

/// The number of `gs` that stand for `n`.
pub open spec fn count_matching(n: Seq<char>, gs: Seq<Feature>) -> nat
    decreases gs.len(),
{
    if gs.len() == 0 {
        0
    } else {
        count_matching(n, gs.drop_last()) + if gs.last().group_view().contains(n) { 1nat } else { 0nat }
    }
}

/// The number of pairs of a name of `ns` and a member of `gs` standing for it.
pub open spec fn count_names(ns: Seq<Seq<char>>, gs: Seq<Feature>) -> nat
    decreases ns.len(),
{
    if ns.len() == 0 {
        0
    } else {
        count_names(ns.drop_last(), gs) + count_matching(ns.last(), gs)
    }
}

/// The number of pairs of a feature of a member of `fs` and a member of
/// `gs` that stands for it.
pub open spec fn count_members(fs: Seq<&Feature>, gs: Seq<Feature>) -> nat
    decreases fs.len(),
{
    if fs.len() == 0 {
        0
    } else {
        count_members(fs.drop_last(), gs) + count_names(fs.last().group_view(), gs)
    }
}

/// Whether the combination `fs` is kept in the feature powerset.
pub open spec fn keeps(pf: MapView, sets: Seq<Set<Seq<char>>>, mef: Seq<Feature>, fs: Seq<&Feature>) -> bool {
    &&& !is_redundant(pf, fs)
    &&& covers(fs, sets)
    &&& count_members(fs, mef) <= 1
}

/// [`keeps`] as a predicate on combinations.
pub open spec fn keeps_fn<'a>(pf: MapView, sets: Seq<Set<Seq<char>>>, mef: Seq<Feature>) -> spec_fn(Seq<&'a Feature>) -> bool {
    |fs: Seq<&'a Feature>| keeps(pf, sets, mef, fs)
}

/// The feature combinations to run: the non-empty combinations of
/// `features` within the depth, without those that enable nothing more than
/// a smaller combination, those that enable none of the features of some
/// `--at-least-one-of` group, and those holding two or more features of the
/// mutually exclusive groups.
pub open spec fn spec_feature_powerset<'a>(
    features: Seq<&'a Feature>,
    depth: Option<usize>,
    at_least_one_of: Seq<Feature>,
    mutually_exclusive_features: Seq<Feature>,
    pf: MapView,
) -> Seq<Seq<&'a Feature>> {
    let sets = spec_at_least_one_of(|n: Seq<char>, e: Seq<char>| enables_or_is(pf, n, e), group_views(at_least_one_of));
    spec_powerset(features, depth).drop_first().filter(keeps_fn(pf, sets, mutually_exclusive_features))
}

proof fn lemma_count_matching_prefix(n: Seq<char>, gs: Seq<Feature>, m: int)
    requires
        0 <= m <= gs.len(),
    ensures
        count_matching(n, gs.take(m)) <= count_matching(n, gs),
    decreases gs.len(),
{
    if m < gs.len() {
        lemma_count_matching_prefix(n, gs.drop_last(), m);
        assert(gs.drop_last().take(m) =~= gs.take(m));
    } else {
        assert(gs.take(m) =~= gs);
    }
}

proof fn lemma_count_names_prefix(ns: Seq<Seq<char>>, gs: Seq<Feature>, k: int)
    requires
        0 <= k <= ns.len(),
    ensures
        count_names(ns.take(k), gs) <= count_names(ns, gs),
    decreases ns.len(),
{
    if k < ns.len() {
        lemma_count_names_prefix(ns.drop_last(), gs, k);
        assert(ns.drop_last().take(k) =~= ns.take(k));
    } else {
        assert(ns.take(k) =~= ns);
    }
}

proof fn lemma_count_members_prefix<'a>(fs: Seq<&'a Feature>, gs: Seq<Feature>, a: int)
    requires
        0 <= a <= fs.len(),
    ensures
        count_members(fs.take(a), gs) <= count_members(fs, gs),
    decreases fs.len(),
{
    if a < fs.len() {
        lemma_count_members_prefix(fs.drop_last(), gs, a);
        assert(fs.drop_last().take(a) =~= fs.take(a));
    } else {
        assert(fs.take(a) =~= fs);
    }
}

/// Whether the members of `fs` hold at most one feature of the mutually
/// exclusive groups `mef`, counting a feature once per group holding it.
fn exclusive_ok(fs: &Vec<&Feature>, mef: &[Feature]) -> (res: bool)
    ensures
        res == (count_members(fs@, mef@) <= 1),
{
    let mut count: usize = 0;
    let mut a: usize = 0;
    while a < fs.len()
        invariant
            a <= fs@.len(),
            count == count_members(fs@.take(a as int), mef@),
            count <= 1,
        decreases fs.len() - a,
    {
        let g = fs[a].as_group();
        let ghost gv = fs@[a as int].group_view();
        let mut k: usize = 0;
        while k < g.len()
            invariant
                a < fs@.len(),
                views(g@) == gv,
                gv == fs@[a as int].group_view(),
                k <= gv.len(),
                count == count_members(fs@.take(a as int), mef@) + count_names(gv.take(k as int), mef@),
                count <= 1,
            decreases g.len() - k,
        {
            let name = g[k].as_str();
            proof {
                assert(views(g@)[k as int] == g@[k as int]@);
            }
            let mut m: usize = 0;
            while m < mef.len()
                invariant
                    a < fs@.len(),
                    views(g@) == gv,
                    gv == fs@[a as int].group_view(),
                    k < gv.len(),
                    name@ == gv[k as int],
                    m <= mef@.len(),
                    count == count_members(fs@.take(a as int), mef@) + count_names(gv.take(k as int), mef@)
                        + count_matching(gv[k as int], mef@.take(m as int)),
                    count <= 1,
                decreases mef.len() - m,
            {
                proof {
                    assert(mef@.take(m as int + 1).drop_last() =~= mef@.take(m as int));
                }
                if mef[m].matches(name) {
                    if count == 1 {
                        proof {
                            let total = count_members(fs@, mef@);
                            lemma_count_matching_prefix(gv[k as int], mef@, m as int + 1);
                            lemma_count_names_prefix(gv, mef@, k as int + 1);
                            assert(gv.take(k as int + 1).drop_last() =~= gv.take(k as int));
                            lemma_count_members_prefix(fs@, mef@, a as int + 1);
                            assert(fs@.take(a as int + 1).drop_last() =~= fs@.take(a as int));
                            assert(gv.take(k as int) + seq![] == gv.take(k as int));
                            assert(count_names(gv.take(k as int + 1), mef@) == count_names(gv.take(k as int), mef@)
                                + count_matching(gv[k as int], mef@));
                            assert(gv.take(gv.len() as int) =~= gv);
                        }
                        return false;
                    }
                    count = count + 1;
                }
                m = m + 1;
            }
            proof {
                assert(mef@.take(mef@.len() as int) =~= mef@);
                assert(gv.take(k as int + 1).drop_last() =~= gv.take(k as int));
            }
            k = k + 1;
        }
        proof {
            assert(gv.take(gv.len() as int) =~= gv);
            assert(fs@.take(a as int + 1).drop_last() =~= fs@.take(a as int));
        }
        a = a + 1;
    }
    proof {
        assert(fs@.take(fs@.len() as int) =~= fs@);
    }
    true
}

/// Whether some feature of a member of `fs` is one of `set`.
fn hits_exec(fs: &Vec<&Feature>, set: &Vec<String>) -> (res: bool)
    ensures
        res == hits(fs@, views(set@).to_set()),
{
    let mut a: usize = 0;
    while a < fs.len()
        invariant
            a <= fs@.len(),
            forall|a2: int, k2: int| 0 <= a2 < a && 0 <= k2 < fs@[a2].group_view().len()
                ==> !views(set@).to_set().contains(#[trigger] fs@[a2].group_view()[k2]),
        decreases fs.len() - a,
    {
        let g = fs[a].as_group();
        let mut k: usize = 0;
        while k < g.len()
            invariant
                a < fs@.len(),
                views(g@) == fs@[a as int].group_view(),
                k <= g@.len(),
                forall|a2: int, k2: int| 0 <= a2 < a && 0 <= k2 < fs@[a2].group_view().len()
                    ==> !views(set@).to_set().contains(#[trigger] fs@[a2].group_view()[k2]),
                forall|k2: int| 0 <= k2 < k ==> !views(set@).to_set().contains(#[trigger] fs@[a as int].group_view()[k2]),
            decreases g.len() - k,
        {
            proof {
                assert(views(g@)[k as int] == g@[k as int]@);
            }
            if crate::text::contains_string(set, &g[k]) {
                proof {
                    assert(views(set@).to_set().contains(fs@[a as int].group_view()[k as int]));
                }
                return true;
            }
            k = k + 1;
        }
        a = a + 1;
    }
    false
}

/// Whether `fs` hits every one of `sets`.
fn covers_exec(fs: &Vec<&Feature>, sets: &Vec<Vec<String>>) -> (res: bool)
    ensures
        res == covers(fs@, set_views(sets@)),
{
    let ghost sv = set_views(sets@);
    let mut j: usize = 0;
    while j < sets.len()
        invariant
            j <= sets@.len(),
            sv == set_views(sets@),
            forall|j2: int| 0 <= j2 < j ==> hits(fs@, #[trigger] sv[j2]),
        decreases sets.len() - j,
    {
        if !hits_exec(fs, &sets[j]) {
            proof {
                assert(sv[j as int] == views(sets@[j as int]@).to_set());
            }
            return false;
        }
        proof {
            assert(sv[j as int] == views(sets@[j as int]@).to_set());
        }
        j = j + 1;
    }
    true
}

/// Whether enabling `n` enables all the features of some member of `fs`,
/// given the features `d` that `n` enables.
fn some_member_within(fs: &Vec<&Feature>, d: &Vec<String>, Ghost(pf): Ghost<MapView>, Ghost(n): Ghost<Seq<char>>) -> (res: bool)
    requires
        forall|x: Seq<char>| #[trigger] views(d@).contains(x) <==> enables(pf, n, x),
    ensures
        res == exists|b: int| 0 <= b < fs@.len() && #[trigger] enables_all(pf, n, fs@[b].group_view()),
{
    let mut b: usize = 0;
    while b < fs.len()
        invariant
            b <= fs@.len(),
            forall|x: Seq<char>| #[trigger] views(d@).contains(x) <==> enables(pf, n, x),
            forall|b2: int| 0 <= b2 < b ==> !#[trigger] enables_all(pf, n, fs@[b2].group_view()),
        decreases fs.len() - b,
    {
        let g = fs[b].as_group();
        let ghost gv = fs@[b as int].group_view();
        let mut q: usize = 0;
        let mut all = true;
        while q < g.len()
            invariant
                b < fs@.len(),
                views(g@) == gv,
                gv == fs@[b as int].group_view(),
                q <= g@.len(),
                forall|x: Seq<char>| #[trigger] views(d@).contains(x) <==> enables(pf, n, x),
                all <==> forall|q2: int| 0 <= q2 < q ==> enables(pf, n, #[trigger] gv[q2]),
            decreases g.len() - q,
        {
            proof {
                assert(views(g@)[q as int] == g@[q as int]@);
            }
            if !crate::text::contains_string(d, &g[q]) {
                all = false;
                proof {
                    assert(!enables(pf, n, gv[q as int]));
                }
            }
            q = q + 1;
        }
        if all {
            proof {
                assert(enables_all(pf, n, fs@[b as int].group_view()));
            }
            return true;
        }
        b = b + 1;
    }
    false
}

/// Whether `fs` enables nothing more than a smaller combination.
fn is_redundant_exec(fs: &Vec<&Feature>, deps: &FeatureMap, Ghost(pf): Ghost<MapView>) -> (res: bool)
    requires
        is_deps_of(deps@, pf),
    ensures
        res == is_redundant(pf, fs@),
{
    let mut a: usize = 0;
    while a < fs.len()
        invariant
            a <= fs@.len(),
            is_deps_of(deps@, pf),
            forall|a2: int, k2: int| 0 <= a2 < a && 0 <= k2 < fs@[a2].group_view().len()
                ==> !#[trigger] redundant_at(pf, fs@, a2, k2),
        decreases fs.len() - a,
    {
        let g = fs[a].as_group();
        let mut k: usize = 0;
        while k < g.len()
            invariant
                a < fs@.len(),
                views(g@) == fs@[a as int].group_view(),
                k <= g@.len(),
                is_deps_of(deps@, pf),
                forall|a2: int, k2: int| 0 <= a2 < a && 0 <= k2 < fs@[a2].group_view().len()
                    ==> !#[trigger] redundant_at(pf, fs@, a2, k2),
                forall|k2: int| 0 <= k2 < k ==> !#[trigger] redundant_at(pf, fs@, a as int, k2),
            decreases g.len() - k,
        {
            let ghost n = fs@[a as int].group_view()[k as int];
            proof {
                assert(views(g@)[k as int] == g@[k as int]@);
            }
            match deps.get(g[k].as_str()) {
                Some(d) => {
                    proof {
                        let i = choose|i: int| 0 <= i < deps@.len() && #[trigger] deps@[i].0 == n && views(d@) == deps@[i].1;
                        assert(pf[i].0 == n);
                        assert(is_feature_of(pf, n));
                        assert forall|x: Seq<char>| #[trigger] views(d@).contains(x) <==> enables(pf, n, x) by {
                            assert(deps@[i].1.contains(x) <==> enables(pf, pf[i].0, x));
                        }
                    }
                    if some_member_within(fs, d, Ghost(pf), Ghost(n)) {
                        proof {
                            assert(redundant_at(pf, fs@, a as int, k as int));
                        }
                        return true;
                    }
                },
                None => {
                    proof {
                        if is_feature_of(pf, n) {
                            let i = choose|i: int| 0 <= i < pf.len() && #[trigger] pf[i].0 == n;
                            assert(deps@[i].0 == n);
                        }
                    }
                },
            }
            k = k + 1;
        }
        a = a + 1;
    }
    false
}

/// The combinations of `features` to run with `--feature-powerset`: the
/// non-empty combinations within `depth`, leaving out each combination in
/// which some feature already enables all the features of a member (it is
/// equivalent to a smaller one), each that enables none of the features of
/// some `--at-least-one-of` group, and each that holds two or more features
/// of the mutually exclusive groups.
pub fn feature_powerset<'a>(
    features: Vec<&'a Feature>,
    depth: Option<usize>,
    at_least_one_of: &[Feature],
    mutually_exclusive_features: &[Feature],
    package_features: &FeatureMap,
) -> (res: Vec<Vec<&'a Feature>>)
    ensures
        res@.map_values(|v: Vec<&'a Feature>| v@) == spec_feature_powerset(
            features@,
            depth,
            at_least_one_of@,
            mutually_exclusive_features@,
            package_features@,
        ),
{
    let ghost pf = package_features@;
    let deps_map = feature_deps(package_features);
    let sets = at_least_one_of_for_package(at_least_one_of, &deps_map);
    let ghost en = |n: Seq<char>, e: Seq<char>| enables_or_is(pf, n, e);
    let ghost sv = spec_at_least_one_of(en, group_views(at_least_one_of@));
    proof {
        let en2 = |n: Seq<char>, e: Seq<char>| enablers(deps_map@, n, e);
        assert forall|n: Seq<char>, e: Seq<char>| #[trigger] en2(n, e) == en(n, e) by {
            if enablers(deps_map@, n, e) {
                let i = choose|i: int| 0 <= i < deps_map@.len() && #[trigger] deps_map@[i].0 == e
                    && (e == n || deps_map@[i].1.contains(n));
                assert(pf[i].0 == e);
                assert(deps_map@[i].1.contains(n) <==> enables(pf, pf[i].0, n));
            }
            if enables_or_is(pf, n, e) {
                let i = choose|i: int| 0 <= i < pf.len() && #[trigger] pf[i].0 == e;
                assert(deps_map@[i].0 == e);
                assert(deps_map@[i].1.contains(n) <==> enables(pf, pf[i].0, n));
            }
        }
        assert(en2 =~= en);
    }
    let all = powerset(features, depth);
    let ghost ps = spec_powerset(features@, depth);
    let ghost keep = keeps_fn(pf, sv, mutually_exclusive_features@);
    proof {
        lemma_powerset_starts_empty(features@, depth);
        assert(ps.drop_first().take(0) =~= Seq::<Seq<&'a Feature>>::empty());
        reveal(Seq::filter);
    }
    let mut res: Vec<Vec<&'a Feature>> = Vec::new();
    let mut i: usize = 1;
    while i < all.len()
        invariant
            1 <= i <= all@.len(),
            all@.map_values(|c: Vec<&'a Feature>| c@) == ps,
            ps.len() >= 1,
            is_deps_of(deps_map@, pf),
            set_views(sets@) == sv,
            keep == keeps_fn::<'a>(pf, sv, mutually_exclusive_features@),
            res@.map_values(|v: Vec<&'a Feature>| v@) == ps.drop_first().take(i - 1).filter(keep),
        decreases all.len() - i,
    {
        let fs = &all[i];
        proof {
            assert(all@.map_values(|c: Vec<&'a Feature>| c@)[i as int] == fs@);
            assert(ps.drop_first().take(i as int) =~= ps.drop_first().take(i - 1).push(fs@));
            ps.drop_first().take(i - 1).lemma_filter_push(fs@, keep);
        }
        let r1 = is_redundant_exec(fs, &deps_map, Ghost(pf));
        let r2 = covers_exec(fs, &sets);
        let r3 = exclusive_ok(fs, mutually_exclusive_features);
        let k = !r1 && r2 && r3;
        proof {
            assert(r1 == is_redundant(pf, fs@));
            assert(r2 == covers(fs@, sv));
            assert(r3 == (count_members(fs@, mutually_exclusive_features@) <= 1));
            assert(keep(fs@) == keeps(pf, sv, mutually_exclusive_features@, fs@));
            assert(keep(fs@) == k);
        }
        let ghost before = res@;
        if k {
            let mut copy: Vec<&'a Feature> = Vec::new();
            let mut t: usize = 0;
            while t < fs.len()
                invariant
                    t <= fs@.len(),
                    copy@ == fs@.take(t as int),
                decreases fs.len() - t,
            {
                copy.push(fs[t]);
                t = t + 1;
                proof {
                    assert(copy@ =~= fs@.take(t as int));
                }
            }
            proof {
                assert(fs@.take(fs@.len() as int) =~= fs@);
            }
            res.push(copy);
            proof {
                assert(res@.map_values(|v: Vec<&'a Feature>| v@) =~= before.map_values(|v: Vec<&'a Feature>| v@).push(fs@));
            }
        }
        i = i + 1;
    }
    proof {
        assert(ps.drop_first().take(all@.len() - 1) =~= ps.drop_first());
    }
    res
}

} // verus!
