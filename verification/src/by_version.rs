//! Which packages are run with which Rust version, for `--version-range`:
//! each package with each version of the range from its own minimum
//! (`rust-version`) on, and with that minimum itself where the range skips
//! it.

use vstd::prelude::*;

use crate::version::{version_less, version_lt, Version};
use crate::text::views;

verus! {

/// Whether package `i`, whose minimum Rust version is `msrvs[i]`, is run
/// with version `v`: `v` is a version of the range not below the minimum,
/// or `v` is the minimum and the range reaches it.
pub open spec fn runs_with(steps: Seq<Version>, msrvs: Seq<Option<Version>>, i: int, v: Version) -> bool {
    (steps.contains(v) && match msrvs[i] {
        Some(m) => !version_lt(v, m),
        None => true,
    }) || (msrvs[i] == Some(v) && exists|k: int| 0 <= k < steps.len() && !version_lt(#[trigger] steps[k], v))
}

/// The packages among the first `n` that run with `v`, in order.
pub open spec fn packages_with(steps: Seq<Version>, msrvs: Seq<Option<Version>>, n: int, v: Version) -> Seq<usize>
    decreases n,
{
    if n <= 0 {
        Seq::empty()
    } else if runs_with(steps, msrvs, n - 1, v) {
        packages_with(steps, msrvs, n - 1, v).push((n - 1) as usize)
    } else {
        packages_with(steps, msrvs, n - 1, v)
    }
}

/// Whether the range skips package `i` altogether: its minimum is above
/// every version of the range.
pub open spec fn skipped(steps: Seq<Version>, msrvs: Seq<Option<Version>>, i: int) -> bool {
    match msrvs[i] {
        Some(m) => forall|k: int| 0 <= k < steps.len() ==> version_lt(#[trigger] steps[k], m),
        None => false,
    }
}

/// The versions, each with its packages, as plain values.
pub type GroupsView = Seq<(Version, Seq<usize>)>;

/// The versions come in order, each once.
pub open spec fn versions_sorted(g: GroupsView) -> bool {
    forall|a: int, b: int| 0 <= a < b < g.len() ==> version_lt(#[trigger] g[a].0, #[trigger] g[b].0)
}

/// The versions, each with the packages that run with it, ordered by
/// version, as a `BTreeMap` from versions to lists holds them.
pub struct VersionGroups {
    groups: Vec<(Version, Vec<usize>)>,
}

impl View for VersionGroups {
    type V = GroupsView;

    closed spec fn view(&self) -> GroupsView {
        self.groups@.map_values(|e: (Version, Vec<usize>)| (e.0, e.1@))
    }
}

/// The list of `v` in `g`, or an empty list where `g` has no entry for it.
pub open spec fn group_of(g: GroupsView, v: Version) -> Seq<usize> {
    if exists|a: int| 0 <= a < g.len() && #[trigger] g[a].0 == v {
        g[choose|a: int| 0 <= a < g.len() && #[trigger] g[a].0 == v].1
    } else {
        Seq::empty()
    }
}

proof fn lemma_group_of(g: GroupsView, a: int)
    requires
        versions_sorted(g),
        0 <= a < g.len(),
    ensures
        group_of(g, g[a].0) == g[a].1,
{
    let b = choose|b: int| 0 <= b < g.len() && #[trigger] g[b].0 == g[a].0;
    if b != a {
        assert(version_lt(g[a].0, g[b].0) || version_lt(g[b].0, g[a].0));
    }
}

impl VersionGroups {
    /// No versions yet.
    pub fn new() -> (res: VersionGroups)
        ensures
            res@ == GroupsView::empty(),
    {
        let res = VersionGroups { groups: Vec::new() };
        proof {
            assert(res@ =~= GroupsView::empty());
        }
        res
    }

    /// The versions with their packages, in order.
    pub fn entries(&self) -> (res: &Vec<(Version, Vec<usize>)>)
        ensures
            res@.map_values(|e: (Version, Vec<usize>)| (e.0, e.1@)) == self@,
    {
        &self.groups
    }

    /// Adds package `i` to the list of version `v`.
    pub fn add(&mut self, v: Version, i: usize)
        requires
            versions_sorted(old(self)@),
        ensures
            versions_sorted(final(self)@),
            forall|w: Version| #[trigger] group_of(final(self)@, w) == if w == v {
                group_of(old(self)@, w).push(i)
            } else {
                group_of(old(self)@, w)
            },
    {
        let ghost g0 = self@;
        let ghost f = |e: (Version, Vec<usize>)| (e.0, e.1@);
        let n = self.groups.len();
        let mut k: usize = 0;
        while k < n && version_less(&self.groups[k].0, &v)
            invariant
                n == self.groups@.len(),
                self@ == g0,
                k <= n,
                forall|a: int| 0 <= a < k ==> version_lt(#[trigger] g0[a].0, v),
            decreases n - k,
        {
            k = k + 1;
        }
        if k < n && self.groups[k].0 == v {
            let mut list = copy_indices(&self.groups[k].1);
            list.push(i);
            let ghost lv = list@;
            self.groups.set(k, (v, list));
            proof {
                assert(self@ =~= g0.update(k as int, (v, lv)));
                lemma_group_of(g0, k as int);
                assert forall|w: Version| #[trigger] group_of(self@, w) == if w == v {
                    group_of(g0, w).push(i)
                } else {
                    group_of(g0, w)
                } by {
                    lemma_group_of(self@, k as int);
                    if w != v {
                        if exists|a: int| 0 <= a < g0.len() && #[trigger] g0[a].0 == w {
                            let a = choose|a: int| 0 <= a < g0.len() && #[trigger] g0[a].0 == w;
                            lemma_group_of(g0, a);
                            lemma_group_of(self@, a);
                        }
                        if exists|a: int| 0 <= a < self@.len() && #[trigger] self@[a].0 == w {
                            let a = choose|a: int| 0 <= a < self@.len() && #[trigger] self@[a].0 == w;
                            assert(g0[a].0 == w);
                        }
                    }
                }
            }
        } else {
            let mut list: Vec<usize> = Vec::new();
            list.push(i);
            let ghost lv = list@;
            proof {
                if k < n {
                    assert(!version_lt(g0[k as int].0, v));
                    assert(g0[k as int].0 != v);
                    assert(version_lt(v, g0[k as int].0));
                }
                assert forall|a: int| 0 <= a < g0.len() implies (#[trigger] g0[a]).0 != v by {
                    if a > k {
                        assert(version_lt(g0[k as int].0, g0[a].0));
                    }
                }
            }
            self.groups.insert(k, (v, list));
            proof {
                assert(self@ =~= g0.insert(k as int, (v, lv)));
                assert forall|a: int, b: int| 0 <= a < b < self@.len() implies version_lt(
                    #[trigger] self@[a].0,
                    #[trigger] self@[b].0,
                ) by {
                    if b < k {
                    } else if b == k {
                    } else if a < k {
                        assert(self@[b] == g0[b - 1]);
                        if k < n {
                            assert(version_lt(v, g0[k as int].0));
                        }
                    } else if a == k {
                        assert(self@[b] == g0[b - 1]);
                        assert(version_lt(v, g0[k as int].0));
                    } else {
                        assert(self@[a] == g0[a - 1]);
                        assert(self@[b] == g0[b - 1]);
                    }
                }
                assert forall|w: Version| #[trigger] group_of(self@, w) == if w == v {
                    group_of(g0, w).push(i)
                } else {
                    group_of(g0, w)
                } by {
                    lemma_group_of(self@, k as int);
                    if w == v {
                        assert(lv =~= Seq::<usize>::empty().push(i));
                    } else {
                        if exists|a: int| 0 <= a < g0.len() && #[trigger] g0[a].0 == w {
                            let a = choose|a: int| 0 <= a < g0.len() && #[trigger] g0[a].0 == w;
                            lemma_group_of(g0, a);
                            if a < k {
                                lemma_group_of(self@, a);
                            } else {
                                assert(self@[a + 1] == g0[a]);
                                lemma_group_of(self@, a + 1);
                            }
                        }
                        if exists|a: int| 0 <= a < self@.len() && #[trigger] self@[a].0 == w {
                            let a = choose|a: int| 0 <= a < self@.len() && #[trigger] self@[a].0 == w;
                            if a < k {
                                assert(g0[a].0 == w);
                            } else if a > k {
                                assert(g0[a - 1].0 == w);
                            }
                        }
                    }
                }
            }
        }
    }
}

/// A copy of a list of indices.
fn copy_indices(v: &Vec<usize>) -> (res: Vec<usize>)
    ensures
        res@ == v@,
{
    let mut res: Vec<usize> = Vec::new();
    let mut k: usize = 0;
    while k < v.len()
        invariant
            k <= v@.len(),
            res@ == v@.take(k as int),
        decreases v@.len() - k,
    {
        res.push(v[k]);
        k = k + 1;
        proof {
            assert(res@ =~= v@.take(k as int));
        }
    }
    proof {
        assert(v@.take(v@.len() as int) =~= v@);
    }
    res
}

} // verus!

verus! {

/// The packages among the first `n` that the range skips, in order.
pub open spec fn skipped_packages(steps: Seq<Version>, msrvs: Seq<Option<Version>>, n: int) -> Seq<usize>
    decreases n,
{
    if n <= 0 {
        Seq::empty()
    } else if skipped(steps, msrvs, n - 1) {
        skipped_packages(steps, msrvs, n - 1).push((n - 1) as usize)
    } else {
        skipped_packages(steps, msrvs, n - 1)
    }
}

/// Whether package `i` has been added to the list of `w` after the first
/// `k` versions of the range.
pub open spec fn added_after(steps: Seq<Version>, m: Option<Version>, k: int, w: Version) -> bool {
    (exists|j: int| 0 <= j < k && #[trigger] steps[j] == w && match m {
        Some(m) => !version_lt(w, m),
        None => true,
    }) || (m == Some(w) && exists|j: int| 0 <= j < k && !version_lt(#[trigger] steps[j], w))
}

/// Groups the packages by the Rust versions they are run with: each
/// package with each version of the range from its minimum on, and with
/// the minimum itself where the range skips it; also the packages the range
/// skips altogether. `steps` are the versions of the range, in order.
pub fn group_by_version(steps: &Vec<Version>, msrvs: &Vec<Option<Version>>) -> (res: (
    VersionGroups,
    Vec<usize>,
))
    requires
        steps@.len() > 0,
        forall|a: int, b: int| 0 <= a < b < steps@.len() ==> version_lt(#[trigger] steps@[a], #[trigger] steps@[b]),
    ensures
        versions_sorted(res.0@),
        forall|v: Version| #[trigger] group_of(res.0@, v) == packages_with(steps@, msrvs@, msrvs@.len() as int, v),
        res.1@ == skipped_packages(steps@, msrvs@, msrvs@.len() as int),
{
    let mut groups = VersionGroups::new();
    let mut skipped_list: Vec<usize> = Vec::new();
    let mut i: usize = 0;
    proof {
        assert forall|v: Version| #[trigger] group_of(groups@, v) == packages_with(steps@, msrvs@, 0, v) by {
            assert(!(exists|a: int| 0 <= a < groups@.len() && #[trigger] groups@[a].0 == v));
        }
    }
    while i < msrvs.len()
        invariant
            i <= msrvs@.len(),
            steps@.len() > 0,
            forall|a: int, b: int| 0 <= a < b < steps@.len() ==> version_lt(#[trigger] steps@[a], #[trigger] steps@[b]),
            versions_sorted(groups@),
            forall|v: Version| #[trigger] group_of(groups@, v) == packages_with(steps@, msrvs@, i as int, v),
            skipped_list@ == skipped_packages(steps@, msrvs@, i as int),
        decreases msrvs@.len() - i,
    {
        let m = msrvs[i];
        let ghost base = groups@;
        let mut seen = false;
        let mut k: usize = 0;
        while k < steps.len()
            invariant
                k <= steps@.len(),
                i < msrvs@.len(),
                m == msrvs@[i as int],
                forall|a: int, b: int| 0 <= a < b < steps@.len() ==> version_lt(#[trigger] steps@[a], #[trigger] steps@[b]),
                versions_sorted(groups@),
                seen == exists|j: int| 0 <= j < k && match m {
                    Some(m) => !version_lt(#[trigger] steps@[j], m),
                    None => true,
                },
                forall|w: Version| #[trigger] group_of(groups@, w) == if added_after(steps@, m, k as int, w) {
                    group_of(base, w).push(i)
                } else {
                    group_of(base, w)
                },
            decreases steps@.len() - k,
        {
            let s = steps[k];
            let below = match m {
                Some(mm) => version_less(&s, &mm),
                None => false,
            };
            let ghost before = groups@;
            if !below {
                if !seen {
                    match m {
                        Some(mm) => {
                            if !(s == mm) {
                                groups.add(mm, i);
                            }
                        },
                        None => {},
                    }
                    seen = true;
                }
                groups.add(s, i);
            }
            proof {
                assert forall|w: Version| #[trigger] group_of(groups@, w) == if added_after(steps@, m, k + 1, w) {
                    group_of(base, w).push(i)
                } else {
                    group_of(base, w)
                } by {
                    if added_after(steps@, m, k + 1, w) && !added_after(steps@, m, k as int, w) {
                        if exists|j: int| 0 <= j < k && #[trigger] steps@[j] == w && match m {
                            Some(m) => !version_lt(w, m),
                            None => true,
                        } {
                        }
                    }
                    if added_after(steps@, m, k as int, w) {
                        if exists|j: int| 0 <= j < k && #[trigger] steps@[j] == w && match m {
                            Some(m) => !version_lt(w, m),
                            None => true,
                        } {
                            let j = choose|j: int| 0 <= j < k && #[trigger] steps@[j] == w && match m {
                                Some(m) => !version_lt(w, m),
                                None => true,
                            };
                            assert(version_lt(steps@[j], steps@[k as int]));
                        } else {
                            let j = choose|j: int| 0 <= j < k && !version_lt(#[trigger] steps@[j], w);
                            assert(version_lt(steps@[j], steps@[k as int]));
                        }
                    }
                    if !below && w == s {
                        assert(steps@[k as int] == w);
                    }
                    if !below && m == Some(w) {
                        assert(!version_lt(steps@[k as int], w));
                        if seen && s != w {
                        }
                    }
                }
            }
            k = k + 1;
        }
        proof {
            assert forall|w: Version| #[trigger] group_of(groups@, w) == packages_with(steps@, msrvs@, i + 1, w) by {
                if added_after(steps@, m, steps@.len() as int, w) {
                    if exists|j: int| 0 <= j < steps@.len() && #[trigger] steps@[j] == w && match m {
                        Some(m) => !version_lt(w, m),
                        None => true,
                    } {
                        let j = choose|j: int| 0 <= j < steps@.len() && #[trigger] steps@[j] == w && match m {
                            Some(m) => !version_lt(w, m),
                            None => true,
                        };
                        assert(steps@.contains(w));
                    }
                }
                if runs_with(steps@, msrvs@, i as int, w) {
                    if steps@.contains(w) && match msrvs@[i as int] {
                        Some(m) => !version_lt(w, m),
                        None => true,
                    } {
                        let j = choose|j: int| 0 <= j < steps@.len() && steps@[j] == w;
                        assert(steps@[j] == w);
                    }
                }
            }
        }
        if !seen {
            skipped_list.push(i);
            proof {
                if m is None {
                    let w = steps@[0];
                    assert(0 <= 0 < steps@.len() && match m {
                        Some(m) => !version_lt(steps@[0], m),
                        None => true,
                    });
                    assert(false);
                }
            }
        } else {
            proof {
                let j = choose|j: int| 0 <= j < steps@.len() && match m {
                    Some(m) => !version_lt(#[trigger] steps@[j], m),
                    None => true,
                };
                assert(!skipped(steps@, msrvs@, i as int));
            }
        }
        i = i + 1;
    }
    (groups, skipped_list)
}

} // verus!

verus! {

/// Whether all the `--target`s go to one run of cargo: cargo before 1.64
/// takes one `--target` per run.
pub open spec fn targets_together(minor: u32, targets: int) -> bool {
    targets == 0 || minor >= 64
}

/// Whether cargo of the minor version `minor` is given all the `targets`
/// targets in one run (see `targets_together`).
pub fn all_targets_at_once(minor: u32, targets: usize) -> (res: bool)
    ensures
        res == targets_together(minor, targets as int),
{
    targets == 0 || minor >= 64
}

/// The groups of `--target`s that the runs go through, in order: all the
/// targets at once where they go together, else one target at a time.
pub open spec fn spec_target_passes(minor: u32, targets: Seq<Seq<char>>) -> Seq<Seq<Seq<char>>> {
    if targets_together(minor, targets.len() as int) {
        seq![targets]
    } else {
        targets.map_values(|t: Seq<char>| seq![t])
    }
}

/// The groups of `--target`s that the runs go through (see
/// `spec_target_passes`).
pub fn target_passes(minor: u32, targets: &Vec<String>) -> (res: Vec<Vec<String>>)
    ensures
        res@.map_values(|p: Vec<String>| views(p@)) == spec_target_passes(minor, views(targets@)),
{
    let mut res: Vec<Vec<String>> = Vec::new();
    if all_targets_at_once(minor, targets.len()) {
        res.push(crate::feature_map::clone_strings(targets));
        proof {
            assert(res@.map_values(|p: Vec<String>| views(p@)) =~= spec_target_passes(minor, views(targets@)));
        }
        return res;
    }
    let ghost goal = spec_target_passes(minor, views(targets@));
    let mut i: usize = 0;
    while i < targets.len()
        invariant
            i <= targets@.len(),
            !targets_together(minor, targets@.len() as int),
            goal == views(targets@).map_values(|t: Seq<char>| seq![t]),
            res@.map_values(|p: Vec<String>| views(p@)) == goal.take(i as int),
        decreases targets.len() - i,
    {
        let mut one: Vec<String> = Vec::new();
        one.push(crate::feature_map::clone_string(&targets[i]));
        let ghost before = res@.map_values(|p: Vec<String>| views(p@));
        res.push(one);
        proof {
            assert(views(one@) =~= seq![targets@[i as int]@]);
            assert(res@.map_values(|p: Vec<String>| views(p@)) =~= before.push(goal[i as int]));
            assert(goal.take(i + 1) =~= goal.take(i as int).push(goal[i as int]));
        }
        i = i + 1;
    }
    proof {
        assert(goal.take(targets@.len() as int) =~= goal);
    }
    res
}

/// The runs of a package with one Rust version: where the targets do not
/// go together, each target is a run of its own.
pub open spec fn runs_for_version(feature_count: int, minor: u32, targets: int) -> int {
    if targets_together(minor, targets) {
        feature_count
    } else {
        feature_count * targets
    }
}

/// The runs of the packages of a list.
pub open spec fn runs_of_packages(pkgs: Seq<usize>, counts: Seq<usize>, minor: u32, targets: int) -> int
    decreases pkgs.len(),
{
    if pkgs.len() == 0 {
        0
    } else {
        runs_of_packages(pkgs.drop_last(), counts, minor, targets) + runs_for_version(
            counts[pkgs.last() as int] as int,
            minor,
            targets,
        )
    }
}

/// The runs of all versions.
pub open spec fn total_of(g: GroupsView, counts: Seq<usize>, targets: int) -> int
    decreases g.len(),
{
    if g.len() == 0 {
        0
    } else {
        total_of(g.drop_last(), counts, targets) + runs_of_packages(g.last().1, counts, g.last().0.minor, targets)
    }
}

/// The number of runs of cargo over all versions; `feature_counts[i]` are
/// the runs of package `i` with one version, and `targets` the number of
/// `--target`s. Where the number does not fit, it is `usize::MAX`.
pub fn total_runs(groups: &VersionGroups, feature_counts: &Vec<usize>, targets: usize) -> (res: usize)
    requires
        forall|a: int, b: int|
            0 <= a < groups@.len() && 0 <= b < groups@[a].1.len() ==> #[trigger] groups@[a].1[b]
                < feature_counts@.len(),
    ensures
        res == (if total_of(groups@, feature_counts@, targets as int) > usize::MAX {
            usize::MAX
        } else {
            total_of(groups@, feature_counts@, targets as int) as usize
        }),
{
    let entries = groups.entries();
    let ghost g = groups@;
    let mut total: u128 = 0;
    let mut saturated = false;
    let mut a: usize = 0;
    while a < entries.len()
        invariant
            a <= entries@.len(),
            g == groups@,
            entries@.map_values(|e: (Version, Vec<usize>)| (e.0, e.1@)) == g,
            forall|x: int, y: int|
                0 <= x < g.len() && 0 <= y < g[x].1.len() ==> #[trigger] g[x].1[y] < feature_counts@.len(),
            !saturated ==> total == total_of(g.take(a as int), feature_counts@, targets as int),
            !saturated ==> total <= usize::MAX,
            saturated ==> total_of(g.take(a as int), feature_counts@, targets as int) > usize::MAX,
            total_of(g.take(a as int), feature_counts@, targets as int) >= 0,
        decreases entries@.len() - a,
    {
        let minor = entries[a].0.minor;
        let pkgs = &entries[a].1;
        proof {
            assert(g.take(a + 1).drop_last() =~= g.take(a as int));
            assert(g[a as int] == (entries@[a as int].0, entries@[a as int].1@));
        }
        let mut sum: u128 = 0;
        let mut b: usize = 0;
        let mut over = false;
        while b < pkgs.len()
            invariant
                b <= pkgs@.len(),
                pkgs@ == g[a as int].1,
                0 <= a < g.len(),
                minor == g[a as int].0.minor,
                forall|x: int, y: int|
                    0 <= x < g.len() && 0 <= y < g[x].1.len() ==> #[trigger] g[x].1[y] < feature_counts@.len(),
                !over ==> sum == runs_of_packages(pkgs@.take(b as int), feature_counts@, minor, targets as int),
                !over ==> sum <= usize::MAX,
                over ==> runs_of_packages(pkgs@.take(b as int), feature_counts@, minor, targets as int) > usize::MAX,
                runs_of_packages(pkgs@.take(b as int), feature_counts@, minor, targets as int) >= 0,
            decreases pkgs@.len() - b,
        {
            proof {
                assert(pkgs@.take(b + 1).drop_last() =~= pkgs@.take(b as int));
                assert(g[a as int].1[b as int] < feature_counts@.len());
            }
            let c = feature_counts[pkgs[b]] as u128;
            proof {
                assert(c * targets <= 0xffff_ffff_ffff_ffffu128 * 0xffff_ffff_ffff_ffffu128)
                    by (nonlinear_arith)
                    requires
                        c <= 0xffff_ffff_ffff_ffffu128,
                        targets <= 0xffff_ffff_ffff_ffffu128,
                        c >= 0,
                        targets >= 0,
                ;
                assert(c * targets >= 0) by (nonlinear_arith)
                    requires
                        c >= 0,
                        targets >= 0,
                ;
            }
            let runs: u128 = if targets == 0 || minor >= 64 {
                c
            } else {
                c * targets as u128
            };
            if !over {
                if runs > usize::MAX as u128 {
                    over = true;
                } else {
                    sum = sum + runs;
                    if sum > usize::MAX as u128 {
                        over = true;
                    }
                }
            }
            b = b + 1;
        }
        proof {
            assert(pkgs@.take(pkgs@.len() as int) =~= pkgs@);
        }
        if over {
            saturated = true;
        }
        if !saturated {
            total = total + sum;
            if total > usize::MAX as u128 {
                saturated = true;
            }
        }
        a = a + 1;
    }
    proof {
        assert(g.take(entries@.len() as int) =~= g);
    }
    if saturated {
        usize::MAX
    } else {
        total as usize
    }
}

/// Whether the lockfile is still to be generated before the next run, and
/// whether it is to be generated again once a cargo of 1.51 or later runs.
#[derive(Clone, Copy, PartialEq, Eq, Structural, Debug)]
pub struct Lockfile {
    pub generate: bool,
    pub regenerate_on_51_or_up: bool,
}

impl Lockfile {
    /// The lockfile is generated first with the oldest cargo where that is
    /// older than 1.60, unless it is locked.
    pub fn new(locked: bool, oldest_minor: u32) -> (res: Lockfile)
        ensures
            res.generate == (!locked && oldest_minor < 60),
            !res.regenerate_on_51_or_up,
    {
        Lockfile { generate: !locked && oldest_minor < 60, regenerate_on_51_or_up: false }
    }

    /// Before the runs with cargo `1.<minor>`: whether to generate the
    /// lockfile now; after a cargo older than 1.51 an unlocked lockfile is
    /// generated again with the next cargo of 1.51 or later.
    pub fn before_runs(&mut self, minor: u32, locked: bool) -> (res: bool)
        ensures
            res == (old(self).generate || (old(self).regenerate_on_51_or_up && minor >= 51)),
            final(self).generate == (if res {
                false
            } else {
                old(self).generate
            }),
            final(self).regenerate_on_51_or_up == ((!res && old(self).regenerate_on_51_or_up) || (
            !locked && minor < 51)),
    {
        let run = self.generate || (self.regenerate_on_51_or_up && minor >= 51);
        if run {
            self.generate = false;
            self.regenerate_on_51_or_up = false;
        }
        if !locked && minor < 51 {
            self.regenerate_on_51_or_up = true;
        }
        run
    }
}

} // verus!

verus! {

/// A package that the range skips runs with no version; every other
/// package runs with some version.
pub proof fn lemma_skipped_runs_with_none(steps: Seq<Version>, msrvs: Seq<Option<Version>>, i: int)
    requires
        0 <= i < msrvs.len(),
        steps.len() > 0,
    ensures
        skipped(steps, msrvs, i) ==> forall|v: Version| !#[trigger] runs_with(steps, msrvs, i, v),
        !skipped(steps, msrvs, i) ==> exists|v: Version| #[trigger] runs_with(steps, msrvs, i, v),
{
    if skipped(steps, msrvs, i) {
        let m = msrvs[i]->0;
        assert forall|v: Version| !#[trigger] runs_with(steps, msrvs, i, v) by {
            if steps.contains(v) {
                let k = choose|k: int| 0 <= k < steps.len() && steps[k] == v;
                assert(version_lt(steps[k], m));
            }
            if msrvs[i] == Some(v) {
                assert forall|k: int| 0 <= k < steps.len() implies version_lt(#[trigger] steps[k], v) by {}
            }
        }
    } else {
        match msrvs[i] {
            None => {
                assert(steps.contains(steps[0]));
                assert(runs_with(steps, msrvs, i, steps[0]));
            },
            Some(m) => {
                let k = choose|k: int| 0 <= k < steps.len() && !version_lt(#[trigger] steps[k], m);
                assert(steps.contains(steps[k]));
                assert(runs_with(steps, msrvs, i, steps[k]));
            },
        }
    }
}

} // verus!
