//! Planning the runs of cargo: which feature combinations each package is
//! run with, how they are counted and split into partitions, and how
//! failures are reported.

use vstd::prelude::*;

use vstd::arithmetic::div_mod::{lemma_div_pos_is_pos, lemma_fundamental_div_mod};

use crate::error::Error;
use crate::features::{spec_feature_powerset, Feature, Features};
use crate::metadata::PackageId;
use crate::feature_map::{clone_strings, entries_view, lemma_keys_unique, FeatureMap, MapView};
use crate::pattern::decimal;
use crate::text::{split_chars, split_on, str_eq, views};
use crate::version::{parse_usize, parse_usize_exec};

verus! {

/// One part of the runs, when they are split into `count` parts: the part
/// with the zero-based `index`.
#[derive(Clone, Copy, PartialEq, Eq, Structural, Debug)]
pub struct Partition {
    pub index: usize,
    pub count: usize,
}

/// How a partition `m/n` is read: two numbers separated by `/`, with
/// `0 < m <= n`; part `m` of `n` has the index `m - 1`.
pub open spec fn spec_partition(s: Seq<char>) -> Option<Partition> {
    let parts = split_on(s, '/');
    if parts.len() != 2 {
        None
    } else {
        match (parse_usize(parts[0]), parse_usize(parts[1])) {
            (Ok(m), Ok(n)) => if 0 < m && m <= n {
                Some(Partition { index: (m - 1) as usize, count: n })
            } else {
                None
            },
            _ => None,
        }
    }
}

impl Partition {
    /// Reads a partition `m/n`.
    pub fn from_str(s: &str) -> (res: Result<Partition, Error>)
        ensures
            match res {
                Ok(p) => spec_partition(s@) == Some(p),
                Err(e) => spec_partition(s@) is None && e@ == "bad or out-of-range partition: "@
                    + s@,
            },
    {
        let parts = split_chars(s, '/');
        if parts.len() == 2 {
            let m = parse_usize_exec(parts[0].as_str());
            let n = parse_usize_exec(parts[1].as_str());
            proof {
                assert(views(parts@)[0] == parts@[0]@);
                assert(views(parts@)[1] == parts@[1]@);
            }
            match (m, n) {
                (Ok(m), Ok(n)) => {
                    if 0 < m && m <= n {
                        return Ok(Partition { index: m - 1, count: n });
                    }
                },
                _ => {},
            }
        }
        let mut msg = String::from_str("bad or out-of-range partition: ");
        msg.append(s);
        Err(Error::msg(msg))
    }
}

/// The number of runs planned and the number done so far.
#[derive(Clone, Copy, PartialEq, Eq, Structural, Debug)]
pub struct Progress {
    pub total: usize,
    pub count: usize,
}

/// The size of each part when `total` runs are split into `parts` parts:
/// `total / parts`, rounded up.
pub open spec fn chunk_size(total: int, parts: int) -> int {
    if total % parts == 0 {
        total / parts
    } else {
        total / parts + 1
    }
}

/// Each part holds at least one run, and no more than there are.
proof fn lemma_chunk_size(total: int, parts: int)
    requires
        total > 0,
        parts > 0,
    ensures
        1 <= chunk_size(total, parts) <= total,
{
    let q = total / parts;
    let r = total % parts;
    lemma_fundamental_div_mod(total, parts);
    assert(0 <= r < parts);
    assert(q >= 0) by {
        lemma_div_pos_is_pos(total, parts);
    }
    assert(q <= parts * q) by (nonlinear_arith)
        requires
            q >= 0,
            parts >= 1,
    ;
    if r == 0 {
        assert(q >= 1) by (nonlinear_arith)
            requires
                total == parts * q,
                total > 0,
                q >= 0,
        ;
    }
}

impl Progress {
    /// No runs yet.
    pub fn new() -> (res: Progress)
        ensures
            res.total == 0,
            res.count == 0,
    {
        Progress { total: 0, count: 0 }
    }

    /// Whether the next run, the one after `count` runs, belongs to the
    /// partition: the runs are split into parts of `total / count` (rounded
    /// up) runs each.
    pub fn in_partition(&self, partition: &Partition) -> (res: bool)
        requires
            partition.count > 0,
            self.total > 0,
        ensures
            res == ((self.count as int) / chunk_size(self.total as int, partition.count as int)
                == partition.index),
    {
        proof {
            lemma_chunk_size(self.total as int, partition.count as int);
        }
        let mut chunk_count = self.total / partition.count;
        if self.total % partition.count != 0 {
            chunk_count += 1;
        }
        let current_index = self.count / chunk_count;
        current_index == partition.index
    }
}

/// Where to print the log of a run: plainly, or in the groups of GitHub
/// Actions.
#[derive(Clone, Copy, PartialEq, Eq, Structural, Debug)]
pub enum LogGroup {
    Plain,
    GithubActions,
}

impl LogGroup {
    /// Groups where the run is on GitHub Actions.
    pub fn auto(on_github_actions: bool) -> (res: LogGroup)
        ensures
            res == (if on_github_actions {
                LogGroup::GithubActions
            } else {
                LogGroup::Plain
            }),
    {
        if on_github_actions {
            LogGroup::GithubActions
        } else {
            LogGroup::Plain
        }
    }

    /// Reads the argument of `--log-group`.
    pub fn from_str(s: &str) -> (res: Result<LogGroup, Error>)
        ensures
            s@ == "none"@ ==> res matches Ok(LogGroup::Plain),
            s@ == "github-actions"@ ==> res matches Ok(LogGroup::GithubActions),
            s@ != "none"@ && s@ != "github-actions"@ ==> (res matches Err(e) && e@
                == "argument for --log-group must be none or github-actions, but found `"@ + s@
                + "`"@),
    {
        proof {
            reveal_strlit("none");
            reveal_strlit("github-actions");
            assert("none"@.len() == 4);
            assert("github-actions"@ != "none"@);
        }
        if str_eq(s, "none") {
            Ok(LogGroup::Plain)
        } else if str_eq(s, "github-actions") {
            Ok(LogGroup::GithubActions)
        } else {
            let mut msg = String::from_str(
                "argument for --log-group must be none or github-actions, but found `",
            );
            msg.append(s);
            msg.append("`");
            Err(Error::msg(msg))
        }
    }
}

/// The failures of `--keep-going`: how many commands failed, and which,
/// by package name.
pub struct KeepGoing {
    pub count: u64,
    pub failed_commands: FeatureMap,
}

/// The report of the failures: a line with the count, and each package
/// with its failed commands, indented.
pub open spec fn keep_going_text(count: u64, failed: Seq<(Seq<char>, Seq<Seq<char>>)>) -> Seq<char> {
    "failed to run "@ + decimal(count as nat) + " commands\n\nfailed commands:\n"@ + packages_text(
        failed,
    )
}

/// The failed commands of each package, in order.
pub open spec fn packages_text(failed: Seq<(Seq<char>, Seq<Seq<char>>)>) -> Seq<char>
    decreases failed.len(),
{
    if failed.len() == 0 {
        Seq::empty()
    } else {
        packages_text(failed.drop_last()) + "    "@ + failed.last().0 + ":\n"@ + commands_text(
            failed.last().1,
        )
    }
}

/// The commands, one per line, indented.
pub open spec fn commands_text(cmds: Seq<Seq<char>>) -> Seq<char>
    decreases cmds.len(),
{
    if cmds.len() == 0 {
        Seq::empty()
    } else {
        commands_text(cmds.drop_last()) + "        "@ + cmds.last() + "\n"@
    }
}

/// The list that `m` maps `k` to, or an empty list where it has no entry
/// for `k`.
pub open spec fn list_of(m: MapView, k: Seq<char>) -> Seq<Seq<char>> {
    if exists|i: int| 0 <= i < m.len() && #[trigger] m[i].0 == k {
        m[choose|i: int| 0 <= i < m.len() && #[trigger] m[i].0 == k].1
    } else {
        Seq::empty()
    }
}

impl KeepGoing {
    /// No failures yet.
    pub fn new() -> (res: KeepGoing)
        ensures
            res.count == 0,
            res.failed_commands@ == MapView::empty(),
            res.failed_commands.wf(),
    {
        KeepGoing { count: 0, failed_commands: FeatureMap::new() }
    }

    /// After a run of cargo that `failed` or not: with `--keep-going` a
    /// failure is recorded and the runs go on; without it a failure stops
    /// them (the result is whether to stop). A run that did not fail
    /// changes nothing.
    pub fn settle(&mut self, keep_going: bool, failed: bool, name: &str, cmd: String) -> (stop: bool)
        requires
            old(self).failed_commands.wf(),
        ensures
            stop == (failed && !keep_going),
            final(self).failed_commands.wf(),
            !(failed && keep_going) ==> *final(self) == *old(self),
            failed && keep_going ==> final(self).count == (if old(self).count == u64::MAX {
                u64::MAX
            } else {
                (old(self).count + 1) as u64
            }) && exists|i: int|
                0 <= i < final(self).failed_commands@.len() && #[trigger] final(self).failed_commands@[i] == (
                    name@,
                    list_of(old(self).failed_commands@, name@).push(cmd@),
                ),
    {
        if failed && keep_going {
            self.record(name, cmd);
        }
        failed && !keep_going
    }

    /// Records that the command `cmd` of the package `name` failed.
    pub fn record(&mut self, name: &str, cmd: String)
        requires
            old(self).failed_commands.wf(),
        ensures
            final(self).count == (if old(self).count == u64::MAX {
                u64::MAX
            } else {
                (old(self).count + 1) as u64
            }),
            final(self).failed_commands.wf(),
            exists|i: int|
                0 <= i < final(self).failed_commands@.len()
                    && #[trigger] final(self).failed_commands@[i]
                    == (name@, list_of(old(self).failed_commands@, name@).push(cmd@)),
            forall|j: int|
                0 <= j < old(self).failed_commands@.len()
                    && (#[trigger] old(self).failed_commands@[j]).0 != name@
                    ==> final(self).failed_commands@.contains(old(self).failed_commands@[j]),
            forall|j: int|
                0 <= j < final(self).failed_commands@.len()
                    && (#[trigger] final(self).failed_commands@[j]).0 != name@
                    ==> old(self).failed_commands@.contains(final(self).failed_commands@[j]),
    {
        self.count = self.count.saturating_add(1);
        let ghost before = self.failed_commands@;
        let mut list: Vec<String> = match self.failed_commands.get(name) {
            Some(l) => {
                proof {
                    let i = choose|i: int|
                        0 <= i < before.len() && #[trigger] before[i].0 == name@ && views(l@)
                            == before[i].1;
                    let c = choose|c: int| 0 <= c < before.len() && #[trigger] before[c].0 == name@;
                    lemma_keys_unique(before, i, c);
                }
                clone_strings(l)
            },
            None => Vec::new(),
        };
        proof {
            assert(views(list@) == list_of(before, name@));
        }
        let ghost prev = list@;
        list.push(cmd);
        proof {
            assert(views(list@) =~= views(prev).push(list@[prev.len() as int]@));
            assert(views(list@) =~= list_of(before, name@).push(cmd@));
        }
        let key = String::from_str(name);
        let ghost lv = views(list@);
        self.failed_commands.insert(key, list);
        proof {
            let i = choose|i: int|
                0 <= i < self.failed_commands@.len() && #[trigger] self.failed_commands@[i] == (
                key@,
                lv,
            );
            assert(self.failed_commands@[i] == (name@, list_of(before, name@).push(cmd@)));
        }
    }

    /// The report of the failures.
    pub fn text(&self) -> (res: String)
        ensures
            res@ == keep_going_text(self.count, self.failed_commands@),
    {
        let mut out = String::from_str("failed to run ");
        let c = crate::pattern::decimal_string_u64(self.count);
        out.append(c.as_str());
        out.append(" commands\n\nfailed commands:\n");
        let ghost head = out@;
        let entries = self.failed_commands.entries();
        let mut i: usize = 0;
        while i < entries.len()
            invariant
                i <= entries@.len(),
                entries_view(entries@) == self.failed_commands@,
                out@ == head + packages_text(self.failed_commands@.take(i as int)),
            decreases entries@.len() - i,
        {
            let ghost m = self.failed_commands@;
            proof {
                assert(m.take(i + 1).drop_last() =~= m.take(i as int));
                assert(m[i as int] == (entries@[i as int].0@, views(entries@[i as int].1@)));
            }
            out.append("    ");
            out.append(entries[i].0.as_str());
            out.append(":\n");
            let cmds = &entries[i].1;
            let ghost mid = out@;
            let mut k: usize = 0;
            while k < cmds.len()
                invariant
                    k <= cmds@.len(),
                    out@ == mid + commands_text(views(cmds@).take(k as int)),
                decreases cmds@.len() - k,
            {
                proof {
                    assert(views(cmds@).take(k + 1).drop_last() =~= views(cmds@).take(k as int));
                }
                out.append("        ");
                out.append(cmds[k].as_str());
                out.append("\n");
                k = k + 1;
            }
            proof {
                assert(views(cmds@).take(cmds@.len() as int) =~= views(cmds@));
            }
            i = i + 1;
        }
        proof {
            assert(self.failed_commands@.take(entries@.len() as int) =~= self.failed_commands@);
        }
        out
    }
}

} // verus!

verus! {

/// The options that decide how each package is run.
pub struct RunOptions {
    /// `--ignore-private`
    pub ignore_private: bool,
    /// `--each-feature`
    pub each_feature: bool,
    /// `--feature-powerset`
    pub feature_powerset: bool,
    /// `--exclude-features`, with the features of `--features`
    pub exclude_features: Vec<String>,
    /// `--group-features`
    pub group_features: Vec<Feature>,
    /// `--include-features`
    pub include_features: Vec<Feature>,
    /// `--optional-deps`
    pub optional_deps: Option<Vec<String>>,
    /// `--include-deps-features`
    pub include_deps_features: bool,
    /// `--ignore-unknown-features`
    pub ignore_unknown_features: bool,
    /// `--exclude-no-default-features`, or implied by other options
    pub exclude_no_default_features: bool,
    /// `--exclude-all-features`, or implied by other options
    pub exclude_all_features: bool,
    /// `--no-default-features`
    pub no_default_features: bool,
    /// `--depth`
    pub depth: Option<usize>,
    /// `--at-least-one-of`
    pub at_least_one_of: Vec<Feature>,
    /// `--mutually-exclusive-features`
    pub mutually_exclusive_features: Vec<Feature>,
}

/// How a package is run: once with its default features, once per
/// feature, or once per combination of features.
#[allow(inconsistent_fields)]
pub enum Kind<'a> {
    Normal,
    Each { features: Vec<&'a Feature> },
    Powerset { features: Vec<Vec<&'a Feature>> },
}

/// The runs of a package, and how many runs of cargo they make.
pub struct PackageRuns<'a> {
    pub id: PackageId,
    pub kind: Kind<'a>,
    pub feature_count: usize,
}

/// References to the features of `s` from `from` up to `to`.
pub open spec fn refs_of<'a>(s: Seq<Feature>, from: int, to: int) -> Seq<&'a Feature> {
    Seq::new((to - from) as nat, |i: int| &s[from + i])
}

/// The features that `--exclude-features` and `--group-features` leave
/// out: those named by the first, and the members of the groups.
pub open spec fn filtered_out(cx: RunOptions, f: Feature) -> bool {
    views(cx.exclude_features@).contains(f.name_view()) || exists|k: int|
        0 <= k < cx.group_features@.len() && (#[trigger] cx.group_features@[k]).group_view().contains(
            f.name_view(),
        )
}

/// The features that are not left out.
pub open spec fn keep_fn<'a>(cx: RunOptions) -> spec_fn(&'a Feature) -> bool {
    |f: &'a Feature| !filtered_out(cx, *f)
}

/// The features of optional dependencies that are run: those not left
/// out, and among the dependencies `od` names, where it names any.
pub open spec fn opt_dep_fn<'a>(cx: RunOptions, od: Seq<Seq<char>>) -> spec_fn(&'a Feature) -> bool {
    |f: &'a Feature| !filtered_out(cx, *f) && (od.len() == 0 || od.contains(f.name_view()))
}

/// The groups whose every member is a feature of `known`.
pub open spec fn valid_group_fn<'a>(known: Seq<Feature>) -> spec_fn(&'a Feature) -> bool {
    |g: &'a Feature|
        forall|m: Seq<char>|
            #[trigger] g.group_view().contains(m) ==> exists|k: int|
                0 <= k < known.len() && (#[trigger] known[k]).group_view().contains(m)
}

/// The features a package is run with, one by one or combined: without
/// `--include-features`, its own features, the features of the optional
/// dependencies with `--optional-deps`, the features of dependencies with
/// `--include-deps-features` (each without those left out), then the
/// groups (without those naming an unknown feature, with
/// `--ignore-unknown-features`); else the included features not left out.
pub open spec fn spec_selected<'a>(
    cx: RunOptions,
    cxr: &'a RunOptions,
    pf: (Seq<Feature>, nat, nat),
) -> Seq<&'a Feature> {
    let fs = pf.0;
    let o = pf.1 as int;
    let d = pf.2 as int;
    if cx.include_features@.len() == 0 {
        let normal = refs_of::<'a>(fs, 0, o).filter(keep_fn::<'a>(cx));
        let opt = match cx.optional_deps {
            Some(od) => refs_of::<'a>(fs, o, d).filter(opt_dep_fn::<'a>(cx, views(od@))),
            None => Seq::empty(),
        };
        let deps = if cx.include_deps_features {
            refs_of::<'a>(fs, d, fs.len() as int).filter(keep_fn::<'a>(cx))
        } else {
            Seq::empty()
        };
        let all_groups = refs_of::<'a>(cxr.group_features@, 0, cxr.group_features@.len() as int);
        let groups = if cx.ignore_unknown_features {
            all_groups.filter(valid_group_fn::<'a>(fs.subrange(0, d)))
        } else {
            all_groups
        };
        normal + opt + deps + groups
    } else {
        refs_of::<'a>(cxr.include_features@, 0, cxr.include_features@.len() as int).filter(
            keep_fn::<'a>(cx),
        )
    }
}

/// `x`, where it fits in a `usize`, else `usize::MAX`.
pub open spec fn saturated(x: int) -> usize {
    if x > usize::MAX {
        usize::MAX
    } else {
        x as usize
    }
}

/// One for a true condition.
pub open spec fn one_if(b: bool) -> int {
    if b {
        1
    } else {
        0
    }
}

/// Appends the references to those features of `src` that `keep` keeps.
fn push_kept<'a>(
    out: &mut Vec<&'a Feature>,
    src: &'a [Feature],
    Ghost(keep): Ghost<spec_fn(&'a Feature) -> bool>,
    cx: &RunOptions,
    mode: u8,
    od: &Vec<String>,
    known: &[Feature],
)
    requires
        mode <= 2,
        mode == 0 ==> keep == keep_fn::<'a>(*cx),
        mode == 1 ==> keep == opt_dep_fn::<'a>(*cx, views(od@)),
        mode == 2 ==> keep == valid_group_fn::<'a>(known@),
    ensures
        final(out)@ == old(out)@ + refs_of::<'a>(src@, 0, src@.len() as int).filter(keep),
{
    let ghost start = out@;
    let ghost all = refs_of::<'a>(src@, 0, src@.len() as int);
    let mut i: usize = 0;
    proof {
        reveal(Seq::filter);
        assert(all.take(0).filter(keep) =~= Seq::<&'a Feature>::empty());
        assert(out@ =~= start + all.take(0).filter(keep));
    }
    while i < src.len()
        invariant
            i <= src@.len(),
            all == refs_of::<'a>(src@, 0, src@.len() as int),
            out@ == start + all.take(i as int).filter(keep),
            mode <= 2,
            mode == 0 ==> keep == keep_fn::<'a>(*cx),
            mode == 1 ==> keep == opt_dep_fn::<'a>(*cx, views(od@)),
            mode == 2 ==> keep == valid_group_fn::<'a>(known@),
        decreases src@.len() - i,
    {
        let f = &src[i];
        proof {
            assert(all.take(i + 1).drop_last() =~= all.take(i as int));
            assert(all.take(i + 1).last() == f);
        }
        let k = if mode == 0 {
            !is_filtered_out(cx, f)
        } else if mode == 1 {
            !is_filtered_out(cx, f) && (od.len() == 0 || contains_name(od, f.name()))
        } else {
            is_valid_group(f, known)
        };
        proof {
            reveal(Seq::filter);
            assert(k == keep(f));
            assert(all.take(i + 1).filter(keep) == (if keep(f) {
                all.take(i as int).filter(keep).push(f)
            } else {
                all.take(i as int).filter(keep)
            }));
        }
        if k {
            out.push(f);
        }
        i = i + 1;
        proof {
            assert(out@ =~= start + all.take(i as int).filter(keep));
        }
    }
    proof {
        assert(all.take(src@.len() as int) =~= all);
    }
}

/// Whether `name` is one of the strings of `list`.
fn contains_name(list: &Vec<String>, name: &str) -> (res: bool)
    ensures
        res == views(list@).contains(name@),
{
    let mut i: usize = 0;
    while i < list.len()
        invariant
            i <= list@.len(),
            forall|k: int| 0 <= k < i ==> views(list@)[k] != name@,
        decreases list@.len() - i,
    {
        if crate::text::string_eq_str(&list[i], name) {
            proof {
                assert(views(list@)[i as int] == name@);
            }
            return true;
        }
        i = i + 1;
    }
    false
}

/// Whether `--exclude-features` or `--group-features` leave `f` out.
fn is_filtered_out(cx: &RunOptions, f: &Feature) -> (res: bool)
    ensures
        res == filtered_out(*cx, *f),
{
    if contains_name(&cx.exclude_features, f.name()) {
        return true;
    }
    let mut k: usize = 0;
    while k < cx.group_features.len()
        invariant
            k <= cx.group_features@.len(),
            !views(cx.exclude_features@).contains(f.name_view()),
            forall|j: int|
                0 <= j < k ==> !(#[trigger] cx.group_features@[j]).group_view().contains(
                    f.name_view(),
                ),
        decreases cx.group_features@.len() - k,
    {
        if cx.group_features[k].matches(f.name()) {
            return true;
        }
        k = k + 1;
    }
    false
}

/// Whether every member of the group `g` is a member of some feature of
/// `known`.
fn is_valid_group(g: &Feature, known: &[Feature]) -> (res: bool)
    ensures
        res == valid_group_fn::<'static>(known@)(g),
{
    let members = g.as_group();
    let mut i: usize = 0;
    while i < members.len()
        invariant
            i <= members@.len(),
            views(members@) == g.group_view(),
            forall|j: int|
                0 <= j < i ==> exists|k: int|
                    0 <= k < known@.len() && (#[trigger] known@[k]).group_view().contains(
                        #[trigger] views(members@)[j],
                    ),
        decreases members@.len() - i,
    {
        let m = members[i].as_str();
        let mut k: usize = 0;
        let mut found = false;
        while k < known.len()
            invariant
                k <= known@.len(),
                !found ==> forall|j: int|
                    0 <= j < k ==> !(#[trigger] known@[j]).group_view().contains(m@),
                found ==> exists|j: int|
                    0 <= j < known@.len() && (#[trigger] known@[j]).group_view().contains(m@),
            decreases known@.len() - k,
        {
            if known[k].matches(m) {
                found = true;
            }
            k = k + 1;
        }
        if !found {
            proof {
                assert(g.group_view().contains(m@)) by {
                    assert(views(members@)[i as int] == m@);
                }
            }
            return false;
        }
        proof {
            assert(views(members@)[i as int] == m@);
        }
        i = i + 1;
    }
    proof {
        assert forall|m: Seq<char>| #[trigger] g.group_view().contains(m) implies exists|k: int|
            0 <= k < known@.len() && (#[trigger] known@[k]).group_view().contains(m) by {
            let j = choose|j: int| 0 <= j < g.group_view().len() && g.group_view()[j] == m;
            assert(views(members@)[j] == m);
        }
    }
    true
}

} // verus!

verus! {

/// Appends references to all the features of `src`.
fn push_all<'a>(out: &mut Vec<&'a Feature>, src: &'a [Feature])
    ensures
        final(out)@ == old(out)@ + refs_of::<'a>(src@, 0, src@.len() as int),
{
    let ghost start = out@;
    let ghost all = refs_of::<'a>(src@, 0, src@.len() as int);
    let mut i: usize = 0;
    while i < src.len()
        invariant
            i <= src@.len(),
            all == refs_of::<'a>(src@, 0, src@.len() as int),
            out@ == start + all.take(i as int),
        decreases src@.len() - i,
    {
        out.push(&src[i]);
        i = i + 1;
        proof {
            assert(out@ =~= start + all.take(i as int));
        }
    }
    proof {
        assert(all.take(src@.len() as int) =~= all);
    }
}

/// References into a part of a sequence are references into the whole.
proof fn lemma_refs_of_subrange(s: Seq<Feature>, from: int, to: int)
    requires
        0 <= from <= to <= s.len(),
    ensures
        refs_of::<'static>(s.subrange(from, to), 0, to - from) == refs_of::<'static>(s, from, to),
{
    assert(refs_of::<'static>(s.subrange(from, to), 0, to - from) =~= refs_of::<'static>(s, from, to));
}

/// The features a package is run with, one by one or combined.
pub fn select_features<'a>(cx: &'a RunOptions, pf: &'a Features) -> (res: Vec<&'a Feature>)
    ensures
        res@ == spec_selected(*cx, cx, pf@),
{
    let mut out: Vec<&'a Feature> = Vec::new();
    let empty: Vec<String> = Vec::new();
    let normal = pf.normal();
    let known = pf.normal_and_optional_deps();
    let ghost fs = pf@.0;
    let ghost o = pf@.1 as int;
    let ghost d = pf@.2 as int;
    if cx.include_features.len() == 0 {
        push_kept(&mut out, normal, Ghost(keep_fn::<'a>(*cx)), cx, 0, &empty, known);
        proof {
            lemma_refs_of_subrange(fs, 0, o);
        }
        let ghost after_normal = out@;
        match &cx.optional_deps {
            Some(od) => {
                let opt = pf.optional_deps();
                push_kept(&mut out, opt, Ghost(opt_dep_fn::<'a>(*cx, views(od@))), cx, 1, od, known);
                proof {
                    lemma_refs_of_subrange(fs, o, d);
                }
            },
            None => {},
        }
        let ghost after_opt = out@;
        if cx.include_deps_features {
            let deps = pf.deps_features();
            push_kept(&mut out, deps, Ghost(keep_fn::<'a>(*cx)), cx, 0, &empty, known);
            proof {
                lemma_refs_of_subrange(fs, d, fs.len() as int);
            }
        }
        let ghost after_deps = out@;
        if cx.ignore_unknown_features {
            push_kept(
                &mut out,
                cx.group_features.as_slice(),
                Ghost(valid_group_fn::<'a>(known@)),
                cx,
                2,
                &empty,
                known,
            );
        } else {
            push_all(&mut out, cx.group_features.as_slice());
        }
        proof {
            let sel = spec_selected(*cx, cx, pf@);
            assert(out@ =~= sel);
        }
    } else {
        push_kept(&mut out, cx.include_features.as_slice(), Ghost(keep_fn::<'a>(*cx)), cx, 0, &empty, known);
        proof {
            assert(out@ =~= spec_selected(*cx, cx, pf@));
        }
    }
    out
}

} // verus!

verus! {

/// A package without features of its own or of optional dependencies, or
/// run with `--include-features`, is run once with its default features
/// when nothing is left to combine.
pub open spec fn runs_normally(cx: RunOptions, pf: (Seq<Feature>, nat, nat), combined: nat) -> bool {
    ((pf.1 == 0 && pf.2 == pf.1) || cx.include_features@.len() > 0) && combined == 0
}

/// Whether `--all-features` is left out for `--each-feature`: asked for,
/// or the package has no optional dependencies and at most one feature.
pub open spec fn each_skips_all(cx: RunOptions, pf: (Seq<Feature>, nat, nat)) -> bool {
    cx.exclude_all_features || (pf.2 == pf.1 && pf.1 <= 1)
}

/// Whether `--all-features` is counted out for `--feature-powerset`: asked
/// for, or no optional dependencies, or all of them already combined.
pub open spec fn powerset_skips_all(cx: RunOptions, pf: (Seq<Feature>, nat, nat)) -> bool {
    cx.exclude_all_features || pf.2 == pf.1 || match cx.optional_deps {
        Some(od) => od@.len() == 0,
        None => false,
    }
}

/// What `determine_kind` gives for a package that is not skipped.
pub open spec fn spec_runs<'a>(
    cx: RunOptions,
    cxr: &'a RunOptions,
    pf: (Seq<Feature>, nat, nat),
    package_features: MapView,
    r: PackageRuns<'a>,
) -> bool {
    if !cx.each_feature && !cx.feature_powerset {
        r.kind is Normal && r.feature_count == 1
    } else if cx.each_feature {
        let sel = spec_selected(cx, cxr, pf);
        if runs_normally(cx, pf, sel.len()) {
            r.kind is Normal && r.feature_count == 1
        } else {
            r.kind matches Kind::Each { features } && features@ == sel && r.feature_count
                == saturated(
                sel.len() + one_if(!cx.exclude_no_default_features) + one_if(!each_skips_all(cx, pf)),
            )
        }
    } else {
        let ps = spec_feature_powerset(
            spec_selected(cx, cxr, pf),
            cx.depth,
            cx.at_least_one_of@,
            cx.mutually_exclusive_features@,
            package_features,
        );
        if runs_normally(cx, pf, ps.len()) {
            r.kind is Normal && r.feature_count == 1
        } else {
            r.kind matches Kind::Powerset { features } && features@.map_values(
                |v: Vec<&'a Feature>| v@,
            ) == ps && r.feature_count == saturated(
                ps.len() + one_if(!cx.exclude_no_default_features) + one_if(
                    !powerset_skips_all(cx, pf),
                ),
            )
        }
    }
}

/// Decides how the package `id` is run: not at all where it is private and
/// private packages are ignored; else once with its default features, or
/// once per feature or feature combination, counting the runs of cargo
/// that `exec_on_package` makes for it.
pub fn determine_kind<'a>(
    cx: &'a RunOptions,
    id: PackageId,
    package_features: &FeatureMap,
    pkg_features: &'a Features,
    is_private: bool,
) -> (res: Option<PackageRuns<'a>>)
    ensures
        res is None <==> (cx.ignore_private && is_private),
        res matches Some(r) ==> r.id == id && spec_runs(*cx, cx, pkg_features@, package_features@, r),
{
    if cx.ignore_private && is_private {
        return None;
    }
    if !cx.each_feature && !cx.feature_powerset {
        return Some(PackageRuns { id, kind: Kind::Normal, feature_count: 1 });
    }
    let features = select_features(cx, pkg_features);
    let no_own = pkg_features.normal().len() == 0 && pkg_features.optional_deps().len() == 0;
    let has_included = cx.include_features.len() > 0;
    let extra_no_default: usize = if cx.exclude_no_default_features {
        0
    } else {
        1
    };
    if cx.each_feature {
        if (no_own || has_included) && features.len() == 0 {
            return Some(PackageRuns { id, kind: Kind::Normal, feature_count: 1 });
        }
        let skip_all = cx.exclude_all_features || (pkg_features.optional_deps().len() == 0
            && pkg_features.normal().len() <= 1);
        let extra_all: usize = if skip_all {
            0
        } else {
            1
        };
        let feature_count = features.len().saturating_add(extra_no_default).saturating_add(
            extra_all,
        );
        Some(PackageRuns { id, kind: Kind::Each { features }, feature_count })
    } else {
        let ps = crate::features::feature_powerset(
            features,
            cx.depth,
            cx.at_least_one_of.as_slice(),
            cx.mutually_exclusive_features.as_slice(),
            package_features,
        );
        if (no_own || has_included) && ps.len() == 0 {
            return Some(PackageRuns { id, kind: Kind::Normal, feature_count: 1 });
        }
        let all_opt_combined = match &cx.optional_deps {
            Some(od) => od.len() == 0,
            None => false,
        };
        let skip_all = cx.exclude_all_features || pkg_features.optional_deps().len() == 0
            || all_opt_combined;
        let extra_all: usize = if skip_all {
            0
        } else {
            1
        };
        let feature_count = ps.len().saturating_add(extra_no_default).saturating_add(extra_all);
        Some(PackageRuns { id, kind: Kind::Powerset { features: ps }, feature_count })
    }
}

/// `specified {what} `{name}` not found in package `{package}``.
pub open spec fn not_found_warning(what: Seq<char>, name: Seq<char>, package: Seq<char>) -> Seq<char> {
    "specified "@ + what + " `"@ + name + "` not found in package `"@ + package + "`"@
}

/// Whether some feature of `fs` is named `name`.
pub open spec fn has_feature_named(fs: Seq<Feature>, name: Seq<char>) -> bool {
    exists|i: int| 0 <= i < fs.len() && (#[trigger] fs[i]).name_view() == name
}

/// The warnings for the names of `names` that no feature of `fs` has, in
/// order.
pub open spec fn missing_warnings(fs: Seq<Feature>, names: Seq<Seq<char>>, what: Seq<char>, package: Seq<char>) -> Seq<
    Seq<char>,
>
    decreases names.len(),
{
    if names.len() == 0 {
        Seq::empty()
    } else if has_feature_named(fs, names.last()) {
        missing_warnings(fs, names.drop_last(), what, package)
    } else {
        missing_warnings(fs, names.drop_last(), what, package).push(not_found_warning(what, names.last(), package))
    }
}

/// The warnings that a package that is run gives, where it is the only
/// package run and its features are chosen from its own: for each name of
/// `--exclude-features` that no feature of the package has, then for each
/// name of `--optional-deps` (unless that is the one empty name) that none
/// of its optional dependencies has.
pub open spec fn spec_feature_warnings(cx: RunOptions, pf: (Seq<Feature>, nat, nat), package: Seq<char>, multiple: bool) -> Seq<
    Seq<char>,
> {
    if !(cx.each_feature || cx.feature_powerset) || cx.include_features.len() > 0 || multiple {
        Seq::empty()
    } else {
        missing_warnings(pf.0, views(cx.exclude_features@), "feature"@, package) + match cx.optional_deps {
            Some(od) => if od@.len() == 1 && od@[0]@.len() == 0 {
                Seq::empty()
            } else {
                missing_warnings(pf.0.subrange(pf.1 as int, pf.2 as int), views(od@), "optional dependency"@, package)
            },
            None => Seq::empty(),
        }
    }
}

/// Whether some feature of `fs` is named `name`.
fn has_named(fs: &[Feature], name: &str) -> (res: bool)
    ensures
        res == has_feature_named(fs@, name@),
{
    let mut i: usize = 0;
    while i < fs.len()
        invariant
            i <= fs@.len(),
            forall|k: int| 0 <= k < i ==> (#[trigger] fs@[k]).name_view() != name@,
        decreases fs@.len() - i,
    {
        if str_eq(fs[i].name(), name) {
            return true;
        }
        i = i + 1;
    }
    false
}

/// Appends the warnings for the names of `names` that no feature of `fs`
/// has.
fn push_missing(fs: &[Feature], names: &Vec<String>, what: &str, package: &str, out: &mut Vec<String>)
    ensures
        views(final(out)@) == views(old(out)@) + missing_warnings(fs@, views(names@), what@, package@),
{
    let ghost start = views(out@);
    let ghost nv = views(names@);
    let mut k: usize = 0;
    proof {
        assert(nv.take(0) =~= Seq::<Seq<char>>::empty());
        assert(start + Seq::<Seq<char>>::empty() =~= start);
    }
    while k < names.len()
        invariant
            k <= names@.len(),
            nv == views(names@),
            views(out@) == start + missing_warnings(fs@, nv.take(k as int), what@, package@),
        decreases names@.len() - k,
    {
        proof {
            assert(nv.take(k + 1).drop_last() =~= nv.take(k as int));
            assert(nv.take(k + 1).last() == names@[k as int]@);
        }
        let ghost before = views(out@);
        if !has_named(fs, names[k].as_str()) {
            let mut w = String::from_str("specified ");
            w.append(what);
            w.append(" `");
            w.append(names[k].as_str());
            w.append("` not found in package `");
            w.append(package);
            w.append("`");
            out.push(w);
            proof {
                assert(views(out@) =~= before.push(w@));
                let m = missing_warnings(fs@, nv.take(k as int), what@, package@);
                assert(start + m.push(w@) =~= (start + m).push(w@));
            }
        }
        k = k + 1;
    }
    proof {
        assert(nv.take(names@.len() as int) =~= nv);
    }
}

/// The warnings for the names of `--exclude-features` and `--optional-deps`
/// that the package `package` does not have (see `spec_feature_warnings`);
/// `multiple` tells whether several packages are run.
pub fn feature_warnings(cx: &RunOptions, pkg_features: &Features, package: &str, multiple: bool) -> (res: Vec<String>)
    ensures
        views(res@) == spec_feature_warnings(*cx, pkg_features@, package@, multiple),
{
    let mut out: Vec<String> = Vec::new();
    proof {
        assert(views(out@) =~= Seq::<Seq<char>>::empty());
    }
    if !(cx.each_feature || cx.feature_powerset) || cx.include_features.len() > 0 || multiple {
        return out;
    }
    push_missing(pkg_features.all(), &cx.exclude_features, "feature", package, &mut out);
    let ghost after_exclude = views(out@);
    match &cx.optional_deps {
        Some(od) => {
            let only_empty = od.len() == 1 && od[0].as_str().is_empty();
            if !only_empty {
                push_missing(pkg_features.optional_deps(), od, "optional dependency", package, &mut out);
            } else {
                proof {
                    assert(after_exclude + Seq::<Seq<char>>::empty() =~= after_exclude);
                }
            }
        },
        None => {
            proof {
                assert(after_exclude + Seq::<Seq<char>>::empty() =~= after_exclude);
            }
        },
    }
    out
}

/// The features of `--features` that are applied to a package, and those
/// skipped: with `--ignore-unknown-features`, a name that no feature of the
/// package has is skipped; else every name is applied. Both keep the order
/// of `--features`.
pub open spec fn spec_applied_features(features: Seq<Seq<char>>, ignore_unknown: bool, known: Seq<Feature>) -> (
    Seq<Seq<char>>,
    Seq<Seq<char>>,
)
    decreases features.len(),
{
    if features.len() == 0 {
        (Seq::empty(), Seq::empty())
    } else {
        let (applied, skipped) = spec_applied_features(features.drop_last(), ignore_unknown, known);
        if ignore_unknown && !has_feature_named(known, features.last()) {
            (applied, skipped.push(features.last()))
        } else {
            (applied.push(features.last()), skipped)
        }
    }
}

/// Splits the features of `--features` into those applied to the package
/// and those skipped as unknown (see `spec_applied_features`).
pub fn applied_features(features: &Vec<String>, ignore_unknown: bool, pkg_features: &Features) -> (res: (
    Vec<String>,
    Vec<String>,
))
    ensures
        (views(res.0@), views(res.1@)) == spec_applied_features(views(features@), ignore_unknown, pkg_features@.0),
{
    let ghost fv = views(features@);
    let mut applied: Vec<String> = Vec::new();
    let mut skipped: Vec<String> = Vec::new();
    let mut i: usize = 0;
    proof {
        assert(fv.take(0) =~= Seq::<Seq<char>>::empty());
        assert(views(applied@) =~= Seq::<Seq<char>>::empty());
        assert(views(skipped@) =~= Seq::<Seq<char>>::empty());
    }
    while i < features.len()
        invariant
            i <= features@.len(),
            fv == views(features@),
            (views(applied@), views(skipped@)) == spec_applied_features(fv.take(i as int), ignore_unknown, pkg_features@.0),
        decreases features@.len() - i,
    {
        proof {
            assert(fv.take(i + 1).drop_last() =~= fv.take(i as int));
            assert(fv.take(i + 1).last() == features@[i as int]@);
        }
        let ghost a0 = views(applied@);
        let ghost s0 = views(skipped@);
        let known = if ignore_unknown {
            has_named(pkg_features.all(), features[i].as_str())
        } else {
            true
        };
        if ignore_unknown && !known {
            skipped.push(features[i].clone());
            proof {
                assert(views(skipped@) =~= s0.push(features@[i as int]@));
                assert(views(applied@) =~= a0);
            }
        } else {
            applied.push(features[i].clone());
            proof {
                assert(views(applied@) =~= a0.push(features@[i as int]@));
                assert(views(skipped@) =~= s0);
            }
        }
        i = i + 1;
    }
    proof {
        assert(fv.take(features@.len() as int) =~= fv);
    }
    (applied, skipped)
}

/// The names (members joined by commas) of the groups of `groups` that
/// name a feature not among `known`, in order.
pub open spec fn invalid_groups(groups: Seq<Feature>, known: Seq<Feature>) -> Seq<Seq<char>>
    decreases groups.len(),
{
    if groups.len() == 0 {
        Seq::empty()
    } else if valid_group_fn::<'static>(known)(&groups.last()) {
        invalid_groups(groups.drop_last(), known)
    } else {
        invalid_groups(groups.drop_last(), known).push(crate::pattern::join_with(groups.last().group_view(), ","@))
    }
}

/// The groups of `--group-features` that are not applied to a package with
/// `--ignore-unknown-features` because they name a feature that is neither
/// one of its own nor one of its optional dependencies; only where its
/// features are chosen from its own, per feature or as a powerset.
pub open spec fn spec_skipped_groups(cx: RunOptions, pf: (Seq<Feature>, nat, nat)) -> Seq<Seq<char>> {
    if (cx.each_feature || cx.feature_powerset) && cx.include_features.len() == 0 && cx.ignore_unknown_features {
        invalid_groups(cx.group_features@, pf.0.subrange(0, pf.2 as int))
    } else {
        Seq::empty()
    }
}

/// The groups skipped for the package (see `spec_skipped_groups`), each by
/// its members joined by commas.
pub fn skipped_groups(cx: &RunOptions, pkg_features: &Features) -> (res: Vec<String>)
    ensures
        views(res@) == spec_skipped_groups(*cx, pkg_features@),
{
    let mut out: Vec<String> = Vec::new();
    proof {
        assert(views(out@) =~= Seq::<Seq<char>>::empty());
    }
    if !((cx.each_feature || cx.feature_powerset) && cx.include_features.len() == 0 && cx.ignore_unknown_features) {
        return out;
    }
    let known = pkg_features.normal_and_optional_deps();
    let groups = &cx.group_features;
    let mut i: usize = 0;
    proof {
        assert(groups@.take(0) =~= Seq::<Feature>::empty());
    }
    while i < groups.len()
        invariant
            i <= groups@.len(),
            known@ == pkg_features@.0.subrange(0, pkg_features@.2 as int),
            views(out@) == invalid_groups(groups@.take(i as int), known@),
        decreases groups@.len() - i,
    {
        proof {
            assert(groups@.take(i + 1).drop_last() =~= groups@.take(i as int));
            assert(groups@.take(i + 1).last() == groups@[i as int]);
        }
        let ghost before = views(out@);
        if !is_valid_group(&groups[i], known) {
            let name = crate::pattern::join_strings(groups[i].as_group(), ",");
            out.push(name);
            proof {
                assert(views(out@) =~= before.push(name@));
            }
        }
        i = i + 1;
    }
    proof {
        assert(groups@.take(groups@.len() as int) =~= groups@);
    }
    out
}

/// A feature named by `--exclude-features` is never among the features a
/// package is run with, but for the groups of `--group-features`, which
/// are taken as given.
pub proof fn lemma_excluded_never_selected<'a>(cx: &'a RunOptions, pf: (Seq<Feature>, nat, nat), i: int)
    requires
        pf.1 <= pf.2 <= pf.0.len(),
        0 <= i < spec_selected(*cx, cx, pf).len(),
        !cx.group_features@.contains(*spec_selected(*cx, cx, pf)[i]),
    ensures
        !views(cx.exclude_features@).contains(spec_selected(*cx, cx, pf)[i].name_view()),
{
    let fs = pf.0;
    let o = pf.1 as int;
    let d = pf.2 as int;
    let sel = spec_selected(*cx, cx, pf);
    if cx.include_features@.len() == 0 {
        let normal = refs_of::<'a>(fs, 0, o).filter(keep_fn::<'a>(*cx));
        let opt = match cx.optional_deps {
            Some(od) => refs_of::<'a>(fs, o, d).filter(opt_dep_fn::<'a>(*cx, views(od@))),
            None => Seq::empty(),
        };
        let deps = if cx.include_deps_features {
            refs_of::<'a>(fs, d, fs.len() as int).filter(keep_fn::<'a>(*cx))
        } else {
            Seq::empty()
        };
        let all_groups = refs_of::<'a>(cx.group_features@, 0, cx.group_features@.len() as int);
        let groups = if cx.ignore_unknown_features {
            all_groups.filter(valid_group_fn::<'a>(fs.subrange(0, d)))
        } else {
            all_groups
        };
        assert(sel == normal + opt + deps + groups);
        if i < normal.len() {
            refs_of::<'a>(fs, 0, o).lemma_filter_pred(keep_fn::<'a>(*cx), i);
            assert(sel[i] == normal[i]);
        } else if i < normal.len() + opt.len() {
            let j = i - normal.len();
            match cx.optional_deps {
                Some(od) => {
                    refs_of::<'a>(fs, o, d).lemma_filter_pred(opt_dep_fn::<'a>(*cx, views(od@)), j);
                },
                None => {},
            }
            assert(sel[i] == opt[j]);
        } else if i < normal.len() + opt.len() + deps.len() {
            let j = i - normal.len() - opt.len();
            if cx.include_deps_features {
                refs_of::<'a>(fs, d, fs.len() as int).lemma_filter_pred(keep_fn::<'a>(*cx), j);
            }
            assert(sel[i] == deps[j]);
        } else {
            let j = i - normal.len() - opt.len() - deps.len();
            assert(sel[i] == groups[j]);
            if cx.ignore_unknown_features {
                let pred = valid_group_fn::<'a>(fs.subrange(0, d));
                assert(all_groups.filter(pred).contains(groups[j]));
                all_groups.lemma_filter_contains_rev(pred, groups[j]);
                let k = choose|k: int| 0 <= k < all_groups.len() && all_groups[k] == groups[j];
                assert(cx.group_features@[k] == *all_groups[k]);
            } else {
                assert(cx.group_features@[j] == *all_groups[j]);
            }
            assert(cx.group_features@.contains(*sel[i]));
        }
    } else {
        let inc = refs_of::<'a>(cx.include_features@, 0, cx.include_features@.len() as int);
        inc.lemma_filter_pred(keep_fn::<'a>(*cx), i);
    }
}

/// With `--ignore-unknown-features`, the features of `--features` that are
/// applied are exactly those the package has, and the skipped ones exactly
/// those it has not, each in the order given; without it, all are applied.
pub proof fn lemma_unknown_features_skipped(features: Seq<Seq<char>>, ignore_unknown: bool, known: Seq<Feature>)
    ensures
        !ignore_unknown ==> spec_applied_features(features, ignore_unknown, known) == (features, Seq::<Seq<char>>::empty()),
        ignore_unknown ==> spec_applied_features(features, ignore_unknown, known) == (
            features.filter(|f: Seq<char>| has_feature_named(known, f)),
            features.filter(|f: Seq<char>| !has_feature_named(known, f)),
        ),
    decreases features.len(),
{
    reveal(Seq::filter);
    if features.len() > 0 {
        lemma_unknown_features_skipped(features.drop_last(), ignore_unknown, known);
        let (a, sk) = spec_applied_features(features.drop_last(), ignore_unknown, known);
        if !ignore_unknown {
            assert(a.push(features.last()) =~= features);
        }
    } else {
        assert(features =~= Seq::<Seq<char>>::empty());
    }
}

} // verus!

verus! {

/// One run of cargo on a package: with `--all-features`, with
/// `--no-default-features`, and with `--features` naming `features`.
pub struct Run<'a> {
    pub all_features: bool,
    pub no_default_features: bool,
    pub features: Vec<&'a Feature>,
}

/// A run as plain values.
pub open spec fn run_view<'a>(r: Run<'a>) -> (bool, bool, Seq<&'a Feature>) {
    (r.all_features, r.no_default_features, r.features@)
}

/// Whether the run with `--all-features` is left out for the kind.
pub open spec fn skips_all_features<'a>(cx: RunOptions, pf: (Seq<Feature>, nat, nat), kind: Kind<'a>) -> bool {
    cx.exclude_all_features || match kind {
        Kind::Each { .. } => pf.2 == pf.1 && pf.1 <= 1,
        Kind::Powerset { .. } => pf.2 == pf.1 || match cx.optional_deps {
            Some(od) => od@.len() == 0 && cx.depth is None,
            None => false,
        },
        Kind::Normal => false,
    }
}

/// The first runs of a package run per feature: with all features unless
/// that is left out, then with no features unless that is left out.
pub open spec fn head_runs<'a>(cx: RunOptions, skip_all: bool) -> Seq<(bool, bool, Seq<&'a Feature>)> {
    (if skip_all {
        Seq::empty()
    } else {
        seq![(true, false, Seq::empty())]
    }) + (if cx.exclude_no_default_features {
        Seq::empty()
    } else {
        seq![(false, !cx.no_default_features, Seq::empty())]
    })
}

/// The runs with each of a list of feature combinations.
pub open spec fn combination_runs<'a>(cx: RunOptions, combos: Seq<Seq<&'a Feature>>) -> Seq<
    (bool, bool, Seq<&'a Feature>),
> {
    combos.map_values(|c: Seq<&'a Feature>| (false, !cx.no_default_features, c))
}

/// The combinations in the order they are run: where the run with all
/// features is left out, the last (usually the biggest) combination runs
/// first, unless there is only one or the depth is one.
pub open spec fn powerset_order<'a>(skip_all: bool, depth: Option<usize>, combos: Seq<Seq<&'a Feature>>) -> Seq<
    Seq<&'a Feature>,
> {
    let deep = match depth {
        Some(d) => d > 1,
        None => true,
    };
    if skip_all && combos.len() > 1 && deep {
        seq![combos.last()] + combos.drop_last()
    } else {
        combos
    }
}

/// The runs of cargo that `exec_on_package` makes for a package of the
/// kind, in order.
pub open spec fn spec_plan<'a>(cx: RunOptions, pf: (Seq<Feature>, nat, nat), kind: Kind<'a>) -> Seq<
    (bool, bool, Seq<&'a Feature>),
> {
    let skip_all = skips_all_features(cx, pf, kind);
    match kind {
        Kind::Normal => seq![(false, false, Seq::empty())],
        Kind::Each { features } => head_runs(cx, skip_all) + combination_runs(
            cx,
            features@.map_values(|f: &'a Feature| seq![f]),
        ),
        Kind::Powerset { features } => head_runs(cx, skip_all) + combination_runs(
            cx,
            powerset_order(skip_all, cx.depth, features@.map_values(|v: Vec<&'a Feature>| v@)),
        ),
    }
}

/// A copy of a list of feature references.
fn copy_refs<'a>(v: &Vec<&'a Feature>) -> (res: Vec<&'a Feature>)
    ensures
        res@ == v@,
{
    let mut res: Vec<&'a Feature> = Vec::new();
    let mut i: usize = 0;
    while i < v.len()
        invariant
            i <= v@.len(),
            res@ == v@.take(i as int),
        decreases v@.len() - i,
    {
        res.push(v[i]);
        i = i + 1;
        proof {
            assert(res@ =~= v@.take(i as int));
        }
    }
    proof {
        assert(v@.take(v@.len() as int) =~= v@);
    }
    res
}

/// The runs of cargo on a package of the kind, in order: for a package run
/// per feature, first with all features (unless left out), then with no
/// features (unless left out), then with each feature or combination.
pub fn exec_on_package<'a>(cx: &RunOptions, kind: &Kind<'a>, pkg_features: &Features) -> (res: Vec<Run<'a>>)
    ensures
        res@.map_values(|r: Run<'a>| run_view(r)) == spec_plan(*cx, pkg_features@, *kind),
{
    let mut res: Vec<Run<'a>> = Vec::new();
    let ghost rv = |r: Run<'a>| run_view(r);
    let no_default = !cx.no_default_features;
    match kind {
        Kind::Normal => {
            res.push(Run { all_features: false, no_default_features: false, features: Vec::new() });
            proof {
                assert(res@.map_values(rv) =~= spec_plan(*cx, pkg_features@, *kind));
            }
            return res;
        },
        _ => {},
    }
    let skip_all = cx.exclude_all_features || match kind {
        Kind::Each { .. } => pkg_features.optional_deps().len() == 0 && pkg_features.normal().len()
            <= 1,
        Kind::Powerset { .. } => pkg_features.optional_deps().len() == 0 || match &cx.optional_deps {
            Some(od) => od.len() == 0 && cx.depth.is_none(),
            None => false,
        },
        Kind::Normal => false,
    };
    proof {
        assert(skip_all == skips_all_features(*cx, pkg_features@, *kind));
    }
    if !skip_all {
        res.push(Run { all_features: true, no_default_features: false, features: Vec::new() });
    }
    if !cx.exclude_no_default_features {
        res.push(Run { all_features: false, no_default_features: no_default, features: Vec::new() });
    }
    let ghost head = res@.map_values(rv);
    proof {
        assert(head =~= head_runs(*cx, skip_all));
    }
    match kind {
        Kind::Each { features } => {
            let ghost combos = features@.map_values(|f: &'a Feature| seq![f]);
            let mut i: usize = 0;
            while i < features.len()
                invariant
                    i <= features@.len(),
                    combos == features@.map_values(|f: &'a Feature| seq![f]),
                    res@.map_values(rv) == head + combination_runs(*cx, combos.take(i as int)),
                    rv == (|r: Run<'a>| run_view(r)),
                    no_default == !cx.no_default_features,
                decreases features@.len() - i,
            {
                let mut one: Vec<&'a Feature> = Vec::new();
                one.push(features[i]);
                let ghost prev = res@;
                let run = Run { all_features: false, no_default_features: no_default, features: one };
                proof {
                    assert(one@ =~= seq![features@[i as int]]);
                    assert(combos[i as int] == seq![features@[i as int]]);
                    assert(run_view(run) == (false, !cx.no_default_features, combos[i as int]));
                }
                res.push(run);
                i = i + 1;
                proof {
                    assert(res@.map_values(rv) =~= prev.map_values(rv).push(run_view(run)));
                    assert(combination_runs(*cx, combos.take(i as int)) =~= combination_runs(
                        *cx,
                        combos.take(i - 1),
                    ).push((false, !cx.no_default_features, combos[i - 1])));
                    assert(res@.map_values(rv) =~= head + combination_runs(*cx, combos.take(i as int)));
                }
            }
            proof {
                assert(combos.take(features@.len() as int) =~= combos);
            }
        },
        Kind::Powerset { features } => {
            let ghost combos = features@.map_values(|v: Vec<&'a Feature>| v@);
            let deep = match cx.depth {
                Some(d) => d > 1,
                None => true,
            };
            let n = features.len();
            let mut end = n;
            if skip_all && n > 1 && deep {
                let last = copy_refs(&features[n - 1]);
                res.push(Run { all_features: false, no_default_features: no_default, features: last });
                end = n - 1;
            }
            let ghost order = powerset_order(skip_all, cx.depth, combos);
            let ghost first = res@.map_values(rv);
            proof {
                if skip_all && n > 1 && deep {
                    assert(first =~= head + combination_runs(*cx, order.take(1)));
                } else {
                    assert(first =~= head + combination_runs(*cx, order.take(0)));
                }
            }
            let start: usize = if end < n { 1 } else { 0 };
            let mut i: usize = 0;
            while i < end
                invariant
                    end <= n == features@.len(),
                    start == n - end,
                    start <= 1,
                    i <= end,
                    combos == features@.map_values(|v: Vec<&'a Feature>| v@),
                    order == powerset_order(skip_all, cx.depth, combos),
                    order.len() == combos.len(),
                    forall|k: int| 0 <= k < end ==> #[trigger] order[k + start] == combos[k],
                    res@.map_values(rv) == head + combination_runs(*cx, order.take(i + start)),
                    rv == (|r: Run<'a>| run_view(r)),
                    no_default == !cx.no_default_features,
                decreases end - i,
            {
                let c = copy_refs(&features[i]);
                let ghost prev = res@;
                let run = Run { all_features: false, no_default_features: no_default, features: c };
                res.push(run);
                i = i + 1;
                proof {
                    assert(order[i - 1 + start] == combos[i - 1]);
                    assert(combos[i - 1] == features@[i - 1]@);
                    assert(res@.map_values(rv) =~= prev.map_values(rv).push(run_view(run)));
                    assert(combination_runs(*cx, order.take(i + start)) =~= combination_runs(
                        *cx,
                        order.take(i - 1 + start),
                    ).push((false, !cx.no_default_features, order[i - 1 + start])));
                    assert(res@.map_values(rv) =~= head + combination_runs(
                        *cx,
                        order.take(i + start),
                    ));
                }
            }
            proof {
                assert(order.take(end + start) =~= order);
            }
        },
        Kind::Normal => {},
    }
    res
}

} // verus!

verus! {

/// The number of runs that `determine_kind` counts for a package is the
/// number of runs of cargo that `exec_on_package` makes for it, where that
/// number fits in a `usize`. The one exception: with `--feature-powerset`,
/// `--optional-deps` naming no dependency and a `--depth`, a package with
/// optional dependencies is run with all features, but that run is not
/// counted.
pub proof fn lemma_count_is_number_of_runs<'a>(
    cx: &'a RunOptions,
    pf: (Seq<Feature>, nat, nat),
    package_features: MapView,
    r: PackageRuns<'a>,
)
    requires
        spec_runs(*cx, cx, pf, package_features, r),
        !(cx.feature_powerset && !cx.each_feature && (cx.optional_deps matches Some(od)
            && od@.len() == 0) && cx.depth is Some && !cx.exclude_all_features && pf.2 != pf.1),
        spec_plan(*cx, pf, r.kind).len() <= usize::MAX,
    ensures
        spec_plan(*cx, pf, r.kind).len() == r.feature_count,
{
}

} // verus!

verus! {

/// Every run belongs to exactly one partition: the index of the part of
/// the run after `count` runs is below the number of parts.
pub proof fn lemma_run_in_one_partition(total: int, count: int, parts: int)
    requires
        0 <= count < total,
        parts > 0,
    ensures
        0 <= count / chunk_size(total, parts) < parts,
{
    lemma_chunk_size(total, parts);
    let c = chunk_size(total, parts);
    lemma_fundamental_div_mod(total, parts);
    assert(total <= c * parts) by (nonlinear_arith)
        requires
            total == parts * (total / parts) + total % parts,
            0 <= total % parts < parts,
            c == (if total % parts == 0 {
                total / parts
            } else {
                total / parts + 1
            }),
    ;
    lemma_div_pos_is_pos(count, c);
    assert(count / c < parts) by (nonlinear_arith)
        requires
            count < total,
            total <= c * parts,
            c >= 1,
            count >= 0,
    {
        lemma_fundamental_div_mod(count, c);
    }
}

} // verus!
