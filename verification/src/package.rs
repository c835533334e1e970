//! How each package is run: once, once per feature, or once per feature
//! combination, and how many runs that makes.

use vstd::prelude::*;

use crate::features::{spec_powerset, views};
use crate::metadata::{dependency_feature, Package};
use crate::text::{contains_string, string_eq_str};

verus! {

/// The options of the command line that decide how a package is run.
pub struct Args {
    /// The cargo subcommand, if any.
    pub subcommand: Option<String>,
    /// --each-feature
    pub each_feature: bool,
    /// --feature-powerset
    pub feature_powerset: bool,
    /// --skip <FEATURES>...
    pub skip: Vec<String>,
    /// --optional-deps [DEPS]...
    pub optional_deps: Option<Vec<String>>,
    /// --depth <NUM>
    pub depth: Option<usize>,
    /// --skip-no-default-features
    pub skip_no_default_features: bool,
    /// --skip-all-features
    pub skip_all_features: bool,
}

/// How a package is run.
#[allow(inconsistent_fields)]
pub enum Kind<'a> {
    /// There is no subcommand, so nothing is run.
    NoSubcommand,
    /// The package is private and skipped.
    SkipAsPrivate,
    /// Run once with the default features.
    Nomal { show_progress: bool },
    /// Run once per feature.
    Each { features: Vec<&'a String> },
    /// Run once per feature combination.
    Powerset { features: Vec<Vec<&'a String>> },
}

/// The text `default`.
pub open spec fn default_name() -> Seq<char> {
    seq!['d', 'e', 'f', 'a', 'u', 'l', 't']
}

/// The features of `package` that are run one by one: its features other
/// than `default` and the skipped ones.
pub open spec fn own_run_features(args: Args, package: Package) -> Seq<Seq<char>> {
    crate::features::map_keys(package.features@).filter(
        |f: Seq<char>| f != default_name() && !views(args.skip@).contains(f),
    )
}

/// The optional dependencies of `package` that are run as features: those
/// selected by `--optional-deps` (all of them if it lists none) and not skipped.
pub open spec fn optional_run_features(args: Args, package: Package, selected: Seq<Seq<char>>) -> Seq<Seq<char>> {
    crate::metadata::optional_dep_names(package.dependencies@).filter(
        |f: Seq<char>| !views(args.skip@).contains(f) && (selected.len() == 0 || selected.contains(f)),
    )
}

/// All the features of `package` that are run.
pub open spec fn run_features(args: Args, package: Package) -> Seq<Seq<char>> {
    own_run_features(args, package) + match args.optional_deps {
        Some(od) => optional_run_features(args, package, views(od@)),
        None => Seq::empty(),
    }
}

/// The runs besides those with single features or combinations: with the
/// default features, with none, and with all of them, unless skipped.
pub open spec fn extra_runs(args: Args) -> nat {
    (if views(args.skip@).contains(default_name()) { 0nat } else { 1nat })
        + (if args.skip_no_default_features { 0nat } else { 1nat })
        + (if args.skip_all_features { 0nat } else { 1nat })
}

/// The text of a string reference.
pub open spec fn ref_views_fn<'a>() -> spec_fn(&'a String) -> Seq<char> {
    |s: &'a String| s@
}

/// The character views of a list of string references.
pub open spec fn ref_views<'a>(list: Seq<&'a String>) -> Seq<Seq<char>> {
    list.map_values(ref_views_fn::<'a>())
}

/// The number of runs that `determine` counts for a package.
pub open spec fn runs_counted(args: Args, package: Package) -> nat {
    if args.subcommand is None {
        0
    } else if !args.each_feature && !args.feature_powerset {
        1
    } else if args.each_feature {
        if package.features@.len() == 0 && run_features(args, package).len() == 0 {
            1
        } else {
            run_features(args, package).len() + extra_runs(args)
        }
    } else {
        (spec_powerset(run_features(args, package), args.depth).len() - 1) as nat + extra_runs(args)
    }
}

impl<'a> Kind<'a> {
    /// Decides how `package` is run and adds the number of its runs to `total`.
    pub fn determine(args: &'a Args, package: &'a Package, total: &mut usize) -> (res: Kind<'a>)
        requires
            *old(total) + runs_counted(*args, *package) <= usize::MAX,
        ensures
            *final(total) == *old(total) + runs_counted(*args, *package),
            kind_fits(*args, *package, res),
            args.subcommand is None ==> res is NoSubcommand,
            args.subcommand is Some && !args.each_feature && !args.feature_powerset
                ==> res == (Kind::Nomal { show_progress: false }),
            args.subcommand is Some && args.each_feature ==> match res {
                Kind::Nomal { show_progress } => show_progress && package.features@.len() == 0
                    && run_features(*args, *package).len() == 0,
                Kind::Each { features } => ref_views(features@) == run_features(*args, *package)
                    && !(package.features@.len() == 0 && run_features(*args, *package).len() == 0),
                _ => false,
            },
            args.subcommand is Some && !args.each_feature && args.feature_powerset ==> match res {
                Kind::Powerset { features } => features@.map_values(|c: Vec<&'a String>| ref_views(c@))
                    == spec_powerset(run_features(*args, *package), args.depth),
                _ => false,
            },
    {
        if args.subcommand.is_none() {
            return Kind::NoSubcommand;
        }
        if !args.each_feature && !args.feature_powerset {
            *total = *total + 1;
            return Kind::Nomal { show_progress: false };
        }
        let list = run_feature_list(args, package);
        let extra = extra_run_count(args);
        if args.each_feature {
            if package.features.len() == 0 && list.len() == 0 {
                *total = *total + 1;
                Kind::Nomal { show_progress: true }
            } else {
                *total = *total + list.len() + extra;
                Kind::Each { features: list }
            }
        } else {
            let ghost lv = list@;
            let features = powerset(list, args.depth);
            proof {
                crate::features::lemma_powerset_starts_empty(run_features(*args, *package), args.depth);
                crate::features::lemma_powerset_map(lv, args.depth, ref_views_fn::<'a>());
                let ps = spec_powerset(lv, args.depth);
                assert(features@.map_values(|c: Vec<&'a String>| c@) == ps);
                assert(features@.map_values(|c: Vec<&'a String>| ref_views(c@))
                    =~= ps.map_values(|c: Seq<&'a String>| c.map_values(ref_views_fn::<'a>()))) by {
                    assert forall|k: int| #![trigger features@[k]] 0 <= k < features@.len() implies
                        features@.map_values(|c: Vec<&'a String>| ref_views(c@))[k]
                            == ps.map_values(|c: Seq<&'a String>| c.map_values(ref_views_fn::<'a>()))[k] by {
                        assert(features@.map_values(|c: Vec<&'a String>| c@)[k] == features@[k]@);
                    }
                }
            }
            *total = *total + (features.len() - 1) + extra;
            Kind::Powerset { features }
        }
    }
}

/// The number of runs besides those with single features or combinations.
fn extra_run_count(args: &Args) -> (res: usize)
    ensures
        res == extra_runs(*args),
{
    let mut skips_default = false;
    let mut i: usize = 0;
    while i < args.skip.len()
        invariant
            i <= args.skip@.len(),
            skips_default <==> exists|k: int| 0 <= k < i && #[trigger] views(args.skip@)[k] == default_name(),
        decreases args.skip.len() - i,
    {
        proof {
            reveal_strlit("default");
            assert("default"@ =~= default_name());
            assert(views(args.skip@)[i as int] == args.skip@[i as int]@);
        }
        if string_eq_str(&args.skip[i], "default") {
            skips_default = true;
        }
        i = i + 1;
    }
    (if skips_default { 0 } else { 1 }) + (if args.skip_no_default_features { 0 } else { 1 })
        + (if args.skip_all_features { 0 } else { 1 })
}

/// The features of `package` that are run.
fn run_feature_list<'a>(args: &'a Args, package: &'a Package) -> (res: Vec<&'a String>)
    ensures
        ref_views(res@) == run_features(*args, *package),
{
    let mut res: Vec<&'a String> = Vec::new();
    let ghost keys = crate::features::map_keys(package.features@);
    let ghost own_pred = |f: Seq<char>| f != default_name() && !views(args.skip@).contains(f);
    let entries = package.features.entries();
    let mut i: usize = 0;
    proof {
        reveal(Seq::filter);
        assert(keys.take(0) =~= Seq::<Seq<char>>::empty());
    }
    while i < entries.len()
        invariant
            i <= entries@.len(),
            crate::feature_map::entries_view(entries@) == package.features@,
            keys == crate::features::map_keys(package.features@),
            own_pred == (|f: Seq<char>| f != default_name() && !views(args.skip@).contains(f)),
            ref_views(res@) == keys.take(i as int).filter(own_pred),
        decreases entries.len() - i,
    {
        let name = &entries[i].0;
        proof {
            reveal_strlit("default");
            assert("default"@ =~= default_name());
            assert(keys[i as int] == name@);
            assert(keys.take(i as int + 1) =~= keys.take(i as int).push(name@));
            keys.take(i as int).lemma_filter_push(name@, own_pred);
        }
        let ghost before = res@;
        if !string_eq_str(name, "default") && !contains_string(&args.skip, name) {
            res.push(name);
            proof {
                assert(ref_views(res@) =~= ref_views(before).push(name@));
            }
        }
        i = i + 1;
    }
    proof {
        assert(keys.take(entries@.len() as int) =~= keys);
    }
    let ghost own = ref_views(res@);
    match &args.optional_deps {
        Some(od) => {
            let ghost names = crate::metadata::optional_dep_names(package.dependencies@);
            let ghost opt_pred = |f: Seq<char>| !views(args.skip@).contains(f) && (views(od@).len() == 0 || views(od@).contains(f));
            let mut j: usize = 0;
            let ghost start = res@.len();
            proof {
                assert(package.dependencies@.take(0) =~= Seq::<crate::metadata::Dependency>::empty());
                assert(ref_views(res@) =~= own + crate::metadata::optional_dep_names(package.dependencies@.take(0)).filter(opt_pred));
            }
            while j < package.dependencies.len()
                invariant
                    j <= package.dependencies@.len(),
                    args.optional_deps == Some(*od),
                    opt_pred == (|f: Seq<char>| !views(args.skip@).contains(f) && (views(od@).len() == 0 || views(od@).contains(f))),
                    ref_views(res@) == own + crate::metadata::optional_dep_names(package.dependencies@.take(j as int)).filter(opt_pred),
                decreases package.dependencies.len() - j,
            {
                let ghost dl = package.dependencies@.take(j as int + 1);
                proof {
                    assert(dl.drop_last() =~= package.dependencies@.take(j as int));
                    assert(dl.last() == package.dependencies@[j as int]);
                }
                let dep = &package.dependencies[j];
                if dep.optional {
                    let f: &String = match &dep.rename {
                        Some(r) => r,
                        None => &dep.name,
                    };
                    proof {
                        assert(dependency_feature(*dep) == Some(f@));
                        crate::metadata::optional_dep_names(package.dependencies@.take(j as int)).lemma_filter_push(f@, opt_pred);
                    }
                    let ghost before = res@;
                    if !contains_string(&args.skip, f) && (od.len() == 0 || contains_string(od, f)) {
                        res.push(f);
                        proof {
                            assert(ref_views(res@) =~= ref_views(before).push(f@));
                        }
                    }
                }
                j = j + 1;
            }
            proof {
                assert(package.dependencies@.take(package.dependencies@.len() as int) =~= package.dependencies@);
            }
        },
        None => {
            proof {
                assert(ref_views(res@) =~= own + Seq::<Seq<char>>::empty());
            }
        },
    }
    res
}

/// Returns the powerset of `items` (the empty combination first), leaving out
/// combinations of more than `depth` items.
pub fn powerset<T: Copy>(items: Vec<T>, depth: Option<usize>) -> (res: Vec<Vec<T>>)
    ensures
        res@.map_values(|c: Vec<T>| c@) == spec_powerset(items@, depth),
{
    crate::features::powerset(items, depth)
}

/// A run of cargo on a package: with `--no-default-features`, with
/// `--all-features`, with the features listed, and whether its progress is
/// shown.
pub struct PlannedRun<'a> {
    pub no_default_features: bool,
    pub all_features: bool,
    pub features: Vec<&'a String>,
    pub show_progress: bool,
}

/// A run as plain values.
pub open spec fn planned_view<'a>(r: PlannedRun<'a>) -> (bool, bool, Seq<Seq<char>>, bool) {
    (r.no_default_features, r.all_features, ref_views(r.features@), r.show_progress)
}

/// The run with the features `fs` (after `--no-default-features`).
pub open spec fn with_features(fs: Seq<Seq<char>>) -> (bool, bool, Seq<Seq<char>>, bool) {
    (true, false, fs, true)
}

/// The runs of cargo for a package of the kind, in order: none without a
/// subcommand; once for a package run normally; else with the default
/// features (unless `default` is skipped), with no default features
/// (unless skipped), with each feature or each combination but the first
/// (the empty one), and with all features (unless skipped).
pub open spec fn spec_package_plan<'a>(args: Args, kind: Kind<'a>) -> Seq<(bool, bool, Seq<Seq<char>>, bool)> {
    match kind {
        Kind::Nomal { show_progress } => seq![(false, false, Seq::<Seq<char>>::empty(), show_progress)],
        Kind::Each { .. } | Kind::Powerset { .. } => plan_head(args) + plan_combos(kind) + plan_tail(args),
        _ => Seq::empty(),
    }
}

/// The runs before those with features: with the default features, then
/// with none, each unless skipped.
pub open spec fn plan_head(args: Args) -> Seq<(bool, bool, Seq<Seq<char>>, bool)> {
    (if views(args.skip@).contains(default_name()) {
        Seq::empty()
    } else {
        seq![(false, false, Seq::<Seq<char>>::empty(), true)]
    }) + (if args.skip_no_default_features {
        Seq::empty()
    } else {
        seq![with_features(Seq::empty())]
    })
}

/// The run with all features, unless skipped.
pub open spec fn plan_tail(args: Args) -> Seq<(bool, bool, Seq<Seq<char>>, bool)> {
    if args.skip_all_features {
        Seq::empty()
    } else {
        seq![(true, true, Seq::<Seq<char>>::empty(), true)]
    }
}

/// The runs with single features or with combinations: one per feature,
/// or one per combination but the first (the empty one).
pub open spec fn plan_combos<'a>(kind: Kind<'a>) -> Seq<(bool, bool, Seq<Seq<char>>, bool)> {
    match kind {
        Kind::Each { features } => ref_views(features@).map_values(|f: Seq<char>| with_features(seq![f])),
        Kind::Powerset { features } => (if features@.len() > 0 {
            features@.skip(1)
        } else {
            Seq::empty()
        }).map_values(|c: Vec<&'a String>| with_features(ref_views(c@))),
        _ => Seq::empty(),
    }
}

/// Whether `kind` is what `determine` gives for `package`.
pub open spec fn kind_fits<'a>(args: Args, package: Package, kind: Kind<'a>) -> bool {
    &&& args.subcommand is None ==> kind is NoSubcommand
    &&& args.subcommand is Some && !args.each_feature && !args.feature_powerset ==> kind == (Kind::Nomal {
        show_progress: false,
    })
    &&& args.subcommand is Some && args.each_feature ==> match kind {
        Kind::Nomal { show_progress } => show_progress && package.features@.len() == 0 && run_features(
            args,
            package,
        ).len() == 0,
        Kind::Each { features } => ref_views(features@) == run_features(args, package) && !(package.features@.len()
            == 0 && run_features(args, package).len() == 0),
        _ => false,
    }
    &&& args.subcommand is Some && !args.each_feature && args.feature_powerset ==> match kind {
        Kind::Powerset { features } => features@.map_values(|c: Vec<&'a String>| ref_views(c@)) == spec_powerset(
            run_features(args, package),
            args.depth,
        ),
        _ => false,
    }
}

/// The number of runs that `determine` counts for a package is the number
/// of runs of cargo planned for the kind it gives.
pub proof fn lemma_counted_runs_are_planned<'a>(args: Args, package: Package, kind: Kind<'a>)
    requires
        kind_fits(args, package, kind),
    ensures
        spec_package_plan(args, kind).len() == runs_counted(args, package),
{
    if let Kind::Powerset { features } = kind {
        crate::features::lemma_powerset_starts_empty(run_features(args, package), args.depth);
        assert(features@.len() == features@.map_values(|c: Vec<&'a String>| ref_views(c@)).len());
    }
    if let Kind::Each { features } = kind {
        assert(ref_views(features@).len() == features@.len());
    }
}

/// Plans the runs of cargo for a package of the kind (see
/// `spec_package_plan`); a private package is never planned.
pub fn package_plan<'a>(args: &Args, kind: &Kind<'a>) -> (res: Vec<PlannedRun<'a>>)
    requires
        !(kind is SkipAsPrivate),
    ensures
        res@.map_values(|r: PlannedRun<'a>| planned_view(r)) == spec_package_plan(*args, *kind),
{
    let ghost pv = |r: PlannedRun<'a>| planned_view(r);
    let mut res: Vec<PlannedRun<'a>> = Vec::new();
    match kind {
        Kind::NoSubcommand => {
            proof {
                assert(res@.map_values(pv) =~= spec_package_plan(*args, *kind));
            }
            return res;
        },
        Kind::Nomal { show_progress } => {
            res.push(PlannedRun { no_default_features: false, all_features: false, features: Vec::new(), show_progress: *show_progress });
            proof {
                assert(ref_views(res@[0].features@) =~= Seq::<Seq<char>>::empty());
                assert(res@.map_values(pv) =~= spec_package_plan(*args, *kind));
            }
            return res;
        },
        _ => {},
    }
    let skips_default = extra_run_count_default(args);
    if !skips_default {
        res.push(PlannedRun { no_default_features: false, all_features: false, features: Vec::new(), show_progress: true });
    }
    if !args.skip_no_default_features {
        res.push(PlannedRun { no_default_features: true, all_features: false, features: Vec::new(), show_progress: true });
    }
    proof {
        assert forall|k: int| 0 <= k < res@.len() implies ref_views(#[trigger] res@[k].features@) == Seq::<Seq<char>>::empty() by {
            assert(ref_views(res@[k].features@) =~= Seq::<Seq<char>>::empty());
        }
        assert(res@.map_values(pv) =~= plan_head(*args));
    }
    let ghost head = res@.map_values(pv);
    let ghost combos = plan_combos(*kind);
    match kind {
        Kind::Each { features } => {
            let mut i: usize = 0;
            while i < features.len()
                invariant
                    i <= features@.len(),
                    pv == (|r: PlannedRun<'a>| planned_view(r)),
                    combos == ref_views(features@).map_values(|f: Seq<char>| with_features(seq![f])),
                    res@.map_values(pv) == head + combos.take(i as int),
                decreases features.len() - i,
            {
                let mut one: Vec<&'a String> = Vec::new();
                one.push(features[i]);
                let ghost before = res@.map_values(pv);
                res.push(PlannedRun { no_default_features: true, all_features: false, features: one, show_progress: true });
                proof {
                    assert(ref_views(one@) =~= seq![features@[i as int]@]);
                    assert(res@.map_values(pv) =~= before.push(combos[i as int]));
                    assert(combos.take(i + 1) =~= combos.take(i as int).push(combos[i as int]));
                }
                i = i + 1;
            }
            proof {
                assert(combos.take(features@.len() as int) =~= combos);
                assert(res@.map_values(pv) =~= head + combos);
            }
        },
        Kind::Powerset { features } => {
            let mut i: usize = 1;
            proof {
                assert(combos.take(0) =~= Seq::<(bool, bool, Seq<Seq<char>>, bool)>::empty());
                assert(res@.map_values(pv) =~= head + combos.take(0));
            }
            while i < features.len()
                invariant
                    1 <= i,
                    i <= features@.len() || features@.len() == 0,
                    pv == (|r: PlannedRun<'a>| planned_view(r)),
                    features@.len() > 0 ==> combos == features@.skip(1).map_values(
                        |c: Vec<&'a String>| with_features(ref_views(c@)),
                    ),
                    features@.len() == 0 ==> combos.len() == 0 && i == 1,
                    res@.map_values(pv) == head + combos.take(i - 1),
                decreases features.len() - i,
            {
                let ghost before = res@.map_values(pv);
                let copy = copy_refs(&features[i]);
                res.push(PlannedRun { no_default_features: true, all_features: false, features: copy, show_progress: true });
                proof {
                    assert(combos[i - 1] == with_features(ref_views(features@[i as int]@)));
                    assert(res@.map_values(pv) =~= before.push(combos[i - 1]));
                    assert(combos.take(i as int) =~= combos.take(i - 1).push(combos[i - 1]));
                }
                i = i + 1;
            }
            proof {
                if features@.len() > 0 {
                    assert(i == features@.len());
                    assert(combos.len() == features@.len() - 1);
                    assert(combos.take(features@.len() - 1) =~= combos);
                    assert(res@.map_values(pv) == head + combos.take(i - 1));
                    assert(res@.map_values(pv) == head + combos);
                } else {
                    assert(combos.take(0) =~= combos);
                    assert(i == 1);
                    assert(res@.map_values(pv) == head + combos.take(i - 1));
                    assert(res@.map_values(pv) == head + combos);
                }
                assert(res@.map_values(pv) =~= head + combos);
            }
        },
        _ => {
            proof {
                assert(res@.map_values(pv) =~= head + combos);
            }
        },
    }
    let ghost mid = res@.map_values(pv);
    if !args.skip_all_features {
        res.push(PlannedRun { no_default_features: true, all_features: true, features: Vec::new(), show_progress: true });
        proof {
            assert(ref_views(res@[res@.len() - 1].features@) =~= Seq::<Seq<char>>::empty());
            assert(res@.map_values(pv) =~= mid + plan_tail(*args));
        }
    } else {
        proof {
            assert(res@.map_values(pv) =~= mid + plan_tail(*args));
        }
    }
    proof {
        assert(mid == plan_head(*args) + plan_combos(*kind));
        assert(res@.map_values(pv) =~= spec_package_plan(*args, *kind));
    }
    res
}

/// A copy of a list of string references.
fn copy_refs<'a>(v: &Vec<&'a String>) -> (res: Vec<&'a String>)
    ensures
        res@ == v@,
{
    let mut res: Vec<&'a String> = Vec::new();
    let mut i: usize = 0;
    while i < v.len()
        invariant
            i <= v@.len(),
            res@ == v@.take(i as int),
        decreases v@.len() - i,
    {
        res.push(v[i]);
        i = i + 1;
        proof {
            assert(res@ =~= v@.take(i as int));
        }
    }
    proof {
        assert(v@.take(v@.len() as int) =~= v@);
    }
    res
}

/// Whether `default` is among the skipped features.
fn extra_run_count_default(args: &Args) -> (res: bool)
    ensures
        res == views(args.skip@).contains(default_name()),
{
    let mut found = false;
    let mut i: usize = 0;
    while i < args.skip.len()
        invariant
            i <= args.skip@.len(),
            found <==> exists|k: int| 0 <= k < i && #[trigger] views(args.skip@)[k] == default_name(),
        decreases args.skip.len() - i,
    {
        proof {
            reveal_strlit("default");
            assert("default"@ =~= default_name());
            assert(views(args.skip@)[i as int] == args.skip@[i as int]@);
        }
        if string_eq_str(&args.skip[i], "default") {
            found = true;
        }
        i = i + 1;
    }
    proof {
        if found {
            let k = choose|k: int| 0 <= k < i && #[trigger] views(args.skip@)[k] == default_name();
            assert(views(args.skip@)[k] == default_name());
        }
    }
    found
}

} // verus!
