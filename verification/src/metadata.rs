//! The parts of `cargo metadata` output that the runs are planned from.

use vstd::prelude::*;

use crate::feature_map::FeatureMap;

verus! {

/// An opaque unique identifier for referring to the package: its index in
/// the package list of the metadata.
#[derive(Clone, Copy, PartialEq, Eq, Structural, Debug)]
pub struct PackageId {
    pub index: usize,
}

/// A dependency of a package.
pub struct Dependency {
    /// The name of the dependency.
    pub name: String,
    /// Whether or not this is an optional dependency.
    pub optional: bool,
    /// The name the dependency is renamed to, if it is.
    pub rename: Option<String>,
}

/// The name under which an optional dependency acts as a feature.
pub open spec fn dependency_feature(d: Dependency) -> Option<Seq<char>> {
    if d.optional {
        Some(
            match d.rename {
                Some(r) => r@,
                None => d.name@,
            },
        )
    } else {
        None
    }
}

impl Dependency {
    /// The feature this dependency gives its package: its name, or the name
    /// it is renamed to, if it is optional; none otherwise.
    pub fn as_feature(&self) -> (res: Option<&str>)
        ensures
            match res {
                Some(s) => dependency_feature(*self) == Some(s@),
                None => dependency_feature(*self) is None,
            },
    {
        if self.optional {
            match &self.rename {
                Some(r) => Some(r.as_str()),
                None => Some(self.name.as_str()),
            }
        } else {
            None
        }
    }
}

/// The features given by the optional dependencies of `deps`, in order.
pub open spec fn optional_dep_names(deps: Seq<Dependency>) -> Seq<Seq<char>>
    decreases deps.len(),
{
    if deps.len() == 0 {
        Seq::empty()
    } else {
        let rest = optional_dep_names(deps.drop_last());
        match dependency_feature(deps.last()) {
            Some(n) => rest.push(n),
            None => rest,
        }
    }
}

/// A package of the metadata.
pub struct Package {
    /// The package ID specification of the package, as cargo-metadata
    /// gives it.
    pub id: String,
    /// The name of the package.
    pub name: String,
    /// The version of the package.
    pub version: String,
    /// List of dependencies of this particular package.
    pub dependencies: Vec<Dependency>,
    /// Features provided by the crate, mapped to the features required by that feature.
    pub features: FeatureMap,
    /// Absolute path to this package's manifest.
    pub manifest_path: String,
    /// Whether the package may be published.
    pub publish: bool,
    /// The minimum supported Rust version of this package.
    pub rust_version: Option<String>,
}

impl Package {
    /// The features given by the package's optional dependencies, in order.
    pub fn optional_deps(&self) -> (res: Vec<&str>)
        ensures
            res@.map_values(|s: &str| s@) == optional_dep_names(self.dependencies@),
    {
        let mut res: Vec<&str> = Vec::new();
        let mut i: usize = 0;
        while i < self.dependencies.len()
            invariant
                i <= self.dependencies@.len(),
                res@.map_values(|s: &str| s@) == optional_dep_names(self.dependencies@.take(i as int)),
            decreases self.dependencies.len() - i,
        {
            let ghost before = res@;
            proof {
                assert(self.dependencies@.take(i as int + 1).drop_last() =~= self.dependencies@.take(i as int));
            }
            match self.dependencies[i].as_feature() {
                Some(f) => {
                    res.push(f);
                    proof {
                        assert(res@.map_values(|s: &str| s@) =~= before.map_values(|s: &str| s@).push(f@));
                    }
                },
                None => {},
            }
            i = i + 1;
        }
        proof {
            assert(self.dependencies@.take(self.dependencies@.len() as int) =~= self.dependencies@);
        }
        res
    }
}

/// Information about a dependency kind.
pub struct DepKindInfo {
    /// The kind of dependency; `None` for a normal dependency.
    pub kind: Option<String>,
    /// The target platform for the dependency; `None` if it is not a target dependency.
    pub target: Option<String>,
}

/// A dependency in a node of the resolved dependency graph.
pub struct NodeDep {
    /// The Package ID of the dependency.
    pub pkg: PackageId,
    /// The kinds of dependencies.
    pub dep_kinds: Vec<DepKindInfo>,
}

/// Whether a resolved dependency is a normal dependency on every target.
pub open spec fn is_plain_dependency(d: NodeDep) -> bool {
    exists|k: int| 0 <= k < d.dep_kinds@.len() && (#[trigger] d.dep_kinds@[k]).kind is None && d.dep_kinds@[k].target is None
}

impl NodeDep {
    /// Whether this is a normal dependency on every target.
    pub fn is_plain(&self) -> (res: bool)
        ensures
            res == is_plain_dependency(*self),
    {
        let mut k: usize = 0;
        while k < self.dep_kinds.len()
            invariant
                k <= self.dep_kinds@.len(),
                forall|j: int| 0 <= j < k ==> !((#[trigger] self.dep_kinds@[j]).kind is None && self.dep_kinds@[j].target is None),
            decreases self.dep_kinds.len() - k,
        {
            if self.dep_kinds[k].kind.is_none() && self.dep_kinds[k].target.is_none() {
                return true;
            }
            k = k + 1;
        }
        false
    }
}

/// Where the reading of `cargo metadata` stands.
#[derive(Clone, Copy, PartialEq, Eq, Structural, Debug)]
pub enum MetaState {
    /// Nothing run yet.
    Start,
    /// `cargo metadata --no-deps` is running.
    AwaitNoDeps,
    /// The stable cargo is running (the lockfile is kept as it was).
    AwaitStable,
    /// The cargo in use is running.
    AwaitCurrent,
    /// Done.
    Finished,
}

/// What happened: the minor versions of the stable cargo and of the one
/// in use are known, or the last command ran, well or not.
#[derive(Clone, Copy, PartialEq, Eq, Structural, Debug)]
pub enum MetaEvent {
    Versions { stable: u32, current: u32 },
    Ran { ok: bool },
}

/// What to do next.
#[derive(Clone, Copy, PartialEq, Eq, Structural, Debug)]
pub enum MetaAction {
    /// Run `cargo metadata --format-version=1 --no-deps` with the cargo in
    /// use (then make a lockfile where there is none).
    RunNoDeps,
    /// Run the metadata command with the stable cargo, keeping the lockfile.
    RunStable,
    /// Run the metadata command with the cargo in use.
    RunCurrent,
    /// Read the output of the last command, for the stable cargo or not.
    UseOutput { stable: bool },
    /// Read the output of `--no-deps`.
    UseNoDeps,
    /// Fail with the error of the last command.
    Fail,
}

/// The next state and action: where the stable cargo is newer than the
/// one in use, `--no-deps` first, then the stable cargo (an older cargo may
/// fail on a member whose dependencies need newer cargo features); where
/// that fails, the cargo in use again when the features of dependencies
/// are wanted, else the `--no-deps` output. Otherwise the cargo in use.
pub open spec fn spec_metadata_step(state: MetaState, event: MetaEvent, include_deps_features: bool) -> (
    MetaState,
    MetaAction,
) {
    match (state, event) {
        (MetaState::Start, MetaEvent::Versions { stable, current }) => if stable > current {
            (MetaState::AwaitNoDeps, MetaAction::RunNoDeps)
        } else {
            (MetaState::AwaitCurrent, MetaAction::RunCurrent)
        },
        (MetaState::AwaitNoDeps, MetaEvent::Ran { ok }) => if ok {
            (MetaState::AwaitStable, MetaAction::RunStable)
        } else {
            (MetaState::Finished, MetaAction::Fail)
        },
        (MetaState::AwaitStable, MetaEvent::Ran { ok }) => if ok {
            (MetaState::Finished, MetaAction::UseOutput { stable: true })
        } else if include_deps_features {
            (MetaState::AwaitCurrent, MetaAction::RunCurrent)
        } else {
            (MetaState::Finished, MetaAction::UseNoDeps)
        },
        (MetaState::AwaitCurrent, MetaEvent::Ran { ok }) => if ok {
            (MetaState::Finished, MetaAction::UseOutput { stable: false })
        } else {
            (MetaState::Finished, MetaAction::Fail)
        },
        _ => (MetaState::Finished, MetaAction::Fail),
    }
}

/// The next state and action of reading `cargo metadata` (see
/// `spec_metadata_step`); an event that does not fit the state ends it.
pub fn metadata_step(state: MetaState, event: MetaEvent, include_deps_features: bool) -> (res: (MetaState, MetaAction))
    ensures
        res == spec_metadata_step(state, event, include_deps_features),
{
    match (state, event) {
        (MetaState::Start, MetaEvent::Versions { stable, current }) => if stable > current {
            (MetaState::AwaitNoDeps, MetaAction::RunNoDeps)
        } else {
            (MetaState::AwaitCurrent, MetaAction::RunCurrent)
        },
        (MetaState::AwaitNoDeps, MetaEvent::Ran { ok }) => if ok {
            (MetaState::AwaitStable, MetaAction::RunStable)
        } else {
            (MetaState::Finished, MetaAction::Fail)
        },
        (MetaState::AwaitStable, MetaEvent::Ran { ok }) => if ok {
            (MetaState::Finished, MetaAction::UseOutput { stable: true })
        } else if include_deps_features {
            (MetaState::AwaitCurrent, MetaAction::RunCurrent)
        } else {
            (MetaState::Finished, MetaAction::UseNoDeps)
        },
        (MetaState::AwaitCurrent, MetaEvent::Ran { ok }) => if ok {
            (MetaState::Finished, MetaAction::UseOutput { stable: false })
        } else {
            (MetaState::Finished, MetaAction::Fail)
        },
        _ => (MetaState::Finished, MetaAction::Fail),
    }
}

/// The reading of `cargo metadata` finishes after at most three commands.
pub proof fn lemma_metadata_steps_end(include_deps_features: bool, stable: u32, current: u32, r1: bool, r2: bool, r3: bool)
    ensures
        ({
            let (s1, _) = spec_metadata_step(MetaState::Start, MetaEvent::Versions { stable, current }, include_deps_features);
            let (s2, _) = spec_metadata_step(s1, MetaEvent::Ran { ok: r1 }, include_deps_features);
            let (s3, _) = spec_metadata_step(s2, MetaEvent::Ran { ok: r2 }, include_deps_features);
            let (s4, _) = spec_metadata_step(s3, MetaEvent::Ran { ok: r3 }, include_deps_features);
            s4 is Finished
        }),
{
}

} // verus!
