//! Which workspace members are run: all of them with `--workspace` (but
//! those excluded), those named with `--package`, or the current package.

use vstd::prelude::*;

use crate::error::Error;
use crate::text::{contains_string, views};

verus! {

/// The members chosen, whether there are several packages, and the
/// warnings for excluded names that name no member.
#[derive(Debug)]
pub struct Selection {
    pub members: Vec<usize>,
    pub multiple: bool,
    pub warnings: Vec<String>,
}

/// The indices below `n` of the names that occur in `list` (where `inside`)
/// or that do not (where not), in order.
pub open spec fn indices_where(names: Seq<Seq<char>>, list: Seq<Seq<char>>, inside: bool, n: int) -> Seq<usize>
    decreases n,
{
    if n <= 0 {
        Seq::empty()
    } else if list.contains(names[n - 1]) == inside {
        indices_where(names, list, inside, n - 1).push((n - 1) as usize)
    } else {
        indices_where(names, list, inside, n - 1)
    }
}

/// The names of `specs` that name no member, in order.
pub open spec fn unmatched(names: Seq<Seq<char>>, specs: Seq<Seq<char>>) -> Seq<Seq<char>>
    decreases specs.len(),
{
    if specs.len() == 0 {
        Seq::empty()
    } else if names.contains(specs.last()) {
        unmatched(names, specs.drop_last())
    } else {
        unmatched(names, specs.drop_last()).push(specs.last())
    }
}

/// The warning for an excluded name that names no member.
pub open spec fn exclude_warning(spec: Seq<char>, root: Seq<char>) -> Seq<char> {
    "excluded package(s) `"@ + spec + "` not found in workspace `"@ + root + "`"@
}

/// The warnings for the names of `specs`, in order.
pub open spec fn exclude_warnings(specs: Seq<Seq<char>>, root: Seq<char>) -> Seq<Seq<char>>
    decreases specs.len(),
{
    if specs.len() == 0 {
        Seq::empty()
    } else {
        exclude_warnings(specs.drop_last(), root).push(exclude_warning(specs.last(), root))
    }
}

/// `a - b`, or 0 where `b` is larger.
pub open spec fn saturating_sub(a: int, b: int) -> int {
    if a >= b {
        a - b
    } else {
        0
    }
}

/// The members to run, from the names of the workspace members, the
/// workspace root, `--workspace`, `--exclude`, `--package` and the name of
/// the current package, if any: the member indices, whether several
/// packages are run, and the warnings; or the error message.
pub open spec fn spec_select(
    names: Seq<Seq<char>>,
    root: Seq<char>,
    workspace: bool,
    exclude: Seq<Seq<char>>,
    package: Seq<Seq<char>>,
    current: Option<Seq<char>>,
) -> Result<(Seq<usize>, bool, Seq<Seq<char>>), Seq<char>> {
    if workspace {
        Ok(
            (
                indices_where(names, exclude, false, names.len() as int),
                saturating_sub(names.len() as int, exclude.len() as int) > 1,
                exclude_warnings(unmatched(names, exclude), root),
            ),
        )
    } else if package.len() > 0 {
        if unmatched(names, package).len() > 0 {
            Err("package ID specification `"@ + unmatched(names, package)[0] + "` matched no packages"@)
        } else {
            Ok((indices_where(names, package, true, names.len() as int), package.len() > 1, Seq::empty()))
        }
    } else {
        match current {
            None => Ok((indices_where(names, Seq::empty(), false, names.len() as int), names.len() > 1, Seq::empty())),
            Some(c) => {
                let found = indices_where(names, seq![c], true, names.len() as int);
                Ok((if found.len() > 0 { seq![found[0]] } else { Seq::empty() }, false, Seq::empty()))
            },
        }
    }
}

/// The first name of `unmatched(names, specs)` is the first name of
/// `specs` that names no member.
proof fn lemma_unmatched_first(names: Seq<Seq<char>>, specs: Seq<Seq<char>>, k: int)
    requires
        0 <= k < specs.len(),
        unmatched(names, specs.take(k)).len() == 0,
        !names.contains(specs[k]),
    ensures
        unmatched(names, specs).len() > 0,
        unmatched(names, specs)[0] == specs[k],
    decreases specs.len(),
{
    if k == specs.len() - 1 {
        assert(specs.drop_last() =~= specs.take(k));
    } else {
        assert(specs.drop_last().take(k) =~= specs.take(k));
        lemma_unmatched_first(names, specs.drop_last(), k);
    }
}

/// An index is in `indices_where(names, list, inside, n)` exactly when it is
/// below `n` and `list` names that member (or does not), and the indices
/// rise strictly.
proof fn lemma_indices_where(names: Seq<Seq<char>>, list: Seq<Seq<char>>, inside: bool, n: int)
    requires
        0 <= n <= names.len(),
        names.len() <= usize::MAX,
    ensures
        forall|i: int|
            0 <= i < names.len() ==> (indices_where(names, list, inside, n).contains(i as usize) <==> (i < n
                && list.contains(names[i]) == inside)),
        forall|a: int, b: int|
            0 <= a < b < indices_where(names, list, inside, n).len() ==> indices_where(names, list, inside, n)[a]
                < indices_where(names, list, inside, n)[b],
        forall|a: int|
            0 <= a < indices_where(names, list, inside, n).len() ==> indices_where(names, list, inside, n)[a] < n,
    decreases n,
{
    if n > 0 {
        lemma_indices_where(names, list, inside, n - 1);
        let prev = indices_where(names, list, inside, n - 1);
        if list.contains(names[n - 1]) == inside {
            let pp = prev.push((n - 1) as usize);
            assert forall|i: int| 0 <= i < names.len() implies (pp.contains(i as usize) <==> (i < n
                && list.contains(names[i]) == inside)) by {
                if i == n - 1 {
                    assert(pp[prev.len() as int] == (n - 1) as usize);
                }
                if pp.contains(i as usize) && i != n - 1 {
                    let j = choose|j: int| 0 <= j < pp.len() && pp[j] == i as usize;
                    assert(prev[j] == i as usize);
                }
                if prev.contains(i as usize) {
                    let j = choose|j: int| 0 <= j < prev.len() && prev[j] == i as usize;
                    assert(pp[j] == i as usize);
                }
            }
        }
    }
}

/// With `--workspace`, the members run are exactly those that no
/// `--exclude` names, in the order of the workspace.
pub proof fn lemma_workspace_runs_all_but_excluded(
    names: Seq<Seq<char>>,
    root: Seq<char>,
    exclude: Seq<Seq<char>>,
    package: Seq<Seq<char>>,
    current: Option<Seq<char>>,
)
    requires
        names.len() <= usize::MAX,
    ensures
        spec_select(names, root, true, exclude, package, current) is Ok,
        forall|i: int|
            0 <= i < names.len() ==> (spec_select(names, root, true, exclude, package, current)->Ok_0.0.contains(
                i as usize,
            ) <==> !exclude.contains(names[i])),
        forall|a: int, b: int|
            0 <= a < b < spec_select(names, root, true, exclude, package, current)->Ok_0.0.len() ==> spec_select(
                names,
                root,
                true,
                exclude,
                package,
                current,
            )->Ok_0.0[a] < spec_select(names, root, true, exclude, package, current)->Ok_0.0[b],
{
    lemma_indices_where(names, exclude, false, names.len() as int);
}

/// With `--package` and without `--workspace`, either some name given names
/// no member and the selection fails, or the members run are exactly those
/// named, in the order of the workspace.
pub proof fn lemma_package_runs_named(
    names: Seq<Seq<char>>,
    root: Seq<char>,
    exclude: Seq<Seq<char>>,
    package: Seq<Seq<char>>,
    current: Option<Seq<char>>,
)
    requires
        names.len() <= usize::MAX,
        package.len() > 0,
    ensures
        spec_select(names, root, false, exclude, package, current) is Err <==> exists|k: int|
            0 <= k < package.len() && !names.contains(#[trigger] package[k]),
        spec_select(names, root, false, exclude, package, current) is Ok ==> forall|i: int|
            0 <= i < names.len() ==> (spec_select(names, root, false, exclude, package, current)->Ok_0.0.contains(
                i as usize,
            ) <==> package.contains(names[i])),
{
    lemma_indices_where(names, package, true, names.len() as int);
    lemma_unmatched_named(names, package);
}

/// A name is in `unmatched(names, specs)` exactly when `specs` has it and no
/// member is named so.
proof fn lemma_unmatched_named(names: Seq<Seq<char>>, specs: Seq<Seq<char>>)
    ensures
        forall|x: Seq<char>| unmatched(names, specs).contains(x) <==> (specs.contains(x) && !names.contains(x)),
        unmatched(names, specs).len() > 0 <==> exists|k: int| 0 <= k < specs.len() && !names.contains(#[trigger] specs[k]),
    decreases specs.len(),
{
    if specs.len() > 0 {
        let init = specs.drop_last();
        lemma_unmatched_named(names, init);
        assert forall|x: Seq<char>| specs.contains(x) <==> (init.contains(x) || x == specs.last()) by {
            if specs.contains(x) {
                let j = choose|j: int| 0 <= j < specs.len() && specs[j] == x;
                if j < specs.len() - 1 {
                    assert(init[j] == x);
                }
            }
            if init.contains(x) {
                let j = choose|j: int| 0 <= j < init.len() && init[j] == x;
                assert(specs[j] == x);
            }
        }
        let u = unmatched(names, init);
        if !names.contains(specs.last()) {
            assert(u.push(specs.last())[u.len() as int] == specs.last());
            assert forall|x: Seq<char>| u.push(specs.last()).contains(x) <==> (u.contains(x) || x == specs.last()) by {
                if u.push(specs.last()).contains(x) {
                    let j = choose|j: int| 0 <= j < u.len() + 1 && u.push(specs.last())[j] == x;
                    if j < u.len() {
                        assert(u[j] == x);
                    }
                }
                if u.contains(x) {
                    let j = choose|j: int| 0 <= j < u.len() && u[j] == x;
                    assert(u.push(specs.last())[j] == x);
                }
            }
        }
        if exists|k: int| 0 <= k < specs.len() && !names.contains(#[trigger] specs[k]) {
            let k = choose|k: int| 0 <= k < specs.len() && !names.contains(#[trigger] specs[k]);
            if k < specs.len() - 1 {
                assert(init[k] == specs[k]);
            }
        }
        if exists|k: int| 0 <= k < init.len() && !names.contains(#[trigger] init[k]) {
            let k = choose|k: int| 0 <= k < init.len() && !names.contains(#[trigger] init[k]);
            assert(specs[k] == init[k]);
        }
    }
}

/// The indices of the members that `list` names (where `inside`), or that
/// it does not name.
fn members_in(names: &Vec<String>, list: &Vec<String>, inside: bool) -> (res: Vec<usize>)
    ensures
        res@ == indices_where(views(names@), views(list@), inside, names@.len() as int),
{
    let mut res: Vec<usize> = Vec::new();
    let mut i: usize = 0;
    while i < names.len()
        invariant
            i <= names@.len(),
            res@ == indices_where(views(names@), views(list@), inside, i as int),
        decreases names@.len() - i,
    {
        let c = contains_string(list, &names[i]);
        proof {
            assert(views(names@)[i as int] == names@[i as int]@);
        }
        if c == inside {
            res.push(i);
        }
        i = i + 1;
    }
    res
}

/// An empty list of warnings.
fn no_warnings() -> (res: Vec<String>)
    ensures
        views(res@) == Seq::<Seq<char>>::empty(),
{
    let res: Vec<String> = Vec::new();
    proof {
        assert(views(res@) =~= Seq::<Seq<char>>::empty());
    }
    res
}

/// Chooses the members to run.
pub fn select_members(
    names: &Vec<String>,
    root: &str,
    workspace: bool,
    exclude: &Vec<String>,
    package: &Vec<String>,
    current: Option<&str>,
) -> (res: Result<Selection, Error>)
    ensures
        match res {
            Ok(s) => spec_select(views(names@), root@, workspace, views(exclude@), views(package@), crate::text::opt_str_view(current))
                == Ok::<(Seq<usize>, bool, Seq<Seq<char>>), Seq<char>>((s.members@, s.multiple, views(s.warnings@))),
            Err(e) => spec_select(views(names@), root@, workspace, views(exclude@), views(package@), crate::text::opt_str_view(current))
                == Err::<(Seq<usize>, bool, Seq<Seq<char>>), Seq<char>>(e@),
        },
{
    let ghost nv = views(names@);
    if workspace {
        let ghost ev = views(exclude@);
        let mut warnings: Vec<String> = Vec::new();
        let mut k: usize = 0;
        proof {
            assert(ev.take(0) =~= Seq::<Seq<char>>::empty());
        }
        while k < exclude.len()
            invariant
                k <= exclude@.len(),
                ev == views(exclude@),
                nv == views(names@),
                views(warnings@) == exclude_warnings(unmatched(nv, ev.take(k as int)), root@),
            decreases exclude@.len() - k,
        {
            proof {
                assert(ev.take(k + 1).drop_last() =~= ev.take(k as int));
                assert(ev.take(k + 1).last() == exclude@[k as int]@);
            }
            let ghost before = views(warnings@);
            if !contains_string(names, &exclude[k]) {
                let mut w = String::from_str("excluded package(s) `");
                w.append(exclude[k].as_str());
                w.append("` not found in workspace `");
                w.append(root);
                w.append("`");
                warnings.push(w);
                proof {
                    assert(views(warnings@) =~= before.push(w@));
                    let u = unmatched(nv, ev.take(k as int));
                    assert(u.push(exclude@[k as int]@).drop_last() =~= u);
                }
            }
            k = k + 1;
        }
        proof {
            assert(ev.take(exclude@.len() as int) =~= ev);
        }
        let members = members_in(names, exclude, false);
        let multiple = names.len() > exclude.len() && names.len() - exclude.len() > 1;
        return Ok(Selection { members, multiple, warnings });
    }
    if package.len() > 0 {
        let ghost pv = views(package@);
        let mut k: usize = 0;
        proof {
            assert(pv.take(0) =~= Seq::<Seq<char>>::empty());
        }
        while k < package.len()
            invariant
                k <= package@.len(),
                !workspace,
                pv == views(package@),
                nv == views(names@),
                unmatched(nv, pv.take(k as int)).len() == 0,
            decreases package@.len() - k,
        {
            proof {
                assert(pv.take(k + 1).drop_last() =~= pv.take(k as int));
                assert(pv[k as int] == package@[k as int]@);
            }
            if !contains_string(names, &package[k]) {
                proof {
                    lemma_unmatched_first(nv, pv, k as int);
                }
                let mut m = String::from_str("package ID specification `");
                m.append(package[k].as_str());
                m.append("` matched no packages");
                let e = Error::msg(m);
                proof {
                    assert(unmatched(nv, pv)[0] == package@[k as int]@);
                }
                return Err(e);
            }
            k = k + 1;
        }
        proof {
            assert(pv.take(package@.len() as int) =~= pv);
        }
        let members = members_in(names, package, true);
        return Ok(Selection { members, multiple: package.len() > 1, warnings: no_warnings() });
    }
    match current {
        None => {
            let empty: Vec<String> = Vec::new();
            let members = members_in(names, &empty, false);
            proof {
                assert(views(empty@) =~= Seq::<Seq<char>>::empty());
            }
            Ok(Selection { members, multiple: names.len() > 1, warnings: no_warnings() })
        },
        Some(c) => {
            let mut only: Vec<String> = Vec::new();
            only.push(String::from_str(c));
            let found = members_in(names, &only, true);
            proof {
                assert(views(only@) =~= seq![c@]);
            }
            let mut members: Vec<usize> = Vec::new();
            if found.len() > 0 {
                members.push(found[0]);
            }
            proof {
                assert(members@ =~= (if found@.len() > 0 { seq![found@[0]] } else { Seq::empty() }));
            }
            Ok(Selection { members, multiple: false, warnings: no_warnings() })
        },
    }
}

/// Without `--workspace` and `--package`, inside the package named `c`,
/// only that package runs: the selection succeeds, holds at most one
/// member, and that member is named `c` (the first so named, where one is);
/// a single package is run.
pub proof fn lemma_current_package_runs_alone(
    names: Seq<Seq<char>>,
    root: Seq<char>,
    exclude: Seq<Seq<char>>,
    c: Seq<char>,
)
    requires
        names.len() <= usize::MAX,
    ensures
        spec_select(names, root, false, exclude, Seq::empty(), Some(c)) is Ok,
        spec_select(names, root, false, exclude, Seq::empty(), Some(c))->Ok_0.0.len() <= 1,
        spec_select(names, root, false, exclude, Seq::empty(), Some(c))->Ok_0.0.len() == 1 <==> names.contains(c),
        forall|k: int|
            0 <= k < spec_select(names, root, false, exclude, Seq::empty(), Some(c))->Ok_0.0.len() ==> {
                let m = #[trigger] spec_select(names, root, false, exclude, Seq::empty(), Some(c))->Ok_0.0[k] as int;
                &&& 0 <= m < names.len()
                &&& names[m] == c
                &&& forall|j: int| 0 <= j < m ==> names[j] != c
            },
        !spec_select(names, root, false, exclude, Seq::empty(), Some(c))->Ok_0.1,
{
    let list = seq![c];
    let n = names.len() as int;
    lemma_indices_where(names, list, true, n);
    let found = indices_where(names, list, true, n);
    assert forall|x: Seq<char>| list.contains(x) <==> x == c by {
        if x == c {
            assert(list[0] == c);
        }
    }
    if names.contains(c) {
        let i = choose|i: int| 0 <= i < names.len() && names[i] == c;
        assert(found.contains(i as usize));
    }
    if found.len() > 0 {
        let m = found[0] as int;
        assert(found.contains(found[0]));
        assert(list.contains(names[m]));
        assert(names[m] == c);
        assert(names.contains(c));
        assert forall|j: int| 0 <= j < m implies names[j] != c by {
            if names[j] == c {
                assert(found.contains(j as usize));
                let a = choose|a: int| 0 <= a < found.len() && found[a] == j as usize;
                if a > 0 {
                    assert(found[0] < found[a]);
                }
            }
        }
    }
}

} // verus!
