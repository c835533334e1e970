//! How the manifests of the workspace are changed for `--no-dev-deps`,
//! `--remove-dev-deps` and `--no-private` while cargo runs.

use vstd::prelude::*;

use crate::error::Error;
use crate::feature_map::{lemma_keys_unique, FeatureMap, MapView};
use crate::text::views;
use crate::toml::{
    features_table, has_exclude, has_workspace, insert_exclude, package_table_fields, push_exclude, remove_member,
    remove_target_key, remove_top_key, reprint, target_keys, toml_error, toml_features, toml_has_exclude,
    toml_has_workspace, toml_members, toml_package, toml_parse_error, toml_reprint, toml_target_keys,
    toml_with_exclude_array, toml_with_exclude_pushed, toml_without_key, toml_without_member,
    toml_without_target_key, workspace_members,
};

verus! {

/// What is done to the manifest of one workspace member.
#[derive(Clone, Copy, PartialEq, Eq, Structural, Debug)]
pub enum MemberChange {
    /// It is left as it is.
    Keep,
    /// Its dev-dependencies are removed.
    RemoveDevDeps,
    /// The member is private and is taken out of the workspace.
    DropPrivate,
}

/// The changes to the manifests: one per member, in order; the member
/// whose manifest is the workspace root's, if any; whether the root
/// manifest is rewritten, and if so whether its dev-dependencies and the
/// private members are removed from it.
#[derive(Debug)]
pub struct ChangePlan {
    pub members: Vec<MemberChange>,
    pub root: Option<usize>,
    pub rewrite_root: bool,
    pub root_remove_dev_deps: bool,
    pub root_remove_private: bool,
}

/// The change to a member's own manifest, from whether it is the root
/// member, whether it is private, and the flags.
pub open spec fn member_change(is_root: bool, is_private: bool, no_dev_deps: bool, no_private: bool) -> MemberChange {
    if is_private && no_private {
        MemberChange::DropPrivate
    } else if is_root && no_private {
        MemberChange::Keep
    } else if no_dev_deps {
        MemberChange::RemoveDevDeps
    } else {
        MemberChange::Keep
    }
}

/// The last of the first `n` members that is the root member.
pub open spec fn last_root(members: Seq<(bool, bool)>, n: int) -> Option<usize>
    decreases n,
{
    if n <= 0 {
        None
    } else if members[n - 1].0 {
        Some((n - 1) as usize)
    } else {
        last_root(members, n - 1)
    }
}

/// Whether some member is both the root member and private.
pub open spec fn has_private_root(members: Seq<(bool, bool)>) -> bool {
    exists|i: int| 0 <= i < members.len() && (#[trigger] members[i]).0 && members[i].1
}

/// Whether some member is private.
pub open spec fn has_private(members: Seq<(bool, bool)>) -> bool {
    exists|i: int| 0 <= i < members.len() && (#[trigger] members[i]).1
}

/// The message when the root member is private and `--no-private` is given.
pub open spec fn private_root_message() -> Seq<char> {
    "--no-private is not supported yet with workspace with private root crate"@
}

/// The plan for the members, given as (is the root member, is private),
/// as plain values; or the error message.
pub open spec fn spec_change_plan(members: Seq<(bool, bool)>, no_dev_deps: bool, no_private: bool) -> Result<
    (Seq<MemberChange>, Option<usize>, bool, bool, bool),
    Seq<char>,
> {
    let root = last_root(members, members.len() as int);
    if no_private && has_private_root(members) {
        Err(private_root_message())
    } else {
        let rewrite = no_private && (no_dev_deps && root is Some || has_private(members));
        Ok(
            (
                members.map_values(|m: (bool, bool)| member_change(m.0, m.1, no_dev_deps, no_private)),
                root,
                rewrite,
                rewrite && no_dev_deps && root is Some,
                rewrite && has_private(members),
            ),
        )
    }
}

/// Plans the changes to the manifests for the members, each given as (is
/// the root member, is private): with `--no-private` a private member is
/// taken out of the workspace (refused for the root member), and with
/// `--no-dev-deps` every other member loses its dev-dependencies, the root
/// member's in the rewritten root manifest where `--no-private` is given.
pub fn change_plan(members: &Vec<(bool, bool)>, no_dev_deps: bool, no_private: bool) -> (res: Result<ChangePlan, Error>)
    ensures
        match res {
            Ok(p) => spec_change_plan(members@, no_dev_deps, no_private) == Ok::<
                (Seq<MemberChange>, Option<usize>, bool, bool, bool),
                Seq<char>,
            >((p.members@, p.root, p.rewrite_root, p.root_remove_dev_deps, p.root_remove_private)),
            Err(e) => spec_change_plan(members@, no_dev_deps, no_private) == Err::<
                (Seq<MemberChange>, Option<usize>, bool, bool, bool),
                Seq<char>,
            >(e@),
        },
{
    let ghost f = |m: (bool, bool)| member_change(m.0, m.1, no_dev_deps, no_private);
    let mut changes: Vec<MemberChange> = Vec::new();
    let mut root: Option<usize> = None;
    let mut any_private = false;
    let mut i: usize = 0;
    while i < members.len()
        invariant
            i <= members@.len(),
            f == (|m: (bool, bool)| member_change(m.0, m.1, no_dev_deps, no_private)),
            changes@ == members@.take(i as int).map_values(f),
            root == last_root(members@, i as int),
            any_private == exists|k: int| 0 <= k < i && (#[trigger] members@[k]).1,
            no_private ==> forall|k: int| 0 <= k < i ==> !((#[trigger] members@[k]).0 && members@[k].1),
        decreases members@.len() - i,
    {
        let (is_root, is_private) = members[i];
        if is_root {
            root = Some(i);
        }
        if is_private && no_private && is_root {
            let e = Error::msg(String::from_str("--no-private is not supported yet with workspace with private root crate"));
            proof {
                assert(has_private_root(members@));
            }
            return Err(e);
        }
        let c = if is_private && no_private {
            MemberChange::DropPrivate
        } else if is_root && no_private {
            MemberChange::Keep
        } else if no_dev_deps {
            MemberChange::RemoveDevDeps
        } else {
            MemberChange::Keep
        };
        changes.push(c);
        if is_private {
            any_private = true;
        }
        proof {
            assert(members@.take(i + 1) =~= members@.take(i as int).push(members@[i as int]));
            assert(changes@ =~= members@.take(i + 1).map_values(f));
        }
        i = i + 1;
    }
    proof {
        assert(members@.take(members@.len() as int) =~= members@);
        if has_private(members@) {
            let k = choose|k: int| 0 <= k < members@.len() && (#[trigger] members@[k]).1;
            assert(members@[k].1);
        }
        if no_private && has_private_root(members@) {
            let k = choose|k: int| 0 <= k < members@.len() && (#[trigger] members@[k]).0 && members@[k].1;
            assert(!(members@[k].0 && members@[k].1));
        }
    }
    let rewrite = no_private && (no_dev_deps && root.is_some() || any_private);
    Ok(
        ChangePlan {
            members: changes,
            root,
            rewrite_root: rewrite,
            root_remove_dev_deps: rewrite && no_dev_deps && root.is_some(),
            root_remove_private: rewrite && any_private,
        },
    )
}

/// The place in `remaining` of the first private crate that `row` says is
/// the same as the member.
pub open spec fn first_same(remaining: Seq<usize>, row: Seq<bool>) -> Option<int>
    decreases remaining.len(),
{
    if remaining.len() == 0 {
        None
    } else if 0 <= remaining[0] < row.len() && row[remaining[0] as int] {
        Some(0)
    } else {
        match first_same(remaining.drop_first(), row) {
            Some(k) => Some(k + 1),
            None => None,
        }
    }
}

/// Going through the members from `i` on, with the private crates
/// `remaining` not yet found: the members that are taken out of the
/// workspace's member list, and the private crates still not found at the
/// end. A member given as a path (`is_path[i]`) is the same as private
/// crate `j` where `same[i][j]`; each is matched with the first private
/// crate left that it is the same as, which is then found.
pub open spec fn member_edits(is_path: Seq<bool>, same: Seq<Seq<bool>>, i: int, remaining: Seq<usize>) -> (
    Seq<usize>,
    Seq<usize>,
)
    decreases is_path.len() - i,
{
    if i < 0 || i >= is_path.len() {
        (Seq::empty(), remaining)
    } else if is_path[i] && first_same(remaining, same[i]) is Some {
        let k = first_same(remaining, same[i])->0;
        let (removed, left) = member_edits(is_path, same, i + 1, remaining.remove(k));
        (seq![i as usize] + removed, left)
    } else {
        member_edits(is_path, same, i + 1, remaining)
    }
}

/// The indices `0..n`.
pub open spec fn indices(n: nat) -> Seq<usize> {
    Seq::new(n, |j: int| j as usize)
}

/// The place of the first private crate left that `row` marks.
fn find_same(remaining: &Vec<usize>, row: &Vec<bool>) -> (res: Option<usize>)
    ensures
        match res {
            Some(k) => first_same(remaining@, row@) == Some(k as int) && k < remaining@.len(),
            None => first_same(remaining@, row@) is None,
        },
{
    let mut k: usize = 0;
    proof {
        assert(remaining@.skip(0) =~= remaining@);
    }
    while k < remaining.len()
        invariant
            k <= remaining@.len(),
            first_same(remaining@, row@) == match first_same(remaining@.skip(k as int), row@) {
                Some(x) => Some(x + k),
                None => None::<int>,
            },
        decreases remaining@.len() - k,
    {
        let j = remaining[k];
        proof {
            assert(remaining@.skip(k as int)[0] == j);
            assert(remaining@.skip(k as int).drop_first() =~= remaining@.skip(k + 1));
        }
        if j < row.len() && row[j] {
            return Some(k);
        }
        k = k + 1;
    }
    None
}

/// Which members leave the workspace's member list for `--no-private`, and
/// which private crates (by index, in order) are then added to its
/// `exclude` list (see `member_edits`, starting from every private crate).
pub fn private_member_edits(is_path: &Vec<bool>, same: &Vec<Vec<bool>>, n_private: usize) -> (res: (
    Vec<usize>,
    Vec<usize>,
))
    requires
        same@.len() == is_path@.len(),
    ensures
        (res.0@, res.1@) == member_edits(is_path@, same@.map_values(|r: Vec<bool>| r@), 0, indices(n_private as nat)),
{
    let ghost sv = same@.map_values(|r: Vec<bool>| r@);
    let mut remaining: Vec<usize> = Vec::new();
    let mut j: usize = 0;
    while j < n_private
        invariant
            j <= n_private,
            remaining@ == indices(j as nat),
        decreases n_private - j,
    {
        remaining.push(j);
        j = j + 1;
        proof {
            assert(remaining@ =~= indices(j as nat));
        }
    }
    let ghost total = member_edits(is_path@, sv, 0, indices(n_private as nat));
    let mut removed: Vec<usize> = Vec::new();
    let mut i: usize = 0;
    while i < is_path.len()
        invariant
            i <= is_path@.len(),
            same@.len() == is_path@.len(),
            sv == same@.map_values(|r: Vec<bool>| r@),
            total == member_edits(is_path@, sv, 0, indices(n_private as nat)),
            ({
                let (r, left) = member_edits(is_path@, sv, i as int, remaining@);
                removed@ + r == total.0 && left == total.1
            }),
        decreases is_path@.len() - i,
    {
        let ghost before_removed = removed@;
        let ghost before_remaining = remaining@;
        if is_path[i] {
            match find_same(&remaining, &same[i]) {
                Some(k) => {
                    proof {
                        assert(sv[i as int] == same@[i as int]@);
                    }
                    remaining.remove(k);
                    removed.push(i);
                    proof {
                        let (r, left) = member_edits(is_path@, sv, i + 1, remaining@);
                        assert(remaining@ =~= before_remaining.remove(k as int));
                        assert(removed@ + r =~= before_removed + (seq![i as usize] + r));
                    }
                },
                None => {
                    proof {
                        assert(sv[i as int] == same@[i as int]@);
                    }
                },
            }
        }
        i = i + 1;
    }
    proof {
        assert(removed@ + Seq::<usize>::empty() =~= removed@);
    }
    (removed, remaining)
}

/// The `publish` field of a manifest's `[package]` table, as far as it is
/// read.
#[derive(Clone, Copy, PartialEq, Eq, Structural, Debug)]
pub enum PublishField {
    Missing,
    Bool(bool),
    /// An array, with whether it is empty.
    Array(bool),
    Other,
}

/// A text field of a manifest's `[package]` table, as far as it is read.
#[derive(Debug)]
pub enum TextField {
    Missing,
    Text(String),
    Other,
}

/// The `[features]` table of a manifest, as far as it is read: each entry
/// by name, with its array's strings (`None` for an element that is not a
/// string), or `None` where the entry is not an array.
#[derive(Debug)]
pub enum FeaturesField {
    Missing,
    NotTable,
    Table(Vec<(String, Option<Vec<Option<String>>>)>),
}

/// Whether the package may be published: unrestricted where the field is
/// missing or `true`, forbidden where it is `false` or an empty array.
pub open spec fn spec_publish(f: PublishField) -> Option<bool> {
    match f {
        PublishField::Missing => Some(true),
        PublishField::Bool(b) => Some(b),
        PublishField::Array(empty) => Some(!empty),
        PublishField::Other => None,
    }
}

/// The `rust-version` field: none where missing, the text where it is
/// text; else nothing can be read.
pub open spec fn spec_rust_version(f: TextField) -> Option<Option<Seq<char>>> {
    match f {
        TextField::Missing => Some(None),
        TextField::Text(t) => Some(Some(t@)),
        TextField::Other => None,
    }
}

/// What is read from a manifest's package table (`None` where there is
/// none) for a version of cargo whose metadata lacks it: `publish` below
/// cargo 1.39 and `rust-version` below 1.58; or the name of the field that
/// could not be read.
pub open spec fn spec_package_fields(cargo_minor: u32, package: Option<(PublishField, TextField)>) -> Result<
    (Option<bool>, Option<Option<Seq<char>>>),
    Seq<char>,
> {
    match package {
        None => Err("package"@),
        Some((p, r)) => if cargo_minor < 39 && spec_publish(p) is None {
            Err("publish"@)
        } else if cargo_minor < 58 && spec_rust_version(r) is None {
            Err("rust-version"@)
        } else {
            Ok(
                (
                    if cargo_minor >= 39 {
                        None
                    } else {
                        spec_publish(p)
                    },
                    if cargo_minor >= 58 {
                        None
                    } else {
                        spec_rust_version(r)
                    },
                ),
            )
        },
    }
}

/// Reads the fields of a manifest's package table (see
/// `spec_package_fields`); an error is the name of the field.
pub fn package_fields(cargo_minor: u32, package: Option<(PublishField, TextField)>) -> (res: Result<
    (Option<bool>, Option<Option<String>>),
    String,
>)
    ensures
        match res {
            Ok((p, r)) => spec_package_fields(cargo_minor, package) == Ok::<
                (Option<bool>, Option<Option<Seq<char>>>),
                Seq<char>,
            >((p, match r {
                Some(Some(t)) => Some(Some(t@)),
                Some(None) => Some(None),
                None => None,
            })),
            Err(e) => spec_package_fields(cargo_minor, package) == Err::<
                (Option<bool>, Option<Option<Seq<char>>>),
                Seq<char>,
            >(e@),
        },
{
    let (p, r) = match package {
        None => return Err(String::from_str("package")),
        Some(x) => x,
    };
    let publish = if cargo_minor >= 39 {
        None
    } else {
        match p {
            PublishField::Missing => Some(true),
            PublishField::Bool(b) => Some(b),
            PublishField::Array(empty) => Some(!empty),
            PublishField::Other => return Err(String::from_str("publish")),
        }
    };
    let rust_version = if cargo_minor >= 58 {
        None
    } else {
        match r {
            TextField::Missing => Some(None),
            TextField::Text(t) => Some(Some(t)),
            TextField::Other => return Err(String::from_str("rust-version")),
        }
    };
    Ok((publish, rust_version))
}

/// The strings of an array, without the elements that are not strings.
pub open spec fn kept_strings(vs: Seq<Option<String>>) -> Seq<Seq<char>>
    decreases vs.len(),
{
    if vs.len() == 0 {
        Seq::empty()
    } else {
        match vs.last() {
            Some(t) => kept_strings(vs.drop_last()).push(t@),
            None => kept_strings(vs.drop_last()),
        }
    }
}

/// Whether entry `i` is the last of its name among the first `n`.
pub open spec fn last_of_name(entries: Seq<(String, Option<Vec<Option<String>>>)>, i: int, n: int) -> bool {
    0 <= i < n && forall|j: int| i < j < n ==> (#[trigger] entries[j]).0@ != entries[i].0@
}

/// The entry as it is mapped: its name and the strings of its array.
pub open spec fn entry_mapped(e: (String, Option<Vec<Option<String>>>)) -> (Seq<char>, Seq<Seq<char>>) {
    (e.0@, kept_strings(e.1->0@))
}

/// Whether the first `n` entries of the table all are arrays.
pub open spec fn all_arrays(entries: Seq<(String, Option<Vec<Option<String>>>)>, n: int) -> bool {
    forall|i: int| 0 <= i < n ==> (#[trigger] entries[i]).1 is Some
}

/// Whether the features table can be read: it is missing, or a table whose
/// every entry is an array.
pub open spec fn features_readable(field: FeaturesField) -> bool {
    match field {
        FeaturesField::Missing => true,
        FeaturesField::NotTable => false,
        FeaturesField::Table(es) => all_arrays(es@, es@.len() as int),
    }
}

/// Whether `m` holds what the features table says: nothing where it is
/// missing, else each name with the strings of the last entry of that name.
pub open spec fn features_hold(field: FeaturesField, m: MapView) -> bool {
    match field {
        FeaturesField::Missing => m == MapView::empty(),
        FeaturesField::NotTable => false,
        FeaturesField::Table(es) => forall|e: (Seq<char>, Seq<Seq<char>>)|
            m.contains(e) <==> exists|i: int| last_of_name(es@, i, es@.len() as int) && e == #[trigger] entry_mapped(es@[i]),
    }
}

/// The strings of an array.
fn strings_of(vs: &Vec<Option<String>>) -> (res: Vec<String>)
    ensures
        views(res@) == kept_strings(vs@),
{
    let mut res: Vec<String> = Vec::new();
    let mut i: usize = 0;
    proof {
        assert(vs@.take(0) =~= Seq::<Option<String>>::empty());
        assert(views(res@) =~= Seq::<Seq<char>>::empty());
    }
    while i < vs.len()
        invariant
            i <= vs@.len(),
            views(res@) == kept_strings(vs@.take(i as int)),
        decreases vs@.len() - i,
    {
        proof {
            assert(vs@.take(i + 1).drop_last() =~= vs@.take(i as int));
            assert(vs@.take(i + 1).last() == vs@[i as int]);
        }
        let ghost before = views(res@);
        match &vs[i] {
            Some(t) => {
                res.push(t.clone());
                proof {
                    assert(views(res@) =~= before.push(t@));
                }
            },
            None => {},
        }
        i = i + 1;
    }
    proof {
        assert(vs@.take(vs@.len() as int) =~= vs@);
    }
    res
}

/// The features of a manifest: none where the table is missing; else each
/// entry's name mapped to the strings of its array (the last entry of a
/// name counting), which must be an array; an error is the field's name,
/// `features`, where the table or an entry is of another kind.
pub fn manifest_features(field: &FeaturesField) -> (res: Result<FeatureMap, String>)
    ensures
        res matches Ok(m) ==> features_readable(*field) && features_hold(*field, m@) && m.wf(),
        res matches Err(e) ==> !features_readable(*field) && e@ == "features"@,
        match field {
            FeaturesField::Missing => res matches Ok(m) && m@ == MapView::empty(),
            FeaturesField::NotTable => res matches Err(e) && e@ == "features"@,
            FeaturesField::Table(es) => if all_arrays(es@, es@.len() as int) {
                res matches Ok(m) && m.wf() && forall|e: (Seq<char>, Seq<Seq<char>>)|
                    m@.contains(e) <==> exists|i: int|
                        last_of_name(es@, i, es@.len() as int) && e == #[trigger] entry_mapped(es@[i])
            } else {
                res matches Err(e) && e@ == "features"@
            },
        },
{
    match field {
        FeaturesField::Missing => Ok(FeatureMap::new()),
        FeaturesField::NotTable => Err(String::from_str("features")),
        FeaturesField::Table(es) => {
            let mut m = FeatureMap::new();
            let mut k: usize = 0;
            while k < es.len()
                invariant
                    k <= es@.len(),
                    field matches FeaturesField::Table(t) && t@ == es@,
                    m.wf(),
                    all_arrays(es@, k as int),
                    forall|e: (Seq<char>, Seq<Seq<char>>)|
                        m@.contains(e) <==> exists|i: int| last_of_name(es@, i, k as int) && e == #[trigger] entry_mapped(es@[i]),
                decreases es@.len() - k,
            {
                let (name, values) = &es[k];
                match values {
                    None => {
                        proof {
                            assert(!all_arrays(es@, es@.len() as int));
                        }
                        return Err(String::from_str("features"));
                    },
                    Some(vs) => {
                        let ghost old_m = m@;
                        let strings = strings_of(vs);
                        let ghost new_e = (name@, views(strings@));
                        m.insert(name.clone(), strings);
                        proof {
                            assert(new_e == entry_mapped(es@[k as int]));
                            assert forall|e: (Seq<char>, Seq<Seq<char>>)| m@.contains(e) <==> exists|i: int|
                                last_of_name(es@, i, k + 1) && e == #[trigger] entry_mapped(es@[i]) by {
                                if m@.contains(e) {
                                    let a = choose|a: int| 0 <= a < m@.len() && m@[a] == e;
                                    if e.0 == name@ {
                                        let b = choose|b: int| 0 <= b < m@.len() && #[trigger] m@[b] == new_e;
                                        lemma_keys_unique(m@, a, b);
                                        assert(last_of_name(es@, k as int, k + 1));
                                    } else {
                                        assert(old_m.contains(e));
                                        let i = choose|i: int| last_of_name(es@, i, k as int) && e == #[trigger] entry_mapped(es@[i]);
                                        assert(last_of_name(es@, i, k + 1));
                                    }
                                }
                                if exists|i: int| last_of_name(es@, i, k + 1) && e == #[trigger] entry_mapped(es@[i]) {
                                    let i = choose|i: int| last_of_name(es@, i, k + 1) && e == #[trigger] entry_mapped(es@[i]);
                                    if i == k {
                                        let b = choose|b: int| 0 <= b < m@.len() && #[trigger] m@[b] == new_e;
                                        assert(m@[b] == e);
                                    } else {
                                        assert(es@[k as int].0@ != es@[i].0@);
                                        assert(last_of_name(es@, i, k as int));
                                        assert(old_m.contains(e));
                                        let a = choose|a: int| 0 <= a < old_m.len() && old_m[a] == e;
                                        assert(old_m[a].0 != name@);
                                        assert(m@.contains(old_m[a]));
                                    }
                                }
                            }
                        }
                    },
                }
                k = k + 1;
            }
            Ok(m)
        },
    }
}

/// What is read from a manifest: `publish` and `rust-version` where the
/// metadata of this cargo lacks them, and the features.
#[derive(Debug)]
pub struct ManifestInfo {
    pub publish: Option<bool>,
    pub rust_version: Option<Option<String>>,
    pub features: FeatureMap,
}

/// An optional optional text as plain values.
pub open spec fn opt_opt_view(o: Option<Option<String>>) -> Option<Option<Seq<char>>> {
    match o {
        Some(Some(t)) => Some(Some(t@)),
        Some(None) => Some(None),
        None => None,
    }
}

/// The error for a manifest that is no TOML.
pub open spec fn not_toml_message(path: Seq<char>, cause: Seq<char>) -> Seq<char> {
    "failed to parse manifest `"@ + path + "` as toml: "@ + cause
}

/// The error for a field of a manifest that cannot be read.
pub open spec fn field_message(field: Seq<char>, path: Seq<char>) -> Seq<char> {
    "failed to parse `"@ + field + "` field from manifest `"@ + path + "`"@
}

/// Reads the manifest `raw`, found at `path`, for a cargo of the minor
/// version `cargo_minor`: first as TOML, then its package table's fields
/// (see `spec_package_fields`), then its features (see `manifest_features`);
/// the first that fails gives the error.
pub fn read_manifest(raw: &str, path: &str, cargo_minor: u32) -> (res: Result<ManifestInfo, Error>)
    ensures
        match res {
            Ok(info) => {
                &&& toml_error(raw@) is None
                &&& spec_package_fields(cargo_minor, toml_package(raw@)) == Ok::<
                    (Option<bool>, Option<Option<Seq<char>>>),
                    Seq<char>,
                >((info.publish, opt_opt_view(info.rust_version)))
                &&& features_readable(toml_features(raw@))
                &&& features_hold(toml_features(raw@), info.features@)
                &&& info.features.wf()
            },
            Err(e) => match toml_error(raw@) {
                Some(cause) => e@ == not_toml_message(path@, cause),
                None => match spec_package_fields(cargo_minor, toml_package(raw@)) {
                    Err(field) => e@ == field_message(field, path@),
                    Ok(_) => !features_readable(toml_features(raw@)) && e@ == field_message("features"@, path@),
                },
            },
        },
{
    if let Some(cause) = toml_parse_error(raw) {
        let mut m = String::from_str("failed to parse manifest `");
        m.append(path);
        m.append("` as toml: ");
        m.append(cause.as_str());
        return Err(Error::msg(m));
    }
    let package = package_table_fields(raw);
    let (publish, rust_version) = match package_fields(cargo_minor, package) {
        Ok(x) => x,
        Err(field) => {
            let mut m = String::from_str("failed to parse `");
            m.append(field.as_str());
            m.append("` field from manifest `");
            m.append(path);
            m.append("`");
            return Err(Error::msg(m));
        },
    };
    let field = features_table(raw);
    match manifest_features(&field) {
        Ok(features) => Ok(ManifestInfo { publish, rust_version, features }),
        Err(_) => {
            let mut m = String::from_str("failed to parse `");
            m.append("features");
            m.append("` field from manifest `");
            m.append(path);
            m.append("`");
            Err(Error::msg(m))
        },
    }
}

/// The manifest text with the dev-dependencies of each `target.<t>` table
/// of `targets` removed, one after the other.
pub open spec fn without_target_dev_deps(text: Seq<char>, targets: Seq<Seq<char>>) -> Seq<char>
    decreases targets.len(),
{
    if targets.len() == 0 {
        text
    } else {
        toml_without_target_key(without_target_dev_deps(text, targets.drop_last()), targets.last(), "dev-dependencies"@)
    }
}

/// The manifest without dev-dependencies: the top-level `dev-dependencies`
/// entry is removed, then that of every table under `target`; or the
/// message of the error where the text is no TOML.
pub open spec fn spec_without_dev_deps(raw: Seq<char>) -> Result<Seq<char>, Seq<char>> {
    match toml_error(raw) {
        Some(e) => Err(e),
        None => {
            let top = toml_without_key(raw, "dev-dependencies"@);
            Ok(without_target_dev_deps(top, toml_target_keys(top)))
        },
    }
}

/// Removes the dev-dependencies from a manifest (see `spec_without_dev_deps`).
pub fn manifest_without_dev_deps(raw: &str) -> (res: Result<String, Error>)
    ensures
        match res {
            Ok(t) => spec_without_dev_deps(raw@) == Ok::<Seq<char>, Seq<char>>(t@),
            Err(e) => spec_without_dev_deps(raw@) == Err::<Seq<char>, Seq<char>>(e@),
        },
{
    if let Some(cause) = toml_parse_error(raw) {
        return Err(Error::msg(cause));
    }
    let top = remove_top_key(raw, "dev-dependencies");
    let targets = target_keys(top.as_str());
    let ghost tv = views(targets@);
    let mut text = top;
    let mut i: usize = 0;
    proof {
        assert(tv.take(0) =~= Seq::<Seq<char>>::empty());
    }
    while i < targets.len()
        invariant
            i <= targets@.len(),
            tv == views(targets@),
            text@ == without_target_dev_deps(top@, tv.take(i as int)),
        decreases targets@.len() - i,
    {
        proof {
            assert(tv.take(i + 1).drop_last() =~= tv.take(i as int));
            assert(tv.take(i + 1).last() == targets@[i as int]@);
        }
        text = remove_target_key(text.as_str(), targets[i].as_str(), "dev-dependencies");
        i = i + 1;
    }
    proof {
        assert(tv.take(targets@.len() as int) =~= tv);
    }
    Ok(text)
}

/// The rows of `same` for `n` members; a member past its end has an empty
/// row, which matches no private crate.
pub open spec fn rows(same: Seq<Seq<bool>>, n: nat) -> Seq<Seq<bool>> {
    Seq::new(n, |i: int| if i < same.len() { same[i] } else { Seq::<bool>::empty() })
}

/// Whether each member is given as a path (a string).
pub open spec fn paths_of(ms: Seq<Option<Seq<char>>>) -> Seq<bool> {
    ms.map_values(|m: Option<Seq<char>>| m is Some)
}

/// The directories of the private crates at `left`.
pub open spec fn dirs_at(dirs: Seq<Seq<char>>, left: Seq<usize>) -> Seq<Seq<char>> {
    left.map_values(|j: usize| dirs[j as int])
}

/// The text with the elements of `workspace.members` at `indices` removed,
/// one after the other.
pub open spec fn without_members(text: Seq<char>, indices: Seq<usize>) -> Seq<char>
    decreases indices.len(),
{
    if indices.len() == 0 {
        text
    } else {
        toml_without_member(without_members(text, indices.drop_last()), indices.last())
    }
}

/// The text with `dirs` pushed onto `workspace.exclude`, one after the other.
pub open spec fn with_excludes_pushed(text: Seq<char>, dirs: Seq<Seq<char>>) -> Seq<char>
    decreases dirs.len(),
{
    if dirs.len() == 0 {
        text
    } else {
        toml_with_exclude_pushed(with_excludes_pushed(text, dirs.drop_last()), dirs.last())
    }
}

/// The root manifest without the private crates, whose directories are
/// `dirs`: where it has a `workspace` table, the members that are private
/// crates (`same[i][j]`: member `i` is private crate `j`, as the file
/// system says) leave `workspace.members`, and the private crates not found
/// there are added to `workspace.exclude`, pushed onto it where it is an
/// array, else as a new array; or the message of the error where the text
/// is no TOML.
pub open spec fn spec_without_private(raw: Seq<char>, same: Seq<Seq<bool>>, dirs: Seq<Seq<char>>) -> Result<
    Seq<char>,
    Seq<char>,
> {
    match toml_error(raw) {
        Some(e) => Err(e),
        None => if !toml_has_workspace(raw) {
            Ok(toml_reprint(raw))
        } else {
            let n = dirs.len();
            let (text, left) = match toml_members(raw) {
                Some(ms) => {
                    let edits = member_edits(paths_of(ms), rows(same, ms.len()), 0, indices(n));
                    (if edits.0.len() == 0 {
                        toml_reprint(raw)
                    } else {
                        without_members(raw, edits.0.reverse())
                    }, edits.1)
                },
                None => (toml_reprint(raw), indices(n)),
            };
            if left.len() == 0 {
                Ok(text)
            } else if toml_has_exclude(text) {
                Ok(with_excludes_pushed(text, dirs_at(dirs, left)))
            } else {
                Ok(toml_with_exclude_array(text, dirs_at(dirs, left)))
            }
        },
    }
}

/// The members taken out rise strictly, from `i` on, with room for the
/// ones after them below the number of members; the private crates left
/// are among `remaining`.
proof fn lemma_member_edits_shape(is_path: Seq<bool>, same: Seq<Seq<bool>>, i: int, remaining: Seq<usize>)
    requires
        0 <= i <= is_path.len(),
        is_path.len() <= usize::MAX,
    ensures
        forall|j: int|
            0 <= j < member_edits(is_path, same, i, remaining).0.len() ==> i <= #[trigger] member_edits(
                is_path,
                same,
                i,
                remaining,
            ).0[j] && member_edits(is_path, same, i, remaining).0[j] + (member_edits(is_path, same, i, remaining).0.len()
                - j) <= is_path.len(),
        forall|x: usize| #[trigger] member_edits(is_path, same, i, remaining).1.contains(x) ==> remaining.contains(x),
    decreases is_path.len() - i,
{
    if i < is_path.len() {
        if is_path[i] && first_same(remaining, same[i]) is Some {
            let k = first_same(remaining, same[i])->0;
            lemma_first_same_in(remaining, same[i]);
            let rem2 = remaining.remove(k);
            lemma_member_edits_shape(is_path, same, i + 1, rem2);
            let r2 = member_edits(is_path, same, i + 1, rem2).0;
            let left2 = member_edits(is_path, same, i + 1, rem2).1;
            let r = seq![i as usize] + r2;
            assert(member_edits(is_path, same, i, remaining) == (r, left2));
            assert forall|j: int| 0 <= j < r.len() implies i <= #[trigger] r[j] && r[j] + (r.len() - j) <= is_path.len() by {
                if j == 0 {
                    if r2.len() > 0 {
                        assert(i + 1 <= r2[0] && r2[0] + (r2.len() - 0) <= is_path.len());
                    }
                } else {
                    assert(r[j] == r2[j - 1]);
                    assert(i + 1 <= r2[j - 1] && r2[j - 1] + (r2.len() - (j - 1)) <= is_path.len());
                }
            }
            assert forall|x: usize| #[trigger] left2.contains(x) implies remaining.contains(x) by {
                let m = choose|m: int| 0 <= m < rem2.len() && rem2[m] == x;
                if m < k {
                    assert(rem2[m] == remaining[m]);
                } else {
                    assert(rem2[m] == remaining[m + 1]);
                }
            }
        } else {
            lemma_member_edits_shape(is_path, same, i + 1, remaining);
            assert(member_edits(is_path, same, i, remaining) == member_edits(is_path, same, i + 1, remaining));
        }
    }
}

/// A place that `first_same` gives is a place of `remaining`.
proof fn lemma_first_same_in(remaining: Seq<usize>, row: Seq<bool>)
    ensures
        first_same(remaining, row) matches Some(k) ==> 0 <= k < remaining.len(),
    decreases remaining.len(),
{
    if remaining.len() > 0 {
        lemma_first_same_in(remaining.drop_first(), row);
    }
}

/// The elements of `workspace.members` of the manifest, each as its text
/// where it is a string, where there is such an array.
pub fn manifest_members(raw: &str) -> (res: Option<Vec<Option<String>>>)
    ensures
        match res {
            Some(v) => toml_members(raw@) == Some(v@.map_values(|m: Option<String>| crate::text::opt_view(m))),
            None => toml_members(raw@) is None,
        },
{
    workspace_members(raw)
}

/// A copy of a row of booleans.
fn copy_row(r: &Vec<bool>) -> (res: Vec<bool>)
    ensures
        res@ == r@,
{
    let mut res: Vec<bool> = Vec::new();
    let mut i: usize = 0;
    while i < r.len()
        invariant
            i <= r@.len(),
            res@ == r@.take(i as int),
        decreases r@.len() - i,
    {
        res.push(r[i]);
        i = i + 1;
        proof {
            assert(res@ =~= r@.take(i as int));
        }
    }
    proof {
        assert(r@.take(r@.len() as int) =~= r@);
    }
    res
}

/// Takes the private crates out of the root manifest's workspace (see
/// `spec_without_private`).
pub fn manifest_without_private(raw: &str, same: &Vec<Vec<bool>>, dirs: &Vec<String>) -> (res: Result<String, Error>)
    ensures
        match res {
            Ok(t) => spec_without_private(raw@, same@.map_values(|r: Vec<bool>| r@), views(dirs@)) == Ok::<
                Seq<char>,
                Seq<char>,
            >(t@),
            Err(e) => spec_without_private(raw@, same@.map_values(|r: Vec<bool>| r@), views(dirs@)) == Err::<
                Seq<char>,
                Seq<char>,
            >(e@),
        },
{
    let ghost sv = same@.map_values(|r: Vec<bool>| r@);
    let ghost dv = views(dirs@);
    if let Some(cause) = toml_parse_error(raw) {
        return Err(Error::msg(cause));
    }
    if !has_workspace(raw) {
        return Ok(reprint(raw));
    }
    let n = dirs.len();
    let (text, left) = match workspace_members(raw) {
        Some(ms) => {
            let ghost mv = ms@.map_values(|m: Option<String>| crate::text::opt_view(m));
            let mut is_path: Vec<bool> = Vec::new();
            let mut rs: Vec<Vec<bool>> = Vec::new();
            let mut i: usize = 0;
            while i < ms.len()
                invariant
                    i <= ms@.len(),
                    mv == ms@.map_values(|m: Option<String>| crate::text::opt_view(m)),
                    sv == same@.map_values(|r: Vec<bool>| r@),
                    is_path@ == paths_of(mv).take(i as int),
                    rs@.map_values(|r: Vec<bool>| r@) == rows(sv, mv.len()).take(i as int),
                decreases ms@.len() - i,
            {
                is_path.push(ms[i].is_some());
                let ghost before = rs@.map_values(|r: Vec<bool>| r@);
                if i < same.len() {
                    rs.push(copy_row(&same[i]));
                    proof {
                        assert(sv[i as int] == same@[i as int]@);
                    }
                } else {
                    rs.push(Vec::new());
                }
                proof {
                    assert(rs@.map_values(|r: Vec<bool>| r@) =~= before.push(rows(sv, mv.len())[i as int]));
                    assert(rows(sv, mv.len()).take(i + 1) =~= rows(sv, mv.len()).take(i as int).push(rows(sv, mv.len())[i as int]));
                }
                i = i + 1;
                proof {
                    assert(is_path@ =~= paths_of(mv).take(i as int));
                    assert(rs@.map_values(|r: Vec<bool>| r@) =~= rows(sv, mv.len()).take(i as int));
                }
            }
            proof {
                assert(is_path@ =~= paths_of(mv));
                assert(rs@.map_values(|r: Vec<bool>| r@) =~= rows(sv, mv.len()));
                lemma_member_edits_shape(paths_of(mv), rows(sv, mv.len()), 0, indices(n as nat));
            }
            let (removed, left) = private_member_edits(&is_path, &rs, n);
            let mut desc: Vec<usize> = Vec::new();
            let mut k: usize = removed.len();
            while k > 0
                invariant
                    k <= removed@.len(),
                    desc@ == removed@.reverse().take(removed@.len() - k),
                decreases k,
            {
                k = k - 1;
                desc.push(removed[k]);
                proof {
                    assert(desc@ =~= removed@.reverse().take(removed@.len() - k));
                }
            }
            proof {
                assert(desc@ =~= removed@.reverse());
                assert forall|j: int| 0 <= j < desc@.len() implies #[trigger] desc@[j] < mv.len() - j by {
                    assert(desc@[j] == removed@[removed@.len() - 1 - j]);
                }
            }
            if desc.len() == 0 {
                (reprint(raw), left)
            } else {
                let mut text = String::from_str(raw);
                let mut j: usize = 0;
                while j < desc.len()
                    invariant
                        j <= desc@.len(),
                        forall|x: int| 0 <= x < desc@.len() ==> #[trigger] desc@[x] < mv.len() - x,
                        toml_members(raw@) == Some(mv),
                        text@ == without_members(raw@, desc@.take(j as int)),
                        toml_members(text@) matches Some(ms) && ms.len() == mv.len() - j,
                    decreases desc@.len() - j,
                {
                    proof {
                        assert(desc@.take(j + 1).drop_last() =~= desc@.take(j as int));
                        assert(desc@[j as int] < mv.len() - j);
                    }
                    text = remove_member(text.as_str(), desc[j]);
                    j = j + 1;
                }
                proof {
                    assert(desc@.take(desc@.len() as int) =~= desc@);
                }
                (text, left)
            }
        },
        None => {
            let mut left: Vec<usize> = Vec::new();
            let mut j: usize = 0;
            while j < n
                invariant
                    j <= n,
                    left@ == indices(j as nat),
                decreases n - j,
            {
                left.push(j);
                j = j + 1;
                proof {
                    assert(left@ =~= indices(j as nat));
                }
            }
            (reprint(raw), left)
        },
    };
    proof {
        assert forall|x: usize| left@.contains(x) implies x < n by {
            if !(x < n) {
                assert(!indices(n as nat).contains(x));
            }
        }
    }
    if left.len() == 0 {
        return Ok(text);
    }
    let mut picked: Vec<String> = Vec::new();
    let mut k: usize = 0;
    while k < left.len()
        invariant
            k <= left@.len(),
            dv == views(dirs@),
            n == dirs@.len(),
            forall|x: usize| left@.contains(x) ==> x < n,
            views(picked@) == dirs_at(dv, left@).take(k as int),
        decreases left@.len() - k,
    {
        let j = left[k];
        proof {
            assert(left@.contains(j));
            assert(dv[j as int] == dirs@[j as int]@);
            assert(dirs_at(dv, left@)[k as int] == dv[j as int]);
        }
        let ghost before = views(picked@);
        picked.push(crate::feature_map::clone_string(&dirs[j]));
        proof {
            assert(views(picked@) =~= before.push(dirs@[j as int]@));
            assert(dirs_at(dv, left@).take(k + 1) =~= dirs_at(dv, left@).take(k as int).push(dirs_at(dv, left@)[k as int]));
        }
        k = k + 1;
        proof {
            assert(views(picked@) =~= dirs_at(dv, left@).take(k as int));
        }
    }
    proof {
        assert(dirs_at(dv, left@).take(left@.len() as int) =~= dirs_at(dv, left@));
    }
    if has_exclude(text.as_str()) {
        let mut out = String::from_str(text.as_str());
        let mut j: usize = 0;
        while j < picked.len()
            invariant
                j <= picked@.len(),
                out@ == with_excludes_pushed(text@, views(picked@).take(j as int)),
            decreases picked@.len() - j,
        {
            proof {
                assert(views(picked@).take(j + 1).drop_last() =~= views(picked@).take(j as int));
                assert(views(picked@).take(j + 1).last() == picked@[j as int]@);
            }
            out = push_exclude(out.as_str(), picked[j].as_str());
            j = j + 1;
        }
        proof {
            assert(views(picked@).take(picked@.len() as int) =~= views(picked@));
        }
        Ok(out)
    } else {
        Ok(insert_exclude(text.as_str(), &picked))
    }
}

} // verus!
