//! The output of `cargo metadata`, read from its JSON into the packages,
//! workspace members and resolved dependencies that the runs are planned
//! from.

use vstd::prelude::*;

use crate::error::Error;
use crate::feature_map::{clone_string, clone_strings, lemma_keys_unique, FeatureMap, MapView};
use crate::metadata::{DepKindInfo, Dependency, NodeDep, Package, PackageId};
use crate::text::{str_eq, views};

verus! {

/// A JSON value; an object keeps its entries in order.
#[derive(Debug)]
pub enum Json {
    Null,
    Bool(bool),
    /// A number, by its text.
    Number(String),
    Str(String),
    Array(Vec<Json>),
    Object(Vec<(String, Json)>),
}

/// The place of the first entry named `key`.
pub open spec fn first_key(es: Seq<(String, Json)>, key: Seq<char>) -> Option<int>
    decreases es.len(),
{
    if es.len() == 0 {
        None
    } else if es[0].0@ == key {
        Some(0)
    } else {
        match first_key(es.drop_first(), key) {
            Some(i) => Some(i + 1),
            None => None,
        }
    }
}

/// The value of the first entry named `key`, and the entries without it.
pub open spec fn take_key(es: Seq<(String, Json)>, key: Seq<char>) -> (Option<Json>, Seq<(String, Json)>) {
    match first_key(es, key) {
        Some(i) => (Some(es[i].1), es.remove(i)),
        None => (None, es),
    }
}

/// A string value.
pub open spec fn as_string(j: Option<Json>) -> Option<String> {
    match j {
        Some(Json::Str(s)) => Some(s),
        _ => None,
    }
}

/// A string value or null; `None` where it is missing or of another kind.
pub open spec fn as_nullable(j: Option<Json>) -> Option<Option<String>> {
    match j {
        Some(Json::Null) => Some(None),
        Some(Json::Str(s)) => Some(Some(s)),
        _ => None,
    }
}

/// An array value.
pub open spec fn as_array(j: Option<Json>) -> Option<Seq<Json>> {
    match j {
        Some(Json::Array(v)) => Some(v@),
        _ => None,
    }
}

/// A list of decoded values, or the first error.
pub open spec fn decode_all<T>(s: Seq<Json>, f: spec_fn(Json) -> Result<T, Seq<char>>) -> Result<Seq<T>, Seq<char>>
    decreases s.len(),
{
    if s.len() == 0 {
        Ok(Seq::empty())
    } else {
        match f(s[0]) {
            Err(e) => Err(e),
            Ok(x) => match decode_all(s.drop_first(), f) {
                Err(e) => Err(e),
                Ok(r) => Ok(seq![x] + r),
            },
        }
    }
}

/// `done` before a list of decoded values.
pub open spec fn prepend<T>(done: Seq<T>, r: Result<Seq<T>, Seq<char>>) -> Result<Seq<T>, Seq<char>> {
    match r {
        Err(e) => Err(e),
        Ok(r) => Ok(done + r),
    }
}

/// The index of the package whose id is `id`: the last one, as a map from
/// ids filled in order keeps it.
pub open spec fn id_index(ids: Seq<Seq<char>>, id: Seq<char>) -> Option<usize>
    decreases ids.len(),
{
    if ids.len() == 0 {
        None
    } else if ids.last() == id {
        Some((ids.len() - 1) as usize)
    } else {
        id_index(ids.drop_last(), id)
    }
}

/// A dependency kind: an object with a `kind` and a `target`, each a string
/// or null.
pub open spec fn spec_dep_kind(j: Json) -> Result<DepKindInfo, Seq<char>> {
    match j {
        Json::Object(es) => {
            let (k, es1) = take_key(es@, "kind"@);
            match as_nullable(k) {
                None => Err("kind"@),
                Some(kind) => match as_nullable(take_key(es1, "target"@).0) {
                    None => Err("target"@),
                    Some(target) => Ok(DepKindInfo { kind, target }),
                },
            }
        },
        _ => Err("dep_kinds"@),
    }
}

/// A resolved dependency: an object with the `pkg` id of a package and,
/// from cargo 1.41, its `dep_kinds`.
pub open spec fn spec_node_dep(j: Json, ids: Seq<Seq<char>>, cargo_minor: u32) -> Result<(PackageId, Seq<DepKindInfo>), Seq<char>> {
    match j {
        Json::Object(es) => {
            let (p, es1) = take_key(es@, "pkg"@);
            match as_string(p) {
                None => Err("pkg"@),
                Some(pkg) => {
                    let kinds = if cargo_minor >= 41 {
                        match as_array(take_key(es1, "dep_kinds"@).0) {
                            None => Err("dep_kinds"@),
                            Some(ks) => decode_all(ks, |k: Json| spec_dep_kind(k)),
                        }
                    } else {
                        Ok(Seq::empty())
                    };
                    match kinds {
                        Err(e) => Err(e),
                        Ok(kinds) => match id_index(ids, pkg@) {
                            None => Err("deps"@),
                            Some(i) => Ok((PackageId { index: i }, kinds)),
                        },
                    }
                },
            }
        },
        _ => Err("deps"@),
    }
}

/// A dependency of a package: an object with a `name`, whether it is
/// `optional`, and what it is renamed to (a string or null).
pub open spec fn spec_dependency(j: Json) -> Result<Dependency, Seq<char>> {
    match j {
        Json::Object(es) => {
            let (n, es1) = take_key(es@, "name"@);
            match as_string(n) {
                None => Err("name"@),
                Some(name) => match take_key(es1, "optional"@).0 {
                    Some(Json::Bool(optional)) => match as_nullable(take_key(es1, "rename"@).0) {
                        None => Err("rename"@),
                        Some(rename) => Ok(Dependency { name, optional, rename }),
                    },
                    _ => Err("optional"@),
                },
            }
        },
        _ => Err("dependencies"@),
    }
}

/// An element of a feature list, which must be a string.
pub open spec fn spec_strings(j: Json) -> Result<String, Seq<char>> {
    match j {
        Json::Str(s) => Ok(s),
        _ => Err("features"@),
    }
}

/// A feature: its name and the features it enables.
pub open spec fn spec_feature(e: (String, Json)) -> Result<(String, Seq<String>), Seq<char>> {
    match e.1 {
        Json::Array(v) => match decode_all(v@, |s: Json| spec_strings(s)) {
            Err(e) => Err(e),
            Ok(list) => Ok((e.0, list)),
        },
        _ => Err("features"@),
    }
}

/// The features of an object, in order, or the first error.
pub open spec fn spec_features(es: Seq<(String, Json)>) -> Result<Seq<(String, Seq<String>)>, Seq<char>>
    decreases es.len(),
{
    if es.len() == 0 {
        Ok(Seq::empty())
    } else {
        match spec_feature(es[0]) {
            Err(e) => Err(e),
            Ok(x) => match spec_features(es.drop_first()) {
                Err(e) => Err(e),
                Ok(r) => Ok(seq![x] + r),
            },
        }
    }
}

/// What a package is read into: id, name, version, dependencies,
/// features, manifest path, whether it may be published, and its
/// `rust-version`.
pub type PackageParts = (String, String, String, Seq<Dependency>, Seq<(String, Seq<String>)>, String, bool, Option<String>);

/// A package: an object with its `id`, `name`, `version`,
/// `dependencies`, `features` and `manifest_path`; from cargo 1.39 also
/// `publish` (null: unrestricted; an array: allowed where it is not empty),
/// from cargo 1.58 its `rust_version` (a string or null).
pub open spec fn spec_package(j: Json, cargo_minor: u32) -> Result<PackageParts, Seq<char>> {
    match j {
        Json::Object(es) => {
            let (id, es1) = take_key(es@, "id"@);
            let (name, es2) = take_key(es1, "name"@);
            let (version, es3) = take_key(es2, "version"@);
            let (deps, es4) = take_key(es3, "dependencies"@);
            let (features, es5) = take_key(es4, "features"@);
            let (path, es6) = take_key(es5, "manifest_path"@);
            let (publish, es7) = take_key(es6, "publish"@);
            if as_string(id) is None {
                Err("id"@)
            } else if as_string(name) is None {
                Err("name"@)
            } else if as_string(version) is None {
                Err("version"@)
            } else if as_array(deps) is None {
                Err("dependencies"@)
            } else if decode_all(as_array(deps)->0, |d: Json| spec_dependency(d)) is Err {
                Err(decode_all(as_array(deps)->0, |d: Json| spec_dependency(d))->Err_0)
            } else if !(features matches Some(Json::Object(_))) {
                Err("features"@)
            } else if spec_features(features->0->Object_0@) is Err {
                Err(spec_features(features->0->Object_0@)->Err_0)
            } else if as_string(path) is None {
                Err("manifest_path"@)
            } else {
                let publish = if cargo_minor >= 39 {
                    match publish {
                        Some(Json::Null) => Ok(true),
                        Some(Json::Array(a)) => Ok(a@.len() > 0),
                        _ => Err("publish"@),
                    }
                } else {
                    Ok(true)
                };
                let rust_version = if cargo_minor >= 58 {
                    match as_nullable(take_key(if cargo_minor >= 39 { es7 } else { es6 }, "rust_version"@).0) {
                        None => Err("rust_version"@),
                        Some(r) => Ok(r),
                    }
                } else {
                    Ok(None)
                };
                match publish {
                    Err(e) => Err(e),
                    Ok(publish) => match rust_version {
                        Err(e) => Err(e),
                        Ok(rust_version) => Ok(
                            (
                                as_string(id)->0,
                                as_string(name)->0,
                                as_string(version)->0,
                                decode_all(as_array(deps)->0, |d: Json| spec_dependency(d))->Ok_0,
                                spec_features(features->0->Object_0@)->Ok_0,
                                as_string(path)->0,
                                publish,
                                rust_version,
                            ),
                        ),
                    },
                }
            }
        },
        _ => Err("packages"@),
    }
}

/// Whether `m` maps each feature name to the features of the last entry of
/// that name in `ps`, and holds nothing else.
pub open spec fn features_from(m: MapView, ps: Seq<(String, Seq<String>)>) -> bool {
    forall|e: (Seq<char>, Seq<Seq<char>>)|
        m.contains(e) <==> exists|i: int| last_in(ps, i, ps.len() as int) && e == #[trigger] pair_entry(ps[i])
}

/// Whether entry `i` is the last of its name among the first `n`.
pub open spec fn last_in(ps: Seq<(String, Seq<String>)>, i: int, n: int) -> bool {
    0 <= i < n && forall|j: int| i < j < n ==> (#[trigger] ps[j]).0@ != ps[i].0@
}

/// A feature as an entry of a map.
pub open spec fn pair_entry(p: (String, Seq<String>)) -> (Seq<char>, Seq<Seq<char>>) {
    (p.0@, views(p.1))
}

/// Whether the package is what its parts say.
pub open spec fn package_is(p: Package, parts: PackageParts) -> bool {
    &&& p.id == parts.0
    &&& p.name == parts.1
    &&& p.version == parts.2
    &&& p.dependencies@ == parts.3
    &&& p.features.wf()
    &&& features_from(p.features@, parts.4)
    &&& p.manifest_path == parts.5
    &&& p.publish == parts.6
    &&& p.rust_version == parts.7
}

/// Takes the first entry named `key` out of an object.
fn take(es: &mut Vec<(String, Json)>, key: &str) -> (res: Option<Json>)
    ensures
        (res, final(es)@) == take_key(old(es)@, key@),
{
    let mut i: usize = 0;
    proof {
        assert(es@.skip(0) =~= es@);
    }
    while i < es.len()
        invariant
            i <= es@.len(),
            es@ == old(es)@,
            first_key(es@, key@) == match first_key(es@.skip(i as int), key@) {
                Some(x) => Some(x + i),
                None => None::<int>,
            },
        decreases es@.len() - i,
    {
        proof {
            assert(es@.skip(i as int)[0] == es@[i as int]);
            assert(es@.skip(i as int).drop_first() =~= es@.skip(i + 1));
        }
        if str_eq(es[i].0.as_str(), key) {
            let (_, v) = es.remove(i);
            return Some(v);
        }
        i = i + 1;
    }
    None
}

fn into_string(j: Option<Json>) -> (res: Option<String>)
    ensures
        res == as_string(j),
{
    match j {
        Some(Json::Str(s)) => Some(s),
        _ => None,
    }
}

fn into_nullable(j: Option<Json>) -> (res: Option<Option<String>>)
    ensures
        res == as_nullable(j),
{
    match j {
        Some(Json::Null) => Some(None),
        Some(Json::Str(s)) => Some(Some(s)),
        _ => None,
    }
}

fn into_array(j: Option<Json>) -> (res: Option<Vec<Json>>)
    ensures
        match res {
            Some(v) => as_array(j) == Some(v@),
            None => as_array(j) is None,
        },
{
    match j {
        Some(Json::Array(v)) => Some(v),
        _ => None,
    }
}

fn missing(field: &str) -> (res: String)
    ensures
        res@ == field@,
{
    String::from_str(field)
}

fn dep_kind(j: Json) -> (res: Result<DepKindInfo, String>)
    ensures
        match res {
            Ok(d) => spec_dep_kind(j) == Ok::<DepKindInfo, Seq<char>>(d),
            Err(e) => spec_dep_kind(j) == Err::<DepKindInfo, Seq<char>>(e@),
        },
{
    match j {
        Json::Object(es) => {
            let mut es = es;
            let kind = match into_nullable(take(&mut es, "kind")) {
                None => return Err(missing("kind")),
                Some(k) => k,
            };
            let target = match into_nullable(take(&mut es, "target")) {
                None => return Err(missing("target")),
                Some(t) => t,
            };
            Ok(DepKindInfo { kind, target })
        },
        _ => Err(missing("dep_kinds")),
    }
}


/// Whether an executable result is the decoded value, or the error, that
/// the spec gives.
pub open spec fn agrees<T>(r: Result<T, String>, s: Result<T, Seq<char>>) -> bool {
    match r {
        Ok(x) => s == Ok::<T, Seq<char>>(x),
        Err(e) => s == Err::<T, Seq<char>>(e@),
    }
}

/// Decodes each element of `list` with `f`, stopping at the first error.
fn decode_list<T, V, F: Fn(Json) -> Result<T, String>>(
    list: Vec<Json>,
    f: F,
    Ghost(sf): Ghost<spec_fn(Json) -> Result<V, Seq<char>>>,
    Ghost(vf): Ghost<spec_fn(T) -> V>,
) -> (res: Result<Vec<T>, String>)
    requires
        forall|j: Json| f.requires((j,)),
        forall|j: Json, r: Result<T, String>|
            f.ensures((j,), r) ==> match r {
                Ok(x) => sf(j) == Ok::<V, Seq<char>>(vf(x)),
                Err(e) => sf(j) == Err::<V, Seq<char>>(e@),
            },
    ensures
        match res {
            Ok(out) => decode_all(list@, sf) == Ok::<Seq<V>, Seq<char>>(out@.map_values(vf)),
            Err(e) => decode_all(list@, sf) == Err::<Seq<V>, Seq<char>>(e@),
        },
{
    let mut v = list;
    let ghost orig = v@;
    let mut out: Vec<T> = Vec::new();
    proof {
        assert(prepend(out@.map_values(vf), decode_all(v@, sf)) =~= decode_all(orig, sf)) by {
            match decode_all(v@, sf) {
                Ok(r) => {
                    assert(out@.map_values(vf) + r =~= r);
                },
                Err(_) => {},
            }
        }
    }
    while v.len() > 0
        invariant
            orig == list@,
            forall|j: Json| f.requires((j,)),
            forall|j: Json, r: Result<T, String>|
                f.ensures((j,), r) ==> match r {
                    Ok(x) => sf(j) == Ok::<V, Seq<char>>(vf(x)),
                    Err(e) => sf(j) == Err::<V, Seq<char>>(e@),
                },
            decode_all(orig, sf) == prepend(out@.map_values(vf), decode_all(v@, sf)),
        decreases v@.len(),
    {
        let ghost before = v@;
        let x = v.remove(0);
        proof {
            assert(before.remove(0) =~= before.drop_first());
            assert(before[0] == x);
        }
        match f(x) {
            Err(e) => {
                proof {
                    assert(decode_all(before, sf) == Err::<Seq<V>, Seq<char>>(e@));
                }
                return Err(e);
            },
            Ok(d) => {
                let ghost done = out@.map_values(vf);
                let ghost vd = vf(d);
                out.push(d);
                proof {
                    assert(out@.map_values(vf) =~= done.push(vd));
                    match decode_all(v@, sf) {
                        Ok(r) => {
                            assert(done + (seq![vd] + r) =~= out@.map_values(vf) + r);
                        },
                        Err(_) => {},
                    }
                }
            },
        }
    }
    proof {
        assert(out@.map_values(vf) + Seq::<V>::empty() =~= out@.map_values(vf));
    }
    Ok(out)
}

fn dep_kinds(list: Vec<Json>) -> (res: Result<Vec<DepKindInfo>, String>)
    ensures
        match res {
            Ok(out) => decode_all(list@, |k: Json| spec_dep_kind(k)) == Ok::<Seq<DepKindInfo>, Seq<char>>(out@),
            Err(e) => decode_all(list@, |k: Json| spec_dep_kind(k)) == Err::<Seq<DepKindInfo>, Seq<char>>(e@),
        },
{
    let decode = |k: Json| -> (r: Result<DepKindInfo, String>)
        ensures
            agrees(r, spec_dep_kind(k)),
        { dep_kind(k) };
    let res = decode_list::<DepKindInfo, DepKindInfo, _>(
        list,
        decode,
        Ghost(|k: Json| spec_dep_kind(k)),
        Ghost(|d: DepKindInfo| d),
    );
    proof {
        if res is Ok {
            assert(res->Ok_0@.map_values(|d: DepKindInfo| d) =~= res->Ok_0@);
        }
    }
    res
}


/// A feature list as plain values.
pub open spec fn pair_view(p: (String, Vec<String>)) -> (String, Seq<String>) {
    (p.0, p.1@)
}

fn strings(list: Vec<Json>) -> (res: Result<Vec<String>, String>)
    ensures
        match res {
            Ok(out) => decode_all(list@, |s: Json| spec_strings(s)) == Ok::<Seq<String>, Seq<char>>(out@),
            Err(e) => decode_all(list@, |s: Json| spec_strings(s)) == Err::<Seq<String>, Seq<char>>(e@),
        },
{
    let decode = |s: Json| -> (r: Result<String, String>)
        ensures
            agrees(r, spec_strings(s)),
        { string_item(s) };
    let res = decode_list::<String, String, _>(list, decode, Ghost(|s: Json| spec_strings(s)), Ghost(|x: String| x));
    proof {
        if res is Ok {
            assert(res->Ok_0@.map_values(|x: String| x) =~= res->Ok_0@);
        }
    }
    res
}

fn dependencies(list: Vec<Json>) -> (res: Result<Vec<Dependency>, String>)
    ensures
        match res {
            Ok(out) => decode_all(list@, |d: Json| spec_dependency(d)) == Ok::<Seq<Dependency>, Seq<char>>(out@),
            Err(e) => decode_all(list@, |d: Json| spec_dependency(d)) == Err::<Seq<Dependency>, Seq<char>>(e@),
        },
{
    let decode = |d: Json| -> (r: Result<Dependency, String>)
        ensures
            agrees(r, spec_dependency(d)),
        { dependency(d) };
    let res = decode_list::<Dependency, Dependency, _>(
        list,
        decode,
        Ghost(|d: Json| spec_dependency(d)),
        Ghost(|x: Dependency| x),
    );
    proof {
        if res is Ok {
            assert(res->Ok_0@.map_values(|x: Dependency| x) =~= res->Ok_0@);
        }
    }
    res
}

/// The features of an object, each with the list of features it enables.
fn feature_pairs(es: Vec<(String, Json)>) -> (res: Result<Vec<(String, Vec<String>)>, String>)
    ensures
        match res {
            Ok(out) => spec_features(es@) == Ok::<Seq<(String, Seq<String>)>, Seq<char>>(
                out@.map_values(|p: (String, Vec<String>)| pair_view(p)),
            ),
            Err(e) => spec_features(es@) == Err::<Seq<(String, Seq<String>)>, Seq<char>>(e@),
        },
{
    let ghost pv = |p: (String, Vec<String>)| pair_view(p);
    let mut v = es;
    let ghost orig = v@;
    let mut out: Vec<(String, Vec<String>)> = Vec::new();
    proof {
        assert(prepend(out@.map_values(pv), spec_features(v@)) =~= spec_features(orig)) by {
            match spec_features(v@) {
                Ok(r) => {
                    assert(out@.map_values(pv) + r =~= r);
                },
                Err(_) => {},
            }
        }
    }
    while v.len() > 0
        invariant
            orig == es@,
            pv == (|p: (String, Vec<String>)| pair_view(p)),
            spec_features(orig) == prepend(out@.map_values(pv), spec_features(v@)),
        decreases v@.len(),
    {
        let ghost before = v@;
        let (name, value) = v.remove(0);
        proof {
            assert(before.remove(0) =~= before.drop_first());
            assert(before[0] == (name, value));
        }
        let list = match value {
            Json::Array(items) => match strings(items) {
                Ok(list) => list,
                Err(e) => {
                    return Err(e);
                },
            },
            _ => {
                return Err(missing("features"));
            },
        };
        let ghost done = out@.map_values(pv);
        let ghost x = (name, list@);
        out.push((name, list));
        proof {
            assert(out@.map_values(pv) =~= done.push(x));
            match spec_features(v@) {
                Ok(r) => {
                    assert(done + (seq![x] + r) =~= out@.map_values(pv) + r);
                },
                Err(_) => {},
            }
        }
    }
    proof {
        assert(out@.map_values(pv) + Seq::<(String, Seq<String>)>::empty() =~= out@.map_values(pv));
    }
    Ok(out)
}

/// The map of the features, the last list of each name winning.
fn features_map(pairs: &Vec<(String, Vec<String>)>) -> (res: FeatureMap)
    ensures
        res.wf(),
        features_from(res@, pairs@.map_values(|p: (String, Vec<String>)| pair_view(p))),
{
    let ghost ps = pairs@.map_values(|p: (String, Vec<String>)| pair_view(p));
    let mut m = FeatureMap::new();
    let mut k: usize = 0;
    while k < pairs.len()
        invariant
            k <= pairs@.len(),
            ps == pairs@.map_values(|p: (String, Vec<String>)| pair_view(p)),
            m.wf(),
            forall|e: (Seq<char>, Seq<Seq<char>>)|
                m@.contains(e) <==> exists|i: int| last_in(ps, i, k as int) && e == #[trigger] pair_entry(ps[i]),
        decreases pairs@.len() - k,
    {
        let ghost old_m = m@;
        let name = clone_string(&pairs[k].0);
        let list = clone_strings(&pairs[k].1);
        let ghost new_e = (name@, views(list@));
        m.insert(name, list);
        proof {
            assert(ps[k as int] == pair_view(pairs@[k as int]));
            assert(new_e == pair_entry(ps[k as int]));
            assert forall|e: (Seq<char>, Seq<Seq<char>>)| m@.contains(e) <==> exists|i: int|
                last_in(ps, i, k + 1) && e == #[trigger] pair_entry(ps[i]) by {
                if m@.contains(e) {
                    let a = choose|a: int| 0 <= a < m@.len() && m@[a] == e;
                    if e.0 == new_e.0 {
                        let b = choose|b: int| 0 <= b < m@.len() && #[trigger] m@[b] == new_e;
                        lemma_keys_unique(m@, a, b);
                        assert(last_in(ps, k as int, k + 1));
                    } else {
                        assert(old_m.contains(e));
                        let i = choose|i: int| last_in(ps, i, k as int) && e == #[trigger] pair_entry(ps[i]);
                        assert(last_in(ps, i, k + 1));
                    }
                }
                if exists|i: int| last_in(ps, i, k + 1) && e == #[trigger] pair_entry(ps[i]) {
                    let i = choose|i: int| last_in(ps, i, k + 1) && e == #[trigger] pair_entry(ps[i]);
                    if i == k {
                        let b = choose|b: int| 0 <= b < m@.len() && #[trigger] m@[b] == new_e;
                        assert(m@[b] == e);
                    } else {
                        assert(ps[k as int].0@ != ps[i].0@);
                        assert(last_in(ps, i, k as int));
                        assert(old_m.contains(e));
                        let a = choose|a: int| 0 <= a < old_m.len() && old_m[a] == e;
                        assert(old_m[a].0 != new_e.0);
                        assert(m@.contains(old_m[a]));
                    }
                }
            }
        }
        k = k + 1;
    }
    m
}


/// Reads a package (see `spec_package`).
fn package_from_value(j: Json, cargo_minor: u32) -> (res: Result<Package, String>)
    ensures
        match res {
            Ok(p) => spec_package(j, cargo_minor) is Ok && package_is(p, spec_package(j, cargo_minor)->Ok_0),
            Err(e) => spec_package(j, cargo_minor) == Err::<PackageParts, Seq<char>>(e@),
        },
{
    match j {
        Json::Object(es) => {
            let mut es = es;
            let id = take(&mut es, "id");
            let name = take(&mut es, "name");
            let version = take(&mut es, "version");
            let deps = take(&mut es, "dependencies");
            let features = take(&mut es, "features");
            let path = take(&mut es, "manifest_path");
            let id = match into_string(id) {
                None => return Err(missing("id")),
                Some(x) => x,
            };
            let name = match into_string(name) {
                None => return Err(missing("name")),
                Some(x) => x,
            };
            let version = match into_string(version) {
                None => return Err(missing("version")),
                Some(x) => x,
            };
            let dependencies = match into_array(deps) {
                None => return Err(missing("dependencies")),
                Some(d) => match dependencies(d) {
                    Ok(d) => d,
                    Err(e) => return Err(e),
                },
            };
            let pairs = match features {
                Some(Json::Object(f)) => match feature_pairs(f) {
                    Ok(p) => p,
                    Err(e) => return Err(e),
                },
                _ => return Err(missing("features")),
            };
            let manifest_path = match into_string(path) {
                None => return Err(missing("manifest_path")),
                Some(x) => x,
            };
            let publish = if cargo_minor >= 39 {
                match take(&mut es, "publish") {
                    Some(Json::Null) => true,
                    Some(Json::Array(a)) => a.len() > 0,
                    _ => return Err(missing("publish")),
                }
            } else {
                true
            };
            let rust_version = if cargo_minor >= 58 {
                match into_nullable(take(&mut es, "rust_version")) {
                    None => return Err(missing("rust_version")),
                    Some(r) => r,
                }
            } else {
                None
            };
            let features = features_map(&pairs);
            Ok(Package { id, name, version, dependencies, features, manifest_path, publish, rust_version })
        },
        _ => Err(missing("packages")),
    }
}


fn node_deps(list: Vec<Json>, ids: &Vec<String>, cargo_minor: u32) -> (res: Result<Vec<NodeDep>, String>)
    ensures
        match res {
            Ok(out) => decode_all(list@, |d: Json| spec_node_dep(d, views(ids@), cargo_minor)) == Ok::<
                Seq<(PackageId, Seq<DepKindInfo>)>,
                Seq<char>,
            >(out@.map_values(|d: NodeDep| node_dep_view(d))),
            Err(e) => decode_all(list@, |d: Json| spec_node_dep(d, views(ids@), cargo_minor)) == Err::<
                Seq<(PackageId, Seq<DepKindInfo>)>,
                Seq<char>,
            >(e@),
        },
{
    let decode = |d: Json| -> (r: Result<NodeDep, String>)
        ensures
            match r {
                Ok(x) => spec_node_dep(d, views(ids@), cargo_minor) == Ok::<(PackageId, Seq<DepKindInfo>), Seq<char>>(
                    node_dep_view(x),
                ),
                Err(e) => spec_node_dep(d, views(ids@), cargo_minor) == Err::<(PackageId, Seq<DepKindInfo>), Seq<char>>(e@),
            },
        { node_dep(d, ids, cargo_minor) };
    decode_list::<NodeDep, (PackageId, Seq<DepKindInfo>), _>(
        list,
        decode,
        Ghost(|d: Json| spec_node_dep(d, views(ids@), cargo_minor)),
        Ghost(|d: NodeDep| node_dep_view(d)),
    )
}

fn member(j: Json, ids: &Vec<String>) -> (res: Result<PackageId, String>)
    ensures
        agrees(res, spec_member(j, views(ids@))),
{
    match j {
        Json::Str(s) => match find_id(ids, s.as_str()) {
            Some(i) => Ok(PackageId { index: i }),
            None => Err(missing("workspace_members")),
        },
        _ => Err(missing("workspace_members")),
    }
}

fn members(list: Vec<Json>, ids: &Vec<String>) -> (res: Result<Vec<PackageId>, String>)
    ensures
        match res {
            Ok(out) => decode_all(list@, |j: Json| spec_member(j, views(ids@))) == Ok::<Seq<PackageId>, Seq<char>>(out@),
            Err(e) => decode_all(list@, |j: Json| spec_member(j, views(ids@))) == Err::<Seq<PackageId>, Seq<char>>(e@),
        },
{
    let decode = |j: Json| -> (r: Result<PackageId, String>)
        ensures
            agrees(r, spec_member(j, views(ids@))),
        { member(j, ids) };
    let res = decode_list::<PackageId, PackageId, _>(
        list,
        decode,
        Ghost(|j: Json| spec_member(j, views(ids@))),
        Ghost(|x: PackageId| x),
    );
    proof {
        if res is Ok {
            assert(res->Ok_0@.map_values(|x: PackageId| x) =~= res->Ok_0@);
        }
    }
    res
}

fn node(j: Json, ids: &Vec<String>, cargo_minor: u32) -> (res: Result<(usize, Vec<NodeDep>), String>)
    ensures
        match res {
            Ok(n) => spec_node(j, views(ids@), cargo_minor) == Ok::<(usize, Seq<(PackageId, Seq<DepKindInfo>)>), Seq<char>>(
                node_view(n),
            ),
            Err(e) => spec_node(j, views(ids@), cargo_minor) == Err::<(usize, Seq<(PackageId, Seq<DepKindInfo>)>), Seq<char>>(e@),
        },
{
    match j {
        Json::Object(es) => {
            let mut es = es;
            let id = match into_string(take(&mut es, "id")) {
                None => return Err(missing("id")),
                Some(x) => x,
            };
            let deps = if cargo_minor >= 30 {
                match into_array(take(&mut es, "deps")) {
                    None => return Err(missing("deps")),
                    Some(ds) => match node_deps(ds, ids, cargo_minor) {
                        Ok(d) => d,
                        Err(e) => return Err(e),
                    },
                }
            } else {
                Vec::new()
            };
            proof {
                if cargo_minor < 30 {
                    assert(deps@.map_values(|d: NodeDep| node_dep_view(d)) =~= Seq::empty());
                }
            }
            match find_id(ids, id.as_str()) {
                None => Err(missing("nodes")),
                Some(i) => Ok((i, deps)),
            }
        },
        _ => Err(missing("nodes")),
    }
}

fn nodes(list: Vec<Json>, ids: &Vec<String>, cargo_minor: u32) -> (res: Result<Vec<(usize, Vec<NodeDep>)>, String>)
    ensures
        match res {
            Ok(out) => decode_all(list@, |n: Json| spec_node(n, views(ids@), cargo_minor)) == Ok::<
                Seq<(usize, Seq<(PackageId, Seq<DepKindInfo>)>)>,
                Seq<char>,
            >(out@.map_values(|n: (usize, Vec<NodeDep>)| node_view(n))),
            Err(e) => decode_all(list@, |n: Json| spec_node(n, views(ids@), cargo_minor)) == Err::<
                Seq<(usize, Seq<(PackageId, Seq<DepKindInfo>)>)>,
                Seq<char>,
            >(e@),
        },
{
    let decode = |n: Json| -> (r: Result<(usize, Vec<NodeDep>), String>)
        ensures
            match r {
                Ok(x) => spec_node(n, views(ids@), cargo_minor) == Ok::<(usize, Seq<(PackageId, Seq<DepKindInfo>)>), Seq<char>>(
                    node_view(x),
                ),
                Err(e) => spec_node(n, views(ids@), cargo_minor) == Err::<(usize, Seq<(PackageId, Seq<DepKindInfo>)>), Seq<char>>(e@),
            },
        { node(n, ids, cargo_minor) };
    decode_list::<(usize, Vec<NodeDep>), (usize, Seq<(PackageId, Seq<DepKindInfo>)>), _>(
        list,
        decode,
        Ghost(|n: Json| spec_node(n, views(ids@), cargo_minor)),
        Ghost(|n: (usize, Vec<NodeDep>)| node_view(n)),
    )
}


/// Reads the packages, with the id of each.
fn packages(list: Vec<Json>, cargo_minor: u32) -> (res: Result<(Vec<Package>, Vec<String>), String>)
    ensures
        match res {
            Ok((ps, ids)) => {
                let parts = decode_all(list@, |j: Json| spec_package(j, cargo_minor));
                &&& parts is Ok
                &&& ps@.len() == parts->Ok_0.len()
                &&& forall|i: int| 0 <= i < ps@.len() ==> package_is(#[trigger] ps@[i], parts->Ok_0[i])
                &&& views(ids@) == ids_of(parts->Ok_0)
            },
            Err(e) => decode_all(list@, |j: Json| spec_package(j, cargo_minor)) == Err::<Seq<PackageParts>, Seq<char>>(e@),
        },
{
    let ghost sf = |j: Json| spec_package(j, cargo_minor);
    let mut v = list;
    let ghost orig = v@;
    let mut ps: Vec<Package> = Vec::new();
    let mut ids: Vec<String> = Vec::new();
    let ghost mut done: Seq<PackageParts> = Seq::empty();
    proof {
        assert(prepend(done, decode_all(v@, sf)) =~= decode_all(orig, sf)) by {
            match decode_all(v@, sf) {
                Ok(r) => {
                    assert(done + r =~= r);
                },
                Err(_) => {},
            }
        }
        assert(views(ids@) =~= ids_of(done));
    }
    while v.len() > 0
        invariant
            orig == list@,
            sf == (|j: Json| spec_package(j, cargo_minor)),
            decode_all(orig, sf) == prepend(done, decode_all(v@, sf)),
            ps@.len() == done.len(),
            forall|i: int| 0 <= i < ps@.len() ==> package_is(#[trigger] ps@[i], done[i]),
            views(ids@) == ids_of(done),
        decreases v@.len(),
    {
        let ghost before = v@;
        let x = v.remove(0);
        proof {
            assert(before.remove(0) =~= before.drop_first());
            assert(before[0] == x);
        }
        match package_from_value(x, cargo_minor) {
            Err(e) => {
                return Err(e);
            },
            Ok(p) => {
                let ghost part = spec_package(x, cargo_minor)->Ok_0;
                let ghost done0 = done;
                let ghost ids0 = ids@;
                let pid = clone_string(&p.id);
                ids.push(pid);
                ps.push(p);
                proof {
                    done = done.push(part);
                    assert(pid@ == part.0@);
                    assert(ids@ =~= ids0.push(pid));
                    assert(views(ids@) =~= views(ids0).push(pid@));
                    assert(ids_of(done) =~= ids_of(done0).push(part.0@));
                    assert(views(ids@) =~= ids_of(done));
                    assert forall|i: int| 0 <= i < ps@.len() implies package_is(#[trigger] ps@[i], done[i]) by {
                        if i < ps@.len() - 1 {
                            assert(done[i] == done0[i]);
                        }
                    }
                    match decode_all(v@, sf) {
                        Ok(r) => {
                            assert(done0 + (seq![part] + r) =~= done + r);
                        },
                        Err(_) => {},
                    }
                }
            },
        }
    }
    proof {
        assert(done + Seq::<PackageParts>::empty() =~= done);
    }
    Ok((ps, ids))
}

/// Reads the object that `cargo metadata` prints, as `spec_metadata` says;
/// the error names the first field that cannot be read.
fn from_obj(obj: Vec<(String, Json)>, cargo_minor: u32) -> (res: Result<CargoMetadata, String>)
    ensures
        match res {
            Ok(m) => spec_metadata(obj@, cargo_minor) is Ok && metadata_is(m, spec_metadata(obj@, cargo_minor)->Ok_0),
            Err(e) => spec_metadata(obj@, cargo_minor) == Err::<MetadataParts, Seq<char>>(e@),
        },
{
    let mut es = obj;
    let pk = take(&mut es, "packages");
    let wm = take(&mut es, "workspace_members");
    let rs = take(&mut es, "resolve");
    let ghost rs0 = rs;
    let (packages, ids) = match into_array(pk) {
        None => return Err(missing("packages")),
        Some(list) => match packages(list, cargo_minor) {
            Ok(x) => x,
            Err(e) => return Err(e),
        },
    };
    let workspace_members = match into_array(wm) {
        None => return Err(missing("workspace_members")),
        Some(list) => match members(list, &ids) {
            Ok(x) => x,
            Err(e) => return Err(e),
        },
    };
    let nodes = match rs {
        Some(Json::Null) => Vec::new(),
        Some(Json::Object(r)) => {
            let mut r = r;
            match into_array(take(&mut r, "nodes")) {
                None => return Err(missing("nodes")),
                Some(list) => match nodes(list, &ids, cargo_minor) {
                    Ok(x) => x,
                    Err(e) => return Err(e),
                },
            }
        },
        _ => return Err(missing("resolve")),
    };
    let workspace_root = match into_string(take(&mut es, "workspace_root")) {
        None => return Err(missing("workspace_root")),
        Some(x) => x,
    };
    let res = CargoMetadata { packages, workspace_members, nodes, workspace_root };
    proof {
        if rs0 matches Some(Json::Null) {
            assert(res.nodes@.map_values(|n: (usize, Vec<NodeDep>)| node_view(n)) =~= Seq::empty());
        }
    }
    Ok(res)
}

/// The error for a field of the metadata that cannot be read.
pub open spec fn metadata_message(field: Seq<char>) -> Seq<char> {
    "failed to parse `"@ + field + "` field from metadata"@
}

/// Reads the object that `cargo metadata` prints (its JSON already parsed)
/// for a cargo of the minor version `cargo_minor`: the packages, the
/// workspace members, the resolved dependency graph and the workspace
/// root, as `spec_metadata` says. Where a field cannot be read, the error
/// names the first such field.
pub fn metadata_from_json(obj: Vec<(String, Json)>, cargo_minor: u32) -> (res: Result<CargoMetadata, Error>)
    ensures
        match res {
            Ok(m) => spec_metadata(obj@, cargo_minor) is Ok && metadata_is(m, spec_metadata(obj@, cargo_minor)->Ok_0),
            Err(e) => spec_metadata(obj@, cargo_minor) is Err && e@ == metadata_message(
                spec_metadata(obj@, cargo_minor)->Err_0,
            ),
        },
{
    match from_obj(obj, cargo_minor) {
        Ok(m) => Ok(m),
        Err(field) => {
            let mut m = String::from_str("failed to parse `");
            m.append(field.as_str());
            m.append("` field from metadata");
            Err(Error::msg(m))
        },
    }
}

/// A workspace member: the id of a package.
pub open spec fn spec_member(j: Json, ids: Seq<Seq<char>>) -> Result<PackageId, Seq<char>> {
    match j {
        Json::Str(s) => match id_index(ids, s@) {
            Some(i) => Ok(PackageId { index: i }),
            None => Err("workspace_members"@),
        },
        _ => Err("workspace_members"@),
    }
}

/// A node of the resolved graph: an object with the `id` of a package and,
/// from cargo 1.30, its resolved `deps`.
pub open spec fn spec_node(j: Json, ids: Seq<Seq<char>>, cargo_minor: u32) -> Result<
    (usize, Seq<(PackageId, Seq<DepKindInfo>)>),
    Seq<char>,
> {
    match j {
        Json::Object(es) => {
            let (id, es1) = take_key(es@, "id"@);
            match as_string(id) {
                None => Err("id"@),
                Some(id) => {
                    let deps = if cargo_minor >= 30 {
                        match as_array(take_key(es1, "deps"@).0) {
                            None => Err("deps"@),
                            Some(ds) => decode_all(ds, |d: Json| spec_node_dep(d, ids, cargo_minor)),
                        }
                    } else {
                        Ok(Seq::empty())
                    };
                    match deps {
                        Err(e) => Err(e),
                        Ok(deps) => match id_index(ids, id@) {
                            None => Err("nodes"@),
                            Some(i) => Ok((i, deps)),
                        },
                    }
                },
            }
        },
        _ => Err("nodes"@),
    }
}

/// The ids of the packages read.
pub open spec fn ids_of(ps: Seq<PackageParts>) -> Seq<Seq<char>> {
    ps.map_values(|p: PackageParts| p.0@)
}

/// What the metadata is read into: the packages, the workspace members,
/// the nodes of the resolved graph and the workspace root.
pub type MetadataParts = (
    Seq<PackageParts>,
    Seq<PackageId>,
    Seq<(usize, Seq<(PackageId, Seq<DepKindInfo>)>)>,
    String,
);

/// How the metadata object `es` is read for a cargo of the minor version
/// `cargo_minor`: its `packages`, then its `workspace_members` (ids of
/// packages), then the nodes of its `resolve` object (none where it is null),
/// then its `workspace_root`; or the name of the first field that cannot
/// be read.
pub open spec fn spec_metadata(es: Seq<(String, Json)>, cargo_minor: u32) -> Result<MetadataParts, Seq<char>> {
    let (pk, es1) = take_key(es, "packages"@);
    let (wm, es2) = take_key(es1, "workspace_members"@);
    let (rs, es3) = take_key(es2, "resolve"@);
    if as_array(pk) is None {
        Err("packages"@)
    } else if decode_all(as_array(pk)->0, |j: Json| spec_package(j, cargo_minor)) is Err {
        Err(decode_all(as_array(pk)->0, |j: Json| spec_package(j, cargo_minor))->Err_0)
    } else {
        let parts = decode_all(as_array(pk)->0, |j: Json| spec_package(j, cargo_minor))->Ok_0;
        let ids = ids_of(parts);
        if as_array(wm) is None {
            Err("workspace_members"@)
        } else if decode_all(as_array(wm)->0, |j: Json| spec_member(j, ids)) is Err {
            Err(decode_all(as_array(wm)->0, |j: Json| spec_member(j, ids))->Err_0)
        } else {
            let members = decode_all(as_array(wm)->0, |j: Json| spec_member(j, ids))->Ok_0;
            let nodes = match rs {
                Some(Json::Null) => Ok(Seq::empty()),
                Some(Json::Object(r)) => match as_array(take_key(r@, "nodes"@).0) {
                    None => Err("nodes"@),
                    Some(ns) => decode_all(ns, |n: Json| spec_node(n, ids, cargo_minor)),
                },
                _ => Err("resolve"@),
            };
            match nodes {
                Err(e) => Err(e),
                Ok(nodes) => match as_string(take_key(es3, "workspace_root"@).0) {
                    None => Err("workspace_root"@),
                    Some(root) => Ok((parts, members, nodes, root)),
                },
            }
        }
    }
}

/// A resolved dependency as plain values.
pub open spec fn node_dep_view(d: NodeDep) -> (PackageId, Seq<DepKindInfo>) {
    (d.pkg, d.dep_kinds@)
}

/// A node as plain values.
pub open spec fn node_view(n: (usize, Vec<NodeDep>)) -> (usize, Seq<(PackageId, Seq<DepKindInfo>)>) {
    (n.0, n.1@.map_values(|d: NodeDep| node_dep_view(d)))
}

/// The metadata: the packages, the workspace members, the resolved
/// dependencies of each node (by package index) and the workspace root.
pub struct CargoMetadata {
    pub packages: Vec<Package>,
    pub workspace_members: Vec<PackageId>,
    pub nodes: Vec<(usize, Vec<NodeDep>)>,
    pub workspace_root: String,
}

/// Whether the metadata is what its parts say.
pub open spec fn metadata_is(m: CargoMetadata, parts: MetadataParts) -> bool {
    &&& m.packages@.len() == parts.0.len()
    &&& forall|i: int| 0 <= i < parts.0.len() ==> package_is(#[trigger] m.packages@[i], parts.0[i])
    &&& m.workspace_members@ == parts.1
    &&& m.nodes@.map_values(|n: (usize, Vec<NodeDep>)| node_view(n)) == parts.2
    &&& m.workspace_root == parts.3
}

/// The index of the package whose id is `id` (see `id_index`).
fn find_id(ids: &Vec<String>, id: &str) -> (res: Option<usize>)
    ensures
        res == id_index(views(ids@), id@),
{
    let mut n: usize = ids.len();
    proof {
        assert(views(ids@).take(n as int) =~= views(ids@));
    }
    while n > 0
        invariant
            n <= ids@.len(),
            id_index(views(ids@).take(n as int), id@) == id_index(views(ids@), id@),
        decreases n,
    {
        proof {
            assert(views(ids@).take(n as int).drop_last() =~= views(ids@).take(n - 1));
            assert(views(ids@).take(n as int).last() == ids@[n - 1]@);
        }
        if str_eq(ids[n - 1].as_str(), id) {
            return Some(n - 1);
        }
        n = n - 1;
    }
    None
}

/// Whether the first entry named `key` holds a boolean, and which.
fn get_bool(es: &Vec<(String, Json)>, key: &str) -> (res: Option<bool>)
    ensures
        res == match take_key(es@, key@).0 {
            Some(Json::Bool(b)) => Some(b),
            _ => None::<bool>,
        },
{
    let mut i: usize = 0;
    proof {
        assert(es@.skip(0) =~= es@);
    }
    while i < es.len()
        invariant
            i <= es@.len(),
            first_key(es@, key@) == match first_key(es@.skip(i as int), key@) {
                Some(x) => Some(x + i),
                None => None::<int>,
            },
        decreases es@.len() - i,
    {
        proof {
            assert(es@.skip(i as int)[0] == es@[i as int]);
            assert(es@.skip(i as int).drop_first() =~= es@.skip(i + 1));
        }
        if str_eq(es[i].0.as_str(), key) {
            return match &es[i].1 {
                Json::Bool(b) => Some(*b),
                _ => None,
            };
        }
        i = i + 1;
    }
    None
}

fn node_dep(j: Json, ids: &Vec<String>, cargo_minor: u32) -> (res: Result<NodeDep, String>)
    ensures
        match res {
            Ok(d) => spec_node_dep(j, views(ids@), cargo_minor) == Ok::<(PackageId, Seq<DepKindInfo>), Seq<char>>(
                node_dep_view(d),
            ),
            Err(e) => spec_node_dep(j, views(ids@), cargo_minor) == Err::<(PackageId, Seq<DepKindInfo>), Seq<char>>(e@),
        },
{
    match j {
        Json::Object(es) => {
            let mut es = es;
            let pkg = match into_string(take(&mut es, "pkg")) {
                None => return Err(missing("pkg")),
                Some(p) => p,
            };
            let dep_kinds = if cargo_minor >= 41 {
                match into_array(take(&mut es, "dep_kinds")) {
                    None => return Err(missing("dep_kinds")),
                    Some(ks) => dep_kinds(ks)?,
                }
            } else {
                Vec::new()
            };
            match find_id(ids, pkg.as_str()) {
                None => Err(missing("deps")),
                Some(i) => Ok(NodeDep { pkg: PackageId { index: i }, dep_kinds }),
            }
        },
        _ => Err(missing("deps")),
    }
}

fn dependency(j: Json) -> (res: Result<Dependency, String>)
    ensures
        match res {
            Ok(d) => spec_dependency(j) == Ok::<Dependency, Seq<char>>(d),
            Err(e) => spec_dependency(j) == Err::<Dependency, Seq<char>>(e@),
        },
{
    match j {
        Json::Object(es) => {
            let mut es = es;
            let name = match into_string(take(&mut es, "name")) {
                None => return Err(missing("name")),
                Some(n) => n,
            };
            let optional = match get_bool(&es, "optional") {
                None => return Err(missing("optional")),
                Some(b) => b,
            };
            let rename = match into_nullable(take(&mut es, "rename")) {
                None => return Err(missing("rename")),
                Some(r) => r,
            };
            Ok(Dependency { name, optional, rename })
        },
        _ => Err(missing("dependencies")),
    }
}

fn string_item(j: Json) -> (res: Result<String, String>)
    ensures
        match res {
            Ok(s) => spec_strings(j) == Ok::<String, Seq<char>>(s),
            Err(e) => spec_strings(j) == Err::<String, Seq<char>>(e@),
        },
{
    match j {
        Json::Str(s) => Ok(s),
        _ => Err(missing("features")),
    }
}

} // verus!
