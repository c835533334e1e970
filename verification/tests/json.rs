use cargo_hack::json::{metadata_from_json, Json};
use cargo_hack::metadata::{metadata_step, MetaAction as A, MetaEvent as E, MetaState as S};

fn s(x: &str) -> Json {
    Json::Str(x.to_string())
}

fn obj(entries: Vec<(&str, Json)>) -> Json {
    Json::Object(entries.into_iter().map(|(k, v)| (k.to_string(), v)).collect())
}

fn entries(j: Json) -> Vec<(String, Json)> {
    match j {
        Json::Object(es) => es,
        _ => unreachable!(),
    }
}

fn package(id: &str, name: &str, publish: Json) -> Json {
    obj(vec![
        ("id", s(id)),
        ("name", s(name)),
        ("version", s("0.1.0")),
        (
            "dependencies",
            Json::Array(vec![obj(vec![
                ("name", s("serde")),
                ("optional", Json::Bool(true)),
                ("rename", Json::Null),
            ])]),
        ),
        (
            "features",
            obj(vec![
                ("std", Json::Array(vec![])),
                ("default", Json::Array(vec![s("std")])),
            ]),
        ),
        ("manifest_path", s("/w/a/Cargo.toml")),
        ("publish", publish),
        ("rust_version", Json::Null),
    ])
}

fn metadata(packages: Vec<Json>, members: Vec<Json>, resolve: Json) -> Vec<(String, Json)> {
    entries(obj(vec![
        ("packages", Json::Array(packages)),
        ("workspace_members", Json::Array(members)),
        ("resolve", resolve),
        ("workspace_root", s("/w")),
    ]))
}

#[test]
fn metadata_is_read_from_its_json() {
    let m = metadata(vec![package("a 0.1.0", "a", Json::Null)], vec![s("a 0.1.0")], Json::Null);
    let read = metadata_from_json(m, 70).unwrap();
    assert_eq!(read.packages.len(), 1);
    let p = &read.packages[0];
    assert_eq!(p.id, "a 0.1.0");
    assert_eq!(p.name, "a");
    assert_eq!(p.version, "0.1.0");
    assert_eq!(p.manifest_path, "/w/a/Cargo.toml");
    assert!(p.publish);
    assert_eq!(p.rust_version, None);
    assert_eq!(p.dependencies.len(), 1);
    assert_eq!(p.dependencies[0].name, "serde");
    assert!(p.dependencies[0].optional);
    assert_eq!(p.features.len(), 2);
    assert_eq!(p.features.key(0), "default");
    assert_eq!(p.features.get("default").unwrap(), &vec!["std".to_string()]);
    assert_eq!(read.workspace_members.len(), 1);
    assert_eq!(read.workspace_members[0].index, 0);
    assert!(read.nodes.is_empty());
    assert_eq!(read.workspace_root, "/w");
}

#[test]
fn empty_publish_list_forbids_publishing() {
    let m = metadata(vec![package("a 0.1.0", "a", Json::Array(vec![]))], vec![s("a 0.1.0")], Json::Null);
    assert!(!metadata_from_json(m, 70).unwrap().packages[0].publish);
    let m = metadata(
        vec![package("a 0.1.0", "a", Json::Array(vec![s("crates-io")]))],
        vec![s("a 0.1.0")],
        Json::Null,
    );
    assert!(metadata_from_json(m, 70).unwrap().packages[0].publish);
}

#[test]
fn old_cargo_reads_no_publish_field() {
    let m = metadata(vec![package("a 0.1.0", "a", s("odd"))], vec![s("a 0.1.0")], Json::Null);
    assert!(metadata_from_json(m, 38).unwrap().packages[0].publish);
    let m = metadata(vec![package("a 0.1.0", "a", s("odd"))], vec![s("a 0.1.0")], Json::Null);
    assert_eq!(
        metadata_from_json(m, 39).err().unwrap().message(),
        "failed to parse `publish` field from metadata"
    );
}

#[test]
fn resolved_dependencies_are_read() {
    let dep = obj(vec![
        ("pkg", s("b 0.1.0")),
        ("dep_kinds", Json::Array(vec![obj(vec![("kind", s("dev")), ("target", Json::Null)])])),
    ]);
    let resolve = obj(vec![(
        "nodes",
        Json::Array(vec![
            obj(vec![("id", s("a 0.1.0")), ("deps", Json::Array(vec![dep]))]),
            obj(vec![("id", s("b 0.1.0")), ("deps", Json::Array(vec![]))]),
        ]),
    )]);
    let m = metadata(
        vec![package("a 0.1.0", "a", Json::Null), package("b 0.1.0", "b", Json::Null)],
        vec![s("b 0.1.0")],
        resolve,
    );
    let read = metadata_from_json(m, 70).unwrap();
    assert_eq!(read.workspace_members[0].index, 1);
    assert_eq!(read.nodes.len(), 2);
    assert_eq!(read.nodes[0].0, 0);
    assert_eq!(read.nodes[0].1.len(), 1);
    assert_eq!(read.nodes[0].1[0].pkg.index, 1);
    assert_eq!(read.nodes[0].1[0].dep_kinds[0].kind.as_deref(), Some("dev"));
    assert_eq!(read.nodes[0].1[0].dep_kinds[0].target, None);
    assert_eq!(read.nodes[1].0, 1);
}

#[test]
fn unknown_member_is_an_error() {
    let m = metadata(vec![package("a 0.1.0", "a", Json::Null)], vec![s("c 0.1.0")], Json::Null);
    assert_eq!(
        metadata_from_json(m, 70).err().unwrap().message(),
        "failed to parse `workspace_members` field from metadata"
    );
}

#[test]
fn missing_fields_are_named() {
    let mut m = metadata(vec![package("a 0.1.0", "a", Json::Null)], vec![s("a 0.1.0")], Json::Null);
    m.retain(|(k, _)| k != "workspace_root");
    assert_eq!(
        metadata_from_json(m, 70).err().unwrap().message(),
        "failed to parse `workspace_root` field from metadata"
    );
    let mut m = metadata(vec![package("a 0.1.0", "a", Json::Null)], vec![s("a 0.1.0")], Json::Null);
    m.retain(|(k, _)| k != "resolve");
    assert_eq!(metadata_from_json(m, 70).err().unwrap().message(), "failed to parse `resolve` field from metadata");
    let bad = obj(vec![("id", s("a 0.1.0")), ("name", Json::Bool(false))]);
    let m = metadata(vec![bad], vec![], Json::Null);
    assert_eq!(metadata_from_json(m, 70).err().unwrap().message(), "failed to parse `name` field from metadata");
}

#[test]
fn feature_lists_must_hold_strings() {
    let mut p = entries(package("a 0.1.0", "a", Json::Null));
    for e in p.iter_mut() {
        if e.0 == "features" {
            e.1 = obj(vec![("std", Json::Array(vec![Json::Bool(true)]))]);
        }
    }
    let m = metadata(vec![Json::Object(p)], vec![], Json::Null);
    assert_eq!(metadata_from_json(m, 70).err().unwrap().message(), "failed to parse `features` field from metadata");
}

#[test]
fn metadata_is_read_with_stable_cargo_first() {
    let (s, a) = metadata_step(S::Start, E::Versions { stable: 80, current: 70 }, false);
    assert_eq!((s, a), (S::AwaitNoDeps, A::RunNoDeps));
    let (s, a) = metadata_step(s, E::Ran { ok: true }, false);
    assert_eq!((s, a), (S::AwaitStable, A::RunStable));
    assert_eq!(metadata_step(s, E::Ran { ok: true }, false), (S::Finished, A::UseOutput { stable: true }));
    assert_eq!(metadata_step(s, E::Ran { ok: false }, false), (S::Finished, A::UseNoDeps));
    let (s2, a) = metadata_step(s, E::Ran { ok: false }, true);
    assert_eq!((s2, a), (S::AwaitCurrent, A::RunCurrent));
    assert_eq!(metadata_step(s2, E::Ran { ok: true }, true), (S::Finished, A::UseOutput { stable: false }));
    assert_eq!(metadata_step(s2, E::Ran { ok: false }, true), (S::Finished, A::Fail));
    assert_eq!(
        metadata_step(S::Start, E::Versions { stable: 70, current: 70 }, true),
        (S::AwaitCurrent, A::RunCurrent)
    );
}
