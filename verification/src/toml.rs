//! The reading and editing of manifests that `toml_edit` does: each call
//! takes the text of a manifest and gives plain values or a new text.

use vstd::prelude::*;

use toml_edit::TableLike;

use crate::manifest::{FeaturesField, PublishField, TextField};
use crate::text::views;

verus! {

/// The message of the error that reading `text` as TOML gives, if any.
pub uninterp spec fn toml_error(text: Seq<char>) -> Option<Seq<char>>;

/// The `publish` and `rust-version` fields of the `[package]` table of the
/// TOML text, where it is TOML and has that table.
pub uninterp spec fn toml_package(text: Seq<char>) -> Option<(PublishField, TextField)>;

/// The `[features]` table of the TOML text.
pub uninterp spec fn toml_features(text: Seq<char>) -> FeaturesField;

/// The TOML text as `toml_edit` prints it again, unchanged.
pub uninterp spec fn toml_reprint(text: Seq<char>) -> Seq<char>;

/// The TOML text with the top-level entry `key` removed.
pub uninterp spec fn toml_without_key(text: Seq<char>, key: Seq<char>) -> Seq<char>;

/// The names of the entries of the `target` table of the TOML text.
pub uninterp spec fn toml_target_keys(text: Seq<char>) -> Seq<Seq<char>>;

/// The TOML text with the entry `key` removed from the table `target.<t>`.
pub uninterp spec fn toml_without_target_key(text: Seq<char>, t: Seq<char>, key: Seq<char>) -> Seq<char>;

/// Whether the TOML text has a `workspace` table.
pub uninterp spec fn toml_has_workspace(text: Seq<char>) -> bool;

/// The elements of the `workspace.members` array of the TOML text, each as
/// its text where it is a string, where there is such an array.
pub uninterp spec fn toml_members(text: Seq<char>) -> Option<Seq<Option<Seq<char>>>>;

/// The TOML text with the element of `workspace.members` at `index`
/// removed.
pub uninterp spec fn toml_without_member(text: Seq<char>, index: usize) -> Seq<char>;

/// Whether the TOML text has a `workspace.exclude` array.
pub uninterp spec fn toml_has_exclude(text: Seq<char>) -> bool;

/// The TOML text with `dir` pushed onto its `workspace.exclude` array.
pub uninterp spec fn toml_with_exclude_pushed(text: Seq<char>, dir: Seq<char>) -> Seq<char>;

/// The TOML text with a new `workspace.exclude` array holding `dirs`.
pub uninterp spec fn toml_with_exclude_array(text: Seq<char>, dirs: Seq<Seq<char>>) -> Seq<char>;

/// Reads `text` as a TOML document (`DocumentMut::from_str`) and gives the
/// error's message where that fails.
#[verifier::external_body]
pub(crate) fn toml_parse_error(text: &str) -> (res: Option<String>)
    ensures
        crate::text::opt_view(res) == toml_error(text@),
{
    text.parse::<toml_edit::DocumentMut>().err().map(|e| e.to_string())
}

/// Reads the `publish` and `rust-version` fields of the `[package]` table
/// (`DocumentMut::get`, `Item::as_table`), each converted to what the
/// reading looks at: a boolean, an array and whether it is empty, a string.
#[verifier::external_body]
pub(crate) fn package_table_fields(text: &str) -> (res: Option<(PublishField, TextField)>)
    ensures
        res == toml_package(text@),
{
    let doc: toml_edit::DocumentMut = text.parse().ok()?;
    let package = doc.get("package").and_then(toml_edit::Item::as_table)?;
    let publish = match package.get("publish") {
        None => PublishField::Missing,
        Some(toml_edit::Item::Value(toml_edit::Value::Boolean(b))) => PublishField::Bool(*b.value()),
        Some(toml_edit::Item::Value(toml_edit::Value::Array(a))) => PublishField::Array(a.is_empty()),
        Some(_) => PublishField::Other,
    };
    let rust_version = match package.get("rust-version").map(toml_edit::Item::as_str) {
        None => TextField::Missing,
        Some(Some(v)) => TextField::Text(v.to_owned()),
        Some(None) => TextField::Other,
    };
    Some((publish, rust_version))
}

/// Reads the `[features]` table (`Item::as_table`, `Item::as_array`,
/// `Value::as_str`), each entry converted to its name and array.
#[verifier::external_body]
pub(crate) fn features_table(text: &str) -> (res: FeaturesField)
    ensures
        res == toml_features(text@),
{
    let Ok(doc) = text.parse::<toml_edit::DocumentMut>() else { return FeaturesField::Missing };
    match doc.get("features").map(toml_edit::Item::as_table) {
        None => FeaturesField::Missing,
        Some(None) => FeaturesField::NotTable,
        Some(Some(t)) => FeaturesField::Table(
            t.iter()
                .map(|(n, v)| (n.to_owned(), v.as_array().map(|a| a.iter().map(|x| x.as_str().map(str::to_owned)).collect())))
                .collect(),
        ),
    }
}

/// Prints the document read from `text` (`DocumentMut`'s `Display`).
#[verifier::external_body]
pub(crate) fn reprint(text: &str) -> (res: String)
    ensures
        res@ == toml_reprint(text@),
{
    let Ok(doc) = text.parse::<toml_edit::DocumentMut>() else { return text.to_owned() };
    doc.to_string()
}

/// Removes the top-level entry `key` (`Table::remove`) and prints.
#[verifier::external_body]
pub(crate) fn remove_top_key(text: &str, key: &str) -> (res: String)
    ensures
        res@ == toml_without_key(text@, key@),
{
    let Ok(mut doc) = text.parse::<toml_edit::DocumentMut>() else { return text.to_owned() };
    doc.as_table_mut().remove(key);
    doc.to_string()
}

/// The names of the entries of the `target` table (`Item::as_table_like`,
/// `TableLike::iter`).
#[verifier::external_body]
pub(crate) fn target_keys(text: &str) -> (res: Vec<String>)
    ensures
        views(res@) == toml_target_keys(text@),
{
    let Ok(doc) = text.parse::<toml_edit::DocumentMut>() else { return vec![] };
    match doc.get("target").and_then(toml_edit::Item::as_table_like) {
        Some(t) => t.iter().map(|(k, _)| k.to_owned()).collect(),
        None => vec![],
    }
}

/// Removes the entry `key` from the table `target.<t>`
/// (`Item::as_table_like_mut`, `TableLike::remove`) and prints.
#[verifier::external_body]
pub(crate) fn remove_target_key(text: &str, t: &str, key: &str) -> (res: String)
    ensures
        res@ == toml_without_target_key(text@, t@, key@),
{
    let Ok(mut doc) = text.parse::<toml_edit::DocumentMut>() else { return text.to_owned() };
    let target = doc.get_mut("target").and_then(toml_edit::Item::as_table_like_mut);
    if let Some(table) = target.and_then(|tt| tt.get_mut(t)).and_then(toml_edit::Item::as_table_like_mut) {
        table.remove(key);
    }
    doc.to_string()
}

/// Whether there is a `workspace` table (`Item::as_table_like`).
#[verifier::external_body]
pub(crate) fn has_workspace(text: &str) -> (res: bool)
    ensures
        res == toml_has_workspace(text@),
{
    let Ok(doc) = text.parse::<toml_edit::DocumentMut>() else { return false };
    doc.get("workspace").and_then(toml_edit::Item::as_table_like).is_some()
}

/// The elements of `workspace.members` (`Item::as_array`, `Value::as_str`).
#[verifier::external_body]
pub(crate) fn workspace_members(text: &str) -> (res: Option<Vec<Option<String>>>)
    ensures
        match res {
            Some(v) => toml_members(text@) == Some(v@.map_values(|m: Option<String>| crate::text::opt_view(m))),
            None => toml_members(text@) is None,
        },
{
    let doc = text.parse::<toml_edit::DocumentMut>().ok()?;
    let workspace = doc.get("workspace").and_then(toml_edit::Item::as_table_like)?;
    let members = workspace.get("members").and_then(toml_edit::Item::as_array)?;
    Some(members.iter().map(|v| v.as_str().map(str::to_owned)).collect())
}

/// Removes the element of `workspace.members` at `index` (`Array::remove`,
/// which panics past the end) and prints: the array read again has one
/// element less.
#[verifier::external_body]
pub(crate) fn remove_member(text: &str, index: usize) -> (res: String)
    requires
        toml_members(text@) is Some,
        index < toml_members(text@)->0.len(),
    ensures
        res@ == toml_without_member(text@, index),
        toml_members(res@) is Some,
        toml_members(res@)->0.len() == toml_members(text@)->0.len() - 1,
{
    let Ok(mut doc) = text.parse::<toml_edit::DocumentMut>() else { return text.to_owned() };
    let workspace = doc.get_mut("workspace").and_then(toml_edit::Item::as_table_like_mut);
    if let Some(members) = workspace.and_then(|w| w.get_mut("members")).and_then(toml_edit::Item::as_array_mut) {
        members.remove(index);
    }
    doc.to_string()
}

/// Whether there is a `workspace.exclude` array (`Item::as_array`).
#[verifier::external_body]
pub(crate) fn has_exclude(text: &str) -> (res: bool)
    ensures
        res == toml_has_exclude(text@),
{
    let Ok(doc) = text.parse::<toml_edit::DocumentMut>() else { return false };
    let workspace = doc.get("workspace").and_then(toml_edit::Item::as_table_like);
    workspace.and_then(|w| w.get("exclude")).and_then(toml_edit::Item::as_array).is_some()
}

/// Pushes `dir` onto `workspace.exclude` (`Array::push`) and prints.
#[verifier::external_body]
pub(crate) fn push_exclude(text: &str, dir: &str) -> (res: String)
    ensures
        res@ == toml_with_exclude_pushed(text@, dir@),
{
    let Ok(mut doc) = text.parse::<toml_edit::DocumentMut>() else { return text.to_owned() };
    let workspace = doc.get_mut("workspace").and_then(toml_edit::Item::as_table_like_mut);
    if let Some(exclude) = workspace.and_then(|w| w.get_mut("exclude")).and_then(toml_edit::Item::as_array_mut) {
        exclude.push(dir);
    }
    doc.to_string()
}

/// Sets `workspace.exclude` to a new array of `dirs` (`TableLike::insert`)
/// and prints.
#[verifier::external_body]
pub(crate) fn insert_exclude(text: &str, dirs: &Vec<String>) -> (res: String)
    ensures
        res@ == toml_with_exclude_array(text@, views(dirs@)),
{
    let Ok(mut doc) = text.parse::<toml_edit::DocumentMut>() else { return text.to_owned() };
    if let Some(w) = doc.get_mut("workspace").and_then(toml_edit::Item::as_table_like_mut) {
        let array: toml_edit::Array = dirs.iter().map(String::as_str).collect();
        w.insert("exclude", toml_edit::Item::Value(toml_edit::Value::Array(array)));
    }
    doc.to_string()
}

} // verus!
