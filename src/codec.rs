use vstd::prelude::*;
use crate::store::{CommandEntry, Definitions, DefsModel, VersionEntry};

verus! {

#[verifier::external_type_specification]
#[verifier::external_body]
pub struct ExTomlSerError(toml::ser::Error);

#[verifier::external_type_specification]
#[verifier::external_body]
pub struct ExTomlDeError(toml::de::Error);

/// Why the definitions file could not be read or written.
#[derive(Clone, Copy, Debug, PartialEq, Eq, Structural)]
pub enum StoreError {
    /// The file's text is not a table of commands, each a table of version
    /// labels to paths.
    Corrupt,
    /// The file is there but could not be read.
    Unreadable,
    /// Writing or moving the file failed.
    WriteFailure,
}

/// The TOML document that `toml::to_string` writes for a store.
pub uninterp spec fn toml_text(d: DefsModel) -> Seq<char>;

/// The store that `toml::from_str` reads from a text, if it reads one.
pub uninterp spec fn toml_parsed(s: Seq<char>) -> Option<DefsModel>;

/// Relies on `toml::to_string` on a `BTreeMap` of `BTreeMap`s of strings:
/// a `BTreeMap` is walked in key order, so the text depends on the store's
/// contents alone; its keys are strings and it writes into a `String`, so
/// none of the serializer's errors can arise.
#[verifier::external_body]
fn encode_toml(defs: &Definitions) -> (r: Result<String, toml::ser::Error>)
    ensures
        r is Ok,
        r is Ok ==> r->Ok_0@ == toml_text(defs@),
{
    let table: std::collections::BTreeMap<String, std::collections::BTreeMap<String, String>> = defs.commands.iter().map(
        |c| (c.command.clone(), c.versions.iter().map(|v| (v.version.clone(), v.path.clone())).collect()),
    ).collect();
    toml::to_string(&table)
}

/// Relies on `toml::from_str` into a `BTreeMap` of `BTreeMap`s of strings;
/// the keys of a `BTreeMap` are unique, so each list built from one is too.
#[verifier::external_body]
fn decode_toml(text: &str) -> (r: Result<Definitions, toml::de::Error>)
    ensures
        r is Ok ==> r->Ok_0.wf() && toml_parsed(text@) == Some(r->Ok_0@),
        r is Err ==> toml_parsed(text@) is None,
{
    let table: std::collections::BTreeMap<String, std::collections::BTreeMap<String, String>> = toml::from_str(text)?;
    Ok(Definitions { commands: table.into_iter().map(|(command, versions)| CommandEntry {
        command,
        versions: versions.into_iter().map(|(version, path)| VersionEntry { version, path }).collect(),
    }).collect() })
}

/// The saved text depends on the store's contents alone: stores that record
/// the same versions, in whatever order they were built, are written alike.
pub proof fn lemma_store_text_by_contents(a: &Definitions, b: &Definitions)
    requires
        a@ == b@,
    ensures
        toml_text(a@) == toml_text(b@),
{
}

/// The text of the definitions file for `defs`.
pub fn render_store(defs: &Definitions) -> (r: String)
    ensures
        r@ == toml_text(defs@),
{
    match encode_toml(defs) {
        Ok(text) => text,
        Err(_) => {
            proof {
                assert(false);
            }
            String::new()
        },
    }
}

/// The store that the definitions file's text holds; text that does not
/// parse is `Corrupt`, never taken for an empty store.
pub fn parse_store(text: &str) -> (r: Result<Definitions, StoreError>)
    ensures
        r is Ok <==> toml_parsed(text@) is Some,
        r is Ok ==> r->Ok_0.wf() && r->Ok_0@ == toml_parsed(text@).unwrap(),
        r is Err ==> r == Err::<Definitions, StoreError>(StoreError::Corrupt),
{
    match decode_toml(text) {
        Ok(d) => Ok(d),
        Err(_) => Err(StoreError::Corrupt),
    }
}

/// The store at the start of a session: empty when there is no definitions
/// file yet, else what its text holds.
pub fn load_store(text: Option<&str>) -> (r: Result<Definitions, StoreError>)
    ensures
        text is None ==> r is Ok && r->Ok_0.wf() && r->Ok_0@ == DefsModel::empty(),
        text is Some ==> (r is Ok <==> toml_parsed(text->Some_0@) is Some),
        text is Some && r is Ok ==> r->Ok_0.wf() && r->Ok_0@ == toml_parsed(text->Some_0@).unwrap(),
        r is Err ==> r == Err::<Definitions, StoreError>(StoreError::Corrupt),
{
    match text {
        None => Ok(Definitions::new()),
        Some(t) => parse_store(t),
    }
}

} // verus!
