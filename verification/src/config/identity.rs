//! The identity of a container: a UUID that is written into its configuration
//! the first time that one is needed.
use vstd::prelude::*;

use crate::text::joined;

verus! {

/// A TOML document in memory.
#[verifier::external_type_specification]
#[verifier::external_body]
pub struct ExTomlValue(toml::Value);

/// Why a text is no TOML document.
#[verifier::external_type_specification]
#[verifier::external_body]
pub struct ExTomlReadError(toml::de::Error);

/// Why a document cannot be written as TOML.
#[verifier::external_type_specification]
#[verifier::external_body]
pub struct ExTomlWriteError(toml::ser::Error);

/// One step on the way from the top of a document to a value.
pub enum TomlStep {
    /// The entry of a table.
    Key(Seq<char>),
    /// The item of an array, counted from zero.
    Item(nat),
}

/// A value in which no other values are.
pub enum TomlLeaf {
    Text(Seq<char>),
    /// An integer, a float, a boolean or a date, as it is written in TOML.
    Other(Seq<char>),
    EmptyTable,
    EmptyArray,
}

/// A document by its leaves: each by the way that leads to it.
pub type TomlLeaves = Map<Seq<TomlStep>, TomlLeaf>;

/// The leaves of a document.
pub uninterp spec fn document_leaves(document: toml::Value) -> Map<Seq<TomlStep>, TomlLeaf>;

/// Whether a document has, in one of its tables, a first key that the crate
/// takes for the mark of a date, so that it would not read the table as one.
pub uninterp spec fn looks_dated(document: toml::Value) -> bool;

/// The text as which `toml::to_string_pretty` writes a document; nothing where
/// it fails.
pub uninterp spec fn written_text(document: toml::Value) -> Option<Seq<char>>;

/// The leaves of what `toml::from_str` reads in a text; nothing where the text
/// is no TOML.
pub uninterp spec fn toml_leaves(source: Seq<char>) -> Option<Map<Seq<TomlStep>, TomlLeaf>>;

/// Whether a document has a table of this name at its top.
pub open spec fn holds_table(leaves: TomlLeaves, name: Seq<char>) -> bool {
    exists|path: Seq<TomlStep>|
        #![trigger leaves.contains_key(path)]
        leaves.contains_key(path) && below_table(path, leaves[path], name)
}

/// Whether a leaf is one of a table at the top of its document, or is that
/// table because it has no entries.
pub open spec fn below_table(path: Seq<TomlStep>, leaf: TomlLeaf, name: Seq<char>) -> bool {
    ||| path.len() >= 2 && path[0] == TomlStep::Key(name) && path[1] is Key
    ||| path == seq![TomlStep::Key(name)] && leaf is EmptyTable
}

/// The way to an entry of a table at the top of a document.
pub open spec fn entry_path(table: Seq<char>, key: Seq<char>) -> Seq<TomlStep> {
    seq![TomlStep::Key(table), TomlStep::Key(key)]
}

/// Whether a leaf stays when an entry of a table at the top is set: it is
/// neither in the entry, nor the table itself, which has an entry now.
pub open spec fn kept(path: Seq<TomlStep>, table: Seq<char>, key: Seq<char>) -> bool {
    !entry_path(table, key).is_prefix_of(path) && path != seq![TomlStep::Key(table)]
}

/// A document with one entry of a table at its top set to a string, and all
/// other leaves as they were.
pub open spec fn with_string(
    leaves: TomlLeaves,
    table: Seq<char>,
    key: Seq<char>,
    value: Seq<char>,
) -> TomlLeaves {
    Map::new(
        |path: Seq<TomlStep>| leaves.contains_key(path) && kept(path, table, key),
        |path: Seq<TomlStep>| leaves[path],
    ).insert(entry_path(table, key), TomlLeaf::Text(value))
}

/// `toml::from_str` reads a document, or fails where the text is no TOML. A
/// table with the mark of a date is read as a date, so none is left.
#[verifier::external_body]
fn read_document(source: &str) -> (result: Result<toml::Value, toml::de::Error>)
    ensures
        match result {
            Ok(document) => toml_leaves(source@) == Some(document_leaves(document))
                && !looks_dated(document),
            Err(error) => toml_leaves(source@) is None,
        },
{
    toml::from_str(source)
}

/// `toml::Value::get` with `toml::Value::is_table`: whether the document has a
/// table of this name at its top.
#[verifier::external_body]
fn has_table(document: &toml::Value, table: &str) -> (found: bool)
    ensures
        found == holds_table(document_leaves(*document), table@),
{
    document.get(table).is_some_and(toml::Value::is_table)
}

/// `toml::Value::get_mut` with the `insert` of the table that it gives: sets
/// one entry of the table to a string and leaves all others. The entry `uuid`
/// is not the mark of a date.
#[verifier::external_body]
fn set_string(document: &mut toml::Value, table: &str, key: &str, value: &str)
    requires
        holds_table(document_leaves(*old(document)), table@),
    ensures
        document_leaves(*final(document)) == with_string(
            document_leaves(*old(document)),
            table@,
            key@,
            value@,
        ),
        key@ == "uuid"@ && !looks_dated(*old(document)) ==> !looks_dated(*final(document)),
{
    if let Some(toml::Value::Table(entries)) = document.get_mut(table) {
        entries.insert(key.to_owned(), toml::Value::String(value.to_owned()));
    }
}

/// `toml::to_string_pretty` writes a document, or fails: a document that is no
/// table cannot be written, nor one with a date that does not exist. The text,
/// if it can be read again, is read as the same leaves. That it can be read
/// again is not stated: the crate limits how deep the values of a text may be
/// nested, and a document can reach that limit in its written form though it
/// did not before.
#[verifier::external_body]
fn write_document(document: &toml::Value) -> (result: Result<String, toml::ser::Error>)
    ensures
        match result {
            Ok(text) => written_text(*document) == Some(text@) && (!looks_dated(*document) ==> (
            toml_leaves(text@) matches Some(read) ==> read == document_leaves(*document))),
            Err(error) => written_text(*document) is None,
        },
{
    toml::to_string_pretty(document)
}

/// Four bits of a number as a hexadecimal digit.
pub open spec fn hex_digit(nibble: u128) -> char {
    if nibble < 10 {
        ('0' as u32 + nibble) as u32 as char
    } else {
        ('a' as u32 + (nibble - 10)) as u32 as char
    }
}

/// The hexadecimal digit at a position, counted from the highest.
pub open spec fn hex_at(bits: u128, position: int) -> char {
    hex_digit((bits >> ((4 * (31 - position)) as u128)) & 0xf)
}

/// The text of a UUID: thirty-two lower-case hexadecimal digits in groups of
/// eight, four, four, four and twelve, with hyphens between them.
pub open spec fn hyphenated(bits: u128) -> Seq<char> {
    Seq::new(
        36,
        |i: int|
            if i == 8 || i == 13 || i == 18 || i == 23 {
                '-'
            } else if i < 8 {
                hex_at(bits, i)
            } else if i < 13 {
                hex_at(bits, i - 1)
            } else if i < 18 {
                hex_at(bits, i - 2)
            } else if i < 23 {
                hex_at(bits, i - 3)
            } else {
                hex_at(bits, i - 4)
            },
    )
}

/// `uuid::Uuid::from_u128` with its `to_string`: the hyphenated form.
#[verifier::external_body]
pub(crate) fn uuid_to_text(bits: u128) -> (text: String)
    ensures
        text@ == hyphenated(bits),
{
    uuid::Uuid::from_u128(bits).to_string()
}

/// Whether the bits that a UUID has for its version and its variant are those
/// of a random one.
pub open spec fn random_uuid(bits: u128) -> bool {
    (bits >> 76u128) & 0xf == 4 && (bits >> 62u128) & 0x3 == 2
}

/// `uuid::Uuid::new_v4`: a random UUID. Nothing is said of its other bits.
#[verifier::external_body]
fn new_uuid() -> (bits: u128)
    ensures
        random_uuid(bits),
{
    uuid::Uuid::new_v4().as_u128()
}

/// The text of a UUID.
pub fn uuid_text(bits: u128) -> (text: String)
    ensures
        text@ == hyphenated(bits),
{
    uuid_to_text(bits)
}

/// The UUID of a container: the configured one, or a random one.
pub fn container_uuid(configured: Option<u128>) -> (bits: u128)
    ensures
        match configured {
            Some(uuid) => bits == uuid,
            None => random_uuid(bits),
        },
{
    match configured {
        Some(uuid) => uuid,
        None => new_uuid(),
    }
}

/// Why an identity cannot be written into a configuration.
#[derive(Clone, Copy, Debug, PartialEq, Eq, Structural)]
pub enum IdentityError {
    /// The text is no TOML.
    Syntax,
    /// There is no table `container`.
    NoContainer,
    /// The document with the identity in it could not be written, or its text
    /// could not be read again.
    Unreadable,
}

/// Where the identity of a container stands in its configuration.
pub open spec fn identity_path() -> Seq<TomlStep> {
    entry_path("container"@, "uuid"@)
}

/// A configuration with this identity in it, and everything else as it was.
pub open spec fn identified(leaves: TomlLeaves, uuid: u128) -> TomlLeaves {
    with_string(leaves, "container"@, "uuid"@, hyphenated(uuid))
}

/// Why a text gets no identity, as far as it lies in the text.
pub open spec fn identity_error(source: Seq<char>) -> Option<IdentityError> {
    match toml_leaves(source) {
        None => Some(IdentityError::Syntax),
        Some(leaves) => if holds_table(leaves, "container"@) {
            None
        } else {
            Some(IdentityError::NoContainer)
        },
    }
}

/// Whether `text` is read as `source` with this identity in it.
pub open spec fn carries(text: Seq<char>, source: Seq<char>, uuid: u128) -> bool {
    toml_leaves(source) is Some && toml_leaves(text) == Some(
        identified(toml_leaves(source)->0, uuid),
    )
}

/// What comes of writing an identity into a text that can have one: the
/// written form of the document with the identity in it, unless there is none
/// or it cannot be read again.
pub open spec fn identity_outcome(
    source: Seq<char>,
    uuid: u128,
    result: Result<Seq<char>, IdentityError>,
) -> bool {
    exists|document: toml::Value|
        #![trigger document_leaves(document)]
        document_leaves(document) == identified(toml_leaves(source)->0, uuid) && match (
            written_text(document),
            result,
        ) {
            (Some(text), Ok(given)) => given == text && carries(text, source, uuid),
            (Some(text), Err(error)) => error == IdentityError::Unreadable && toml_leaves(
                text,
            ) is None,
            (None, Err(error)) => error == IdentityError::Unreadable,
            (None, Ok(given)) => false,
        }
}

/// Writes an identity into the text of a configuration.
///
/// The text that comes back is read as the given one with the identity in it:
/// every other value, of whatever kind, is as it was.
pub fn assign_uuid(source: &str, uuid: u128) -> (result: Result<String, IdentityError>)
    ensures
        identity_error(source@) matches Some(error) ==> result == Err::<String, IdentityError>(
            error,
        ),
        identity_error(source@) is None ==> identity_outcome(
            source@,
            uuid,
            match result {
                Ok(text) => Ok(text@),
                Err(error) => Err(error),
            },
        ),
{
    let mut document = match read_document(source) {
        Ok(document) => document,
        Err(_) => {
            return Err(IdentityError::Syntax);
        },
    };
    if !has_table(&document, "container") {
        return Err(IdentityError::NoContainer);
    }
    set_string(&mut document, "container", "uuid", &uuid_to_text(uuid));
    assert(document_leaves(document) == identified(toml_leaves(source@)->0, uuid));
    match write_document(&document) {
        Ok(text) => match read_document(&text) {
            Ok(_) => Ok(text),
            Err(_) => Err(IdentityError::Unreadable),
        },
        Err(_) => Err(IdentityError::Unreadable),
    }
}

/// A configuration that has been given an identity keeps it: the next read of
/// its text finds that identity in the container's table, and every other
/// value as it was.
pub proof fn law_assigned_uuid_is_read_back(source: Seq<char>, text: Seq<char>, uuid: u128)
    requires
        identity_error(source) is None,
        identity_outcome(source, uuid, Ok(text)),
    ensures
        identity_error(text) is None,
        ({
            let before = toml_leaves(source)->0;
            let after = toml_leaves(text)->0;
            &&& toml_leaves(text) is Some
            &&& after.contains_key(identity_path())
            &&& after[identity_path()] == TomlLeaf::Text(hyphenated(uuid))
            &&& forall|path: Seq<TomlStep>|
                kept(path, "container"@, "uuid"@) ==> {
                    &&& #[trigger] after.contains_key(path) == before.contains_key(path)
                    &&& before.contains_key(path) ==> after[path] == before[path]
                }
            &&& forall|path: Seq<TomlStep>|
                #![trigger after.contains_key(path)]
                after.contains_key(path) && !kept(path, "container"@, "uuid"@) ==> path
                    == identity_path()
        }),
{
    let after = toml_leaves(text)->0;
    let path = identity_path();
    assert(after.contains_key(path));
    assert(below_table(path, after[path], "container"@));
    assert(path.is_prefix_of(path));
}

/// Writing the same identity again changes nothing.
pub proof fn law_identity_is_stable(
    source: Seq<char>,
    text: Seq<char>,
    again: Seq<char>,
    uuid: u128,
)
    requires
        identity_error(source) is None,
        identity_outcome(source, uuid, Ok(text)),
        identity_outcome(text, uuid, Ok(again)),
    ensures
        toml_leaves(again) == toml_leaves(text),
{
    let leaves = toml_leaves(source)->0;
    let once = identified(leaves, uuid);
    let path = identity_path();
    assert(path.is_prefix_of(path));
    assert(identified(once, uuid) =~= once);
}

/// What comes of writing a random identity into a text that can have one. The
/// identity is told where it was written.
pub open spec fn new_identity_outcome(
    source: Seq<char>,
    result: Result<(u128, Seq<char>), IdentityError>,
) -> bool {
    match result {
        Ok((uuid, text)) => random_uuid(uuid) && identity_outcome(source, uuid, Ok(text)),
        Err(error) => exists|uuid: u128| #[trigger]
            random_uuid(uuid) && identity_outcome(source, uuid, Err(error)),
    }
}

/// Gives a configuration a random identity.
pub fn assign_new_uuid(source: &str) -> (result: Result<(u128, String), IdentityError>)
    ensures
        identity_error(source@) matches Some(error) ==> result == Err::<
            (u128, String),
            IdentityError,
        >(error),
        identity_error(source@) is None ==> new_identity_outcome(
            source@,
            match result {
                Ok((uuid, text)) => Ok((uuid, text@)),
                Err(error) => Err(error),
            },
        ),
{
    let uuid = new_uuid();
    match assign_uuid(source, uuid) {
        Ok(text) => Ok((uuid, text)),
        Err(error) => Err(error),
    }
}

/// What a load writes back: a container that has an identity keeps its file as
/// it is, and another one is given a random identity.
pub fn persist_identity(configured: Option<u128>, source: &str) -> (result: Result<
    Option<(u128, String)>,
    IdentityError,
>)
    ensures
        configured is Some ==> result == Ok::<Option<(u128, String)>, IdentityError>(None),
        configured is None ==> match result {
            Ok(None) => false,
            Ok(Some((uuid, text))) => identity_error(source@) is None && new_identity_outcome(
                source@,
                Ok((uuid, text@)),
            ),
            Err(error) => match identity_error(source@) {
                Some(expected) => error == expected,
                None => new_identity_outcome(source@, Err(error)),
            },
        },
{
    match configured {
        Some(_) => Ok(None),
        None => match assign_new_uuid(source) {
            Ok(written) => Ok(Some(written)),
            Err(error) => Err(error),
        },
    }
}

/// The extension of the temporary file that a configuration is written to.
pub fn temporary_extension(uuid: u128) -> (extension: String)
    ensures
        extension@ == hyphenated(uuid) + ".tmp"@,
{
    joined(&uuid_to_text(uuid), ".tmp")
}

/// An identity that is written into a configuration leaves every value outside
/// its own entry as it was: those of other tables, and the other entries of the
/// container's.
pub proof fn law_identity_touches_nothing_else(
    leaves: TomlLeaves,
    uuid: u128,
    path: Seq<TomlStep>,
)
    requires
        path.len() > 0,
        path[0] != TomlStep::Key("container"@) || (path.len() >= 2 && path[1] != TomlStep::Key(
            "uuid"@,
        )),
    ensures
        identified(leaves, uuid).contains_key(path) <==> leaves.contains_key(path),
        leaves.contains_key(path) ==> identified(leaves, uuid)[path] == leaves[path],
        identified(leaves, uuid).contains_key(
            seq![TomlStep::Key("container"@), TomlStep::Key("uuid"@)],
        ),
        identified(leaves, uuid)[seq![TomlStep::Key("container"@), TomlStep::Key("uuid"@)]]
            == TomlLeaf::Text(hyphenated(uuid)),
{
    let entry = entry_path("container"@, "uuid"@);
    assert(entry[0] == TomlStep::Key("container"@) && entry[1] == TomlStep::Key("uuid"@));
    if entry.is_prefix_of(path) {
        assert(path.subrange(0, 2)[0] == path[0] && path.subrange(0, 2)[1] == path[1]);
    }
    assert(seq![TomlStep::Key("container"@)][0] == TomlStep::Key("container"@));
}

/// Only a configuration with a table for the container can have an identity;
/// a value of that name that is no table does not do.
pub proof fn law_only_containers_are_identified(leaves: TomlLeaves, source: Seq<char>)
    requires
        toml_leaves(source) == Some(leaves),
    ensures
        identity_error(source) is None <==> exists|path: Seq<TomlStep>|
            #![trigger leaves.contains_key(path)]
            leaves.contains_key(path) && path.len() > 0 && path[0] == TomlStep::Key("container"@)
                && ((path.len() >= 2 && path[1] is Key) || (path.len() == 1
                && leaves[path] is EmptyTable)),
        identity_error(source) is Some ==> identity_error(source)
            == Some(IdentityError::NoContainer),
{
    let one = seq![TomlStep::Key("container"@)];
    if holds_table(leaves, "container"@) {
        let path = choose|path: Seq<TomlStep>|
            #![trigger leaves.contains_key(path)]
            leaves.contains_key(path) && below_table(path, leaves[path], "container"@);
        assert(leaves.contains_key(path));
    }
    if exists|path: Seq<TomlStep>|
        #![trigger leaves.contains_key(path)]
        leaves.contains_key(path) && path.len() > 0 && path[0] == TomlStep::Key("container"@) && ((
        path.len() >= 2 && path[1] is Key) || (path.len() == 1 && leaves[path] is EmptyTable)) {
        let path = choose|path: Seq<TomlStep>|
            #![trigger leaves.contains_key(path)]
            leaves.contains_key(path) && path.len() > 0 && path[0] == TomlStep::Key("container"@)
                && ((path.len() >= 2 && path[1] is Key) || (path.len() == 1
                && leaves[path] is EmptyTable));
        if path.len() == 1 {
            assert(path =~= one);
        }
        assert(below_table(path, leaves[path], "container"@));
        assert(leaves.contains_key(path));
    }
}

} // verus!
