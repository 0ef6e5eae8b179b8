//! The TOML documents of the keybind profiles and of the live config, held as
//! `toml_edit` documents so that every edit keeps the rest of the file as it
//! was written.
//!
//! A document is seen through `doc_view`: the slots of its root table, the
//! slots of its `[keys]` table, the `(key, description)` strings of every
//! `[[keys.command]]` table, and the text it renders to. A slot is a key and
//! the view of the item stored under it: the item's TOML type name, its
//! string value when it is a string, and its rendered text.
use toml_edit::{DocumentMut, Item, TomlError};
use vstd::prelude::*;

verus! {

#[verifier::external_type_specification]
#[verifier::external_body]
pub struct ExDocumentMut(DocumentMut);

#[verifier::external_type_specification]
#[verifier::external_body]
pub struct ExItem(Item);

#[verifier::external_type_specification]
#[verifier::external_body]
pub struct ExTomlError(TomlError);

/// What an item holds, as plain values: its TOML type name (`"none"`,
/// `"string"`, `"table"`, `"array of tables"`, ...), its string value when it
/// is a string, and the text it renders to.
pub type ItemView = (Seq<char>, Option<Seq<char>>, Seq<char>);

/// A key of a table and the view of the item stored under it.
pub type Slot = (Seq<char>, ItemView);

/// The `key` and `description` strings of one `[[keys.command]]` table.
pub type CommandView = (Option<Seq<char>>, Option<Seq<char>>);

/// What a document holds: its root slots, the slots of its `[keys]` table
/// (empty when `keys` is not a table), the commands of `[[keys.command]]`
/// (empty when that is not an array of tables), and its rendered text.
pub type DocView = (Seq<Slot>, Seq<Slot>, Seq<CommandView>, Seq<char>);

/// The slots of a document's root table, in table order (`Item::None`
/// slots included).
pub uninterp spec fn root_slots(doc: DocumentMut) -> Seq<Slot>;

/// The slots of a document's `[keys]` table, in table order; empty when
/// `keys` is not a table.
pub uninterp spec fn keys_slots(doc: DocumentMut) -> Seq<Slot>;

/// The `(key, description)` strings of each table of a document's
/// `[[keys.command]]` array, in file order; empty when that is not an array
/// of tables.
pub uninterp spec fn command_tables(doc: DocumentMut) -> Seq<CommandView>;

/// The text a document renders to.
pub uninterp spec fn doc_text(doc: DocumentMut) -> Seq<char>;

/// The contents of a `toml_edit` document.
pub open spec fn doc_view(doc: DocumentMut) -> DocView {
    (root_slots(doc), keys_slots(doc), command_tables(doc), doc_text(doc))
}

/// The contents of a `toml_edit` item.
pub uninterp spec fn item_view(item: Item) -> ItemView;

/// What `toml_edit::value` makes of a string: the contents of that string
/// value item.
pub uninterp spec fn string_value_view(s: Seq<char>) -> ItemView;

/// What `Item::as_bool` gives for an item with this view: its value when
/// it is a boolean.
pub uninterp spec fn bool_of(v: ItemView) -> Option<bool>;

/// What `toml_edit::value` makes of a boolean: the contents of that boolean
/// value item.
pub uninterp spec fn bool_value_view(b: bool) -> ItemView;

/// What `DocumentMut::from_str` makes of a text: the contents of the parsed
/// document, or `None` where the text is not valid TOML.
pub uninterp spec fn parsed_view(text: Seq<char>) -> Option<DocView>;


/// A slot that holds an item (toml_edit hides slots holding `Item::None`).
pub open spec fn is_present(s: Slot) -> bool {
    s.1.0 != "none"@
}

/// The slots a table shows when iterated: those holding an item.
pub open spec fn visible(s: Seq<Slot>) -> Seq<Slot>
    decreases s.len(),
{
    if s.len() == 0 {
        Seq::empty()
    } else if is_present(s.last()) {
        visible(s.drop_last()).push(s.last())
    } else {
        visible(s.drop_last())
    }
}

/// No two slots share a key.
pub open spec fn distinct_keys(s: Seq<Slot>) -> bool {
    forall|i: int, j: int| 0 <= i < j < s.len() ==> (#[trigger] s[i]).0 != (#[trigger] s[j]).0
}

/// Index of the first slot with key `key`, or -1.
pub open spec fn slot_index(s: Seq<Slot>, key: Seq<char>) -> int
    decreases s.len(),
{
    if s.len() == 0 {
        -1
    } else if s[0].0 == key {
        0
    } else {
        let r = slot_index(s.drop_first(), key);
        if r < 0 {
            -1
        } else {
            r + 1
        }
    }
}

/// The slots after inserting `v` under `key`: an existing slot is replaced
/// where it stands, a new key goes to the end.
pub open spec fn set_slot(s: Seq<Slot>, key: Seq<char>, v: ItemView) -> Seq<Slot> {
    let i = slot_index(s, key);
    if i < 0 {
        s.push((key, v))
    } else {
        s.update(i, (key, v))
    }
}

/// The slots after removing `key`; the later slots shift down.
pub open spec fn remove_slot(s: Seq<Slot>, key: Seq<char>) -> Seq<Slot> {
    let i = slot_index(s, key);
    if i < 0 {
        s
    } else {
        s.remove(i)
    }
}

/// The root slots other than `keys`.
pub open spec fn other_sections(root: Seq<Slot>) -> Seq<Slot>
    decreases root.len(),
{
    if root.len() == 0 {
        Seq::empty()
    } else if root.last().0 == "keys"@ {
        other_sections(root.drop_last())
    } else {
        other_sections(root.drop_last()).push(root.last())
    }
}

/// `[keys]` can be written: it is absent, holds nothing, or is a table.
pub open spec fn keys_writable(doc: DocumentMut) -> bool {
    let i = slot_index(root_slots(doc), "keys"@);
    i < 0 || root_slots(doc)[i].1.0 == "none"@ || root_slots(doc)[i].1.0 == "table"@
}

/// `[keys]` is a table.
pub open spec fn keys_is_table(doc: DocumentMut) -> bool {
    let i = slot_index(root_slots(doc), "keys"@);
    i >= 0 && root_slots(doc)[i].1.0 == "table"@
}

/// The view of a copied document: the same contents.
pub open spec fn same_doc(a: DocumentMut, b: DocumentMut) -> bool {
    doc_view(a) == doc_view(b)
}

/// An empty document (`DocumentMut::new`).
#[verifier::external_body]
pub(crate) fn new_document() -> (doc: DocumentMut)
    ensures
        root_slots(doc) == Seq::<Slot>::empty(),
        keys_slots(doc) == Seq::<Slot>::empty(),
        command_tables(doc) == Seq::<CommandView>::empty(),
{
    DocumentMut::new()
}

/// Parses a TOML text (`str::parse::<DocumentMut>`).
#[verifier::external_body]
pub(crate) fn parse_document(text: &str) -> (r: Result<DocumentMut, TomlError>)
    ensures
        r is Ok <==> parsed_view(text@) is Some,
        r matches Ok(doc) ==> parsed_view(text@) == Some(doc_view(doc)),
{
    text.parse::<DocumentMut>()
}

/// The text of a document (`DocumentMut`'s `Display`).
#[verifier::external_body]
pub(crate) fn render_document(doc: &DocumentMut) -> (r: String)
    ensures
        r@ == doc_text(*doc),
{
    doc.to_string()
}

/// A copy of a document (`DocumentMut::clone`).
#[verifier::external_body]
pub(crate) fn clone_document(doc: &DocumentMut) -> (r: DocumentMut)
    ensures
        same_doc(r, *doc),
{
    doc.clone()
}

/// Whether the root table holds an item under `keys` (`Table::get` is
/// `Some`; it skips slots holding `Item::None`). Where it holds none there is
/// no `[keys]` table, so no keys and no commands either.
#[verifier::external_body]
pub(crate) fn has_keys_item(doc: &DocumentMut) -> (r: bool)
    ensures
        r == (slot_index(root_slots(*doc), "keys"@) >= 0 && is_present(
            root_slots(*doc)[slot_index(root_slots(*doc), "keys"@)],
        )),
        !r ==> keys_slots(*doc) == Seq::<Slot>::empty(),
        !r ==> command_tables(*doc) == Seq::<CommandView>::empty(),
{
    doc.get("keys").is_some()
}

/// `doc["keys"] = Item::Table(Table::new())`: an empty `[keys]` table, in the
/// slot `keys` already had or at the end of the root table.
#[verifier::external_body]
pub(crate) fn put_empty_keys_table(doc: &mut DocumentMut)
    ensures
        keys_is_table(*final(doc)),
        keys_slots(*final(doc)) == Seq::<Slot>::empty(),
        command_tables(*final(doc)) == Seq::<CommandView>::empty(),
        other_sections(root_slots(*final(doc))) == other_sections(root_slots(*old(doc))),
{
    doc["keys"] = Item::Table(toml_edit::Table::new());
}

/// The items of `[keys]` in table order, each key with a copy of its item
/// (`Table::iter`, which skips slots holding `Item::None`); empty when `keys`
/// is not a table. The keys of a table are distinct.
#[verifier::external_body]
pub(crate) fn keys_entries(doc: &DocumentMut) -> (r: Vec<(String, Item)>)
    ensures
        r.len() == visible(keys_slots(*doc)).len(),
        forall|i: int|
            0 <= i < r.len() ==> (#[trigger] r[i]).0@ == visible(keys_slots(*doc))[i].0
                && item_view(r[i].1) == visible(keys_slots(*doc))[i].1,
        forall|i: int, j: int|
            0 <= i < j < r.len() ==> (#[trigger] r[i]).0@ != (#[trigger] r[j]).0@,
{
    match doc.get("keys").and_then(Item::as_table) {
        Some(table) => table.iter().map(|(k, v)| (k.to_string(), v.clone())).collect(),
        None => Vec::new(),
    }
}

/// The key of every slot of `[keys]` in table order, slots holding
/// `Item::None` included (`Table::into_iter` on a copy of the table, keeping
/// the keys); empty when `keys` is not a table. The entries of a table are an
/// `IndexMap`, so these keys are distinct.
#[verifier::external_body]
pub(crate) fn keys_slot_names(doc: &DocumentMut) -> (r: Vec<String>)
    ensures
        r.len() == keys_slots(*doc).len(),
        forall|i: int| 0 <= i < r.len() ==> (#[trigger] r[i])@ == keys_slots(*doc)[i].0,
        forall|i: int, j: int| 0 <= i < j < r.len() ==> (#[trigger] r[i])@ != (#[trigger] r[j])@,
{
    match doc.get("keys").and_then(Item::as_table) {
        Some(table) => table.clone().into_iter().map(|(k, _)| k).collect(),
        None => Vec::new(),
    }
}

/// A copy of the item `[keys]` holds under `key`, if any (`Table::get` then
/// `Clone`).
#[verifier::external_body]
pub(crate) fn keys_lookup(doc: &DocumentMut, key: &str) -> (r: Option<Item>)
    ensures
        r is Some <==> (slot_index(keys_slots(*doc), key@) >= 0 && is_present(
            keys_slots(*doc)[slot_index(keys_slots(*doc), key@)],
        )),
        r matches Some(item) ==> item_view(item) == keys_slots(*doc)[slot_index(
            keys_slots(*doc),
            key@,
        )].1,
{
    doc.get("keys").and_then(Item::as_table).and_then(|t| t.get(key)).cloned()
}

/// `Table::insert` on the `[keys]` table.
#[verifier::external_body]
pub(crate) fn keys_insert(doc: &mut DocumentMut, key: &str, item: Item)
    requires
        keys_is_table(*old(doc)),
    ensures
        keys_is_table(*final(doc)),
        keys_slots(*final(doc)) == set_slot(keys_slots(*old(doc)), key@, item_view(item)),
        distinct_keys(keys_slots(*old(doc))),
        distinct_keys(keys_slots(*final(doc))),
        other_sections(root_slots(*final(doc))) == other_sections(root_slots(*old(doc))),
        key@ != "command"@ ==> command_tables(*final(doc)) == command_tables(*old(doc)),
        key@ == "command"@ && item_view(item).0 != "array of tables"@ ==> command_tables(
            *final(doc),
        ) == Seq::<CommandView>::empty(),
{
    if let Some(table) = doc.get_mut("keys").and_then(Item::as_table_mut) {
        table.insert(key, item);
    }
}

/// `Table::remove` on the `[keys]` table, when `keys` is a table.
#[verifier::external_body]
pub(crate) fn keys_remove(doc: &mut DocumentMut, key: &str)
    ensures
        keys_writable(*final(doc)) == keys_writable(*old(doc)),
        keys_is_table(*final(doc)) == keys_is_table(*old(doc)),
        keys_slots(*final(doc)) == if keys_is_table(*old(doc)) {
            remove_slot(keys_slots(*old(doc)), key@)
        } else {
            keys_slots(*old(doc))
        },
        distinct_keys(keys_slots(*old(doc))),
        distinct_keys(keys_slots(*final(doc))),
        !keys_is_table(*old(doc)) ==> keys_slots(*old(doc)) == Seq::<Slot>::empty(),
        other_sections(root_slots(*final(doc))) == other_sections(root_slots(*old(doc))),
        key@ != "command"@ ==> command_tables(*final(doc)) == command_tables(*old(doc)),
{
    if let Some(table) = doc.get_mut("keys").and_then(Item::as_table_mut) {
        table.remove(key);
    }
}

/// The string an item holds, if it is a string (`Item::as_str`).
#[verifier::external_body]
pub(crate) fn item_str(item: &Item) -> (r: Option<String>)
    ensures
        r.is_some() == item_view(*item).1.is_some(),
        r matches Some(s) ==> Some(s@) == item_view(*item).1,
{
    item.as_str().map(|s| s.to_string())
}

/// A string value item (`toml_edit::value`): a string holding `s`.
#[verifier::external_body]
pub(crate) fn string_item(s: &str) -> (r: Item)
    ensures
        item_view(r) == string_value_view(s@),
        item_view(r).0 == "string"@,
        item_view(r).1 == Some(s@),
{
    toml_edit::value(s)
}

/// The `key` and `description` strings (`Item::as_str`) of every table of
/// the array of tables at `keys.command`, in file order; empty when there is
/// no such array.
#[verifier::external_body]
pub(crate) fn command_entries(doc: &DocumentMut) -> (r: Vec<(Option<String>, Option<String>)>)
    ensures
        r.len() == command_tables(*doc).len(),
        forall|i: int|
            0 <= i < r.len() ==> (#[trigger] r[i]).0.is_some() == command_tables(*doc)[i].0.is_some()
                && r[i].1.is_some() == command_tables(*doc)[i].1.is_some()
                && (r[i].0 matches Some(k) ==> Some(k@) == command_tables(*doc)[i].0)
                && (r[i].1 matches Some(d) ==> Some(d@) == command_tables(*doc)[i].1),
{
    let field = |t: &toml_edit::Table, name: &str| t.get(name).and_then(Item::as_str).map(|s| s.to_string());
    match doc.get("keys").and_then(|i| i.get("command")).and_then(Item::as_array_of_tables) {
        Some(aot) => aot.iter().map(|t| (field(t, "key"), field(t, "description"))).collect(),
        None => Vec::new(),
    }
}

/// The string held under `key` by the root table, where there is one.
pub open spec fn root_str(doc: DocumentMut, key: Seq<char>) -> Option<Seq<char>> {
    let i = slot_index(root_slots(doc), key);
    if i < 0 {
        None
    } else {
        root_slots(doc)[i].1.1
    }
}

/// `doc[key] = item` on the root table: an existing slot is replaced where
/// it stands (`Table::entry(..).or_insert(..)`), a new key goes to the end.
#[verifier::external_body]
pub(crate) fn root_insert(doc: &mut DocumentMut, key: &str, item: Item)
    requires
        key@ != "keys"@,
    ensures
        root_slots(*final(doc)) == set_slot(root_slots(*old(doc)), key@, item_view(item)),
        keys_slots(*final(doc)) == keys_slots(*old(doc)),
        command_tables(*final(doc)) == command_tables(*old(doc)),
{
    doc[key] = item;
}

/// The string the root table holds under `key` (`Table::get`, which skips
/// slots holding `Item::None`, then `Item::as_str`).
#[verifier::external_body]
pub(crate) fn root_item_str(doc: &DocumentMut, key: &str) -> (r: Option<String>)
    ensures
        match r {
            Some(s) => root_str(*doc, key@) == Some(s@),
            None => root_str(*doc, key@) is None,
        },
{
    doc.get(key).and_then(Item::as_str).map(|s| s.to_string())
}

/// The boolean the root table holds under `key` (`Table::get`, then
/// `Item::as_bool`).
#[verifier::external_body]
pub(crate) fn root_item_bool(doc: &DocumentMut, key: &str) -> (r: Option<bool>)
    ensures
        r == if slot_index(root_slots(*doc), key@) < 0 {
            None
        } else {
            bool_of(root_slots(*doc)[slot_index(root_slots(*doc), key@)].1)
        },
{
    doc.get(key).and_then(Item::as_bool)
}

/// A boolean value item (`toml_edit::value`): a boolean holding `b`, which
/// is no string.
#[verifier::external_body]
pub(crate) fn bool_item(b: bool) -> (r: Item)
    ensures
        item_view(r) == bool_value_view(b),
        item_view(r).0 == "boolean"@,
        item_view(r).1 is None,
        bool_of(item_view(r)) == Some(b),
{
    toml_edit::value(b)
}

/// Whether the root table's `keys` item is a table (`Table::get`, then
/// `Item::is_table`).
#[verifier::external_body]
pub(crate) fn keys_item_is_table(doc: &DocumentMut) -> (r: bool)
    ensures
        r == keys_is_table(*doc),
{
    doc.get("keys").map_or(false, Item::is_table)
}

/// The message of a parse error (`TomlError`'s `Display`). Nothing is
/// stated of the text.
#[verifier::external_body]
pub(crate) fn toml_error_text(e: &TomlError) -> String {
    e.to_string()
}

} // verus!
