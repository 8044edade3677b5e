//! The manifest document and its parts, as `toml_edit` holds them, with what
//! the rewriting relies on of each operation. Nothing in this file is proved:
//! each contract here is taken from the source of `toml_edit`.

use crate::model::{bare_key, names, Fields, Node};
use crate::quote::written;
use toml_edit::{Document, InlineTable, Item, Table, TomlError, Value};
use vstd::prelude::*;

verus! {

/// `toml_edit::Document`: a parsed manifest. The proofs see of it only what
/// `doc_view` names.
#[verifier::external_type_specification]
#[verifier::external_body]
pub struct ExDocument(Document);

/// `toml_edit::Table`: a block table. The proofs see of it only what
/// `table_fields` names.
#[verifier::external_type_specification]
#[verifier::external_body]
pub struct ExTable(Table);

/// `toml_edit::InlineTable`: an inline table. The proofs see of it only
/// what `inline_fields` names.
#[verifier::external_type_specification]
#[verifier::external_body]
pub struct ExInlineTable(InlineTable);

/// `toml_edit::Item`: what stands under a key of a table. The proofs see
/// of it only what `item_node` names.
#[verifier::external_type_specification]
#[verifier::external_body]
pub struct ExItem(Item);

/// `toml_edit::Value`: a value that was taken out of an inline table. It is
/// only passed on.
#[verifier::external_type_specification]
#[verifier::external_body]
pub struct ExValue(Value);

/// `toml_edit::TomlError`: why a text is no valid document. It is only
/// passed on.
#[verifier::external_type_specification]
#[verifier::external_body]
pub struct ExTomlError(TomlError);

/// What a document holds.
pub struct DocView {
    /// The root item.
    pub root: Node,
    /// What stands behind the last entry: spaces and comments.
    pub trailing: Seq<char>,
    /// The text that the document is written out as.
    pub text: Seq<char>,
}

/// What a document holds: the item in its field `root`, what it keeps
/// behind the last entry, and the text that `to_string` gives of it.
pub uninterp spec fn doc_view(d: Document) -> DocView;

/// What an item is: `Empty` for `Item::None`, `Text` for a string value,
/// `Inline` for an inline table, `Block` for a table, `Tables` for an array
/// of tables, and `Other` for any other value, with what `Display` writes
/// of the value between the spaces and comments that it keeps round it.
pub uninterp spec fn item_node(i: Item) -> Node;

/// What a table holds: every key once, in the order in which the table
/// iterates; the item under each key; and for each key what `Display`
/// writes for its entry: the key and the value with the spaces and comments
/// kept round them, or, for a table or an array of tables under the key,
/// all that it writes for these.
pub uninterp spec fn table_fields(t: Table) -> Fields;

/// What an inline table holds: every key once, in the order in which the
/// table iterates; the item under each key; and for each key what `Display`
/// writes for its entry, the key and the value with the spaces kept round
/// them.
pub uninterp spec fn inline_fields(t: InlineTable) -> Fields;

/// What parsing a text gives: what the parsed document holds, or nothing
/// where the text is no valid document.
pub uninterp spec fn parsed(text: Seq<char>) -> Option<DocView>;

/// `<Document as FromStr>::from_str`: fails exactly on the texts that are no
/// valid document; the root of a parsed document is a block table.
#[verifier::external_body]
pub(crate) fn parse_document(text: &str) -> (r: Result<Document, TomlError>)
    ensures
        match r {
            Ok(d) => parsed(text@) == Some(doc_view(d)) && doc_view(d).root is Block,
            Err(_) => parsed(text@) is None,
        },
{
    text.parse::<Document>()
}

/// `Document`'s `to_string`: the document written out. It panics where the
/// root is no table, which `requires` leaves out.
#[verifier::external_body]
pub(crate) fn render(doc: &Document) -> (text: String)
    requires
        doc_view(*doc).root is Block,
    ensures
        text@ == doc_view(*doc).text,
{
    doc.to_string()
}

/// The public field `root` of a `Document`.
#[verifier::external_body]
pub(crate) fn root_item(doc: &Document) -> (root: &Item)
    ensures
        item_node(*root) == doc_view(*doc).root,
{
    &doc.root
}

/// The public field `root` of a `Document`, to change it: the document's
/// root is what the item is when the borrow ends, and what stands behind
/// the last entry stays.
#[verifier::external_body]
pub(crate) fn root_item_mut(doc: &mut Document) -> (root: &mut Item)
    ensures
        item_node(*root) == doc_view(*old(doc)).root,
        doc_view(*final(doc)).root == item_node(*final(root)),
        doc_view(*final(doc)).trailing == doc_view(*old(doc)).trailing,
{
    &mut doc.root
}

/// `Item::as_table`: the table of a block table, nothing of any other item.
pub assume_specification[ Item::as_table ](i: &Item) -> (r: Option<&Table>)
    ensures
        r is Some == (item_node(*i) is Block),
        r matches Some(t) ==> item_node(*i) == Node::Block(table_fields(*t)),
;

/// `Item::as_table_mut`: as `as_table`; the item is a block table of what
/// the table holds when the borrow ends.
pub assume_specification[ Item::as_table_mut ](i: &mut Item) -> (r: Option<&mut Table>)
    ensures
        r is Some == (item_node(*old(i)) is Block),
        match r {
            Some(t) => {
                &&& item_node(*old(i)) == Node::Block(table_fields(*t))
                &&& item_node(*final(i)) == Node::Block(table_fields(*final(t)))
            },
            None => *final(i) == *old(i),
        },
;

/// `Item::as_inline_table`: the table of an inline table, nothing of any
/// other item.
pub assume_specification[ Item::as_inline_table ](i: &Item) -> (r: Option<&InlineTable>)
    ensures
        r is Some == (item_node(*i) is Inline),
        r matches Some(t) ==> item_node(*i) == Node::Inline(inline_fields(*t)),
;

/// `Item::as_inline_table_mut`: as `as_inline_table`; the item is an inline
/// table of what the table holds when the borrow ends.
pub assume_specification[ Item::as_inline_table_mut ](i: &mut Item) -> (r: Option<
    &mut InlineTable,
>)
    ensures
        r is Some == (item_node(*old(i)) is Inline),
        match r {
            Some(t) => {
                &&& item_node(*old(i)) == Node::Inline(inline_fields(*t))
                &&& item_node(*final(i)) == Node::Inline(inline_fields(*final(t)))
            },
            None => *final(i) == *old(i),
        },
;

/// `Table::iter`, keys only: the keys of the table in the order in which it
/// iterates, which is the order in which they were declared or added.
#[verifier::external_body]
pub(crate) fn table_keys(t: &Table) -> (keys: Vec<String>)
    ensures
        names(keys@) == table_fields(*t).order,
{
    t.iter().map(|(key, _)| key.to_string()).collect()
}

/// `Table::get`: the item under the key, where the table has the key.
pub assume_specification<'a>[ Table::get ](t: &'a Table, key: &str) -> (r: Option<&'a Item>)
    ensures
        r is Some == table_fields(*t).at.dom().contains(key@),
        r matches Some(i) ==> item_node(*i) == table_fields(*t).at[key@],
;

/// `Table::get_mut`: as `get`; the table holds under the key what the item
/// is when the borrow ends. Every other entry is what it was and is written
/// as it was.
pub assume_specification<'a>[ Table::get_mut ](t: &'a mut Table, key: &str) -> (r: Option<
    &'a mut Item,
>)
    ensures
        r is Some == table_fields(*old(t)).at.dom().contains(key@),
        match r {
            Some(i) => {
                &&& item_node(*i) == table_fields(*old(t)).at[key@]
                &&& table_fields(*final(t)).order == table_fields(*old(t)).order
                &&& table_fields(*final(t)).at == table_fields(*old(t)).at.insert(
                    key@,
                    item_node(*final(i)),
                )
                &&& table_fields(*final(t)).written.dom() == table_fields(*old(t)).written.dom()
                &&& table_fields(*final(t)).written.remove(key@) == table_fields(
                    *old(t),
                ).written.remove(key@)
            },
            None => *final(t) == *old(t),
        },
;

/// `Table::contains_key`: the key is present and its slot is not empty.
pub assume_specification[ Table::contains_key ](t: &Table, key: &str) -> (b: bool)
    ensures
        b == table_fields(*t).has(key@),
;

/// `Table::remove`: the key and its item leave the table; every other entry
/// is what it was and is written as it was.
pub assume_specification[ Table::remove ](t: &mut Table, key: &str) -> (r: Option<Item>)
    ensures
        table_fields(*final(t)) == table_fields(*old(t)).without(key@),
;

/// `Table::entry` for a key that the table lacks: the key is added behind
/// the last one with an empty slot, which is handed out. Every other entry
/// is what it was and is written as it was. It panics on a key that cannot
/// be written down; a bare key can.
pub assume_specification<'a>[ Table::entry ](t: &'a mut Table, key: &str) -> (r: &'a mut Item)
    requires
        bare_key(key@),
        !table_fields(*old(t)).at.dom().contains(key@),
    ensures
        item_node(*r) is Empty,
        table_fields(*final(t)).order == table_fields(*old(t)).order.push(key@),
        table_fields(*final(t)).at == table_fields(*old(t)).at.insert(key@, item_node(*final(r))),
        table_fields(*final(t)).written.remove(key@) == table_fields(*old(t)).written.remove(
            key@,
        ),
;

/// `toml_edit::value` of a double-quoted string: an item that is the string
/// read from between the quotes. The call first reads its argument as a
/// quoted string; a text as `written` gives it is one, and reads as the text
/// that was written.
#[verifier::external_body]
pub(crate) fn text_item(quoted: &str) -> (item: Item)
    requires
        exists|text: Seq<char>| quoted@ == #[trigger] written(text),
    ensures
        forall|text: Seq<char>|
            quoted@ == #[trigger] written(text) ==> item_node(item) == Node::Text(text),
{
    toml_edit::value(quoted)
}

/// `InlineTable::contains_key`: the key is present and its slot is not empty.
pub assume_specification[ InlineTable::contains_key ](t: &InlineTable, key: &str) -> (b: bool)
    ensures
        b == inline_fields(*t).has(key@),
;

/// `InlineTable::remove`: the key and its item leave the table; every other
/// entry is what it was and is written as it was.
pub assume_specification[ InlineTable::remove ](t: &mut InlineTable, key: &str) -> (r: Option<
    Value,
>)
    ensures
        inline_fields(*final(t)) == inline_fields(*old(t)).without(key@),
;

/// `InlineTable::get_or_insert` of a double-quoted string, for a key that
/// the table lacks: the key is added behind the last one, with the string
/// read from between the quotes as its value (see `text_item`). Every other
/// entry is what it was and is written as it was. The call panics on a key
/// that cannot be written down; a bare key can.
#[verifier::external_body]
pub(crate) fn inline_insert(t: &mut InlineTable, key: &str, quoted: &str)
    requires
        bare_key(key@),
        exists|text: Seq<char>| quoted@ == #[trigger] written(text),
        !inline_fields(*old(t)).at.dom().contains(key@),
    ensures
        forall|text: Seq<char>|
            quoted@ == #[trigger] written(text) ==> inline_fields(*final(t)) == inline_fields(
                *old(t),
            ).with_text(key@, text, inline_fields(*final(t)).written[key@]),
{
    t.get_or_insert(key, quoted);
}

/// `InlineTable::fmt`: sets the spaces round keys and values to the usual
/// ones. The keys and what stands under each stay; how the entries are
/// written may change.
pub assume_specification[ InlineTable::fmt ](t: &mut InlineTable)
    ensures
        inline_fields(*final(t)).order == inline_fields(*old(t)).order,
        inline_fields(*final(t)).at == inline_fields(*old(t)).at,
;

} // verus!
