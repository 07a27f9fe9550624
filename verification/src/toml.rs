//! What the library relies on `toml_edit` for: reading and writing documents,
//! and the fields of their tables.
use vstd::prelude::*;
use crate::text::names_of;
use crate::tree::{Group, Node};

verus! {

/// An editable document of `toml_edit`.
#[verifier::external_type_specification]
#[verifier::external_body]
pub struct ExDocument(toml_edit::DocumentMut);

/// A value or a table of `toml_edit`.
#[verifier::external_type_specification]
#[verifier::external_body]
pub struct ExItem(toml_edit::Item);

/// What a document holds: the fields of its root table.
pub uninterp spec fn document_tree(document: toml_edit::DocumentMut) -> Group;

/// What a value or a table holds.
pub uninterp spec fn item_tree(item: toml_edit::Item) -> Node;

/// What `toml_edit` reads from a text: the contents of the document, or the
/// message of the error.
pub uninterp spec fn toml_parse(text: Seq<char>) -> Result<Group, Seq<char>>;

/// The text that `toml_edit` writes for a document.
pub uninterp spec fn toml_render(document: Group) -> Seq<char>;

/// `DocumentMut::from_str`, and `to_string` of the error: the document that the
/// text stands for, or why it stands for none. The result depends on the text
/// alone. A table keeps each of its names once, with its place in the order.
#[verifier::external_body]
pub(crate) fn parse_document(text: &str) -> (r: Result<toml_edit::DocumentMut, String>)
    ensures
        match r {
            Ok(document) => toml_parse(text@) == Ok::<Group, Seq<char>>(document_tree(document))
                && document_tree(document).is_sound(),
            Err(message) => toml_parse(text@) == Err::<Group, Seq<char>>(message@),
        },
{
    text.parse::<toml_edit::DocumentMut>().map_err(|e| e.to_string())
}

/// `to_string` of a document: the text depends on nothing but its contents,
/// the layout among them. What the text reads as is not stated: a table under a
/// header that was put into a table in braces, for one, is left out of it.
#[verifier::external_body]
pub(crate) fn render_document(document: &toml_edit::DocumentMut) -> (r: String)
    ensures
        r@ == toml_render(document_tree(*document)),
{
    document.to_string()
}

/// `DocumentMut::new`: a document without fields.
pub assume_specification[ toml_edit::DocumentMut::new ]() -> (r: toml_edit::DocumentMut)
    ensures
        document_tree(r) == Group::empty(),
;

/// `Table::get` on the root table: the field of that name, unless it holds nothing.
#[verifier::external_body]
pub(crate) fn document_get<'a>(document: &'a toml_edit::DocumentMut, name: &str) -> (r: Option<
    &'a toml_edit::Item,
>)
    ensures
        match r {
            Some(item) => document_tree(*document).get(name@) == Some(item_tree(*item)),
            None => document_tree(*document).get(name@) is None,
        },
{
    document.get(name)
}

/// `IndexMut` of a document: the field of that name is replaced in its place,
/// or a new one is added behind all others.
#[verifier::external_body]
pub(crate) fn document_put(document: &mut toml_edit::DocumentMut, name: &str, item: toml_edit::Item)
    ensures
        document_tree(*final(document)) == document_tree(*old(document)).put(name@, item_tree(item)),
{
    document[name] = item;
}

/// `Table::remove` on the root table: the field of that name goes, the others
/// keep their order.
#[verifier::external_body]
pub(crate) fn document_remove(document: &mut toml_edit::DocumentMut, name: &str)
    ensures
        document_tree(*final(document)) == document_tree(*old(document)).without(set![name@]),
{
    document.as_table_mut().remove(name);
}

/// `Item::get` by a name: the field of a table of either notation, unless it
/// holds nothing.
#[verifier::external_body]
pub(crate) fn item_get<'a>(item: &'a toml_edit::Item, name: &str) -> (r: Option<&'a toml_edit::Item>)
    ensures
        match r {
            Some(child) => item_tree(*item).child(name@) == Some(item_tree(*child)),
            None => item_tree(*item).child(name@) is None,
        },
{
    item.get(name)
}

/// `IndexMut` of an item by a name. On anything but a table (or nothing) it panics.
#[verifier::external_body]
pub(crate) fn item_put(item: &mut toml_edit::Item, name: &str, value: toml_edit::Item)
    requires
        item_tree(*old(item)).is_table_like(),
    ensures
        item_tree(*final(item)) == item_tree(*old(item)).with_group(
            item_tree(*old(item)).group().put(name@, item_tree(value)),
        ),
{
    item[name] = value;
}

/// `TableLike::remove` through `Item::as_table_like_mut`: the field goes from a
/// table of either notation; anything else is left alone.
#[verifier::external_body]
pub(crate) fn item_remove(item: &mut toml_edit::Item, name: &str)
    ensures
        item_tree(*final(item)) == if item_tree(*old(item)).is_table_like() {
            item_tree(*old(item)).with_group(item_tree(*old(item)).group().without(set![name@]))
        } else {
            item_tree(*old(item))
        },
{
    if let Some(table) = item.as_table_like_mut() {
        table.remove(name);
    }
}

/// The names that `TableLike::iter` visits, in its order, through
/// `Item::as_table_like`: each name of a table once.
#[verifier::external_body]
pub(crate) fn item_names(item: &toml_edit::Item) -> (r: Vec<String>)
    ensures
        names_of(r@) == item_tree(*item).walk(),
        names_of(r@).no_duplicates(),
        forall|name: Seq<char>| #[trigger]
            names_of(r@).contains(name) <==> item_tree(*item).visits(name),
{
    match item.as_table_like() {
        Some(table) => table.iter().map(|(name, _)| name.to_string()).collect(),
        None => Vec::new(),
    }
}

/// `Item::as_str`.
pub assume_specification[ toml_edit::Item::as_str ](item: &toml_edit::Item) -> (r: Option<&str>)
    ensures
        match r {
            Some(text) => item_tree(*item).text() == Some(text@),
            None => item_tree(*item).text() is None,
        },
;

/// `Item::as_bool`.
pub assume_specification[ toml_edit::Item::as_bool ](item: &toml_edit::Item) -> (r: Option<bool>)
    ensures
        r == item_tree(*item).flag(),
;

/// `Item::is_table`: a table under a header.
pub assume_specification[ toml_edit::Item::is_table ](item: &toml_edit::Item) -> (r: bool)
    ensures
        r == (item_tree(*item) is Table),
;

/// `Item::is_table_like`: a table of either notation.
pub assume_specification[ toml_edit::Item::is_table_like ](item: &toml_edit::Item) -> (r: bool)
    ensures
        r == item_tree(*item).is_table_like(),
;

/// `Item::clone` copies all that the item holds.
pub assume_specification[ <toml_edit::Item as Clone>::clone ](item: &toml_edit::Item) -> (r: toml_edit::Item)
    ensures
        item_tree(r) == item_tree(*item),
;

/// `toml_edit::table`: a table under a header, without fields.
pub assume_specification[ toml_edit::table ]() -> (r: toml_edit::Item)
    ensures
        item_tree(r) == Node::fresh_table(),
;

/// `toml_edit::value` of `InlineTable::new`: a table in braces, without fields.
#[verifier::external_body]
pub(crate) fn inline_item() -> (r: toml_edit::Item)
    ensures
        item_tree(r) == Node::fresh_inline(),
{
    toml_edit::value(toml_edit::InlineTable::new())
}

/// `toml_edit::value` of a string.
#[verifier::external_body]
pub(crate) fn text_item(text: &str) -> (r: toml_edit::Item)
    ensures
        item_tree(r) == Node::fresh_text(text@),
{
    toml_edit::value(text)
}

/// `toml_edit::value` of a boolean.
#[verifier::external_body]
pub(crate) fn flag_item(flag: bool) -> (r: toml_edit::Item)
    ensures
        item_tree(r) == Node::fresh_flag(flag),
{
    toml_edit::value(flag)
}

} // verus!
