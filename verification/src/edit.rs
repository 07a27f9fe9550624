//! Reading and writing the fields of the tables of a document.
use vstd::prelude::*;
use toml_edit::{DocumentMut, Item};
use crate::text::{lemma_take_set, names_of, opt_str};
use crate::toml::{
    document_get, document_put, document_tree, inline_item, item_get, item_put, item_remove,
    item_tree,
};
use crate::tree::{lemma_without_insert, lemma_without_none};

verus! {

/// The field `name` of the table `section`.
pub fn lookup<'a>(document: &'a DocumentMut, section: &str, name: &str) -> (r: Option<&'a Item>)
    ensures
        match r {
            Some(item) => document_tree(*document).at(section@, name@) == Some(item_tree(*item)),
            None => document_tree(*document).at(section@, name@) is None,
        },
{
    match document_get(document, section) {
        Some(table) => item_get(table, name),
        None => None,
    }
}

/// The string under `name` of the table `section`.
pub fn lookup_text<'a>(document: &'a DocumentMut, section: &str, name: &str) -> (r: Option<&'a str>)
    ensures
        opt_str(r) == document_tree(*document).text_at(section@, name@),
{
    match lookup(document, section, name) {
        Some(item) => item.as_str(),
        None => None,
    }
}

/// The string under `name` of a table.
pub fn item_text<'a>(item: &'a Item, name: &str) -> (r: Option<&'a str>)
    ensures
        opt_str(r) == match item_tree(*item).child(name@) {
            Some(node) => node.text(),
            None => None,
        },
{
    match item_get(item, name) {
        Some(child) => child.as_str(),
        None => None,
    }
}

/// Writes the field `name` of the table `section`, which becomes `fresh` where
/// nothing is. Where `section` is something other than a table, the document
/// stays as it is and the answer is `false`.
fn put_in(document: &mut DocumentMut, section: &str, fresh: Item, name: &str, item: Item) -> (r: bool)
    requires
        item_tree(fresh).is_table_like(),
    ensures
        match document_tree(*old(document)).put_in(
            section@,
            item_tree(fresh),
            name@,
            item_tree(item),
        ) {
            Some(tree) => r && document_tree(*final(document)) == tree,
            None => !r && document_tree(*final(document)) == document_tree(*old(document)),
        },
{
    let mut table = match document_get(document, section) {
        Some(table) => table.clone(),
        None => fresh,
    };
    if !table.is_table_like() {
        return false;
    }
    item_put(&mut table, name, item);
    document_put(document, section, table);
    true
}

/// Writes the field `name` of the table `section`, and makes the table in braces
/// where nothing is. Where `section` is something other than a table, the
/// document stays as it is and the answer is `false`.
pub fn put_at(document: &mut DocumentMut, section: &str, name: &str, item: Item) -> (r: bool)
    ensures
        match document_tree(*old(document)).put_at(section@, name@, item_tree(item)) {
            Some(tree) => r && document_tree(*final(document)) == tree,
            None => !r && document_tree(*final(document)) == document_tree(*old(document)),
        },
{
    put_in(document, section, inline_item(), name, item)
}

/// Writes the field `name` of the table `section`, and makes the table under a
/// header where nothing is: tables under headers cannot be written in braces.
/// Where `section` is something other than a table, the document stays as it is
/// and the answer is `false`.
pub fn put_under(document: &mut DocumentMut, section: &str, name: &str, item: Item) -> (r: bool)
    ensures
        match document_tree(*old(document)).put_under(section@, name@, item_tree(item)) {
            Some(tree) => r && document_tree(*final(document)) == tree,
            None => !r && document_tree(*final(document)) == document_tree(*old(document)),
        },
{
    put_in(document, section, toml_edit::table(), name, item)
}

/// Writes the field `name` of the table `section`, and makes the table where
/// nothing is: under a header if the field is a table under a header, else in
/// braces. Where `section` is something other than a table, the document stays as
/// it is and the answer is `false`.
pub fn put_fitting(document: &mut DocumentMut, section: &str, name: &str, item: Item) -> (r: bool)
    ensures
        match document_tree(*old(document)).put_fitting(section@, name@, item_tree(item)) {
            Some(tree) => r && document_tree(*final(document)) == tree,
            None => !r && document_tree(*final(document)) == document_tree(*old(document)),
        },
{
    if item.is_table() {
        put_under(document, section, name, item)
    } else {
        put_at(document, section, name, item)
    }
}

/// Removes the fields `names` of the table `section`, if it is a table.
pub fn remove_all_at(document: &mut DocumentMut, section: &str, names: &Vec<String>)
    ensures
        document_tree(*final(document)) == document_tree(*old(document)).without_at(
            section@,
            names_of(names@).to_set(),
        ),
{
    let found = match document_get(document, section) {
        Some(table) => if table.is_table_like() {
            Some(table.clone())
        } else {
            None
        },
        None => None,
    };
    match found {
        Some(table) => {
            let mut table = table;
            remove_names(&mut table, names);
            document_put(document, section, table);
        },
        None => {},
    }
}

/// Removes the field `name` of the table `section`, if it is a table.
pub fn remove_at(document: &mut DocumentMut, section: &str, name: &str)
    ensures
        document_tree(*final(document)) == document_tree(*old(document)).without_at(
            section@,
            set![name@],
        ),
{
    let found = match document_get(document, section) {
        Some(table) => if table.is_table_like() {
            Some(table.clone())
        } else {
            None
        },
        None => None,
    };
    match found {
        Some(table) => {
            let mut table = table;
            item_remove(&mut table, name);
            document_put(document, section, table);
        },
        None => {},
    }
}

/// Removes the fields `names` of a table.
pub fn remove_names(table: &mut Item, names: &Vec<String>)
    requires
        item_tree(*old(table)).is_table_like(),
    ensures
        item_tree(*final(table)) == item_tree(*old(table)).with_group(
            item_tree(*old(table)).group().without(names_of(names@).to_set()),
        ),
{
    let ghost before = item_tree(*table);
    let ghost all = names_of(names@);
    let mut i: usize = 0;
    proof {
        assert(all.take(0).to_set() =~= Set::empty());
        lemma_without_none(before.group());
    }
    while i < names.len()
        invariant
            i <= names.len(),
            all == names_of(names@),
            before.is_table_like(),
            item_tree(*table) == before.with_group(before.group().without(all.take(i as int).to_set())),
        decreases names.len() - i,
    {
        item_remove(table, names[i].as_str());
        proof {
            let done = all.take(i as int);
            lemma_take_set(all, i as int);
            lemma_without_insert(before.group(), done.to_set(), all[i as int]);
        }
        i += 1;
    }
    proof {
        assert(all.take(i as int) =~= all);
    }
}

} // verus!
