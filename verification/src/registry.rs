//! Which models the library keeps on behalf of other providers.
//!
//! Ownership is recorded in a registry of its own, one table
//! `[cc_switch.managed_xprov.<id>]` for each model, outside the tables that
//! Grok reads. Older configurations carry markers in the tables of the models
//! instead; they are read, and moved to the registry. A name alone, with
//! whatever prefix, never makes a model owned.
use vstd::prelude::*;
use vstd::pervasive::unreached;
use vstd::string::*;
use toml_edit::{DocumentMut, Item};
use crate::digest::{managed_id, preferred_id};
use crate::edit::{item_text, lookup, remove_at, remove_names};
use crate::text::{
    contains_name, decimal, decimal_text, lemma_decimal_injective, lemma_names_of_push,
    lemma_push_contains, names_of, trimmed,
};
use crate::toml::{
    document_get, document_put, document_remove, document_tree, item_get, item_names, item_put,
    item_remove, item_tree, text_item,
};
use crate::tree::{
    first_where, lemma_first_where_found, lemma_first_where_none, lemma_without_insert, Group, Node,
};

verus! {

/// The table that belongs to this library alone.
pub const MANAGED_REGISTRY_ROOT: &'static str = "cc_switch";

/// The registry in that table.
pub const MANAGED_REGISTRY_TABLE: &'static str = "managed_xprov";

/// In an entry of the registry: the provider that defines the model.
pub const MANAGED_REG_SOURCE_PROVIDER: &'static str = "source_provider";

/// In an entry of the registry: the name of the model there.
pub const MANAGED_REG_SOURCE_MODEL: &'static str = "source_model";

/// The older marker of ownership in the table of a model.
pub const LEGACY_MANAGED_OWNER_KEY: &'static str = "cc_switch_owned";

/// Beside the older marker: the provider that defines the model.
pub const LEGACY_MANAGED_SOURCE_PROVIDER_KEY: &'static str = "cc_switch_source_provider";

/// Beside the older marker: the name of the model there.
pub const LEGACY_MANAGED_SOURCE_MODEL_KEY: &'static str = "cc_switch_source_model";

// ---------------------------------------------------------------- the model

/// The contents of the registry.
pub open spec fn registry(doc: Group) -> Option<Group> {
    match doc.at(MANAGED_REGISTRY_ROOT@, MANAGED_REGISTRY_TABLE@) {
        Some(Node::Table(entries)) => Some(entries),
        _ => None,
    }
}

/// The tables `[model.*]`.
pub open spec fn models(doc: Group) -> Option<Group> {
    match doc.get("model"@) {
        Some(Node::Table(models)) => Some(models),
        _ => None,
    }
}

/// The provider and the model that an entry of the registry names, if it names both.
pub open spec fn entry_source(entry: Group) -> Option<(Seq<char>, Seq<char>)> {
    match (entry.text(MANAGED_REG_SOURCE_PROVIDER@), entry.text(MANAGED_REG_SOURCE_MODEL@)) {
        (Some(provider), Some(model)) => if trimmed(provider).len() > 0 && trimmed(model).len() > 0 {
            Some((trimmed(provider), trimmed(model)))
        } else {
            None
        },
        _ => None,
    }
}

/// The source that the registry gives for a model.
pub open spec fn registered_source(doc: Group, name: Seq<char>) -> Option<(Seq<char>, Seq<char>)> {
    match registry(doc) {
        Some(entries) => match entries.get(name) {
            Some(Node::Table(entry)) => entry_source(entry),
            _ => None,
        },
        None => None,
    }
}

/// The registry gives a source for the model.
pub open spec fn is_registered(doc: Group, name: Seq<char>) -> bool {
    registered_source(doc, name) is Some
}

/// The table of a model carries the older marker.
pub open spec fn has_marker(node: Node) -> bool {
    match node {
        Node::Table(model) => match model.get(LEGACY_MANAGED_OWNER_KEY@) {
            Some(marker) => marker.flag() == Some(true),
            None => false,
        },
        _ => false,
    }
}

/// The model is kept for another provider.
pub open spec fn is_managed(doc: Group, name: Seq<char>) -> bool {
    is_registered(doc, name) || match doc.at("model"@, name) {
        Some(model) => has_marker(model),
        None => false,
    }
}

/// The table `[model.<name>]` carries the older marker.
pub open spec fn is_marked(doc: Group, name: Seq<char>) -> bool {
    match models(doc) {
        Some(models) => match models.get(name) {
            Some(model) => has_marker(model),
            None => false,
        },
        None => false,
    }
}

/// The names of all models that are kept for other providers.
pub open spec fn owned(doc: Group) -> Set<Seq<char>> {
    Set::new(|name: Seq<char>| is_registered(doc, name) || is_marked(doc, name))
}

/// `[model.<name>]` is there, as a table under a header.
pub open spec fn has_model(doc: Group, name: Seq<char>) -> bool {
    doc.at("model"@, name) matches Some(Node::Table(_))
}

/// The table of a model carries the older marker and names this source.
pub open spec fn marker_names(node: Node, provider: Seq<char>, model: Seq<char>) -> bool {
    &&& has_marker(node)
    &&& node.group().text(LEGACY_MANAGED_SOURCE_PROVIDER_KEY@) == Some(provider)
    &&& node.group().text(LEGACY_MANAGED_SOURCE_MODEL_KEY@) == Some(model)
}

/// The names of the entries of the registry, in order.
pub open spec fn registry_names(doc: Group) -> Seq<Seq<char>> {
    match registry(doc) {
        Some(entries) => entries.names(),
        None => Seq::empty(),
    }
}

/// The names of the models, in order.
pub open spec fn model_names(doc: Group) -> Seq<Seq<char>> {
    match models(doc) {
        Some(models) => models.names(),
        None => Seq::empty(),
    }
}

/// Under which name a model of another provider is kept: the first entry of the
/// registry with that source whose model is there, else the first model with
/// the older marker and that source.
pub open spec fn find_registered(doc: Group, provider: Seq<char>, model: Seq<char>) -> Option<Seq<char>> {
    let entry = first_where(
        registry_names(doc),
        |name: Seq<char>| registered_source(doc, name) == Some((provider, model)) && has_model(doc, name),
    );
    if entry is Some {
        entry
    } else {
        first_where(
            model_names(doc),
            |name: Seq<char>| match doc.at("model"@, name) {
                Some(node) => marker_names(node, provider, model),
                None => false,
            },
        )
    }
}

/// An entry of the registry.
pub open spec fn entry_node(provider: Seq<char>, model: Seq<char>) -> Node {
    Node::Table(
        Group::empty().put(MANAGED_REG_SOURCE_PROVIDER@, Node::fresh_text(provider)).put(
            MANAGED_REG_SOURCE_MODEL@,
            Node::fresh_text(model),
        ),
    )
}

/// The document with an entry in the registry; none where the registry, or the
/// table that holds it, is something other than a table.
pub open spec fn with_entry(
    doc: Group,
    name: Seq<char>,
    provider: Seq<char>,
    model: Seq<char>,
) -> Option<Group> {
    match doc.writable(MANAGED_REGISTRY_ROOT@, Node::fresh_table()) {
        Some(root) => match root.group().put_under(
            MANAGED_REGISTRY_TABLE@,
            name,
            entry_node(provider, model),
        ) {
            Some(group) => Some(doc.put(MANAGED_REGISTRY_ROOT@, root.with_group(group))),
            None => None,
        },
        None => None,
    }
}

/// A table under a header with at least one field.
pub open spec fn is_filled_table(node: Option<Node>) -> bool {
    match node {
        Some(Node::Table(group)) => group.names().len() > 0,
        _ => false,
    }
}

/// The document without some entries of the registry.
pub open spec fn without_entries(doc: Group, names: Set<Seq<char>>) -> Group {
    match doc.get(MANAGED_REGISTRY_ROOT@) {
        Some(root) => if root.is_table_like() {
            doc.put(
                MANAGED_REGISTRY_ROOT@,
                root.with_group(root.group().without_at(MANAGED_REGISTRY_TABLE@, names)),
            )
        } else {
            doc
        },
        None => doc,
    }
}

/// The document without a registry that has no entry, and without the table
/// that holds it if nothing else is in there.
pub open spec fn collapsed(doc: Group) -> Group {
    let inner = if is_filled_table(doc.at(MANAGED_REGISTRY_ROOT@, MANAGED_REGISTRY_TABLE@)) {
        doc
    } else {
        doc.without_at(MANAGED_REGISTRY_ROOT@, set![MANAGED_REGISTRY_TABLE@])
    };
    if is_filled_table(inner.get(MANAGED_REGISTRY_ROOT@)) {
        inner
    } else {
        inner.without(set![MANAGED_REGISTRY_ROOT@])
    }
}

/// The fields that belong to the older marker.
pub open spec fn marker_keys() -> Set<Seq<char>> {
    set![
        LEGACY_MANAGED_OWNER_KEY@,
        LEGACY_MANAGED_SOURCE_PROVIDER_KEY@,
        LEGACY_MANAGED_SOURCE_MODEL_KEY@,
    ]
}

/// The models with the older marker, in order.
pub open spec fn marked_names(doc: Group) -> Seq<Seq<char>> {
    model_names(doc).filter(|name: Seq<char>| is_marked(doc, name))
}

/// The document without the older marker on one model.
pub open spec fn unmarked(doc: Group, name: Seq<char>) -> Group {
    match models(doc) {
        Some(models) => match models.get(name) {
            Some(Node::Table(model)) => doc.put(
                "model"@,
                Node::Table(models.put(name, Node::Table(model.without(marker_keys())))),
            ),
            _ => doc,
        },
        None => doc,
    }
}

/// The string that a model has under `key`, or nothing.
pub open spec fn marker_text(doc: Group, name: Seq<char>, key: Seq<char>) -> Seq<char> {
    match doc.at("model"@, name) {
        Some(model) => match model.child(key) {
            Some(node) => match node.text() {
                Some(text) => text,
                None => Seq::empty(),
            },
            None => Seq::empty(),
        },
        None => Seq::empty(),
    }
}

/// The document with the older marker of one model moved to the registry. A
/// marker that does not name its source is dropped.
pub open spec fn migrated_one(doc: Group, name: Seq<char>) -> Option<Group> {
    let provider = marker_text(doc, name, LEGACY_MANAGED_SOURCE_PROVIDER_KEY@);
    let model = marker_text(doc, name, LEGACY_MANAGED_SOURCE_MODEL_KEY@);
    let entered = if provider.len() > 0 && model.len() > 0 && !is_registered(doc, name) {
        with_entry(doc, name, provider, model)
    } else {
        Some(doc)
    };
    match entered {
        Some(entered) => Some(unmarked(entered, name)),
        None => None,
    }
}

/// The document with the older markers of some models moved to the registry.
pub open spec fn migrated_all(doc: Group, names: Seq<Seq<char>>) -> Option<Group>
    decreases names.len(),
{
    if names.len() == 0 {
        Some(doc)
    } else {
        match migrated_all(doc, names.drop_last()) {
            Some(before) => migrated_one(before, names.last()),
            None => None,
        }
    }
}

/// The document with all older markers moved to the registry; none where the
/// registry, or the table that holds it, is something other than a table.
pub open spec fn migrated(doc: Group) -> Option<Group> {
    migrated_all(doc, marked_names(doc))
}

/// The name is that of a model that is not kept for another provider.
pub open spec fn is_taken(doc: Group, name: Seq<char>) -> bool {
    models(doc) is Some && models(doc)->0.get(name) is Some && !is_managed(doc, name)
}

/// The name with a numbered suffix.
pub open spec fn suffixed(base: Seq<char>, n: nat) -> Seq<char> {
    base + "_m"@ + decimal(n)
}

/// `n` is the least number whose suffix makes the name free.
pub open spec fn is_least_free(doc: Group, base: Seq<char>, n: nat) -> bool {
    &&& n >= 1
    &&& !is_taken(doc, suffixed(base, n))
    &&& forall|k: nat| 1 <= k < n ==> is_taken(doc, #[trigger] suffixed(base, k))
}

/// The name under which a model of another provider is to be kept: the one that
/// it has, else its stable identifier, with the least numbered suffix that makes
/// it free where a model of the user has that name.
pub open spec fn allocated(doc: Group, provider: Seq<char>, model: Seq<char>) -> Seq<char> {
    match find_registered(doc, provider, model) {
        Some(name) => name,
        None => {
            let base = managed_id(provider, model);
            if is_taken(doc, base) {
                suffixed(base, choose|n: nat| is_least_free(doc, base, n))
            } else {
                base
            }
        },
    }
}

// ------------------------------------------------------------------ reading

/// Whether the table of a model carries the older marker.
pub fn legacy_model_table_has_owner_marker(item: &Item) -> (r: bool)
    ensures
        r == has_marker(item_tree(*item)),
{
    if !item.is_table() {
        return false;
    }
    match item_get(item, LEGACY_MANAGED_OWNER_KEY) {
        Some(marker) => match marker.as_bool() {
            Some(flag) => flag,
            None => false,
        },
        None => false,
    }
}

/// The provider and the model that an entry of the registry names.
pub fn registry_entry_source(entry: &Item) -> (r: Option<(String, String)>)
    requires
        item_tree(*entry) is Table,
    ensures
        match r {
            Some(source) => entry_source(item_tree(*entry).group()) == Some((source.0@, source.1@)),
            None => entry_source(item_tree(*entry).group()) is None,
        },
{
    match (item_text(entry, MANAGED_REG_SOURCE_PROVIDER), item_text(entry, MANAGED_REG_SOURCE_MODEL)) {
        (Some(provider), Some(model)) => {
            let provider = provider.trim();
            let model = model.trim();
            if provider.is_empty() || model.is_empty() {
                None
            } else {
                Some((provider.to_owned(), model.to_owned()))
            }
        },
        _ => None,
    }
}

/// The registry, if it is a table under a header.
pub fn registry_table(document: &DocumentMut) -> (r: Option<&Item>)
    ensures
        match r {
            Some(item) => registry(document_tree(*document)) is Some && item_tree(*item) == Node::Table(
                registry(document_tree(*document))->0,
            ),
            None => registry(document_tree(*document)) is None,
        },
{
    match lookup(document, MANAGED_REGISTRY_ROOT, MANAGED_REGISTRY_TABLE) {
        Some(item) => if item.is_table() {
            Some(item)
        } else {
            None
        },
        None => None,
    }
}

/// The tables `[model.*]`, if they stand under a header.
pub fn model_table(document: &DocumentMut) -> (r: Option<&Item>)
    ensures
        match r {
            Some(item) => models(document_tree(*document)) is Some && item_tree(*item) == Node::Table(
                models(document_tree(*document))->0,
            ),
            None => models(document_tree(*document)) is None,
        },
{
    match document_get(document, "model") {
        Some(item) => if item.is_table() {
            Some(item)
        } else {
            None
        },
        None => None,
    }
}

/// The source that the registry gives for a model.
fn source_of(document: &DocumentMut, name: &str) -> (r: Option<(String, String)>)
    ensures
        match r {
            Some(source) => registered_source(document_tree(*document), name@) == Some(
                (source.0@, source.1@),
            ),
            None => registered_source(document_tree(*document), name@) is None,
        },
{
    match registry_table(document) {
        Some(entries) => match item_get(entries, name) {
            Some(entry) => if entry.is_table() {
                registry_entry_source(entry)
            } else {
                None
            },
            None => None,
        },
        None => None,
    }
}

/// Whether the registry gives a source for the model.
pub fn is_registered_managed_model(document: &DocumentMut, name: &str) -> (r: bool)
    ensures
        r == is_registered(document_tree(*document), name@),
{
    source_of(document, name).is_some()
}

/// Whether the model is kept for another provider.
pub fn is_managed_cross_provider_model(document: &DocumentMut, name: &str) -> (r: bool)
    ensures
        r == is_managed(document_tree(*document), name@),
{
    if is_registered_managed_model(document, name) {
        return true;
    }
    match lookup(document, "model", name) {
        Some(model) => legacy_model_table_has_owner_marker(model),
        None => false,
    }
}

/// Whether `[model.<name>]` is there.
pub fn model_exists(document: &DocumentMut, name: &str) -> (r: bool)
    ensures
        r == has_model(document_tree(*document), name@),
{
    match lookup(document, "model", name) {
        Some(model) => model.is_table(),
        None => false,
    }
}

/// The names of the models, in order.
pub fn list_model_names(document: &DocumentMut) -> (r: Vec<String>)
    ensures
        names_of(r@) == model_names(document_tree(*document)),
        names_of(r@).no_duplicates(),
        forall|name: Seq<char>| #[trigger]
            names_of(r@).contains(name) <==> models(document_tree(*document)) is Some && models(
                document_tree(*document),
            )->0.get(name) is Some,
{
    match model_table(document) {
        Some(models) => item_names(models),
        None => {
            let none: Vec<String> = Vec::new();
            assert(names_of(none@) =~= Seq::empty());
            none
        },
    }
}

/// The names of the entries of the registry, in order.
fn list_registry_names(document: &DocumentMut) -> (r: Vec<String>)
    ensures
        names_of(r@) == registry_names(document_tree(*document)),
        forall|name: Seq<char>| #[trigger]
            names_of(r@).contains(name) <==> registry(document_tree(*document)) is Some && registry(
                document_tree(*document),
            )->0.get(name) is Some,
{
    match registry_table(document) {
        Some(entries) => item_names(entries),
        None => {
            let none: Vec<String> = Vec::new();
            assert(names_of(none@) =~= Seq::empty());
            none
        },
    }
}

/// The names of all models that are kept for other providers, each once.
pub fn list_owned_managed_model_names(document: &DocumentMut) -> (r: Vec<String>)
    ensures
        names_of(r@).to_set() == owned(document_tree(*document)),
        names_of(r@).no_duplicates(),
{
    let ghost doc = document_tree(*document);
    let mut found: Vec<String> = Vec::new();
    let entries = list_registry_names(document);
    let ghost listed = names_of(entries@);
    let mut i: usize = 0;
    while i < entries.len()
        invariant
            i <= entries.len(),
            doc == document_tree(*document),
            listed == names_of(entries@),
            names_of(found@).no_duplicates(),
            forall|name: Seq<char>| #[trigger]
                names_of(found@).contains(name) <==> listed.take(i as int).contains(name)
                    && is_registered(doc, name),
        decreases entries.len() - i,
    {
        let name = entries[i].as_str();
        let ghost before = names_of(found@);
        proof {
            assert(listed.take(i + 1) =~= listed.take(i as int).push(name@));
        }
        let known = contains_name(&found, name);
        let is_owned = is_registered_managed_model(document, name);
        if is_owned && !known {
            let copy = name.to_owned();
            proof {
                lemma_names_of_push(found@, copy);
            }
            found.push(copy);
        }
        proof {
            lemma_list_step(before, names_of(found@), name@, is_owned, known);
            assert forall|n: Seq<char>| #[trigger]
                names_of(found@).contains(n) <==> listed.take(i + 1).contains(n) && is_registered(doc, n) by {
                lemma_push_contains(listed.take(i as int), name@, n);
            }
        }
        i += 1;
    }
    proof {
        assert(listed.take(i as int) =~= listed);
    }
    let marked = list_model_names(document);
    let ghost listed = names_of(marked@);
    let mut i: usize = 0;
    while i < marked.len()
        invariant
            i <= marked.len(),
            doc == document_tree(*document),
            listed == names_of(marked@),
            names_of(found@).no_duplicates(),
            forall|name: Seq<char>| #[trigger]
                names_of(found@).contains(name) <==> is_registered(doc, name) || (listed.take(
                    i as int,
                ).contains(name) && is_marked(doc, name)),
        decreases marked.len() - i,
    {
        let name = marked[i].as_str();
        let ghost before = names_of(found@);
        proof {
            assert(listed.take(i + 1) =~= listed.take(i as int).push(name@));
        }
        let known = contains_name(&found, name);
        let is_owned = model_is_marked(document, name);
        if is_owned && !known {
            let copy = name.to_owned();
            proof {
                lemma_names_of_push(found@, copy);
            }
            found.push(copy);
        }
        proof {
            lemma_list_step(before, names_of(found@), name@, is_owned, known);
            assert forall|n: Seq<char>| #[trigger]
                names_of(found@).contains(n) <==> is_registered(doc, n) || (listed.take(i + 1).contains(n)
                    && is_marked(doc, n)) by {
                lemma_push_contains(listed.take(i as int), name@, n);
            }
        }
        i += 1;
    }
    proof {
        assert(listed.take(i as int) =~= listed);
        assert(names_of(found@).to_set() =~= owned(doc));
    }
    found
}

/// One step of collecting names: `after` is `before`, with `name` added if it
/// qualifies and is not there yet.
proof fn lemma_list_step(
    before: Seq<Seq<char>>,
    after: Seq<Seq<char>>,
    name: Seq<char>,
    qualifies: bool,
    known: bool,
)
    requires
        before.no_duplicates(),
        known == before.contains(name),
        after == if qualifies && !known {
            before.push(name)
        } else {
            before
        },
    ensures
        after.no_duplicates(),
        forall|n: Seq<char>| #[trigger]
            after.contains(n) <==> before.contains(n) || (qualifies && n == name),
{
    if qualifies && !known {
        assert forall|n: Seq<char>| #[trigger]
            after.contains(n) <==> before.contains(n) || (qualifies && n == name) by {
            lemma_push_contains(before, name, n);
        }
        assert forall|a: int, b: int| 0 <= a < after.len() && 0 <= b < after.len() && a != b implies after[a]
            != after[b] by {
            if a == before.len() {
                assert(before.contains(before[b]));
            } else if b == before.len() {
                assert(before.contains(before[a]));
            }
        }
    }
}

/// Whether `[model.<name>]` carries the older marker.
fn model_is_marked(document: &DocumentMut, name: &str) -> (r: bool)
    ensures
        r == is_marked(document_tree(*document), name@),
{
    match model_table(document) {
        Some(models) => match item_get(models, name) {
            Some(model) => legacy_model_table_has_owner_marker(model),
            None => false,
        },
        None => false,
    }
}

/// Whether the table of a model carries the older marker and names this source.
fn marker_matches(model: &Item, provider: &str, model_id: &str) -> (r: bool)
    ensures
        r == marker_names(item_tree(*model), provider@, model_id@),
{
    if !legacy_model_table_has_owner_marker(model) {
        return false;
    }
    let provider_matches = match item_text(model, LEGACY_MANAGED_SOURCE_PROVIDER_KEY) {
        Some(text) => str::eq(text, provider),
        None => false,
    };
    let model_matches = match item_text(model, LEGACY_MANAGED_SOURCE_MODEL_KEY) {
        Some(text) => str::eq(text, model_id),
        None => false,
    };
    provider_matches && model_matches
}

/// Under which name a model of another provider is kept.
pub fn find_registered_managed_id(
    document: &DocumentMut,
    source_provider_id: &str,
    source_model_id: &str,
) -> (r: Option<String>)
    ensures
        crate::text::opt_string(r) == find_registered(
            document_tree(*document),
            source_provider_id@,
            source_model_id@,
        ),
{
    let ghost doc = document_tree(*document);
    let ghost provider = source_provider_id@;
    let ghost model = source_model_id@;
    let ghost in_registry = |name: Seq<char>|
        registered_source(doc, name) == Some((provider, model)) && has_model(doc, name);
    let entries = list_registry_names(document);
    let ghost listed = names_of(entries@);
    let mut i: usize = 0;
    while i < entries.len()
        invariant
            i <= entries.len(),
            doc == document_tree(*document),
            provider == source_provider_id@,
            model == source_model_id@,
            listed == names_of(entries@),
            listed == registry_names(doc),
            in_registry == (|name: Seq<char>|
                registered_source(doc, name) == Some((provider, model)) && has_model(doc, name)),
            forall|j: int| 0 <= j < i ==> !in_registry(#[trigger] listed[j]),
        decreases entries.len() - i,
    {
        let name = entries[i].as_str();
        assert(listed[i as int] == name@);
        match source_of(document, name) {
            Some(source) => {
                if str::eq(source.0.as_str(), source_provider_id) && str::eq(
                    source.1.as_str(),
                    source_model_id,
                ) && model_exists(document, name) {
                    proof {
                        lemma_first_where_found(listed, in_registry, i as int);
                    }
                    return Some(name.to_owned());
                }
            },
            None => {},
        }
        i += 1;
    }
    proof {
        lemma_first_where_none(listed, in_registry);
    }
    let ghost by_marker = |name: Seq<char>|
        match doc.at("model"@, name) {
            Some(node) => marker_names(node, provider, model),
            None => false,
        };
    let marked = list_model_names(document);
    let ghost listed = names_of(marked@);
    let mut i: usize = 0;
    while i < marked.len()
        invariant
            i <= marked.len(),
            doc == document_tree(*document),
            provider == source_provider_id@,
            model == source_model_id@,
            listed == names_of(marked@),
            listed == model_names(doc),
            by_marker == (|name: Seq<char>|
                match doc.at("model"@, name) {
                    Some(node) => marker_names(node, provider, model),
                    None => false,
                }),
            first_where(registry_names(doc), in_registry) is None,
            in_registry == (|name: Seq<char>|
                registered_source(doc, name) == Some((provider, model)) && has_model(doc, name)),
            forall|j: int| 0 <= j < i ==> !by_marker(#[trigger] listed[j]),
        decreases marked.len() - i,
    {
        let name = marked[i].as_str();
        assert(listed[i as int] == name@);
        match lookup(document, "model", name) {
            Some(item) => {
                if marker_matches(item, source_provider_id, source_model_id) {
                    proof {
                        lemma_first_where_found(listed, by_marker, i as int);
                    }
                    return Some(name.to_owned());
                }
            },
            None => {},
        }
        i += 1;
    }
    proof {
        lemma_first_where_none(listed, by_marker);
    }
    None
}

// ------------------------------------------------------------------ writing

/// Enters a model in the registry. Where the registry, or the table that holds
/// it, is something other than a table, the document stays as it is and the
/// answer is `false`.
pub fn write_managed_registry_entry(
    document: &mut DocumentMut,
    managed_id: &str,
    source_provider_id: &str,
    source_model_id: &str,
) -> (r: bool)
    ensures
        match with_entry(
            document_tree(*old(document)),
            managed_id@,
            source_provider_id@,
            source_model_id@,
        ) {
            Some(tree) => r && document_tree(*final(document)) == tree,
            None => !r && document_tree(*final(document)) == document_tree(*old(document)),
        },
{
    let mut root = match document_get(document, MANAGED_REGISTRY_ROOT) {
        Some(root) => root.clone(),
        None => toml_edit::table(),
    };
    if !root.is_table_like() {
        return false;
    }
    let mut entries = match item_get(&root, MANAGED_REGISTRY_TABLE) {
        Some(entries) => entries.clone(),
        None => toml_edit::table(),
    };
    if !entries.is_table_like() {
        return false;
    }
    let mut entry = toml_edit::table();
    item_put(&mut entry, MANAGED_REG_SOURCE_PROVIDER, text_item(source_provider_id));
    item_put(&mut entry, MANAGED_REG_SOURCE_MODEL, text_item(source_model_id));
    item_put(&mut entries, managed_id, entry);
    item_put(&mut root, MANAGED_REGISTRY_TABLE, entries);
    document_put(document, MANAGED_REGISTRY_ROOT, root);
    true
}

/// Whether the item is a table under a header with at least one field.
fn is_filled(item: Option<&Item>) -> (r: bool)
    ensures
        r == is_filled_table(
            match item {
                Some(item) => Some(item_tree(*item)),
                None => None,
            },
        ),
{
    match item {
        Some(item) => if item.is_table() {
            let names = item_names(item);
            assert(names_of(names@).len() == names@.len());
            names.len() > 0
        } else {
            false
        },
        None => false,
    }
}

/// Removes some entries of the registry, and the registry with the table that
/// holds it once they are empty.
pub fn remove_managed_registry_entries(document: &mut DocumentMut, names: &Vec<String>)
    ensures
        document_tree(*final(document)) == collapsed(
            without_entries(document_tree(*old(document)), names_of(names@).to_set()),
        ),
{
    let found = match document_get(document, MANAGED_REGISTRY_ROOT) {
        Some(root) => if root.is_table_like() {
            Some(root.clone())
        } else {
            None
        },
        None => None,
    };
    match found {
        Some(root) => {
            let mut root = root;
            let entries = match item_get(&root, MANAGED_REGISTRY_TABLE) {
                Some(entries) => if entries.is_table_like() {
                    Some(entries.clone())
                } else {
                    None
                },
                None => None,
            };
            match entries {
                Some(entries) => {
                    let mut entries = entries;
                    remove_names(&mut entries, names);
                    item_put(&mut root, MANAGED_REGISTRY_TABLE, entries);
                },
                None => {},
            }
            document_put(document, MANAGED_REGISTRY_ROOT, root);
        },
        None => {},
    }
    if !is_filled(lookup(document, MANAGED_REGISTRY_ROOT, MANAGED_REGISTRY_TABLE)) {
        remove_at(document, MANAGED_REGISTRY_ROOT, MANAGED_REGISTRY_TABLE);
    }
    if !is_filled(document_get(document, MANAGED_REGISTRY_ROOT)) {
        document_remove(document, MANAGED_REGISTRY_ROOT);
    }
}

/// Removes the fields of the older marker from the table of a model.
pub fn strip_legacy_owner_fields(table: &mut Item)
    requires
        item_tree(*old(table)) is Table,
    ensures
        item_tree(*final(table)) == Node::Table(item_tree(*old(table)).group().without(marker_keys())),
{
    let ghost model = item_tree(*table).group();
    item_remove(table, LEGACY_MANAGED_OWNER_KEY);
    item_remove(table, LEGACY_MANAGED_SOURCE_PROVIDER_KEY);
    item_remove(table, LEGACY_MANAGED_SOURCE_MODEL_KEY);
    proof {
        lemma_without_insert(
            model,
            set![LEGACY_MANAGED_OWNER_KEY@],
            LEGACY_MANAGED_SOURCE_PROVIDER_KEY@,
        );
        lemma_without_insert(
            model,
            set![LEGACY_MANAGED_OWNER_KEY@, LEGACY_MANAGED_SOURCE_PROVIDER_KEY@],
            LEGACY_MANAGED_SOURCE_MODEL_KEY@,
        );
    }
}

/// Removes the older marker of one model.
fn unmark(document: &mut DocumentMut, name: &str)
    ensures
        document_tree(*final(document)) == unmarked(document_tree(*old(document)), name@),
{
    let found = match model_table(document) {
        Some(models) => match item_get(models, name) {
            Some(model) => if model.is_table() {
                Some((models.clone(), model.clone()))
            } else {
                None
            },
            None => None,
        },
        None => None,
    };
    match found {
        Some((models, model)) => {
            let mut models = models;
            let mut model = model;
            strip_legacy_owner_fields(&mut model);
            item_put(&mut models, name, model);
            document_put(document, "model", models);
        },
        None => {},
    }
}

/// The string that a model has under `key`, or nothing.
fn read_marker(document: &DocumentMut, name: &str, key: &str) -> (r: String)
    ensures
        r@ == marker_text(document_tree(*document), name@, key@),
{
    match lookup(document, "model", name) {
        Some(model) => match item_text(model, key) {
            Some(text) => text.to_owned(),
            None => String::new(),
        },
        None => String::new(),
    }
}

/// Moves the older marker of one model to the registry.
fn migrate_one(document: &mut DocumentMut, name: &str) -> (r: bool)
    ensures
        match migrated_one(document_tree(*old(document)), name@) {
            Some(tree) => r && document_tree(*final(document)) == tree,
            None => !r,
        },
{
    let provider = read_marker(document, name, LEGACY_MANAGED_SOURCE_PROVIDER_KEY);
    let model = read_marker(document, name, LEGACY_MANAGED_SOURCE_MODEL_KEY);
    if !provider.as_str().is_empty() && !model.as_str().is_empty() && !is_registered_managed_model(
        document,
        name,
    ) {
        if !write_managed_registry_entry(document, name, provider.as_str(), model.as_str()) {
            return false;
        }
    }
    unmark(document, name);
    true
}

/// The models with the older marker, in order.
fn list_marked_names(document: &DocumentMut) -> (r: Vec<String>)
    ensures
        names_of(r@) == marked_names(document_tree(*document)),
{
    let ghost doc = document_tree(*document);
    let all = list_model_names(document);
    let ghost listed = names_of(all@);
    let ghost marked = |name: Seq<char>| is_marked(doc, name);
    let mut found: Vec<String> = Vec::new();
    let mut i: usize = 0;
    proof {
        reveal(Seq::filter);
        assert(listed.take(0).filter(marked) =~= Seq::empty());
        assert(names_of(found@) =~= Seq::empty());
    }
    while i < all.len()
        invariant
            i <= all.len(),
            doc == document_tree(*document),
            listed == names_of(all@),
            marked == (|name: Seq<char>| is_marked(doc, name)),
            names_of(found@) == listed.take(i as int).filter(marked),
        decreases all.len() - i,
    {
        let name = all[i].as_str();
        proof {
            reveal(Seq::filter);
            assert(listed.take(i + 1).drop_last() =~= listed.take(i as int));
            assert(listed.take(i + 1).last() == name@);
        }
        if model_is_marked(document, name) {
            let copy = name.to_owned();
            proof {
                lemma_names_of_push(found@, copy);
            }
            found.push(copy);
        }
        i += 1;
    }
    proof {
        assert(listed.take(i as int) =~= listed);
    }
    found
}

/// Moves all older markers to the registry. Where the registry, or the table
/// that holds it, is something other than a table and an entry would have to be
/// written, the answer is `false`.
pub fn migrate_legacy_inline_markers(document: &mut DocumentMut) -> (r: bool)
    ensures
        match migrated(document_tree(*old(document))) {
            Some(tree) => r && document_tree(*final(document)) == tree,
            None => !r,
        },
{
    let ghost doc = document_tree(*document);
    let marked = list_marked_names(document);
    let ghost listed = names_of(marked@);
    let mut i: usize = 0;
    assert(listed.take(0) =~= Seq::empty());
    while i < marked.len()
        invariant
            i <= marked.len(),
            listed == names_of(marked@),
            doc == document_tree(*old(document)),
            listed == marked_names(doc),
            migrated_all(doc, listed.take(i as int)) == Some(document_tree(*document)),
        decreases marked.len() - i,
    {
        let name = marked[i].as_str();
        proof {
            assert(listed.take(i + 1).drop_last() =~= listed.take(i as int));
            assert(listed.take(i + 1).last() == name@);
        }
        if !migrate_one(document, name) {
            proof {
                lemma_migrated_none(doc, listed, i + 1);
            }
            return false;
        }
        i += 1;
    }
    assert(listed.take(i as int) =~= listed);
    true
}

/// Once a marker could not be moved, the whole move fails.
proof fn lemma_migrated_none(doc: Group, names: Seq<Seq<char>>, i: int)
    requires
        0 <= i <= names.len(),
        migrated_all(doc, names.take(i)) is None,
    ensures
        migrated_all(doc, names) is None,
    decreases names.len() - i,
{
    if i < names.len() {
        assert(names.take(i + 1).drop_last() =~= names.take(i));
        lemma_migrated_none(doc, names, i + 1);
    } else {
        assert(names.take(i) =~= names);
    }
}

/// The name under which a model of another provider is to be kept.
pub fn allocate_managed_model_id(
    document: &DocumentMut,
    source_provider_id: &str,
    source_model_id: &str,
) -> (r: String)
    ensures
        r@ == allocated(document_tree(*document), source_provider_id@, source_model_id@),
{
    let ghost doc = document_tree(*document);
    match find_registered_managed_id(document, source_provider_id, source_model_id) {
        Some(existing) => {
            return existing;
        },
        None => {},
    }
    let base = preferred_id(source_provider_id, source_model_id);
    let existing = list_model_names(document);
    if !contains_name(&existing, base.as_str()) || is_managed_cross_provider_model(
        document,
        base.as_str(),
    ) {
        return base;
    }
    let mut i: usize = 0;
    while i < existing.len()
        invariant
            i <= existing.len(),
            doc == document_tree(*document),
            base@ == managed_id(source_provider_id@, source_model_id@),
            find_registered(doc, source_provider_id@, source_model_id@) is None,
            names_of(existing@) == model_names(doc),
            forall|name: Seq<char>| #[trigger]
                names_of(existing@).contains(name) <==> models(doc) is Some && models(doc)->0.get(
                    name,
                ) is Some,
            is_taken(doc, base@),
            forall|k: nat| 1 <= k <= i ==> is_taken(doc, #[trigger] suffixed(base@, k)),
        decreases existing.len() - i,
    {
        let number = (i + 1) as u64;
        let mut candidate = base.clone();
        candidate.append("_m");
        candidate.append(decimal_text(number).as_str());
        assert(candidate@ == suffixed(base@, number as nat));
        if !contains_name(&existing, candidate.as_str()) || is_managed_cross_provider_model(
            document,
            candidate.as_str(),
        ) {
            proof {
                lemma_least_free(doc, base@, number as nat);
            }
            return candidate;
        }
        i += 1;
    }
    proof {
        lemma_some_name_free(doc, base@, names_of(existing@));
        assert(names_of(existing@).len() == existing@.len());
    }
    unreached()
}

/// There is only one least number.
proof fn lemma_least_free(doc: Group, base: Seq<char>, n: nat)
    requires
        is_least_free(doc, base, n),
    ensures
        (choose|m: nat| is_least_free(doc, base, m)) == n,
{
    let m = choose|m: nat| is_least_free(doc, base, m);
    assert(is_least_free(doc, base, m));
    assert(is_taken(doc, suffixed(base, m)) == false);
    assert(is_taken(doc, suffixed(base, n)) == false);
}

/// Suffixed names differ from the bare name and from each other.
pub proof fn lemma_suffixed_distinct(base: Seq<char>, a: nat, b: nat)
    ensures
        suffixed(base, a) != base,
        a != b ==> suffixed(base, a) != suffixed(base, b),
{
    reveal_strlit("_m");
    assert(suffixed(base, a).len() > base.len());
    if suffixed(base, a) == suffixed(base, b) {
        let skip = base.len() as int + 2;
        assert(suffixed(base, a).skip(skip) =~= decimal(a));
        assert(suffixed(base, b).skip(skip) =~= decimal(b));
        lemma_decimal_injective(a, b);
    }
}

/// With fewer models than candidates, some candidate is free.
pub proof fn lemma_some_name_free(doc: Group, base: Seq<char>, existing: Seq<Seq<char>>)
    requires
        forall|name: Seq<char>| #[trigger] is_taken(doc, name) ==> existing.contains(name),
        is_taken(doc, base),
    ensures
        exists|k: nat| 1 <= k <= existing.len() && !is_taken(doc, #[trigger] suffixed(base, k)),
{
    if forall|k: nat| 1 <= k <= existing.len() ==> is_taken(doc, #[trigger] suffixed(base, k)) {
        let candidates = Seq::new(
            existing.len() + 1,
            |k: int| if k == 0 {
                base
            } else {
                suffixed(base, k as nat)
            },
        );
        assert(candidates.no_duplicates()) by {
            assert forall|a: int, b: int| 0 <= a < candidates.len() && 0 <= b < candidates.len() && a
                != b implies candidates[a] != candidates[b] by {
                lemma_suffixed_distinct(base, a as nat, b as nat);
                lemma_suffixed_distinct(base, b as nat, a as nat);
            }
        }
        assert forall|name: Seq<char>| candidates.to_set().contains(name) implies #[trigger] existing.to_set().contains(
            name,
        ) by {
            let k = choose|k: int| 0 <= k < candidates.len() && candidates[k] == name;
            if k > 0 {
                assert(is_taken(doc, suffixed(base, k as nat)));
            }
            assert(is_taken(doc, name));
        }
        candidates.unique_seq_to_set();
        existing.lemma_cardinality_of_set();
        vstd::set_lib::lemma_len_subset(candidates.to_set(), existing.to_set());
    }
}

} // verus!
