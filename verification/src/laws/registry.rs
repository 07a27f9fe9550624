//! Which models are kept for other providers, and which are left alone.
use vstd::prelude::*;
use crate::digest::managed_id;
use crate::laws::frame::{
    agree_outside, lemma_agree_get, lemma_agree_more, lemma_agree_put, lemma_agree_put_in,
    lemma_agree_trans, lemma_names_differ,
};
use crate::registry::{
    allocated, entry_node, find_registered, has_marker, has_model, is_least_free, is_managed,
    is_marked, is_registered, is_taken, lemma_some_name_free, marked_names, marker_keys,
    marker_names, marker_text, migrated, migrated_all, migrated_one, model_names, models, owned,
    registered_source, registry, registry_names, suffixed, with_entry,
    LEGACY_MANAGED_SOURCE_MODEL_KEY, LEGACY_MANAGED_SOURCE_PROVIDER_KEY, MANAGED_REGISTRY_ROOT,
    MANAGED_REGISTRY_TABLE, MANAGED_REG_SOURCE_MODEL, MANAGED_REG_SOURCE_PROVIDER,
};
use crate::routes::{live_routes, with_copy};
use crate::text::{decimal, is_blank, lemma_push_contains, trimmed};
use crate::tree::{
    first_where, lemma_filter_no_duplicates, lemma_first_where_found, lemma_first_where_holds,
    lemma_names, lemma_put_well_formed, lemma_sound_tables, Group, Node,
};

verus! {

/// The models are a well formed table, if they are a table under a header.
pub open spec fn models_are_sound(doc: Group) -> bool {
    models(doc) is Some ==> models(doc)->0.well_formed()
}

/// The place for the registry is free, or a well formed table under a header,
/// and so is the registry in it.
pub open spec fn registry_is_sound(doc: Group) -> bool {
    match doc.get(MANAGED_REGISTRY_ROOT@) {
        Some(root) => root is Table && root.group().well_formed() && match root.child(
            MANAGED_REGISTRY_TABLE@,
        ) {
            Some(entries) => entries is Table && entries.group().well_formed(),
            None => true,
        },
        None => true,
    }
}

/// In a sound document the models are sound, and so is the registry, as long as
/// neither it nor the table that holds it is something other than a table under a
/// header. Every text that is read gives a sound document.
pub proof fn law_sound_documents_have_sound_tables(doc: Group)
    requires
        doc.is_sound(),
    ensures
        models_are_sound(doc),
        live_routes(doc).well_formed(),
        registry_is_sound(doc) <==> match doc.get(MANAGED_REGISTRY_ROOT@) {
            Some(root) => root is Table && match root.child(MANAGED_REGISTRY_TABLE@) {
                Some(entries) => entries is Table,
                None => true,
            },
            None => true,
        },
{
    lemma_sound_tables(doc, "model"@, "model"@);
    lemma_sound_tables(doc, "subagents"@, "models"@);
    lemma_sound_tables(doc, MANAGED_REGISTRY_ROOT@, MANAGED_REGISTRY_TABLE@);
}

/// What stands beside the registry, in the table that holds it, is the same.
pub open spec fn same_beside_registry(a: Group, b: Group) -> bool {
    forall|name: Seq<char>| name != MANAGED_REGISTRY_TABLE@ ==> #[trigger] a.at(
        MANAGED_REGISTRY_ROOT@,
        name,
    ) == b.at(MANAGED_REGISTRY_ROOT@, name)
}

/// What stands beside the registry is the same through several steps.
pub proof fn lemma_beside_trans(a: Group, b: Group, c: Group)
    requires
        same_beside_registry(a, b),
        same_beside_registry(b, c),
    ensures
        same_beside_registry(a, c),
{
    assert forall|name: Seq<char>| name != MANAGED_REGISTRY_TABLE@ implies #[trigger] a.at(
        MANAGED_REGISTRY_ROOT@,
        name,
    ) == c.at(MANAGED_REGISTRY_ROOT@, name) by {
        assert(a.at(MANAGED_REGISTRY_ROOT@, name) == b.at(MANAGED_REGISTRY_ROOT@, name));
        assert(b.at(MANAGED_REGISTRY_ROOT@, name) == c.at(MANAGED_REGISTRY_ROOT@, name));
    }
}

/// A model belongs to the user, whatever its name, unless the registry gives a
/// source for it or its table carries the older marker.
pub proof fn law_ownership_never_rests_on_a_name(doc: Group, name: Seq<char>)
    requires
        registered_source(doc, name) is None,
        match doc.at("model"@, name) {
            Some(model) => !has_marker(model),
            None => true,
        },
    ensures
        !is_managed(doc, name),
        !owned(doc).contains(name),
{
}

/// The source that two strings name, if they do.
pub open spec fn named_source(provider: Seq<char>, model: Seq<char>) -> Option<(Seq<char>, Seq<char>)> {
    if trimmed(provider).len() > 0 && trimmed(model).len() > 0 {
        Some((trimmed(provider), trimmed(model)))
    } else {
        None
    }
}

/// Entering a model in the registry gives it the source that was entered, without
/// white space around it, and changes nothing else.
pub proof fn law_registry_gives_back_what_was_entered(
    doc: Group,
    name: Seq<char>,
    provider: Seq<char>,
    model: Seq<char>,
)
    requires
        with_entry(doc, name, provider, model) is Some,
        registry_is_sound(doc),
    ensures
        ({
            let after = with_entry(doc, name, provider, model)->0;
            &&& registered_source(after, name) == named_source(provider, model)
            &&& forall|other: Seq<char>| other != name ==> #[trigger] registered_source(after, other)
                == registered_source(doc, other)
            &&& agree_outside(doc, after, set![MANAGED_REGISTRY_ROOT@])
            &&& same_beside_registry(doc, after)
            &&& registry_is_sound(after)
        }),
{
    lemma_names_differ();
    let root = doc.writable(MANAGED_REGISTRY_ROOT@, Node::fresh_table())->0;
    let group = root.group().put_under(MANAGED_REGISTRY_TABLE@, name, entry_node(provider, model))->0;
    let after = with_entry(doc, name, provider, model)->0;
    lemma_agree_put(doc, MANAGED_REGISTRY_ROOT@, root.with_group(group), set![MANAGED_REGISTRY_ROOT@]);
    let entries = match root.child(MANAGED_REGISTRY_TABLE@) {
        Some(entries) => entries.group(),
        None => Group::empty(),
    };
    lemma_put_well_formed(entries, name, entry_node(provider, model));
    lemma_put_well_formed(
        root.group(),
        MANAGED_REGISTRY_TABLE@,
        Node::Table(entries.put(name, entry_node(provider, model))),
    );
    let entry = entry_node(provider, model)->Table_0;
    assert(entry.text(MANAGED_REG_SOURCE_PROVIDER@) == Some(provider));
    assert(entry.text(MANAGED_REG_SOURCE_MODEL@) == Some(model));
    assert(registry(after) is Some);
    assert(registry(after)->0.get(name) == Some(entry_node(provider, model)));
}

/// A copy stands under its name, with its source in the registry. Every other
/// model is left alone, with what the registry says of it.
pub proof fn law_copy_is_written_and_registered(
    doc: Group,
    name: Seq<char>,
    model: Group,
    provider: Seq<char>,
    model_id: Seq<char>,
)
    requires
        with_copy(doc, name, model, provider, model_id) is Some,
        registry_is_sound(doc),
        trimmed(provider) == provider,
        trimmed(model_id) == model_id,
        provider.len() > 0,
        model_id.len() > 0,
    ensures
        ({
            let after = with_copy(doc, name, model, provider, model_id)->0;
            &&& after.at("model"@, name) == Some(Node::Table(model))
            &&& registered_source(after, name) == Some((provider, model_id))
            &&& forall|other: Seq<char>| other != name ==> #[trigger] after.at("model"@, other)
                == doc.at("model"@, other)
            &&& forall|other: Seq<char>| other != name ==> #[trigger] registered_source(after, other)
                == registered_source(doc, other)
            &&& agree_outside(doc, after, set!["model"@, MANAGED_REGISTRY_ROOT@])
            &&& same_beside_registry(doc, after)
            &&& registry_is_sound(after)
            &&& models_are_sound(doc) ==> models_are_sound(after)
        }),
{
    lemma_names_differ();
    let touched = set!["model"@, MANAGED_REGISTRY_ROOT@];
    let node = Node::Table(model);
    let placed = doc.put_under("model"@, name, node)->0;
    let after = with_copy(doc, name, model, provider, model_id)->0;
    lemma_agree_put_in(doc, "model"@, Node::fresh_table(), name, node, touched, set![name]);
    assert(placed.get(MANAGED_REGISTRY_ROOT@) == doc.get(MANAGED_REGISTRY_ROOT@));
    law_registry_gives_back_what_was_entered(placed, name, provider, model_id);
    lemma_agree_more(placed, after, set![MANAGED_REGISTRY_ROOT@], touched);
    lemma_agree_trans(doc, placed, after, touched);
    lemma_agree_get(placed, after, set![MANAGED_REGISTRY_ROOT@], "model"@);
    assert forall|other: Seq<char>| other != name implies #[trigger] registered_source(after, other)
        == registered_source(doc, other) by {
        assert(registered_source(placed, other) == registered_source(doc, other));
    }
    if models_are_sound(doc) && doc.writable("model"@, Node::fresh_table())->0 is Table {
        lemma_put_well_formed(doc.writable("model"@, Node::fresh_table())->0.group(), name, node);
    }
}

/// The name that is found for a copy is one that is kept for another provider.
proof fn lemma_found_is_managed(doc: Group, provider: Seq<char>, model: Seq<char>)
    requires
        find_registered(doc, provider, model) is Some,
    ensures
        is_managed(doc, find_registered(doc, provider, model)->0),
{
    let by_entry = |name: Seq<char>|
        registered_source(doc, name) == Some((provider, model)) && has_model(doc, name);
    let by_marker = |name: Seq<char>|
        match doc.at("model"@, name) {
            Some(node) => marker_names(node, provider, model),
            None => false,
        };
    lemma_first_where_holds(registry_names(doc), by_entry);
    lemma_first_where_holds(model_names(doc), by_marker);
}

/// The name under which a copy is to be kept is never that of a model of the user.
pub proof fn law_allocation_spares_the_models_of_the_user(
    doc: Group,
    provider: Seq<char>,
    model: Seq<char>,
)
    requires
        models_are_sound(doc),
    ensures
        !is_taken(doc, allocated(doc, provider, model)),
{
    match find_registered(doc, provider, model) {
        Some(name) => {
            lemma_found_is_managed(doc, provider, model);
        },
        None => {
            let base = managed_id(provider, model);
            if is_taken(doc, base) {
                let existing = model_names(doc);
                assert forall|name: Seq<char>| #[trigger] is_taken(doc, name) implies existing.contains(
                    name,
                ) by {
                    lemma_names(models(doc)->0, name);
                    assert(models(doc)->0.order.contains(name) <==> models(doc)->0.fields.contains_key(
                        name,
                    ));
                }
                lemma_some_name_free(doc, base, existing);
                let k = choose|k: nat|
                    1 <= k <= existing.len() && !is_taken(doc, #[trigger] suffixed(base, k));
                lemma_least_exists(doc, base, k);
                let n = choose|n: nat| is_least_free(doc, base, n);
                assert(is_least_free(doc, base, n));
            }
        },
    }
}

/// Where some suffix makes a name free, there is a least one.
proof fn lemma_least_exists(doc: Group, base: Seq<char>, k: nat)
    requires
        1 <= k,
        !is_taken(doc, suffixed(base, k)),
    ensures
        exists|n: nat| is_least_free(doc, base, n),
    decreases k,
{
    if exists|j: nat| 1 <= j < k && !is_taken(doc, #[trigger] suffixed(base, j)) {
        let j = choose|j: nat| 1 <= j < k && !is_taken(doc, #[trigger] suffixed(base, j));
        lemma_least_exists(doc, base, j);
    } else {
        assert(is_least_free(doc, base, k));
    }
}

/// The first of the names is the same by two conditions that agree on them.
pub proof fn lemma_first_where_same(
    names: Seq<Seq<char>>,
    p: spec_fn(Seq<char>) -> bool,
    q: spec_fn(Seq<char>) -> bool,
)
    requires
        forall|i: int| 0 <= i < names.len() ==> p(#[trigger] names[i]) == q(names[i]),
    ensures
        first_where(names, p) == first_where(names, q),
    decreases names.len(),
{
    if names.len() > 0 {
        assert(p(names[0]) == q(names[0]));
        let rest = names.drop_first();
        assert forall|i: int| 0 <= i < rest.len() implies p(#[trigger] rest[i]) == q(rest[i]) by {
            assert(rest[i] == names[i + 1]);
        }
        lemma_first_where_same(rest, p, q);
    }
}

/// A copy is found again under the name that it was given, so that a second
/// write takes the same name.
pub proof fn law_copy_is_found_again(
    doc: Group,
    model: Group,
    provider: Seq<char>,
    model_id: Seq<char>,
)
    requires
        with_copy(doc, allocated(doc, provider, model_id), model, provider, model_id) is Some,
        registry_is_sound(doc),
        trimmed(provider) == provider,
        trimmed(model_id) == model_id,
        provider.len() > 0,
        model_id.len() > 0,
    ensures
        ({
            let name = allocated(doc, provider, model_id);
            let after = with_copy(doc, name, model, provider, model_id)->0;
            &&& find_registered(after, provider, model_id) == Some(name)
            &&& allocated(after, provider, model_id) == name
        }),
{
    lemma_names_differ();
    let name = allocated(doc, provider, model_id);
    let after = with_copy(doc, name, model, provider, model_id)->0;
    law_copy_is_written_and_registered(doc, name, model, provider, model_id);
    let p = |n: Seq<char>|
        registered_source(doc, n) == Some((provider, model_id)) && has_model(doc, n);
    let q = |n: Seq<char>|
        registered_source(after, n) == Some((provider, model_id)) && has_model(after, n);
    assert forall|n: Seq<char>| n != name implies #[trigger] p(n) == q(n) by {
        assert(registered_source(after, n) == registered_source(doc, n));
        assert(after.at("model"@, n) == doc.at("model"@, n));
    }
    assert(q(name));
    let entries = registry(after)->0;
    assert(entries.get(name) is Some);
    lemma_names(entries, name);
    assert(entries.order.contains(name) <==> entries.fields.contains_key(name));
    assert(registry_names(after).contains(name));
    lemma_first_where_holds(registry_names(doc), p);
    lemma_first_where_holds(registry_names(after), q);
    let found = first_where(registry_names(after), q);
    if found is None {
        let k = choose|k: int| 0 <= k < registry_names(after).len() && registry_names(after)[k] == name;
        assert(!q(registry_names(after)[k]));
    }
    match first_where(registry_names(doc), p) {
        Some(first) => {
            let before = registry(doc)->0;
            assert(before.get(name) is Some);
            assert(entries == before.put(name, entry_node(provider, model_id)));
            assert((|n: Seq<char>| entries.get(n) is Some) =~= (|n: Seq<char>| before.get(n) is Some));
            assert(registry_names(after) == registry_names(doc));
            lemma_first_where_same(registry_names(doc), p, q);
        },
        None => {
            let x = found->0;
            if x != name {
                let before = registry(doc)->0;
                assert(p(x));
                assert(registered_source(doc, x) is Some);
                lemma_names(before, x);
                assert(before.order.contains(x) <==> before.fields.contains_key(x));
                let k = choose|k: int| 0 <= k < registry_names(doc).len() && registry_names(doc)[k] == x;
                assert(!p(registry_names(doc)[k]));
            }
        },
    }
}

/// The source that the older marker of a model names.
pub open spec fn marker_source(doc: Group, name: Seq<char>) -> Option<(Seq<char>, Seq<char>)> {
    named_source(
        marker_text(doc, name, LEGACY_MANAGED_SOURCE_PROVIDER_KEY@),
        marker_text(doc, name, LEGACY_MANAGED_SOURCE_MODEL_KEY@),
    )
}

/// The table of a model without the older marker.
pub open spec fn unmarked_node(node: Option<Node>) -> Option<Node> {
    match node {
        Some(node) => Some(Node::Table(node.group().without(marker_keys()))),
        None => None,
    }
}

/// What moving the marker of one model to the registry does.
proof fn lemma_migrated_one(doc: Group, name: Seq<char>)
    requires
        migrated_one(doc, name) is Some,
        is_marked(doc, name),
        registry_is_sound(doc),
        models_are_sound(doc),
    ensures
        ({
            let after = migrated_one(doc, name)->0;
            &&& after.at("model"@, name) == unmarked_node(doc.at("model"@, name))
            &&& forall|other: Seq<char>| other != name ==> #[trigger] after.at("model"@, other)
                == doc.at("model"@, other)
            &&& registered_source(after, name) == if is_registered(doc, name) {
                registered_source(doc, name)
            } else {
                marker_source(doc, name)
            }
            &&& forall|other: Seq<char>| other != name ==> #[trigger] registered_source(after, other)
                == registered_source(doc, other)
            &&& agree_outside(doc, after, set!["model"@, MANAGED_REGISTRY_ROOT@])
            &&& same_beside_registry(doc, after)
            &&& models(after) is Some
            &&& registry_is_sound(after)
            &&& models_are_sound(after)
        }),
{
    lemma_names_differ();
    let touched = set!["model"@, MANAGED_REGISTRY_ROOT@];
    let provider = marker_text(doc, name, LEGACY_MANAGED_SOURCE_PROVIDER_KEY@);
    let model = marker_text(doc, name, LEGACY_MANAGED_SOURCE_MODEL_KEY@);
    let entered = if provider.len() > 0 && model.len() > 0 && !is_registered(doc, name) {
        with_entry(doc, name, provider, model)->0
    } else {
        doc
    };
    let after = migrated_one(doc, name)->0;
    if provider.len() > 0 && model.len() > 0 && !is_registered(doc, name) {
        law_registry_gives_back_what_was_entered(doc, name, provider, model);
        lemma_agree_more(doc, entered, set![MANAGED_REGISTRY_ROOT@], touched);
        lemma_agree_get(doc, entered, set![MANAGED_REGISTRY_ROOT@], "model"@);
    } else {
        assert(trimmed(Seq::<char>::empty()) =~= Seq::<char>::empty());
    }
    let all = models(entered)->0;
    let marked = all.get(name)->0->Table_0;
    let node = Node::Table(marked.without(marker_keys()));
    lemma_put_well_formed(all, name, node);
    lemma_agree_put(entered, "model"@, Node::Table(all.put(name, node)), touched);
    lemma_agree_trans(doc, entered, after, touched);
    assert(after.get(MANAGED_REGISTRY_ROOT@) == entered.get(MANAGED_REGISTRY_ROOT@));
}

/// What moving the markers of some models to the registry does.
proof fn lemma_migrated_all(doc: Group, names: Seq<Seq<char>>)
    requires
        migrated_all(doc, names) is Some,
        names.no_duplicates(),
        forall|name: Seq<char>| #[trigger] names.contains(name) ==> is_marked(doc, name),
        registry_is_sound(doc),
        models_are_sound(doc),
    ensures
        ({
            let after = migrated_all(doc, names)->0;
            &&& forall|name: Seq<char>| #[trigger]
                after.at("model"@, name) == if names.contains(name) {
                    unmarked_node(doc.at("model"@, name))
                } else {
                    doc.at("model"@, name)
                }
            &&& forall|name: Seq<char>| #[trigger]
                registered_source(after, name) == if names.contains(name) && !is_registered(doc, name) {
                    marker_source(doc, name)
                } else {
                    registered_source(doc, name)
                }
            &&& agree_outside(doc, after, set!["model"@, MANAGED_REGISTRY_ROOT@])
            &&& same_beside_registry(doc, after)
            &&& models(after) is Some == models(doc) is Some
            &&& registry_is_sound(after)
            &&& models_are_sound(after)
        }),
    decreases names.len(),
{
    if names.len() > 0 {
        let some = names.drop_last();
        let last = names.last();
        assert(names =~= some.push(last));
        assert forall|name: Seq<char>| #[trigger] some.contains(name) implies is_marked(doc, name) by {
            lemma_push_contains(some, last, name);
            assert(names.contains(name));
        }
        lemma_migrated_all(doc, some);
        lemma_push_contains(some, last, last);
        assert(names.contains(last));
        if some.contains(last) {
            let k = choose|k: int| 0 <= k < some.len() && some[k] == last;
            assert(names[k] == names[names.len() - 1]);
        }
        let before = migrated_all(doc, some)->0;
        let after = migrated_all(doc, names)->0;
        assert(before.at("model"@, last) == doc.at("model"@, last));
        assert(is_marked(before, last));
        lemma_migrated_one(before, last);
        assert(registered_source(before, last) == registered_source(doc, last));
        assert(marker_source(before, last) == marker_source(doc, last));
        lemma_agree_trans(doc, before, after, set!["model"@, MANAGED_REGISTRY_ROOT@]);
        lemma_beside_trans(doc, before, after);
        assert forall|name: Seq<char>| #[trigger]
            after.at("model"@, name) == if names.contains(name) {
                unmarked_node(doc.at("model"@, name))
            } else {
                doc.at("model"@, name)
            } by {
            lemma_push_contains(some, last, name);
            if name != last {
                assert(after.at("model"@, name) == before.at("model"@, name));
            }
        }
        assert forall|name: Seq<char>| #[trigger]
            registered_source(after, name) == if names.contains(name) && !is_registered(doc, name) {
                marker_source(doc, name)
            } else {
                registered_source(doc, name)
            } by {
            lemma_push_contains(some, last, name);
            if name != last {
                assert(registered_source(after, name) == registered_source(before, name));
            }
        }
    }
}

/// The models with the older marker.
proof fn lemma_marked_names(doc: Group, name: Seq<char>)
    requires
        models_are_sound(doc),
    ensures
        marked_names(doc).no_duplicates(),
        marked_names(doc).contains(name) <==> is_marked(doc, name),
{
    broadcast use vstd::seq_lib::group_filter_ensures;

    let p = |n: Seq<char>| is_marked(doc, n);
    match models(doc) {
        Some(all) => {
            lemma_filter_no_duplicates(all.order, |n: Seq<char>| all.get(n) is Some);
            lemma_filter_no_duplicates(all.names(), p);
            assert(all.order.contains(name) <==> all.fields.contains_key(name));
            lemma_names(all, name);
        },
        None => {},
    }
    let listed = model_names(doc);
    if marked_names(doc).contains(name) {
        let k = choose|k: int| 0 <= k < marked_names(doc).len() && marked_names(doc)[k] == name;
        assert(p(listed.filter(p)[k]));
    }
    if is_marked(doc, name) {
        let k = choose|k: int| 0 <= k < listed.len() && listed[k] == name;
        assert(p(listed[k]));
        assert(listed.filter(p).contains(listed[k]));
    }
}

/// Once the older markers are moved to the registry, no model carries one. A
/// model that carried one is registered with the source that its marker named,
/// if it did, unless the registry had a source for it already. Nothing else is
/// changed.
pub proof fn law_migration_moves_every_marker(doc: Group)
    requires
        migrated(doc) is Some,
        registry_is_sound(doc),
        models_are_sound(doc),
    ensures
        ({
            let after = migrated(doc)->0;
            &&& forall|name: Seq<char>| !#[trigger] is_marked(after, name)
            &&& forall|name: Seq<char>| #[trigger]
                after.at("model"@, name) == if is_marked(doc, name) {
                    unmarked_node(doc.at("model"@, name))
                } else {
                    doc.at("model"@, name)
                }
            &&& forall|name: Seq<char>| #[trigger]
                registered_source(after, name) == if is_marked(doc, name) && !is_registered(doc, name) {
                    marker_source(doc, name)
                } else {
                    registered_source(doc, name)
                }
            &&& agree_outside(doc, after, set!["model"@, MANAGED_REGISTRY_ROOT@])
            &&& same_beside_registry(doc, after)
            &&& registry_is_sound(after)
            &&& models_are_sound(after)
        }),
{
    let names = marked_names(doc);
    let after = migrated(doc)->0;
    lemma_marked_names(doc, Seq::empty());
    assert forall|name: Seq<char>| #[trigger] names.contains(name) implies is_marked(doc, name) by {
        lemma_marked_names(doc, name);
    }
    lemma_migrated_all(doc, names);
    assert forall|name: Seq<char>| #[trigger]
        after.at("model"@, name) == if is_marked(doc, name) {
            unmarked_node(doc.at("model"@, name))
        } else {
            doc.at("model"@, name)
        } by {
        lemma_marked_names(doc, name);
    }
    assert forall|name: Seq<char>| #[trigger]
        registered_source(after, name) == if is_marked(doc, name) && !is_registered(doc, name) {
            marker_source(doc, name)
        } else {
            registered_source(doc, name)
        } by {
        lemma_marked_names(doc, name);
    }
    assert forall|name: Seq<char>| !#[trigger] is_marked(after, name) by {
        assert(after.at("model"@, name) == if is_marked(doc, name) {
            unmarked_node(doc.at("model"@, name))
        } else {
            doc.at("model"@, name)
        });
    }
}

/// A configuration without older markers is left as it is.
pub proof fn law_migration_is_needed_once(doc: Group)
    requires
        forall|name: Seq<char>| !#[trigger] is_marked(doc, name),
    ensures
        migrated(doc) == Some(doc),
{
    broadcast use vstd::seq_lib::group_filter_ensures;

    let names = marked_names(doc);
    let p = |n: Seq<char>| is_marked(doc, n);
    if names.len() > 0 {
        assert(p(model_names(doc).filter(p)[0]));
    }
}

/// A model is kept for another provider exactly if `[cc_switch.managed_xprov]` has
/// a table for it with two strings that are not blank, the provider and the model
/// there, or if its own table carries the older marker `cc_switch_owned = true`.
pub proof fn law_what_makes_a_copy(doc: Group, name: Seq<char>)
    ensures
        ({
            let entry = match doc.at("cc_switch"@, "managed_xprov"@) {
                Some(Node::Table(entries)) => match entries.get(name) {
                    Some(Node::Table(entry)) => Some(entry),
                    _ => None,
                },
                _ => None,
            };
            let named = entry is Some && entry->0.text("source_provider"@) is Some && entry->0.text(
                "source_model"@,
            ) is Some && !is_blank(entry->0.text("source_provider"@)->0) && !is_blank(
                entry->0.text("source_model"@)->0,
            );
            let marked = match doc.at("model"@, name) {
                Some(Node::Table(model)) => model.get("cc_switch_owned"@) is Some && model.get(
                    "cc_switch_owned"@,
                )->0.flag() == Some(true),
                _ => false,
            };
            &&& named ==> registered_source(doc, name) == Some(
                (
                    trimmed(entry->0.text("source_provider"@)->0),
                    trimmed(entry->0.text("source_model"@)->0),
                ),
            )
            &&& !named ==> registered_source(doc, name) is None
            &&& is_managed(doc, name) <==> named || marked
            &&& is_marked(doc, name) <==> marked && models(doc) is Some
            &&& owned(doc).contains(name) <==> named || is_marked(doc, name)
        }),
{
}

/// The older marker consists of three fields of the table of a model.
pub proof fn law_older_marker_has_three_fields(key: Seq<char>)
    ensures
        marker_keys().contains(key) <==> key == "cc_switch_owned"@ || key
            == "cc_switch_source_provider"@ || key == "cc_switch_source_model"@,
{
}

/// A name of the registry stands for that model of that provider, and the model
/// is there.
pub open spec fn stands_for(
    doc: Group,
    name: Seq<char>,
    provider: Seq<char>,
    model: Seq<char>,
) -> bool {
    registered_source(doc, name) == Some((provider, model)) && match doc.at("model"@, name) {
        Some(node) => node is Table,
        None => false,
    }
}

/// A copy is found exactly if the registry has a name that stands for it, and then
/// it is the first such name, as long as no model carries the older marker. A
/// model that the registry names for another source is never found.
pub proof fn law_copy_is_found_by_its_source(doc: Group, provider: Seq<char>, model: Seq<char>)
    requires
        registry_is_sound(doc),
        forall|name: Seq<char>| !#[trigger] is_marked(doc, name),
    ensures
        ({
            let found = find_registered(doc, provider, model);
            let names = registry_names(doc);
            &&& found is Some <==> exists|name: Seq<char>| #[trigger]
                stands_for(doc, name, provider, model)
            &&& found is Some ==> stands_for(doc, found->0, provider, model)
            &&& forall|k: int|
                0 <= k < names.len() && stands_for(doc, #[trigger] names[k], provider, model) && (
                forall|j: int| 0 <= j < k ==> !stands_for(doc, #[trigger] names[j], provider, model))
                    ==> found == Some(names[k])
        }),
{
    let names = registry_names(doc);
    let by_entry = |name: Seq<char>|
        registered_source(doc, name) == Some((provider, model)) && has_model(doc, name);
    let by_marker = |name: Seq<char>|
        match doc.at("model"@, name) {
            Some(node) => marker_names(node, provider, model),
            None => false,
        };
    let found = find_registered(doc, provider, model);
    lemma_first_where_holds(names, by_entry);
    lemma_first_where_holds(model_names(doc), by_marker);
    assert forall|name: Seq<char>| #[trigger] stands_for(doc, name, provider, model) == by_entry(name) by {}
    match first_where(model_names(doc), by_marker) {
        Some(name) => {
            assert(!is_marked(doc, name));
        },
        None => {},
    }
    if exists|name: Seq<char>| #[trigger] stands_for(doc, name, provider, model) {
        let name = choose|name: Seq<char>| #[trigger] stands_for(doc, name, provider, model);
        let entries = registry(doc)->0;
        lemma_names(entries, name);
        assert(entries.order.contains(name) <==> entries.fields.contains_key(name));
        let k = choose|k: int| 0 <= k < names.len() && names[k] == name;
        assert(by_entry(names[k]));
    }
    if found is Some {
        assert(stands_for(doc, found->0, provider, model));
    }
    assert forall|k: int|
        0 <= k < names.len() && stands_for(doc, #[trigger] names[k], provider, model) && (forall|j: int|
            0 <= j < k ==> !stands_for(doc, #[trigger] names[j], provider, model)) implies found == Some(
        names[k],
    ) by {
        assert(by_entry(names[k]));
        assert forall|j: int| 0 <= j < k implies !by_entry(#[trigger] names[j]) by {
            assert(!stands_for(doc, names[j], provider, model));
        }
        lemma_first_where_found(names, by_entry, k);
    }
}

/// A copy keeps the name that it has. A new one gets its stable identifier, or,
/// where a model of the user has that name, the identifier with the least number
/// behind it that makes a name which no model of the user has.
pub proof fn law_copy_gets_its_stable_name(doc: Group, provider: Seq<char>, model: Seq<char>)
    requires
        models_are_sound(doc),
    ensures
        ({
            let name = allocated(doc, provider, model);
            let id = managed_id(provider, model);
            &&& find_registered(doc, provider, model) is Some ==> name == find_registered(
                doc,
                provider,
                model,
            )->0
            &&& find_registered(doc, provider, model) is None && !is_taken(doc, id) ==> name == id
            &&& find_registered(doc, provider, model) is None && is_taken(doc, id) ==> exists|n: nat|
                {
                    &&& n >= 1
                    &&& name == #[trigger] (id + "_m"@ + decimal(n))
                    &&& !is_taken(doc, name)
                    &&& forall|k: nat| 1 <= k < n ==> is_taken(doc, #[trigger] suffixed(id, k))
                }
        }),
{
    let id = managed_id(provider, model);
    if find_registered(doc, provider, model) is None && is_taken(doc, id) {
        lemma_free_suffix(doc, id);
        let n = choose|n: nat| is_least_free(doc, id, n);
        assert(is_least_free(doc, id, n));
        assert(suffixed(id, n) == id + "_m"@ + decimal(n));
    }
}

/// Some suffix makes a name free.
proof fn lemma_free_suffix(doc: Group, base: Seq<char>)
    requires
        models_are_sound(doc),
        is_taken(doc, base),
    ensures
        exists|n: nat| is_least_free(doc, base, n),
{
    let existing = model_names(doc);
    assert forall|name: Seq<char>| #[trigger] is_taken(doc, name) implies existing.contains(name) by {
        lemma_names(models(doc)->0, name);
        assert(models(doc)->0.order.contains(name) <==> models(doc)->0.fields.contains_key(name));
    }
    lemma_some_name_free(doc, base, existing);
    let k = choose|k: nat| 1 <= k <= existing.len() && !is_taken(doc, #[trigger] suffixed(base, k));
    lemma_least_exists(doc, base, k);
}

/// The model is kept for another provider, and will be known as such once the
/// older markers are moved.
pub open spec fn is_copy(doc: Group, name: Seq<char>) -> bool {
    is_registered(doc, name) || (is_marked(doc, name) && marker_source(doc, name) is Some)
}

/// Where the registry has no name for a model of a provider, the first model whose
/// older marker names it serves; where it has one, markers make no difference.
pub proof fn law_marker_serves_where_the_registry_does_not(
    doc: Group,
    provider: Seq<char>,
    model: Seq<char>,
)
    requires
        registry_is_sound(doc),
    ensures
        ({
            let found = find_registered(doc, provider, model);
            let names = model_names(doc);
            let in_registry = exists|name: Seq<char>| #[trigger] stands_for(doc, name, provider, model);
            &&& in_registry ==> found is Some && stands_for(doc, found->0, provider, model)
            &&& !in_registry ==> {
                &&& found is Some ==> is_marked_for(doc, found->0, provider, model)
                &&& forall|k: int|
                    0 <= k < names.len() && is_marked_for(doc, #[trigger] names[k], provider, model) && (
                    forall|j: int|
                        0 <= j < k ==> !is_marked_for(doc, #[trigger] names[j], provider, model))
                        ==> found == Some(names[k])
            }
        }),
{
    let entries = registry_names(doc);
    let names = model_names(doc);
    let by_entry = |name: Seq<char>|
        registered_source(doc, name) == Some((provider, model)) && has_model(doc, name);
    let by_marker = |name: Seq<char>|
        match doc.at("model"@, name) {
            Some(node) => marker_names(node, provider, model),
            None => false,
        };
    lemma_first_where_holds(entries, by_entry);
    lemma_first_where_holds(names, by_marker);
    assert forall|name: Seq<char>| #[trigger] stands_for(doc, name, provider, model) == by_entry(name) by {}
    assert forall|name: Seq<char>| #[trigger] is_marked_for(doc, name, provider, model) == by_marker(
        name,
    ) by {}
    match first_where(entries, by_entry) {
        Some(name) => {
            assert(stands_for(doc, name, provider, model));
        },
        None => {},
    }
    if exists|name: Seq<char>| #[trigger] stands_for(doc, name, provider, model) {
        let name = choose|name: Seq<char>| #[trigger] stands_for(doc, name, provider, model);
        let table = registry(doc)->0;
        lemma_names(table, name);
        assert(table.order.contains(name) <==> table.fields.contains_key(name));
        let k = choose|k: int| 0 <= k < entries.len() && entries[k] == name;
        assert(by_entry(entries[k]));
    } else {
        match first_where(names, by_marker) {
            Some(name) => {
                assert(is_marked_for(doc, name, provider, model));
            },
            None => {},
        }
        assert forall|k: int|
            0 <= k < names.len() && is_marked_for(doc, #[trigger] names[k], provider, model) && (forall|
                j: int,
            |
                0 <= j < k ==> !is_marked_for(doc, #[trigger] names[j], provider, model)) implies find_registered(
            doc,
            provider,
            model,
        ) == Some(names[k]) by {
            assert(by_marker(names[k]));
            assert forall|j: int| 0 <= j < k implies !by_marker(#[trigger] names[j]) by {
                assert(!is_marked_for(doc, names[j], provider, model));
            }
            lemma_first_where_found(names, by_marker, k);
        }
    }
}

/// The table of the model carries the older marker, with that provider and that
/// model there.
pub open spec fn is_marked_for(
    doc: Group,
    name: Seq<char>,
    provider: Seq<char>,
    model: Seq<char>,
) -> bool {
    match doc.at("model"@, name) {
        Some(Node::Table(table)) => {
            &&& table.get("cc_switch_owned"@) is Some
            &&& table.get("cc_switch_owned"@)->0.flag() == Some(true)
            &&& table.text("cc_switch_source_provider"@) == Some(provider)
            &&& table.text("cc_switch_source_model"@) == Some(model)
        },
        _ => false,
    }
}

/// An entry of the registry is a table with two strings, the provider and the
/// model there, and nothing else.
pub proof fn law_entry_names_its_source(provider: Seq<char>, model: Seq<char>)
    ensures
        ({
            let entry = entry_node(provider, model);
            &&& entry is Table
            &&& entry.child("source_provider"@) == Some(Node::fresh_text(provider))
            &&& entry.child("source_model"@) == Some(Node::fresh_text(model))
            &&& forall|name: Seq<char>| name != "source_provider"@ && name != "source_model"@
                ==> #[trigger] entry.child(name) is None
        }),
{
    reveal_strlit("source_provider");
    reveal_strlit("source_model");
    assert("source_provider"@.len() == 15);
    assert("source_model"@.len() == 12);
}

/// Models and entries of the registry count where they stand in a table under a
/// header, in the order in which they stand there; so do roles.
pub proof fn law_tables_under_headers_count(doc: Group, name: Seq<char>)
    ensures
        match doc.get("model"@) {
            Some(Node::Table(all)) => models(doc) == Some(all) && model_names(doc) == all.names(),
            _ => models(doc) is None && model_names(doc) == Seq::<Seq<char>>::empty(),
        },
        has_model(doc, name) <==> match doc.at("model"@, name) {
            Some(node) => node is Table,
            None => false,
        },
        match doc.at("cc_switch"@, "managed_xprov"@) {
            Some(Node::Table(entries)) => registry(doc) == Some(entries) && registry_names(doc)
                == entries.names(),
            _ => registry(doc) is None && registry_names(doc) == Seq::<Seq<char>>::empty(),
        },
        match doc.at("subagents"@, "models"@) {
            Some(Node::Table(routes)) => live_routes(doc) == routes,
            _ => live_routes(doc) == Group::empty(),
        },
{
}

/// The source that an older marker names is what its two strings say, without
/// white space around them; one that lacks a string, or has a blank one, names
/// none.
pub proof fn law_marker_names_what_it_says(doc: Group, name: Seq<char>)
    ensures
        match doc.at("model"@, name) {
            Some(Node::Table(model)) => {
                let provider = model.text("cc_switch_source_provider"@);
                let source = model.text("cc_switch_source_model"@);
                let says = provider is Some && source is Some && !is_blank(provider->0) && !is_blank(
                    source->0,
                );
                &&& says ==> marker_source(doc, name) == Some((trimmed(provider->0), trimmed(source->0)))
                &&& !says ==> marker_source(doc, name) is None
            },
            _ => true,
        },
{
}

} // verus!
