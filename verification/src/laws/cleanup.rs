//! Removing copies takes out what is recorded as one, and what refers to it.
use vstd::prelude::*;
use crate::laws::frame::{
    agree_outside, lemma_agree_get, lemma_agree_more, lemma_agree_put, lemma_agree_trans,
    lemma_agree_without, lemma_agree_without_at, lemma_names_differ,
};
use crate::laws::registry::{
    law_migration_is_needed_once, lemma_beside_trans, models_are_sound, registry_is_sound, same_beside_registry,
};
use crate::import::{stripped, without_models};
use crate::laws::import::law_models_go_with_what_refers_to_them;
use crate::provider::{ProviderMap, ProviderView};
use crate::registry::{
    collapsed, is_filled_table, is_marked, models, owned, registered_source,
    registry, without_entries, MANAGED_REGISTRY_ROOT, MANAGED_REGISTRY_TABLE,
};
use crate::routes::{cleaned, roles_to, routed, without_routes_to, without_selection_of};
use crate::tree::{
    lemma_names, lemma_put_well_formed, lemma_without_well_formed, Group, Node,
};

verus! {

/// A well formed table without names holds nothing.
proof fn lemma_no_names(g: Group, name: Seq<char>)
    requires
        g.well_formed(),
        g.get(name) is Some,
    ensures
        g.names().len() > 0,
{
    assert(g.order.contains(name) <==> g.fields.contains_key(name));
    lemma_names(g, name);
}

/// Entries that are removed give no source any more; all others give the same
/// as before. Nothing but the registry is touched.
pub proof fn law_registry_forgets_only_what_is_removed(doc: Group, names: Set<Seq<char>>)
    requires
        registry_is_sound(doc),
    ensures
        ({
            let after = collapsed(without_entries(doc, names));
            &&& forall|name: Seq<char>| #[trigger]
                registered_source(after, name) == if names.contains(name) {
                    None
                } else {
                    registered_source(doc, name)
                }
            &&& agree_outside(doc, after, set![MANAGED_REGISTRY_ROOT@])
            &&& same_beside_registry(doc, after)
            &&& registry_is_sound(after)
        }),
{
    let root_only = set![MANAGED_REGISTRY_ROOT@];
    let fewer = without_entries(doc, names);
    let after = collapsed(fewer);
    match doc.get(MANAGED_REGISTRY_ROOT@) {
        Some(root) => {
            let group = root.group().without_at(MANAGED_REGISTRY_TABLE@, names);
            lemma_agree_put(doc, MANAGED_REGISTRY_ROOT@, root.with_group(group), root_only);
            match root.child(MANAGED_REGISTRY_TABLE@) {
                Some(entries) => {
                    let rest = entries.group().without(names);
                    lemma_without_well_formed(entries.group(), names);
                    lemma_put_well_formed(root.group(), MANAGED_REGISTRY_TABLE@, Node::Table(rest));
                    assert(fewer.at(MANAGED_REGISTRY_ROOT@, MANAGED_REGISTRY_TABLE@) == Some(
                        Node::Table(rest),
                    ));
                    if is_filled_table(Some(Node::Table(rest))) {
                        lemma_no_names(group, MANAGED_REGISTRY_TABLE@);
                        assert(after == fewer);
                    } else {
                        assert forall|name: Seq<char>| rest.get(name) is None by {
                            if rest.get(name) is Some {
                                lemma_no_names(rest, name);
                            }
                        }
                        lemma_collapse_tail(fewer);
                        lemma_agree_trans(doc, fewer, after, root_only);
                        lemma_beside_trans(doc, fewer, after);
                        assert forall|name: Seq<char>| !names.contains(name) implies #[trigger] registered_source(
                            doc,
                            name,
                        ) is None by {
                            assert(rest.get(name) == entries.group().get(name));
                        }
                    }
                },
                None => {
                    assert(group == root.group());
                    lemma_collapse_tail(fewer);
                    lemma_agree_trans(doc, fewer, after, root_only);
                    lemma_beside_trans(doc, fewer, after);
                },
            }
        },
        None => {
            lemma_agree_without(doc, root_only, root_only);
        },
    }
}

/// Collapsing a registry without entries.
proof fn lemma_collapse_tail(doc: Group)
    requires
        doc.get(MANAGED_REGISTRY_ROOT@) is Some,
        doc.get(MANAGED_REGISTRY_ROOT@)->0 is Table,
        doc.section(MANAGED_REGISTRY_ROOT@).well_formed(),
        !is_filled_table(doc.at(MANAGED_REGISTRY_ROOT@, MANAGED_REGISTRY_TABLE@)),
    ensures
        collapsed(doc).at(MANAGED_REGISTRY_ROOT@, MANAGED_REGISTRY_TABLE@) is None,
        agree_outside(doc, collapsed(doc), set![MANAGED_REGISTRY_ROOT@]),
        same_beside_registry(doc, collapsed(doc)),
        registry_is_sound(collapsed(doc)),
{
    let root_only = set![MANAGED_REGISTRY_ROOT@];
    let table_only = set![MANAGED_REGISTRY_TABLE@];
    let inner = doc.without_at(MANAGED_REGISTRY_ROOT@, table_only);
    lemma_without_well_formed(doc.section(MANAGED_REGISTRY_ROOT@), table_only);
    lemma_agree_without_at(doc, MANAGED_REGISTRY_ROOT@, table_only, root_only, table_only);
    lemma_agree_without(inner, root_only, root_only);
    if !is_filled_table(inner.get(MANAGED_REGISTRY_ROOT@)) {
        lemma_agree_trans(doc, inner, inner.without(root_only), root_only);
        assert forall|name: Seq<char>| inner.at(MANAGED_REGISTRY_ROOT@, name) is None by {
            if inner.at(MANAGED_REGISTRY_ROOT@, name) is Some {
                lemma_no_names(inner.section(MANAGED_REGISTRY_ROOT@), name);
            }
        }
    }
    assert forall|name: Seq<char>| name != MANAGED_REGISTRY_TABLE@ implies #[trigger] doc.at(
        MANAGED_REGISTRY_ROOT@,
        name,
    ) == collapsed(doc).at(MANAGED_REGISTRY_ROOT@, name) by {
        assert(doc.at(MANAGED_REGISTRY_ROOT@, name) == inner.at(MANAGED_REGISTRY_ROOT@, name));
    }
}

/// A selection that names one of the models is taken out; anything else stays.
pub proof fn law_selection_is_cleared_only_if_stale(doc: Group, key: Seq<char>, names: Set<Seq<char>>)
    ensures
        ({
            let after = without_selection_of(doc, key, names);
            let stale = match doc.text_at("models"@, key) {
                Some(name) => names.contains(name),
                None => false,
            };
            &&& after.at("models"@, key) == if stale {
                None
            } else {
                doc.at("models"@, key)
            }
            &&& agree_outside(doc, after, set!["models"@])
            &&& agree_outside(doc.section("models"@), after.section("models"@), set![key])
        }),
{
    lemma_agree_without_at(doc, "models"@, set![key], set!["models"@], set![key]);
}

/// A registry without entries goes, and the table that held it if nothing else
/// is in there.
pub proof fn law_empty_registry_goes(doc: Group)
    requires
        registry_is_sound(doc),
        !is_filled_table(doc.at(MANAGED_REGISTRY_ROOT@, MANAGED_REGISTRY_TABLE@)),
    ensures
        collapsed(doc).at(MANAGED_REGISTRY_ROOT@, MANAGED_REGISTRY_TABLE@) is None,
        (forall|name: Seq<char>|
            name != MANAGED_REGISTRY_TABLE@ ==> #[trigger] doc.at(MANAGED_REGISTRY_ROOT@, name) is None)
            ==> collapsed(doc).get(MANAGED_REGISTRY_ROOT@) is None,
{
    match doc.get(MANAGED_REGISTRY_ROOT@) {
        Some(root) => {
            lemma_collapse_tail(doc);
            let rest = root.group().without(set![MANAGED_REGISTRY_TABLE@]);
            if forall|name: Seq<char>|
                name != MANAGED_REGISTRY_TABLE@ ==> #[trigger] doc.at(MANAGED_REGISTRY_ROOT@, name) is None {
                if rest.names().len() > 0 {
                    let name = rest.names()[0];
                    assert(rest.names().contains(name));
                    lemma_names(rest, name);
                    assert(doc.at(MANAGED_REGISTRY_ROOT@, name) is Some);
                }
            }
        },
        None => {},
    }
}

/// The copies that are not to be kept go: their tables, their entries in the
/// registry, a selection that names one. Every other model is left alone, with
/// its entry, and so is everything else; what is owned afterwards is what was
/// owned and is to be kept.
pub proof fn law_cleanup_removes_only_owned_models(doc: Group, keep: Set<Seq<char>>)
    requires
        registry_is_sound(doc),
    ensures
        ({
            let after = cleaned(doc, keep);
            let stale = owned(doc).difference(keep);
            &&& forall|name: Seq<char>| #[trigger]
                after.at("model"@, name) == if stale.contains(name) {
                    None
                } else {
                    doc.at("model"@, name)
                }
            &&& forall|name: Seq<char>| #[trigger]
                registered_source(after, name) == if stale.contains(name) {
                    None
                } else {
                    registered_source(doc, name)
                }
            &&& owned(after) == owned(doc).intersect(keep)
            &&& agree_outside(doc, after, set!["model"@, "models"@, MANAGED_REGISTRY_ROOT@])
            &&& same_beside_registry(doc, after)
            &&& agree_outside(
                doc.section("models"@),
                after.section("models"@),
                set!["default"@, "web_search"@],
            )
            &&& after.at("models"@, "default"@) == without_selection_of(doc, "default"@, stale).at(
                "models"@,
                "default"@,
            )
            &&& after.at("models"@, "web_search"@) == without_selection_of(
                doc,
                "web_search"@,
                stale,
            ).at("models"@, "web_search"@)
            &&& registry_is_sound(after)
            &&& models(after) is Some == models(doc) is Some
            &&& models_are_sound(doc) ==> models_are_sound(after)
        }),
{
    lemma_names_differ();
    let stale = owned(doc).difference(keep);
    let after = cleaned(doc, keep);
    if stale =~= Set::empty() {
        assert forall|name: Seq<char>| !stale.contains(name) by {
            assert(!Set::<Seq<char>>::empty().contains(name));
        }
        assert(owned(doc) =~= owned(doc).intersect(keep)) by {
            assert forall|name: Seq<char>| owned(doc).contains(name) implies keep.contains(name) by {
                assert(!stale.contains(name));
            }
        }
    } else {
        let touched = set!["model"@, "models"@, MANAGED_REGISTRY_ROOT@];
        let two = set!["default"@, "web_search"@];
        let root_only = set![MANAGED_REGISTRY_ROOT@];
        let a = doc.without_at("model"@, stale);
        let b = collapsed(without_entries(a, stale));
        let c = without_selection_of(b, "default"@, stale);
        lemma_agree_without_at(doc, "model"@, stale, set!["model"@], stale);
        lemma_agree_get(doc, a, set!["model"@], MANAGED_REGISTRY_ROOT@);
        lemma_agree_get(doc, a, set!["model"@], "models"@);
        law_registry_forgets_only_what_is_removed(a, stale);
        lemma_agree_get(a, b, root_only, "model"@);
        lemma_agree_get(a, b, root_only, "models"@);
        law_selection_is_cleared_only_if_stale(b, "default"@, stale);
        law_selection_is_cleared_only_if_stale(c, "web_search"@, stale);
        lemma_agree_get(b, c, set!["models"@], "model"@);
        lemma_agree_get(b, c, set!["models"@], MANAGED_REGISTRY_ROOT@);
        lemma_agree_get(c, after, set!["models"@], "model"@);
        lemma_agree_get(c, after, set!["models"@], MANAGED_REGISTRY_ROOT@);
        lemma_agree_get(b.section("models"@), c.section("models"@), set!["default"@], "web_search"@);
        lemma_agree_get(c.section("models"@), after.section("models"@), set!["web_search"@], "default"@);
        lemma_agree_more(doc, a, set!["model"@], touched);
        lemma_agree_more(a, b, root_only, touched);
        lemma_agree_more(b, c, set!["models"@], touched);
        lemma_agree_more(c, after, set!["models"@], touched);
        lemma_agree_trans(doc, a, b, touched);
        lemma_agree_trans(doc, b, c, touched);
        lemma_agree_trans(doc, c, after, touched);
        lemma_beside_trans(doc, a, b);
        lemma_beside_trans(doc, b, after);
        lemma_agree_more(b.section("models"@), c.section("models"@), set!["default"@], two);
        lemma_agree_more(c.section("models"@), after.section("models"@), set!["web_search"@], two);
        lemma_agree_trans(doc.section("models"@), c.section("models"@), after.section("models"@), two);
        law_selection_is_cleared_only_if_stale(doc, "default"@, stale);
        law_selection_is_cleared_only_if_stale(doc, "web_search"@, stale);
        assert forall|name: Seq<char>| #[trigger]
            after.at("model"@, name) == if stale.contains(name) {
                None
            } else {
                doc.at("model"@, name)
            } by {
            assert(after.at("model"@, name) == a.at("model"@, name));
        }
        assert forall|name: Seq<char>| #[trigger]
            registered_source(after, name) == if stale.contains(name) {
                None
            } else {
                registered_source(doc, name)
            } by {
            assert(registered_source(after, name) == registered_source(b, name));
            assert(registered_source(a, name) == registered_source(doc, name));
        }
        assert forall|name: Seq<char>| owned(after).contains(name) <==> owned(doc).intersect(
            keep,
        ).contains(name) by {
            assert(after.at("model"@, name) == if stale.contains(name) {
                None
            } else {
                doc.at("model"@, name)
            });
            assert(registered_source(after, name) == if stale.contains(name) {
                None
            } else {
                registered_source(doc, name)
            });
        }
        assert(owned(after) =~= owned(doc).intersect(keep));
        if models_are_sound(doc) && models(doc) is Some {
            lemma_without_well_formed(models(doc)->0, stale);
        }
    }
}

/// The route of a role.
pub open spec fn route_of(doc: Group, role: Seq<char>) -> Option<Node> {
    match doc.at("subagents"@, "models"@) {
        Some(routes) => routes.child(role),
        None => None,
    }
}

/// The route of a role points to one of the models.
pub open spec fn points_to(doc: Group, role: Seq<char>, names: Set<Seq<char>>) -> bool {
    match route_of(doc, role) {
        Some(route) => match route.text() {
            Some(name) => names.contains(name),
            None => false,
        },
        None => false,
    }
}

/// The routes that point to one of the models go; every other route stays, and
/// so does everything else.
pub proof fn law_routes_go_only_if_stale(doc: Group, names: Set<Seq<char>>)
    ensures
        ({
            let after = without_routes_to(doc, names);
            &&& forall|role: Seq<char>| #[trigger]
                route_of(after, role) == if points_to(doc, role, names) {
                    None
                } else {
                    route_of(doc, role)
                }
            &&& agree_outside(doc, after, set!["subagents"@])
            &&& agree_outside(doc.section("subagents"@), after.section("subagents"@), set!["models"@])
        }),
{
    match doc.get("subagents"@) {
        Some(subagents) => match subagents.child("models"@) {
            Some(routes) => {
                if routes.is_table_like() {
                    let gone = roles_to(routes, names);
                    let rest = routes.with_group(routes.group().without(gone));
                    lemma_agree_put(subagents.group(), "models"@, rest, set!["models"@]);
                    lemma_agree_put(
                        doc,
                        "subagents"@,
                        subagents.with_group(subagents.group().put("models"@, rest)),
                        set!["subagents"@],
                    );
                    let after = without_routes_to(doc, names);
                    assert forall|role: Seq<char>| #[trigger]
                        route_of(after, role) == if points_to(doc, role, names) {
                            None
                        } else {
                            route_of(doc, role)
                        } by {
                        assert(gone.contains(role) == points_to(doc, role, names));
                    }
                }
            },
            None => {},
        },
        None => {},
    }
}

/// Once every entry of the registry is removed, the table that holds it goes too,
/// if nothing else is in there.
pub proof fn law_registry_goes_with_its_last_entry(doc: Group, names: Set<Seq<char>>)
    requires
        registry_is_sound(doc),
        forall|name: Seq<char>| name != MANAGED_REGISTRY_TABLE@ ==> #[trigger] doc.at(
            MANAGED_REGISTRY_ROOT@,
            name,
        ) is None,
        match doc.at(MANAGED_REGISTRY_ROOT@, MANAGED_REGISTRY_TABLE@) {
            Some(entries) => forall|name: Seq<char>| #[trigger]
                entries.group().get(name) is Some ==> names.contains(name),
            None => true,
        },
    ensures
        collapsed(without_entries(doc, names)).get(MANAGED_REGISTRY_ROOT@) is None,
{
    broadcast use vstd::seq_lib::group_filter_ensures;

    let table_only = set![MANAGED_REGISTRY_TABLE@];
    let fewer = without_entries(doc, names);
    let after = collapsed(fewer);
    match doc.get(MANAGED_REGISTRY_ROOT@) {
        Some(root) => {
            let group = root.group().without_at(MANAGED_REGISTRY_TABLE@, names);
            match root.child(MANAGED_REGISTRY_TABLE@) {
                Some(entries) => {
                    let rest = entries.group().without(names);
                    assert(fewer.at(MANAGED_REGISTRY_ROOT@, MANAGED_REGISTRY_TABLE@) == Some(
                        Node::Table(rest),
                    ));
                    assert(doc.at(MANAGED_REGISTRY_ROOT@, MANAGED_REGISTRY_TABLE@) == Some(entries));
                    assert forall|name: Seq<char>| rest.get(name) is None by {
                        if entries.group().get(name) is Some {
                            assert(names.contains(name));
                        }
                    }
                    lemma_nothing_left(rest);
                },
                None => {
                    assert(group == root.group());
                },
            }
            let inner = fewer.without_at(MANAGED_REGISTRY_ROOT@, table_only);
            let left = inner.section(MANAGED_REGISTRY_ROOT@);
            assert(inner.get(MANAGED_REGISTRY_ROOT@) == Some(Node::Table(group.without(table_only))));
            assert forall|name: Seq<char>| left.get(name) is None by {
                if name != MANAGED_REGISTRY_TABLE@ {
                    assert(doc.at(MANAGED_REGISTRY_ROOT@, name) is None);
                    assert(group.get(name) == root.group().get(name));
                }
            }
            lemma_nothing_left(left);
        },
        None => {},
    }
}

/// A table in which nothing is has no names.
proof fn lemma_nothing_left(g: Group)
    requires
        forall|name: Seq<char>| g.get(name) is None,
    ensures
        g.names().len() == 0,
{
    if g.names().len() > 0 {
        let name = g.names()[0];
        lemma_names(g, name);
        assert(g.names().contains(name));
    }
}

/// Every entry of the registry gives a source, and nothing stands beside it.
pub open spec fn holds_only_copies(doc: Group) -> bool {
    &&& registry_is_sound(doc)
    &&& forall|name: Seq<char>| name != MANAGED_REGISTRY_TABLE@ ==> #[trigger] doc.at(
        MANAGED_REGISTRY_ROOT@,
        name,
    ) is None
    &&& match doc.at(MANAGED_REGISTRY_ROOT@, MANAGED_REGISTRY_TABLE@) {
        Some(entries) => forall|name: Seq<char>| #[trigger]
            entries.group().get(name) is Some ==> registered_source(doc, name) is Some,
        None => true,
    }
}

/// Where the registry holds nothing but copies, nothing of it is left once all are
/// removed: neither by following no routes nor by stripping the configuration.
pub proof fn law_nothing_of_the_registry_is_left(doc: Group, active: ProviderView, all: ProviderMap)
    requires
        holds_only_copies(doc),
        forall|name: Seq<char>| !#[trigger] is_marked(doc, name),
    ensures
        stripped(doc) is Some,
        stripped(doc)->0.get(MANAGED_REGISTRY_ROOT@) is None,
        active.routes.len() == 0 ==> {
            &&& routed(doc, active, all) is Ok
            &&& owned(doc) != Set::<Seq<char>>::empty() ==> routed(doc, active, all)->Ok_0.get(
                MANAGED_REGISTRY_ROOT@,
            ) is None
        },
{
    lemma_names_differ();
    let copies = owned(doc);
    law_migration_is_needed_once(doc);
    let b = without_models(doc, copies);
    law_models_go_with_what_refers_to_them(doc, copies);
    lemma_agree_get(doc, b, set!["model"@, "models"@, "subagents"@], MANAGED_REGISTRY_ROOT@);
    assert forall|name: Seq<char>| registered_source(doc, name) is Some implies #[trigger] copies.contains(
        name,
    ) by {}
    lemma_only_copies_go(doc, b, copies);
    if active.routes.len() == 0 && owned(doc) != Set::<Seq<char>>::empty() {
        let none = Set::<Seq<char>>::empty();
        let tree = without_routes_to(doc, copies);
        law_routes_go_only_if_stale(doc, copies);
        lemma_agree_get(doc, tree, set!["subagents"@], MANAGED_REGISTRY_ROOT@);
        lemma_agree_get(doc, tree, set!["subagents"@], "model"@);
        assert(owned(tree) =~= copies) by {
            assert forall|name: Seq<char>| owned(tree).contains(name) <==> copies.contains(name) by {
                assert(registered_source(tree, name) == registered_source(doc, name));
            }
        }
        let stale = owned(tree).difference(none);
        assert(stale =~= copies);
        let a = tree.without_at("model"@, stale);
        lemma_agree_without_at(tree, "model"@, stale, set!["model"@], stale);
        lemma_agree_get(tree, a, set!["model"@], MANAGED_REGISTRY_ROOT@);
        lemma_only_copies_go(doc, a, stale);
        let bare = collapsed(without_entries(a, stale));
        let c = without_selection_of(bare, "default"@, stale);
        law_selection_is_cleared_only_if_stale(bare, "default"@, stale);
        law_selection_is_cleared_only_if_stale(c, "web_search"@, stale);
        lemma_agree_get(bare, c, set!["models"@], MANAGED_REGISTRY_ROOT@);
        lemma_agree_get(
            c,
            without_selection_of(c, "web_search"@, stale),
            set!["models"@],
            MANAGED_REGISTRY_ROOT@,
        );
    }
}

/// The registry goes from any document that has the same one.
proof fn lemma_only_copies_go(doc: Group, same: Group, names: Set<Seq<char>>)
    requires
        holds_only_copies(doc),
        same.get(MANAGED_REGISTRY_ROOT@) == doc.get(MANAGED_REGISTRY_ROOT@),
        forall|name: Seq<char>| registered_source(doc, name) is Some ==> #[trigger] names.contains(name),
    ensures
        collapsed(without_entries(same, names)).get(MANAGED_REGISTRY_ROOT@) is None,
{
    assert forall|name: Seq<char>| name != MANAGED_REGISTRY_TABLE@ implies #[trigger] same.at(
        MANAGED_REGISTRY_ROOT@,
        name,
    ) is None by {
        assert(doc.at(MANAGED_REGISTRY_ROOT@, name) is None);
    }
    match doc.at(MANAGED_REGISTRY_ROOT@, MANAGED_REGISTRY_TABLE@) {
        Some(entries) => {
            assert forall|name: Seq<char>| #[trigger] entries.group().get(name) is Some implies names.contains(
                name,
            ) by {
                assert(registered_source(doc, name) is Some);
            }
        },
        None => {},
    }
    law_registry_goes_with_its_last_entry(same, names);
}

} // verus!
