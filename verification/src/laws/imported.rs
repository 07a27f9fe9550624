//! What an import gives, from the text of a configuration to the settings of a
//! provider.
use vstd::prelude::*;
use crate::error::{AppErrorView, FaultView};
use crate::import::{
    env_key, has_own_key, imported, keyless, profile_key, provider_part, stripped, without_key,
};
use crate::json::Json;
use crate::laws::answers::{
    can_register, law_markers_can_be_moved_to_a_table, law_some_model_is_selected,
};
use crate::laws::cleanup::{law_selection_is_cleared_only_if_stale, route_of};
use crate::laws::frame::{agree_outside, lemma_agree_get, lemma_agree_without, lemma_names_differ};
use crate::laws::import::{
    law_import_takes_only_what_a_provider_owns, law_nothing_of_other_providers_is_left,
};
use crate::laws::profile::profile_sections;
use crate::laws::registry::{
    is_copy, law_migration_moves_every_marker, law_sound_documents_have_sound_tables,
    marker_source, models_are_sound, registry_is_sound,
};
use crate::laws::routes::routed_sections;
use crate::registry::{
    is_managed, is_marked, is_registered, marker_text, migrated, model_names, models, owned,
    registered_source, LEGACY_MANAGED_SOURCE_MODEL_KEY, LEGACY_MANAGED_SOURCE_PROVIDER_KEY,
    MANAGED_REGISTRY_ROOT,
};
use crate::toml::{toml_parse, toml_render};
use crate::tree::{
    first_where, lemma_first_where_found, lemma_first_where_holds, lemma_first_where_none, Group,
    Node,
};

verus! {

/// The key that the model under that name has.
pub open spec fn own_key(doc: Group, name: Seq<char>) -> Option<Seq<char>> {
    match doc.at("model"@, name) {
        Some(Node::Table(model)) => model.text("api_key"@),
        _ => None,
    }
}

/// The variable that the model under that name names for its key, if it has none
/// of its own.
pub open spec fn own_variable(doc: Group, name: Seq<char>) -> Option<Seq<char>> {
    match doc.at("model"@, name) {
        Some(Node::Table(model)) => if model.text("api_key"@) is None {
            model.text("env_key"@)
        } else {
            None
        },
        _ => None,
    }
}

/// The key that an import finds. The key of the default model counts, whatever
/// keys others have and in whatever order they stand; else what its variable
/// holds. Only where that gives nothing is it the key of the first model that has
/// one; without any key it is empty.
pub proof fn law_key_is_that_of_the_default_model(doc: Group, env_value: Option<Seq<char>>)
    ensures
        models(doc) is None ==> profile_key(doc, env_value) == Seq::<char>::empty(),
        models(doc) is Some ==> ({
            let key = profile_key(doc, env_value);
            let names = models(doc)->0.names();
            let of_default = match doc.text_at("models"@, "default"@) {
                Some(name) => if own_key(doc, name) is Some {
                    own_key(doc, name)
                } else if own_variable(doc, name) is Some {
                    env_value
                } else {
                    None
                },
                None => None,
            };
            &&& of_default is Some && of_default->0.len() > 0 ==> key == of_default->0
            &&& of_default is None || of_default->0.len() == 0 ==> {
                &&& forall|k: int|
                    0 <= k < names.len() && own_key(doc, #[trigger] names[k]) is Some && (forall|j: int|
                        0 <= j < k ==> own_key(doc, #[trigger] names[j]) is None) ==> key == own_key(
                        doc,
                        names[k],
                    )->0
                &&& (forall|k: int| 0 <= k < names.len() ==> own_key(doc, #[trigger] names[k]) is None)
                    ==> key == Seq::<char>::empty()
            }
        }),
{
    let key = profile_key(doc, env_value);
    let names = model_names(doc);
    let p = |name: Seq<char>| has_own_key(doc, name);
    assert forall|name: Seq<char>| #[trigger] own_key(doc, name) is Some == p(name) by {}
    lemma_first_where_holds(names, p);
    assert forall|k: int|
        0 <= k < names.len() && own_key(doc, #[trigger] names[k]) is Some && (forall|j: int|
            0 <= j < k ==> own_key(doc, #[trigger] names[j]) is None) implies first_where(names, p)
        == Some(names[k]) by {
        assert(p(names[k]));
        assert forall|j: int| 0 <= j < k implies !p(#[trigger] names[j]) by {
            assert(own_key(doc, names[j]) is None);
        }
        lemma_first_where_found(names, p, k);
    }
    if forall|k: int| 0 <= k < names.len() ==> own_key(doc, #[trigger] names[k]) is None {
        assert forall|k: int| 0 <= k < names.len() implies !p(#[trigger] names[k]) by {
            assert(own_key(doc, names[k]) is None);
        }
        lemma_first_where_none(names, p);
    }
}

/// The variable that has to be looked up for an import is that of the default
/// model, if it names one and has no key of its own.
pub proof fn law_variable_is_that_of_the_default_model(doc: Group)
    ensures
        models(doc) is None ==> env_key(doc) is None,
        models(doc) is Some ==> env_key(doc) == match doc.text_at("models"@, "default"@) {
            Some(name) => own_variable(doc, name),
            None => None,
        },
{
}

/// Taking the key out leaves alone which models are kept for other providers.
proof fn lemma_keyless(doc: Group, key: Seq<char>)
    requires
        doc.is_sound(),
    ensures
        ({
            let bare = keyless(doc, key);
            &&& models_are_sound(bare)
            &&& models(bare) is Some == models(doc) is Some
            &&& forall|name: Seq<char>| name != "model"@ ==> #[trigger] bare.get(name) == doc.get(name)
            &&& forall|name: Seq<char>| #[trigger]
                bare.at("model"@, name) == match doc.at("model"@, name) {
                    Some(Node::Table(model)) => if models(doc) is Some {
                        Some(Node::Table(without_key(model, key)))
                    } else {
                        doc.at("model"@, name)
                    },
                    node => node,
                }
            &&& forall|name: Seq<char>| #[trigger]
                registered_source(bare, name) == registered_source(doc, name)
            &&& forall|name: Seq<char>| #[trigger] is_marked(bare, name) == is_marked(doc, name)
            &&& forall|name: Seq<char>| #[trigger] marker_source(bare, name) == marker_source(doc, name)
        }),
{
    lemma_names_differ();
    reveal_strlit("api_key");
    reveal_strlit("cc_switch_source_provider");
    reveal_strlit("cc_switch_source_model");
    assert("api_key"@.len() == 7);
    assert("cc_switch_source_provider"@.len() == 25);
    assert("cc_switch_source_model"@.len() == 22);
    law_sound_documents_have_sound_tables(doc);
    let bare = keyless(doc, key);
    let f = |model: Group| without_key(model, key);
    match models(doc) {
        Some(all) => {
            let mapped = all.map_tables(f);
            assert(mapped.fields.dom() =~= all.fields.dom());
            assert(mapped.order == all.order);
            assert(mapped.well_formed());
            assert forall|name: Seq<char>| #[trigger] mapped.get(name) == match all.get(name) {
                Some(node) => Some(node.map_table(f)),
                None => None,
            } by {}
        },
        None => {},
    }
    assert forall|name: Seq<char>| #[trigger]
        bare.at("model"@, name) == match doc.at("model"@, name) {
            Some(Node::Table(model)) => if models(doc) is Some {
                Some(Node::Table(without_key(model, key)))
            } else {
                doc.at("model"@, name)
            },
            node => node,
        } by {}
    assert forall|name: Seq<char>| #[trigger] is_marked(bare, name) == is_marked(doc, name) by {
        assert(bare.at("model"@, name) == match doc.at("model"@, name) {
            Some(Node::Table(model)) => if models(doc) is Some {
                Some(Node::Table(without_key(model, key)))
            } else {
                doc.at("model"@, name)
            },
            node => node,
        });
    }
    assert forall|name: Seq<char>| #[trigger] marker_source(bare, name) == marker_source(doc, name) by {
        assert(bare.at("model"@, name) == match doc.at("model"@, name) {
            Some(Node::Table(model)) => if models(doc) is Some {
                Some(Node::Table(without_key(model, key)))
            } else {
                doc.at("model"@, name)
            },
            node => node,
        });
        assert(marker_text(bare, name, LEGACY_MANAGED_SOURCE_PROVIDER_KEY@) == marker_text(
            doc,
            name,
            LEGACY_MANAGED_SOURCE_PROVIDER_KEY@,
        ));
        assert(marker_text(bare, name, LEGACY_MANAGED_SOURCE_MODEL_KEY@) == marker_text(
            doc,
            name,
            LEGACY_MANAGED_SOURCE_MODEL_KEY@,
        ));
    }
}

/// An import gives settings with two members: the key, under the name that a
/// provider is read by, and a configuration. In that stand the address, the
/// selection, the roles and the models of the text, and nothing else. No model
/// has the key that moved; a model with another key keeps it. No model that is
/// kept for another provider is taken over, and no selection and no role that
/// names one, as long as the registry stands under headers.
pub proof fn law_import_gives_the_provider(
    text: Seq<char>,
    doc: Group,
    env_value: Option<Seq<char>>,
)
    requires
        toml_parse(text) == Ok::<Group, Seq<char>>(doc),
        doc.is_sound(),
        imported(text, env_value) is Ok,
    ensures
        exists|part: Group|
            {
                let key = profile_key(doc, env_value);
                &&& imported(text, env_value)->Ok_0.member_text("config"@) == Some(
                    #[trigger] toml_render(part),
                )
                &&& imported(text, env_value)->Ok_0.member("auth"@) is Some
                &&& imported(text, env_value)->Ok_0.member("auth"@)->0.member_text(
                    "OPENAI_API_KEY"@,
                ) == Some(key)
                &&& forall|name: Seq<char>| name != "OPENAI_API_KEY"@ ==> #[trigger] imported(
                    text,
                    env_value,
                )->Ok_0.member("auth"@)->0.member(name) is None
                &&& forall|name: Seq<char>| name != "auth"@ && name != "config"@
                    ==> #[trigger] imported(text, env_value)->Ok_0.member(name) is None
                &&& part.at("endpoints"@, "models_base_url"@) == doc.at(
                    "endpoints"@,
                    "models_base_url"@,
                )
                &&& registry_is_sound(doc) ==> part.at("models"@, "default"@) == match doc.text_at(
                    "models"@,
                    "default"@,
                ) {
                    Some(selected) => if is_copy(doc, selected) {
                        None
                    } else {
                        doc.at("models"@, "default"@)
                    },
                    None => doc.at("models"@, "default"@),
                }
                &&& registry_is_sound(doc) ==> part.at("models"@, "web_search"@) == match doc.text_at(
                    "models"@,
                    "web_search"@,
                ) {
                    Some(selected) => if is_copy(doc, selected) {
                        None
                    } else {
                        doc.at("models"@, "web_search"@)
                    },
                    None => doc.at("models"@, "web_search"@),
                }
                &&& registry_is_sound(doc) ==> forall|role: Seq<char>| #[trigger]
                    route_of(part, role) == match route_of(doc, role) {
                        Some(route) => if route.text() is Some && is_copy(doc, route.text()->0) {
                            None
                        } else {
                            Some(route)
                        },
                        None => None,
                    }
                &&& registry_is_sound(doc) ==> forall|name: Seq<char>| is_copy(doc, name)
                    ==> #[trigger] part.at("model"@, name) is None
                &&& forall|name: Seq<char>|
                    !is_managed(doc, name) && models(doc) is Some ==> match doc.at("model"@, name) {
                        Some(Node::Table(model)) => {
                            let taken = (#[trigger] part.at("model"@, name))->0.group();
                            &&& part.at("model"@, name) is Some
                            &&& part.at("model"@, name)->0 is Table
                            &&& agree_outside(model, taken, set!["api_key"@])
                            &&& taken.get("api_key"@) == if model.text("api_key"@) == Some(key) {
                                None
                            } else {
                                model.get("api_key"@)
                            }
                        },
                        node => part.at("model"@, name) == node,
                    }
                &&& forall|name: Seq<char>| !profile_sections().contains(name) ==> #[trigger] part.get(
                    name,
                ) is None
                &&& forall|name: Seq<char>| name != "models_base_url"@ ==> #[trigger] part.at(
                    "endpoints"@,
                    name,
                ) is None
                &&& forall|name: Seq<char>| name != "default"@ && name != "web_search"@
                    ==> #[trigger] part.at("models"@, name) is None
                &&& forall|name: Seq<char>| name != "models"@ ==> #[trigger] part.at("subagents"@, name) is None
            },
{
    lemma_names_differ();
    reveal_strlit("auth");
    reveal_strlit("config");
    assert("auth"@.len() == 4);
    assert("config"@.len() == 6);
    let settings = imported(text, env_value)->Ok_0;
    let key = profile_key(doc, env_value);
    let bare = keyless(doc, key);
    let rest = stripped(bare)->0;
    let part = provider_part(rest);
    let copies = owned(migrated(bare)->0);
    lemma_keyless(doc, key);
    law_nothing_of_other_providers_is_left(bare);
    law_import_takes_only_what_a_provider_owns(rest);
    law_selection_is_cleared_only_if_stale(bare, "default"@, copies);
    law_selection_is_cleared_only_if_stale(bare, "web_search"@, copies);
    assert(rest.get("endpoints"@) == bare.get("endpoints"@)) by {
        lemma_agree_get(
            bare,
            rest,
            routed_sections(),
            "endpoints"@,
        );
    }
    if registry_is_sound(doc) {
        law_migration_moves_every_marker(bare);
        assert forall|name: Seq<char>| #[trigger] copies.contains(name) == is_copy(doc, name) by {
            assert(!is_marked(migrated(bare)->0, name));
            assert(registered_source(migrated(bare)->0, name) == if is_marked(bare, name)
                && !is_registered(bare, name) {
                marker_source(bare, name)
            } else {
                registered_source(bare, name)
            });
            assert(registered_source(bare, name) == registered_source(doc, name));
            assert(is_marked(bare, name) == is_marked(doc, name));
            assert(marker_source(bare, name) == marker_source(doc, name));
        }
        assert forall|role: Seq<char>| #[trigger]
            route_of(part, role) == match route_of(doc, role) {
                Some(route) => if route.text() is Some && is_copy(doc, route.text()->0) {
                    None
                } else {
                    Some(route)
                },
                None => None,
            } by {
            assert(route_of(part, role) == route_of(rest, role));
            assert(route_of(bare, role) == route_of(doc, role));
            match route_of(doc, role) {
                Some(route) => match route.text() {
                    Some(name) => {
                        assert(copies.contains(name) == is_copy(doc, name));
                    },
                    None => {},
                },
                None => {},
            }
        }
        assert forall|name: Seq<char>| is_copy(doc, name) implies #[trigger] part.at(
            "model"@,
            name,
        ) is None by {
            assert(copies.contains(name) == is_copy(doc, name));
            assert(part.at("model"@, name) == rest.at("model"@, name));
        }
        match doc.text_at("models"@, "default"@) {
            Some(name) => {
                assert(copies.contains(name) == is_copy(doc, name));
            },
            None => {},
        }
        match doc.text_at("models"@, "web_search"@) {
            Some(name) => {
                assert(copies.contains(name) == is_copy(doc, name));
            },
            None => {},
        }
    }
    assert forall|name: Seq<char>|
        !is_managed(doc, name) && models(doc) is Some implies match doc.at("model"@, name) {
        Some(Node::Table(model)) => {
            let taken = (#[trigger] part.at("model"@, name))->0.group();
            &&& part.at("model"@, name) is Some
            &&& part.at("model"@, name)->0 is Table
            &&& agree_outside(model, taken, set!["api_key"@])
            &&& taken.get("api_key"@) == if model.text("api_key"@) == Some(key) {
                None
            } else {
                model.get("api_key"@)
            }
        },
        node => part.at("model"@, name) == node,
    } by {
        assert(is_marked(bare, name) == is_marked(doc, name));
        assert(registered_source(bare, name) == registered_source(doc, name));
        assert(!is_managed(bare, name));
        assert(part.at("model"@, name) == rest.at("model"@, name));
        assert(rest.at("model"@, name) == bare.at("model"@, name));
        match doc.at("model"@, name) {
            Some(Node::Table(model)) => {
                lemma_agree_without(model, set!["api_key"@], set!["api_key"@]);
            },
            _ => {},
        }
    }
    assert(settings.member_text("config"@) == Some(toml_render(part)));
}

/// The key that an import puts into the settings is that of the default model,
/// whatever keys other models have and in whatever order they stand; or what its
/// variable holds, if it names one and has no key of its own.
pub proof fn law_import_moves_the_key_of_the_default_model(
    text: Seq<char>,
    doc: Group,
    env_value: Option<Seq<char>>,
    name: Seq<char>,
    key: Seq<char>,
)
    requires
        toml_parse(text) == Ok::<Group, Seq<char>>(doc),
        models(doc) is Some,
        doc.text_at("models"@, "default"@) == Some(name),
        own_key(doc, name) == Some(key) || (own_variable(doc, name) is Some && env_value == Some(key)),
        key.len() > 0,
        imported(text, env_value) is Ok,
    ensures
        imported(text, env_value)->Ok_0.member("auth"@) is Some,
        imported(text, env_value)->Ok_0.member("auth"@)->0.member_text("OPENAI_API_KEY"@) == Some(key),
{
    reveal_strlit("auth");
    reveal_strlit("config");
    assert("auth"@.len() == 4);
    assert("config"@.len() == 6);
    law_key_is_that_of_the_default_model(doc, env_value);
}

/// An import is refused if the text is no TOML, or has no model, each with its
/// own error; it is answered where the registry is a table or not there.
pub proof fn law_import_is_answered_or_refused(text: Seq<char>, env_value: Option<Seq<char>>)
    ensures
        toml_parse(text) is Err ==> imported(text, env_value) == Err::<Json, FaultView>(
            FaultView::Reported(AppErrorView::LiveTomlInvalid { detail: toml_parse(text)->Err_0 }),
        ),
        toml_parse(text) is Ok && toml_parse(text)->Ok_0.is_sound() && models(
            toml_parse(text)->Ok_0,
        ) is Some ==> {
            let doc = toml_parse(text)->Ok_0;
            let has_model = exists|name: Seq<char>|
                (#[trigger] doc.at("model"@, name)) is Some && doc.at("model"@, name)->0 is Table;
            &&& !has_model ==> imported(text, env_value) == Err::<Json, FaultView>(
                FaultView::Reported(AppErrorView::LiveModelMissing),
            )
            &&& has_model && can_register(doc) ==> imported(text, env_value) is Ok
        },
{
    if toml_parse(text) is Ok && toml_parse(text)->Ok_0.is_sound() && models(
        toml_parse(text)->Ok_0,
    ) is Some {
        lemma_names_differ();
        let doc = toml_parse(text)->Ok_0;
        let key = profile_key(doc, env_value);
        law_some_model_is_selected(doc);
        lemma_keyless(doc, key);
        assert(keyless(doc, key).get(MANAGED_REGISTRY_ROOT@) == doc.get(MANAGED_REGISTRY_ROOT@));
        if can_register(doc) {
            law_markers_can_be_moved_to_a_table(keyless(doc, key));
        }
    }
}

} // verus!
