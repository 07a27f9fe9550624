//! Taking a provider out of a configuration: importing its settings, and
//! undoing a takeover by the proxy.
use vstd::prelude::*;
use vstd::pervasive::unreached;
use vstd::string::*;
use toml_edit::{DocumentMut, Item};
use crate::edit::{item_text, lookup, lookup_text, put_at, put_fitting, remove_all_at, remove_at};
use crate::error::{reported, text_result, AppError, AppErrorView, Fault, FaultView};
use crate::json::{json_object, json_put, json_text, json_tree, Json};
use crate::patch::with_each_model;
use crate::registry::{
    collapsed, list_model_names, list_owned_managed_model_names, migrate_legacy_inline_markers,
    migrated, model_names, model_table, models, owned, remove_managed_registry_entries,
    without_entries,
};
use crate::routes::{
    remove_routes_to, remove_selection_of, without_routes_to, without_selection_of,
};
use crate::selection::{
    has_placeholder, model_group, model_has_placeholder, selected_model,
    selected_model_table,
};
use crate::text::{
    lemma_names_of_push, lemma_push_contains, lemma_take_set, names_of, opt_string,
};
use crate::toml::{
    document_get, document_put, document_tree, item_get, item_put, item_remove, item_tree,
    parse_document, render_document, toml_parse, toml_render,
};
use crate::tree::{
    first_where, is_partly_mapped, lemma_first_where_found, lemma_first_where_none,
    lemma_mapped_all, lemma_mapped_step, Group, Node,
};

verus! {

// ---------------------------------------------------------------- the model

/// The default model, if it stands under `[model.*]`.
pub open spec fn default_model(doc: Group) -> Option<Group> {
    match models(doc) {
        Some(models) => match doc.text_at("models"@, "default"@) {
            Some(name) => match models.get(name) {
                Some(Node::Table(model)) => Some(model),
                _ => None,
            },
            None => None,
        },
        None => None,
    }
}

/// The environment variable that holds the key of the default model: that model
/// has no key of its own, and names one.
pub open spec fn env_key(doc: Group) -> Option<Seq<char>> {
    match default_model(doc) {
        Some(model) => if model.text("api_key"@) is None {
            model.text("env_key"@)
        } else {
            None
        },
        None => None,
    }
}

/// The key of the default model, where `env_value` is what the environment
/// variable that it names holds.
pub open spec fn default_key(doc: Group, env_value: Option<Seq<char>>) -> Seq<char> {
    let own = match default_model(doc) {
        Some(model) => model.text("api_key"@),
        None => None,
    };
    match own {
        Some(key) => key,
        None => match env_key(doc) {
            Some(_) => match env_value {
                Some(value) => value,
                None => Seq::empty(),
            },
            None => Seq::empty(),
        },
    }
}

/// The model under that name has a key of its own.
pub open spec fn has_own_key(doc: Group, name: Seq<char>) -> bool {
    match model_group(doc, name) {
        Some(model) => model.text("api_key"@) is Some,
        None => false,
    }
}

/// The key that the models of a configuration share: that of the default model,
/// else the first that there is, else none.
pub open spec fn profile_key(doc: Group, env_value: Option<Seq<char>>) -> Seq<char> {
    if default_key(doc, env_value).len() > 0 {
        default_key(doc, env_value)
    } else {
        match first_where(model_names(doc), |name: Seq<char>| has_own_key(doc, name)) {
            Some(name) => model_group(doc, name)->0.text("api_key"@)->0,
            None => Seq::empty(),
        }
    }
}

/// The model without its key, if that is the given one.
pub open spec fn without_key(model: Group, key: Seq<char>) -> Group {
    if model.text("api_key"@) == Some(key) {
        model.without(set!["api_key"@])
    } else {
        model
    }
}

/// The configuration without the given key on any model.
pub open spec fn keyless(doc: Group, key: Seq<char>) -> Group {
    with_each_model(doc, |model: Group| without_key(model, key))
}

/// The configuration without some models, and without what refers to one: a
/// selection or a route.
pub open spec fn without_models(doc: Group, names: Set<Seq<char>>) -> Group {
    without_routes_to(
        without_selection_of(
            without_selection_of(doc.without_at("model"@, names), "default"@, names),
            "web_search"@,
            names,
        ),
        names,
    )
}

/// The configuration without anything that is kept for other providers.
pub open spec fn stripped(doc: Group) -> Option<Group> {
    match migrated(doc) {
        Some(doc) => Some(
            collapsed(without_entries(without_models(doc, owned(doc)), owned(doc))),
        ),
        None => None,
    }
}

/// The configuration with one field of another.
pub open spec fn with_field_of(to: Group, from: Group, section: Seq<char>, key: Seq<char>) -> Group {
    match from.at(section, key) {
        Some(node) => to.put_at(section, key, node)->0,
        None => to,
    }
}

/// The configuration with the routes of another.
pub open spec fn with_routes_of(to: Group, from: Group) -> Group {
    match from.at("subagents"@, "models"@) {
        Some(routes) => to.put_fitting("subagents"@, "models"@, routes)->0,
        None => to,
    }
}

/// What belongs to a provider: address, selection, routes and models.
pub open spec fn provider_part(doc: Group) -> Group {
    let selection = with_field_of(
        with_field_of(
            with_field_of(Group::empty(), doc, "endpoints"@, "models_base_url"@),
            doc,
            "models"@,
            "default"@,
        ),
        doc,
        "models"@,
        "web_search"@,
    );
    let routed = with_routes_of(selection, doc);
    match doc.get("model"@) {
        Some(node) => routed.put("model"@, node),
        None => routed,
    }
}

/// The settings of a provider.
pub open spec fn settings_json(key: Seq<char>, config: Seq<char>) -> Json {
    Json::Object(
        map![
            "auth"@ => Json::Object(map!["OPENAI_API_KEY"@ => Json::Text(key)]),
            "config"@ => Json::Text(config),
        ],
    )
}

/// The settings of the provider that a configuration is set to.
pub open spec fn imported(text: Seq<char>, env_value: Option<Seq<char>>) -> Result<Json, FaultView> {
    match toml_parse(text) {
        Ok(doc) => if selected_model(doc) is None {
            Err(FaultView::Reported(AppErrorView::LiveModelMissing))
        } else {
            let key = profile_key(doc, env_value);
            match stripped(keyless(doc, key)) {
                Some(tree) => Ok(settings_json(key, toml_render(provider_part(tree)))),
                None => Err(FaultView::NotATable),
            }
        },
        Err(detail) => Err(FaultView::Reported(AppErrorView::LiveTomlInvalid { detail })),
    }
}

/// The models that the proxy has taken over.
pub open spec fn taken_over(doc: Group) -> Set<Seq<char>> {
    Set::new(|name: Seq<char>| models(doc) is Some && has_placeholder(doc, name))
}

/// The configuration without what a takeover by the proxy has left in it.
pub open spec fn released(doc: Group) -> Group {
    if taken_over(doc) =~= Set::empty() {
        doc
    } else {
        without_models(doc, taken_over(doc)).without_at("endpoints"@, set!["models_base_url"@])
    }
}

/// The configuration text without what a takeover by the proxy has left in it.
pub open spec fn released_text(text: Seq<char>) -> Result<Seq<char>, AppErrorView> {
    match toml_parse(text) {
        Ok(doc) => Ok(toml_render(released(doc))),
        Err(detail) => Err(AppErrorView::LiveTomlInvalid { detail }),
    }
}

/// The model of some settings or the reason why there are none.
pub open spec fn settings_result(r: Result<serde_json::Value, AppError>) -> Result<Json, AppErrorView> {
    match r {
        Ok(settings) => Ok(json_tree(settings)),
        Err(error) => Err(error@),
    }
}

/// The model of some settings or the fault that prevented them.
pub open spec fn settings_outcome(r: Result<serde_json::Value, Fault>) -> Result<Json, FaultView> {
    match r {
        Ok(settings) => Ok(json_tree(settings)),
        Err(fault) => Err(fault@),
    }
}

// ------------------------------------------------------------------- the key

/// The default model, if it stands under `[model.*]`.
fn default_model_table(document: &DocumentMut) -> (r: Option<&Item>)
    ensures
        match r {
            Some(item) => default_model(document_tree(*document)) is Some && item_tree(*item)
                == Node::Table(default_model(document_tree(*document))->0),
            None => default_model(document_tree(*document)) is None,
        },
{
    match model_table(document) {
        Some(models) => match lookup_text(document, "models", "default") {
            Some(name) => match item_get(models, name) {
                Some(model) => if model.is_table() {
                    Some(model)
                } else {
                    None
                },
                None => None,
            },
            None => None,
        },
        None => None,
    }
}

/// The environment variable that holds the key of the default model.
pub fn document_env_key(document: &DocumentMut) -> (r: Option<String>)
    ensures
        opt_string(r) == env_key(document_tree(*document)),
{
    match default_model_table(document) {
        Some(model) => {
            if item_text(model, "api_key").is_some() {
                return None;
            }
            match item_text(model, "env_key") {
                Some(name) => Some(name.to_owned()),
                None => None,
            }
        },
        None => None,
    }
}

/// The environment variable whose value [`settings_from_config_text`] is to be
/// given, if it needs one.
pub fn profile_env_key(text: &str) -> (r: Option<String>)
    ensures
        opt_string(r) == match toml_parse(text@) {
            Ok(doc) => env_key(doc),
            Err(_) => None,
        },
{
    match parse_document(text) {
        Ok(document) => document_env_key(&document),
        Err(_) => None,
    }
}

/// The key of the default model.
fn read_default_key(document: &DocumentMut, env_value: &Option<String>) -> (r: String)
    ensures
        r@ == default_key(document_tree(*document), opt_string(*env_value)),
{
    let none = String::new();
    assert(none@ =~= Seq::empty());
    match default_model_table(document) {
        Some(model) => match item_text(model, "api_key") {
            Some(key) => key.to_owned(),
            None => match (item_text(model, "env_key"), env_value) {
                (Some(_), Some(value)) => value.as_str().to_owned(),
                _ => none,
            },
        },
        None => none,
    }
}

/// The key that the models of a configuration share.
pub fn shared_key(document: &DocumentMut, env_value: &Option<String>) -> (r: String)
    ensures
        r@ == profile_key(document_tree(*document), opt_string(*env_value)),
{
    let ghost doc = document_tree(*document);
    let key = read_default_key(document, env_value);
    if !key.as_str().is_empty() {
        return key;
    }
    let names = list_model_names(document);
    let ghost listed = names_of(names@);
    let ghost has_key = |name: Seq<char>| has_own_key(doc, name);
    let mut i: usize = 0;
    while i < names.len()
        invariant
            i <= names.len(),
            doc == document_tree(*document),
            default_key(doc, opt_string(*env_value)).len() == 0,
            listed == names_of(names@),
            listed == model_names(doc),
            has_key == (|name: Seq<char>| has_own_key(doc, name)),
            forall|j: int| 0 <= j < i ==> !has_key(#[trigger] listed[j]),
        decreases names.len() - i,
    {
        assert(listed[i as int] == names@[i as int]@);
        let found = match lookup(document, "model", names[i].as_str()) {
            Some(model) => if model.is_table() {
                item_text(model, "api_key")
            } else {
                None
            },
            None => None,
        };
        match found {
            Some(key) => {
                proof {
                    lemma_first_where_found(listed, has_key, i as int);
                }
                return key.to_owned();
            },
            None => {},
        }
        i += 1;
    }
    proof {
        lemma_first_where_none(listed, has_key);
    }
    let none = String::new();
    assert(none@ =~= Seq::empty());
    none
}

/// Removes the given key from each model that has it.
pub fn remove_key(document: &mut DocumentMut, key: &str)
    ensures
        document_tree(*final(document)) == keyless(document_tree(*old(document)), key@),
{
    let ghost doc = document_tree(*document);
    let ghost f = |model: Group| without_key(model, key@);
    let mut table = match model_table(document) {
        Some(table) => table.clone(),
        None => {
            return;
        },
    };
    let names = list_model_names(document);
    let ghost listed = names_of(names@);
    let ghost before = models(doc)->0;
    let mut i: usize = 0;
    while i < names.len()
        invariant
            i <= names.len(),
            f == (|model: Group| without_key(model, key@)),
            listed == names_of(names@),
            listed.no_duplicates(),
            forall|name: Seq<char>| #[trigger] listed.contains(name) <==> before.get(name) is Some,
            item_tree(table) is Table,
            is_partly_mapped(item_tree(table)->Table_0, before, f, listed.take(i as int).to_set()),
        decreases names.len() - i,
    {
        let name = names[i].as_str();
        let ghost done = listed.take(i as int).to_set();
        proof {
            assert(listed[i as int] == name@);
            assert(listed.contains(name@));
            assert(!done.contains(name@));
            lemma_mapped_step(item_tree(table)->Table_0, before, f, done, name@);
            lemma_take_set(listed, i as int);
        }
        let found = match item_get(&table, name) {
            Some(item) => if item.is_table() {
                Some(item.clone())
            } else {
                None
            },
            None => None,
        };
        match found {
            Some(model) => {
                let mut model = model;
                let same = match item_text(&model, "api_key") {
                    Some(own) => str::eq(own, key),
                    None => false,
                };
                if same {
                    item_remove(&mut model, "api_key");
                }
                item_put(&mut table, name, model);
            },
            None => {},
        }
        i += 1;
    }
    proof {
        assert(listed.take(i as int) =~= listed);
        assert forall|name: Seq<char>| before.get(name) is Some implies #[trigger] listed.to_set().contains(
            name,
        ) by {
            assert(listed.contains(name));
        }
        lemma_mapped_all(item_tree(table)->Table_0, before, f, listed.to_set());
    }
    document_put(document, "model", table);
}

// ----------------------------------------------------------------- importing

/// Removes some models, and what refers to one.
fn remove_models(document: &mut DocumentMut, names: &Vec<String>)
    ensures
        document_tree(*final(document)) == without_models(
            document_tree(*old(document)),
            names_of(names@).to_set(),
        ),
{
    remove_all_at(document, "model", names);
    remove_selection_of(document, "default", names);
    remove_selection_of(document, "web_search", names);
    remove_routes_to(document, names);
}

/// Removes everything that is kept for other providers: the models, what refers
/// to one, and the registry. Where the registry cannot be written, the answer
/// is `false`.
pub fn strip_managed_models_from_doc(document: &mut DocumentMut) -> (r: bool)
    ensures
        match stripped(document_tree(*old(document))) {
            Some(tree) => r && document_tree(*final(document)) == tree,
            None => !r,
        },
{
    if !migrate_legacy_inline_markers(document) {
        return false;
    }
    let names = list_owned_managed_model_names(document);
    remove_models(document, &names);
    remove_managed_registry_entries(document, &names);
    true
}

/// Every field that holds something is a table.
spec fn only_tables(doc: Group) -> bool {
    forall|name: Seq<char>| #[trigger] doc.get(name) is Some ==> doc.get(name)->0.is_table_like()
}

/// Writing a field of a section keeps a document of tables one.
proof fn lemma_only_tables(
    doc: Group,
    section: Seq<char>,
    fresh: Node,
    name: Seq<char>,
    node: Node,
)
    requires
        only_tables(doc),
        fresh.is_table_like(),
    ensures
        doc.put_in(section, fresh, name, node) is Some,
        only_tables(doc.put_in(section, fresh, name, node)->0),
{
    let after = doc.put_in(section, fresh, name, node)->0;
    assert forall|n: Seq<char>| #[trigger] after.get(n) is Some implies after.get(
        n,
    )->0.is_table_like() by {
        if n != section {
            assert(after.get(n) == doc.get(n));
        }
    }
}

/// Copies one field of another configuration.
fn copy_field(to: &mut DocumentMut, from: &DocumentMut, section: &str, key: &str)
    requires
        only_tables(document_tree(*old(to))),
    ensures
        document_tree(*final(to)) == with_field_of(
            document_tree(*old(to)),
            document_tree(*from),
            section@,
            key@,
        ),
        only_tables(document_tree(*final(to))),
{
    match lookup(from, section, key) {
        Some(item) => {
            proof {
                lemma_only_tables(
                    document_tree(*to),
                    section@,
                    Node::fresh_inline(),
                    key@,
                    item_tree(*item),
                );
            }
            put_at(to, section, key, item.clone());
        },
        None => {},
    }
}

/// Copies the routes of another configuration.
fn copy_routes(to: &mut DocumentMut, from: &DocumentMut)
    requires
        only_tables(document_tree(*old(to))),
    ensures
        document_tree(*final(to)) == with_routes_of(
            document_tree(*old(to)),
            document_tree(*from),
        ),
{
    match lookup(from, "subagents", "models") {
        Some(item) => {
            proof {
                lemma_only_tables(
                    document_tree(*to),
                    "subagents"@,
                    item_tree(*item).fitting_section(),
                    "models"@,
                    item_tree(*item),
                );
            }
            put_fitting(to, "subagents", "models", item.clone());
        },
        None => {},
    }
}

/// What belongs to a provider: address, selection, routes and models.
pub fn provider_part_of(document: &DocumentMut) -> (r: DocumentMut)
    ensures
        document_tree(r) == provider_part(document_tree(*document)),
{
    let mut part = DocumentMut::new();
    copy_field(&mut part, document, "endpoints", "models_base_url");
    copy_field(&mut part, document, "models", "default");
    copy_field(&mut part, document, "models", "web_search");
    copy_routes(&mut part, document);
    match document_get(document, "model") {
        Some(models) => {
            document_put(&mut part, "model", models.clone());
        },
        None => {},
    }
    part
}

/// The settings of a provider.
fn make_settings(key: String, config: String) -> (r: serde_json::Value)
    ensures
        json_tree(r) == settings_json(key@, config@),
{
    let mut auth = json_object();
    json_put(&mut auth, "OPENAI_API_KEY", json_text(key));
    let mut settings = json_object();
    json_put(&mut settings, "auth", auth);
    json_put(&mut settings, "config", json_text(config));
    proof {
        let members = json_tree(settings)->Object_0;
        assert(json_tree(auth)->Object_0 =~= map!["OPENAI_API_KEY"@ => Json::Text(key@)]);
        assert(members =~= settings_json(key@, config@)->Object_0);
    }
    settings
}

/// The outcome of [`settings_from_config_text`], or the fault that it has no
/// answer for.
pub(crate) fn import_outcome(text: &str, env_value: &Option<String>) -> (r: Result<
    serde_json::Value,
    Fault,
>)
    ensures
        settings_outcome(r) == imported(text@, opt_string(*env_value)),
        toml_parse(text@) is Ok ==> toml_parse(text@)->Ok_0.is_sound(),
{
    let mut document = match parse_document(text) {
        Ok(document) => document,
        Err(detail) => {
            return Err(Fault::Reported(AppError::LiveTomlInvalid { detail }));
        },
    };
    if selected_model_table(&document).is_none() {
        return Err(Fault::Reported(AppError::LiveModelMissing));
    }
    let key = shared_key(&document, env_value);
    remove_key(&mut document, key.as_str());
    if !strip_managed_models_from_doc(&mut document) {
        return Err(Fault::NotATable);
    }
    let part = provider_part_of(&document);
    Ok(make_settings(key, render_document(&part)))
}

/// The settings `{ auth, config }` of the provider that a configuration is set
/// to. The key that its models share moves to `auth`; what is kept for other
/// providers stays out.
///
/// `env_value` is what the environment variable holds that
/// [`profile_env_key`] names.
pub fn settings_from_config_text(text: &str, env_value: Option<String>) -> (r: Result<
    serde_json::Value,
    AppError,
>)
    requires
        imported(text@, opt_string(env_value)) != Err::<Json, FaultView>(FaultView::NotATable),
    ensures
        settings_result(r) == reported(imported(text@, opt_string(env_value))),
        toml_parse(text@) is Ok ==> toml_parse(text@)->Ok_0.is_sound(),
{
    match import_outcome(text, &env_value) {
        Ok(settings) => Ok(settings),
        Err(Fault::Reported(error)) => Err(error),
        Err(Fault::NotATable) => unreached(),
    }
}

/// [`settings_from_config_text`] where it has an answer; `None` where a field
/// would have to be written under a name that holds something other than a
/// table.
pub fn checked_settings_from_config_text(text: &str, env_value: Option<String>) -> (r: Option<
    Result<serde_json::Value, AppError>,
>)
    ensures
        match r {
            Some(answer) => imported(text@, opt_string(env_value)) != Err::<Json, FaultView>(
                FaultView::NotATable,
            ) && settings_result(answer) == reported(imported(text@, opt_string(env_value))),
            None => imported(text@, opt_string(env_value)) == Err::<Json, FaultView>(
                FaultView::NotATable,
            ),
        },
{
    match import_outcome(text, &env_value) {
        Err(Fault::NotATable) => None,
        _ => Some(settings_from_config_text(text, env_value)),
    }
}

// ----------------------------------------------------------------- releasing

/// The models that the proxy has taken over.
fn list_taken_over(document: &DocumentMut) -> (r: Vec<String>)
    ensures
        names_of(r@).to_set() == taken_over(document_tree(*document)),
{
    let ghost doc = document_tree(*document);
    let names = list_model_names(document);
    let ghost listed = names_of(names@);
    let mut found: Vec<String> = Vec::new();
    let mut i: usize = 0;
    while i < names.len()
        invariant
            i <= names.len(),
            doc == document_tree(*document),
            listed == names_of(names@),
            forall|name: Seq<char>| #[trigger]
                names_of(found@).contains(name) <==> listed.take(i as int).contains(name)
                    && has_placeholder(doc, name),
        decreases names.len() - i,
    {
        let name = names[i].as_str();
        let ghost before = names_of(found@);
        proof {
            assert(listed.take(i + 1) =~= listed.take(i as int).push(name@));
        }
        if model_has_placeholder(document, name) {
            let copy = name.to_owned();
            proof {
                lemma_names_of_push(found@, copy);
            }
            found.push(copy);
        }
        proof {
            assert forall|n: Seq<char>| #[trigger]
                names_of(found@).contains(n) <==> listed.take(i + 1).contains(n) && has_placeholder(
                    doc,
                    n,
                ) by {
                lemma_push_contains(listed.take(i as int), name@, n);
                lemma_push_contains(before, name@, n);
            }
        }
        i += 1;
    }
    proof {
        assert(listed.take(i as int) =~= listed);
        assert forall|name: Seq<char>| taken_over(doc).contains(name) implies #[trigger] listed.contains(
            name,
        ) by {
            assert(has_placeholder(doc, name));
        }
        assert(names_of(found@).to_set() =~= taken_over(doc));
    }
    found
}

/// Removes what a takeover by the proxy has left: the models with the
/// placeholder, what refers to one, and the address of the proxy.
pub fn release_document(document: &mut DocumentMut)
    ensures
        document_tree(*final(document)) == released(document_tree(*old(document))),
{
    let names = list_taken_over(document);
    if names.len() == 0 {
        proof {
            assert(names_of(names@) =~= Seq::empty());
            assert(names_of(names@).to_set() =~= Set::empty());
        }
        return;
    }
    proof {
        assert(names_of(names@)[0] == names@[0]@);
        assert(names_of(names@).to_set().contains(names@[0]@));
    }
    remove_models(document, &names);
    remove_at(document, "endpoints", "models_base_url");
}

/// Removes what a takeover by the proxy has left in a configuration. One that
/// is not taken over stays as it is.
pub fn cleanup_takeover_config_text(text: &str) -> (r: Result<String, AppError>)
    ensures
        text_result(r) == released_text(text@),
        toml_parse(text@) is Ok ==> toml_parse(text@)->Ok_0.is_sound(),
{
    match parse_document(text) {
        Ok(document) => {
            let mut document = document;
            release_document(&mut document);
            Ok(render_document(&document))
        },
        Err(detail) => Err(AppError::LiveTomlInvalid { detail }),
    }
}

} // verus!
