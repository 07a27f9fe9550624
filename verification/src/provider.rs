//! Providers, and the routes from the roles of subagents to models.
use vstd::prelude::*;
use crate::json::{json_tree, Json};
use crate::text::opt_string;

verus! {

/// Where a role of a subagent is routed to.
#[derive(Clone, Debug)]
pub struct GrokSubagentRoute {
    /// The provider that defines the model; the active one where it is not given.
    pub provider_id: Option<String>,
    /// The model, by its name in the configuration of that provider.
    pub model_id: String,
}

/// What is known of a provider beside its settings.
#[derive(Clone, Debug)]
pub struct ProviderMeta {
    /// The format that the provider speaks.
    pub api_format: Option<String>,
    /// The routes, by role, in the order in which they are to be followed.
    pub grok_subagent_routes: Vec<(String, GrokSubagentRoute)>,
}

/// A provider of models.
#[derive(Debug)]
pub struct Provider {
    pub id: String,
    pub name: String,
    /// `{ auth, config }`: the keys, and the configuration text.
    pub settings_config: serde_json::Value,
    pub website_url: Option<String>,
    pub category: Option<String>,
    pub meta: Option<ProviderMeta>,
}

/// The model of a route.
pub struct RouteView {
    pub role: Seq<char>,
    pub provider_id: Option<Seq<char>>,
    pub model_id: Seq<char>,
}

/// The model of a [`Provider`]. One without metadata has no format and no routes.
pub struct ProviderView {
    pub id: Seq<char>,
    pub name: Seq<char>,
    pub settings: Json,
    pub website_url: Option<Seq<char>>,
    pub category: Option<Seq<char>>,
    pub api_format: Option<Seq<char>>,
    pub routes: Seq<RouteView>,
}

/// The model of one entry of the list of routes.
pub open spec fn route_view(entry: (String, GrokSubagentRoute)) -> RouteView {
    RouteView {
        role: entry.0@,
        provider_id: opt_string(entry.1.provider_id),
        model_id: entry.1.model_id@,
    }
}

/// The model of the list of routes.
pub open spec fn routes_view(routes: Seq<(String, GrokSubagentRoute)>) -> Seq<RouteView> {
    routes.map_values(|entry: (String, GrokSubagentRoute)| route_view(entry))
}

impl View for Provider {
    type V = ProviderView;

    open spec fn view(&self) -> ProviderView {
        ProviderView {
            id: self.id@,
            name: self.name@,
            settings: json_tree(self.settings_config),
            website_url: opt_string(self.website_url),
            category: opt_string(self.category),
            api_format: match self.meta {
                Some(meta) => opt_string(meta.api_format),
                None => None,
            },
            routes: match self.meta {
                Some(meta) => routes_view(meta.grok_subagent_routes@),
                None => Seq::empty(),
            },
        }
    }
}

impl Default for ProviderMeta {
    fn default() -> (r: ProviderMeta)
        ensures
            r.api_format is None,
            r.grok_subagent_routes@.len() == 0,
    {
        ProviderMeta { api_format: None, grok_subagent_routes: Vec::new() }
    }
}

impl Provider {
    /// A provider without category and metadata.
    pub fn with_id(
        id: String,
        name: String,
        settings_config: serde_json::Value,
        website_url: Option<String>,
    ) -> (r: Provider)
        ensures
            r.id == id,
            r.name == name,
            r.settings_config == settings_config,
            r.website_url == website_url,
            r.category is None,
            r.meta is None,
    {
        Provider { id, name, settings_config, website_url, category: None, meta: None }
    }

    /// Whether the provider is the official account.
    pub fn is_official(&self) -> (r: bool)
        ensures
            r == self@.is_official(),
    {
        match &self.category {
            Some(category) => str::eq(category.as_str(), "official"),
            None => false,
        }
    }
}

impl ProviderView {
    /// Whether the provider is the official account.
    pub open spec fn is_official(self) -> bool {
        self.category == Some("official"@)
    }
}

/// A map of `indexmap`.
#[verifier::external_type_specification]
#[verifier::external_body]
#[verifier::reject_recursive_types(K)]
#[verifier::reject_recursive_types(V)]
#[verifier::reject_recursive_types(S)]
pub struct ExIndexMap<K, V, S>(indexmap::IndexMap<K, V, S>);

/// Providers by identifier.
pub type ProviderMap = Map<Seq<char>, ProviderView>;

/// The providers that a map holds.
pub uninterp spec fn provider_map(providers: indexmap::IndexMap<String, Provider>) -> ProviderMap;

/// `IndexMap::new`: the map without providers.
#[verifier::external_body]
pub(crate) fn no_providers() -> (r: indexmap::IndexMap<String, Provider>)
    ensures
        provider_map(r) == ProviderMap::empty(),
{
    indexmap::IndexMap::new()
}

/// `IndexMap::get`: the provider that is kept under the identifier.
#[verifier::external_body]
pub(crate) fn find_provider<'a>(
    providers: &'a indexmap::IndexMap<String, Provider>,
    id: &str,
) -> (r: Option<&'a Provider>)
    ensures
        match r {
            Some(provider) => provider_map(*providers).contains_key(id@) && provider_map(
                *providers,
            )[id@] == provider@,
            None => !provider_map(*providers).contains_key(id@),
        },
{
    providers.get(id)
}

} // verus!
