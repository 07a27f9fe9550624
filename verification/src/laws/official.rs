//! What switching to the official account gives, from text to text.
use vstd::prelude::*;
use crate::error::{AppErrorView, FaultView};
use crate::laws::cleanup::route_of;
use crate::laws::frame::agree_outside;
use crate::laws::outside::{
    law_routing_clears_a_role_only_with_its_copy, law_routing_spares_the_models_of_the_user,
    law_routing_touches_nothing_else, models_can_be_listed, registry_is_spared,
};
use crate::laws::patch::{law_official_patch_touches_nothing_else, patched_sections};
use crate::laws::registry::{law_sound_documents_have_sound_tables, registry_is_sound};
use crate::laws::routes::{law_other_roles_lose_only_copies_that_are_gone, routed_sections};
use crate::laws::switch::{
    copies_are_as_asked, is_unnamed, law_routing_leaves_the_copies_that_are_asked_for, reads_as,
};
use crate::patch::{patched_official, patched_text, Overrides};
use crate::profile::official;
use crate::provider::{ProviderMap, ProviderView};
use crate::registry::{is_managed, is_taken, MANAGED_REGISTRY_ROOT};
use crate::routes::routed;
use crate::toml::{toml_parse, toml_render};
use crate::tree::Group;

verus! {

/// The official account has no address and no key that could be replaced.
pub proof fn law_official_account_takes_no_address_and_no_key(
    existing: Seq<char>,
    live: Group,
    provider: ProviderView,
    all: ProviderMap,
    over: Overrides,
)
    requires
        reads_as(existing, live),
        provider.category == Some("official"@),
        over.base_url is Some || over.api_key is Some,
    ensures
        patched_text(existing, provider, all, over) == Err::<Seq<char>, FaultView>(
            FaultView::Reported(AppErrorView::OfficialProxyUnsupported),
        ),
{
}

/// Where the text without address and selection does not read as TOML any more,
/// that is reported.
pub proof fn law_official_switch_reports_a_text_that_does_not_read(
    existing: Seq<char>,
    live: Group,
    provider: ProviderView,
    all: ProviderMap,
    over: Overrides,
)
    requires
        reads_as(existing, live),
        provider.category == Some("official"@),
        over.base_url is None,
        over.api_key is None,
        toml_parse(toml_render(official(live))) is Err,
    ensures
        patched_text(existing, provider, all, over) == Err::<Seq<char>, FaultView>(
            FaultView::Reported(
                AppErrorView::ExistingTomlInvalid {
                    detail: toml_parse(toml_render(official(live)))->Err_0,
                },
            ),
        ),
{
}

/// Switching to the official account is nothing but following its routes in the
/// text without address and selection: the text that it gives is that of the
/// document which they give, and what they refuse it refuses.
pub proof fn law_official_switch_is_routing(
    existing: Seq<char>,
    live: Group,
    read: Group,
    provider: ProviderView,
    all: ProviderMap,
    over: Overrides,
)
    requires
        reads_as(existing, live),
        provider.category == Some("official"@),
        over.base_url is None,
        over.api_key is None,
        toml_parse(toml_render(official(live))) == Ok::<Group, Seq<char>>(read),
    ensures
        patched_text(existing, provider, all, over) == match routed(read, provider, all) {
            Ok(after) => Ok::<Seq<char>, FaultView>(toml_render(after)),
            Err(fault) => Err(fault),
        },
{
}

/// The document behind the text that switching to the official account gives.
proof fn lemma_official_tree(
    existing: Seq<char>,
    live: Group,
    read: Group,
    provider: ProviderView,
    all: ProviderMap,
    over: Overrides,
) -> (after: Group)
    requires
        reads_as(existing, live),
        toml_parse(toml_render(official(live))) == Ok::<Group, Seq<char>>(read),
        provider.category == Some("official"@),
        patched_text(existing, provider, all, over) is Ok,
    ensures
        patched_text(existing, provider, all, over) == Ok::<Seq<char>, FaultView>(toml_render(after)),
        patched_official(live, provider, all, over) == Ok::<Group, FaultView>(after),
        routed(read, provider, all) == Ok::<Group, FaultView>(after),
{
    routed(read, provider, all)->Ok_0
}

/// The routes of the official account are followed like those of any other, where
/// `read` is what the text without address and selection reads as. The copies
/// that are left are those that the routes ask for, none without routes; what
/// else was kept for another provider is gone, with the roles that pointed to it.
/// Every other model stays as it is, and so does every other role, and all else.
pub proof fn law_official_switch_leaves_the_copies_that_are_asked_for(
    existing: Seq<char>,
    live: Group,
    read: Group,
    provider: ProviderView,
    all: ProviderMap,
    over: Overrides,
)
    requires
        reads_as(existing, live),
        toml_parse(toml_render(official(live))) == Ok::<Group, Seq<char>>(read),
        read.is_sound(),
        provider.category == Some("official"@),
        models_can_be_listed(read),
        registry_is_sound(read) || provider.routes.len() == 0,
        patched_text(existing, provider, all, over) is Ok,
    ensures
        exists|after: Group|
            {
                &&& patched_text(existing, provider, all, over) == Ok::<Seq<char>, FaultView>(
                    #[trigger] toml_render(after),
                )
                &&& copies_are_as_asked(read, after, provider, all)
                &&& forall|name: Seq<char>|
                    read.at("model"@, name) is Some && !is_managed(read, name) ==> #[trigger] after.at(
                        "model"@,
                        name,
                    ) == read.at("model"@, name)
                &&& forall|role: Seq<char>|
                    is_unnamed(provider, role) && (provider.routes.len() == 0 || read.at(
                        "subagents"@,
                        "models"@,
                    ) is None || read.at("subagents"@, "models"@)->0 is Table) ==> #[trigger] route_of(
                        after,
                        role,
                    ) == match route_of(read, role) {
                        Some(route) => if route.text() is Some && is_managed(read, route.text()->0)
                            && after.at("model"@, route.text()->0) is None {
                            None
                        } else {
                            Some(route)
                        },
                        None => None,
                    }
                &&& agree_outside(read, after, routed_sections())
                &&& agree_outside(
                    read.section("models"@),
                    after.section("models"@),
                    set!["default"@, "web_search"@],
                )
                &&& agree_outside(
                    read.section("subagents"@),
                    after.section("subagents"@),
                    set!["models"@],
                )
                &&& registry_is_spared(read, after)
            },
{
    let after = lemma_official_tree(existing, live, read, provider, all, over);
    law_sound_documents_have_sound_tables(read);
    law_routing_leaves_the_copies_that_are_asked_for(read, provider, all);
    law_routing_touches_nothing_else(read, provider, all);
    assert forall|name: Seq<char>| read.at("model"@, name) is Some && !is_managed(
        read,
        name,
    ) implies #[trigger] after.at("model"@, name) == read.at("model"@, name) by {
        assert(is_taken(read, name));
        law_routing_spares_the_models_of_the_user(read, provider, all, name);
    }
    assert forall|role: Seq<char>|
        is_unnamed(provider, role) && (provider.routes.len() == 0 || read.at(
            "subagents"@,
            "models"@,
        ) is None || read.at("subagents"@, "models"@)->0 is Table) implies #[trigger] route_of(
        after,
        role,
    ) == match route_of(read, role) {
        Some(route) => if route.text() is Some && is_managed(read, route.text()->0) && after.at(
            "model"@,
            route.text()->0,
        ) is None {
            None
        } else {
            Some(route)
        },
        None => None,
    } by {
        if provider.routes.len() == 0 {
            law_routing_clears_a_role_only_with_its_copy(read, provider, all, role);
        } else {
            law_other_roles_lose_only_copies_that_are_gone(read, provider, all, role);
        }
    }
    assert(patched_text(existing, provider, all, over) == Ok::<Seq<char>, FaultView>(toml_render(after)));
}

/// Once the official account is switched to, there is no address and no
/// selection. Nothing else is touched but the models, the roles and the registry,
/// and the sections `lost` that the text without address and selection reads
/// otherwise than they were written.
pub proof fn law_official_switch_drops_address_and_selection(
    existing: Seq<char>,
    live: Group,
    read: Group,
    lost: Set<Seq<char>>,
    provider: ProviderView,
    all: ProviderMap,
    over: Overrides,
)
    requires
        reads_as(existing, live),
        toml_parse(toml_render(official(live))) == Ok::<Group, Seq<char>>(read),
        agree_outside(official(live), read, lost),
        provider.category == Some("official"@),
        patched_text(existing, provider, all, over) is Ok,
    ensures
        exists|after: Group|
            {
                &&& patched_text(existing, provider, all, over) == Ok::<Seq<char>, FaultView>(
                    #[trigger] toml_render(after),
                )
                &&& agree_outside(live, after, patched_sections().union(lost))
                &&& !lost.contains("endpoints"@) ==> {
                    &&& after.at("endpoints"@, "models_base_url"@) is None
                    &&& agree_outside(
                        live.section("endpoints"@),
                        after.section("endpoints"@),
                        set!["models_base_url"@],
                    )
                }
                &&& !lost.contains("models"@) ==> {
                    &&& after.at("models"@, "default"@) is None
                    &&& after.at("models"@, "web_search"@) is None
                    &&& agree_outside(
                        live.section("models"@),
                        after.section("models"@),
                        set!["default"@, "web_search"@],
                    )
                }
                &&& !lost.contains("subagents"@) ==> agree_outside(
                    live.section("subagents"@),
                    after.section("subagents"@),
                    set!["models"@],
                )
                &&& !lost.contains(MANAGED_REGISTRY_ROOT@) ==> registry_is_spared(live, after)
            },
{
    let after = lemma_official_tree(existing, live, read, provider, all, over);
    law_official_patch_touches_nothing_else(live, read, lost, provider, all, over);
    assert(patched_text(existing, provider, all, over) == Ok::<Seq<char>, FaultView>(toml_render(after)));
}

} // verus!
