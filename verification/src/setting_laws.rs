//! What holds of the settings as a whole: the models that a channel offers, and the setup that it runs under.
use crate::client::ClientV;
use crate::config::{channel_config, config_of, default_args, parsed_args, v1_root, ArgsV, ConfigV};
use crate::json::JsonV;
use crate::json_model::key_index_is;
use crate::messages::{credential_headers, get_headers_of, post_headers_of, TransportV};
use crate::profile::{
    catalog_selector, channel_of, model_catalog, role_slots, route, routes, slot_ids, ChannelV, Mode, ProfileV, SlotV,
};
use crate::provider_contracts::{
    catalog, chosen_contract, place_of_adapter, place_of_id, AuthScheme, ContractV,
};
use crate::text::{is_blank, is_space, trimmed, trimmed_start, unsigned_number, value_of, without_end};
use vstd::prelude::*;

verus! {

/// Whether a catalog offers a model under a name.
pub open spec fn offers(tree: JsonV, model_id: Seq<char>, name: Seq<char>) -> bool {
    tree.items_at("routes"@) matches Some(all) && exists|i: int|
        0 <= i < all.len() && (#[trigger] all[i]).text_at("upstream_model"@) == Some(model_id) && all[i].text_at(
            "display_name"@,
        ) == Some(name)
}

/// Whether a selector leads to a model, and to no other.
pub open spec fn leads_to(tree: JsonV, selector: Option<Seq<char>>, model_id: Seq<char>) -> bool {
    selector is Some && (tree.items_at("routes"@) matches Some(all) && (exists|i: int|
        0 <= i < all.len() && (#[trigger] all[i]).text_at("selector_id"@) == selector) && (forall|i: int|
        0 <= i < all.len() && (#[trigger] all[i]).text_at("selector_id"@) == selector ==> all[i].text_at(
            "upstream_model"@,
        ) == Some(model_id)))
}

proof fn routes_tell(slot: SlotV, selector_id: Seq<char>)
    ensures
        route(slot, selector_id).text_at("upstream_model"@) == Some(trimmed(slot.model_id)),
        route(slot, selector_id).text_at("selector_id"@) == Some(selector_id),
        route(slot, selector_id).text_at("display_name"@) == Some(
            if is_blank(slot.display_name) {
                trimmed(slot.model_id)
            } else {
                trimmed(slot.display_name)
            },
        ),
        route(slot, selector_id).get("supports_tools"@) == Some(JsonV::Bool(true)),
{
    reveal_strlit("selector_id");
    reveal_strlit("display_name");
    reveal_strlit("upstream_model");
    reveal_strlit("supports_tools");
    let entries = route(slot, selector_id)->Object_0;
    assert(entries.len() == 5);
    assert("selector_id"@.len() == 11 && "display_name"@.len() == 12 && "upstream_model"@.len() == 14);
    assert("supports_tools"@.len() == 14 && "supports_tools"@[0] == 's' && "upstream_model"@[0] == 'u');
    key_index_is(entries, "selector_id"@, 0);
    key_index_is(entries, "display_name"@, 1);
    key_index_is(entries, "upstream_model"@, 2);
    key_index_is(entries, "supports_tools"@, 3);
}

proof fn catalogs_tell(client: ClientV, channel: ChannelV, adapter: Seq<char>, catalog_fp: Seq<char>)
    ensures
        ({
            let tree = model_catalog(client, channel, adapter, catalog_fp);
            let slots = role_slots(channel);
            let bindings = tree.get("role_bindings"@);
            &&& tree.items_at("routes"@) == Some(routes(client, slots))
            &&& tree.text_at("adapter"@) == Some(adapter)
            &&& tree.text_at("catalog_fp"@) == Some(catalog_fp)
            &&& tree.text_at("default_selector_id"@) == Some(
                catalog_selector(client, slots, trimmed(channel.default_model.model_id)),
            )
            &&& bindings is Some
            &&& bindings.unwrap().text_at("sonnet"@) == Some(catalog_selector(client, slots, trimmed(slots[0].model_id)))
            &&& bindings.unwrap().text_at("opus"@) == Some(catalog_selector(client, slots, trimmed(slots[1].model_id)))
            &&& bindings.unwrap().text_at("haiku"@) == Some(catalog_selector(client, slots, trimmed(slots[2].model_id)))
            &&& bindings.unwrap().text_at("fable"@) == Some(catalog_selector(client, slots, trimmed(slots[3].model_id)))
        }),
{
    reveal_strlit("schema_version");
    reveal_strlit("adapter");
    reveal_strlit("catalog_fp");
    reveal_strlit("default_selector_id");
    reveal_strlit("routes");
    reveal_strlit("role_bindings");
    reveal_strlit("sonnet");
    reveal_strlit("opus");
    reveal_strlit("haiku");
    reveal_strlit("fable");
    let tree = model_catalog(client, channel, adapter, catalog_fp);
    let entries = tree->Object_0;
    assert(entries.len() == 7);
    assert("schema_version"@.len() == 14 && "adapter"@.len() == 7 && "catalog_fp"@.len() == 10);
    assert("default_selector_id"@.len() == 19 && "routes"@.len() == 6 && "role_bindings"@.len() == 13);
    key_index_is(entries, "adapter"@, 1);
    key_index_is(entries, "catalog_fp"@, 2);
    key_index_is(entries, "default_selector_id"@, 3);
    key_index_is(entries, "routes"@, 4);
    key_index_is(entries, "role_bindings"@, 5);
    let bound = tree.get("role_bindings"@).unwrap()->Object_0;
    assert(bound.len() == 4);
    assert("sonnet"@[0] == 's' && "opus"@[0] == 'o' && "haiku"@[0] == 'h' && "fable"@[0] == 'f');
    key_index_is(bound, "sonnet"@, 0);
    key_index_is(bound, "opus"@, 1);
    key_index_is(bound, "haiku"@, 2);
    key_index_is(bound, "fable"@, 3);
}

/// The route of the first slot with a model.
proof fn first_slots_have_routes(client: ClientV, slots: Seq<SlotV>, k: int)
    requires
        0 <= k < slots.len(),
        forall|j: int| 0 <= j < k ==> trimmed((#[trigger] slots[j]).model_id) != trimmed(slots[k].model_id),
    ensures
        exists|i: int|
            0 <= i < routes(client, slots).len() && #[trigger] routes(client, slots)[i] == route(
                slots[k],
                catalog_selector(client, slots.take(k + 1), trimmed(slots[k].model_id)),
            ),
    decreases slots.len(),
{
    let shorter = slots.drop_last();
    let meant = route(slots[k], catalog_selector(client, slots.take(k + 1), trimmed(slots[k].model_id)));
    if k < slots.len() - 1 {
        assert forall|j: int| 0 <= j < k implies trimmed((#[trigger] shorter[j]).model_id) != trimmed(shorter[k].model_id) by {
            assert(shorter[j] == slots[j]);
        }
        first_slots_have_routes(client, shorter, k);
        assert(shorter.take(k + 1) =~= slots.take(k + 1));
        let i = choose|i: int| 0 <= i < routes(client, shorter).len() && #[trigger] routes(client, shorter)[i] == meant;
        assert(routes(client, slots)[i] == meant);
    } else {
        let ids = slot_ids(shorter);
        if ids.contains(trimmed(slots[k].model_id)) {
            let j = choose|j: int| 0 <= j < ids.len() && ids[j] == trimmed(slots[k].model_id);
            assert(shorter[j] == slots[j]);
        }
        assert(slots.take(k + 1) =~= slots);
        assert(routes(client, slots)[routes(client, slots).len() - 1] == meant);
    }
}

/// Every model of a channel is offered under the name that the user gave it, and under its id where they
/// gave none. Where two slots have the same model, the name is that of the first.
pub proof fn models_are_shown_by_their_names(client: ClientV, channel: ChannelV, adapter: Seq<char>, catalog_fp: Seq<char>)
    ensures
        ({
            let tree = model_catalog(client, channel, adapter, catalog_fp);
            let own = |slot: SlotV| trimmed(slot.model_id);
            let shown = |slot: SlotV|
                if is_blank(slot.display_name) {
                    trimmed(slot.model_id)
                } else {
                    trimmed(slot.display_name)
                };
            let first = channel.default_model;
            let second = channel.quality_model;
            let third = channel.fast_model;
            let fourth = channel.fable_model;
            &&& offers(tree, own(first), shown(first))
            &&& !is_blank(second.model_id) && own(second) != own(first) ==> offers(tree, own(second), shown(second))
            &&& !is_blank(third.model_id) && own(third) != own(first) && (is_blank(second.model_id) || own(third) != own(second))
                ==> offers(tree, own(third), shown(third))
            &&& !is_blank(fourth.model_id) && own(fourth) != own(first) && (is_blank(second.model_id) || own(fourth) != own(
                second,
            )) && (is_blank(third.model_id) || own(fourth) != own(third)) ==> offers(tree, own(fourth), shown(fourth))
        }),
{
    let tree = model_catalog(client, channel, adapter, catalog_fp);
    let slots = role_slots(channel);
    catalogs_tell(client, channel, adapter, catalog_fp);
    assert(slots.len() == 4);
    slot_is_offered(client, channel, adapter, catalog_fp, 0);
    if trimmed(slots[1].model_id) != trimmed(slots[0].model_id) {
        slot_is_offered(client, channel, adapter, catalog_fp, 1);
    }
    if trimmed(slots[2].model_id) != trimmed(slots[0].model_id) && trimmed(slots[2].model_id) != trimmed(slots[1].model_id) {
        slot_is_offered(client, channel, adapter, catalog_fp, 2);
    }
    if trimmed(slots[3].model_id) != trimmed(slots[0].model_id) && trimmed(slots[3].model_id) != trimmed(slots[1].model_id)
        && trimmed(slots[3].model_id) != trimmed(slots[2].model_id) {
        slot_is_offered(client, channel, adapter, catalog_fp, 3);
    }
}

proof fn slot_is_offered(client: ClientV, channel: ChannelV, adapter: Seq<char>, catalog_fp: Seq<char>, k: int)
    requires
        0 <= k < 4,
        forall|j: int|
            0 <= j < k ==> trimmed((#[trigger] role_slots(channel)[j]).model_id) != trimmed(role_slots(channel)[k].model_id),
    ensures
        offers(
            model_catalog(client, channel, adapter, catalog_fp),
            trimmed(role_slots(channel)[k].model_id),
            if is_blank(role_slots(channel)[k].display_name) {
                trimmed(role_slots(channel)[k].model_id)
            } else {
                trimmed(role_slots(channel)[k].display_name)
            },
        ),
{
    let slots = role_slots(channel);
    let selector = catalog_selector(client, slots.take(k + 1), trimmed(slots[k].model_id));
    catalogs_tell(client, channel, adapter, catalog_fp);
    first_slots_have_routes(client, slots, k);
    routes_tell(slots[k], selector);
    let all = routes(client, slots);
    let i = choose|i: int| 0 <= i < all.len() && #[trigger] all[i] == route(slots[k], selector);
    assert(all[i].text_at("upstream_model"@) == Some(trimmed(slots[k].model_id)));
}

/// The selector that a role is bound to leads to the model of its slot, or to the default one where the slot
/// is empty; and the catalog's default is the default model.
pub proof fn roles_lead_to_their_models(client: ClientV, channel: ChannelV, adapter: Seq<char>, catalog_fp: Seq<char>)
    ensures
        ({
            let tree = model_catalog(client, channel, adapter, catalog_fp);
            let model = |slot: SlotV|
                if is_blank(slot.model_id) {
                    trimmed(channel.default_model.model_id)
                } else {
                    trimmed(slot.model_id)
                };
            let bound = tree.get("role_bindings"@);
            &&& leads_to(tree, tree.text_at("default_selector_id"@), trimmed(channel.default_model.model_id))
            &&& bound is Some
            &&& leads_to(tree, bound.unwrap().text_at("sonnet"@), trimmed(channel.default_model.model_id))
            &&& leads_to(tree, bound.unwrap().text_at("opus"@), model(channel.quality_model))
            &&& leads_to(tree, bound.unwrap().text_at("haiku"@), model(channel.fast_model))
            &&& leads_to(tree, bound.unwrap().text_at("fable"@), model(channel.fable_model))
            &&& tree.text_at("adapter"@) == Some(adapter)
            &&& tree.text_at("catalog_fp"@) == Some(catalog_fp)
        }),
{
    catalogs_tell(client, channel, adapter, catalog_fp);
    assert(role_slots(channel).len() == 4);
    role_leads(client, channel, adapter, catalog_fp, 0);
    role_leads(client, channel, adapter, catalog_fp, 1);
    role_leads(client, channel, adapter, catalog_fp, 2);
    role_leads(client, channel, adapter, catalog_fp, 3);
}

proof fn role_leads(client: ClientV, channel: ChannelV, adapter: Seq<char>, catalog_fp: Seq<char>, role: int)
    requires
        0 <= role < 4,
    ensures
        ({
            let id = trimmed(role_slots(channel)[role].model_id);
            leads_to(
                model_catalog(client, channel, adapter, catalog_fp),
                Some(catalog_selector(client, role_slots(channel), id)),
                id,
            )
        }),
{
    let slots = role_slots(channel);
    let all = routes(client, slots);
    let id = trimmed(slots[role].model_id);
    let wanted = Some(catalog_selector(client, slots, id));
    catalogs_tell(client, channel, adapter, catalog_fp);
    crate::profile::roles_are_bound_to_routes(client, channel, role);
    crate::profile::selectors_are_distinct(client, channel);
    let i = choose|i: int|
        0 <= i < all.len() && (#[trigger] all[i]).text_at("upstream_model"@) == Some(id) && all[i].text_at("selector_id"@)
            == wanted;
    assert forall|j: int| 0 <= j < all.len() && (#[trigger] all[j]).text_at("selector_id"@) == wanted implies all[j].text_at(
        "upstream_model"@,
    ) == Some(id) by {
        if j < i {
            assert(all[j].text_at("selector_id"@) != all[i].text_at("selector_id"@));
        } else if i < j {
            assert(all[i].text_at("selector_id"@) != all[j].text_at("selector_id"@));
        }
    }
}

/// Whether headers hold one value under a name, and no other.
pub open spec fn shows(headers: Seq<(Seq<char>, Seq<char>)>, name: Seq<char>, value: Seq<char>) -> bool {
    &&& exists|i: int| 0 <= i < headers.len() && #[trigger] headers[i] == (name, value)
    &&& forall|i: int| 0 <= i < headers.len() && (#[trigger] headers[i]).0 == name ==> headers[i].1 == value
}

/// Whether headers show a key as a scheme asks.
pub open spec fn shows_key(headers: Seq<(Seq<char>, Seq<char>)>, scheme: AuthScheme, key: Seq<char>) -> bool {
    match scheme {
        AuthScheme::Bearer => shows(headers, "authorization"@, "Bearer "@ + key),
        AuthScheme::AnthropicXApiKey => shows(headers, "x-api-key"@, key),
        AuthScheme::AnthropicDual => shows(headers, "x-api-key"@, key) && shows(
            headers,
            "authorization"@,
            "Bearer "@ + key,
        ),
        AuthScheme::CsswitchOauth => forall|i: int|
            0 <= i < headers.len() ==> (#[trigger] headers[i]).0 != "authorization"@ && headers[i].0 != "x-api-key"@,
    }
}

proof fn header_names_differ()
    ensures
        "authorization"@.len() == 13,
        "x-api-key"@.len() == 9,
        "content-type"@.len() == 12,
        "user-agent"@.len() == 10,
        "anthropic-version"@.len() == 17,
        "anthropic-beta"@.len() == 14,
        "x-app"@.len() == 5,
{
    reveal_strlit("authorization");
    reveal_strlit("x-api-key");
    reveal_strlit("content-type");
    reveal_strlit("user-agent");
    reveal_strlit("anthropic-version");
    reveal_strlit("anthropic-beta");
    reveal_strlit("x-app");
}

/// The headers of a request hold the key of the setup, as the scheme of its contract asks.
pub proof fn requests_show_the_key(config: ConfigV, transport: Option<TransportV>)
    requires
        config.provider_contract is Some,
        config.api_key is Some,
    ensures
        shows_key(post_headers_of(config, transport), config.provider_contract.unwrap().auth_scheme, config.api_key.unwrap()),
        shows_key(get_headers_of(config), config.provider_contract.unwrap().auth_scheme, config.api_key.unwrap()),
{
    header_names_differ();
    let scheme = config.provider_contract.unwrap().auth_scheme;
    let key = config.api_key.unwrap();
    let tail = credential_headers(scheme, key);
    let all = post_headers_of(config, transport);
    let few = get_headers_of(config);
    let a = all.len() - tail.len();
    let b = few.len() - tail.len();
    assert forall|i: int| 0 <= i < tail.len() implies #[trigger] all[a + i] == tail[i] && few[b + i] == tail[i] by {}
    if tail.len() > 0 {
        assert(all[a] == tail[0] && few[b] == tail[0]);
    }
    if tail.len() > 1 {
        assert(all[a + 1] == tail[1] && few[b + 1] == tail[1]);
    }
}

proof fn chosen_by_id(contracts: Seq<ContractV>, id: Seq<char>)
    ensures
        0 <= place_of_id(contracts, id) <= contracts.len(),
        place_of_id(contracts, id) < contracts.len() ==> contracts[place_of_id(contracts, id)].id == id,
    decreases contracts.len(),
{
    if contracts.len() > 0 && contracts[0].id != id {
        chosen_by_id(contracts.drop_first(), id);
    }
}

proof fn chosen_by_adapter(contracts: Seq<ContractV>, adapter: Seq<char>)
    ensures
        0 <= place_of_adapter(contracts, adapter) <= contracts.len(),
    decreases contracts.len(),
{
    if contracts.len() > 0 && contracts[0].adapter != adapter {
        chosen_by_adapter(contracts.drop_first(), adapter);
    }
}

/// The contract that is chosen is one of the catalog's, for the adapter that was asked for, and of the id that
/// was asked for where one was.
pub proof fn chosen_contracts_are_those_asked_for(
    text: Seq<char>,
    provider: Seq<char>,
    id: Option<Seq<char>>,
    digest: Option<Seq<char>>,
)
    ensures
        chosen_contract(text, provider, id, digest) matches Ok(runtime) ==> catalog(text) matches Ok(all) && {
            &&& id matches Some(wanted) ==> runtime.contract_id == wanted
            &&& digest matches Some(wanted) ==> runtime.catalog_digest == wanted
            &&& exists|i: int|
                0 <= i < all.len() && (#[trigger] all[i]).id == runtime.contract_id && all[i].adapter == provider
                    && all[i].auth_mode == runtime.auth_mode && all[i].api_key_env == runtime.api_key_env
                    && all[i].transport == runtime.transport && all[i].thinking_policy == runtime.thinking_policy
                    && all[i].endpoint_policy == runtime.endpoint_policy && all[i].connect_ms == runtime.connect_timeout_ms
                    && all[i].total_ms == runtime.request_timeout_ms && all[i].read_idle_ms == runtime.read_idle_timeout_ms
                    && all[i].normal_ttl_seconds == runtime.normal_ttl_seconds && all[i].stale_ttl_seconds
                    == runtime.stale_ttl_seconds && all[i].upstream_client_version == runtime.upstream_client_version && (
                all[i].auth_scheme == "bearer"@ ==> runtime.auth_scheme == AuthScheme::Bearer) && (all[i].auth_scheme
                    == "anthropic_x_api_key"@ ==> runtime.auth_scheme == AuthScheme::AnthropicXApiKey) && (all[i].auth_scheme
                    == "anthropic_dual"@ ==> runtime.auth_scheme == AuthScheme::AnthropicDual)
        },
{
    reveal_strlit("bearer");
    reveal_strlit("anthropic_x_api_key");
    reveal_strlit("anthropic_dual");
    reveal_strlit("csswitch_oauth");
    assert("bearer"@.len() == 6 && "anthropic_x_api_key"@.len() == 19 && "anthropic_dual"@.len() == 14);
    assert("anthropic_dual"@[0] == 'a' && "csswitch_oauth"@[0] == 'c');
    if let Ok(all) = catalog(text) {
        if let Some(wanted) = id {
            chosen_by_id(all, wanted);
        }
        chosen_by_adapter(all, provider);
        if let Ok(runtime) = chosen_contract(text, provider, id, digest) {
            let i = match id {
                Some(wanted) => place_of_id(all, wanted),
                None => place_of_adapter(all, provider),
            };
            assert(all[i].id == runtime.contract_id);
        }
    }
}

/// A setup of a channel is that of the mode that the user chose: its requests show the channel's own key, go
/// to the channel's own address, and follow the contract of the mode. There is none for official traffic.
pub proof fn channels_run_under_their_own_settings(
    profile: ProfileV,
    catalog_text: Seq<char>,
    web_search: bool,
    transport: Option<TransportV>,
)
    ensures
        profile.mode == Mode::Official ==> channel_config(profile, catalog_text, web_search) is Err,
        channel_config(profile, catalog_text, web_search) matches Ok(config) ==> {
            let channel = if profile.mode == Mode::Kimi {
                profile.kimi
            } else {
                profile.deepseek
            };
            let key = trimmed(channel.api_key);
            let base = without_end(trimmed(channel.base_url), '/');
            &&& config.provider_contract matches Some(contract) && {
                &&& contract.contract_id == (if profile.mode == Mode::Kimi {
                    "kimi-anthropic-relay"@
                } else {
                    "deepseek-native"@
                })
                &&& shows_key(post_headers_of(config, transport), contract.auth_scheme, key)
                &&& shows_key(get_headers_of(config), contract.auth_scheme, key)
                &&& config.relay_thinking == (if is_blank(contract.thinking_policy) {
                    None
                } else {
                    Some(trimmed(contract.thinking_policy))
                })
            }
            &&& !is_blank(channel.api_key)
            &&& !is_blank(channel.default_model.model_id)
            &&& config.port == profile.port
            &&& config.web_search == web_search
            &&& config.auth_secret is None
            &&& config.provider == (if profile.mode == Mode::Kimi {
                "relay"@
            } else {
                "deepseek"@
            })
            &&& !is_space(base.last()) && !"/messages"@.is_suffix_of(base) && !"/models"@.is_suffix_of(base)
                && !"/v1"@.is_suffix_of(base) ==> {
                &&& config.upstream_url == base + "/v1/messages"@
                &&& config.models_url == Some(base + "/v1/models"@)
            }
            &&& base.len() > 0 && "/v1"@.is_suffix_of(base) ==> {
                &&& config.upstream_url == base + "/messages"@
                &&& config.models_url == Some(base + "/models"@)
            }
        },
{
    if let Ok(config) = channel_config(profile, catalog_text, web_search) {
        let channel = channel_of(profile, profile.mode).unwrap();
        let (adapter, id) = profile.mode.contract_names().unwrap();
        let base = without_end(trimmed(channel.base_url), '/');
        chosen_contracts_are_those_asked_for(
            catalog_text,
            adapter,
            Some(id),
            Some(crate::provider_contracts::digest_of_catalog(catalog_text)),
        );
        requests_show_the_key(config, transport);
        bases_stay(channel.base_url);
        v1_ends(base);
        if !is_space(base.last()) {
            roots_of_plain_bases(base);
        }
    }
}

/// Taking white space and slashes off a second time takes nothing.
proof fn bases_stay(base: Seq<char>)
    ensures
        !is_space(without_end(trimmed(base), '/').last()) ==> without_end(
            trimmed(without_end(trimmed(base), '/')),
            '/',
        ) == without_end(trimmed(base), '/'),
{
    let t = trimmed(base);
    let b = without_end(t, '/');
    crate::text::trimmed_has_plain_ends(base);
    crate::text::ends_keep_the_start(t, '/');
    slash_ends(t);
    if b.len() > 0 && !is_space(b.last()) {
        assert(trimmed_start(b) == b);
        assert(trimmed(b) == b);
    } else if b.len() == 0 {
        assert(trimmed(b) == b);
    }
}

proof fn v1_ends(base: Seq<char>)
    ensures
        "/v1"@.is_suffix_of(base) ==> base.last() == '1' && !is_space(base.last()),
{
    reveal_strlit("/v1");
    if "/v1"@.is_suffix_of(base) {
        assert(base.subrange(base.len() - 3, base.len() as int)[2] == "/v1"@[2]);
    }
}

proof fn slash_ends(t: Seq<char>)
    ensures
        without_end(t, '/').len() > 0 ==> without_end(t, '/').last() != '/',
        without_end(without_end(t, '/'), '/') == without_end(t, '/'),
    decreases t.len(),
{
    if t.len() > 0 && t.last() == '/' {
        slash_ends(t.drop_last());
    }
}

proof fn roots_of_plain_bases(base: Seq<char>)
    requires
        without_end(trimmed(base), '/') == base,
    ensures
        !"/messages"@.is_suffix_of(base) && !"/models"@.is_suffix_of(base) && !"/v1"@.is_suffix_of(base) ==> v1_root(base)
            + "/messages"@ == base + "/v1/messages"@ && v1_root(base) + "/models"@ == base + "/v1/models"@,
        "/v1"@.is_suffix_of(base) ==> v1_root(base) == base,
{
    reveal_strlit("/messages");
    reveal_strlit("/models");
    reveal_strlit("/v1");
    reveal_strlit("/v1/messages");
    reveal_strlit("/v1/models");
    assert(base + "/v1"@ + "/messages"@ =~= base + "/v1/messages"@);
    assert(base + "/v1"@ + "/models"@ =~= base + "/v1/models"@);
    if "/v1"@.is_suffix_of(base) {
        v1_ends(base);
        assert("/messages"@.last() == 's' && "/models"@.last() == 's');
        if "/messages"@.is_suffix_of(base) {
            assert(base.subrange(base.len() - 9, base.len() as int)[8] == base.last());
        }
        if "/models"@.is_suffix_of(base) {
            assert(base.subrange(base.len() - 7, base.len() as int)[6] == base.last());
        }
    }
}

/// Whether an argument stands at a place, as a name, and nowhere behind it.
pub open spec fn is_asked_last(args: Seq<Seq<char>>, name: Seq<char>, i: int) -> bool {
    1 <= i < args.len() && i % 2 == 1 && args[i] == name && forall|j: int|
        i < j < args.len() && j % 2 == 1 ==> #[trigger] args[j] != name
}

/// Whether an argument is not among the names.
pub open spec fn is_not_asked(args: Seq<Seq<char>>, name: Seq<char>) -> bool {
    forall|j: int| 1 <= j < args.len() && j % 2 == 1 ==> #[trigger] args[j] != name
}

proof fn argument_names_differ()
    ensures
        "--provider"@ != "--port"@,
        "--provider"@ != "--auth-token"@,
        "--port"@ != "--auth-token"@,
{
    reveal_strlit("--provider");
    reveal_strlit("--port");
    reveal_strlit("--auth-token");
    assert("--provider"@.len() == 10 && "--port"@.len() == 6 && "--auth-token"@.len() == 12);
}

/// What the arguments from a place on come to, as the last of each name says it.
spec fn follows(args: Seq<Seq<char>>, at: int, so_far: ArgsV, out: ArgsV, i: int) -> bool {
    &&& i >= at && is_asked_last(args, "--provider"@, i) ==> i + 1 < args.len() && out.provider == args[i + 1]
    &&& i >= at && is_asked_last(args, "--port"@, i) ==> i + 1 < args.len() && out.port is Some && unsigned_number(
        args[i + 1],
        65_535,
    ) == Some(out.port.unwrap() as nat)
    &&& i >= at && is_asked_last(args, "--auth-token"@, i) ==> i + 1 < args.len() && out.auth_token == Some(args[i + 1])
}

proof fn arguments_from_a_place(args: Seq<Seq<char>>, at: int, so_far: ArgsV, i: int)
    requires
        at % 2 == 1,
        at >= 1,
    ensures
        parsed_args(args, at, so_far) matches Ok(out) ==> {
            &&& follows(args, at, so_far, out, i)
            &&& (forall|j: int| at <= j < args.len() && j % 2 == 1 ==> #[trigger] args[j] != "--provider"@) ==> out.provider
                == so_far.provider
            &&& (forall|j: int| at <= j < args.len() && j % 2 == 1 ==> #[trigger] args[j] != "--port"@) ==> out.port
                == so_far.port
            &&& (forall|j: int| at <= j < args.len() && j % 2 == 1 ==> #[trigger] args[j] != "--auth-token"@)
                ==> out.auth_token == so_far.auth_token
        },
    decreases args.len() - at,
{
    argument_names_differ();
    if at < args.len() && parsed_args(args, at, so_far) is Ok {
        let next = if args[at] == "--provider"@ {
            ArgsV { provider: args[at + 1], ..so_far }
        } else if args[at] == "--port"@ {
            ArgsV { port: Some(unsigned_number(args[at + 1], 65_535).unwrap() as u16), ..so_far }
        } else {
            ArgsV { auth_token: Some(args[at + 1]), ..so_far }
        };
        arguments_from_a_place(args, at + 2, next, i);
        if i > at && i % 2 == 1 {
            assert(i >= at + 2);
        }
    }
}

/// A gateway that starts does what its arguments and its environment say: it serves the provider and the port that
/// were asked for last, shows the key of the variable that its contract names, goes to the address of the environment,
/// and asks its clients for the secret of the environment, or else for that of the arguments.
pub proof fn gateways_follow_their_arguments(
    args: Seq<Seq<char>>,
    env: Seq<(Seq<char>, Seq<char>)>,
    catalog_text: Seq<char>,
    read: Result<Seq<char>, Seq<char>>,
    transport: Option<TransportV>,
)
    ensures
        config_of(args, env, catalog_text, read) matches Ok(config) ==> {
            &&& forall|i: int|
                #[trigger] is_asked_last(args, "--provider"@, i) ==> config.provider == args[i + 1]
            &&& is_not_asked(args, "--provider"@) ==> config.provider == "deepseek"@
            &&& forall|i: int|
                #[trigger] is_asked_last(args, "--port"@, i) ==> unsigned_number(args[i + 1], 65_535) == Some(config.port as nat)
            &&& !is_not_asked(args, "--port"@)
            &&& (value_of(env, "CSSWITCH_AUTH_TOKEN"@) matches Some(secret) ==> secret.len() > 0 ==> config.auth_secret
                == Some(secret))
            &&& value_of(env, "CSSWITCH_AUTH_TOKEN"@) is None ==> forall|i: int|
                #[trigger] is_asked_last(args, "--auth-token"@, i) && args[i + 1].len() > 0 ==> config.auth_secret == Some(args[i + 1])
            &&& value_of(env, "CSSWITCH_AUTH_TOKEN"@) is None && is_not_asked(args, "--auth-token"@) ==> config.auth_secret
                is None
            &&& config.provider_contract matches Some(contract) && {
                &&& value_of(env, "CSSWITCH_PROVIDER_CONTRACT_ID"@) matches Some(id) ==> contract.contract_id == id
                &&& contract.auth_mode == "api_key"@ ==> (contract.api_key_env matches Some(name) ==> value_of(env, name)
                    matches Some(key) && !is_blank(key) && shows_key(
                    post_headers_of(config, transport),
                    contract.auth_scheme,
                    trimmed(key),
                ) && shows_key(get_headers_of(config), contract.auth_scheme, trimmed(key)))
                &&& contract.endpoint_policy == "profile_required"@ && contract.transport == "anthropic_messages"@ ==> (
                value_of(env, "CSSWITCH_RELAY_BASE_URL"@) matches Some(address) && ({
                    let base = without_end(trimmed(address), '/');
                    &&& "http://"@.is_prefix_of(base) || "https://"@.is_prefix_of(base)
                    &&& (config.provider != "deepseek"@ || value_of(env, "CSSWITCH_UPSTREAM_URL"@) is None) && !is_space(
                        base.last(),
                    ) && !"/messages"@.is_suffix_of(base) && !"/models"@.is_suffix_of(base) && !"/v1"@.is_suffix_of(base)
                        ==> config.upstream_url == base + "/v1/messages"@ && config.models_url == Some(base + "/v1/models"@)
                }))
            }
            &&& config.web_search
        },
{
    argument_names_differ();
    arguments_from_a_place(args, 1, default_args(), 0);
    assert forall|i: int| parsed_args(args, 1, default_args()) is Ok implies #[trigger] follows(
        args,
        1,
        default_args(),
        parsed_args(args, 1, default_args())->Ok_0,
        i,
    ) by {
        arguments_from_a_place(args, 1, default_args(), i);
    }
    if let Ok(config) = config_of(args, env, catalog_text, read) {
        let id = value_of(env, "CSSWITCH_PROVIDER_CONTRACT_ID"@);
        let digest = value_of(env, "CSSWITCH_PROVIDER_CONTRACT_DIGEST"@);
        chosen_contracts_are_those_asked_for(catalog_text, config.provider, id, digest);
        if config.api_key is Some {
            requests_show_the_key(config, transport);
        }
        reveal_strlit("openai_chat");
        reveal_strlit("openai_responses");
        reveal_strlit("anthropic_messages");
        reveal_strlit("csswitch_oauth");
        reveal_strlit("none");
        reveal_strlit("api_key");
        assert("anthropic_messages"@.len() == 18 && "openai_chat"@.len() == 11 && "openai_responses"@.len() == 16);
        assert("csswitch_oauth"@.len() == 14 && "none"@.len() == 4 && "api_key"@.len() == 7);
        let out = parsed_args(args, 1, default_args())->Ok_0;
        assert forall|i: int| #[trigger] is_asked_last(args, "--provider"@, i) implies config.provider == args[i + 1] by {
            assert(follows(args, 1, default_args(), out, i));
        }
        assert forall|i: int| #[trigger] is_asked_last(args, "--port"@, i) implies unsigned_number(args[i + 1], 65_535)
            == Some(config.port as nat) by {
            assert(follows(args, 1, default_args(), out, i));
        }
        assert forall|i: int| #[trigger] is_asked_last(args, "--auth-token"@, i) implies out.auth_token == Some(args[i + 1]) by {
            assert(follows(args, 1, default_args(), out, i));
        }
        if let Some(address) = value_of(env, "CSSWITCH_RELAY_BASE_URL"@) {
            let base = without_end(trimmed(address), '/');
            bases_stay(address);
            v1_ends(base);
            if !is_space(base.last()) {
                roots_of_plain_bases(base);
            }
        }
    }
}

} // verus!
