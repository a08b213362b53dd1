//! What holds of the control interface as a whole.
use crate::client::ClientV;
use crate::control::{
    active_conversations, candidates_of, channel_tree, config_of, model_tree, model_trees, models_of, path_of, probe_of,
    response_of, route_of, slot_tree, status_tree, switch_of, RouteV, SlotEditV, SlotEditsV, StateV,
};
use crate::json::JsonV;
use crate::json_model::key_index_is;
use crate::profile::{ChannelV, Mode, ProfileV, SlotV};
use crate::text::{decimal, has_part, is_blank, stands_at, trimmed, without_end};
use crate::upstream_url::UrlPartsV;
use crate::wire::parted;
use vstd::prelude::*;
use vstd::utf8::encode_utf8;

verus! {

proof fn mode_names_differ()
    ensures
        "official"@[0] == 'o',
        "kimi"@[0] == 'k',
        "deepseek"@[0] == 'd',
        "official"@.len() == 8,
        "kimi"@.len() == 4,
        "deepseek"@.len() == 8,
{
    reveal_strlit("official");
    reveal_strlit("kimi");
    reveal_strlit("deepseek");
}

/// Whether a slot is the one that an edit makes of another.
pub open spec fn is_edited(new: SlotV, slot: SlotV, edit: SlotEditV) -> bool {
    match edit {
        SlotEditV::Keep => new == slot,
        SlotEditV::Slot(given) => new == given,
        SlotEditV::Fault(_) => false,
    }
}

pub open spec fn is_fault(edit: SlotEditV) -> bool {
    match edit {
        SlotEditV::Fault(_) => true,
        _ => false,
    }
}

/// Whether a channel is the one that a request makes of another: the address and the key that it gives, the slots
/// that it edits, and everything else as it was.
pub open spec fn is_saved(new: ChannelV, channel: ChannelV, payload: JsonV, edits: SlotEditsV) -> bool {
    &&& match payload.text_at("base_url"@) {
        Some(url) => new.base_url == trimmed(url),
        None => new.base_url == channel.base_url,
    }
    &&& match payload.text_at("api_key"@) {
        Some(key) => new.api_key == if is_blank(key) {
            channel.api_key
        } else {
            trimmed(key)
        },
        None => new.api_key == channel.api_key,
    }
    &&& is_edited(new.default_model, channel.default_model, edits.default_model)
    &&& is_edited(new.quality_model, channel.quality_model, edits.quality_model)
    &&& is_edited(new.fast_model, channel.fast_model, edits.fast_model)
    &&& is_edited(new.fable_model, channel.fable_model, edits.fable_model)
}

/// Settings are saved where a channel is named and the slots can be read, and then they are those that were given;
/// the other channel, the mode and the port stay.
pub proof fn settings_are_saved_as_given(payload: JsonV, edits: SlotEditsV, profile: ProfileV)
    ensures
        ({
            let name = payload.text_at("channel"@);
            let readable = !is_fault(edits.default_model) && !is_fault(edits.quality_model) && !is_fault(edits.fast_model)
                && !is_fault(edits.fable_model);
            &&& config_of(payload, edits, profile) is Ok <==> (name == Some("kimi"@) || name == Some("deepseek"@)) && readable
            &&& config_of(payload, edits, profile) matches Ok((new, reply)) ==> {
                &&& new.mode == profile.mode
                &&& new.port == profile.port
                &&& name == Some("kimi"@) ==> is_saved(new.kimi, profile.kimi, payload, edits) && new.deepseek
                    == profile.deepseek && reply.get("channel"@) == Some(channel_tree(new.kimi))
                &&& name == Some("deepseek"@) ==> is_saved(new.deepseek, profile.deepseek, payload, edits) && new.kimi
                    == profile.kimi && reply.get("channel"@) == Some(channel_tree(new.deepseek))
                &&& reply.get("ok"@) == Some(JsonV::Bool(true))
            }
        }),
{
    mode_names_differ();
    reveal_strlit("ok");
    reveal_strlit("channel");
    reveal_strlit("note");
    assert("ok"@.len() == 2 && "channel"@.len() == 7);
    if let Ok((new, reply)) = config_of(payload, edits, profile) {
        let entries = reply->Object_0;
        assert(entries.len() == 3);
        assert(entries[0].0 == "ok"@ && entries[1].0 == "channel"@);
        key_index_is(entries, "ok"@, 0);
        key_index_is(entries, "channel"@, 1);
    }
}

/// Whether a tree tells a slot.
pub open spec fn tells_slot(tree: Option<JsonV>, slot: SlotV) -> bool {
    tree matches Some(told) && told.text_at("model_id"@) == Some(slot.model_id) && told.text_at("display_name"@) == Some(
        slot.display_name,
    )
}

proof fn slots_are_told(slot: SlotV)
    ensures
        tells_slot(Some(slot_tree(slot)), slot),
{
    reveal_strlit("model_id");
    reveal_strlit("display_name");
    assert("model_id"@.len() == 8 && "display_name"@.len() == 12);
    let entries = slot_tree(slot)->Object_0;
    assert(entries.len() == 2);
    assert(entries[0].0 == "model_id"@ && entries[1].0 == "display_name"@);
    key_index_is(entries, "model_id"@, 0);
    key_index_is(entries, "display_name"@, 1);
}

/// What is told of a channel: its address, whether it has a key, its models, and whether it can be used, which takes
/// a web address, a default model and a key.
pub proof fn channels_are_told(channel: ChannelV)
    ensures
        ({
            let tree = channel_tree(channel);
            &&& tree.text_at("base_url"@) == Some(channel.base_url)
            &&& tree.get("has_api_key"@) == Some(JsonV::Bool(!is_blank(channel.api_key)))
            &&& tells_slot(tree.get("default_model"@), channel.default_model)
            &&& tells_slot(tree.get("quality_model"@), channel.quality_model)
            &&& tells_slot(tree.get("fast_model"@), channel.fast_model)
            &&& tells_slot(tree.get("fable_model"@), channel.fable_model)
            &&& tree.get("ready"@) == Some(
                JsonV::Bool(
                    ("http://"@.is_prefix_of(channel.base_url) || "https://"@.is_prefix_of(channel.base_url)) && !is_blank(
                        channel.default_model.model_id,
                    ) && !is_blank(channel.api_key),
                ),
            )
        }),
{
    reveal_strlit("base_url");
    reveal_strlit("has_api_key");
    reveal_strlit("default_model");
    reveal_strlit("quality_model");
    reveal_strlit("fast_model");
    reveal_strlit("fable_model");
    reveal_strlit("ready");
    assert("base_url"@.len() == 8 && "has_api_key"@.len() == 11 && "default_model"@.len() == 13 && "quality_model"@.len()
        == 13);
    assert("fast_model"@.len() == 10 && "fable_model"@.len() == 11 && "ready"@.len() == 5);
    assert("default_model"@[0] == 'd' && "quality_model"@[0] == 'q' && "has_api_key"@[0] == 'h' && "fable_model"@[0] == 'f');
    slots_are_told(channel.default_model);
    slots_are_told(channel.quality_model);
    slots_are_told(channel.fast_model);
    slots_are_told(channel.fable_model);
    let entries = channel_tree(channel)->Object_0;
    assert(entries.len() == 7);
    assert(entries[0].0 == "base_url"@ && entries[1].0 == "has_api_key"@ && entries[2].0 == "default_model"@);
    assert(entries[3].0 == "quality_model"@ && entries[4].0 == "fast_model"@ && entries[5].0 == "fable_model"@);
    assert(entries[6].0 == "ready"@);
    key_index_is(entries, "base_url"@, 0);
    key_index_is(entries, "has_api_key"@, 1);
    key_index_is(entries, "default_model"@, 2);
    key_index_is(entries, "quality_model"@, 3);
    key_index_is(entries, "fast_model"@, 4);
    key_index_is(entries, "fable_model"@, 5);
    key_index_is(entries, "ready"@, 6);
}

/// The status tells the mode, the port, what is known of the daemon, and both channels, each as its own.
pub proof fn the_status_is_told(client: ClientV, state: StateV, science: JsonV)
    ensures
        ({
            let tree = status_tree(client, state, science);
            &&& tree.text_at("mode"@) == Some(
                match state.profile.mode {
                    Mode::Official => "official"@,
                    Mode::Kimi => "kimi"@,
                    Mode::Deepseek => "deepseek"@,
                },
            )
            &&& tree.unsigned_at("port"@) == Some(state.port as u64)
            &&& tree.text_at("base_url"@) == Some("http://127.0.0.1:"@ + decimal(state.port as nat))
            &&& tree.get("science"@) == Some(science)
            &&& tree.get("channels"@) matches Some(channels) && channels.get("kimi"@) == Some(channel_tree(state.profile.kimi))
                && channels.get("deepseek"@) == Some(channel_tree(state.profile.deepseek))
        }),
{
    reveal_strlit("mode");
    reveal_strlit("mode_label");
    reveal_strlit("port");
    reveal_strlit("base_url");
    reveal_strlit("science");
    reveal_strlit("channels");
    mode_names_differ();
    assert("mode"@.len() == 4 && "port"@.len() == 4 && "mode"@[0] == 'm' && "port"@[0] == 'p' && "mode_label"@.len() == 10);
    assert("base_url"@.len() == 8 && "science"@.len() == 7 && "channels"@.len() == 8 && "base_url"@[0] == 'b'
        && "channels"@[0] == 'c');
    let tree = status_tree(client, state, science);
    let entries = tree->Object_0;
    assert(entries.len() == 6);
    assert(entries[0].0 == "mode"@ && entries[1].0 == "mode_label"@ && entries[2].0 == "port"@);
    assert(entries[3].0 == "base_url"@ && entries[4].0 == "science"@ && entries[5].0 == "channels"@);
    key_index_is(entries, "mode"@, 0);
    key_index_is(entries, "port"@, 2);
    key_index_is(entries, "base_url"@, 3);
    key_index_is(entries, "science"@, 4);
    key_index_is(entries, "channels"@, 5);
    let channels = entries[5].1->Object_0;
    assert(channels.len() == 2);
    assert(channels[0].0 == "kimi"@ && channels[1].0 == "deepseek"@);
    key_index_is(channels, "kimi"@, 0);
    key_index_is(channels, "deepseek"@, 1);
}

/// A change of mode is made where the mode is named, its channel can be used, and no conversation is broken off
/// without force. It sets that mode, leaves every other setting, and restarts a daemon that runs.
pub proof fn modes_are_switched_as_asked(payload: JsonV, profile: ProfileV, science: JsonV)
    ensures
        ({
            let name = payload.text_at("mode"@);
            let usable = |channel: ChannelV|
                ("http://"@.is_prefix_of(channel.base_url) || "https://"@.is_prefix_of(channel.base_url)) && !is_blank(
                    channel.default_model.model_id,
                ) && !is_blank(channel.api_key);
            let running = science.get("running"@) == Some(JsonV::Bool(true));
            let forced = payload.get("force"@) == Some(JsonV::Bool(true));
            let held = science.get("detail"@) matches Some(detail) && (detail.get("daemon"@) matches Some(daemon) && (
            daemon.unsigned_at("active_conversations"@) matches Some(n) && n > 0));
            &&& switch_of(payload, profile, science) is Ok <==> (name == Some("official"@) || (name == Some("kimi"@) && usable(
                profile.kimi,
            )) || (name == Some("deepseek"@) && usable(profile.deepseek))) && !(running && held && !forced)
            &&& switch_of(payload, profile, science) matches Ok((new, restart)) ==> {
                &&& name == Some("official"@) ==> new.mode == Mode::Official
                &&& name == Some("kimi"@) ==> new.mode == Mode::Kimi
                &&& name == Some("deepseek"@) ==> new.mode == Mode::Deepseek
                &&& new.port == profile.port && new.kimi == profile.kimi && new.deepseek == profile.deepseek
                &&& restart == running
            }
        }),
{
    mode_names_differ();
}

/// A look for models goes to the address that was given, with the key that was given, or else with the one that is
/// stored for the channel that was named.
pub proof fn looks_use_the_right_key(payload: JsonV, stored: ProfileV)
    ensures
        probe_of(payload, stored) matches Ok(probe) ==> {
            &&& payload.text_at("base_url"@) matches Some(url) && probe.base_url == without_end(trimmed(url), '/')
            &&& match payload.text_at("api_key"@) {
                Some(key) => !is_blank(key) ==> probe.api_key == trimmed(key),
                None => true,
            }
            &&& (payload.text_at("api_key"@) matches Some(key) ==> is_blank(key)) ==> {
                &&& payload.text_at("channel"@) == Some("kimi"@) || payload.text_at("channel"@) == Some("deepseek"@)
                &&& payload.text_at("channel"@) == Some("kimi"@) ==> probe.api_key == stored.kimi.api_key
                &&& payload.text_at("channel"@) == Some("deepseek"@) ==> probe.api_key == stored.deepseek.api_key
                &&& !is_blank(probe.api_key)
            }
        },
        payload.text_at("base_url"@) is Some && (payload.text_at("api_key"@) matches Some(key) && !is_blank(key)) ==> probe_of(
            payload,
            stored,
        ) is Ok,
        payload.text_at("base_url"@) is Some && payload.text_at("channel"@) == Some("kimi"@) && !is_blank(
            stored.kimi.api_key,
        ) ==> probe_of(payload, stored) is Ok,
        payload.text_at("base_url"@) is Some && payload.text_at("channel"@) == Some("deepseek"@) && !is_blank(
            stored.deepseek.api_key,
        ) ==> probe_of(payload, stored) is Ok,
{
    mode_names_differ();
}

/// The list of models is looked for below the address first, and at most at one other place.
pub proof fn models_are_looked_for_below_the_address(base: Seq<char>, parts: Option<UrlPartsV>)
    ensures
        ({
            let urls = candidates_of(base, parts);
            &&& 1 <= urls.len() <= 2
            &&& base.is_prefix_of(urls[0])
            &&& "/v1"@.is_suffix_of(base) ==> urls[0] == base + "/models"@
            &&& !"/v1"@.is_suffix_of(base) ==> urls[0] == base + "/v1/models"@
            &&& urls.len() == 2 ==> urls[0] != urls[1] && (parts matches Some(url) && url.host matches Some(host) && (
            url.scheme + "://"@ + host).is_prefix_of(urls[1]) && "/v1/models"@.is_suffix_of(urls[1]))
        }),
{
    let urls = candidates_of(base, parts);
    assert(urls[0].take(base.len() as int) =~= base);
    if urls.len() == 2 {
        let url = parts.unwrap();
        let start = url.scheme + "://"@ + url.host.unwrap();
        assert(urls[1].take(start.len() as int) =~= start);
        let end = "/v1/models"@;
        assert(urls[1].skip(urls[1].len() - end.len()) =~= end);
    }
}

/// The models of an answer are told one by one and in their order, each by its id, and by its name where it has one.
pub proof fn models_are_told(body: JsonV)
    ensures
        body.items_at("data"@) matches Some(items) ==> (models_of(body).items_at("models"@) matches Some(out) && {
            let named = items.filter(|item: JsonV| item.text_at("id"@) is Some);
            &&& out.len() == named.len()
            &&& forall|i: int|
                0 <= i < out.len() ==> (#[trigger] out[i]).text_at("id"@) == named[i].text_at("id"@) && out[i].text_at(
                    "display_name"@,
                ) == (if named[i].text_at("display_name"@) is Some {
                    named[i].text_at("display_name"@)
                } else {
                    named[i].text_at("id"@)
                })
        }),
{
    let entries = models_of(body)->Object_0;
    assert(entries.len() == 1);
    assert(entries[0].0 == "models"@);
    key_index_is(entries, "models"@, 0);
    if let Some(items) = body.items_at("data"@) {
        listed_models_are_told(items);
    }
}

proof fn listed_models_are_told(items: Seq<JsonV>)
    ensures
        ({
            let out = model_trees(items);
            let named = items.filter(|item: JsonV| item.text_at("id"@) is Some);
            &&& out.len() == named.len()
            &&& forall|i: int|
                0 <= i < out.len() ==> (#[trigger] out[i]).text_at("id"@) == named[i].text_at("id"@) && out[i].text_at(
                    "display_name"@,
                ) == (if named[i].text_at("display_name"@) is Some {
                    named[i].text_at("display_name"@)
                } else {
                    named[i].text_at("id"@)
                })
        }),
    decreases items.len(),
{
    reveal(Seq::filter);
    reveal_strlit("id");
    reveal_strlit("display_name");
    assert("id"@.len() == 2 && "display_name"@.len() == 12);
    let test = |item: JsonV| item.text_at("id"@) is Some;
    if items.len() > 0 {
        let before = items.drop_last();
        let item = items.last();
        listed_models_are_told(before);
        let out = model_trees(items);
        let named = items.filter(test);
        assert(test(item) == (item.text_at("id"@) is Some));
        if let Some(tree) = model_tree(item) {
            let entries = tree->Object_0;
            assert(entries.len() == 2);
            assert(entries[0].0 == "id"@ && entries[1].0 == "display_name"@);
            key_index_is(entries, "id"@, 0);
            key_index_is(entries, "display_name"@, 1);
        }
        assert forall|i: int| 0 <= i < out.len() implies (#[trigger] out[i]).text_at("id"@) == named[i].text_at("id"@)
            && out[i].text_at("display_name"@) == (if named[i].text_at("display_name"@) is Some {
            named[i].text_at("display_name"@)
        } else {
            named[i].text_at("id"@)
        }) by {
            if i < model_trees(before).len() {
                assert(out[i] == model_trees(before)[i]);
                assert(named[i] == before.filter(test)[i]);
            }
        }
    }
}

/// A response ends in its body, behind a blank line, and tells the status, the type and the length of the body in
/// bytes.
pub proof fn responses_hold_the_body(status: u16, content_type: Seq<char>, body: Seq<char>)
    ensures
        ({
            let text = response_of(status, content_type, body);
            &&& ("HTTP/1.1 "@ + decimal(status as nat)).is_prefix_of(text)
            &&& ("\r\n\r\n"@ + body).is_suffix_of(text)
            &&& has_part(text, "content-type: "@ + content_type + "\r\n"@)
            &&& has_part(text, "content-length: "@ + decimal(encode_utf8(body).len()) + "\r\n"@)
        }),
{
    reveal_strlit("\r\n\r\n");
    reveal_strlit("\r\n");
    reveal_strlit("content-type: ");
    reveal_strlit("content-length: ");
    reveal_strlit("\r\ncontent-type: ");
    reveal_strlit("\r\ncontent-length: ");
    reveal_strlit("\r\nconnection: close\r\n\r\n");
    let text = response_of(status, content_type, body);
    let start = "HTTP/1.1 "@ + decimal(status as nat);
    assert(text.take(start.len() as int) =~= start);
    let end = "\r\n\r\n"@ + body;
    assert(text.skip(text.len() - end.len()) =~= end);
    let a = (start + " "@ + crate::control::reason_of(status)).len() + 2;
    let kind = "content-type: "@ + content_type + "\r\n"@;
    assert(text.subrange(a as int, (a + kind.len()) as int) =~= kind);
    assert(stands_at(text, kind, a as int));
    let b = a + kind.len();
    let length = "content-length: "@ + decimal(encode_utf8(body).len()) + "\r\n"@;
    assert(text.subrange(b as int, (b + length.len()) as int) =~= length);
    assert(stands_at(text, length, b as int));
}

/// A path below the control interface leads to the action that it names, and the paths of the Messages API to
/// inference; a query makes no difference.
pub proof fn paths_lead_where_they_say(action: Seq<char>, path: Seq<char>, query: Seq<char>)
    ensures
        route_of("/control/"@ + action) == RouteV::Control(action),
        route_of("/v1/messages"@) == RouteV::Inference,
        route_of("/v1/models"@) == RouteV::Inference,
        route_of("/"@) == RouteV::Index,
        !path.contains('?') ==> path_of(path + seq!['?'] + query) == path && path_of(path) == path,
{
    if !path.contains('?') {
        crate::traffic_laws::parted_comes_together(path, '?');
        let target = path + seq!['?'] + query;
        crate::traffic_laws::parted_comes_together(target, '?');
        assert(target[path.len() as int] == '?');
        let (a, b) = parted(target, '?').unwrap();
        if a.len() < path.len() {
            assert(target[a.len() as int] == '?');
            assert(path[a.len() as int] == '?');
        } else if a.len() > path.len() {
            assert(a[path.len() as int] == target[path.len() as int]);
        }
        assert(a =~= target.take(a.len() as int));
        assert(path =~= target.take(path.len() as int));
        if let Some((x, y)) = parted(path, '?') {
            assert(path[x.len() as int] == '?');
        }
    }
    reveal_strlit("/control/");
    reveal_strlit("/v1/messages");
    reveal_strlit("/v1/models");
    reveal_strlit("/");
    reveal_strlit("/ui");
    reveal_strlit("/ui/");
    let whole = "/control/"@ + action;
    assert(whole.take(9) =~= "/control/"@);
    assert(whole.skip(9) =~= action);
    assert(whole.len() >= 9);
    assert("/v1/messages"@.take(9)[1] == 'v');
    assert("/v1/models"@.take(9)[1] == 'v');
    assert("/v1/models"@.len() == 10 && "/v1/messages"@.len() == 12);
    assert("/control/"@[1] == 'c');
}

} // verus!
