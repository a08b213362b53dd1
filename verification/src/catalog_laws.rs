//! What holds of the catalog of contracts, of the selectors of models, and of what stands in for documents.
use crate::anthropic_compat::{document_note, noted_message, skeleton_entry, skeleton_of_blocks};
use crate::client::ClientV;
use crate::json::JsonV;
use crate::json_model::{json_parse, key_index_is, with_gives};
use crate::profile::{channel_fault, plain_slug, selector, slug, ChannelV};
use crate::provider_contracts::{catalog, contract_of, contracts_fault, contracts_of, has_id, text_list_of, ContractV};
use crate::text::{alphanumeric, decimal, has_part, is_blank, stands_at, without_end, without_start};
use vstd::prelude::*;

verus! {

/// Whether a contract says what a record of the catalog says.
pub open spec fn says_what_is_recorded(c: ContractV, record: JsonV) -> bool {
    &&& record.text_at("id"@) == Some(c.id)
    &&& record.text_at("adapter"@) == Some(c.adapter)
    &&& record.text_at("auth_mode"@) == Some(c.auth_mode)
    &&& record.text_at("auth_scheme"@) == Some(c.auth_scheme)
    &&& record.text_at("default_credential_source"@) == Some(c.default_credential_source)
    &&& record.text_at("default_model_policy"@) == Some(c.default_model_policy)
    &&& record.text_at("model_discovery"@) == Some(c.model_discovery)
    &&& record.text_at("transport"@) == Some(c.transport)
    &&& record.text_at("endpoint_policy"@) == Some(c.endpoint_policy)
    &&& record.text_at("endpoint_join"@) == Some(c.endpoint_join)
    &&& record.text_at("scratch_policy"@) == Some(c.scratch_policy)
    &&& record.text_at("thinking_policy"@) == Some(c.thinking_policy)
    &&& record.text_at("api_key_env"@) == c.api_key_env
    &&& record.text_at("upstream_client_version"@) == c.upstream_client_version
    &&& record.get("timeouts"@) matches Some(JsonV::Object(entries)) ==> {
        let timeouts = JsonV::Object(entries);
        &&& timeouts.unsigned_at("connect_ms"@) == Some(c.connect_ms)
        &&& timeouts.unsigned_at("total_ms"@) == Some(c.total_ms)
        &&& timeouts.unsigned_at("read_idle_ms"@) == Some(c.read_idle_ms)
    }
    &&& record.get("cache"@) matches Some(JsonV::Object(entries)) ==> {
        let cache = JsonV::Object(entries);
        &&& cache.unsigned_at("normal_ttl_seconds"@) == Some(c.normal_ttl_seconds)
        &&& cache.unsigned_at("stale_ttl_seconds"@) == Some(c.stale_ttl_seconds)
    }
    &&& record.items_at("template_ids"@) matches Some(items) && are_the_texts(c.template_ids, items)
    &&& record.items_at("api_formats"@) matches Some(items) && are_the_texts(c.api_formats, items)
    &&& record.items_at("credential_sources"@) matches Some(items) && are_the_texts(c.credential_sources, items)
    &&& record.items_at("model_policies"@) matches Some(items) && are_the_texts(c.model_policies, items)
}

/// Whether texts are those of items, in their order.
pub open spec fn are_the_texts(list: Seq<Seq<char>>, items: Seq<JsonV>) -> bool {
    list.len() == items.len() && forall|i: int| 0 <= i < items.len() ==> #[trigger] items[i] == JsonV::Str(list[i])
}

proof fn lists_are_read(items: Seq<JsonV>)
    ensures
        text_list_of(items) matches Some(list) ==> are_the_texts(list, items),
    decreases items.len(),
{
    if items.len() > 0 && text_list_of(items) is Some {
        lists_are_read(items.drop_last());
        let before = text_list_of(items.drop_last()).unwrap();
        let list = text_list_of(items).unwrap();
        assert forall|i: int| 0 <= i < items.len() implies #[trigger] items[i] == JsonV::Str(list[i]) by {
            if i < before.len() {
                assert(items.drop_last()[i] == items[i]);
            }
        }
    }
}

proof fn records_are_read(record: JsonV)
    requires
        record is Object,
    ensures
        contract_of(record) matches Some(c) ==> says_what_is_recorded(c, record),
{
    if contract_of(record) is Some {
        lists_are_read(record.items_at("template_ids"@).unwrap());
        lists_are_read(record.items_at("api_formats"@).unwrap());
        lists_are_read(record.items_at("credential_sources"@).unwrap());
        lists_are_read(record.items_at("model_policies"@).unwrap());
    }
}

proof fn contracts_are_read(items: Seq<JsonV>)
    ensures
        contracts_of(items) matches Some(all) ==> all.len() == items.len() && forall|i: int|
            0 <= i < items.len() && items[i] is Object ==> says_what_is_recorded(#[trigger] all[i], items[i]),
    decreases items.len(),
{
    if items.len() > 0 && contracts_of(items) is Some {
        contracts_are_read(items.drop_last());
        let before = contracts_of(items.drop_last()).unwrap();
        let all = contracts_of(items).unwrap();
        if items.last() is Object {
            records_are_read(items.last());
        }
        assert forall|i: int| 0 <= i < items.len() && items[i] is Object implies says_what_is_recorded(
            #[trigger] all[i],
            items[i],
        ) by {
            if i < before.len() {
                assert(items.drop_last()[i] == items[i]);
                assert(all[i] == before[i]);
            }
        }
    }
}

proof fn faultless_contracts(contracts: Seq<ContractV>)
    ensures
        contracts_fault(contracts) is None ==> (forall|i: int|
            0 <= i < contracts.len() ==> {
                let c = #[trigger] contracts[i];
                &&& !is_blank(c.id)
                &&& 0 < c.connect_ms <= c.total_ms
                &&& c.read_idle_ms > 0
                &&& c.normal_ttl_seconds <= c.stale_ttl_seconds
                &&& c.credential_sources.contains(c.default_credential_source)
            }) && (forall|i: int, j: int|
            0 <= i < j < contracts.len() ==> (#[trigger] contracts[i]).id != (#[trigger] contracts[j]).id),
    decreases contracts.len(),
{
    if contracts.len() > 0 && contracts_fault(contracts) is None {
        let before = contracts.drop_last();
        faultless_contracts(before);
        assert(forall|i: int| 0 <= i < before.len() ==> #[trigger] before[i] == contracts[i]);
        assert forall|i: int, j: int| 0 <= i < j < contracts.len() implies (#[trigger] contracts[i]).id != (
        #[trigger] contracts[j]).id by {
            assert(before[i] == contracts[i]);
            if j < before.len() {
                assert(before[j] == contracts[j]);
            } else {
                if contracts[i].id == contracts[j].id {
                    assert(has_id(before, contracts.last().id));
                }
            }
        }
        assert forall|i: int| 0 <= i < contracts.len() implies {
            let c = #[trigger] contracts[i];
            &&& !is_blank(c.id)
            &&& 0 < c.connect_ms <= c.total_ms
            &&& c.read_idle_ms > 0
            &&& c.normal_ttl_seconds <= c.stale_ttl_seconds
            &&& c.credential_sources.contains(c.default_credential_source)
        } by {
            if i < before.len() {
                assert(before[i] == contracts[i]);
            }
        }
    }
}

/// A catalog that is accepted holds one contract for each record, which says what the record says; no two have one id, and
/// the bounds of each make sense.
pub proof fn catalogs_say_what_is_recorded(text: Seq<char>)
    ensures
        catalog(text) matches Ok(all) ==> {
            &&& all.len() > 0
            &&& json_parse(text) is Some
            &&& json_parse(text) matches Some(JsonV::Object(entries)) ==> (JsonV::Object(entries).items_at("contracts"@) matches Some(
                items,
            ) && all.len() == items.len() && forall|i: int|
                0 <= i < items.len() && items[i] is Object ==> says_what_is_recorded(#[trigger] all[i], items[i]))
            &&& json_parse(text) matches Some(JsonV::Object(entries)) ==> JsonV::Object(entries).unsigned_at("schema_version"@)
                == Some(1u64)
            &&& forall|i: int, j: int| 0 <= i < j < all.len() ==> (#[trigger] all[i]).id != (#[trigger] all[j]).id
            &&& forall|i: int|
                0 <= i < all.len() ==> 0 < (#[trigger] all[i]).connect_ms <= all[i].total_ms && all[i].read_idle_ms > 0
                    && all[i].normal_ttl_seconds <= all[i].stale_ttl_seconds && !is_blank(all[i].id)
        },
{
    if let Ok(all) = catalog(text) {
        faultless_contracts(all);
        if let Some(JsonV::Object(entries)) = json_parse(text) {
            contracts_are_read(JsonV::Object(entries).items_at("contracts"@).unwrap());
        }
    }
}

/// The selector of a model starts as the client expects it, and is otherwise made of the plain characters of the
/// model's id, with hyphens for the rest and none at its ends.
pub proof fn selectors_are_plain(client: ClientV, model_id: Seq<char>)
    ensures
        client.selector_prefix().is_prefix_of(selector(client, model_id)),
        plain_slug(model_id).is_suffix_of(selector(client, model_id)),
        plain_slug(model_id).len() <= 96,
        forall|i: int|
            0 <= i < plain_slug(model_id).len() ==> {
                let c = #[trigger] plain_slug(model_id)[i];
                alphanumeric(c) || c == '-' || c == '_' || c == '.'
            },
        plain_slug(model_id).len() > 0 ==> plain_slug(model_id)[0] != '-' && plain_slug(model_id).last() != '-',
        model_id.len() <= 96 && model_id.len() > 0 && model_id[0] != '-' && model_id.last() != '-' && (forall|i: int|
            0 <= i < model_id.len() ==> {
                let c = #[trigger] model_id[i];
                alphanumeric(c) || c == '-' || c == '_' || c == '.'
            }) ==> plain_slug(model_id) == model_id,
{
    let s = slug(model_id);
    let whole = selector(client, model_id);
    let t = without_start(s, '-');
    let u = plain_slug(model_id);
    assert(whole.take(client.selector_prefix().len() as int) =~= client.selector_prefix());
    assert(whole.skip(whole.len() - u.len()) =~= u);
    starts_are_cut(s);
    ends_are_cut(t);
    assert forall|i: int| 0 <= i < u.len() implies {
        let c = #[trigger] u[i];
        alphanumeric(c) || c == '-' || c == '_' || c == '.'
    } by {
        assert(u[i] == t[i]);
        assert(t[i] == s[s.len() - t.len() + i]);
    }
    if model_id.len() <= 96 && model_id.len() > 0 && model_id[0] != '-' && model_id.last() != '-' && (forall|i: int|
        0 <= i < model_id.len() ==> {
            let c = #[trigger] model_id[i];
            alphanumeric(c) || c == '-' || c == '_' || c == '.'
        }) {
        assert(s =~= model_id);
        assert(t == s);
        assert(u == t);
    }
}

proof fn starts_are_cut(s: Seq<char>)
    ensures
        without_start(s, '-').len() <= s.len(),
        without_start(s, '-') == s.skip(s.len() - without_start(s, '-').len()),
        without_start(s, '-').len() > 0 ==> without_start(s, '-')[0] != '-',
        s.len() > 0 && s[0] != '-' ==> without_start(s, '-') == s,
    decreases s.len(),
{
    if s.len() > 0 && s[0] == '-' {
        starts_are_cut(s.drop_first());
        let t = without_start(s, '-');
        assert(t =~= s.skip(s.len() - t.len()));
    } else {
        assert(s.skip(0) =~= s);
    }
}

proof fn ends_are_cut(s: Seq<char>)
    ensures
        without_end(s, '-').len() <= s.len(),
        without_end(s, '-') == s.take(without_end(s, '-').len() as int),
        without_end(s, '-').len() > 0 ==> without_end(s, '-').last() != '-',
        s.len() > 0 && s.last() != '-' ==> without_end(s, '-') == s,
    decreases s.len(),
{
    if s.len() > 0 && s.last() == '-' {
        ends_are_cut(s.drop_last());
        let t = without_end(s, '-');
        assert(t =~= s.take(t.len() as int));
    } else {
        assert(s.take(s.len() as int) =~= s);
    }
}

/// A channel can be used where it has a web address, a default model and a key, and only there.
pub proof fn usable_channels_are_complete(channel: ChannelV)
    ensures
        channel_fault(channel) is None <==> ("http://"@.is_prefix_of(channel.base_url) || "https://"@.is_prefix_of(
            channel.base_url,
        )) && !is_blank(channel.default_model.model_id) && !is_blank(channel.api_key),
{
}

/// A document is replaced by a text that names its kind; every other block of a message stays in its place, and so does
/// everything else of the message.
pub proof fn documents_alone_are_replaced(message: JsonV, key: Seq<char>)
    ensures
        key != "content"@ ==> noted_message(message).get(key) == message.get(key),
        message.items_at("content"@) matches Some(blocks) ==> (noted_message(message).items_at("content"@) matches Some(noted)
            && noted.len() == blocks.len() && forall|i: int|
            0 <= i < blocks.len() ==> if blocks[i].text_at("type"@) == Some("document"@) {
                stands_in_for(#[trigger] noted[i], blocks[i])
            } else {
                noted[i] == blocks[i]
            }),
{
    if let Some(blocks) = message.items_at("content"@) {
        let noted = blocks.map_values(|block: JsonV| crate::anthropic_compat::noted_block(block));
        with_gives(message, "content"@, JsonV::Array(noted));
        assert forall|i: int| 0 <= i < blocks.len() implies if blocks[i].text_at("type"@) == Some("document"@) {
            stands_in_for(#[trigger] noted[i], blocks[i])
        } else {
            noted[i] == blocks[i]
        } by {
            notes_name_the_kind(blocks[i]);
        }
    }
}

/// Whether a block is a text in place of a document, which names the kind of the document where that is known.
pub open spec fn stands_in_for(note: JsonV, document: JsonV) -> bool {
    note.text_at("type"@) == Some("text"@) && (note.text_at("text"@) matches Some(text) && (document.get("source"@) matches Some(
        source,
    ) ==> (source.text_at("media_type"@) matches Some(kind) ==> has_part(text, kind))))
}

proof fn notes_name_the_kind(block: JsonV)
    ensures
        stands_in_for(document_note(block), block),
{
    reveal_strlit("type");
    reveal_strlit("text");
    assert("type"@[1] == 'y' && "text"@[1] == 'e');
    let note = document_note(block);
    let entries = note->Object_0;
    assert(entries.len() == 2 && entries[0].0 == "type"@ && entries[1].0 == "text"@);
    key_index_is(entries, "type"@, 0);
    key_index_is(entries, "text"@, 1);
    if let Some(source) = block.get("source"@) {
        if let Some(kind) = source.text_at("media_type"@) {
            let text = note.text_at("text"@).unwrap();
            let at = crate::anthropic_compat::DOCUMENT_NOTE_START@.len() as int;
            assert(text.subrange(at, at + kind.len()) =~= kind);
            assert(stands_at(text, kind, at));
        }
    }
}

/// The line on a conversation has an entry for every block of a tool, and for no other, which tells the turn, who made it,
/// the kind of the block and its id.
pub proof fn skeletons_tell_of_tools_alone(index: nat, role: Seq<char>, block: JsonV)
    ensures
        skeleton_entry(index, role, block) is Some <==> (block.text_at("type"@) == Some("tool_use"@) || block.text_at("type"@)
            == Some("tool_result"@) || block.text_at("type"@) == Some("server_tool_use"@) || block.text_at("type"@) == Some(
            "web_search_tool_result"@,
        )),
        skeleton_entry(index, role, block) matches Some(entry) ==> {
            &&& ("m"@ + decimal(index) + "/"@ + role + ":"@ + block.text_at("type"@).unwrap()).is_prefix_of(entry)
            &&& block.text_at("id"@) matches Some(id) ==> id.is_suffix_of(entry)
            &&& block.get("id"@) is None ==> (block.text_at("tool_use_id"@) matches Some(id) ==> id.is_suffix_of(entry))
        },
{
    if let Some(entry) = skeleton_entry(index, role, block) {
        let start = "m"@ + decimal(index) + "/"@ + role + ":"@ + block.text_at("type"@).unwrap();
        assert(entry.take(start.len() as int) =~= start);
        if let Some(id) = block.text_at("id"@) {
            assert(entry.skip(entry.len() - id.len()) =~= id);
        }
        if block.get("id"@) is None {
            if let Some(id) = block.text_at("tool_use_id"@) {
                assert(entry.skip(entry.len() - id.len()) =~= id);
            }
        }
    }
}

/// The entries of a message are those of its blocks in their order.
pub proof fn skeletons_keep_the_order(index: nat, role: Seq<char>, blocks: Seq<JsonV>)
    ensures
        skeleton_of_blocks(index, role, blocks) == blocks.map_values(|block: JsonV| skeleton_entry(index, role, block)).filter(
            |entry: Option<Seq<char>>| entry is Some,
        ).map_values(|entry: Option<Seq<char>>| entry.unwrap()),
    decreases blocks.len(),
{
    reveal(Seq::filter);
    let f = |block: JsonV| skeleton_entry(index, role, block);
    let p = |entry: Option<Seq<char>>| entry is Some;
    let g = |entry: Option<Seq<char>>| entry.unwrap();
    if blocks.len() > 0 {
        let before = blocks.drop_last();
        skeletons_keep_the_order(index, role, before);
        assert(blocks.map_values(f).drop_last() =~= before.map_values(f));
        let kept = before.map_values(f).filter(p);
        if let Some(entry) = skeleton_entry(index, role, blocks.last()) {
            assert(kept.push(Some(entry)).map_values(g) =~= kept.map_values(g).push(entry));
        }
    } else {
        assert(blocks.map_values(f) =~= Seq::empty());
        assert(skeleton_of_blocks(index, role, blocks) =~= Seq::empty());
    }
}

} // verus!
