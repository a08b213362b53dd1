//! The contracts of the providers: how each is reached, and how it is told who asks.
use crate::crypto::{digest, hex, hex_bytes, sha256};
use crate::json::{Json, JsonV};
use crate::json_fields::{fields_are_named_once, name_fields, named, names_fields_once};
use crate::json_model::{group_json_views, json_parse, list_view};
use crate::reasoning_state::{is_object_of, object_of};
use crate::text::{blank, contains_text, group_texts, is_blank, opt_text, same, texts};
use vstd::prelude::*;
use vstd::utf8::encode_utf8;

verus! {

broadcast use {group_json_views, group_texts};

/// How a base address and a path become an endpoint.
#[derive(Clone, Copy, Debug, PartialEq, Eq, Structural)]
pub enum EndpointJoin {
    AnthropicV1,
}

/// How a request shows its credential.
#[derive(Clone, Copy, Debug, PartialEq, Eq, Structural)]
pub enum AuthScheme {
    AnthropicXApiKey,
    AnthropicDual,
    Bearer,
    CsswitchOauth,
}

pub open spec fn auth_scheme_of(value: Seq<char>) -> Option<AuthScheme> {
    if value == "anthropic_x_api_key"@ {
        Some(AuthScheme::AnthropicXApiKey)
    } else if value == "anthropic_dual"@ {
        Some(AuthScheme::AnthropicDual)
    } else if value == "bearer"@ {
        Some(AuthScheme::Bearer)
    } else if value == "csswitch_oauth"@ {
        Some(AuthScheme::CsswitchOauth)
    } else {
        None
    }
}

impl AuthScheme {
    pub fn parse(value: &str) -> (out: Result<AuthScheme, String>)
        ensures
            match (out, auth_scheme_of(value@)) {
                (Ok(scheme), Some(meant)) => scheme == meant,
                (Err(e), None) => e@ == "provider contract auth scheme is unsupported"@,
                _ => false,
            },
    {
        if same(value, "anthropic_x_api_key") {
            Ok(AuthScheme::AnthropicXApiKey)
        } else if same(value, "anthropic_dual") {
            Ok(AuthScheme::AnthropicDual)
        } else if same(value, "bearer") {
            Ok(AuthScheme::Bearer)
        } else if same(value, "csswitch_oauth") {
            Ok(AuthScheme::CsswitchOauth)
        } else {
            Err("provider contract auth scheme is unsupported".to_owned())
        }
    }
}

pub open spec fn endpoint_join_of(value: Seq<char>) -> Option<EndpointJoin> {
    if value == "anthropic_v1"@ {
        Some(EndpointJoin::AnthropicV1)
    } else {
        None
    }
}

impl EndpointJoin {
    pub fn parse(value: &str) -> (out: Result<EndpointJoin, String>)
        ensures
            match (out, endpoint_join_of(value@)) {
                (Ok(join), Some(meant)) => join == meant,
                (Err(e), None) => e@ == "provider contract endpoint join is unsupported"@,
                _ => false,
            },
    {
        if same(value, "anthropic_v1") {
            Ok(EndpointJoin::AnthropicV1)
        } else {
            Err("provider contract endpoint join is unsupported".to_owned())
        }
    }
}

/// A contract of the catalog.
#[derive(Debug)]
pub struct ProviderContract {
    pub id: String,
    pub template_ids: Vec<String>,
    pub api_formats: Vec<String>,
    pub adapter: String,
    pub auth_mode: String,
    pub auth_scheme: String,
    pub credential_sources: Vec<String>,
    pub default_credential_source: String,
    pub model_policies: Vec<String>,
    pub default_model_policy: String,
    pub model_discovery: String,
    pub transport: String,
    pub endpoint_policy: String,
    pub endpoint_join: String,
    pub api_key_env: Option<String>,
    pub scratch_policy: String,
    pub thinking_policy: String,
    pub upstream_client_version: Option<String>,
    pub connect_ms: u64,
    pub total_ms: u64,
    pub read_idle_ms: u64,
    pub normal_ttl_seconds: u64,
    pub stale_ttl_seconds: u64,
}

#[verifier::ext_equal]
pub struct ContractV {
    pub id: Seq<char>,
    pub template_ids: Seq<Seq<char>>,
    pub api_formats: Seq<Seq<char>>,
    pub adapter: Seq<char>,
    pub auth_mode: Seq<char>,
    pub auth_scheme: Seq<char>,
    pub credential_sources: Seq<Seq<char>>,
    pub default_credential_source: Seq<char>,
    pub model_policies: Seq<Seq<char>>,
    pub default_model_policy: Seq<char>,
    pub model_discovery: Seq<char>,
    pub transport: Seq<char>,
    pub endpoint_policy: Seq<char>,
    pub endpoint_join: Seq<char>,
    pub api_key_env: Option<Seq<char>>,
    pub scratch_policy: Seq<char>,
    pub thinking_policy: Seq<char>,
    pub upstream_client_version: Option<Seq<char>>,
    pub connect_ms: u64,
    pub total_ms: u64,
    pub read_idle_ms: u64,
    pub normal_ttl_seconds: u64,
    pub stale_ttl_seconds: u64,
}

pub open spec fn opt_owned(s: Option<String>) -> Option<Seq<char>> {
    match s {
        Some(t) => Some(t@),
        None => None,
    }
}

impl View for ProviderContract {
    type V = ContractV;

    open spec fn view(&self) -> ContractV {
        ContractV {
            id: self.id@,
            template_ids: texts(self.template_ids@),
            api_formats: texts(self.api_formats@),
            adapter: self.adapter@,
            auth_mode: self.auth_mode@,
            auth_scheme: self.auth_scheme@,
            credential_sources: texts(self.credential_sources@),
            default_credential_source: self.default_credential_source@,
            model_policies: texts(self.model_policies@),
            default_model_policy: self.default_model_policy@,
            model_discovery: self.model_discovery@,
            transport: self.transport@,
            endpoint_policy: self.endpoint_policy@,
            endpoint_join: self.endpoint_join@,
            api_key_env: opt_owned(self.api_key_env),
            scratch_policy: self.scratch_policy@,
            thinking_policy: self.thinking_policy@,
            upstream_client_version: opt_owned(self.upstream_client_version),
            connect_ms: self.connect_ms,
            total_ms: self.total_ms,
            read_idle_ms: self.read_idle_ms,
            normal_ttl_seconds: self.normal_ttl_seconds,
            stale_ttl_seconds: self.stale_ttl_seconds,
        }
    }
}

pub open spec fn contracts_view(contracts: Seq<ProviderContract>) -> Seq<ContractV> {
    contracts.map_values(|c: ProviderContract| c@)
}

/// A list of texts.
pub open spec fn text_list_of(items: Seq<JsonV>) -> Option<Seq<Seq<char>>>
    decreases items.len(),
{
    if items.len() == 0 {
        Some(Seq::empty())
    } else {
        match (text_list_of(items.drop_last()), items.last().text()) {
            (Some(before), Some(last)) => Some(before.push(last)),
            _ => None,
        }
    }
}

pub open spec fn text_list_at(tree: JsonV, key: Seq<char>) -> Option<Seq<Seq<char>>> {
    match tree.items_at(key) {
        Some(items) => text_list_of(items),
        None => None,
    }
}

/// A text that may be missing or null.
pub open spec fn optional_text_at(tree: JsonV, key: Seq<char>) -> Option<Option<Seq<char>>> {
    match tree.get(key) {
        None => Some(None),
        Some(JsonV::Null) => Some(None),
        Some(JsonV::Str(s)) => Some(Some(s)),
        Some(_) => None,
    }
}

proof fn text_list_stays(items: Seq<JsonV>, i: int)
    requires
        0 <= i <= items.len(),
        text_list_of(items.take(i)) is None,
    ensures
        text_list_of(items) is None,
    decreases items.len() - i,
{
    if i < items.len() {
        assert(items.take(i + 1).drop_last() =~= items.take(i));
        text_list_stays(items, i + 1);
    } else {
        assert(items.take(i) =~= items);
    }
}

fn read_text_list(tree: &Json, key: &str) -> (out: Option<Vec<String>>)
    ensures
        match (out, text_list_at(tree@, key@)) {
            (Some(list), Some(meant)) => texts(list@) == meant,
            (None, None) => true,
            _ => false,
        },
{
    let items = match tree.array_at(key) {
        Some(items) => items,
        None => {
            return None;
        },
    };
    let ghost all = list_view(items@);
    let mut list: Vec<String> = Vec::new();
    let mut i: usize = 0;
    while i < items.len()
        invariant
            i <= items@.len(),
            all == list_view(items@),
            tree@.get(key@) == Some(JsonV::Array(all)),
            text_list_of(all.take(i as int)) == Some(texts(list@)),
        decreases items@.len() - i,
    {
        assert(all.take(i + 1).drop_last() =~= all.take(i as int));
        match items[i].as_str() {
            Some(s) => {
                list.push(s.to_owned());
            },
            None => {
                proof {
                    text_list_stays(all, i + 1);
                }
                return None;
            },
        }
        i = i + 1;
    }
    assert(all.take(i as int) =~= all);
    Some(list)
}

fn read_optional_text(tree: &Json, key: &str) -> (out: Option<Option<String>>)
    ensures
        match (out, optional_text_at(tree@, key@)) {
            (Some(text), Some(meant)) => opt_owned(text) == meant,
            (None, None) => true,
            _ => false,
        },
{
    match tree.get(key) {
        None => Some(None),
        Some(value) => if value.is_null() {
            Some(None)
        } else {
            match value.as_str() {
                Some(s) => Some(Some(s.to_owned())),
                None => None,
            }
        },
    }
}

fn read_text(tree: &Json, key: &str) -> (out: Option<String>)
    ensures
        opt_owned(out) == tree@.text_at(key@),
{
    match tree.str_at(key) {
        Some(s) => Some(s.to_owned()),
        None => None,
    }
}

pub open spec fn timeout_keys() -> Seq<Seq<char>> {
    seq!["connect_ms"@, "total_ms"@, "read_idle_ms"@]
}

pub open spec fn cache_keys() -> Seq<Seq<char>> {
    seq!["normal_ttl_seconds"@, "stale_ttl_seconds"@]
}

pub open spec fn contract_keys() -> Seq<Seq<char>> {
    seq![
        "id"@,
        "template_ids"@,
        "api_formats"@,
        "adapter"@,
        "auth_mode"@,
        "auth_scheme"@,
        "credential_sources"@,
        "default_credential_source"@,
        "model_policies"@,
        "default_model_policy"@,
        "model_discovery"@,
        "transport"@,
        "endpoint_policy"@,
        "endpoint_join"@,
        "api_key_env"@,
        "scratch_policy"@,
        "thinking_policy"@,
        "upstream_client_version"@,
        "timeouts"@,
        "cache"@,
    ]
}

/// The bounds of a provider: to connect, in all, and between two reads.
pub open spec fn timeouts_of(record: JsonV) -> Option<(u64, u64, u64)> {
    let tree = named(record, timeout_keys());
    match (tree.unsigned_at("connect_ms"@), tree.unsigned_at("total_ms"@), tree.unsigned_at("read_idle_ms"@)) {
        (Some(connect), Some(total), Some(idle)) => if object_of(tree, timeout_keys()) {
            Some((connect, total, idle))
        } else {
            None
        },
        _ => None,
    }
}

pub open spec fn cache_of(record: JsonV) -> Option<(u64, u64)> {
    let tree = named(record, cache_keys());
    match (tree.unsigned_at("normal_ttl_seconds"@), tree.unsigned_at("stale_ttl_seconds"@)) {
        (Some(normal), Some(stale)) => if object_of(tree, cache_keys()) {
            Some((normal, stale))
        } else {
            None
        },
        _ => None,
    }
}

pub open spec fn timeouts_at(tree: JsonV) -> Option<(u64, u64, u64)> {
    match tree.get("timeouts"@) {
        Some(t) => timeouts_of(t),
        None => None,
    }
}

pub open spec fn cache_at(tree: JsonV) -> Option<(u64, u64)> {
    match tree.get("cache"@) {
        Some(t) => cache_of(t),
        None => None,
    }
}

/// Whether every field that a contract needs is there, and no other.
pub open spec fn has_contract_fields(tree: JsonV) -> bool {
    &&& object_of(tree, contract_keys())
    &&& tree.text_at("id"@) is Some
    &&& text_list_at(tree, "template_ids"@) is Some
    &&& text_list_at(tree, "api_formats"@) is Some
    &&& tree.text_at("adapter"@) is Some
    &&& tree.text_at("auth_mode"@) is Some
    &&& tree.text_at("auth_scheme"@) is Some
    &&& text_list_at(tree, "credential_sources"@) is Some
    &&& tree.text_at("default_credential_source"@) is Some
    &&& text_list_at(tree, "model_policies"@) is Some
    &&& tree.text_at("default_model_policy"@) is Some
    &&& tree.text_at("model_discovery"@) is Some
    &&& tree.text_at("transport"@) is Some
    &&& tree.text_at("endpoint_policy"@) is Some
    &&& tree.text_at("endpoint_join"@) is Some
    &&& optional_text_at(tree, "api_key_env"@) is Some
    &&& tree.text_at("scratch_policy"@) is Some
    &&& tree.text_at("thinking_policy"@) is Some
    &&& optional_text_at(tree, "upstream_client_version"@) is Some
    &&& timeouts_at(tree) is Some
    &&& cache_at(tree) is Some
}

/// The contract that JSON stands for.
pub open spec fn contract_of(record: JsonV) -> Option<ContractV> {
    let tree = named(record, contract_keys());
    if has_contract_fields(tree) {
        Some(
            ContractV {
                id: tree.text_at("id"@).unwrap(),
                template_ids: text_list_at(tree, "template_ids"@).unwrap(),
                api_formats: text_list_at(tree, "api_formats"@).unwrap(),
                adapter: tree.text_at("adapter"@).unwrap(),
                auth_mode: tree.text_at("auth_mode"@).unwrap(),
                auth_scheme: tree.text_at("auth_scheme"@).unwrap(),
                credential_sources: text_list_at(tree, "credential_sources"@).unwrap(),
                default_credential_source: tree.text_at("default_credential_source"@).unwrap(),
                model_policies: text_list_at(tree, "model_policies"@).unwrap(),
                default_model_policy: tree.text_at("default_model_policy"@).unwrap(),
                model_discovery: tree.text_at("model_discovery"@).unwrap(),
                transport: tree.text_at("transport"@).unwrap(),
                endpoint_policy: tree.text_at("endpoint_policy"@).unwrap(),
                endpoint_join: tree.text_at("endpoint_join"@).unwrap(),
                api_key_env: optional_text_at(tree, "api_key_env"@).unwrap(),
                scratch_policy: tree.text_at("scratch_policy"@).unwrap(),
                thinking_policy: tree.text_at("thinking_policy"@).unwrap(),
                upstream_client_version: optional_text_at(tree, "upstream_client_version"@).unwrap(),
                connect_ms: timeouts_at(tree).unwrap().0,
                total_ms: timeouts_at(tree).unwrap().1,
                read_idle_ms: timeouts_at(tree).unwrap().2,
                normal_ttl_seconds: cache_at(tree).unwrap().0,
                stale_ttl_seconds: cache_at(tree).unwrap().1,
            },
        )
    } else {
        None
    }
}

fn read_timeouts(tree: &Json) -> (out: Option<(u64, u64, u64)>)
    ensures
        out == timeouts_at(tree@),
{
    let value = match tree.get("timeouts") {
        Some(value) => value,
        None => {
            return None;
        },
    };
    let mut allowed: Vec<String> = Vec::new();
    allowed.push("connect_ms".to_owned());
    allowed.push("total_ms".to_owned());
    allowed.push("read_idle_ms".to_owned());
    assert(texts(allowed@) =~= timeout_keys());
    let value = name_fields(value, &allowed);
    if !is_object_of(&value, &allowed) {
        return None;
    }
    match (value.u64_at("connect_ms"), value.u64_at("total_ms"), value.u64_at("read_idle_ms")) {
        (Some(connect), Some(total), Some(idle)) => Some((connect, total, idle)),
        _ => None,
    }
}

fn read_cache(tree: &Json) -> (out: Option<(u64, u64)>)
    ensures
        out == cache_at(tree@),
{
    let value = match tree.get("cache") {
        Some(value) => value,
        None => {
            return None;
        },
    };
    let mut allowed: Vec<String> = Vec::new();
    allowed.push("normal_ttl_seconds".to_owned());
    allowed.push("stale_ttl_seconds".to_owned());
    assert(texts(allowed@) =~= cache_keys());
    let value = name_fields(value, &allowed);
    if !is_object_of(&value, &allowed) {
        return None;
    }
    match (value.u64_at("normal_ttl_seconds"), value.u64_at("stale_ttl_seconds")) {
        (Some(normal), Some(stale)) => Some((normal, stale)),
        _ => None,
    }
}

fn contract_key_list() -> (keys: Vec<String>)
    ensures
        texts(keys@) == contract_keys(),
{
    let mut keys: Vec<String> = Vec::new();
    keys.push("id".to_owned());
    keys.push("template_ids".to_owned());
    keys.push("api_formats".to_owned());
    keys.push("adapter".to_owned());
    keys.push("auth_mode".to_owned());
    keys.push("auth_scheme".to_owned());
    keys.push("credential_sources".to_owned());
    keys.push("default_credential_source".to_owned());
    keys.push("model_policies".to_owned());
    keys.push("default_model_policy".to_owned());
    keys.push("model_discovery".to_owned());
    keys.push("transport".to_owned());
    keys.push("endpoint_policy".to_owned());
    keys.push("endpoint_join".to_owned());
    keys.push("api_key_env".to_owned());
    keys.push("scratch_policy".to_owned());
    keys.push("thinking_policy".to_owned());
    keys.push("upstream_client_version".to_owned());
    keys.push("timeouts".to_owned());
    keys.push("cache".to_owned());
    assert(texts(keys@) =~= contract_keys());
    keys
}

fn read_contract(record: &Json) -> (out: Option<ProviderContract>)
    ensures
        match (out, contract_of(record@)) {
            (Some(contract), Some(meant)) => contract@ == meant,
            (None, None) => true,
            _ => false,
        },
{
    let keys = contract_key_list();
    let tree = name_fields(record, &keys);
    if !is_object_of(&tree, &keys) {
        return None;
    }
    let tree = &tree;
    let id = read_text(tree, "id")?;
    let template_ids = read_text_list(tree, "template_ids")?;
    let api_formats = read_text_list(tree, "api_formats")?;
    let adapter = read_text(tree, "adapter")?;
    let auth_mode = read_text(tree, "auth_mode")?;
    let auth_scheme = read_text(tree, "auth_scheme")?;
    let credential_sources = read_text_list(tree, "credential_sources")?;
    let default_credential_source = read_text(tree, "default_credential_source")?;
    let model_policies = read_text_list(tree, "model_policies")?;
    let default_model_policy = read_text(tree, "default_model_policy")?;
    let model_discovery = read_text(tree, "model_discovery")?;
    let transport = read_text(tree, "transport")?;
    let endpoint_policy = read_text(tree, "endpoint_policy")?;
    let endpoint_join = read_text(tree, "endpoint_join")?;
    let api_key_env = read_optional_text(tree, "api_key_env")?;
    let scratch_policy = read_text(tree, "scratch_policy")?;
    let thinking_policy = read_text(tree, "thinking_policy")?;
    let upstream_client_version = read_optional_text(tree, "upstream_client_version")?;
    let (connect_ms, total_ms, read_idle_ms): (u64, u64, u64) = read_timeouts(tree)?;
    let (normal_ttl_seconds, stale_ttl_seconds): (u64, u64) = read_cache(tree)?;
    Some(
        ProviderContract {
            id,
            template_ids,
            api_formats,
            adapter,
            auth_mode,
            auth_scheme,
            credential_sources,
            default_credential_source,
            model_policies,
            default_model_policy,
            model_discovery,
            transport,
            endpoint_policy,
            endpoint_join,
            api_key_env,
            scratch_policy,
            thinking_policy,
            upstream_client_version,
            connect_ms,
            total_ms,
            read_idle_ms,
            normal_ttl_seconds,
            stale_ttl_seconds,
        },
    )
}

pub open spec fn catalog_keys() -> Seq<Seq<char>> {
    seq!["schema_version"@, "contracts"@]
}

pub open spec fn contracts_of(items: Seq<JsonV>) -> Option<Seq<ContractV>>
    decreases items.len(),
{
    if items.len() == 0 {
        Some(Seq::empty())
    } else {
        match (contracts_of(items.drop_last()), contract_of(items.last())) {
            (Some(before), Some(last)) => Some(before.push(last)),
            _ => None,
        }
    }
}

/// The version and the contracts of a catalog, before they are checked. The catalog, a contract, its timeouts
/// and its cache are each an object or an array of the fields in their order.
pub open spec fn catalog_shape(record: JsonV) -> Option<(u64, Seq<ContractV>)> {
    let tree = named(record, catalog_keys());
    let contracts = match tree.items_at("contracts"@) {
        Some(items) => contracts_of(items),
        None => None,
    };
    match (tree.unsigned_at("schema_version"@), contracts) {
        (Some(version), Some(list)) => if object_of(tree, catalog_keys()) && version <= u32::MAX {
            Some((version, list))
        } else {
            None
        },
        _ => None,
    }
}

proof fn contracts_of_stays(items: Seq<JsonV>, i: int)
    requires
        0 <= i <= items.len(),
        contracts_of(items.take(i)) is None,
    ensures
        contracts_of(items) is None,
    decreases items.len() - i,
{
    if i < items.len() {
        assert(items.take(i + 1).drop_last() =~= items.take(i));
        contracts_of_stays(items, i + 1);
    } else {
        assert(items.take(i) =~= items);
    }
}

fn read_contracts(items: &Vec<Json>) -> (out: Option<Vec<ProviderContract>>)
    ensures
        match (out, contracts_of(list_view(items@))) {
            (Some(list), Some(meant)) => contracts_view(list@) == meant,
            (None, None) => true,
            _ => false,
        },
{
    let ghost all = list_view(items@);
    let mut list: Vec<ProviderContract> = Vec::new();
    assert(contracts_view(list@) =~= Seq::empty());
    let mut i: usize = 0;
    while i < items.len()
        invariant
            i <= items@.len(),
            all == list_view(items@),
            contracts_of(all.take(i as int)) == Some(contracts_view(list@)),
        decreases items@.len() - i,
    {
        assert(all.take(i + 1).drop_last() =~= all.take(i as int));
        match read_contract(&items[i]) {
            Some(contract) => {
                let ghost before = contracts_view(list@);
                let ghost added = contract@;
                list.push(contract);
                assert(contracts_view(list@) =~= before.push(added));
            },
            None => {
                proof {
                    contracts_of_stays(all, i + 1);
                }
                return None;
            },
        }
        i = i + 1;
    }
    assert(all.take(i as int) =~= all);
    Some(list)
}

fn read_catalog(record: &Json) -> (out: Option<(u64, Vec<ProviderContract>)>)
    ensures
        match (out, catalog_shape(record@)) {
            (Some(pair), Some(meant)) => pair.0 == meant.0 && contracts_view(pair.1@) == meant.1,
            (None, None) => true,
            _ => false,
        },
{
    let mut allowed: Vec<String> = Vec::new();
    allowed.push("schema_version".to_owned());
    allowed.push("contracts".to_owned());
    assert(texts(allowed@) =~= catalog_keys());
    let tree = name_fields(record, &allowed);
    if !is_object_of(&tree, &allowed) {
        return None;
    }
    let version: u64 = tree.u64_at("schema_version")?;
    if version > 4_294_967_295 {
        return None;
    }
    let items = tree.array_at("contracts")?;
    match read_contracts(items) {
        Some(list) => Some((version, list)),
        None => None,
    }
}

/// Whether a contract's bounds fit together.
pub open spec fn bounds_hold(c: ContractV) -> bool {
    &&& c.connect_ms > 0
    &&& c.total_ms >= c.connect_ms
    &&& c.read_idle_ms > 0
    &&& c.stale_ttl_seconds >= c.normal_ttl_seconds
}

pub open spec fn known_thinking_policy(policy: Seq<char>) -> bool {
    policy == ""@ || policy == "adaptive"@ || policy == "enabled"@ || policy == "upstream_default"@ || policy
        == "deepseek_native"@
}

/// Whether a contract's lists and defaults fit together.
pub open spec fn capabilities_hold(c: ContractV) -> bool {
    &&& c.template_ids.len() > 0
    &&& c.api_formats.len() > 0
    &&& c.credential_sources.len() > 0
    &&& c.credential_sources.contains(c.default_credential_source)
    &&& c.model_policies.len() > 0
    &&& c.model_policies.contains(c.default_model_policy)
    &&& c.model_discovery.len() > 0
    &&& c.scratch_policy.len() > 0
    &&& known_thinking_policy(c.thinking_policy)
}

/// Whether an id is one of the contracts'.
pub open spec fn has_id(contracts: Seq<ContractV>, id: Seq<char>) -> bool {
    exists|i: int| 0 <= i < contracts.len() && (#[trigger] contracts[i]).id == id
}

/// The fault of a contract behind others.
pub open spec fn contract_fault(before: Seq<ContractV>, c: ContractV) -> Option<Seq<char>> {
    if is_blank(c.id) || has_id(before, c.id) {
        Some("provider contract catalog contains an invalid id"@)
    } else if !bounds_hold(c) {
        Some("provider contract catalog contains invalid runtime bounds"@)
    } else if endpoint_join_of(c.endpoint_join) is None {
        Some("provider contract endpoint join is unsupported"@)
    } else if auth_scheme_of(c.auth_scheme) is None {
        Some("provider contract auth scheme is unsupported"@)
    } else if !capabilities_hold(c) {
        Some("provider contract catalog contains an invalid capability shape"@)
    } else {
        None
    }
}

/// The first fault of the contracts.
pub open spec fn contracts_fault(contracts: Seq<ContractV>) -> Option<Seq<char>>
    decreases contracts.len(),
{
    if contracts.len() == 0 {
        None
    } else {
        match contracts_fault(contracts.drop_last()) {
            Some(reason) => Some(reason),
            None => contract_fault(contracts.drop_last(), contracts.last()),
        }
    }
}

/// How deep the records of a catalog are: the catalog, its list, a contract, and what a contract holds.
pub const CATALOG_LEVELS: usize = 4;

/// The contracts of a catalog's text.
pub open spec fn catalog(text: Seq<char>) -> Result<Seq<ContractV>, Seq<char>> {
    let shape = match json_parse(text) {
        Some(tree) => if names_fields_once(text, tree, CATALOG_LEVELS as nat) {
            catalog_shape(tree)
        } else {
            None
        },
        None => None,
    };
    match shape {
        None => Err("provider contract catalog parse failed"@),
        Some((version, contracts)) => if version != 1 || contracts.len() == 0 {
            Err("provider contract catalog schema is unsupported"@)
        } else {
            match contracts_fault(contracts) {
                Some(reason) => Err(reason),
                None => Ok(contracts),
            }
        },
    }
}

proof fn contracts_fault_stays(contracts: Seq<ContractV>, i: int)
    requires
        0 <= i <= contracts.len(),
        contracts_fault(contracts.take(i)) is Some,
    ensures
        contracts_fault(contracts) == contracts_fault(contracts.take(i)),
    decreases contracts.len() - i,
{
    if i < contracts.len() {
        assert(contracts.take(i + 1).drop_last() =~= contracts.take(i));
        contracts_fault_stays(contracts, i + 1);
    } else {
        assert(contracts.take(i) =~= contracts);
    }
}

fn id_stands_before(contracts: &Vec<ProviderContract>, end: usize, id: &str) -> (yes: bool)
    requires
        end <= contracts@.len(),
    ensures
        yes == has_id(contracts_view(contracts@).take(end as int), id@),
{
    let ghost all = contracts_view(contracts@).take(end as int);
    let mut i: usize = 0;
    while i < end
        invariant
            i <= end <= contracts@.len(),
            all == contracts_view(contracts@).take(end as int),
            forall|k: int| 0 <= k < i ==> (#[trigger] all[k]).id != id@,
        decreases end - i,
    {
        assert(all[i as int] == contracts@[i as int]@);
        if same(contracts[i].id.as_str(), id) {
            assert(all[i as int].id == id@);
            return true;
        }
        i = i + 1;
    }
    false
}

fn is_known_policy(policy: &str) -> (yes: bool)
    ensures
        yes == known_thinking_policy(policy@),
{
    same(policy, "") || same(policy, "adaptive") || same(policy, "enabled") || same(policy, "upstream_default") || same(
        policy,
        "deepseek_native",
    )
}

fn check_contract(contracts: &Vec<ProviderContract>, at: usize) -> (fault: Option<String>)
    requires
        at < contracts@.len(),
    ensures
        opt_owned(fault) == contract_fault(contracts_view(contracts@).take(at as int), contracts@[at as int]@),
{
    let c = &contracts[at];
    if blank(c.id.as_str()) || id_stands_before(contracts, at, c.id.as_str()) {
        return Some("provider contract catalog contains an invalid id".to_owned());
    }
    if c.connect_ms == 0 || c.total_ms < c.connect_ms || c.read_idle_ms == 0 || c.stale_ttl_seconds
        < c.normal_ttl_seconds {
        return Some("provider contract catalog contains invalid runtime bounds".to_owned());
    }
    if let Err(e) = EndpointJoin::parse(c.endpoint_join.as_str()) {
        return Some(e);
    }
    if let Err(e) = AuthScheme::parse(c.auth_scheme.as_str()) {
        return Some(e);
    }
    if c.template_ids.len() == 0 || c.api_formats.len() == 0 || c.credential_sources.len() == 0 || !contains_text(
        &c.credential_sources,
        c.default_credential_source.as_str(),
    ) || c.model_policies.len() == 0 || !contains_text(&c.model_policies, c.default_model_policy.as_str())
        || c.model_discovery.as_str().is_empty() || c.scratch_policy.as_str().is_empty() || !is_known_policy(
        c.thinking_policy.as_str(),
    ) {
        return Some("provider contract catalog contains an invalid capability shape".to_owned());
    }
    None
}

/// Reads a catalog of contracts, and checks every one of them.
pub fn parse_catalog(text: &str) -> (out: Result<Vec<ProviderContract>, String>)
    ensures
        match (out, catalog(text@)) {
            (Ok(list), Ok(meant)) => contracts_view(list@) == meant,
            (Err(e), Err(reason)) => e@ == reason,
            _ => false,
        },
{
    let shape = match Json::parse(text) {
        Some(tree) => if fields_are_named_once(text, &tree, CATALOG_LEVELS) {
            read_catalog(&tree)
        } else {
            None
        },
        None => None,
    };
    let (version, contracts) = match shape {
        Some(pair) => pair,
        None => {
            return Err("provider contract catalog parse failed".to_owned());
        },
    };
    let ghost all = contracts_view(contracts@);
    assert(all.len() == contracts@.len());
    if version != 1 || contracts.len() == 0 {
        return Err("provider contract catalog schema is unsupported".to_owned());
    }
    let mut i: usize = 0;
    while i < contracts.len()
        invariant
            i <= contracts@.len(),
            all == contracts_view(contracts@),
            all.len() > 0,
            json_parse(text@) is Some,
            names_fields_once(text@, json_parse(text@).unwrap(), CATALOG_LEVELS as nat),
            catalog_shape(json_parse(text@).unwrap()) == Some((1u64, all)),
            contracts_fault(all.take(i as int)) is None,
        decreases contracts@.len() - i,
    {
        assert(all.take(i + 1).drop_last() =~= all.take(i as int));
        assert(all[i as int] == contracts@[i as int]@);
        if let Some(e) = check_contract(&contracts, i) {
            proof {
                contracts_fault_stays(all, i + 1);
            }
            return Err(e);
        }
        i = i + 1;
    }
    assert(all.take(i as int) =~= all);
    Ok(contracts)
}

/// The digest by which a catalog is known.
pub open spec fn digest_of_catalog(text: Seq<char>) -> Seq<char> {
    hex(sha256(encode_utf8(text)))
}

pub fn catalog_digest(text: &str) -> (out: String)
    ensures
        out@ == digest_of_catalog(text@),
{
    hex_bytes(digest(text.as_bytes()).as_slice())
}

/// What the gateway needs of the contract that it runs under.
#[derive(Debug)]
pub struct ProviderRuntimeContract {
    pub contract_id: String,
    pub catalog_digest: String,
    pub auth_mode: String,
    pub auth_scheme: AuthScheme,
    pub api_key_env: Option<String>,
    pub transport: String,
    pub thinking_policy: String,
    pub endpoint_policy: String,
    pub endpoint_join: EndpointJoin,
    pub connect_timeout_ms: u64,
    pub request_timeout_ms: u64,
    pub read_idle_timeout_ms: u64,
    pub normal_ttl_seconds: u64,
    pub stale_ttl_seconds: u64,
    pub upstream_client_version: Option<String>,
}

#[verifier::ext_equal]
pub struct RuntimeV {
    pub contract_id: Seq<char>,
    pub catalog_digest: Seq<char>,
    pub auth_mode: Seq<char>,
    pub auth_scheme: AuthScheme,
    pub api_key_env: Option<Seq<char>>,
    pub transport: Seq<char>,
    pub thinking_policy: Seq<char>,
    pub endpoint_policy: Seq<char>,
    pub endpoint_join: EndpointJoin,
    pub connect_timeout_ms: u64,
    pub request_timeout_ms: u64,
    pub read_idle_timeout_ms: u64,
    pub normal_ttl_seconds: u64,
    pub stale_ttl_seconds: u64,
    pub upstream_client_version: Option<Seq<char>>,
}

impl View for ProviderRuntimeContract {
    type V = RuntimeV;

    open spec fn view(&self) -> RuntimeV {
        RuntimeV {
            contract_id: self.contract_id@,
            catalog_digest: self.catalog_digest@,
            auth_mode: self.auth_mode@,
            auth_scheme: self.auth_scheme,
            api_key_env: opt_owned(self.api_key_env),
            transport: self.transport@,
            thinking_policy: self.thinking_policy@,
            endpoint_policy: self.endpoint_policy@,
            endpoint_join: self.endpoint_join,
            connect_timeout_ms: self.connect_timeout_ms,
            request_timeout_ms: self.request_timeout_ms,
            read_idle_timeout_ms: self.read_idle_timeout_ms,
            normal_ttl_seconds: self.normal_ttl_seconds,
            stale_ttl_seconds: self.stale_ttl_seconds,
            upstream_client_version: opt_owned(self.upstream_client_version),
        }
    }
}

pub open spec fn runtime_of(c: ContractV, digest: Seq<char>) -> RuntimeV {
    RuntimeV {
        contract_id: c.id,
        catalog_digest: digest,
        auth_mode: c.auth_mode,
        auth_scheme: auth_scheme_of(c.auth_scheme).unwrap(),
        api_key_env: c.api_key_env,
        transport: c.transport,
        thinking_policy: c.thinking_policy,
        endpoint_policy: c.endpoint_policy,
        endpoint_join: endpoint_join_of(c.endpoint_join).unwrap(),
        connect_timeout_ms: c.connect_ms,
        request_timeout_ms: c.total_ms,
        read_idle_timeout_ms: c.read_idle_ms,
        normal_ttl_seconds: c.normal_ttl_seconds,
        stale_ttl_seconds: c.stale_ttl_seconds,
        upstream_client_version: c.upstream_client_version,
    }
}

/// The first contract of an id, or their number.
pub open spec fn place_of_id(contracts: Seq<ContractV>, id: Seq<char>) -> int
    decreases contracts.len(),
{
    if contracts.len() == 0 || contracts[0].id == id {
        0
    } else {
        1 + place_of_id(contracts.drop_first(), id)
    }
}

/// The first contract of an adapter, or their number.
pub open spec fn place_of_adapter(contracts: Seq<ContractV>, adapter: Seq<char>) -> int
    decreases contracts.len(),
{
    if contracts.len() == 0 || contracts[0].adapter == adapter {
        0
    } else {
        1 + place_of_adapter(contracts.drop_first(), adapter)
    }
}

/// Whether two contracts reach their provider alike.
pub open spec fn alike(a: ContractV, b: ContractV) -> bool {
    &&& a.auth_mode == b.auth_mode
    &&& a.auth_scheme == b.auth_scheme
    &&& a.api_key_env == b.api_key_env
    &&& a.transport == b.transport
    &&& a.endpoint_policy == b.endpoint_policy
    &&& a.endpoint_join == b.endpoint_join
    &&& a.connect_ms == b.connect_ms
    &&& a.total_ms == b.total_ms
    &&& a.read_idle_ms == b.read_idle_ms
}

/// Whether the contracts of an adapter are told apart by their id alone.
pub open spec fn adapter_is_unique(contracts: Seq<ContractV>, adapter: Seq<char>) -> bool {
    let first = contracts[place_of_adapter(contracts, adapter)];
    forall|i: int| 0 <= i < contracts.len() && (#[trigger] contracts[i]).adapter == adapter ==> alike(contracts[i], first)
}

/// The contract that a gateway runs under: the one of an exact identity, or the one that an adapter
/// leaves no doubt about.
pub open spec fn chosen_contract(
    text: Seq<char>,
    provider: Seq<char>,
    expected_id: Option<Seq<char>>,
    expected_digest: Option<Seq<char>>,
) -> Result<RuntimeV, Seq<char>> {
    let digest = digest_of_catalog(text);
    match catalog(text) {
        Err(e) => Err(e),
        Ok(contracts) => {
            let choice = match (expected_id, expected_digest) {
                (Some(id), Some(expected)) => if expected != digest {
                    Err("managed provider contract identity mismatch"@)
                } else if place_of_id(contracts, id) >= contracts.len() {
                    Err("managed provider contract is unavailable"@)
                } else {
                    Ok(contracts[place_of_id(contracts, id)])
                },
                (None, None) => if place_of_adapter(contracts, provider) >= contracts.len() {
                    Err("provider contract is unavailable"@)
                } else if !adapter_is_unique(contracts, provider) {
                    Err("provider contract identity is required for this adapter"@)
                } else {
                    Ok(contracts[place_of_adapter(contracts, provider)])
                },
                _ => Err("managed provider contract identity is incomplete"@),
            };
            match choice {
                Err(e) => Err(e),
                Ok(c) => if c.adapter != provider {
                    Err("managed provider contract adapter mismatch"@)
                } else {
                    Ok(runtime_of(c, digest))
                },
            }
        },
    }
}

fn find_id(contracts: &Vec<ProviderContract>, id: &str) -> (at: usize)
    ensures
        at == place_of_id(contracts_view(contracts@), id@),
        at <= contracts@.len(),
{
    let ghost all = contracts_view(contracts@);
    let mut at: usize = 0;
    assert(all.skip(0) =~= all);
    while at < contracts.len() && !same(contracts[at].id.as_str(), id)
        invariant
            at <= contracts@.len(),
            all == contracts_view(contracts@),
            place_of_id(all, id@) == at + place_of_id(all.skip(at as int), id@),
        decreases contracts@.len() - at,
    {
        assert(all.skip(at as int)[0] == contracts@[at as int]@);
        assert(all.skip(at as int).drop_first() =~= all.skip(at + 1));
        at = at + 1;
    }
    assert(at < contracts@.len() ==> all.skip(at as int)[0] == contracts@[at as int]@);
    at
}

fn find_adapter(contracts: &Vec<ProviderContract>, adapter: &str) -> (at: usize)
    ensures
        at == place_of_adapter(contracts_view(contracts@), adapter@),
        at <= contracts@.len(),
{
    let ghost all = contracts_view(contracts@);
    let mut at: usize = 0;
    assert(all.skip(0) =~= all);
    while at < contracts.len() && !same(contracts[at].adapter.as_str(), adapter)
        invariant
            at <= contracts@.len(),
            all == contracts_view(contracts@),
            place_of_adapter(all, adapter@) == at + place_of_adapter(all.skip(at as int), adapter@),
        decreases contracts@.len() - at,
    {
        assert(all.skip(at as int)[0] == contracts@[at as int]@);
        assert(all.skip(at as int).drop_first() =~= all.skip(at + 1));
        at = at + 1;
    }
    assert(at < contracts@.len() ==> all.skip(at as int)[0] == contracts@[at as int]@);
    at
}

fn same_optional(a: &Option<String>, b: &Option<String>) -> (yes: bool)
    ensures
        yes == (opt_owned(*a) == opt_owned(*b)),
{
    match (a, b) {
        (Some(x), Some(y)) => same(x.as_str(), y.as_str()),
        (None, None) => true,
        _ => false,
    }
}

fn is_alike(a: &ProviderContract, b: &ProviderContract) -> (yes: bool)
    ensures
        yes == alike(a@, b@),
{
    same(a.auth_mode.as_str(), b.auth_mode.as_str()) && same(a.auth_scheme.as_str(), b.auth_scheme.as_str())
        && same_optional(&a.api_key_env, &b.api_key_env) && same(a.transport.as_str(), b.transport.as_str()) && same(
        a.endpoint_policy.as_str(),
        b.endpoint_policy.as_str(),
    ) && same(a.endpoint_join.as_str(), b.endpoint_join.as_str()) && a.connect_ms == b.connect_ms && a.total_ms
        == b.total_ms && a.read_idle_ms == b.read_idle_ms
}

fn is_unique(contracts: &Vec<ProviderContract>, adapter: &str, first: usize) -> (yes: bool)
    requires
        first < contracts@.len(),
        first == place_of_adapter(contracts_view(contracts@), adapter@),
    ensures
        yes == adapter_is_unique(contracts_view(contracts@), adapter@),
{
    let ghost all = contracts_view(contracts@);
    assert(all[first as int] == contracts@[first as int]@);
    let mut i: usize = 0;
    while i < contracts.len()
        invariant
            i <= contracts@.len(),
            first < contracts@.len(),
            first == place_of_adapter(all, adapter@),
            all == contracts_view(contracts@),
            all[first as int] == contracts@[first as int]@,
            forall|k: int|
                0 <= k < i && (#[trigger] all[k]).adapter == adapter@ ==> alike(all[k], all[first as int]),
        decreases contracts@.len() - i,
    {
        assert(all[i as int] == contracts@[i as int]@);
        if same(contracts[i].adapter.as_str(), adapter) && !is_alike(&contracts[i], &contracts[first]) {
            assert(!alike(all[i as int], all[first as int]));
            return false;
        }
        i = i + 1;
    }
    true
}

/// Chooses the contract that a gateway runs under.
pub fn load_runtime_contract(
    catalog_text: &str,
    provider: &str,
    expected_id: Option<&str>,
    expected_digest: Option<&str>,
) -> (out: Result<ProviderRuntimeContract, String>)
    ensures
        match (
            out,
            chosen_contract(catalog_text@, provider@, opt_text(expected_id), opt_text(expected_digest)),
        ) {
            (Ok(contract), Ok(meant)) => contract@ == meant,
            (Err(e), Err(reason)) => e@ == reason,
            _ => false,
        },
{
    let contracts = match parse_catalog(catalog_text) {
        Ok(contracts) => contracts,
        Err(e) => {
            return Err(e);
        },
    };
    let ghost all = contracts_view(contracts@);
    assert(all.len() == contracts@.len());
    let digest = catalog_digest(catalog_text);
    let at: usize = match (expected_id, expected_digest) {
        (Some(id), Some(expected)) => {
            if !same(expected, digest.as_str()) {
                return Err("managed provider contract identity mismatch".to_owned());
            }
            let at: usize = find_id(&contracts, id);
            if at >= contracts.len() {
                return Err("managed provider contract is unavailable".to_owned());
            }
            at
        },
        (None, None) => {
            let at: usize = find_adapter(&contracts, provider);
            if at >= contracts.len() {
                return Err("provider contract is unavailable".to_owned());
            }
            if !is_unique(&contracts, provider, at) {
                return Err("provider contract identity is required for this adapter".to_owned());
            }
            at
        },
        _ => {
            return Err("managed provider contract identity is incomplete".to_owned());
        },
    };
    assert(all[at as int] == contracts@[at as int]@);
    let c = &contracts[at];
    if !same(c.adapter.as_str(), provider) {
        return Err("managed provider contract adapter mismatch".to_owned());
    }
    proof {
        no_fault_means_known(all, at as int);
    }
    let auth_scheme = match AuthScheme::parse(c.auth_scheme.as_str()) {
        Ok(scheme) => scheme,
        Err(e) => {
            return Err(e);
        },
    };
    let endpoint_join = match EndpointJoin::parse(c.endpoint_join.as_str()) {
        Ok(join) => join,
        Err(e) => {
            return Err(e);
        },
    };
    Ok(
        ProviderRuntimeContract {
            contract_id: c.id.clone(),
            catalog_digest: digest,
            auth_mode: c.auth_mode.clone(),
            auth_scheme,
            api_key_env: copy_optional(&c.api_key_env),
            transport: c.transport.clone(),
            thinking_policy: c.thinking_policy.clone(),
            endpoint_policy: c.endpoint_policy.clone(),
            endpoint_join,
            connect_timeout_ms: c.connect_ms,
            request_timeout_ms: c.total_ms,
            read_idle_timeout_ms: c.read_idle_ms,
            normal_ttl_seconds: c.normal_ttl_seconds,
            stale_ttl_seconds: c.stale_ttl_seconds,
            upstream_client_version: copy_optional(&c.upstream_client_version),
        },
    )
}

/// A copy of a text that may be missing.
pub fn copy_optional(s: &Option<String>) -> (out: Option<String>)
    ensures
        opt_owned(out) == opt_owned(*s),
{
    match s {
        Some(t) => Some(t.clone()),
        None => None,
    }
}

/// A catalog that is accepted has, for every contract, a scheme and a join that are known, bounds
/// and capabilities that hold, and an id that no contract before it has.
pub proof fn accepted_contracts_are_sound(text: Seq<char>, i: int)
    requires
        catalog(text) is Ok,
        0 <= i < catalog(text)->Ok_0.len(),
    ensures
        ({
            let contracts = catalog(text)->Ok_0;
            contract_fault(contracts.take(i), contracts[i]) is None
        }),
{
    let contracts = catalog(text)->Ok_0;
    no_fault_means_known(contracts, i);
}

proof fn no_fault_means_known(contracts: Seq<ContractV>, i: int)
    requires
        contracts_fault(contracts) is None,
        0 <= i < contracts.len(),
    ensures
        contract_fault(contracts.take(i), contracts[i]) is None,
    decreases contracts.len(),
{
    if i < contracts.len() - 1 {
        no_fault_means_known(contracts.drop_last(), i);
        assert(contracts.drop_last().take(i) =~= contracts.take(i));
    } else {
        assert(contracts.drop_last() =~= contracts.take(i));
    }
}

} // verus!
