//! How a gateway is set up: from its arguments and environment, or from the user's settings.
use crate::profile::{channel_fault, channel_of, Profile, ProfileV};
use crate::provider_contracts::{
    catalog_digest, chosen_contract, digest_of_catalog, load_runtime_contract, opt_owned, EndpointJoin,
    ProviderRuntimeContract, RuntimeV,
};
use crate::text::{
    blank, byte_len, chars_of, concat, ends_keep_the_start, ends_with, group_texts, is_blank, is_space, look_up,
    opt_text, pairs_view, parse_unsigned, same, starts_with, text_of, texts, trim, trim_end_char, trimmed,
    trimmed_has_plain_ends, unsigned_number, value_of, without_end,
};
use crate::client::{Client, ClientV};
use vstd::prelude::*;
use vstd::utf8::encode_utf8;

verus! {

broadcast use group_texts;

pub const GATEWAY_INTENT_ENV: &'static str = "CSSWITCH_GATEWAY_INTENT";

/// The variable that holds the catalog of a profile's models.
pub const STATIC_CATALOG_ENV: &'static str = "CSSWITCH_STATIC_MODEL_CATALOG_V1";

pub const UPSTREAM_UA: &'static str = "CSSwitch/0.2 (+https://github.com/SuperJJ007/CSSwitch)";

pub const DEFAULT_UPSTREAM_URL: &'static str = "https://api.deepseek.com/anthropic/v1/messages";

/// What a gateway is started for.
#[derive(Clone, Copy, Debug, PartialEq, Eq, Structural)]
pub enum GatewayIntent {
    Formal,
    ScratchModels,
    ScratchMessage,
}

impl GatewayIntent {
    pub open spec fn name(self) -> Seq<char> {
        match self {
            GatewayIntent::Formal => "formal"@,
            GatewayIntent::ScratchModels => "scratch-models"@,
            GatewayIntent::ScratchMessage => "scratch-message"@,
        }
    }

    pub fn as_str(self) -> (name: &'static str)
        ensures
            name@ == self.name(),
    {
        match self {
            GatewayIntent::Formal => "formal",
            GatewayIntent::ScratchModels => "scratch-models",
            GatewayIntent::ScratchMessage => "scratch-message",
        }
    }

    /// The intent that the environment names; none named is the formal one.
    pub fn from_value(value: Option<&str>) -> (out: Result<GatewayIntent, String>)
        ensures
            match (out, intent_of(opt_text(value))) {
                (Ok(intent), Some(meant)) => intent == meant,
                (Err(e), None) => e@ == GATEWAY_INTENT_ENV@ + " 非法"@,
                _ => false,
            },
    {
        match value {
            None => Ok(GatewayIntent::Formal),
            Some(name) => if same(name, "") || same(name, "formal") {
                Ok(GatewayIntent::Formal)
            } else if same(name, "scratch-models") {
                Ok(GatewayIntent::ScratchModels)
            } else if same(name, "scratch-message") {
                Ok(GatewayIntent::ScratchMessage)
            } else {
                Err(concat(GATEWAY_INTENT_ENV, " 非法"))
            },
        }
    }
}

pub open spec fn intent_of(value: Option<Seq<char>>) -> Option<GatewayIntent> {
    match value {
        None => Some(GatewayIntent::Formal),
        Some(name) => if name == ""@ || name == "formal"@ {
            Some(GatewayIntent::Formal)
        } else if name == "scratch-models"@ {
            Some(GatewayIntent::ScratchModels)
        } else if name == "scratch-message"@ {
            Some(GatewayIntent::ScratchMessage)
        } else {
            None
        },
    }
}

/// The models of the DeepSeek channel, with the names to show.
pub open spec fn deepseek_models(client: ClientV) -> Seq<(Seq<char>, Seq<char>)> {
    seq![(client.large_model(), "DeepSeek V4 Pro"@), (client.small_model(), "DeepSeek V4 Flash"@)]
}

pub fn deepseek_model_list(client: &Client) -> (models: Vec<(String, &'static str)>)
    ensures
        models@.len() == deepseek_models(client@).len(),
        forall|i: int|
            0 <= i < models@.len() ==> ((#[trigger] models@[i]).0@, models@[i].1@) == deepseek_models(client@)[i],
{
    let mut models: Vec<(String, &'static str)> = Vec::new();
    models.push((client.large_model(), "DeepSeek V4 Pro"));
    models.push((client.small_model(), "DeepSeek V4 Flash"));
    models
}

/// The mode of the tool call shim: it is retired, so every setting means off.
pub fn canonical_shim_mode(_provider: &str, _raw: Option<&str>) -> (mode: &'static str)
    ensures
        mode@ == "off"@,
{
    "off"
}

/// A text without white space at its ends, where something is left.
pub open spec fn said(value: Option<Seq<char>>) -> Option<Seq<char>> {
    match value {
        Some(v) => if is_blank(v) {
            None
        } else {
            Some(trimmed(v))
        },
        None => None,
    }
}

fn say(value: Option<&str>) -> (out: Option<String>)
    ensures
        opt_owned(out) == said(opt_text(value)),
{
    match value {
        Some(v) => if blank(v) {
            None
        } else {
            Some(trim(v))
        },
        None => None,
    }
}

/// The policy on thinking: the environment's where it names one, else the contract's.
pub open spec fn thinking_policy(env_value: Option<Seq<char>>, contract_policy: Seq<char>) -> Option<Seq<char>> {
    match said(env_value) {
        Some(env) => Some(env),
        None => said(Some(contract_policy)),
    }
}

pub fn resolve_relay_thinking(env_value: Option<&str>, contract_policy: &str) -> (out: Option<String>)
    ensures
        opt_owned(out) == thinking_policy(opt_text(env_value), contract_policy@),
{
    match say(env_value) {
        Some(env) => Some(env),
        None => say(Some(contract_policy)),
    }
}

pub open spec fn is_supported(provider: Seq<char>, shim: Seq<char>) -> bool {
    (provider == "deepseek"@ || provider == "relay"@) && shim == "off"@
}

pub fn provider_supported(provider: &str, shim: &str) -> (yes: bool)
    ensures
        yes == is_supported(provider@, shim@),
{
    (same(provider, "deepseek") || same(provider, "relay")) && same(shim, "off")
}

/// An address without one of the paths that belong behind it.
pub open spec fn without_path(root: Seq<char>) -> Seq<char> {
    if "/messages"@.is_suffix_of(root) {
        without_end(root.take(root.len() - "/messages"@.len()), '/')
    } else if "/models"@.is_suffix_of(root) {
        without_end(root.take(root.len() - "/models"@.len()), '/')
    } else {
        root
    }
}

/// The address that the paths of the Messages API stand behind.
pub open spec fn v1_root(base: Seq<char>) -> Seq<char> {
    let root = without_path(without_end(trimmed(base), '/'));
    if "/v1"@.is_suffix_of(root) {
        root
    } else {
        root + "/v1"@
    }
}

fn cut_suffix(root: &str, suffix: &str) -> (out: String)
    requires
        suffix@.is_suffix_of(root@),
    ensures
        out@ == without_end(root@.take(root@.len() - suffix@.len()), '/'),
{
    let chars = chars_of(root);
    let tail = chars_of(suffix);
    let n: usize = chars.len() - tail.len();
    let head = text_of(&chars, 0, n);
    assert(head@ =~= root@.take(root@.len() - suffix@.len()));
    trim_end_char(head.as_str(), '/')
}

pub fn normalize_anthropic_v1_base(base: &str) -> (root: String)
    ensures
        root@ == v1_root(base@),
{
    let bare = trim_end_char(trim(base).as_str(), '/');
    let root = if ends_with(bare.as_str(), "/messages") {
        cut_suffix(bare.as_str(), "/messages")
    } else if ends_with(bare.as_str(), "/models") {
        cut_suffix(bare.as_str(), "/models")
    } else {
        bare
    };
    if ends_with(root.as_str(), "/v1") {
        root
    } else {
        concat(root.as_str(), "/v1")
    }
}

/// The addresses for messages and for models.
pub open spec fn endpoints(join: EndpointJoin, transport: Seq<char>, base: Seq<char>) -> Result<
    (Seq<char>, Option<Seq<char>>),
    Seq<char>,
> {
    if transport != "anthropic_messages"@ {
        Err("provider contract transport cannot use a profile endpoint"@)
    } else {
        Ok((v1_root(base) + "/messages"@, Some(v1_root(base) + "/models"@)))
    }
}

pub fn joined_endpoints(join: EndpointJoin, transport: &str, base: &str) -> (out: Result<
    (String, Option<String>),
    String,
>)
    ensures
        match (out, endpoints(join, transport@, base@)) {
            (Ok(pair), Ok(meant)) => pair.0@ == meant.0 && opt_owned(pair.1) == meant.1,
            (Err(e), Err(reason)) => e@ == reason,
            _ => false,
        },
{
    if !same(transport, "anthropic_messages") {
        return Err("provider contract transport cannot use a profile endpoint".to_owned());
    }
    match join {
        EndpointJoin::AnthropicV1 => {
            let root = normalize_anthropic_v1_base(base);
            Ok((concat(root.as_str(), "/messages"), Some(concat(root.as_str(), "/models"))))
        },
    }
}

/// The address of the upstream: the native channel can be pointed elsewhere, no other.
pub open spec fn upstream_of(provider: Seq<char>, default_upstream: Seq<char>, override_raw: Option<Seq<char>>) -> Seq<
    char,
> {
    match override_raw {
        Some(v) => if provider == "deepseek"@ && !is_blank(v) {
            v
        } else {
            default_upstream
        },
        None => default_upstream,
    }
}

pub fn upstream_url_for(provider: &str, default_upstream: String, override_raw: Option<String>) -> (url: String)
    ensures
        url@ == upstream_of(provider@, default_upstream@, opt_owned(override_raw)),
{
    match override_raw {
        Some(v) => if same(provider, "deepseek") && !blank(v.as_str()) {
            v
        } else {
            default_upstream
        },
        None => default_upstream,
    }
}

/// How a gateway is set up.
#[derive(Debug)]
pub struct GatewayConfig {
    pub provider: String,
    pub port: u16,
    pub auth_secret: Option<String>,
    pub api_key: Option<String>,
    pub upstream_url: String,
    pub models_url: Option<String>,
    pub relay_thinking: Option<String>,
    pub provider_contract: Option<ProviderRuntimeContract>,
    pub intent: GatewayIntent,
    /// The adapter of the profile's catalog of models, where there is one.
    pub static_model_adapter: Option<String>,
    pub shim_mode: String,
    /// The identity that the process manager gave this start.
    pub launch_id: String,
    /// Whether the active channel offers web search.
    pub web_search: bool,
}

#[verifier::ext_equal]
pub struct ConfigV {
    pub provider: Seq<char>,
    pub port: u16,
    pub auth_secret: Option<Seq<char>>,
    pub api_key: Option<Seq<char>>,
    pub upstream_url: Seq<char>,
    pub models_url: Option<Seq<char>>,
    pub relay_thinking: Option<Seq<char>>,
    pub provider_contract: Option<RuntimeV>,
    pub intent: GatewayIntent,
    pub static_model_adapter: Option<Seq<char>>,
    pub shim_mode: Seq<char>,
    pub launch_id: Seq<char>,
    pub web_search: bool,
}

pub open spec fn opt_runtime(contract: Option<ProviderRuntimeContract>) -> Option<RuntimeV> {
    match contract {
        Some(c) => Some(c@),
        None => None,
    }
}

impl View for GatewayConfig {
    type V = ConfigV;

    open spec fn view(&self) -> ConfigV {
        ConfigV {
            provider: self.provider@,
            port: self.port,
            auth_secret: opt_owned(self.auth_secret),
            api_key: opt_owned(self.api_key),
            upstream_url: self.upstream_url@,
            models_url: opt_owned(self.models_url),
            relay_thinking: opt_owned(self.relay_thinking),
            provider_contract: opt_runtime(self.provider_contract),
            intent: self.intent,
            static_model_adapter: opt_owned(self.static_model_adapter),
            shim_mode: self.shim_mode@,
            launch_id: self.launch_id@,
            web_search: self.web_search,
        }
    }
}

/// The setup of a channel.
pub open spec fn channel_config(profile: ProfileV, catalog_text: Seq<char>, web_search: bool) -> Result<
    ConfigV,
    Seq<char>,
> {
    match (profile.mode.contract_names(), channel_of(profile, profile.mode)) {
        (Some((adapter, contract_id)), Some(channel)) => if channel_fault(channel) is Some {
            Err(channel_fault(channel).unwrap())
        } else {
            match chosen_contract(
                catalog_text,
                adapter,
                Some(contract_id),
                Some(digest_of_catalog(catalog_text)),
            ) {
                Err(e) => Err(e),
                Ok(contract) => match endpoints(
                    contract.endpoint_join,
                    contract.transport,
                    without_end(trimmed(channel.base_url), '/'),
                ) {
                    Err(e) => Err(e),
                    Ok((upstream_url, models_url)) => Ok(
                        ConfigV {
                            provider: adapter,
                            port: profile.port,
                            auth_secret: None,
                            api_key: Some(trimmed(channel.api_key)),
                            upstream_url,
                            models_url,
                            relay_thinking: thinking_policy(None, contract.thinking_policy),
                            provider_contract: Some(contract),
                            intent: GatewayIntent::Formal,
                            static_model_adapter: Some(adapter),
                            shim_mode: "off"@,
                            launch_id: Seq::empty(),
                            web_search,
                        },
                    ),
                },
            }
        },
        _ => Err("官方模式不使用渠道配置"@),
    }
}

fn owned(value: Option<&str>) -> (out: Option<String>)
    ensures
        opt_owned(out) == opt_text(value),
{
    match value {
        Some(v) => Some(v.to_owned()),
        None => None,
    }
}

/// What the arguments say.
#[verifier::ext_equal]
pub struct ArgsV {
    pub provider: Seq<char>,
    pub port: Option<u16>,
    pub auth_token: Option<Seq<char>>,
}

/// The arguments from a place on.
pub open spec fn parsed_args(args: Seq<Seq<char>>, at: int, so_far: ArgsV) -> Result<ArgsV, Seq<char>>
    decreases args.len() - at,
{
    if at >= args.len() {
        Ok(so_far)
    } else if args[at] == "--provider"@ {
        if at + 1 >= args.len() {
            Err("--provider 缺少值"@)
        } else {
            parsed_args(args, at + 2, ArgsV { provider: args[at + 1], ..so_far })
        }
    } else if args[at] == "--port"@ {
        if at + 1 >= args.len() {
            Err("--port 缺少值"@)
        } else {
            match unsigned_number(args[at + 1], 65_535) {
                Some(n) => parsed_args(args, at + 2, ArgsV { port: Some(n as u16), ..so_far }),
                None => Err("非法端口："@ + args[at + 1]),
            }
        }
    } else if args[at] == "--auth-token"@ {
        if at + 1 >= args.len() {
            Err("--auth-token 缺少值"@)
        } else {
            parsed_args(args, at + 2, ArgsV { auth_token: Some(args[at + 1]), ..so_far })
        }
    } else {
        Err("未知参数："@ + args[at])
    }
}

struct Args {
    provider: String,
    port: Option<u16>,
    auth_token: Option<String>,
}

impl View for Args {
    type V = ArgsV;

    closed spec fn view(&self) -> ArgsV {
        ArgsV { provider: self.provider@, port: self.port, auth_token: opt_owned(self.auth_token) }
    }
}

/// What is taken where the arguments say nothing.
pub open spec fn default_args() -> ArgsV {
    ArgsV { provider: "deepseek"@, port: None, auth_token: None }
}

fn parse_args(args: &Vec<String>) -> (out: Result<Args, String>)
    ensures
        match (out, parsed_args(texts(args@), 1, default_args())) {
            (Ok(parsed), Ok(meant)) => parsed@ == meant,
            (Err(e), Err(reason)) => e@ == reason,
            _ => false,
        },
{
    let ghost all = texts(args@);
    let mut parsed = Args { provider: "deepseek".to_owned(), port: None, auth_token: None };
    let mut i: usize = 1;
    while i < args.len()
        invariant
            1 <= i,
            all == texts(args@),
            parsed_args(all, 1, default_args()) == parsed_args(all, i as int, parsed@),
        decreases args@.len() - i,
    {
        let arg = args[i].as_str();
        if same(arg, "--provider") {
            if args.len() - i < 2 {
                return Err("--provider 缺少值".to_owned());
            }
            parsed.provider = args[i + 1].clone();
        } else if same(arg, "--port") {
            if args.len() - i < 2 {
                return Err("--port 缺少值".to_owned());
            }
            match parse_unsigned(args[i + 1].as_str(), 65_535) {
                Some(n) => {
                    parsed.port = Some(n as u16);
                },
                None => {
                    return Err(concat("非法端口：", args[i + 1].as_str()));
                },
            }
        } else if same(arg, "--auth-token") {
            if args.len() - i < 2 {
                return Err("--auth-token 缺少值".to_owned());
            }
            parsed.auth_token = Some(args[i + 1].clone());
        } else {
            return Err(concat("未知参数：", arg));
        }
        i = i + 2;
    }
    Ok(parsed)
}

/// The credential of the upstream.
pub open spec fn credential(contract: RuntimeV, env: Seq<(Seq<char>, Seq<char>)>) -> Result<Option<Seq<char>>, Seq<char>> {
    let name = match contract.api_key_env {
        Some(n) => n,
        None => ""@,
    };
    if contract.auth_mode == "csswitch_oauth"@ || contract.auth_mode == "none"@ {
        Ok(None)
    } else if contract.auth_mode == "api_key"@ {
        match said(value_of(env, name)) {
            Some(key) => Ok(Some(key)),
            None => Err("缺少 "@ + name),
        }
    } else {
        Err("provider contract auth mode is unsupported"@)
    }
}

/// The secret that clients show: the environment's, or else the argument's.
pub open spec fn client_secret(env: Seq<(Seq<char>, Seq<char>)>, argument: Option<Seq<char>>) -> Option<Seq<char>> {
    match value_of(env, "CSSWITCH_AUTH_TOKEN"@) {
        Some(v) => if v.len() > 0 {
            Some(v)
        } else {
            not_empty(argument)
        },
        None => not_empty(argument),
    }
}

pub open spec fn not_empty(value: Option<Seq<char>>) -> Option<Seq<char>> {
    match value {
        Some(v) => if v.len() > 0 {
            Some(v)
        } else {
            None
        },
        None => None,
    }
}

/// The variable that holds the base address.
pub open spec fn base_env(transport: Seq<char>) -> Seq<char> {
    if transport == "openai_chat"@ || transport == "openai_responses"@ {
        "CSSWITCH_OPENAI_BASE_URL"@
    } else {
        "CSSWITCH_RELAY_BASE_URL"@
    }
}

/// Whether a text is the address of a web server.
pub open spec fn is_web_address(s: Seq<char>) -> bool {
    "http://"@.is_prefix_of(s) || "https://"@.is_prefix_of(s)
}

/// The base address of the environment.
pub open spec fn base_address(env: Seq<(Seq<char>, Seq<char>)>, transport: Seq<char>) -> Option<Seq<char>> {
    match value_of(env, base_env(transport)) {
        Some(v) => if is_web_address(without_end(trimmed(v), '/')) {
            Some(without_end(trimmed(v), '/'))
        } else {
            None
        },
        None => None,
    }
}

/// Where the upstream is, where its models are listed, and the policy on thinking.
#[verifier::ext_equal]
pub struct PlacesV {
    pub upstream: Seq<char>,
    pub models_url: Option<Seq<char>>,
    pub relay_thinking: Option<Seq<char>>,
}

pub open spec fn places(provider: Seq<char>, contract: RuntimeV, env: Seq<(Seq<char>, Seq<char>)>) -> Result<
    PlacesV,
    Seq<char>,
> {
    if contract.endpoint_policy != "profile_required"@ {
        Ok(PlacesV { upstream: DEFAULT_UPSTREAM_URL@, models_url: None, relay_thinking: None })
    } else {
        match base_address(env, contract.transport) {
            None => Err(provider + " 需要 "@ + base_env(contract.transport) + "=http(s)://..."@),
            Some(base) => match endpoints(contract.endpoint_join, contract.transport, base) {
                Err(e) => Err(e),
                Ok((upstream, models_url)) => Ok(
                    PlacesV {
                        upstream,
                        models_url,
                        relay_thinking: thinking_policy(
                            value_of(env, "CSSWITCH_RELAY_THINKING"@),
                            contract.thinking_policy,
                        ),
                    },
                ),
            },
        }
    }
}

/// The identity of this start.
pub open spec fn launch_id_of(env: Seq<(Seq<char>, Seq<char>)>) -> Seq<char> {
    match value_of(env, "CSSWITCH_LAUNCH_ID"@) {
        Some(v) => trimmed(v),
        None => Seq::empty(),
    }
}

pub open spec fn hex_char(c: char) -> bool {
    ('0' <= c && c <= '9') || ('a' <= c && c <= 'f') || ('A' <= c && c <= 'F')
}

/// Whether a start was managed: its identity has the form that a process manager gives.
pub open spec fn is_managed(launch_id: Seq<char>) -> bool {
    24 <= encode_utf8(launch_id).len() <= 128 && forall|i: int| 0 <= i < launch_id.len() ==> hex_char(#[trigger] launch_id[i])
}

/// What the profile's catalog of models comes to; it counts only where one is set.
pub open spec fn static_models(env: Seq<(Seq<char>, Seq<char>)>, read: Result<Seq<char>, Seq<char>>) -> Result<
    Option<Seq<char>>,
    Seq<char>,
> {
    match value_of(env, STATIC_CATALOG_ENV@) {
        Some(v) => if is_blank(v) {
            Ok(None)
        } else {
            match read {
                Ok(adapter) => Ok(Some(adapter)),
                Err(e) => Err(e),
            }
        },
        None => Ok(None),
    }
}

/// The fault of a catalog of models for an intent.
pub open spec fn models_fault(intent: GatewayIntent, provider: Seq<char>, models: Option<Seq<char>>) -> Option<Seq<char>> {
    match (intent, models) {
        (GatewayIntent::ScratchModels, Some(_)) => Some("scratch-models 禁止注入静态模型目录"@),
        (GatewayIntent::ScratchModels, None) => None,
        (_, None) => Some(provider + " 缺少 "@ + STATIC_CATALOG_ENV@),
        (_, Some(adapter)) => if adapter != provider {
            Some("静态模型目录 adapter 与 gateway provider 不一致"@)
        } else {
            None
        },
    }
}

/// The setup that follows when the contract is chosen.
pub open spec fn config_under(
    args: ArgsV,
    env: Seq<(Seq<char>, Seq<char>)>,
    contract: RuntimeV,
    read: Result<Seq<char>, Seq<char>>,
) -> Result<ConfigV, Seq<char>> {
    let id = value_of(env, "CSSWITCH_PROVIDER_CONTRACT_ID"@);
    let digest = value_of(env, "CSSWITCH_PROVIDER_CONTRACT_DIGEST"@);
    match credential(contract, env) {
        Err(e) => Err(e),
        Ok(api_key) => match places(args.provider, contract, env) {
            Err(e) => Err(e),
            Ok(found) => if is_managed(launch_id_of(env)) && (id is None || digest is None) {
                Err("managed gateway launch requires an exact provider contract identity"@)
            } else {
                match (static_models(env, read), intent_of(value_of(env, GATEWAY_INTENT_ENV@))) {
                    (Err(e), _) => Err(e),
                    (_, None) => Err(GATEWAY_INTENT_ENV@ + " 非法"@),
                    (Ok(models), Some(intent)) => if models_fault(intent, args.provider, models) is Some {
                        Err(models_fault(intent, args.provider, models).unwrap())
                    } else {
                        match args.port {
                            None => Err("--port 必填"@),
                            Some(port) => Ok(
                                ConfigV {
                                    provider: args.provider,
                                    port,
                                    auth_secret: client_secret(env, args.auth_token),
                                    api_key,
                                    upstream_url: upstream_of(
                                        args.provider,
                                        found.upstream,
                                        value_of(env, "CSSWITCH_UPSTREAM_URL"@),
                                    ),
                                    models_url: found.models_url,
                                    relay_thinking: found.relay_thinking,
                                    provider_contract: Some(contract),
                                    intent,
                                    static_model_adapter: models,
                                    shim_mode: "off"@,
                                    launch_id: launch_id_of(env),
                                    web_search: true,
                                },
                            ),
                        }
                    },
                }
            },
        },
    }
}

/// The setup from arguments and environment.
pub open spec fn config_of(
    args: Seq<Seq<char>>,
    env: Seq<(Seq<char>, Seq<char>)>,
    catalog_text: Seq<char>,
    read: Result<Seq<char>, Seq<char>>,
) -> Result<ConfigV, Seq<char>> {
    match parsed_args(args, 1, default_args()) {
        Err(e) => Err(e),
        Ok(parsed) => if !is_supported(parsed.provider, "off"@) {
            Err("只支持 deepseek 与 relay 两个 adapter（provider="@ + parsed.provider + ", shim="@ + "off"@ + "）"@)
        } else {
            match chosen_contract(
                catalog_text,
                parsed.provider,
                value_of(env, "CSSWITCH_PROVIDER_CONTRACT_ID"@),
                value_of(env, "CSSWITCH_PROVIDER_CONTRACT_DIGEST"@),
            ) {
                Err(e) => Err(e),
                Ok(contract) => config_under(parsed, env, contract, read),
            }
        },
    }
}

fn read_credential(contract: &ProviderRuntimeContract, env: &Vec<(String, String)>) -> (out: Result<
    Option<String>,
    String,
>)
    ensures
        match (out, credential(contract@, pairs_view(env@))) {
            (Ok(key), Ok(meant)) => opt_owned(key) == meant,
            (Err(e), Err(reason)) => e@ == reason,
            _ => false,
        },
{
    let name = match &contract.api_key_env {
        Some(n) => n.as_str(),
        None => "",
    };
    let mode = contract.auth_mode.as_str();
    if same(mode, "csswitch_oauth") || same(mode, "none") {
        Ok(None)
    } else if same(mode, "api_key") {
        match say(look_up(env, name)) {
            Some(key) => Ok(Some(key)),
            None => Err(concat("缺少 ", name)),
        }
    } else {
        Err("provider contract auth mode is unsupported".to_owned())
    }
}

fn read_client_secret(env: &Vec<(String, String)>, argument: Option<String>) -> (out: Option<String>)
    ensures
        opt_owned(out) == client_secret(pairs_view(env@), opt_owned(argument)),
{
    if let Some(v) = look_up(env, "CSSWITCH_AUTH_TOKEN") {
        if !v.is_empty() {
            return Some(v.to_owned());
        }
    }
    match argument {
        Some(v) => if v.as_str().is_empty() {
            None
        } else {
            Some(v)
        },
        None => None,
    }
}

fn name_of_base(transport: &str) -> (name: &'static str)
    ensures
        name@ == base_env(transport@),
{
    if same(transport, "openai_chat") || same(transport, "openai_responses") {
        "CSSWITCH_OPENAI_BASE_URL"
    } else {
        "CSSWITCH_RELAY_BASE_URL"
    }
}

struct Places {
    upstream: String,
    models_url: Option<String>,
    relay_thinking: Option<String>,
}

impl View for Places {
    type V = PlacesV;

    closed spec fn view(&self) -> PlacesV {
        PlacesV {
            upstream: self.upstream@,
            models_url: opt_owned(self.models_url),
            relay_thinking: opt_owned(self.relay_thinking),
        }
    }
}

fn read_places(provider: &str, contract: &ProviderRuntimeContract, env: &Vec<(String, String)>) -> (out: Result<
    Places,
    String,
>)
    ensures
        match (out, places(provider@, contract@, pairs_view(env@))) {
            (Ok(found), Ok(meant)) => found@ == meant,
            (Err(e), Err(reason)) => e@ == reason,
            _ => false,
        },
{
    if !same(contract.endpoint_policy.as_str(), "profile_required") {
        return Ok(Places { upstream: DEFAULT_UPSTREAM_URL.to_owned(), models_url: None, relay_thinking: None });
    }
    let name = name_of_base(contract.transport.as_str());
    let base = match look_up(env, name) {
        Some(v) => {
            let base = trim_end_char(trim(v).as_str(), '/');
            if starts_with(base.as_str(), "http://") || starts_with(base.as_str(), "https://") {
                Some(base)
            } else {
                None
            }
        },
        None => None,
    };
    match base {
        None => {
            let start = concat(provider, " 需要 ");
            let middle = concat(start.as_str(), name);
            Err(concat(middle.as_str(), "=http(s)://..."))
        },
        Some(base) => match joined_endpoints(contract.endpoint_join, contract.transport.as_str(), base.as_str()) {
            Err(e) => Err(e),
            Ok((upstream, models_url)) => Ok(
                Places {
                    upstream,
                    models_url,
                    relay_thinking: resolve_relay_thinking(
                        look_up(env, "CSSWITCH_RELAY_THINKING"),
                        contract.thinking_policy.as_str(),
                    ),
                },
            ),
        },
    }
}

fn all_hex(s: &str) -> (yes: bool)
    ensures
        yes == (forall|i: int| 0 <= i < s@.len() ==> hex_char(#[trigger] s@[i])),
{
    let chars = chars_of(s);
    let mut i: usize = 0;
    while i < chars.len()
        invariant
            i <= chars@.len(),
            chars@ == s@,
            forall|k: int| 0 <= k < i ==> hex_char(#[trigger] s@[k]),
        decreases chars@.len() - i,
    {
        let c = chars[i];
        if !(('0' <= c && c <= '9') || ('a' <= c && c <= 'f') || ('A' <= c && c <= 'F')) {
            assert(!hex_char(s@[i as int]));
            return false;
        }
        i = i + 1;
    }
    true
}

pub open spec fn read_view(read: Result<String, String>) -> Result<Seq<char>, Seq<char>> {
    match read {
        Ok(adapter) => Ok(adapter@),
        Err(e) => Err(e@),
    }
}

fn read_models(env: &Vec<(String, String)>, read: Result<String, String>) -> (out: Result<Option<String>, String>)
    ensures
        match (out, static_models(pairs_view(env@), read_view(read))) {
            (Ok(models), Ok(meant)) => opt_owned(models) == meant,
            (Err(e), Err(reason)) => e@ == reason,
            _ => false,
        },
{
    let set = match look_up(env, STATIC_CATALOG_ENV) {
        Some(v) => !blank(v),
        None => false,
    };
    if !set {
        return Ok(None);
    }
    match read {
        Ok(adapter) => Ok(Some(adapter)),
        Err(e) => Err(e),
    }
}

fn check_models(intent: GatewayIntent, provider: &str, models: &Option<String>) -> (fault: Option<String>)
    ensures
        opt_owned(fault) == models_fault(intent, provider@, opt_owned(*models)),
{
    match intent {
        GatewayIntent::ScratchModels => {
            if models.is_some() {
                Some("scratch-models 禁止注入静态模型目录".to_owned())
            } else {
                None
            }
        },
        _ => match models {
            None => {
                let start = concat(provider, " 缺少 ");
                Some(concat(start.as_str(), STATIC_CATALOG_ENV))
            },
            Some(adapter) => if same(adapter.as_str(), provider) {
                None
            } else {
                Some("静态模型目录 adapter 与 gateway provider 不一致".to_owned())
            },
        },
    }
}

impl GatewayConfig {
    /// The setup of the active channel.
    pub fn for_channel(profile: &Profile, catalog_text: &str, web_search: bool) -> (out: Result<GatewayConfig, String>)
        ensures
            match (out, channel_config(profile@, catalog_text@, web_search)) {
                (Ok(config), Ok(meant)) => config@ == meant,
                (Err(e), Err(reason)) => e@ == reason,
                _ => false,
            },
    {
        let (adapter, contract_id) = match profile.mode.contract() {
            Some(names) => names,
            None => {
                return Err("官方模式不使用渠道配置".to_owned());
            },
        };
        let channel = match profile.channel(&profile.mode) {
            Some(channel) => channel,
            None => {
                return Err("官方模式不使用渠道配置".to_owned());
            },
        };
        match channel.validate() {
            Ok(_) => {},
            Err(e) => {
                return Err(e);
            },
        }
        let digest = catalog_digest(catalog_text);
        let contract = match load_runtime_contract(
            catalog_text,
            adapter,
            Some(contract_id),
            Some(digest.as_str()),
        ) {
            Ok(contract) => contract,
            Err(e) => {
                return Err(e);
            },
        };
        let base = trim_end_char(trim(channel.base_url.as_str()).as_str(), '/');
        match joined_endpoints(contract.endpoint_join, contract.transport.as_str(), base.as_str()) {
            Err(e) => Err(e),
            Ok((upstream_url, models_url)) => {
                let relay_thinking = resolve_relay_thinking(None, contract.thinking_policy.as_str());
                Ok(
                    GatewayConfig {
                        provider: adapter.to_owned(),
                        port: profile.port,
                        auth_secret: None,
                        api_key: Some(trim(channel.api_key.as_str())),
                        upstream_url,
                        models_url,
                        relay_thinking,
                        provider_contract: Some(contract),
                        intent: GatewayIntent::Formal,
                        static_model_adapter: Some(adapter.to_owned()),
                        shim_mode: "off".to_owned(),
                        launch_id: String::new(),
                        web_search,
                    },
                )
            },
        }
    }

    /// The setup from the arguments and the environment. `models` is what reading the profile's
    /// catalog of models came to; it counts only where the environment holds one.
    pub fn from_env_args(
        args: &Vec<String>,
        env: &Vec<(String, String)>,
        catalog_text: &str,
        models: Result<String, String>,
    ) -> (out: Result<GatewayConfig, String>)
        ensures
            match (out, config_of(texts(args@), pairs_view(env@), catalog_text@, read_view(models))) {
                (Ok(config), Ok(meant)) => config@ == meant,
                (Err(e), Err(reason)) => e@ == reason,
                _ => false,
            },
    {
        let parsed = match parse_args(args) {
            Ok(parsed) => parsed,
            Err(e) => {
                return Err(e);
            },
        };
        let provider = parsed.provider.as_str();
        let shim = canonical_shim_mode(provider, look_up(env, "CSSWITCH_TOOLUSE_SHIM"));
        if !provider_supported(provider, shim) {
            let start = concat("只支持 deepseek 与 relay 两个 adapter（provider=", provider);
            let middle = concat(start.as_str(), ", shim=");
            let shown = concat(middle.as_str(), shim);
            return Err(concat(shown.as_str(), "）"));
        }
        let expected_id = look_up(env, "CSSWITCH_PROVIDER_CONTRACT_ID");
        let expected_digest = look_up(env, "CSSWITCH_PROVIDER_CONTRACT_DIGEST");
        let contract = match load_runtime_contract(catalog_text, provider, expected_id, expected_digest) {
            Ok(contract) => contract,
            Err(e) => {
                return Err(e);
            },
        };
        let api_key = match read_credential(&contract, env) {
            Ok(api_key) => api_key,
            Err(e) => {
                return Err(e);
            },
        };
        let found = match read_places(provider, &contract, env) {
            Ok(found) => found,
            Err(e) => {
                return Err(e);
            },
        };
        let launch_id = match look_up(env, "CSSWITCH_LAUNCH_ID") {
            Some(v) => trim(v),
            None => String::new(),
        };
        let length: usize = byte_len(launch_id.as_str());
        if 24 <= length && length <= 128 && all_hex(launch_id.as_str()) && (expected_id.is_none()
            || expected_digest.is_none()) {
            return Err("managed gateway launch requires an exact provider contract identity".to_owned());
        }
        let static_model_adapter = match read_models(env, models) {
            Ok(models) => models,
            Err(e) => {
                return Err(e);
            },
        };
        let intent = match GatewayIntent::from_value(look_up(env, GATEWAY_INTENT_ENV)) {
            Ok(intent) => intent,
            Err(e) => {
                return Err(e);
            },
        };
        if let Some(e) = check_models(intent, provider, &static_model_adapter) {
            return Err(e);
        }
        let port: u16 = match parsed.port {
            Some(port) => port,
            None => {
                return Err("--port 必填".to_owned());
            },
        };
        let upstream_url = upstream_url_for(provider, found.upstream, owned(look_up(env, "CSSWITCH_UPSTREAM_URL")));
        let auth_secret = read_client_secret(env, parsed.auth_token);
        Ok(
            GatewayConfig {
                provider: parsed.provider,
                port,
                auth_secret,
                api_key,
                upstream_url,
                models_url: found.models_url,
                relay_thinking: found.relay_thinking,
                provider_contract: Some(contract),
                intent,
                static_model_adapter,
                shim_mode: shim.to_owned(),
                launch_id,
                web_search: true,
            },
        )
    }
}

/// A base address and the addresses that were made of it lead to the same endpoints: a trailing
/// slash, a version and one of the paths behind it make no difference.
pub proof fn endpoints_lead_to_themselves(base: Seq<char>)
    ensures
        v1_root(v1_root(base) + "/messages"@) == v1_root(base),
        v1_root(v1_root(base) + "/models"@) == v1_root(base),
{
    reveal_strlit("/messages");
    reveal_strlit("/models");
    reveal_strlit("/v1");
    let root = v1_root(base);
    v1_root_ends_in_v1(base);
    let messages = root + "/messages"@;
    let models = root + "/models"@;
    assert(messages.last() == 's');
    assert(models.last() == 's');
    v1_root_starts_plainly(base);
    assert(messages[0] == root[0] && models[0] == root[0]);
    assert(trimmed(messages) == messages);
    assert(trimmed(models) == models);
    assert(messages.skip(root.len() as int) =~= "/messages"@);
    assert(models.skip(root.len() as int) =~= "/models"@);
    assert("/messages"@.is_suffix_of(messages));
    assert("/models"@.is_suffix_of(models));
    assert(messages.take(root.len() as int) =~= root);
    assert(models.take(root.len() as int) =~= root);
    assert(root.last() == '1');
    assert(without_end(root, '/') == root);
    assert(!("/messages"@.is_suffix_of(models))) by {
        if "/messages"@.is_suffix_of(models) {
            let cut = models.skip(models.len() - 9);
            assert(models[models.len() - 2] == 'l');
            assert(cut[7] == models[models.len() - 2]);
            assert("/messages"@[7] == 'e');
        }
    }
}

proof fn v1_root_starts_plainly(base: Seq<char>)
    ensures
        v1_root(base).len() > 0,
        !is_space(v1_root(base)[0]),
{
    reveal_strlit("/v1");
    let bare = without_end(trimmed(base), '/');
    trimmed_has_plain_ends(base);
    ends_keep_the_start(trimmed(base), '/');
    ends_keep_the_start(bare.take(bare.len() - "/messages"@.len()), '/');
    ends_keep_the_start(bare.take(bare.len() - "/models"@.len()), '/');
    v1_root_ends_in_v1(base);
}

proof fn v1_root_ends_in_v1(base: Seq<char>)
    ensures
        "/v1"@.is_suffix_of(v1_root(base)),
        v1_root(base).len() >= 3,
        v1_root(base).last() == '1',
{
    reveal_strlit("/v1");
    let root = without_path(without_end(trimmed(base), '/'));
    let out = v1_root(base);
    if !"/v1"@.is_suffix_of(root) {
        assert(out.skip(root.len() as int) =~= "/v1"@);
    }
    let cut = out.skip(out.len() - 3);
    assert(cut[2] == out.last());
}

} // verus!
