//! The local control interface: the gateway's state, settings, modes and log.
//!
//! The paths of inference, of control and of the console stand side by side; any other is refused, so
//! that a client's call to a path that the gateway does not know shows at once.
use crate::client::{Client, ClientV};
use crate::json::{Json, JsonV, NumberV};
use crate::json_model::{group_json_views, json_parse_bytes, list_view};
use crate::kimi_coding_search::number;
use crate::profile::{channel_fault, channel_of, mode_named, Channel, ChannelV, Mode, ModelSlot, Profile, ProfileV, SlotV};
use crate::provider_contracts::opt_owned;
use crate::sandbox::{opt_string, optional_text};
use crate::text::{
    blank, chars_of, concat, contains_text, decimal, ends_with, group_texts, is_blank, number_text, opt_text,
    pairs_view, parse_unsigned, same, strip_prefix, text_of, texts, trim, trim_end_char, trimmed, unsigned_number,
    without_end, without_start,
};
use crate::upstream_url::{parse_parts, url_parts, UrlParts, UrlPartsV};
use crate::wire::{first_value, header_value, parted, split_once};
use vstd::prelude::*;
use vstd::utf8::encode_utf8;

verus! {

broadcast use {group_json_views, group_texts};

/// How many entries the log keeps.
pub const MAX_LOG_ENTRIES: usize = 300;

/// The most bytes of a request's body.
pub const MAX_BODY_BYTES: usize = 67_108_864;

/// The state of the service: the settings, the log and the port.
pub struct AppState {
    pub profile: Profile,
    pub log: Vec<Json>,
    pub port: u16,
}

pub struct StateV {
    pub profile: ProfileV,
    pub log: Seq<JsonV>,
    pub port: u16,
}

impl View for AppState {
    type V = StateV;

    open spec fn view(&self) -> StateV {
        StateV { profile: self.profile@, log: list_view(self.log@), port: self.port }
    }
}

/// The last entries of a log.
pub open spec fn kept(log: Seq<JsonV>) -> Seq<JsonV> {
    if log.len() > MAX_LOG_ENTRIES {
        log.skip(log.len() - MAX_LOG_ENTRIES)
    } else {
        log
    }
}

/// What the log keeps when entries come one by one is the end of all that came.
pub proof fn the_newest_entries_are_kept(all: Seq<JsonV>, entry: JsonV)
    ensures
        kept(kept(all).push(entry)) == kept(all.push(entry)),
        kept(all.push(entry)).len() <= MAX_LOG_ENTRIES,
        kept(all.push(entry)).last() == entry,
{
    if all.len() > MAX_LOG_ENTRIES {
        let tail = all.skip(all.len() - MAX_LOG_ENTRIES);
        assert(kept(tail.push(entry)) =~= kept(all.push(entry)));
    }
}

impl AppState {
    pub fn new(profile: Profile, port: u16) -> (state: AppState)
        ensures
            state@ == (StateV { profile: profile@, log: Seq::empty(), port }),
    {
        let log: Vec<Json> = Vec::new();
        assert(list_view(log@) =~= Seq::empty());
        AppState { profile, log, port }
    }

    /// Adds an entry to the log; where it would hold too many, the oldest leave.
    pub fn record(&mut self, entry: Json)
        ensures
            final(self)@ == (StateV { log: kept(old(self)@.log.push(entry@)), ..old(self)@ }),
            final(self).log@.len() <= MAX_LOG_ENTRIES,
    {
        let ghost before = list_view(self.log@);
        let ghost all = before.push(entry@);
        self.log.push(entry);
        assert(list_view(self.log@) =~= all);
        let ghost mut gone: int = 0;
        assert(all.skip(0) =~= all);
        while self.log.len() > MAX_LOG_ENTRIES
            invariant
                0 <= gone <= all.len(),
                list_view(self.log@) == all.skip(gone),
                gone > 0 ==> all.len() - gone >= MAX_LOG_ENTRIES,
                self.profile == old(self).profile,
                self.port == old(self).port,
            decreases self.log@.len(),
        {
            let ghost now = self.log@;
            self.log.remove(0);
            assert(self.log@ =~= now.skip(1));
            assert(list_view(self.log@) =~= list_view(now).skip(1));
            assert(all.skip(gone).skip(1) =~= all.skip(gone + 1));
            proof {
                gone = gone + 1;
            }
        }
        assert(list_view(self.log@).len() == self.log@.len());
        assert(all.skip(0) =~= all);
    }

    /// The settings as they are.
    pub fn snapshot(&self) -> (profile: Profile)
        ensures
            profile@ == self@.profile,
    {
        self.profile.copy()
    }
}

/// The path of a target.
pub open spec fn path_of(target: Seq<char>) -> Seq<char> {
    match parted(target, '?') {
        Some((path, _)) => path,
        None => target,
    }
}

/// The path of a target.
pub fn request_path(target: &str) -> (path: String)
    ensures
        path@ == path_of(target@),
{
    match split_once(target, '?') {
        Some((path, _)) => path,
        None => target.to_owned(),
    }
}

/// Where a path leads.
#[derive(Debug)]
pub enum Route {
    Index,
    Control(String),
    Inference,
    Unknown,
}

pub enum RouteV {
    Index,
    Control(Seq<char>),
    Inference,
    Unknown,
}

impl View for Route {
    type V = RouteV;

    open spec fn view(&self) -> RouteV {
        match *self {
            Route::Index => RouteV::Index,
            Route::Control(action) => RouteV::Control(action@),
            Route::Inference => RouteV::Inference,
            Route::Unknown => RouteV::Unknown,
        }
    }
}

/// Where a path leads.
pub open spec fn route_of(path: Seq<char>) -> RouteV {
    if path == "/"@ || path == "/ui"@ || path == "/ui/"@ {
        RouteV::Index
    } else if "/control/"@.is_prefix_of(path) {
        RouteV::Control(path.skip("/control/"@.len() as int))
    } else if path == "/v1/messages"@ || path == "/v1/models"@ {
        RouteV::Inference
    } else {
        RouteV::Unknown
    }
}

/// Where a path leads.
pub fn route(path: &str) -> (out: Route)
    ensures
        out@ == route_of(path@),
{
    if same(path, "/") || same(path, "/ui") || same(path, "/ui/") {
        return Route::Index;
    }
    match strip_prefix(path, "/control/") {
        Some(action) => Route::Control(action),
        None => if same(path, "/v1/messages") || same(path, "/v1/models") {
            Route::Inference
        } else {
            Route::Unknown
        },
    }
}

/// The answer to a path that leads nowhere.
pub fn not_found(path: &str) -> (tree: Json)
    ensures
        tree@ == JsonV::object().and("type"@, JsonV::Str("error"@)).and(
            "error"@,
            JsonV::object().and("type"@, JsonV::Str("not_found_error"@)).and("message"@, JsonV::Str(path@)),
        ),
{
    let error = Json::object().and("type", Json::text("not_found_error")).and("message", Json::text(path));
    Json::object().and("type", Json::text("error")).and("error", error)
}

/// What a request to the control interface asks for.
#[derive(Clone, Copy, PartialEq, Eq, Debug, Structural)]
pub enum ControlAction {
    Status,
    Logs,
    SaveConfig,
    SwitchMode,
    ProbeModels,
    StartScience,
    StopScience,
    Quit,
    ScienceUrl,
}

/// What a method and an action ask for.
pub open spec fn control_of(method: Seq<char>, action: Seq<char>) -> Option<ControlAction> {
    if method == "GET"@ {
        if action == "status"@ {
            Some(ControlAction::Status)
        } else if action == "logs"@ {
            Some(ControlAction::Logs)
        } else if action == "science/url"@ {
            Some(ControlAction::ScienceUrl)
        } else {
            None
        }
    } else if method == "POST"@ {
        if action == "config"@ {
            Some(ControlAction::SaveConfig)
        } else if action == "switch"@ {
            Some(ControlAction::SwitchMode)
        } else if action == "probe-models"@ {
            Some(ControlAction::ProbeModels)
        } else if action == "science/start"@ {
            Some(ControlAction::StartScience)
        } else if action == "science/stop"@ {
            Some(ControlAction::StopScience)
        } else if action == "quit"@ {
            Some(ControlAction::Quit)
        } else {
            None
        }
    } else {
        None
    }
}

/// What a method and an action ask for, or the refusal where they ask for nothing.
pub fn control_action(method: &str, action: &str) -> (out: Result<ControlAction, String>)
    ensures
        match (out, control_of(method@, action@)) {
            (Ok(asked), Some(meant)) => asked == meant,
            (Err(e), None) => e@ == "未知控制操作:"@ + method@ + " "@ + action@,
            _ => false,
        },
{
    if same(method, "GET") {
        if same(action, "status") {
            return Ok(ControlAction::Status);
        }
        if same(action, "logs") {
            return Ok(ControlAction::Logs);
        }
        if same(action, "science/url") {
            return Ok(ControlAction::ScienceUrl);
        }
    } else if same(method, "POST") {
        if same(action, "config") {
            return Ok(ControlAction::SaveConfig);
        }
        if same(action, "switch") {
            return Ok(ControlAction::SwitchMode);
        }
        if same(action, "probe-models") {
            return Ok(ControlAction::ProbeModels);
        }
        if same(action, "science/start") {
            return Ok(ControlAction::StartScience);
        }
        if same(action, "science/stop") {
            return Ok(ControlAction::StopScience);
        }
        if same(action, "quit") {
            return Ok(ControlAction::Quit);
        }
    }
    let mut refusal = concat("未知控制操作:", method);
    refusal.append(" ");
    refusal.append(action);
    Err(refusal)
}

/// How the outcome of a request to the control interface is answered.
pub fn control_answer(result: Result<Json, String>) -> (answer: (u16, Json))
    ensures
        match result {
            Ok(tree) => answer.0 == 200 && answer.1@ == tree@,
            Err(e) => answer.0 == 400 && answer.1@ == JsonV::object().and("error"@, JsonV::Str(e@)),
        },
{
    match result {
        Ok(tree) => (200, tree),
        Err(e) => (400, Json::object().and("error", Json::text(e.as_str()))),
    }
}

/// The entries of the log as the console is told them.
pub fn logs_payload(state: &AppState) -> (tree: Json)
    ensures
        tree@ == JsonV::object().and("entries"@, JsonV::Array(state@.log)),
{
    let mut entries: Vec<Json> = Vec::new();
    let ghost all = list_view(state.log@);
    let mut i: usize = 0;
    assert(list_view(entries@) =~= all.take(0));
    while i < state.log.len()
        invariant
            i <= state.log@.len(),
            all == list_view(state.log@),
            list_view(entries@) == all.take(i as int),
        decreases state.log@.len() - i,
    {
        let ghost before = list_view(entries@);
        let entry = state.log[i].copy();
        let ghost tree = entry@;
        entries.push(entry);
        assert(list_view(entries@) =~= before.push(tree));
        assert(all.take(i + 1) =~= all.take(i as int).push(all[i as int]));
        i = i + 1;
    }
    assert(all.take(i as int) =~= all);
    Json::object().and("entries", Json::array(entries))
}

pub open spec fn slot_tree(slot: SlotV) -> JsonV {
    JsonV::object().and("model_id"@, JsonV::Str(slot.model_id)).and("display_name"@, JsonV::Str(slot.display_name))
}

/// What the console is told of a channel: of the key only whether there is one.
pub open spec fn channel_tree(channel: ChannelV) -> JsonV {
    JsonV::object().and("base_url"@, JsonV::Str(channel.base_url)).and(
        "has_api_key"@,
        JsonV::Bool(!is_blank(channel.api_key)),
    ).and("default_model"@, slot_tree(channel.default_model)).and("quality_model"@, slot_tree(channel.quality_model)).and(
        "fast_model"@,
        slot_tree(channel.fast_model),
    ).and("fable_model"@, slot_tree(channel.fable_model)).and("ready"@, JsonV::Bool(channel_fault(channel) is None))
}

fn slot_payload(slot: &ModelSlot) -> (tree: Json)
    ensures
        tree@ == slot_tree(slot@),
{
    Json::object().and("model_id", Json::text(slot.model_id.as_str())).and(
        "display_name",
        Json::text(slot.display_name.as_str()),
    )
}

/// What the console is told of a channel.
pub fn channel_payload(channel: &Channel) -> (tree: Json)
    ensures
        tree@ == channel_tree(channel@),
{
    let ready = match channel.validate() {
        Ok(_) => true,
        Err(_) => false,
    };
    Json::object().and("base_url", Json::text(channel.base_url.as_str())).and(
        "has_api_key",
        Json::Bool(!blank(channel.api_key.as_str())),
    ).and("default_model", slot_payload(&channel.default_model)).and("quality_model", slot_payload(&channel.quality_model)).and(
        "fast_model",
        slot_payload(&channel.fast_model),
    ).and("fable_model", slot_payload(&channel.fable_model)).and("ready", Json::Bool(ready))
}

/// Two channels that differ in their keys alone are told alike.
pub proof fn keys_are_untold(channel: ChannelV, key: Seq<char>)
    requires
        !is_blank(key),
        !is_blank(channel.api_key),
    ensures
        channel_tree(ChannelV { api_key: key, ..channel }) == channel_tree(channel),
{
}

/// The address of the service on the local machine.
pub open spec fn base_url_of(port: u16) -> Seq<char> {
    "http://127.0.0.1:"@ + decimal(port as nat)
}

/// The address of the service on the local machine.
pub fn service_base_url(port: u16) -> (url: String)
    ensures
        url@ == base_url_of(port),
{
    concat("http://127.0.0.1:", number_text(port as u64).as_str())
}

/// What the console is told of the service.
pub open spec fn status_tree(client: ClientV, state: StateV, science: JsonV) -> JsonV {
    JsonV::object().and("mode"@, JsonV::Str(state.profile.mode.name())).and(
        "mode_label"@,
        JsonV::Str(state.profile.mode.shown(client)),
    ).and("port"@, number(state.port as u64)).and("base_url"@, JsonV::Str(base_url_of(state.port))).and("science"@, science).and(
        "channels"@,
        JsonV::object().and("kimi"@, channel_tree(state.profile.kimi)).and("deepseek"@, channel_tree(state.profile.deepseek)),
    )
}

/// What the console is told of the service; `science` is what is known of the daemon.
pub fn status_payload(client: &Client, state: &AppState, science: Json) -> (tree: Json)
    ensures
        tree@ == status_tree(client@, state@, science@),
{
    let channels = Json::object().and("kimi", channel_payload(&state.profile.kimi)).and(
        "deepseek",
        channel_payload(&state.profile.deepseek),
    );
    Json::object().and("mode", Json::text(state.profile.mode.as_str())).and(
        "mode_label",
        Json::text(state.profile.mode.display_name(client).as_str()),
    ).and("port", Json::unsigned(state.port as u64)).and(
        "base_url",
        Json::text(service_base_url(state.port).as_str()),
    ).and("science", science).and("channels", channels)
}

/// What a request makes of a model slot.
pub enum SlotEdit {
    Keep,
    Slot(ModelSlot),
    Fault(String),
}

pub enum SlotEditV {
    Keep,
    Slot(SlotV),
    Fault(Seq<char>),
}

impl View for SlotEdit {
    type V = SlotEditV;

    open spec fn view(&self) -> SlotEditV {
        match *self {
            SlotEdit::Keep => SlotEditV::Keep,
            SlotEdit::Slot(slot) => SlotEditV::Slot(slot@),
            SlotEdit::Fault(detail) => SlotEditV::Fault(detail@),
        }
    }
}

/// What a request makes of a channel's model slots.
pub struct SlotEdits {
    pub default_model: SlotEdit,
    pub quality_model: SlotEdit,
    pub fast_model: SlotEdit,
    pub fable_model: SlotEdit,
}

pub struct SlotEditsV {
    pub default_model: SlotEditV,
    pub quality_model: SlotEditV,
    pub fast_model: SlotEditV,
    pub fable_model: SlotEditV,
}

impl View for SlotEdits {
    type V = SlotEditsV;

    open spec fn view(&self) -> SlotEditsV {
        SlotEditsV {
            default_model: self.default_model@,
            quality_model: self.quality_model@,
            fast_model: self.fast_model@,
            fable_model: self.fable_model@,
        }
    }
}

pub open spec fn slot_fault(field: Seq<char>, edit: SlotEditV) -> Option<Seq<char>> {
    match edit {
        SlotEditV::Fault(detail) => Some(field + " 格式非法:"@ + detail),
        _ => None,
    }
}

/// The first fault in what a request makes of the slots.
pub open spec fn edits_fault(edits: SlotEditsV) -> Option<Seq<char>> {
    match (
        slot_fault("default_model"@, edits.default_model),
        slot_fault("quality_model"@, edits.quality_model),
        slot_fault("fast_model"@, edits.fast_model),
        slot_fault("fable_model"@, edits.fable_model),
    ) {
        (Some(e), _, _, _) => Some(e),
        (_, Some(e), _, _) => Some(e),
        (_, _, Some(e), _) => Some(e),
        (_, _, _, e) => e,
    }
}

pub open spec fn edited_slot(slot: SlotV, edit: SlotEditV) -> SlotV {
    match edit {
        SlotEditV::Slot(new) => new,
        _ => slot,
    }
}

/// A channel as a request leaves it. A key that is left blank stays what it was.
pub open spec fn edited_channel(channel: ChannelV, payload: JsonV, edits: SlotEditsV) -> ChannelV {
    ChannelV {
        base_url: match payload.text_at("base_url"@) {
            Some(url) => trimmed(url),
            None => channel.base_url,
        },
        api_key: match payload.text_at("api_key"@) {
            Some(key) => if is_blank(key) {
                channel.api_key
            } else {
                trimmed(key)
            },
            None => channel.api_key,
        },
        default_model: edited_slot(channel.default_model, edits.default_model),
        quality_model: edited_slot(channel.quality_model, edits.quality_model),
        fast_model: edited_slot(channel.fast_model, edits.fast_model),
        fable_model: edited_slot(channel.fable_model, edits.fable_model),
    }
}

/// Settings with another channel for a mode.
pub open spec fn with_channel(profile: ProfileV, mode: Mode, channel: ChannelV) -> ProfileV {
    match mode {
        Mode::Official => profile,
        Mode::Kimi => ProfileV { kimi: channel, ..profile },
        Mode::Deepseek => ProfileV { deepseek: channel, ..profile },
    }
}

/// What the console is told of settings that were saved.
pub open spec fn saved_tree(channel: ChannelV) -> JsonV {
    JsonV::object().and("ok"@, JsonV::Bool(true)).and("channel"@, channel_tree(channel)).and(
        "note"@,
        JsonV::Str("已保存。运行中的链路不变,下次切换或重启 Science 时生效。"@),
    )
}

/// The settings that a request leaves and what it is answered, or why it is refused.
pub open spec fn config_of(payload: JsonV, edits: SlotEditsV, profile: ProfileV) -> Result<(ProfileV, JsonV), Seq<char>> {
    match payload.text_at("channel"@) {
        None => Err("缺少 channel"@),
        Some(name) => match mode_named(name) {
            None => Err("未知 channel"@),
            Some(mode) => match channel_of(profile, mode) {
                None => Err("官方模式无需配置"@),
                Some(channel) => match edits_fault(edits) {
                    Some(e) => Err(e),
                    None => {
                        let new = edited_channel(channel, payload, edits);
                        Ok((with_channel(profile, mode, new), saved_tree(new)))
                    },
                },
            },
        },
    }
}

fn read_slot_fault(field: &str, edit: &SlotEdit) -> (fault: Option<String>)
    ensures
        opt_owned(fault) == slot_fault(field@, edit@),
{
    match edit {
        SlotEdit::Fault(detail) => {
            let start = concat(field, " 格式非法:");
            Some(concat(start.as_str(), detail.as_str()))
        },
        _ => None,
    }
}

fn read_edits_fault(edits: &SlotEdits) -> (fault: Option<String>)
    ensures
        opt_owned(fault) == edits_fault(edits@),
{
    match read_slot_fault("default_model", &edits.default_model) {
        Some(e) => Some(e),
        None => match read_slot_fault("quality_model", &edits.quality_model) {
            Some(e) => Some(e),
            None => match read_slot_fault("fast_model", &edits.fast_model) {
                Some(e) => Some(e),
                None => read_slot_fault("fable_model", &edits.fable_model),
            },
        },
    }
}

fn edit_slot(slot: &ModelSlot, edit: &SlotEdit) -> (out: ModelSlot)
    ensures
        out@ == edited_slot(slot@, edit@),
{
    match edit {
        SlotEdit::Slot(new) => new.copy(),
        _ => slot.copy(),
    }
}

fn edit_channel(channel: &Channel, payload: &Json, edits: &SlotEdits) -> (out: Channel)
    ensures
        out@ == edited_channel(channel@, payload@, edits@),
{
    let base_url = match payload.str_at("base_url") {
        Some(url) => trim(url),
        None => channel.base_url.as_str().to_owned(),
    };
    let api_key = match payload.str_at("api_key") {
        Some(key) => if blank(key) {
            channel.api_key.as_str().to_owned()
        } else {
            trim(key)
        },
        None => channel.api_key.as_str().to_owned(),
    };
    Channel {
        base_url,
        api_key,
        default_model: edit_slot(&channel.default_model, &edits.default_model),
        quality_model: edit_slot(&channel.quality_model, &edits.quality_model),
        fast_model: edit_slot(&channel.fast_model, &edits.fast_model),
        fable_model: edit_slot(&channel.fable_model, &edits.fable_model),
    }
}

/// The settings that a request leaves, and what it is answered once they are stored.
pub fn apply_config(payload: &Json, edits: &SlotEdits, profile: &Profile) -> (out: Result<(Profile, Json), String>)
    ensures
        match (out, config_of(payload@, edits@, profile@)) {
            (Ok((new, reply)), Ok((meant, told))) => new@ == meant && reply@ == told,
            (Err(e), Err(reason)) => e@ == reason,
            _ => false,
        },
{
    let name = match payload.str_at("channel") {
        Some(name) => name,
        None => {
            return Err("缺少 channel".to_owned());
        },
    };
    let mode = match Mode::parse(name) {
        Some(mode) => mode,
        None => {
            return Err("未知 channel".to_owned());
        },
    };
    let channel = match profile.channel(&mode) {
        Some(channel) => channel,
        None => {
            return Err("官方模式无需配置".to_owned());
        },
    };
    if let Some(e) = read_edits_fault(edits) {
        return Err(e);
    }
    let new = edit_channel(channel, payload, edits);
    let reply = Json::object().and("ok", Json::Bool(true)).and("channel", channel_payload(&new)).and(
        "note",
        Json::text("已保存。运行中的链路不变,下次切换或重启 Science 时生效。"),
    );
    let mut saved = profile.copy();
    match mode {
        Mode::Kimi => {
            saved.kimi = new;
        },
        _ => {
            saved.deepseek = new;
        },
    }
    Ok((saved, reply))
}

/// The refusal of a body that is not JSON.
pub open spec fn not_json(detail: Seq<char>) -> Seq<char> {
    "请求体不是合法 JSON:"@ + detail
}

/// The settings that a request leaves, and what it is answered once they are stored; `edits` is what
/// its body makes of the slots.
pub fn save_config(body: &[u8], edits: &SlotEdits, state: &AppState) -> (out: Result<(Profile, Json), String>)
    ensures
        match json_parse_bytes(body@) {
            Err(detail) => out matches Err(e) && e@ == not_json(detail),
            Ok(payload) => match (out, config_of(payload, edits@, state@.profile)) {
                (Ok((new, reply)), Ok((meant, told))) => new@ == meant && reply@ == told,
                (Err(e), Err(reason)) => e@ == reason,
                _ => false,
            },
        },
{
    match Json::parse_bytes(body) {
        Ok(payload) => apply_config(&payload, edits, &state.profile),
        Err(detail) => Err(concat("请求体不是合法 JSON:", detail.as_str())),
    }
}

/// Saving settings touches one channel, and neither the mode nor the port; a blank key keeps the key.
pub proof fn other_settings_stay(payload: JsonV, edits: SlotEditsV, profile: ProfileV)
    ensures
        config_of(payload, edits, profile) matches Ok((new, _)) ==> {
            &&& new.mode == profile.mode && new.port == profile.port
            &&& new.kimi == profile.kimi || new.deepseek == profile.deepseek
            &&& (payload.text_at("api_key"@) matches Some(key) ==> is_blank(key)) ==> new.kimi.api_key
                == profile.kimi.api_key && new.deepseek.api_key == profile.deepseek.api_key
        },
{
}

/// The settings after a change of mode, and whether the daemon is restarted for it.
#[derive(Debug)]
pub struct SwitchPlan {
    pub profile: Profile,
    pub restart: bool,
}

/// Whether a flag is set.
pub open spec fn flag(tree: JsonV, key: Seq<char>) -> bool {
    tree.get(key) == Some(JsonV::Bool(true))
}

fn read_flag(tree: &Json, key: &str) -> (yes: bool)
    ensures
        yes == flag(tree@, key@),
{
    match tree.get(key) {
        Some(Json::Bool(b)) => *b,
        _ => false,
    }
}

/// The settings that a change of mode asks for and whether it is forced, or why it is refused. A channel
/// has to be complete before it becomes the mode.
pub open spec fn wanted_switch(payload: JsonV, profile: ProfileV) -> Result<(ProfileV, bool), Seq<char>> {
    match payload.text_at("mode"@) {
        None => Err("缺少 mode"@),
        Some(name) => match mode_named(name) {
            None => Err("未知 mode"@),
            Some(mode) => {
                let fault = match channel_of(profile, mode) {
                    Some(channel) => channel_fault(channel),
                    None => None,
                };
                match fault {
                    Some(e) => Err(e),
                    None => Ok((ProfileV { mode, ..profile }, flag(payload, "force"@))),
                }
            },
        },
    }
}

/// How many conversations the daemon holds, from what is known of it.
pub open spec fn active_conversations(science: JsonV) -> u64 {
    match science.get("detail"@) {
        Some(detail) => match detail.get("daemon"@) {
            Some(daemon) => match daemon.get("active_conversations"@) {
                Some(JsonV::Number(NumberV::PosInt(n))) => n,
                _ => 0,
            },
            None => 0,
        },
        None => 0,
    }
}

/// Whether a change of mode restarts the daemon, or why it is refused: a restart breaks off the
/// conversations that are held, and has to be forced then.
pub open spec fn restart_of(science: JsonV, forced: bool) -> Result<bool, Seq<char>> {
    let active = active_conversations(science);
    if flag(science, "running"@) && active > 0 && !forced {
        Err("有 "@ + decimal(active as nat) + " 个会话正在进行,切换会重启 Science 并打断它们。确认后重试。"@)
    } else {
        Ok(flag(science, "running"@))
    }
}

/// Whether a change of mode restarts the daemon.
pub fn decide_restart(science: &Json, forced: bool) -> (out: Result<bool, String>)
    ensures
        match (out, restart_of(science@, forced)) {
            (Ok(restart), Ok(meant)) => restart == meant,
            (Err(e), Err(reason)) => e@ == reason,
            _ => false,
        },
{
    let running = read_flag(science, "running");
    let active: u64 = match science.get("detail") {
        Some(detail) => match detail.get("daemon") {
            Some(daemon) => match daemon.u64_at("active_conversations") {
                Some(n) => n,
                None => 0,
            },
            None => 0,
        },
        None => 0,
    };
    if running && active > 0 && !forced {
        let start = concat("有 ", number_text(active).as_str());
        return Err(concat(start.as_str(), " 个会话正在进行,切换会重启 Science 并打断它们。确认后重试。"));
    }
    Ok(running)
}

/// The settings after a change of mode and whether the daemon is restarted, or why nothing is changed.
/// A restart that breaks off conversations has to be forced, so without that the settings stay.
pub open spec fn switch_of(payload: JsonV, profile: ProfileV, science: JsonV) -> Result<(ProfileV, bool), Seq<char>> {
    match wanted_switch(payload, profile) {
        Err(e) => Err(e),
        Ok((wanted, forced)) => match restart_of(science, forced) {
            Err(e) => Err(e),
            Ok(restart) => Ok((wanted, restart)),
        },
    }
}

/// Decides on a change of mode; `science` is what is known of the daemon. There are new settings only
/// where the daemon may be restarted.
pub fn plan_switch(payload: &Json, profile: &Profile, science: &Json) -> (out: Result<SwitchPlan, String>)
    ensures
        match (out, switch_of(payload@, profile@, science@)) {
            (Ok(plan), Ok((meant, restart))) => plan.profile@ == meant && plan.restart == restart,
            (Err(e), Err(reason)) => e@ == reason,
            _ => false,
        },
{
    let name = match payload.str_at("mode") {
        Some(name) => name,
        None => {
            return Err("缺少 mode".to_owned());
        },
    };
    let mode = match Mode::parse(name) {
        Some(mode) => mode,
        None => {
            return Err("未知 mode".to_owned());
        },
    };
    if let Some(channel) = profile.channel(&mode) {
        match channel.validate() {
            Ok(_) => {},
            Err(e) => {
                return Err(e);
            },
        }
    }
    let restart = match decide_restart(science, read_flag(payload, "force")) {
        Ok(restart) => restart,
        Err(e) => {
            return Err(e);
        },
    };
    let mut new = profile.copy();
    new.mode = mode;
    Ok(SwitchPlan { profile: new, restart })
}

/// Decides on the change of mode that a body asks for.
pub fn switch_mode(body: &[u8], state: &AppState, science: &Json) -> (out: Result<SwitchPlan, String>)
    ensures
        match json_parse_bytes(body@) {
            Err(detail) => out matches Err(e) && e@ == not_json(detail),
            Ok(payload) => match (out, switch_of(payload, state@.profile, science@)) {
                (Ok(plan), Ok((meant, restart))) => plan.profile@ == meant && plan.restart == restart,
                (Err(e), Err(reason)) => e@ == reason,
                _ => false,
            },
        },
{
    match Json::parse_bytes(body) {
        Ok(payload) => plan_switch(&payload, &state.profile, science),
        Err(detail) => Err(concat("请求体不是合法 JSON:", detail.as_str())),
    }
}

/// No change of mode breaks off conversations unless it is forced: it is refused, and there are no new
/// settings. A change that is made sets the mode that was asked for and leaves all else.
pub proof fn no_switch_is_silent(payload: JsonV, profile: ProfileV, science: JsonV)
    ensures
        flag(science, "running"@) && active_conversations(science) > 0 && !flag(payload, "force"@) ==> switch_of(
            payload,
            profile,
            science,
        ) is Err,
        switch_of(payload, profile, science) matches Ok((new, restart)) ==> {
            &&& payload.text_at("mode"@) is Some && mode_named(payload.text_at("mode"@).unwrap()) == Some(new.mode)
            &&& new == (ProfileV { mode: new.mode, ..profile })
            &&& restart == flag(science, "running"@)
        },
{
}

/// What the console is told of a change of mode.
pub fn switch_reply(client: &Client, mode: &Mode, restarted: bool, url: Option<&str>) -> (tree: Json)
    ensures
        tree@ == JsonV::object().and("ok"@, JsonV::Bool(true)).and("mode"@, JsonV::Str(mode.name())).and(
            "mode_label"@,
            JsonV::Str(mode.shown(client@)),
        ).and("science_restarted"@, JsonV::Bool(restarted)).and("url"@, opt_string(opt_text(url))),
{
    Json::object().and("ok", Json::Bool(true)).and("mode", Json::text(mode.as_str())).and(
        "mode_label",
        Json::text(mode.display_name(client).as_str()),
    ).and("science_restarted", Json::Bool(restarted)).and("url", optional_text(url))
}

/// What the console is told of a daemon that was started.
pub fn start_reply(url: Option<&str>) -> (tree: Json)
    ensures
        tree@ == JsonV::object().and("ok"@, JsonV::Bool(true)).and("url"@, opt_string(opt_text(url))),
{
    Json::object().and("ok", Json::Bool(true)).and("url", optional_text(url))
}

/// What a look for a channel's models goes by.
pub struct Probe {
    pub base_url: String,
    pub api_key: String,
}

pub struct ProbeV {
    pub base_url: Seq<char>,
    pub api_key: Seq<char>,
}

impl View for Probe {
    type V = ProbeV;

    open spec fn view(&self) -> ProbeV {
        ProbeV { base_url: self.base_url@, api_key: self.api_key@ }
    }
}

/// The key of the channel that a request names, as it is stored.
pub open spec fn stored_key(payload: JsonV, stored: ProfileV) -> Result<Seq<char>, Seq<char>> {
    let mode = match payload.text_at("channel"@) {
        Some(name) => mode_named(name),
        None => None,
    };
    match mode {
        None => Err("缺少 api_key 且未指定已保存的 channel"@),
        Some(mode) => match channel_of(stored, mode) {
            Some(channel) => if is_blank(channel.api_key) {
                Err("该渠道尚未保存 API Key"@)
            } else {
                Ok(channel.api_key)
            },
            None => Err("该渠道尚未保存 API Key"@),
        },
    }
}

/// What a look for a channel's models goes by: the key of the request, or else the one that is stored.
pub open spec fn probe_of(payload: JsonV, stored: ProfileV) -> Result<ProbeV, Seq<char>> {
    match payload.text_at("base_url"@) {
        None => Err("缺少 base_url"@),
        Some(url) => {
            let base_url = without_end(trimmed(url), '/');
            match payload.text_at("api_key"@) {
                Some(key) if !is_blank(key) => Ok(ProbeV { base_url, api_key: trimmed(key) }),
                _ => match stored_key(payload, stored) {
                    Ok(api_key) => Ok(ProbeV { base_url, api_key }),
                    Err(e) => Err(e),
                },
            }
        },
    }
}

fn read_stored_key(payload: &Json, stored: &Profile) -> (out: Result<String, String>)
    ensures
        match (out, stored_key(payload@, stored@)) {
            (Ok(key), Ok(meant)) => key@ == meant,
            (Err(e), Err(reason)) => e@ == reason,
            _ => false,
        },
{
    let mode = match payload.str_at("channel") {
        Some(name) => Mode::parse(name),
        None => None,
    };
    match mode {
        None => Err("缺少 api_key 且未指定已保存的 channel".to_owned()),
        Some(mode) => match stored.channel(&mode) {
            Some(channel) => if blank(channel.api_key.as_str()) {
                Err("该渠道尚未保存 API Key".to_owned())
            } else {
                Ok(channel.api_key.as_str().to_owned())
            },
            None => Err("该渠道尚未保存 API Key".to_owned()),
        },
    }
}

/// What a look for a channel's models goes by.
pub fn plan_probe(payload: &Json, stored: &Profile) -> (out: Result<Probe, String>)
    ensures
        match (out, probe_of(payload@, stored@)) {
            (Ok(probe), Ok(meant)) => probe@ == meant,
            (Err(e), Err(reason)) => e@ == reason,
            _ => false,
        },
{
    let base_url = match payload.str_at("base_url") {
        Some(url) => trim_end_char(trim(url).as_str(), '/'),
        None => {
            return Err("缺少 base_url".to_owned());
        },
    };
    if let Some(key) = payload.str_at("api_key") {
        if !blank(key) {
            return Ok(Probe { base_url, api_key: trim(key) });
        }
    }
    match read_stored_key(payload, stored) {
        Ok(api_key) => Ok(Probe { base_url, api_key }),
        Err(e) => Err(e),
    }
}

/// What a look for a channel's models that a body asks for goes by.
pub fn probe_models(body: &[u8], stored: &Profile) -> (out: Result<Probe, String>)
    ensures
        match json_parse_bytes(body@) {
            Err(detail) => out matches Err(e) && e@ == not_json(detail),
            Ok(payload) => match (out, probe_of(payload, stored@)) {
                (Ok(probe), Ok(meant)) => probe@ == meant,
                (Err(e), Err(reason)) => e@ == reason,
                _ => false,
            },
        },
{
    match Json::parse_bytes(body) {
        Ok(payload) => plan_probe(&payload, stored),
        Err(detail) => Err(concat("请求体不是合法 JSON:", detail.as_str())),
    }
}

/// The headers of a look for a channel's models.
pub fn probe_headers(api_key: &str) -> (headers: Vec<(String, String)>)
    ensures
        pairs_view(headers@) == seq![
            ("authorization"@, "Bearer "@ + api_key@),
            ("x-api-key"@, api_key@),
            ("anthropic-version"@, "2023-06-01"@),
        ],
{
    let mut headers: Vec<(String, String)> = Vec::new();
    headers.push(("authorization".to_owned(), concat("Bearer ", api_key)));
    headers.push(("x-api-key".to_owned(), api_key.to_owned()));
    headers.push(("anthropic-version".to_owned(), "2023-06-01".to_owned()));
    assert(pairs_view(headers@) =~= seq![
        ("authorization"@, "Bearer "@ + api_key@),
        ("x-api-key"@, api_key@),
        ("anthropic-version"@, "2023-06-01"@),
    ]);
    headers
}

/// The list of models below an address.
pub open spec fn models_below(base: Seq<char>) -> Seq<char> {
    if "/v1"@.is_suffix_of(base) {
        base + "/models"@
    } else {
        base + "/v1/models"@
    }
}

/// The list of models at the root of a service, where the address leads below it.
pub open spec fn models_at_root(parts: Option<UrlPartsV>) -> Option<Seq<char>> {
    match parts {
        Some(url) => match url.host {
            Some(host) => if without_end(without_start(url.path, '/'), '/').len() == 0 {
                None
            } else {
                Some(
                    url.scheme + "://"@ + host + (match url.port {
                        Some(port) => ":"@ + decimal(port as nat),
                        None => Seq::empty(),
                    }) + "/v1/models"@,
                )
            },
            None => None,
        },
        None => None,
    }
}

/// Where the list of a channel's models may be found, from the parts of its address.
pub open spec fn candidates_of(base: Seq<char>, parts: Option<UrlPartsV>) -> Seq<Seq<char>> {
    let first = models_below(base);
    match models_at_root(parts) {
        Some(root) => if root == first {
            seq![first]
        } else {
            seq![first, root]
        },
        None => seq![first],
    }
}

fn is_slashes(path: &str) -> (yes: bool)
    ensures
        yes == (without_end(without_start(path@, '/'), '/').len() == 0),
{
    let chars = chars_of(path);
    let mut i: usize = 0;
    assert(path@.skip(0) =~= path@);
    while i < chars.len()
        invariant
            i <= chars@.len(),
            chars@ == path@,
            without_start(path@, '/') == without_start(path@.skip(i as int), '/'),
        decreases chars@.len() - i,
    {
        let ghost rest = path@.skip(i as int);
        if chars[i] != '/' {
            assert(rest[0] == chars@[i as int]);
            assert(without_start(rest, '/') == rest);
            proof {
                start_stays(rest, '/');
            }
            return false;
        }
        assert(rest.drop_first() =~= path@.skip(i + 1));
        i = i + 1;
    }
    assert(path@.skip(i as int) =~= Seq::empty());
    true
}

proof fn start_stays(s: Seq<char>, c: char)
    requires
        s.len() > 0,
        s[0] != c,
    ensures
        without_end(s, c).len() > 0,
    decreases s.len(),
{
    if s.len() > 1 && s.last() == c {
        assert(s.drop_last()[0] == s[0]);
        start_stays(s.drop_last(), c);
    }
}

fn root_models(parts: &UrlParts) -> (url: Option<String>)
    ensures
        opt_owned(url) == models_at_root(Some(parts@)),
{
    match &parts.host {
        Some(host) => if is_slashes(parts.path.as_str()) {
            None
        } else {
            let mut url = concat(parts.scheme.as_str(), "://");
            url.append(host.as_str());
            match parts.port {
                Some(port) => {
                    url.append(":");
                    url.append(number_text(port as u64).as_str());
                },
                None => {},
            }
            url.append("/v1/models");
            assert(url@ =~= models_at_root(Some(parts@)).unwrap());
            Some(url)
        },
        None => None,
    }
}

/// Where the list of a channel's models may be found, from the parts of its address.
pub fn list_candidates(base: &str, parts: Option<&UrlParts>) -> (urls: Vec<String>)
    ensures
        texts(urls@) == candidates_of(
            base@,
            match parts {
                Some(p) => Some(p@),
                None => None,
            },
        ),
{
    let first = if ends_with(base, "/v1") {
        concat(base, "/models")
    } else {
        concat(base, "/v1/models")
    };
    let ghost one = first@;
    let root = match parts {
        Some(parts) => root_models(parts),
        None => None,
    };
    let mut urls: Vec<String> = Vec::new();
    urls.push(first);
    assert(texts(urls@) =~= seq![one]);
    if let Some(root) = root {
        let ghost two = root@;
        if !contains_text(&urls, root.as_str()) {
            assert(!seq![one].contains(two));
            assert(seq![one][0] == one);
            urls.push(root);
            assert(texts(urls@) =~= seq![one, two]);
        } else {
            assert(seq![one].contains(two));
        }
    }
    urls
}

/// Where the list of a channel's models may be found: below its address, and at the root of its service
/// where the address leads elsewhere.
pub fn model_list_candidates(base_url: &str) -> (urls: Vec<String>)
    ensures
        texts(urls@) == candidates_of(without_end(base_url@, '/'), url_parts(without_end(base_url@, '/'))),
{
    let base = trim_end_char(base_url, '/');
    match parse_parts(base.as_str()) {
        Some(parts) => list_candidates(base.as_str(), Some(&parts)),
        None => list_candidates(base.as_str(), None),
    }
}

/// What came of a look at one address.
pub enum ProbeOutcome {
    Failed(String),
    Answered { status: u16, text: String },
}

/// The first characters of a text.
pub open spec fn first_chars(s: Seq<char>, most: int) -> Seq<char> {
    if s.len() > most {
        s.take(most)
    } else {
        s
    }
}

/// What an answer holds, or what is said of it.
pub open spec fn probe_answer_of(url: Seq<char>, outcome: ProbeOutcome) -> Result<JsonV, Seq<char>> {
    match outcome {
        ProbeOutcome::Failed(detail) => Err("请求 "@ + url + " 失败:"@ + detail@),
        ProbeOutcome::Answered { status, text } => if !(200 <= status < 300) {
            Err(url + " → 上游 "@ + decimal(status as nat) + ":"@ + first_chars(text@, 200))
        } else {
            match json_parse_bytes(encode_utf8(text@)) {
                Ok(tree) => Ok(tree),
                Err(detail) => Err(url + " → 上游返回不是 JSON:"@ + detail),
            }
        },
    }
}

/// What an answer holds, or what is said of it. The words of an upstream that refuses are kept.
pub fn probe_answer(url: &str, outcome: &ProbeOutcome) -> (out: Result<Json, String>)
    ensures
        match (out, probe_answer_of(url@, *outcome)) {
            (Ok(tree), Ok(meant)) => tree@ == meant,
            (Err(e), Err(reason)) => e@ == reason,
            _ => false,
        },
{
    match outcome {
        ProbeOutcome::Failed(detail) => {
            let mut said = concat("请求 ", url);
            said.append(" 失败:");
            said.append(detail.as_str());
            Err(said)
        },
        ProbeOutcome::Answered { status, text } => {
            if *status < 200 || *status >= 300 {
                let chars = chars_of(text.as_str());
                let n: usize = if chars.len() > 200 {
                    200
                } else {
                    chars.len()
                };
                let detail = text_of(&chars, 0, n);
                assert(detail@ =~= first_chars(text@, 200));
                let mut said = concat(url, " → 上游 ");
                said.append(number_text(*status as u64).as_str());
                said.append(":");
                said.append(detail.as_str());
                return Err(said);
            }
            match Json::parse_bytes(text.as_str().as_bytes()) {
                Ok(tree) => Ok(tree),
                Err(detail) => {
                    let start = concat(url, " → 上游返回不是 JSON:");
                    Err(concat(start.as_str(), detail.as_str()))
                },
            }
        },
    }
}

/// What looking came to: the answer to go by, or what was said last. An answer that is `null` ends the
/// looking and is none.
pub struct ProbeRun {
    pub last_error: String,
    pub body: Option<Json>,
}

impl ProbeRun {
    /// No address was looked at.
    pub fn new() -> (run: ProbeRun)
        ensures
            run.last_error@ == Seq::<char>::empty(),
            run.body is None,
    {
        ProbeRun { last_error: String::new(), body: None }
    }

    /// Takes in what came of an address; once there is an answer, no other is looked at.
    pub fn take(&mut self, url: &str, outcome: &ProbeOutcome) -> (again: bool)
        ensures
            match probe_answer_of(url@, *outcome) {
                Ok(tree) => {
                    &&& !again
                    &&& final(self).last_error == old(self).last_error
                    &&& final(self).body matches Some(body) && body@ == tree
                },
                Err(reason) => {
                    &&& again
                    &&& final(self).last_error@ == reason
                    &&& final(self).body == old(self).body
                },
            },
    {
        match probe_answer(url, outcome) {
            Ok(tree) => {
                self.body = Some(tree);
                false
            },
            Err(e) => {
                self.last_error = e;
                true
            },
        }
    }
}

/// A model as the console is told it; one without an id is left out.
pub open spec fn model_tree(item: JsonV) -> Option<JsonV> {
    match item.text_at("id"@) {
        Some(id) => Some(
            JsonV::object().and("id"@, JsonV::Str(id)).and(
                "display_name"@,
                JsonV::Str(
                    match item.text_at("display_name"@) {
                        Some(name) => name,
                        None => id,
                    },
                ),
            ),
        ),
        None => None,
    }
}

pub open spec fn model_trees(items: Seq<JsonV>) -> Seq<JsonV>
    decreases items.len(),
{
    if items.len() == 0 {
        Seq::empty()
    } else {
        match model_tree(items.last()) {
            Some(tree) => model_trees(items.drop_last()).push(tree),
            None => model_trees(items.drop_last()),
        }
    }
}

/// The models of an answer.
pub open spec fn models_of(body: JsonV) -> JsonV {
    JsonV::object().and(
        "models"@,
        JsonV::Array(
            match body.items_at("data"@) {
                Some(items) => model_trees(items),
                None => Seq::empty(),
            },
        ),
    )
}

fn model_payload(item: &Json) -> (tree: Option<Json>)
    ensures
        match (tree, model_tree(item@)) {
            (Some(t), Some(meant)) => t@ == meant,
            (None, None) => true,
            _ => false,
        },
{
    match item.str_at("id") {
        Some(id) => {
            let name = match item.str_at("display_name") {
                Some(name) => name,
                None => id,
            };
            Some(Json::object().and("id", Json::text(id)).and("display_name", Json::text(name)))
        },
        None => None,
    }
}

/// The models of an answer.
pub fn models_payload(body: &Json) -> (tree: Json)
    ensures
        tree@ == models_of(body@),
{
    let mut models: Vec<Json> = Vec::new();
    assert(list_view(models@) =~= Seq::empty());
    if let Some(items) = body.array_at("data") {
        let ghost all = list_view(items@);
        let mut i: usize = 0;
        assert(all.take(0) =~= Seq::empty());
        while i < items.len()
            invariant
                i <= items@.len(),
                all == list_view(items@),
                list_view(models@) == model_trees(all.take(i as int)),
            decreases items@.len() - i,
        {
            assert(all.take(i + 1).drop_last() =~= all.take(i as int));
            assert(all.take(i + 1).last() == items@[i as int]@);
            if let Some(tree) = model_payload(&items[i]) {
                let ghost before = list_view(models@);
                let ghost one = tree@;
                models.push(tree);
                assert(list_view(models@) =~= before.push(one));
            }
            i = i + 1;
        }
        assert(all.take(i as int) =~= all);
    }
    Json::object().and("models", Json::array(models))
}

/// What the console is told of a channel's models: those of the answer, or what was said last.
pub fn finish_probe(run: ProbeRun) -> (out: Result<Json, String>)
    ensures
        match run.body {
            Some(body) if !(body@ is Null) => out matches Ok(tree) && tree@ == models_of(body@),
            _ => out matches Err(e) && e@ == run.last_error@,
        },
{
    match run.body {
        Some(body) => if body.is_null() {
            Err(run.last_error)
        } else {
            Ok(models_payload(&body))
        },
        None => Err(run.last_error),
    }
}

/// The length of a request's body.
pub open spec fn body_length_of(headers: Seq<(Seq<char>, Seq<char>)>) -> Result<usize, Seq<char>> {
    let length: nat = match first_value(headers, "content-length"@) {
        Some(raw) => match unsigned_number(raw, usize::MAX as nat) {
            Some(n) => n,
            None => 0,
        },
        None => 0,
    };
    if length > MAX_BODY_BYTES {
        Err("请求体超过上限"@)
    } else {
        Ok(length as usize)
    }
}

/// The length of a request's body; a length that is no number is none.
pub fn body_length(headers: &Vec<(String, String)>) -> (out: Result<usize, String>)
    ensures
        match (out, body_length_of(pairs_view(headers@))) {
            (Ok(n), Ok(meant)) => n == meant,
            (Err(e), Err(reason)) => e@ == reason,
            _ => false,
        },
{
    let length: u64 = match header_value(headers, "content-length") {
        Some(raw) => match parse_unsigned(raw, usize::MAX as u64) {
            Some(n) => n,
            None => 0,
        },
        None => 0,
    };
    if length > MAX_BODY_BYTES as u64 {
        Err("请求体超过上限".to_owned())
    } else {
        Ok(length as usize)
    }
}

/// The words for a state.
pub open spec fn reason_of(status: u16) -> Seq<char> {
    if status == 200 {
        "OK"@
    } else if status == 400 {
        "Bad Request"@
    } else if status == 404 {
        "Not Found"@
    } else if status == 502 {
        "Bad Gateway"@
    } else {
        "Error"@
    }
}

/// The words for a state.
pub fn reason(status: u16) -> (words: &'static str)
    ensures
        words@ == reason_of(status),
{
    if status == 200 {
        "OK"
    } else if status == 400 {
        "Bad Request"
    } else if status == 404 {
        "Not Found"
    } else if status == 502 {
        "Bad Gateway"
    } else {
        "Error"
    }
}

/// A response of text.
pub open spec fn response_of(status: u16, content_type: Seq<char>, body: Seq<char>) -> Seq<char> {
    "HTTP/1.1 "@ + decimal(status as nat) + " "@ + reason_of(status) + "\r\ncontent-type: "@ + content_type
        + "\r\ncontent-length: "@ + decimal(encode_utf8(body).len()) + "\r\nconnection: close\r\n\r\n"@ + body
}

/// Writes a response of text.
pub fn respond_text(status: u16, content_type: &str, body: &str) -> (response: String)
    ensures
        response@ == response_of(status, content_type@, body@),
{
    let mut response = concat("HTTP/1.1 ", number_text(status as u64).as_str());
    response.append(" ");
    response.append(reason(status));
    response.append("\r\ncontent-type: ");
    response.append(content_type);
    response.append("\r\ncontent-length: ");
    response.append(number_text(body.as_bytes().len() as u64).as_str());
    response.append("\r\nconnection: close\r\n\r\n");
    response.append(body);
    response
}

/// Writes a response of JSON.
pub fn respond_json(status: u16, value: &Json) -> (response: String)
    ensures
        response@ == response_of(status, "application/json"@, crate::json_model::rendered(value@)),
{
    respond_text(status, "application/json", value.render().as_str())
}

/// An entry of the log.
pub fn log_entry(ts_ms: u64, action: &str, detail: Json) -> (tree: Json)
    ensures
        tree@ == JsonV::object().and("ts_ms"@, number(ts_ms)).and("action"@, JsonV::Str(action@)).and("detail"@, detail@),
{
    Json::object().and("ts_ms", Json::unsigned(ts_ms)).and("action", Json::text(action)).and("detail", detail)
}

} // verus!
