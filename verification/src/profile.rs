//! What the user chose: the active mode and the connection of every channel.
//!
//! A channel has four model slots. The default one must be filled; an empty slot for quality, speed
//! or Fable stands for the default.

use crate::json::{Json, JsonV};
use crate::json_model::{group_json_views, list_view};
use crate::kimi_coding_search::number;
use crate::text::{
    blank, chars_of, concat, group_texts, is_alphanumeric, is_blank, same, starts_with, text_of, trim, trimmed,
    without_end, without_start,
};
use crate::paths::{below, join_path};
use crate::client::{Client, ClientV};
use vstd::prelude::*;

verus! {

broadcast use {group_json_views, group_texts};

/// The active mode. Official traffic passes through; a channel works under its contract.
#[derive(Clone, Copy, Debug, PartialEq, Eq, Structural)]
pub enum Mode {
    Official,
    Kimi,
    Deepseek,
}

impl Default for Mode {
    fn default() -> (mode: Mode)
        ensures
            mode == Mode::Official,
    {
        Mode::Official
    }
}

impl Mode {
    pub open spec fn name(self) -> Seq<char> {
        match self {
            Mode::Official => "official"@,
            Mode::Kimi => "kimi"@,
            Mode::Deepseek => "deepseek"@,
        }
    }

    pub fn as_str(&self) -> (name: &'static str)
        ensures
            name@ == self.name(),
    {
        match self {
            Mode::Official => "official",
            Mode::Kimi => "kimi",
            Mode::Deepseek => "deepseek",
        }
    }

    /// The mode of a name.
    pub fn parse(value: &str) -> (mode: Option<Mode>)
        ensures
            mode == mode_named(value@),
    {
        if same(value, "official") {
            Some(Mode::Official)
        } else if same(value, "kimi") {
            Some(Mode::Kimi)
        } else if same(value, "deepseek") {
            Some(Mode::Deepseek)
        } else {
            None
        }
    }

    /// The adapter and the contract of a channel.
    pub open spec fn contract_names(self) -> Option<(Seq<char>, Seq<char>)> {
        match self {
            Mode::Official => None,
            Mode::Kimi => Some(("relay"@, "kimi-anthropic-relay"@)),
            Mode::Deepseek => Some(("deepseek"@, "deepseek-native"@)),
        }
    }

    pub fn contract(&self) -> (names: Option<(&'static str, &'static str)>)
        ensures
            match names {
                Some((adapter, id)) => self.contract_names() == Some((adapter@, id@)),
                None => self.contract_names() is None,
            },
    {
        match self {
            Mode::Official => None,
            Mode::Kimi => Some(("relay", "kimi-anthropic-relay")),
            Mode::Deepseek => Some(("deepseek", "deepseek-native")),
        }
    }

    /// The name under which the mode is shown.
    pub open spec fn shown(self, client: ClientV) -> Seq<char> {
        match self {
            Mode::Official => client.official_label(),
            Mode::Kimi => "Kimi"@,
            Mode::Deepseek => "DeepSeek"@,
        }
    }

    /// The name under which the mode is shown.
    pub fn display_name(&self, client: &Client) -> (name: String)
        ensures
            name@ == self.shown(client@),
    {
        match self {
            Mode::Official => client.official_label(),
            Mode::Kimi => "Kimi".to_owned(),
            Mode::Deepseek => "DeepSeek".to_owned(),
        }
    }
}

/// The mode of a name.
pub open spec fn mode_named(name: Seq<char>) -> Option<Mode> {
    if name == Mode::Official.name() {
        Some(Mode::Official)
    } else if name == Mode::Kimi.name() {
        Some(Mode::Kimi)
    } else if name == Mode::Deepseek.name() {
        Some(Mode::Deepseek)
    } else {
        None
    }
}

/// A mode is found by its name.
pub proof fn modes_have_names_of_their_own(mode: Mode)
    ensures
        mode_named(mode.name()) == Some(mode),
{
    reveal_strlit("official");
    reveal_strlit("kimi");
    reveal_strlit("deepseek");
    assert("official"@[0] == 'o' && "kimi"@[0] == 'k' && "deepseek"@[0] == 'd');
}

/// A model slot: the upstream's id of the model, and the name to show.
#[derive(Clone, Debug, PartialEq, Eq)]
pub struct ModelSlot {
    pub model_id: String,
    pub display_name: String,
}

#[verifier::ext_equal]
pub struct SlotV {
    pub model_id: Seq<char>,
    pub display_name: Seq<char>,
}

impl View for ModelSlot {
    type V = SlotV;

    open spec fn view(&self) -> SlotV {
        SlotV { model_id: self.model_id@, display_name: self.display_name@ }
    }
}

impl Default for ModelSlot {
    fn default() -> (slot: ModelSlot)
        ensures
            slot@ == (SlotV { model_id: Seq::empty(), display_name: Seq::empty() }),
    {
        ModelSlot { model_id: String::new(), display_name: String::new() }
    }
}

/// The name under which a slot's model is shown.
pub open spec fn slot_label(slot: SlotV) -> Seq<char> {
    if is_blank(slot.display_name) {
        trimmed(slot.model_id)
    } else {
        trimmed(slot.display_name)
    }
}

impl ModelSlot {
    pub fn new(model_id: &str, display_name: &str) -> (slot: ModelSlot)
        ensures
            slot@ == (SlotV { model_id: model_id@, display_name: display_name@ }),
    {
        ModelSlot { model_id: model_id.to_owned(), display_name: display_name.to_owned() }
    }

    pub fn is_empty(&self) -> (yes: bool)
        ensures
            yes == is_blank(self@.model_id),
    {
        blank(self.model_id.as_str())
    }

    /// The name under which the model is shown.
    pub fn label(&self) -> (name: String)
        ensures
            name@ == slot_label(self@),
    {
        if blank(self.display_name.as_str()) {
            trim(self.model_id.as_str())
        } else {
            trim(self.display_name.as_str())
        }
    }

    pub fn copy(&self) -> (slot: ModelSlot)
        ensures
            slot@ == self@,
    {
        ModelSlot { model_id: self.model_id.clone(), display_name: self.display_name.clone() }
    }
}

/// The connection of a channel.
#[derive(Clone, Debug, PartialEq, Eq)]
pub struct Channel {
    pub base_url: String,
    pub api_key: String,
    pub default_model: ModelSlot,
    pub quality_model: ModelSlot,
    pub fast_model: ModelSlot,
    pub fable_model: ModelSlot,
}

#[verifier::ext_equal]
pub struct ChannelV {
    pub base_url: Seq<char>,
    pub api_key: Seq<char>,
    pub default_model: SlotV,
    pub quality_model: SlotV,
    pub fast_model: SlotV,
    pub fable_model: SlotV,
}

impl View for Channel {
    type V = ChannelV;

    open spec fn view(&self) -> ChannelV {
        ChannelV {
            base_url: self.base_url@,
            api_key: self.api_key@,
            default_model: self.default_model@,
            quality_model: self.quality_model@,
            fast_model: self.fast_model@,
            fable_model: self.fable_model@,
        }
    }
}

pub open spec fn no_slot() -> SlotV {
    SlotV { model_id: Seq::empty(), display_name: Seq::empty() }
}

pub open spec fn slot(model_id: Seq<char>, display_name: Seq<char>) -> SlotV {
    SlotV { model_id, display_name }
}

pub open spec fn default_kimi() -> ChannelV {
    ChannelV {
        base_url: "https://api.kimi.com/coding"@,
        api_key: Seq::empty(),
        default_model: slot("k3-256k"@, "Kimi K3 256k"@),
        quality_model: slot("k3"@, "Kimi K3"@),
        fast_model: slot("kimi-for-coding"@, "Kimi K2.7"@),
        fable_model: no_slot(),
    }
}

pub open spec fn default_deepseek() -> ChannelV {
    ChannelV {
        base_url: "https://api.deepseek.com/anthropic"@,
        api_key: Seq::empty(),
        default_model: slot("deepseek-v4-pro"@, "DeepSeek V4 Pro"@),
        quality_model: no_slot(),
        fast_model: slot("deepseek-v4-flash"@, "DeepSeek V4 Flash"@),
        fable_model: no_slot(),
    }
}

/// A slot, or the default one where it is empty.
pub open spec fn inherited(channel: ChannelV, slot: SlotV) -> SlotV {
    if is_blank(slot.model_id) {
        channel.default_model
    } else {
        slot
    }
}

/// The models of the four roles: balanced, quality, speed, Fable.
pub open spec fn role_slots(channel: ChannelV) -> Seq<SlotV> {
    seq![
        channel.default_model,
        inherited(channel, channel.quality_model),
        inherited(channel, channel.fast_model),
        inherited(channel, channel.fable_model),
    ]
}

/// The fault of a channel.
pub open spec fn channel_fault(channel: ChannelV) -> Option<Seq<char>> {
    if !("http://"@.is_prefix_of(channel.base_url) || "https://"@.is_prefix_of(channel.base_url)) {
        Some("地址必须是 http(s):// 开头的 URL"@)
    } else if is_blank(channel.default_model.model_id) {
        Some("默认模型必填"@)
    } else if is_blank(channel.api_key) {
        Some("缺少 API Key"@)
    } else {
        None
    }
}

/// A character of a selector.
pub open spec fn selector_char(c: char) -> char {
    if crate::text::alphanumeric(c) || c == '-' || c == '_' || c == '.' {
        c
    } else {
        '-'
    }
}

/// A model's id in the characters of a selector, no longer than one may be.
pub open spec fn slug(model_id: Seq<char>) -> Seq<char> {
    let all = model_id.map_values(|c: char| selector_char(c));
    if all.len() > 96 {
        all.take(96)
    } else {
        all
    }
}

/// A model's id in the characters of a selector, without hyphens at its ends.
pub open spec fn plain_slug(model_id: Seq<char>) -> Seq<char> {
    without_end(without_start(slug(model_id), '-'), '-')
}

/// The selector of a model by itself.
pub open spec fn selector(client: ClientV, model_id: Seq<char>) -> Seq<char> {
    client.selector_prefix() + plain_slug(model_id)
}

/// Writes a model's id in the characters of a selector.
fn write_slug(model_id: &str) -> (text: String)
    ensures
        text@ == plain_slug(model_id@),
{
    let chars = chars_of(model_id);
    let ghost mapped = model_id@.map_values(|c: char| selector_char(c));
    let mut all: Vec<char> = Vec::new();
    let mut i: usize = 0;
    while i < chars.len() && i < 96
        invariant
            i <= chars@.len(),
            i <= 96,
            chars@ == model_id@,
            mapped == model_id@.map_values(|c: char| selector_char(c)),
            all@ == mapped.take(i as int),
        decreases chars@.len() - i,
    {
        let c = chars[i];
        let kept = if is_alphanumeric(c) || c == '-' || c == '_' || c == '.' {
            c
        } else {
            '-'
        };
        all.push(kept);
        assert(all@ =~= mapped.take(i + 1));
        i = i + 1;
    }
    assert(all@ =~= slug(model_id@));
    let mut from: usize = 0;
    assert(all@.skip(0) =~= all@);
    while from < all.len() && all[from] == '-'
        invariant
            from <= all@.len(),
            without_start(all@, '-') == without_start(all@.skip(from as int), '-'),
        decreases all@.len() - from,
    {
        assert(all@.skip(from as int).drop_first() =~= all@.skip(from + 1));
        from = from + 1;
    }
    let ghost started = all@.skip(from as int);
    assert(without_start(all@, '-') == started);
    let mut to: usize = all.len();
    assert(all@.subrange(from as int, to as int) =~= started);
    while to > from && all[to - 1] == '-'
        invariant
            from <= to <= all@.len(),
            without_end(started, '-') == without_end(all@.subrange(from as int, to as int), '-'),
        decreases to,
    {
        assert(all@.subrange(from as int, to as int).drop_last() =~= all@.subrange(from as int, to - 1));
        to = to - 1;
    }
    text_of(&all, from, to)
}

/// The selector of a model by itself.
pub fn selector_id(client: &Client, model_id: &str) -> (id: String)
    ensures
        id@ == selector(client@, model_id@),
{
    concat(client.selector_prefix().as_str(), write_slug(model_id).as_str())
}

/// What a route of the model catalog promises.
pub open spec fn route_capabilities() -> JsonV {
    JsonV::object().and("reasoning_round_trip"@, JsonV::Str("none"@)).and("forced_tool_choice"@, JsonV::Bool(true)).and(
        "structured_output"@,
        JsonV::Bool(true),
    ).and("vision"@, JsonV::Null)
}

/// The role of a slot.
pub open spec fn role_of(slot: int) -> Seq<char> {
    if slot <= 0 {
        "sonnet"@
    } else if slot == 1 {
        "opus"@
    } else if slot == 2 {
        "haiku"@
    } else {
        "fable"@
    }
}

/// The selector of a model that another one took the plain selector from: the role of its slot stands in
/// it, behind a second hyphen, which no plain selector has there.
pub open spec fn role_selector(client: ClientV, slot: int, model_id: Seq<char>) -> Seq<char> {
    client.selector_prefix() + ("-"@ + (role_of(slot) + ("-"@ + plain_slug(model_id))))
}

/// Whether one of the models would have this selector.
pub open spec fn is_taken(client: ClientV, ids: Seq<Seq<char>>, wanted: Seq<char>) -> bool {
    exists|i: int| 0 <= i < ids.len() && selector(client, #[trigger] ids[i]) == wanted
}

/// The selector under which a model of a catalog is offered: the plain one, or that of the model's slot
/// where a model before it has the plain one.
pub open spec fn catalog_selector(client: ClientV, slots: Seq<SlotV>, model_id: Seq<char>) -> Seq<char>
    decreases slots.len(),
{
    if slots.len() == 0 {
        selector(client, model_id)
    } else if trimmed(slots.last().model_id) == model_id && !slot_ids(slots.drop_last()).contains(model_id) {
        if is_taken(client, slot_ids(slots.drop_last()), selector(client, model_id)) {
            role_selector(client, slots.len() - 1, model_id)
        } else {
            selector(client, model_id)
        }
    } else {
        catalog_selector(client, slots.drop_last(), model_id)
    }
}

/// The route of a slot's model, under a selector.
pub open spec fn route(slot: SlotV, selector_id: Seq<char>) -> JsonV {
    JsonV::object().and("selector_id"@, JsonV::Str(selector_id)).and(
        "display_name"@,
        JsonV::Str(slot_label(slot)),
    ).and("upstream_model"@, JsonV::Str(trimmed(slot.model_id))).and("supports_tools"@, JsonV::Bool(true)).and(
        "capabilities"@,
        route_capabilities(),
    )
}

/// The ids of the slots' models.
pub open spec fn slot_ids(slots: Seq<SlotV>) -> Seq<Seq<char>> {
    slots.map_values(|s: SlotV| trimmed(s.model_id))
}

/// The routes of the slots, one for each model.
pub open spec fn routes(client: ClientV, slots: Seq<SlotV>) -> Seq<JsonV>
    decreases slots.len(),
{
    if slots.len() == 0 {
        Seq::empty()
    } else {
        let before = routes(client, slots.drop_last());
        if slot_ids(slots.drop_last()).contains(trimmed(slots.last().model_id)) {
            before
        } else {
            before.push(route(slots.last(), catalog_selector(client, slots, trimmed(slots.last().model_id))))
        }
    }
}

/// The catalog of a channel's models.
pub open spec fn model_catalog(client: ClientV, channel: ChannelV, adapter: Seq<char>, catalog_fp: Seq<char>) -> JsonV {
    let slots = role_slots(channel);
    JsonV::object().and("schema_version"@, number(1)).and("adapter"@, JsonV::Str(adapter)).and(
        "catalog_fp"@,
        JsonV::Str(catalog_fp),
    ).and("default_selector_id"@, JsonV::Str(catalog_selector(client, slots, trimmed(channel.default_model.model_id)))).and(
        "routes"@,
        JsonV::Array(routes(client, slots)),
    ).and(
        "role_bindings"@,
        JsonV::object().and("sonnet"@, JsonV::Str(catalog_selector(client, slots, trimmed(slots[0].model_id)))).and(
            "opus"@,
            JsonV::Str(catalog_selector(client, slots, trimmed(slots[1].model_id))),
        ).and("haiku"@, JsonV::Str(catalog_selector(client, slots, trimmed(slots[2].model_id)))).and(
            "fable"@,
            JsonV::Str(catalog_selector(client, slots, trimmed(slots[3].model_id))),
        ),
    ).and("legacy_aliases"@, JsonV::Array(Seq::empty()))
}

pub open spec fn slots_view(slots: Seq<ModelSlot>) -> Seq<SlotV> {
    slots.map_values(|s: ModelSlot| s@)
}

fn write_route(slot: &ModelSlot, selector_id: &str) -> (tree: Json)
    ensures
        tree@ == route(slot@, selector_id@),
{
    let model_id = trim(slot.model_id.as_str());
    let capabilities = Json::object().and("reasoning_round_trip", Json::text("none")).and(
        "forced_tool_choice",
        Json::Bool(true),
    ).and("structured_output", Json::Bool(true)).and("vision", Json::Null);
    Json::object().and("selector_id", Json::text(selector_id)).and(
        "display_name",
        Json::text(slot.label().as_str()),
    ).and("upstream_model", Json::text(model_id.as_str())).and("supports_tools", Json::Bool(true)).and(
        "capabilities",
        capabilities,
    )
}

fn id_stands_before(slots: &Vec<ModelSlot>, end: usize, id: &str) -> (yes: bool)
    requires
        end <= slots@.len(),
    ensures
        yes == slot_ids(slots_view(slots@).take(end as int)).contains(id@),
{
    let ghost ids = slot_ids(slots_view(slots@).take(end as int));
    let mut i: usize = 0;
    while i < end
        invariant
            i <= end <= slots@.len(),
            ids == slot_ids(slots_view(slots@).take(end as int)),
            forall|k: int| 0 <= k < i ==> ids[k] != id@,
        decreases end - i,
    {
        assert(ids[i as int] == trimmed(slots@[i as int]@.model_id));
        let other = trim(slots[i].model_id.as_str());
        if same(other.as_str(), id) {
            assert(ids[i as int] == id@);
            return true;
        }
        i = i + 1;
    }
    assert forall|k: int| 0 <= k < ids.len() implies ids[k] != id@ by {}
    false
}

fn selector_is_taken(client: &Client, slots: &Vec<ModelSlot>, end: usize, wanted: &str) -> (yes: bool)
    requires
        end <= slots@.len(),
    ensures
        yes == is_taken(client@, slot_ids(slots_view(slots@).take(end as int)), wanted@),
{
    let ghost ids = slot_ids(slots_view(slots@).take(end as int));
    let mut i: usize = 0;
    while i < end
        invariant
            i <= end <= slots@.len(),
            ids == slot_ids(slots_view(slots@).take(end as int)),
            forall|k: int| 0 <= k < i ==> selector(client@, #[trigger] ids[k]) != wanted@,
        decreases end - i,
    {
        assert(ids[i as int] == trimmed(slots@[i as int]@.model_id));
        let other = selector_id(client, trim(slots[i].model_id.as_str()).as_str());
        if same(other.as_str(), wanted) {
            return true;
        }
        i = i + 1;
    }
    false
}

/// The selector of a model among the first slots.
fn slot_selector(client: &Client, slots: &Vec<ModelSlot>, end: usize, model_id: &str) -> (id: String)
    requires
        end <= slots@.len(),
    ensures
        id@ == catalog_selector(client@, slots_view(slots@).take(end as int), model_id@),
{
    let ghost all = slots_view(slots@);
    let plain = selector_id(client, model_id);
    let mut n: usize = end;
    while n > 0
        invariant
            n <= end <= slots@.len(),
            all == slots_view(slots@),
            plain@ == selector(client@, model_id@),
            catalog_selector(client@, all.take(end as int), model_id@) == catalog_selector(
                client@,
                all.take(n as int),
                model_id@,
            ),
        decreases n,
    {
        assert(all.take(n as int).drop_last() =~= all.take(n - 1));
        assert(all.take(n as int).last() == slots@[n - 1]@);
        let other = trim(slots[n - 1].model_id.as_str());
        if same(other.as_str(), model_id) && !id_stands_before(slots, n - 1, model_id) {
            if selector_is_taken(client, slots, n - 1, plain.as_str()) {
                let role = if n <= 1 {
                    "sonnet"
                } else if n == 2 {
                    "opus"
                } else if n == 3 {
                    "haiku"
                } else {
                    "fable"
                };
                let tail = concat("-", write_slug(model_id).as_str());
                let named = concat("-", concat(role, tail.as_str()).as_str());
                return concat(client.selector_prefix().as_str(), named.as_str());
            }
            return plain;
        }
        n = n - 1;
    }
    plain
}

fn selector_of(client: &Client, slots: &Vec<ModelSlot>, slot: &ModelSlot) -> (id: String)
    ensures
        id@ == catalog_selector(client@, slots_view(slots@), trimmed(slot@.model_id)),
{
    assert(slots_view(slots@).take(slots@.len() as int) =~= slots_view(slots@));
    slot_selector(client, slots, slots.len(), trim(slot.model_id.as_str()).as_str())
}

fn write_routes(client: &Client, slots: &Vec<ModelSlot>) -> (items: Vec<Json>)
    ensures
        list_view(items@) == routes(client@, slots_view(slots@)),
{
    let ghost all = slots_view(slots@);
    let mut items: Vec<Json> = Vec::new();
    let mut i: usize = 0;
    while i < slots.len()
        invariant
            i <= slots@.len(),
            all == slots_view(slots@),
            list_view(items@) == routes(client@, all.take(i as int)),
        decreases slots@.len() - i,
    {
        assert(all.take(i + 1).drop_last() =~= all.take(i as int));
        assert(all[i as int] == slots@[i as int]@);
        let id = trim(slots[i].model_id.as_str());
        if !id_stands_before(slots, i, id.as_str()) {
            let selector = slot_selector(client, slots, i + 1, id.as_str());
            items.push(write_route(&slots[i], selector.as_str()));
        }
        i = i + 1;
    }
    assert(all.take(i as int) =~= all);
    items
}


impl Channel {
    /// The factory settings of the Kimi channel.
    pub fn kimi_default() -> (channel: Channel)
        ensures
            channel@ == default_kimi(),
    {
        Channel {
            base_url: "https://api.kimi.com/coding".to_owned(),
            api_key: String::new(),
            default_model: ModelSlot::new("k3-256k", "Kimi K3 256k"),
            quality_model: ModelSlot::new("k3", "Kimi K3"),
            fast_model: ModelSlot::new("kimi-for-coding", "Kimi K2.7"),
            fable_model: ModelSlot::default(),
        }
    }

    /// The factory settings of the DeepSeek channel.
    pub fn deepseek_default() -> (channel: Channel)
        ensures
            channel@ == default_deepseek(),
    {
        Channel {
            base_url: "https://api.deepseek.com/anthropic".to_owned(),
            api_key: String::new(),
            default_model: ModelSlot::new("deepseek-v4-pro", "DeepSeek V4 Pro"),
            quality_model: ModelSlot::default(),
            fast_model: ModelSlot::new("deepseek-v4-flash", "DeepSeek V4 Flash"),
            fable_model: ModelSlot::default(),
        }
    }

    fn inherit(&self, slot: &ModelSlot) -> (out: ModelSlot)
        ensures
            out@ == inherited(self@, slot@),
    {
        if slot.is_empty() {
            self.default_model.copy()
        } else {
            slot.copy()
        }
    }

    /// The models of the four roles: balanced, quality, speed, Fable.
    pub fn resolved_slots(&self) -> (slots: Vec<ModelSlot>)
        ensures
            slots_view(slots@) == role_slots(self@),
            slots@.len() == 4,
    {
        let mut slots: Vec<ModelSlot> = Vec::new();
        slots.push(self.default_model.copy());
        slots.push(self.inherit(&self.quality_model));
        slots.push(self.inherit(&self.fast_model));
        slots.push(self.inherit(&self.fable_model));
        assert(slots_view(slots@) =~= role_slots(self@));
        slots
    }

    /// Checks that the channel can be used.
    pub fn validate(&self) -> (out: Result<(), String>)
        ensures
            match (out, channel_fault(self@)) {
                (Ok(_), None) => true,
                (Err(e), Some(reason)) => e@ == reason,
                _ => false,
            },
    {
        if !(starts_with(self.base_url.as_str(), "http://") || starts_with(self.base_url.as_str(), "https://")) {
            return Err("地址必须是 http(s):// 开头的 URL".to_owned());
        }
        if self.default_model.is_empty() {
            return Err("默认模型必填".to_owned());
        }
        if blank(self.api_key.as_str()) {
            return Err("缺少 API Key".to_owned());
        }
        Ok(())
    }

    /// The catalog of the channel's models, with the fingerprint that it is given.
    pub fn static_catalog(&self, client: &Client, adapter: &str, catalog_fp: &str) -> (tree: Json)
        ensures
            tree@ == model_catalog(client@, self@, adapter@, catalog_fp@),
    {
        let slots = self.resolved_slots();
        let ghost all = slots_view(slots@);
        assert(all[0] == slots@[0]@ && all[1] == slots@[1]@ && all[2] == slots@[2]@ && all[3] == slots@[3]@);
        let bindings = Json::object().and("sonnet", Json::text(selector_of(client, &slots, &slots[0]).as_str())).and(
            "opus",
            Json::text(selector_of(client, &slots, &slots[1]).as_str()),
        ).and("haiku", Json::text(selector_of(client, &slots, &slots[2]).as_str())).and(
            "fable",
            Json::text(selector_of(client, &slots, &slots[3]).as_str()),
        );
        let aliases: Vec<Json> = Vec::new();
        assert(list_view(aliases@) =~= Seq::empty());
        Json::object().and("schema_version", Json::unsigned(1)).and("adapter", Json::text(adapter)).and(
            "catalog_fp",
            Json::text(catalog_fp),
        ).and("default_selector_id", Json::text(selector_of(client, &slots, &self.default_model).as_str())).and(
            "routes",
            Json::array(write_routes(client, &slots)),
        ).and("role_bindings", bindings).and("legacy_aliases", Json::array(aliases))
    }
}

/// The user's settings.
#[derive(Clone, Debug)]
pub struct Profile {
    pub mode: Mode,
    pub port: u16,
    pub kimi: Channel,
    pub deepseek: Channel,
}

pub const DEFAULT_PORT: u16 = 8788;

#[verifier::ext_equal]
pub struct ProfileV {
    pub mode: Mode,
    pub port: u16,
    pub kimi: ChannelV,
    pub deepseek: ChannelV,
}

impl View for Profile {
    type V = ProfileV;

    open spec fn view(&self) -> ProfileV {
        ProfileV { mode: self.mode, port: self.port, kimi: self.kimi@, deepseek: self.deepseek@ }
    }
}

impl Default for Profile {
    fn default() -> (profile: Profile)
        ensures
            profile@ == (ProfileV {
                mode: Mode::Official,
                port: DEFAULT_PORT,
                kimi: default_kimi(),
                deepseek: default_deepseek(),
            }),
    {
        Profile {
            mode: Mode::Official,
            port: DEFAULT_PORT,
            kimi: Channel::kimi_default(),
            deepseek: Channel::deepseek_default(),
        }
    }
}

/// The channel of a mode.
pub open spec fn channel_of(profile: ProfileV, mode: Mode) -> Option<ChannelV> {
    match mode {
        Mode::Official => None,
        Mode::Kimi => Some(profile.kimi),
        Mode::Deepseek => Some(profile.deepseek),
    }
}

impl Channel {
    pub fn copy(&self) -> (channel: Channel)
        ensures
            channel@ == self@,
    {
        Channel {
            base_url: self.base_url.clone(),
            api_key: self.api_key.clone(),
            default_model: self.default_model.copy(),
            quality_model: self.quality_model.copy(),
            fast_model: self.fast_model.copy(),
            fable_model: self.fable_model.copy(),
        }
    }
}

/// The user's home directory, from the environment's `HOME`.
pub fn home(value: Option<&str>) -> (path: String)
    ensures
        path@ == (match value {
            Some(dir) => dir@,
            None => "/"@,
        }),
{
    match value {
        Some(dir) => dir.to_owned(),
        None => "/".to_owned(),
    }
}

/// The directory of the gateway's files, below the user's home.
pub fn config_dir(home: &str) -> (path: String)
    ensures
        path@ == below(home@, ".csswitch"@),
{
    join_path(home, ".csswitch")
}

/// The file of the user's settings.
pub fn config_path(home: &str) -> (path: String)
    ensures
        path@ == below(below(home@, ".csswitch"@), "service.v1.json"@),
{
    join_path(config_dir(home).as_str(), "service.v1.json")
}

impl Profile {
    pub fn copy(&self) -> (profile: Profile)
        ensures
            profile@ == self@,
    {
        Profile { mode: self.mode, port: self.port, kimi: self.kimi.copy(), deepseek: self.deepseek.copy() }
    }

    /// The channel of a mode.
    pub fn channel(&self, mode: &Mode) -> (channel: Option<&Channel>)
        ensures
            match (channel, channel_of(self@, *mode)) {
                (Some(c), Some(meant)) => c@ == meant,
                (None, None) => true,
                _ => false,
            },
    {
        match mode {
            Mode::Official => None,
            Mode::Kimi => Some(&self.kimi),
            Mode::Deepseek => Some(&self.deepseek),
        }
    }

    /// The channel of a mode, to be changed; nothing else changes.
    pub fn channel_mut(&mut self, mode: &Mode) -> (channel: Option<&mut Channel>)
        ensures
            final(self).mode == old(self).mode,
            final(self).port == old(self).port,
            match mode {
                Mode::Official => channel is None && final(self).kimi == old(self).kimi && final(self).deepseek == old(
                    self,
                ).deepseek,
                Mode::Kimi => {
                    &&& channel matches Some(c)
                    &&& *c == old(self).kimi
                    &&& final(self).kimi == *final(c)
                    &&& final(self).deepseek == old(self).deepseek
                },
                Mode::Deepseek => {
                    &&& channel matches Some(c)
                    &&& *c == old(self).deepseek
                    &&& final(self).deepseek == *final(c)
                    &&& final(self).kimi == old(self).kimi
                },
            },
    {
        match mode {
            Mode::Official => None,
            Mode::Kimi => Some(&mut self.kimi),
            Mode::Deepseek => Some(&mut self.deepseek),
        }
    }
}

/// Every role of a model catalog is bound to one of its routes, by the selector of that route.
pub proof fn roles_are_bound_to_routes(client: ClientV, channel: ChannelV, role: int)
    requires
        0 <= role < 4,
    ensures
        exists|i: int|
            0 <= i < routes(client, role_slots(channel)).len() && (#[trigger] routes(client, role_slots(channel))[i]).text_at(
                "upstream_model"@,
            ) == Some(trimmed(role_slots(channel)[role].model_id)) && routes(client, role_slots(channel))[i].text_at(
                "selector_id"@,
            ) == Some(catalog_selector(client, role_slots(channel), trimmed(role_slots(channel)[role].model_id))),
        routes(client, role_slots(channel)).len() <= 4,
{
    every_slot_has_a_route(client, role_slots(channel), role);
    routes_follow_the_slots(client, role_slots(channel));
}

proof fn every_slot_has_a_route(client: ClientV, slots: Seq<SlotV>, k: int)
    requires
        0 <= k < slots.len(),
    ensures
        exists|i: int|
            0 <= i < routes(client, slots).len() && (#[trigger] routes(client, slots)[i]).text_at("upstream_model"@) == Some(
                trimmed(slots[k].model_id),
            ),
        routes(client, slots).len() <= slots.len(),
    decreases slots.len(),
{
    let shorter = slots.drop_last();
    let id = trimmed(slots[k].model_id);
    if slots.len() > 1 {
        every_slot_has_a_route(client, shorter, 0);
    } else {
        assert(routes(client, shorter) =~= Seq::empty());
    }
    if k < slots.len() - 1 {
        every_slot_has_a_route(client, shorter, k);
        let i = choose|i: int|
            0 <= i < routes(client, shorter).len() && (#[trigger] routes(client, shorter)[i]).text_at("upstream_model"@) == Some(id);
        assert(routes(client, slots)[i] == routes(client, shorter)[i]);
    } else if slot_ids(shorter).contains(id) {
        let j = choose|j: int| 0 <= j < slot_ids(shorter).len() && slot_ids(shorter)[j] == id;
        every_slot_has_a_route(client, shorter, j);
        let i = choose|i: int|
            0 <= i < routes(client, shorter).len() && (#[trigger] routes(client, shorter)[i]).text_at("upstream_model"@) == Some(id);
        assert(routes(client, slots)[i] == routes(client, shorter)[i]);
    } else {
        route_tells_its_model(slots.last(), catalog_selector(client, slots, trimmed(slots.last().model_id)));
        assert(routes(client, slots)[routes(client, slots).len() - 1] == route(
            slots.last(),
            catalog_selector(client, slots, id),
        ));
    }
}

proof fn route_tells_its_model(slot: SlotV, selector_id: Seq<char>)
    ensures
        route(slot, selector_id).text_at("upstream_model"@) == Some(trimmed(slot.model_id)),
        route(slot, selector_id).text_at("selector_id"@) == Some(selector_id),
{
    reveal_strlit("selector_id");
    reveal_strlit("display_name");
    reveal_strlit("upstream_model");
    let entries = route(slot, selector_id)->Object_0;
    assert(entries.len() == 5);
    assert(entries[0].0 == "selector_id"@ && entries[1].0 == "display_name"@ && entries[2].0 == "upstream_model"@);
    assert("selector_id"@[0] == 's' && "display_name"@[0] == 'd' && "upstream_model"@[0] == 'u');
    crate::json_model::key_index_is(entries, "upstream_model"@, 2);
    crate::json_model::key_index_is(entries, "selector_id"@, 0);
}

/// A slug starts with no hyphen.
proof fn slugs_start_plainly(model_id: Seq<char>)
    ensures
        plain_slug(model_id).len() > 0 ==> plain_slug(model_id)[0] != '-',
{
    starts_without(slug(model_id), '-');
    crate::text::ends_keep_the_start(without_start(slug(model_id), '-'), '-');
}

proof fn starts_without(s: Seq<char>, c: char)
    ensures
        without_start(s, c).len() > 0 ==> without_start(s, c)[0] != c,
    decreases s.len(),
{
    if s.len() > 0 && s[0] == c {
        starts_without(s.drop_first(), c);
    }
}

/// A selector with a role is no plain one, and two of different slots differ.
proof fn roles_tell_apart(client: ClientV, i: int, a: Seq<char>, j: int, b: Seq<char>)
    requires
        0 < j < 4,
    ensures
        role_selector(client, j, b) != selector(client, a),
        0 < i < j ==> role_selector(client, i, a) != role_selector(client, j, b),
{
    reveal_strlit("-");
    reveal_strlit("opus");
    reveal_strlit("haiku");
    reveal_strlit("fable");
    let p = client.selector_prefix();
    let n = p.len() as int;
    let named = role_selector(client, j, b);
    assert(named[n] == '-');
    slugs_start_plainly(a);
    if selector(client, a) == named {
        assert(selector(client, a)[n] == plain_slug(a)[0]);
    }
    if 0 < i < j {
        let other = role_selector(client, i, a);
        assert(named[n + 1] == role_of(j)[0]);
        assert(other[n + 1] == role_of(i)[0]);
    }
}

/// The first slot with a model.
pub open spec fn first_slot(slots: Seq<SlotV>, model_id: Seq<char>) -> int
    decreases slots.len(),
{
    if slots.len() == 0 {
        0
    } else if slot_ids(slots.drop_last()).contains(model_id) {
        first_slot(slots.drop_last(), model_id)
    } else {
        slots.len() - 1
    }
}

/// What the selector of a model in a catalog is, by the first slot with it.
proof fn selector_by_first_slot(client: ClientV, slots: Seq<SlotV>, model_id: Seq<char>)
    requires
        slot_ids(slots).contains(model_id),
    ensures
        ({
            let k = first_slot(slots, model_id);
            &&& 0 <= k < slots.len()
            &&& slot_ids(slots)[k] == model_id
            &&& forall|i: int| 0 <= i < k ==> slot_ids(slots)[i] != model_id
            &&& catalog_selector(client, slots, model_id) == if is_taken(
                client,
                slot_ids(slots).take(k),
                selector(client, model_id),
            ) {
                role_selector(client, k, model_id)
            } else {
                selector(client, model_id)
            }
        }),
    decreases slots.len(),
{
    let before = slots.drop_last();
    let ids = slot_ids(slots);
    assert(slot_ids(before) =~= ids.drop_last());
    if slot_ids(before).contains(model_id) {
        selector_by_first_slot(client, before, model_id);
        let k = first_slot(before, model_id);
        assert(slot_ids(before).take(k) =~= ids.take(k));
        assert forall|i: int| 0 <= i < k implies ids[i] != model_id by {
            assert(slot_ids(before)[i] != model_id);
        }
    } else {
        let at = choose|at: int| 0 <= at < ids.len() && ids[at] == model_id;
        if at < ids.len() - 1 {
            assert(slot_ids(before)[at] == model_id);
        }
        let k = slots.len() - 1;
        assert(ids.take(k) =~= slot_ids(before));
        assert forall|i: int| 0 <= i < k implies ids[i] != model_id by {
            assert(slot_ids(before).contains(slot_ids(before)[i]));
        }
    }
}

/// Two models of one catalog have two selectors.
pub proof fn models_are_told_apart(client: ClientV, slots: Seq<SlotV>, a: Seq<char>, b: Seq<char>)
    requires
        slots.len() <= 4,
        slot_ids(slots).contains(a),
        slot_ids(slots).contains(b),
        a != b,
    ensures
        catalog_selector(client, slots, a) != catalog_selector(client, slots, b),
{
    selector_by_first_slot(client, slots, a);
    selector_by_first_slot(client, slots, b);
    let i = first_slot(slots, a);
    let j = first_slot(slots, b);
    if i < j {
        told_apart_in_order(client, slots, a, b);
    } else {
        told_apart_in_order(client, slots, b, a);
    }
}

proof fn told_apart_in_order(client: ClientV, slots: Seq<SlotV>, a: Seq<char>, b: Seq<char>)
    requires
        slots.len() <= 4,
        slot_ids(slots).contains(a),
        slot_ids(slots).contains(b),
        first_slot(slots, a) < first_slot(slots, b),
    ensures
        catalog_selector(client, slots, a) != catalog_selector(client, slots, b),
{
    selector_by_first_slot(client, slots, a);
    selector_by_first_slot(client, slots, b);
    let ids = slot_ids(slots);
    let i = first_slot(slots, a);
    let j = first_slot(slots, b);
    roles_tell_apart(client, i, a, j, b);
    if i > 0 {
        roles_tell_apart(client, 0, b, i, a);
    } else {
        assert(!is_taken(client, ids.take(0), selector(client, a)));
    }
    if selector(client, a) == selector(client, b) {
        assert(ids.take(j)[i] == a);
        assert(is_taken(client, ids.take(j), selector(client, b)));
    }
}

/// A selector stays when slots are put behind.
proof fn selectors_stay(client: ClientV, slots: Seq<SlotV>, model_id: Seq<char>)
    requires
        slots.len() > 0,
        slot_ids(slots.drop_last()).contains(model_id),
    ensures
        catalog_selector(client, slots, model_id) == catalog_selector(client, slots.drop_last(), model_id),
        slot_ids(slots).contains(model_id),
{
    let before = slots.drop_last();
    assert(slot_ids(before) =~= slot_ids(slots).drop_last());
    let k = choose|k: int| 0 <= k < slot_ids(before).len() && slot_ids(before)[k] == model_id;
    assert(slot_ids(slots)[k] == model_id);
}

/// Every route offers a model of the slots under the catalog's selector of it, and no two routes offer
/// the same.
proof fn routes_follow_the_slots(client: ClientV, slots: Seq<SlotV>)
    ensures
        forall|i: int|
            0 <= i < routes(client, slots).len() ==> {
                let model = (#[trigger] routes(client, slots)[i]).text_at("upstream_model"@);
                &&& model is Some && slot_ids(slots).contains(model.unwrap())
                &&& routes(client, slots)[i].text_at("selector_id"@) == Some(
                    catalog_selector(client, slots, model.unwrap()),
                )
            },
        forall|i: int, j: int|
            0 <= i < j < routes(client, slots).len() ==> (#[trigger] routes(client, slots)[i]).text_at("upstream_model"@)
                != (#[trigger] routes(client, slots)[j]).text_at("upstream_model"@),
    decreases slots.len(),
{
    if slots.len() > 0 {
        let before = slots.drop_last();
        let id = trimmed(slots.last().model_id);
        let old_routes = routes(client, before);
        let new_routes = routes(client, slots);
        routes_follow_the_slots(client, before);
        route_tells_its_model(slots.last(), catalog_selector(client, slots, id));
        assert(slot_ids(slots)[slots.len() - 1] == id);
        assert forall|i: int| 0 <= i < new_routes.len() implies {
            let model = (#[trigger] new_routes[i]).text_at("upstream_model"@);
            &&& model is Some && slot_ids(slots).contains(model.unwrap())
            &&& new_routes[i].text_at("selector_id"@) == Some(catalog_selector(client, slots, model.unwrap()))
        } by {
            if i < old_routes.len() {
                assert(new_routes[i] == old_routes[i]);
                selectors_stay(client, slots, old_routes[i].text_at("upstream_model"@).unwrap());
            }
        }
        assert forall|i: int, j: int| 0 <= i < j < new_routes.len() implies (#[trigger] new_routes[i]).text_at(
            "upstream_model"@,
        ) != (#[trigger] new_routes[j]).text_at("upstream_model"@) by {
            assert(new_routes[i] == old_routes[i]);
            if j < old_routes.len() {
                assert(new_routes[j] == old_routes[j]);
            }
        }
    }
}

/// No two routes of a catalog have the same selector.
pub proof fn selectors_are_distinct(client: ClientV, channel: ChannelV)
    ensures
        forall|i: int, j: int|
            0 <= i < j < routes(client, role_slots(channel)).len() ==> (#[trigger] routes(client, role_slots(channel))[i]).text_at(
                "selector_id"@,
            ) != (#[trigger] routes(client, role_slots(channel))[j]).text_at("selector_id"@),
{
    let slots = role_slots(channel);
    let all = routes(client, slots);
    routes_follow_the_slots(client, slots);
    assert forall|i: int, j: int| 0 <= i < j < all.len() implies (#[trigger] all[i]).text_at("selector_id"@)
        != (#[trigger] all[j]).text_at("selector_id"@) by {
        models_are_told_apart(
            client,
            slots,
            all[i].text_at("upstream_model"@).unwrap(),
            all[j].text_at("upstream_model"@).unwrap(),
        );
    }
}

/// Where no two models have the same plain selector, each is offered under its plain selector; the
/// default model always is.
pub proof fn plain_selectors_are_kept(client: ClientV, channel: ChannelV, role: int)
    requires
        0 <= role < 4,
    ensures
        ({
            let slots = role_slots(channel);
            let ids = slot_ids(slots);
            role == 0 || (forall|i: int, j: int|
                0 <= i < 4 && 0 <= j < 4 && selector(client, #[trigger] ids[i]) == selector(client, #[trigger] ids[j])
                    ==> ids[i] == ids[j]) ==> catalog_selector(client, slots, ids[role]) == selector(client, ids[role])
        }),
{
    let slots = role_slots(channel);
    let ids = slot_ids(slots);
    selector_by_first_slot(client, slots, ids[role]);
    let k = first_slot(slots, ids[role]);
    if is_taken(client, ids.take(k), selector(client, ids[role])) {
        let i = choose|i: int|
            0 <= i < ids.take(k).len() && selector(client, #[trigger] ids.take(k)[i]) == selector(client, ids[role]);
        assert(ids.take(k)[i] == ids[i]);
        assert(ids[i] != ids[role]);
        assert(k > 0);
        if role == 0 {
            assert(ids[0] != ids[role]);
        }
    }
}

} // verus!
