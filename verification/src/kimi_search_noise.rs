//! Clean-up of the search turns of a streamed response.
//!
//! Three narrow rules: a text block that only repeats the search query is left out; a search call
//! and result that have neither ids nor content are left out as a pair; and the two halves of a
//! search are given the one id that one of them carries. Everything else passes byte for byte.
use crate::json::{Json, JsonV, NumberV};
use crate::json_model::{group_json_views, json_parse, list_view, with_same_value};
use crate::sse::{
    bytes_between, event_and_data, frame_end, frame_event, passthrough, render_sse, split_frame, sse_bytes,
};
use crate::text::{byte_len, group_texts, opt_text, same, starts_with};
use vstd::prelude::*;
use vstd::utf8::encode_utf8;

verus! {

broadcast use {group_json_views, group_texts};

pub const RULE_PROVIDER_KIMI_SEARCH_NOISE_TEXT_STRIP: &'static str = "provider.kimi.search-noise-text-strip";

pub const RULE_PROVIDER_KIMI_EMPTY_SEARCH_PAIR_STRIP: &'static str = "provider.kimi.empty-search-pair-strip";

pub const RULE_PROVIDER_KIMI_SEARCH_PAIR_ID_ADOPT: &'static str = "provider.kimi.search-pair-id-adopt";

/// The text with which the upstream's repetition of a query begins.
pub const NOISE_PREFIX: &'static str = "Search results for query:";

/// The most bytes that a frame may have.
pub const MAX_FRAME_BYTES: usize = 1_048_576;

/// The most bytes that wait for a decision about a block.
pub const MAX_PENDING_BYTES: usize = 262_144;

/// What was left out or changed. A count stops at the largest number.
#[derive(Debug, Clone, Copy, PartialEq, Eq, Structural)]
pub struct StripStats {
    pub noise_blocks: usize,
    pub pair_blocks: usize,
    pub bytes: usize,
    /// Search pairs whose halves were given one id.
    pub adopted_pairs: usize,
    /// Search pairs with content whose halves both lack an id; they pass as they are.
    pub unkeyed_pairs: usize,
}

pub open spec fn no_stats() -> StripStats {
    StripStats { noise_blocks: 0, pair_blocks: 0, bytes: 0, adopted_pairs: 0, unkeyed_pairs: 0 }
}

impl Default for StripStats {
    fn default() -> (stats: StripStats)
        ensures
            stats == no_stats(),
    {
        StripStats { noise_blocks: 0, pair_blocks: 0, bytes: 0, adopted_pairs: 0, unkeyed_pairs: 0 }
    }
}

impl StripStats {
    pub open spec fn total_blocks_spec(&self) -> usize {
        self.noise_blocks.saturating_add(self.pair_blocks)
    }

    /// How many blocks were left out.
    pub fn total_blocks(&self) -> (n: usize)
        ensures
            n == self.total_blocks_spec(),
    {
        self.noise_blocks.saturating_add(self.pair_blocks)
    }

    /// Whether there is anything to report.
    pub fn any_activity(&self) -> (yes: bool)
        ensures
            yes == (self.total_blocks_spec() > 0 || self.adopted_pairs > 0 || self.unkeyed_pairs > 0),
    {
        self.total_blocks() > 0 || self.adopted_pairs > 0 || self.unkeyed_pairs > 0
    }

    /// Whether the response was changed.
    pub fn rewrote_body(&self) -> (yes: bool)
        ensures
            yes == (self.total_blocks_spec() > 0 || self.adopted_pairs > 0),
    {
        self.total_blocks() > 0 || self.adopted_pairs > 0
    }
}

#[derive(Debug, Clone, Copy, PartialEq, Eq, Structural)]
pub enum SwallowKind {
    Noise,
    Pair,
}

/// A frame that waits, and whether it belongs to the block that is undecided.
pub struct HeldFrame {
    pub bytes: Vec<u8>,
    pub belongs_to_block: bool,
}

pub enum PendingKind {
    /// A text block, decided once its text is as long as the prefix.
    Text(String),
    /// A search call, decided by the block after it: its id, and whether it has ended.
    ServerTool(Option<String>, bool),
}

/// The block that is undecided.
pub struct Pending {
    pub upstream_index: u64,
    pub kind: PendingKind,
    pub held: Vec<HeldFrame>,
    pub held_bytes: usize,
}

#[verifier::ext_equal]
pub enum PendingKindV {
    Text(Seq<char>),
    ServerTool(Option<Seq<char>>, bool),
}

#[verifier::ext_equal]
pub struct PendingV {
    pub upstream_index: u64,
    pub kind: PendingKindV,
    pub held: Seq<(Seq<u8>, bool)>,
    pub held_bytes: usize,
}

/// The state of the filter.
#[verifier::ext_equal]
pub struct FilterV {
    pub buf: Seq<u8>,
    pub stats: StripStats,
    pub stripped: usize,
    pub next_output: u64,
    pub active: Option<(u64, u64)>,
    pub swallowing: Option<(u64, SwallowKind)>,
    pub pending: Option<PendingV>,
}

pub open spec fn opt_string(s: Option<String>) -> Option<Seq<char>> {
    match s {
        Some(t) => Some(t@),
        None => None,
    }
}

pub open spec fn held_view(held: Seq<HeldFrame>) -> Seq<(Seq<u8>, bool)> {
    held.map_values(|h: HeldFrame| (h.bytes@, h.belongs_to_block))
}

impl View for Pending {
    type V = PendingV;

    open spec fn view(&self) -> PendingV {
        PendingV {
            upstream_index: self.upstream_index,
            kind: match self.kind {
                PendingKind::Text(accum) => PendingKindV::Text(accum@),
                PendingKind::ServerTool(id, closed) => PendingKindV::ServerTool(opt_string(id), closed),
            },
            held: held_view(self.held@),
            held_bytes: self.held_bytes,
        }
    }
}

/// Cleans up a response stream as it passes.
pub struct SearchNoiseFilter {
    buf: Vec<u8>,
    stats: StripStats,
    /// Blocks left out; while it is 0, every output keeps its bytes.
    stripped_blocks: usize,
    /// The index of the next block that goes out.
    next_output_index: u64,
    /// The block that is open: its index upstream and the one it goes out with.
    active_output_block: Option<(u64, u64)>,
    /// The block that is being left out, and why.
    swallowing: Option<(u64, SwallowKind)>,
    pending: Option<Pending>,
}

impl View for SearchNoiseFilter {
    type V = FilterV;

    closed spec fn view(&self) -> FilterV {
        FilterV {
            buf: self.buf@,
            stats: self.stats,
            stripped: self.stripped_blocks,
            next_output: self.next_output_index,
            active: self.active_output_block,
            swallowing: self.swallowing,
            pending: match self.pending {
                Some(p) => Some(p@),
                None => None,
            },
        }
    }
}

pub open spec fn new_filter() -> FilterV {
    FilterV {
        buf: Seq::empty(),
        stats: no_stats(),
        stripped: 0,
        next_output: 0,
        active: None,
        swallowing: None,
        pending: None,
    }
}

/// The number of bytes of a frame with its separator.
pub open spec fn frame_size(frame: Seq<u8>, sep: Seq<u8>) -> usize {
    (frame.len() as usize).wrapping_add(sep.len() as usize)
}

/// The frame of a block that goes out under an index: as it came, or with the index changed.
pub open spec fn reindexed(
    output: u64,
    upstream: u64,
    event: Option<Seq<char>>,
    obj: JsonV,
    frame: Seq<u8>,
    sep: Seq<u8>,
) -> Seq<u8> {
    if output == upstream {
        frame + sep
    } else {
        sse_bytes(event, obj.with("index"@, JsonV::Number(NumberV::PosInt(output))))
    }
}

/// A frame of a block that has started.
pub open spec fn indexed_bytes(
    s: FilterV,
    upstream: u64,
    event: Option<Seq<char>>,
    obj: JsonV,
    frame: Seq<u8>,
    sep: Seq<u8>,
) -> Seq<u8> {
    let shifted = upstream.saturating_sub(s.stripped as u64);
    let output = match s.active {
        Some((u, o)) => if u == upstream {
            o
        } else {
            shifted
        },
        None => shifted,
    };
    reindexed(output, upstream, event, obj, frame, sep)
}

/// The state after a block went out under the next index.
pub open spec fn block_opened(s: FilterV, upstream: u64) -> FilterV {
    FilterV { next_output: s.next_output.wrapping_add(1), active: Some((upstream, s.next_output)), ..s }
}

/// The first frame of a block written anew.
pub open spec fn start_bytes(s: FilterV, upstream: u64, event: Option<Seq<char>>, obj: JsonV) -> Seq<u8> {
    if s.next_output != upstream {
        sse_bytes(event, obj.with("index"@, JsonV::Number(NumberV::PosInt(s.next_output))))
    } else {
        sse_bytes(event, obj)
    }
}

/// A frame with a key of its block given a value.
pub open spec fn with_block_key(obj: JsonV, key: Seq<char>, value: Seq<char>) -> JsonV {
    match obj.get("content_block"@) {
        Some(block) => obj.with("content_block"@, block.with(key, JsonV::Str(value))),
        None => obj,
    }
}

/// A held frame and its separator.
pub open spec fn held_parts(bytes: Seq<u8>) -> Option<(Seq<u8>, Seq<u8>)> {
    match frame_end(bytes) {
        Some((at, sep)) => Some((bytes.take(at), bytes.subrange(at, at + sep))),
        None => None,
    }
}

/// The release of held frames under way.
#[verifier::ext_equal]
pub struct FlushV {
    pub s: FilterV,
    pub out: Seq<u8>,
    pub started: bool,
}

pub open spec fn flush_step(f: FlushV, upstream: u64, held: (Seq<u8>, bool), adopt: Option<Seq<char>>) -> FlushV {
    let (bytes, belongs) = held;
    let kept = FlushV { out: f.out + bytes, ..f };
    if !belongs {
        kept
    } else if f.s.stripped == 0 && (adopt is None || f.started) {
        if f.started {
            kept
        } else {
            FlushV {
                s: FilterV { active: Some((upstream, upstream)), next_output: upstream.wrapping_add(1), ..f.s },
                out: f.out + bytes,
                started: true,
            }
        }
    } else {
        match held_parts(bytes) {
            None => kept,
            Some((frame, sep)) => match json_parse(frame_event(frame).1) {
                None => kept,
                Some(obj) => {
                    let event = frame_event(frame).0;
                    if f.started {
                        FlushV { out: f.out + indexed_bytes(f.s, upstream, event, obj, frame, sep), ..f }
                    } else {
                        let bytes_out = match adopt {
                            Some(key) => start_bytes(f.s, upstream, event, with_block_key(obj, "id"@, key)),
                            None => reindexed(f.s.next_output, upstream, event, obj, frame, sep),
                        };
                        FlushV { s: block_opened(f.s, upstream), out: f.out + bytes_out, started: true }
                    }
                },
            },
        }
    }
}

pub open spec fn flush_held(s: FilterV, upstream: u64, held: Seq<(Seq<u8>, bool)>, adopt: Option<Seq<char>>) -> FlushV
    decreases held.len(),
{
    if held.len() == 0 {
        FlushV { s, out: Seq::empty(), started: false }
    } else {
        flush_step(flush_held(s, upstream, held.drop_last(), adopt), upstream, held.last(), adopt)
    }
}

/// The release of an undecided block, which stays: the state and the bytes that go out. With
/// `adopt`, the block's id becomes that key.
pub open spec fn flushed(s: FilterV, adopt: Option<Seq<char>>) -> (FilterV, Seq<u8>) {
    match s.pending {
        None => (s, Seq::empty()),
        Some(p) => {
            let f = flush_held(FilterV { pending: None, ..s }, p.upstream_index, p.held, adopt);
            let closed = p.kind matches PendingKindV::ServerTool(_, true);
            (
                if closed {
                    FilterV { active: None, ..f.s }
                } else {
                    f.s
                },
                f.out,
            )
        },
    }
}

/// The held frames that are not the block's, one after another.
pub open spec fn interleaved(held: Seq<(Seq<u8>, bool)>) -> Seq<u8>
    decreases held.len(),
{
    if held.len() == 0 {
        Seq::empty()
    } else if held.last().1 {
        interleaved(held.drop_last())
    } else {
        interleaved(held.drop_last()) + held.last().0
    }
}

/// A count of bytes after the held frames of a block were left out.
pub open spec fn bytes_left_out(bytes: usize, held: Seq<(Seq<u8>, bool)>) -> usize
    decreases held.len(),
{
    if held.len() == 0 {
        bytes
    } else if held.last().1 {
        bytes_left_out(bytes, held.drop_last()).saturating_add(held.last().0.len() as usize)
    } else {
        bytes_left_out(bytes, held.drop_last())
    }
}

/// The state after one more block was left out.
pub open spec fn block_left_out(s: FilterV, kind: SwallowKind) -> FilterV {
    FilterV {
        stripped: s.stripped.wrapping_add(1),
        stats: match kind {
            SwallowKind::Noise => StripStats { noise_blocks: s.stats.noise_blocks.saturating_add(1), ..s.stats },
            SwallowKind::Pair => StripStats { pair_blocks: s.stats.pair_blocks.saturating_add(1), ..s.stats },
        },
        ..s
    }
}

pub open spec fn more_bytes(s: FilterV, n: usize) -> FilterV {
    FilterV { stats: StripStats { bytes: s.stats.bytes.saturating_add(n), ..s.stats }, ..s }
}

/// A frame held back, and whether it still fits.
pub open spec fn held_frame(s: FilterV, frame: Seq<u8>, sep: Seq<u8>, belongs: bool) -> (FilterV, bool) {
    match s.pending {
        None => (s, false),
        Some(p) => {
            let size = p.held_bytes.wrapping_add(frame_size(frame, sep));
            if size > MAX_PENDING_BYTES {
                (FilterV { pending: Some(PendingV { held_bytes: size, ..p }), ..s }, false)
            } else {
                (
                    FilterV {
                        pending: Some(PendingV { held: p.held.push((frame + sep, belongs)), held_bytes: size, ..p }),
                        ..s
                    },
                    true,
                )
            }
        },
    }
}

/// The decision about a text block: left out once it begins with the prefix, released as soon as
/// it cannot any more.
pub open spec fn text_decided(s: FilterV) -> (FilterV, Seq<u8>) {
    match s.pending {
        Some(p) => match p.kind {
            PendingKindV::Text(accum) => if NOISE_PREFIX@.is_prefix_of(accum) {
                let stats = StripStats { bytes: bytes_left_out(s.stats.bytes, p.held), ..s.stats };
                (
                    FilterV { pending: None, stats, swallowing: Some((p.upstream_index, SwallowKind::Noise)), ..s },
                    interleaved(p.held),
                )
            } else if accum.len() < NOISE_PREFIX@.len() && accum.is_prefix_of(NOISE_PREFIX@) {
                (s, Seq::empty())
            } else {
                flushed(s, None)
            },
            _ => (s, Seq::empty()),
        },
        None => (s, Seq::empty()),
    }
}

pub open spec fn overfull() -> Seq<char> {
    "Kimi noise strip pending buffer exceeds the bound"@
}

/// A text that is not empty.
pub open spec fn non_empty(s: Option<Seq<char>>) -> Option<Seq<char>> {
    match s {
        Some(t) => if t.len() > 0 {
            Some(t)
        } else {
            None
        },
        None => None,
    }
}

/// The text under a key of a frame's block.
pub open spec fn block_text_at(obj: JsonV, key: Seq<char>) -> Option<Seq<char>> {
    match obj.get("content_block"@) {
        Some(block) => block.text_at(key),
        None => None,
    }
}

/// The start of a block: text and search calls wait, anything else goes out.
pub open spec fn block_started(s: FilterV, index: u64, event: Option<Seq<char>>, obj: JsonV, frame: Seq<u8>, sep: Seq<u8>) -> (
    FilterV,
    Result<Seq<u8>, Seq<char>>,
) {
    let kind = block_text_at(obj, "type"@);
    if kind == Some("text"@) {
        let accum = match block_text_at(obj, "text"@) {
            Some(t) => t,
            None => ""@,
        };
        let fresh = PendingV { upstream_index: index, kind: PendingKindV::Text(accum), held: Seq::empty(), held_bytes: 0 };
        let (s1, fits) = held_frame(FilterV { pending: Some(fresh), ..s }, frame, sep, true);
        if fits {
            let (s2, out) = text_decided(s1);
            (s2, Ok(out))
        } else {
            (s1, Err(overfull()))
        }
    } else if kind == Some("server_tool_use"@) && block_text_at(obj, "name"@) == Some("web_search"@) {
        let id = non_empty(block_text_at(obj, "id"@));
        let fresh = PendingV {
            upstream_index: index,
            kind: PendingKindV::ServerTool(id, false),
            held: Seq::empty(),
            held_bytes: 0,
        };
        let (s1, fits) = held_frame(FilterV { pending: Some(fresh), ..s }, frame, sep, true);
        (
            s1,
            if fits {
                Ok(Seq::empty())
            } else {
                Err(overfull())
            },
        )
    } else {
        (block_opened(s, index), Ok(reindexed(s.next_output, index, event, obj, frame, sep)))
    }
}

/// Bytes that go out before those of a step that may fail.
pub open spec fn after(before: Seq<u8>, step: (FilterV, Result<Seq<u8>, Seq<char>>)) -> (
    FilterV,
    Result<Seq<u8>, Seq<char>>,
) {
    (
        step.0,
        match step.1 {
            Ok(out) => Ok(before + out),
            Err(e) => Err(e),
        },
    )
}

/// One more pair whose halves were given one id, where the step before it worked.
pub open spec fn pair_adopted(step: (FilterV, Result<Seq<u8>, Seq<char>>)) -> (FilterV, Result<Seq<u8>, Seq<char>>) {
    match step.1 {
        Ok(out) => (
            FilterV {
                stats: StripStats { adopted_pairs: step.0.stats.adopted_pairs.saturating_add(1), ..step.0.stats },
                ..step.0
            },
            Ok(out),
        ),
        Err(e) => step,
    }
}

/// Whether a frame's block has content that is an empty array.
pub open spec fn block_content_empty(obj: JsonV) -> bool {
    match obj.get("content_block"@) {
        Some(block) => match block.get("content"@) {
            Some(JsonV::Array(items)) => items.len() == 0,
            _ => false,
        },
        None => false,
    }
}

/// The block after a search call that has ended.
pub open spec fn after_search_call(
    s: FilterV,
    p: PendingV,
    use_id: Option<Seq<char>>,
    index: u64,
    event: Option<Seq<char>>,
    obj: JsonV,
    frame: Seq<u8>,
    sep: Seq<u8>,
) -> (FilterV, Result<Seq<u8>, Seq<char>>) {
    let released = flushed(s, None);
    let plain = after(released.1, block_started(released.0, index, event, obj, frame, sep));
    if block_text_at(obj, "type"@) != Some("web_search_tool_result"@) {
        plain
    } else {
        match (use_id, non_empty(block_text_at(obj, "tool_use_id"@))) {
            (None, None) => if block_content_empty(obj) {
                let stats = StripStats { bytes: bytes_left_out(s.stats.bytes, p.held), ..s.stats };
                let s1 = block_left_out(FilterV { pending: None, stats, ..s }, SwallowKind::Pair);
                let s2 = more_bytes(s1, frame_size(frame, sep));
                (FilterV { swallowing: Some((index, SwallowKind::Pair)), ..s2 }, Ok(interleaved(p.held)))
            } else {
                let s1 = FilterV {
                    stats: StripStats { unkeyed_pairs: s.stats.unkeyed_pairs.saturating_add(1), ..s.stats },
                    ..s
                };
                let counted = flushed(s1, None);
                after(counted.1, block_started(counted.0, index, event, obj, frame, sep))
            },
            (Some(use_key), None) => {
                let started = (
                    block_opened(released.0, index),
                    Ok(start_bytes(released.0, index, event, with_block_key(obj, "tool_use_id"@, use_key))),
                );
                pair_adopted(after(released.1, started))
            },
            (_, Some(key)) => if use_id == Some(key) {
                plain
            } else {
                let adopted = flushed(s, Some(key));
                pair_adopted(after(adopted.1, block_started(adopted.0, index, event, obj, frame, sep)))
            },
        }
    }
}

/// A frame that starts a block.
pub open spec fn on_block_start(s: FilterV, event: Option<Seq<char>>, obj: JsonV, frame: Seq<u8>, sep: Seq<u8>) -> (
    FilterV,
    Result<Seq<u8>, Seq<char>>,
) {
    match obj.unsigned_at("index"@) {
        None => (s, Err("Kimi noise strip content block index is invalid"@)),
        Some(index) => match s.pending {
            Some(p) => match p.kind {
                PendingKindV::ServerTool(use_id, true) => after_search_call(s, p, use_id, index, event, obj, frame, sep),
                _ => (s, Err("Kimi noise strip saw overlapping content blocks"@)),
            },
            None => if s.swallowing is Some {
                (s, Err("Kimi noise strip saw overlapping content blocks"@))
            } else {
                block_started(s, index, event, obj, frame, sep)
            },
        },
    }
}

/// The text that a delta frame adds.
pub open spec fn delta_text(obj: JsonV) -> Seq<char> {
    match obj.get("delta"@) {
        Some(delta) => match delta.text_at("text"@) {
            Some(t) => t,
            None => Seq::empty(),
        },
        None => Seq::empty(),
    }
}

/// A frame that continues a block.
pub open spec fn on_block_delta(s: FilterV, event: Option<Seq<char>>, obj: JsonV, frame: Seq<u8>, sep: Seq<u8>) -> (
    FilterV,
    Result<Seq<u8>, Seq<char>>,
) {
    match obj.unsigned_at("index"@) {
        None => (s, Err("Kimi noise strip content block index is invalid"@)),
        Some(index) => if s.swallowing is Some && s.swallowing.unwrap().0 == index {
            (more_bytes(s, frame_size(frame, sep)), Ok(Seq::empty()))
        } else if s.pending is Some && s.pending.unwrap().upstream_index == index {
            let p = s.pending.unwrap();
            let p1 = match p.kind {
                PendingKindV::Text(accum) => PendingV { kind: PendingKindV::Text(accum + delta_text(obj)), ..p },
                _ => p,
            };
            let (s1, fits) = held_frame(FilterV { pending: Some(p1), ..s }, frame, sep, true);
            if fits {
                let (s2, out) = text_decided(s1);
                (s2, Ok(out))
            } else {
                (s1, Err(overfull()))
            }
        } else {
            (s, Ok(indexed_bytes(s, index, event, obj, frame, sep)))
        },
    }
}

/// A frame that ends a block.
pub open spec fn on_block_stop(s: FilterV, event: Option<Seq<char>>, obj: JsonV, frame: Seq<u8>, sep: Seq<u8>) -> (
    FilterV,
    Result<Seq<u8>, Seq<char>>,
) {
    match obj.unsigned_at("index"@) {
        None => (s, Err("Kimi noise strip content block index is invalid"@)),
        Some(index) => if s.swallowing is Some && s.swallowing.unwrap().0 == index {
            let s1 = block_left_out(more_bytes(s, frame_size(frame, sep)), s.swallowing.unwrap().1);
            (FilterV { swallowing: None, ..s1 }, Ok(Seq::empty()))
        } else if s.pending is Some && s.pending.unwrap().upstream_index == index {
            let p = s.pending.unwrap();
            match p.kind {
                PendingKindV::Text(_) => {
                    let (s1, out) = flushed(s, None);
                    (
                        FilterV { active: None, ..s1 },
                        Ok(out + indexed_bytes(s1, index, event, obj, frame, sep)),
                    )
                },
                PendingKindV::ServerTool(id, _) => {
                    let p1 = PendingV { kind: PendingKindV::ServerTool(id, true), ..p };
                    let (s1, fits) = held_frame(FilterV { pending: Some(p1), ..s }, frame, sep, true);
                    (
                        s1,
                        if fits {
                            Ok(Seq::empty())
                        } else {
                            Err(overfull())
                        },
                    )
                },
            }
        } else {
            (FilterV { active: None, ..s }, Ok(indexed_bytes(s, index, event, obj, frame, sep)))
        },
    }
}

/// A frame that belongs to no block: it keeps its place behind what waits.
pub open spec fn on_other(s: FilterV, frame: Seq<u8>, sep: Seq<u8>) -> (FilterV, Seq<u8>) {
    if s.pending is Some {
        let (s1, fits) = held_frame(s, frame, sep, false);
        if fits {
            (s1, Seq::empty())
        } else {
            let (s2, out) = flushed(s1, None);
            (s2, out + (frame + sep))
        }
    } else {
        (s, frame + sep)
    }
}

/// One frame of the stream.
pub open spec fn on_frame(s: FilterV, frame: Seq<u8>, sep: Seq<u8>) -> (FilterV, Result<Seq<u8>, Seq<char>>) {
    let (event, data) = frame_event(frame);
    match json_parse(data) {
        None => (on_other(s, frame, sep).0, Ok(on_other(s, frame, sep).1)),
        Some(obj) => {
            let kind = obj.text_at("type"@);
            if kind == Some("content_block_start"@) {
                on_block_start(s, event, obj, frame, sep)
            } else if kind == Some("content_block_delta"@) {
                on_block_delta(s, event, obj, frame, sep)
            } else if kind == Some("content_block_stop"@) {
                on_block_stop(s, event, obj, frame, sep)
            } else if kind == Some("message_delta"@) || kind == Some("message_stop"@) {
                let (s1, out) = flushed(s, None);
                (s1, Ok(out + (frame + sep)))
            } else {
                (on_other(s, frame, sep).0, Ok(on_other(s, frame, sep).1))
            }
        },
    }
}

/// All the frames in the buffer, one after another: the state and the bytes that go out.
pub open spec fn drained(s: FilterV) -> (FilterV, Result<Seq<u8>, Seq<char>>)
    decreases s.buf.len(),
{
    match frame_end(s.buf) {
        None => (s, Ok(Seq::empty())),
        Some((at, sep)) => if at < 0 || sep <= 0 || at + sep > s.buf.len() {
            (s, Ok(Seq::empty()))
        } else {
            let (s1, r) = on_frame(s, s.buf.take(at), s.buf.subrange(at, at + sep));
            match r {
                Err(e) => (s1, Err(e)),
                Ok(out) => after(out, drained(FilterV { buf: s.buf.skip(at + sep), ..s1 })),
            }
        },
    }
}

/// Bytes handed to the filter: the state after them and the bytes that go out.
pub open spec fn fed(s: FilterV, chunk: Seq<u8>) -> (FilterV, Result<Seq<u8>, Seq<char>>) {
    let (s1, r) = drained(FilterV { buf: s.buf + chunk, ..s });
    if r is Ok && s1.buf.len() > MAX_FRAME_BYTES {
        (s1, Err("Kimi noise strip frame exceeds the bounded buffer"@))
    } else {
        (s1, r)
    }
}

/// Whether a byte is ASCII white space.
pub open spec fn ascii_space(b: u8) -> bool {
    b == 32 || b == 9 || b == 10 || b == 12 || b == 13
}

pub open spec fn only_space(bytes: Seq<u8>) -> bool {
    forall|i: int| 0 <= i < bytes.len() ==> ascii_space(#[trigger] bytes[i])
}

/// The end of the stream: what still waits goes out, and nothing may be left of a frame.
pub open spec fn finished(s: FilterV) -> (FilterV, Result<Seq<u8>, Seq<char>>) {
    if !only_space(s.buf) {
        (s, Err("Kimi noise strip stream ended inside a frame"@))
    } else {
        let (s1, out) = flushed(FilterV { buf: Seq::empty(), ..s }, None);
        (s1, Ok(out))
    }
}

/// A step's outcome as the filter gives it.
pub open spec fn outcome(out: Result<Vec<u8>, String>) -> Result<Seq<u8>, Seq<char>> {
    match out {
        Ok(bytes) => Ok(bytes@),
        Err(e) => Err(e@),
    }
}

proof fn held_view_push(held: Seq<HeldFrame>, h: HeldFrame)
    ensures
        held_view(held.push(h)) == held_view(held).push((h.bytes@, h.belongs_to_block)),
{
    assert(held_view(held.push(h)) =~= held_view(held).push((h.bytes@, h.belongs_to_block)));
}

fn with_key(obj: Json, key: &str, value: &str) -> (out: Json)
    ensures
        out@ == with_block_key(obj@, key@, value@),
{
    let mut obj = obj;
    if let Some(block) = obj.get_mut("content_block") {
        block.set(key, Json::text(value));
    }
    obj
}

fn rewrite_or_pass(output_index: u64, upstream_index: u64, event: Option<&str>, obj: Json, frame: &[u8], sep: &[u8]) -> (out: Vec<
    u8,
>)
    ensures
        out@ == reindexed(output_index, upstream_index, opt_text(event), obj@, frame@, sep@),
{
    if output_index == upstream_index {
        return passthrough(frame, sep);
    }
    let mut obj = obj;
    obj.set("index", Json::unsigned(output_index));
    render_sse(event, &obj)
}

fn split_held(bytes: &Vec<u8>) -> (parts: Option<(Vec<u8>, Vec<u8>)>)
    ensures
        match parts {
            Some((frame, sep)) => held_parts(bytes@) == Some((frame@, sep@)),
            None => held_parts(bytes@) is None,
        },
{
    match split_frame(bytes.as_slice()) {
        Some((frame, sep_len, rest)) => {
            let n: usize = bytes.len();
            assert(frame@.len() + sep_len <= n);
            let sep = bytes_between(bytes.as_slice(), frame.len(), frame.len() + sep_len);
            Some((frame, sep))
        },
        None => None,
    }
}

fn block_index(obj: &Json) -> (index: Option<u64>)
    ensures
        index == obj@.unsigned_at("index"@),
{
    obj.u64_at("index")
}

fn as_ref_str(s: &Option<String>) -> (r: Option<&str>)
    ensures
        opt_text(r) == opt_string(*s),
{
    match s {
        Some(t) => Some(t.as_str()),
        None => None,
    }
}

fn block_str<'a>(obj: &'a Json, key: &str) -> (text: Option<&'a str>)
    ensures
        opt_text(text) == block_text_at(obj@, key@),
{
    match obj.get("content_block") {
        Some(block) => block.str_at(key),
        None => None,
    }
}

fn block_key(obj: &Json, key: &str) -> (text: Option<String>)
    ensures
        opt_string(text) == non_empty(block_text_at(obj@, key@)),
{
    match block_str(obj, key) {
        Some(t) => if t.is_empty() {
            None
        } else {
            Some(t.to_owned())
        },
        None => None,
    }
}

fn block_is(obj: &Json, key: &str, lit: &str) -> (yes: bool)
    ensures
        yes == (block_text_at(obj@, key@) == Some(lit@)),
{
    match block_str(obj, key) {
        Some(t) => same(t, lit),
        None => false,
    }
}

fn content_is_empty(obj: &Json) -> (yes: bool)
    ensures
        yes == block_content_empty(obj@),
{
    match obj.get("content_block") {
        Some(block) => match block.array_at("content") {
            Some(items) => items.len() == 0,
            None => false,
        },
        None => false,
    }
}

/// The held frames that are not the block's, and the count of bytes that are left out with it.
fn leave_out(held: &Vec<HeldFrame>, bytes: usize) -> (out: (Vec<u8>, usize))
    ensures
        out.0@ == interleaved(held_view(held@)),
        out.1 == bytes_left_out(bytes, held_view(held@)),
{
    let ghost all = held_view(held@);
    let mut out: Vec<u8> = Vec::new();
    let mut count: usize = bytes;
    let mut i: usize = 0;
    while i < held.len()
        invariant
            i <= held@.len(),
            all == held_view(held@),
            out@ == interleaved(all.take(i as int)),
            count == bytes_left_out(bytes, all.take(i as int)),
        decreases held@.len() - i,
    {
        assert(all.take(i + 1).drop_last() =~= all.take(i as int));
        if held[i].belongs_to_block {
            count = count.saturating_add(held[i].bytes.len());
        } else {
            out.extend_from_slice(held[i].bytes.as_slice());
            assert(out@ =~= interleaved(all.take(i as int)) + held@[i as int].bytes@);
        }
        i = i + 1;
    }
    assert(all.take(i as int) =~= all);
    (out, count)
}

impl SearchNoiseFilter {
    pub fn new() -> (filter: SearchNoiseFilter)
        ensures
            filter@ == new_filter(),
    {
        SearchNoiseFilter {
            buf: Vec::new(),
            stats: StripStats::default(),
            stripped_blocks: 0,
            next_output_index: 0,
            active_output_block: None,
            swallowing: None,
            pending: None,
        }
    }

    pub fn stats(&self) -> (stats: StripStats)
        ensures
            stats == self@.stats,
    {
        self.stats
    }

    fn pass_indexed(&self, upstream_index: u64, event: Option<&str>, obj: Json, frame: &[u8], sep: &[u8]) -> (out: Vec<u8>)
        ensures
            out@ == indexed_bytes(self@, upstream_index, opt_text(event), obj@, frame@, sep@),
    {
        let shifted = upstream_index.saturating_sub(self.stripped_blocks as u64);
        let output_index: u64 = match self.active_output_block {
            Some((upstream, output)) => if upstream == upstream_index {
                output
            } else {
                shifted
            },
            None => shifted,
        };
        rewrite_or_pass(output_index, upstream_index, event, obj, frame, sep)
    }

    fn open_block(&mut self, upstream_index: u64) -> (output_index: u64)
        ensures
            final(self)@ == block_opened(old(self)@, upstream_index),
            output_index == old(self)@.next_output,
    {
        let output_index: u64 = self.next_output_index;
        self.next_output_index = output_index.wrapping_add(1);
        self.active_output_block = Some((upstream_index, output_index));
        output_index
    }

    fn pass_block_start(&mut self, upstream_index: u64, event: Option<&str>, obj: Json, frame: &[u8], sep: &[u8]) -> (out: Vec<
        u8,
    >)
        ensures
            final(self)@ == block_opened(old(self)@, upstream_index),
            out@ == reindexed(old(self)@.next_output, upstream_index, opt_text(event), obj@, frame@, sep@),
    {
        let output_index = self.open_block(upstream_index);
        rewrite_or_pass(output_index, upstream_index, event, obj, frame, sep)
    }

    fn render_block_start(&mut self, upstream_index: u64, event: Option<&str>, obj: Json) -> (out: Vec<u8>)
        ensures
            final(self)@ == block_opened(old(self)@, upstream_index),
            out@ == start_bytes(old(self)@, upstream_index, opt_text(event), obj@),
    {
        let output_index = self.open_block(upstream_index);
        let mut obj = obj;
        if output_index != upstream_index {
            obj.set("index", Json::unsigned(output_index));
        }
        render_sse(event, &obj)
    }

    fn count_swallowed_block(&mut self, kind: SwallowKind)
        ensures
            final(self)@ == block_left_out(old(self)@, kind),
    {
        self.stripped_blocks = self.stripped_blocks.wrapping_add(1);
        match kind {
            SwallowKind::Noise => {
                self.stats.noise_blocks = self.stats.noise_blocks.saturating_add(1);
            },
            SwallowKind::Pair => {
                self.stats.pair_blocks = self.stats.pair_blocks.saturating_add(1);
            },
        }
    }

    fn count_bytes(&mut self, frame: &[u8], sep: &[u8])
        ensures
            final(self)@ == more_bytes(old(self)@, frame_size(frame@, sep@)),
    {
        let size: usize = frame.len().wrapping_add(sep.len());
        self.stats.bytes = self.stats.bytes.saturating_add(size);
    }

    fn hold_frame(&mut self, frame: &[u8], sep: &[u8], belongs_to_block: bool) -> (fits: bool)
        ensures
            (final(self)@, fits) == held_frame(old(self)@, frame@, sep@, belongs_to_block),
    {
        match self.pending.take() {
            Some(p) => {
                let mut p = p;
                let ghost before = held_view(p.held@);
                p.held_bytes = p.held_bytes.wrapping_add(frame.len().wrapping_add(sep.len()));
                let fits = p.held_bytes <= MAX_PENDING_BYTES;
                if fits {
                    let h = HeldFrame { bytes: passthrough(frame, sep), belongs_to_block };
                    proof {
                        held_view_push(p.held@, h);
                    }
                    p.held.push(h);
                }
                self.pending = Some(p);
                fits
            },
            None => false,
        }
    }

    /// Releases an undecided block, which stays. With `adopt_id`, the block's id becomes that key.
    fn flush_pending_adopting(&mut self, adopt_id: Option<&str>) -> (out: Vec<u8>)
        ensures
            (final(self)@, out@) == flushed(old(self)@, opt_text(adopt_id)),
    {
        let pending = match self.pending.take() {
            Some(p) => p,
            None => {
                return Vec::new();
            },
        };
        let ghost start = self@;
        let ghost adopt = opt_text(adopt_id);
        let ghost all = held_view(pending.held@);
        let ghost index = pending.upstream_index;
        let mut out: Vec<u8> = Vec::new();
        let mut started = false;
        let mut i: usize = 0;
        while i < pending.held.len()
            invariant
                i <= pending.held@.len(),
                all == held_view(pending.held@),
                index == pending.upstream_index,
                adopt == opt_text(adopt_id),
                (FlushV { s: self@, out: out@, started }) == flush_held(start, index, all.take(i as int), adopt),
            decreases pending.held@.len() - i,
        {
            let ghost f = flush_held(start, index, all.take(i as int), adopt);
            assert(all.take(i + 1).drop_last() =~= all.take(i as int));
            assert(all.take(i + 1).last() == (pending.held@[i as int].bytes@, pending.held@[i as int].belongs_to_block));
            let held = &pending.held[i];
            let mut done = !held.belongs_to_block;
            if !done && self.stripped_blocks == 0 && (adopt_id.is_none() || started) {
                if !started {
                    started = true;
                    self.active_output_block = Some((pending.upstream_index, pending.upstream_index));
                    self.next_output_index = pending.upstream_index.wrapping_add(1);
                }
                done = true;
            }
            let mut written: Option<Vec<u8>> = None;
            if !done {
                if let Some((frame, sep)) = split_held(&held.bytes) {
                    let (event, data) = event_and_data(frame.as_slice());
                    if let Some(obj) = Json::parse(data.as_str()) {
                        let event_ref = as_ref_str(&event);
                        if started {
                            written = Some(
                                self.pass_indexed(pending.upstream_index, event_ref, obj, frame.as_slice(), sep.as_slice()),
                            );
                        } else {
                            started = true;
                            written = match adopt_id {
                                Some(key) => {
                                    let keyed = with_key(obj, "id", key);
                                    Some(self.render_block_start(pending.upstream_index, event_ref, keyed))
                                },
                                None => Some(
                                    self.pass_block_start(
                                        pending.upstream_index,
                                        event_ref,
                                        obj,
                                        frame.as_slice(),
                                        sep.as_slice(),
                                    ),
                                ),
                            };
                        }
                    }
                }
            }
            match written {
                Some(bytes) => {
                    out.extend_from_slice(bytes.as_slice());
                    assert(out@ =~= f.out + bytes@);
                },
                None => {
                    out.extend_from_slice(held.bytes.as_slice());
                    assert(out@ =~= f.out + held.bytes@);
                },
            }
            i = i + 1;
        }
        assert(all.take(i as int) =~= all);
        match &pending.kind {
            PendingKind::ServerTool(_, closed) => {
                if *closed {
                    self.active_output_block = None;
                }
            },
            _ => {},
        }
        out
    }

    fn flush_pending(&mut self) -> (out: Vec<u8>)
        ensures
            (final(self)@, out@) == flushed(old(self)@, None),
    {
        self.flush_pending_adopting(None)
    }

    fn decide_text(&mut self) -> (out: Vec<u8>)
        ensures
            (final(self)@, out@) == text_decided(old(self)@),
    {
        let undecided = match &self.pending {
            Some(p) => match &p.kind {
                PendingKind::Text(accum) => {
                    if starts_with(accum.as_str(), NOISE_PREFIX) {
                        false
                    } else {
                        let possible = accum.as_str().unicode_len() < NOISE_PREFIX.unicode_len() && starts_with(
                            NOISE_PREFIX,
                            accum.as_str(),
                        );
                        if !possible {
                            return self.flush_pending();
                        }
                        true
                    }
                },
                _ => true,
            },
            None => true,
        };
        if undecided {
            return Vec::new();
        }
        match self.pending.take() {
            Some(p) => {
                let (out, bytes) = leave_out(&p.held, self.stats.bytes);
                self.stats.bytes = bytes;
                self.swallowing = Some((p.upstream_index, SwallowKind::Noise));
                out
            },
            None => Vec::new(),
        }
    }

    fn start_new_block(&mut self, index: u64, event: Option<&str>, obj: Json, frame: &[u8], sep: &[u8]) -> (out: Result<
        Vec<u8>,
        String,
    >)
        ensures
            (final(self)@, outcome(out)) == block_started(old(self)@, index, opt_text(event), obj@, frame@, sep@),
    {
        if block_is(&obj, "type", "text") {
            let accum = match block_str(&obj, "text") {
                Some(t) => t.to_owned(),
                None => "".to_owned(),
            };
            self.pending = Some(
                Pending { upstream_index: index, kind: PendingKind::Text(accum), held: Vec::new(), held_bytes: 0 },
            );
            assert(held_view(Seq::<HeldFrame>::empty()) =~= Seq::empty());
            if !self.hold_frame(frame, sep, true) {
                return Err("Kimi noise strip pending buffer exceeds the bound".to_owned());
            }
            Ok(self.decide_text())
        } else if block_is(&obj, "type", "server_tool_use") && block_is(&obj, "name", "web_search") {
            let id = block_key(&obj, "id");
            self.pending = Some(
                Pending {
                    upstream_index: index,
                    kind: PendingKind::ServerTool(id, false),
                    held: Vec::new(),
                    held_bytes: 0,
                },
            );
            assert(held_view(Seq::<HeldFrame>::empty()) =~= Seq::empty());
            if !self.hold_frame(frame, sep, true) {
                return Err("Kimi noise strip pending buffer exceeds the bound".to_owned());
            }
            Ok(Vec::new())
        } else {
            Ok(self.pass_block_start(index, event, obj, frame, sep))
        }
    }

    /// Releases what waits and starts the next block behind it.
    fn release_and_start(&mut self, adopt: Option<&str>, index: u64, event: Option<&str>, obj: Json, frame: &[u8], sep: &[u8]) -> (out:
        Result<Vec<u8>, String>)
        ensures
            ({
                let released = flushed(old(self)@, opt_text(adopt));
                (final(self)@, outcome(out)) == after(
                    released.1,
                    block_started(released.0, index, opt_text(event), obj@, frame@, sep@),
                )
            }),
    {
        let mut out = self.flush_pending_adopting(adopt);
        let ghost before = out@;
        match self.start_new_block(index, event, obj, frame, sep) {
            Ok(more) => {
                out.extend_from_slice(more.as_slice());
                assert(out@ =~= before + more@);
                Ok(out)
            },
            Err(e) => Err(e),
        }
    }

    fn handle_block_start(&mut self, event: Option<&str>, obj: Json, frame: &[u8], sep: &[u8]) -> (out: Result<Vec<u8>, String>)
        ensures
            (final(self)@, outcome(out)) == on_block_start(old(self)@, opt_text(event), obj@, frame@, sep@),
    {
        let index = match block_index(&obj) {
            Some(index) => index,
            None => {
                return Err("Kimi noise strip content block index is invalid".to_owned());
            },
        };
        let closed_use = match &self.pending {
            Some(p) => match &p.kind {
                PendingKind::ServerTool(id, closed) => if *closed {
                    Some(id.clone())
                } else {
                    None
                },
                _ => None,
            },
            None => None,
        };
        let use_id = match closed_use {
            Some(id) => id,
            None => {
                if self.pending.is_some() || self.swallowing.is_some() {
                    return Err("Kimi noise strip saw overlapping content blocks".to_owned());
                }
                return self.start_new_block(index, event, obj, frame, sep);
            },
        };
        if !block_is(&obj, "type", "web_search_tool_result") {
            return self.release_and_start(None, index, event, obj, frame, sep);
        }
        let result_key = block_key(&obj, "tool_use_id");
        match (use_id, result_key) {
            (None, None) => {
                if content_is_empty(&obj) {
                    match self.pending.take() {
                        Some(p) => {
                            let (out, bytes) = leave_out(&p.held, self.stats.bytes);
                            self.stats.bytes = bytes;
                            self.count_swallowed_block(SwallowKind::Pair);
                            self.count_bytes(frame, sep);
                            self.swallowing = Some((index, SwallowKind::Pair));
                            Ok(out)
                        },
                        None => Ok(Vec::new()),
                    }
                } else {
                    self.stats.unkeyed_pairs = self.stats.unkeyed_pairs.saturating_add(1);
                    self.release_and_start(None, index, event, obj, frame, sep)
                }
            },
            (Some(use_key), None) => {
                let mut out = self.flush_pending();
                let ghost before = out@;
                let keyed = with_key(obj, "tool_use_id", use_key.as_str());
                let more = self.render_block_start(index, event, keyed);
                out.extend_from_slice(more.as_slice());
                assert(out@ =~= before + more@);
                self.stats.adopted_pairs = self.stats.adopted_pairs.saturating_add(1);
                Ok(out)
            },
            (None, Some(key)) => {
                match self.release_and_start(Some(key.as_str()), index, event, obj, frame, sep) {
                    Ok(out) => {
                        self.stats.adopted_pairs = self.stats.adopted_pairs.saturating_add(1);
                        Ok(out)
                    },
                    Err(e) => Err(e),
                }
            },
            (Some(use_key), Some(key)) => {
                if same(use_key.as_str(), key.as_str()) {
                    return self.release_and_start(None, index, event, obj, frame, sep);
                }
                match self.release_and_start(Some(key.as_str()), index, event, obj, frame, sep) {
                    Ok(out) => {
                        self.stats.adopted_pairs = self.stats.adopted_pairs.saturating_add(1);
                        Ok(out)
                    },
                    Err(e) => Err(e),
                }
            },
        }
    }
}

impl SearchNoiseFilter {
    fn emit_or_hold_interleaved(&mut self, frame: &[u8], sep: &[u8]) -> (out: Vec<u8>)
        ensures
            (final(self)@, out@) == on_other(old(self)@, frame@, sep@),
    {
        if self.pending.is_some() {
            if self.hold_frame(frame, sep, false) {
                return Vec::new();
            }
            let mut out = self.flush_pending();
            let ghost before = out@;
            let more = passthrough(frame, sep);
            out.extend_from_slice(more.as_slice());
            assert(out@ =~= before + (frame@ + sep@));
            return out;
        }
        passthrough(frame, sep)
    }

    fn handle_block_delta(&mut self, event: Option<&str>, obj: Json, frame: &[u8], sep: &[u8]) -> (out: Result<Vec<u8>, String>)
        ensures
            (final(self)@, outcome(out)) == on_block_delta(old(self)@, opt_text(event), obj@, frame@, sep@),
    {
        let index = match block_index(&obj) {
            Some(index) => index,
            None => {
                return Err("Kimi noise strip content block index is invalid".to_owned());
            },
        };
        if let Some((swallowed, _)) = self.swallowing {
            if swallowed == index {
                self.count_bytes(frame, sep);
                return Ok(Vec::new());
            }
        }
        match self.pending.take() {
            Some(p) => {
                let mut p = p;
                if p.upstream_index == index {
                    if let PendingKind::Text(accum) = p.kind {
                        let mut accum = accum;
                        let ghost was = accum@;
                        if let Some(delta) = obj.get("delta") {
                            if let Some(text) = delta.str_at("text") {
                                accum.append(text);
                            }
                        }
                        assert(accum@ =~= was + delta_text(obj@));
                        p.kind = PendingKind::Text(accum);
                    }
                    self.pending = Some(p);
                    if !self.hold_frame(frame, sep, true) {
                        return Err("Kimi noise strip pending buffer exceeds the bound".to_owned());
                    }
                    return Ok(self.decide_text());
                }
                self.pending = Some(p);
            },
            None => {},
        }
        Ok(self.pass_indexed(index, event, obj, frame, sep))
    }

    fn handle_block_stop(&mut self, event: Option<&str>, obj: Json, frame: &[u8], sep: &[u8]) -> (out: Result<Vec<u8>, String>)
        ensures
            (final(self)@, outcome(out)) == on_block_stop(old(self)@, opt_text(event), obj@, frame@, sep@),
    {
        let index = match block_index(&obj) {
            Some(index) => index,
            None => {
                return Err("Kimi noise strip content block index is invalid".to_owned());
            },
        };
        if let Some((swallowed, kind)) = self.swallowing {
            if swallowed == index {
                self.count_bytes(frame, sep);
                self.count_swallowed_block(kind);
                self.swallowing = None;
                return Ok(Vec::new());
            }
        }
        match self.pending.take() {
            Some(p) => {
                let mut p = p;
                if p.upstream_index == index {
                    match p.kind {
                        PendingKind::Text(accum) => {
                            p.kind = PendingKind::Text(accum);
                            self.pending = Some(p);
                            let mut out = self.flush_pending();
                            let ghost before = out@;
                            let more = self.pass_indexed(index, event, obj, frame, sep);
                            out.extend_from_slice(more.as_slice());
                            assert(out@ =~= before + more@);
                            self.active_output_block = None;
                            return Ok(out);
                        },
                        PendingKind::ServerTool(id, _) => {
                            p.kind = PendingKind::ServerTool(id, true);
                            self.pending = Some(p);
                            if !self.hold_frame(frame, sep, true) {
                                return Err("Kimi noise strip pending buffer exceeds the bound".to_owned());
                            }
                            return Ok(Vec::new());
                        },
                    }
                }
                self.pending = Some(p);
            },
            None => {},
        }
        let out = self.pass_indexed(index, event, obj, frame, sep);
        self.active_output_block = None;
        Ok(out)
    }

    fn handle_frame(&mut self, frame: &[u8], sep: &[u8]) -> (out: Result<Vec<u8>, String>)
        ensures
            (final(self)@, outcome(out)) == on_frame(old(self)@, frame@, sep@),
    {
        let (event, data) = event_and_data(frame);
        let event = as_ref_str(&event);
        let obj = match Json::parse(data.as_str()) {
            Some(obj) => obj,
            None => {
                return Ok(self.emit_or_hold_interleaved(frame, sep));
            },
        };
        if obj.has_text("type", "content_block_start") {
            self.handle_block_start(event, obj, frame, sep)
        } else if obj.has_text("type", "content_block_delta") {
            self.handle_block_delta(event, obj, frame, sep)
        } else if obj.has_text("type", "content_block_stop") {
            self.handle_block_stop(event, obj, frame, sep)
        } else if obj.has_text("type", "message_delta") || obj.has_text("type", "message_stop") {
            let mut out = self.flush_pending();
            let ghost before = out@;
            let more = passthrough(frame, sep);
            out.extend_from_slice(more.as_slice());
            assert(out@ =~= before + (frame@ + sep@));
            Ok(out)
        } else {
            Ok(self.emit_or_hold_interleaved(frame, sep))
        }
    }

    /// Takes more of the stream; the bytes that can go out now.
    pub fn feed(&mut self, chunk: &[u8]) -> (out: Result<Vec<u8>, String>)
        ensures
            (final(self)@, outcome(out)) == fed(old(self)@, chunk@),
    {
        let ghost was = self.buf@;
        self.buf.extend_from_slice(chunk);
        assert(self.buf@ =~= was + chunk@);
        let ghost start = self@;
        let mut out: Vec<u8> = Vec::new();
        assert(after(out@, drained(start)) == drained(start)) by {
            match drained(start).1 {
                Ok(rest) => {
                    assert(Seq::<u8>::empty() + rest =~= rest);
                },
                Err(_) => {},
            }
        }
        loop
            invariant
                after(out@, drained(self@)) == drained(start),
                start == (FilterV { buf: old(self)@.buf + chunk@, ..old(self)@ }),
            ensures
                drained(start) == (self@, Ok::<Seq<u8>, Seq<char>>(out@)),
            decreases self.buf@.len(),
        {
            let (frame, sep_len, rest) = match split_frame(self.buf.as_slice()) {
                Some(found) => found,
                None => {
                    assert(out@ + Seq::<u8>::empty() =~= out@);
                    break;
                },
            };
            let n: usize = self.buf.len();
            assert(frame@.len() + sep_len <= n);
            let sep = bytes_between(self.buf.as_slice(), frame.len(), frame.len() + sep_len);
            let ghost before = self@;
            let ghost at = frame@.len() as int;
            assert(frame_end(before.buf) == Some((at, sep_len as int)));
            proof {
                reveal_frame_end(before.buf);
            }
            match self.handle_frame(frame.as_slice(), sep.as_slice()) {
                Ok(more) => {
                    let ghost done = out@;
                    out.extend_from_slice(more.as_slice());
                    self.buf = rest;
                    proof {
                        assert(out@ =~= done + more@);
                        after_twice(done, more@, drained(self@));
                    }
                },
                Err(e) => {
                    return Err(e);
                },
            }
        }
        if self.buf.len() > MAX_FRAME_BYTES {
            return Err("Kimi noise strip frame exceeds the bounded buffer".to_owned());
        }
        Ok(out)
    }

    /// Ends the stream; the bytes that still waited.
    pub fn finalize(&mut self) -> (out: Result<Vec<u8>, String>)
        ensures
            (final(self)@, outcome(out)) == finished(old(self)@),
    {
        if !is_only_space(self.buf.as_slice()) {
            return Err("Kimi noise strip stream ended inside a frame".to_owned());
        }
        self.buf = Vec::new();
        Ok(self.flush_pending())
    }
}

proof fn reveal_frame_end(buf: Seq<u8>)
    ensures
        match frame_end(buf) {
            Some((at, sep)) => 0 <= at && (sep == 2 || sep == 4) && at + sep <= buf.len(),
            None => true,
        },
{
    crate::sse::next_place_is_inside(buf, crate::sse::blank_line(), 0);
    crate::sse::next_place_is_inside(buf, crate::sse::blank_crlf_line(), 0);
}

proof fn after_twice(a: Seq<u8>, b: Seq<u8>, step: (FilterV, Result<Seq<u8>, Seq<char>>))
    ensures
        after(a, after(b, step)) == after(a + b, step),
{
    match step.1 {
        Ok(out) => {
            assert(a + (b + out) =~= (a + b) + out);
        },
        Err(_) => {},
    }
}

pub fn is_only_space(bytes: &[u8]) -> (yes: bool)
    ensures
        yes == only_space(bytes@),
{
    let mut i: usize = 0;
    while i < bytes.len()
        invariant
            i <= bytes@.len(),
            forall|k: int| 0 <= k < i ==> ascii_space(#[trigger] bytes@[k]),
        decreases bytes@.len() - i,
    {
        let b = bytes[i];
        if !(b == 32 || b == 9 || b == 10 || b == 12 || b == 13) {
            assert(!ascii_space(bytes@[i as int]));
            return false;
        }
        i = i + 1;
    }
    true
}

/// Whether a block only repeats the query.
pub open spec fn is_noise(block: JsonV) -> bool {
    block.text_at("type"@) == Some("text"@) && match block.text_at("text"@) {
        Some(text) => NOISE_PREFIX@.is_prefix_of(text),
        None => false,
    }
}

pub open spec fn is_search_call(block: JsonV) -> bool {
    block.text_at("type"@) == Some("server_tool_use"@) && block.text_at("name"@) == Some("web_search"@)
}

pub open spec fn is_search_result(block: JsonV) -> bool {
    block.text_at("type"@) == Some("web_search_tool_result"@)
}

pub open spec fn has_empty_content(block: JsonV) -> bool {
    match block.get("content"@) {
        Some(JsonV::Array(items)) => items.len() == 0,
        _ => false,
    }
}

/// The two halves of a search: what stays of them, and the counts.
pub open spec fn pair_kept(call: JsonV, result: JsonV, stats: StripStats) -> (Seq<JsonV>, StripStats) {
    match (non_empty(call.text_at("id"@)), non_empty(result.text_at("tool_use_id"@))) {
        (None, None) => if has_empty_content(result) {
            (Seq::empty(), StripStats { pair_blocks: stats.pair_blocks.saturating_add(2), ..stats })
        } else {
            (seq![call, result], StripStats { unkeyed_pairs: stats.unkeyed_pairs.saturating_add(1), ..stats })
        },
        (Some(use_key), None) => (
            seq![call, result.with("tool_use_id"@, JsonV::Str(use_key))],
            StripStats { adopted_pairs: stats.adopted_pairs.saturating_add(1), ..stats },
        ),
        (use_id, Some(key)) => if use_id == Some(key) {
            (seq![call, result], stats)
        } else {
            (
                seq![call.with("id"@, JsonV::Str(key)), result],
                StripStats { adopted_pairs: stats.adopted_pairs.saturating_add(1), ..stats },
            )
        },
    }
}

/// The counts after a block that only repeats the query was left out.
pub open spec fn noise_counted(block: JsonV, stats: StripStats) -> StripStats {
    let size = match block.text_at("text"@) {
        Some(text) => encode_utf8(text).len() as usize,
        None => 0,
    };
    StripStats {
        noise_blocks: stats.noise_blocks.saturating_add(1),
        bytes: stats.bytes.saturating_add(size),
        ..stats
    }
}

/// The blocks that stay of a response, and the counts.
pub open spec fn blocks_kept(blocks: Seq<JsonV>, stats: StripStats) -> (Seq<JsonV>, StripStats)
    decreases blocks.len(),
{
    if blocks.len() == 0 {
        (Seq::empty(), stats)
    } else if is_noise(blocks[0]) {
        blocks_kept(blocks.drop_first(), noise_counted(blocks[0], stats))
    } else if is_search_call(blocks[0]) && blocks.len() > 1 && is_search_result(blocks[1]) {
        let (pair, stats1) = pair_kept(blocks[0], blocks[1], stats);
        let (rest, stats2) = blocks_kept(blocks.skip(2), stats1);
        (pair + rest, stats2)
    } else {
        let (rest, stats1) = blocks_kept(blocks.drop_first(), stats);
        (seq![blocks[0]] + rest, stats1)
    }
}

fn keep_pair(call: &Json, result: &Json, stats: StripStats) -> (out: (Vec<Json>, StripStats))
    ensures
        (list_view(out.0@), out.1) == pair_kept(call@, result@, stats),
{
    let use_id = match call.str_at("id") {
        Some(t) => if t.is_empty() {
            None
        } else {
            Some(t)
        },
        None => None,
    };
    let result_key = match result.str_at("tool_use_id") {
        Some(t) => if t.is_empty() {
            None
        } else {
            Some(t)
        },
        None => None,
    };
    let mut stats = stats;
    let mut first = call.copy();
    let mut second = result.copy();
    let mut kept: Vec<Json> = Vec::new();
    match (use_id, result_key) {
        (None, None) => {
            let empty = match result.array_at("content") {
                Some(items) => items.len() == 0,
                None => false,
            };
            if empty {
                stats.pair_blocks = stats.pair_blocks.saturating_add(2);
                return (kept, stats);
            }
            stats.unkeyed_pairs = stats.unkeyed_pairs.saturating_add(1);
        },
        (Some(use_key), None) => {
            second.set("tool_use_id", Json::text(use_key));
            stats.adopted_pairs = stats.adopted_pairs.saturating_add(1);
        },
        (None, Some(key)) => {
            first.set("id", Json::text(key));
            stats.adopted_pairs = stats.adopted_pairs.saturating_add(1);
        },
        (Some(use_key), Some(key)) => {
            if !same(use_key, key) {
                first.set("id", Json::text(key));
                stats.adopted_pairs = stats.adopted_pairs.saturating_add(1);
            }
        },
    }
    kept.push(first);
    kept.push(second);
    assert(list_view(kept@) =~= seq![first@, second@]);
    (kept, stats)
}

fn keep_blocks(blocks: &Vec<Json>) -> (out: (Vec<Json>, StripStats))
    ensures
        (list_view(out.0@), out.1) == blocks_kept(list_view(blocks@), no_stats()),
{
    let ghost all = list_view(blocks@);
    let ghost wanted = blocks_kept(all, no_stats());
    let mut kept: Vec<Json> = Vec::new();
    let mut stats = StripStats::default();
    let mut i: usize = 0;
    let n: usize = blocks.len();
    assert(all.skip(0) =~= all);
    assert(list_view(kept@) + wanted.0 =~= wanted.0);
    while i < n
        invariant
            i <= n,
            n == blocks@.len(),
            all == list_view(blocks@),
            wanted == (list_view(kept@) + blocks_kept(all.skip(i as int), stats).0, blocks_kept(all.skip(i as int), stats).1),
        decreases n - i,
    {
        let ghost done = list_view(kept@);
        let ghost tail = all.skip(i as int);
        assert(tail[0] == all[i as int]);
        assert(tail.drop_first() =~= all.skip(i + 1));
        let block = &blocks[i];
        let noise = block.has_text("type", "text") && match block.str_at("text") {
            Some(text) => starts_with(text, NOISE_PREFIX),
            None => false,
        };
        if noise {
            let size: usize = match block.str_at("text") {
                Some(text) => byte_len(text),
                None => 0,
            };
            stats.noise_blocks = stats.noise_blocks.saturating_add(1);
            stats.bytes = stats.bytes.saturating_add(size);
            i = i + 1;
            continue;
        }
        let paired = block.has_text("type", "server_tool_use") && block.has_text("name", "web_search") && i < n - 1
            && blocks[i + 1].has_text("type", "web_search_tool_result");
        if paired {
            assert(tail[1] == all[i + 1]);
            assert(tail.skip(2) =~= all.skip(i + 2));
            let (pair, counted) = keep_pair(block, &blocks[i + 1], stats);
            let ghost p = list_view(pair@);
            let ghost rest = blocks_kept(tail.skip(2), counted).0;
            stats = counted;
            let mut pair = pair;
            kept.append(&mut pair);
            assert(list_view(kept@) =~= done + p);
            assert(done + (p + rest) =~= (done + p) + rest);
            i = i + 2;
        } else {
            kept.push(block.copy());
            let ghost rest = blocks_kept(tail.drop_first(), stats).0;
            assert(done + (seq![tail[0]] + rest) =~= list_view(kept@) + rest);
            i = i + 1;
        }
    }
    assert(all.skip(i as int) =~= Seq::empty());
    assert(list_view(kept@) + Seq::<JsonV>::empty() =~= list_view(kept@));
    (kept, stats)
}

/// A response without what only repeats the search, and the counts.
pub open spec fn cleaned_response(response: JsonV) -> (JsonV, StripStats) {
    match response.items_at("content"@) {
        Some(blocks) => {
            let (kept, stats) = blocks_kept(blocks, no_stats());
            (response.with("content"@, JsonV::Array(kept)), stats)
        },
        None => (response, no_stats()),
    }
}

/// Cleans up a response that came in one piece, by the rules of the stream.
pub fn strip_nonstream_noise(response: &mut Json) -> (stats: StripStats)
    ensures
        (final(response)@, stats) == cleaned_response(old(response)@),
{
    let ghost before = response@;
    let mut stats = StripStats::default();
    if let Some(content) = response.get_mut("content") {
        if let Some(blocks) = content.as_array_mut() {
            let (kept, counted) = keep_blocks(blocks);
            *blocks = kept;
            stats = counted;
        } else {
            proof {
                with_same_value(before, "content"@);
            }
        }
    }
    stats
}

} // verus!
