//! What the counts of the clean-up of search turns say.
use crate::json::JsonV;
use crate::json_model::{group_json_views, json_parse, with_gives, with_same_value};
use crate::kimi_search_noise::{
    after_search_call, block_started, block_text_at, blocks_kept, bytes_left_out, cleaned_response, delta_text, drained, fed,
    finished, flush_held, flushed, held_frame, is_noise, is_search_call, is_search_result, new_filter, no_stats, noise_counted,
    on_block_delta, on_block_start, on_block_stop, on_frame, on_other, pair_kept, text_decided, FilterV, PendingKindV, PendingV,
    StripStats,
};
use crate::sse::{frame_end, frame_event};
use vstd::prelude::*;

verus! {

broadcast use group_json_views;

/// Whether no count fell.
pub open spec fn no_less(before: StripStats, now: StripStats) -> bool {
    &&& before.noise_blocks <= now.noise_blocks
    &&& before.pair_blocks <= now.pair_blocks
    &&& before.bytes <= now.bytes
    &&& before.adopted_pairs <= now.adopted_pairs
    &&& before.unkeyed_pairs <= now.unkeyed_pairs
}

proof fn flush_keeps_state(s: FilterV, upstream: u64, held: Seq<(Seq<u8>, bool)>, adopt: Option<Seq<char>>)
    ensures
        flush_held(s, upstream, held, adopt).s.stats == s.stats,
        flush_held(s, upstream, held, adopt).s.swallowing == s.swallowing,
        flush_held(s, upstream, held, adopt).s.stripped == s.stripped,
    decreases held.len(),
{
    if held.len() > 0 {
        flush_keeps_state(s, upstream, held.drop_last(), adopt);
    }
}

/// Releasing a block changes no count and no decision.
pub proof fn flushed_keeps_state(s: FilterV, adopt: Option<Seq<char>>)
    ensures
        flushed(s, adopt).0.stats == s.stats,
        flushed(s, adopt).0.swallowing == s.swallowing,
        flushed(s, adopt).0.stripped == s.stripped,
{
    if let Some(p) = s.pending {
        flush_keeps_state(FilterV { pending: None, ..s }, p.upstream_index, p.held, adopt);
    }
}

proof fn left_out_adds(bytes: usize, held: Seq<(Seq<u8>, bool)>)
    ensures
        bytes <= bytes_left_out(bytes, held),
    decreases held.len(),
{
    if held.len() > 0 {
        left_out_adds(bytes, held.drop_last());
    }
}

/// Whether a step let no count fall.
spec fn counts_on(s: FilterV, now: FilterV) -> bool {
    no_less(s.stats, now.stats)
}

proof fn decided_counts_on(s: FilterV)
    ensures
        counts_on(s, text_decided(s).0),
{
    flushed_keeps_state(s, None);
    if let Some(p) = s.pending {
        left_out_adds(s.stats.bytes, p.held);
    }
}

proof fn started_counts_on(s: FilterV, index: u64, event: Option<Seq<char>>, obj: JsonV, frame: Seq<u8>, sep: Seq<u8>)
    ensures
        counts_on(s, block_started(s, index, event, obj, frame, sep).0),
{
    let accum = match block_text_at(obj, "text"@) {
        Some(t) => t,
        None => ""@,
    };
    let fresh = PendingV { upstream_index: index, kind: PendingKindV::Text(accum), held: Seq::empty(), held_bytes: 0 };
    let (h, fits) = held_frame(FilterV { pending: Some(fresh), ..s }, frame, sep, true);
    decided_counts_on(h);
}

proof fn search_call_counts_on(
    s: FilterV,
    p: PendingV,
    use_id: Option<Seq<char>>,
    index: u64,
    event: Option<Seq<char>>,
    obj: JsonV,
    frame: Seq<u8>,
    sep: Seq<u8>,
)
    ensures
        counts_on(s, after_search_call(s, p, use_id, index, event, obj, frame, sep).0),
{
    flushed_keeps_state(s, None);
    started_counts_on(flushed(s, None).0, index, event, obj, frame, sep);
    let s1 = FilterV {
        stats: StripStats { unkeyed_pairs: s.stats.unkeyed_pairs.saturating_add(1), ..s.stats },
        ..s
    };
    flushed_keeps_state(s1, None);
    started_counts_on(flushed(s1, None).0, index, event, obj, frame, sep);
    let key = crate::kimi_search_noise::non_empty(block_text_at(obj, "tool_use_id"@));
    flushed_keeps_state(s, key);
    started_counts_on(flushed(s, key).0, index, event, obj, frame, sep);
    left_out_adds(s.stats.bytes, p.held);
}

proof fn frames_count_on(s: FilterV, frame: Seq<u8>, sep: Seq<u8>)
    ensures
        counts_on(s, on_frame(s, frame, sep).0),
{
    let (event, data) = frame_event(frame);
    flushed_keeps_state(s, None);
    flushed_keeps_state(held_frame(s, frame, sep, false).0, None);
    assert(counts_on(s, on_other(s, frame, sep).0));
    if let Some(obj) = json_parse(data) {
        if let Some(index) = obj.unsigned_at("index"@) {
            started_counts_on(s, index, event, obj, frame, sep);
            if let Some(p) = s.pending {
                if let PendingKindV::ServerTool(use_id, true) = p.kind {
                    search_call_counts_on(s, p, use_id, index, event, obj, frame, sep);
                }
                let p1 = match p.kind {
                    PendingKindV::Text(accum) => PendingV { kind: PendingKindV::Text(accum + delta_text(obj)), ..p },
                    _ => p,
                };
                decided_counts_on(held_frame(FilterV { pending: Some(p1), ..s }, frame, sep, true).0);
            }
        }
        assert(counts_on(s, on_block_start(s, event, obj, frame, sep).0));
        assert(counts_on(s, on_block_delta(s, event, obj, frame, sep).0));
        assert(counts_on(s, on_block_stop(s, event, obj, frame, sep).0));
    }
}

proof fn drained_counts_on(s: FilterV)
    ensures
        counts_on(s, drained(s).0),
    decreases s.buf.len(),
{
    if let Some((at, sep)) = frame_end(s.buf) {
        if at >= 0 && sep > 0 && at + sep <= s.buf.len() {
            let frame = s.buf.take(at);
            let mark = s.buf.subrange(at, at + sep);
            frames_count_on(s, frame, mark);
            drained_counts_on(FilterV { buf: s.buf.skip(at + sep), ..on_frame(s, frame, mark).0 });
        }
    }
}

/// The counts start at nothing, and none of them ever falls, whatever the stream holds and whether or not
/// a step fails.
pub proof fn counts_never_fall(s: FilterV, chunk: Seq<u8>)
    ensures
        new_filter().stats == no_stats(),
        no_less(s.stats, fed(s, chunk).0.stats),
        no_less(s.stats, finished(s).0.stats),
{
    drained_counts_on(FilterV { buf: s.buf + chunk, ..s });
    flushed_keeps_state(FilterV { buf: Seq::empty(), ..s }, None);
}

proof fn kept_blocks_are_counted(blocks: Seq<JsonV>, stats: StripStats)
    ensures
        ({
            let (kept, now) = blocks_kept(blocks, stats);
            &&& kept.len() <= blocks.len()
            &&& now.total_blocks_spec() == 0 <==> stats.total_blocks_spec() == 0 && kept.len() == blocks.len()
            &&& now.adopted_pairs == 0 ==> stats.adopted_pairs == 0
            &&& kept.len() == blocks.len() && stats.adopted_pairs == 0 ==> (now.adopted_pairs == 0 <==> kept == blocks)
        }),
    decreases blocks.len(),
{
    if blocks.len() > 0 {
        if is_noise(blocks[0]) {
            kept_blocks_are_counted(blocks.drop_first(), noise_counted(blocks[0], stats));
        } else if is_search_call(blocks[0]) && blocks.len() > 1 && is_search_result(blocks[1]) {
            let (pair, stats1) = pair_kept(blocks[0], blocks[1], stats);
            let (rest, now) = blocks_kept(blocks.skip(2), stats1);
            kept_blocks_are_counted(blocks.skip(2), stats1);
            pairs_are_counted(blocks[0], blocks[1], stats);
            if pair.len() == 2 {
                assert((pair + rest)[0] == pair[0]);
                assert((pair + rest)[1] == pair[1]);
                assert((pair + rest).skip(2) =~= rest);
                if pair + rest == blocks {
                    assert(pair =~= seq![blocks[0], blocks[1]]);
                    assert(rest == blocks.skip(2));
                }
                if pair == seq![blocks[0], blocks[1]] && rest == blocks.skip(2) {
                    assert(pair + rest =~= blocks);
                }
            }
        } else {
            let (rest, now) = blocks_kept(blocks.drop_first(), stats);
            kept_blocks_are_counted(blocks.drop_first(), stats);
            assert((seq![blocks[0]] + rest).drop_first() =~= rest);
            if rest == blocks.drop_first() {
                assert(seq![blocks[0]] + rest =~= blocks);
            }
        }
    } else {
        assert(blocks =~= Seq::empty());
    }
}

proof fn pairs_are_counted(call: JsonV, result: JsonV, stats: StripStats)
    requires
        is_search_call(call),
        is_search_result(result),
    ensures
        ({
            let (pair, now) = pair_kept(call, result, stats);
            &&& pair.len() == 0 || pair.len() == 2
            &&& pair.len() == 0 ==> now.total_blocks_spec() > 0
            &&& pair.len() == 2 ==> now.total_blocks_spec() == stats.total_blocks_spec()
            &&& now.adopted_pairs == 0 ==> stats.adopted_pairs == 0
            &&& pair.len() == 2 && stats.adopted_pairs == 0 ==> (now.adopted_pairs == 0 <==> pair == seq![call, result])
            &&& pair.len() == 0 ==> now.adopted_pairs == stats.adopted_pairs
        }),
{
    let (pair, now) = pair_kept(call, result, stats);
    match (
        crate::kimi_search_noise::non_empty(call.text_at("id"@)),
        crate::kimi_search_noise::non_empty(result.text_at("tool_use_id"@)),
    ) {
        (Some(use_key), None) => {
            with_gives(result, "tool_use_id"@, JsonV::Str(use_key));
            assert(pair[1].text_at("tool_use_id"@) == Some(use_key));
        },
        (use_id, Some(key)) => {
            with_gives(call, "id"@, JsonV::Str(key));
            if use_id != Some(key) {
                assert(pair[0].text_at("id"@) == Some(key));
            }
        },
        _ => {},
    }
}

/// A response is reported as changed exactly where the clean-up changed it.
pub proof fn changes_are_reported(response: JsonV)
    ensures
        ({
            let (cleaned, stats) = cleaned_response(response);
            stats.total_blocks_spec() > 0 || stats.adopted_pairs > 0 <==> cleaned != response
        }),
{
    if let Some(blocks) = response.items_at("content"@) {
        let (kept, stats) = blocks_kept(blocks, no_stats());
        kept_blocks_are_counted(blocks, no_stats());
        with_gives(response, "content"@, JsonV::Array(kept));
        with_same_value(response, "content"@);
    }
}

} // verus!
