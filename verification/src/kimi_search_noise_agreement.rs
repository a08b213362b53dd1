//! A stream and a response that comes in one piece are cleaned up alike.
use crate::json::{JsonV, NumberV};
use crate::json_model::{group_json_views, json_parse, with_gives};
use crate::kimi_search_noise::{
    after_search_call, block_content_empty, block_started, block_text_at, blocks_kept, delta_text, drained, fed, finished,
    flush_held, flushed, has_empty_content, held_frame, held_parts, indexed_bytes, interleaved, is_noise, is_search_call,
    is_search_result, new_filter, no_stats, noise_counted, non_empty, on_block_delta, on_block_stop, on_frame, pair_kept,
    reindexed, start_bytes, text_decided, with_block_key, FilterV, PendingKindV, PendingV, StripStats, SwallowKind,
    NOISE_PREFIX,
};
use crate::kimi_search_noise_counts::flushed_keeps_state;
use crate::kimi_search_noise_laws::{flushed_ignores_buf, frame_end_stays, frames_ignore_buf, with_buf};
use crate::sse::{frame_end, frame_event, sse_bytes};
use vstd::prelude::*;

verus! {

broadcast use group_json_views;

/// The frames of one block: its start, what it is continued with, and its stop.
#[verifier::ext_equal]
pub struct BlockFramesV {
    pub index: u64,
    pub start: (Seq<u8>, Seq<u8>),
    pub deltas: Seq<(Seq<u8>, Seq<u8>)>,
    pub stop: (Seq<u8>, Seq<u8>),
}

/// What a frame says.
pub open spec fn said(frame: (Seq<u8>, Seq<u8>)) -> Option<JsonV> {
    json_parse(frame_event(frame.0).1)
}

/// Whether a frame is one frame of a kind, of the block of an index.
pub open spec fn speaks_of(frame: (Seq<u8>, Seq<u8>), kind: Seq<char>, index: u64) -> bool {
    &&& frame_end(frame.0 + frame.1) == Some((frame.0.len() as int, frame.1.len() as int))
    &&& said(frame) matches Some(obj) && obj.text_at("type"@) == Some(kind) && obj.unsigned_at("index"@) == Some(index)
}

/// Whether frames are those of one block.
pub open spec fn is_whole(block: BlockFramesV) -> bool {
    &&& speaks_of(block.start, "content_block_start"@, block.index)
    &&& forall|i: int| 0 <= i < block.deltas.len() ==> speaks_of(
        #[trigger] block.deltas[i],
        "content_block_delta"@,
        block.index,
    )
    &&& speaks_of(block.stop, "content_block_stop"@, block.index)
}

/// The text that a block starts with.
pub open spec fn first_text(obj: JsonV) -> Seq<char> {
    match block_text_at(obj, "text"@) {
        Some(text) => text,
        None => ""@,
    }
}

/// A block as a reader opens it at its start.
pub open spec fn opened(obj: JsonV) -> JsonV {
    match obj.get("content_block"@) {
        Some(shell) => if shell.text_at("type"@) == Some("text"@) {
            shell.with("text"@, JsonV::Str(first_text(obj)))
        } else {
            shell
        },
        None => JsonV::Null,
    }
}

/// A block as a reader goes on with it: text grows by what a delta adds; of any other block, what it
/// starts with is what counts here.
pub open spec fn gone_on(shape: JsonV, obj: JsonV) -> JsonV {
    if obj.text_at("type"@) == Some("content_block_delta"@) && shape.text_at("type"@) == Some("text"@) {
        match shape.text_at("text"@) {
            Some(text) => shape.with("text"@, JsonV::Str(text + delta_text(obj))),
            None => shape,
        }
    } else {
        shape
    }
}

/// A block that goes on with frames.
pub open spec fn grown(shape: JsonV, frames: Seq<(Seq<u8>, Seq<u8>)>) -> JsonV
    decreases frames.len(),
{
    if frames.len() == 0 {
        shape
    } else {
        gone_on(grown(shape, frames.drop_last()), said(frames.last()).unwrap())
    }
}

/// A block as a reader of the stream puts it together.
pub open spec fn assembled(block: BlockFramesV) -> JsonV {
    grown(opened(said(block.start).unwrap()), block.deltas)
}

/// A frame that goes out: one that came, or one that was written anew.
pub enum SentV {
    Came((Seq<u8>, Seq<u8>)),
    Wrote(Option<Seq<char>>, JsonV),
}

pub open spec fn sent_bytes(sent: SentV) -> Seq<u8> {
    match sent {
        SentV::Came(frame) => frame.0 + frame.1,
        SentV::Wrote(event, obj) => sse_bytes(event, obj),
    }
}

/// The value that a frame carries.
pub open spec fn carried(sent: SentV) -> Option<JsonV> {
    match sent {
        SentV::Came(frame) => said(frame),
        SentV::Wrote(_, obj) => Some(obj),
    }
}

/// The blocks that a reader has after a frame.
pub open spec fn read_on(blocks: Seq<JsonV>, sent: SentV) -> Seq<JsonV> {
    match carried(sent) {
        Some(obj) => if obj.text_at("type"@) == Some("content_block_start"@) {
            blocks.push(opened(obj))
        } else if blocks.len() > 0 {
            blocks.drop_last().push(gone_on(blocks.last(), obj))
        } else {
            blocks
        },
        None => blocks,
    }
}

pub open spec fn all_bytes(sent: Seq<SentV>) -> Seq<u8>
    decreases sent.len(),
{
    if sent.len() == 0 {
        Seq::empty()
    } else {
        all_bytes(sent.drop_last()) + sent_bytes(sent.last())
    }
}

pub open spec fn read_all(blocks: Seq<JsonV>, sent: Seq<SentV>) -> Seq<JsonV>
    decreases sent.len(),
{
    if sent.len() == 0 {
        blocks
    } else {
        read_on(read_all(blocks, sent.drop_last()), sent.last())
    }
}

/// Whether bytes are frames one after another, by which a reader gets from some blocks to others.
pub open spec fn reads(bytes: Seq<u8>, from: Seq<JsonV>, to: Seq<JsonV>) -> bool {
    exists|sent: Seq<SentV>| #[trigger] all_bytes(sent) == bytes && read_all(from, sent) == to
}

pub open spec fn all_assembled(blocks: Seq<BlockFramesV>) -> Seq<JsonV> {
    blocks.map_values(|block: BlockFramesV| assembled(block))
}

/// The frames of a block in order.
pub open spec fn block_frames(block: BlockFramesV) -> Seq<(Seq<u8>, Seq<u8>)> {
    (seq![block.start] + block.deltas).push(block.stop)
}

/// The frames of blocks, one after another.
pub open spec fn all_frames(blocks: Seq<BlockFramesV>) -> Seq<(Seq<u8>, Seq<u8>)>
    decreases blocks.len(),
{
    if blocks.len() == 0 {
        Seq::empty()
    } else {
        block_frames(blocks[0]) + all_frames(blocks.drop_first())
    }
}

/// The state after frames, and what goes out, unless one of them failed.
pub open spec fn after_frames(s: FilterV, frames: Seq<(Seq<u8>, Seq<u8>)>) -> (FilterV, Option<Seq<u8>>)
    decreases frames.len(),
{
    if frames.len() == 0 {
        (s, Some(Seq::empty()))
    } else {
        let (s1, out) = on_frame(s, frames[0].0, frames[0].1);
        match out {
            Ok(first) => {
                let (s2, rest) = after_frames(s1, frames.drop_first());
                (
                    s2,
                    match rest {
                        Some(bytes) => Some(first + bytes),
                        None => None,
                    },
                )
            },
            Err(_) => (s1, None),
        }
    }
}

/// The frames of a stream, and the bytes behind them.
pub open spec fn frames_of(bytes: Seq<u8>) -> Seq<(Seq<u8>, Seq<u8>)>
    decreases bytes.len(),
{
    match frame_end(bytes) {
        None => Seq::empty(),
        Some((at, sep)) => if at < 0 || sep <= 0 || at + sep > bytes.len() {
            Seq::empty()
        } else {
            seq![(bytes.take(at), bytes.subrange(at, at + sep))] + frames_of(bytes.skip(at + sep))
        },
    }
}

/// The counts of decisions: blocks left out as noise and as pairs, pairs given one id, pairs without any.
pub open spec fn decisions(stats: StripStats) -> (usize, usize, usize, usize) {
    (stats.noise_blocks, stats.pair_blocks, stats.adopted_pairs, stats.unkeyed_pairs)
}

proof fn kinds_differ()
    ensures
        "content_block_start"@ != "content_block_delta"@,
        "content_block_start"@ != "content_block_stop"@,
        "content_block_delta"@ != "content_block_stop"@,
        "text"@ != "server_tool_use"@,
        "text"@ != "web_search_tool_result"@,
        "server_tool_use"@ != "web_search_tool_result"@,
        "text"@ != "type"@,
        "index"@ != "type"@,
        "index"@ != "content_block"@,
        "index"@ != "delta"@,
        "content_block"@ != "type"@,
        "id"@ != "type"@,
        "tool_use_id"@ != "type"@,
{
    reveal_strlit("index");
    reveal_strlit("content_block");
    reveal_strlit("delta");
    reveal_strlit("id");
    reveal_strlit("tool_use_id");
    assert("index"@.len() == 5 && "content_block"@.len() == 13 && "delta"@.len() == 5 && "id"@.len() == 2);
    assert("tool_use_id"@.len() == 11);
    assert("index"@[0] == 'i' && "delta"@[0] == 'd');
    reveal_strlit("content_block_start");
    reveal_strlit("content_block_delta");
    reveal_strlit("content_block_stop");
    reveal_strlit("text");
    reveal_strlit("type");
    reveal_strlit("server_tool_use");
    reveal_strlit("web_search_tool_result");
    assert("content_block_start"@[14] == 's' && "content_block_delta"@[14] == 'd');
    assert("content_block_start"@.len() == 19 && "content_block_delta"@.len() == 19 && "content_block_stop"@.len() == 18);
    assert("text"@.len() == 4 && "type"@.len() == 4 && "server_tool_use"@.len() == 15);
    assert("web_search_tool_result"@.len() == 22);
    assert("text"@[1] == 'e' && "type"@[1] == 'y');
}

proof fn frames_in_two(s: FilterV, a: Seq<(Seq<u8>, Seq<u8>)>, b: Seq<(Seq<u8>, Seq<u8>)>)
    ensures
        after_frames(s, a + b).1 is Some ==> after_frames(s, a).1 is Some && after_frames(after_frames(s, a).0, b).1 is Some,
        after_frames(s, a + b).1 matches Some(out) ==> {
            &&& after_frames(s, a + b).0 == after_frames(after_frames(s, a).0, b).0
            &&& out == after_frames(s, a).1.unwrap() + after_frames(after_frames(s, a).0, b).1.unwrap()
        },
    decreases a.len(),
{
    if a.len() == 0 {
        assert(a + b =~= b);
        if let Some(out) = after_frames(s, b).1 {
            assert(Seq::<u8>::empty() + out =~= out);
        }
    } else {
        let (s1, r) = on_frame(s, a[0].0, a[0].1);
        assert((a + b)[0] == a[0]);
        assert((a + b).drop_first() =~= a.drop_first() + b);
        if let Ok(first) = r {
            frames_in_two(s1, a.drop_first(), b);
            if let Some(out) = after_frames(s, a + b).1 {
                let one = after_frames(s1, a.drop_first()).1.unwrap();
                let two = after_frames(after_frames(s1, a.drop_first()).0, b).1.unwrap();
                assert(first + (one + two) =~= (first + one) + two);
            }
        }
    }
}

proof fn bytes_of_two(a: Seq<SentV>, b: Seq<SentV>, from: Seq<JsonV>)
    ensures
        all_bytes(a + b) == all_bytes(a) + all_bytes(b),
        read_all(from, a + b) == read_all(read_all(from, a), b),
    decreases b.len(),
{
    if b.len() == 0 {
        assert(a + b =~= a);
        assert(all_bytes(a) + all_bytes(b) =~= all_bytes(a));
    } else {
        bytes_of_two(a, b.drop_last(), from);
        assert((a + b).drop_last() =~= a + b.drop_last());
        assert((a + b).last() == b.last());
        assert((all_bytes(a) + all_bytes(b.drop_last())) + sent_bytes(b.last()) =~= all_bytes(a) + all_bytes(b));
    }
}

proof fn reads_nothing(from: Seq<JsonV>)
    ensures
        reads(Seq::empty(), from, from),
{
    assert(all_bytes(Seq::empty()) == Seq::<u8>::empty());
}

proof fn reads_one(sent: SentV, from: Seq<JsonV>)
    ensures
        reads(sent_bytes(sent), from, read_on(from, sent)),
{
    let one = Seq::<SentV>::empty().push(sent);
    assert(one.drop_last() =~= Seq::<SentV>::empty());
    assert(all_bytes(one.drop_last()) == Seq::<u8>::empty());
    assert(read_all(from, one.drop_last()) == from);
    assert(all_bytes(one) =~= sent_bytes(sent));
    assert(read_all(from, one) == read_on(from, sent));
}

proof fn reads_in_two(a: Seq<u8>, b: Seq<u8>, from: Seq<JsonV>, mid: Seq<JsonV>, to: Seq<JsonV>)
    requires
        reads(a, from, mid),
        reads(b, mid, to),
    ensures
        reads(a + b, from, to),
{
    let x = choose|sent: Seq<SentV>| #[trigger] all_bytes(sent) == a && read_all(from, sent) == mid;
    let y = choose|sent: Seq<SentV>| #[trigger] all_bytes(sent) == b && read_all(mid, sent) == to;
    bytes_of_two(x, y, from);
    assert(all_bytes(x + y) == a + b);
}

/// An index makes no difference to a reader.
proof fn index_is_not_read(obj: JsonV, index: JsonV, shape: JsonV)
    requires
        obj is Object,
    ensures
        opened(obj.with("index"@, index)) == opened(obj),
        gone_on(shape, obj.with("index"@, index)) == gone_on(shape, obj),
        obj.with("index"@, index).text_at("type"@) == obj.text_at("type"@),
{
    kinds_differ();
    with_gives(obj, "index"@, index);
    let now = obj.with("index"@, index);
    assert(now.get("content_block"@) == obj.get("content_block"@));
    assert(now.get("delta"@) == obj.get("delta"@));
    assert(now.get("type"@) == obj.get("type"@));
}

/// A frame of a block is read the same under whatever index it goes out.
proof fn reindexed_reads(
    output: u64,
    upstream: u64,
    event: Option<Seq<char>>,
    obj: JsonV,
    frame: (Seq<u8>, Seq<u8>),
    from: Seq<JsonV>,
)
    requires
        said(frame) == Some(obj),
        obj is Object,
    ensures
        reads(reindexed(output, upstream, event, obj, frame.0, frame.1), from, read_on(from, SentV::Came(frame))),
{
    let index = JsonV::Number(NumberV::PosInt(output));
    if output == upstream {
        reads_one(SentV::Came(frame), from);
    } else {
        let wrote = SentV::Wrote(event, obj.with("index"@, index));
        reads_one(wrote, from);
        index_is_not_read(obj, index, if from.len() > 0 { from.last() } else { JsonV::Null });
        assert(read_on(from, wrote) == read_on(from, SentV::Came(frame)));
    }
}

/// A start that is written anew.
proof fn start_bytes_read(s: FilterV, upstream: u64, event: Option<Seq<char>>, obj: JsonV, from: Seq<JsonV>)
    requires
        obj is Object,
        obj.text_at("type"@) == Some("content_block_start"@),
    ensures
        reads(start_bytes(s, upstream, event, obj), from, from.push(opened(obj))),
{
    let index = JsonV::Number(NumberV::PosInt(s.next_output));
    if s.next_output != upstream {
        reads_one(SentV::Wrote(event, obj.with("index"@, index)), from);
        index_is_not_read(obj, index, JsonV::Null);
    } else {
        reads_one(SentV::Wrote(event, obj), from);
    }
}

/// The frames of a block that wait.
spec fn held_of(frames: Seq<(Seq<u8>, Seq<u8>)>) -> Seq<(Seq<u8>, bool)> {
    frames.map_values(|frame: (Seq<u8>, Seq<u8>)| (frame.0 + frame.1, true))
}

/// Whether frames are the first of one block: its start and what follows it.
spec fn are_of_block(frames: Seq<(Seq<u8>, Seq<u8>)>, index: u64) -> bool {
    &&& frames.len() > 0
    &&& speaks_of(frames[0], "content_block_start"@, index)
    &&& forall|i: int| 0 < i < frames.len() ==> {
        ||| speaks_of(#[trigger] frames[i], "content_block_delta"@, index)
        ||| speaks_of(frames[i], "content_block_stop"@, index)
    }
}

/// The start of a block as it goes out, with the id that it is given.
spec fn adopting(obj: JsonV, adopt: Option<Seq<char>>) -> JsonV {
    match adopt {
        Some(key) => with_block_key(obj, "id"@, key),
        None => obj,
    }
}

/// A block of waiting frames as it is read once they are released.
spec fn released(frames: Seq<(Seq<u8>, Seq<u8>)>, adopt: Option<Seq<char>>) -> JsonV {
    grown(opened(adopting(said(frames[0]).unwrap(), adopt)), frames.drop_first())
}

proof fn adopting_keeps_kind(obj: JsonV, adopt: Option<Seq<char>>)
    requires
        obj is Object,
    ensures
        adopting(obj, adopt) is Object,
        adopting(obj, adopt).text_at("type"@) == obj.text_at("type"@),
{
    kinds_differ();
    if let (Some(key), Some(block)) = (adopt, obj.get("content_block"@)) {
        with_gives(obj, "content_block"@, block.with("id"@, JsonV::Str(key)));
    }
}

proof fn held_frames_are_parted(frame: (Seq<u8>, Seq<u8>))
    requires
        frame_end(frame.0 + frame.1) == Some((frame.0.len() as int, frame.1.len() as int)),
    ensures
        held_parts(frame.0 + frame.1) == Some(frame),
{
    let bytes = frame.0 + frame.1;
    assert(bytes.take(frame.0.len() as int) =~= frame.0);
    assert(bytes.subrange(frame.0.len() as int, (frame.0.len() + frame.1.len()) as int) =~= frame.1);
}

proof fn read_follows(from: Seq<JsonV>, shape: JsonV, frame: (Seq<u8>, Seq<u8>))
    requires
        said(frame) matches Some(obj) && obj.text_at("type"@) != Some("content_block_start"@),
    ensures
        read_on(from.push(shape), SentV::Came(frame)) == from.push(gone_on(shape, said(frame).unwrap())),
{
    assert(from.push(shape).drop_last() =~= from);
}

proof fn flush_reads(
    s: FilterV,
    index: u64,
    frames: Seq<(Seq<u8>, Seq<u8>)>,
    adopt: Option<Seq<char>>,
    from: Seq<JsonV>,
)
    requires
        are_of_block(frames, index),
    ensures
        flush_held(s, index, held_of(frames), adopt).started,
        reads(flush_held(s, index, held_of(frames), adopt).out, from, from.push(released(frames, adopt))),
    decreases frames.len(),
{
    kinds_differ();
    let held = held_of(frames);
    let last = frames.last();
    assert(held.last() == (last.0 + last.1, true));
    assert(held.drop_last() =~= held_of(frames.drop_last()));
    let f = flush_held(s, index, held.drop_last(), adopt);
    let now = flush_held(s, index, held, adopt);
    let obj = said(last).unwrap();
    held_frames_are_parted(last);
    if frames.len() == 1 {
        let event = frame_event(last.0).0;
        assert(last == frames[0]);
        assert(f.out == Seq::<u8>::empty() && !f.started && f.s == s);
        assert(released(frames, adopt) == opened(adopting(obj, adopt)));
        adopting_keeps_kind(obj, adopt);
        if s.stripped == 0 && adopt is None {
            reads_one(SentV::Came(last), from);
            assert(now.out =~= sent_bytes(SentV::Came(last)));
        } else {
            match adopt {
                Some(key) => {
                    start_bytes_read(s, index, event, adopting(obj, adopt), from);
                    assert(now.out =~= start_bytes(s, index, event, adopting(obj, adopt)));
                },
                None => {
                    reindexed_reads(s.next_output, index, event, obj, last, from);
                    assert(now.out =~= reindexed(s.next_output, index, event, obj, last.0, last.1));
                },
            }
        }
    } else {
        let fewer = frames.drop_last();
        assert forall|i: int| 0 < i < fewer.len() implies speaks_of(#[trigger] fewer[i], "content_block_delta"@, index) || speaks_of(
            fewer[i],
            "content_block_stop"@,
            index,
        ) by {
            assert(fewer[i] == frames[i]);
        }
        assert(fewer[0] == frames[0]);
        flush_reads(s, index, fewer, adopt, from);
        assert(frames.drop_first().drop_last() =~= fewer.drop_first());
        assert(frames.drop_first().last() == last);
        let shape = released(fewer, adopt);
        assert(released(frames, adopt) == gone_on(shape, obj));
        assert(frames[frames.len() - 1] == last);
        read_follows(from, shape, last);
        let mid = from.push(shape);
        if f.s.stripped == 0 {
            reads_one(SentV::Came(last), mid);
            reads_in_two(f.out, last.0 + last.1, from, mid, from.push(gone_on(shape, obj)));
        } else {
            let event = frame_event(last.0).0;
            let shifted = index.saturating_sub(f.s.stripped as u64);
            let output = match f.s.active {
                Some((u, o)) => if u == index {
                    o
                } else {
                    shifted
                },
                None => shifted,
            };
            reindexed_reads(output, index, event, obj, last, mid);
            reads_in_two(
                f.out,
                reindexed(output, index, event, obj, last.0, last.1),
                from,
                mid,
                from.push(gone_on(shape, obj)),
            );
        }
    }
}

proof fn block_frames_leave_nothing_between(frames: Seq<(Seq<u8>, Seq<u8>)>)
    ensures
        interleaved(held_of(frames)) == Seq::<u8>::empty(),
    decreases frames.len(),
{
    if frames.len() > 0 {
        assert(held_of(frames).drop_last() =~= held_of(frames.drop_last()));
        assert(held_of(frames).last().1);
        block_frames_leave_nothing_between(frames.drop_last());
    }
}

proof fn flush_leaves_nothing(s: FilterV, upstream: u64, held: Seq<(Seq<u8>, bool)>, adopt: Option<Seq<char>>)
    ensures
        flush_held(s, upstream, held, adopt).s.pending == s.pending,
    decreases held.len(),
{
    if held.len() > 0 {
        flush_leaves_nothing(s, upstream, held.drop_last(), adopt);
    }
}

/// A release leaves nothing waiting.
proof fn flushed_is_free(s: FilterV, adopt: Option<Seq<char>>)
    ensures
        flushed(s, adopt).0.pending is None,
{
    if let Some(p) = s.pending {
        flush_leaves_nothing(FilterV { pending: None, ..s }, p.upstream_index, p.held, adopt);
    }
}

/// Whether frames of a block wait.
spec fn waits(s: FilterV, index: u64, frames: Seq<(Seq<u8>, Seq<u8>)>) -> bool {
    &&& s.swallowing is None
    &&& s.pending matches Some(p) && p.upstream_index == index && p.held == held_of(frames)
}

proof fn flushed_reads(
    s: FilterV,
    index: u64,
    frames: Seq<(Seq<u8>, Seq<u8>)>,
    adopt: Option<Seq<char>>,
    from: Seq<JsonV>,
)
    requires
        waits(s, index, frames),
        are_of_block(frames, index),
    ensures
        is_free(flushed(s, adopt).0),
        flushed(s, adopt).0.stats == s.stats,
        reads(flushed(s, adopt).1, from, from.push(released(frames, adopt))),
{
    flushed_keeps_state(s, adopt);
    flushed_is_free(s, adopt);
    flush_reads(FilterV { pending: None, ..s }, index, frames, adopt, from);
}

/// Whether no block waits or is being left out.
spec fn is_free(s: FilterV) -> bool {
    s.pending is None && s.swallowing is None
}

/// Whether a text may still turn out to only repeat the query.
spec fn is_open(text: Seq<char>) -> bool {
    text.len() < NOISE_PREFIX@.len() && text.is_prefix_of(NOISE_PREFIX@)
}

/// The states in which a block of text can be, by its frames so far: undecided, being left out, released.
spec fn text_state(
    s: FilterV,
    index: u64,
    frames: Seq<(Seq<u8>, Seq<u8>)>,
    stats: StripStats,
    from: Seq<JsonV>,
    out: Seq<u8>,
) -> bool {
    let shape = released(frames, None);
    let text = shape.text_at("text"@).unwrap();
    &&& are_of_block(frames, index)
    &&& decisions(s.stats) == decisions(stats)
    &&& shape.text_at("type"@) == Some("text"@)
    &&& shape.text_at("text"@) is Some
    &&& if NOISE_PREFIX@.is_prefix_of(text) {
        s.swallowing == Some((index, SwallowKind::Noise)) && s.pending is None && reads(out, from, from)
    } else if is_open(text) {
        waits(s, index, frames) && s.pending.unwrap().kind == PendingKindV::Text(text) && reads(out, from, from)
    } else {
        is_free(s) && reads(out, from, from.push(shape))
    }
}

proof fn text_goes_on(text: Seq<char>, more: Seq<char>)
    ensures
        NOISE_PREFIX@.is_prefix_of(text) ==> NOISE_PREFIX@.is_prefix_of(text + more),
        !NOISE_PREFIX@.is_prefix_of(text) && !is_open(text) ==> !NOISE_PREFIX@.is_prefix_of(text + more) && !is_open(text + more),
{
    let all = text + more;
    let n = NOISE_PREFIX@.len() as int;
    if NOISE_PREFIX@.is_prefix_of(text) {
        assert(all.subrange(0, n) =~= text.subrange(0, n));
    }
    if NOISE_PREFIX@.is_prefix_of(all) {
        if text.len() >= n {
            assert(all.subrange(0, n) =~= text.subrange(0, n));
        } else {
            assert(text =~= NOISE_PREFIX@.subrange(0, text.len() as int)) by {
                assert(forall|i: int| 0 <= i < text.len() ==> text[i] == all.subrange(0, n)[i]);
            }
        }
    }
    if is_open(all) {
        assert(text =~= NOISE_PREFIX@.subrange(0, text.len() as int)) by {
            assert(forall|i: int| 0 <= i < text.len() ==> text[i] == NOISE_PREFIX@.subrange(0, all.len() as int)[i]);
        }
    }
}

proof fn decided_text(
    s: FilterV,
    index: u64,
    frames: Seq<(Seq<u8>, Seq<u8>)>,
    stats: StripStats,
    from: Seq<JsonV>,
    out: Seq<u8>,
)
    requires
        are_of_block(frames, index),
        waits(s, index, frames),
        decisions(s.stats) == decisions(stats),
        released(frames, None).text_at("type"@) == Some("text"@),
        released(frames, None).text_at("text"@) matches Some(text) && s.pending.unwrap().kind == PendingKindV::Text(text),
        reads(out, from, from),
    ensures
        text_state(text_decided(s).0, index, frames, stats, from, out + text_decided(s).1),
{
    let shape = released(frames, None);
    let text = shape.text_at("text"@).unwrap();
    flushed_reads(s, index, frames, None, from);
    block_frames_leave_nothing_between(frames);
    reads_nothing(from);
    reads_in_two(out, Seq::empty(), from, from, from);
    reads_in_two(out, flushed(s, None).1, from, from, from.push(shape));
}

/// A text grows by what a delta adds.
proof fn texts_grow(shape: JsonV, obj: JsonV)
    requires
        shape.text_at("type"@) == Some("text"@),
        shape.text_at("text"@) is Some,
        obj.text_at("type"@) == Some("content_block_delta"@),
    ensures
        gone_on(shape, obj).text_at("type"@) == Some("text"@),
        gone_on(shape, obj).text_at("text"@) == Some(shape.text_at("text"@).unwrap() + delta_text(obj)),
{
    kinds_differ();
    with_gives(shape, "text"@, JsonV::Str(shape.text_at("text"@).unwrap() + delta_text(obj)));
}

proof fn frames_grow(frames: Seq<(Seq<u8>, Seq<u8>)>, index: u64, frame: (Seq<u8>, Seq<u8>), adopt: Option<Seq<char>>)
    requires
        are_of_block(frames, index),
        speaks_of(frame, "content_block_delta"@, index) || speaks_of(frame, "content_block_stop"@, index),
    ensures
        are_of_block(frames.push(frame), index),
        released(frames.push(frame), adopt) == gone_on(released(frames, adopt), said(frame).unwrap()),
        held_of(frames.push(frame)) == held_of(frames).push((frame.0 + frame.1, true)),
{
    let more = frames.push(frame);
    assert(more[0] == frames[0]);
    assert forall|i: int| 0 < i < more.len() implies speaks_of(#[trigger] more[i], "content_block_delta"@, index) || speaks_of(
        more[i],
        "content_block_stop"@,
        index,
    ) by {
        if i < frames.len() {
            assert(more[i] == frames[i]);
        }
    }
    assert(more.drop_first().drop_last() =~= frames.drop_first());
    assert(more.drop_first().last() == frame);
    assert(held_of(more) =~= held_of(frames).push((frame.0 + frame.1, true)));
}

/// One delta of a block of text.
proof fn text_delta(
    s: FilterV,
    index: u64,
    frames: Seq<(Seq<u8>, Seq<u8>)>,
    frame: (Seq<u8>, Seq<u8>),
    stats: StripStats,
    from: Seq<JsonV>,
    out: Seq<u8>,
)
    requires
        text_state(s, index, frames, stats, from, out),
        speaks_of(frame, "content_block_delta"@, index),
        on_frame(s, frame.0, frame.1).1 is Ok,
    ensures
        text_state(
            on_frame(s, frame.0, frame.1).0,
            index,
            frames.push(frame),
            stats,
            from,
            out + on_frame(s, frame.0, frame.1).1->Ok_0,
        ),
{
    kinds_differ();
    let obj = said(frame).unwrap();
    let event = frame_event(frame.0).0;
    let shape = released(frames, None);
    let text = shape.text_at("text"@).unwrap();
    let more = delta_text(obj);
    assert(on_frame(s, frame.0, frame.1) == on_block_delta(s, event, obj, frame.0, frame.1));
    frames_grow(frames, index, frame, None);
    texts_grow(shape, obj);
    text_goes_on(text, more);
    let now = frames.push(frame);
    reads_nothing(from);
    if NOISE_PREFIX@.is_prefix_of(text) {
        reads_in_two(out, Seq::empty(), from, from, from);
    } else if is_open(text) {
        let p = s.pending.unwrap();
        let p1 = PendingV { kind: PendingKindV::Text(text + more), ..p };
        let (h, fits) = held_frame(FilterV { pending: Some(p1), ..s }, frame.0, frame.1, true);
        decided_text(h, index, now, stats, from, out);
    } else {
        read_follows(from, shape, frame);
        indexed_reads(s, index, event, obj, frame, from.push(shape));
        reads_in_two(
            out,
            indexed_bytes(s, index, event, obj, frame.0, frame.1),
            from,
            from.push(shape),
            from.push(gone_on(shape, obj)),
        );
    }
}

proof fn indexed_reads(
    s: FilterV,
    index: u64,
    event: Option<Seq<char>>,
    obj: JsonV,
    frame: (Seq<u8>, Seq<u8>),
    from: Seq<JsonV>,
)
    requires
        said(frame) == Some(obj),
        obj is Object,
    ensures
        reads(indexed_bytes(s, index, event, obj, frame.0, frame.1), from, read_on(from, SentV::Came(frame))),
{
    let shifted = index.saturating_sub(s.stripped as u64);
    let output = match s.active {
        Some((u, o)) => if u == index {
            o
        } else {
            shifted
        },
        None => shifted,
    };
    reindexed_reads(output, index, event, obj, frame, from);
}

proof fn text_deltas(
    s: FilterV,
    index: u64,
    frames: Seq<(Seq<u8>, Seq<u8>)>,
    deltas: Seq<(Seq<u8>, Seq<u8>)>,
    stats: StripStats,
    from: Seq<JsonV>,
    out: Seq<u8>,
)
    requires
        text_state(s, index, frames, stats, from, out),
        are_deltas(deltas, index),
        after_frames(s, deltas).1 is Some,
    ensures
        text_state(after_frames(s, deltas).0, index, frames + deltas, stats, from, out + after_frames(s, deltas).1.unwrap()),
    decreases deltas.len(),
{
    if deltas.len() > 0 {
        let frame = deltas[0];
        let step = on_frame(s, frame.0, frame.1);
        let rest = deltas.drop_first();
        assert(speaks_of(frame, "content_block_delta"@, index));
        text_delta(s, index, frames, frame, stats, from, out);
        rest_are_deltas(deltas, index);
        text_deltas(step.0, index, frames.push(frame), rest, stats, from, out + step.1->Ok_0);
        assert(frames.push(frame) + rest =~= frames + deltas);
        let tail = after_frames(step.0, rest).1.unwrap();
        assert((out + step.1->Ok_0) + tail =~= out + (step.1->Ok_0 + tail));
    } else {
        assert(frames + deltas =~= frames);
        assert(out + Seq::<u8>::empty() =~= out);
    }
}

spec fn are_deltas(deltas: Seq<(Seq<u8>, Seq<u8>)>, index: u64) -> bool {
    forall|i: int| 0 <= i < deltas.len() ==> speaks_of(#[trigger] deltas[i], "content_block_delta"@, index)
}

proof fn rest_are_deltas(deltas: Seq<(Seq<u8>, Seq<u8>)>, index: u64)
    requires
        are_deltas(deltas, index),
        deltas.len() > 0,
    ensures
        are_deltas(deltas.drop_first(), index),
{
    let rest = deltas.drop_first();
    assert forall|i: int| 0 <= i < rest.len() implies speaks_of(#[trigger] rest[i], "content_block_delta"@, index) by {
        assert(speaks_of(deltas[i + 1], "content_block_delta"@, index));
    }
}

/// A block that does not grow is read as it starts.
proof fn other_blocks_do_not_grow(shape: JsonV, frames: Seq<(Seq<u8>, Seq<u8>)>)
    requires
        shape.text_at("type"@) != Some("text"@),
    ensures
        grown(shape, frames) == shape,
    decreases frames.len(),
{
    if frames.len() > 0 {
        other_blocks_do_not_grow(shape, frames.drop_last());
    }
}

/// Deltas of a block that goes out as it comes and that is not text.
proof fn plain_deltas(s: FilterV, index: u64, deltas: Seq<(Seq<u8>, Seq<u8>)>, from: Seq<JsonV>, shape: JsonV)
    requires
        is_free(s),
        are_deltas(deltas, index),
        shape.text_at("type"@) != Some("text"@),
    ensures
        after_frames(s, deltas).0 == s,
        after_frames(s, deltas).1 matches Some(out) && reads(out, from.push(shape), from.push(shape)),
    decreases deltas.len(),
{
    if deltas.len() > 0 {
        kinds_differ();
        let frame = deltas[0];
        let rest = deltas.drop_first();
        assert(speaks_of(frame, "content_block_delta"@, index));
        let obj = said(frame).unwrap();
        let event = frame_event(frame.0).0;
        assert(on_frame(s, frame.0, frame.1) == on_block_delta(s, event, obj, frame.0, frame.1));
        rest_are_deltas(deltas, index);
        plain_deltas(s, index, rest, from, shape);
        read_follows(from, shape, frame);
        indexed_reads(s, index, event, obj, frame, from.push(shape));
        reads_in_two(
            indexed_bytes(s, index, event, obj, frame.0, frame.1),
            after_frames(s, rest).1.unwrap(),
            from.push(shape),
            from.push(shape),
            from.push(shape),
        );
    } else {
        reads_nothing(from.push(shape));
    }
}

/// Deltas of a block that is being left out.
proof fn swallowed_deltas(s: FilterV, index: u64, kind: SwallowKind, deltas: Seq<(Seq<u8>, Seq<u8>)>)
    requires
        s.pending is None,
        s.swallowing == Some((index, kind)),
        are_deltas(deltas, index),
    ensures
        after_frames(s, deltas).1 == Some(Seq::<u8>::empty()),
        after_frames(s, deltas).0.pending is None,
        after_frames(s, deltas).0.swallowing == Some((index, kind)),
        decisions(after_frames(s, deltas).0.stats) == decisions(s.stats),
    decreases deltas.len(),
{
    if deltas.len() > 0 {
        kinds_differ();
        let frame = deltas[0];
        assert(speaks_of(frame, "content_block_delta"@, index));
        rest_are_deltas(deltas, index);
        swallowed_deltas(on_frame(s, frame.0, frame.1).0, index, kind, deltas.drop_first());
        assert(Seq::<u8>::empty() + Seq::<u8>::empty() =~= Seq::<u8>::empty());
    }
}

/// Whether a search call waits, in the state that it is in.
spec fn call_waits(s: FilterV, index: u64, frames: Seq<(Seq<u8>, Seq<u8>)>, id: Option<Seq<char>>, closed: bool) -> bool {
    &&& waits(s, index, frames)
    &&& are_of_block(frames, index)
    &&& s.pending.unwrap().kind == PendingKindV::ServerTool(id, closed)
}

/// Deltas of a search call.
proof fn call_deltas(
    s: FilterV,
    index: u64,
    frames: Seq<(Seq<u8>, Seq<u8>)>,
    id: Option<Seq<char>>,
    deltas: Seq<(Seq<u8>, Seq<u8>)>,
)
    requires
        call_waits(s, index, frames, id, false),
        are_deltas(deltas, index),
        after_frames(s, deltas).1 is Some,
    ensures
        call_waits(after_frames(s, deltas).0, index, frames + deltas, id, false),
        decisions(after_frames(s, deltas).0.stats) == decisions(s.stats),
        after_frames(s, deltas).1 == Some(Seq::<u8>::empty()),
    decreases deltas.len(),
{
    if deltas.len() > 0 {
        kinds_differ();
        let frame = deltas[0];
        let rest = deltas.drop_first();
        assert(speaks_of(frame, "content_block_delta"@, index));
        rest_are_deltas(deltas, index);
        frames_grow(frames, index, frame, None);
        let s1 = on_frame(s, frame.0, frame.1).0;
        assert(on_frame(s, frame.0, frame.1) == on_block_delta(
            s,
            frame_event(frame.0).0,
            said(frame).unwrap(),
            frame.0,
            frame.1,
        ));
        assert(call_waits(s1, index, frames.push(frame), id, false));
        call_deltas(s1, index, frames.push(frame), id, rest);
        assert(frames.push(frame) + rest =~= frames + deltas);
        assert(Seq::<u8>::empty() + Seq::<u8>::empty() =~= Seq::<u8>::empty());
    } else {
        assert(frames + deltas =~= frames);
    }
}

/// The frames of a block are its start, its deltas and its stop.
proof fn block_in_three(s: FilterV, block: BlockFramesV)
    requires
        after_frames(s, block_frames(block)).1 is Some,
    ensures
        ({
            let first = on_frame(s, block.start.0, block.start.1);
            let middle = after_frames(first.0, block.deltas);
            let last = on_frame(middle.0, block.stop.0, block.stop.1);
            &&& first.1 is Ok
            &&& middle.1 is Some
            &&& last.1 is Ok
            &&& after_frames(s, block_frames(block)) == (
                last.0,
                Some((first.1->Ok_0 + middle.1.unwrap()) + last.1->Ok_0),
            )
        }),
{
    let frames = block_frames(block);
    let first = on_frame(s, block.start.0, block.start.1);
    assert(frames[0] == block.start);
    let rest = frames.drop_first();
    assert(rest =~= block.deltas + seq![block.stop]);
    frames_in_two(first.0, block.deltas, seq![block.stop]);
    let middle = after_frames(first.0, block.deltas);
    let one = seq![block.stop];
    assert(one[0] == block.stop);
    let last = on_frame(middle.0, block.stop.0, block.stop.1);
    assert(after_frames(last.0, one.drop_first()) == (last.0, Some(Seq::<u8>::empty())));
    let a = first.1->Ok_0;
    let b = middle.1.unwrap();
    let c = last.1->Ok_0;
    assert(a + (b + (c + Seq::<u8>::empty())) =~= (a + b) + c);
}

/// What a block comes to that starts in a free state: the decisions about it, what is read of it, and
/// whether it waits as a search call.
spec fn block_came_to(s: FilterV, end: FilterV, block: BlockFramesV, out: Seq<u8>, from: Seq<JsonV>) -> bool {
    let shape = assembled(block);
    if is_noise(shape) {
        is_free(end) && decisions(end.stats) == decisions(noise_counted(shape, s.stats)) && reads(out, from, from)
    } else if is_search_call(shape) {
        &&& call_waits(end, block.index, block_frames(block), non_empty(shape.text_at("id"@)), true)
        &&& decisions(end.stats) == decisions(s.stats)
        &&& out == Seq::<u8>::empty()
        &&& shape == opened(said(block.start).unwrap())
    } else {
        is_free(end) && decisions(end.stats) == decisions(s.stats) && reads(out, from, from.push(shape))
    }
}

proof fn first_frame_is_of_block(block: BlockFramesV)
    requires
        is_whole(block),
    ensures
        are_of_block(seq![block.start], block.index),
        released(seq![block.start], None) == opened(said(block.start).unwrap()),
        held_of(seq![block.start]) == Seq::<(Seq<u8>, bool)>::empty().push((block.start.0 + block.start.1, true)),
        are_deltas(block.deltas, block.index),
        seq![block.start] + block.deltas == block_frames(block).drop_last(),
        released(seq![block.start] + block.deltas, None) == assembled(block),
{
    let one = seq![block.start];
    assert(one[0] == block.start);
    assert(one.drop_first() =~= Seq::empty());
    assert(held_of(one) =~= Seq::<(Seq<u8>, bool)>::empty().push((block.start.0 + block.start.1, true)));
    assert(block_frames(block).drop_last() =~= one + block.deltas);
    assert((one + block.deltas)[0] == block.start);
    assert((one + block.deltas).drop_first() =~= block.deltas);
}

proof fn text_block_from_free(s: FilterV, block: BlockFramesV, from: Seq<JsonV>)
    requires
        is_whole(block),
        is_free(s),
        block_text_at(said(block.start).unwrap(), "type"@) == Some("text"@),
        ({
            let first = block_started(
                s,
                block.index,
                frame_event(block.start.0).0,
                said(block.start).unwrap(),
                block.start.0,
                block.start.1,
            );
            &&& first.1 is Ok
            &&& after_frames(first.0, block.deltas).1 is Some
            &&& on_frame(after_frames(first.0, block.deltas).0, block.stop.0, block.stop.1).1 is Ok
        }),
    ensures
        ({
            let first = block_started(
                s,
                block.index,
                frame_event(block.start.0).0,
                said(block.start).unwrap(),
                block.start.0,
                block.start.1,
            );
            let middle = after_frames(first.0, block.deltas);
            let last = on_frame(middle.0, block.stop.0, block.stop.1);
            block_came_to(s, last.0, block, (first.1->Ok_0 + middle.1.unwrap()) + last.1->Ok_0, from)
        }),
{
    kinds_differ();
    let obj = said(block.start).unwrap();
    let event = frame_event(block.start.0).0;
    let index = block.index;
    let first = block_started(s, index, event, obj, block.start.0, block.start.1);
    let middle = after_frames(first.0, block.deltas);
    let m = middle.0;
    let last = on_frame(m, block.stop.0, block.stop.1);
    let shell = obj.get("content_block"@).unwrap();
    let accum = first_text(obj);
    first_frame_is_of_block(block);
    with_gives(shell, "text"@, JsonV::Str(accum));
    let fresh = PendingV { upstream_index: index, kind: PendingKindV::Text(accum), held: Seq::empty(), held_bytes: 0 };
    let (h, fits) = held_frame(FilterV { pending: Some(fresh), ..s }, block.start.0, block.start.1, true);
    reads_nothing(from);
    decided_text(h, index, seq![block.start], s.stats, from, Seq::empty());
    let out1 = first.1->Ok_0;
    assert(Seq::<u8>::empty() + text_decided(h).1 =~= out1);
    text_deltas(first.0, index, seq![block.start], block.deltas, s.stats, from, out1);
    let frames = seq![block.start] + block.deltas;
    let shape = assembled(block);
    let text = shape.text_at("text"@).unwrap();
    let out2 = out1 + middle.1.unwrap();
    let stop = block.stop;
    assert(speaks_of(stop, "content_block_stop"@, index));
    let ended = said(stop).unwrap();
    let told = frame_event(stop.0).0;
    assert(last == on_block_stop(m, told, ended, stop.0, stop.1));
    assert(gone_on(shape, ended) == shape);
    read_follows(from, shape, stop);
    if NOISE_PREFIX@.is_prefix_of(text) {
        reads_in_two(out2, Seq::empty(), from, from, from);
    } else if is_open(text) {
        flushed_reads(m, index, frames, None, from);
        let s1 = flushed(m, None).0;
        indexed_reads(s1, index, told, ended, stop, from.push(shape));
        let end = indexed_bytes(s1, index, told, ended, stop.0, stop.1);
        reads_in_two(flushed(m, None).1, end, from, from.push(shape), from.push(shape));
        reads_in_two(out2, flushed(m, None).1 + end, from, from, from.push(shape));
    } else {
        indexed_reads(m, index, told, ended, stop, from.push(shape));
        reads_in_two(
            out2,
            indexed_bytes(m, index, told, ended, stop.0, stop.1),
            from,
            from.push(shape),
            from.push(shape),
        );
    }
}

proof fn other_block_from_free(s: FilterV, block: BlockFramesV, from: Seq<JsonV>)
    requires
        is_whole(block),
        is_free(s),
        block_text_at(said(block.start).unwrap(), "type"@) != Some("text"@),
        ({
            let first = block_started(
                s,
                block.index,
                frame_event(block.start.0).0,
                said(block.start).unwrap(),
                block.start.0,
                block.start.1,
            );
            &&& first.1 is Ok
            &&& after_frames(first.0, block.deltas).1 is Some
            &&& on_frame(after_frames(first.0, block.deltas).0, block.stop.0, block.stop.1).1 is Ok
        }),
    ensures
        ({
            let first = block_started(
                s,
                block.index,
                frame_event(block.start.0).0,
                said(block.start).unwrap(),
                block.start.0,
                block.start.1,
            );
            let middle = after_frames(first.0, block.deltas);
            let last = on_frame(middle.0, block.stop.0, block.stop.1);
            block_came_to(s, last.0, block, (first.1->Ok_0 + middle.1.unwrap()) + last.1->Ok_0, from)
        }),
{
    kinds_differ();
    let obj = said(block.start).unwrap();
    let event = frame_event(block.start.0).0;
    let index = block.index;
    let first = block_started(s, index, event, obj, block.start.0, block.start.1);
    let middle = after_frames(first.0, block.deltas);
    let stop = block.stop;
    let last = on_frame(middle.0, stop.0, stop.1);
    first_frame_is_of_block(block);
    let shape = opened(obj);
    assert(shape.text_at("type"@) == block_text_at(obj, "type"@));
    other_blocks_do_not_grow(shape, block.deltas);
    assert(speaks_of(stop, "content_block_stop"@, index));
    let ended = said(stop).unwrap();
    let told = frame_event(stop.0).0;
    assert(last == on_block_stop(middle.0, told, ended, stop.0, stop.1));
    if block_text_at(obj, "type"@) == Some("server_tool_use"@) && block_text_at(obj, "name"@) == Some("web_search"@) {
        let id = non_empty(block_text_at(obj, "id"@));
        assert(call_waits(first.0, index, seq![block.start], id, false));
        call_deltas(first.0, index, seq![block.start], id, block.deltas);
        let frames = seq![block.start] + block.deltas;
        frames_grow(frames, index, stop, None);
        assert(frames.push(stop) =~= block_frames(block));
        assert(Seq::<u8>::empty() + Seq::<u8>::empty() =~= Seq::<u8>::empty());
    } else {
        plain_block(block, first.0, from, shape);
        reindexed_reads(s.next_output, index, event, obj, block.start, from);
        reads_in_two(
            first.1->Ok_0,
            middle.1.unwrap() + last.1->Ok_0,
            from,
            from.push(shape),
            from.push(shape),
        );
        let a = first.1->Ok_0;
        let b = middle.1.unwrap();
        let c = last.1->Ok_0;
        assert(a + (b + c) =~= (a + b) + c);
    }
}

/// The deltas and the stop of a block that goes out as it comes and that is not text.
proof fn plain_block(block: BlockFramesV, open: FilterV, from: Seq<JsonV>, shape: JsonV)
    requires
        is_whole(block),
        is_free(open),
        shape.text_at("type"@) != Some("text"@),
    ensures
        ({
            let middle = after_frames(open, block.deltas);
            let last = on_frame(middle.0, block.stop.0, block.stop.1);
            &&& middle.1 is Some
            &&& last.1 is Ok
            &&& is_free(last.0)
            &&& last.0.stats == open.stats
            &&& reads(middle.1.unwrap() + last.1->Ok_0, from.push(shape), from.push(shape))
        }),
{
    kinds_differ();
    first_frame_is_of_block(block);
    let index = block.index;
    let stop = block.stop;
    plain_deltas(open, index, block.deltas, from, shape);
    let middle = after_frames(open, block.deltas);
    assert(speaks_of(stop, "content_block_stop"@, index));
    let ended = said(stop).unwrap();
    let told = frame_event(stop.0).0;
    assert(on_frame(open, stop.0, stop.1) == on_block_stop(open, told, ended, stop.0, stop.1));
    read_follows(from, shape, stop);
    indexed_reads(open, index, told, ended, stop, from.push(shape));
    reads_in_two(
        middle.1.unwrap(),
        indexed_bytes(open, index, told, ended, stop.0, stop.1),
        from.push(shape),
        from.push(shape),
        from.push(shape),
    );
}

proof fn decisions_count_alike(blocks: Seq<JsonV>, a: StripStats, b: StripStats)
    requires
        decisions(a) == decisions(b),
    ensures
        decisions(blocks_kept(blocks, a).1) == decisions(blocks_kept(blocks, b).1),
        blocks_kept(blocks, a).0 == blocks_kept(blocks, b).0,
    decreases blocks.len(),
{
    if blocks.len() > 0 {
        if is_noise(blocks[0]) {
            decisions_count_alike(blocks.drop_first(), noise_counted(blocks[0], a), noise_counted(blocks[0], b));
        } else if is_search_call(blocks[0]) && blocks.len() > 1 && is_search_result(blocks[1]) {
            decisions_count_alike(
                blocks.skip(2),
                pair_kept(blocks[0], blocks[1], a).1,
                pair_kept(blocks[0], blocks[1], b).1,
            );
        } else {
            decisions_count_alike(blocks.drop_first(), a, b);
        }
    }
}

/// A waiting search call, and how it is read once it is released.
spec fn call_is_held(s: FilterV, call: JsonV, index: u64, frames: Seq<(Seq<u8>, Seq<u8>)>) -> bool {
    &&& call_waits(s, index, frames, non_empty(call.text_at("id"@)), true)
    &&& is_search_call(call)
    &&& call == opened(said(frames[0]).unwrap())
}

proof fn calls_are_released(s: FilterV, call: JsonV, index: u64, frames: Seq<(Seq<u8>, Seq<u8>)>)
    requires
        call_is_held(s, call, index, frames),
    ensures
        released(frames, None) == call,
        forall|key: Seq<char>| #[trigger] released(frames, Some(key)) == call.with("id"@, JsonV::Str(key)),
        !is_noise(call),
{
    kinds_differ();
    let obj = said(frames[0]).unwrap();
    let shell = obj.get("content_block"@).unwrap();
    assert(call == shell) by {
        if shell.text_at("type"@) == Some("text"@) {
            with_gives(shell, "text"@, JsonV::Str(first_text(obj)));
        }
    }
    other_blocks_do_not_grow(call, frames.drop_first());
    assert forall|key: Seq<char>| #[trigger] released(frames, Some(key)) == call.with("id"@, JsonV::Str(key)) by {
        let named = shell.with("id"@, JsonV::Str(key));
        with_gives(shell, "id"@, JsonV::Str(key));
        with_gives(obj, "content_block"@, named);
        assert(opened(with_block_key(obj, "id"@, key)) == named);
        other_blocks_do_not_grow(named, frames.drop_first());
    }
}

/// What the result of a waiting search call comes to.
#[verifier::rlimit(60)]
proof fn result_after_call(
    s: FilterV,
    call: JsonV,
    index: u64,
    frames: Seq<(Seq<u8>, Seq<u8>)>,
    block: BlockFramesV,
    from: Seq<JsonV>,
)
    requires
        is_whole(block),
        call_is_held(s, call, index, frames),
        is_search_result(assembled(block)),
        after_frames(s, block_frames(block)).1 is Some,
    ensures
        is_free(after_frames(s, block_frames(block)).0),
        decisions(after_frames(s, block_frames(block)).0.stats) == decisions(pair_kept(call, assembled(block), s.stats).1),
        reads(
            after_frames(s, block_frames(block)).1.unwrap(),
            from,
            from + pair_kept(call, assembled(block), s.stats).0,
        ),
{
    kinds_differ();
    block_in_three(s, block);
    calls_are_released(s, call, index, frames);
    result_is_its_shell(block);
    first_frame_is_of_block(block);
    let obj = said(block.start).unwrap();
    let event = frame_event(block.start.0).0;
    let p = s.pending.unwrap();
    let use_id = non_empty(call.text_at("id"@));
    let first = on_frame(s, block.start.0, block.start.1);
    let middle = after_frames(first.0, block.deltas);
    let last = on_frame(middle.0, block.stop.0, block.stop.1);
    let shell = assembled(block);
    let out = after_frames(s, block_frames(block)).1.unwrap();
    assert(first == after_search_call(s, p, use_id, block.index, event, obj, block.start.0, block.start.1));
    let key = non_empty(block_text_at(obj, "tool_use_id"@));
    flushed_reads(s, index, frames, None, from);
    if use_id is None && key is None && block_content_empty(obj) {
        block_frames_leave_nothing_between(frames);
        swallowed_deltas(first.0, block.index, SwallowKind::Pair, block.deltas);
        let stop = block.stop;
        assert(speaks_of(stop, "content_block_stop"@, block.index));
        assert(last == on_block_stop(middle.0, frame_event(stop.0).0, said(stop).unwrap(), stop.0, stop.1));
        assert(out =~= Seq::<u8>::empty());
        assert(from + Seq::<JsonV>::empty() =~= from);
        reads_nothing(from);
    } else {
        let shape = if key is None && use_id is Some {
            shell.with("tool_use_id"@, JsonV::Str(use_id.unwrap()))
        } else {
            shell
        };
        let named = if key is Some && use_id != key {
            call.with("id"@, JsonV::Str(key.unwrap()))
        } else {
            call
        };
        let call_out = if key is Some && use_id != key {
            flushed(s, key).1
        } else {
            flushed(s, None).1
        };
        flushed_reads(s, index, frames, key, from);
        assert(reads(call_out, from, from.push(named)));
        let start_out = result_start(s, call, index, frames, block, from.push(named));
        if key is None && use_id is Some {
            with_gives(shell, "tool_use_id"@, JsonV::Str(use_id.unwrap()));
        }
        assert(first.1->Ok_0 == call_out + start_out);
        plain_block(block, first.0, from.push(named), shape);
        reads_in_two(call_out, start_out, from, from.push(named), from.push(named).push(shape));
        let tail = middle.1.unwrap() + last.1->Ok_0;
        reads_in_two(call_out + start_out, tail, from, from.push(named).push(shape), from.push(named).push(shape));
        assert(out =~= (call_out + start_out) + tail);
        assert(pair_kept(call, shell, s.stats).0 == seq![named, shape]);
        assert(from.push(named).push(shape) =~= from + seq![named, shape]);
    }
}

proof fn result_is_its_shell(block: BlockFramesV)
    requires
        is_whole(block),
        is_search_result(assembled(block)),
    ensures
        ({
            let obj = said(block.start).unwrap();
            &&& obj.get("content_block"@) == Some(assembled(block))
            &&& opened(obj) == assembled(block)
            &&& block_text_at(obj, "type"@) == Some("web_search_tool_result"@)
            &&& block_content_empty(obj) == has_empty_content(assembled(block))
        }),
{
    kinds_differ();
    let obj = said(block.start).unwrap();
    let shape = opened(obj);
    if let Some(shell) = obj.get("content_block"@) {
        if shell.text_at("type"@) == Some("text"@) {
            with_gives(shell, "text"@, JsonV::Str(first_text(obj)));
            texts_stay_texts(shape, block.deltas);
        } else {
            other_blocks_do_not_grow(shape, block.deltas);
        }
    } else {
        other_blocks_do_not_grow(shape, block.deltas);
    }
}

proof fn texts_stay_texts(shape: JsonV, frames: Seq<(Seq<u8>, Seq<u8>)>)
    requires
        shape.text_at("type"@) == Some("text"@),
    ensures
        grown(shape, frames).text_at("type"@) == Some("text"@),
    decreases frames.len(),
{
    if frames.len() > 0 {
        texts_stay_texts(shape, frames.drop_last());
        let before = grown(shape, frames.drop_last());
        let obj = said(frames.last()).unwrap();
        kinds_differ();
        if let Some(text) = before.text_at("text"@) {
            with_gives(before, "text"@, JsonV::Str(text + delta_text(obj)));
        }
    }
}

/// The start of the result of a waiting search call, where the pair stays.
proof fn result_start(
    s: FilterV,
    call: JsonV,
    index: u64,
    frames: Seq<(Seq<u8>, Seq<u8>)>,
    block: BlockFramesV,
    from: Seq<JsonV>,
) -> (out: Seq<u8>)
    requires
        is_whole(block),
        call_is_held(s, call, index, frames),
        is_search_result(assembled(block)),
        on_frame(s, block.start.0, block.start.1).1 is Ok,
        ({
            let use_id = non_empty(call.text_at("id"@));
            let key = non_empty(block_text_at(said(block.start).unwrap(), "tool_use_id"@));
            !(use_id is None && key is None && block_content_empty(said(block.start).unwrap()))
        }),
    ensures
        ({
            let obj = said(block.start).unwrap();
            let use_id = non_empty(call.text_at("id"@));
            let key = non_empty(block_text_at(obj, "tool_use_id"@));
            let shell = assembled(block);
            let step = on_frame(s, block.start.0, block.start.1);
            let flush = if key is Some && use_id != key {
                flushed(s, key).1
            } else {
                flushed(s, None).1
            };
            let shape = if key is None && use_id is Some {
                shell.with("tool_use_id"@, JsonV::Str(use_id.unwrap()))
            } else {
                shell
            };
            &&& is_free(step.0)
            &&& decisions(step.0.stats) == decisions(pair_kept(call, shell, s.stats).1)
            &&& step.1->Ok_0 == flush + out
            &&& reads(out, from, from.push(shape))
        }),
{
    kinds_differ();
    result_is_its_shell(block);
    let obj = said(block.start).unwrap();
    let event = frame_event(block.start.0).0;
    let p = s.pending.unwrap();
    let use_id = non_empty(call.text_at("id"@));
    let key = non_empty(block_text_at(obj, "tool_use_id"@));
    let shell = assembled(block);
    let frame = block.start;
    assert(speaks_of(frame, "content_block_start"@, block.index));
    assert(on_frame(s, frame.0, frame.1) == after_search_call(s, p, use_id, block.index, event, obj, frame.0, frame.1));
    flushed_keeps_state(s, None);
    flushed_is_free(s, None);
    flushed_keeps_state(s, key);
    flushed_is_free(s, key);
    let freed = flushed(s, None).0;
    if use_id is None && key is None {
        let s1 = FilterV {
            stats: StripStats { unkeyed_pairs: s.stats.unkeyed_pairs.saturating_add(1), ..s.stats },
            ..s
        };
        flushed_keeps_state(s1, None);
        flushed_is_free(s1, None);
        stats_are_not_released(s, s1.stats);
        let counted = flushed(s1, None).0;
        reindexed_reads(counted.next_output, block.index, event, obj, frame, from);
        reindexed(counted.next_output, block.index, event, obj, frame.0, frame.1)
    } else if key is None {
        let told = with_block_key(obj, "tool_use_id"@, use_id.unwrap());
        let named = shell.with("tool_use_id"@, JsonV::Str(use_id.unwrap()));
        with_gives(shell, "tool_use_id"@, JsonV::Str(use_id.unwrap()));
        with_gives(obj, "content_block"@, named);
        start_bytes_read(freed, block.index, event, told, from);
        start_bytes(freed, block.index, event, told)
    } else if use_id == key {
        reindexed_reads(freed.next_output, block.index, event, obj, frame, from);
        reindexed(freed.next_output, block.index, event, obj, frame.0, frame.1)
    } else {
        let adopted = flushed(s, key).0;
        reindexed_reads(adopted.next_output, block.index, event, obj, frame, from);
        reindexed(adopted.next_output, block.index, event, obj, frame.0, frame.1)
    }
}

proof fn stats_are_not_flushed(s: FilterV, stats: StripStats, upstream: u64, held: Seq<(Seq<u8>, bool)>)
    ensures
        flush_held(FilterV { stats, ..s }, upstream, held, None).out == flush_held(s, upstream, held, None).out,
        flush_held(FilterV { stats, ..s }, upstream, held, None).started == flush_held(s, upstream, held, None).started,
        flush_held(FilterV { stats, ..s }, upstream, held, None).s == (FilterV {
            stats,
            ..flush_held(s, upstream, held, None).s
        }),
    decreases held.len(),
{
    if held.len() > 0 {
        stats_are_not_flushed(s, stats, upstream, held.drop_last());
    }
}

/// What a release gives does not depend on the counts.
proof fn stats_are_not_released(s: FilterV, stats: StripStats)
    ensures
        flushed(FilterV { stats, ..s }, None).1 == flushed(s, None).1,
{
    if let Some(p) = s.pending {
        stats_are_not_flushed(FilterV { pending: None, ..s }, stats, p.upstream_index, p.held);
    }
}

/// What goes out for a stream from a state on, with what waits at its end.
spec fn whole_out(s: FilterV, blocks: Seq<BlockFramesV>) -> Seq<u8> {
    let end = after_frames(s, all_frames(blocks));
    end.1.unwrap() + flushed(end.0, None).1
}

spec fn all_whole(blocks: Seq<BlockFramesV>) -> bool {
    forall|i: int| 0 <= i < blocks.len() ==> is_whole(#[trigger] blocks[i])
}

/// Whether a stream from a state on comes to what the clean-up makes of the blocks.
spec fn agrees(s: FilterV, blocks: Seq<BlockFramesV>, shapes: Seq<JsonV>, from: Seq<JsonV>) -> bool {
    &&& decisions(after_frames(s, all_frames(blocks)).0.stats) == decisions(blocks_kept(shapes, s.stats).1)
    &&& reads(whole_out(s, blocks), from, from + blocks_kept(shapes, s.stats).0)
}

proof fn rest_is_whole(blocks: Seq<BlockFramesV>)
    requires
        all_whole(blocks),
        blocks.len() > 0,
    ensures
        all_whole(blocks.drop_first()),
        is_whole(blocks[0]),
        all_assembled(blocks)[0] == assembled(blocks[0]),
        all_assembled(blocks).drop_first() == all_assembled(blocks.drop_first()),
{
    let rest = blocks.drop_first();
    assert forall|i: int| 0 <= i < rest.len() implies is_whole(#[trigger] rest[i]) by {
        assert(is_whole(blocks[i + 1]));
    }
    assert(all_assembled(blocks).drop_first() =~= all_assembled(rest));
}

proof fn free_streams_agree(s: FilterV, blocks: Seq<BlockFramesV>, from: Seq<JsonV>)
    requires
        is_free(s),
        all_whole(blocks),
        after_frames(s, all_frames(blocks)).1 is Some,
    ensures
        agrees(s, blocks, all_assembled(blocks), from),
    decreases blocks.len(), 0nat,
{
    if blocks.len() > 0 {
        rest_is_whole(blocks);
        let block = blocks[0];
        frames_in_two(s, block_frames(block), all_frames(blocks.drop_first()));
        block_in_three(s, block);
        kinds_differ();
        let first = on_frame(s, block.start.0, block.start.1);
        let middle = after_frames(first.0, block.deltas);
        let last = on_frame(middle.0, block.stop.0, block.stop.1);
        let out = (first.1->Ok_0 + middle.1.unwrap()) + last.1->Ok_0;
        assert(first == block_started(
            s,
            block.index,
            frame_event(block.start.0).0,
            said(block.start).unwrap(),
            block.start.0,
            block.start.1,
        ));
        if block_text_at(said(block.start).unwrap(), "type"@) == Some("text"@) {
            text_block_from_free(s, block, from);
        } else {
            other_block_from_free(s, block, from);
        }
        rest_of_stream_agrees(s, last.0, blocks, out, from);
        let tail = whole_out(last.0, blocks.drop_first());
        assert(whole_out(s, blocks) =~= out + tail);
    } else {
        assert(all_assembled(blocks) =~= Seq::empty());
        assert(from + Seq::<JsonV>::empty() =~= from);
        assert(whole_out(s, blocks) =~= Seq::<u8>::empty());
        reads_nothing(from);
    }
}

/// The stream behind a block that started in a free state.
proof fn rest_of_stream_agrees(s: FilterV, end: FilterV, blocks: Seq<BlockFramesV>, out: Seq<u8>, from: Seq<JsonV>)
    requires
        blocks.len() > 0,
        all_whole(blocks),
        block_came_to(s, end, blocks[0], out, from),
        after_frames(end, all_frames(blocks.drop_first())).1 is Some,
    ensures
        decisions(after_frames(end, all_frames(blocks.drop_first())).0.stats) == decisions(
            blocks_kept(all_assembled(blocks), s.stats).1,
        ),
        reads(
            out + whole_out(end, blocks.drop_first()),
            from,
            from + blocks_kept(all_assembled(blocks), s.stats).0,
        ),
    decreases blocks.len() - 1, 2nat,
{
    rest_is_whole(blocks);
    let block = blocks[0];
    let rest = blocks.drop_first();
    let shapes = all_assembled(blocks);
    let after = all_assembled(rest);
    let shape = assembled(block);
    let tail = whole_out(end, rest);
    if is_noise(shape) {
        free_streams_agree(end, rest, from);
        decisions_count_alike(after, end.stats, noise_counted(shape, s.stats));
        reads_in_two(out, tail, from, from, from + blocks_kept(shapes, s.stats).0);
    } else if is_search_call(shape) {
        let frames = block_frames(block);
        assert(frames[0] == block.start);
        waiting_streams_agree(end, shape, block.index, frames, rest, from);
        assert(seq![shape] + after =~= shapes);
        decisions_count_alike(shapes, end.stats, s.stats);
        assert(out + tail =~= tail);
    } else {
        free_streams_agree(end, rest, from.push(shape));
        decisions_count_alike(after, end.stats, s.stats);
        let kept = blocks_kept(after, s.stats).0;
        assert(blocks_kept(shapes, s.stats).0 == seq![shape] + kept);
        assert(from.push(shape) + kept =~= from + (seq![shape] + kept));
        reads_in_two(out, tail, from, from.push(shape), from.push(shape) + kept);
    }
}

/// The stream behind a search call that waits.
#[verifier::rlimit(40)]
proof fn waiting_streams_agree(
    s: FilterV,
    call: JsonV,
    index: u64,
    frames: Seq<(Seq<u8>, Seq<u8>)>,
    blocks: Seq<BlockFramesV>,
    from: Seq<JsonV>,
)
    requires
        call_is_held(s, call, index, frames),
        all_whole(blocks),
        after_frames(s, all_frames(blocks)).1 is Some,
    ensures
        agrees(s, blocks, seq![call] + all_assembled(blocks), from),
    decreases blocks.len(), 1nat,
{
    let after = all_assembled(blocks);
    let shapes = seq![call] + after;
    assert(shapes[0] == call);
    assert(shapes.drop_first() =~= after);
    calls_are_released(s, call, index, frames);
    flushed_reads(s, index, frames, None, from);
    if blocks.len() == 0 {
        assert(after =~= Seq::empty());
        assert(blocks_kept(after, s.stats) == (Seq::<JsonV>::empty(), s.stats));
        assert(blocks_kept(shapes, s.stats).1 == s.stats);
        assert(blocks_kept(shapes, s.stats).0 =~= seq![call]);
        assert(from + seq![call] =~= from.push(call));
        assert(whole_out(s, blocks) =~= flushed(s, None).1);
    } else {
        rest_is_whole(blocks);
        let block = blocks[0];
        let rest = blocks.drop_first();
        frames_in_two(s, block_frames(block), all_frames(rest));
        let end = after_frames(s, block_frames(block)).0;
        let out = after_frames(s, block_frames(block)).1.unwrap();
        let tail = whole_out(end, rest);
        assert(whole_out(s, blocks) =~= out + tail);
        assert(shapes[1] == assembled(block));
        if is_search_result(assembled(block)) {
            let (pair, counted) = pair_kept(call, assembled(block), s.stats);
            let (kept, total) = blocks_kept(all_assembled(rest), counted);
            assert(shapes.skip(2) =~= all_assembled(rest));
            result_after_call(s, call, index, frames, block, from);
            free_streams_agree(end, rest, from + pair);
            decisions_count_alike(all_assembled(rest), end.stats, counted);
            assert(blocks_kept(shapes, s.stats) == (pair + kept, total));
            assert((from + pair) + kept =~= from + (pair + kept));
            reads_in_two(out, tail, from, from + pair, (from + pair) + kept);
        } else {
            call_goes_first(s, call, index, frames, blocks, from);
            let kept = blocks_kept(after, s.stats).0;
            assert(blocks_kept(shapes, s.stats) == (seq![call] + kept, blocks_kept(after, s.stats).1));
            assert(from.push(call) + kept =~= from + (seq![call] + kept));
        }
    }
}

/// A search call that something else than a result follows.
proof fn call_goes_first(
    s: FilterV,
    call: JsonV,
    index: u64,
    frames: Seq<(Seq<u8>, Seq<u8>)>,
    blocks: Seq<BlockFramesV>,
    from: Seq<JsonV>,
)
    requires
        call_is_held(s, call, index, frames),
        blocks.len() > 0,
        all_whole(blocks),
        after_frames(s, all_frames(blocks)).1 is Some,
        !is_search_result(assembled(blocks[0])),
    ensures
        decisions(after_frames(s, all_frames(blocks)).0.stats) == decisions(
            blocks_kept(all_assembled(blocks), s.stats).1,
        ),
        reads(whole_out(s, blocks), from, from.push(call) + blocks_kept(all_assembled(blocks), s.stats).0),
    decreases blocks.len(), 0nat,
{
    rest_is_whole(blocks);
    let block = blocks[0];
    let rest = blocks.drop_first();
    frames_in_two(s, block_frames(block), all_frames(rest));
    block_in_three(s, block);
    calls_are_released(s, call, index, frames);
    flushed_reads(s, index, frames, None, from);
    let freed = flushed(s, None).0;
    let call_out = flushed(s, None).1;
    let obj = said(block.start).unwrap();
    let event = frame_event(block.start.0).0;
    let step = on_frame(s, block.start.0, block.start.1);
    let first = block_started(freed, block.index, event, obj, block.start.0, block.start.1);
    start_after_call(s, call, index, frames, block);
    let middle = after_frames(first.0, block.deltas);
    let last = on_frame(middle.0, block.stop.0, block.stop.1);
    let out = (first.1->Ok_0 + middle.1.unwrap()) + last.1->Ok_0;
    if block_text_at(obj, "type"@) == Some("text"@) {
        text_block_from_free(freed, block, from.push(call));
    } else {
        other_block_from_free(freed, block, from.push(call));
    }
    rest_of_stream_agrees(freed, last.0, blocks, out, from.push(call));
    let tail = whole_out(last.0, rest);
    let kept = blocks_kept(all_assembled(blocks), s.stats).0;
    reads_in_two(call_out, out + tail, from, from.push(call), from.push(call) + kept);
    assert(whole_out(s, blocks) =~= call_out + (out + tail));
}

/// A block that is no result starts behind a waiting call as it would behind nothing.
proof fn start_after_call(s: FilterV, call: JsonV, index: u64, frames: Seq<(Seq<u8>, Seq<u8>)>, block: BlockFramesV)
    requires
        call_is_held(s, call, index, frames),
        is_whole(block),
        !is_search_result(assembled(block)),
        on_frame(s, block.start.0, block.start.1).1 is Ok,
    ensures
        ({
            let freed = flushed(s, None);
            let obj = said(block.start).unwrap();
            let first = block_started(freed.0, block.index, frame_event(block.start.0).0, obj, block.start.0, block.start.1);
            &&& first.1 is Ok
            &&& on_frame(s, block.start.0, block.start.1).0 == first.0
            &&& on_frame(s, block.start.0, block.start.1).1->Ok_0 == freed.1 + first.1->Ok_0
        }),
{
    kinds_differ();
    let obj = said(block.start).unwrap();
    let shape = opened(obj);
    if block_text_at(obj, "type"@) == Some("web_search_tool_result"@) {
        other_blocks_do_not_grow(shape, block.deltas);
    }
}

proof fn drained_in_frames(s: FilterV)
    ensures
        drained(s).1 is Ok <==> after_frames(s, frames_of(s.buf)).1 is Some,
        drained(s).1 matches Ok(out) ==> after_frames(s, frames_of(s.buf)).1 == Some(out),
        drained(s).0 == with_buf(after_frames(s, frames_of(s.buf)).0, drained(s).0.buf),
    decreases s.buf.len(),
{
    frame_end_stays(s.buf, Seq::empty());
    if let Some((at, sep)) = frame_end(s.buf) {
        let frame = s.buf.take(at);
        let mark = s.buf.subrange(at, at + sep);
        let rest = s.buf.skip(at + sep);
        let frames = frames_of(s.buf);
        assert(frames[0] == (frame, mark));
        assert(frames.drop_first() =~= frames_of(rest));
        let s1 = on_frame(s, frame, mark).0;
        if on_frame(s, frame, mark).1 is Ok {
            drained_in_frames(FilterV { buf: rest, ..s1 });
            frames_keep_buf(s1, rest, frames_of(rest));
        }
    }
}

/// One frame and those behind it.
proof fn next_frame(s: FilterV, frames: Seq<(Seq<u8>, Seq<u8>)>, step: (FilterV, Result<Seq<u8>, Seq<char>>))
    requires
        frames.len() > 0,
        step == on_frame(s, frames[0].0, frames[0].1),
    ensures
        step.1 matches Ok(first) ==> {
            let (s2, rest) = after_frames(step.0, frames.drop_first());
            after_frames(s, frames) == (
                s2,
                match rest {
                    Some(bytes) => Some(first + bytes),
                    None => None,
                },
            )
        },
        step.1 is Err ==> after_frames(s, frames) == (step.0, None::<Seq<u8>>),
{
}

proof fn frames_keep_buf(s: FilterV, buf: Seq<u8>, frames: Seq<(Seq<u8>, Seq<u8>)>)
    ensures
        after_frames(with_buf(s, buf), frames).1 == after_frames(s, frames).1,
        after_frames(with_buf(s, buf), frames).0 == with_buf(after_frames(s, frames).0, buf),
    decreases frames.len(),
{
    if frames.len() > 0 {
        let step = on_frame(s, frames[0].0, frames[0].1);
        let same = on_frame(with_buf(s, buf), frames[0].0, frames[0].1);
        assert(same == (with_buf(step.0, buf), step.1)) by {
            frames_ignore_buf(s, buf, frames[0].0, frames[0].1);
        }
        next_frame(s, frames, step);
        next_frame(with_buf(s, buf), frames, same);
        if step.1 is Ok {
            frames_keep_buf(step.0, buf, frames.drop_first());
        }
    }
}

/// A stream and a response in one piece are cleaned up alike. A stream of whole blocks, fed and brought to
/// its end, leaves out as many blocks as noise and as pairs, gives one id to as many pairs and passes as
/// many pairs without any as the clean-up of the blocks that the stream spells out; and the frames that go
/// out, each of them one that came or one that carries a value written anew, spell out the blocks that the
/// clean-up keeps.
pub proof fn streams_and_responses_are_cleaned_alike(stream: Seq<u8>, blocks: Seq<BlockFramesV>)
    requires
        frames_of(stream) == all_frames(blocks),
        forall|i: int| 0 <= i < blocks.len() ==> is_whole(#[trigger] blocks[i]),
        fed(new_filter(), stream).1 is Ok,
        finished(fed(new_filter(), stream).0).1 is Ok,
    ensures
        ({
            let s = fed(new_filter(), stream).0;
            let out = fed(new_filter(), stream).1->Ok_0 + finished(s).1->Ok_0;
            let (kept, stats) = blocks_kept(all_assembled(blocks), no_stats());
            &&& decisions(finished(s).0.stats) == decisions(stats)
            &&& reads(out, Seq::empty(), kept)
        }),
{
    let s = FilterV { buf: new_filter().buf + stream, ..new_filter() };
    assert(s.buf =~= stream);
    drained_in_frames(s);
    free_streams_agree(s, blocks, Seq::empty());
    let end = after_frames(s, frames_of(s.buf)).0;
    let fed_to = drained(s).0;
    flushed_ignores_buf(end, Seq::empty(), None);
    flushed_keeps_state(FilterV { buf: Seq::empty(), ..fed_to }, None);
    let kept = blocks_kept(all_assembled(blocks), no_stats()).0;
    assert(Seq::<JsonV>::empty() + kept =~= kept);
}

} // verus!
