//! What holds of bodies, answers and references.
use crate::anthropic_compat::type_only;
use crate::control::{active_conversations, body_length_of, probe_answer_of, restart_of, ProbeOutcome};
use crate::json::JsonV;
use crate::json_model::{json_parse, json_parse_bytes, key_index_is, rendered, with_gives};
use crate::kimi_web_search_adapter::{message_frames, output_step, outputs, synthesis_fault, OutputV};
use crate::messages::{is_event_stream, place_of, safe_body, safe_json, safe_text};
use crate::official_passthrough::body_from;
use crate::sse::sse_bytes;
use crate::text::{
    decimal, has_part, is_blank, is_char, lossy_text, lowered, pieces, plain_number, stands_at, trimmed,
    unsigned_number,
};
use crate::text_laws::{decimal_texts_stand_for_their_numbers, nothing_is_replaced};
use crate::tool_schema::{follow, local_ref, pointer_step, unescaped};
use crate::traffic_laws::parted_comes_together;
use crate::wire::{first_value, parted};
use vstd::prelude::*;
use vstd::utf8::encode_utf8;

verus! {

proof fn written_numbers_are_read(n: nat, max: nat)
    requires
        n <= max,
    ensures
        unsigned_number(decimal(n), max) == Some(n),
{
    decimal_texts_stand_for_their_numbers(n);
    let s = decimal(n);
    assert(s.len() > 0);
    assert('0' <= s[0] && s[0] <= '9');
    assert(plain_number(s, max) == Some(n));
}

/// A body of a given length is the bytes that follow the head, as many as were announced; where fewer come, or more are
/// announced than may be, there is none.
pub proof fn announced_bodies_are_read_whole(bytes: Seq<u8>, at: int, headers: Seq<(Seq<char>, Seq<char>)>, n: nat)
    requires
        0 <= at <= bytes.len(),
        n <= usize::MAX,
        first_value(headers, "transfer-encoding"@) is None,
        first_value(headers, "content-length"@) == Some(decimal(n)),
    ensures
        n <= 67_108_864 && at + n <= bytes.len() ==> body_from(bytes, at, headers) == Ok::<(Seq<u8>, int), Seq<char>>(
            (bytes.subrange(at, at + n), at + n),
        ),
        n > 67_108_864 || at + n > bytes.len() ==> body_from(bytes, at, headers) is Err,
        n <= 67_108_864 ==> body_length_of(headers) == Ok::<usize, Seq<char>>(n as usize),
        n > 67_108_864 ==> body_length_of(headers) is Err,
{
    written_numbers_are_read(n, usize::MAX as nat);
}

/// An upstream's list of models is what it answered, where it answered well; otherwise the user is told which address
/// failed, and with what.
pub proof fn answers_are_told(url: Seq<char>, outcome: ProbeOutcome)
    ensures
        probe_answer_of(url, outcome) matches Ok(tree) ==> (outcome matches ProbeOutcome::Answered { status, text } && 200
            <= status < 300 && json_parse_bytes(encode_utf8(text@)) == Ok::<JsonV, Seq<char>>(tree)),
        probe_answer_of(url, outcome) matches Err(reason) ==> has_part(reason, url),
        outcome matches ProbeOutcome::Answered { status, text } ==> (status < 200 || status >= 300) ==> (probe_answer_of(
            url,
            outcome,
        ) matches Err(reason) && has_part(reason, decimal(status as nat))),
        outcome matches ProbeOutcome::Failed(detail) ==> (probe_answer_of(url, outcome) matches Err(reason)
            && detail@.is_suffix_of(reason)),
{
    if let Err(reason) = probe_answer_of(url, outcome) {
        match outcome {
            ProbeOutcome::Failed(detail) => {
                let at = "请求 "@.len() as int;
                assert(reason.subrange(at, at + url.len()) =~= url);
                assert(stands_at(reason, url, at));
                assert(reason.skip(reason.len() - detail@.len()) =~= detail@);
            },
            ProbeOutcome::Answered { status, text } => {
                assert(reason.subrange(0, url.len() as int) =~= url);
                assert(stands_at(reason, url, 0));
                if status < 200 || status >= 300 {
                    let at = url.len() as int + " → 上游 "@.len();
                    let number = decimal(status as nat);
                    assert(reason.subrange(at, at + number.len()) =~= number);
                    assert(stands_at(reason, number, at));
                }
            },
        }
    }
}

/// A change of mode restarts a daemon that runs; where that breaks off conversations, it has to be forced, and the user is
/// told how many there are.
pub proof fn conversations_are_not_broken_off_unasked(science: JsonV, forced: bool)
    ensures
        science.get("running"@) == Some(JsonV::Bool(true)) && (forced || active_conversations(science) == 0) ==> restart_of(
            science,
            forced,
        ) == Ok::<bool, Seq<char>>(true),
        science.get("running"@) == Some(JsonV::Bool(true)) && !forced && active_conversations(science) > 0 ==> (restart_of(
            science,
            forced,
        ) matches Err(reason) && has_part(reason, decimal(active_conversations(science) as nat))),
        science.get("running"@) is None ==> restart_of(science, forced) == Ok::<bool, Seq<char>>(false),
{
    if let Err(reason) = restart_of(science, forced) {
        let number = decimal(active_conversations(science) as nat);
        let at = "有 "@.len() as int;
        assert(reason.subrange(at, at + number.len()) =~= number);
        assert(stands_at(reason, number, at));
    }
}

/// Whether a block of an answer can go to the client.
pub open spec fn can_be_shown(block: JsonV) -> bool {
    let kind = block.text_at("type"@);
    ||| kind == Some("text"@) || kind == Some("thinking"@) || kind == Some("redacted_thinking"@)
    ||| kind == Some("tool_use"@) && block.text_at("name"@) != Some("web_search"@) && (block.text_at("name"@) matches Some(name)
        && name.len() > 0) && (block.text_at("id"@) matches Some(id) && id.len() > 0) && (block.get("input"@) matches Some(
        JsonV::Object(_),
    ))
}

proof fn shown_so_far(blocks: Seq<JsonV>)
    ensures
        outputs(blocks) matches Ok(s) ==> {
            &&& forall|i: int| 0 <= i < blocks.len() ==> can_be_shown(#[trigger] blocks[i])
            &&& s.tool_use <==> exists|i: int|
                0 <= i < blocks.len() && (#[trigger] blocks[i]).text_at("type"@) == Some("tool_use"@)
            &&& s.text ==> exists|i: int|
                0 <= i < blocks.len() && (#[trigger] blocks[i]).text_at("type"@) == Some("text"@) && (blocks[i].text_at("text"@)
                    matches Some(text) && !is_blank(text))
        },
    decreases blocks.len(),
{
    reveal_strlit("");
    reveal_strlit("text");
    reveal_strlit("tool_use");
    reveal_strlit("thinking");
    reveal_strlit("redacted_thinking");
    assert("text"@.len() == 4 && "tool_use"@.len() == 8 && "thinking"@.len() == 8 && "redacted_thinking"@.len() == 17);
    assert("tool_use"@[1] == 'o' && "thinking"@[1] == 'h');
    if blocks.len() > 0 {
        let before = blocks.drop_last();
        shown_so_far(before);
        if let Ok(s) = outputs(blocks) {
            let t = outputs(before)->Ok_0;
            let end = blocks.len() - 1;
            let last = blocks[end];
            assert(forall|i: int| 0 <= i < before.len() ==> #[trigger] before[i] == blocks[i]);
            assert(output_step(t, last) == Ok::<OutputV, Seq<char>>(s));
            assert forall|i: int| 0 <= i < blocks.len() implies can_be_shown(#[trigger] blocks[i]) by {
                if i < before.len() {
                    assert(can_be_shown(before[i]));
                }
            }
            if t.tool_use {
                let i = choose|i: int| 0 <= i < before.len() && (#[trigger] before[i]).text_at("type"@) == Some("tool_use"@);
                assert(blocks[i].text_at("type"@) == Some("tool_use"@));
            }
            if exists|i: int| 0 <= i < blocks.len() && (#[trigger] blocks[i]).text_at("type"@) == Some("tool_use"@) {
                let i = choose|i: int| 0 <= i < blocks.len() && (#[trigger] blocks[i]).text_at("type"@) == Some("tool_use"@);
                if i < before.len() {
                    assert(before[i].text_at("type"@) == Some("tool_use"@));
                }
            }
            if s.text {
                if t.text {
                    let i = choose|i: int|
                        0 <= i < before.len() && (#[trigger] before[i]).text_at("type"@) == Some("text"@) && (before[i].text_at(
                            "text"@,
                        ) matches Some(text) && !is_blank(text));
                    assert(blocks[i].text_at("type"@) == Some("text"@));
                } else {
                    assert(blocks[end].text_at("type"@) == Some("text"@));
                }
            }
        }
    }
}

/// An answer that is accepted says something or calls a tool of the client's, holds nothing that the client does not know,
/// and ends for the reason that its blocks give.
pub proof fn accepted_answers_can_be_shown(response: JsonV)
    ensures
        synthesis_fault(response) is None ==> (response.items_at("content"@) matches Some(blocks) && {
            &&& forall|i: int| 0 <= i < blocks.len() ==> can_be_shown(#[trigger] blocks[i])
            &&& exists|i: int|
                0 <= i < blocks.len() && ((#[trigger] blocks[i]).text_at("type"@) == Some("tool_use"@) || (blocks[i].text_at("text"@)
                    matches Some(text) && !is_blank(text)))
            &&& (exists|i: int| 0 <= i < blocks.len() && (#[trigger] blocks[i]).text_at("type"@) == Some("tool_use"@))
                ==> response.text_at("stop_reason"@) == Some("tool_use"@)
            &&& (forall|i: int| 0 <= i < blocks.len() ==> (#[trigger] blocks[i]).text_at("type"@) != Some("tool_use"@))
                ==> response.text_at("stop_reason"@) == Some("end_turn"@)
        }),
{
    if let Some(blocks) = response.items_at("content"@) {
        shown_so_far(blocks);
        if synthesis_fault(response) is None {
            let s = outputs(blocks)->Ok_0;
            if s.tool_use {
                let i = choose|i: int| 0 <= i < blocks.len() && (#[trigger] blocks[i]).text_at("type"@) == Some("tool_use"@);
                assert(blocks[i].text_at("type"@) == Some("tool_use"@));
            } else {
                let i = choose|i: int|
                    0 <= i < blocks.len() && (#[trigger] blocks[i]).text_at("type"@) == Some("text"@) && (blocks[i].text_at("text"@)
                        matches Some(text) && !is_blank(text));
                assert(blocks[i].text_at("text"@) is Some);
            }
        }
    }
}

/// The stream of a message starts with the message itself, still empty, and ends with the reason and the counts that the
/// message has.
pub proof fn streams_start_and_end_with_the_message(message: JsonV, key: Seq<char>)
    ensures
        message_frames(message) matches Ok(frames) ==> {
            &&& frames.len() >= 3
            &&& exists|tree: JsonV|
                #![trigger sse_bytes(Some("message_start"@), tree)]
                frames[0] == sse_bytes(Some("message_start"@), tree) && (tree.get("message"@) matches Some(start)
                    && start.items_at("content"@) == Some(Seq::<JsonV>::empty()) && start.get("stop_reason"@) == Some(JsonV::Null) && (
                key != "content"@ && key != "stop_reason"@ && key != "stop_sequence"@ && key != "usage"@ ==> start.get(key)
                    == message.get(key)))
            &&& exists|tree: JsonV|
                #![trigger sse_bytes(Some("message_delta"@), tree)]
                frames[frames.len() - 2] == sse_bytes(Some("message_delta"@), tree) && tree.get("usage"@) == message.get(
                    "usage"@,
                ) && (tree.get("delta"@) matches Some(delta) && delta.text_at("stop_reason"@) == message.text_at("stop_reason"@))
            &&& frames.last() == sse_bytes(Some("message_stop"@), type_only("message_stop"@))
        },
{
    reveal_strlit("type");
    reveal_strlit("message");
    reveal_strlit("delta");
    reveal_strlit("usage");
    reveal_strlit("content");
    reveal_strlit("stop_reason");
    reveal_strlit("stop_sequence");
    assert("type"@.len() == 4 && "message"@.len() == 7 && "delta"@.len() == 5 && "usage"@.len() == 5);
    assert("delta"@[0] == 'd' && "usage"@[0] == 'u' && "content"@.len() == 7 && "content"@[0] == 'c' && "message"@[0] == 'm');
    assert("stop_reason"@.len() == 11 && "stop_sequence"@.len() == 13);
    if let Ok(frames) = message_frames(message) {
        let usage = message.get("usage"@).unwrap();
        let started = if usage.get("output_tokens"@) is Some {
            usage.with("output_tokens"@, crate::kimi_coding_search::number(0))
        } else {
            usage
        };
        let a = message.with("content"@, JsonV::Array(Seq::empty()));
        let b = a.with("stop_reason"@, JsonV::Null);
        let c = b.with("stop_sequence"@, JsonV::Null);
        let start = c.with("usage"@, started);
        with_gives(message, "content"@, JsonV::Array(Seq::empty()));
        with_gives(a, "stop_reason"@, JsonV::Null);
        with_gives(b, "stop_sequence"@, JsonV::Null);
        with_gives(c, "usage"@, started);
        let first = type_only("message_start"@).and("message"@, start);
        let fields = first->Object_0;
        assert(fields.len() == 2 && fields[0].0 == "type"@ && fields[1].0 == "message"@);
        key_index_is(fields, "message"@, 1);
        assert(frames[0] == sse_bytes(Some("message_start"@), first));
        let sequence = match message.get("stop_sequence"@) {
            Some(v) => v,
            None => JsonV::Null,
        };
        let reason = message.text_at("stop_reason"@).unwrap();
        let delta = JsonV::object().and("stop_reason"@, JsonV::Str(reason)).and("stop_sequence"@, sequence);
        let own = delta->Object_0;
        assert(own.len() == 2 && own[0].0 == "stop_reason"@);
        key_index_is(own, "stop_reason"@, 0);
        let last = type_only("message_delta"@).and("delta"@, delta).and("usage"@, usage);
        let entries = last->Object_0;
        assert(entries.len() == 3 && entries[0].0 == "type"@ && entries[1].0 == "delta"@ && entries[2].0 == "usage"@);
        key_index_is(entries, "delta"@, 1);
        key_index_is(entries, "usage"@, 2);
        assert(frames[frames.len() - 2] == sse_bytes(Some("message_delta"@), last));
    }
}

/// The body of an error is told: JSON as JSON, anything else as text, both without credentials, and whole where it is not
/// too long.
pub proof fn error_bodies_are_told(bytes: Seq<u8>, api_key: Seq<char>)
    ensures
        bytes.len() <= 16_384 ==> (json_parse(lossy_text(bytes)) matches Some(tree) ==> safe_body(bytes, api_key) == rendered(
            safe_json(tree, api_key),
        )),
        bytes.len() <= 16_384 && json_parse(lossy_text(bytes)) is None ==> safe_body(bytes, api_key) == safe_text(
            lossy_text(bytes),
            api_key,
        ),
        bytes.len() > 16_384 ==> "…[truncated]"@.is_suffix_of(safe_body(bytes, api_key)),
{
    if bytes.len() > 16_384 {
        let told = safe_body(bytes, api_key);
        let mark = "…[truncated]"@;
        assert(told.skip(told.len() - mark.len()) =~= mark);
    }
}

/// A stream is known by its type alone: neither parameters behind it nor capital letters in it make a difference.
pub proof fn streams_are_known_by_their_type(kind: Seq<char>, parameters: Seq<char>)
    requires
        !kind.contains(';'),
    ensures
        is_event_stream(kind) <==> lowered(trimmed(kind)) == "text/event-stream"@,
        is_event_stream(kind + seq![';'] + parameters) == is_event_stream(kind),
{
    let target = kind + seq![';'] + parameters;
    parted_comes_together(kind, ';');
    parted_comes_together(target, ';');
    if let Some((x, y)) = parted(kind, ';') {
        assert(kind[x.len() as int] == ';');
    }
    at_the_end(kind, ';');
    assert(kind.take(place_of(kind, ';')) =~= kind);
    assert(target[kind.len() as int] == ';');
    let (a, b) = parted(target, ';').unwrap();
    if a.len() < kind.len() {
        assert(target[a.len() as int] == ';');
        assert(kind[a.len() as int] == ';');
    } else if a.len() > kind.len() {
        assert(a[kind.len() as int] == target[kind.len() as int]);
    }
    assert(a =~= kind);
    assert(target.take(place_of(target, ';')) =~= kind);
}

proof fn at_the_end(s: Seq<char>, c: char)
    requires
        !s.contains(c),
    ensures
        place_of(s, c) == s.len(),
    decreases s.len(),
{
    if s.len() > 0 {
        assert(s.contains(s[0]));
        let rest = s.drop_first();
        if rest.contains(c) {
            let i = choose|i: int| 0 <= i < rest.len() && rest[i] == c;
            assert(s[i + 1] == c);
        }
        at_the_end(rest, c);
    }
}

proof fn plain_names_stay(name: Seq<char>)
    requires
        !name.contains('~'),
    ensures
        unescaped(name) == name,
{
    reveal_strlit("~1");
    reveal_strlit("~0");
    if has_part(name, "~1"@) {
        let at = choose|at: int| #[trigger] stands_at(name, "~1"@, at);
        assert(name.subrange(at, at + 2)[0] == "~1"@[0]);
        assert(name[at] == '~');
    }
    nothing_is_replaced(name, "~1"@, "/"@);
    if has_part(name, "~0"@) {
        let at = choose|at: int| #[trigger] stands_at(name, "~0"@, at);
        assert(name.subrange(at, at + 2)[0] == "~0"@[0]);
        assert(name[at] == '~');
    }
    nothing_is_replaced(name, "~0"@, "~"@);
}

proof fn one_piece(s: Seq<char>, more: Seq<char>)
    requires
        !more.contains('/'),
    ensures
        pieces(s, is_char('/')).len() > 0,
        pieces(s + more, is_char('/')) == pieces(s, is_char('/')).drop_last().push(pieces(s, is_char('/')).last() + more),
    decreases more.len(),
{
    crate::text::pieces_not_empty(s, is_char('/'));
    let before = pieces(s, is_char('/'));
    if more.len() == 0 {
        assert(s + more =~= s);
        assert(before.last() + more =~= before.last());
        assert(before.drop_last().push(before.last()) =~= before);
    } else {
        let less = more.drop_last();
        assert(more.contains(more[more.len() - 1]));
        if less.contains('/') {
            let i = choose|i: int| 0 <= i < less.len() && less[i] == '/';
            assert(more[i] == '/');
        }
        one_piece(s, less);
        let all = s + more;
        assert(all.drop_last() =~= s + less);
        assert(all.last() == more.last());
        let there = pieces(s + less, is_char('/'));
        assert(there.drop_last() =~= before.drop_last());
        assert((before.last() + less).push(more.last()) =~= before.last() + more);
    }
}

/// A reference names what stands under its names, one below the other; `#` names the whole document, and nothing outside
/// of it can be named.
pub proof fn references_name_definitions(root: JsonV, group: Seq<char>, name: Seq<char>, other: Seq<char>)
    requires
        root is Object,
        !group.contains('/') && !group.contains('~'),
        !name.contains('/') && !name.contains('~'),
    ensures
        local_ref(root, "#"@) == Some(root),
        local_ref(root, "#/"@ + group + seq!['/'] + name) == (match root.get(group) {
            Some(JsonV::Object(entries)) => JsonV::Object(entries).get(name),
            Some(inner) => pointer_step(inner, name),
            None => None,
        }),
        other.len() > 0 && other[0] != '#' ==> local_ref(root, other) is None,
{
    reveal_strlit("#");
    reveal_strlit("#/");
    let none = Seq::<char>::empty();
    let reference = "#/"@ + group + seq!['/'] + name;
    let rest = group + seq!['/'] + name;
    assert(reference.skip(2) =~= rest);
    assert(reference.take(2) =~= "#/"@);
    assert(pieces(none, is_char('/')) =~= seq![none]);
    one_piece(none, group);
    assert(none + group =~= group);
    assert(pieces(group, is_char('/')) =~= seq![group]);
    let start = group + seq!['/'];
    assert(start.drop_last() =~= group);
    assert(pieces(start, is_char('/')) =~= seq![group, none]);
    one_piece(start, name);
    assert(none + name =~= name);
    let tokens = pieces(rest, is_char('/'));
    assert(tokens =~= seq![group, name]);
    plain_names_stay(group);
    plain_names_stay(name);
    assert(tokens.drop_first() =~= seq![name]);
    assert(seq![name].drop_first() =~= Seq::<Seq<char>>::empty());
    reveal_with_fuel(follow, 3);
    if other.len() > 0 && other[0] != '#' {
        if "#/"@.is_prefix_of(other) {
            assert(other.take(2)[0] == "#/"@[0]);
        }
    }
}

} // verus!
