//! What holds of requests and responses on their way.
use crate::config::ConfigV;
use crate::json::JsonV;
use crate::json_model::key_index_is;
use crate::messages::{
    failure_line, header, http_failure, is_sensitive, marker_place, place_of, post_headers_of, post_url, printable,
    redacted_after, safe_entries, safe_json, safe_text, sensitive_words, timeouts_under, transport_of, ErrorV,
    Timeouts, TransportV, REDACTED,
};
use crate::official_passthrough::{
    carried, forward_of, header_lines, is_secret, log_tree, method_name, options_from, plain_text, refusal_message, refusal_status,
    request_hops, response_head_of, response_hops, secret_parts, told_pair, told_target, LogEntry, Stage,
};
use crate::setting_laws::shows;
use crate::text::{control_code, decimal, has_part, lowered, stands_at, value_of};
use crate::text_laws::nothing_is_replaced;
use crate::wire::{parted, HeadV};
use vstd::prelude::*;
use vstd::utf8::encode_utf8;

verus! {

/// Whether a header belongs to one connection alone, or is written anew for each.
pub open spec fn is_hop(name: Seq<char>) -> bool {
    name == "host"@ || name == "connection"@ || name == "keep-alive"@ || name == "proxy-authenticate"@ || name
        == "proxy-authorization"@ || name == "proxy-connection"@ || name == "te"@ || name == "trailer"@ || name
        == "transfer-encoding"@ || name == "upgrade"@ || name == "content-length"@ || name == "expect"@
}

proof fn hops_are_listed(name: Seq<char>)
    ensures
        request_hops().contains(name) == is_hop(name),
{
    let all = request_hops();
    assert(all[0] == "host"@ && all[1] == "connection"@ && all[2] == "keep-alive"@ && all[3] == "proxy-authenticate"@);
    assert(all[4] == "proxy-authorization"@ && all[5] == "proxy-connection"@ && all[6] == "te"@ && all[7] == "trailer"@);
    assert(all[8] == "transfer-encoding"@ && all[9] == "upgrade"@ && all[10] == "content-length"@ && all[11] == "expect"@);
}

proof fn carried_headers_are_kept(headers: Seq<(Seq<char>, Seq<char>)>)
    ensures
        carried(headers) == headers.filter(|header: (Seq<char>, Seq<char>)| !is_hop(header.0)),
    decreases headers.len(),
{
    reveal(Seq::filter);
    if headers.len() > 0 {
        carried_headers_are_kept(headers.drop_last());
        hops_are_listed(headers.last().0);
    }
}

/// A request goes on to the same path and query below the upstream's address, with the headers that it came with and
/// in their order, but for those that belong to one connection.
pub proof fn requests_go_on_as_they_came(head: HeadV, upstream: Seq<char>)
    ensures
        forward_of(head, upstream) is Ok <==> head.target.len() > 0 && head.target[0] == '/' && method_name(head.method),
        forward_of(head, upstream) matches Ok(forward) ==> {
            &&& forward.url == upstream + head.target
            &&& forward.headers == head.headers.filter(|header: (Seq<char>, Seq<char>)| !is_hop(header.0))
        },
{
    carried_headers_are_kept(head.headers);
}

/// The line of a header.
pub open spec fn header_line(header: (Seq<char>, Seq<u8>)) -> Seq<u8> {
    encode_utf8(header.0) + seq![58u8, 32u8] + header.1 + seq![13u8, 10u8]
}

/// Whether bytes stand somewhere in others.
pub open spec fn holds_bytes(all: Seq<u8>, part: Seq<u8>) -> bool {
    exists|at: int| 0 <= at && at + part.len() <= all.len() && #[trigger] all.subrange(at, at + part.len()) == part
}

proof fn lines_hold_the_headers(headers: Seq<(Seq<char>, Seq<u8>)>, i: int)
    requires
        0 <= i < headers.len(),
        !response_hops().contains(headers[i].0),
    ensures
        holds_bytes(header_lines(headers), header_line(headers[i])),
    decreases headers.len(),
{
    let before = headers.drop_last();
    let all = header_lines(headers);
    let part = header_line(headers[i]);
    if i < before.len() {
        lines_hold_the_headers(before, i);
        let few = header_lines(before);
        let at = choose|at: int| 0 <= at && at + part.len() <= few.len() && #[trigger] few.subrange(at, at + part.len()) == part;
        assert(all.subrange(at, at + part.len()) =~= few.subrange(at, at + part.len()));
    } else {
        let at = header_lines(before).len() as int;
        assert(all.subrange(at, at + part.len()) =~= part);
    }
}

/// A response goes to the client with the upstream's status and every header of it that does not belong to one
/// connection; the connection is closed behind it.
pub proof fn responses_go_on_as_they_came(status: u16, reason: Seq<char>, headers: Seq<(Seq<char>, Seq<u8>)>, i: int)
    requires
        0 <= i < headers.len(),
    ensures
        ({
            let head = response_head_of(status, reason, headers);
            let name = headers[i].0;
            &&& encode_utf8("HTTP/1.1 "@ + decimal(status as nat) + " "@ + reason + "\r\n"@).is_prefix_of(head)
            &&& name != "connection"@ && name != "keep-alive"@ && name != "transfer-encoding"@ && name != "trailer"@ && name
                != "upgrade"@ ==> holds_bytes(head, header_line(headers[i]))
            &&& encode_utf8("connection: close\r\n\r\n"@).is_suffix_of(head)
        }),
{
    let head = response_head_of(status, reason, headers);
    let first = encode_utf8("HTTP/1.1 "@ + decimal(status as nat) + " "@ + reason + "\r\n"@);
    let last = encode_utf8("connection: close\r\n\r\n"@);
    assert(head.take(first.len() as int) =~= first);
    assert(head.skip(head.len() - last.len()) =~= last);
    let name = headers[i].0;
    if name != "connection"@ && name != "keep-alive"@ && name != "transfer-encoding"@ && name != "trailer"@ && name
        != "upgrade"@ {
        let all = response_hops();
        assert(!all.contains(name)) by {
            assert(all[0] == "connection"@ && all[1] == "keep-alive"@ && all[2] == "transfer-encoding"@);
            assert(all[3] == "trailer"@ && all[4] == "upgrade"@);
        }
        lines_hold_the_headers(headers, i);
        let lines = header_lines(headers);
        let part = header_line(headers[i]);
        let at = choose|at: int|
            0 <= at && at + part.len() <= lines.len() && #[trigger] lines.subrange(at, at + part.len()) == part;
        let place = first.len() + at;
        assert(head.subrange(place, place + part.len()) =~= lines.subrange(at, at + part.len()));
    }
}

/// A query's value is told unless its name says that it may be a credential.
pub proof fn plain_pairs_are_told(pair: Seq<char>)
    ensures
        (parted(pair, '=') matches Some((name, value)) ==> !is_secret(name)) ==> told_pair(pair) == pair,
        parted(pair, '=') matches Some((name, value)) ==> name.is_prefix_of(told_pair(pair)),
{
    if let Some((name, value)) = parted(pair, '=') {
        reveal_strlit("=");
        crate::traffic_laws::parted_comes_together(pair, '=');
        assert(name + "="@ + value =~= name + seq!['='] + value);
        assert((name + "=<redacted>"@).take(name.len() as int) =~= name);
        assert((name + "="@ + value).take(name.len() as int) =~= name);
    }
}

/// The parts of a text that is parted at a character make up the text.
pub proof fn parted_comes_together(s: Seq<char>, c: char)
    ensures
        parted(s, c) matches Some((a, b)) ==> s == a + seq![c] + b && !a.contains(c),
        parted(s, c) is None ==> !s.contains(c),
{
    place_is_first(s, c);
    if let Some((a, b)) = parted(s, c) {
        assert(s =~= a + seq![c] + b);
        if a.contains(c) {
            let i = choose|i: int| 0 <= i < a.len() && a[i] == c;
            assert(s[i] == c);
        }
    }
}

proof fn place_is_first(s: Seq<char>, c: char)
    ensures
        0 <= place_of(s, c) <= s.len(),
        place_of(s, c) < s.len() ==> s[place_of(s, c)] == c,
        forall|i: int| 0 <= i < place_of(s, c) ==> s[i] != c,
    decreases s.len(),
{
    if s.len() > 0 && s[0] != c {
        place_is_first(s.drop_first(), c);
        assert forall|i: int| 0 <= i < place_of(s, c) implies s[i] != c by {
            if i > 0 {
                assert(s[i] == s.drop_first()[i - 1]);
            }
        }
    }
}

/// The log tells the path of a target as it is, and a target without a query whole.
pub proof fn paths_are_told(target: Seq<char>)
    ensures
        !target.contains('?') ==> told_target(target) == target,
        parted(target, '?') matches Some((path, query)) ==> path.is_prefix_of(told_target(target)) && path.is_prefix_of(target),
{
    parted_comes_together(target, '?');
    if let Some((path, query)) = parted(target, '?') {
        assert(told_target(target).take(path.len() as int) =~= path);
        assert(target.take(path.len() as int) =~= path);
        assert(target[path.len() as int] == '?');
    }
}

/// A name that speaks of a key, a token, a secret, an authorisation or a signature is that of a credential.
pub proof fn credentials_are_recognised(name: Seq<char>)
    ensures
        is_secret(name) <==> (has_part(lowered(name), "key"@) || has_part(lowered(name), "token"@) || has_part(
            lowered(name),
            "secret"@,
        ) || has_part(lowered(name), "auth"@) || has_part(lowered(name), "signature"@) || has_part(lowered(name), "sig"@)),
        is_sensitive(name) <==> (has_part(lowered(name), "authorization"@) || has_part(lowered(name), "api_key"@) || has_part(
            lowered(name),
            "apikey"@,
        ) || has_part(lowered(name), "access_token"@) || has_part(lowered(name), "refresh_token"@) || has_part(
            lowered(name),
            "credential"@,
        ) || has_part(lowered(name), "cookie"@) || has_part(lowered(name), "secret"@) || has_part(
            lowered(name),
            "path_secret"@,
        )),
{
    let parts = secret_parts();
    assert(parts[0] == "key"@ && parts[1] == "token"@ && parts[2] == "secret"@);
    assert(parts[3] == "auth"@ && parts[4] == "signature"@ && parts[5] == "sig"@);
    let words = sensitive_words();
    assert(words[0] == "authorization"@ && words[1] == "api_key"@ && words[2] == "apikey"@ && words[3] == "access_token"@);
    assert(words[4] == "refresh_token"@ && words[5] == "credential"@ && words[6] == "cookie"@ && words[7] == "secret"@);
    assert(words[8] == "path_secret"@);
}

/// A line of the log tells the request and what came of it.
pub proof fn log_lines_tell(entry: LogEntry)
    ensures
        ({
            let tree = log_tree(entry);
            &&& tree.unsigned_at("ts_ms"@) == Some(entry.ts_ms)
            &&& tree.text_at("method"@) == Some(entry.method@)
            &&& tree.text_at("path"@) == Some(told_target(entry.target@))
            &&& tree.unsigned_at("status"@) == Some(entry.status as u64)
            &&& tree.unsigned_at("ms"@) == Some(entry.elapsed_ms)
            &&& tree.get("sse"@) == Some(JsonV::Bool(entry.sse))
            &&& tree.unsigned_at("req_bytes"@) == Some(entry.req_bytes as u64)
            &&& tree.unsigned_at("resp_bytes"@) == Some(entry.resp_bytes)
            &&& tree.get("note"@) == Some(
                match entry.note {
                    Some(note) => JsonV::Str(note@),
                    None => JsonV::Null,
                },
            )
        }),
{
    reveal_strlit("ts_ms");
    reveal_strlit("method");
    reveal_strlit("path");
    reveal_strlit("status");
    reveal_strlit("ms");
    reveal_strlit("sse");
    reveal_strlit("req_bytes");
    reveal_strlit("resp_bytes");
    reveal_strlit("note");
    assert("ts_ms"@.len() == 5 && "method"@.len() == 6 && "path"@.len() == 4 && "status"@.len() == 6 && "ms"@.len() == 2);
    assert("sse"@.len() == 3 && "req_bytes"@.len() == 9 && "resp_bytes"@.len() == 10 && "note"@.len() == 4);
    assert("method"@[0] == 'm' && "status"@[0] == 's' && "path"@[0] == 'p' && "note"@[0] == 'n');
    let entries = log_tree(entry)->Object_0;
    assert(entries.len() == 9);
    assert(entries[0].0 == "ts_ms"@ && entries[1].0 == "method"@ && entries[2].0 == "path"@ && entries[3].0 == "status"@);
    assert(entries[4].0 == "ms"@ && entries[5].0 == "sse"@ && entries[6].0 == "req_bytes"@ && entries[7].0 == "resp_bytes"@);
    assert(entries[8].0 == "note"@);
    key_index_is(entries, "ts_ms"@, 0);
    key_index_is(entries, "method"@, 1);
    key_index_is(entries, "path"@, 2);
    key_index_is(entries, "status"@, 3);
    key_index_is(entries, "ms"@, 4);
    key_index_is(entries, "sse"@, 5);
    key_index_is(entries, "req_bytes"@, 6);
    key_index_is(entries, "resp_bytes"@, 7);
    key_index_is(entries, "note"@, 8);
}

/// A request that comes to nothing is answered with a fault of the client's or of the upstream's, and is told why.
pub proof fn refusals_tell_why(stage: Stage, detail: Seq<char>)
    ensures
        ({
            let message = refusal_message(stage, detail);
            let text = plain_text(refusal_status(stage), message);
            &&& refusal_status(stage) == (if stage == Stage::Upstream {
                502u16
            } else {
                400u16
            })
            &&& detail.is_suffix_of(message)
            &&& message.is_suffix_of(text)
            &&& ("HTTP/1.1 "@ + decimal(refusal_status(stage) as nat)).is_prefix_of(text)
        }),
{
    let message = refusal_message(stage, detail);
    let text = plain_text(refusal_status(stage), message);
    let start = "HTTP/1.1 "@ + decimal(refusal_status(stage) as nat);
    assert(message.skip(message.len() - detail.len()) =~= detail);
    assert(text.skip(text.len() - message.len()) =~= message);
    assert(text.take(start.len() as int) =~= start);
}

/// A failure of the upstream is told with its own status where that is one of a failure, and with what it said.
pub proof fn failures_are_told(status: u16, body: Seq<char>)
    ensures
        ({
            let failure = http_failure(status, body);
            &&& failure.upstream_status == Some(status)
            &&& 400 <= status <= 599 ==> failure.status == status
            &&& status < 400 || status > 599 ==> failure.status == 502
            &&& has_part(failure.detail, decimal(status as nat))
            &&& body.is_suffix_of(failure.detail)
        }),
{
    let failure = http_failure(status, body);
    let at = "upstream "@.len() as int;
    assert(failure.detail.subrange(at, at + decimal(status as nat).len()) =~= decimal(status as nat));
    assert(stands_at(failure.detail, decimal(status as nat), at));
    assert(failure.detail.skip(failure.detail.len() - body.len()) =~= body);
}

/// The line on a failure tells the operation and both statuses, and, where it is asked for and the upstream answered,
/// the first printable characters of what it said.
pub proof fn failure_lines_tell(operation: Seq<char>, error: ErrorV, diagnostic: bool)
    ensures
        ({
            let line = failure_line(operation, error, diagnostic);
            &&& has_part(line, "operation="@ + operation + " status="@ + decimal(error.status as nat))
            &&& error.upstream_status matches Some(status) ==> has_part(line, "upstream_status=Some("@ + decimal(status as nat))
            &&& diagnostic && error.upstream_status is Some && error.detail.len() <= 400 && (forall|i: int|
                0 <= i < error.detail.len() ==> !control_code(#[trigger] error.detail[i])) ==> error.detail.is_suffix_of(line)
        }),
{
    let line = failure_line(operation, error, diagnostic);
    reveal_strlit("POST /v1/messages upstream_failure operation=");
    reveal_strlit("operation=");
    reveal_strlit(" upstream_status=");
    reveal_strlit("upstream_status=Some(");
    reveal_strlit("Some(");
    reveal_strlit(" status=");
    let one = "operation="@ + operation + " status="@ + decimal(error.status as nat);
    let at = "POST /v1/messages upstream_failure "@.len() as int;
    reveal_strlit("POST /v1/messages upstream_failure ");
    assert(line.subrange(at, at + one.len()) =~= one);
    assert(stands_at(line, one, at));
    if let Some(status) = error.upstream_status {
        let two = "upstream_status=Some("@ + decimal(status as nat);
        let place = at + one.len() + 1;
        assert(line.subrange(place as int, (place + two.len()) as int) =~= two);
        assert(stands_at(line, two, place as int));
        if diagnostic && error.detail.len() <= 400 && (forall|i: int|
            0 <= i < error.detail.len() ==> !control_code(#[trigger] error.detail[i])) {
            plain_text_is_printable(error.detail, 400);
            assert(line.skip(line.len() - error.detail.len()) =~= error.detail);
        }
    }
}

proof fn plain_text_is_printable(s: Seq<char>, most: nat)
    requires
        s.len() <= most,
        forall|i: int| 0 <= i < s.len() ==> !control_code(#[trigger] s[i]),
    ensures
        printable(s, most) == s,
    decreases s.len(),
{
    if s.len() > 0 {
        let before = s.drop_last();
        assert forall|i: int| 0 <= i < before.len() implies !control_code(#[trigger] before[i]) by {
            assert(before[i] == s[i]);
        }
        plain_text_is_printable(before, most);
        assert(!control_code(s[s.len() - 1]));
        assert(before.push(s.last()) =~= s);
    } else {
        assert(printable(s, most) =~= s);
    }
}

/// A text that holds neither the key nor what looks like a credential is told as it is.
pub proof fn harmless_texts_are_told(s: Seq<char>, api_key: Seq<char>)
    requires
        api_key.len() > 0 ==> !has_part(s, api_key),
        !has_part(lowered(s), "bearer "@),
        !has_part(lowered(s), "sk-"@),
    ensures
        safe_text(s, api_key) == s,
{
    if api_key.len() > 0 {
        nothing_is_replaced(s, api_key, REDACTED@);
    }
    nothing_is_redacted(s, "bearer "@);
    nothing_is_redacted(s, "sk-"@);
}

proof fn nothing_is_redacted(s: Seq<char>, marker: Seq<char>)
    requires
        !has_part(lowered(s), marker),
    ensures
        redacted_after(s, marker) == s,
{
    marker_is_nowhere(s, marker);
}

proof fn marker_is_nowhere(s: Seq<char>, marker: Seq<char>)
    requires
        !has_part(lowered(s), marker),
    ensures
        marker_place(s, marker) == s.len(),
    decreases s.len(),
{
    if s.len() > 0 {
        assert(!stands_at(lowered(s), marker, 0));
        let rest = s.drop_first();
        assert(!has_part(lowered(rest), marker)) by {
            if has_part(lowered(rest), marker) {
                let at = choose|at: int| #[trigger] stands_at(lowered(rest), marker, at);
                assert(lowered(s).subrange(at + 1, at + 1 + marker.len()) =~= lowered(rest).subrange(at, at + marker.len()));
                assert(stands_at(lowered(s), marker, at + 1));
            }
        }
        marker_is_nowhere(rest, marker);
    }
}

/// What is told of JSON has the same shape: every item and every entry, and numbers, flags and nothing as they are.
pub proof fn safe_trees_keep_their_shape(tree: JsonV, api_key: Seq<char>)
    ensures
        match tree {
            JsonV::Array(items) => safe_json(tree, api_key) matches JsonV::Array(out) && out.len() == items.len() && forall|
                i: int,
            |
                0 <= i < items.len() ==> #[trigger] out[i] == safe_json(items[i], api_key),
            JsonV::Object(entries) => safe_json(tree, api_key) matches JsonV::Object(out) && out.len() == entries.len()
                && forall|i: int|
                0 <= i < entries.len() ==> (#[trigger] out[i]).0 == entries[i].0 && out[i].1 == if is_sensitive(entries[i].0) {
                    JsonV::Str(REDACTED@)
                } else {
                    safe_json(entries[i].1, api_key)
                },
            JsonV::Str(s) => safe_json(tree, api_key) == JsonV::Str(safe_text(s, api_key)),
            _ => safe_json(tree, api_key) == tree,
        },
{
    if let JsonV::Object(entries) = tree {
        entries_keep_their_shape(entries, api_key);
    }
}

proof fn entries_keep_their_shape(entries: Seq<(Seq<char>, JsonV)>, api_key: Seq<char>)
    ensures
        safe_entries(entries, api_key).len() == entries.len(),
        forall|i: int|
            0 <= i < entries.len() ==> (#[trigger] safe_entries(entries, api_key)[i]).0 == entries[i].0 && safe_entries(
                entries,
                api_key,
            )[i].1 == if is_sensitive(entries[i].0) {
                JsonV::Str(REDACTED@)
            } else {
                safe_json(entries[i].1, api_key)
            },
    decreases entries.len(),
{
    if entries.len() > 0 {
        entries_keep_their_shape(entries.drop_last(), api_key);
    }
}

proof fn header_names_differ()
    ensures
        "authorization"@.len() == 13,
        "x-api-key"@.len() == 9,
        "content-type"@.len() == 12,
        "user-agent"@.len() == 10,
        "anthropic-version"@.len() == 17,
        "anthropic-beta"@.len() == 14,
        "x-app"@.len() == 5,
{
    reveal_strlit("authorization");
    reveal_strlit("x-api-key");
    reveal_strlit("content-type");
    reveal_strlit("user-agent");
    reveal_strlit("anthropic-version");
    reveal_strlit("anthropic-beta");
    reveal_strlit("x-app");
}

/// The headers of a request with messages tell what the client told: its version of the API, its betas, its kind and
/// its name; the body is JSON.
pub proof fn requests_tell_what_the_client_told(config: ConfigV, t: TransportV)
    ensures
        ({
            let headers = post_headers_of(config, Some(t));
            &&& shows(headers, "content-type"@, "application/json"@)
            &&& t.user_agent matches Some(agent) ==> shows(headers, "user-agent"@, agent)
            &&& t.anthropic_version matches Some(version) ==> shows(headers, "anthropic-version"@, version)
            &&& t.anthropic_version is None ==> shows(headers, "anthropic-version"@, "2023-06-01"@)
            &&& t.anthropic_beta matches Some(beta) ==> shows(headers, "anthropic-beta"@, beta)
            &&& t.anthropic_beta is None ==> forall|i: int|
                0 <= i < headers.len() ==> (#[trigger] headers[i]).0 != "anthropic-beta"@
            &&& t.x_app matches Some(app) ==> shows(headers, "x-app"@, app)
        }),
{
    header_names_differ();
    let headers = post_headers_of(config, Some(t));
    assert(headers[0].0 == "content-type"@);
    assert(headers[1].0 == "user-agent"@);
    assert(headers[2].0 == "anthropic-version"@);
    if let Some(beta) = t.anthropic_beta {
        assert(headers[3] == ("anthropic-beta"@, beta));
        if let Some(app) = t.x_app {
            assert(headers[4] == ("x-app"@, app));
        }
    } else if let Some(app) = t.x_app {
        assert(headers[3] == ("x-app"@, app));
    }
}

/// What the client told goes on: a header that it sent, unless it meant it for this connection alone.
pub proof fn client_headers_go_on(target: Seq<char>, headers: Seq<(Seq<char>, Seq<char>)>)
    ensures
        transport_of(target, headers) matches Ok(t) ==> (value_of(headers, "connection"@) is None ==> {
            &&& t.anthropic_version == value_of(headers, "anthropic-version"@)
            &&& t.anthropic_beta == value_of(headers, "anthropic-beta"@)
            &&& t.x_app == value_of(headers, "x-app"@)
            &&& t.user_agent == value_of(headers, "user-agent"@)
        }),
        value_of(headers, "anthropic-version"@) is None && value_of(headers, "anthropic-beta"@) is None && value_of(
            headers,
            "x-app"@,
        ) is None && value_of(headers, "user-agent"@) is None ==> transport_of(target, headers) is Ok,
{
}

/// Messages are posted to the address of the setup, as it is, where nobody speaks of the beta.
pub proof fn messages_go_to_the_address(config: ConfigV, transport: Option<TransportV>)
    ensures
        transport is None ==> post_url(config, transport) == Ok::<Seq<char>, ErrorV>(config.upstream_url),
        transport matches Some(t) ==> !t.beta_query ==> (crate::upstream_url::url_pairs(config.upstream_url) matches Some(pairs)
            ==> (forall|i: int| 0 <= i < pairs.len() ==> (#[trigger] pairs[i]).0 != "beta"@) ==> post_url(config, transport)
            == Ok::<Seq<char>, ErrorV>(config.upstream_url)),
{
}

/// The bounds of a request are those of its contract.
pub proof fn contracts_bound_requests(config: ConfigV, nanos: u128)
    ensures
        config.provider_contract matches Some(contract) ==> {
            let t = timeouts_under(config, nanos);
            &&& t.connect == contract.connect_timeout_ms * 1_000_000
            &&& t.total == contract.request_timeout_ms * 1_000_000
            &&& t.read_idle == contract.read_idle_timeout_ms * 1_000_000
        },
        config.provider_contract is None ==> timeouts_under(config, nanos) == (Timeouts {
            connect: nanos,
            total: nanos,
            read_idle: nanos,
        }),
{
}

/// The mode listens on the port, writes to the log and goes to the address that it is asked for, whatever stood there
/// before.
pub proof fn options_are_those_asked_for(
    port: u16,
    log_path: Seq<char>,
    upstream: Seq<char>,
    old_port: Option<u16>,
    old_log: Option<Seq<char>>,
    old_upstream: Seq<char>,
)
    ensures
        ({
            let args = seq!["--port"@, decimal(port as nat), "--log"@, log_path, "--upstream"@, upstream];
            options_from(args, old_port, old_log, old_upstream) matches Ok(options) && options.port == port && options.log_path
                == log_path && options.upstream == crate::text::without_end(upstream, '/')
        }),
        ({
            let args = seq!["--upstream"@, upstream, "--log"@, log_path, "--port"@, decimal(port as nat)];
            options_from(args, old_port, old_log, old_upstream) matches Ok(options) && options.port == port && options.log_path
                == log_path && options.upstream == crate::text::without_end(upstream, '/')
        }),
        old_port is None ==> options_from(Seq::empty(), old_port, old_log, old_upstream) is Err,
{
    reveal_strlit("--port");
    reveal_strlit("--log");
    reveal_strlit("--upstream");
    assert("--port"@.len() == 6 && "--log"@.len() == 5 && "--upstream"@.len() == 10);
    let number = decimal(port as nat);
    crate::text_laws::decimal_texts_stand_for_their_numbers(port as nat);
    assert(number.len() > 0 && '0' <= number[0]);
    assert(crate::text::unsigned_number(number, 65535) == Some(port as nat));
    reveal_with_fuel(options_from, 4);
    let none = Seq::<Seq<char>>::empty();
    let a = seq!["--port"@, number, "--log"@, log_path, "--upstream"@, upstream];
    assert(a.skip(2) =~= seq!["--log"@, log_path, "--upstream"@, upstream]);
    assert(seq!["--log"@, log_path, "--upstream"@, upstream].skip(2) =~= seq!["--upstream"@, upstream]);
    assert(seq!["--upstream"@, upstream].skip(2) =~= none);
    let b = seq!["--upstream"@, upstream, "--log"@, log_path, "--port"@, number];
    assert(b.skip(2) =~= seq!["--log"@, log_path, "--port"@, number]);
    assert(seq!["--log"@, log_path, "--port"@, number].skip(2) =~= seq!["--port"@, number]);
    assert(seq!["--port"@, number].skip(2) =~= none);
}

} // verus!
