//! What is sent to an upstream, and what its answers come to.
//!
//! The requests themselves are made by the caller: the functions here say where they go, what
//! headers they carry, how long they may take, and what an answer means.
use crate::config::{ConfigV, GatewayConfig, UPSTREAM_UA};
use crate::json::{Json, JsonV};
use crate::json_model::{entries_view, entry_is_smaller, group_json_views, item_is_smaller, json_parse, list_view, rendered};
use crate::provider_contracts::{opt_owned, AuthScheme};
use crate::text::{
    chars_at, chars_of, concat, contains, decode_lossy, decimal, group_texts, has_part, is_char, control_code, look_up,
    lossy_text, lowered, number_text, opt_text, pairs_view, pieces, replace, replaced, same, split_char, stands_at,
    text_of, texts, to_lower, trim, trimmed, value_of,
};
use crate::upstream_url::{
    clear_query, form_pairs, pairs_size, parse_form, read_url_pairs, url_pairs, url_with_pairs, url_without_query,
    write_pairs, MAX_URL_BYTES,
};
use crate::sse::bytes_between;
use vstd::prelude::*;
use vstd::utf8::{encode_utf8, is_ascii_chars_encode_utf8};

verus! {

broadcast use {group_json_views, group_texts};

/// An answer of the upstream.
#[derive(Debug)]
pub struct UpstreamBody {
    pub status: u16,
    pub content_type: String,
    pub body: Vec<u8>,
}

/// A failure of the upstream: the status to answer with, the status that came, and what is known.
#[derive(Debug)]
pub struct UpstreamError {
    pub status: u16,
    pub upstream_status: Option<u16>,
    pub detail: String,
}

#[verifier::ext_equal]
pub struct ErrorV {
    pub status: u16,
    pub upstream_status: Option<u16>,
    pub detail: Seq<char>,
}

impl View for UpstreamError {
    type V = ErrorV;

    open spec fn view(&self) -> ErrorV {
        ErrorV { status: self.status, upstream_status: self.upstream_status, detail: self.detail@ }
    }
}

/// A status that may be missing, as it is written.
pub open spec fn status_text(status: Option<u16>) -> Seq<char> {
    match status {
        Some(n) => "Some("@ + decimal(n as nat) + ")"@,
        None => "None"@,
    }
}

/// The first characters of a text that are no control codes.
pub open spec fn printable(s: Seq<char>, most: nat) -> Seq<char>
    decreases s.len(),
{
    if s.len() == 0 {
        Seq::empty()
    } else {
        let before = printable(s.drop_last(), most);
        if control_code(s.last()) || before.len() >= most {
            before
        } else {
            before.push(s.last())
        }
    }
}

/// The line that tells of a failure: what failed and with which status. What the upstream said is
/// told on request alone, and only where it did answer: a failure to reach it may tell its address.
pub open spec fn failure_line(operation: Seq<char>, error: ErrorV, diagnostic: bool) -> Seq<char> {
    let base = "POST /v1/messages upstream_failure operation="@ + operation + " status="@ + decimal(error.status as nat)
        + " upstream_status="@ + status_text(error.upstream_status);
    if diagnostic && error.upstream_status is Some {
        base + " upstream_detail="@ + printable(error.detail, 400)
    } else {
        base
    }
}

fn write_status(status: Option<u16>) -> (text: String)
    ensures
        text@ == status_text(status),
{
    match status {
        Some(n) => {
            let opened = concat("Some(", number_text(n as u64).as_str());
            concat(opened.as_str(), ")")
        },
        None => "None".to_owned(),
    }
}

fn keep_printable(s: &str, most: usize) -> (out: String)
    ensures
        out@ == printable(s@, most as nat),
{
    let chars = chars_of(s);
    let mut out = String::new();
    let mut count: usize = 0;
    let mut i: usize = 0;
    while i < chars.len()
        invariant
            i <= chars@.len(),
            chars@ == s@,
            count == out@.len(),
            count <= i,
            out@ == printable(s@.take(i as int), most as nat),
        decreases chars@.len() - i,
    {
        assert(s@.take(i + 1).drop_last() =~= s@.take(i as int));
        let c = chars[i];
        if !c.is_control() && count < most {
            out.push(c);
            count = count + 1;
        }
        i = i + 1;
    }
    assert(s@.take(i as int) =~= s@);
    out
}

/// The line that tells of a failure.
pub fn upstream_failure_metadata(operation: &str, error: &UpstreamError, diagnostic: bool) -> (line: String)
    ensures
        line@ == failure_line(operation@, error@, diagnostic),
{
    let mut line = concat("POST /v1/messages upstream_failure operation=", operation);
    line.append(" status=");
    line.append(number_text(error.status as u64).as_str());
    line.append(" upstream_status=");
    line.append(write_status(error.upstream_status).as_str());
    if diagnostic && error.upstream_status.is_some() {
        line.append(" upstream_detail=");
        line.append(keep_printable(error.detail.as_str(), 400).as_str());
    }
    line
}

/// How long the parts of a request may take, in nanoseconds.
#[derive(Clone, Copy, Debug, PartialEq, Eq, Structural)]
pub struct Timeouts {
    pub connect: u128,
    pub total: u128,
    pub read_idle: u128,
}

/// Nanoseconds in a millisecond.
pub const NANOS_PER_MILLI: u128 = 1_000_000;

/// What an inference may take where no contract says.
pub const INFERENCE_TIMEOUT_NANOS: u128 = 300_000_000_000;

/// What a list of models may take where no contract says, in seconds.
pub fn models_timeout_secs(_provider: &str) -> (secs: u64)
    ensures
        secs == 120,
{
    120
}

pub open spec fn even_timeouts(nanos: u128) -> Timeouts {
    Timeouts { connect: nanos, total: nanos, read_idle: nanos }
}

/// What the contract allows, or the same bound for everything where there is none.
pub open spec fn timeouts_under(config: ConfigV, nanos: u128) -> Timeouts {
    match config.provider_contract {
        Some(c) => Timeouts {
            connect: (c.connect_timeout_ms * NANOS_PER_MILLI) as u128,
            total: (c.request_timeout_ms * NANOS_PER_MILLI) as u128,
            read_idle: (c.read_idle_timeout_ms * NANOS_PER_MILLI) as u128,
        },
        None => even_timeouts(nanos),
    }
}

fn nanos_of(ms: u64) -> (nanos: u128)
    ensures
        nanos == ms * NANOS_PER_MILLI,
{
    (ms as u128) * NANOS_PER_MILLI
}

fn read_timeouts(cfg: &GatewayConfig, nanos: u128) -> (timeouts: Timeouts)
    ensures
        timeouts == timeouts_under(cfg@, nanos),
{
    match &cfg.provider_contract {
        Some(c) => Timeouts {
            connect: nanos_of(c.connect_timeout_ms),
            total: nanos_of(c.request_timeout_ms),
            read_idle: nanos_of(c.read_idle_timeout_ms),
        },
        None => Timeouts { connect: nanos, total: nanos, read_idle: nanos },
    }
}

pub fn inference_timeouts(cfg: &GatewayConfig) -> (timeouts: Timeouts)
    ensures
        timeouts == timeouts_under(cfg@, INFERENCE_TIMEOUT_NANOS),
{
    read_timeouts(cfg, INFERENCE_TIMEOUT_NANOS)
}

pub fn models_timeouts(cfg: &GatewayConfig) -> (timeouts: Timeouts)
    ensures
        timeouts == timeouts_under(cfg@, 120_000_000_000),
{
    let secs: u64 = models_timeout_secs(cfg.provider.as_str());
    read_timeouts(cfg, (secs as u128) * 1_000_000_000)
}

/// The bound on one operation of a request. A request that must end has the tighter of its bounds; a
/// stream that is alive has the bound between two reads alone.
pub fn operation_timeout(timeouts: Timeouts, enforce_total: bool) -> (nanos: u128)
    ensures
        nanos == (if enforce_total && timeouts.total < timeouts.read_idle {
            timeouts.total
        } else {
            timeouts.read_idle
        }),
{
    if enforce_total && timeouts.total < timeouts.read_idle {
        timeouts.total
    } else {
        timeouts.read_idle
    }
}

/// What is left of a bound, where something is.
pub fn remaining(total: u128, elapsed: u128) -> (left: Option<u128>)
    ensures
        match left {
            Some(n) => elapsed <= total && n == total - elapsed,
            None => elapsed > total,
        },
{
    if elapsed > total {
        None
    } else {
        Some(total - elapsed)
    }
}

/// The most bytes of one read.
pub const READ_BYTES: usize = 8_192;

/// How many bytes the next read may bring; none where the body is as long as it may get.
pub fn next_read(limit: Option<u64>, have: usize) -> (capacity: usize)
    ensures
        capacity == (match limit {
            Some(max) => if max <= have {
                0
            } else if max - have < READ_BYTES {
                (max - have) as usize
            } else {
                READ_BYTES
            },
            None => READ_BYTES,
        }),
{
    match limit {
        Some(max) => {
            if max <= have as u64 {
                0
            } else if max - (have as u64) < READ_BYTES as u64 {
                (max - have as u64) as usize
            } else {
                READ_BYTES
            }
        },
        None => READ_BYTES,
    }
}

/// The bounds of a request that shares a deadline with others: what is left until then.
pub open spec fn timeouts_before(config: ConfigV, deadline: u128, now: u128) -> Result<Timeouts, ErrorV> {
    let given = timeouts_under(config, INFERENCE_TIMEOUT_NANOS);
    if deadline <= now {
        Err(
            ErrorV {
                status: 504,
                upstream_status: None,
                detail: "upstream request exceeded the cumulative total timeout"@,
            },
        )
    } else {
        let left = (deadline - now) as u128;
        Ok(
            Timeouts {
                connect: if given.connect < left {
                    given.connect
                } else {
                    left
                },
                total: left,
                read_idle: given.read_idle,
            },
        )
    }
}

/// The bounds of a request before a deadline, or the failure where it has passed.
pub fn inference_timeouts_before(cfg: &GatewayConfig, deadline: u128, now: u128) -> (out: Result<
    Timeouts,
    UpstreamError,
>)
    ensures
        match (out, timeouts_before(cfg@, deadline, now)) {
            (Ok(timeouts), Ok(meant)) => timeouts == meant,
            (Err(e), Err(meant)) => e@ == meant,
            _ => false,
        },
{
    if deadline <= now {
        return Err(
            UpstreamError {
                status: 504,
                upstream_status: None,
                detail: "upstream request exceeded the cumulative total timeout".to_owned(),
            },
        );
    }
    let left: u128 = deadline - now;
    let given = inference_timeouts(cfg);
    Ok(
        Timeouts {
            connect: if given.connect < left {
                given.connect
            } else {
                left
            },
            total: left,
            read_idle: given.read_idle,
        },
    )
}

/// What of an inbound request goes on to the upstream.
#[derive(Clone, Debug)]
pub struct AnthropicTransport {
    pub anthropic_version: Option<String>,
    pub anthropic_beta: Option<String>,
    pub x_app: Option<String>,
    pub user_agent: Option<String>,
    pub beta_query: bool,
}

#[verifier::ext_equal]
pub struct TransportV {
    pub anthropic_version: Option<Seq<char>>,
    pub anthropic_beta: Option<Seq<char>>,
    pub x_app: Option<Seq<char>>,
    pub user_agent: Option<Seq<char>>,
    pub beta_query: bool,
}

impl View for AnthropicTransport {
    type V = TransportV;

    open spec fn view(&self) -> TransportV {
        TransportV {
            anthropic_version: opt_owned(self.anthropic_version),
            anthropic_beta: opt_owned(self.anthropic_beta),
            x_app: opt_owned(self.x_app),
            user_agent: opt_owned(self.user_agent),
            beta_query: self.beta_query,
        }
    }
}

impl Default for AnthropicTransport {
    fn default() -> (transport: AnthropicTransport)
        ensures
            transport@ == (TransportV {
                anthropic_version: None,
                anthropic_beta: None,
                x_app: None,
                user_agent: None,
                beta_query: false,
            }),
    {
        AnthropicTransport {
            anthropic_version: None,
            anthropic_beta: None,
            x_app: None,
            user_agent: None,
            beta_query: false,
        }
    }
}

/// Whether a byte can stand in a header that is read as text.
pub open spec fn header_byte(b: u8) -> bool {
    (32 <= b && b < 127) || b == 9
}

/// Whether a text can be the value of a header.
pub open spec fn header_value(s: Seq<char>) -> bool {
    forall|i: int| 0 <= i < encode_utf8(s).len() ==> header_byte(#[trigger] encode_utf8(s)[i])
}

/// `reqwest::header::HeaderValue::from_bytes` takes visible bytes and tabs, and its `to_str` gives
/// them back where they are ASCII.
#[verifier::external_body]
fn read_header_value(value: &str) -> (out: Option<String>)
    ensures
        match out {
            Some(text) => header_value(value@) && text@ == value@,
            None => !header_value(value@),
        },
{
    let header = reqwest::header::HeaderValue::from_bytes(value.as_bytes()).ok()?;
    header.to_str().ok().map(|text| text.to_owned())
}

/// Whether a connection header names another header, which is then for this connection alone.
pub open spec fn nominates(connection: Seq<char>, name: Seq<char>) -> bool {
    let parts = pieces(connection, is_char(','));
    exists|i: int| 0 <= i < parts.len() && lowered(trimmed(#[trigger] parts[i])) == lowered(name)
}

/// The value of a header that may go on.
pub open spec fn forwarded(headers: Seq<(Seq<char>, Seq<char>)>, name: Seq<char>) -> Result<
    Option<Seq<char>>,
    Seq<char>,
> {
    match (value_of(headers, "connection"@), value_of(headers, name)) {
        (Some(connection), _) if nominates(connection, name) => Ok(None),
        (_, None) => Ok(None),
        (_, Some(value)) => if header_value(value) {
            Ok(Some(value))
        } else {
            Err("invalid "@ + name + " header"@)
        },
    }
}

/// The place of a character in a text, or its length.
pub open spec fn place_of(s: Seq<char>, c: char) -> int
    decreases s.len(),
{
    if s.len() == 0 || s[0] == c {
        0
    } else {
        1 + place_of(s.drop_first(), c)
    }
}

/// The query of a request's target.
pub open spec fn query_of(target: Seq<char>) -> Option<Seq<char>> {
    let at = place_of(target, '?');
    if at >= target.len() {
        None
    } else {
        let rest = target.skip(at + 1);
        Some(rest.take(place_of(rest, '#')))
    }
}

/// Whether a pair asks for the beta.
pub open spec fn asks_beta(pairs: Seq<(Seq<char>, Seq<char>)>) -> bool {
    exists|i: int| 0 <= i < pairs.len() && (#[trigger] pairs[i]).0 == "beta"@ && pairs[i].1 == "true"@
}

pub open spec fn beta_wanted(target: Seq<char>) -> bool {
    match query_of(target) {
        Some(query) => asks_beta(form_pairs(query)),
        None => false,
    }
}

/// What of an inbound request goes on.
pub open spec fn transport_of(target: Seq<char>, headers: Seq<(Seq<char>, Seq<char>)>) -> Result<TransportV, Seq<char>> {
    match (
        forwarded(headers, "anthropic-version"@),
        forwarded(headers, "anthropic-beta"@),
        forwarded(headers, "x-app"@),
        forwarded(headers, "user-agent"@),
    ) {
        (Err(e), _, _, _) => Err(e),
        (_, Err(e), _, _) => Err(e),
        (_, _, Err(e), _) => Err(e),
        (_, _, _, Err(e)) => Err(e),
        (Ok(anthropic_version), Ok(anthropic_beta), Ok(x_app), Ok(user_agent)) => Ok(
            TransportV { anthropic_version, anthropic_beta, x_app, user_agent, beta_query: beta_wanted(target) },
        ),
    }
}

pub fn find_char(chars: &Vec<char>, from: usize, c: char) -> (at: usize)
    requires
        from <= chars@.len(),
    ensures
        from <= at <= chars@.len(),
        at - from == place_of(chars@.skip(from as int), c),
{
    let mut at: usize = from;
    while at < chars.len() && chars[at] != c
        invariant
            from <= at <= chars@.len(),
            place_of(chars@.skip(from as int), c) == at - from + place_of(chars@.skip(at as int), c),
        decreases chars@.len() - at,
    {
        assert(chars@.skip(at as int).drop_first() =~= chars@.skip(at + 1));
        at = at + 1;
    }
    at
}

fn read_query(target: &str) -> (query: Option<String>)
    ensures
        opt_owned(query) == query_of(target@),
{
    let chars = chars_of(target);
    assert(chars@.skip(0) =~= target@);
    let at: usize = find_char(&chars, 0, '?');
    if at >= chars.len() {
        return None;
    }
    let end: usize = find_char(&chars, at + 1, '#');
    assert(chars@.subrange(at + 1, end as int) =~= target@.skip(at + 1).take(end - (at + 1)));
    Some(text_of(&chars, at + 1, end))
}

fn has_beta(pairs: &Vec<(String, String)>) -> (yes: bool)
    ensures
        yes == asks_beta(pairs_view(pairs@)),
{
    let ghost all = pairs_view(pairs@);
    let mut i: usize = 0;
    while i < pairs.len()
        invariant
            i <= pairs@.len(),
            all == pairs_view(pairs@),
            forall|k: int| 0 <= k < i ==> !((#[trigger] all[k]).0 == "beta"@ && all[k].1 == "true"@),
        decreases pairs@.len() - i,
    {
        assert(all[i as int] == (pairs@[i as int].0@, pairs@[i as int].1@));
        if same(pairs[i].0.as_str(), "beta") && same(pairs[i].1.as_str(), "true") {
            assert(all[i as int].0 == "beta"@ && all[i as int].1 == "true"@);
            return true;
        }
        i = i + 1;
    }
    false
}

fn is_nominated(connection: &str, name: &str) -> (yes: bool)
    ensures
        yes == nominates(connection@, name@),
{
    let parts = split_char(connection, ',');
    let ghost all = pieces(connection@, is_char(','));
    let wanted = to_lower(name);
    let mut i: usize = 0;
    while i < parts.len()
        invariant
            i <= parts@.len(),
            texts(parts@) == all,
            all == pieces(connection@, is_char(',')),
            wanted@ == lowered(name@),
            forall|k: int| 0 <= k < i ==> lowered(trimmed(#[trigger] all[k])) != lowered(name@),
        decreases parts@.len() - i,
    {
        assert(all[i as int] == parts@[i as int]@);
        let token = to_lower(trim(parts[i].as_str()).as_str());
        if same(token.as_str(), wanted.as_str()) {
            assert(lowered(trimmed(all[i as int])) == lowered(name@));
            return true;
        }
        i = i + 1;
    }
    assert(all.len() == parts@.len());
    false
}

fn allowed_header(headers: &Vec<(String, String)>, name: &str) -> (out: Result<Option<String>, String>)
    ensures
        match (out, forwarded(pairs_view(headers@), name@)) {
            (Ok(value), Ok(meant)) => opt_owned(value) == meant,
            (Err(e), Err(reason)) => e@ == reason,
            _ => false,
        },
{
    if let Some(connection) = look_up(headers, "connection") {
        if is_nominated(connection, name) {
            return Ok(None);
        }
    }
    match look_up(headers, name) {
        None => Ok(None),
        Some(value) => match read_header_value(value) {
            Some(text) => Ok(Some(text)),
            None => {
                let start = concat("invalid ", name);
                Err(concat(start.as_str(), " header"))
            },
        },
    }
}

impl AnthropicTransport {
    /// Takes over what of an inbound request goes on to the upstream. The names of the headers are in
    /// lower case.
    pub fn from_inbound(target: &str, headers: &Vec<(String, String)>) -> (out: Result<AnthropicTransport, String>)
        ensures
            match (out, transport_of(target@, pairs_view(headers@))) {
                (Ok(transport), Ok(meant)) => transport@ == meant,
                (Err(e), Err(reason)) => e@ == reason,
                _ => false,
            },
    {
        let beta_query = match read_query(target) {
            Some(query) => has_beta(&parse_form(query.as_str())),
            None => false,
        };
        let anthropic_version = match allowed_header(headers, "anthropic-version") {
            Ok(value) => value,
            Err(e) => {
                return Err(e);
            },
        };
        let anthropic_beta = match allowed_header(headers, "anthropic-beta") {
            Ok(value) => value,
            Err(e) => {
                return Err(e);
            },
        };
        let x_app = match allowed_header(headers, "x-app") {
            Ok(value) => value,
            Err(e) => {
                return Err(e);
            },
        };
        let user_agent = match allowed_header(headers, "user-agent") {
            Ok(value) => value,
            Err(e) => {
                return Err(e);
            },
        };
        Ok(AnthropicTransport { anthropic_version, anthropic_beta, x_app, user_agent, beta_query })
    }
}

/// How requests under a setup show their credential.
pub open spec fn scheme_of(config: ConfigV) -> AuthScheme {
    match config.provider_contract {
        Some(c) => c.auth_scheme,
        None => if config.provider == "relay"@ {
            AuthScheme::AnthropicDual
        } else {
            AuthScheme::AnthropicXApiKey
        },
    }
}

pub fn auth_scheme(cfg: &GatewayConfig) -> (scheme: AuthScheme)
    ensures
        scheme == scheme_of(cfg@),
{
    match &cfg.provider_contract {
        Some(c) => c.auth_scheme,
        None => if same(cfg.provider.as_str(), "relay") {
            AuthScheme::AnthropicDual
        } else {
            AuthScheme::AnthropicXApiKey
        },
    }
}

/// Whether a pair is about the beta.
pub open spec fn names_beta(pairs: Seq<(Seq<char>, Seq<char>)>) -> bool {
    exists|i: int| 0 <= i < pairs.len() && (#[trigger] pairs[i]).0 == "beta"@
}

/// The pairs that are not about the beta.
pub open spec fn without_beta(pairs: Seq<(Seq<char>, Seq<char>)>) -> Seq<(Seq<char>, Seq<char>)>
    decreases pairs.len(),
{
    if pairs.len() == 0 {
        Seq::empty()
    } else if pairs.last().0 == "beta"@ {
        without_beta(pairs.drop_last())
    } else {
        without_beta(pairs.drop_last()).push(pairs.last())
    }
}

pub open spec fn invalid_url() -> ErrorV {
    ErrorV { status: 502, upstream_status: None, detail: "Anthropic upstream URL is invalid"@ }
}

/// The query of the request: what the address has, and one word on the beta where either side asks.
pub open spec fn query_with_beta(pairs: Seq<(Seq<char>, Seq<char>)>, wanted: bool) -> Seq<(Seq<char>, Seq<char>)> {
    if wanted || asks_beta(pairs) {
        without_beta(pairs).push(("beta"@, "true"@))
    } else {
        without_beta(pairs)
    }
}

/// Where messages are sent.
pub open spec fn post_url(config: ConfigV, transport: Option<TransportV>) -> Result<Seq<char>, ErrorV> {
    let url = config.upstream_url;
    match transport {
        None => Ok(url),
        Some(t) => match url_pairs(url) {
            None => Err(invalid_url()),
            Some(pairs) => if !t.beta_query && !names_beta(pairs) {
                Ok(url)
            } else {
                let query = query_with_beta(pairs, t.beta_query);
                let out = if query.len() == 0 {
                    url_without_query(url)
                } else {
                    url_with_pairs(url, query)
                };
                match out {
                    Some(u) => Ok(u),
                    None => Err(invalid_url()),
                }
            },
        },
    }
}

pub open spec fn opt_transport(transport: Option<&AnthropicTransport>) -> Option<TransportV> {
    match transport {
        Some(t) => Some(t@),
        None => None,
    }
}

fn mentions_beta(pairs: &Vec<(String, String)>) -> (yes: bool)
    ensures
        yes == names_beta(pairs_view(pairs@)),
{
    let ghost all = pairs_view(pairs@);
    let mut i: usize = 0;
    while i < pairs.len()
        invariant
            i <= pairs@.len(),
            all == pairs_view(pairs@),
            forall|k: int| 0 <= k < i ==> (#[trigger] all[k]).0 != "beta"@,
        decreases pairs@.len() - i,
    {
        assert(all[i as int] == (pairs@[i as int].0@, pairs@[i as int].1@));
        if same(pairs[i].0.as_str(), "beta") {
            assert(all[i as int].0 == "beta"@);
            return true;
        }
        i = i + 1;
    }
    false
}

proof fn without_beta_is_smaller(pairs: Seq<(Seq<char>, Seq<char>)>)
    ensures
        pairs_size(without_beta(pairs)) <= pairs_size(pairs),
    decreases pairs.len(),
{
    if pairs.len() > 0 {
        without_beta_is_smaller(pairs.drop_last());
        let kept = without_beta(pairs.drop_last());
        if pairs.last().0 != "beta"@ {
            assert(kept.push(pairs.last()).drop_last() =~= kept);
        }
    }
}

proof fn beta_pair_size(pairs: Seq<(Seq<char>, Seq<char>)>)
    ensures
        pairs_size(pairs.push(("beta"@, "true"@))) == pairs_size(pairs) + 10,
{
    reveal_strlit("beta");
    reveal_strlit("true");
    is_ascii_chars_encode_utf8("beta"@);
    is_ascii_chars_encode_utf8("true"@);
    assert(pairs.push(("beta"@, "true"@)).drop_last() =~= pairs);
}

fn rewrite_query(pairs: &Vec<(String, String)>, wanted: bool) -> (out: Vec<(String, String)>)
    ensures
        pairs_view(out@) == query_with_beta(pairs_view(pairs@), wanted),
{
    let ghost all = pairs_view(pairs@);
    let mut out: Vec<(String, String)> = Vec::new();
    assert(pairs_view(out@) =~= Seq::empty());
    let mut i: usize = 0;
    while i < pairs.len()
        invariant
            i <= pairs@.len(),
            all == pairs_view(pairs@),
            pairs_view(out@) == without_beta(all.take(i as int)),
        decreases pairs@.len() - i,
    {
        assert(all.take(i + 1).drop_last() =~= all.take(i as int));
        assert(all[i as int] == (pairs@[i as int].0@, pairs@[i as int].1@));
        if !same(pairs[i].0.as_str(), "beta") {
            let ghost before = pairs_view(out@);
            out.push((pairs[i].0.clone(), pairs[i].1.clone()));
            assert(pairs_view(out@) =~= before.push(all[i as int]));
        }
        i = i + 1;
    }
    assert(all.take(i as int) =~= all);
    if wanted || has_beta(pairs) {
        let ghost before = pairs_view(out@);
        out.push(("beta".to_owned(), "true".to_owned()));
        assert(pairs_view(out@) =~= before.push(("beta"@, "true"@)));
    }
    out
}

fn url_error() -> (e: UpstreamError)
    ensures
        e@ == invalid_url(),
{
    UpstreamError { status: 502, upstream_status: None, detail: "Anthropic upstream URL is invalid".to_owned() }
}

/// Where messages are sent.
pub fn messages_post_url(cfg: &GatewayConfig, transport: Option<&AnthropicTransport>) -> (out: Result<
    String,
    UpstreamError,
>)
    requires
        encode_utf8(cfg@.upstream_url).len() <= MAX_URL_BYTES,
    ensures
        match (out, post_url(cfg@, opt_transport(transport))) {
            (Ok(url), Ok(meant)) => url@ == meant,
            (Err(e), Err(meant)) => e@ == meant,
            _ => false,
        },
{
    let t = match transport {
        Some(t) => t,
        None => {
            return Ok(cfg.upstream_url.clone());
        },
    };
    let pairs = match read_url_pairs(cfg.upstream_url.as_str()) {
        Some(pairs) => pairs,
        None => {
            return Err(url_error());
        },
    };
    if !t.beta_query && !mentions_beta(&pairs) {
        return Ok(cfg.upstream_url.clone());
    }
    let query = rewrite_query(&pairs, t.beta_query);
    proof {
        without_beta_is_smaller(pairs_view(pairs@));
        beta_pair_size(without_beta(pairs_view(pairs@)));
    }
    assert(pairs_view(query@).len() == query@.len());
    let out = if query.len() == 0 {
        clear_query(cfg.upstream_url.as_str())
    } else {
        write_pairs(cfg.upstream_url.as_str(), &query)
    };
    match out {
        Some(url) => Ok(url),
        None => Err(url_error()),
    }
}

pub open spec fn header(name: Seq<char>, value: Seq<char>) -> Seq<(Seq<char>, Seq<char>)> {
    seq![(name, value)]
}

pub open spec fn optional_header(name: Seq<char>, value: Option<Seq<char>>) -> Seq<(Seq<char>, Seq<char>)> {
    match value {
        Some(v) => header(name, v),
        None => Seq::empty(),
    }
}

pub open spec fn key_of(config: ConfigV) -> Seq<char> {
    match config.api_key {
        Some(k) => k,
        None => ""@,
    }
}

/// The headers that show the credential.
pub open spec fn credential_headers(scheme: AuthScheme, key: Seq<char>) -> Seq<(Seq<char>, Seq<char>)> {
    match scheme {
        AuthScheme::Bearer => header("authorization"@, "Bearer "@ + key),
        AuthScheme::AnthropicDual => header("x-api-key"@, key) + header("authorization"@, "Bearer "@ + key),
        AuthScheme::AnthropicXApiKey => header("x-api-key"@, key),
        AuthScheme::CsswitchOauth => Seq::empty(),
    }
}

/// Whether a scheme is one of the Messages API.
pub open spec fn is_anthropic(scheme: AuthScheme) -> bool {
    scheme == AuthScheme::AnthropicDual || scheme == AuthScheme::AnthropicXApiKey
}

/// The version of the API that a request names.
pub open spec fn version_header(scheme: AuthScheme, transport: Option<TransportV>) -> Seq<(Seq<char>, Seq<char>)> {
    match transport {
        Some(t) => match t.anthropic_version {
            Some(version) => header("anthropic-version"@, version),
            None => header("anthropic-version"@, "2023-06-01"@),
        },
        None => if is_anthropic(scheme) {
            header("anthropic-version"@, "2023-06-01"@)
        } else {
            Seq::empty()
        },
    }
}

/// The headers of a request with messages.
pub open spec fn post_headers_of(config: ConfigV, transport: Option<TransportV>) -> Seq<(Seq<char>, Seq<char>)> {
    let agent = match transport {
        Some(t) => match t.user_agent {
            Some(a) => a,
            None => UPSTREAM_UA@,
        },
        None => UPSTREAM_UA@,
    };
    let beta = match transport {
        Some(t) => t.anthropic_beta,
        None => None,
    };
    let x_app = match transport {
        Some(t) => t.x_app,
        None => None,
    };
    header("content-type"@, "application/json"@) + header("user-agent"@, agent) + version_header(
        scheme_of(config),
        transport,
    ) + optional_header("anthropic-beta"@, beta) + optional_header("x-app"@, x_app) + credential_headers(
        scheme_of(config),
        key_of(config),
    )
}

/// The headers of a request for the models.
pub open spec fn get_headers_of(config: ConfigV) -> Seq<(Seq<char>, Seq<char>)> {
    header("user-agent"@, UPSTREAM_UA@) + version_header(scheme_of(config), None) + credential_headers(
        scheme_of(config),
        key_of(config),
    )
}

fn push_header(headers: &mut Vec<(String, String)>, name: &str, value: &str)
    ensures
        pairs_view(final(headers)@) == pairs_view(old(headers)@) + header(name@, value@),
{
    let ghost before = pairs_view(headers@);
    headers.push((name.to_owned(), value.to_owned()));
    assert(pairs_view(headers@) =~= before + header(name@, value@));
}

fn push_optional(headers: &mut Vec<(String, String)>, name: &str, value: Option<&str>)
    ensures
        pairs_view(final(headers)@) == pairs_view(old(headers)@) + optional_header(name@, opt_text(value)),
{
    match value {
        Some(v) => push_header(headers, name, v),
        None => {
            assert(pairs_view(headers@) + Seq::<(Seq<char>, Seq<char>)>::empty() =~= pairs_view(headers@));
        },
    }
}

fn push_credential(headers: &mut Vec<(String, String)>, scheme: AuthScheme, key: &str)
    ensures
        pairs_view(final(headers)@) == pairs_view(old(headers)@) + credential_headers(scheme, key@),
{
    let ghost before = pairs_view(headers@);
    match scheme {
        AuthScheme::Bearer => {
            push_header(headers, "authorization", concat("Bearer ", key).as_str());
        },
        AuthScheme::AnthropicDual => {
            push_header(headers, "x-api-key", key);
            push_header(headers, "authorization", concat("Bearer ", key).as_str());
            assert(pairs_view(headers@) =~= before + credential_headers(scheme, key@));
        },
        AuthScheme::AnthropicXApiKey => {
            push_header(headers, "x-api-key", key);
        },
        AuthScheme::CsswitchOauth => {
            assert(before + credential_headers(scheme, key@) =~= before);
        },
    }
}

fn push_version(headers: &mut Vec<(String, String)>, scheme: AuthScheme, transport: Option<&AnthropicTransport>)
    ensures
        pairs_view(final(headers)@) == pairs_view(old(headers)@) + version_header(scheme, opt_transport(transport)),
{
    let ghost before = pairs_view(headers@);
    match transport {
        Some(t) => match &t.anthropic_version {
            Some(version) => push_header(headers, "anthropic-version", version.as_str()),
            None => push_header(headers, "anthropic-version", "2023-06-01"),
        },
        None => {
            if scheme == AuthScheme::AnthropicDual || scheme == AuthScheme::AnthropicXApiKey {
                push_header(headers, "anthropic-version", "2023-06-01");
            } else {
                assert(before + version_header(scheme, None) =~= before);
            }
        },
    }
}

fn key_text(cfg: &GatewayConfig) -> (key: &str)
    ensures
        key@ == key_of(cfg@),
{
    match &cfg.api_key {
        Some(k) => k.as_str(),
        None => "",
    }
}

fn opt_str(s: &Option<String>) -> (out: Option<&str>)
    ensures
        opt_text(out) == opt_owned(*s),
{
    match s {
        Some(t) => Some(t.as_str()),
        None => None,
    }
}

/// The headers of a request with messages, in order.
pub fn post_headers(cfg: &GatewayConfig, transport: Option<&AnthropicTransport>) -> (headers: Vec<(String, String)>)
    ensures
        pairs_view(headers@) == post_headers_of(cfg@, opt_transport(transport)),
{
    let scheme = auth_scheme(cfg);
    let mut headers: Vec<(String, String)> = Vec::new();
    assert(pairs_view(headers@) =~= Seq::empty());
    push_header(&mut headers, "content-type", "application/json");
    assert(pairs_view(headers@) =~= header("content-type"@, "application/json"@));
    let agent = match transport {
        Some(t) => match &t.user_agent {
            Some(a) => a.as_str(),
            None => UPSTREAM_UA,
        },
        None => UPSTREAM_UA,
    };
    push_header(&mut headers, "user-agent", agent);
    push_version(&mut headers, scheme, transport);
    let beta = match transport {
        Some(t) => opt_str(&t.anthropic_beta),
        None => None,
    };
    push_optional(&mut headers, "anthropic-beta", beta);
    let x_app = match transport {
        Some(t) => opt_str(&t.x_app),
        None => None,
    };
    push_optional(&mut headers, "x-app", x_app);
    push_credential(&mut headers, scheme, key_text(cfg));
    headers
}

/// The headers of a request for the models, in order.
pub fn get_headers(cfg: &GatewayConfig) -> (headers: Vec<(String, String)>)
    ensures
        pairs_view(headers@) == get_headers_of(cfg@),
{
    let scheme = auth_scheme(cfg);
    let mut headers: Vec<(String, String)> = Vec::new();
    assert(pairs_view(headers@) =~= Seq::empty());
    push_header(&mut headers, "user-agent", UPSTREAM_UA);
    assert(pairs_view(headers@) =~= header("user-agent"@, UPSTREAM_UA@));
    push_version(&mut headers, scheme, None);
    push_credential(&mut headers, scheme, key_text(cfg));
    headers
}

/// The words that make the key of an error's JSON sensitive.
pub open spec fn sensitive_words() -> Seq<Seq<char>> {
    seq![
        "authorization"@,
        "api_key"@,
        "apikey"@,
        "access_token"@,
        "refresh_token"@,
        "credential"@,
        "cookie"@,
        "secret"@,
        "path_secret"@,
    ]
}

/// Whether the value of a key is not told.
pub open spec fn is_sensitive(key: Seq<char>) -> bool {
    exists|i: int| 0 <= i < sensitive_words().len() && has_part(lowered(key), #[trigger] sensitive_words()[i])
}

pub fn sensitive_error_key(key: &str) -> (yes: bool)
    ensures
        yes == is_sensitive(key@),
{
    let lower = to_lower(key);
    let mut words: Vec<String> = Vec::new();
    words.push("authorization".to_owned());
    words.push("api_key".to_owned());
    words.push("apikey".to_owned());
    words.push("access_token".to_owned());
    words.push("refresh_token".to_owned());
    words.push("credential".to_owned());
    words.push("cookie".to_owned());
    words.push("secret".to_owned());
    words.push("path_secret".to_owned());
    let ghost all = sensitive_words();
    assert(texts(words@) =~= all);
    let mut i: usize = 0;
    while i < words.len()
        invariant
            i <= words@.len(),
            all == sensitive_words(),
            texts(words@) == all,
            lower@ == lowered(key@),
            forall|k: int| 0 <= k < i ==> !has_part(lowered(key@), #[trigger] all[k]),
        decreases words@.len() - i,
    {
        assert(all[i as int] == words@[i as int]@);
        if contains(lower.as_str(), words[i].as_str()) {
            assert(has_part(lowered(key@), all[i as int]));
            return true;
        }
        i = i + 1;
    }
    assert(all.len() == words@.len());
    false
}

/// Whether a character ends a token.
pub open spec fn ends_token(c: char) -> bool {
    c == ' ' || c == '\t' || c == '\n' || c == '\u{c}' || c == '\r' || c == '"' || c == '\'' || c == ',' || c == '}' || c
        == ']' || c == ';'
}

/// The length of the token at the start of a text.
pub open spec fn token_length(s: Seq<char>) -> int
    decreases s.len(),
{
    if s.len() == 0 || ends_token(s[0]) {
        0
    } else {
        1 + token_length(s.drop_first())
    }
}

/// The first place of a text in another, whatever its case, or the length.
pub open spec fn marker_place(s: Seq<char>, marker: Seq<char>) -> int
    decreases s.len(),
{
    if s.len() == 0 {
        0
    } else if stands_at(lowered(s), marker, 0) {
        0
    } else {
        1 + marker_place(s.drop_first(), marker)
    }
}

pub const REDACTED: &'static str = "[REDACTED]";

/// A text in which what follows a marker, up to the end of its token, is not told.
pub open spec fn redacted_after(s: Seq<char>, marker: Seq<char>) -> Seq<char>
    decreases s.len(),
{
    let at = marker_place(s, marker);
    if marker.len() == 0 || at < 0 || at + marker.len() > s.len() {
        s
    } else {
        let head = s.take(at + marker.len());
        let rest = s.skip(at + marker.len());
        let n = token_length(rest);
        if n <= 0 || n > rest.len() {
            head + redacted_after(rest, marker)
        } else {
            head + REDACTED@ + redacted_after(rest.skip(n), marker)
        }
    }
}

fn stops_token(c: char) -> (yes: bool)
    ensures
        yes == ends_token(c),
{
    c == ' ' || c == '\t' || c == '\n' || c == '\u{c}' || c == '\r' || c == '"' || c == '\'' || c == ',' || c == '}' || c
        == ']' || c == ';'
}

fn token_end(chars: &Vec<char>, from: usize) -> (end: usize)
    requires
        from <= chars@.len(),
    ensures
        from <= end <= chars@.len(),
        end - from == token_length(chars@.skip(from as int)),
{
    let mut end: usize = from;
    while end < chars.len() && !stops_token(chars[end])
        invariant
            from <= end <= chars@.len(),
            token_length(chars@.skip(from as int)) == end - from + token_length(chars@.skip(end as int)),
        decreases chars@.len() - end,
    {
        assert(chars@.skip(end as int).drop_first() =~= chars@.skip(end + 1));
        end = end + 1;
    }
    end
}

fn find_marker(lower: &Vec<char>, marker: &Vec<char>, from: usize, Ghost(s): Ghost<Seq<char>>) -> (at: usize)
    requires
        from <= lower@.len(),
        lower@ == lowered(s),
    ensures
        from <= at <= lower@.len(),
        at - from == marker_place(s.skip(from as int), marker@),
{
    let mut at: usize = from;
    while at < lower.len() && !chars_at(lower, marker, at)
        invariant
            from <= at <= lower@.len(),
            lower@ == lowered(s),
            lower@.len() == s.len(),
            marker_place(s.skip(from as int), marker@) == at - from + marker_place(s.skip(at as int), marker@),
        decreases lower@.len() - at,
    {
        assert(s.skip(at as int).drop_first() =~= s.skip(at + 1));
        assert(lowered(s.skip(at as int)) =~= lower@.skip(at as int));
        assert(stands_at(lower@.skip(at as int), marker@, 0) == stands_at(lower@, marker@, at as int)) by {
            place_shifts(lower@, marker@, at as int);
        }
        at = at + 1;
    }
    proof {
        if at < lower@.len() {
            assert(lowered(s.skip(at as int)) =~= lower@.skip(at as int));
            place_shifts(lower@, marker@, at as int);
        }
    }
    at
}

pub proof fn place_shifts(s: Seq<char>, part: Seq<char>, at: int)
    requires
        0 <= at <= s.len(),
    ensures
        stands_at(s.skip(at), part, 0) == stands_at(s, part, at),
{
    if at + part.len() <= s.len() {
        assert(s.skip(at).subrange(0, part.len() as int) =~= s.subrange(at, at + part.len()));
    }
}

/// Leaves untold what follows a marker, up to the end of its token.
pub fn redact_ascii_token(text: &str, marker: &str) -> (out: String)
    ensures
        out@ == redacted_after(text@, marker@),
{
    let chars = chars_of(text);
    let lower = chars_of(to_lower(text).as_str());
    let wanted = chars_of(marker);
    let n: usize = chars.len();
    let m: usize = wanted.len();
    if m == 0 {
        return text.to_owned();
    }
    let mut out = String::new();
    let mut from: usize = 0;
    assert(text@.skip(0) =~= text@);
    loop
        invariant
            n == chars@.len(),
            m == wanted@.len(),
            m > 0,
            from <= n,
            chars@ == text@,
            wanted@ == marker@,
            lower@ == lowered(text@),
            lower@.len() == n,
            redacted_after(text@, marker@) == out@ + redacted_after(text@.skip(from as int), marker@),
        decreases n - from,
    {
        let ghost rest = text@.skip(from as int);
        let at: usize = find_marker(&lower, &wanted, from, Ghost(text@));
        if at > n || m > n - at {
            let tail = text_of(&chars, from, n);
            assert(tail@ =~= rest);
            out.append(tail.as_str());
            return out;
        }
        let start: usize = at + m;
        let head = text_of(&chars, from, start);
        assert(head@ =~= rest.take(at - from + m));
        let end: usize = token_end(&chars, start);
        assert(rest.skip(at - from + m) =~= text@.skip(start as int));
        let ghost before = out@;
        out.append(head.as_str());
        if end == start {
            assert(out@ + redacted_after(text@.skip(start as int), marker@) =~= before + (head@ + redacted_after(
                text@.skip(start as int),
                marker@,
            )));
            from = start;
        } else {
            out.append(REDACTED);
            assert(text@.skip(start as int).skip(end - start) =~= text@.skip(end as int));
            assert(out@ + redacted_after(text@.skip(end as int), marker@) =~= before + (head@ + REDACTED@
                + redacted_after(text@.skip(end as int), marker@)));
            from = end;
        }
    }
}

/// A text without the credential, and without what looks like one.
pub open spec fn safe_text(s: Seq<char>, api_key: Seq<char>) -> Seq<char> {
    let exact = if api_key.len() == 0 {
        s
    } else {
        replaced(s, api_key, REDACTED@)
    };
    redacted_after(redacted_after(exact, "bearer "@), "sk-"@)
}

fn make_safe(s: &str, api_key: &str) -> (out: String)
    ensures
        out@ == safe_text(s@, api_key@),
{
    let exact = if api_key.is_empty() {
        s.to_owned()
    } else {
        replace(s, api_key, REDACTED)
    };
    let bearer = redact_ascii_token(exact.as_str(), "bearer ");
    redact_ascii_token(bearer.as_str(), "sk-")
}

/// JSON without the credential: every text is made safe, and the value of a sensitive key is not
/// told at all.
pub open spec fn safe_json(tree: JsonV, api_key: Seq<char>) -> JsonV
    decreases tree,
{
    match tree {
        JsonV::Array(items) => JsonV::Array(
            Seq::new(items.len(), |i: int| if 0 <= i < items.len() { safe_json(items[i], api_key) } else { arbitrary() }),
        ),
        JsonV::Object(entries) => JsonV::Object(safe_entries(entries, api_key)),
        JsonV::Str(s) => JsonV::Str(safe_text(s, api_key)),
        _ => tree,
    }
}

pub open spec fn safe_entries(entries: Seq<(Seq<char>, JsonV)>, api_key: Seq<char>) -> Seq<(Seq<char>, JsonV)>
    decreases entries,
{
    if entries.len() == 0 {
        Seq::empty()
    } else {
        let (key, value) = entries.last();
        safe_entries(entries.drop_last(), api_key).push(
            (
                key,
                if is_sensitive(key) {
                    JsonV::Str(REDACTED@)
                } else {
                    safe_json(value, api_key)
                },
            ),
        )
    }
}

/// Makes JSON safe to tell.
pub fn redact_json(value: &Json, api_key: &str) -> (out: Json)
    ensures
        out@ == safe_json(value@, api_key@),
    decreases value,
{
    match value {
        Json::Array(items) => {
            let ghost all = safe_json(value@, api_key@)->Array_0;
            let mut out: Vec<Json> = Vec::new();
            let mut i: usize = 0;
            while i < items.len()
                invariant
                    i <= items@.len(),
                    value == Json::Array(*items),
                    safe_json(value@, api_key@) == JsonV::Array(all),
                    all.len() == items@.len(),
                    list_view(out@) == all.take(i as int),
                decreases items@.len() - i,
            {
                proof {
                    item_is_smaller(*items, i as int);
                }
                out.push(redact_json(&items[i], api_key));
                assert(all[i as int] == safe_json(list_view(items@)[i as int], api_key@));
                assert(all.take(i + 1) =~= all.take(i as int).push(all[i as int]));
                i = i + 1;
            }
            assert(all.take(i as int) =~= all);
            Json::Array(out)
        },
        Json::Object(entries) => {
            let ghost all = entries_view(entries@);
            let mut out: Vec<(String, Json)> = Vec::new();
            assert(entries_view(out@) =~= Seq::empty());
            let mut i: usize = 0;
            while i < entries.len()
                invariant
                    i <= entries@.len(),
                    value == Json::Object(*entries),
                    value@ == JsonV::Object(all),
                    all == entries_view(entries@),
                    entries_view(out@) == safe_entries(all.take(i as int), api_key@),
                decreases entries@.len() - i,
            {
                proof {
                    entry_is_smaller(*entries, i as int);
                }
                assert(all.take(i + 1).drop_last() =~= all.take(i as int));
                assert(all[i as int] == (entries@[i as int].0@, entries@[i as int].1@));
                let safe = if sensitive_error_key(entries[i].0.as_str()) {
                    Json::text(REDACTED)
                } else {
                    redact_json(&entries[i].1, api_key)
                };
                out.push((entries[i].0.clone(), safe));
                i = i + 1;
            }
            assert(all.take(i as int) =~= all);
            Json::Object(out)
        },
        Json::Str(s) => Json::text(make_safe(s.as_str(), api_key).as_str()),
        _ => value.copy(),
    }
}

pub const MAX_ERROR_BODY_BYTES: usize = 16_384;

/// The body of an error as it may be told: bounded, and without the credential.
pub open spec fn safe_body(bytes: Seq<u8>, api_key: Seq<char>) -> Seq<char> {
    let cut = if bytes.len() > MAX_ERROR_BODY_BYTES {
        bytes.take(MAX_ERROR_BODY_BYTES as int)
    } else {
        bytes
    };
    let raw = lossy_text(cut);
    let safe = match json_parse(raw) {
        Some(tree) => rendered(safe_json(tree, api_key)),
        None => safe_text(raw, api_key),
    };
    if bytes.len() > MAX_ERROR_BODY_BYTES {
        safe + "…[truncated]"@
    } else {
        safe
    }
}

/// Makes the body of an error safe to tell.
pub fn redact_error_body(bytes: &Vec<u8>, api_key: &str) -> (out: String)
    ensures
        out@ == safe_body(bytes@, api_key@),
{
    let n: usize = bytes.len();
    let raw = if n > MAX_ERROR_BODY_BYTES {
        let cut = bytes_between(bytes.as_slice(), 0, MAX_ERROR_BODY_BYTES);
        assert(cut@ =~= bytes@.take(MAX_ERROR_BODY_BYTES as int));
        decode_lossy(cut.as_slice())
    } else {
        decode_lossy(bytes.as_slice())
    };
    let mut safe = match Json::parse(raw.as_str()) {
        Some(tree) => redact_json(&tree, api_key).render(),
        None => make_safe(raw.as_str(), api_key),
    };
    if n > MAX_ERROR_BODY_BYTES {
        safe.append("…[truncated]");
    }
    safe
}

/// What reading a body came to.
#[derive(Debug)]
pub enum BodyRead {
    Bytes(Vec<u8>),
    Deadline,
    Fault(String),
}

/// What is told of the body of an error.
pub open spec fn told_body(read: BodyRead, api_key: Seq<char>) -> Seq<char> {
    match read {
        BodyRead::Bytes(bytes) => safe_body(bytes@, api_key),
        BodyRead::Deadline => "upstream error body exceeded the total timeout"@,
        BodyRead::Fault(_) => "upstream error body could not be read"@,
    }
}

/// The failure that an answer of the upstream comes to.
pub open spec fn http_failure(status: u16, body: Seq<char>) -> ErrorV {
    ErrorV {
        status: if 400 <= status && status <= 599 {
            status
        } else {
            502
        },
        upstream_status: Some(status),
        detail: if body.len() == 0 {
            "upstream "@ + decimal(status as nat)
        } else {
            "upstream "@ + decimal(status as nat) + ": "@ + body
        },
    }
}

/// The failure that an answer of the upstream comes to.
pub fn map_http_error(status: u16, read: &BodyRead, api_key: &str) -> (e: UpstreamError)
    ensures
        e@ == http_failure(status, told_body(*read, api_key@)),
{
    let body = match read {
        BodyRead::Bytes(bytes) => redact_error_body(bytes, api_key),
        BodyRead::Deadline => "upstream error body exceeded the total timeout".to_owned(),
        BodyRead::Fault(_) => "upstream error body could not be read".to_owned(),
    };
    let start = concat("upstream ", number_text(status as u64).as_str());
    let detail = if body.as_str().is_empty() {
        start
    } else {
        let middle = concat(start.as_str(), ": ");
        concat(middle.as_str(), body.as_str())
    };
    UpstreamError {
        status: if 400 <= status && status <= 599 {
            status
        } else {
            502
        },
        upstream_status: Some(status),
        detail,
    }
}

/// Whether a status tells of success.
pub fn is_success(status: u16) -> (yes: bool)
    ensures
        yes == (200 <= status < 300),
{
    200 <= status && status < 300
}

/// The answer that a successful response comes to: the body, or the failure to read it.
pub open spec fn body_failure(read: BodyRead, timeout_detail: Seq<char>, upstream_status: Option<u16>) -> Option<ErrorV> {
    match read {
        BodyRead::Bytes(_) => None,
        BodyRead::Deadline => Some(ErrorV { status: 502, upstream_status, detail: timeout_detail }),
        BodyRead::Fault(reason) => Some(
            ErrorV { status: 502, upstream_status, detail: "upstream response body read failed: "@ + reason@ },
        ),
    }
}

fn finish_body(status: u16, content_type: Option<String>, read: BodyRead, timeout_detail: &str, upstream_status: Option<u16>) -> (out:
    Result<UpstreamBody, UpstreamError>)
    ensures
        match (out, body_failure(read, timeout_detail@, upstream_status)) {
            (Ok(answer), None) => {
                &&& answer.status == status
                &&& answer.content_type@ == (match content_type {
                    Some(t) => t@,
                    None => "application/json"@,
                })
                &&& read == BodyRead::Bytes(answer.body)
            },
            (Err(e), Some(meant)) => e@ == meant,
            _ => false,
        },
{
    match read {
        BodyRead::Bytes(body) => Ok(
            UpstreamBody {
                status,
                content_type: match content_type {
                    Some(t) => t,
                    None => "application/json".to_owned(),
                },
                body,
            },
        ),
        BodyRead::Deadline => Err(
            UpstreamError { status: 502, upstream_status, detail: timeout_detail.to_owned() },
        ),
        BodyRead::Fault(reason) => Err(
            UpstreamError {
                status: 502,
                upstream_status,
                detail: concat("upstream response body read failed: ", reason.as_str()),
            },
        ),
    }
}

/// What a response to a request with messages comes to.
pub fn finish_nonstream(status: u16, content_type: Option<String>, read: BodyRead, api_key: &str) -> (out: Result<
    UpstreamBody,
    UpstreamError,
>)
    ensures
        if 200 <= status < 300 {
            match (out, body_failure(read, "upstream response exceeded the total timeout"@, Some(status))) {
                (Ok(answer), None) => {
                    &&& answer.status == status
                    &&& answer.content_type@ == (match content_type {
                        Some(t) => t@,
                        None => "application/json"@,
                    })
                    &&& read == BodyRead::Bytes(answer.body)
                },
                (Err(e), Some(meant)) => e@ == meant,
                _ => false,
            }
        } else {
            out is Err && out->Err_0@ == http_failure(status, told_body(read, api_key@))
        },
{
    if !is_success(status) {
        return Err(map_http_error(status, &read, api_key));
    }
    finish_body(status, content_type, read, "upstream response exceeded the total timeout", Some(status))
}

/// What a response to a request for the models comes to.
pub fn finish_models(status: u16, content_type: Option<String>, read: BodyRead, api_key: &str) -> (out: Result<
    UpstreamBody,
    UpstreamError,
>)
    ensures
        if 200 <= status < 300 {
            match (out, body_failure(read, "upstream models response exceeded the total timeout"@, None)) {
                (Ok(answer), None) => {
                    &&& answer.status == status
                    &&& answer.content_type@ == (match content_type {
                        Some(t) => t@,
                        None => "application/json"@,
                    })
                    &&& read == BodyRead::Bytes(answer.body)
                },
                (Err(e), Some(meant)) => e@ == meant,
                _ => false,
            }
        } else {
            out is Err && out->Err_0@ == http_failure(status, told_body(read, api_key@))
        },
{
    if !is_success(status) {
        return Err(map_http_error(status, &read, api_key));
    }
    finish_body(status, content_type, read, "upstream models response exceeded the total timeout", None)
}

/// The most bytes of an error's body that are read: one more than are told.
pub fn error_read_limit() -> (limit: u64)
    ensures
        limit == MAX_ERROR_BODY_BYTES + 1,
{
    MAX_ERROR_BODY_BYTES as u64 + 1
}

/// Whether a content type is that of an event stream.
pub open spec fn is_event_stream(content_type: Seq<char>) -> bool {
    lowered(trimmed(content_type.take(place_of(content_type, ';')))) == "text/event-stream"@
}

/// Whether a response opens a stream, or the failure that it comes to.
pub fn check_stream(status: u16, content_type: Option<&str>) -> (failure: Option<UpstreamError>)
    ensures
        match failure {
            None => is_event_stream(
                match content_type {
                    Some(t) => t@,
                    None => ""@,
                },
            ),
            Some(e) => {
                &&& !is_event_stream(
                    match content_type {
                        Some(t) => t@,
                        None => ""@,
                    },
                )
                &&& e@ == (ErrorV {
                    status: 502,
                    upstream_status: Some(status),
                    detail: "upstream 200 returned a non-SSE Content-Type"@,
                })
            },
        },
{
    let given = match content_type {
        Some(t) => t,
        None => "",
    };
    let chars = chars_of(given);
    assert(chars@.skip(0) =~= given@);
    let end: usize = find_char(&chars, 0, ';');
    let first = text_of(&chars, 0, end);
    assert(first@ =~= given@.take(end as int));
    let kind = to_lower(trim(first.as_str()).as_str());
    if same(kind.as_str(), "text/event-stream") {
        None
    } else {
        Some(
            UpstreamError {
                status: 502,
                upstream_status: Some(status),
                detail: "upstream 200 returned a non-SSE Content-Type".to_owned(),
            },
        )
    }
}

/// How often a list of models is asked for.
pub const MODELS_ATTEMPTS: usize = 3;

/// What to do after an attempt: its outcome stands, or another follows after a while.
#[derive(Debug)]
pub enum RetryStep {
    Done(Result<UpstreamBody, UpstreamError>),
    Retry { delay_ms: u64 },
}

/// Decides after an attempt to list the models, counted from one. An answer stands, good or bad; a
/// failure to get one is tried again, after longer and longer.
pub fn after_attempt(attempt: usize, outcome: Result<UpstreamBody, UpstreamError>) -> (step: RetryStep)
    requires
        1 <= attempt <= MODELS_ATTEMPTS,
    ensures
        match step {
            RetryStep::Done(result) => {
                &&& result == outcome
                &&& outcome matches Err(e) ==> e.upstream_status is Some || attempt == MODELS_ATTEMPTS
            },
            RetryStep::Retry { delay_ms } => {
                &&& outcome matches Err(e)
                &&& e.upstream_status is None
                &&& attempt < MODELS_ATTEMPTS
                &&& delay_ms == 800 * attempt
            },
        },
{
    let again = match &outcome {
        Ok(_) => false,
        Err(e) => e.upstream_status.is_none() && attempt < MODELS_ATTEMPTS,
    };
    if again {
        RetryStep::Retry { delay_ms: 800 * attempt as u64 }
    } else {
        RetryStep::Done(outcome)
    }
}

} // verus!
