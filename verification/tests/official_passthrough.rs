use csswitch_gateway::json::Json;
use csswitch_gateway::official_passthrough::{
    body_plan, build_log_line, chunk_step, expects_continue, is_stream, parse_args, plan_forward, read_chunked_body,
    read_crlf_line, read_request_body, read_request_head, redact_target, refuse, response_head, should_strip_request_header,
    should_strip_response_header, BodyPlan, ChunkStep, LineStep, LogEntry, Stage, DEFAULT_UPSTREAM, MAX_BODY_BYTES,
};
use csswitch_gateway::wire::{head_step, parse_head, HeadStep, RequestHead};

fn header(name: &str, value: &str) -> (String, String) {
    (name.to_string(), value.to_string())
}

fn head(method: &str, target: &str, headers: Vec<(String, String)>) -> RequestHead {
    RequestHead { method: method.to_string(), target: target.to_string(), headers }
}

#[test]
fn head_parser_preserves_order_and_duplicates() {
    let raw = b"POST /v1/messages?beta=true HTTP/1.1\r\nHost: x\r\nX-A: 1\r\nAuthorization: Bearer t\r\nX-A: 2\r\n\r\n";
    let (head, end) = read_request_head(&raw.to_vec()).unwrap();
    assert_eq!(head.method, "POST");
    assert_eq!(head.target, "/v1/messages?beta=true");
    let xa: Vec<&str> = head
        .headers
        .iter()
        .filter(|(n, _)| n == "x-a")
        .map(|(_, v)| v.as_str())
        .collect();
    assert_eq!(xa, vec!["1", "2"]);
    assert_eq!(end, raw.len());
}

#[test]
fn request_strip_keeps_auth_but_drops_hop_by_hop() {
    assert!(!should_strip_request_header("authorization"));
    assert!(!should_strip_request_header("x-api-key"));
    assert!(!should_strip_request_header("anthropic-beta"));
    assert!(should_strip_request_header("host"));
    assert!(should_strip_request_header("connection"));
    assert!(should_strip_request_header("content-length"));
    assert!(should_strip_request_header("transfer-encoding"));
}

#[test]
fn response_strip_keeps_content_headers() {
    assert!(!should_strip_response_header("content-length"));
    assert!(!should_strip_response_header("content-encoding"));
    assert!(!should_strip_response_header("content-type"));
    assert!(should_strip_response_header("transfer-encoding"));
    assert!(should_strip_response_header("connection"));
}

#[test]
fn chunked_body_decodes_with_trailer() {
    let raw = b"4\r\nWiki\r\n5\r\npedia\r\n0\r\nx-trailer: v\r\n\r\n";
    let (body, end) = read_chunked_body(&raw.to_vec(), 0).unwrap();
    assert_eq!(body, b"Wikipedia");
    assert_eq!(end, raw.len());
}

#[test]
fn content_length_body_reads_exact() {
    let headers = vec![("content-length".to_string(), "5".to_string())];
    let (body, _) = read_request_body(&b"hello".to_vec(), 0, &headers).unwrap();
    assert_eq!(body, b"hello");
}

#[test]
fn log_line_redacts_sensitive_query_and_carries_no_headers() {
    let line = build_log_line(&LogEntry {
        ts_ms: 1,
        method: "GET",
        target: "/v1/models?key=abc123&beta=true",
        status: 401,
        elapsed_ms: 42,
        sse: false,
        req_bytes: 0,
        resp_bytes: 17,
        note: None,
    });
    let parsed = Json::parse(&line).unwrap();
    assert_eq!(parsed.str_at("path"), Some("/v1/models?key=<redacted>&beta=true"));
    assert_eq!(parsed.u64_at("status"), Some(401));
    assert!(!line.contains("abc123"));
    assert!(!line.to_ascii_lowercase().contains("authorization"));
    assert_eq!(
        line,
        r#"{"ts_ms":1,"method":"GET","path":"/v1/models?key=<redacted>&beta=true","status":401,"ms":42,"sse":false,"req_bytes":0,"resp_bytes":17,"note":null}"#
    );
}

#[test]
fn parse_args_requires_port_and_log() {
    assert!(parse_args(&vec![]).is_err());
    let opts = parse_args(&vec!["--port".into(), "8791".into(), "--log".into(), "/tmp/x.jsonl".into()])
        .ok()
        .unwrap();
    assert_eq!(opts.port, 8791);
    assert_eq!(opts.upstream, DEFAULT_UPSTREAM);
}

fn refused(list: &[&str]) -> String {
    parse_args(&list.iter().map(|arg| arg.to_string()).collect()).err().unwrap()
}

#[test]
fn every_faulty_argument_is_named() {
    assert_eq!(refused(&["--port"]), "--port 缺少值");
    assert_eq!(refused(&["--log"]), "--log 缺少值");
    assert_eq!(refused(&["--upstream"]), "--upstream 缺少值");
    assert_eq!(refused(&["--port", "x"]), "非法端口:x");
    assert_eq!(refused(&["--quiet"]), "未知参数:--quiet");
    assert_eq!(refused(&["--log", "l"]), "必须提供 --port");
    assert_eq!(refused(&["--port", "1"]), "必须提供 --log(脱敏端点日志文件)");
    let opts = parse_args(&vec![
        "--upstream".into(),
        "https://a.test//".into(),
        "--port".into(),
        "1".into(),
        "--log".into(),
        "l".into(),
    ])
    .ok()
    .unwrap();
    assert_eq!(opts.upstream, "https://a.test");
}

#[test]
fn heads_are_refused_for_their_faults() {
    let read = |raw: &[u8]| read_request_head(&raw.to_vec()).err().unwrap();
    assert_eq!(read(b""), "请求头为空或被截断");
    assert_eq!(read(b"GET / HTTP/1.1\r\nhost: x\r\n"), "请求头为空或被截断");
    assert_eq!(read(b"\r\n\r\n"), "缺少方法");
    assert_eq!(read(b"GET\r\n\r\n"), "缺少请求目标");
    assert_eq!(read("GET / HTTP/1.1\r\n密钥\r\n\r\n".as_bytes()), "非法头行(6 字节)");
    assert_eq!(read(b"GET /\xff HTTP/1.1\r\n\r\n"), "请求头不是合法 UTF-8");
    let mut long = b"GET / HTTP/1.1\r\nx: ".to_vec();
    long.resize(70_000, b'a');
    assert_eq!(read(&long), "请求头超过上限");
}

#[test]
fn heads_complete_at_the_first_blank_line() {
    let raw = b"GET / HTTP/1.1\r\na: 1\r\n\r\nbody\r\n\r\n".to_vec();
    let end = raw.len() - 8;
    for n in 0..end {
        assert!(matches!(head_step(&raw[..n].to_vec()), HeadStep::More));
    }
    assert!(matches!(head_step(&raw[..end].to_vec()), HeadStep::Complete));
    assert_eq!(read_request_head(&raw).unwrap().1, end);
    assert!(matches!(head_step(&vec![0; 65_537]), HeadStep::TooLong));
}

#[test]
fn lenient_heads_pass_over_lines_without_a_colon() {
    let raw = b"GET / HTTP/1.1\r\nbroken\r\n A : b : c \r\n\r\n".to_vec();
    assert!(parse_head(raw.clone(), true).is_err());
    let head = parse_head(raw, false).ok().unwrap();
    assert_eq!(head.headers, vec![header("a", "b : c")]);
}

#[test]
fn chunked_bodies_are_refused_for_their_faults() {
    let read = |raw: &[u8]| read_chunked_body(&raw.to_vec(), 0).err().unwrap();
    assert_eq!(read(b"4\r\nWi"), "failed to fill whole buffer");
    assert_eq!(read(b"4\r\nWiki"), "chunked 编码被截断");
    assert_eq!(read(b"4\r\nWikipedia\r\n"), "chunk 终止符缺失");
    assert_eq!(read(b"4"), "chunked 编码被截断");
    assert_eq!(read(b"\r\n"), "非法 chunk 长度");
    assert_eq!(read(b"g\r\n"), "非法 chunk 长度");
    assert_eq!(read(b"fffffffffffffffff\r\n"), "非法 chunk 长度");
    assert_eq!(read(b"4000001\r\n"), "chunked 请求体超过上限");
    assert_eq!(read(b"\xff\r\n"), "chunk 元数据不是合法 UTF-8");
    assert_eq!(read(&[b'0'; 9000]), "chunk 元数据行过长");
    let (body, end) = read_chunked_body(&b"  +A ;x=y\r\n0123456789\r\n00\n\n".to_vec(), 0).unwrap();
    assert_eq!(body, b"0123456789");
    assert_eq!(end, 27);
}

#[test]
fn lines_end_at_line_feeds() {
    let bytes = b"ab\r\ncd\n".to_vec();
    assert!(matches!(read_crlf_line(&bytes, 0), LineStep::Line(text, 4) if text == "ab"));
    assert!(matches!(read_crlf_line(&bytes, 4), LineStep::Line(text, 7) if text == "cd"));
    assert!(matches!(read_crlf_line(&bytes, 7), LineStep::More));
    let mut long = vec![b'x'; 8192];
    long.push(b'\n');
    assert!(matches!(read_crlf_line(&long, 0), LineStep::Line(_, 8193)));
    long.insert(0, b'x');
    assert!(matches!(read_crlf_line(&long, 0), LineStep::Long));
}

#[test]
fn chunks_are_the_same_as_bytes_come_one_by_one() {
    let raw = b"4\r\nWiki\r\n5\r\npedia\r\n0\r\nt: v\r\n\r\nrest".to_vec();
    let mut bytes = Vec::new();
    let mut body = Vec::new();
    let mut at = 0;
    let mut next = raw.iter();
    loop {
        match chunk_step(&bytes, at, body.len()) {
            ChunkStep::More { want, .. } => {
                while bytes.len() < want {
                    bytes.push(*next.next().unwrap());
                }
            }
            ChunkStep::Data { from, to, next } => {
                body.extend_from_slice(&bytes[from..to]);
                at = next;
            }
            ChunkStep::Last(end) => {
                at = end;
                break;
            }
            ChunkStep::Fault(message) => panic!("{message}"),
        }
    }
    assert_eq!(body, b"Wikipedia");
    assert_eq!(&raw[at..], b"rest");
    assert_eq!(read_chunked_body(&raw, 0).unwrap(), (body, at));
}

#[test]
fn bodies_are_framed_as_the_headers_say() {
    assert_eq!(body_plan(&vec![]).unwrap(), BodyPlan::Exact(0));
    assert_eq!(body_plan(&vec![header("transfer-encoding", "gzip, Chunked")]).unwrap(), BodyPlan::Chunked);
    assert_eq!(body_plan(&vec![header("content-length", "+7"), header("content-length", "9")]).unwrap(), BodyPlan::Exact(7));
    assert_eq!(body_plan(&vec![header("content-length", "7x")]).unwrap_err(), "非法 Content-Length");
    assert_eq!(
        body_plan(&vec![header("content-length", "67108865")]).unwrap_err(),
        "请求体超过上限:67108865 字节"
    );
    assert_eq!(body_plan(&vec![header("content-length", "67108864")]).unwrap(), BodyPlan::Exact(MAX_BODY_BYTES));
    let short = vec![header("content-length", "6")];
    assert_eq!(read_request_body(&b"hello".to_vec(), 0, &short).unwrap_err(), "failed to fill whole buffer");
}

#[test]
fn clients_that_wait_for_leave_are_told_apart() {
    assert!(expects_continue(&vec![header("expect", "100-Continue")]));
    assert!(!expects_continue(&vec![header("expect", "200-ok")]));
    assert!(!expects_continue(&vec![]));
}

#[test]
fn requests_go_on_unchanged_but_for_their_hops() {
    let headers = vec![header("host", "x"), header("authorization", "Bearer t"), header("x-a", "1"), header("x-a", "2")];
    let forward = plan_forward(&head("POST", "/v1/messages?beta=true", headers), "https://api.test").ok().unwrap();
    assert_eq!(forward.url, "https://api.test/v1/messages?beta=true");
    assert_eq!(forward.headers, vec![header("authorization", "Bearer t"), header("x-a", "1"), header("x-a", "2")]);
    let refused = plan_forward(&head("GET", "http://x/", vec![]), "https://api.test").err().unwrap();
    assert_eq!(refused, "仅支持 origin-form 请求目标");
    for method in ["G(T", "GÉT"] {
        let refused = plan_forward(&head(method, "/", vec![]), "https://api.test").err().unwrap();
        assert_eq!(refused, "非法 HTTP 方法");
    }
    assert!(plan_forward(&head("M-SEARCH", "/", vec![]), "").is_ok());
}

#[test]
fn refusals_tell_their_stage() {
    let head = refuse(Stage::Head, "x");
    assert_eq!((head.status, head.message.as_str(), head.note), (400, "passthrough: x", None));
    let body = refuse(Stage::Body, "x");
    assert_eq!((body.status, body.note), (400, Some("bad_request_body")));
    let target = refuse(Stage::Target, "x");
    assert_eq!((target.status, target.note), (400, None));
    let upstream = refuse(Stage::Upstream, "x");
    assert_eq!((upstream.status, upstream.note), (502, Some("upstream_error")));
    assert_eq!(
        upstream.response(),
        "HTTP/1.1 502 Bad Gateway\r\ncontent-type: text/plain; charset=utf-8\r\ncontent-length: 29\r\nconnection: close\r\n\r\npassthrough upstream error: x"
    );
    assert!(refuse(Stage::Head, "头").response().contains("400 Bad Request"));
    assert!(refuse(Stage::Head, "头").response().contains("content-length: 16\r\n"));
}

#[test]
fn responses_keep_their_headers_as_bytes() {
    let headers = vec![
        ("content-type".to_string(), b"text/event-stream".to_vec()),
        ("connection".to_string(), b"keep-alive".to_vec()),
        ("x-raw".to_string(), vec![0xff]),
    ];
    let out = response_head(200, "OK", &headers);
    assert_eq!(out, b"HTTP/1.1 200 OK\r\ncontent-type: text/event-stream\r\nx-raw: \xff\r\nconnection: close\r\n\r\n");
    assert!(is_stream(Some("text/event-stream; charset=utf-8")));
    assert!(!is_stream(Some("application/json")));
    assert!(!is_stream(None));
}

#[test]
fn targets_are_told_without_secrets() {
    assert_eq!(redact_target("/v1/models"), "/v1/models");
    assert_eq!(redact_target("/a?x&Api_Key=1=2&q=?"), "/a?x&Api_Key=<redacted>&q=?");
    assert_eq!(redact_target("/a?design=1"), "/a?design=<redacted>");
    assert_eq!(redact_target("/a?"), "/a?");
}
