use csswitch_gateway::json::Json;
use csswitch_gateway::kimi_search_noise::{strip_nonstream_noise, SearchNoiseFilter};
use csswitch_gateway::sse::{event_and_data, render_sse, split_frame};

fn j(text: &str) -> Json {
    Json::parse(text).unwrap()
}

#[allow(dead_code)]
trait Piece {
    fn piece(&self) -> String;
}

impl Piece for Json {
    fn piece(&self) -> String {
        self.render()
    }
}

impl Piece for str {
    fn piece(&self) -> String {
        Json::text(self).render()
    }
}

impl Piece for String {
    fn piece(&self) -> String {
        Json::text(self).render()
    }
}

impl Piece for u64 {
    fn piece(&self) -> String {
        self.to_string()
    }
}

impl Piece for usize {
    fn piece(&self) -> String {
        self.to_string()
    }
}

impl<T: Piece + ?Sized> Piece for &T {
    fn piece(&self) -> String {
        (**self).piece()
    }
}

impl<T: Piece> Piece for Vec<T> {
    fn piece(&self) -> String {
        let items: Vec<String> = self.iter().map(|item| item.piece()).collect();
        format!("[{}]", items.join(","))
    }
}

#[allow(dead_code)]
fn piece<T: Piece + ?Sized>(value: &T) -> String {
    value.piece()
}

#[allow(dead_code)]
fn at<'a>(value: &'a Json, path: &[&str]) -> &'a Json {
    let mut here = value;
    for step in path {
        let next = match here {
            Json::Array(items) => step.parse::<usize>().ok().and_then(|index| items.get(index)),
            other => other.get(step),
        };
        here = match next {
            Some(found) => found,
            None => return Box::leak(Box::new(Json::Null)),
        };
    }
    here
}

#[allow(dead_code)]
fn at_mut<'a>(value: &'a mut Json, path: &[&str]) -> &'a mut Json {
    let mut here = value;
    for step in path {
        here = match here {
            Json::Array(items) => &mut items[step.parse::<usize>().unwrap()],
            Json::Object(entries) => {
                let place = entries.iter().position(|entry| entry.0 == *step);
                let index = place.unwrap_or_else(|| {
                    entries.push((step.to_string(), Json::Null));
                    entries.len() - 1
                });
                &mut entries[index].1
            }
            _ => panic!("no value at {step}"),
        };
    }
    here
}


fn sse(frames: &[Json]) -> Vec<u8> {
    let mut out = Vec::new();
    for frame in frames {
        let event = frame.get("type").and_then(Json::as_str).unwrap();
        out.extend_from_slice(&render_sse(Some(event), frame));
    }
    out
}

/// 模拟规范客户端:从 start 取壳、仅靠 delta 累积,还原 content 数组。
fn reconstruct(bytes: &[u8]) -> (Vec<Json>, Option<String>) {
    let mut blocks: Vec<(u64, Json, String)> = Vec::new();
    let mut stop_reason = None;
    let mut buf = bytes.to_vec();
    while let Some((frame, _sep, rest)) = split_frame(&buf) {
        let (_event, data) = event_and_data(&frame);
        buf = rest;
        let Some(obj) = Json::parse(&data) else {
            continue;
        };
        match obj.get("type").and_then(Json::as_str) {
            Some("content_block_start") => {
                let index = at(&obj, &["index"]).as_u64().unwrap();
                assert_eq!(index as usize, blocks.len(), "content block indexes must stay contiguous");
                let mut shell = at(&obj, &["content_block"]).clone();
                let seed = shell
                    .get("text")
                    .and_then(Json::as_str)
                    .unwrap_or("")
                    .to_string();
                if shell.get("text").is_some() {
                    *at_mut(&mut shell, &["text"]) = Json::Str(String::new());
                }
                blocks.push((index, shell, seed));
            }
            Some("content_block_delta") => {
                let index = at(&obj, &["index"]).as_u64().unwrap();
                let entry = blocks
                    .iter_mut()
                    .find(|(i, _, _)| *i == index)
                    .expect("delta must target an open block");
                if let Some(text) = at(&obj, &["delta"]).get("text").and_then(Json::as_str) {
                    entry.2.push_str(text);
                }
            }
            Some("message_delta") => {
                if let Some(reason) = at(&obj, &["delta"]).get("stop_reason").and_then(Json::as_str) {
                    stop_reason = Some(reason.to_string());
                }
            }
            _ => {}
        }
    }
    let content = blocks
        .into_iter()
        .map(|(_, mut shell, text)| {
            if shell.get("text").is_some() {
                *at_mut(&mut shell, &["text"]) = Json::Str(text);
            }
            shell
        })
        .collect();
    (content, stop_reason)
}

fn probe_1b_shape() -> Vec<Json> {
    vec![
        j(r#"{"type": "message_start", "message": {"id": "msg_1", "type": "message", "role": "assistant", "content": [], "model": "k3", "stop_reason": null, "usage": {"input_tokens": 1, "output_tokens": 0}}}"#),
        j(r#"{"type": "content_block_start", "index": 0, "content_block": {"type": "text", "text": ""}}"#),
        j(r#"{"type": "content_block_delta", "index": 0, "delta": {"type": "text_delta", "text": "Search results for query: Rust latest stable"}}"#),
        j(r#"{"type": "content_block_stop", "index": 0}"#),
        j(r#"{"type": "content_block_start", "index": 1, "content_block": {"type": "server_tool_use", "id": "tool_abc", "name": "web_search"}}"#),
        j(r#"{"type": "content_block_delta", "index": 1, "delta": {"type": "input_json_delta", "partial_json": "{\"query\":\"Rust latest stable\"}"}}"#),
        j(r#"{"type": "content_block_stop", "index": 1}"#),
        j(r#"{"type": "content_block_start", "index": 2, "content_block": {"type": "web_search_tool_result", "tool_use_id": "srvtoolu_x", "content": [{"type": "web_search_result", "url": "https://example.test", "title": "t"}]}}"#),
        j(r#"{"type": "content_block_stop", "index": 2}"#),
        j(r#"{"type": "content_block_start", "index": 3, "content_block": {"type": "thinking", "thinking": "", "signature": ""}}"#),
        j(r#"{"type": "content_block_delta", "index": 3, "delta": {"type": "thinking_delta", "thinking": "…"}}"#),
        j(r#"{"type": "content_block_stop", "index": 3}"#),
        j(r#"{"type": "content_block_start", "index": 4, "content_block": {"type": "text", "text": ""}}"#),
        j(r#"{"type": "content_block_delta", "index": 4, "delta": {"type": "text_delta", "text": "真正的回答"}}"#),
        j(r#"{"type": "content_block_stop", "index": 4}"#),
        j(r#"{"type": "message_delta", "delta": {"stop_reason": "end_turn"}, "usage": {"output_tokens": 9}}"#),
        j(r#"{"type": "message_stop"}"#),
    ]
}

/// 真实幻影对形态(探测 7 / 真实会话第 2 轮原始 SSE):
/// 无 id 的 server_tool_use + 空内容的 web_search_tool_result。
fn phantom_pair_shape() -> Vec<Json> {
    vec![
        j(r#"{"type": "content_block_start", "index": 0, "content_block": {"type": "server_tool_use", "name": "web_search"}}"#),
        j(r#"{"type": "content_block_stop", "index": 0}"#),
        j(r#"{"type": "content_block_start", "index": 1, "content_block": {"type": "web_search_tool_result", "content": []}}"#),
        j(r#"{"type": "content_block_stop", "index": 1}"#),
        j(r#"{"type": "content_block_start", "index": 2, "content_block": {"type": "thinking", "thinking": "", "signature": ""}}"#),
        j(r#"{"type": "content_block_delta", "index": 2, "delta": {"type": "thinking_delta", "thinking": "…"}}"#),
        j(r#"{"type": "content_block_stop", "index": 2}"#),
        j(r#"{"type": "content_block_start", "index": 3, "content_block": {"type": "text", "text": ""}}"#),
        j(r#"{"type": "content_block_delta", "index": 3, "delta": {"type": "text_delta", "text": "直接回答"}}"#),
        j(r#"{"type": "content_block_stop", "index": 3}"#),
        j(r#"{"type": "message_delta", "delta": {"stop_reason": "end_turn"}}"#),
        j(r#"{"type": "message_stop"}"#),
    ]
}

#[test]
fn strips_the_leading_noise_header_and_compacts_indexes() {
    let mut filter = SearchNoiseFilter::new();
    let mut out = filter.feed(&sse(&probe_1b_shape())).unwrap();
    out.extend_from_slice(&filter.finalize().unwrap());
    let (content, stop) = reconstruct(&out);
    assert_eq!(stop.as_deref(), Some("end_turn"));
    let kinds: Vec<&str> = content
        .iter()
        .map(|block| at(&block, &["type"]).as_str().unwrap())
        .collect();
    assert_eq!(kinds, [
            "server_tool_use",
            "web_search_tool_result",
            "thinking",
            "text"
        ]);
    assert_eq!(at(&content[3], &["text"]).as_str(), Some("真正的回答"));
    // 探测 1b 的真实形态两半键恒不匹配(tool_… vs srvtoolu_…),
    // 采钥后必须以 result 侧的键配成一对,Science 才能落盘保住查询词。
    assert_eq!(at(&content[0], &["id"]).as_str(), Some("srvtoolu_x"));
    assert_eq!(at(&content[1], &["tool_use_id"]).as_str(), Some("srvtoolu_x"));
    assert_eq!(filter.stats().noise_blocks, 1);
    assert_eq!(filter.stats().pair_blocks, 0);
    assert_eq!(filter.stats().adopted_pairs, 1);
    assert!(filter.stats().bytes > 0);
}

#[test]
fn strips_the_dangling_trailing_noise_header() {
    // 探测 4(K2.7)形态:结尾悬挂噪声头,没有答案文本。
    // 搜索对用已配对的键,让本测试只盯噪声头剥离。
    let frames = vec![
        j(r#"{"type": "content_block_start", "index": 0, "content_block": {"type": "text", "text": ""}}"#),
        j(r#"{"type": "content_block_delta", "index": 0, "delta": {"type": "text_delta", "text": "Search results for query: q1"}}"#),
        j(r#"{"type": "content_block_stop", "index": 0}"#),
        j(r#"{"type": "content_block_start", "index": 1, "content_block": {"type": "server_tool_use", "id": "srvtoolu_a", "name": "web_search"}}"#),
        j(r#"{"type": "content_block_stop", "index": 1}"#),
        j(r#"{"type": "content_block_start", "index": 2, "content_block": {"type": "web_search_tool_result", "tool_use_id": "srvtoolu_a", "content": [{"type": "web_search_result", "url": "https://example.test", "title": "t"}]}}"#),
        j(r#"{"type": "content_block_stop", "index": 2}"#),
        j(r#"{"type": "content_block_start", "index": 3, "content_block": {"type": "text", "text": ""}}"#),
        j(r#"{"type": "content_block_delta", "index": 3, "delta": {"type": "text_delta", "text": "Search results for query: q2 下一轮"}}"#),
        j(r#"{"type": "content_block_stop", "index": 3}"#),
        j(r#"{"type": "message_delta", "delta": {"stop_reason": "end_turn"}}"#),
        j(r#"{"type": "message_stop"}"#),
    ];
    let mut filter = SearchNoiseFilter::new();
    let mut out = filter.feed(&sse(&frames)).unwrap();
    out.extend_from_slice(&filter.finalize().unwrap());
    let (content, _) = reconstruct(&out);
    let kinds: Vec<&str> = content
        .iter()
        .map(|block| at(&block, &["type"]).as_str().unwrap())
        .collect();
    assert_eq!(kinds, ["server_tool_use", "web_search_tool_result"]);
    assert_eq!(filter.stats().noise_blocks, 2);
}

#[test]
fn strips_the_phantom_empty_search_pair() {
    let mut filter = SearchNoiseFilter::new();
    let mut out = filter.feed(&sse(&phantom_pair_shape())).unwrap();
    out.extend_from_slice(&filter.finalize().unwrap());
    let (content, stop) = reconstruct(&out);
    assert_eq!(stop.as_deref(), Some("end_turn"));
    let kinds: Vec<&str> = content
        .iter()
        .map(|block| at(&block, &["type"]).as_str().unwrap())
        .collect();
    assert_eq!(kinds, ["thinking", "text"]);
    assert_eq!(at(&content[1], &["text"]).as_str(), Some("直接回答"));
    assert_eq!(filter.stats().pair_blocks, 2);
    assert_eq!(filter.stats().noise_blocks, 0);
}

#[test]
fn keeps_a_matched_zero_result_search_byte_identical() {
    // 已配对(id == tool_use_id)的真实零结果搜索:零命中,字节级原样。
    let frames = vec![
        j(r#"{"type": "content_block_start", "index": 0, "content_block": {"type": "server_tool_use", "id": "srvtoolu_same", "name": "web_search"}}"#),
        j(r#"{"type": "content_block_delta", "index": 0, "delta": {"type": "input_json_delta", "partial_json": "{\"query\":\"nothing\"}"}}"#),
        j(r#"{"type": "content_block_stop", "index": 0}"#),
        j(r#"{"type": "content_block_start", "index": 1, "content_block": {"type": "web_search_tool_result", "tool_use_id": "srvtoolu_same", "content": []}}"#),
        j(r#"{"type": "content_block_stop", "index": 1}"#),
        j(r#"{"type": "message_stop"}"#),
    ];
    let input = sse(&frames);
    let mut filter = SearchNoiseFilter::new();
    let mut out = filter.feed(&input).unwrap();
    out.extend_from_slice(&filter.finalize().unwrap());
    assert_eq!(out, input, "matched pairs must pass byte identical");
    assert_eq!(filter.stats().total_blocks(), 0);
    assert_eq!(filter.stats().adopted_pairs, 0);
    assert_eq!(filter.stats().unkeyed_pairs, 0);
}

#[test]
fn stream_adoption_rewrites_an_idless_use_to_the_result_key() {
    // D5 采钥主路径:use 半无 id,result 半带 srvtoolu 键。
    // 期望输出可精确构造:preserve_order 下新插入的 id 追加在
    // content_block 末尾,其余帧字节不变、索引不变。
    let input_frames = vec![
        j(r#"{"type": "content_block_start", "index": 0, "content_block": {"type": "server_tool_use", "name": "web_search"}}"#),
        j(r#"{"type": "content_block_delta", "index": 0, "delta": {"type": "input_json_delta", "partial_json": "{\"query\":\"rust\"}"}}"#),
        j(r#"{"type": "content_block_stop", "index": 0}"#),
        j(r#"{"type": "content_block_start", "index": 1, "content_block": {"type": "web_search_tool_result", "tool_use_id": "srvtoolu_k", "content": [{"type": "web_search_result", "url": "https://example.test", "title": "t"}]}}"#),
        j(r#"{"type": "content_block_stop", "index": 1}"#),
        j(r#"{"type": "message_delta", "delta": {"stop_reason": "end_turn"}}"#),
        j(r#"{"type": "message_stop"}"#),
    ];
    let mut expected_frames = input_frames.clone();
    expected_frames[0] = j(r#"{"type": "content_block_start", "index": 0, "content_block": {"type": "server_tool_use", "name": "web_search", "id": "srvtoolu_k"}}"#);
    let mut filter = SearchNoiseFilter::new();
    let mut out = filter.feed(&sse(&input_frames)).unwrap();
    out.extend_from_slice(&filter.finalize().unwrap());
    assert_eq!(out, sse(&expected_frames));
    assert_eq!(filter.stats().adopted_pairs, 1);
    assert_eq!(filter.stats().unkeyed_pairs, 0);
    assert_eq!(filter.stats().total_blocks(), 0);
}

#[test]
fn stream_adoption_backfills_a_keyless_result_from_the_use_id() {
    // 反向采钥:use 有键、result 无键 → result 补上 use 侧的键。
    let input_frames = vec![
        j(r#"{"type": "content_block_start", "index": 0, "content_block": {"type": "server_tool_use", "id": "tool_u", "name": "web_search"}}"#),
        j(r#"{"type": "content_block_stop", "index": 0}"#),
        j(r#"{"type": "content_block_start", "index": 1, "content_block": {"type": "web_search_tool_result", "content": [{"type": "web_search_result", "url": "https://example.test", "title": "t"}]}}"#),
        j(r#"{"type": "content_block_stop", "index": 1}"#),
        j(r#"{"type": "message_stop"}"#),
    ];
    let mut expected_frames = input_frames.clone();
    expected_frames[2] = j(r#"{"type": "content_block_start", "index": 1, "content_block": {"type": "web_search_tool_result", "content": [{"type": "web_search_result", "url": "https://example.test", "title": "t"}], "tool_use_id": "tool_u"}}"#);
    let mut filter = SearchNoiseFilter::new();
    let mut out = filter.feed(&sse(&input_frames)).unwrap();
    out.extend_from_slice(&filter.finalize().unwrap());
    assert_eq!(out, sse(&expected_frames));
    assert_eq!(filter.stats().adopted_pairs, 1);
    assert_eq!(filter.stats().total_blocks(), 0);
}

#[test]
fn a_keyed_empty_result_pair_is_adopted_not_stripped() {
    // 收窄回归防线:带 srvtoolu 键的空结果是真实零结果搜索。
    // 旧判据(无 use.id + 空 content,不看 result 键)会把它整对剥掉。
    let frames = vec![
        j(r#"{"type": "content_block_start", "index": 0, "content_block": {"type": "server_tool_use", "name": "web_search"}}"#),
        j(r#"{"type": "content_block_stop", "index": 0}"#),
        j(r#"{"type": "content_block_start", "index": 1, "content_block": {"type": "web_search_tool_result", "tool_use_id": "srvtoolu_z", "content": []}}"#),
        j(r#"{"type": "content_block_stop", "index": 1}"#),
        j(r#"{"type": "message_stop"}"#),
    ];
    let mut filter = SearchNoiseFilter::new();
    let mut out = filter.feed(&sse(&frames)).unwrap();
    out.extend_from_slice(&filter.finalize().unwrap());
    let (content, _) = reconstruct(&out);
    let kinds: Vec<&str> = content
        .iter()
        .map(|block| at(&block, &["type"]).as_str().unwrap())
        .collect();
    assert_eq!(kinds, ["server_tool_use", "web_search_tool_result"]);
    assert_eq!(at(&content[0], &["id"]).as_str(), Some("srvtoolu_z"));
    assert_eq!(at(&content[1], &["tool_use_id"]).as_str(), Some("srvtoolu_z"));
    assert_eq!(filter.stats().pair_blocks, 0);
    assert_eq!(filter.stats().adopted_pairs, 1);
}

#[test]
fn an_unkeyed_pair_with_content_passes_byte_identical() {
    // 两半都无键但内容非空:不发明配对键,如实放行,仅记数。
    let frames = vec![
        j(r#"{"type": "content_block_start", "index": 0, "content_block": {"type": "server_tool_use", "name": "web_search"}}"#),
        j(r#"{"type": "content_block_stop", "index": 0}"#),
        j(r#"{"type": "content_block_start", "index": 1, "content_block": {"type": "web_search_tool_result", "content": [{"type": "web_search_result", "url": "https://example.test", "title": "t"}]}}"#),
        j(r#"{"type": "content_block_stop", "index": 1}"#),
        j(r#"{"type": "message_stop"}"#),
    ];
    let input = sse(&frames);
    let mut filter = SearchNoiseFilter::new();
    let mut out = filter.feed(&input).unwrap();
    out.extend_from_slice(&filter.finalize().unwrap());
    assert_eq!(out, input, "unkeyed pairs must not get invented keys");
    assert_eq!(filter.stats().unkeyed_pairs, 1);
    assert_eq!(filter.stats().adopted_pairs, 0);
    assert_eq!(filter.stats().total_blocks(), 0);
}

#[test]
fn malformed_search_result_content_is_not_a_phantom_stream_pair() {
    // 只有现场出现过的显式 `[]` 才是幻影。旧判据把缺失或错误类型
    // 都当空数组吞掉，会把上游 schema 漂移伪装成成功。
    for (case, result_content) in [
        ("missing", None),
        ("string", Some(j(r#""invalid""#))),
        ("object", Some(j(r#"{"unexpected": true}"#))),
        ("null", Some(Json::Null)),
    ] {
        let mut result = j(r#"{"type": "web_search_tool_result"}"#);
        if let Some(content) = result_content {
            *at_mut(&mut result, &["content"]) = content;
        }
        let frames = vec![
            j(r#"{"type": "content_block_start", "index": 0, "content_block": {"type": "server_tool_use", "name": "web_search"}}"#),
            j(r#"{"type": "content_block_stop", "index": 0}"#),
            j(&format!(r#"{{"type": "content_block_start", "index": 1, "content_block": {}}}"#, piece(&(result)))),
            j(r#"{"type": "content_block_stop", "index": 1}"#),
            j(r#"{"type": "message_stop"}"#),
        ];
        let input = sse(&frames);
        let mut filter = SearchNoiseFilter::new();
        let mut out = filter.feed(&input).unwrap();
        out.extend_from_slice(&filter.finalize().unwrap());
        assert_eq!(out, input, "malformed {case} content must stay visible");
        assert_eq!(filter.stats().unkeyed_pairs, 1, "{case}");
        assert_eq!(filter.stats().total_blocks(), 0, "{case}");
    }
}

#[test]
fn non_web_search_server_tools_do_not_trigger_stream_pair_rewrites() {
    // 旧逻辑会采纳第一对的 result id，并把第二对误判成幻影删除。
    // `web_search_tool_result` 不能反向把任意 server tool 变成搜索调用。
    let frames = vec![
        j(r#"{"type": "content_block_start", "index": 0, "content_block": {"type": "server_tool_use", "id": "tool_compute", "name": "code_execution"}}"#),
        j(r#"{"type": "content_block_stop", "index": 0}"#),
        j(r#"{"type": "content_block_start", "index": 1, "content_block": {"type": "web_search_tool_result", "tool_use_id": "srv_search", "content": [{"type": "web_search_result", "url": "https://example.test"}]}}"#),
        j(r#"{"type": "content_block_stop", "index": 1}"#),
        j(r#"{"type": "content_block_start", "index": 2, "content_block": {"type": "server_tool_use", "name": "code_execution"}}"#),
        j(r#"{"type": "content_block_stop", "index": 2}"#),
        j(r#"{"type": "content_block_start", "index": 3, "content_block": {"type": "web_search_tool_result", "content": []}}"#),
        j(r#"{"type": "content_block_stop", "index": 3}"#),
        j(r#"{"type": "message_stop"}"#),
    ];
    let input = sse(&frames);
    let mut filter = SearchNoiseFilter::new();
    let mut out = filter.feed(&input).unwrap();
    out.extend_from_slice(&filter.finalize().unwrap());
    assert_eq!(out, input);
    assert!(!filter.stats().any_activity());
}

#[test]
fn flushes_a_held_server_tool_before_non_result_blocks() {
    let frames = vec![
        j(r#"{"type": "content_block_start", "index": 0, "content_block": {"type": "server_tool_use", "name": "web_search"}}"#),
        j(r#"{"type": "content_block_stop", "index": 0}"#),
        j(r#"{"type": "content_block_start", "index": 1, "content_block": {"type": "text", "text": ""}}"#),
        j(r#"{"type": "content_block_delta", "index": 1, "delta": {"type": "text_delta", "text": "平常回答"}}"#),
        j(r#"{"type": "content_block_stop", "index": 1}"#),
        j(r#"{"type": "message_stop"}"#),
    ];
    let input = sse(&frames);
    let mut filter = SearchNoiseFilter::new();
    let mut out = filter.feed(&input).unwrap();
    out.extend_from_slice(&filter.finalize().unwrap());
    assert_eq!(out, input, "unmatched held pair must flush byte identical");
    assert_eq!(filter.stats().total_blocks(), 0);
}

#[test]
fn composes_noise_and_phantom_pair_strips_with_contiguous_indexes() {
    let frames = vec![
        j(r#"{"type": "content_block_start", "index": 0, "content_block": {"type": "text", "text": ""}}"#),
        j(r#"{"type": "content_block_delta", "index": 0, "delta": {"type": "text_delta", "text": "Search results for query: q"}}"#),
        j(r#"{"type": "content_block_stop", "index": 0}"#),
        j(r#"{"type": "content_block_start", "index": 1, "content_block": {"type": "server_tool_use", "id": "tool_a", "name": "web_search"}}"#),
        j(r#"{"type": "content_block_stop", "index": 1}"#),
        j(r#"{"type": "content_block_start", "index": 2, "content_block": {"type": "web_search_tool_result", "tool_use_id": "srv_a", "content": [{"type": "web_search_result", "url": "https://example.test", "title": "t"}]}}"#),
        j(r#"{"type": "content_block_stop", "index": 2}"#),
        j(r#"{"type": "content_block_start", "index": 3, "content_block": {"type": "server_tool_use", "name": "web_search"}}"#),
        j(r#"{"type": "content_block_stop", "index": 3}"#),
        j(r#"{"type": "content_block_start", "index": 4, "content_block": {"type": "web_search_tool_result", "content": []}}"#),
        j(r#"{"type": "content_block_stop", "index": 4}"#),
        j(r#"{"type": "content_block_start", "index": 5, "content_block": {"type": "text", "text": ""}}"#),
        j(r#"{"type": "content_block_delta", "index": 5, "delta": {"type": "text_delta", "text": "答案"}}"#),
        j(r#"{"type": "content_block_stop", "index": 5}"#),
        j(r#"{"type": "message_delta", "delta": {"stop_reason": "end_turn"}}"#),
        j(r#"{"type": "message_stop"}"#),
    ];
    let mut filter = SearchNoiseFilter::new();
    // 按小块喂入,覆盖跨 chunk 组帧。
    let input = sse(&frames);
    let mut out = Vec::new();
    for chunk in input.chunks(11) {
        out.extend_from_slice(&filter.feed(chunk).unwrap());
    }
    out.extend_from_slice(&filter.finalize().unwrap());
    let (content, _) = reconstruct(&out);
    let kinds: Vec<&str> = content
        .iter()
        .map(|block| at(&block, &["type"]).as_str().unwrap())
        .collect();
    assert_eq!(kinds, ["server_tool_use", "web_search_tool_result", "text"]);
    assert_eq!(at(&content[2], &["text"]).as_str(), Some("答案"));
    // 采钥与剥离叠加:被保留的真实对在索引前移的同时完成配对键归一。
    assert_eq!(at(&content[0], &["id"]).as_str(), Some("srv_a"));
    assert_eq!(at(&content[1], &["tool_use_id"]).as_str(), Some("srv_a"));
    assert_eq!(filter.stats().noise_blocks, 1);
    assert_eq!(filter.stats().pair_blocks, 2);
    assert_eq!(filter.stats().adopted_pairs, 1);
}

#[test]
fn passes_untouched_streams_byte_identical() {
    let frames = vec![
        j(r#"{"type": "message_start", "message": {"id": "msg_2", "type": "message", "role": "assistant", "content": [], "model": "k3", "stop_reason": null, "usage": {"input_tokens": 1, "output_tokens": 0}}}"#),
        j(r#"{"type": "content_block_start", "index": 0, "content_block": {"type": "thinking", "thinking": "", "signature": ""}}"#),
        j(r#"{"type": "content_block_delta", "index": 0, "delta": {"type": "thinking_delta", "thinking": "…"}}"#),
        j(r#"{"type": "content_block_stop", "index": 0}"#),
        j(r#"{"type": "content_block_start", "index": 1, "content_block": {"type": "text", "text": ""}}"#),
        j(r#"{"type": "content_block_delta", "index": 1, "delta": {"type": "text_delta", "text": "Search 结论:平常文本"}}"#),
        j(r#"{"type": "content_block_stop", "index": 1}"#),
        j(r#"{"type": "content_block_start", "index": 2, "content_block": {"type": "tool_use", "id": "toolu_1", "name": "python", "input": {}}}"#),
        j(r#"{"type": "content_block_delta", "index": 2, "delta": {"type": "input_json_delta", "partial_json": "{}"}}"#),
        j(r#"{"type": "content_block_stop", "index": 2}"#),
        j(r#"{"type": "message_delta", "delta": {"stop_reason": "tool_use"}}"#),
        j(r#"{"type": "message_stop"}"#),
    ];
    let input = sse(&frames);
    let mut filter = SearchNoiseFilter::new();
    let mut out = Vec::new();
    for chunk in input.chunks(7) {
        out.extend_from_slice(&filter.feed(chunk).unwrap());
    }
    out.extend_from_slice(&filter.finalize().unwrap());
    assert_eq!(out, input, "zero-hit streams must stay byte identical");
    assert_eq!(filter.stats().total_blocks(), 0);
}

#[test]
fn holds_prefix_fragments_across_deltas_before_deciding() {
    let noise = vec![
        j(r#"{"type": "content_block_start", "index": 0, "content_block": {"type": "text", "text": ""}}"#),
        j(r#"{"type": "content_block_delta", "index": 0, "delta": {"type": "text_delta", "text": "Search resu"}}"#),
        j(r#"{"type": "content_block_delta", "index": 0, "delta": {"type": "text_delta", "text": "lts for query: 拆开的前缀"}}"#),
        j(r#"{"type": "content_block_stop", "index": 0}"#),
        j(r#"{"type": "content_block_start", "index": 1, "content_block": {"type": "text", "text": ""}}"#),
        j(r#"{"type": "content_block_delta", "index": 1, "delta": {"type": "text_delta", "text": "答案"}}"#),
        j(r#"{"type": "content_block_stop", "index": 1}"#),
        j(r#"{"type": "message_stop"}"#),
    ];
    let mut filter = SearchNoiseFilter::new();
    let mut out = filter.feed(&sse(&noise)).unwrap();
    out.extend_from_slice(&filter.finalize().unwrap());
    let (content, _) = reconstruct(&out);
    assert_eq!(content.len(), 1);
    assert_eq!(at(&content[0], &["text"]).as_str(), Some("答案"));

    // 同样的分片走向不同结局:分叉即放行,且零命中保持字节一致。
    let benign = vec![
        j(r#"{"type": "content_block_start", "index": 0, "content_block": {"type": "text", "text": ""}}"#),
        j(r#"{"type": "content_block_delta", "index": 0, "delta": {"type": "text_delta", "text": "Search resu"}}"#),
        j(r#"{"type": "content_block_delta", "index": 0, "delta": {"type": "text_delta", "text": "lt: 平常内容"}}"#),
        j(r#"{"type": "content_block_stop", "index": 0}"#),
        j(r#"{"type": "message_stop"}"#),
    ];
    let input = sse(&benign);
    let mut filter = SearchNoiseFilter::new();
    let mut out = filter.feed(&input).unwrap();
    out.extend_from_slice(&filter.finalize().unwrap());
    assert_eq!(out, input);
}

#[test]
fn keeps_text_that_stops_before_completing_the_prefix() {
    let frames = vec![
        j(r#"{"type": "content_block_start", "index": 0, "content_block": {"type": "text", "text": ""}}"#),
        j(r#"{"type": "content_block_delta", "index": 0, "delta": {"type": "text_delta", "text": "Search results for"}}"#),
        j(r#"{"type": "content_block_stop", "index": 0}"#),
        j(r#"{"type": "message_stop"}"#),
    ];
    let input = sse(&frames);
    let mut filter = SearchNoiseFilter::new();
    let mut out = filter.feed(&input).unwrap();
    out.extend_from_slice(&filter.finalize().unwrap());
    assert_eq!(out, input);
    assert_eq!(filter.stats().total_blocks(), 0);
}

#[test]
fn pings_inside_a_pending_block_survive_a_strip() {
    let frames = vec![
        j(r#"{"type": "content_block_start", "index": 0, "content_block": {"type": "text", "text": ""}}"#),
        j(r#"{"type": "ping"}"#),
        j(r#"{"type": "content_block_delta", "index": 0, "delta": {"type": "text_delta", "text": "Search results for query: x"}}"#),
        j(r#"{"type": "content_block_stop", "index": 0}"#),
        j(r#"{"type": "message_stop"}"#),
    ];
    let mut filter = SearchNoiseFilter::new();
    let mut out = filter.feed(&sse(&frames)).unwrap();
    out.extend_from_slice(&filter.finalize().unwrap());
    let text = String::from_utf8(out).unwrap();
    assert!(text.contains("\"ping\""), "held ping must be re-emitted");
    assert!(!text.contains("Search results for query"));
    assert_eq!(filter.stats().noise_blocks, 1);
}

#[test]
fn oversized_pending_buffer_flushes_without_stripping() {
    let mut filter = SearchNoiseFilter::new();
    let start = render_sse(
        Some("content_block_start"),
        &j(r#"{"type": "content_block_start", "index": 0, "content_block": {"type": "text", "text": "Search"}}"#),
    );
    filter.feed(&start).unwrap();
    let ping = render_sse(Some("ping"), &j(r#"{"type": "ping"}"#));
    let mut out = Vec::new();
    for _ in 0..20000 {
        out.extend_from_slice(&filter.feed(&ping).unwrap());
    }
    // 超限后放弃判定并放行全部挂起帧,不吞任何内容。
    assert!(!out.is_empty());
    assert_eq!(filter.stats().total_blocks(), 0);
    let text = String::from_utf8(out).unwrap();
    assert!(text.contains("content_block_start"));
}

#[test]
fn nonstream_strip_removes_noise_blocks_and_phantom_pairs_only() {
    // 搜索对用已配对的键,让本测试只盯剥离行为。
    let mut response = j(r#"{"id": "msg_3", "content": [{"type": "text", "text": "Search results for query: q"}, {"type": "server_tool_use", "id": "srvtoolu_a", "name": "web_search", "input": {}}, {"type": "web_search_tool_result", "tool_use_id": "srvtoolu_a", "content": [{"type": "web_search_result", "url": "https://example.test"}]}, {"type": "server_tool_use", "name": "web_search"}, {"type": "web_search_tool_result", "content": []}, {"type": "text", "text": "真正的回答"}], "stop_reason": "end_turn"}"#);
    let stats = strip_nonstream_noise(&mut response);
    assert_eq!(stats.noise_blocks, 1);
    assert_eq!(stats.pair_blocks, 2);
    assert_eq!(stats.adopted_pairs, 0);
    let kinds: Vec<&str> = at(&response, &["content"])
        .as_array()
        .unwrap()
        .iter()
        .map(|block| at(&block, &["type"]).as_str().unwrap())
        .collect();
    assert_eq!(kinds, ["server_tool_use", "web_search_tool_result", "text"]);

    let mut untouched = j(r#"{"content": [{"type": "server_tool_use", "id": "srvtoolu_b", "name": "web_search", "input": {}}, {"type": "web_search_tool_result", "tool_use_id": "srvtoolu_b", "content": []}, {"type": "text", "text": "平常"}]}"#);
    let before = untouched.clone();
    let untouched_stats = strip_nonstream_noise(&mut untouched);
    assert_eq!(untouched_stats.total_blocks(), 0);
    assert!(!untouched_stats.any_activity());
    assert_eq!(untouched, before);
}

#[test]
fn nonstream_adoption_follows_the_same_matrix() {
    let mut response = j(r#"{"id": "msg_4", "content": [{"type": "server_tool_use", "name": "web_search", "input": {"query": "a"}}, {"type": "web_search_tool_result", "tool_use_id": "srvtoolu_a", "content": [{"type": "web_search_result", "url": "https://example.test"}]}, {"type": "server_tool_use", "id": "tool_e", "name": "web_search", "input": {"query": "e"}}, {"type": "web_search_tool_result", "tool_use_id": "srvtoolu_e", "content": [{"type": "web_search_result", "url": "https://example.test"}]}, {"type": "server_tool_use", "id": "tool_b", "name": "web_search", "input": {"query": "b"}}, {"type": "web_search_tool_result", "content": [{"type": "web_search_result", "url": "https://example.test"}]}, {"type": "server_tool_use", "name": "web_search", "input": {"query": "c"}}, {"type": "web_search_tool_result", "tool_use_id": "srvtoolu_c", "content": []}, {"type": "server_tool_use", "name": "web_search"}, {"type": "web_search_tool_result", "content": []}, {"type": "server_tool_use", "name": "web_search", "input": {"query": "d"}}, {"type": "web_search_tool_result", "content": [{"type": "web_search_result", "url": "https://example.test"}]}, {"type": "text", "text": "回答"}], "stop_reason": "end_turn"}"#);
    let stats = strip_nonstream_noise(&mut response);
    assert_eq!(stats.adopted_pairs, 4);
    assert_eq!(stats.unkeyed_pairs, 1);
    assert_eq!(stats.pair_blocks, 2);
    assert_eq!(stats.noise_blocks, 0);
    assert!(stats.any_activity());
    assert!(stats.rewrote_body());
    let content = at(&response, &["content"]).as_array().unwrap();
    assert_eq!(content.len(), 11);
    assert_eq!(at(&content[0], &["id"]).as_str(), Some("srvtoolu_a"));
    assert_eq!(at(&content[1], &["tool_use_id"]).as_str(), Some("srvtoolu_a"));
    assert_eq!(at(&content[2], &["id"]).as_str(), Some("srvtoolu_e"));
    assert_eq!(at(&content[3], &["tool_use_id"]).as_str(), Some("srvtoolu_e"));
    assert_eq!(at(&content[4], &["id"]).as_str(), Some("tool_b"));
    assert_eq!(at(&content[5], &["tool_use_id"]).as_str(), Some("tool_b"));
    assert_eq!(at(&content[6], &["id"]).as_str(), Some("srvtoolu_c"));
    assert_eq!(at(&content[7], &["tool_use_id"]).as_str(), Some("srvtoolu_c"));
    // 无钥对不得被发明键。
    assert!(content[8].get("id").is_none());
    assert!(content[9].get("tool_use_id").is_none());
    assert_eq!(at(&content[10], &["text"]).as_str(), Some("回答"));
}

#[test]
fn malformed_search_result_content_is_not_a_phantom_nonstream_pair() {
    // 与流式路径锁同一个信任边界，防止两份 pair matrix 再次漂移。
    for (case, result_content) in [
        ("missing", None),
        ("string", Some(j(r#""invalid""#))),
        ("object", Some(j(r#"{"unexpected": true}"#))),
        ("null", Some(Json::Null)),
    ] {
        let mut result = j(r#"{"type": "web_search_tool_result"}"#);
        if let Some(content) = result_content {
            *at_mut(&mut result, &["content"]) = content;
        }
        let mut response = j(&format!(r#"{{"content": [{{"type": "server_tool_use", "name": "web_search"}}, {}]}}"#, piece(&(result))));
        let before = response.clone();
        let stats = strip_nonstream_noise(&mut response);
        assert_eq!(response, before, "malformed {case} content must stay visible");
        assert_eq!(stats.unkeyed_pairs, 1, "{case}");
        assert!(!stats.rewrote_body(), "{case}");
    }
}

#[test]
fn non_web_search_server_tools_do_not_trigger_nonstream_pair_rewrites() {
    let mut response = j(r#"{"content": [{"type": "server_tool_use", "id": "tool_compute", "name": "code_execution"}, {"type": "web_search_tool_result", "tool_use_id": "srv_search", "content": [{"type": "web_search_result", "url": "https://example.test"}]}, {"type": "server_tool_use", "name": "code_execution"}, {"type": "web_search_tool_result", "content": []}]}"#);
    let before = response.clone();
    let stats = strip_nonstream_noise(&mut response);
    assert_eq!(response, before);
    assert!(!stats.any_activity());
}
