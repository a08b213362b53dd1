use csswitch_gateway::json::Json;
use csswitch_gateway::openai_responses::{anthropic_to_openai, openai_to_anthropic};

fn j(text: &str) -> Json {
    Json::parse(text).unwrap()
}

#[allow(dead_code)]
trait Piece {
    fn piece(&self) -> String;
}

impl Piece for Json {
    fn piece(&self) -> String {
        self.render()
    }
}

impl Piece for str {
    fn piece(&self) -> String {
        Json::text(self).render()
    }
}

impl Piece for String {
    fn piece(&self) -> String {
        Json::text(self).render()
    }
}

impl Piece for u64 {
    fn piece(&self) -> String {
        self.to_string()
    }
}

impl Piece for usize {
    fn piece(&self) -> String {
        self.to_string()
    }
}

impl<T: Piece + ?Sized> Piece for &T {
    fn piece(&self) -> String {
        (**self).piece()
    }
}

impl<T: Piece> Piece for Vec<T> {
    fn piece(&self) -> String {
        let items: Vec<String> = self.iter().map(|item| item.piece()).collect();
        format!("[{}]", items.join(","))
    }
}

#[allow(dead_code)]
fn piece<T: Piece + ?Sized>(value: &T) -> String {
    value.piece()
}

#[allow(dead_code)]
fn at<'a>(value: &'a Json, path: &[&str]) -> &'a Json {
    let mut here = value;
    for step in path {
        let next = match here {
            Json::Array(items) => step.parse::<usize>().ok().and_then(|index| items.get(index)),
            other => other.get(step),
        };
        here = match next {
            Some(found) => found,
            None => return Box::leak(Box::new(Json::Null)),
        };
    }
    here
}

#[allow(dead_code)]
fn at_mut<'a>(value: &'a mut Json, path: &[&str]) -> &'a mut Json {
    let mut here = value;
    for step in path {
        here = match here {
            Json::Array(items) => &mut items[step.parse::<usize>().unwrap()],
            Json::Object(entries) => {
                let place = entries.iter().position(|entry| entry.0 == *step);
                let index = place.unwrap_or_else(|| {
                    entries.push((step.to_string(), Json::Null));
                    entries.len() - 1
                });
                &mut entries[index].1
            }
            _ => panic!("no value at {step}"),
        };
    }
    here
}

#[test]
fn responses_incomplete_maps_to_max_tokens() {
    let mapped = openai_to_anthropic(
        &j(r#"{"id": "resp_incomplete", "status": "incomplete", "output_text": "partial", "usage": {}}"#),
        "atlas-opus-4-8",
    );
    assert_eq!(at(&mapped, &["stop_reason"]).as_str(), Some("max_tokens"));
    assert_eq!((*at(&mapped, &["content"])), j(r#"[{"type": "text", "text": "partial"}]"#));
}

#[test]
fn responses_tool_result_object_uses_python_json_spacing() {
    let (mapped, _metadata) = anthropic_to_openai(
        &j(r#"{"model": "atlas-opus-4-8", "messages": [{"role": "user", "content": [{"type": "tool_result", "tool_use_id": "call_1", "content": {"ok": true, "items": [1, 2]}}]}]}"#),
        "gpt-5.2",
        false,
    )
    .unwrap();
    assert_eq!((*at(&mapped, &["input", "0"])), j(r#"{"type": "function_call_output", "call_id": "call_1", "output": "{\"ok\": true, \"items\": [1, 2]}"}"#));
}
