use csswitch_gateway::client::Client;
use csswitch_gateway::json::Json;
use csswitch_gateway::profile::{selector_id, Channel, ModelSlot};

fn j(text: &str) -> Json {
    Json::parse(text).unwrap()
}

fn client() -> Client {
    Client::new("atlas", "Atlas")
}

#[allow(dead_code)]
trait Piece {
    fn piece(&self) -> String;
}

impl Piece for Json {
    fn piece(&self) -> String {
        self.render()
    }
}

impl Piece for str {
    fn piece(&self) -> String {
        Json::text(self).render()
    }
}

impl Piece for String {
    fn piece(&self) -> String {
        Json::text(self).render()
    }
}

impl Piece for u64 {
    fn piece(&self) -> String {
        self.to_string()
    }
}

impl Piece for usize {
    fn piece(&self) -> String {
        self.to_string()
    }
}

impl<T: Piece + ?Sized> Piece for &T {
    fn piece(&self) -> String {
        (**self).piece()
    }
}

impl<T: Piece> Piece for Vec<T> {
    fn piece(&self) -> String {
        let items: Vec<String> = self.iter().map(|item| item.piece()).collect();
        format!("[{}]", items.join(","))
    }
}

#[allow(dead_code)]
fn piece<T: Piece + ?Sized>(value: &T) -> String {
    value.piece()
}

#[allow(dead_code)]
fn at<'a>(value: &'a Json, path: &[&str]) -> &'a Json {
    let mut here = value;
    for step in path {
        let next = match here {
            Json::Array(items) => step.parse::<usize>().ok().and_then(|index| items.get(index)),
            other => other.get(step),
        };
        here = match next {
            Some(found) => found,
            None => return Box::leak(Box::new(Json::Null)),
        };
    }
    here
}

#[allow(dead_code)]
fn at_mut<'a>(value: &'a mut Json, path: &[&str]) -> &'a mut Json {
    let mut here = value;
    for step in path {
        here = match here {
            Json::Array(items) => &mut items[step.parse::<usize>().unwrap()],
            Json::Object(entries) => {
                let place = entries.iter().position(|entry| entry.0 == *step);
                let index = place.unwrap_or_else(|| {
                    entries.push((step.to_string(), Json::Null));
                    entries.len() - 1
                });
                &mut entries[index].1
            }
            _ => panic!("no value at {step}"),
        };
    }
    here
}

#[test]
fn empty_slots_inherit_the_default_model() {
    let channel = Channel {
        base_url: "https://api.example.com".into(),
        api_key: "k".into(),
        default_model: ModelSlot::new("m-default", "Default"),
        quality_model: ModelSlot::default(),
        fast_model: ModelSlot::new("m-fast", "Fast"),
        fable_model: ModelSlot::default(),
    };
    let catalog = channel.static_catalog(&client(), "relay", &"0".repeat(64));
    let bindings = at(&catalog, &["role_bindings"]);
    assert_eq!((*at(&bindings, &["sonnet"])), (*at(&bindings, &["opus"])), "空的高质量槽继承默认");
    assert_eq!((*at(&bindings, &["sonnet"])), (*at(&bindings, &["fable"])), "空的 Fable 槽继承默认");
    assert_ne!((*at(&bindings, &["sonnet"])), (*at(&bindings, &["haiku"])), "填了的快速槽独立");
    // 两个不同模型 → 两条 route,不因四个槽而重复。
    assert_eq!(at(&catalog, &["routes"]).as_array().unwrap().len(), 2);
}

#[test]
fn display_name_falls_back_to_the_model_id() {
    let slot = ModelSlot::new("k3", "");
    assert_eq!(slot.label(), "k3");
}

#[test]
fn validation_rejects_incomplete_channels() {
    let mut channel = Channel::kimi_default();
    assert!(channel.validate().is_err(), "缺 key 应当失败");
    channel.api_key = "k".into();
    assert!(channel.validate().is_ok());
    channel.base_url = "ftp://x".into();
    assert!(channel.validate().is_err());
    channel.base_url = "https://x".into();
    channel.default_model = ModelSlot::default();
    assert!(channel.validate().is_err(), "默认槽必填");
}

#[test]
fn selectors_start_with_the_clients_name() {
    assert_eq!(selector_id(&client(), "k3-256k"), "atlas-csswitch-k3-256k");
    assert_eq!(selector_id(&client(), "deepseek-ai/DeepSeek-V4"), "atlas-csswitch-deepseek-ai-DeepSeek-V4");
}

#[test]
fn models_with_one_slug_are_told_apart() {
    let channel = Channel {
        base_url: "https://api.example.com".into(),
        api_key: "k".into(),
        default_model: ModelSlot::new("a/b", ""),
        quality_model: ModelSlot::default(),
        fast_model: ModelSlot::new(" a-b ", ""),
        fable_model: ModelSlot::new("a-b", ""),
    };
    let catalog = channel.static_catalog(&client(), "relay", "fp");
    let routes = at(&catalog, &["routes"]).as_array().unwrap();
    assert_eq!(routes.len(), 2);
    assert_eq!(routes[0].str_at("selector_id"), Some("atlas-csswitch-a-b"));
    assert_eq!(routes[0].str_at("upstream_model"), Some("a/b"));
    assert_eq!(routes[1].str_at("selector_id"), Some("atlas-csswitch--haiku-a-b"));
    assert_eq!(routes[1].str_at("upstream_model"), Some("a-b"));
    let bindings = at(&catalog, &["role_bindings"]);
    assert_eq!(bindings.str_at("sonnet"), Some("atlas-csswitch-a-b"));
    assert_eq!(bindings.str_at("opus"), Some("atlas-csswitch-a-b"));
    assert_eq!(bindings.str_at("haiku"), Some("atlas-csswitch--haiku-a-b"));
    assert_eq!(bindings.str_at("fable"), Some("atlas-csswitch--haiku-a-b"));
    assert_eq!(catalog.str_at("default_selector_id"), Some("atlas-csswitch-a-b"));
}
