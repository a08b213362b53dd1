use csswitch_gateway::client::Client;
use csswitch_gateway::control::{
    apply_config, body_length, channel_payload, control_action, control_answer, decide_restart, finish_probe, list_candidates,
    log_entry, logs_payload, model_list_candidates, models_payload, not_found, plan_probe, plan_switch, probe_answer,
    probe_headers, probe_models, reason, request_path, respond_json, respond_text, route, save_config, start_reply,
    status_payload, switch_mode, switch_reply, AppState, ControlAction, ProbeOutcome, ProbeRun, Route, SlotEdit, SlotEdits,
    MAX_LOG_ENTRIES,
};
use csswitch_gateway::json::Json;
use csswitch_gateway::profile::{Channel, Mode, ModelSlot, Profile};

fn j(text: &str) -> Json {
    Json::parse(text).unwrap()
}

fn client() -> Client {
    Client::new("atlas", "Atlas")
}

fn keep() -> SlotEdits {
    SlotEdits {
        default_model: SlotEdit::Keep,
        quality_model: SlotEdit::Keep,
        fast_model: SlotEdit::Keep,
        fable_model: SlotEdit::Keep,
    }
}

#[test]
fn channel_payload_never_exposes_the_api_key() {
    let mut channel = Channel::kimi_default();
    channel.api_key = "sk-super-secret-value".into();
    let payload = channel_payload(&channel);
    let text = payload.render();
    assert!(!text.contains("sk-super-secret-value"), "key 不得回显");
    assert_eq!(payload.get("has_api_key"), Some(&Json::Bool(true)));
    assert_eq!(payload.get("ready"), Some(&Json::Bool(true)));
    assert_eq!(
        channel_payload(&Channel::deepseek_default()).render(),
        r#"{"base_url":"https://api.deepseek.com/anthropic","has_api_key":false,"default_model":{"model_id":"deepseek-v4-pro","display_name":"DeepSeek V4 Pro"},"quality_model":{"model_id":"","display_name":""},"fast_model":{"model_id":"deepseek-v4-flash","display_name":"DeepSeek V4 Flash"},"fable_model":{"model_id":"","display_name":""},"ready":false}"#
    );
}

#[test]
fn model_list_falls_back_to_the_service_root() {
    // 回归:DeepSeek 的 /anthropic/v1/models 是 404,清单在根域的 /v1/models。
    assert_eq!(
        model_list_candidates("https://api.deepseek.com/anthropic"),
        vec![
            "https://api.deepseek.com/anthropic/v1/models".to_string(),
            "https://api.deepseek.com/v1/models".to_string(),
        ]
    );
    assert_eq!(
        model_list_candidates("https://api.kimi.com"),
        vec!["https://api.kimi.com/v1/models".to_string()]
    );
}

#[test]
fn model_lists_are_looked_for_once_at_each_place() {
    assert_eq!(model_list_candidates("https://a.test/v1/"), vec!["https://a.test/v1/models".to_string()]);
    assert_eq!(
        model_list_candidates("http://a.test:8080/x/v1"),
        vec!["http://a.test:8080/x/v1/models".to_string(), "http://a.test:8080/v1/models".to_string()]
    );
    assert_eq!(model_list_candidates("nowhere"), vec!["nowhere/v1/models".to_string()]);
    assert_eq!(list_candidates("nowhere", None), vec!["nowhere/v1/models".to_string()]);
}

#[test]
fn log_ring_buffer_drops_the_oldest_entries() {
    let mut state = AppState::new(Profile::default(), 1);
    for index in 0..(MAX_LOG_ENTRIES + 25) {
        state.record(j(&format!(r#"{{"n": {index}}}"#)));
    }
    assert_eq!(state.log.len(), MAX_LOG_ENTRIES);
    assert_eq!(state.log[0].u64_at("n"), Some(25), "最旧的条目应当被丢弃");
    let payload = logs_payload(&state);
    assert_eq!(payload.array_at("entries").unwrap().len(), MAX_LOG_ENTRIES);
}

#[test]
fn paths_lead_to_their_routes() {
    assert_eq!(request_path("/v1/messages?beta=true?x"), "/v1/messages");
    for path in ["/", "/ui", "/ui/"] {
        assert!(matches!(route(path), Route::Index));
    }
    assert!(matches!(route("/control/science/start"), Route::Control(action) if action == "science/start"));
    for path in ["/v1/messages", "/v1/models"] {
        assert!(matches!(route(path), Route::Inference));
    }
    for path in ["/v1/messages/count_tokens", "/control", "/uix", ""] {
        assert!(matches!(route(path), Route::Unknown));
    }
    assert_eq!(not_found("/x").render(), r#"{"type":"error","error":{"type":"not_found_error","message":"/x"}}"#);
}

#[test]
fn actions_take_their_methods() {
    for (method, action, meant) in [
        ("GET", "status", ControlAction::Status),
        ("GET", "logs", ControlAction::Logs),
        ("GET", "science/url", ControlAction::ScienceUrl),
        ("POST", "config", ControlAction::SaveConfig),
        ("POST", "switch", ControlAction::SwitchMode),
        ("POST", "probe-models", ControlAction::ProbeModels),
        ("POST", "science/start", ControlAction::StartScience),
        ("POST", "science/stop", ControlAction::StopScience),
        ("POST", "quit", ControlAction::Quit),
    ] {
        assert_eq!(control_action(method, action).unwrap(), meant);
        let other = if method == "GET" { "POST" } else { "GET" };
        assert_eq!(control_action(other, action).unwrap_err(), format!("未知控制操作:{other} {action}"));
    }
    let (status, tree) = control_answer(Err("x".to_string()));
    assert_eq!((status, tree.render().as_str()), (400, r#"{"error":"x"}"#));
    assert_eq!(control_answer(Ok(Json::Null)).0, 200);
}

#[test]
fn saved_settings_keep_what_is_left_blank() {
    let mut profile = Profile::default();
    profile.kimi.api_key = "old".into();
    let mut edits = keep();
    edits.fast_model = SlotEdit::Slot(ModelSlot::new("m", "M"));
    let payload = j(r#"{"channel": "kimi", "base_url": " https://a.test ", "api_key": "  "}"#);
    let (saved, reply) = apply_config(&payload, &edits, &profile).unwrap();
    assert_eq!(saved.kimi.base_url, "https://a.test");
    assert_eq!(saved.kimi.api_key, "old");
    assert_eq!(saved.kimi.fast_model, ModelSlot::new("m", "M"));
    assert_eq!(saved.kimi.default_model, profile.kimi.default_model);
    assert_eq!(saved.deepseek, profile.deepseek);
    assert_eq!(reply.get("ok"), Some(&Json::Bool(true)));
    assert_eq!(reply.get("channel"), Some(&channel_payload(&saved.kimi)));
    assert_eq!(reply.str_at("note"), Some("已保存。运行中的链路不变,下次切换或重启 Science 时生效。"));
    let payload = j(r#"{"channel": "deepseek", "api_key": " new "}"#);
    let (saved, _) = apply_config(&payload, &keep(), &profile).unwrap();
    assert_eq!(saved.deepseek.api_key, "new");
    assert_eq!(saved.kimi, profile.kimi);
}

#[test]
fn settings_are_refused_for_their_faults() {
    let state = AppState::new(Profile::default(), 1);
    let refused = |body: &str| save_config(body.as_bytes(), &keep(), &state).err().unwrap();
    assert_eq!(refused("{}"), "缺少 channel");
    assert_eq!(refused(r#"{"channel": "x"}"#), "未知 channel");
    assert_eq!(refused(r#"{"channel": "official"}"#), "官方模式无需配置");
    assert_eq!(refused("{"), "请求体不是合法 JSON:EOF while parsing an object at line 1 column 1");
    let mut edits = keep();
    edits.quality_model = SlotEdit::Fault("q".to_string());
    edits.fable_model = SlotEdit::Fault("f".to_string());
    let error = save_config(br#"{"channel": "kimi"}"#, &edits, &state).err().unwrap();
    assert_eq!(error, "quality_model 格式非法:q");
    assert!(save_config(br#"{"channel": "kimi"}"#, &keep(), &state).is_ok());
}

#[test]
fn modes_change_once_their_channel_is_complete() {
    let mut state = AppState::new(Profile::default(), 1);
    let idle = j(r#"{"running": false}"#);
    let refused = |body: &str, state: &AppState| switch_mode(body.as_bytes(), state, &idle).err().unwrap();
    assert_eq!(refused("{}", &state), "缺少 mode");
    assert_eq!(refused(r#"{"mode": "x"}"#, &state), "未知 mode");
    assert_eq!(refused(r#"{"mode": "kimi"}"#, &state), "缺少 API Key");
    assert!(refused("[", &state).starts_with("请求体不是合法 JSON:"));
    state.profile.kimi.api_key = "k".into();
    let plan = switch_mode(br#"{"mode": "kimi", "force": true}"#, &state, &idle).ok().unwrap();
    assert_eq!(plan.profile.mode, Mode::Kimi);
    assert!(!plan.restart);
    let plan = plan_switch(&j(r#"{"mode": "official", "force": 1}"#), &state.profile, &j(r#"{"running": true}"#)).ok().unwrap();
    assert_eq!(plan.profile.mode, Mode::Official);
    assert!(plan.restart);
    assert_eq!(
        switch_reply(&client(), &Mode::Kimi, true, Some("http://x")).render(),
        r#"{"ok":true,"mode":"kimi","mode_label":"Kimi","science_restarted":true,"url":"http://x"}"#
    );
    assert_eq!(start_reply(None).render(), r#"{"ok":true,"url":null}"#);
}

#[test]
fn conversations_are_broken_off_only_by_force() {
    let busy = j(r#"{"running": true, "detail": {"daemon": {"active_conversations": 2}}}"#);
    assert_eq!(
        decide_restart(&busy, false).unwrap_err(),
        "有 2 个会话正在进行,切换会重启 Science 并打断它们。确认后重试。"
    );
    assert!(decide_restart(&busy, true).unwrap());
    assert!(decide_restart(&j(r#"{"running": true}"#), false).unwrap());
    assert!(!decide_restart(&j(r#"{"detail": {"daemon": {"active_conversations": 2}}}"#), false).unwrap());
}

#[test]
fn the_console_is_told_of_the_service() {
    let state = AppState::new(Profile::default(), 8788);
    let tree = status_payload(&client(), &state, j(r#"{"running": false}"#));
    assert_eq!(tree.str_at("mode"), Some("official"));
    assert_eq!(tree.str_at("mode_label"), Some("官方 Atlas"));
    assert_eq!(tree.u64_at("port"), Some(8788));
    assert_eq!(tree.str_at("base_url"), Some("http://127.0.0.1:8788"));
    assert_eq!(tree.get("science"), Some(&j(r#"{"running": false}"#)));
    assert_eq!(tree.get("channels").unwrap().get("kimi"), Some(&channel_payload(&state.profile.kimi)));
    assert_eq!(state.snapshot().port, state.profile.port);
}

#[test]
fn probes_take_the_key_that_is_given_or_stored() {
    let mut stored = Profile::default();
    stored.kimi.api_key = "stored".into();
    let given = plan_probe(&j(r#"{"base_url": " https://a.test/ ", "api_key": " k "}"#), &stored).ok().unwrap();
    assert_eq!((given.base_url.as_str(), given.api_key.as_str()), ("https://a.test", "k"));
    let kept = plan_probe(&j(r#"{"base_url": "x", "api_key": " ", "channel": "kimi"}"#), &stored).ok().unwrap();
    assert_eq!(kept.api_key, "stored");
    let refused = |body: &str| probe_models(body.as_bytes(), &stored).err().unwrap();
    assert_eq!(refused("{}"), "缺少 base_url");
    assert_eq!(refused(r#"{"base_url": "x"}"#), "缺少 api_key 且未指定已保存的 channel");
    assert_eq!(refused(r#"{"base_url": "x", "channel": "deepseek"}"#), "该渠道尚未保存 API Key");
    assert_eq!(refused(r#"{"base_url": "x", "channel": "official"}"#), "该渠道尚未保存 API Key");
    assert_eq!(probe_headers("k")[0].1, "Bearer k");
}

#[test]
fn probes_end_with_an_answer_or_the_last_words() {
    let answered = |status: u16, text: &str| ProbeOutcome::Answered { status, text: text.to_string() };
    assert_eq!(probe_answer("u", &ProbeOutcome::Failed("x".to_string())).unwrap_err(), "请求 u 失败:x");
    assert_eq!(
        probe_answer("u", &answered(404, &"é".repeat(201))).unwrap_err(),
        format!("u → 上游 404:{}", "é".repeat(200))
    );
    assert_eq!(
        probe_answer("u", &answered(200, "x")).unwrap_err(),
        "u → 上游返回不是 JSON:expected value at line 1 column 1"
    );
    let mut run = ProbeRun::new();
    assert!(run.take("u", &answered(500, "e")));
    assert!(!run.take("v", &answered(200, r#"{"data": [{"id": "a"}, {"x": 1}, {"id": "b", "display_name": "B"}]}"#)));
    assert_eq!(
        finish_probe(run).unwrap().render(),
        r#"{"models":[{"id":"a","display_name":"a"},{"id":"b","display_name":"B"}]}"#
    );
    let mut none = ProbeRun::new();
    assert!(none.take("u", &answered(500, "e")));
    assert!(!none.take("v", &answered(200, "null")));
    assert_eq!(finish_probe(none).unwrap_err(), "u → 上游 500:e");
    assert_eq!(models_payload(&j("{}")).render(), r#"{"models":[]}"#);
}

#[test]
fn requests_tell_the_length_of_their_bodies() {
    let header = |value: &str| vec![("content-length".to_string(), value.to_string())];
    assert_eq!(body_length(&header("12")).unwrap(), 12);
    assert_eq!(body_length(&header("x")).unwrap(), 0);
    assert_eq!(body_length(&vec![]).unwrap(), 0);
    assert_eq!(body_length(&header("67108865")).unwrap_err(), "请求体超过上限");
}

#[test]
fn responses_are_written_out() {
    for (status, words) in [(200, "OK"), (400, "Bad Request"), (404, "Not Found"), (502, "Bad Gateway"), (500, "Error")] {
        assert_eq!(reason(status), words);
    }
    assert_eq!(
        respond_text(404, "text/plain", "é"),
        "HTTP/1.1 404 Not Found\r\ncontent-type: text/plain\r\ncontent-length: 2\r\nconnection: close\r\n\r\né"
    );
    assert!(respond_json(200, &j("[1]")).ends_with("content-type: application/json\r\ncontent-length: 3\r\nconnection: close\r\n\r\n[1]"));
    assert_eq!(log_entry(5, "a", Json::Null).render(), r#"{"ts_ms":5,"action":"a","detail":null}"#);
}

#[test]
fn no_switch_breaks_conversations_off_silently() {
    let busy = j(r#"{"running": true, "detail": {"daemon": {"active_conversations": 1}}}"#);
    let state = AppState::new(Profile::default(), 1);
    assert_eq!(
        switch_mode(br#"{"mode": "official"}"#, &state, &busy).err().unwrap(),
        "有 1 个会话正在进行,切换会重启 Science 并打断它们。确认后重试。"
    );
    let plan = switch_mode(br#"{"mode": "official", "force": true}"#, &state, &busy).ok().unwrap();
    assert!(plan.restart);
    assert_eq!(switch_mode(br#"{"mode": "kimi"}"#, &state, &busy).err().unwrap(), "缺少 API Key");
}
