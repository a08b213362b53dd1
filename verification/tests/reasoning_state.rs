use csswitch_gateway::json::Json;
use csswitch_gateway::reasoning_rollback::{plan_recovery, plan_rollback, Change};
use csswitch_gateway::reasoning_state::{
    fate_of_entry, plan_cleanup, read_plaintext, rollback_refusal, temp_name, validate_private_file, validate_private_root, written_digest, EntryInfo,
    FileFacts, FoundEntry, PendingCommit, ReasoningStore, RestorePolicy, RestoreStep, MAX_ENTRIES, MAX_ENTRY_BYTES,
};
use std::cell::RefCell;
use std::collections::BTreeMap;

fn j(text: &str) -> Json {
    Json::parse(text).unwrap()
}

#[allow(dead_code)]
trait Piece {
    fn piece(&self) -> String;
}

impl Piece for Json {
    fn piece(&self) -> String {
        self.render()
    }
}

impl Piece for str {
    fn piece(&self) -> String {
        Json::text(self).render()
    }
}

impl Piece for String {
    fn piece(&self) -> String {
        Json::text(self).render()
    }
}

impl Piece for u64 {
    fn piece(&self) -> String {
        self.to_string()
    }
}

impl Piece for usize {
    fn piece(&self) -> String {
        self.to_string()
    }
}

impl<T: Piece + ?Sized> Piece for &T {
    fn piece(&self) -> String {
        (**self).piece()
    }
}

impl<T: Piece> Piece for Vec<T> {
    fn piece(&self) -> String {
        let items: Vec<String> = self.iter().map(|item| item.piece()).collect();
        format!("[{}]", items.join(","))
    }
}

#[allow(dead_code)]
fn piece<T: Piece + ?Sized>(value: &T) -> String {
    value.piece()
}

#[allow(dead_code)]
fn at<'a>(value: &'a Json, path: &[&str]) -> &'a Json {
    let mut here = value;
    for step in path {
        let next = match here {
            Json::Array(items) => step.parse::<usize>().ok().and_then(|index| items.get(index)),
            other => other.get(step),
        };
        here = match next {
            Some(found) => found,
            None => return Box::leak(Box::new(Json::Null)),
        };
    }
    here
}

#[allow(dead_code)]
fn at_mut<'a>(value: &'a mut Json, path: &[&str]) -> &'a mut Json {
    let mut here = value;
    for step in path {
        here = match here {
            Json::Array(items) => &mut items[step.parse::<usize>().unwrap()],
            Json::Object(entries) => {
                let place = entries.iter().position(|entry| entry.0 == *step);
                let index = place.unwrap_or_else(|| {
                    entries.push((step.to_string(), Json::Null));
                    entries.len() - 1
                });
                &mut entries[index].1
            }
            _ => panic!("no value at {step}"),
        };
    }
    here
}

/// The time at which everything happens, in seconds since the start of 1970.
const NOW: u64 = 1_787_000_000;

/// A directory that is kept in memory.
struct TestRoot(RefCell<BTreeMap<String, Vec<u8>>>);

impl TestRoot {
    fn new() -> Self {
        Self(RefCell::new(BTreeMap::new()))
    }

    fn read(&self, name: &str) -> Vec<u8> {
        self.0.borrow()[name].clone()
    }

    fn write(&self, name: &str, bytes: Vec<u8>) {
        self.0.borrow_mut().insert(name.to_string(), bytes);
    }

    fn holds(&self, name: &str) -> bool {
        self.0.borrow().contains_key(name)
    }

    fn entry(&self) -> String {
        self.0.borrow().keys().next().unwrap().clone()
    }

    fn count(&self) -> usize {
        self.0.borrow().len()
    }

    fn list(&self) -> Vec<EntryInfo> {
        self.0
            .borrow()
            .iter()
            .map(|(name, bytes)| EntryInfo { name: name.clone(), size: bytes.len() as u64, modified: i128::from(NOW) * 1_000_000_000 })
            .collect()
    }
}

/// A store together with its directory.
struct Store<'a> {
    store: ReasoningStore,
    root: &'a TestRoot,
}

/// What was written, and what it replaced.
struct Committed<'a> {
    root: &'a TestRoot,
    target: String,
    previous: Option<Vec<u8>>,
    written: Vec<u8>,
    evicted: Vec<(String, Vec<u8>)>,
}

impl<'a> Store<'a> {
    fn open(
        root: &'a TestRoot,
        credential: &str,
        contract: &str,
        endpoint: &str,
        scope: &str,
    ) -> Result<Store<'a>, String> {
        Ok(Store { store: ReasoningStore::open(credential, contract, endpoint, scope)?, root })
    }

    fn capture_message(
        &self,
        request: &Json,
        response: &Json,
        model: &str,
        policy: RestorePolicy,
    ) -> Result<Option<PendingCommit>, String> {
        self.store.capture_message(request, response, model, policy, NOW)
    }

    fn commit(&self, pending: PendingCommit) -> Result<Committed<'a>, String> {
        let names = plan_cleanup(&self.root.list(), pending.encrypted.len() as u64, Some(&pending.target))?;
        let evicted = names
            .into_iter()
            .map(|name| {
                let bytes = self.root.0.borrow_mut().remove(&name).unwrap();
                (name, bytes)
            })
            .collect();
        let written = written_digest(&pending.encrypted);
        let previous = self.root.0.borrow_mut().insert(pending.target.clone(), pending.encrypted);
        Ok(Committed { root: self.root, target: pending.target, previous, written, evicted })
    }

    fn restore_request(&self, request: &mut Json, model: &str, policy: RestorePolicy) -> Result<(), String> {
        let mut restoration = self.store.begin_restore(request, model, policy)?;
        loop {
            match self.store.next_restore(&mut restoration)? {
                RestoreStep::Done => break,
                RestoreStep::Read(name) => {
                    let file = self.root.0.borrow().get(&name).cloned();
                    self.store.provide_restore(&mut restoration, file.as_ref(), NOW)?;
                }
            }
        }
        restoration.finish(request);
        Ok(())
    }
}

impl Committed<'_> {
    fn rollback(self) -> Result<(), String> {
        let found = match self.root.0.borrow().get(&self.target) {
            Some(bytes) => FoundEntry::File(bytes.clone()),
            None => FoundEntry::Nothing,
        };
        if let Some(reason) = rollback_refusal(&found, &self.written) {
            return Err(reason);
        }
        self.root.0.borrow_mut().remove(&self.target);
        if let Some(bytes) = self.previous {
            self.root.write(&self.target, bytes);
        }
        for (name, bytes) in self.evicted {
            self.root.write(&name, bytes);
        }
        Ok(())
    }
}

fn store<'a>(root: &'a TestRoot, scope: &str) -> Store<'a> {
    Store::open(
        root,
        "test-provider-credential",
        "kimi-anthropic-relay",
        "https://provider.invalid/v1/messages",
        scope,
    )
    .unwrap()
}

fn first_request() -> Json {
    j(r#"{"messages": [{"role": "user", "content": "hello"}]}"#)
}

fn complete_response(content: Json, stop_reason: &str) -> Json {
    j(&format!(r#"{{"id": "msg_test", "type": "message", "role": "assistant", "model": "provider-model", "content": {}, "stop_reason": {}, "usage": {{"input_tokens": 1, "output_tokens": 1}}}}"#, piece(&(content)), piece(&(stop_reason))))
}

#[test]
fn store_round_trip_survives_restart_and_key_order_changes() {
    let root = TestRoot::new();
    let request = first_request();
    let response = complete_response(
        j(r#"[{"type": "thinking", "thinking": "provider-only", "signature": "opaque"}, {"type": "tool_use", "id": "toolu_1", "name": "python", "input": {"code": "1+1"}}]"#),
        "tool_use",
    );
    let first = store(&root, "profile-a");
    let pending = first
        .capture_message(&request, &response, "k3", RestorePolicy::DeepSeekToolUse)
        .unwrap()
        .unwrap();
    first.commit(pending).unwrap();
    let encrypted = root.read(&root.entry());
    assert!(!encrypted
        .windows(b"provider-only".len())
        .any(|window| window == b"provider-only"));

    // Rebuild the tool_use block with the keys inserted in a different
    // order: the fingerprint is semantic, so it must still match.
    let tool_use = j(r#"{"input": {"code": "1+1"}, "name": "python", "id": "toolu_1", "type": "tool_use"}"#);
    let mut next = j(r#"{"messages": [{"role": "user", "content": "hello"}, {"role": "assistant", "content": []}, {"role": "user", "content": [{"type": "tool_result", "tool_use_id": "toolu_1", "content": "2"}]}]}"#);
    *at_mut(&mut next, &["messages", "1", "content"]) = Json::Array(vec![tool_use]);
    drop(first);

    let restarted = store(&root, "profile-a");
    restarted
        .restore_request(&mut next, "k3", RestorePolicy::DeepSeekToolUse)
        .unwrap();
    assert_eq!(at(&next, &["messages", "1", "content", "0", "thinking"]).as_str(), Some("provider-only"));
    assert_eq!(at(&next, &["messages", "1", "content", "1", "id"]).as_str(), Some("toolu_1"));
}

#[test]
fn semantic_history_fingerprint_survives_two_rounds_and_cache_control_movement() {
    let root = TestRoot::new();
    let store = store(&root, "profile-semantic-history");
    let first_request = j(r#"{"messages": [{"role": "user", "content": "hello"}]}"#);
    let first_response = complete_response(
        j(r#"[{"type": "thinking", "thinking": "first-plan", "signature": "first-sig"}, {"type": "tool_use", "id": "toolu_1", "name": "python", "input": {"code": "1"}}]"#),
        "tool_use",
    );
    let first_pending = store
        .capture_message(
            &first_request,
            &first_response,
            "k3",
            RestorePolicy::DeepSeekToolUse,
        )
        .unwrap()
        .unwrap();
    store.commit(first_pending).unwrap();

    // cache_control markers move between turns as the client re-anchors its
    // prompt cache; the fingerprint must ignore them.
    let mut second_request = j(r#"{"messages": [{"role": "user", "content": [{"type": "text", "text": "hello", "cache_control": {"type": "ephemeral"}}]}, {"role": "assistant", "content": [{"type": "tool_use", "id": "toolu_1", "name": "python", "input": {"code": "1"}}]}, {"role": "user", "content": [{"type": "tool_result", "tool_use_id": "toolu_1", "content": "1"}]}]}"#);
    store
        .restore_request(&mut second_request, "k3", RestorePolicy::DeepSeekToolUse)
        .unwrap();
    assert_eq!(at(&second_request, &["messages", "1", "content", "0", "thinking"]).as_str(), Some("first-plan"));

    let second_response = complete_response(
        j(r#"[{"type": "thinking", "thinking": "second-plan", "signature": "second-sig"}, {"type": "tool_use", "id": "toolu_2", "name": "python", "input": {"code": "2"}}]"#),
        "tool_use",
    );
    let second_pending = store
        .capture_message(
            &second_request,
            &second_response,
            "k3",
            RestorePolicy::DeepSeekToolUse,
        )
        .unwrap()
        .unwrap();
    store.commit(second_pending).unwrap();

    let third_template = j(r#"{"messages": [{"role": "user", "content": "hello"}, {"role": "assistant", "content": [{"type": "tool_use", "id": "toolu_1", "name": "python", "input": {"code": "1"}, "cache_control": {"type": "ephemeral"}}]}, {"role": "user", "content": [{"type": "tool_result", "tool_use_id": "toolu_1", "content": "1", "cache_control": {"type": "ephemeral"}}]}, {"role": "assistant", "content": [{"type": "tool_use", "id": "toolu_2", "name": "python", "input": {"code": "2"}}]}, {"role": "user", "content": [{"type": "tool_result", "tool_use_id": "toolu_2", "content": "2"}]}]}"#);
    let mut third_request = third_template.clone();
    store
        .restore_request(&mut third_request, "k3", RestorePolicy::DeepSeekToolUse)
        .unwrap();
    assert_eq!(at(&third_request, &["messages", "1", "content", "0", "thinking"]).as_str(), Some("first-plan"));
    assert_eq!(at(&third_request, &["messages", "3", "content", "0", "thinking"]).as_str(), Some("second-plan"));

    // A genuine history edit must fail closed rather than replay stale state.
    let mut changed_tool = third_template;
    *at_mut(&mut changed_tool, &["messages", "1", "content", "0", "input"]) = j(r#"{"code": "changed"}"#);
    assert!(store
        .restore_request(&mut changed_tool, "k3", RestorePolicy::DeepSeekToolUse)
        .is_err());
}

#[test]
fn deepseek_restores_only_tool_use_reasoning_and_rollback_removes_new_entry() {
    let root = TestRoot::new();
    let store = Store::open(
        &root,
        "deepseek-key",
        "deepseek-native",
        "https://api.deepseek.invalid/anthropic/v1/messages",
        "profile-ds",
    )
    .unwrap();
    let request = first_request();
    let pure = complete_response(
        j(r#"[{"type": "thinking", "thinking": "pure", "signature": "sig"}, {"type": "text", "text": "answer"}]"#),
        "end_turn",
    );
    assert!(store
        .capture_message(
            &request,
            &pure,
            "deepseek-v4-pro",
            RestorePolicy::DeepSeekToolUse
        )
        .unwrap()
        .is_none());

    let tool = complete_response(
        j(r#"[{"type": "thinking", "thinking": "tool-plan", "signature": "sig"}, {"type": "tool_use", "id": "toolu_1", "name": "python", "input": {"code": "1+1"}}]"#),
        "tool_use",
    );
    let pending = store
        .capture_message(
            &request,
            &tool,
            "deepseek-v4-pro",
            RestorePolicy::DeepSeekToolUse,
        )
        .unwrap()
        .unwrap();
    let committed = store.commit(pending).unwrap();
    let entry = root.entry();
    let mut next = j(r#"{"messages": [{"role": "user", "content": [{"type": "text", "text": "hello", "cache_control": {"type": "ephemeral"}}]}, {"role": "assistant", "content": [{"type": "tool_use", "id": "toolu_1", "name": "python", "input": {"code": "1+1"}, "cache_control": {"type": "ephemeral"}}]}, {"role": "user", "content": [{"type": "tool_result", "tool_use_id": "toolu_1", "content": "2", "cache_control": {"type": "ephemeral"}}]}]}"#);
    store
        .restore_request(&mut next, "deepseek-v4-pro", RestorePolicy::DeepSeekToolUse)
        .unwrap();
    assert_eq!(at(&next, &["messages", "1", "content", "0", "thinking"]).as_str(), Some("tool-plan"));

    let second_tool = complete_response(
        j(r#"[{"type": "thinking", "thinking": "second-tool-plan", "signature": "sig-2"}, {"type": "tool_use", "id": "toolu_2", "name": "search_skills", "input": {"query": "pubmed"}}]"#),
        "tool_use",
    );
    let second_pending = store
        .capture_message(
            &next,
            &second_tool,
            "deepseek-v4-pro",
            RestorePolicy::DeepSeekToolUse,
        )
        .unwrap()
        .unwrap();
    let second_committed = store.commit(second_pending).unwrap();
    let mut chained = next.clone();
    *at_mut(&mut chained, &["messages", "1", "content"]) = j(r#"[{"type": "tool_use", "id": "toolu_1", "name": "python", "input": {"code": "1+1"}}]"#);
    *at_mut(&mut chained, &["messages", "2", "content", "0", "content"]) = j(r#"[{"type": "text", "text": "2"}]"#);
    at_mut(&mut chained, &["messages"]).as_array_mut().unwrap().extend([
        j(r#"{"role": "assistant", "content": [{"type": "tool_use", "id": "toolu_2", "name": "search_skills", "input": {"query": "pubmed"}}]}"#),
        j(r#"{"role": "user", "content": [{"type": "tool_result", "tool_use_id": "toolu_2", "content": "found"}]}"#),
    ]);
    let mut changed_result = chained.clone();
    *at_mut(&mut changed_result, &["messages", "2", "content", "0", "content", "0", "text"]) = j(r#""3""#);
    assert!(store
        .restore_request(
            &mut changed_result,
            "deepseek-v4-pro",
            RestorePolicy::DeepSeekToolUse,
        )
        .is_err());
    store
        .restore_request(
            &mut chained,
            "deepseek-v4-pro",
            RestorePolicy::DeepSeekToolUse,
        )
        .unwrap();
    assert_eq!(at(&chained, &["messages", "1", "content", "0", "thinking"]).as_str(), Some("tool-plan"));
    assert_eq!(at(&chained, &["messages", "3", "content", "0", "thinking"]).as_str(), Some("second-tool-plan"));
    second_committed.rollback().unwrap();
    committed.rollback().unwrap();
    assert!(!root.holds(&entry));

    let search = complete_response(
        j(r#"[{"type": "thinking", "thinking": "search-plan", "signature": "search-sig"}, {"type": "server_tool_use", "id": "srv_1", "name": "web_search", "input": {"query": "x"}}, {"type": "web_search_tool_result", "tool_use_id": "srv_1", "content": []}, {"type": "text", "text": "search answer"}]"#),
        "end_turn",
    );
    let pending = store
        .capture_message(
            &request,
            &search,
            "deepseek-v4-pro",
            RestorePolicy::DeepSeekToolUse,
        )
        .unwrap()
        .unwrap();
    store.commit(pending).unwrap();
    let mut next = j(r#"{"messages": [{"role": "user", "content": "hello"}, {"role": "assistant", "content": [{"type": "server_tool_use", "id": "srv_1", "name": "web_search", "input": {"query": "x"}}, {"type": "web_search_tool_result", "tool_use_id": "srv_1", "content": []}, {"type": "text", "text": "search answer"}]}, {"role": "user", "content": "follow up"}]}"#);
    store
        .restore_request(&mut next, "deepseek-v4-pro", RestorePolicy::DeepSeekToolUse)
        .unwrap();
    assert_eq!(at(&next, &["messages", "1", "content", "0", "thinking"]).as_str(), Some("search-plan"));
}

#[test]
fn deepseek_disabled_tool_use_tombstone_preserves_explicit_no_reasoning() {
    let root = TestRoot::new();
    let store = Store::open(
        &root,
        "deepseek-key",
        "deepseek-native",
        "https://api.deepseek.invalid/anthropic/v1/messages",
        "profile-disabled-tool",
    )
    .unwrap();
    let request = j(r#"{"thinking": {"type": "disabled"}, "messages": [{"role": "user", "content": "calculate"}]}"#);
    let response = complete_response(
        j(r#"[{"type": "tool_use", "id": "toolu_disabled_python", "name": "python", "input": {"code": "1+1"}}]"#),
        "tool_use",
    );
    let pending = store
        .capture_message(
            &request,
            &response,
            "deepseek-v4-pro",
            RestorePolicy::DeepSeekToolUse,
        )
        .unwrap()
        .unwrap();
    store.commit(pending).unwrap();
    let encrypted = root.read(&root.entry());
    assert!(!encrypted
        .windows(b"toolu_disabled_python".len())
        .any(|window| window == b"toolu_disabled_python"));

    let mut follow_up = j(r#"{"thinking": {"type": "auto"}, "messages": [{"role": "user", "content": "calculate"}, {"role": "assistant", "content": [{"type": "tool_use", "id": "toolu_disabled_python", "name": "python", "input": {"code": "1+1"}}]}, {"role": "user", "content": [{"type": "tool_result", "tool_use_id": "toolu_disabled_python", "content": "2"}]}]}"#);
    store
        .restore_request(
            &mut follow_up,
            "deepseek-v4-pro",
            RestorePolicy::DeepSeekToolUse,
        )
        .unwrap();
    assert_eq!(at(&follow_up, &["messages", "1", "content"])
            .as_array()
            .unwrap()
            .len(), 1);
    assert_eq!(at(&follow_up, &["messages", "1", "content", "0", "type"]).as_str(), Some("tool_use"));

    let mut changed_tool = follow_up.clone();
    *at_mut(&mut changed_tool, &["messages", "1", "content", "0", "input"]) = j(r#"{"code": "2+2"}"#);
    assert!(store
        .restore_request(
            &mut changed_tool,
            "deepseek-v4-pro",
            RestorePolicy::DeepSeekToolUse,
        )
        .is_err());

    let enabled_request = j(r#"{"thinking": {"type": "auto"}, "messages": [{"role": "user", "content": "calculate"}]}"#);
    assert!(store
        .capture_message(
            &enabled_request,
            &response,
            "deepseek-v4-pro",
            RestorePolicy::DeepSeekToolUse,
        )
        .is_err());
}

#[test]
fn tamper_scope_model_and_tool_replay_fail_closed() {
    let root = TestRoot::new();
    let request = first_request();
    let response = complete_response(
        j(r#"[{"type": "thinking", "thinking": "secret", "signature": "sig"}, {"type": "tool_use", "id": "toolu_1", "name": "python", "input": {"code": "1+1"}}]"#),
        "tool_use",
    );
    let first = store(&root, "profile-a");
    let first_pending = first
        .capture_message(&request, &response, "k3", RestorePolicy::DeepSeekToolUse)
        .unwrap()
        .unwrap();
    let first_target = first_pending.target.clone();
    first.commit(first_pending).unwrap();
    let clean_history = j(r#"{"messages": [{"role": "user", "content": "hello"}, {"role": "assistant", "content": [{"type": "tool_use", "id": "toolu_1", "name": "python", "input": {"code": "1+1"}}]}]}"#);

    let mut wrong_model = clean_history.clone();
    assert!(first
        .restore_request(&mut wrong_model, "k3-256k", RestorePolicy::DeepSeekToolUse)
        .is_err());
    let mut wrong_tool = clean_history.clone();
    *at_mut(&mut wrong_tool, &["messages", "1", "content", "0", "input"]) = j(r#"{"code": "2+2"}"#);
    assert!(first
        .restore_request(&mut wrong_tool, "k3", RestorePolicy::DeepSeekToolUse)
        .is_err());
    drop(first);

    let changed_scope = store(&root, "profile-b");
    let mut scoped = clean_history.clone();
    assert!(changed_scope
        .restore_request(&mut scoped, "k3", RestorePolicy::DeepSeekToolUse)
        .is_err());
    let second_response = complete_response(
        j(r#"[{"type": "thinking", "thinking": "other-secret", "signature": "other-sig"}, {"type": "tool_use", "id": "toolu_1", "name": "python", "input": {"code": "1+1"}}]"#),
        "tool_use",
    );
    let second_pending = changed_scope
        .capture_message(
            &request,
            &second_response,
            "k3",
            RestorePolicy::DeepSeekToolUse,
        )
        .unwrap()
        .unwrap();
    assert_ne!(first_target, second_pending.target);
    changed_scope.commit(second_pending).unwrap();
    assert_eq!(root.count(), 2);
    let mut scoped = clean_history.clone();
    changed_scope
        .restore_request(&mut scoped, "k3", RestorePolicy::DeepSeekToolUse)
        .unwrap();
    assert_eq!(at(&scoped, &["messages", "1", "content", "0", "thinking"]).as_str(), Some("other-secret"));
    drop(changed_scope);

    let reopened = store(&root, "profile-a");
    let mut original_scope = clean_history.clone();
    reopened
        .restore_request(&mut original_scope, "k3", RestorePolicy::DeepSeekToolUse)
        .unwrap();
    assert_eq!(at(&original_scope, &["messages", "1", "content", "0", "thinking"]).as_str(), Some("secret"));
    drop(reopened);

    let mut bytes = root.read(&first_target);
    let last = bytes.len() - 1;
    bytes[last] ^= 0x01;
    root.write(&first_target, bytes);
    let reopened = store(&root, "profile-a");
    let mut tampered = clean_history;
    assert!(reopened
        .restore_request(&mut tampered, "k3", RestorePolicy::DeepSeekToolUse)
        .is_err());
}

#[test]
fn unsafe_roots_entries_and_oversized_state_are_rejected() {
    let root = TestRoot::new();
    let bounded = store(&root, "bounded-profile");
    let half = "x".repeat(MAX_ENTRY_BYTES / 2);
    let response = complete_response(
        j(&format!(r#"[{{"type": "thinking", "thinking": {}, "signature": "sig-a"}}, {{"type": "thinking", "thinking": {}, "signature": "sig-b"}}, {{"type": "tool_use", "id": "toolu_1", "name": "python", "input": {{"code": "1"}}}}]"#, piece(&(half)), piece(&("x".repeat(MAX_ENTRY_BYTES / 2))))),
        "tool_use",
    );
    assert!(bounded
        .capture_message(
            &first_request(),
            &response,
            "k3",
            RestorePolicy::DeepSeekToolUse
        )
        .is_err());
    drop(bounded);

    let private = |is_file: bool, is_symlink: bool, mode: u32| FileFacts {
        is_dir: !is_file,
        is_file,
        is_symlink,
        uid: 501,
        mode,
    };
    assert!(validate_private_root(&private(false, true, 0o700), 501).is_err());
    assert!(validate_private_file(&private(true, true, 0o600), 501).is_err());
    assert!(validate_private_root(&private(false, false, 0o700), 501).is_ok());
    assert!(validate_private_file(&private(true, false, 0o600), 501).is_ok());
    assert!(fate_of_entry(MAX_ENTRY_BYTES as u64 + 1, 0, 0).is_err());
}

#[test]
fn provisional_commit_rollback_restores_capacity_evictions() {
    let root = TestRoot::new();
    let store = store(&root, "capacity-profile");
    let response = complete_response(
        j(r#"[{"type": "thinking", "thinking": "capacity-plan", "signature": "sig"}, {"type": "tool_use", "id": "toolu_1", "name": "python", "input": {"code": "1"}}]"#),
        "tool_use",
    );
    let pending = store
        .capture_message(
            &first_request(),
            &response,
            "k3",
            RestorePolicy::DeepSeekToolUse,
        )
        .unwrap()
        .unwrap();
    let target = pending.target.clone();

    let mut created = 0_usize;
    for index in 0_u64.. {
        if created == MAX_ENTRIES {
            break;
        }
        let name = format!("{index:064x}.rsn");
        if name == target {
            continue;
        }
        root.write(&name, format!("victim-{index}").into_bytes());
        created += 1;
    }

    let committed = store.commit(pending).unwrap();
    assert_eq!(committed.evicted.len(), 1);
    let evicted = committed.evicted[0].clone();
    assert!(!root.holds(&evicted.0));
    committed.rollback().unwrap();

    assert!(!root.holds(&target));
    assert_eq!(root.read(&evicted.0), evicted.1);
    assert_eq!(root.count(), MAX_ENTRIES);
}

#[test]
fn temporary_entries_are_named_after_their_bytes() {
    let bytes: Vec<u8> = (0u8..16).collect();
    assert_eq!(temp_name(&bytes), ".000102030405060708090a0b0c0d0e0f.tmp");
    assert_eq!(temp_name(&[255]), ".ff.tmp");
}

#[test]
fn taking_an_entry_back_gives_the_old_files_back_in_order() {
    let told = |changes: &[Change]| -> Vec<String> { changes.iter().map(|change| format!("{change:?}")).collect() };
    let evicted = || vec![("b".to_string(), vec![2]), ("c".to_string(), vec![3])];
    let back = ["PutBack { name: \"b\", bytes: [2] }", "PutBack { name: \"c\", bytes: [3] }"];
    assert_eq!(told(&plan_recovery(evicted())), back);
    let digest = written_digest(&vec![9]);
    let plan = plan_rollback(&FoundEntry::File(vec![9]), &digest, "a", Some(vec![1]), evicted());
    assert_eq!(told(&plan.changes), ["Write { name: \"a\", bytes: [1] }", back[0], back[1]]);
    assert!(plan.refusal.is_none());
    let plan = plan_rollback(&FoundEntry::File(vec![9]), &digest, "a", None, evicted());
    assert_eq!(told(&plan.changes), ["Remove { name: \"a\" }", back[0], back[1]]);
    let plan = plan_rollback(&FoundEntry::File(vec![8]), &digest, "a", None, evicted());
    assert_eq!(told(&plan.changes), back);
    assert_eq!(plan.refusal.unwrap(), "thinking continuity committed entry changed before rollback");
    let plan = plan_rollback(&FoundEntry::Nothing, &digest, "a", None, evicted());
    assert_eq!(plan.refusal.unwrap(), "thinking continuity committed entry is missing");
    let plan = plan_rollback(&FoundEntry::Fault("gone".to_string()), &digest, "a", Some(vec![1]), evicted());
    assert_eq!(told(&plan.changes), back);
    assert_eq!(plan.refusal.unwrap(), "gone");
}

fn plain(text: &str) -> Result<Json, String> {
    let entry = read_plaintext(text.as_bytes().to_vec())?;
    assert_eq!(entry.policy, RestorePolicy::DeepSeekToolUse);
    let tools: Vec<String> = entry.tools.iter().map(|t| format!("{}/{}/{}", t.id, t.name, t.input_digest)).collect();
    let blocks: Vec<String> = entry.blocks.iter().map(|b| format!("{}={}", b.index, b.block.render())).collect();
    Ok(Json::text(&format!(
        "{} {} {} {} {:?} {} {:?}",
        entry.version, entry.created_at, entry.fingerprint, entry.model, tools, entry.no_reasoning, blocks
    )))
}

const WRITTEN: &str = r#"{"version":1,"created_at":7,"fingerprint":"f","model":"m","policy":"DeepSeekToolUse","tools":[{"id":"t","name":"n","input_digest":"d"}],"no_reasoning":true,"blocks":[{"index":2,"block":{"type":"thinking"}}]}"#;

#[test]
fn records_are_read_from_objects_and_from_arrays() {
    let meant = plain(WRITTEN).unwrap();
    assert_eq!(meant, Json::text(r#"1 7 f m ["t/n/d"] true ["2={\"type\":\"thinking\"}"]"#));
    let array = r#"[1, 7, "f", "m", {"DeepSeekToolUse": null}, [["t", "n", "d"]], true, [[2, {"type": "thinking"}]]]"#;
    assert_eq!(plain(array).unwrap(), meant);
    let mixed = WRITTEN.replace(r#"{"id":"t","name":"n","input_digest":"d"}"#, r#"["t","n","d"]"#);
    assert_eq!(plain(&mixed).unwrap(), meant);
    let policy = WRITTEN.replace(r#""DeepSeekToolUse""#, r#"{"DeepSeekToolUse":null}"#);
    assert_eq!(plain(&policy).unwrap(), meant);
    let silent = WRITTEN.replace(r#""no_reasoning":true,"#, "");
    assert_ne!(plain(&silent).unwrap(), meant);
}

#[test]
fn strange_records_are_refused() {
    let refused = "thinking continuity entry payload is invalid";
    for (from, to) in [
        (r#""DeepSeekToolUse""#, r#"{"DeepSeekToolUse":1}"#),
        (r#""DeepSeekToolUse""#, r#"{"DeepSeekToolUse":null,"DeepSeekToolUse":null}"#),
        (r#""DeepSeekToolUse""#, r#""Other""#),
        (r#"{"id":"t","name":"n","input_digest":"d"}"#, r#"["t","n"]"#),
        (r#"{"id":"t","name":"n","input_digest":"d"}"#, r#"["t","n","d","x"]"#),
        (r#""id":"t","#, r#""id":"t","id":"t","#),
        (r#""index":2,"#, r#""index":2,"index":2,"#),
        (r#""version":1,"#, r#""version":1,"version":1,"#),
        (r#""version":1,"#, r#""version":1,"\u0076ersion":1,"#),
        (r#""version":1,"#, r#""version":256,"#),
        (r#""version":1,"#, r#""version":1.0,"#),
        (r#""model":"m","#, r#""model":"m","more":0,"#),
        (r#""model":"m","#, ""),
    ] {
        let text = WRITTEN.replace(from, to);
        assert_ne!(text, WRITTEN);
        assert_eq!(plain(&text).unwrap_err(), refused, "{}", to);
    }
    assert_eq!(plain(r#"[1,7,"f","m","DeepSeekToolUse",[],[]]"#).unwrap_err(), refused);
    assert_eq!(plain("not json").unwrap_err(), refused);
    let err = read_plaintext(vec![0xff, 0xfe]).err().unwrap();
    assert_eq!(err, refused);
}

#[test]
fn colons_in_strings_and_deep_values_may_repeat() {
    let deep = WRITTEN.replace(r#"{"type":"thinking"}"#, r#"{"type":"a","type":"thinking"}"#);
    assert_eq!(plain(&deep).unwrap(), plain(WRITTEN).unwrap());
    let colons = WRITTEN.replace(r#""f""#, r#""{[\\\":,\\""#);
    assert!(plain(&colons).is_ok());
}
