use csswitch_gateway::client::Client;
use csswitch_gateway::json::Json;
use csswitch_gateway::paths::{join_path, parent_dir, same_path};
use csswitch_gateway::sandbox::{
    command_line_contains_data_dir, create_keychain_args, daemon_env, data_dir_args, find_executable, gh_bridge_env, gh_bridge_warnings,
    gh_wrapper_script, health_step, keychain_entry_args, keychain_password_path, keychain_path, keychain_setup_args,
    launch_failure, lock_path, lock_pid, lock_version, look_step, next_start_step, pin_cookie_host, pinned_or_same, port_failure,
    sandbox_bin_dir, sandbox_data_dir, sandbox_home, sandbox_home_env, sandbox_process_pid, sandbox_root, serve_args,
    shell_quote, should_link, should_purge_keychain, ssh_entries, started, status, stop_complaint, stop_failure, stop_timeout,
    stored_password, Candidate, LoginAction, StartStep, StartTask, StopRun, Wait, COOKIE_HOST, DAEMON_PORT, PREVIEW_PORT,
};

fn j(text: &str) -> Json {
    Json::parse(text).unwrap()
}

fn client() -> Client {
    Client::new("atlas", "Atlas")
}

#[test]
fn the_daemon_is_started_in_the_sandbox_layout() {
    let data_dir = "/tmp/sandbox/home/.atlas-science";
    let args = serve_args(data_dir);
    let joined = args.join(" ");
    assert!(joined.contains("--data-dir /tmp/sandbox/home/.atlas-science"));
    assert!(joined.contains("--host 127.0.0.1"));
    assert!(joined.contains("--port 8790"));
    assert!(joined.contains("--sandbox-port 8791"));
    assert!(joined.contains("--no-browser"));
    assert!(joined.contains("--no-auto-update"));
    assert!(joined.contains("--detached"));
    assert!(!joined.contains("8765"), "绝不碰真实实例保留端口");
}

#[test]
fn entry_url_host_is_pinned_away_from_the_real_instance() {
    assert_eq!(
        pin_cookie_host("http://localhost:8790/?nonce=abc123"),
        "http://127.0.0.1:8790/?nonce=abc123"
    );
    assert_eq!(
        pin_cookie_host("http://localhost:8790/bio/?nonce=abc123"),
        "http://127.0.0.1:8790/bio/?nonce=abc123"
    );
    assert_eq!(
        pin_cookie_host("http://127.0.0.1:8790/?nonce=abc123"),
        "http://127.0.0.1:8790/?nonce=abc123"
    );
    assert_eq!(pin_cookie_host("not a url"), "not a url");
    assert_ne!(
        COOKIE_HOST, "localhost",
        "沙箱主机名必须与真实实例的 localhost 不同,否则 cookie 作用域又合流"
    );
}

#[test]
fn a_link_that_cannot_be_pinned_is_kept() {
    assert_eq!(pinned_or_same("a", None), "a");
    assert_eq!(pinned_or_same("a", Some("b".to_string())), "b");
    assert_eq!(pin_cookie_host("mailto:a@b.test"), "mailto:a@b.test");
}

#[test]
fn daemon_env_injects_home_base_url_and_fastfail_proxy() {
    let env = daemon_env(&client(), "/tmp/sandbox/home", "http://127.0.0.1:8788");
    let get = |key: &str| {
        env.iter()
            .find(|(k, _)| k == key)
            .map(|(_, v)| v.as_str())
    };
    assert_eq!(get("HOME"), Some("/tmp/sandbox/home"));
    assert_eq!(get("ANTHROPIC_BASE_URL"), Some("http://127.0.0.1:8788"));
    // 外联快速失败代理 = 网关自身(非推理路径显式 404)。
    assert_eq!(get("https_proxy"), Some("http://127.0.0.1:8788"));
    assert_eq!(get("HTTPS_PROXY"), Some("http://127.0.0.1:8788"));
    assert_eq!(get("no_proxy"), Some(client().direct_hosts().as_str()));
    assert!(client().direct_hosts().contains("127.0.0.1"), "回环必须走直连");
    assert!(get("ANTHROPIC_MODEL").is_none());
    assert!(get("ANTHROPIC_API_KEY").is_none());
    assert_eq!(sandbox_home_env("/h"), vec![("HOME".to_string(), "/h".to_string())]);
}

#[test]
fn sandbox_ports_avoid_the_real_instance() {
    assert_ne!(DAEMON_PORT, 8765);
    assert_ne!(PREVIEW_PORT, 8765);
    assert_ne!(DAEMON_PORT, 8767);
    assert_ne!(PREVIEW_PORT, 8767);
    assert_ne!(DAEMON_PORT, 8788, "不得与网关自身冲突");
    assert_ne!(PREVIEW_PORT, 8788);
    assert_eq!(PREVIEW_PORT, DAEMON_PORT + 1);
}

#[test]
fn lock_pid_parsing_is_strict() {
    assert_eq!(lock_pid(&j(r#"{"pid": 123}"#)), Some(123));
    assert_eq!(lock_pid(&j(r#"{"pid": 0}"#)), None);
    assert_eq!(lock_pid(&j(r#"{"pid": -1}"#)), None);
    assert_eq!(lock_pid(&j(r#"{"pid": "123"}"#)), None);
    assert_eq!(lock_pid(&j(r#"{}"#)), None);
    assert_eq!(lock_pid(&j(r#"{"pid": 2147483648}"#)), None);
    assert_eq!(lock_pid(&j(r#"{"pid": 2147483647}"#)), Some(i32::MAX));
}

#[test]
fn keychain_purge_only_when_login_was_rewritten() {
    assert!(!should_purge_keychain(LoginAction::Reused));
    assert!(should_purge_keychain(LoginAction::Repaired));
    assert!(should_purge_keychain(LoginAction::Created));
}

#[test]
fn only_the_daemon_of_the_exact_data_dir_is_killed() {
    let data_dir = "/Users/x/.csswitch/science-sandbox/home/.atlas-science";
    // 正例:沙箱 daemon 本人的命令行。
    assert!(command_line_contains_data_dir(
        &client(),
        "/Users/x/.atlas-science/bin/atlas-science serve --data-dir \
         /Users/x/.csswitch/science-sandbox/home/.atlas-science --host 127.0.0.1 --port 8790",
        data_dir
    ));
    // pid 复用到别的进程:不含 atlas-science → 拒。
    assert!(!command_line_contains_data_dir(
        &client(),
        "/usr/bin/python3 -m http.server --data-dir /Users/x/.csswitch/science-sandbox/home/.atlas-science",
        data_dir
    ));
    // 真实实例:含 atlas-science 但 data-dir 不同 → 拒。
    assert!(!command_line_contains_data_dir(
        &client(),
        "/Users/x/.atlas-science/bin/atlas-science serve --detached --no-browser",
        data_dir
    ));
    // 前缀相似的别的目录(……/home/.atlas-science-other)→ 拒。
    assert!(!command_line_contains_data_dir(
        &client(),
        "/Users/x/.atlas-science/bin/atlas-science serve --data-dir \
         /Users/x/.csswitch/science-sandbox/home/.atlas-science-other --port 8999",
        data_dir
    ));
    // 同一 data-dir 的瞬时 CLI 调用(url/stop,无 serve)→ 拒。
    assert!(!command_line_contains_data_dir(
        &client(),
        "/Users/x/.atlas-science/bin/atlas-science url --data-dir \
         /Users/x/.csswitch/science-sandbox/home/.atlas-science",
        data_dir
    ));
    assert!(!command_line_contains_data_dir(&client(), "", data_dir));
}

#[test]
fn shell_quote_survives_single_quotes_and_spaces() {
    assert_eq!(shell_quote("/Users/a b/c"), "'/Users/a b/c'");
    assert_eq!(shell_quote("it's"), "'it'\\''s'");
}

#[test]
fn gh_bridge_env_prepends_path_and_routes_github_git_credentials_to_gh() {
    let env = gh_bridge_env("/sb/bin/gh", Some("/usr/bin:/bin"), false);
    let get = |key: &str| env.iter().find(|(k, _)| k == key).map(|(_, v)| v.as_str());
    assert_eq!(get("PATH"), Some("/sb/bin:/usr/bin:/bin"));
    assert_eq!(get("GIT_CONFIG_COUNT"), Some("4"));
    for (index, host) in [(0, "github.com"), (2, "gist.github.com")] {
        let key = format!("credential.https://{host}.helper");
        // 先清空(去掉沙箱 HOME 下无效的 osxkeychain),再指向 gh。
        assert_eq!(get(&format!("GIT_CONFIG_KEY_{index}")), Some(key.as_str()));
        assert_eq!(get(&format!("GIT_CONFIG_VALUE_{index}")), Some(""));
        assert_eq!(get(&format!("GIT_CONFIG_KEY_{}", index + 1)), Some(key.as_str()));
        assert_eq!(
            get(&format!("GIT_CONFIG_VALUE_{}", index + 1)),
            Some("!'/sb/bin/gh' auth git-credential")
        );
    }
}

#[test]
fn what_the_gh_bridge_leaves_out_is_told() {
    let path = "警告:继承的 PATH 不可用,沙箱 gh 桥接只对 git 生效";
    let git = "警告:环境里已有 GIT_CONFIG_COUNT,沙箱 git 不改用 gh 凭据";
    assert!(gh_bridge_warnings(Some("/bin"), false).is_empty());
    assert_eq!(gh_bridge_warnings(None, false), [path]);
    assert_eq!(gh_bridge_warnings(Some(""), true), [path, git]);
    assert_eq!(gh_bridge_warnings(Some("/bin"), true), [git]);
}

#[test]
fn gh_bridge_env_never_clobbers_existing_git_config_env_or_a_missing_path() {
    let env = gh_bridge_env("/sb/bin/gh", Some("/usr/bin"), true);
    assert_eq!(env, vec![("PATH".to_string(), "/sb/bin:/usr/bin".to_string())]);
    // PATH 不可用时不能只留包装目录,否则 daemon 找不到任何系统命令。
    let env = gh_bridge_env("/sb/bin/gh", None, false);
    assert!(env.iter().all(|(k, _)| k != "PATH"));
    assert!(env.iter().any(|(k, _)| k == "GIT_CONFIG_COUNT"));
    assert!(gh_bridge_env("/sb/bin/gh", Some(""), true).is_empty());
}

#[test]
fn the_gh_wrapper_runs_the_real_program_with_the_real_home() {
    let script = gh_wrapper_script("/Users/a b", "/opt/it's/gh");
    assert!(script.starts_with("#!/bin/sh\n# "));
    assert!(script.ends_with("HOME='/Users/a b' exec '/opt/it'\\''s/gh' \"$@\"\n"));
}

#[test]
fn the_sandbox_lies_below_the_users_home() {
    assert_eq!(sandbox_root("/Users/x"), "/Users/x/.csswitch/science-sandbox");
    assert_eq!(sandbox_home("/"), "/.csswitch/science-sandbox/home");
    assert_eq!(sandbox_data_dir(&client(), "/Users/x"), "/Users/x/.csswitch/science-sandbox/home/.atlas-science");
    assert_eq!(lock_path(&client(), "/u"), "/u/.csswitch/science-sandbox/home/.atlas-science/operon.lock");
    assert_eq!(keychain_path("/u"), "/u/.csswitch/science-sandbox/home/Library/Keychains/login.keychain-db");
    assert_eq!(keychain_password_path("/u"), "/u/.csswitch/science-sandbox/keychain.v1.pass");
    assert_eq!(sandbox_bin_dir("/u"), "/u/.csswitch/science-sandbox/bin");
}

#[test]
fn only_a_living_daemon_of_the_sandbox_counts() {
    let lock = j(r#"{"pid": 7, "version": "0.1.48"}"#);
    let line = "/bin/atlas-science serve --data-dir /d";
    assert_eq!(sandbox_process_pid(&client(), Some(&lock), true, Some(line), "/d"), Some(7));
    assert_eq!(sandbox_process_pid(&client(), Some(&lock), false, Some(line), "/d"), None);
    assert_eq!(sandbox_process_pid(&client(), Some(&lock), true, Some(line), "/e"), None);
    assert_eq!(sandbox_process_pid(&client(), Some(&lock), true, None, "/d"), None);
    assert_eq!(sandbox_process_pid(&client(), None, true, Some(line), "/d"), None);
    assert_eq!(lock_version(Some(&lock)).as_deref(), Some("0.1.48"));
    assert_eq!(lock_version(None), None);
}

#[test]
fn the_console_is_told_of_the_sandbox() {
    assert_eq!(
        status(true, Some(7), Some("1")).render(),
        r#"{"initialized":true,"running":true,"port":8790,"pid":7,"version":"1"}"#
    );
    assert_eq!(
        status(false, None, None).render(),
        r#"{"initialized":false,"running":false,"port":8790,"pid":null,"version":null}"#
    );
    assert_eq!(started("already-running", None).render(), r#"{"ok":true,"action":"already-running","url":null}"#);
}

#[test]
fn starts_run_every_task_in_turn() {
    let run = |action: LoginAction| {
        let mut tasks = vec![StartTask::SetUpKeychain];
        loop {
            match next_start_step(*tasks.last().unwrap(), None, action) {
                StartStep::Run(task) => tasks.push(task),
                StartStep::Started => return tasks,
                StartStep::Fail { error, .. } => panic!("{error}"),
            }
        }
    };
    assert_eq!(run(LoginAction::Reused).len(), 6);
    let created = run(LoginAction::Created);
    assert_eq!(created.len(), 7);
    assert_eq!(created[1], StartTask::PurgeKeychain);
    assert_eq!(created[6], StartTask::VerifyKeychain);
}

#[test]
fn failures_stop_a_daemon_that_runs() {
    for (task, stops) in [
        (StartTask::SetUpKeychain, false),
        (StartTask::FreeDaemonPort, false),
        (StartTask::FreePreviewPort, false),
        (StartTask::Launch, false),
        (StartTask::AwaitHealth, true),
        (StartTask::VerifyKeychain, true),
    ] {
        match next_start_step(task, Some("x".to_string()), LoginAction::Reused) {
            StartStep::Fail { stop_daemon, error } => {
                assert_eq!(stop_daemon, stops, "{task:?}");
                assert_eq!(error, "x");
            }
            _ => panic!("{task:?} went on"),
        }
    }
}

#[test]
fn waiting_ends() {
    assert_eq!(health_step(true, 5, 4), Wait::Done);
    assert_eq!(health_step(false, 3, 4), Wait::Again);
    assert_eq!(health_step(false, 4, 4), Wait::GiveUp);
    assert_eq!(look_step(true, 10, 10), Wait::Done);
    assert_eq!(look_step(false, 9, 10), Wait::Again);
    assert_eq!(look_step(false, 10, 10), Wait::GiveUp);
}

#[test]
fn a_daemon_that_does_not_run_is_stopped() {
    let exited = |success: bool, stderr: &str| stop_failure(&StopRun::Exited { success, stderr: stderr.to_string() });
    assert_eq!(exited(true, "x"), None);
    assert_eq!(exited(false, "Daemon is NOT RUNNING"), None);
    assert_eq!(exited(false, "No daemon"), None);
    assert_eq!(exited(false, " Ärger "), Some("停止沙箱 daemon 失败:ärger".to_string()));
    assert_eq!(stop_failure(&StopRun::Missing), None);
    assert_eq!(stop_failure(&StopRun::Failed("e".to_string())), Some("e".to_string()));
    assert_eq!(stop_complaint("not running"), None);
    assert_eq!(stop_timeout(7), "沙箱 daemon(pid 7)在 SIGTERM 后 3 秒内未退出,请人工检查");
    assert_eq!(launch_failure(" x \n"), "启动沙箱 daemon 失败:x");
    assert_eq!(
        port_failure(8790, "in use"),
        "沙箱端口 8790 已被占用:in use。免登录沙箱使用固定端口,请释放后重试。"
    );
}

#[test]
fn programs_are_found_past_the_sandbox() {
    let found = |dir: &str, is_file: bool, mode: u32| Candidate { dir: dir.to_string(), is_file, mode };
    let list = vec![
        found("/sb/bin/", true, 0o755),
        found("/plain", true, 0o644),
        found("/dir", false, 0o755),
        found("/tools", true, 0o100),
    ];
    assert_eq!(find_executable(&list, "/sb/bin"), Some(3));
    assert_eq!(find_executable(&list[..1].iter().map(|c| found(&c.dir, c.is_file, c.mode)).collect(), "/sb/./bin"), None);
    assert_eq!(find_executable(&list, "/other"), Some(0));
}

#[test]
fn only_known_files_are_linked_and_none_is_replaced() {
    assert_eq!(ssh_entries(), ["config", "known_hosts"]);
    assert!(should_link(true, false));
    assert!(!should_link(true, true));
    assert!(!should_link(false, false));
}

#[test]
fn keychain_commands_name_the_sandboxs_keychain() {
    assert_eq!(create_keychain_args("/k", "pw"), ["create-keychain", "-p", "pw", "/k"]);
    let setup = keychain_setup_args("/k", "pw");
    assert_eq!(setup.len(), 4);
    assert_eq!(setup[0], ["list-keychains", "-d", "user", "-s", "/k"]);
    assert_eq!(setup[1], ["default-keychain", "-d", "user", "-s", "/k"]);
    assert_eq!(setup[2], ["unlock-keychain", "-p", "pw", "/k"]);
    assert_eq!(setup[3], ["set-keychain-settings", "/k"]);
    assert_eq!(
        keychain_entry_args("find-generic-password", "/k"),
        ["find-generic-password", "-s", "com.anthropic.operon-cli", "/k"]
    );
    assert_eq!(data_dir_args("stop", "/d"), ["stop", "--data-dir", "/d"]);
    assert_eq!(stored_password(" pw\n").as_deref(), Some("pw"));
    assert_eq!(stored_password(" \n"), None);
}

#[test]
fn paths_are_written_and_read_by_their_names() {
    assert_eq!(join_path("", "a"), "a");
    assert_eq!(join_path("/", "a"), "/a");
    assert_eq!(join_path("/b", "a"), "/b/a");
    for (path, parent) in [
        ("/sb/bin/gh", Some("/sb/bin")),
        ("/gh", Some("/")),
        ("gh", Some("")),
        ("/", None),
        ("", None),
        ("/a//b/./", Some("/a")),
        ("./a", Some(".")),
        ("//", None),
    ] {
        assert_eq!(parent_dir(path).as_deref(), parent, "{path}");
        assert_eq!(
            std::path::Path::new(path).parent().map(|dir| dir.to_str().unwrap()),
            parent,
            "{path}"
        );
    }
    for (a, b) in [("/a/b", "/a//b/."), ("/a", "a"), ("./a", "a"), ("/a/./b", "/a/b"), ("a/..", "a"), (".", ""), ("/", "//")] {
        assert_eq!(same_path(a, b), std::path::Path::new(a) == std::path::Path::new(b), "{a} {b}");
    }
}
