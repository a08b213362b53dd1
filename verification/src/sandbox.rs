//! The sandbox in which a second daemon runs without a login of its own.
//!
//! The sandbox has a home, ports and a keychain apart from those of the user's own daemon. Paths are
//! texts below the user's home directory.
use crate::json::{Json, JsonV, NumberV};
use crate::json_model::group_json_views;
use crate::kimi_coding_search::number;
use crate::paths::{below, join_path, one_path, parent_dir, parent_of, same_path};
use crate::provider_contracts::opt_owned;
use crate::text::{
    blank, concat, contains, contains_text, decimal, ends_with, group_texts, has_part, is_blank, number_text, opt_text,
    pairs_view, replace, replaced, same, texts, to_lowercase, trim, trimmed, unicode_lower,
};
use crate::upstream_url::{set_host, url_with_host, MAX_URL_BYTES};
use crate::wire::{split_whitespace, words};
use crate::client::{Client, ClientV};
use vstd::prelude::*;
use vstd::utf8::{encode_utf8, is_ascii_chars, is_ascii_chars_encode_utf8};

verus! {

broadcast use {group_json_views, group_texts};

pub const DAEMON_PORT: u16 = 8790;

pub const PREVIEW_PORT: u16 = 8791;

/// The host name of links into the sandbox. Cookies belong to a host whatever the port, and the user's
/// own daemon is `localhost`.
pub const COOKIE_HOST: &'static str = "127.0.0.1";

/// The account of the sandbox; no real one can have its address.
pub const VIRTUAL_EMAIL: &'static str = "virtual@localhost.invalid";

pub const LOCK_FILE: &'static str = "operon.lock";

/// The time in which the daemon has to become healthy.
pub const HEALTH_TIMEOUT_MS: u64 = 15_000;

/// The service under which the daemon keeps its keys.
pub const KEYCHAIN_SERVICE: &'static str = "com.anthropic.operon-cli";

pub open spec fn root_of(home: Seq<char>) -> Seq<char> {
    below(below(home, ".csswitch"@), "science-sandbox"@)
}

pub open spec fn home_of(home: Seq<char>) -> Seq<char> {
    below(root_of(home), "home"@)
}

pub open spec fn data_dir_of(client: ClientV, home: Seq<char>) -> Seq<char> {
    below(home_of(home), client.daemon_data_dir())
}

/// The directory that holds the sandbox, below the user's home.
pub fn sandbox_root(home: &str) -> (path: String)
    ensures
        path@ == root_of(home@),
{
    join_path(join_path(home, ".csswitch").as_str(), "science-sandbox")
}

/// The home directory of the sandbox.
pub fn sandbox_home(home: &str) -> (path: String)
    ensures
        path@ == home_of(home@),
{
    join_path(sandbox_root(home).as_str(), "home")
}

/// The data directory of the sandbox's daemon.
pub fn sandbox_data_dir(client: &Client, home: &str) -> (path: String)
    ensures
        path@ == data_dir_of(client@, home@),
{
    join_path(sandbox_home(home).as_str(), client.daemon_data_dir().as_str())
}

pub fn keychain_path(home: &str) -> (path: String)
    ensures
        path@ == below(home_of(home@), "Library/Keychains/login.keychain-db"@),
{
    join_path(sandbox_home(home).as_str(), "Library/Keychains/login.keychain-db")
}

pub fn keychain_password_path(home: &str) -> (path: String)
    ensures
        path@ == below(root_of(home@), "keychain.v1.pass"@),
{
    join_path(sandbox_root(home).as_str(), "keychain.v1.pass")
}

pub fn lock_path(client: &Client, home: &str) -> (path: String)
    ensures
        path@ == below(data_dir_of(client@, home@), LOCK_FILE@),
{
    join_path(sandbox_data_dir(client, home).as_str(), LOCK_FILE)
}

/// The directory of the sandbox's own programs, which the daemon's `PATH` starts with.
pub fn sandbox_bin_dir(home: &str) -> (path: String)
    ensures
        path@ == below(root_of(home@), "bin"@),
{
    join_path(sandbox_root(home).as_str(), "bin")
}

/// The process that a lock names.
pub open spec fn pid_of(lock: JsonV) -> Option<i32> {
    match lock.get("pid"@) {
        Some(JsonV::Number(NumberV::PosInt(n))) => if 0 < n <= i32::MAX {
            Some(n as i32)
        } else {
            None
        },
        _ => None,
    }
}

/// The process that a lock names.
pub fn lock_pid(lock: &Json) -> (pid: Option<i32>)
    ensures
        pid == pid_of(lock@),
{
    match lock.u64_at("pid") {
        Some(n) => if 0 < n && n <= i32::MAX as u64 {
            Some(n as i32)
        } else {
            None
        },
        None => None,
    }
}

/// The version that a lock names.
pub open spec fn version_of(lock: Option<JsonV>) -> Option<Seq<char>> {
    match lock {
        Some(tree) => tree.text_at("version"@),
        None => None,
    }
}

/// The version that a lock names.
pub fn lock_version(lock: Option<&Json>) -> (version: Option<String>)
    ensures
        opt_owned(version) == version_of(
            match lock {
                Some(tree) => Some(tree@),
                None => None,
            },
        ),
{
    match lock {
        Some(tree) => match tree.str_at("version") {
            Some(version) => Some(version.to_owned()),
            None => None,
        },
        None => None,
    }
}

/// Whether a command line is that of the sandbox's daemon: the daemon's own program, as a server, with
/// exactly the sandbox's data directory.
pub open spec fn serves_data_dir(client: ClientV, cmdline: Seq<char>, data_dir: Seq<char>) -> bool {
    let tokens = words(cmdline);
    &&& tokens.len() > 0
    &&& client.daemon_program().is_suffix_of(tokens[0])
    &&& tokens.contains("serve"@)
    &&& names_data_dir(tokens, data_dir)
}

pub open spec fn names_data_dir(tokens: Seq<Seq<char>>, data_dir: Seq<char>) -> bool {
    exists|i: int| 0 <= i < tokens.len() - 1 && #[trigger] tokens[i] == "--data-dir"@ && tokens[i + 1] == data_dir
}

/// Whether a command line is that of the sandbox's daemon.
pub fn command_line_contains_data_dir(client: &Client, cmdline: &str, data_dir: &str) -> (yes: bool)
    ensures
        yes == serves_data_dir(client@, cmdline@, data_dir@),
{
    let tokens = split_whitespace(cmdline);
    let ghost all = words(cmdline@);
    let program = client.daemon_program();
    let n: usize = tokens.len();
    assert(all.len() == n);
    if n == 0 || !ends_with(tokens[0].as_str(), program.as_str()) {
        return false;
    }
    if !contains_text(&tokens, "serve") {
        return false;
    }
    let mut i: usize = 0;
    while i < n - 1
        invariant
            n == tokens@.len(),
            n > 0,
            i <= n - 1,
            texts(tokens@) == all,
            all == words(cmdline@),
            all.len() == n,
            client@.daemon_program().is_suffix_of(all[0]),
            all.contains("serve"@),
            forall|k: int| 0 <= k < i ==> !(#[trigger] all[k] == "--data-dir"@ && all[k + 1] == data_dir@),
        decreases n - i,
    {
        assert(all[i as int] == tokens@[i as int]@ && all[i + 1] == tokens@[i + 1]@);
        if same(tokens[i].as_str(), "--data-dir") && same(tokens[i + 1].as_str(), data_dir) {
            assert(all[i as int] == "--data-dir"@);
            return true;
        }
        i = i + 1;
    }
    false
}

/// The process of the sandbox's daemon, where a lock names one, it lives, and its command line is the
/// daemon's.
pub open spec fn daemon_pid(client: ClientV, lock: Option<JsonV>, alive: bool, cmdline: Option<Seq<char>>, data_dir: Seq<char>) -> Option<i32> {
    match (lock, cmdline) {
        (Some(tree), Some(line)) => if alive && serves_data_dir(client, line, data_dir) {
            pid_of(tree)
        } else {
            None
        },
        _ => None,
    }
}

/// The process of the sandbox's daemon: `alive` and `cmdline` are of the process that the lock names.
pub fn sandbox_process_pid(client: &Client, lock: Option<&Json>, alive: bool, cmdline: Option<&str>, data_dir: &str) -> (pid: Option<i32>)
    ensures
        pid == daemon_pid(
            client@,
            match lock {
                Some(tree) => Some(tree@),
                None => None,
            },
            alive,
            opt_text(cmdline),
            data_dir@,
        ),
{
    match (lock, cmdline) {
        (Some(tree), Some(line)) => if alive && command_line_contains_data_dir(client, line, data_dir) {
            lock_pid(tree)
        } else {
            None
        },
        _ => None,
    }
}

pub open spec fn opt_string(s: Option<Seq<char>>) -> JsonV {
    match s {
        Some(text) => JsonV::Str(text),
        None => JsonV::Null,
    }
}

pub fn optional_text(s: Option<&str>) -> (tree: Json)
    ensures
        tree@ == opt_string(opt_text(s)),
{
    match s {
        Some(text) => Json::text(text),
        None => Json::Null,
    }
}

/// What the console is told of the sandbox.
pub open spec fn status_tree(initialized: bool, pid: Option<u32>, version: Option<Seq<char>>) -> JsonV {
    JsonV::object().and("initialized"@, JsonV::Bool(initialized)).and("running"@, JsonV::Bool(pid is Some)).and(
        "port"@,
        number(DAEMON_PORT as u64),
    ).and(
        "pid"@,
        match pid {
            Some(n) => number(n as u64),
            None => JsonV::Null,
        },
    ).and("version"@, opt_string(version))
}

/// What the console is told of the sandbox.
pub fn status(initialized: bool, pid: Option<u32>, version: Option<&str>) -> (tree: Json)
    ensures
        tree@ == status_tree(initialized, pid, opt_text(version)),
{
    let process = match pid {
        Some(n) => Json::unsigned(n as u64),
        None => Json::Null,
    };
    Json::object().and("initialized", Json::Bool(initialized)).and("running", Json::Bool(pid.is_some())).and(
        "port",
        Json::unsigned(DAEMON_PORT as u64),
    ).and("pid", process).and("version", optional_text(version))
}

/// What the console is told of a start.
pub open spec fn started_tree(action: Seq<char>, url: Option<Seq<char>>) -> JsonV {
    JsonV::object().and("ok"@, JsonV::Bool(true)).and("action"@, JsonV::Str(action)).and("url"@, opt_string(url))
}

/// What the console is told of a start.
pub fn started(action: &str, url: Option<&str>) -> (tree: Json)
    ensures
        tree@ == started_tree(action@, opt_text(url)),
{
    Json::object().and("ok", Json::Bool(true)).and("action", Json::text(action)).and("url", optional_text(url))
}

/// The arguments of the sandbox's daemon.
pub open spec fn serve_args_of(data_dir: Seq<char>) -> Seq<Seq<char>> {
    seq![
        "serve"@,
        "--data-dir"@,
        data_dir,
        "--host"@,
        "127.0.0.1"@,
        "--port"@,
        decimal(DAEMON_PORT as nat),
        "--sandbox-port"@,
        decimal(PREVIEW_PORT as nat),
        "--no-browser"@,
        "--no-auto-update"@,
        "--detached"@,
    ]
}

fn owned(list: &[&str]) -> (out: Vec<String>)
    ensures
        texts(out@) == list@.map_values(|s: &str| s@),
{
    let mut out: Vec<String> = Vec::new();
    let ghost all = list@.map_values(|s: &str| s@);
    let mut i: usize = 0;
    assert(texts(out@) =~= all.take(0));
    while i < list.len()
        invariant
            i <= list@.len(),
            all == list@.map_values(|s: &str| s@),
            texts(out@) == all.take(i as int),
        decreases list@.len() - i,
    {
        let ghost before = texts(out@);
        out.push(list[i].to_owned());
        assert(texts(out@) =~= before.push(all[i as int]));
        assert(all.take(i + 1) =~= all.take(i as int).push(all[i as int]));
        i = i + 1;
    }
    assert(all.take(i as int) =~= all);
    out
}

/// The arguments of the sandbox's daemon.
pub fn serve_args(data_dir: &str) -> (args: Vec<String>)
    ensures
        texts(args@) == serve_args_of(data_dir@),
{
    let port = number_text(DAEMON_PORT as u64);
    let preview = number_text(PREVIEW_PORT as u64);
    let args = owned(
        &[
            "serve",
            "--data-dir",
            data_dir,
            "--host",
            "127.0.0.1",
            "--port",
            port.as_str(),
            "--sandbox-port",
            preview.as_str(),
            "--no-browser",
            "--no-auto-update",
            "--detached",
        ],
    );
    assert(texts(args@) =~= serve_args_of(data_dir@));
    args
}

/// The arguments of a command on the sandbox's daemon.
pub fn data_dir_args(command: &str, data_dir: &str) -> (args: Vec<String>)
    ensures
        texts(args@) == seq![command@, "--data-dir"@, data_dir@],
{
    let args = owned(&[command, "--data-dir", data_dir]);
    assert(texts(args@) =~= seq![command@, "--data-dir"@, data_dir@]);
    args
}

/// A list of pairs of texts.
fn owned_pairs(list: &[(&str, &str)]) -> (out: Vec<(String, String)>)
    ensures
        pairs_view(out@) == list@.map_values(|e: (&str, &str)| (e.0@, e.1@)),
{
    let mut out: Vec<(String, String)> = Vec::new();
    let ghost all = list@.map_values(|e: (&str, &str)| (e.0@, e.1@));
    let mut i: usize = 0;
    assert(pairs_view(out@) =~= all.take(0));
    while i < list.len()
        invariant
            i <= list@.len(),
            all == list@.map_values(|e: (&str, &str)| (e.0@, e.1@)),
            pairs_view(out@) == all.take(i as int),
        decreases list@.len() - i,
    {
        let ghost before = pairs_view(out@);
        let entry = (list[i].0.to_owned(), list[i].1.to_owned());
        let ghost pair = (entry.0@, entry.1@);
        out.push(entry);
        assert(pairs_view(out@) =~= before.push(pair));
        assert(all.take(i + 1) =~= all.take(i as int).push(all[i as int]));
        i = i + 1;
    }
    assert(all.take(i as int) =~= all);
    out
}

/// What the environment of the sandbox's daemon is given: its home, the gateway in the upstream's
/// place, and the gateway as the proxy that refuses what else it would reach.
pub open spec fn daemon_env_of(client: ClientV, home: Seq<char>, proxy: Seq<char>) -> Seq<(Seq<char>, Seq<char>)> {
    seq![
        ("HOME"@, home),
        ("ANTHROPIC_BASE_URL"@, proxy),
        ("https_proxy"@, proxy),
        ("HTTPS_PROXY"@, proxy),
        ("no_proxy"@, client.direct_hosts()),
        ("NO_PROXY"@, client.direct_hosts()),
    ]
}

/// What the environment of the sandbox's daemon is given.
pub fn daemon_env(client: &Client, sandbox_home: &str, proxy_base_url: &str) -> (env: Vec<(String, String)>)
    ensures
        pairs_view(env@) == daemon_env_of(client@, sandbox_home@, proxy_base_url@),
{
    let direct = client.direct_hosts();
    let env = owned_pairs(
        &[
            ("HOME", sandbox_home),
            ("ANTHROPIC_BASE_URL", proxy_base_url),
            ("https_proxy", proxy_base_url),
            ("HTTPS_PROXY", proxy_base_url),
            ("no_proxy", direct.as_str()),
            ("NO_PROXY", direct.as_str()),
        ],
    );
    assert(pairs_view(env@) =~= daemon_env_of(client@, sandbox_home@, proxy_base_url@));
    env
}

/// What the environment of a command on the sandbox's daemon is given.
pub fn sandbox_home_env(sandbox_home: &str) -> (env: Vec<(String, String)>)
    ensures
        pairs_view(env@) == seq![("HOME"@, sandbox_home@)],
{
    let env = owned_pairs(&[("HOME", sandbox_home)]);
    assert(pairs_view(env@) =~= seq![("HOME"@, sandbox_home@)]);
    env
}

/// A text as one word of a shell.
pub open spec fn shell_word(s: Seq<char>) -> Seq<char> {
    "'"@ + replaced(s, "'"@, "'\\''"@) + "'"@
}

/// Writes a text as one word of a shell.
pub fn shell_quote(value: &str) -> (word: String)
    ensures
        word@ == shell_word(value@),
{
    proof {
        reveal_strlit("'");
    }
    let inner = replace(value, "'", "'\\''");
    let start = concat("'", inner.as_str());
    concat(start.as_str(), "'")
}

/// The text that a word of a shell stands for, from inside or outside of single quotes; characters
/// outside of quotes stand behind a backslash.
pub open spec fn shell_text(word: Seq<char>, quoted: bool) -> Option<Seq<char>>
    decreases word.len(),
{
    if word.len() == 0 {
        if quoted {
            None
        } else {
            Some(Seq::empty())
        }
    } else if word[0] == '\'' {
        shell_text(word.skip(1), !quoted)
    } else if quoted {
        match shell_text(word.skip(1), true) {
            Some(rest) => Some(seq![word[0]] + rest),
            None => None,
        }
    } else if word[0] == '\\' && word.len() > 1 {
        match shell_text(word.skip(2), false) {
            Some(rest) => Some(seq![word[1]] + rest),
            None => None,
        }
    } else {
        None
    }
}

/// A shell reads a quoted text as that text.
pub proof fn shell_words_come_back(s: Seq<char>)
    ensures
        shell_text(shell_word(s), false) == Some(s),
{
    reveal_strlit("'");
    let body = replaced(s, "'"@, "'\\''"@) + "'"@;
    quoted_texts_come_back(s);
    let word = shell_word(s);
    assert(word =~= "'"@ + body);
    assert(word[0] == '\'');
    assert(word.skip(1) =~= body);
}

proof fn quoted_texts_come_back(s: Seq<char>)
    ensures
        shell_text(replaced(s, "'"@, "'\\''"@) + "'"@, true) == Some(s),
    decreases s.len(),
{
    reveal_strlit("'");
    reveal_strlit("'\\''");
    let quote = "'"@;
    let escape = "'\\''"@;
    if s.len() == 0 {
        let word = replaced(s, quote, escape) + quote;
        assert(word =~= quote);
        assert(word[0] == '\'');
        assert(word.skip(1) =~= Seq::empty());
        assert(shell_text(word.skip(1), false) == Some(Seq::<char>::empty()));
        assert(s =~= Seq::empty());
    } else {
        let tail = s.skip(1);
        let rest = replaced(tail, quote, escape) + quote;
        quoted_texts_come_back(tail);
        let word = replaced(s, quote, escape) + quote;
        if s[0] == '\'' {
            assert(s.subrange(0, 1) =~= quote);
            assert(crate::text::stands_at(s, quote, 0));
            assert(word =~= escape + rest);
            assert(word[0] == '\'');
            let one = word.skip(1);
            assert(one[0] == '\\' && one[1] == '\'');
            let three = one.skip(2);
            assert(three[0] == '\'');
            assert(three.skip(1) =~= rest);
            assert(shell_text(three, false) == Some(tail));
            assert(seq![one[1]] + tail =~= s);
            assert(shell_text(one, false) == Some(s));
            assert(shell_text(word, true) == Some(s));
        } else {
            assert(s.subrange(0, 1)[0] != quote[0]);
            assert(!crate::text::stands_at(s, quote, 0));
            assert(word =~= seq![s[0]] + rest);
            assert(word[0] == s[0]);
            assert(word.skip(1) =~= rest);
            assert(seq![word[0]] + tail =~= s);
            assert(shell_text(word, true) == Some(s));
        }
    }
}

/// The script that runs the user's own `gh` with the user's own home.
pub open spec fn gh_script(real_home: Seq<char>, real_gh: Seq<char>) -> Seq<char> {
    "#!/bin/sh\n# 由 CSSwitch 生成,每次启动沙箱时重写。以真实 HOME 运行本机 gh,\n# 让沙箱 Science 读到本机 gh 登录(配置文件与登录钥匙串)。\nHOME="@
        + shell_word(real_home) + " exec "@ + shell_word(real_gh) + " \"$@\"\n"@
}

/// Writes the script that runs the user's own `gh` with the user's own home.
pub fn gh_wrapper_script(real_home: &str, real_gh: &str) -> (script: String)
    ensures
        script@ == gh_script(real_home@, real_gh@),
{
    let mut script = concat(
        "#!/bin/sh\n# 由 CSSwitch 生成,每次启动沙箱时重写。以真实 HOME 运行本机 gh,\n# 让沙箱 Science 读到本机 gh 登录(配置文件与登录钥匙串)。\nHOME=",
        shell_quote(real_home).as_str(),
    );
    script.append(" exec ");
    script.append(shell_quote(real_gh).as_str());
    script.append(" \"$@\"\n");
    script
}

/// The `PATH` of the daemon, where one is inherited: the sandbox's programs come first.
pub open spec fn path_entry(wrapper: Seq<char>, inherited: Option<Seq<char>>) -> Seq<(Seq<char>, Seq<char>)> {
    let dir = match parent_of(wrapper) {
        Some(dir) => dir,
        None => Seq::empty(),
    };
    match inherited {
        Some(path) => if path.len() > 0 {
            seq![("PATH"@, dir + ":"@ + path)]
        } else {
            Seq::empty()
        },
        None => Seq::empty(),
    }
}

/// The settings by which git takes its credentials for a host from `gh`: the helpers that there are
/// go first.
pub open spec fn helper_entries(index: nat, host: Seq<char>, helper: Seq<char>) -> Seq<(Seq<char>, Seq<char>)> {
    seq![
        ("GIT_CONFIG_KEY_"@ + decimal(index), "credential."@ + host + ".helper"@),
        ("GIT_CONFIG_VALUE_"@ + decimal(index), ""@),
        ("GIT_CONFIG_KEY_"@ + decimal(index + 1), "credential."@ + host + ".helper"@),
        ("GIT_CONFIG_VALUE_"@ + decimal(index + 1), helper),
    ]
}

/// What the environment of the sandbox's daemon is given so that it finds the user's `gh`.
pub open spec fn gh_env(wrapper: Seq<char>, inherited: Option<Seq<char>>, taken: bool) -> Seq<(Seq<char>, Seq<char>)> {
    let helper = "!"@ + shell_word(wrapper) + " auth git-credential"@;
    if taken {
        path_entry(wrapper, inherited)
    } else {
        path_entry(wrapper, inherited) + helper_entries(0, "https://github.com"@, helper) + helper_entries(
            2,
            "https://gist.github.com"@,
            helper,
        ) + seq![("GIT_CONFIG_COUNT"@, decimal(4))]
    }
}

fn push_pair(env: &mut Vec<(String, String)>, name: String, value: String)
    ensures
        pairs_view(final(env)@) == pairs_view(old(env)@).push((name@, value@)),
{
    let ghost pair = (name@, value@);
    let ghost before = pairs_view(env@);
    env.push((name, value));
    assert(pairs_view(env@) =~= before.push(pair));
}

fn push_helper(env: &mut Vec<(String, String)>, index: u64, host: &str, helper: &str)
    requires
        index < 100,
    ensures
        pairs_view(final(env)@) == pairs_view(old(env)@) + helper_entries(index as nat, host@, helper@),
{
    let ghost before = pairs_view(env@);
    let first = number_text(index);
    let second = number_text(index + 1);
    let start = concat("credential.", host);
    let key = concat(start.as_str(), ".helper");
    push_pair(env, concat("GIT_CONFIG_KEY_", first.as_str()), key.as_str().to_owned());
    push_pair(env, concat("GIT_CONFIG_VALUE_", first.as_str()), "".to_owned());
    push_pair(env, concat("GIT_CONFIG_KEY_", second.as_str()), key);
    push_pair(env, concat("GIT_CONFIG_VALUE_", second.as_str()), helper.to_owned());
    assert(pairs_view(env@) =~= before + helper_entries(index as nat, host@, helper@));
}

/// What the environment of the sandbox's daemon is given so that it finds the user's `gh`. A `PATH` that
/// is not inherited is not made up, and settings for git that are inherited stay.
pub fn gh_bridge_env(wrapper: &str, inherited_path: Option<&str>, git_config_env_taken: bool) -> (env: Vec<
    (String, String),
>)
    ensures
        pairs_view(env@) == gh_env(wrapper@, opt_text(inherited_path), git_config_env_taken),
{
    let mut env: Vec<(String, String)> = Vec::new();
    assert(pairs_view(env@) =~= Seq::empty());
    let bin_dir = match parent_dir(wrapper) {
        Some(dir) => dir,
        None => String::new(),
    };
    if let Some(path) = inherited_path {
        if path.unicode_len() > 0 {
            let start = concat(bin_dir.as_str(), ":");
            push_pair(&mut env, "PATH".to_owned(), concat(start.as_str(), path));
            assert(pairs_view(env@) =~= path_entry(wrapper@, opt_text(inherited_path)));
        }
    }
    assert(pairs_view(env@) =~= path_entry(wrapper@, opt_text(inherited_path)));
    if git_config_env_taken {
        return env;
    }
    let start = concat("!", shell_quote(wrapper).as_str());
    let helper = concat(start.as_str(), " auth git-credential");
    push_helper(&mut env, 0, "https://github.com", helper.as_str());
    push_helper(&mut env, 2, "https://gist.github.com", helper.as_str());
    push_pair(&mut env, "GIT_CONFIG_COUNT".to_owned(), number_text(4));
    assert(pairs_view(env@) =~= gh_env(wrapper@, opt_text(inherited_path), git_config_env_taken));
    env
}

/// What the user is told of a bridge that does only a part of its work.
pub open spec fn gh_warnings(inherited_path: Option<Seq<char>>, git_config_env_taken: bool) -> Seq<Seq<char>> {
    (if inherited_path is None || inherited_path.unwrap().len() == 0 {
        seq!["警告:继承的 PATH 不可用,沙箱 gh 桥接只对 git 生效"@]
    } else {
        Seq::empty()
    }) + if git_config_env_taken {
        seq!["警告:环境里已有 GIT_CONFIG_COUNT,沙箱 git 不改用 gh 凭据"@]
    } else {
        Seq::empty()
    }
}

/// Tells what the bridge to the user's `gh` leaves out.
pub fn gh_bridge_warnings(inherited_path: Option<&str>, git_config_env_taken: bool) -> (lines: Vec<String>)
    ensures
        texts(lines@) == gh_warnings(opt_text(inherited_path), git_config_env_taken),
{
    let mut lines: Vec<String> = Vec::new();
    let usable = match inherited_path {
        Some(path) => path.unicode_len() > 0,
        None => false,
    };
    if !usable {
        lines.push("警告:继承的 PATH 不可用,沙箱 gh 桥接只对 git 生效".to_owned());
    }
    if git_config_env_taken {
        lines.push("警告:环境里已有 GIT_CONFIG_COUNT,沙箱 git 不改用 gh 凭据".to_owned());
    }
    assert(texts(lines@) =~= gh_warnings(opt_text(inherited_path), git_config_env_taken));
    lines
}

/// A link whose host was set, or the link itself where that failed.
pub fn pinned_or_same(url: &str, pinned: Option<String>) -> (out: String)
    ensures
        out@ == (match pinned {
            Some(link) => link@,
            None => url@,
        }),
{
    match pinned {
        Some(link) => link,
        None => url.to_owned(),
    }
}

/// Puts the sandbox's host into a link; the port, the path and the query stay. A text that is no link is
/// given back.
pub fn pin_cookie_host(url: &str) -> (out: String)
    requires
        encode_utf8(url@).len() <= MAX_URL_BYTES,
    ensures
        out@ == (match url_with_host(url@, COOKIE_HOST@) {
            Some(link) => link,
            None => url@,
        }),
{
    proof {
        reveal_strlit("127.0.0.1");
        assert(is_ascii_chars(COOKIE_HOST@));
        is_ascii_chars_encode_utf8(COOKIE_HOST@);
    }
    pinned_or_same(url, set_host(url, COOKIE_HOST))
}

/// What was done about the login of the sandbox.
#[derive(Clone, Copy, PartialEq, Eq, Debug, Structural)]
pub enum LoginAction {
    Reused,
    Repaired,
    Created,
}

/// Whether the keys in the sandbox's keychain are out of date: they are where the login was written
/// anew.
pub fn should_purge_keychain(action: LoginAction) -> (yes: bool)
    ensures
        yes == (action != LoginAction::Reused),
{
    action != LoginAction::Reused
}

/// What the start of the sandbox consists of, behind its login.
#[derive(Clone, Copy, PartialEq, Eq, Debug, Structural)]
pub enum StartTask {
    SetUpKeychain,
    PurgeKeychain,
    FreeDaemonPort,
    FreePreviewPort,
    Launch,
    AwaitHealth,
    VerifyKeychain,
}

/// What the start of the sandbox comes to next.
#[derive(Debug)]
pub enum StartStep {
    Run(StartTask),
    Fail { stop_daemon: bool, error: String },
    Started,
}

pub enum StartStepV {
    Run(StartTask),
    Fail { stop_daemon: bool, error: Seq<char> },
    Started,
}

impl View for StartStep {
    type V = StartStepV;

    open spec fn view(&self) -> StartStepV {
        match *self {
            StartStep::Run(task) => StartStepV::Run(task),
            StartStep::Fail { stop_daemon, error } => StartStepV::Fail { stop_daemon, error: error@ },
            StartStep::Started => StartStepV::Started,
        }
    }
}

/// The task that follows one that succeeded.
pub open spec fn task_after(task: StartTask, action: LoginAction) -> Option<StartTask> {
    match task {
        StartTask::SetUpKeychain => if action == LoginAction::Reused {
            Some(StartTask::FreeDaemonPort)
        } else {
            Some(StartTask::PurgeKeychain)
        },
        StartTask::PurgeKeychain => Some(StartTask::FreeDaemonPort),
        StartTask::FreeDaemonPort => Some(StartTask::FreePreviewPort),
        StartTask::FreePreviewPort => Some(StartTask::Launch),
        StartTask::Launch => Some(StartTask::AwaitHealth),
        StartTask::AwaitHealth => Some(StartTask::VerifyKeychain),
        StartTask::VerifyKeychain => None,
    }
}

/// Whether the daemon runs when a task fails.
pub open spec fn daemon_runs(task: StartTask) -> bool {
    task == StartTask::AwaitHealth || task == StartTask::VerifyKeychain
}

/// What the start comes to after a task.
pub open spec fn start_after(task: StartTask, failure: Option<Seq<char>>, action: LoginAction) -> StartStepV {
    match failure {
        Some(error) => StartStepV::Fail { stop_daemon: daemon_runs(task), error },
        None => match task_after(task, action) {
            Some(next) => StartStepV::Run(next),
            None => StartStepV::Started,
        },
    }
}

/// What the start comes to after a task. A daemon that is not healthy, or whose keys are not in the
/// sandbox's keychain, is stopped.
pub fn next_start_step(task: StartTask, failure: Option<String>, action: LoginAction) -> (step: StartStep)
    ensures
        step@ == start_after(task, opt_owned(failure), action),
{
    match failure {
        Some(error) => StartStep::Fail {
            stop_daemon: task == StartTask::AwaitHealth || task == StartTask::VerifyKeychain,
            error,
        },
        None => match task {
            StartTask::SetUpKeychain => if should_purge_keychain(action) {
                StartStep::Run(StartTask::PurgeKeychain)
            } else {
                StartStep::Run(StartTask::FreeDaemonPort)
            },
            StartTask::PurgeKeychain => StartStep::Run(StartTask::FreeDaemonPort),
            StartTask::FreeDaemonPort => StartStep::Run(StartTask::FreePreviewPort),
            StartTask::FreePreviewPort => StartStep::Run(StartTask::Launch),
            StartTask::Launch => StartStep::Run(StartTask::AwaitHealth),
            StartTask::AwaitHealth => StartStep::Run(StartTask::VerifyKeychain),
            StartTask::VerifyKeychain => StartStep::Started,
        },
    }
}

/// The tasks of a start that meets no failure, from one of them on.
pub open spec fn tasks_from(task: StartTask, action: LoginAction) -> Seq<StartTask>
    decreases task_rank(task),
{
    match task_after(task, action) {
        Some(next) => seq![task] + tasks_from(next, action),
        None => seq![task],
    }
}

pub open spec fn task_rank(task: StartTask) -> nat {
    match task {
        StartTask::SetUpKeychain => 6,
        StartTask::PurgeKeychain => 5,
        StartTask::FreeDaemonPort => 4,
        StartTask::FreePreviewPort => 3,
        StartTask::Launch => 2,
        StartTask::AwaitHealth => 1,
        StartTask::VerifyKeychain => 0,
    }
}

/// A start comes to its end, and no daemon counts as started before it is healthy and its keys are in
/// the sandbox's keychain; old keys go before the daemon runs, and only where the login was written
/// anew.
pub proof fn starts_take_every_precaution(action: LoginAction)
    ensures
        tasks_from(StartTask::SetUpKeychain, action) == (if action == LoginAction::Reused {
            seq![StartTask::SetUpKeychain]
        } else {
            seq![StartTask::SetUpKeychain, StartTask::PurgeKeychain]
        }) + seq![
            StartTask::FreeDaemonPort,
            StartTask::FreePreviewPort,
            StartTask::Launch,
            StartTask::AwaitHealth,
            StartTask::VerifyKeychain,
        ],
{
    reveal_with_fuel(tasks_from, 8);
    let last = seq![
        StartTask::FreeDaemonPort,
        StartTask::FreePreviewPort,
        StartTask::Launch,
        StartTask::AwaitHealth,
        StartTask::VerifyKeychain,
    ];
    assert(tasks_from(StartTask::FreeDaemonPort, action) =~= last);
}

/// The refusal to start a daemon whose launch failed.
pub fn launch_failure(stderr: &str) -> (error: String)
    ensures
        error@ == "启动沙箱 daemon 失败:"@ + trimmed(stderr@),
{
    concat("启动沙箱 daemon 失败:", trim(stderr).as_str())
}

/// The refusal to use a port that is taken.
pub fn port_failure(port: u16, detail: &str) -> (error: String)
    ensures
        error@ == "沙箱端口 "@ + decimal(port as nat) + " 已被占用:"@ + detail@ + "。免登录沙箱使用固定端口,请释放后重试。"@,
{
    let mut error = concat("沙箱端口 ", number_text(port as u64).as_str());
    error.append(" 已被占用:");
    error.append(detail);
    error.append("。免登录沙箱使用固定端口,请释放后重试。");
    error
}

/// Whether the daemon is waited for.
#[derive(Clone, Copy, PartialEq, Eq, Debug, Structural)]
pub enum Wait {
    Done,
    Again,
    GiveUp,
}

/// What a look at the daemon's health comes to, at a time and with a deadline.
pub fn health_step(healthy: bool, now: u128, deadline: u128) -> (wait: Wait)
    ensures
        wait == (if healthy {
            Wait::Done
        } else if now >= deadline {
            Wait::GiveUp
        } else {
            Wait::Again
        }),
{
    if healthy {
        Wait::Done
    } else if now >= deadline {
        Wait::GiveUp
    } else {
        Wait::Again
    }
}

/// The refusal to use a daemon that did not become healthy.
pub const HEALTH_FAILURE: &'static str = "沙箱 daemon 健康检查超时:15s 内 127.0.0.1:8790/health 未就绪";

/// The refusal to use a daemon whose keys are not in the sandbox's keychain.
pub const KEYCHAIN_FAILURE: &'static str = "沙箱钥匙串正向校验失败:未在沙箱钥匙串中找到 daemon 迁入的加密密钥,已停止沙箱 daemon(防止密钥落入真实钥匙串)。请把 daemon 版本与启动日志一并反馈。";

/// How often the sandbox's keychain is searched for the daemon's keys.
pub const KEYCHAIN_LOOKS: u32 = 10;

/// How many old keys are deleted at the most.
pub const KEYCHAIN_DELETIONS: u32 = 8;

/// How often a daemon that is told to end is looked at.
pub const STOP_LOOKS: u32 = 30;

/// What a look comes to, where `looks` were taken and at most `most` are.
pub fn look_step(found: bool, looks: u32, most: u32) -> (wait: Wait)
    ensures
        wait == (if found {
            Wait::Done
        } else if looks >= most {
            Wait::GiveUp
        } else {
            Wait::Again
        }),
{
    if found {
        Wait::Done
    } else if looks >= most {
        Wait::GiveUp
    } else {
        Wait::Again
    }
}

/// What came of the command that stops the daemon.
#[derive(Debug)]
pub enum StopRun {
    Missing,
    Failed(String),
    Exited { success: bool, stderr: String },
}

/// The complaint of a command that stops the daemon, from its output in lower case; that nothing runs is
/// none.
pub open spec fn complaint(output: Seq<char>) -> Option<Seq<char>> {
    if has_part(output, "not running"@) || has_part(output, "no daemon"@) {
        None
    } else {
        Some("停止沙箱 daemon 失败:"@ + trimmed(output))
    }
}

/// The complaint of a command that stops the daemon, from its output in lower case.
pub fn stop_complaint(output: &str) -> (error: Option<String>)
    ensures
        opt_owned(error) == complaint(output@),
{
    if contains(output, "not running") || contains(output, "no daemon") {
        None
    } else {
        Some(concat("停止沙箱 daemon 失败:", trim(output).as_str()))
    }
}

/// Why the command that stops the daemon failed, where it did.
pub open spec fn stop_failure_of(run: StopRun) -> Option<Seq<char>> {
    match run {
        StopRun::Missing => None,
        StopRun::Failed(error) => Some(error@),
        StopRun::Exited { success, stderr } => if success {
            None
        } else {
            complaint(unicode_lower(stderr@))
        },
    }
}

/// Why the command that stops the daemon failed, where it did.
pub fn stop_failure(run: &StopRun) -> (error: Option<String>)
    ensures
        opt_owned(error) == stop_failure_of(*run),
{
    match run {
        StopRun::Missing => None,
        StopRun::Failed(error) => Some(error.as_str().to_owned()),
        StopRun::Exited { success, stderr } => if *success {
            None
        } else {
            stop_complaint(to_lowercase(stderr.as_str()).as_str())
        },
    }
}

/// The complaint that a daemon which was told to end still lives.
pub fn stop_timeout(pid: u32) -> (error: String)
    ensures
        error@ == "沙箱 daemon(pid "@ + decimal(pid as nat) + ")在 SIGTERM 后 3 秒内未退出,请人工检查"@,
{
    let start = concat("沙箱 daemon(pid ", number_text(pid as u64).as_str());
    concat(start.as_str(), ")在 SIGTERM 后 3 秒内未退出,请人工检查")
}

/// A file that may be a program, in a directory of the search path.
pub struct Candidate {
    pub dir: String,
    pub is_file: bool,
    pub mode: u32,
}

/// Whether a file is a program that the sandbox did not put there.
pub open spec fn is_program(candidate: Candidate, skip_dir: Seq<char>) -> bool {
    !one_path(candidate.dir@, skip_dir) && candidate.is_file && candidate.mode & 0o111 != 0
}

/// The first of the search path that holds a program, other than the sandbox's own directory.
pub fn find_executable(candidates: &Vec<Candidate>, skip_dir: &str) -> (at: Option<usize>)
    ensures
        match at {
            Some(i) => {
                &&& i < candidates@.len()
                &&& is_program(candidates@[i as int], skip_dir@)
                &&& forall|k: int| 0 <= k < i ==> !is_program(#[trigger] candidates@[k], skip_dir@)
            },
            None => forall|k: int| 0 <= k < candidates@.len() ==> !is_program(#[trigger] candidates@[k], skip_dir@),
        },
{
    let mut i: usize = 0;
    while i < candidates.len()
        invariant
            i <= candidates@.len(),
            forall|k: int| 0 <= k < i ==> !is_program(#[trigger] candidates@[k], skip_dir@),
        decreases candidates@.len() - i,
    {
        let c = &candidates[i];
        if !same_path(c.dir.as_str(), skip_dir) && c.is_file && c.mode & 0o111 != 0 {
            return Some(i);
        }
        i = i + 1;
    }
    None
}

/// The files of the user's `.ssh` that the sandbox links to; none of them holds a secret.
pub fn ssh_entries() -> (names: Vec<String>)
    ensures
        texts(names@) == seq!["config"@, "known_hosts"@],
{
    let names = owned(&["config", "known_hosts"]);
    assert(texts(names@) =~= seq!["config"@, "known_hosts"@]);
    names
}

/// Whether a file is linked to: it exists, and nothing stands where the link would.
pub fn should_link(source_exists: bool, target_exists: bool) -> (yes: bool)
    ensures
        yes == (source_exists && !target_exists),
{
    source_exists && !target_exists
}

/// The arguments that make the sandbox's keychain.
pub fn create_keychain_args(path: &str, password: &str) -> (args: Vec<String>)
    ensures
        texts(args@) == seq!["create-keychain"@, "-p"@, password@, path@],
{
    let args = owned(&["create-keychain", "-p", password, path]);
    assert(texts(args@) =~= seq!["create-keychain"@, "-p"@, password@, path@]);
    args
}

pub open spec fn lists(list: Seq<Vec<String>>) -> Seq<Seq<Seq<char>>> {
    list.map_values(|l: Vec<String>| texts(l@))
}

/// The arguments that set up the sandbox's keychain, one command after the other.
pub open spec fn keychain_setup(path: Seq<char>, password: Seq<char>) -> Seq<Seq<Seq<char>>> {
    seq![
        seq!["list-keychains"@, "-d"@, "user"@, "-s"@, path],
        seq!["default-keychain"@, "-d"@, "user"@, "-s"@, path],
        seq!["unlock-keychain"@, "-p"@, password, path],
        seq!["set-keychain-settings"@, path],
    ]
}

/// The arguments that set up the sandbox's keychain, one command after the other.
pub fn keychain_setup_args(path: &str, password: &str) -> (commands: Vec<Vec<String>>)
    ensures
        lists(commands@) == keychain_setup(path@, password@),
{
    let list = owned(&["list-keychains", "-d", "user", "-s", path]);
    let default = owned(&["default-keychain", "-d", "user", "-s", path]);
    let unlock = owned(&["unlock-keychain", "-p", password, path]);
    let settings = owned(&["set-keychain-settings", path]);
    assert(texts(list@) =~= seq!["list-keychains"@, "-d"@, "user"@, "-s"@, path@]);
    assert(texts(default@) =~= seq!["default-keychain"@, "-d"@, "user"@, "-s"@, path@]);
    assert(texts(unlock@) =~= seq!["unlock-keychain"@, "-p"@, password@, path@]);
    assert(texts(settings@) =~= seq!["set-keychain-settings"@, path@]);
    let mut commands: Vec<Vec<String>> = Vec::new();
    commands.push(list);
    commands.push(default);
    commands.push(unlock);
    commands.push(settings);
    assert(lists(commands@) =~= keychain_setup(path@, password@));
    commands
}

/// The arguments of a command on the daemon's keys in the sandbox's keychain, and in no other.
pub fn keychain_entry_args(command: &str, path: &str) -> (args: Vec<String>)
    ensures
        texts(args@) == seq![command@, "-s"@, KEYCHAIN_SERVICE@, path@],
{
    let args = owned(&[command, "-s", KEYCHAIN_SERVICE, path]);
    assert(texts(args@) =~= seq![command@, "-s"@, KEYCHAIN_SERVICE@, path@]);
    args
}

/// The password that a file holds, where it holds one.
pub fn stored_password(text: &str) -> (password: Option<String>)
    ensures
        opt_owned(password) == (if is_blank(text@) {
            None
        } else {
            Some(trimmed(text@))
        }),
{
    if blank(text) {
        None
    } else {
        Some(trim(text))
    }
}

} // verus!
