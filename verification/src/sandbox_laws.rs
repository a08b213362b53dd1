//! What holds of the sandbox, of paths, and of what is written down.
use crate::client::ClientV;
use crate::crypto::{be_bytes, field, hex, hex_digit};
use crate::debug_capture::{captured, group_prefix, sanitized, CaptureV};
use crate::json::JsonV;
use crate::json_model::key_index_is;
use crate::launch::{launch_of, port_of, position, Launch};
use crate::paths::{below, parent_of, tidied, up_to_slash};
use crate::sandbox::{
    complaint, daemon_env_of, daemon_pid, gh_env, keychain_setup, names_data_dir, serve_args_of, serves_data_dir,
    start_after, started_tree, status_tree, LoginAction, StartStepV, StartTask,
};
use crate::text::{alphanumeric, decimal, digits_value, has_part, joined, trimmed, unsigned_number, value_of};
use crate::timestamp::padded;
use crate::wire::words;
use crate::wire_laws::{is_word, words_come_back};
use vstd::prelude::*;

verus! {

/// The daemon that the sandbox starts is recognised as its own by its command line, and not as that of another data
/// directory.
pub proof fn daemons_are_recognised(client: ClientV, program: Seq<char>, data_dir: Seq<char>, other: Seq<char>)
    requires
        is_word(program),
        program[0] == '/',
        client.daemon_program().is_suffix_of(program),
        is_word(data_dir),
        data_dir[0] == '/',
    ensures
        serves_data_dir(client, joined(seq![program] + serve_args_of(data_dir), " "@), data_dir),
        other != data_dir ==> !serves_data_dir(client, joined(seq![program] + serve_args_of(data_dir), " "@), other),
{
    reveal_strlit("serve");
    reveal_strlit("--data-dir");
    reveal_strlit("--host");
    reveal_strlit("127.0.0.1");
    reveal_strlit("--port");
    reveal_strlit("--sandbox-port");
    reveal_strlit("--no-browser");
    reveal_strlit("--no-auto-update");
    reveal_strlit("--detached");
    let all = seq![program] + serve_args_of(data_dir);
    assert(all.len() == 13);
    decimals_are_words(8790);
    decimals_are_words(8791);
    assert(all[0] == program && all[1] == "serve"@ && all[2] == "--data-dir"@ && all[3] == data_dir && all[4] == "--host"@);
    assert(all[5] == "127.0.0.1"@ && all[6] == "--port"@ && all[7] == decimal(8790) && all[8] == "--sandbox-port"@);
    assert(all[9] == decimal(8791) && all[10] == "--no-browser"@ && all[11] == "--no-auto-update"@ && all[12]
        == "--detached"@);
    assert forall|i: int| 0 <= i < all.len() implies is_word(#[trigger] all[i]) by {}
    words_come_back(all);
    assert(names_data_dir(all, data_dir));
    if other != data_dir && names_data_dir(all, other) {
        let i = choose|i: int| 0 <= i < all.len() - 1 && #[trigger] all[i] == "--data-dir"@ && all[i + 1] == other;
        assert("--data-dir"@[0] == '-' && "--data-dir"@.len() == 10 && "--data-dir"@[2] == 'd');
        assert(i != 0 && i != 1 && i != 3 && i != 5);
        assert(i != 4 && i != 6 && i != 8 && i != 11);
        assert("--no-browser"@.len() == 12);
        assert(all[7][0] != '-' && all[9][0] != '-');
        assert(i == 2);
    }
}

proof fn decimals_are_words(n: nat)
    ensures
        is_word(decimal(n)),
        decimal(n)[0] != '-',
    decreases n,
{
    crate::text_laws::decimal_texts_stand_for_their_numbers(n);
    let s = decimal(n);
    assert(s.len() > 0);
    assert('0' <= s[0] && s[0] <= '9');
}

/// The daemon listens on this machine alone, on the ports of the sandbox.
pub proof fn daemons_listen_here(data_dir: Seq<char>)
    ensures
        ({
            let args = serve_args_of(data_dir);
            &&& exists|i: int| 0 <= i < args.len() - 1 && #[trigger] args[i] == "--data-dir"@ && args[i + 1] == data_dir
            &&& exists|i: int| 0 <= i < args.len() - 1 && #[trigger] args[i] == "--host"@ && args[i + 1] == "127.0.0.1"@
            &&& exists|i: int|
                0 <= i < args.len() - 1 && #[trigger] args[i] == "--port"@ && digits_value(args[i + 1]) == 8790
            &&& exists|i: int|
                0 <= i < args.len() - 1 && #[trigger] args[i] == "--sandbox-port"@ && digits_value(args[i + 1]) == 8791
            &&& args.contains("--no-browser"@) && args.contains("--no-auto-update"@) && args.contains("--detached"@)
        }),
{
    let args = serve_args_of(data_dir);
    crate::text_laws::decimal_texts_stand_for_their_numbers(8790);
    crate::text_laws::decimal_texts_stand_for_their_numbers(8791);
    assert(args[1] == "--data-dir"@ && args[3] == "--host"@ && args[5] == "--port"@ && args[7] == "--sandbox-port"@);
    assert(args[9] == "--no-browser"@ && args[10] == "--no-auto-update"@ && args[11] == "--detached"@);
}

/// The daemon lives in the sandbox's home and reaches the upstream through the gateway alone.
pub proof fn daemons_go_through_the_gateway(client: ClientV, home: Seq<char>, proxy: Seq<char>)
    ensures
        ({
            let env = daemon_env_of(client, home, proxy);
            &&& value_of(env, "HOME"@) == Some(home)
            &&& value_of(env, "ANTHROPIC_BASE_URL"@) == Some(proxy)
            &&& value_of(env, "https_proxy"@) == Some(proxy)
            &&& value_of(env, "HTTPS_PROXY"@) == Some(proxy)
            &&& value_of(env, "no_proxy"@) == value_of(env, "NO_PROXY"@)
            &&& value_of(env, "no_proxy"@) matches Some(hosts) && "127.0.0.1,localhost,::1"@.is_prefix_of(hosts)
        }),
{
    reveal_with_fuel(value_of, 7);
    reveal_strlit("HOME");
    reveal_strlit("ANTHROPIC_BASE_URL");
    reveal_strlit("https_proxy");
    reveal_strlit("HTTPS_PROXY");
    reveal_strlit("no_proxy");
    reveal_strlit("NO_PROXY");
    assert("HOME"@.len() == 4 && "ANTHROPIC_BASE_URL"@.len() == 18 && "https_proxy"@.len() == 11);
    assert("HTTPS_PROXY"@.len() == 11 && "no_proxy"@.len() == 8 && "NO_PROXY"@.len() == 8);
    assert("HTTPS_PROXY"@[0] == 'H' && "https_proxy"@[0] == 'h' && "NO_PROXY"@[0] == 'N' && "no_proxy"@[0] == 'n');
    let env = daemon_env_of(client, home, proxy);
    assert(env.len() == 6);
    assert(env[5] == ("NO_PROXY"@, client.direct_hosts()) && env[4] == ("no_proxy"@, client.direct_hosts()));
    crate::text_laws::values_are_those_given_last(env, "HOME"@);
    crate::text_laws::values_are_those_given_last(env, "ANTHROPIC_BASE_URL"@);
    crate::text_laws::values_are_those_given_last(env, "https_proxy"@);
    crate::text_laws::values_are_those_given_last(env, "HTTPS_PROXY"@);
    crate::text_laws::values_are_those_given_last(env, "no_proxy"@);
    crate::text_laws::values_are_those_given_last(env, "NO_PROXY"@);
    assert(env[0] == ("HOME"@, home) && env[1] == ("ANTHROPIC_BASE_URL"@, proxy));
    assert(env[2] == ("https_proxy"@, proxy) && env[3] == ("HTTPS_PROXY"@, proxy));
    let hosts = client.direct_hosts();
    assert(hosts.take(crate::client::LOCAL_HOSTS@.len() as int) =~= crate::client::LOCAL_HOSTS@);
}

/// The console is told what there is: whether the sandbox is set up, and the process and version that run.
pub proof fn the_sandbox_is_told(initialized: bool, pid: Option<u32>, version: Option<Seq<char>>, action: Seq<char>, url: Option<Seq<char>>)
    ensures
        ({
            let tree = status_tree(initialized, pid, version);
            &&& tree.get("initialized"@) == Some(JsonV::Bool(initialized))
            &&& tree.get("running"@) == Some(JsonV::Bool(pid is Some))
            &&& tree.unsigned_at("port"@) == Some(8790u64)
            &&& pid matches Some(n) ==> tree.unsigned_at("pid"@) == Some(n as u64)
            &&& pid is None ==> tree.get("pid"@) == Some(JsonV::Null)
            &&& version matches Some(v) ==> tree.text_at("version"@) == Some(v)
            &&& version is None ==> tree.get("version"@) == Some(JsonV::Null)
        }),
        ({
            let tree = started_tree(action, url);
            &&& tree.get("ok"@) == Some(JsonV::Bool(true))
            &&& tree.text_at("action"@) == Some(action)
            &&& url matches Some(link) ==> tree.text_at("url"@) == Some(link)
        }),
{
    reveal_strlit("initialized");
    reveal_strlit("running");
    reveal_strlit("port");
    reveal_strlit("pid");
    reveal_strlit("version");
    reveal_strlit("ok");
    reveal_strlit("action");
    reveal_strlit("url");
    assert("initialized"@.len() == 11 && "running"@.len() == 7 && "port"@.len() == 4 && "pid"@.len() == 3);
    assert("version"@.len() == 7 && "version"@[0] == 'v' && "running"@[0] == 'r');
    assert("ok"@.len() == 2 && "action"@.len() == 6 && "url"@.len() == 3);
    let entries = status_tree(initialized, pid, version)->Object_0;
    assert(entries.len() == 5);
    assert(entries[0].0 == "initialized"@ && entries[1].0 == "running"@ && entries[2].0 == "port"@);
    assert(entries[3].0 == "pid"@ && entries[4].0 == "version"@);
    key_index_is(entries, "initialized"@, 0);
    key_index_is(entries, "running"@, 1);
    key_index_is(entries, "port"@, 2);
    key_index_is(entries, "pid"@, 3);
    key_index_is(entries, "version"@, 4);
    let fields = started_tree(action, url)->Object_0;
    assert(fields.len() == 3);
    assert(fields[0].0 == "ok"@ && fields[1].0 == "action"@ && fields[2].0 == "url"@);
    key_index_is(fields, "ok"@, 0);
    key_index_is(fields, "action"@, 1);
    key_index_is(fields, "url"@, 2);
}

/// A start fails with the error of the task that failed, and then no daemon is left running; it goes on otherwise.
pub proof fn failed_starts_leave_no_daemon(task: StartTask, failure: Option<Seq<char>>, action: LoginAction)
    ensures
        failure matches Some(error) ==> (start_after(task, failure, action) matches StartStepV::Fail {
            stop_daemon,
            error: told,
        } && told == error && ((task is AwaitHealth || task is VerifyKeychain) ==> stop_daemon)),
        failure is None ==> !(start_after(task, failure, action) is Fail),
        failure is None && !(task is VerifyKeychain) ==> start_after(task, failure, action) is Run,
{
}

/// A process counts as the sandbox's daemon where it lives and its command line names the data directory; it is then the
/// one that the lock names.
pub proof fn told_processes_are_the_daemon(
    client: ClientV,
    lock: Option<JsonV>,
    alive: bool,
    cmdline: Option<Seq<char>>,
    data_dir: Seq<char>,
)
    ensures
        daemon_pid(client, lock, alive, cmdline, data_dir) matches Some(pid) ==> {
            &&& pid > 0
            &&& alive
            &&& lock matches Some(tree) && tree.unsigned_at("pid"@) == Some(pid as u64)
            &&& cmdline matches Some(line) && words(line).contains(data_dir)
        },
{
    if let Some(line) = cmdline {
        let tokens = words(line);
        if names_data_dir(tokens, data_dir) {
            let i = choose|i: int| 0 <= i < tokens.len() - 1 && #[trigger] tokens[i] == "--data-dir"@ && tokens[i + 1] == data_dir;
            assert(tokens[i + 1] == data_dir);
        }
    }
}

/// Every command on the keychain ends in the sandbox's own keychain.
pub proof fn the_keychain_is_the_sandboxs(path: Seq<char>, password: Seq<char>, i: int)
    requires
        0 <= i < keychain_setup(path, password).len(),
    ensures
        keychain_setup(path, password)[i].last() == path,
        keychain_setup(path, password)[i][0] == "unlock-keychain"@ ==> keychain_setup(path, password)[i].contains(password),
{
    let all = keychain_setup(path, password);
    assert(all.len() == 4);
    reveal_strlit("unlock-keychain");
    reveal_strlit("list-keychains");
    reveal_strlit("default-keychain");
    reveal_strlit("set-keychain-settings");
    assert("unlock-keychain"@.len() == 15 && "list-keychains"@.len() == 14);
    assert("default-keychain"@.len() == 16 && "set-keychain-settings"@.len() == 21);
    if i == 2 {
        assert(all[2][2] == password);
    }
}

/// That nothing runs is no complaint; every other output is told.
pub proof fn complaints_are_told(output: Seq<char>)
    ensures
        complaint(output) is None <==> has_part(output, "not running"@) || has_part(output, "no daemon"@),
        complaint(output) matches Some(error) ==> trimmed(output).is_suffix_of(error),
{
    if let Some(error) = complaint(output) {
        assert(error.skip(error.len() - trimmed(output).len()) =~= trimmed(output));
    }
}

/// The sandbox's programs are found before those that the user has.
pub proof fn own_programs_are_found_first(wrapper: Seq<char>, path: Seq<char>)
    requires
        path.len() > 0,
        parent_of(wrapper) is Some,
    ensures
        value_of(gh_env(wrapper, Some(path), true), "PATH"@) == Some(parent_of(wrapper).unwrap() + ":"@ + path),
        gh_env(wrapper, Some(path), false)[0] == ("PATH"@, parent_of(wrapper).unwrap() + ":"@ + path),
        gh_env(wrapper, Some(path), true).is_prefix_of(gh_env(wrapper, Some(path), false)),
{
    reveal_with_fuel(value_of, 2);
    let few = gh_env(wrapper, Some(path), true);
    let all = gh_env(wrapper, Some(path), false);
    assert(few.len() == 1);
    assert(few[0] == ("PATH"@, parent_of(wrapper).unwrap() + ":"@ + path));
    assert(all.take(1) =~= few);
}

/// A name below a directory stands in that directory.
pub proof fn names_stand_in_their_directory(dir: Seq<char>, name: Seq<char>)
    requires
        dir.len() > 0,
        dir.last() != '/',
        tidied(dir) == dir,
        name.len() > 0,
        !name.contains('/'),
        name[0] != '.',
    ensures
        parent_of(below(dir, name)) == Some(dir),
        dir.is_prefix_of(below(dir, name)),
        name.is_suffix_of(below(dir, name)),
{
    let path = below(dir, name);
    assert(path == dir + seq!['/'] + name);
    assert(path.take(dir.len() as int) =~= dir);
    assert(path.skip(path.len() - name.len()) =~= name);
    assert(path.last() == name.last());
    assert(name.contains(name[name.len() - 1]));
    if name.len() == 1 {
        assert(path[path.len() - 1] == name[0]);
    } else {
        assert(path[path.len() - 2] == name[name.len() - 2]);
        assert(name.contains(name[name.len() - 2]));
    }
    assert(tidied(path) == path);
    assert(path.len() > 1);
    let root = seq!['/'];
    assert(path != root);
    names_are_cut(dir + seq!['/'], name);
    let up = dir + seq!['/'];
    assert(up.len() > 1 && up[up.len() - 1] == '/');
    assert(up.drop_last() =~= dir);
}

proof fn names_are_cut(up: Seq<char>, name: Seq<char>)
    requires
        up.len() > 0,
        up.last() == '/',
        !name.contains('/'),
    ensures
        up_to_slash(up + name) == up,
    decreases name.len(),
{
    if name.len() == 0 {
        assert(up + name =~= up);
    } else {
        let less = name.drop_last();
        assert((up + name).drop_last() =~= up + less);
        assert(name.contains(name[name.len() - 1]));
        assert(!less.contains('/')) by {
            if less.contains('/') {
                let i = choose|i: int| 0 <= i < less.len() && less[i] == '/';
                assert(name[i] == '/');
            }
        }
        names_are_cut(up, less);
    }
}

/// A text in a file name keeps its length and its plain characters, and has nothing else but underscores.
pub proof fn file_names_keep_plain_characters(s: Seq<char>, i: int)
    requires
        0 <= i < s.len(),
    ensures
        sanitized(s).len() == s.len(),
        alphanumeric(s[i]) || s[i] == '-' || s[i] == '.' ==> sanitized(s)[i] == s[i],
        !(alphanumeric(s[i]) || s[i] == '-' || s[i] == '.') ==> sanitized(s)[i] == '_',
{
}

/// The files of a capture hold what was captured, under the prefix of their request; there are none before it has begun.
pub proof fn captures_hold_what_was_captured(capture: CaptureV, name: Seq<char>, data: Seq<u8>, append: bool)
    ensures
        captured(capture, name, data, append) is Some <==> capture.enabled && capture.prefix is Some,
        captured(capture, name, data, append) matches Some(file) ==> {
            &&& file.data == data
            &&& file.append == append
            &&& capture.prefix.unwrap().is_prefix_of(file.name)
            &&& name.is_suffix_of(file.name)
        },
{
    if let Some(file) = captured(capture, name, data, append) {
        assert(file.name.take(capture.prefix.unwrap().len() as int) =~= capture.prefix.unwrap());
        assert(file.name.skip(file.name.len() - name.len()) =~= name);
    }
}

/// The prefix of a request's files tells its number and its model.
pub proof fn prefixes_tell_the_request(number: u64, time: Seq<char>, model: Seq<char>)
    ensures
        padded(number as nat, 4).is_prefix_of(group_prefix(number, time, model)),
        sanitized(model).is_suffix_of(group_prefix(number, time, model)),
        has_part(group_prefix(number, time, model), "-"@ + sanitized(time) + "-"@),
{
    let all = group_prefix(number, time, model);
    let first = padded(number as nat, 4);
    let middle = "-"@ + sanitized(time) + "-"@;
    assert(all =~= first + middle + sanitized(model));
    assert(all.take(first.len() as int) =~= first);
    assert(all.skip(all.len() - sanitized(model).len()) =~= sanitized(model));
    assert(all.subrange(first.len() as int, first.len() as int + middle.len()) =~= middle);
    assert(crate::text::stands_at(all, middle, first.len() as int));
}

/// The value of a hexadecimal digit.
pub open spec fn digit_value(c: char) -> int {
    if '0' <= c && c <= '9' {
        c as int - 48
    } else {
        c as int - 87
    }
}

/// The hexadecimal text of bytes has two digits for each, which stand for it.
pub proof fn hexadecimal_texts_stand_for_their_bytes(bytes: Seq<u8>, i: int)
    requires
        0 <= i < bytes.len(),
    ensures
        hex(bytes).len() == 2 * bytes.len(),
        digit_value(hex(bytes)[2 * i]) * 16 + digit_value(hex(bytes)[2 * i + 1]) == bytes[i],
    decreases bytes.len(),
{
    let before = bytes.drop_last();
    if before.len() > 0 {
        hexadecimal_texts_stand_for_their_bytes(before, if i < before.len() { i } else { 0 });
    } else {
        assert(hex(before) =~= Seq::empty());
    }
    let n = bytes[i] as int;
    assert(n == (n / 16) * 16 + n % 16);
    assert(digit_value(hex_digit(n / 16)) == n / 16);
    assert(digit_value(hex_digit(n % 16)) == n % 16);
}

/// The number that bytes stand for, the most significant first.
pub open spec fn be_value(bytes: Seq<u8>) -> nat
    decreases bytes.len(),
{
    if bytes.len() == 0 {
        0
    } else {
        be_value(bytes.drop_last()) * 256 + bytes.last() as nat
    }
}

proof fn eight_bytes_stand_for_their_number(n: nat, count: nat)
    requires
        n < vstd::arithmetic::power::pow(256, count),
    ensures
        be_bytes(n, count).len() == count,
        be_value(be_bytes(n, count)) == n,
    decreases count,
{
    reveal(vstd::arithmetic::power::pow);
    if count > 0 {
        let less = (count - 1) as nat;
        let p = vstd::arithmetic::power::pow(256, less);
        assert(n < 256 * p);
        assert(n / 256 < p) by (nonlinear_arith)
            requires
                n < 256 * p,
        ;
        eight_bytes_stand_for_their_number(n / 256, less);
        assert(be_bytes(n, count).drop_last() =~= be_bytes(n / 256, less));
    }
}

/// A field tells how long it is, so that no two lists of fields are written alike.
pub proof fn fields_are_told_apart(a: Seq<u8>, b: Seq<u8>, behind_a: Seq<u8>, behind_b: Seq<u8>)
    requires
        a.len() <= u64::MAX,
        b.len() <= u64::MAX,
        field(a) + behind_a == field(b) + behind_b,
    ensures
        a == b,
        behind_a == behind_b,
{
    assert(vstd::arithmetic::power::pow(256, 8) == 0x1_0000_0000_0000_0000) by {
        reveal_with_fuel(vstd::arithmetic::power::pow, 9);
    }
    eight_bytes_stand_for_their_number(a.len(), 8);
    eight_bytes_stand_for_their_number(b.len(), 8);
    let x = field(a) + behind_a;
    let y = field(b) + behind_b;
    assert(x.take(8) =~= be_bytes(a.len(), 8));
    assert(y.take(8) =~= be_bytes(b.len(), 8));
    assert(x.subrange(8, 8 + a.len() as int) =~= a);
    assert(y.subrange(8, 8 + b.len() as int) =~= b);
    assert(x.skip(8 + a.len() as int) =~= behind_a);
    assert(y.skip(8 + b.len() as int) =~= behind_b);
}

/// The port of the service is the number behind the first `--port`.
pub proof fn ports_are_those_asked_for(args: Seq<Seq<char>>, i: int)
    requires
        0 <= i < args.len() - 1,
        args[i] == "--port"@,
        forall|j: int| 0 <= j < i ==> #[trigger] args[j] != "--port"@,
    ensures
        unsigned_number(args[i + 1], 65_535) matches Some(n) ==> port_of(args) == Some(n as u16),
        unsigned_number(args[i + 1], 65_535) is None ==> port_of(args) is None,
        args[1] == "serve"@ ==> launch_of(args) == Launch::Serve(port_of(args)),
        args[1] == "official-passthrough"@ ==> launch_of(args) == Launch::OfficialPassthrough,
        args[1] == "--provider"@ ==> launch_of(args) == Launch::Gateway,
{
    first_place(args, "--port"@, i);
    reveal_strlit("serve");
    reveal_strlit("official-passthrough");
    reveal_strlit("--provider");
    assert("serve"@.len() == 5 && "official-passthrough"@.len() == 20 && "--provider"@.len() == 10);
}

proof fn first_place(list: Seq<Seq<char>>, wanted: Seq<char>, i: int)
    requires
        0 <= i < list.len(),
        list[i] == wanted,
        forall|j: int| 0 <= j < i ==> #[trigger] list[j] != wanted,
    ensures
        position(list, wanted) == i,
    decreases list.len(),
{
    if i > 0 {
        let rest = list.drop_first();
        assert forall|j: int| 0 <= j < i - 1 implies #[trigger] rest[j] != wanted by {
            assert(rest[j] == list[j + 1]);
        }
        assert(list[0] != wanted);
        first_place(rest, wanted, i - 1);
    }
}

} // verus!
