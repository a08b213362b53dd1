//! What the program is started for.
use crate::text::{group_texts, parse_unsigned, same, texts, unsigned_number};
use vstd::prelude::*;

verus! {

broadcast use group_texts;

/// What the program is started for.
#[derive(Clone, Copy, PartialEq, Eq, Debug, Structural)]
pub enum Launch {
    /// The service, with a port in place of the one that is set.
    Serve(Option<u16>),
    /// The mode in which requests go on unchanged.
    OfficialPassthrough,
    /// A gateway for one provider.
    Gateway,
}

/// The place of a text in a list, or the list's length.
pub open spec fn position(list: Seq<Seq<char>>, wanted: Seq<char>) -> int
    decreases list.len(),
{
    if list.len() == 0 || list[0] == wanted {
        0
    } else {
        1 + position(list.drop_first(), wanted)
    }
}

/// The port that follows the first `--port`.
pub open spec fn port_of(args: Seq<Seq<char>>) -> Option<u16> {
    let at = position(args, "--port"@);
    if at + 1 < args.len() {
        match unsigned_number(args[at + 1], 65535) {
            Some(n) => Some(n as u16),
            None => None,
        }
    } else {
        None
    }
}

/// The port that follows the first `--port`.
pub fn port_arg(args: &Vec<String>) -> (port: Option<u16>)
    ensures
        port == port_of(texts(args@)),
{
    let n: usize = args.len();
    let ghost all = texts(args@);
    let mut at: usize = 0;
    assert(all.skip(0) =~= all);
    while at < n && !same(args[at].as_str(), "--port")
        invariant
            n == args@.len(),
            at <= n,
            all == texts(args@),
            position(all, "--port"@) == at + position(all.skip(at as int), "--port"@),
        decreases n - at,
    {
        assert(all.skip(at as int)[0] == args@[at as int]@);
        assert(all.skip(at as int).drop_first() =~= all.skip(at + 1));
        at = at + 1;
    }
    assert(position(all.skip(at as int), "--port"@) == 0) by {
        if at < n {
            assert(all.skip(at as int)[0] == args@[at as int]@);
        }
    }
    if at >= n || n - at < 2 {
        return None;
    }
    match parse_unsigned(args[at + 1].as_str(), 65535) {
        Some(p) => Some(p as u16),
        None => None,
    }
}

/// What arguments, the program's name first, start the program for.
pub open spec fn launch_of(args: Seq<Seq<char>>) -> Launch {
    if args.len() == 1 || (args.len() > 1 && args[1] == "serve"@) {
        Launch::Serve(port_of(args))
    } else if args.len() > 1 && args[1] == "official-passthrough"@ {
        Launch::OfficialPassthrough
    } else {
        Launch::Gateway
    }
}

/// What arguments, the program's name first, start the program for.
pub fn launch(args: &Vec<String>) -> (out: Launch)
    ensures
        out == launch_of(texts(args@)),
{
    let n: usize = args.len();
    assert(texts(args@).len() == n);
    if n == 1 {
        return Launch::Serve(port_arg(args));
    }
    if n > 1 {
        if same(args[1].as_str(), "serve") {
            return Launch::Serve(port_arg(args));
        }
        if same(args[1].as_str(), "official-passthrough") {
            return Launch::OfficialPassthrough;
        }
    }
    Launch::Gateway
}

} // verus!
