//! Captures of requests and responses on the local machine, for finding faults.
//!
//! The files of one request share a prefix: a number, the time and the upstream's model.
use crate::json::Json;
use crate::json_model::{json_pretty, settled};
use crate::provider_contracts::opt_owned;
use crate::text::{alphanumeric, concat, decimal, is_alphanumeric};
use crate::timestamp::{padded, padded_text};
use vstd::prelude::*;

verus! {

pub const CAPTURE_DIR_ENV: &'static str = "CSSWITCH_DEBUG_CAPTURE_DIR";

/// A character as it stands in a file name.
pub open spec fn name_char(c: char) -> char {
    if alphanumeric(c) || c == '-' || c == '.' {
        c
    } else {
        '_'
    }
}

/// A text as it stands in a file name.
pub open spec fn sanitized(s: Seq<char>) -> Seq<char> {
    s.map_values(|c: char| name_char(c))
}

/// A text as it stands in a file name: ASCII letters and digits, `-` and `.` stay, and every other
/// character is `_`.
pub fn sanitize(part: &str) -> (out: String)
    ensures
        out@ == sanitized(part@),
{
    let mut out = String::new();
    assert(out@ =~= sanitized(part@.take(0)));
    for c in it: part.chars()
        invariant
            it.seq() == part@,
            out@ == sanitized(part@.take(it.index())),
    {
        assert(part@.take(it.index() + 1) =~= part@.take(it.index()).push(c));
        if is_alphanumeric(c) || c == '-' || c == '.' {
            out.push(c);
        } else {
            out.push('_');
        }
        assert(out@ =~= sanitized(part@.take(it.index() + 1)));
    }
    assert(part@.take(part@.len() as int) =~= part@);
    out
}

/// The capture of one request: whether captures are made, and the prefix of its files once it has
/// begun.
pub struct Capture {
    pub enabled: bool,
    pub prefix: Option<String>,
}

pub struct CaptureV {
    pub enabled: bool,
    pub prefix: Option<Seq<char>>,
}

impl View for Capture {
    type V = CaptureV;

    open spec fn view(&self) -> CaptureV {
        CaptureV { enabled: self.enabled, prefix: opt_owned(self.prefix) }
    }
}

/// The prefix of a request's files.
pub open spec fn group_prefix(number: u64, time: Seq<char>, model: Seq<char>) -> Seq<char> {
    padded(number as nat, 4) + "-"@ + sanitized(time) + "-"@ + sanitized(model)
}

/// Begins the capture of a request, which has a number and a time.
pub fn begin(capture: &mut Capture, number: u64, time: &str, model: &str)
    ensures
        final(capture)@ == (if old(capture).enabled {
            CaptureV { enabled: true, prefix: Some(group_prefix(number, time@, model@)) }
        } else {
            old(capture)@
        }),
{
    if !capture.enabled {
        return;
    }
    let mut prefix = concat(padded_text(number, 4).as_str(), "-");
    prefix.append(sanitize(time).as_str());
    prefix.append("-");
    prefix.append(sanitize(model).as_str());
    capture.prefix = Some(prefix);
}

/// A file of a capture and what goes into it; `append` tells whether it goes behind what is there.
#[derive(Debug)]
pub struct CaptureFile {
    pub name: String,
    pub data: Vec<u8>,
    pub append: bool,
}

pub struct CaptureFileV {
    pub name: Seq<char>,
    pub data: Seq<u8>,
    pub append: bool,
}

impl View for CaptureFile {
    type V = CaptureFileV;

    open spec fn view(&self) -> CaptureFileV {
        CaptureFileV { name: self.name@, data: self.data@, append: self.append }
    }
}

pub open spec fn opt_file(file: Option<CaptureFile>) -> Option<CaptureFileV> {
    match file {
        Some(f) => Some(f@),
        None => None,
    }
}

/// The name of a file of a capture; there is none before it has begun.
pub open spec fn file_name(capture: CaptureV, name: Seq<char>) -> Option<Seq<char>> {
    match capture.prefix {
        Some(prefix) => if capture.enabled {
            Some(prefix + "-"@ + name)
        } else {
            None
        },
        None => None,
    }
}

/// What a file of a capture is given.
pub open spec fn captured(capture: CaptureV, name: Seq<char>, data: Seq<u8>, append: bool) -> Option<CaptureFileV> {
    match file_name(capture, name) {
        Some(name) => Some(CaptureFileV { name, data, append }),
        None => None,
    }
}

/// The name of a file of a capture; there is none before it has begun.
pub fn path_for(capture: &Capture, name: &str) -> (file: Option<String>)
    ensures
        opt_owned(file) == file_name(capture@, name@),
{
    if !capture.enabled {
        return None;
    }
    match &capture.prefix {
        Some(prefix) => {
            let start = concat(prefix.as_str(), "-");
            Some(concat(start.as_str(), name))
        },
        None => None,
    }
}

/// Captures a tree.
pub fn json(capture: &Capture, name: &str, value: &Json) -> (file: Option<CaptureFile>)
    ensures
        opt_file(file) == captured(capture@, name@, json_pretty(settled(value@)), false),
{
    match path_for(capture, name) {
        Some(name) => Some(CaptureFile { name, data: value.render_pretty(), append: false }),
        None => None,
    }
}

/// Captures bytes.
pub fn write(capture: &Capture, name: &str, data: Vec<u8>) -> (file: Option<CaptureFile>)
    ensures
        opt_file(file) == captured(capture@, name@, data@, false),
{
    match path_for(capture, name) {
        Some(name) => Some(CaptureFile { name, data, append: false }),
        None => None,
    }
}

/// Captures more bytes; where there are none, nothing is written.
pub fn append(capture: &Capture, name: &str, data: Vec<u8>) -> (file: Option<CaptureFile>)
    ensures
        opt_file(file) == (if data@.len() == 0 {
            None
        } else {
            captured(capture@, name@, data@, true)
        }),
{
    if data.len() == 0 {
        return None;
    }
    match path_for(capture, name) {
        Some(name) => Some(CaptureFile { name, data, append: true }),
        None => None,
    }
}

/// Whatever the time and the model are called, the prefix names no other directory: it starts with a
/// digit and holds no separator.
pub proof fn prefixes_stay_in_the_directory(number: u64, time: Seq<char>, model: Seq<char>)
    ensures
        ({
            let prefix = group_prefix(number, time, model);
            &&& prefix.len() > 0 && '0' <= prefix[0] && prefix[0] <= '9'
            &&& forall|i: int| 0 <= i < prefix.len() ==> #[trigger] prefix[i] != '/' && prefix[i] != '\\' && prefix[i] != '\0'
        }),
{
    let prefix = group_prefix(number, time, model);
    let digits = padded(number as nat, 4);
    decimal_digits(number as nat);
    reveal_strlit("-");
    assert(digits.len() > 0);
    assert forall|i: int| 0 <= i < digits.len() implies '0' <= #[trigger] digits[i] && digits[i] <= '9' by {
        let plain = decimal(number as nat);
        if plain.len() < 4 {
            if i >= 4 - plain.len() {
                assert(digits[i] == plain[i - (4 - plain.len())]);
            }
        }
    }
    assert(prefix[0] == digits[0]);
    let rest = sanitized(time);
    let end = sanitized(model);
    assert forall|i: int| 0 <= i < prefix.len() implies #[trigger] prefix[i] != '/' && prefix[i] != '\\' && prefix[i] != '\0' by {
        if i < digits.len() {
            assert(prefix[i] == digits[i]);
        } else if i == digits.len() {
            assert(prefix[i] == "-"@[0]);
        } else if i < digits.len() + 1 + rest.len() {
            let k = i - digits.len() - 1;
            assert(prefix[i] == rest[k] && rest[k] == name_char(time[k]));
        } else if i == digits.len() + 1 + rest.len() {
            assert(prefix[i] == "-"@[0]);
        } else {
            let k = i - digits.len() - 2 - rest.len();
            assert(prefix[i] == end[k] && end[k] == name_char(model[k]));
        }
    }
}

proof fn decimal_digits(n: nat)
    ensures
        decimal(n).len() > 0,
        forall|i: int| 0 <= i < decimal(n).len() ==> '0' <= #[trigger] decimal(n)[i] && decimal(n)[i] <= '9',
    decreases n,
{
    if n >= 10 {
        decimal_digits(n / 10);
        assert forall|i: int| 0 <= i < decimal(n).len() implies '0' <= #[trigger] decimal(n)[i] && decimal(n)[i] <= '9' by {
            if i < decimal(n / 10).len() {
                assert(decimal(n)[i] == decimal(n / 10)[i]);
            }
        }
    }
}

} // verus!
