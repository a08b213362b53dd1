//! Texts as sequences of characters.
use vstd::prelude::*;
use vstd::utf8::{decode_utf8, encode_utf8, valid_utf8};

verus! {

/// Whether a character has the Unicode property `White_Space`.
pub open spec fn is_space(c: char) -> bool {
    let n = c as u32;
    9 <= n <= 13 || n == 0x20 || n == 0x85 || n == 0xa0 || n == 0x1680 || 0x2000 <= n <= 0x200a || n == 0x2028 || n
        == 0x2029 || n == 0x202f || n == 0x205f || n == 0x3000
}

/// `char::is_whitespace` tells the characters with the Unicode property `White_Space`.
pub assume_specification[ char::is_whitespace ](c: char) -> (yes: bool)
    ensures
        yes == is_space(c),
;

/// `String::push` appends one character.
pub assume_specification[ String::push ](s: &mut String, c: char)
    ensures
        final(s)@ == old(s)@.push(c),
;

/// Whether two texts are the same, character by character.
pub fn same(a: &str, b: &str) -> (equal: bool)
    ensures
        equal == (a@ == b@),
{
    let left = chars_of(a);
    let right = chars_of(b);
    if left.len() != right.len() {
        return false;
    }
    let mut i: usize = 0;
    while i < left.len()
        invariant
            i <= left@.len(),
            left@.len() == right@.len(),
            left@ == a@,
            right@ == b@,
            forall|k: int| 0 <= k < i ==> left@[k] == right@[k],
        decreases left@.len() - i,
    {
        if left[i] != right[i] {
            return false;
        }
        i = i + 1;
    }
    assert(a@ =~= b@);
    true
}

/// The text of an optional string.
pub open spec fn opt_text(s: Option<&str>) -> Option<Seq<char>> {
    match s {
        Some(t) => Some(t@),
        None => None,
    }
}

/// A count after one more, which stays at the largest number that it can hold.
pub open spec fn bumped(n: usize) -> usize {
    if n < usize::MAX {
        (n + 1) as usize
    } else {
        n
    }
}

/// Counts one more.
pub fn bump(n: usize) -> (m: usize)
    ensures
        m == bumped(n),
{
    if n < usize::MAX {
        n + 1
    } else {
        n
    }
}

/// The texts of a list of strings.
pub open spec fn texts(list: Seq<String>) -> Seq<Seq<char>> {
    list.map_values(|s: String| s@)
}

pub broadcast proof fn texts_push(list: Seq<String>, s: String)
    ensures
        #[trigger] texts(list.push(s)) == texts(list).push(s@),
{
    assert(texts(list.push(s)) =~= texts(list).push(s@));
}

pub broadcast proof fn texts_empty()
    ensures
        #[trigger] texts(Seq::<String>::empty()) == Seq::<Seq<char>>::empty(),
{
    assert(texts(Seq::<String>::empty()) =~= Seq::<Seq<char>>::empty());
}

pub broadcast proof fn texts_index(list: Seq<String>, i: int)
    requires
        0 <= i < list.len(),
    ensures
        (#[trigger] texts(list)[i]) == list[i]@,
{
}

pub broadcast group group_texts {
    texts_push,
    texts_empty,
    texts_index,
}

/// The characters of a text.
pub fn chars_of(s: &str) -> (chars: Vec<char>)
    ensures
        chars@ == s@,
{
    let mut out: Vec<char> = Vec::new();
    for c in it: s.chars()
        invariant
            it.seq() == s@,
            out@ == s@.take(it.index()),
    {
        out.push(c);
    }
    out
}

/// The text made of a run of characters.
pub fn text_of(chars: &Vec<char>, from: usize, to: usize) -> (s: String)
    requires
        from <= to <= chars@.len(),
    ensures
        s@ == chars@.subrange(from as int, to as int),
{
    let mut s = String::new();
    let mut i: usize = from;
    while i < to
        invariant
            from <= i <= to <= chars@.len(),
            s@ == chars@.subrange(from as int, i as int),
        decreases to - i,
    {
        s.push(chars[i]);
        i = i + 1;
    }
    s
}

/// Whether a list holds a text.
pub fn contains_text(list: &Vec<String>, s: &str) -> (yes: bool)
    ensures
        yes == texts(list@).contains(s@),
{
    let mut i: usize = 0;
    while i < list.len()
        invariant
            i <= list@.len(),
            forall|k: int| 0 <= k < i ==> (#[trigger] texts(list@)[k]) != s@,
        decreases list@.len() - i,
    {
        if same(list[i].as_str(), s) {
            assert(texts(list@)[i as int] == s@);
            return true;
        }
        i = i + 1;
    }
    false
}

/// Whether a character occurs.
pub fn contains_char(s: &str, wanted: char) -> (yes: bool)
    ensures
        yes == s@.contains(wanted),
{
    for c in it: s.chars()
        invariant
            it.seq() == s@,
            forall|k: int| 0 <= k < it.index() ==> (#[trigger] s@[k]) != wanted,
    {
        if c == wanted {
            assert(s@[it.index()] == wanted);
            return true;
        }
    }
    false
}

/// Whether every character is white space.
pub open spec fn is_blank(s: Seq<char>) -> bool {
    forall|i: int| 0 <= i < s.len() ==> is_space(#[trigger] s[i])
}

/// Whether a text is empty once white space is taken off both ends.
pub fn blank(s: &str) -> (yes: bool)
    ensures
        yes == is_blank(s@),
{
    for c in it: s.chars()
        invariant
            it.seq() == s@,
            forall|k: int| 0 <= k < it.index() ==> is_space(#[trigger] s@[k]),
    {
        if !c.is_whitespace() {
            assert(s@[it.index()] == c);
            return false;
        }
    }
    true
}

/// Texts one after another with a separator between them.
pub open spec fn joined(parts: Seq<Seq<char>>, sep: Seq<char>) -> Seq<char>
    decreases parts.len(),
{
    if parts.len() == 0 {
        Seq::empty()
    } else if parts.len() == 1 {
        parts[0]
    } else {
        joined(parts.drop_last(), sep) + sep + parts.last()
    }
}

/// Puts texts one after another with a separator between them.
pub fn join(parts: &Vec<String>, sep: &str) -> (s: String)
    ensures
        s@ == joined(texts(parts@), sep@),
{
    broadcast use group_texts;
    if parts.len() == 0 {
        return String::new();
    }
    let mut s = parts[0].clone();
    let mut i: usize = 1;
    assert(texts(parts@).take(1) =~= seq![texts(parts@)[0]]);
    while i < parts.len()
        invariant
            1 <= i <= parts@.len(),
            s@ == joined(texts(parts@).take(i as int), sep@),
        decreases parts@.len() - i,
    {
        let ghost done = texts(parts@).take(i + 1);
        assert(done.drop_last() =~= texts(parts@).take(i as int));
        s.append(sep);
        s.append(parts[i].as_str());
        i = i + 1;
    }
    assert(texts(parts@).take(i as int) =~= texts(parts@));
    s
}

/// The number of bytes of a text.
pub fn byte_len(s: &str) -> (n: usize)
    ensures
        n == encode_utf8(s@).len(),
{
    s.as_bytes().len()
}

/// What `String::from_utf8_lossy` makes of bytes.
pub uninterp spec fn lossy_text(bytes: Seq<u8>) -> Seq<char>;

/// `String::from_utf8_lossy` decodes UTF-8 and puts the replacement character for what is not.
#[verifier::external_body]
pub(crate) fn decode_lossy(bytes: &[u8]) -> (s: String)
    ensures
        s@ == lossy_text(bytes@),
        valid_utf8(bytes@) ==> s@ == decode_utf8(bytes@),
{
    String::from_utf8_lossy(bytes).into_owned()
}

/// The ASCII lower case of a character.
pub open spec fn lower(c: char) -> char {
    if 'A' <= c && c <= 'Z' {
        (c as u8 + 32) as char
    } else {
        c
    }
}

/// A text in ASCII lower case.
pub open spec fn lowered(s: Seq<char>) -> Seq<char> {
    s.map_values(|c: char| lower(c))
}

pub fn lower_char(c: char) -> (l: char)
    ensures
        l == lower(c),
{
    if 'A' <= c && c <= 'Z' {
        (c as u8 + 32) as char
    } else {
        c
    }
}

/// A text in ASCII lower case.
pub fn to_lower(s: &str) -> (l: String)
    ensures
        l@ == lowered(s@),
{
    let mut l = String::new();
    for c in it: s.chars()
        invariant
            it.seq() == s@,
            l@ == lowered(s@.take(it.index())),
    {
        assert(s@.take(it.index() + 1) =~= s@.take(it.index()).push(c));
        l.push(lower_char(c));
        assert(l@ =~= lowered(s@.take(it.index() + 1)));
    }
    assert(s@.take(s@.len() as int) =~= s@);
    l
}

/// Whether `part` stands in `s` at a place.
pub open spec fn stands_at(s: Seq<char>, part: Seq<char>, at: int) -> bool {
    0 <= at && at + part.len() <= s.len() && s.subrange(at, at + part.len()) == part
}

/// Whether `part` stands somewhere in `s`.
pub open spec fn has_part(s: Seq<char>, part: Seq<char>) -> bool {
    exists|at: int| #[trigger] stands_at(s, part, at)
}

/// Whether characters stand at a place.
pub fn chars_at(s: &Vec<char>, part: &Vec<char>, at: usize) -> (yes: bool)
    ensures
        yes == stands_at(s@, part@, at as int),
{
    let n: usize = s.len();
    if at > n || part.len() > n - at {
        return false;
    }
    let mut k: usize = 0;
    while k < part.len()
        invariant
            k <= part@.len(),
            n == s@.len(),
            at + part@.len() <= n,
            forall|j: int| 0 <= j < k ==> s@[at + j] == #[trigger] part@[j],
        decreases part@.len() - k,
    {
        if s[at + k] != part[k] {
            assert(s@.subrange(at as int, at + part@.len())[k as int] != part@[k as int]);
            return false;
        }
        k = k + 1;
    }
    assert(s@.subrange(at as int, at + part@.len()) =~= part@);
    true
}

/// Whether `part` stands somewhere in `s`.
pub fn contains(s: &str, part: &str) -> (yes: bool)
    ensures
        yes == has_part(s@, part@),
{
    let cs = chars_of(s);
    let ps = chars_of(part);
    let mut at: usize = 0;
    while at <= cs.len()
        invariant
            cs@ == s@,
            ps@ == part@,
            at <= cs@.len() + 1,
            forall|k: int| 0 <= k < at ==> !#[trigger] stands_at(s@, part@, k),
        decreases cs@.len() + 1 - at,
    {
        if chars_at(&cs, &ps, at) {
            return true;
        }
        if at == cs.len() {
            assert(forall|k: int| !#[trigger] stands_at(s@, part@, k)) by {
                assert forall|k: int| !#[trigger] stands_at(s@, part@, k) by {
                    if k > s@.len() {
                        assert(!stands_at(s@, part@, k));
                    }
                }
            }
            return false;
        }
        at = at + 1;
    }
    false
}

/// Whether a text begins with another.
pub fn starts_with(s: &str, prefix: &str) -> (yes: bool)
    ensures
        yes == prefix@.is_prefix_of(s@),
{
    let cs = chars_of(s);
    let ps = chars_of(prefix);
    let yes = chars_at(&cs, &ps, 0);
    assert(yes == prefix@.is_prefix_of(s@));
    yes
}

/// Whether a text ends with another.
pub fn ends_with(s: &str, suffix: &str) -> (yes: bool)
    ensures
        yes == suffix@.is_suffix_of(s@),
{
    let cs = chars_of(s);
    let ps = chars_of(suffix);
    if ps.len() > cs.len() {
        return false;
    }
    let yes = chars_at(&cs, &ps, cs.len() - ps.len());
    assert(yes == suffix@.is_suffix_of(s@));
    yes
}

/// What follows a prefix.
pub fn strip_prefix(s: &str, prefix: &str) -> (rest: Option<String>)
    ensures
        match rest {
            Some(r) => prefix@.is_prefix_of(s@) && r@ == s@.skip(prefix@.len() as int),
            None => !prefix@.is_prefix_of(s@),
        },
{
    if !starts_with(s, prefix) {
        return None;
    }
    let cs = chars_of(s);
    let n: usize = prefix.unicode_len();
    Some(text_of(&cs, n, cs.len()))
}

/// The text between the separators that `sep` tells.
pub open spec fn pieces(s: Seq<char>, sep: spec_fn(char) -> bool) -> Seq<Seq<char>>
    decreases s.len(),
{
    if s.len() == 0 {
        seq![Seq::empty()]
    } else {
        let before = pieces(s.drop_last(), sep);
        if sep(s.last()) {
            before.push(Seq::empty())
        } else {
            before.drop_last().push(before.last().push(s.last()))
        }
    }
}

pub proof fn pieces_not_empty(s: Seq<char>, sep: spec_fn(char) -> bool)
    ensures
        pieces(s, sep).len() > 0,
    decreases s.len(),
{
    if s.len() > 0 {
        pieces_not_empty(s.drop_last(), sep);
    }
}

/// The separator that is one character.
pub open spec fn is_char(sep: char) -> spec_fn(char) -> bool {
    |c: char| c == sep
}

/// Whether a character is an ASCII letter or digit.
pub open spec fn alphanumeric(c: char) -> bool {
    ('a' <= c && c <= 'z') || ('A' <= c && c <= 'Z') || ('0' <= c && c <= '9')
}

/// The separators between ASCII words.
pub open spec fn between_words() -> spec_fn(char) -> bool {
    |c: char| !alphanumeric(c)
}

/// The texts between the places where a character stands.
pub fn split_char(s: &str, sep: char) -> (parts: Vec<String>)
    ensures
        texts(parts@) == pieces(s@, is_char(sep)),
{
    broadcast use group_texts;
    let mut done: Vec<String> = Vec::new();
    let mut current = String::new();
    let ghost f = is_char(sep);
    for c in it: s.chars()
        invariant
            it.seq() == s@,
            f == is_char(sep),
            texts(done@).push(current@) == pieces(s@.take(it.index()), f),
    {
        broadcast use group_texts;
        let ghost was = texts(done@).push(current@);
        assert(s@.take(it.index() + 1).drop_last() =~= s@.take(it.index()));
        assert(was.drop_last() =~= texts(done@));
        if c == sep {
            done.push(current);
            current = String::new();
        } else {
            current.push(c);
        }
    }
    assert(s@.take(s@.len() as int) =~= s@);
    done.push(current);
    done
}

/// The runs between characters that are no ASCII letters or digits, empty runs too.
pub fn split_words(s: &str) -> (parts: Vec<String>)
    ensures
        texts(parts@) == pieces(s@, between_words()),
{
    broadcast use group_texts;
    let mut done: Vec<String> = Vec::new();
    let mut current = String::new();
    let ghost f = between_words();
    for c in it: s.chars()
        invariant
            it.seq() == s@,
            f == between_words(),
            texts(done@).push(current@) == pieces(s@.take(it.index()), f),
    {
        broadcast use group_texts;
        let ghost was = texts(done@).push(current@);
        assert(s@.take(it.index() + 1).drop_last() =~= s@.take(it.index()));
        assert(was.drop_last() =~= texts(done@));
        if is_alphanumeric(c) {
            current.push(c);
        } else {
            done.push(current);
            current = String::new();
        }
    }
    assert(s@.take(s@.len() as int) =~= s@);
    done.push(current);
    done
}

pub fn is_alphanumeric(c: char) -> (yes: bool)
    ensures
        yes == alphanumeric(c),
{
    ('a' <= c && c <= 'z') || ('A' <= c && c <= 'Z') || ('0' <= c && c <= '9')
}

/// Whether every character is an ASCII digit.
pub open spec fn all_digits(s: Seq<char>) -> bool {
    forall|i: int| 0 <= i < s.len() ==> '0' <= #[trigger] s[i] && s[i] <= '9'
}

pub fn digits_only(s: &str) -> (yes: bool)
    ensures
        yes == all_digits(s@),
{
    for c in it: s.chars()
        invariant
            it.seq() == s@,
            forall|k: int| 0 <= k < it.index() ==> '0' <= #[trigger] s@[k] && s@[k] <= '9',
    {
        if c < '0' || c > '9' {
            assert(s@[it.index()] == c);
            return false;
        }
    }
    true
}

/// The decimal text of a number.
pub open spec fn decimal(n: nat) -> Seq<char>
    decreases n,
{
    if n < 10 {
        seq![digit(n)]
    } else {
        decimal(n / 10).push(digit(n % 10))
    }
}

/// The character of a digit.
pub open spec fn digit(d: nat) -> char {
    (48 + d) as char
}

/// The decimal text of a number.
pub fn number_text(n: u64) -> (s: String)
    ensures
        s@ == decimal(n as nat),
    decreases n,
{
    if n < 10 {
        let mut s = String::new();
        s.push((48 + n as u8) as char);
        assert(s@ =~= seq![digit(n as nat)]);
        s
    } else {
        let mut s = number_text(n / 10);
        s.push((48 + (n % 10) as u8) as char);
        s
    }
}

/// The two texts one after the other.
pub fn concat(a: &str, b: &str) -> (s: String)
    ensures
        s@ == a@ + b@,
{
    let mut s = a.to_owned();
    s.append(b);
    s
}

/// A text without white space at its start.
pub open spec fn trimmed_start(s: Seq<char>) -> Seq<char>
    decreases s.len(),
{
    if s.len() > 0 && is_space(s[0]) {
        trimmed_start(s.drop_first())
    } else {
        s
    }
}

/// A text without white space at its end.
pub open spec fn trimmed_end(s: Seq<char>) -> Seq<char>
    decreases s.len(),
{
    if s.len() > 0 && is_space(s.last()) {
        trimmed_end(s.drop_last())
    } else {
        s
    }
}

/// A text without white space at either end.
pub open spec fn trimmed(s: Seq<char>) -> Seq<char> {
    trimmed_end(trimmed_start(s))
}

/// A text without white space at its ends starts and ends with none.
pub proof fn trimmed_has_plain_ends(s: Seq<char>)
    ensures
        trimmed(s).len() > 0 ==> !is_space(trimmed(s)[0]) && !is_space(trimmed(s).last()),
        trimmed(trimmed(s)) == trimmed(s),
{
    start_is_plain(s);
    end_is_plain(trimmed_start(s));
}

proof fn start_is_plain(s: Seq<char>)
    ensures
        trimmed_start(s).len() > 0 ==> !is_space(trimmed_start(s)[0]),
    decreases s.len(),
{
    if s.len() > 0 && is_space(s[0]) {
        start_is_plain(s.drop_first());
    }
}

proof fn end_is_plain(s: Seq<char>)
    ensures
        trimmed_end(s).len() > 0 ==> !is_space(trimmed_end(s).last()) && trimmed_end(s)[0] == s[0],
    decreases s.len(),
{
    if s.len() > 0 && is_space(s.last()) {
        end_is_plain(s.drop_last());
    }
}

fn start_of(cs: &Vec<char>) -> (from: usize)
    ensures
        from <= cs@.len(),
        trimmed_start(cs@) == cs@.skip(from as int),
{
    let mut i: usize = 0;
    assert(cs@.skip(0) =~= cs@);
    while i < cs.len() && cs[i].is_whitespace()
        invariant
            i <= cs@.len(),
            trimmed_start(cs@) == trimmed_start(cs@.skip(i as int)),
        decreases cs@.len() - i,
    {
        assert(cs@.skip(i as int).drop_first() =~= cs@.skip(i + 1));
        i = i + 1;
    }
    i
}

/// Takes white space off the start.
pub fn trim_start(s: &str) -> (t: String)
    ensures
        t@ == trimmed_start(s@),
{
    let cs = chars_of(s);
    let from = start_of(&cs);
    text_of(&cs, from, cs.len())
}

/// Takes white space off both ends.
pub fn trim(s: &str) -> (t: String)
    ensures
        t@ == trimmed(s@),
{
    let cs = chars_of(s);
    let from = start_of(&cs);
    let mut to: usize = cs.len();
    let ghost inner = cs@.skip(from as int);
    assert(cs@.subrange(from as int, to as int) =~= inner);
    while to > from && cs[to - 1].is_whitespace()
        invariant
            from <= to <= cs@.len(),
            trimmed_end(inner) == trimmed_end(cs@.subrange(from as int, to as int)),
        decreases to - from,
    {
        assert(cs@.subrange(from as int, to as int).drop_last() =~= cs@.subrange(from as int, to - 1));
        to = to - 1;
    }
    assert(to > from ==> cs@.subrange(from as int, to as int).last() == cs@[to - 1]);
    text_of(&cs, from, to)
}

/// A blank text is one that trims to nothing.
pub proof fn blank_trims_to_nothing(s: Seq<char>)
    ensures
        is_blank(s) == (trimmed(s).len() == 0),
    decreases s.len(),
{
    blank_start(s);
    blank_end(trimmed_start(s));
}

proof fn blank_start(s: Seq<char>)
    ensures
        is_blank(s) == is_blank(trimmed_start(s)),
    decreases s.len(),
{
    if s.len() > 0 && is_space(s[0]) {
        let rest = s.drop_first();
        blank_start(rest);
        assert(is_blank(s) == is_blank(rest)) by {
            assert(forall|i: int| 0 <= i < rest.len() ==> rest[i] == #[trigger] s[i + 1]);
            assert forall|i: int| is_blank(rest) && 0 <= i < s.len() implies is_space(#[trigger] s[i]) by {
                if i > 0 {
                    assert(rest[i - 1] == s[i]);
                }
            }
        }
    }
}

proof fn blank_end(s: Seq<char>)
    ensures
        is_blank(s) == (trimmed_end(s).len() == 0),
    decreases s.len(),
{
    if s.len() > 0 {
        if is_space(s.last()) {
            let rest = s.drop_last();
            blank_end(rest);
            assert(is_blank(s) == is_blank(rest)) by {
                assert(forall|i: int| 0 <= i < rest.len() ==> rest[i] == #[trigger] s[i]);
                assert forall|i: int| is_blank(rest) && 0 <= i < s.len() implies is_space(#[trigger] s[i]) by {
                    if i < rest.len() {
                        assert(rest[i] == s[i]);
                    }
                }
            }
        } else {
            assert(!is_space(s[s.len() - 1]));
        }
    }
}

/// A text with every occurrence of `from`, taken from the start, replaced by `to`.
pub open spec fn replaced(s: Seq<char>, from: Seq<char>, to: Seq<char>) -> Seq<char>
    decreases s.len(),
{
    if s.len() == 0 || from.len() == 0 {
        s
    } else if stands_at(s, from, 0) {
        to + replaced(s.skip(from.len() as int), from, to)
    } else {
        seq![s[0]] + replaced(s.skip(1), from, to)
    }
}

/// Replaces every occurrence of a text, taken from the start.
pub fn replace(s: &str, from: &str, to: &str) -> (out: String)
    requires
        from@.len() > 0,
    ensures
        out@ == replaced(s@, from@, to@),
{
    let cs = chars_of(s);
    let fs = chars_of(from);
    let n: usize = cs.len();
    let mut out = String::new();
    let mut i: usize = 0;
    assert(cs@.skip(0) =~= cs@);
    assert(out@ + replaced(cs@, from@, to@) =~= replaced(cs@, from@, to@));
    while i < n
        invariant
            i <= n,
            n == cs@.len(),
            fs@ == from@,
            from@.len() > 0,
            out@ + replaced(cs@.skip(i as int), from@, to@) == replaced(cs@, from@, to@),
        decreases n - i,
    {
        let ghost was = out@;
        let ghost tail = cs@.skip(i as int);
        assert(stands_at(cs@, from@, i as int) == stands_at(tail, from@, 0)) by {
            if i + from@.len() <= n {
                assert(cs@.subrange(i as int, i + from@.len()) =~= tail.subrange(0, from@.len() as int));
            }
        }
        if chars_at(&cs, &fs, i) {
            out.append(to);
            assert(tail.skip(from@.len() as int) =~= cs@.skip(i + from@.len()));
            assert(was + (to@ + replaced(tail.skip(from@.len() as int), from@, to@)) =~= out@ + replaced(
                tail.skip(from@.len() as int),
                from@,
                to@,
            ));
            i = i + fs.len();
        } else {
            out.push(cs[i]);
            assert(tail.skip(1) =~= cs@.skip(i + 1));
            assert(was + (seq![tail[0]] + replaced(tail.skip(1), from@, to@)) =~= out@ + replaced(tail.skip(1), from@, to@));
            i = i + 1;
        }
    }
    assert(cs@.skip(i as int) =~= Seq::empty());
    assert(out@ + Seq::<char>::empty() =~= out@);
    out
}

/// The number that decimal digits stand for.
pub open spec fn digits_value(s: Seq<char>) -> nat
    decreases s.len(),
{
    if s.len() == 0 {
        0
    } else {
        digits_value(s.drop_last()) * 10 + (s.last() as nat - 48) as nat
    }
}

/// The number that a text of digits stands for, where it is not larger than `max`.
pub open spec fn plain_number(s: Seq<char>, max: nat) -> Option<nat> {
    if s.len() > 0 && all_digits(s) && digits_value(s) <= max {
        Some(digits_value(s))
    } else {
        None
    }
}

proof fn digits_value_grows(s: Seq<char>, i: int)
    requires
        0 <= i <= s.len(),
    ensures
        digits_value(s.take(i)) <= digits_value(s),
    decreases s.len() - i,
{
    if i < s.len() {
        assert(s.take(i + 1).drop_last() =~= s.take(i));
        digits_value_grows(s, i + 1);
    } else {
        assert(s.take(i) =~= s);
    }
}

/// Reads a number of decimal digits alone.
pub fn parse_digits(s: &str, max: u64) -> (n: Option<u64>)
    ensures
        match n {
            Some(v) => plain_number(s@, max as nat) == Some(v as nat),
            None => plain_number(s@, max as nat) is None,
        },
{
    if s.is_empty() || !digits_only(s) {
        return None;
    }
    let cs = chars_of(s);
    let mut v: u64 = 0;
    let mut i: usize = 0;
    while i < cs.len()
        invariant
            i <= cs@.len(),
            cs@ == s@,
            all_digits(s@),
            s@.len() > 0,
            v <= max,
            v == digits_value(s@.take(i as int)),
        decreases cs@.len() - i,
    {
        assert(s@.take(i + 1).drop_last() =~= s@.take(i as int));
        assert('0' <= s@[i as int] && s@[i as int] <= '9');
        let d: u64 = (cs[i] as u32 - 48) as u64;
        let ghost next = digits_value(s@.take(i + 1));
        assert(next == v * 10 + d);
        if d > max || v > (max - d) / 10 {
            proof {
                digits_value_grows(s@, i + 1);
            }
            return None;
        }
        v = v * 10 + d;
        i = i + 1;
    }
    assert(s@.take(i as int) =~= s@);
    Some(v)
}

/// The texts of a list as a set.
pub open spec fn id_set(ids: Seq<String>) -> Set<Seq<char>> {
    texts(ids).to_set()
}

/// One more text in a list is one more in its set.
pub proof fn id_set_push(ids: Seq<String>, id: String)
    ensures
        id_set(ids.push(id)) == id_set(ids).insert(id@),
{
    broadcast use group_texts;

    let before = texts(ids);
    let after = texts(ids.push(id));
    assert(after == before.push(id@));
    assert forall|x: Seq<char>| after.contains(x) == (before.contains(x) || x == id@) by {
        if before.contains(x) {
            let k = choose|k: int| 0 <= k < before.len() && before[k] == x;
            assert(after[k] == x);
        }
        if x == id@ {
            assert(after[before.len() as int] == x);
        }
    }
    assert(id_set(ids.push(id)) =~= id_set(ids).insert(id@));
}

/// An empty list is an empty set.
pub proof fn id_set_empty(ids: Seq<String>)
    ensures
        ids.len() == 0 <==> id_set(ids) =~= Set::empty(),
        ids.len() == 0 <==> id_set(ids).is_empty(),
{
    if ids.len() > 0 {
        assert(texts(ids)[0] == ids[0]@);
        assert(id_set(ids).contains(ids[0]@));
    } else {
        assert(id_set(ids) =~= Set::empty());
    }
}

/// `String::from_utf8` takes bytes that are UTF-8, and no others.
#[verifier::external_body]
pub(crate) fn decode_strict(bytes: Vec<u8>) -> (s: Option<String>)
    ensures
        s is Some <==> valid_utf8(bytes@),
        s matches Some(text) ==> text@ == decode_utf8(bytes@),
{
    String::from_utf8(bytes).ok()
}

/// Whether a character is a control code.
pub open spec fn control_code(c: char) -> bool {
    c as u32 <= 0x1f || 0x7f <= c as u32 <= 0x9f
}

/// `char::is_control` tells the control codes, the general category `Cc`.
pub assume_specification[ char::is_control ](c: char) -> (yes: bool)
    ensures
        yes == control_code(c),
;

/// Whether a text holds a control code.
pub open spec fn has_control(s: Seq<char>) -> bool {
    exists|i: int| 0 <= i < s.len() && control_code(#[trigger] s[i])
}

pub fn any_control(s: &str) -> (yes: bool)
    ensures
        yes == has_control(s@),
{
    let chars = chars_of(s);
    let mut i: usize = 0;
    while i < chars.len()
        invariant
            i <= chars@.len(),
            chars@ == s@,
            forall|k: int| 0 <= k < i ==> !control_code(#[trigger] s@[k]),
        decreases chars@.len() - i,
    {
        if chars[i].is_control() {
            assert(control_code(s@[i as int]));
            return true;
        }
        i = i + 1;
    }
    false
}

/// A text without a character at its start.
pub open spec fn without_start(s: Seq<char>, c: char) -> Seq<char>
    decreases s.len(),
{
    if s.len() > 0 && s[0] == c {
        without_start(s.drop_first(), c)
    } else {
        s
    }
}

/// A text without a character at its end.
pub open spec fn without_end(s: Seq<char>, c: char) -> Seq<char>
    decreases s.len(),
{
    if s.len() > 0 && s.last() == c {
        without_end(s.drop_last(), c)
    } else {
        s
    }
}

/// Taking a character off the end leaves the start.
pub proof fn ends_keep_the_start(s: Seq<char>, c: char)
    ensures
        without_end(s, c).len() > 0 ==> without_end(s, c)[0] == s[0],
        without_end(s, c).len() <= s.len(),
    decreases s.len(),
{
    if s.len() > 0 && s.last() == c {
        ends_keep_the_start(s.drop_last(), c);
    }
}

/// Takes a character off the end, as often as it stands there.
pub fn trim_end_char(s: &str, c: char) -> (t: String)
    ensures
        t@ == without_end(s@, c),
{
    let cs = chars_of(s);
    let mut to: usize = cs.len();
    assert(cs@.take(to as int) =~= s@);
    while to > 0 && cs[to - 1] == c
        invariant
            to <= cs@.len(),
            without_end(s@, c) == without_end(cs@.take(to as int), c),
        decreases to,
    {
        assert(cs@.take(to as int).drop_last() =~= cs@.take(to - 1));
        to = to - 1;
    }
    assert(cs@.subrange(0, to as int) =~= cs@.take(to as int));
    text_of(&cs, 0, to)
}

/// The number that a text stands for where it is digits behind at most one plus sign, and the number
/// not larger than `max`.
pub open spec fn unsigned_number(s: Seq<char>, max: nat) -> Option<nat> {
    if s.len() > 0 && s[0] == '+' {
        plain_number(s.skip(1), max)
    } else {
        plain_number(s, max)
    }
}

/// Reads a number as the standard library reads an unsigned integer.
pub fn parse_unsigned(s: &str, max: u64) -> (n: Option<u64>)
    ensures
        match n {
            Some(v) => unsigned_number(s@, max as nat) == Some(v as nat),
            None => unsigned_number(s@, max as nat) is None,
        },
{
    let cs = chars_of(s);
    if cs.len() > 0 && cs[0] == '+' {
        let rest = text_of(&cs, 1, cs.len());
        assert(rest@ =~= s@.skip(1));
        parse_digits(rest.as_str(), max)
    } else {
        parse_digits(s, max)
    }
}

/// The value of a name; of two values, the later.
pub open spec fn value_of(pairs: Seq<(Seq<char>, Seq<char>)>, name: Seq<char>) -> Option<Seq<char>>
    decreases pairs.len(),
{
    if pairs.len() == 0 {
        None
    } else if pairs.last().0 == name {
        Some(pairs.last().1)
    } else {
        value_of(pairs.drop_last(), name)
    }
}

pub open spec fn pairs_view(pairs: Seq<(String, String)>) -> Seq<(Seq<char>, Seq<char>)> {
    pairs.map_values(|e: (String, String)| (e.0@, e.1@))
}

/// Finds the value of a name.
pub fn look_up<'a>(pairs: &'a Vec<(String, String)>, name: &str) -> (value: Option<&'a str>)
    ensures
        opt_text(value) == value_of(pairs_view(pairs@), name@),
{
    let ghost all = pairs_view(pairs@);
    let mut i: usize = pairs.len();
    assert(all.take(i as int) =~= all);
    while i > 0
        invariant
            i <= pairs@.len(),
            all == pairs_view(pairs@),
            value_of(all, name@) == value_of(all.take(i as int), name@),
        decreases i,
    {
        assert(all.take(i as int).last() == all[i - 1]);
        assert(all[i - 1] == (pairs@[i - 1].0@, pairs@[i - 1].1@));
        assert(all.take(i as int).drop_last() =~= all.take(i - 1));
        if same(pairs[i - 1].0.as_str(), name) {
            return Some(pairs[i - 1].1.as_str());
        }
        i = i - 1;
    }
    None
}

/// A text in lower case, as `str::to_lowercase` gives it.
pub uninterp spec fn unicode_lower(s: Seq<char>) -> Seq<char>;

/// `str::to_lowercase` follows the Unicode property `Lowercase`, whatever the locale.
#[verifier::external_body]
pub(crate) fn to_lowercase(s: &str) -> (l: String)
    ensures
        l@ == unicode_lower(s@),
{
    s.to_lowercase()
}

} // verus!
