//! Paths of files, written with slashes.
use crate::provider_contracts::opt_owned;
use crate::text::{chars_of, concat, group_texts, is_char, pieces, same, split_char, text_of, texts};
use vstd::prelude::*;

verus! {

/// A name below a directory.
pub open spec fn below(dir: Seq<char>, name: Seq<char>) -> Seq<char> {
    if dir.len() == 0 || dir.last() == '/' {
        dir + name
    } else {
        dir + seq!['/'] + name
    }
}

/// A name, which starts with no slash, below a directory.
pub fn join_path(dir: &str, name: &str) -> (path: String)
    ensures
        path@ == below(dir@, name@),
{
    let chars = chars_of(dir);
    let n: usize = chars.len();
    if n == 0 || chars[n - 1] == '/' {
        concat(dir, name)
    } else {
        let mut path = dir.to_owned();
        path.push('/');
        path.append(name);
        assert(path@ =~= dir@ + seq!['/'] + name@);
        path
    }
}

/// A path without what leads nowhere at its end: slashes, and dots that stand for the directory
/// itself.
pub open spec fn tidied(path: Seq<char>) -> Seq<char>
    decreases path.len(),
{
    let n = path.len();
    if n > 1 && (path[n - 1] == '/' || (path[n - 1] == '.' && path[n - 2] == '/')) {
        tidied(path.drop_last())
    } else {
        path
    }
}

/// A path up to its last slash, the slash counted in.
pub open spec fn up_to_slash(path: Seq<char>) -> Seq<char>
    decreases path.len(),
{
    if path.len() == 0 || path.last() == '/' {
        path
    } else {
        up_to_slash(path.drop_last())
    }
}

/// The directory that a path's last name stands in; the root and the empty path stand in none.
pub open spec fn parent_of(path: Seq<char>) -> Option<Seq<char>> {
    let plain = tidied(path);
    if plain.len() == 0 || plain == seq!['/'] {
        None
    } else {
        Some(tidied(up_to_slash(plain)))
    }
}

fn tidy(chars: &Vec<char>, len: usize) -> (end: usize)
    requires
        len <= chars@.len(),
    ensures
        end <= len,
        tidied(chars@.take(len as int)) == chars@.take(end as int),
{
    let mut end: usize = len;
    while end > 1 && (chars[end - 1] == '/' || (chars[end - 1] == '.' && chars[end - 2] == '/'))
        invariant
            end <= len <= chars@.len(),
            tidied(chars@.take(len as int)) == tidied(chars@.take(end as int)),
        decreases end,
    {
        assert(chars@.take(end as int).drop_last() =~= chars@.take(end - 1));
        end = end - 1;
    }
    end
}

/// The directory that a path's last name stands in; the root and the empty path stand in none.
pub fn parent_dir(path: &str) -> (dir: Option<String>)
    ensures
        opt_owned(dir) == parent_of(path@),
{
    let chars = chars_of(path);
    assert(chars@.take(chars@.len() as int) =~= path@);
    let len: usize = tidy(&chars, chars.len());
    let ghost plain = chars@.take(len as int);
    if len == 0 || (len == 1 && chars[0] == '/') {
        assert(len == 1 ==> plain =~= seq!['/']);
        return None;
    }
    assert(plain != seq!['/']) by {
        let root = seq!['/'];
        assert(root.len() == 1 && root[0] == '/');
        assert(plain.len() == len && plain[0] == chars@[0]);
    }
    let mut end: usize = len;
    while end > 0 && chars[end - 1] != '/'
        invariant
            end <= len <= chars@.len(),
            up_to_slash(chars@.take(len as int)) == up_to_slash(chars@.take(end as int)),
        decreases end,
    {
        assert(chars@.take(end as int).drop_last() =~= chars@.take(end - 1));
        end = end - 1;
    }
    let last: usize = tidy(&chars, end);
    assert(chars@.subrange(0, last as int) =~= chars@.take(last as int));
    Some(text_of(&chars, 0, last))
}

/// Whether a piece of a path names something: it is not empty, and it is not a dot but at the start.
pub open spec fn names_step(piece: Seq<char>, index: int) -> bool {
    piece.len() > 0 && (piece != seq!['.'] || index == 0)
}

/// The names of a path's pieces.
pub open spec fn path_steps(pieces: Seq<Seq<char>>) -> Seq<Seq<char>>
    decreases pieces.len(),
{
    if pieces.len() == 0 {
        Seq::empty()
    } else if names_step(pieces.last(), pieces.len() - 1) {
        path_steps(pieces.drop_last()).push(pieces.last())
    } else {
        path_steps(pieces.drop_last())
    }
}

/// Whether two paths are written by the same names from the same start.
pub open spec fn one_path(a: Seq<char>, b: Seq<char>) -> bool {
    &&& (a.len() > 0 && a[0] == '/') == (b.len() > 0 && b[0] == '/')
    &&& path_steps(pieces(a, is_char('/'))) == path_steps(pieces(b, is_char('/')))
}

fn read_steps(path: &str) -> (steps: Vec<String>)
    ensures
        texts(steps@) == path_steps(pieces(path@, is_char('/'))),
{
    broadcast use group_texts;
    let all = split_char(path, '/');
    let ghost parts = pieces(path@, is_char('/'));
    let n: usize = all.len();
    let mut steps: Vec<String> = Vec::new();
    let mut i: usize = 0;
    assert(parts.take(0) =~= Seq::empty());
    proof {
        reveal_strlit(".");
    }
    while i < n
        invariant
            n == all@.len(),
            i <= n,
            texts(all@) == parts,
            "."@ == seq!['.'],
            texts(steps@) == path_steps(parts.take(i as int)),
        decreases n - i,
    {
        broadcast use group_texts;
        assert(parts.take(i + 1).drop_last() =~= parts.take(i as int));
        assert(parts.take(i + 1).last() == all@[i as int]@);
        let piece = all[i].as_str();
        if piece.unicode_len() > 0 && (!same(piece, ".") || i == 0) {
            steps.push(piece.to_owned());
        }
        i = i + 1;
    }
    assert(parts.take(i as int) =~= parts);
    steps
}

/// Whether two paths are written by the same names from the same start.
pub fn same_path(a: &str, b: &str) -> (yes: bool)
    ensures
        yes == one_path(a@, b@),
{
    broadcast use group_texts;
    let ca = chars_of(a);
    let cb = chars_of(b);
    if (ca.len() > 0 && ca[0] == '/') != (cb.len() > 0 && cb[0] == '/') {
        return false;
    }
    let x = read_steps(a);
    let y = read_steps(b);
    let ghost xs = texts(x@);
    let ghost ys = texts(y@);
    assert(xs.len() == x@.len() && ys.len() == y@.len());
    if x.len() != y.len() {
        return false;
    }
    let mut i: usize = 0;
    while i < x.len()
        invariant
            i <= x@.len(),
            x@.len() == y@.len(),
            xs == texts(x@),
            ys == texts(y@),
            xs == path_steps(pieces(a@, is_char('/'))),
            ys == path_steps(pieces(b@, is_char('/'))),
            forall|k: int| 0 <= k < i ==> xs[k] == ys[k],
        decreases x@.len() - i,
    {
        broadcast use group_texts;
        assert(xs[i as int] == x@[i as int]@ && ys[i as int] == y@[i as int]@);
        if !same(x[i].as_str(), y[i].as_str()) {
            return false;
        }
        i = i + 1;
    }
    assert(xs =~= ys);
    true
}

} // verus!
