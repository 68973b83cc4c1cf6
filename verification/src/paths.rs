//! Paths as texts whose components slashes part.

use vstd::prelude::*;

use crate::copies::option_view;
use crate::seqs::{mapped, views};
use crate::text::{
    chars, ends_with, find_back, has_suffix, replace_char, rfind, same, slice, with_char,
};

verus! {

broadcast use {vstd::std_specs::vec::group_vec_axioms, crate::seqs::group_views};

/// A path with a name appended.
pub open spec fn path_join(path: Seq<char>, name: Seq<char>) -> Seq<char> {
    if path.len() == 0 || has_suffix(path, "/"@) {
        path + name
    } else {
        path + "/"@ + name
    }
}

pub fn join_path(path: &str, name: &str) -> (r: String)
    ensures
        r@ == path_join(path@, name@),
{
    let mut out = path.to_owned();
    if chars(path).len() > 0 && !ends_with(path, "/") {
        out.append("/");
    }
    out.append(name);
    out
}

/// Which characters part the components of a path.
#[derive(Debug, Clone, Copy, PartialEq, Eq, Structural)]
pub enum Separators {
    /// The slash alone: a backslash is part of a name.
    Slash,
    /// The slash and the backslash.
    Both,
}

/// A path in which slashes alone part the components.
pub open spec fn slashed(path: Seq<char>, separators: Separators) -> Seq<char> {
    match separators {
        Separators::Slash => path,
        Separators::Both => with_char(path, '\\', '/'),
    }
}

fn slash(path: &str, separators: Separators) -> (r: String)
    ensures
        r@ == slashed(path@, separators),
{
    match separators {
        Separators::Slash => path.to_owned(),
        Separators::Both => replace_char(path, '\\', '/'),
    }
}

/// Where the piece of a path that begins at `i` ends.
pub open spec fn piece_end(path: Seq<char>, i: int) -> int
    decreases path.len() - i,
{
    if 0 <= i < path.len() && path[i] != '/' {
        piece_end(path, i + 1)
    } else {
        i
    }
}

/// Where the names of a path stand from `i` on: empty pieces and `.` are no names.
pub open spec fn names_from(path: Seq<char>, i: int) -> Seq<(int, int)>
    decreases path.len() - i,
{
    let end = piece_end(path, i);
    let rest = if i <= end < path.len() {
        names_from(path, end + 1)
    } else {
        seq![]
    };
    if i < 0 || i >= path.len() {
        seq![]
    } else if end == i || path.subrange(i, end) == "."@ {
        rest
    } else {
        seq![(i, end)] + rest
    }
}

/// Where the components of a path stand: a slash at its start or a `.` at its start, and
/// the names.
pub open spec fn components(path: Seq<char>) -> Seq<(int, int)> {
    if path.len() > 0 && path[0] == '/' {
        seq![(0int, 1int)] + names_from(path, 1)
    } else if path.subrange(0, piece_end(path, 0)) == "."@ {
        seq![(0int, 1int)] + names_from(path, 2)
    } else {
        names_from(path, 0)
    }
}

/// The components of a path.
pub open spec fn component_texts(path: Seq<char>) -> Seq<Seq<char>> {
    mapped(components(path), |c: (int, int)| path.subrange(c.0, c.1))
}

/// Where a component stands in a path.
#[derive(Clone, Copy)]
struct Piece {
    start: usize,
    end: usize,
}

impl View for Piece {
    type V = (int, int);

    closed spec fn view(&self) -> (int, int) {
        (self.start as int, self.end as int)
    }
}

fn find_piece_end(path: &Vec<char>, i: usize) -> (r: usize)
    requires
        i <= path@.len(),
    ensures
        i <= r <= path@.len(),
        r == piece_end(path@, i as int),
        r < path@.len() ==> path@[r as int] == '/',
{
    let mut end: usize = i;
    while end < path.len() && path[end] != '/'
        invariant
            i <= end <= path@.len(),
            piece_end(path@, i as int) == piece_end(path@, end as int),
        decreases path@.len() - end,
    {
        end += 1;
    }
    end
}

fn is_dot(path: &Vec<char>, start: usize, end: usize) -> (r: bool)
    requires
        start <= end <= path@.len(),
    ensures
        r == (path@.subrange(start as int, end as int) == "."@),
{
    proof {
        reveal_strlit(".");
    }
    let r = end - start == 1 && path[start] == '.';
    proof {
        let piece = path@.subrange(start as int, end as int);
        if r {
            assert(piece =~= "."@);
        } else if piece == "."@ {
            assert(piece.len() == 1 && piece[0] == '.');
        }
    }
    r
}

/// The components lie in the path, one behind the other.
proof fn names_lie_within(path: Seq<char>, i: int)
    requires
        0 <= i,
    ensures
        forall|k: int|
            0 <= k < names_from(path, i).len() ==> i <= (#[trigger] names_from(path, i)[k]).0
                < names_from(path, i)[k].1 <= path.len(),
        forall|k: int, l: int|
            0 <= k < l < names_from(path, i).len() ==> (#[trigger] names_from(path, i)[k]).1 < (
            #[trigger] names_from(path, i)[l]).0,
    decreases path.len() - i,
{
    piece_ends_within(path, i);
    let end = piece_end(path, i);
    let all = names_from(path, i);
    let rest = if end < path.len() {
        names_from(path, end + 1)
    } else {
        seq![]
    };
    if i < path.len() {
        if end < path.len() {
            names_lie_within(path, end + 1);
        }
        if all != rest {
            assert(all == seq![(i, end)] + rest);
            assert forall|k: int| 0 < k < all.len() implies #[trigger] all[k] == rest[k - 1] by {}
        }
    }
}

proof fn piece_ends_within(path: Seq<char>, i: int)
    requires
        0 <= i,
    ensures
        i <= piece_end(path, i),
        i <= path.len() ==> piece_end(path, i) <= path.len(),
    decreases path.len() - i,
{
    if i < path.len() && path[i] != '/' {
        piece_ends_within(path, i + 1);
    }
}

proof fn components_lie_within(path: Seq<char>)
    ensures
        forall|k: int|
            0 <= k < components(path).len() ==> 0 <= (#[trigger] components(path)[k]).0
                < components(path)[k].1 <= path.len(),
        forall|k: int, l: int|
            0 <= k < l < components(path).len() ==> (#[trigger] components(path)[k]).1 <= (
            #[trigger] components(path)[l]).0,
{
    reveal_strlit(".");
    piece_ends_within(path, 0);
    names_lie_within(path, 0);
    names_lie_within(path, 1);
    names_lie_within(path, 2);
    if path.subrange(0, piece_end(path, 0)) == "."@ {
        assert(path.subrange(0, piece_end(path, 0)).len() == 1);
    }
}

/// Where the components of a path stand.
fn find_components(path: &Vec<char>) -> (r: Vec<Piece>)
    ensures
        views(r@) == components(path@),
{
    let mut out: Vec<Piece> = Vec::new();
    let first = find_piece_end(path, 0);
    let size: usize = path.len();
    let mut i: usize = 0;
    if size > 0 && path[0] == '/' {
        out.push(Piece { start: 0, end: 1 });
        i = 1;
    } else if is_dot(path, 0, first) {
        proof {
            reveal_strlit(".");
            assert(path@.subrange(0, first as int).len() == 1);
        }
        out.push(Piece { start: 0, end: 1 });
        i = if size > 1 {
            2
        } else {
            1
        };
    }
    assert(views(out@) + names_from(path@, i as int) =~= components(path@));
    while i < size
        invariant
            size == path@.len(),
            i <= size,
            views(out@) + names_from(path@, i as int) == components(path@),
        decreases size - i,
    {
        let end = find_piece_end(path, i);
        let ghost rest = if end < size {
            names_from(path@, end + 1)
        } else {
            seq![]
        };
        if !(end == i || is_dot(path, i, end)) {
            let ghost before = views(out@);
            out.push(Piece { start: i, end });
            assert(before + (seq![(i as int, end as int)] + rest) =~= views(out@) + rest);
        }
        if end < size {
            i = end + 1;
        } else {
            i = size;
        }
    }
    assert(views(out@) =~= components(path@));
    out
}

/// Whether two pieces of paths read the same.
fn same_piece(left: &Vec<char>, a: Piece, right: &Vec<char>, b: Piece) -> (r: bool)
    requires
        a.start <= a.end <= left@.len(),
        b.start <= b.end <= right@.len(),
    ensures
        r == (left@.subrange(a@.0, a@.1) == right@.subrange(b@.0, b@.1)),
{
    let one = slice(left.as_slice(), a.start, a.end);
    let other = slice(right.as_slice(), b.start, b.end);
    same(one.as_str(), other.as_str())
}

/// Whether the first components of `path` are those of `root`.
fn starts_alike(path: &Vec<char>, own: &Vec<Piece>, root: &Vec<char>, its: &Vec<Piece>) -> (r: bool)
    requires
        views(own@) == components(path@),
        views(its@) == components(root@),
        its@.len() <= own@.len(),
    ensures
        r == (component_texts(path@).take(its@.len() as int) == component_texts(root@)),
{
    let ghost left = component_texts(path@);
    let ghost right = component_texts(root@);
    proof {
        components_lie_within(path@);
        components_lie_within(root@);
    }
    let mut i: usize = 0;
    while i < its.len()
        invariant
            left == component_texts(path@),
            right == component_texts(root@),
            views(own@) == components(path@),
            views(its@) == components(root@),
            its@.len() <= own@.len(),
            i <= its@.len(),
            forall|k: int|
                0 <= k < components(path@).len() ==> 0 <= (#[trigger] components(path@)[k]).0
                    < components(path@)[k].1 <= path@.len(),
            forall|k: int|
                0 <= k < components(root@).len() ==> 0 <= (#[trigger] components(root@)[k]).0
                    < components(root@)[k].1 <= root@.len(),
            forall|j: int| 0 <= j < i ==> left[j] == #[trigger] right[j],
        decreases its@.len() - i,
    {
        assert(components(path@)[i as int] == own@[i as int]@);
        assert(components(root@)[i as int] == its@[i as int]@);
        if !same_piece(path, own[i], root, its[i]) {
            assert(left.take(its@.len() as int)[i as int] != right[i as int]);
            return false;
        }
        assert(left[i as int] == right[i as int]);
        i += 1;
    }
    assert(left.take(its@.len() as int) =~= right);
    true
}

/// A path as seen from a root: what comes behind the components of the root, or the whole
/// path where it does not begin with them.
pub open spec fn relative_to(root: Seq<char>, path: Seq<char>, separators: Separators) -> Seq<
    char,
> {
    let whole = slashed(path, separators);
    let above = component_texts(slashed(root, separators));
    let own = components(whole);
    if above.len() <= own.len() && component_texts(whole).take(above.len() as int) == above {
        if above.len() == own.len() {
            seq![]
        } else {
            path.subrange(own[above.len() as int].0, own.last().1)
        }
    } else {
        path
    }
}

/// A path as seen from a root.
pub fn display_relative(root: &str, path: &str, separators: Separators) -> (r: String)
    ensures
        r@ == relative_to(root@, path@, separators),
{
    let whole = chars(slash(path, separators).as_str());
    let above = chars(slash(root, separators).as_str());
    let own = find_components(&whole);
    let its = find_components(&above);
    if its.len() <= own.len() && starts_alike(&whole, &own, &above, &its) {
        if its.len() == own.len() {
            return String::new();
        }
        proof {
            components_lie_within(whole@);
            assert(components(whole@)[its@.len() as int] == own@[its@.len() as int]@);
            assert(components(whole@).last() == own@.last()@);
        }
        let all = chars(path);
        slice(all.as_slice(), own[its.len()].start, own[own.len() - 1].end)
    } else {
        path.to_owned()
    }
}

/// A path as seen from a root, with slashes only.
pub open spec fn relative_name(root: Seq<char>, path: Seq<char>, separators: Separators) -> Seq<
    char,
> {
    with_char(relative_to(root, path, separators), '\\', '/')
}

pub fn relative(root: &str, path: &str, separators: Separators) -> (r: String)
    ensures
        r@ == relative_name(root@, path@, separators),
{
    replace_char(display_relative(root, path, separators).as_str(), '\\', '/')
}

/// Whether a path names something that stands directly in a directory: its components are
/// those of the directory and one more.
pub open spec fn stands_in(path: Seq<char>, directory: Seq<char>, separators: Separators) -> bool {
    let own = component_texts(slashed(path, separators));
    own.len() > 0 && own != seq!["/"@] && own.drop_last() == component_texts(
        slashed(directory, separators),
    )
}

pub fn is_in_directory(path: &str, directory: &str, separators: Separators) -> (r: bool)
    ensures
        r == stands_in(path@, directory@, separators),
{
    let whole = chars(slash(path, separators).as_str());
    let above = chars(slash(directory, separators).as_str());
    let own = find_components(&whole);
    let its = find_components(&above);
    let ghost texts = component_texts(whole@);
    proof {
        reveal_strlit("/");
        components_lie_within(whole@);
        assert(its@.len() + 1 == own@.len() ==> texts.take(its@.len() as int)
            =~= texts.drop_last());
    }
    if own.len() == 0 || own.len() - 1 != its.len() {
        assert(texts.len() > 0 ==> texts.drop_last().len() != component_texts(above@).len());
        return false;
    }
    assert(components(whole@)[0] == own@[0]@);
    let lone = own.len() == 1 && own[0].end == 1 && whole[0] == '/';
    proof {
        if lone {
            assert(texts[0] =~= "/"@);
            assert(texts =~= seq!["/"@]);
        } else if texts == seq!["/"@] {
            assert(texts[0] == "/"@);
            only_root_is_a_slash(whole@);
            assert(false);
        }
    }
    !lone && starts_alike(&whole, &own, &above, &its)
}

/// A component that is a slash is the one at the start of the path.
proof fn only_root_is_a_slash(path: Seq<char>)
    requires
        components(path).len() > 0,
        component_texts(path)[0] == "/"@,
    ensures
        path[0] == '/',
        components(path)[0].1 == 1,
{
    reveal_strlit("/");
    reveal_strlit(".");
    components_lie_within(path);
    piece_ends_within(path, 0);
    if path[0] != '/' {
        if path.subrange(0, piece_end(path, 0)) == "."@ {
            assert(path.subrange(0, piece_end(path, 0)).len() == 1);
            assert(path.subrange(0, piece_end(path, 0))[0] == path[0]);
            assert(component_texts(path)[0][0] == path[0]);
        } else {
            names_hold_no_slash(path, 0);
            let c = components(path)[0];
            assert(component_texts(path)[0][0] == path[c.0]);
        }
    }
}

proof fn names_hold_no_slash(path: Seq<char>, i: int)
    requires
        0 <= i,
    ensures
        forall|k: int|
            0 <= k < names_from(path, i).len() ==> path[(#[trigger] names_from(path, i)[k]).0]
                != '/',
    decreases path.len() - i,
{
    piece_ends_within(path, i);
    let end = piece_end(path, i);
    let all = names_from(path, i);
    let rest = if end < path.len() {
        names_from(path, end + 1)
    } else {
        seq![]
    };
    if i < path.len() {
        if end < path.len() {
            names_hold_no_slash(path, end + 1);
        }
        if all != rest {
            assert(all == seq![(i, end)] + rest);
            assert forall|k: int| 0 < k < all.len() implies #[trigger] all[k] == rest[k - 1] by {}
        }
    }
}

/// The name of a Rust source file without its extension.
pub open spec fn rust_stem(file_name: Seq<char>) -> Option<Seq<char>> {
    match find_back(file_name, "."@, file_name.len() - 1) {
        Some(i) => if i > 0 && file_name.skip(i + 1) == "rs"@ {
            Some(file_name.take(i))
        } else {
            None
        },
        None => None,
    }
}

/// The name of a Rust source file without its extension; nothing for another file.
pub fn stem_of_rust_file(file_name: &str) -> (r: Option<String>)
    ensures
        option_view(r) == rust_stem(file_name@),
{
    proof {
        reveal_strlit(".");
    }
    let all = chars(file_name);
    let end: usize = all.len();
    match rfind(all.as_slice(), chars(".").as_slice()) {
        Some(i) => {
            let extension = slice(all.as_slice(), i + 1, end);
            assert(extension@ =~= file_name@.skip(i as int + 1));
            if i > 0 && same(extension.as_str(), "rs") {
                let stem = slice(all.as_slice(), 0, i);
                assert(stem@ =~= file_name@.take(i as int));
                Some(stem)
            } else {
                None
            }
        },
        None => None,
    }
}

} // verus!
