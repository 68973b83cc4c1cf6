//! What a name below a directory is to that directory.

use vstd::prelude::*;

use crate::paths::{
    component_texts, components, names_from, path_join, piece_end, relative_to, rust_stem, slashed,
    stands_in, Separators,
};

verus! {

/// Whether a text is the name of one file: not empty, not `.`, and without a slash.
pub open spec fn is_file_name(name: Seq<char>) -> bool {
    name.len() > 0 && name != "."@ && !name.contains('/')
}

/// A name below a directory, parted from it by a slash.
pub open spec fn below(directory: Seq<char>, name: Seq<char>) -> Seq<char> {
    directory + seq!['/'] + name
}

proof fn ends_stay(path: Seq<char>, name: Seq<char>, i: int)
    requires
        0 <= i <= path.len(),
    ensures
        i <= piece_end(path, i) <= path.len(),
        piece_end(below(path, name), i) == piece_end(path, i),
    decreases path.len() - i,
{
    let whole = below(path, name);
    if i < path.len() {
        assert(whole[i] == path[i]);
        if path[i] != '/' {
            ends_stay(path, name, i + 1);
        }
    } else {
        assert(whole[i] == '/');
    }
}

proof fn name_ends(whole: Seq<char>, i: int)
    requires
        0 <= i <= whole.len(),
        forall|k: int| i <= k < whole.len() ==> #[trigger] whole[k] != '/',
    ensures
        piece_end(whole, i) == whole.len(),
    decreases whole.len() - i,
{
    if i < whole.len() {
        assert(whole[i] != '/');
        name_ends(whole, i + 1);
    }
}

proof fn last_name(path: Seq<char>, name: Seq<char>)
    requires
        is_file_name(name),
    ensures
        names_from(below(path, name), path.len() as int + 1) == seq![
            (path.len() as int + 1, below(path, name).len() as int),
        ],
{
    let whole = below(path, name);
    let start = path.len() as int + 1;
    assert forall|k: int| start <= k < whole.len() implies #[trigger] whole[k] != '/' by {
        if whole[k] == '/' {
            assert(name[k - start] == '/');
            assert(name.contains('/'));
        }
    }
    name_ends(whole, start);
    assert(whole.subrange(start, whole.len() as int) =~= name);
    assert(names_from(whole, start) =~= seq![(start, whole.len() as int)]);
}

proof fn names_stay(path: Seq<char>, name: Seq<char>, i: int)
    requires
        0 <= i <= path.len(),
        is_file_name(name),
    ensures
        names_from(below(path, name), i) == names_from(path, i).push(
            (path.len() as int + 1, below(path, name).len() as int),
        ),
    decreases path.len() - i,
{
    let whole = below(path, name);
    let last = (path.len() as int + 1, whole.len() as int);
    ends_stay(path, name, i);
    last_name(path, name);
    let end = piece_end(path, i);
    if i < path.len() {
        assert(whole.subrange(i, end) =~= path.subrange(i, end));
        if end < path.len() {
            names_stay(path, name, end + 1);
        }
        assert(names_from(whole, i) =~= names_from(path, i).push(last));
    } else {
        assert(names_from(path, i) =~= seq![]);
        assert(names_from(whole, i) =~= seq![last]);
    }
}

proof fn names_lie_within(path: Seq<char>, i: int)
    requires
        0 <= i,
    ensures
        forall|k: int|
            0 <= k < names_from(path, i).len() ==> 0 <= (#[trigger] names_from(path, i)[k]).0
                <= names_from(path, i)[k].1 <= path.len(),
    decreases path.len() - i,
{
    if i < path.len() {
        ends_stay(path, seq![], i);
        let end = piece_end(path, i);
        let rest = names_from(path, end + 1);
        if end < path.len() {
            names_lie_within(path, end + 1);
        }
        let all = names_from(path, i);
        assert forall|k: int| 0 <= k < all.len() implies 0 <= (#[trigger] all[k]).0 <= all[k].1
            <= path.len() by {
            if end == i || path.subrange(i, end) == "."@ {
                if end < path.len() {
                    assert(all[k] == rest[k]);
                }
            } else if k > 0 {
                assert(all[k] == rest[k - 1]);
            }
        }
    }
}

proof fn component_is_added(path: Seq<char>, name: Seq<char>)
    requires
        path.len() > 0,
        is_file_name(name),
    ensures
        components(below(path, name)) == components(path).push(
            (path.len() as int + 1, below(path, name).len() as int),
        ),
        component_texts(below(path, name)) == component_texts(path).push(name),
{
    let whole = below(path, name);
    let last = (path.len() as int + 1, whole.len() as int);
    reveal_strlit(".");
    assert(whole[0] == path[0]);
    ends_stay(path, name, 0);
    names_stay(path, name, 0);
    names_stay(path, name, 1);
    last_name(path, name);
    let end = piece_end(path, 0);
    assert(whole.subrange(0, end) =~= path.subrange(0, end));
    if path[0] != '/' && path.subrange(0, end) == "."@ {
        assert(end == 1);
        if path.len() >= 2 {
            names_stay(path, name, 2);
        } else {
            assert(names_from(path, 2) =~= seq![]);
        }
    }
    assert(components(whole) =~= components(path).push(last));
    names_lie_within(path, 0);
    names_lie_within(path, 1);
    names_lie_within(path, 2);
    let own = components(path);
    assert forall|k: int| 0 <= k < own.len() implies whole.subrange(
        (#[trigger] own[k]).0,
        own[k].1,
    ) =~= path.subrange(own[k].0, own[k].1) by {}
    assert(whole.subrange(last.0, last.1) =~= name);
    assert(component_texts(whole) =~= component_texts(path).push(name));
}

/// A file below a directory stands in it, and seen from the directory it is its name.
pub proof fn files_stand_in_their_directory(directory: Seq<char>, name: Seq<char>)
    requires
        directory.len() > 0,
        is_file_name(name),
    ensures
        stands_in(below(directory, name), directory, Separators::Slash),
        relative_to(directory, below(directory, name), Separators::Slash) == name,
        directory.last() != '/' ==> path_join(directory, name) == below(directory, name),
{
    let whole = below(directory, name);
    component_is_added(directory, name);
    let above = component_texts(directory);
    let all = component_texts(whole);
    reveal_strlit("/");
    assert(all.drop_last() =~= above);
    assert(all.take(above.len() as int) =~= above);
    assert(all.last() == name);
    if all == seq!["/"@] {
        assert(name == "/"@);
        assert(name[0] == '/');
        assert(name.contains('/'));
    }
    assert(components(whole).len() == above.len() + 1);
    assert(whole.subrange(directory.len() as int + 1, whole.len() as int) =~= name);
    crate::text_laws::standing(directory, "/"@, directory.len() - 1);
    if directory.last() != '/' {
        assert("/"@[0] == '/');
        assert(path_join(directory, name) =~= whole);
    }
}

/// A directory is not in itself, and seen from itself it is nothing.
pub proof fn directories_are_not_in_themselves(directory: Seq<char>, separators: Separators)
    ensures
        !stands_in(directory, directory, separators),
        relative_to(directory, directory, separators).len() == 0,
{
    let own = component_texts(slashed(directory, separators));
    assert(own.take(own.len() as int) =~= own);
    if own.len() > 0 {
        assert(own.drop_last().len() != own.len());
    }
}

/// The stem of a Rust file is its name without `.rs`, and files that do not end so have none.
pub proof fn rust_files_end_in_rs(name: Seq<char>)
    ensures
        name.len() > 0 ==> rust_stem(name + ".rs"@) == Some(name),
        rust_stem(name) matches Some(stem) ==> name == stem + ".rs"@ && stem.len() > 0,
{
    reveal_strlit(".");
    reveal_strlit("rs");
    reveal_strlit(".rs");
    let whole = name + ".rs"@;
    let n = name.len() as int;
    crate::text::find_back_found(whole, "."@, whole.len() - 1);
    crate::text_laws::standing(whole, "."@, n);
    assert(whole[n] == '.' && whole[n + 1] == 'r' && whole[n + 2] == 's');
    assert("."@[0] == '.');
    assert(crate::text_laws::stands_at(whole, "."@, n));
    assert(crate::text::matches_at(whole, "."@, n));
    if let Some(i) = crate::text::find_back(whole, "."@, whole.len() - 1) {
        crate::text_laws::standing(whole, "."@, i);
        assert(crate::text_laws::stands_at(whole, "."@, i));
        assert(whole[i] == "."@[0]);
        assert(i == n);
        assert(whole.skip(n + 1) =~= "rs"@);
        assert(whole.take(n) =~= name);
    }
    crate::text::find_back_found(name, "."@, name.len() - 1);
    if let Some(i) = crate::text::find_back(name, "."@, name.len() - 1) {
        crate::text_laws::standing(name, "."@, i);
        assert(name[i] == "."@[0]);
        if i > 0 && name.skip(i + 1) == "rs"@ {
            assert(name[i + 1] == name.skip(i + 1)[0] && name[i + 2] == name.skip(i + 1)[1]);
            assert(name =~= name.take(i) + ".rs"@);
        }
    }
}

} // verus!
