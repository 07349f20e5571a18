//! What the orders of texts and paths are, and how paths are put together.

use vstd::prelude::*;

use crate::path::{
    component_class, components, components_le, joined, last_name, lemma_pieces_slashless,
    named_pieces, nested, pieces, shown_name,
};
use crate::text::{chars_le, decimal, last_dot};

verus! {

/// Of two texts the first difference decides: the smaller character comes
/// first.
pub proof fn first_difference_decides(a: Seq<char>, b: Seq<char>, i: int)
    requires
        0 <= i < a.len(),
        i < b.len(),
        a[i] != b[i],
        forall|j: int| 0 <= j < i ==> a[j] == b[j],
    ensures
        chars_le(a, b) <==> a[i] < b[i],
    decreases i,
{
    if i > 0 {
        assert(a[0] == b[0]);
        let x = a.skip(1);
        let y = b.skip(1);
        assert forall|j: int| 0 <= j < i - 1 implies x[j] == y[j] by {
            assert(x[j] == a[j + 1] && y[j] == b[j + 1]);
        }
        first_difference_decides(x, y, i - 1);
    }
}

/// A text comes before everything that it starts, and never after it.
pub proof fn beginnings_come_first(a: Seq<char>, b: Seq<char>)
    requires
        a.len() <= b.len(),
        forall|j: int| 0 <= j < a.len() ==> a[j] == b[j],
    ensures
        chars_le(a, b),
        a.len() < b.len() ==> !chars_le(b, a),
    decreases a.len(),
{
    if a.len() > 0 {
        assert(a[0] == b[0]);
        let x = a.skip(1);
        let y = b.skip(1);
        assert forall|j: int| 0 <= j < x.len() implies x[j] == y[j] by {
            assert(x[j] == a[j + 1] && y[j] == b[j + 1]);
        }
        beginnings_come_first(x, y);
    }
}

/// Of two paths the first component in which they differ decides: names by
/// their characters.
pub proof fn first_component_decides(a: Seq<Seq<char>>, b: Seq<Seq<char>>, i: int)
    requires
        0 <= i < a.len(),
        i < b.len(),
        a[i] != b[i],
        forall|j: int| 0 <= j < i ==> a[j] == b[j],
    ensures
        component_class(a[i]) == component_class(b[i]) ==> (components_le(a, b) <==> chars_le(a[i], b[i])),
        component_class(a[i]) < component_class(b[i]) ==> components_le(a, b),
        component_class(a[i]) > component_class(b[i]) ==> !components_le(a, b),
    decreases i,
{
    if i > 0 {
        assert(a[0] == b[0]);
        let x = a.skip(1);
        let y = b.skip(1);
        assert forall|j: int| 0 <= j < i - 1 implies x[j] == y[j] by {
            assert(x[j] == a[j + 1] && y[j] == b[j + 1]);
        }
        first_component_decides(x, y, i - 1);
    }
}

/// A folder comes before what is inside it, and never after it.
pub proof fn folders_come_before_their_content(a: Seq<Seq<char>>, b: Seq<Seq<char>>)
    requires
        a.len() <= b.len(),
        forall|j: int| 0 <= j < a.len() ==> a[j] == b[j],
    ensures
        components_le(a, b),
        a.len() < b.len() ==> !components_le(b, a),
    decreases a.len(),
{
    if a.len() > 0 {
        assert(a[0] == b[0]);
        let x = a.skip(1);
        let y = b.skip(1);
        assert forall|j: int| 0 <= j < x.len() implies x[j] == y[j] by {
            assert(x[j] == a[j + 1] && y[j] == b[j + 1]);
        }
        folders_come_before_their_content(x, y);
    }
}

/// The root sorts before `.`, that before `..`, and that before every name.
pub proof fn special_components_sort_first(name: Seq<char>)
    requires
        name != seq!['/'],
        name != seq!['.'],
        name != seq!['.', '.'],
    ensures
        component_class(seq!['/']) < component_class(seq!['.']),
        component_class(seq!['.']) < component_class(seq!['.', '.']),
        component_class(seq!['.', '.']) < component_class(name),
        component_class(name) == 3,
{
    assert(seq!['/'][0] != seq!['.'][0]);
    assert(seq!['.'].len() != seq!['.', '.'].len());
    assert(seq!['/'].len() != seq!['.', '.'].len());
}

/// A number of one digit is that digit; any other is the number of its tens
/// followed by the digit of its ones.
pub proof fn decimals_end_in_their_ones(tens: nat, ones: nat)
    requires
        ones < 10,
    ensures
        decimal(ones) == seq![(48 + ones) as char],
        tens > 0 ==> decimal(10 * tens + ones) == decimal(tens).push((48 + ones) as char),
{
    assert((10 * tens + ones) / 10 == tens && (10 * tens + ones) % 10 == ones);
}

/// The last dot of a text is a dot with none behind it; a text without one has
/// no dot at all.
pub proof fn last_dots_are_last(text: Seq<char>)
    ensures
        match last_dot(text) {
            Some(i) => {
                &&& 0 <= i < text.len()
                &&& text[i] == '.'
                &&& forall|k: int| i < k < text.len() ==> text[k] != '.'
            },
            None => forall|k: int| 0 <= k < text.len() ==> text[k] != '.',
        },
    decreases text.len(),
{
    if text.len() > 0 && text.last() != '.' {
        let head = text.drop_last();
        last_dots_are_last(head);
        assert forall|k: int| 0 <= k < head.len() implies head[k] == text[k] by {}
        match last_dot(head) {
            Some(i) => {
                assert forall|k: int| i < k < text.len() implies text[k] != '.' by {
                    if k < head.len() {
                        assert(head[k] != '.');
                    }
                }
            },
            None => {
                assert forall|k: int| 0 <= k < text.len() implies text[k] != '.' by {
                    if k < head.len() {
                        assert(head[k] != '.');
                    }
                }
            },
        }
    }
}

/// A text with a dot before a dotless rest has its last dot there.
pub proof fn the_last_dot_is_found(stem: Seq<char>, rest: Seq<char>)
    requires
        !rest.contains('.'),
    ensures
        last_dot(stem.push('.') + rest) == Some(stem.len() as int),
{
    let text = stem.push('.') + rest;
    last_dots_are_last(text);
    assert(text[stem.len() as int] == '.');
    match last_dot(text) {
        Some(i) => {
            if i < stem.len() {
                assert(text[stem.len() as int] != '.');
            }
            if i > stem.len() {
                assert(text[i] == rest[i - stem.len() - 1]);
                assert(rest.contains(rest[i - stem.len() - 1]));
            }
        },
        None => {},
    }
}

/// A path of one name has that component.
pub proof fn names_are_components(name: Seq<char>)
    requires
        name.len() > 0,
        !name.contains('/'),
    ensures
        components(name) == seq![name],
{
    lemma_pieces_of_name(name);
    assert(name[0] != '/') by {
        assert(name.contains(name[0]));
    }
    let p = pieces(name);
    assert(p.drop_last() =~= Seq::<Seq<char>>::empty());
    assert(named_pieces(p.drop_last()) =~= Seq::<Seq<char>>::empty());
    assert(named_pieces(p) =~= seq![name]);
}

proof fn lemma_pieces_of_name(name: Seq<char>)
    requires
        !name.contains('/'),
    ensures
        pieces(name) == seq![name],
    decreases name.len(),
{
    if name.len() > 0 {
        let head = name.drop_last();
        assert(!head.contains('/')) by {
            if head.contains('/') {
                let k = choose|k: int| 0 <= k < head.len() && head[k] == '/';
                assert(name[k] == '/');
                assert(name.contains('/'));
            }
        }
        assert(name.contains(name.last()));
        lemma_pieces_of_name(head);
        assert(head.push(name.last()) =~= name);
        assert(pieces(name) =~= seq![name]);
    } else {
        assert(name =~= Seq::<char>::empty());
    }
}

proof fn lemma_pieces_append(path: Seq<char>, name: Seq<char>)
    requires
        !name.contains('/'),
    ensures
        pieces(path.push('/') + name) == pieces(path).push(name),
    decreases name.len(),
{
    let whole = path.push('/') + name;
    if name.len() == 0 {
        assert(whole =~= path.push('/'));
        assert(whole.drop_last() =~= path);
        assert(name =~= Seq::<char>::empty());
        assert(pieces(whole) =~= pieces(path).push(name));
    } else {
        let head = name.drop_last();
        assert(!head.contains('/')) by {
            if head.contains('/') {
                let k = choose|k: int| 0 <= k < head.len() && head[k] == '/';
                assert(name[k] == '/');
                assert(name.contains('/'));
            }
        }
        assert(name.contains(name.last()));
        lemma_pieces_append(path, head);
        assert(whole.drop_last() =~= path.push('/') + head);
        assert(whole.last() == name.last());
        assert(head.push(name.last()) =~= name);
        assert(pieces(whole) =~= pieces(path).push(name));
    }
}

/// Behind a slash a name is one more component; nothing and `.` are none.
pub proof fn slashes_separate_components(path: Seq<char>, name: Seq<char>)
    requires
        path.len() > 0,
        !name.contains('/'),
    ensures
        name.len() > 0 && name != seq!['.'] ==> components(path.push('/') + name) == components(path).push(name),
        components(path.push('/')) == components(path),
        components(path.push('/').push('.')) == components(path),
{
    let none = Seq::<char>::empty();
    let dot = seq!['.'];
    lemma_pieces_slashless(path);
    lemma_pieces_append(path, name);
    lemma_pieces_append(path, none);
    assert(!dot.contains('/'));
    lemma_pieces_append(path, dot);
    assert(path.push('/') + none =~= path.push('/'));
    assert(path.push('/') + dot =~= path.push('/').push('.'));
    let p = pieces(path);
    assert(p.push(name).drop_last() =~= p);
    assert(p.push(none).drop_last() =~= p);
    assert(p.push(dot).drop_last() =~= p);
    assert((path.push('/') + name)[0] == path[0]);
    assert(path.push('/')[0] == path[0]);
    assert(path.push('/').push('.')[0] == path[0]);
    if name.len() > 0 && name != seq!['.'] {
        assert(named_pieces(p.push(name)) =~= named_pieces(p).push(name));
        assert(components(path.push('/') + name) =~= components(path).push(name));
    }
}

/// The root is the component `/`, and in front of a name it is one more; the
/// empty path has none.
pub proof fn the_root_is_a_component(name: Seq<char>)
    requires
        name.len() > 0,
        !name.contains('/'),
        name != seq!['.'],
    ensures
        components(Seq::<char>::empty()).len() == 0,
        components(seq!['/']) == seq![seq!['/']],
        components(seq!['/'] + name) == seq![seq!['/'], name],
        components(seq!['/', '.']) == seq![seq!['/']],
{
    let none = Seq::<char>::empty();
    let top = Seq::<Seq<char>>::empty();
    assert(pieces(none) =~= seq![none]);
    assert(named_pieces(top) =~= top);
    assert(seq![none].drop_last() =~= top);
    assert(named_pieces(seq![none]) =~= top);
    lemma_pieces_append(none, none);
    lemma_pieces_append(none, name);
    assert(none.push('/') + none =~= seq!['/']);
    assert(none.push('/') + name =~= seq!['/'] + name);
    assert(pieces(seq!['/']) =~= seq![none, none]);
    assert(pieces(seq!['/'] + name) =~= seq![none, name]);
    assert(seq![none, none].drop_last() =~= seq![none]);
    assert(seq![none, name].drop_last() =~= seq![none]);
    assert(named_pieces(seq![none, none]) =~= top);
    assert(named_pieces(seq![none, name]) =~= seq![name]);
    assert(components(seq!['/']) =~= seq![seq!['/']]);
    let dot = seq!['.'];
    assert(!dot.contains('/'));
    lemma_pieces_append(none, dot);
    assert(none.push('/') + dot =~= seq!['/', '.']);
    assert(pieces(seq!['/', '.']) =~= seq![none, dot]);
    assert(seq![none, dot].drop_last() =~= seq![none]);
    assert(named_pieces(seq![none, dot]) =~= top);
    assert(components(seq!['/', '.']) =~= seq![seq!['/']]);
    assert((seq!['/'] + name)[0] == '/');
    assert(components(seq!['/'] + name) =~= seq![seq!['/'], name]);
}

/// A file in a folder is called by its name, and its folder does not matter;
/// it is nested exactly if the folder is a relative one.
pub proof fn files_are_called_by_their_name(folder: Seq<char>, name: Seq<char>)
    requires
        name.len() > 0,
        !name.contains('/'),
        name != seq!['.'],
        name != seq!['.', '.'],
    ensures
        last_name(name) == Some(name),
        shown_name(name) == name,
        !nested(name),
        folder.len() > 0 ==> last_name(folder.push('/') + name) == Some(name),
        folder.len() > 0 ==> shown_name(folder.push('/') + name) == name,
        folder.len() > 0 && components(folder).len() > 0 ==> nested(folder.push('/') + name),
{
    names_are_components(name);
    assert(name != seq!['/']) by {
        assert(seq!['/'][0] == '/');
        if name == seq!['/'] {
            assert(name.contains('/'));
        }
    }
    if folder.len() > 0 {
        slashes_separate_components(folder, name);
    }
}

/// A path on a folder is the folder, a slash unless it ends in one, and the
/// path; a path from the root stands on its own.
pub proof fn paths_are_joined_by_one_slash(folder: Seq<char>, path: Seq<char>)
    ensures
        path.len() > 0 && path[0] == '/' ==> joined(folder, path) == path,
        path.len() == 0 && folder.len() > 0 && folder.last() != '/' ==> joined(folder, path) == folder.push('/'),
        path.len() == 0 && (folder.len() == 0 || folder.last() == '/') ==> joined(folder, path) == folder,
        path.len() > 0 && path[0] != '/' && folder.len() > 0 && folder.last() != '/' ==> joined(folder, path) == folder.push('/') + path,
        path.len() > 0 && path[0] != '/' && folder.len() > 0 && folder.last() == '/' ==> joined(folder, path) == folder + path,
        path.len() > 0 && path[0] != '/' && folder.len() == 0 ==> joined(folder, path) == path,
{
    if folder.len() == 0 {
        assert(folder + path =~= path);
    }
    if path.len() == 0 {
        assert(folder + path =~= folder);
        assert(folder.push('/') + path =~= folder.push('/'));
    }
}

/// A name joined onto a folder is the folder's components and the name.
pub proof fn joined_names_are_in_the_folder(folder: Seq<char>, name: Seq<char>)
    requires
        folder.len() > 0,
        name.len() > 0,
        !name.contains('/'),
        name != seq!['.'],
        folder.last() != '/',
    ensures
        components(joined(folder, name)) == components(folder).push(name),
{
    assert(name.contains(name[0]));
    slashes_separate_components(folder, name);
}

} // verus!
