//! Unix paths as text: their components, and the ways to join and strip them.
use vstd::prelude::*;

use crate::text::{
    chars_of, joined, joined3, lemma_split_append, lemma_split_join,
    lemma_split_nonempty, lemma_views_empty, lemma_views_push, split_on, split_text,
    text_between, views,
};

verus! {

/// One step of a path.
#[derive(Debug, PartialEq, Eq)]
pub enum Component<T> {
    /// The `/` that an absolute path begins with.
    RootDir,
    /// A `.` that a relative path begins with.
    CurDir,
    /// `..`
    ParentDir,
    /// A name.
    Normal(T),
}

impl View for Component<String> {
    type V = Component<Seq<char>>;

    open spec fn view(&self) -> Component<Seq<char>> {
        match self {
            Component::RootDir => Component::RootDir,
            Component::CurDir => Component::CurDir,
            Component::ParentDir => Component::ParentDir,
            Component::Normal(name) => Component::Normal(name@),
        }
    }
}

/// Whether a path begins with `/`.
pub open spec fn absolute(path: Seq<char>) -> bool {
    path.len() > 0 && path[0] == '/'
}

/// What a piece of a path between two slashes stands for: nothing where it is
/// empty, and nothing where it is a `.` that does not begin the path.
pub open spec fn piece_component(piece: Seq<char>, first: bool) -> Option<Component<Seq<char>>> {
    if piece.len() == 0 {
        None
    } else if piece == seq!['.'] {
        if first {
            Some(Component::CurDir)
        } else {
            None
        }
    } else if piece == seq!['.', '.'] {
        Some(Component::ParentDir)
    } else {
        Some(Component::Normal(piece))
    }
}

/// The components that the pieces between the slashes stand for.
pub open spec fn piece_components(pieces: Seq<Seq<char>>) -> Seq<Component<Seq<char>>>
    decreases pieces.len(),
{
    if pieces.len() == 0 {
        Seq::empty()
    } else {
        let before = piece_components(pieces.drop_last());
        match piece_component(pieces.last(), pieces.len() == 1) {
            Some(component) => before.push(component),
            None => before,
        }
    }
}

/// The components of a path.
pub open spec fn components(path: Seq<char>) -> Seq<Component<Seq<char>>> {
    (if absolute(path) {
        seq![Component::RootDir]
    } else {
        Seq::empty()
    }) + piece_components(split_on(path, '/'))
}

/// Whether a path climbs: whether one of its components is `..`.
pub open spec fn climbs(path: Seq<char>) -> bool {
    exists|i: int| 0 <= i < components(path).len() && (#[trigger] components(path)[i]) is ParentDir
}

/// Whether one of the components of a path is `..`.
pub fn leads_up(path: &str) -> (result: bool)
    ensures
        result == climbs(path@),
{
    let parts = path_components(path);
    let ghost model = components(path@);
    assert(model.len() == parts@.len());
    let mut i: usize = 0;
    while i < parts.len()
        invariant
            i <= parts@.len(),
            model == views(parts@),
            model == components(path@),
            forall|k: int| 0 <= k < i ==> !((#[trigger] model[k]) is ParentDir),
        decreases parts.len() - i,
    {
        assert(model[i as int] == parts@[i as int]@);
        if let Component::ParentDir = &parts[i] {
            return true;
        }
        i += 1;
    }
    assert(model.len() == parts@.len());
    false
}

/// `path` taken from `base`: itself where it is absolute.
pub open spec fn join(base: Seq<char>, path: Seq<char>) -> Seq<char> {
    if absolute(path) {
        path
    } else if base.len() > 0 && base.last() != '/' {
        base + seq!['/'] + path
    } else {
        base + path
    }
}

pub fn is_absolute(path: &str) -> (result: bool)
    ensures
        result == absolute(path@),
{
    let chars = chars_of(path);
    chars.len() > 0 && chars[0] == '/'
}

/// The components of a path.
pub fn path_components(path: &str) -> (result: Vec<Component<String>>)
    ensures
        views(result@) == components(path@),
{
    broadcast use {lemma_views_push, lemma_views_empty};

    let chars = chars_of(path);
    let pieces = split_text(&chars, '/');
    let ghost split = split_on(path@, '/');
    let mut result: Vec<Component<String>> = Vec::new();
    let ghost mut root = Seq::<Component<Seq<char>>>::empty();
    if is_absolute(path) {
        result.push(Component::RootDir);
        proof {
            root = seq![Component::RootDir];
        }
    }
    assert(views(result@) =~= root);
    let mut i: usize = 0;
    assert(root + piece_components(split.take(0)) =~= root);
    while i < pieces.len()
        invariant
            i <= pieces.len(),
            split == views(pieces@),
            views(result@) == root + piece_components(split.take(i as int)),
        decreases pieces.len() - i,
    {
        broadcast use {lemma_views_push, lemma_views_empty};

        let ghost before = piece_components(split.take(i as int));
        let piece = chars_of(&pieces[i]);
        assert(piece@ == split[i as int]);
        assert(split.take(i + 1).drop_last() =~= split.take(i as int));
        if piece.len() == 0 {
            assert(piece_components(split.take(i + 1)) == before);
        } else if piece.len() == 1 && piece[0] == '.' {
            assert(piece@ =~= seq!['.']);
            if i == 0 {
                result.push(Component::CurDir);
                assert(root + before.push(Component::CurDir) =~= (root + before).push(
                    Component::CurDir,
                ));
            }
        } else if piece.len() == 2 && piece[0] == '.' && piece[1] == '.' {
            assert(piece@ =~= seq!['.', '.']);
            result.push(Component::ParentDir);
            assert(root + before.push(Component::ParentDir) =~= (root + before).push(
                Component::ParentDir,
            ));
        } else {
            assert(piece@ != seq!['.']) by {
                assert(seq!['.'].len() == 1 && seq!['.'][0] == '.');
            }
            assert(piece@ != seq!['.', '.']) by {
                assert(seq!['.', '.'].len() == 2 && seq!['.', '.'][0] == '.' && seq!['.', '.'][1]
                    == '.');
            }
            result.push(Component::Normal(pieces[i].clone()));
            assert(root + before.push(Component::Normal(piece@)) =~= (root + before).push(
                Component::Normal(piece@),
            ));
        }
        i += 1;
    }
    assert(split.take(i as int) =~= split);
    result
}

/// `path` taken from `base`: itself where it is absolute.
pub fn join_paths(base: &str, path: &str) -> (result: String)
    ensures
        result@ == join(base@, path@),
{
    if is_absolute(path) {
        return path.to_owned();
    }
    let chars = chars_of(base);
    if chars.len() > 0 && chars[chars.len() - 1] != '/' {
        let result = joined3(base, "/", path);
        proof {
            reveal_strlit("/");
            assert("/"@ =~= seq!['/']);
        }
        result
    } else {
        joined(base, path)
    }
}

/// A path without the slashes and the `.` that it begins with.
pub open spec fn trim_front(path: Seq<char>) -> Seq<char>
    decreases path.len(),
{
    if path.len() > 0 && (path[0] == '/' || (path[0] == '.' && (path.len() == 1 || path[1]
        == '/'))) {
        trim_front(path.skip(1))
    } else {
        path
    }
}

/// A path without the slashes and the `.` that it ends with.
pub open spec fn trim_back(path: Seq<char>) -> Seq<char>
    decreases path.len(),
{
    if path.len() > 0 && (path.last() == '/' || (path.last() == '.' && (path.len() == 1
        || path[path.len() - 2] == '/'))) {
        trim_back(path.drop_last())
    } else {
        path
    }
}

/// An absolute path without its root, so that it can be taken from another
/// one. A relative path stays as it is.
pub open spec fn below_root(path: Seq<char>) -> Seq<char> {
    if absolute(path) {
        trim_back(trim_front(path))
    } else {
        path
    }
}

/// An absolute path without its root, so that it can be taken from another
/// one. A relative path stays as it is.
pub fn strip_root(path: &str) -> (result: String)
    ensures
        result@ == below_root(path@),
{
    if !is_absolute(path) {
        return path.to_owned();
    }
    let chars = chars_of(path);
    let mut from: usize = 0;
    assert(chars@.skip(0) =~= path@);
    while from < chars.len() && (chars[from] == '/' || (chars[from] == '.' && (from + 1
        == chars.len() || chars[from + 1] == '/')))
        invariant
            from <= chars.len(),
            trim_front(path@) == trim_front(chars@.skip(from as int)),
        decreases chars.len() - from,
    {
        assert(chars@.skip(from as int).skip(1) =~= chars@.skip(from + 1));
        from += 1;
    }
    let ghost front = chars@.skip(from as int);
    assert(trim_front(path@) == front);
    let mut to: usize = chars.len();
    assert(chars@.subrange(from as int, to as int) =~= front);
    while to > from && (chars[to - 1] == '/' || (chars[to - 1] == '.' && (to - 1 == from
        || chars[to - 2] == '/')))
        invariant
            from <= to <= chars.len(),
            trim_back(front) == trim_back(chars@.subrange(from as int, to as int)),
        decreases to,
    {
        assert(chars@.subrange(from as int, to as int).drop_last() =~= chars@.subrange(
            from as int,
            to - 1,
        ));
        to -= 1;
    }
    text_between(&chars, from, to)
}

/// Where the part of a path begins that names can be taken off: after the
/// root, or after the `.` that it begins with.
pub open spec fn body_start(path: Seq<char>) -> nat {
    if absolute(path) || (path.len() > 0 && path[0] == '.' && (path.len() == 1 || path[1] == '/')) {
        1
    } else {
        0
    }
}

/// A path without the slashes and the `.` that it ends with, down to `start`.
pub open spec fn settle(path: Seq<char>, start: nat) -> Seq<char>
    decreases path.len(),
{
    if path.len() > start && (path.last() == '/' || (path.last() == '.' && (path.len() - 1 == start
        || path[path.len() - 2] == '/'))) {
        settle(path.drop_last(), start)
    } else {
        path
    }
}

/// A path up to its last slash, down to `start`.
pub open spec fn up_to_slash(path: Seq<char>, start: nat) -> Seq<char>
    decreases path.len(),
{
    if path.len() > start && path.last() != '/' {
        up_to_slash(path.drop_last(), start)
    } else {
        path
    }
}

/// The path without its last component; nothing for the root and for the
/// empty path.
pub open spec fn parent(path: Seq<char>) -> Option<Seq<char>> {
    let start = body_start(path);
    let settled = settle(path, start);
    if settled.len() > start {
        Some(settle(up_to_slash(settled, start), start))
    } else if !absolute(path) && start == 1 {
        Some(Seq::empty())
    } else {
        None
    }
}

fn settled_length(chars: &[char], from: usize, start: usize) -> (to: usize)
    requires
        start <= from <= chars@.len(),
    ensures
        start <= to <= from,
        chars@.take(to as int) == settle(chars@.take(from as int), start as nat),
{
    let mut to: usize = from;
    while to > start && (chars[to - 1] == '/' || (chars[to - 1] == '.' && (to - 1 == start
        || chars[to - 2] == '/')))
        invariant
            start <= to <= from <= chars@.len(),
            settle(chars@.take(to as int), start as nat) == settle(
                chars@.take(from as int),
                start as nat,
            ),
        decreases to,
    {
        assert(chars@.take(to as int).drop_last() =~= chars@.take(to - 1));
        to -= 1;
    }
    to
}

/// The path without its last component.
pub fn parent_path(path: &str) -> (result: Option<String>)
    ensures
        (match result {
            Some(text) => Some(text@),
            None => None,
        }) == parent(path@),
{
    let chars = chars_of(path);
    let rooted = is_absolute(path);
    let start: usize = if rooted || (chars.len() > 0 && chars[0] == '.' && (chars.len() == 1
        || chars[1] == '/')) {
        1
    } else {
        0
    };
    assert(chars@.take(chars@.len() as int) =~= path@);
    let settled = settled_length(&chars, chars.len(), start);
    if settled > start {
        let mut to: usize = settled;
        while to > start && chars[to - 1] != '/'
            invariant
                start <= to <= settled <= chars@.len(),
                up_to_slash(chars@.take(to as int), start as nat) == up_to_slash(
                    chars@.take(settled as int),
                    start as nat,
                ),
            decreases to,
        {
            assert(chars@.take(to as int).drop_last() =~= chars@.take(to - 1));
            to -= 1;
        }
        let end = settled_length(&chars, to, start);
        let text = text_between(&chars, 0, end);
        assert(text@ =~= chars@.take(end as int));
        Some(text)
    } else if !rooted && start == 1 {
        Some(String::new())
    } else {
        None
    }
}

/// The last component of a path where it is a name.
pub open spec fn file_name(path: Seq<char>) -> Option<Seq<char>> {
    let all = components(path);
    if all.len() > 0 {
        match all.last() {
            Component::Normal(name) => Some(name),
            _ => None,
        }
    } else {
        None
    }
}

/// The last component of a path where it is a name.
pub fn path_file_name(path: &str) -> (result: Option<String>)
    ensures
        (match result {
            Some(text) => Some(text@),
            None => None,
        }) == file_name(path@),
{
    let mut all = path_components(path);
    let ghost expected = components(path@);
    assert(expected.len() == all@.len());
    match all.pop() {
        Some(Component::Normal(name)) => {
            assert(expected.last() == Component::Normal(name@));
            Some(name)
        },
        _ => None,
    }
}

/// A name below a directory is the directory, a slash and the name; an absolute
/// path stays what it is wherever it is taken from.
pub proof fn law_joined_paths(base: Seq<char>, path: Seq<char>)
    ensures
        path.len() > 0 && path[0] == '/' ==> join(base, path) == path,
        !(path.len() > 0 && path[0] == '/') && base.len() > 0 && base.last() != '/' ==> join(
            base,
            path,
        ) == base + "/"@ + path,
        !(path.len() > 0 && path[0] == '/') && base.len() > 0 && base.last() == '/' ==> join(
            base,
            path,
        ) == base + path,
        !(path.len() > 0 && path[0] == '/') && base.len() == 0 ==> join(base, path) == path,
{
    reveal_strlit("/");
    assert("/"@ =~= seq!['/']);
    if base.len() == 0 {
        assert(base + path =~= path);
    }
}

/// Whether a text can be a name in a path: it is not empty, holds no slash and
/// does not stand for a directory itself or the one above it.
pub open spec fn plain_name(name: Seq<char>) -> bool {
    &&& name.len() > 0
    &&& forall|i: int| 0 <= i < name.len() ==> #[trigger] name[i] != '/'
    &&& name != seq!['.']
    &&& name != seq!['.', '.']
}

proof fn lemma_one_piece(name: Seq<char>)
    requires
        forall|i: int| 0 <= i < name.len() ==> #[trigger] name[i] != '/',
    ensures
        split_on(name, '/') == seq![name],
{
    lemma_split_append(Seq::empty(), name, '/');
    let nothing = Seq::<char>::empty();
    assert(split_on(nothing, '/') == seq![nothing]);
    assert(nothing + name =~= name);
    assert(seq![nothing].drop_last().push(name) =~= seq![name]);
}

/// The components of a path below a directory are those of the directory and
/// its name.
pub proof fn law_components_of_a_joined_path(base: Seq<char>, name: Seq<char>)
    requires
        base.len() > 0,
        base.last() != '/',
        plain_name(name),
    ensures
        components(join(base, name)) == components(base).push(Component::Normal(name)),
        file_name(join(base, name)) == Some(name),
{
    lemma_split_join(base, name, '/');
    lemma_one_piece(name);
    let whole = base + seq!['/'] + name;
    assert(join(base, name) == whole);
    assert(absolute(whole) == absolute(base));
    let pieces = split_on(whole, '/');
    lemma_split_nonempty(base, |c: char| c == '/');
    assert(pieces =~= split_on(base, '/').push(name));
    assert(pieces.drop_last() =~= split_on(base, '/'));
    assert(components(whole) =~= components(base).push(Component::Normal(name)));
}

proof fn lemma_up_to_slash(base: Seq<char>, name: Seq<char>, start: nat)
    requires
        start <= base.len(),
        forall|i: int| 0 <= i < name.len() ==> #[trigger] name[i] != '/',
    ensures
        up_to_slash(base + seq!['/'] + name, start) == base + seq!['/'],
    decreases name.len(),
{
    let whole = base + seq!['/'] + name;
    if name.len() == 0 {
        assert(whole =~= base + seq!['/']);
    } else {
        assert(whole.drop_last() =~= base + seq!['/'] + name.drop_last());
        assert forall|i: int| 0 <= i < name.drop_last().len() implies #[trigger] name.drop_last()[i]
            != '/' by {
            assert(name.drop_last()[i] == name[i]);
        }
        lemma_up_to_slash(base, name.drop_last(), start);
    }
}

/// What a path below a directory is in, is the directory.
pub proof fn law_parent_of_a_joined_path(base: Seq<char>, name: Seq<char>)
    requires
        base.len() > 0,
        base.last() != '/',
        base.last() != '.',
        plain_name(name),
    ensures
        parent(join(base, name)) == Some(base),
{
    let whole = base + seq!['/'] + name;
    let start = body_start(whole);
    assert(join(base, name) == whole);
    assert(whole.last() == name.last());
    if name.last() == '.' {
        if name.len() == 1 {
            assert(name =~= seq!['.']);
        }
        assert(whole[whole.len() - 2] == name[name.len() - 2]);
    }
    assert(settle(whole, start) == whole);
    lemma_up_to_slash(base, name, start);
    assert((base + seq!['/']).drop_last() =~= base);
    assert(settle(base + seq!['/'], start) == settle(base, start));
}

/// An absolute path without its root is what follows the first slash.
pub proof fn law_absolute_paths_lose_their_root(rest: Seq<char>)
    requires
        rest.len() > 0,
        rest[0] != '/',
        rest[0] != '.',
        rest.last() != '/',
        rest.last() != '.',
    ensures
        below_root(seq!['/'] + rest) == rest,
        below_root(rest) == rest,
{
    reveal_with_fuel(trim_front, 2);
    assert((seq!['/'] + rest).skip(1) =~= rest);
}

proof fn lemma_climbing_pieces(pieces: Seq<Seq<char>>)
    ensures
        piece_components(pieces).contains(Component::ParentDir) <==> pieces.contains(
            seq!['.', '.'],
        ),
        !piece_components(pieces).contains(Component::RootDir),
    decreases pieces.len(),
{
    let up = seq!['.', '.'];
    let parts = piece_components(pieces);
    if pieces.len() == 0 {
        assert(!parts.contains(Component::ParentDir));
    } else {
        let shorter = pieces.drop_last();
        let last = pieces.last();
        lemma_climbing_pieces(shorter);
        let before = piece_components(shorter);
        assert(pieces =~= shorter.push(last));
        assert(seq!['.'].len() == 1 && up.len() == 2);
        if before.contains(Component::ParentDir) {
            let i = choose|i: int| 0 <= i < before.len() && before[i] == Component::<Seq<char>>::ParentDir;
            assert(parts[i] == Component::<Seq<char>>::ParentDir);
            let k = choose|k: int| 0 <= k < shorter.len() && shorter[k] == up;
            assert(pieces[k] == up);
        }
        if last == up {
            assert(parts.last() == Component::<Seq<char>>::ParentDir);
            assert(pieces[pieces.len() - 1] == up);
        }
        if pieces.contains(up) && last != up {
            let k = choose|k: int| 0 <= k < pieces.len() && pieces[k] == up;
            assert(shorter[k] == up);
        }
        if parts.contains(Component::ParentDir) && !before.contains(Component::ParentDir) {
            let i = choose|i: int| 0 <= i < parts.len() && parts[i] == Component::<Seq<char>>::ParentDir;
            if i < before.len() {
                assert(before[i] == parts[i]);
            }
            assert(last == up);
        }
        if parts.contains(Component::RootDir) {
            let i = choose|i: int| 0 <= i < parts.len() && parts[i] == Component::<Seq<char>>::RootDir;
            if i < before.len() {
                assert(before[i] == parts[i]);
            }
        }
    }
}

/// A path climbs exactly where one of its pieces between slashes is `..`.
pub proof fn law_climbing_paths(path: Seq<char>)
    ensures
        climbs(path) <==> split_on(path, '/').contains(seq!['.', '.']),
        climbs(path) <==> components(path).contains(Component::ParentDir),
        components(path).contains(Component::RootDir) <==> path.len() > 0 && path[0] == '/',
{
    let pieces = split_on(path, '/');
    let rest = piece_components(pieces);
    let parts = components(path);
    lemma_climbing_pieces(pieces);
    let at: int = if absolute(path) {
        1
    } else {
        0
    };
    assert forall|i: int| 0 <= i < rest.len() implies parts[at + i] == #[trigger] rest[i] by {}
    if climbs(path) {
        let i = choose|i: int| 0 <= i < parts.len() && (#[trigger] parts[i]) is ParentDir;
        assert(parts[i] == rest[i - at]);
        assert(rest.contains(rest[i - at]));
        assert(parts.contains(parts[i]));
    }
    if rest.contains(Component::ParentDir) {
        let i = choose|i: int| 0 <= i < rest.len() && rest[i] == Component::<Seq<char>>::ParentDir;
        assert(parts[at + i] == rest[i]);
        assert(parts[at + i] is ParentDir);
    }
    if parts.contains(Component::ParentDir) {
        let i = choose|i: int| 0 <= i < parts.len() && parts[i] == Component::<Seq<char>>::ParentDir;
        assert(parts[i] is ParentDir);
    }
    if absolute(path) {
        assert(parts[0] == Component::<Seq<char>>::RootDir);
    } else if parts.contains(Component::RootDir) {
        let i = choose|i: int| 0 <= i < parts.len() && parts[i] == Component::<Seq<char>>::RootDir;
        assert(rest[i] == Component::<Seq<char>>::RootDir);
        assert(rest.contains(rest[i]));
    }
}

/// A slash at the end of a path, and a single dot behind it, say nothing; two
/// dots lead up.
pub proof fn law_dots_of_a_path(base: Seq<char>)
    requires
        base.len() > 0,
    ensures
        components(base + seq!['/']) == components(base),
        components(base + seq!['/', '.']) == components(base),
        components(base + seq!['/', '.', '.']) == components(base).push(Component::ParentDir),
{
    let none = Seq::<char>::empty();
    let dot = seq!['.'];
    let dots = seq!['.', '.'];
    assert(base + seq!['/'] =~= base + seq!['/'] + none);
    assert(base + seq!['/', '.'] =~= base + seq!['/'] + dot);
    assert(base + seq!['/', '.', '.'] =~= base + seq!['/'] + dots);
    lemma_last_piece(base, none);
    lemma_last_piece(base, dot);
    lemma_last_piece(base, dots);
    assert(dots.len() == 2 && dot.len() == 1);
}

proof fn lemma_last_piece(base: Seq<char>, name: Seq<char>)
    requires
        base.len() > 0,
        forall|i: int| 0 <= i < name.len() ==> #[trigger] name[i] != '/',
    ensures
        components(base + seq!['/'] + name) == match piece_component(name, false) {
            Some(component) => components(base).push(component),
            None => components(base),
        },
{
    lemma_split_join(base, name, '/');
    lemma_one_piece(name);
    let whole = base + seq!['/'] + name;
    assert(absolute(whole) == absolute(base));
    let pieces = split_on(whole, '/');
    lemma_split_nonempty(base, |c: char| c == '/');
    assert(pieces =~= split_on(base, '/').push(name));
    assert(pieces.drop_last() =~= split_on(base, '/'));
    match piece_component(name, false) {
        Some(component) => {
            assert(components(whole) =~= components(base).push(component));
        },
        None => {
            assert(components(whole) =~= components(base));
        },
    }
}

} // verus!
