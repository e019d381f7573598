//! Which names the configuration may hold.
use vstd::prelude::*;

use crate::path::{
    absolute, components, is_absolute, join, law_components_of_a_joined_path, path_components,
    piece_components, plain_name, Component,
};
use crate::text::{
    chars_of, lemma_split_append, lemma_split_join, lemma_split_nonempty, same, split_on, views,
};

verus! {

/// ASCII letters and digits.
pub open spec fn alphanumeric(c: char) -> bool {
    ||| 'a' <= c && c <= 'z'
    ||| 'A' <= c && c <= 'Z'
    ||| '0' <= c && c <= '9'
}

pub fn is_alphanumeric(c: char) -> (result: bool)
    ensures
        result == alphanumeric(c),
{
    ('a' <= c && c <= 'z') || ('A' <= c && c <= 'Z') || ('0' <= c && c <= '9')
}

/// The characters of container and interface names.
pub open spec fn name_char(c: char) -> bool {
    alphanumeric(c) || c == '.' || c == '_' || c == '-'
}

/// Whether all characters of a text belong to names.
pub open spec fn name_chars(text: Seq<char>) -> bool {
    forall|i: int| 0 <= i < text.len() ==> name_char(#[trigger] text[i])
}

/// Whether all characters belong to names.
pub fn all_name_chars(chars: &[char]) -> (result: bool)
    ensures
        result == name_chars(chars@),
{
    let mut i: usize = 0;
    while i < chars.len()
        invariant
            i <= chars.len(),
            forall|k: int| 0 <= k < i ==> name_char(#[trigger] chars@[k]),
        decreases chars.len() - i,
    {
        let c: char = chars[i];
        if !(is_alphanumeric(c) || c == '.' || c == '_' || c == '-') {
            assert(!name_char(chars@[i as int]));
            return false;
        }
        i += 1;
    }
    true
}

/// The names that a container may have. They are names of files too, so `.`
/// and `..` are not among them.
pub open spec fn container_name(name: Seq<char>) -> bool {
    &&& 1 <= name.len() <= 128
    &&& name != "."@
    &&& name != ".."@
    &&& name_chars(name)
}

/// Whether a container may have this name.
pub fn valid_name(name: &str) -> (result: bool)
    ensures
        result == container_name(name@),
{
    let chars = chars_of(name);
    1 <= chars.len() && chars.len() <= 128 && !same(name, ".") && !same(name, "..")
        && all_name_chars(&chars)
}

/// The names that a network interface may have.
pub open spec fn interface_name(name: Seq<char>) -> bool {
    1 <= name.len() < 16 && name_chars(name)
}

/// Whether a network interface may have this name.
pub fn valid_interface_name(name: &str) -> (result: bool)
    ensures
        result == interface_name(name@),
{
    let chars = chars_of(name);
    1 <= chars.len() && chars.len() < 16 && all_name_chars(&chars)
}

/// The names that an environment variable may have: letters, digits and
/// underscores, with no digit in front.
pub open spec fn variable_name(key: Seq<char>) -> bool {
    &&& key.len() > 0
    &&& !('0' <= key[0] && key[0] <= '9')
    &&& forall|i: int| 0 <= i < key.len() ==> alphanumeric(#[trigger] key[i]) || key[i] == '_'
}

/// Whether an environment variable may have this name.
pub fn valid_env_key(key: &str) -> (result: bool)
    ensures
        result == variable_name(key@),
{
    let chars = chars_of(key);
    if chars.len() == 0 || ('0' <= chars[0] && chars[0] <= '9') {
        return false;
    }
    let mut i: usize = 0;
    while i < chars.len()
        invariant
            i <= chars.len(),
            chars@ == key@,
            forall|k: int| 0 <= k < i ==> alphanumeric(#[trigger] chars@[k]) || chars@[k] == '_',
        decreases chars.len() - i,
    {
        if !(is_alphanumeric(chars[i]) || chars[i] == '_') {
            assert(!(alphanumeric(key@[i as int]) || key@[i as int] == '_'));
            return false;
        }
        i += 1;
    }
    true
}

/// The paths that a bind mount may have as its target: absolute, below the
/// root, without `..`, and outside the directory that holds the old root
/// while the container boots.
pub open spec fn bind_target(path: Seq<char>) -> bool {
    let all = components(path);
    &&& absolute(path)
    &&& all.len() > 1
    &&& forall|i: int| 0 <= i < all.len() ==> !((#[trigger] all[i]) is ParentDir)
    &&& all[1] != Component::Normal(".old_root"@)
}

/// Whether a bind mount may have this target.
pub fn safe_container_path(path: &str) -> (result: bool)
    ensures
        result == bind_target(path@),
{
    if !is_absolute(path) {
        return false;
    }
    let all = path_components(path);
    let ghost model = components(path@);
    assert(model.len() == all@.len());
    assert forall|k: int| 0 <= k < all@.len() implies (#[trigger] model[k]) == all@[k]@ by {
        assert(views(all@)[k] == all@[k]@);
    }
    if all.len() <= 1 {
        return false;
    }
    let mut i: usize = 0;
    while i < all.len()
        invariant
            i <= all.len(),
            model == components(path@),
            model.len() == all@.len(),
            forall|k: int| 0 <= k < all@.len() ==> (#[trigger] model[k]) == all@[k]@,
            forall|k: int| 0 <= k < i ==> !((#[trigger] model[k]) is ParentDir),
        decreases all.len() - i,
    {
        match &all[i] {
            Component::ParentDir => {
                assert(model[i as int] is ParentDir);
                return false;
            },
            _ => {},
        }
        assert(!(model[i as int] is ParentDir));
        i += 1;
    }
    match &all[1] {
        Component::Normal(name) => {
            assert(model[1] == Component::Normal(name@));
            !same(name, ".old_root")
        },
        _ => {
            assert(!(model[1] is Normal));
            true
        },
    }
}

/// Names are made of letters, digits, full stops, underscores and hyphens, all
/// of them from the first characters of the code; so no name holds a slash, a
/// space, a colon or a character that is not printed.
pub proof fn law_names_hold_plain_characters(c: char)
    ensures
        name_char(c) <==> c as u32 == 0x2d || c as u32 == 0x2e || 0x30 <= c as u32 <= 0x39 || 0x41
            <= c as u32 <= 0x5a || c as u32 == 0x5f || 0x61 <= c as u32 <= 0x7a,
        alphanumeric(c) <==> 0x30 <= c as u32 <= 0x39 || 0x41 <= c as u32 <= 0x5a || 0x61 <= c
            as u32 <= 0x7a,
        c == '/' || c == ' ' || c == ':' || c == '\n' || c == '\0' ==> !name_char(c),
{
}

/// The name of a container is one component of a path: taken from a directory
/// it names something in it, and nothing else.
pub proof fn law_container_names_are_components(base: Seq<char>, name: Seq<char>)
    requires
        container_name(name),
        base.len() > 0,
        base.last() != '/',
    ensures
        components(join(base, name)) == components(base).push(Component::Normal(name)),
        name.len() <= 128,
{
    reveal_strlit(".");
    reveal_strlit("..");
    assert("."@ =~= seq!['.']);
    assert(".."@ =~= seq!['.', '.']);
    assert forall|i: int| 0 <= i < name.len() implies #[trigger] name[i] != '/' by {
        assert(name_char(name[i]));
    }
    law_components_of_a_joined_path(base, name);
}

/// A text of the characters of names is the name of a container exactly where
/// it is neither empty nor too long and does not stand for a directory; it is
/// that of an interface exactly where it is shorter than the kernel's limit.
pub proof fn law_lengths_of_names(name: Seq<char>)
    requires
        name_chars(name),
        name.len() > 2,
    ensures
        container_name(name) <==> name.len() < 129,
        interface_name(name) <==> name.len() < 16,
        !container_name(Seq::empty()),
        !interface_name(Seq::empty()),
{
    reveal_strlit(".");
    reveal_strlit("..");
}

/// The name of a variable holds neither a space nor an equals sign, and does
/// not begin with a digit.
pub proof fn law_variable_names_are_plain(key: Seq<char>, i: int)
    requires
        variable_name(key),
        0 <= i < key.len(),
    ensures
        key[i] != '=',
        key[i] != ' ',
        key[i] != '\'',
        key[i] != '$',
        0x30 <= key[i] as u32 <= 0x39 || 0x41 <= key[i] as u32 <= 0x5a || key[i] as u32 == 0x5f
            || 0x61 <= key[i] as u32 <= 0x7a,
        !(0x30 <= key[0] as u32 <= 0x39),
{
    assert(alphanumeric(key[i]) || key[i] == '_');
}

/// A name below the root is a target of a bind mount unless it is that of the
/// old root; a name below a target is one, and nothing else above decides. No
/// target leads upwards.
pub proof fn law_bind_targets_stay_below_the_root(base: Seq<char>, name: Seq<char>)
    requires
        plain_name(name),
        base.len() > 0,
        base.last() != '/',
    ensures
        bind_target(seq!['/'] + name) <==> name != ".old_root"@,
        bind_target(base) ==> bind_target(join(base, name)),
        bind_target(join(base, name)) && components(base).len() > 1 ==> bind_target(base),
        !bind_target(name),
        !bind_target(join(base, ".."@)),
        !bind_target("/"@),
{
    let root = Seq::<char>::empty();
    let whole = seq!['/'] + name;
    lemma_split_join(root, name, '/');
    assert(root + seq!['/'] + name =~= whole);
    lemma_split_append(root, name, '/');
    assert(root + name =~= name);
    assert(split_on(root, '/') == seq![root]);
    assert(split_on(name, '/') =~= seq![name]);
    let pieces = split_on(whole, '/');
    assert(pieces =~= seq![root, name]);
    assert(pieces.drop_last() =~= seq![root]);
    assert(seq![root].drop_last() =~= Seq::<Seq<char>>::empty());
    reveal_with_fuel(piece_components, 3);
    assert(piece_components(seq![root]) =~= Seq::<Component<Seq<char>>>::empty());
    assert(components(whole) =~= seq![Component::RootDir, Component::Normal(name)]);
    law_components_of_a_joined_path(base, name);
    let all = components(join(base, name));
    let before = components(base);
    assert(absolute(join(base, name)) == absolute(base));
    assert forall|i: int| 0 <= i < before.len() implies all[i] == #[trigger] before[i] by {}
    if bind_target(base) {
        assert forall|i: int| 0 <= i < all.len() implies !((#[trigger] all[i]) is ParentDir) by {
            if i < before.len() {
                assert(!(before[i] is ParentDir));
            }
        }
        assert(all[1] == before[1]);
    }
    if bind_target(join(base, name)) && before.len() > 1 {
        assert forall|i: int| 0 <= i < before.len() implies !((#[trigger] before[i])
            is ParentDir) by {
            assert(!(all[i] is ParentDir));
        }
        assert(all[1] == before[1]);
    }
    assert(!absolute(name)) by {
        assert(name[0] != '/');
    }
    lemma_upwards(base);
    reveal_strlit("/");
    assert("/"@ =~= root + seq!['/'] + root);
    lemma_split_join(root, root, '/');
    assert(split_on("/"@, '/') =~= seq![root, root]);
    assert(seq![root, root].drop_last() =~= seq![root]);
    assert(components("/"@) =~= seq![Component::RootDir]);
}

proof fn lemma_upwards(base: Seq<char>)
    requires
        base.len() > 0,
        base.last() != '/',
    ensures
        !bind_target(join(base, ".."@)),
{
    let root = Seq::<char>::empty();
    let up = seq!['.', '.'];
    reveal_strlit("..");
    assert(".."@ =~= up);
    lemma_split_join(base, up, '/');
    lemma_split_append(root, up, '/');
    assert(root + up =~= up);
    assert(split_on(root, '/') == seq![root]);
    assert(split_on(up, '/') =~= seq![up]);
    let whole = base + seq!['/'] + up;
    assert(join(base, ".."@) == whole);
    let pieces = split_on(whole, '/');
    lemma_split_nonempty(base, |c: char| c == '/');
    assert(pieces =~= split_on(base, '/').push(up));
    assert(pieces.drop_last() =~= split_on(base, '/'));
    assert(up.len() == 2);
    assert(seq!['.'].len() == 1);
    let all = components(whole);
    assert(all.last() is ParentDir);
    assert(all[all.len() - 1] is ParentDir);
}

} // verus!
