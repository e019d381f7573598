//! Archives of root file systems: how their formats are told apart, and which
//! of their entries may be unpacked.
use vstd::prelude::*;

use crate::path::{
    absolute, components, is_absolute, join, join_paths, law_parent_of_a_joined_path, parent,
    parent_path, path_components, plain_name, Component,
};
use crate::runtime::boot::{
    ensure_no_symlink_components, path_along, symlink_error, NodeKind, SymlinkError,
};
use crate::text::{lemma_views_empty, lemma_views_push, views};

verus! {

// ---------------------------------------------------------------------------
// Formats
// ---------------------------------------------------------------------------
/// The formats of archives.
#[derive(Clone, Copy, Debug, PartialEq, Eq, Structural)]
pub enum ArchiveKind {
    Tar,
    Gzip,
    Xz,
    Zstd,
    Zip,
}

/// How much of an archive is read to tell its format.
pub const ARCHIVE_HEADER_BYTES: usize = 512;

/// Whether bytes begin with others.
pub open spec fn begins_with(bytes: Seq<u8>, magic: Seq<u8>) -> bool {
    magic.len() <= bytes.len() && bytes.take(magic.len() as int) == magic
}

/// Whether bytes begin with others.
fn has_magic(bytes: &[u8], magic: &[u8]) -> (result: bool)
    ensures
        result == begins_with(bytes@, magic@),
{
    if magic.len() > bytes.len() {
        return false;
    }
    let mut i: usize = 0;
    while i < magic.len()
        invariant
            i <= magic@.len() <= bytes@.len(),
            forall|k: int| 0 <= k < i ==> bytes@[k] == magic@[k],
        decreases magic.len() - i,
    {
        if bytes[i] != magic[i] {
            assert(bytes@.take(magic@.len() as int)[i as int] != magic@[i as int]);
            return false;
        }
        i += 1;
    }
    assert(bytes@.take(magic@.len() as int) =~= magic@);
    true
}

/// The byte that pads numbers in the head of a tar entry.
pub open spec fn padding(byte: u8) -> bool {
    byte == 0 || byte == 0x20
}

/// Bytes without the padding that they begin with.
pub open spec fn unpadded_start(bytes: Seq<u8>) -> Seq<u8>
    decreases bytes.len(),
{
    if bytes.len() > 0 && padding(bytes[0]) {
        unpadded_start(bytes.skip(1))
    } else {
        bytes
    }
}

/// Bytes without the padding that they end with.
pub open spec fn unpadded_end(bytes: Seq<u8>) -> Seq<u8>
    decreases bytes.len(),
{
    if bytes.len() > 0 && padding(bytes.last()) {
        unpadded_end(bytes.drop_last())
    } else {
        bytes
    }
}

/// The number that octal digits write.
pub open spec fn octal_value(digits: Seq<u8>) -> nat
    decreases digits.len(),
{
    if digits.len() == 0 {
        0
    } else {
        octal_value(digits.drop_last()) * 8 + (digits.last() - 0x30) as nat
    }
}

/// The digits of a number after an optional plus sign.
pub open spec fn octal_digits(bytes: Seq<u8>) -> Seq<u8> {
    if bytes.len() > 0 && bytes[0] == 0x2b {
        bytes.skip(1)
    } else {
        bytes
    }
}

/// The number that a padded field of eight bytes writes in octal.
pub open spec fn octal_field(field: Seq<u8>) -> Option<nat> {
    let digits = octal_digits(unpadded_end(unpadded_start(field)));
    if digits.len() > 0 && (forall|i: int|
        0 <= i < digits.len() ==> 0x30 <= #[trigger] digits[i] <= 0x37) {
        Some(octal_value(digits))
    } else {
        None
    }
}

/// The sum of the first `count` bytes of a head, with those of the checksum
/// itself taken as spaces.
pub open spec fn header_sum(header: Seq<u8>, count: int) -> nat
    decreases count,
{
    if count <= 0 {
        0
    } else {
        header_sum(header, count - 1) + if 148 <= count - 1 < 156 {
            0x20
        } else {
            header[count - 1] as nat
        }
    }
}

/// Whether bytes are the head of a tar entry: its checksum is right.
pub open spec fn tar_header(header: Seq<u8>) -> bool {
    header.len() >= 512 && octal_field(header.subrange(148, 156)) == Some(
        header_sum(header, header.len() as int),
    )
}

proof fn lemma_octal_bound(digits: Seq<u8>)
    requires
        digits.len() <= 8,
        forall|i: int| 0 <= i < digits.len() ==> 0x30 <= #[trigger] digits[i] <= 0x37,
    ensures
        octal_value(digits) < 0x100_0000,
{
    lemma_octal_growth(digits);
    reveal_with_fuel(octal_limit, 9);
}

proof fn lemma_octal_growth(digits: Seq<u8>)
    requires
        forall|i: int| 0 <= i < digits.len() ==> 0x30 <= #[trigger] digits[i] <= 0x37,
    ensures
        octal_value(digits) < octal_limit(digits.len()),
    decreases digits.len(),
{
    if digits.len() > 0 {
        let shorter = digits.drop_last();
        assert forall|i: int| 0 <= i < shorter.len() implies 0x30 <= #[trigger] shorter[i]
            <= 0x37 by {
            assert(shorter[i] == digits[i]);
        }
        lemma_octal_growth(shorter);
        assert(0x30 <= digits[digits.len() - 1] <= 0x37);
    }
}

spec fn octal_limit(count: nat) -> nat
    decreases count,
{
    if count == 0 {
        1
    } else {
        8 * octal_limit((count - 1) as nat)
    }
}

/// The number that a padded field writes in octal.
fn parse_octal(field: &[u8]) -> (number: Option<u32>)
    requires
        field@.len() == 8,
    ensures
        (match number {
            Some(number) => Some(number as nat),
            None => None,
        }) == octal_field(field@),
{
    let mut from: usize = 0;
    assert(field@.skip(0) =~= field@);
    while from < field.len() && (field[from] == 0 || field[from] == 0x20)
        invariant
            from <= field@.len(),
            unpadded_start(field@) == unpadded_start(field@.skip(from as int)),
        decreases field.len() - from,
    {
        assert(field@.skip(from as int).skip(1) =~= field@.skip(from + 1));
        from += 1;
    }
    let ghost front = field@.skip(from as int);
    assert(unpadded_start(field@) == front);
    let mut to: usize = field.len();
    assert(field@.subrange(from as int, to as int) =~= front);
    while to > from && (field[to - 1] == 0 || field[to - 1] == 0x20)
        invariant
            from <= to <= field@.len(),
            unpadded_end(front) == unpadded_end(field@.subrange(from as int, to as int)),
        decreases to,
    {
        assert(field@.subrange(from as int, to as int).drop_last() =~= field@.subrange(
            from as int,
            to - 1,
        ));
        to -= 1;
    }
    let ghost body = field@.subrange(from as int, to as int);
    assert(unpadded_end(front) == body);
    let start: usize = if from < to && field[from] == 0x2b {
        from + 1
    } else {
        from
    };
    let ghost digits = octal_digits(body);
    assert(digits =~= field@.subrange(start as int, to as int));
    if start == to {
        return None;
    }
    let mut value: u32 = 0;
    let mut i: usize = start;
    assert(digits.take(0) =~= Seq::<u8>::empty());
    while i < to
        invariant
            start <= i <= to <= field@.len() == 8,
            digits == field@.subrange(start as int, to as int),
            digits == octal_digits(unpadded_end(unpadded_start(field@))),
            value == octal_value(digits.take(i - start)),
            forall|k: int| 0 <= k < i - start ==> 0x30 <= #[trigger] digits[k] <= 0x37,
        decreases to - i,
    {
        let byte: u8 = field[i];
        assert(digits[i - start] == byte);
        if byte < 0x30 || byte > 0x37 {
            return None;
        }
        proof {
            let longer = digits.take(i + 1 - start);
            assert(longer.drop_last() =~= digits.take(i - start));
            assert forall|k: int| 0 <= k < longer.len() implies 0x30 <= #[trigger] longer[k]
                <= 0x37 by {
                assert(longer[k] == digits[k]);
            }
            lemma_octal_bound(longer);
        }
        value = value * 8 + (byte - 0x30) as u32;
        i += 1;
    }
    assert(digits.take(i - start) =~= digits);
    Some(value)
}

proof fn lemma_header_sum_grows(header: Seq<u8>, count: int)
    requires
        0 <= count <= header.len(),
    ensures
        header_sum(header, count) <= header_sum(header, header.len() as int),
    decreases header.len() - count,
{
    if count < header.len() {
        lemma_header_sum_grows(header, count + 1);
    }
}

/// Whether bytes are the head of a tar entry.
pub fn valid_tar_header(header: &[u8]) -> (result: bool)
    ensures
        result == tar_header(header@),
{
    if header.len() < 512 {
        return false;
    }
    let field = vstd::slice::slice_subrange(header, 148, 156);
    match parse_octal(field) {
        None => false,
        Some(checksum) => {
            let mut sum: u64 = 0;
            let mut i: usize = 0;
            while i < header.len()
                invariant
                    i <= header@.len(),
                    header@.len() >= 512,
                    octal_field(header@.subrange(148, 156)) == Some(checksum as nat),
                    sum == header_sum(header@, i as int),
                    sum <= u32::MAX,
                decreases header.len() - i,
            {
                let byte: u64 = if 148 <= i && i < 156 {
                    0x20
                } else {
                    header[i] as u64
                };
                sum += byte;
                i += 1;
                if sum > 0xffff_ffff {
                    proof {
                        lemma_header_sum_grows(header@, i as int);
                    }
                    return false;
                }
            }
            checksum as u64 == sum
        },
    }
}

/// The format of an archive that begins with these bytes.
pub open spec fn format_of(header: Seq<u8>) -> Option<ArchiveKind> {
    if begins_with(header, seq![0x1fu8, 0x8b]) {
        Some(ArchiveKind::Gzip)
    } else if begins_with(header, seq![0xfdu8, 0x37, 0x7a, 0x58, 0x5a, 0x00]) {
        Some(ArchiveKind::Xz)
    } else if begins_with(header, seq![0x28u8, 0xb5, 0x2f, 0xfd]) {
        Some(ArchiveKind::Zstd)
    } else if begins_with(header, seq![0x50u8, 0x4b, 0x03, 0x04]) || begins_with(
        header,
        seq![0x50u8, 0x4b, 0x05, 0x06],
    ) || begins_with(header, seq![0x50u8, 0x4b, 0x07, 0x08]) {
        Some(ArchiveKind::Zip)
    } else if tar_header(header) {
        Some(ArchiveKind::Tar)
    } else {
        None
    }
}

/// The format of an archive that begins with these bytes.
pub fn archive_kind(header: &[u8]) -> (kind: Option<ArchiveKind>)
    ensures
        kind == format_of(header@),
{
    let gzip: [u8; 2] = [0x1f, 0x8b];
    let xz: [u8; 6] = [0xfd, 0x37, 0x7a, 0x58, 0x5a, 0x00];
    let zstd: [u8; 4] = [0x28, 0xb5, 0x2f, 0xfd];
    let zip_file: [u8; 4] = [0x50, 0x4b, 0x03, 0x04];
    let zip_empty: [u8; 4] = [0x50, 0x4b, 0x05, 0x06];
    let zip_spanned: [u8; 4] = [0x50, 0x4b, 0x07, 0x08];
    assert(gzip@ =~= seq![0x1fu8, 0x8b]);
    assert(xz@ =~= seq![0xfdu8, 0x37, 0x7a, 0x58, 0x5a, 0x00]);
    assert(zstd@ =~= seq![0x28u8, 0xb5, 0x2f, 0xfd]);
    assert(zip_file@ =~= seq![0x50u8, 0x4b, 0x03, 0x04]);
    assert(zip_empty@ =~= seq![0x50u8, 0x4b, 0x05, 0x06]);
    assert(zip_spanned@ =~= seq![0x50u8, 0x4b, 0x07, 0x08]);
    if has_magic(header, &gzip) {
        Some(ArchiveKind::Gzip)
    } else if has_magic(header, &xz) {
        Some(ArchiveKind::Xz)
    } else if has_magic(header, &zstd) {
        Some(ArchiveKind::Zstd)
    } else if has_magic(header, &zip_file) || has_magic(header, &zip_empty) || has_magic(
        header,
        &zip_spanned,
    ) {
        Some(ArchiveKind::Zip)
    } else if valid_tar_header(header) {
        Some(ArchiveKind::Tar)
    } else {
        None
    }
}

// ---------------------------------------------------------------------------
// Entries of tar archives
// ---------------------------------------------------------------------------
/// The kinds of entries of a tar archive, as far as they are told apart.
#[derive(Clone, Copy, Debug, PartialEq, Eq, Structural)]
pub enum TarKind {
    File,
    HardLink,
    Symlink,
    Directory,
    Contiguous,
    Sparse,
    /// Devices, pipes, and the heads of extensions.
    Other,
}

/// The kind that a flag stands for.
pub open spec fn kind_of_flag(flag: u8) -> TarKind {
    if flag == 0 || flag == 0x30 {
        TarKind::File
    } else if flag == 0x31 {
        TarKind::HardLink
    } else if flag == 0x32 {
        TarKind::Symlink
    } else if flag == 0x35 {
        TarKind::Directory
    } else if flag == 0x37 {
        TarKind::Contiguous
    } else if flag == 0x53 {
        TarKind::Sparse
    } else {
        TarKind::Other
    }
}

/// `tar::EntryType::new`: the type that a flag in the head of an entry stands
/// for.
#[verifier::external_body]
fn tar_kind(flag: u8) -> (kind: TarKind)
    ensures
        kind == kind_of_flag(flag),
{
    match tar::EntryType::new(flag) {
        tar::EntryType::Regular => TarKind::File,
        tar::EntryType::Link => TarKind::HardLink,
        tar::EntryType::Symlink => TarKind::Symlink,
        tar::EntryType::Directory => TarKind::Directory,
        tar::EntryType::Continuous => TarKind::Contiguous,
        tar::EntryType::GNUSparse => TarKind::Sparse,
        _ => TarKind::Other,
    }
}

/// Whether an entry with this flag is unpacked.
pub open spec fn unpacked(flag: u8) -> bool {
    kind_of_flag(flag) != TarKind::Other
}

/// Whether an entry with this flag is unpacked: files, directories and links
/// are; devices and pipes are not.
pub fn supported_tar_entry(flag: u8) -> (result: bool)
    ensures
        result == unpacked(flag),
        result == (kind_of_flag(flag) != TarKind::Other),
{
    tar_kind(flag) != TarKind::Other
}

// ---------------------------------------------------------------------------
// Entries of ZIP archives
// ---------------------------------------------------------------------------
/// What becomes of an entry of a ZIP archive.
#[derive(Clone, Copy, Debug, PartialEq, Eq, Structural)]
pub enum ZipEntry {
    /// A directory with these permissions.
    Directory(u32),
    Symlink,
    /// A file with these permissions.
    File(u32),
    /// It is refused: a device or a pipe.
    Special,
}

/// The mode of an entry that has none.
pub open spec fn zip_mode(mode: Option<u32>, directory: bool) -> u32 {
    match mode {
        Some(mode) => mode,
        None => if directory {
            0o755
        } else {
            0o644
        },
    }
}

/// What becomes of an entry of a ZIP archive.
pub open spec fn zip_meaning(mode: Option<u32>, directory: bool) -> ZipEntry {
    let bits = zip_mode(mode, directory);
    if directory {
        ZipEntry::Directory(bits & 0o7777)
    } else if bits & 0o170_000 == 0o120_000 {
        ZipEntry::Symlink
    } else if bits & 0o170_000 == 0 || bits & 0o170_000 == 0o100_000 {
        ZipEntry::File(bits & 0o7777)
    } else {
        ZipEntry::Special
    }
}

/// What becomes of an entry of a ZIP archive.
pub fn zip_entry(mode: Option<u32>, directory: bool) -> (entry: ZipEntry)
    ensures
        entry == zip_meaning(mode, directory),
{
    let bits: u32 = match mode {
        Some(mode) => mode,
        None => if directory {
            0o755
        } else {
            0o644
        },
    };
    if directory {
        ZipEntry::Directory(bits & 0o7777)
    } else if bits & 0o170_000 == 0o120_000 {
        ZipEntry::Symlink
    } else if bits & 0o170_000 == 0 || bits & 0o170_000 == 0o100_000 {
        ZipEntry::File(bits & 0o7777)
    } else {
        ZipEntry::Special
    }
}

/// Why an entry is refused.
#[derive(Clone, Copy, Debug, PartialEq, Eq, Structural)]
pub enum EntryError {
    /// Its path is absolute or climbs.
    Path,
    /// Its path leads over a symbolic link, or cannot be looked at.
    Way(SymlinkError),
}

/// Whether a path stays below the directory that it is taken from.
pub open spec fn stays_below(path: Seq<char>) -> bool {
    let parts = components(path);
    &&& !absolute(path)
    &&& forall|i: int|
        0 <= i < parts.len() ==> (#[trigger] parts[i]) is Normal || parts[i] is CurDir
}

/// The components of a path that are names.
pub open spec fn names_of(parts: Seq<Component<Seq<char>>>) -> Seq<Component<Seq<char>>>
    decreases parts.len(),
{
    if parts.len() == 0 {
        Seq::empty()
    } else {
        let before = names_of(parts.drop_last());
        if parts.last() is Normal {
            before.push(parts.last())
        } else {
            before
        }
    }
}

/// The paths on the way from a root to an entry.
pub open spec fn entry_paths(root: Seq<char>, relative: Seq<char>) -> Seq<Seq<char>> {
    let parts = names_of(components(relative));
    Seq::new(parts.len(), |i: int| path_along(root, parts, i + 1))
}

/// The paths on the way from a root to an entry, in the order in which they
/// are looked at.
pub fn entry_probes(root: &str, relative: &str) -> (paths: Vec<String>)
    ensures
        views(paths@) == entry_paths(root@, relative@),
{
    broadcast use {lemma_views_push, lemma_views_empty};

    let parts = path_components(relative);
    let ghost model = components(relative@);
    let ghost names = names_of(model);
    assert(model.len() == parts@.len());
    let mut current = root.to_owned();
    let mut paths: Vec<String> = Vec::new();
    let mut i: usize = 0;
    let ghost mut count: int = 0;
    assert(names_of(model.take(0)) =~= Seq::<Component<Seq<char>>>::empty());
    while i < parts.len()
        invariant
            i <= parts@.len(),
            model == views(parts@),
            names_of(model.take(i as int)).len() == count,
            current@ == path_along(
                root@,
                names_of(model.take(i as int)),
                count,
            ),
            paths@.len() == count,
            forall|k: int|
                #![trigger paths@[k]]
                0 <= k < count ==> paths@[k]@ == path_along(
                    root@,
                    names_of(model.take(i as int)),
                    k + 1,
                ),
            count >= 0,
        decreases parts.len() - i,
    {
        broadcast use {lemma_views_push, lemma_views_empty};

        let ghost before = names_of(model.take(i as int));
        let ghost after = names_of(model.take(i + 1));
        assert(model.take(i + 1).drop_last() =~= model.take(i as int));
        assert(model.take(i + 1).last() == parts@[i as int]@);
        if let Component::Normal(name) = &parts[i] {
            let next = join_paths(&current, name);
            proof {
                assert(after == before.push(Component::Normal(name@)));
                assert(after.take(before.len() as int) =~= before);
                assert(after[count] == Component::Normal(name@));
                lemma_along_prefix(root@, before, after, count);
            }
            let ghost so_far = paths@;
            paths.push(next.clone());
            current = next;
            proof {
                assert forall|k: int|
                    #![trigger paths@[k]]
                    0 <= k < count + 1 implies paths@[k]@ == path_along(root@, after, k + 1) by {
                    if k < count {
                        lemma_along_prefix(root@, before, after, k + 1);
                        assert(paths@[k] == so_far[k]);
                    }
                }
                count = count + 1;
            }
        } else {
            assert(after == before);
        }
        i += 1;
    }
    assert(model.take(i as int) =~= model);
    assert(views(paths@) =~= entry_paths(root@, relative@));
    paths
}

proof fn lemma_along_prefix(
    root: Seq<char>,
    shorter: Seq<Component<Seq<char>>>,
    longer: Seq<Component<Seq<char>>>,
    count: int,
)
    requires
        0 <= count <= shorter.len() <= longer.len(),
        longer.take(shorter.len() as int) == shorter,
    ensures
        path_along(root, shorter, count)
            == path_along(root, longer, count),
    decreases count,
{
    if count > 0 {
        lemma_along_prefix(root, shorter, longer, count - 1);
        assert(longer[count - 1] == longer.take(shorter.len() as int)[count - 1]);
    }
}

/// Why an entry may not be unpacked; `kinds` says what stands on the way.
pub open spec fn entry_error(relative: Seq<char>, kinds: Seq<NodeKind>) -> Option<EntryError> {
    if !stays_below(relative) {
        Some(EntryError::Path)
    } else {
        match symlink_error(kinds, 0) {
            Some(error) => Some(EntryError::Way(error)),
            None => None,
        }
    }
}

/// Whether an entry may be unpacked: its path stays below the root and leads
/// over no symbolic link. `kinds` says what stands on the way.
pub fn ensure_safe_path(relative: &str, kinds: &Vec<NodeKind>) -> (result: Result<(), EntryError>)
    ensures
        match result {
            Ok(()) => entry_error(relative@, kinds@) is None,
            Err(error) => entry_error(relative@, kinds@) == Some(error),
        },
        match result {
            Ok(()) => stays_below(relative@) && symlink_error(kinds@, 0) is None,
            Err(EntryError::Path) => !stays_below(relative@),
            Err(EntryError::Way(error)) => stays_below(relative@) && symlink_error(kinds@, 0)
                == Some(error),
        },
{
    if is_absolute(relative) {
        return Err(EntryError::Path);
    }
    let parts = path_components(relative);
    let ghost model = components(relative@);
    assert(model.len() == parts@.len());
    let mut i: usize = 0;
    while i < parts.len()
        invariant
            i <= parts@.len(),
            model == views(parts@),
            model == components(relative@),
            forall|k: int|
                0 <= k < i ==> (#[trigger] model[k]) is Normal || model[k] is CurDir,
        decreases parts.len() - i,
    {
        assert(model[i as int] == parts@[i as int]@);
        match &parts[i] {
            Component::Normal(_) => {},
            Component::CurDir => {},
            _ => {
                assert(!(model[i as int] is Normal || model[i as int] is CurDir));
                return Err(EntryError::Path);
            },
        }
        i += 1;
    }
    match ensure_no_symlink_components(kinds) {
        Ok(()) => Ok(()),
        Err(error) => Err(EntryError::Way(error)),
    }
}

/// Why a symbolic link in an archive is refused.
#[derive(Clone, Copy, Debug, PartialEq, Eq, Structural)]
pub enum LinkError {
    Absolute,
    /// It leads out of the root.
    Escapes,
}

/// How deep a walk along the components from position `i` on ends, where it
/// begins at this depth; nothing where it climbs above the root.
pub open spec fn walk(parts: Seq<Component<Seq<char>>>, depth: nat, i: int) -> Option<nat>
    decreases parts.len() - i,
{
    if i < 0 || i >= parts.len() {
        Some(depth)
    } else {
        match parts[i] {
            Component::ParentDir => if depth > 0 {
                walk(parts, (depth - 1) as nat, i + 1)
            } else {
                None
            },
            Component::Normal(name) => walk(parts, depth + 1, i + 1),
            Component::CurDir => walk(parts, depth, i + 1),
            Component::RootDir => None,
        }
    }
}

/// How deep the directory of an entry is.
pub open spec fn entry_depth(entry: Seq<char>) -> nat {
    match parent(entry) {
        Some(directory) => components(directory).len(),
        None => 0,
    }
}

/// What is wrong with a symbolic link.
pub open spec fn link_error(entry: Seq<char>, link: Seq<char>) -> Option<LinkError> {
    if absolute(link) {
        Some(LinkError::Absolute)
    } else if walk(components(link), entry_depth(entry), 0) is None {
        Some(LinkError::Escapes)
    } else {
        None
    }
}

/// Whether a symbolic link leads nowhere outside the root.
pub fn ensure_safe_link(entry: &str, link: &str) -> (result: Result<(), LinkError>)
    ensures
        match result {
            Ok(()) => link_error(entry@, link@) is None,
            Err(error) => link_error(entry@, link@) == Some(error),
        },
{
    if is_absolute(link) {
        return Err(LinkError::Absolute);
    }
    let start: usize = match parent_path(entry) {
        Some(directory) => {
            let above = path_components(&directory);
            assert(components(directory@).len() == above@.len());
            above.len()
        },
        None => 0,
    };
    assert(start == entry_depth(entry@));
    let parts = path_components(link);
    let ghost model = components(link@);
    assert(model.len() == parts@.len());
    let mut climbed: usize = 0;
    let mut named: usize = 0;
    let mut i: usize = 0;
    while i < parts.len()
        invariant
            i <= parts@.len(),
            model == views(parts@),
            model == components(link@),
            !absolute(link@),
            start == entry_depth(entry@),
            named <= i,
            climbed <= i,
            climbed <= start + named,
            walk(model, entry_depth(entry@), 0) == walk(
                model,
                (start + named - climbed) as nat,
                i as int,
            ),
        decreases parts.len() - i,
    {
        assert(model[i as int] == parts@[i as int]@);
        match &parts[i] {
            Component::ParentDir => {
                if climbed >= named && climbed - named >= start {
                    return Err(LinkError::Escapes);
                }
                climbed += 1;
            },
            Component::Normal(_) => {
                named += 1;
            },
            Component::CurDir => {},
            Component::RootDir => {
                return Err(LinkError::Escapes);
            },
        }
        i += 1;
    }
    Ok(())
}

/// A link that is accepted stays inside the root on every part of its way: it
/// never climbs more often than it has gone down.
pub proof fn law_safe_links_stay_inside(entry: Seq<char>, link: Seq<char>, count: int)
    requires
        link_error(entry, link) is None,
        0 <= count <= components(link).len(),
    ensures
        walk(components(link).take(count), entry_depth(entry), 0) is Some,
{
    lemma_walk_prefix(components(link), entry_depth(entry), 0, count);
}

proof fn lemma_walk_prefix(parts: Seq<Component<Seq<char>>>, depth: nat, i: int, count: int)
    requires
        0 <= i <= count <= parts.len(),
        walk(parts, depth, i) is Some,
    ensures
        walk(parts.take(count), depth, i) is Some,
    decreases parts.len() - i,
{
    let shorter = parts.take(count);
    if i < count {
        assert(shorter[i] == parts[i]);
        match parts[i] {
            Component::ParentDir => {
                lemma_walk_prefix(parts, (depth - 1) as nat, i + 1, count);
            },
            Component::Normal(name) => {
                lemma_walk_prefix(parts, depth + 1, i + 1, count);
            },
            Component::CurDir => {
                lemma_walk_prefix(parts, depth, i + 1, count);
            },
            Component::RootDir => {},
        }
    }
}

/// An entry that is accepted stays below the root: none of its components
/// leads up or to another root.
pub proof fn law_safe_paths_stay_below(path: Seq<char>)
    requires
        stays_below(path),
    ensures
        walk(components(path), 0, 0) is Some,
{
    lemma_walk_down(components(path), 0, 0);
}

proof fn lemma_walk_down(parts: Seq<Component<Seq<char>>>, depth: nat, i: int)
    requires
        0 <= i <= parts.len(),
        forall|k: int|
            0 <= k < parts.len() ==> (#[trigger] parts[k]) is Normal || parts[k] is CurDir,
    ensures
        walk(parts, depth, i) is Some,
    decreases parts.len() - i,
{
    if i < parts.len() {
        assert(parts[i] is Normal || parts[i] is CurDir);
        if parts[i] is Normal {
            lemma_walk_down(parts, depth + 1, i + 1);
        } else {
            lemma_walk_down(parts, depth, i + 1);
        }
    }
}

// ---------------------------------------------------------------------------
// What holds of every archive
// ---------------------------------------------------------------------------
proof fn lemma_magic(header: Seq<u8>, magic: Seq<u8>)
    ensures
        begins_with(header, magic) <==> header.len() >= magic.len() && forall|i: int|
            0 <= i < magic.len() ==> header[i] == #[trigger] magic[i],
{
    if header.len() >= magic.len() {
        let front = header.take(magic.len() as int);
        if begins_with(header, magic) {
            assert forall|i: int| 0 <= i < magic.len() implies header[i] == #[trigger] magic[i] by {
                assert(front[i] == header[i]);
            }
        }
        if forall|i: int| 0 <= i < magic.len() ==> header[i] == #[trigger] magic[i] {
            assert(front =~= magic);
        }
    }
}

/// Whether a header begins with these four bytes.
pub open spec fn four_bytes(header: Seq<u8>, a: u8, b: u8, c: u8, d: u8) -> bool {
    header.len() >= 4 && header[0] == a && header[1] == b && header[2] == c && header[3] == d
}

/// Formats are told by the bytes that they begin with, and tar archives, which
/// begin with none, by their checksum.
pub proof fn law_formats_are_told_by_their_first_bytes(header: Seq<u8>)
    ensures
        format_of(header) == Some(ArchiveKind::Gzip) <==> header.len() >= 2 && header[0] == 0x1f
            && header[1] == 0x8b,
        format_of(header) == Some(ArchiveKind::Xz) <==> four_bytes(header, 0xfd, 0x37, 0x7a, 0x58)
            && header.len() >= 6 && header[4] == 0x5a && header[5] == 0,
        format_of(header) == Some(ArchiveKind::Zstd) <==> four_bytes(header, 0x28, 0xb5, 0x2f, 0xfd),
        format_of(header) == Some(ArchiveKind::Zip) <==> four_bytes(header, 0x50, 0x4b, 3, 4)
            || four_bytes(header, 0x50, 0x4b, 5, 6) || four_bytes(header, 0x50, 0x4b, 7, 8),
        format_of(header) == Some(ArchiveKind::Tar) ==> tar_header(header),
        tar_header(header) ==> format_of(header) is Some,
        ARCHIVE_HEADER_BYTES == 512,
{
    let gzip = seq![0x1fu8, 0x8b];
    let xz = seq![0xfdu8, 0x37, 0x7a, 0x58, 0x5a, 0x00];
    let zstd = seq![0x28u8, 0xb5, 0x2f, 0xfd];
    let zip_file = seq![0x50u8, 0x4b, 0x03, 0x04];
    let zip_empty = seq![0x50u8, 0x4b, 0x05, 0x06];
    let zip_spanned = seq![0x50u8, 0x4b, 0x07, 0x08];
    lemma_magic(header, gzip);
    lemma_magic(header, xz);
    lemma_magic(header, zstd);
    lemma_magic(header, zip_file);
    lemma_magic(header, zip_empty);
    lemma_magic(header, zip_spanned);
    assert(gzip[0] == 0x1f && gzip[1] == 0x8b);
    assert(xz[0] == 0xfd && xz[1] == 0x37 && xz[2] == 0x7a && xz[3] == 0x58 && xz[4] == 0x5a
        && xz[5] == 0);
    assert(zstd[0] == 0x28 && zstd[1] == 0xb5 && zstd[2] == 0x2f && zstd[3] == 0xfd);
    assert(zip_file[0] == 0x50 && zip_file[1] == 0x4b && zip_file[2] == 3 && zip_file[3] == 4);
    assert(zip_empty[0] == 0x50 && zip_empty[1] == 0x4b && zip_empty[2] == 5 && zip_empty[3] == 6);
    assert(zip_spanned[0] == 0x50 && zip_spanned[1] == 0x4b && zip_spanned[2] == 7
        && zip_spanned[3] == 8);
}

proof fn lemma_sum_of_update(header: Seq<u8>, i: int, byte: u8, count: int)
    requires
        0 <= i < header.len(),
        0 <= count <= header.len(),
    ensures
        header_sum(header.update(i, byte), count) - header_sum(header, count) == if i < count && !(
        148 <= i < 156) {
            byte - header[i]
        } else {
            0
        },
    decreases count,
{
    if count > 0 {
        lemma_sum_of_update(header, i, byte, count - 1);
    }
}

/// The checksum of a head grows with every byte of it, but for those of the
/// checksum itself, which count as eight spaces.
pub proof fn law_checksums_count_every_byte(header: Seq<u8>, i: int, byte: u8)
    requires
        header.len() >= 156,
        0 <= i < header.len(),
    ensures
        148 <= i < 156 ==> header_sum(header.update(i, byte), header.len() as int) == header_sum(
            header,
            header.len() as int,
        ),
        !(148 <= i < 156) ==> header_sum(header.update(i, byte), header.len() as int) == header_sum(
            header,
            header.len() as int,
        ) + byte - header[i],
        (forall|k: int| 0 <= k < header.len() ==> #[trigger] header[k] == 0) ==> header_sum(
            header,
            header.len() as int,
        ) == 256,
{
    lemma_sum_of_update(header, i, byte, header.len() as int);
    if forall|k: int| 0 <= k < header.len() ==> #[trigger] header[k] == 0 {
        lemma_empty_sum(header, header.len() as int);
    }
}

proof fn lemma_empty_sum(header: Seq<u8>, count: int)
    requires
        0 <= count <= header.len(),
        forall|k: int| 0 <= k < header.len() ==> #[trigger] header[k] == 0,
    ensures
        header_sum(header, count) == if count <= 148 {
            0
        } else if count >= 156 {
            256
        } else {
            32 * (count - 148)
        },
    decreases count,
{
    if count > 0 {
        lemma_empty_sum(header, count - 1);
        assert(header[count - 1] == 0);
    }
}

/// Whether a byte is an octal digit.
pub open spec fn octal_digit(byte: u8) -> bool {
    0x30 <= byte <= 0x37
}

proof fn lemma_six_digits(digits: Seq<u8>)
    requires
        digits.len() == 6,
        forall|i: int| 0 <= i < 6 ==> octal_digit(#[trigger] digits[i]),
    ensures
        octal_value(digits) == (digits[0] - 0x30) * 0o100000 + (digits[1] - 0x30) * 0o10000 + (
        digits[2] - 0x30) * 0o1000 + (digits[3] - 0x30) * 0o100 + (digits[4] - 0x30) * 0o10 + (
        digits[5] - 0x30),
{
    assert(octal_digit(digits[0]) && octal_digit(digits[1]) && octal_digit(digits[2])
        && octal_digit(digits[3]) && octal_digit(digits[4]) && octal_digit(digits[5]));
    let five = digits.drop_last();
    let four = five.drop_last();
    let three = four.drop_last();
    let two = three.drop_last();
    let one = two.drop_last();
    assert(one.drop_last() =~= Seq::<u8>::empty());
    reveal_with_fuel(octal_value, 2);
    assert(octal_value(one) == digits[0] - 0x30);
    assert(octal_value(two) == octal_value(one) * 8 + (digits[1] - 0x30));
    assert(octal_value(three) == octal_value(two) * 8 + (digits[2] - 0x30));
    assert(octal_value(four) == octal_value(three) * 8 + (digits[3] - 0x30));
    assert(octal_value(five) == octal_value(four) * 8 + (digits[4] - 0x30));
    assert(octal_value(digits) == octal_value(five) * 8 + (digits[5] - 0x30));
}

/// The field of a checksum as archives have it, six octal digits and padding,
/// is read by the places of its digits, and a head is one of a tar entry
/// exactly where its checksum says what it holds.
pub proof fn law_checksums_are_octal(header: Seq<u8>)
    requires
        header.len() >= 512,
        forall|i: int| 148 <= i < 154 ==> octal_digit(#[trigger] header[i]),
        padding(header[154]),
        padding(header[155]),
    ensures
        tar_header(header) <==> header_sum(header, header.len() as int) == (header[148] - 0x30)
            * 0o100000 + (header[149] - 0x30) * 0o10000 + (header[150] - 0x30) * 0o1000 + (
        header[151] - 0x30) * 0o100 + (header[152] - 0x30) * 0o10 + (header[153] - 0x30),
{
    let field = header.subrange(148, 156);
    let digits = header.subrange(148, 154);
    assert forall|i: int| 0 <= i < 6 implies octal_digit(#[trigger] digits[i]) by {
        assert(digits[i] == header[148 + i]);
    }
    assert(octal_digit(digits[0]) && octal_digit(digits[5]));
    assert(field[0] == digits[0]);
    assert(unpadded_start(field) == field);
    let shorter = field.drop_last();
    assert(field.last() == header[155]);
    assert(shorter.last() == header[154]);
    assert(shorter.drop_last() =~= digits);
    assert(unpadded_end(digits) == digits);
    assert(unpadded_end(shorter) == digits);
    assert(unpadded_end(field) == digits);
    assert(octal_digits(digits) == digits);
    lemma_six_digits(digits);
}

proof fn lemma_unpadded_end(field: Seq<u8>, pad: u8)
    requires
        padding(pad),
    ensures
        unpadded_end(unpadded_start(field.push(pad))) == unpadded_end(unpadded_start(field)),
    decreases field.len(),
{
    let longer = field.push(pad);
    if field.len() == 0 {
        assert(longer.skip(1) =~= field);
    } else if padding(field[0]) {
        lemma_unpadded_end(field.skip(1), pad);
        assert(longer.skip(1) =~= field.skip(1).push(pad));
        assert(longer[0] == field[0]);
    } else {
        assert(longer[0] == field[0]);
        assert(longer.drop_last() =~= field);
    }
}

/// Spaces and zero bytes round a number do not count, nor does a plus sign in
/// front of its digits; anything else that is no digit makes it none.
pub proof fn law_numbers_may_be_padded(field: Seq<u8>, pad: u8, k: int)
    ensures
        pad == 0 || pad == 0x20 ==> octal_field(seq![pad] + field) == octal_field(field)
            && octal_field(field.push(pad)) == octal_field(field),
        field.len() > 0 && octal_digit(field[0]) && octal_digit(field.last()) ==> octal_field(
            seq![0x2bu8] + field,
        ) == octal_field(field),
        0 < k < field.len() && !octal_digit(field[k]) && !padding(field[0]) && !padding(field.last())
            ==> octal_field(field) is None,
        (forall|i: int| 0 <= i < field.len() ==> padding(#[trigger] field[i])) ==> octal_field(field)
            is None,
{
    if padding(pad) {
        assert((seq![pad] + field).skip(1) =~= field);
        lemma_unpadded_end(field, pad);
    }
    if field.len() > 0 && octal_digit(field[0]) && octal_digit(field.last()) {
        let signed = seq![0x2bu8] + field;
        assert(signed.last() == field.last());
        assert(unpadded_end(unpadded_start(signed)) == signed);
        assert(signed.skip(1) =~= field);
    }
    if 0 < k < field.len() && !octal_digit(field[k]) && !padding(field[0]) && !padding(
        field.last(),
    ) {
        assert(unpadded_end(unpadded_start(field)) == field);
        let digits = octal_digits(field);
        if field[0] == 0x2b {
            assert(digits[k - 1] == field[k]);
        } else {
            assert(digits[k] == field[k]);
        }
    }
    if forall|i: int| 0 <= i < field.len() ==> padding(#[trigger] field[i]) {
        lemma_only_padding(field);
    }
}

proof fn lemma_only_padding(field: Seq<u8>)
    requires
        forall|i: int| 0 <= i < field.len() ==> padding(#[trigger] field[i]),
    ensures
        unpadded_start(field).len() == 0,
    decreases field.len(),
{
    if field.len() > 0 {
        assert(padding(field[0]));
        let rest = field.skip(1);
        assert forall|i: int| 0 <= i < rest.len() implies padding(#[trigger] rest[i]) by {
            assert(rest[i] == field[i + 1]);
        }
        lemma_only_padding(rest);
    }
}

/// Files, directories and links are unpacked from tar archives, and nothing
/// else is.
pub proof fn law_plain_tar_entries_are_unpacked(flag: u8)
    ensures
        unpacked(flag) <==> flag == 0 || flag == '0' as u8 || flag == '1' as u8 || flag == '2' as u8
            || flag == '5' as u8 || flag == '7' as u8 || flag == 'S' as u8,
{
}

/// Entries of ZIP archives are told by the upper bits of their mode, and keep
/// the lower ones as permissions. One without a mode gets the usual ones.
pub proof fn law_zip_entries_keep_their_permissions(mode: u32, directory: bool)
    ensures
        ({
            let meaning = zip_meaning(Some(mode), directory);
            let kind = (mode >> 12) & 0xf;
            &&& directory ==> meaning == ZipEntry::Directory(mode % 0o10000)
            &&& !directory && kind == 0xa ==> meaning == ZipEntry::Symlink
            &&& !directory && (kind == 0 || kind == 8) ==> meaning == ZipEntry::File(
                mode % 0o10000,
            )
            &&& !directory && kind != 0xa && kind != 0 && kind != 8 ==> meaning == ZipEntry::Special
        }),
        zip_meaning(None, true) == ZipEntry::Directory(0o755),
        zip_meaning(None, false) == ZipEntry::File(0o644),
{
    assert(mode & 0o7777 == mode % 0o10000) by (bit_vector);
    assert((mode & 0o170_000 == 0o120_000) == ((mode >> 12) & 0xf == 0xa)) by (bit_vector);
    assert((mode & 0o170_000 == 0) == ((mode >> 12) & 0xf == 0)) by (bit_vector);
    assert((mode & 0o170_000 == 0o100_000) == ((mode >> 12) & 0xf == 8)) by (bit_vector);
    assert(0o755u32 & 0o7777 == 0o755 && 0o644u32 & 0o7777 == 0o644 && 0o644u32 & 0o170_000 == 0)
        by (bit_vector);
}

proof fn lemma_names_joined(a: Seq<Component<Seq<char>>>, b: Seq<Component<Seq<char>>>)
    ensures
        names_of(a + b) == names_of(a) + names_of(b),
    decreases b.len(),
{
    if b.len() == 0 {
        assert(a + b =~= a);
        assert(names_of(a) + names_of(b) =~= names_of(a));
    } else {
        lemma_names_joined(a, b.drop_last());
        assert((a + b).drop_last() =~= a + b.drop_last());
        assert((a + b).last() == b.last());
        if b.last() is Normal {
            assert(names_of(a + b) =~= names_of(a) + names_of(b));
        }
    }
}

/// Every name on the way to an entry is looked at, in order and with all that
/// comes before it.
pub proof fn law_every_name_on_the_way_is_looked_at(root: Seq<char>, relative: Seq<char>, k: int)
    requires
        0 <= k < components(relative).len(),
        components(relative)[k] is Normal,
    ensures
        exists|i: int|
            #![trigger entry_paths(root, relative)[i]]
            0 <= i < entry_paths(root, relative).len() && entry_paths(root, relative)[i] == join(
                if i == 0 {
                    root
                } else {
                    entry_paths(root, relative)[i - 1]
                },
                components(relative)[k]->Normal_0,
            ),
{
    let parts = components(relative);
    let i = lemma_name_place(parts, k);
    let names = names_of(parts);
    let paths = entry_paths(root, relative);
    assert(paths.len() == names.len());
    assert(paths[i] == path_along(root, names, i + 1));
    lemma_way_begins(root, names);
    if i > 0 {
        assert(paths[i - 1] == path_along(root, names, i));
    }
}

proof fn lemma_way_begins(root: Seq<char>, parts: Seq<Component<Seq<char>>>)
    ensures
        path_along(root, parts, 0) == root,
{
}

proof fn lemma_name_place(parts: Seq<Component<Seq<char>>>, k: int) -> (i: int)
    requires
        0 <= k < parts.len(),
        parts[k] is Normal,
    ensures
        0 <= i < names_of(parts).len(),
        names_of(parts)[i] == parts[k],
{
    let front = parts.take(k);
    let back = parts.skip(k + 1);
    let one = seq![parts[k]];
    assert(parts =~= front + one + back);
    lemma_names_joined(front + one, back);
    lemma_names_joined(front, one);
    assert(names_of(one) =~= one) by {
        assert(one.drop_last() =~= Seq::<Component<Seq<char>>>::empty());
        reveal_with_fuel(names_of, 2);
    }
    names_of(front).len() as int
}

/// A path stays below its directory exactly where it names neither a root nor
/// a directory above.
pub proof fn law_unsafe_paths_are_refused(path: Seq<char>)
    ensures
        stays_below(path) <==> !(path.len() > 0 && path[0] == '/') && !components(path).contains(
            Component::ParentDir,
        ) && !components(path).contains(Component::RootDir),
        forall|kinds: Seq<NodeKind>|
            #![trigger entry_error(path, kinds)]
            (entry_error(path, kinds) is None <==> stays_below(path) && symlink_error(kinds, 0)
                is None) && (entry_error(path, kinds) == Some(EntryError::Path) <==> !stays_below(
                path,
            )),
{
    let parts = components(path);
    if stays_below(path) {
        if parts.contains(Component::ParentDir) {
            let i = choose|i: int| 0 <= i < parts.len() && parts[i] == Component::<Seq<char>>::ParentDir;
            assert(parts[i] is Normal || parts[i] is CurDir);
        }
        if parts.contains(Component::RootDir) {
            let i = choose|i: int| 0 <= i < parts.len() && parts[i] == Component::<Seq<char>>::RootDir;
            assert(parts[i] is Normal || parts[i] is CurDir);
        }
    }
    if !parts.contains(Component::ParentDir) && !parts.contains(Component::RootDir) {
        assert forall|i: int| 0 <= i < parts.len() implies (#[trigger] parts[i]) is Normal
            || parts[i] is CurDir by {
            assert(parts.contains(parts[i]));
        }
    }
}

/// How far below its start the first `count` components of a way lead.
pub open spec fn descent(parts: Seq<Component<Seq<char>>>, count: int) -> int
    decreases count,
{
    if count <= 0 {
        0
    } else {
        descent(parts, count - 1) + if parts[count - 1] is Normal {
            1int
        } else if parts[count - 1] is ParentDir {
            -1
        } else {
            0
        }
    }
}

proof fn lemma_walk_descent(parts: Seq<Component<Seq<char>>>, start: nat, i: int)
    requires
        0 <= i <= parts.len(),
        start + descent(parts, i) >= 0,
    ensures
        walk(parts, (start + descent(parts, i)) as nat, i) is Some <==> forall|k: int|
            i <= k < parts.len() ==> start + #[trigger] descent(parts, k + 1) >= 0
                && parts[k] != Component::<Seq<char>>::RootDir,
    decreases parts.len() - i,
{
    if i < parts.len() {
        let depth = (start + descent(parts, i)) as nat;
        let next = descent(parts, i + 1);
        if parts[i] is RootDir {
            assert(walk(parts, depth, i) is None);
            assert(!(start + descent(parts, i + 1) >= 0 && parts[i]
                != Component::<Seq<char>>::RootDir));
        } else if start + next < 0 {
            assert(parts[i] is ParentDir && depth == 0);
        } else {
            lemma_walk_descent(parts, start, i + 1);
            assert(walk(parts, depth, i) == walk(parts, (start + next) as nat, i + 1));
            if walk(parts, depth, i) is Some {
                assert forall|k: int| i <= k < parts.len() implies start + #[trigger] descent(
                    parts,
                    k + 1,
                ) >= 0 && parts[k] != Component::<Seq<char>>::RootDir by {
                    if k > i {
                        assert(i + 1 <= k < parts.len());
                    }
                }
            }
        }
    }
}

/// A link is refused exactly where it is absolute or, somewhere on its way,
/// leads above the root; it starts in the directory of its entry.
pub proof fn law_escaping_links_are_refused(directory: Seq<char>, name: Seq<char>, link: Seq<char>)
    requires
        directory.len() > 0,
        directory.last() != '/',
        directory.last() != '.',
        plain_name(name),
        link.len() > 0,
        link[0] != '/',
        !components(link).contains(Component::RootDir),
    ensures
        link_error(join(directory, name), link) == Some(LinkError::Escapes) <==> exists|k: int|
            0 < k <= components(link).len() && components(directory).len() + #[trigger] descent(
                components(link),
                k,
            ) < 0,
        link_error(join(directory, name), link) != Some(LinkError::Absolute),
        link_error(join(directory, name), seq!['/'] + link) == Some(LinkError::Absolute),
{
    law_parent_of_a_joined_path(directory, name);
    let entry = join(directory, name);
    let parts = components(link);
    let start = components(directory).len();
    lemma_walk_descent(parts, start, 0);
    assert((start + descent(parts, 0)) as nat == start);
    if walk(parts, start, 0) is None {
        let k = choose|k: int|
            0 <= k < parts.len() && !(start + #[trigger] descent(parts, k + 1) >= 0 && parts[k]
                != Component::<Seq<char>>::RootDir);
        assert(parts.contains(parts[k]));
        assert(start + descent(parts, k + 1) < 0);
    }
    if exists|k: int|
        0 < k <= components(link).len() && components(directory).len() + #[trigger] descent(
            components(link),
            k,
        ) < 0 {
        let k = choose|k: int| 0 < k <= parts.len() && start + #[trigger] descent(parts, k) < 0;
        assert(descent(parts, (k - 1) + 1) == descent(parts, k));
        if walk(parts, start, 0) is Some {
            assert(0 <= k - 1 < parts.len());
        }
    }
    assert((seq!['/'] + link)[0] == '/');
}

} // verus!
