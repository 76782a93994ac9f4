//! Paths, as texts. What separates the parts of a path, and when a path is
//! absolute, is up to the host; the calls that ask it are kept here.
//!
//! A host reads a path in one of two ways. Either slashes alone separate, and
//! there are no drives; or slashes and backslashes separate, and a letter and
//! a colon at the start are a drive. A path that starts with two separators
//! may name a share or a device on a host with drives, and is left out of the
//! second reading.
#![verifier::loop_isolation(false)]

use crate::case::{ascii_lower, ascii_lowercase, to_ascii_lowercase};
use crate::sorting::key_less;
use crate::split::{after_last, position_of, rsplit_after, split_on};
use crate::text::{ends_char, has_prefix, has_suffix, owned, starts_char};
use vstd::prelude::*;
use vstd::string::*;

verus! {

/// Whether every host reads a path in the same way: it holds no backslash and
/// no colon, and does not start with two slashes.
pub open spec fn portable(path: Seq<char>) -> bool {
    &&& !path.contains('\\')
    &&& !path.contains(':')
    &&& !has_prefix(path, seq!['/', '/'])
}

/// The pieces of a path that count: an empty piece and a dot do not.
pub open spec fn kept_pieces(pieces: Seq<Seq<char>>) -> Seq<Seq<char>>
    decreases pieces.len(),
{
    if pieces.len() == 0 {
        Seq::empty()
    } else {
        let before = kept_pieces(pieces.drop_last());
        if pieces.last().len() == 0 || pieces.last() == seq!['.'] {
            before
        } else {
            before.push(pieces.last())
        }
    }
}

/// The components of a portable path: a slash for the root or a dot for the
/// current directory where it starts with one, and the pieces that count.
pub open spec fn path_parts(path: Seq<char>) -> Seq<Seq<char>> {
    let pieces = split_on(path, '/');
    let kept = kept_pieces(pieces);
    if starts_char(path, '/') {
        seq![seq!['/']] + kept
    } else if pieces[0] == seq!['.'] {
        seq![seq!['.']] + kept
    } else {
        kept
    }
}

/// The file name in a portable path: its last component, if that is a name.
pub open spec fn final_name(path: Seq<char>) -> Option<Seq<char>> {
    let parts = path_parts(path);
    if parts.len() == 0 || parts.last() == seq!['/'] || parts.last() == seq!['.'] || parts.last()
        == seq!['.', '.'] {
        None
    } else {
        Some(parts.last())
    }
}

/// Whether a character separates components on some host.
pub open spec fn separator(c: char) -> bool {
    c == '/' || c == '\\'
}

/// Whether a path starts with a separator of some host.
pub open spec fn rooted(path: Seq<char>) -> bool {
    path.len() > 0 && separator(path[0])
}

/// Whether a path starts with two separators.
pub open spec fn double_start(path: Seq<char>) -> bool {
    path.len() > 1 && separator(path[0]) && separator(path[1])
}

/// Whether a path starts with a drive: a letter and a colon.
pub open spec fn has_drive(path: Seq<char>) -> bool {
    path.len() > 1 && path[1] == ':' && 'a' <= ascii_lower(path[0]) && ascii_lower(path[0]) <= 'z'
}

/// The drive that a path starts with, or nothing.
pub open spec fn drive_of(path: Seq<char>) -> Seq<char> {
    if has_drive(path) {
        path.take(2)
    } else {
        Seq::empty()
    }
}

/// What follows the drive of a path, with slashes for backslashes.
pub open spec fn behind_drive(path: Seq<char>) -> Seq<char> {
    path.skip(drive_of(path).len() as int).map_values(
        |c: char|
            if c == '\\' {
                '/'
            } else {
                c
            },
    )
}

/// A name, or nothing where there is none.
pub open spec fn name_or_nothing(name: Option<Seq<char>>) -> Seq<char> {
    match name {
        Some(name) => name,
        None => Seq::empty(),
    }
}

/// Whether a text is the file name that a host sees in a path, empty where it
/// sees none, in one of the two readings.
pub open spec fn names(path: Seq<char>, name: Seq<char>) -> bool {
    !double_start(path) ==> name == name_or_nothing(final_name(path)) || name == name_or_nothing(
        final_name(behind_drive(path)),
    )
}

/// Whether components have a parent: there are some, and not just the root.
pub open spec fn have_parent(parts: Seq<Seq<char>>) -> bool {
    parts.len() > 0 && parts != seq![seq!['/']]
}

/// Whether a path is what a host without drives sees in front of the last
/// component, if there is one.
pub open spec fn slash_parent(path: Seq<char>, parent: Option<Seq<char>>) -> bool {
    let parts = path_parts(path);
    match parent {
        Some(parent) => have_parent(parts) && path_parts(parent) == parts.drop_last(),
        None => !have_parent(parts),
    }
}

/// Whether a path is what a host with drives sees in front of the last
/// component, if there is one.
pub open spec fn drive_parent(path: Seq<char>, parent: Option<Seq<char>>) -> bool {
    let parts = path_parts(behind_drive(path));
    match parent {
        Some(parent) => have_parent(parts) && drive_of(parent) == drive_of(path) && path_parts(
            behind_drive(parent),
        ) == parts.drop_last(),
        None => !have_parent(parts),
    }
}

/// Whether a path is what a host sees in front of the last component, if
/// there is one: a shorter start of the path, in one of the two readings.
pub open spec fn is_parent(path: Seq<char>, parent: Option<Seq<char>>) -> bool {
    &&& parent matches Some(parent) ==> parent.len() < path.len() && has_prefix(path, parent)
    &&& !double_start(path) ==> slash_parent(path, parent) || drive_parent(path, parent)
}

/// Whether a path is absolute on a host with drives.
pub open spec fn drive_absolute(path: Seq<char>) -> bool {
    has_drive(path) && path.len() > 2 && separator(path[2])
}

/// Whether a host may take a path for absolute, or not, as `r` says.
pub open spec fn absolute_as(path: Seq<char>, r: bool) -> bool {
    !double_start(path) ==> r == starts_char(path, '/') || r == drive_absolute(path)
}

/// A path with its drive, if it starts with one, in lower case.
pub open spec fn plain_drive(path: Seq<char>) -> Seq<char> {
    if has_drive(path) {
        path.update(0, ascii_lower(path[0]))
    } else {
        path
    }
}

/// The pieces of a path between separators of any host, without empty ones
/// and dots; the case of a drive at the start of a piece does not count.
pub open spec fn loose_pieces(path: Seq<char>) -> Seq<Seq<char>>
    decreases path.len(),
{
    let slash = position_of(path, '/');
    let backslash = position_of(path, '\\');
    let end = if slash < backslash {
        slash
    } else {
        backslash
    };
    let piece = if end < path.len() {
        path.take(end as int)
    } else {
        path
    };
    let first = if piece.len() == 0 || piece == seq!['.'] {
        Seq::empty()
    } else {
        seq![plain_drive(piece)]
    };
    if end < path.len() {
        first + loose_pieces(path.skip(end as int + 1))
    } else {
        first
    }
}

/// What a component of a portable path comes after: the root is first, then
/// come the current directory, the parent and the names.
pub open spec fn part_rank(part: Seq<char>) -> u64 {
    if part == seq!['/'] {
        1
    } else if part == seq!['.'] {
        2
    } else if part == seq!['.', '.'] {
        3
    } else {
        4
    }
}

/// The key that portable paths are ordered by: for each component its rank
/// and its characters, each of them larger than any rank.
pub open spec fn path_key(path: Seq<char>) -> Seq<u64> {
    parts_key(path_parts(path))
}

/// The key of components.
pub open spec fn parts_key(parts: Seq<Seq<char>>) -> Seq<u64>
    decreases parts.len(),
{
    if parts.len() == 0 {
        Seq::empty()
    } else {
        parts_key(parts.drop_last()) + seq![part_rank(parts.last())] + parts.last().map_values(
            |c: char| (c as u64 + 5) as u64,
        )
    }
}

/// The components of a path on a host with drives: its drive, whose case does
/// not count, and those behind it.
pub open spec fn drive_parts(path: Seq<char>) -> Seq<Seq<char>> {
    if has_drive(path) {
        seq![ascii_lowercase(drive_of(path))] + path_parts(behind_drive(path))
    } else {
        path_parts(behind_drive(path))
    }
}

/// The key that paths are ordered by on a host with drives: a drive comes
/// before any other component.
pub open spec fn drive_key(path: Seq<char>) -> Seq<u64> {
    if has_drive(path) {
        seq![0u64, ascii_lower(path[0]) as u64] + parts_key(path_parts(behind_drive(path)))
    } else {
        parts_key(path_parts(behind_drive(path)))
    }
}

/// Whether the two readings agree on whether two paths are the same.
pub open spec fn seen_alike(a: Seq<char>, b: Seq<char>) -> bool {
    &&& !double_start(a) && !double_start(b)
    &&& path_parts(a) == path_parts(b) <==> drive_parts(a) == drive_parts(b)
}

/// Whether the two readings agree on how two paths are ordered.
pub open spec fn ordered_alike(a: Seq<char>, b: Seq<char>) -> bool {
    &&& seen_alike(a, b)
    &&& key_less(path_key(a), path_key(b)) <==> key_less(drive_key(a), drive_key(b))
    &&& key_less(path_key(b), path_key(a)) <==> key_less(drive_key(b), drive_key(a))
}

/// How two paths are ordered.
#[derive(Debug, Clone, Copy, PartialEq, Eq, Structural)]
pub enum PathOrder {
    Less,
    Equal,
    Greater,
}

/// Whether paths with the given keys are ordered as `r` says, where `same`
/// tells whether they are the same.
pub open spec fn in_order(a: Seq<u64>, b: Seq<u64>, same: bool, r: PathOrder) -> bool {
    &&& r is Less <==> key_less(a, b)
    &&& r is Greater <==> key_less(b, a)
    &&& r is Equal <==> same
}

/// A path seen from a base, on a host without drives.
pub open spec fn slash_join(base: Seq<char>, path: Seq<char>) -> Seq<char> {
    if starts_char(path, '/') {
        path
    } else if base.len() == 0 || ends_char(base, '/') {
        base + path
    } else {
        base + seq!['/'] + path
    }
}

/// A path seen from a base, on a host with drives.
pub open spec fn drive_join(base: Seq<char>, path: Seq<char>) -> Seq<char> {
    if has_drive(path) {
        path
    } else if rooted(path) {
        drive_of(base) + path
    } else if base.len() == 0 || separator(base.last()) || base == drive_of(base) {
        base + path
    } else {
        base + seq!['\\'] + path
    }
}

/// Whether it is told how a path is seen from a base: not where the base is
/// verbatim and the path has no drive, and not where the base may be a share
/// and the path starts at its root.
pub open spec fn plain_join(base: Seq<char>, path: Seq<char>) -> bool {
    if has_prefix(base, "\\\\?\\"@) {
        has_drive(path)
    } else {
        !double_start(base) || !rooted(path)
    }
}

/// Whether a path is what a host makes of another one seen from a base, in
/// one of the two readings: it ends with that path, and is that path where it
/// may name a share and nothing else is made of it.
pub open spec fn joins(base: Seq<char>, path: Seq<char>, r: Seq<char>) -> bool {
    &&& !has_prefix(base, "\\\\?\\"@) ==> has_suffix(r, path)
    &&& plain_join(base, path) ==> r == slash_join(base, path) || r == drive_join(base, path) || (
    double_start(path) && r == path)
}

/// Calls `std::path::Path::file_name`. Which characters separate components
/// is up to the host. Claimed: in one of the two readings, the last component
/// is given if it is a name. Nothing is claimed of a path that starts with
/// two separators.
#[verifier::external_body]
pub(crate) fn file_name(path: &str) -> (r: Option<String>)
    ensures
        !double_start(path@) ==> r.deep_view() == final_name(path@) || r.deep_view() == final_name(
            behind_drive(path@),
        ),
{
    std::path::Path::new(path).file_name().and_then(|name| name.to_str()).map(str::to_owned)
}

/// Calls `std::path::Path::parent`. Which characters separate components is
/// up to the host. Claimed: a parent is a shorter start of the path. In one
/// of the two readings it has all components but the last, and there is none
/// where there are no components, or only a drive or the root; this is not
/// claimed of a path that starts with two separators.
#[verifier::external_body]
pub(crate) fn parent(path: &str) -> (r: Option<String>)
    ensures
        is_parent(path@, r.deep_view()),
{
    std::path::Path::new(path).parent().map(|parent| parent.to_string_lossy().into_owned())
}

/// Calls `std::path::Path::is_absolute`, which is up to the host. Claimed: in
/// one of the two readings, a path is absolute where it starts with a slash,
/// or with a drive and a separator. Nothing is claimed of a path that starts
/// with two separators.
#[verifier::external_body]
pub(crate) fn is_absolute(path: &str) -> (r: bool)
    ensures
        absolute_as(path@, r),
{
    std::path::Path::new(path).is_absolute()
}

/// Calls `std::path::Path::join`, which is up to the host. Claimed: unless
/// the first path is verbatim, the result ends with the second. In one of the
/// two readings it is the second path where that starts at a root or with a
/// drive, below the drive of the first where it has none of its own, and else
/// the first, a separator unless the first needs none, and the second.
/// Nothing more is claimed where the first path is verbatim and the second
/// has no drive, or where the first starts with two separators and the second
/// with one.
#[verifier::external_body]
pub(crate) fn join_path(base: &str, path: &str) -> (r: String)
    ensures
        joins(base@, path@, r@),
{
    std::path::Path::new(base).join(path).to_string_lossy().into_owned()
}

/// A path where it is absolute, else what it is when seen from elsewhere, if
/// that is known.
pub fn resolved_path(path: &str, absolute: bool, joined: Option<String>) -> (r: Option<String>)
    ensures
        r.deep_view() == if absolute {
            Some(path@)
        } else {
            joined.deep_view()
        },
{
    if absolute {
        Some(owned(path))
    } else {
        joined
    }
}

/// What a path is when seen from a base, if there is one. Without one there is
/// a result only for a path that the host takes for absolute, and it is the
/// path.
pub open spec fn resolves_to(
    path: Seq<char>,
    base: Option<Seq<char>>,
    resolved: Option<Seq<char>>,
) -> bool {
    match base {
        Some(base) => resolved matches Some(text) && joins(base, path, text),
        None => {
            &&& resolved matches Some(text) ==> text == path
            &&& absolute_as(path, resolved is Some)
        },
    }
}

proof fn lemma_absolute_joins(base: Seq<char>, path: Seq<char>)
    requires
        absolute_as(path, true),
    ensures
        joins(base, path, path),
{
    assert(path.subrange(path.len() - path.len(), path.len() as int) =~= path);
}

/// A path seen from a base, if there is one.
pub fn resolve_path(path: &str, base: Option<&str>) -> (r: Option<String>)
    ensures
        resolves_to(path@, base.deep_view(), r.deep_view()),
{
    let absolute = is_absolute(path);
    let joined = match base {
        Some(base) => {
            proof {
                if absolute {
                    lemma_absolute_joins(base@, path@);
                }
            }
            if absolute {
                None
            } else {
                Some(join_path(base, path))
            }
        },
        None => None,
    };
    resolved_path(path, absolute, joined)
}

/// Calls `==` of `std::path::Path`, which compares by components and is up to
/// the host. Claimed: equal texts are equal paths, equal paths have the same
/// pieces up to the case of a drive, and in one of the two readings paths are
/// equal where their components are. The last is not claimed of paths that
/// start with two separators.
#[verifier::external_body]
pub(crate) fn same_path(a: &str, b: &str) -> (r: bool)
    ensures
        a@ == b@ ==> r,
        r ==> loose_pieces(a@) == loose_pieces(b@),
        !double_start(a@) && !double_start(b@) ==> r == (path_parts(a@) == path_parts(b@)) || r == (
        drive_parts(a@) == drive_parts(b@)),
{
    std::path::Path::new(a) == std::path::Path::new(b)
}

/// Calls the ordering of `std::path::Path`, which goes by components and is
/// up to the host. Claimed: equal texts are equal, equal paths have the same
/// pieces up to the case of a drive, and in one of the two readings paths are
/// ordered component by component. The last is not claimed of paths that
/// start with two separators.
#[verifier::external_body]
pub(crate) fn order_paths(a: &str, b: &str) -> (r: PathOrder)
    ensures
        a@ == b@ ==> r is Equal,
        r is Equal ==> loose_pieces(a@) == loose_pieces(b@),
        !double_start(a@) && !double_start(b@) ==> in_order(
            path_key(a@),
            path_key(b@),
            path_parts(a@) == path_parts(b@),
            r,
        ) || in_order(drive_key(a@), drive_key(b@), drive_parts(a@) == drive_parts(b@), r),
{
    match std::path::Path::new(a).cmp(std::path::Path::new(b)) {
        std::cmp::Ordering::Less => PathOrder::Less,
        std::cmp::Ordering::Equal => PathOrder::Equal,
        std::cmp::Ordering::Greater => PathOrder::Greater,
    }
}

/// The name of the file at `path`, or an empty name.
pub fn name_of(path: &str) -> (r: String)
    ensures
        names(path@, r@),
{
    match file_name(path) {
        Some(name) => name,
        None => {
            let none = String::new();
            assert(none@ =~= Seq::<char>::empty());
            none
        },
    }
}

/// A portable path is the same in both readings, so that its file name does
/// not depend on the host.
pub proof fn law_portable_name(path: Seq<char>, name: Seq<char>)
    requires
        portable(path),
        names(path, name),
    ensures
        name == name_or_nothing(final_name(path)),
{
    lemma_portable_readings(path);
}

proof fn lemma_portable_readings(path: Seq<char>)
    requires
        portable(path),
    ensures
        !double_start(path),
        !has_drive(path),
        behind_drive(path) == path,
{
    if path.len() > 1 {
        assert(path.contains(path[0]));
        assert(path.contains(path[1]));
        if path[0] == '/' && path[1] == '/' {
            assert(path.subrange(0, 2) =~= seq!['/', '/']);
        }
    }
    assert forall|i: int| 0 <= i < path.len() implies path[i] != '\\' by {
        assert(path.contains(path[i]));
    }
    assert(behind_drive(path) =~= path);
}

/// Portable paths are ordered in the same way on every host.
pub proof fn law_portable_order(a: Seq<char>, b: Seq<char>)
    requires
        portable(a),
        portable(b),
    ensures
        ordered_alike(a, b),
{
    lemma_portable_readings(a);
    lemma_portable_readings(b);
}

/// The parent of a portable path does not depend on the host either, but for
/// how it is written.
pub proof fn law_portable_parent(path: Seq<char>, parent: Option<Seq<char>>)
    requires
        portable(path),
        is_parent(path, parent),
    ensures
        slash_parent(path, parent),
{
    lemma_portable_readings(path);
    if let Some(text) = parent {
        assert forall|i: int| 0 <= i < text.len() implies text[i] == path[i] by {
            assert(path.subrange(0, text.len() as int)[i] == path[i]);
        }
        assert forall|c: char| text.contains(c) implies path.contains(c) by {
            let i = text.index_of(c);
            assert(path[i] == c);
        }
        if has_prefix(text, seq!['/', '/']) {
            assert(text.subrange(0, 2)[0] == '/' && text.subrange(0, 2)[1] == '/');
            assert(path.subrange(0, 2) =~= seq!['/', '/']);
        }
        lemma_portable_readings(text);
    }
}

/// A path without separators and drives that does not stand for a directory
/// or its parent is its own file name, on every host.
pub proof fn law_single_name(path: Seq<char>)
    requires
        path.len() > 0,
        !path.contains('/'),
        !path.contains('\\'),
        !path.contains(':'),
        path != seq!['.'],
        path != seq!['.', '.'],
    ensures
        portable(path),
        final_name(path) == Some(path),
{
    if has_prefix(path, seq!['/', '/']) {
        assert(path.subrange(0, 2)[0] == '/');
        assert(path.contains(path[0]));
    }
    if starts_char(path, '/') {
        assert(path.contains(path[0]));
    }
    lemma_one_piece(path);
    let pieces = split_on(path, '/');
    assert(pieces =~= seq![path]);
    assert(pieces.drop_last() =~= Seq::<Seq<char>>::empty());
    assert(kept_pieces(pieces.drop_last()) =~= Seq::<Seq<char>>::empty());
    assert(kept_pieces(pieces) =~= seq![path]);
}

proof fn lemma_one_piece(path: Seq<char>)
    requires
        !path.contains('/'),
    ensures
        split_on(path, '/') == seq![path],
{
    lemma_no_position(path);
}

proof fn lemma_no_position(s: Seq<char>)
    requires
        !s.contains('/'),
    ensures
        position_of(s, '/') == s.len(),
    decreases s.len(),
{
    if s.len() > 0 {
        assert(s.contains(s[0]));
        assert forall|i: int| 0 <= i < s.skip(1).len() implies s.skip(1)[i] != '/' by {
            assert(s.skip(1)[i] == s[i + 1]);
            assert(s.contains(s[i + 1]));
        }
        lemma_no_position(s.skip(1));
    }
}

/// The extension in a file name: what follows the last dot, unless that dot
/// is the first character.
pub open spec fn extension_in(name: Seq<char>) -> Option<Seq<char>> {
    match after_last(name, '.') {
        Some(rest) => if rest.len() + 1 < name.len() {
            Some(rest)
        } else {
            None
        },
        None => None,
    }
}

/// The extension in a file name, in ASCII lower case.
pub open spec fn lower_extension(name: Seq<char>) -> Option<Seq<char>> {
    match extension_in(name) {
        Some(extension) => Some(ascii_lowercase(extension)),
        None => None,
    }
}

/// The extension in a file name.
pub fn extension(name: &str) -> (r: Option<String>)
    ensures
        r.deep_view() == extension_in(name@),
{
    match rsplit_after(name, '.') {
        Some(rest) => {
            // The name is longer than its last part and the dot before it
            // exactly where something stands before the dot.
            let tail = rest.as_str().unicode_len();
            let whole = name.unicode_len();
            if tail < whole && whole - tail > 1 {
                Some(rest)
            } else {
                None
            }
        },
        None => None,
    }
}

/// The extension in a file name, in ASCII lower case.
pub fn lowercase_extension(name: &str) -> (r: Option<String>)
    ensures
        r.deep_view() == lower_extension(name@),
{
    match extension(name) {
        Some(extension) => Some(to_ascii_lowercase(extension.as_str())),
        None => None,
    }
}

} // verus!
