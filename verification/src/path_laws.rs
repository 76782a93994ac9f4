//! What holds of all paths: how they fall into parts, how they are joined and
//! what their extensions are.
use crate::paths::{
    drive_absolute, drive_join, drive_of, extension_in, final_name, kept_pieces, loose_pieces,
    lower_extension, path_parts, slash_join, slash_parent,
};
use crate::record_laws::lemma_after_dot;
use crate::split::{position_of, split_on};
use crate::text_laws::{law_split, lemma_no_position, lemma_position_behind};
use vstd::prelude::*;

verus! {

/// Whether a text is the name of a file: not empty, without separators, and
/// none of the names of directories.
pub open spec fn file_name(name: Seq<char>) -> bool {
    name.len() > 0 && !name.contains('/') && !name.contains('\\') && !name.contains(':') && name
        != seq!['.'] && name != seq!['.', '.']
}

proof fn lemma_split_end(dir: Seq<char>, last: Seq<char>)
    requires
        !last.contains('/'),
    ensures
        split_on(dir + seq!['/'] + last, '/') == split_on(dir, '/').push(last),
    decreases dir.len(),
{
    let s = dir + seq!['/'] + last;
    let p = position_of(dir, '/');
    if !dir.contains('/') {
        law_split(dir, '/', last);
        law_split(last, '/', last);
        assert(seq![dir] + seq![last] =~= seq![dir].push(last));
    } else {
        let k = dir.index_of_first('/')->0;
        dir.index_of_first_ensures('/');
        let a = dir.take(k);
        let b = dir.skip(k + 1);
        assert(dir =~= a + seq!['/'] + b);
        assert(!a.contains('/')) by {
            if a.contains('/') {
                let i = a.index_of('/');
                assert(dir[i] == '/');
            }
        }
        law_split(a, '/', b);
        assert(s =~= a + seq!['/'] + (b + seq!['/'] + last));
        law_split(a, '/', b + seq!['/'] + last);
        lemma_split_end(b, last);
        assert(seq![a] + split_on(b, '/').push(last) =~= (seq![a] + split_on(b, '/')).push(last));
    }
}

proof fn lemma_first_piece(s: Seq<char>)
    ensures
        split_on(s, '/').len() > 0,
{
}

/// A file in a directory has the parts of the directory and its name; this is
/// its file name, and the directory its parent.
pub proof fn law_file_in_directory(dir: Seq<char>, name: Seq<char>)
    requires
        dir.len() > 0,
        file_name(name),
    ensures
        path_parts(dir + seq!['/'] + name) == path_parts(dir).push(name),
        final_name(dir + seq!['/'] + name) == Some(name),
        slash_parent(dir + seq!['/'] + name, Some(dir)),
{
    let s = dir + seq!['/'] + name;
    lemma_split_end(dir, name);
    lemma_first_piece(dir);
    let pieces = split_on(dir, '/');
    assert(pieces.push(name).drop_last() =~= pieces);
    assert(kept_pieces(pieces.push(name)) == kept_pieces(pieces).push(name));
    assert(s[0] == dir[0]);
    assert(pieces.push(name)[0] == pieces[0]);
    assert(path_parts(s) =~= path_parts(dir).push(name));
    assert(path_parts(s).drop_last() =~= path_parts(dir));
    assert(name != seq!['/']) by {
        if name == seq!['/'] {
            assert(name[0] == '/');
            assert(name.contains('/'));
        }
    }
    assert(path_parts(s) != seq![seq!['/']]) by {
        if path_parts(s) == seq![seq!['/']] {
            assert(path_parts(s).last() == seq!['/']);
        }
    }
}

/// A slash or a dot at the end changes nothing.
pub proof fn law_ends_of_paths(dir: Seq<char>)
    requires
        dir.len() > 0,
    ensures
        path_parts(dir + seq!['/']) == path_parts(dir),
        path_parts(dir + seq!['/', '.']) == path_parts(dir),
{
    let e = Seq::<char>::empty();
    let dot = seq!['.'];
    lemma_split_end(dir, e);
    assert(!dot.contains('/')) by {
        if dot.contains('/') {
            assert(dot[dot.index_of('/')] == '/');
        }
    }
    lemma_split_end(dir, dot);
    lemma_first_piece(dir);
    assert(dir + seq!['/'] + e =~= dir + seq!['/']);
    assert(dir + seq!['/'] + dot =~= dir + seq!['/', '.']);
    let pieces = split_on(dir, '/');
    assert(pieces.push(e).drop_last() =~= pieces);
    assert(pieces.push(dot).drop_last() =~= pieces);
    assert(pieces.push(e)[0] == pieces[0] && pieces.push(dot)[0] == pieces[0]);
    assert((dir + seq!['/'])[0] == dir[0]);
    assert((dir + seq!['/', '.'])[0] == dir[0]);
}

/// A name is joined to a directory with one slash; an absolute path stays as
/// it is.
pub proof fn law_joined_paths(dir: Seq<char>, name: Seq<char>)
    requires
        dir.len() > 0,
        file_name(name),
    ensures
        path_parts(slash_join(dir, name)) == path_parts(dir).push(name),
        slash_join(dir, seq!['/'] + name) == seq!['/'] + name,
        slash_join(dir + seq!['/'], name) == dir + seq!['/'] + name,
        dir.last() != '/' ==> slash_join(dir, name) == dir + seq!['/'] + name,
{
    assert(name[0] != '/') by {
        if name[0] == '/' {
            assert(name.contains('/'));
        }
    }
    law_file_in_directory(dir, name);
    if dir.last() == '/' {
        let less = dir.drop_last();
        assert(dir =~= less + seq!['/']);
        assert(dir + name =~= less + seq!['/'] + name);
        lemma_split_end(less, name);
        lemma_split_end(less, Seq::empty());
        assert(less + seq!['/'] + Seq::<char>::empty() =~= dir);
        let pieces = split_on(less, '/');
        lemma_first_piece(less);
        assert(pieces.push(name).drop_last() =~= pieces);
        assert(pieces.push(Seq::empty()).drop_last() =~= pieces);
        assert(pieces.push(name)[0] == pieces[0]);
        assert(pieces.push(Seq::empty())[0] == pieces[0]);
        assert((dir + name)[0] == dir[0]);
        assert(path_parts(dir + name) =~= path_parts(dir).push(name));
    }
}

/// A letter and a colon are a drive, in any case; a path on it is absolute
/// where a separator follows.
pub proof fn law_drives(letter: char, rest: Seq<char>, base: Seq<char>)
    requires
        ('a' <= letter && letter <= 'z') || ('A' <= letter && letter <= 'Z'),
    ensures
        drive_of(seq![letter, ':'] + rest) == seq![letter, ':'],
        drive_absolute(seq![letter, ':'] + rest) <==> rest.len() > 0 && (rest[0] == '/' || rest[0]
            == '\\'),
        drive_join(base, seq![letter, ':'] + rest) == seq![letter, ':'] + rest,
{
    let s = seq![letter, ':'] + rest;
    assert(s.take(2) =~= seq![letter, ':']);
    if rest.len() > 0 {
        assert(s[2] == rest[0]);
    }
}

/// Slashes and backslashes part a path in the same way.
pub proof fn law_loose_pieces(a: Seq<char>, rest: Seq<char>)
    requires
        file_name(a),
    ensures
        loose_pieces(a + seq!['/'] + rest) == seq![a] + loose_pieces(rest),
        loose_pieces(a + seq!['\\'] + rest) == seq![a] + loose_pieces(rest),
        loose_pieces(a) == seq![a],
{
    let e = Seq::<char>::empty();
    let s = a + seq!['/'] + rest;
    let t = a + seq!['\\'] + rest;
    lemma_position_behind(a, '/', rest);
    lemma_position_behind(a, '\\', rest);
    lemma_no_position(a, '/');
    lemma_no_position(a, '\\');
    lemma_later(a, '\\', '/', rest);
    lemma_later(a, '/', '\\', rest);
    assert(s.take(a.len() as int) =~= a && t.take(a.len() as int) =~= a);
    assert(s.skip(a.len() as int + 1) =~= rest && t.skip(a.len() as int + 1) =~= rest);
    assert(!crate::paths::has_drive(a)) by {
        if a.len() > 1 && a[1] == ':' {
            assert(a.contains(':'));
        }
    }
}

proof fn lemma_later(a: Seq<char>, c: char, other: char, rest: Seq<char>)
    requires
        !a.contains(c),
        c != other,
    ensures
        position_of(a + seq![other] + rest, c) > a.len(),
    decreases a.len(),
{
    let s = a + seq![other] + rest;
    if a.len() == 0 {
        assert(s[0] == other);
    } else {
        assert(s[0] == a[0]);
        assert(a.contains(a[0]));
        let less = a.skip(1);
        assert(!less.contains(c)) by {
            if less.contains(c) {
                let i = less.index_of(c);
                assert(a[i + 1] == c);
            }
        }
        lemma_later(less, c, other, rest);
        assert(s.skip(1) =~= less + seq![other] + rest);
    }
}

/// The extension of a name is what stands behind its last dot, where something
/// stands before it.
pub proof fn law_extensions(stem: Seq<char>, ext: Seq<char>)
    requires
        !ext.contains('.'),
    ensures
        stem.len() > 0 ==> extension_in(stem + seq!['.'] + ext) == Some(ext),
        extension_in(seq!['.'] + ext) is None,
        extension_in(ext) is None,
        stem.len() > 0 ==> lower_extension(stem + seq!['.'] + ext) == Some(
            crate::case::ascii_lowercase(ext),
        ),
{
    let e = Seq::<char>::empty();
    lemma_after_dot(stem, ext);
    lemma_after_dot(e, ext);
    assert(e + seq!['.'] + ext =~= seq!['.'] + ext);
    lemma_no_dot(ext);
}

proof fn lemma_no_dot(name: Seq<char>)
    requires
        !name.contains('.'),
    ensures
        crate::split::after_last(name, '.') is None,
    decreases name.len(),
{
    if name.len() > 0 {
        assert(name.contains(name[name.len() - 1]));
        assert(!name.drop_last().contains('.')) by {
            if name.drop_last().contains('.') {
                let i = name.drop_last().index_of('.');
                assert(name[i] == '.');
            }
        }
        lemma_no_dot(name.drop_last());
    }
}

} // verus!
