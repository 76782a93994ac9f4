//! Which files were edited in which turn.
#![verifier::loop_isolation(false)]

use crate::paths::{
    loose_pieces, order_paths, ordered_alike, path_key, path_parts, seen_alike, PathOrder,
};
use crate::sorting::{key_less, lemma_less_irreflexive, lemma_less_transitive};
use crate::text::{option_str, owned_option, push_item, same_option};
use vstd::prelude::*;

verus! {

/// An entry older than this is left out.
pub const MAX_STATE_AGE_SECONDS: u64 = 86_400;

/// A file that was edited.
#[derive(Debug, Clone, PartialEq, Eq)]
pub struct PostEditEntry {
    pub session_id: Option<String>,
    pub turn_id: Option<String>,
    pub cwd: Option<String>,
    pub path: String,
    pub timestamp_unix: u64,
}

/// The contents of an entry.
#[verifier::ext_equal]
pub ghost struct PostEditView {
    pub session_id: Option<Seq<char>>,
    pub turn_id: Option<Seq<char>>,
    pub cwd: Option<Seq<char>>,
    pub path: Seq<char>,
    pub timestamp_unix: u64,
}

impl DeepView for PostEditEntry {
    type V = PostEditView;

    open spec fn deep_view(&self) -> PostEditView {
        PostEditView {
            session_id: self.session_id.deep_view(),
            turn_id: self.turn_id.deep_view(),
            cwd: self.cwd.deep_view(),
            path: self.path@,
            timestamp_unix: self.timestamp_unix,
        }
    }
}

/// The entries for files edited at a time, one for each, in order.
pub open spec fn entries_for(
    session_id: Option<Seq<char>>,
    turn_id: Option<Seq<char>>,
    cwd: Option<Seq<char>>,
    paths: Seq<Seq<char>>,
    now: u64,
) -> Seq<PostEditView> {
    paths.map_values(
        |path: Seq<char>| PostEditView { session_id, turn_id, cwd, path, timestamp_unix: now },
    )
}

/// The entries for files edited at a time, one for each, in order.
pub fn touched_entries(
    session_id: Option<&str>,
    turn_id: Option<&str>,
    cwd: Option<&str>,
    paths: &Vec<String>,
    now: u64,
) -> (r: Vec<PostEditEntry>)
    ensures
        r.deep_view() == entries_for(
            session_id.deep_view(),
            turn_id.deep_view(),
            cwd.deep_view(),
            paths.deep_view(),
            now,
        ),
{
    let ghost all = entries_for(
        session_id.deep_view(),
        turn_id.deep_view(),
        cwd.deep_view(),
        paths.deep_view(),
        now,
    );
    let mut entries: Vec<PostEditEntry> = Vec::new();
    let mut i: usize = 0;
    assert(entries.deep_view() =~= all.take(0));
    while i < paths.len()
        invariant
            i <= paths.len(),
            entries.deep_view() == all.take(i as int),
        decreases paths.len() - i,
    {
        assert(paths.deep_view()[i as int] == paths[i as int]@);
        push_item(
            &mut entries,
            PostEditEntry {
                session_id: owned_option(session_id),
                turn_id: owned_option(turn_id),
                cwd: owned_option(cwd),
                path: paths[i].clone(),
                timestamp_unix: now,
            },
        );
        i += 1;
        assert(entries.deep_view() =~= all.take(i as int));
    }
    assert(all.take(i as int) =~= all);
    entries
}

/// Whether an entry is of the given turn and not too old. One from the future
/// is not.
pub open spec fn counts(
    entry: PostEditView,
    session_id: Option<Seq<char>>,
    turn_id: Option<Seq<char>>,
    now: u64,
) -> bool {
    &&& entry.session_id == session_id
    &&& entry.turn_id == turn_id
    &&& now - entry.timestamp_unix <= MAX_STATE_AGE_SECONDS
}

/// Whether an entry is of the given turn and not too old.
pub fn entry_counts(
    entry: &PostEditEntry,
    session_id: Option<&str>,
    turn_id: Option<&str>,
    now: u64,
) -> (r: bool)
    ensures
        r == counts(entry.deep_view(), session_id.deep_view(), turn_id.deep_view(), now),
{
    same_option(option_str(&entry.session_id), session_id) && same_option(
        option_str(&entry.turn_id),
        turn_id,
    ) && (now <= entry.timestamp_unix || now - entry.timestamp_unix <= MAX_STATE_AGE_SECONDS)
}

/// The paths of the entries that count, in order.
pub open spec fn counted_paths(
    entries: Seq<PostEditView>,
    session_id: Option<Seq<char>>,
    turn_id: Option<Seq<char>>,
    now: u64,
) -> Seq<Seq<char>>
    decreases entries.len(),
{
    if entries.len() == 0 {
        Seq::empty()
    } else {
        let before = counted_paths(entries.drop_last(), session_id, turn_id, now);
        if counts(entries.last(), session_id, turn_id, now) {
            before.push(entries.last().path)
        } else {
            before
        }
    }
}

fn list_counted_paths(
    entries: &Vec<PostEditEntry>,
    session_id: Option<&str>,
    turn_id: Option<&str>,
    now: u64,
) -> (r: Vec<String>)
    ensures
        r.deep_view() == counted_paths(
            entries.deep_view(),
            session_id.deep_view(),
            turn_id.deep_view(),
            now,
        ),
{
    let ghost view = entries.deep_view();
    let ghost s = session_id.deep_view();
    let ghost t = turn_id.deep_view();
    let mut paths: Vec<String> = Vec::new();
    let mut i: usize = 0;
    assert(paths.deep_view() =~= counted_paths(view.take(0), s, t, now));
    while i < entries.len()
        invariant
            i <= entries.len(),
            paths.deep_view() == counted_paths(view.take(i as int), s, t, now),
        decreases entries.len() - i,
    {
        proof {
            assert(view.take(i + 1).drop_last() =~= view.take(i as int));
            assert(view.take(i + 1).last() == entries[i as int].deep_view());
        }
        if entry_counts(&entries[i], session_id, turn_id, now) {
            push_item(&mut paths, entries[i].path.clone());
        }
        i += 1;
    }
    assert(view.take(i as int) =~= view);
    paths
}

// Distinct paths.

/// Whether two paths are those of the same file as far as is known whatever
/// the host: they have the same pieces up to the case of a drive, and the same
/// components where all hosts agree on that.
pub open spec fn same_file(a: Seq<char>, b: Seq<char>) -> bool {
    &&& loose_pieces(a) == loose_pieces(b)
    &&& seen_alike(a, b) ==> path_parts(a) == path_parts(b)
}

/// Whether all hosts agree on how the paths are ordered.
pub open spec fn all_alike(paths: Seq<Seq<char>>) -> bool {
    forall|i: int, j: int|
        0 <= i < paths.len() && 0 <= j < paths.len() ==> ordered_alike(
            #[trigger] paths[i],
            #[trigger] paths[j],
        )
}

/// Whether paths are in strictly ascending order, where all hosts agree on it.
pub open spec fn ascending(paths: Seq<Seq<char>>) -> bool {
    forall|i: int, j: int|
        0 <= i < j < paths.len() ==> key_less(
            path_key(#[trigger] paths[i]),
            path_key(#[trigger] paths[j]),
        )
}

/// Whether a list holds a path, or another path of the same file.
pub open spec fn holds(distinct: Seq<Seq<char>>, path: Seq<char>) -> bool {
    exists|j: int| 0 <= j < distinct.len() && same_file(path, #[trigger] distinct[j])
}

/// Whether a list holds the given paths once each: nothing else, none twice,
/// one for each of them, and in the order of paths.
pub open spec fn distinct_paths(paths: Seq<Seq<char>>, distinct: Seq<Seq<char>>) -> bool {
    &&& forall|i: int| 0 <= i < distinct.len() ==> paths.contains(#[trigger] distinct[i])
    &&& forall|i: int| 0 <= i < paths.len() ==> holds(distinct, #[trigger] paths[i])
    &&& distinct.no_duplicates()
    &&& all_alike(paths) ==> ascending(distinct)
}

/// Whether all hosts agree on how a path is ordered among others.
pub open spec fn alike_to(paths: Seq<Seq<char>>, path: Seq<char>) -> bool {
    forall|i: int| 0 <= i < paths.len() ==> ordered_alike(#[trigger] paths[i], path)
}

/// Where a path goes among others: nowhere where one of them is the same,
/// else in front of the first that comes after it.
fn find_place(distinct: &Vec<String>, path: &str) -> (r: Option<usize>)
    ensures
        ({
            let view = distinct.deep_view();
            match r {
                Some(p) => {
                    &&& p <= view.len()
                    &&& !view.contains(path@)
                    &&& alike_to(view, path@) ==> {
                        &&& forall|j: int|
                            0 <= j < p ==> key_less(path_key(#[trigger] view[j]), path_key(path@))
                        &&& p < view.len() ==> key_less(path_key(path@), path_key(view[p as int]))
                    }
                },
                None => holds(view, path@),
            }
        }),
{
    let ghost view = distinct.deep_view();
    let mut place: Option<usize> = None;
    let mut i: usize = 0;
    while i < distinct.len()
        invariant
            i <= distinct.len(),
            forall|j: int| 0 <= j < i ==> #[trigger] view[j] != path@,
            place matches Some(p) ==> p < i,
            alike_to(view, path@) ==> match place {
                Some(p) => {
                    &&& forall|j: int|
                        0 <= j < p ==> key_less(path_key(#[trigger] view[j]), path_key(path@))
                    &&& key_less(path_key(path@), path_key(view[p as int]))
                },
                None => forall|j: int|
                    0 <= j < i ==> key_less(path_key(#[trigger] view[j]), path_key(path@)),
            },
        decreases distinct.len() - i,
    {
        assert(view[i as int] == distinct[i as int]@);
        match order_paths(distinct[i].as_str(), path) {
            PathOrder::Equal => {
                assert(same_file(path@, view[i as int]));
                assert(holds(view, path@));
                return None;
            },
            PathOrder::Greater => {
                if place.is_none() {
                    place = Some(i);
                }
            },
            PathOrder::Less => {},
        }
        i += 1;
    }
    match place {
        Some(p) => Some(p),
        None => Some(distinct.len()),
    }
}

proof fn lemma_insert_ascending(distinct: Seq<Seq<char>>, p: int, path: Seq<char>)
    requires
        0 <= p <= distinct.len(),
        ascending(distinct),
        forall|j: int| 0 <= j < p ==> key_less(path_key(#[trigger] distinct[j]), path_key(path)),
        p < distinct.len() ==> key_less(path_key(path), path_key(distinct[p])),
    ensures
        ascending(distinct.insert(p, path)),
{
    let all = distinct.insert(p, path);
    assert forall|i: int, j: int| 0 <= i < j < all.len() implies key_less(
        path_key(#[trigger] all[i]),
        path_key(#[trigger] all[j]),
    ) by {
        if i == p {
            assert(all[j] == distinct[j - 1]);
            if j - 1 > p {
                lemma_less_transitive(
                    path_key(path),
                    path_key(distinct[p]),
                    path_key(distinct[j - 1]),
                );
            }
        } else if j == p {
            assert(all[i] == distinct[i]);
        } else {
            let a = if i < p { i } else { i - 1 };
            let b = if j < p { j } else { j - 1 };
            assert(all[i] == distinct[a] && all[j] == distinct[b]);
        }
    }
}

proof fn lemma_holds_insert(distinct: Seq<Seq<char>>, p: int, path: Seq<char>, other: Seq<char>)
    requires
        0 <= p <= distinct.len(),
        other == path || holds(distinct, other),
    ensures
        holds(distinct.insert(p, path), other),
{
    let all = distinct.insert(p, path);
    if other == path {
        assert(same_file(path, all[p]));
    } else {
        let j = choose|j: int| 0 <= j < distinct.len() && same_file(other, #[trigger] distinct[j]);
        let k = if j < p { j } else { j + 1 };
        assert(all[k] == distinct[j]);
    }
}

proof fn lemma_insert_members(
    paths: Seq<Seq<char>>,
    distinct: Seq<Seq<char>>,
    p: int,
    path: Seq<char>,
)
    requires
        0 <= p <= distinct.len(),
        forall|i: int| 0 <= i < distinct.len() ==> paths.contains(#[trigger] distinct[i]),
        distinct.no_duplicates(),
        !distinct.contains(path),
    ensures
        forall|i: int|
            0 <= i < distinct.len() + 1 ==> paths.push(path).contains(
                #[trigger] distinct.insert(p, path)[i],
            ),
        distinct.insert(p, path).no_duplicates(),
{
    let more = paths.push(path);
    let all = distinct.insert(p, path);
    assert forall|i: int| 0 <= i < all.len() implies more.contains(#[trigger] all[i]) by {
        if i == p {
            assert(more[paths.len() as int] == path);
        } else {
            let a = if i < p { i } else { i - 1 };
            assert(all[i] == distinct[a]);
            let k = paths.index_of(distinct[a]);
            assert(more[k] == distinct[a]);
        }
    }
    assert forall|i: int, j: int| 0 <= i < j < all.len() implies all[i] != all[j] by {
        if i == p {
            assert(all[j] == distinct[j - 1]);
        } else if j == p {
            assert(all[i] == distinct[i]);
        } else {
            let a = if i < p { i } else { i - 1 };
            let b = if j < p { j } else { j - 1 };
            assert(all[i] == distinct[a] && all[j] == distinct[b]);
        }
    }
}

proof fn lemma_fewer_alike(paths: Seq<Seq<char>>, path: Seq<char>)
    requires
        all_alike(paths.push(path)),
    ensures
        all_alike(paths),
        alike_to(paths, path),
{
    let more = paths.push(path);
    assert(more[paths.len() as int] == path);
    assert forall|i: int, j: int| 0 <= i < paths.len() && 0 <= j < paths.len() implies ordered_alike(
        #[trigger] paths[i],
        #[trigger] paths[j],
    ) by {
        assert(more[i] == paths[i] && more[j] == paths[j]);
    }
    assert forall|i: int| 0 <= i < paths.len() implies ordered_alike(
        #[trigger] paths[i],
        path,
    ) by {
        assert(more[i] == paths[i]);
    }
}

proof fn lemma_distinct_insert(
    paths: Seq<Seq<char>>,
    distinct: Seq<Seq<char>>,
    p: int,
    path: Seq<char>,
)
    requires
        distinct_paths(paths, distinct),
        0 <= p <= distinct.len(),
        !distinct.contains(path),
        all_alike(paths.push(path)) ==> ascending(distinct.insert(p, path)),
    ensures
        distinct_paths(paths.push(path), distinct.insert(p, path)),
{
    let more = paths.push(path);
    let all = distinct.insert(p, path);
    lemma_insert_members(paths, distinct, p, path);
    assert forall|i: int| 0 <= i < more.len() implies holds(all, #[trigger] more[i]) by {
        if i < paths.len() {
            assert(more[i] == paths[i]);
        }
        lemma_holds_insert(distinct, p, path, more[i]);
    }
    if all_alike(more) {
        lemma_fewer_alike(paths, path);
    }
}

proof fn lemma_distinct_repeat(paths: Seq<Seq<char>>, distinct: Seq<Seq<char>>, path: Seq<char>)
    requires
        distinct_paths(paths, distinct),
        holds(distinct, path),
    ensures
        distinct_paths(paths.push(path), distinct),
{
    let more = paths.push(path);
    assert forall|i: int| 0 <= i < distinct.len() implies more.contains(#[trigger] distinct[i]) by {
        let k = paths.index_of(distinct[i]);
        assert(more[k] == distinct[i]);
    }
    assert forall|i: int| 0 <= i < more.len() implies holds(distinct, #[trigger] more[i]) by {
        if i < paths.len() {
            assert(more[i] == paths[i]);
        }
    }
    if all_alike(more) {
        lemma_fewer_alike(paths, path);
    }
}

/// The given paths once each, in the order of paths.
pub fn distinct_in_order(paths: &Vec<String>) -> (r: Vec<String>)
    ensures
        distinct_paths(paths.deep_view(), r.deep_view()),
{
    let ghost view = paths.deep_view();
    let mut distinct: Vec<String> = Vec::new();
    let mut i: usize = 0;
    assert(distinct_paths(view.take(0), distinct.deep_view()));
    while i < paths.len()
        invariant
            i <= paths.len(),
            distinct_paths(view.take(i as int), distinct.deep_view()),
        decreases paths.len() - i,
    {
        let ghost before = distinct.deep_view();
        let ghost done = view.take(i as int);
        assert(view[i as int] == paths[i as int]@);
        assert(view.take(i + 1) =~= done.push(paths[i as int]@));
        match find_place(&distinct, paths[i].as_str()) {
            Some(place) => {
                distinct.insert(place, paths[i].clone());
                proof {
                    let path = paths@[i as int]@;
                    assert(distinct.deep_view() =~= before.insert(place as int, path));
                    if all_alike(done.push(path)) {
                        lemma_fewer_alike(done, path);
                        assert forall|j: int| 0 <= j < before.len() implies ordered_alike(
                            #[trigger] before[j],
                            path,
                        ) by {
                            assert(done.contains(before[j]));
                        }
                        lemma_insert_ascending(before, place as int, path);
                    }
                    lemma_distinct_insert(done, before, place as int, path);
                }
            },
            None => {
                proof {
                    lemma_distinct_repeat(done, before, paths@[i as int]@);
                }
            },
        }
        i += 1;
    }
    assert(view.take(i as int) =~= view);
    distinct
}

/// The paths of the entries of the given turn that are not too old, once each
/// and in the order of paths. Where hosts do not agree, which paths are the
/// same and how they are ordered is up to the host.
pub fn read_touched_paths(
    entries: &Vec<PostEditEntry>,
    session_id: Option<&str>,
    turn_id: Option<&str>,
    now: u64,
) -> (r: Vec<String>)
    ensures
        distinct_paths(
            counted_paths(
                entries.deep_view(),
                session_id.deep_view(),
                turn_id.deep_view(),
                now,
            ),
            r.deep_view(),
        ),
{
    let paths = list_counted_paths(entries, session_id, turn_id, now);
    distinct_in_order(&paths)
}

/// What a turn notes is what is read for it within a day: the entries made
/// for paths, read back for the same turn, give the paths.
pub proof fn law_noted_paths_are_read(
    session_id: Option<Seq<char>>,
    turn_id: Option<Seq<char>>,
    cwd: Option<Seq<char>>,
    paths: Seq<Seq<char>>,
    noted: u64,
    now: u64,
)
    requires
        now - noted <= MAX_STATE_AGE_SECONDS,
    ensures
        counted_paths(
            entries_for(session_id, turn_id, cwd, paths, noted),
            session_id,
            turn_id,
            now,
        ) == paths,
    decreases paths.len(),
{
    let entries = entries_for(session_id, turn_id, cwd, paths, noted);
    if paths.len() > 0 {
        assert(entries.drop_last() =~= entries_for(
            session_id,
            turn_id,
            cwd,
            paths.drop_last(),
            noted,
        ));
        law_noted_paths_are_read(session_id, turn_id, cwd, paths.drop_last(), noted, now);
        assert(entries.last().path == paths.last());
        assert(paths.drop_last().push(paths.last()) =~= paths);
    } else {
        assert(paths =~= Seq::empty());
    }
}

/// What another turn noted is not read.
pub proof fn law_other_turns_are_not_read(
    entries: Seq<PostEditView>,
    session_id: Option<Seq<char>>,
    turn_id: Option<Seq<char>>,
    now: u64,
)
    requires
        forall|i: int|
            0 <= i < entries.len() ==> (#[trigger] entries[i]).session_id != session_id
                || entries[i].turn_id != turn_id,
    ensures
        counted_paths(entries, session_id, turn_id, now).len() == 0,
    decreases entries.len(),
{
    if entries.len() > 0 {
        assert(entries.last() == entries[entries.len() - 1]);
        assert forall|i: int| 0 <= i < entries.drop_last().len() implies (
        #[trigger] entries.drop_last()[i]).session_id != session_id
            || entries.drop_last()[i].turn_id != turn_id by {
            assert(entries.drop_last()[i] == entries[i]);
        }
        law_other_turns_are_not_read(entries.drop_last(), session_id, turn_id, now);
    }
}

proof fn lemma_counted_append(
    before: Seq<PostEditView>,
    more: Seq<PostEditView>,
    session_id: Option<Seq<char>>,
    turn_id: Option<Seq<char>>,
    now: u64,
)
    ensures
        counted_paths(before + more, session_id, turn_id, now) == counted_paths(
            before,
            session_id,
            turn_id,
            now,
        ) + counted_paths(more, session_id, turn_id, now),
    decreases more.len(),
{
    let all = before + more;
    let read = counted_paths(before, session_id, turn_id, now);
    if more.len() == 0 {
        assert(all =~= before);
        assert(read + counted_paths(more, session_id, turn_id, now) =~= read);
    } else {
        assert(all.drop_last() =~= before + more.drop_last());
        assert(all.last() == more.last());
        lemma_counted_append(before, more.drop_last(), session_id, turn_id, now);
        let rest = counted_paths(more.drop_last(), session_id, turn_id, now);
        assert((read + rest).push(more.last().path) =~= read + rest.push(more.last().path));
    }
}

/// What a turn notes is added to what is read for it, and to nothing else:
/// another turn reads what it read before.
pub proof fn law_noting_adds(
    entries: Seq<PostEditView>,
    session_id: Option<Seq<char>>,
    turn_id: Option<Seq<char>>,
    cwd: Option<Seq<char>>,
    paths: Seq<Seq<char>>,
    noted: u64,
    now: u64,
    other_session: Option<Seq<char>>,
    other_turn: Option<Seq<char>>,
)
    requires
        now - noted <= MAX_STATE_AGE_SECONDS,
        other_session != session_id || other_turn != turn_id,
    ensures
        ({
            let all = entries + entries_for(session_id, turn_id, cwd, paths, noted);
            &&& counted_paths(all, session_id, turn_id, now) == counted_paths(
                entries,
                session_id,
                turn_id,
                now,
            ) + paths
            &&& counted_paths(all, other_session, other_turn, now) == counted_paths(
                entries,
                other_session,
                other_turn,
                now,
            )
        }),
{
    let more = entries_for(session_id, turn_id, cwd, paths, noted);
    lemma_counted_append(entries, more, session_id, turn_id, now);
    lemma_counted_append(entries, more, other_session, other_turn, now);
    law_noted_paths_are_read(session_id, turn_id, cwd, paths, noted, now);
    law_other_turns_are_not_read(more, other_session, other_turn, now);
    let before = counted_paths(entries, other_session, other_turn, now);
    assert(before + counted_paths(more, other_session, other_turn, now) =~= before);
}

/// A path that was noted again and again, and nothing else, is read once.
pub proof fn law_repeats_are_read_once(
    path: Seq<char>,
    paths: Seq<Seq<char>>,
    distinct: Seq<Seq<char>>,
)
    requires
        paths.len() > 0,
        forall|i: int| 0 <= i < paths.len() ==> #[trigger] paths[i] == path,
        distinct_paths(paths, distinct),
    ensures
        distinct == seq![path],
{
    assert(holds(distinct, paths[0]));
    assert forall|i: int| 0 <= i < distinct.len() implies distinct[i] == path by {
        assert(paths.contains(distinct[i]));
    }
    if distinct.len() > 1 {
        assert(distinct[0] == distinct[1]);
    }
    assert(distinct =~= seq![path]);
}

/// Paths on whose order all hosts agree are read in strictly ascending order,
/// so that no file is read twice.
pub proof fn law_order_is_strict(paths: Seq<Seq<char>>, distinct: Seq<Seq<char>>, i: int, j: int)
    requires
        all_alike(paths),
        distinct_paths(paths, distinct),
        0 <= i < j < distinct.len(),
    ensures
        key_less(path_key(distinct[i]), path_key(distinct[j])),
        path_parts(distinct[i]) != path_parts(distinct[j]),
{
    lemma_less_irreflexive(path_key(distinct[i]));
}

/// Whether a list holds a path with the same pieces, up to the case of a
/// drive.
pub open spec fn holds_loosely(list: Seq<Seq<char>>, path: Seq<char>) -> bool {
    exists|j: int| 0 <= j < list.len() && loose_pieces(path) == loose_pieces(#[trigger] list[j])
}

/// Whether no two of the paths have the same pieces up to the case of a drive
/// without being the same text, so that no host takes them for one.
pub open spec fn apart(paths: Seq<Seq<char>>) -> bool {
    forall|i: int, j: int|
        0 <= i < paths.len() && 0 <= j < paths.len() && loose_pieces(#[trigger] paths[i])
            == loose_pieces(#[trigger] paths[j]) ==> paths[i] == paths[j]
}

/// The list of distinct paths holds what the paths hold, up to what a host may
/// take for the same.
proof fn lemma_loose_members(paths: Seq<Seq<char>>, distinct: Seq<Seq<char>>, path: Seq<char>)
    requires
        distinct_paths(paths, distinct),
    ensures
        holds_loosely(distinct, path) <==> holds_loosely(paths, path),
{
    if holds_loosely(distinct, path) {
        let j = choose|j: int|
            0 <= j < distinct.len() && loose_pieces(path) == loose_pieces(#[trigger] distinct[j]);
        assert(paths.contains(distinct[j]));
        let k = choose|k: int| 0 <= k < paths.len() && paths[k] == distinct[j];
        assert(loose_pieces(path) == loose_pieces(paths[k]));
    }
    if holds_loosely(paths, path) {
        let i = choose|i: int|
            0 <= i < paths.len() && loose_pieces(path) == loose_pieces(#[trigger] paths[i]);
        assert(holds(distinct, paths[i]));
        let j = choose|j: int|
            0 <= j < distinct.len() && same_file(paths[i], #[trigger] distinct[j]);
        assert(loose_pieces(path) == loose_pieces(distinct[j]));
    }
}

proof fn lemma_alike_members(paths: Seq<Seq<char>>, distinct: Seq<Seq<char>>, path: Seq<char>)
    requires
        distinct_paths(paths, distinct),
        all_alike(paths.push(path)),
    ensures
        holds(distinct, path) <==> holds(paths, path),
{
    lemma_fewer_alike(paths, path);
    if holds(distinct, path) {
        let j = choose|j: int| 0 <= j < distinct.len() && same_file(path, #[trigger] distinct[j]);
        assert(paths.contains(distinct[j]));
        let k = choose|k: int| 0 <= k < paths.len() && paths[k] == distinct[j];
        assert(same_file(path, paths[k]));
    }
    if holds(paths, path) {
        let i = choose|i: int| 0 <= i < paths.len() && same_file(path, #[trigger] paths[i]);
        assert(holds(distinct, paths[i]));
        let j = choose|j: int|
            0 <= j < distinct.len() && same_file(paths[i], #[trigger] distinct[j]);
        assert(paths.contains(distinct[j]));
        let k = choose|k: int| 0 <= k < paths.len() && paths[k] == distinct[j];
        assert(ordered_alike(paths[i], paths[k]));
        assert(ordered_alike(paths[i], path) && ordered_alike(paths[k], path));
        assert(same_file(path, distinct[j]));
    }
}

proof fn lemma_apart_members(paths: Seq<Seq<char>>, distinct: Seq<Seq<char>>, path: Seq<char>)
    requires
        distinct_paths(paths, distinct),
        apart(paths),
    ensures
        distinct.contains(path) <==> paths.contains(path),
{
    if distinct.contains(path) {
        let i = choose|i: int| 0 <= i < distinct.len() && distinct[i] == path;
        assert(paths.contains(distinct[i]));
    }
    if paths.contains(path) {
        let i = choose|i: int| 0 <= i < paths.len() && paths[i] == path;
        assert(holds(distinct, paths[i]));
        let j = choose|j: int| 0 <= j < distinct.len() && same_file(path, #[trigger] distinct[j]);
        assert(paths.contains(distinct[j]));
        let k = choose|k: int| 0 <= k < paths.len() && paths[k] == distinct[j];
        assert(loose_pieces(paths[i]) == loose_pieces(paths[k]));
        assert(distinct[j] == path);
    }
}

proof fn lemma_holds_sum(a: Seq<Seq<char>>, b: Seq<Seq<char>>, path: Seq<char>)
    ensures
        holds(a + b, path) <==> holds(a, path) || holds(b, path),
        holds_loosely(a + b, path) <==> holds_loosely(a, path) || holds_loosely(b, path),
        (a + b).contains(path) <==> a.contains(path) || b.contains(path),
{
    let all = a + b;
    assert forall|i: int| 0 <= i < a.len() implies #[trigger] a[i] == all[i] by {}
    assert forall|i: int| 0 <= i < b.len() implies #[trigger] b[i] == all[a.len() + i] by {}
    if holds(all, path) {
        let j = choose|j: int| 0 <= j < all.len() && same_file(path, #[trigger] all[j]);
        if j < a.len() {
            assert(same_file(path, a[j]));
        } else {
            assert(same_file(path, b[j - a.len()]));
        }
    }
    if holds(a, path) {
        let j = choose|j: int| 0 <= j < a.len() && same_file(path, #[trigger] a[j]);
        assert(same_file(path, all[j]));
    }
    if holds(b, path) {
        let j = choose|j: int| 0 <= j < b.len() && same_file(path, #[trigger] b[j]);
        assert(same_file(path, all[a.len() + j]));
    }
    if holds_loosely(all, path) {
        let j = choose|j: int|
            0 <= j < all.len() && loose_pieces(path) == loose_pieces(#[trigger] all[j]);
        if j < a.len() {
            assert(loose_pieces(path) == loose_pieces(a[j]));
        } else {
            assert(loose_pieces(path) == loose_pieces(b[j - a.len()]));
        }
    }
    if holds_loosely(a, path) {
        let j = choose|j: int|
            0 <= j < a.len() && loose_pieces(path) == loose_pieces(#[trigger] a[j]);
        assert(loose_pieces(path) == loose_pieces(all[j]));
    }
    if holds_loosely(b, path) {
        let j = choose|j: int|
            0 <= j < b.len() && loose_pieces(path) == loose_pieces(#[trigger] b[j]);
        assert(loose_pieces(path) == loose_pieces(all[a.len() + j]));
    }
    if all.contains(path) {
        let j = choose|j: int| 0 <= j < all.len() && all[j] == path;
        if j < a.len() {
            assert(a[j] == path);
        } else {
            assert(b[j - a.len()] == path);
        }
    }
    if a.contains(path) {
        let j = choose|j: int| 0 <= j < a.len() && a[j] == path;
        assert(all[j] == path);
    }
    if b.contains(path) {
        let j = choose|j: int| 0 <= j < b.len() && b[j] == path;
        assert(all[a.len() + j] == path);
    }
}

/// What is read after a turn noted paths is what was read before and those
/// paths, each text once. On any host this holds up to paths with the same
/// pieces, which the host may take for one, and exactly where there are none
/// such. Of paths on whose order all hosts agree it holds file by file, and
/// they come in strictly ascending order.
pub proof fn law_noted_paths_are_added_once(
    entries: Seq<PostEditView>,
    session_id: Option<Seq<char>>,
    turn_id: Option<Seq<char>>,
    cwd: Option<Seq<char>>,
    paths: Seq<Seq<char>>,
    noted: u64,
    now: u64,
    before: Seq<Seq<char>>,
    after: Seq<Seq<char>>,
)
    requires
        now - noted <= MAX_STATE_AGE_SECONDS,
        distinct_paths(counted_paths(entries, session_id, turn_id, now), before),
        distinct_paths(
            counted_paths(
                entries + entries_for(session_id, turn_id, cwd, paths, noted),
                session_id,
                turn_id,
                now,
            ),
            after,
        ),
    ensures
        after.no_duplicates(),
        forall|path: Seq<char>| #[trigger]
            holds_loosely(after, path) <==> holds_loosely(before, path) || holds_loosely(
                paths,
                path,
            ),
        apart(counted_paths(entries, session_id, turn_id, now) + paths) ==> forall|path: Seq<char>|
            #[trigger] after.contains(path) <==> before.contains(path) || paths.contains(path),
        all_alike(counted_paths(entries, session_id, turn_id, now) + paths) ==> ascending(after),
        forall|path: Seq<char>|
            all_alike(
                (counted_paths(entries, session_id, turn_id, now) + paths).push(path),
            ) ==> (#[trigger] holds(after, path) <==> holds(before, path) || holds(paths, path)),
{
    let old_paths = counted_paths(entries, session_id, turn_id, now);
    let all = old_paths + paths;
    lemma_counted_append(
        entries,
        entries_for(session_id, turn_id, cwd, paths, noted),
        session_id,
        turn_id,
        now,
    );
    law_noted_paths_are_read(session_id, turn_id, cwd, paths, noted, now);
    assert forall|i: int| 0 <= i < old_paths.len() implies #[trigger] old_paths[i] == all[i] by {}
    assert forall|path: Seq<char>| #[trigger]
        holds_loosely(after, path) <==> holds_loosely(before, path) || holds_loosely(
            paths,
            path,
        ) by {
        lemma_loose_members(old_paths, before, path);
        lemma_loose_members(all, after, path);
        lemma_holds_sum(old_paths, paths, path);
    }
    if apart(all) {
        assert(apart(old_paths)) by {
            assert forall|i: int, j: int|
                0 <= i < old_paths.len() && 0 <= j < old_paths.len() && loose_pieces(
                    #[trigger] old_paths[i],
                ) == loose_pieces(#[trigger] old_paths[j]) implies old_paths[i]
                == old_paths[j] by {
                assert(all[i] == old_paths[i] && all[j] == old_paths[j]);
            }
        }
        assert forall|path: Seq<char>| #[trigger]
            after.contains(path) <==> before.contains(path) || paths.contains(path) by {
            lemma_apart_members(old_paths, before, path);
            lemma_apart_members(all, after, path);
            lemma_holds_sum(old_paths, paths, path);
        }
    }
    assert forall|path: Seq<char>| all_alike(all.push(path)) implies (#[trigger] holds(after, path)
        <==> holds(before, path) || holds(paths, path)) by {
        let fewer = old_paths.push(path);
        assert forall|i: int, j: int|
            0 <= i < fewer.len() && 0 <= j < fewer.len() implies ordered_alike(
            #[trigger] fewer[i],
            #[trigger] fewer[j],
        ) by {
            let more = all.push(path);
            let a = if i < old_paths.len() { i } else { all.len() as int };
            let b = if j < old_paths.len() { j } else { all.len() as int };
            assert(more[a] == fewer[i] && more[b] == fewer[j]);
        }
        lemma_alike_members(old_paths, before, path);
        lemma_alike_members(all, after, path);
        lemma_holds_sum(old_paths, paths, path);
    }
}

} // verus!
