//! Listings of one directory.
#![verifier::loop_isolation(false)]

use super::projection::{
    projected_lines, render_projection, FactsView, FileFacts, FileMetadata, Projection,
    ProjectionView,
};
use crate::case::{ascii_lowercase, to_ascii_lowercase};
use crate::error::BackendError;
use crate::patterns::{
    accepted_match, any_case, in_any_case, matches_pattern, wildcard_match, wildcard_matches,
};
use crate::sorting::{key_of_text, order_of, positions, sort_positions, text_key};
use crate::split::{join, joined};
use crate::text::{owned, push_item};
use vstd::prelude::*;

verus! {

/// A listing of a directory.
#[derive(Debug, Clone, PartialEq, Eq)]
pub struct DirectoryList {
    pub root: String,
    pub filter: Option<String>,
    pub names_only: bool,
    pub files_only: bool,
    pub directories_only: bool,
}

/// The contents of a listing.
#[verifier::ext_equal]
pub ghost struct DirectoryListView {
    pub root: Seq<char>,
    pub filter: Option<Seq<char>>,
    pub names_only: bool,
    pub files_only: bool,
    pub directories_only: bool,
}

impl DeepView for DirectoryList {
    type V = DirectoryListView;

    open spec fn deep_view(&self) -> DirectoryListView {
        DirectoryListView {
            root: self.root@,
            filter: self.filter.deep_view(),
            names_only: self.names_only,
            files_only: self.files_only,
            directories_only: self.directories_only,
        }
    }
}

/// Which part of an entry a pattern is held against.
#[derive(Debug, Clone, Copy, PartialEq, Eq, Structural)]
pub enum DirectoryMatchField {
    Name,
    FullName,
}

/// A pattern that entries must match.
#[derive(Debug, Clone, PartialEq, Eq)]
pub struct DirectoryNameMatch {
    pub field: DirectoryMatchField,
    pub pattern: String,
}

/// The contents of a match.
#[verifier::ext_equal]
pub ghost struct DirectoryNameMatchView {
    pub field: DirectoryMatchField,
    pub pattern: Seq<char>,
}

impl DeepView for DirectoryNameMatch {
    type V = DirectoryNameMatchView;

    open spec fn deep_view(&self) -> DirectoryNameMatchView {
        DirectoryNameMatchView { field: self.field, pattern: self.pattern@ }
    }
}

/// A listing that is filtered and projected.
#[derive(Debug, Clone, PartialEq, Eq)]
pub struct DirectoryPipeline {
    pub list: DirectoryList,
    pub name_match: Option<DirectoryNameMatch>,
    pub projection: Projection,
}

/// The contents of a filtered listing.
#[verifier::ext_equal]
pub ghost struct DirectoryPipelineView {
    pub list: DirectoryListView,
    pub name_match: Option<DirectoryNameMatchView>,
    pub projection: ProjectionView,
}

impl DeepView for DirectoryPipeline {
    type V = DirectoryPipelineView;

    open spec fn deep_view(&self) -> DirectoryPipelineView {
        DirectoryPipelineView {
            list: self.list.deep_view(),
            name_match: self.name_match.deep_view(),
            projection: self.projection.deep_view(),
        }
    }
}

/// An entry of a directory.
#[derive(Debug, Clone, PartialEq, Eq)]
pub struct DirectoryEntry {
    pub name: String,
    pub path: String,
    pub is_file: bool,
    pub is_dir: bool,
    /// What the file system says of it, where that is needed.
    pub metadata: Option<FileMetadata>,
}

/// The contents of an entry.
#[verifier::ext_equal]
pub ghost struct EntryView {
    pub name: Seq<char>,
    pub path: Seq<char>,
    pub is_file: bool,
    pub is_dir: bool,
    pub metadata: Option<FileMetadata>,
}

impl DeepView for DirectoryEntry {
    type V = EntryView;

    open spec fn deep_view(&self) -> EntryView {
        EntryView {
            name: self.name@,
            path: self.path@,
            is_file: self.is_file,
            is_dir: self.is_dir,
            metadata: self.metadata,
        }
    }
}

impl DirectoryEntry {
    /// A copy.
    pub fn copy(&self) -> (r: DirectoryEntry)
        ensures
            r.deep_view() == self.deep_view(),
    {
        DirectoryEntry {
            name: self.name.clone(),
            path: self.path.clone(),
            is_file: self.is_file,
            is_dir: self.is_dir,
            metadata: self.metadata,
        }
    }
}

/// Whether a listing takes an entry, given whether its name matches the
/// filter.
pub open spec fn takes(list: DirectoryListView, entry: EntryView, matched: bool) -> bool {
    &&& (list.files_only ==> entry.is_file)
    &&& (list.directories_only ==> entry.is_dir)
    &&& (list.filter is Some ==> matched)
}

/// Whether a listing takes an entry, given whether its name matches the
/// filter.
pub fn takes_entry(list: &DirectoryList, entry: &DirectoryEntry, matched: bool) -> (r: bool)
    ensures
        r == takes(list.deep_view(), entry.deep_view(), matched),
{
    (!list.files_only || entry.is_file) && (!list.directories_only || entry.is_dir) && (
    list.filter.is_none() || matched)
}

/// Whether the name of an entry matches the filter of a listing.
pub open spec fn passes_filter(list: DirectoryListView, entry: EntryView) -> bool {
    list.filter matches Some(filter) && wildcard_matches(entry.name, filter)
}

/// The entries that a listing takes.
pub open spec fn taken(list: DirectoryListView, entries: Seq<EntryView>) -> Seq<EntryView>
    decreases entries.len(),
{
    if entries.len() == 0 {
        Seq::empty()
    } else {
        let before = taken(list, entries.drop_last());
        let entry = entries.last();
        if takes(list, entry, passes_filter(list, entry)) {
            before.push(entry)
        } else {
            before
        }
    }
}

/// What entries are sorted by: their paths up to case.
pub open spec fn path_keys(entries: Seq<EntryView>) -> Seq<Seq<u64>> {
    entries.map_values(|entry: EntryView| text_key(ascii_lowercase(entry.path)))
}

/// The entries in the order of their paths.
pub open spec fn by_path(entries: Seq<EntryView>) -> Seq<EntryView> {
    order_of(path_keys(entries), false).map_values(|i: int| entries[i])
}

/// The entries of a listing, in order.
pub open spec fn listed(list: DirectoryListView, entries: Seq<EntryView>) -> Seq<EntryView> {
    by_path(taken(list, entries))
}

fn take_entries(list: &DirectoryList, entries: &Vec<DirectoryEntry>) -> (r: Vec<DirectoryEntry>)
    ensures
        r.deep_view() == taken(list.deep_view(), entries.deep_view()),
{
    let ghost view = entries.deep_view();
    let mut out: Vec<DirectoryEntry> = Vec::new();
    let mut i: usize = 0;
    assert(out.deep_view() =~= Seq::<EntryView>::empty());
    while i < entries.len()
        invariant
            i <= entries.len(),
            out.deep_view() == taken(list.deep_view(), view.take(i as int)),
        decreases entries.len() - i,
    {
        proof {
            assert(view.take(i + 1).drop_last() =~= view.take(i as int));
            assert(view.take(i + 1).last() == entries[i as int].deep_view());
        }
        let matched = match &list.filter {
            Some(filter) => wildcard_match(entries[i].name.as_str(), filter.as_str()),
            None => false,
        };
        if takes_entry(list, &entries[i], matched) {
            push_item(&mut out, entries[i].copy());
        }
        i += 1;
    }
    assert(view.take(i as int) =~= view);
    out
}

/// The entries in the order of their paths.
pub fn sort_entries(entries: &Vec<DirectoryEntry>) -> (r: Vec<DirectoryEntry>)
    ensures
        r.deep_view() == by_path(entries.deep_view()),
{
    let ghost view = entries.deep_view();
    let ghost all_keys = path_keys(view);
    let mut keys: Vec<Vec<u64>> = Vec::new();
    let mut i: usize = 0;
    while i < entries.len()
        invariant
            i <= entries.len(),
            keys.len() == i,
            forall|j: int| 0 <= j < i ==> #[trigger] keys@[j]@ == all_keys[j],
        decreases entries.len() - i,
    {
        assert(view[i as int] == entries[i as int].deep_view());
        let lower = to_ascii_lowercase(entries[i].path.as_str());
        keys.push(key_of_text(lower.as_str()));
        i += 1;
    }
    assert(keys.deep_view() =~= all_keys) by {
        assert forall|j: int| 0 <= j < all_keys.len() implies keys.deep_view()[j] == all_keys[j] by {
            assert(keys.deep_view()[j] =~= keys@[j]@);
        }
    }
    let order = sort_positions(&keys, false);
    let ghost all = by_path(view);
    let mut out: Vec<DirectoryEntry> = Vec::new();
    let mut i: usize = 0;
    assert(out.deep_view() =~= all.take(0));
    assert(positions(order@).len() == order@.len());
    while i < order.len()
        invariant
            i <= order.len(),
            out.deep_view() == all.take(i as int),
        decreases order.len() - i,
    {
        let at = order[i];
        assert(positions(order@)[i as int] == at as int);
        assert(at < entries.len());
        assert(view[at as int] == entries[at as int].deep_view());
        push_item(&mut out, entries[at].copy());
        i += 1;
        assert(out.deep_view() =~= all.take(i as int));
    }
    assert(all.take(i as int) =~= all);
    out
}

/// The failure of a listing of what is no directory.
pub open spec fn no_directory(root: Seq<char>) -> Seq<char> {
    "not a directory: "@ + root
}

/// The entries of a listing, in order, given what the file system says of the
/// root and its entries.
pub fn collect_directory_entries(
    list: &DirectoryList,
    is_dir: bool,
    entries: &Vec<DirectoryEntry>,
) -> (r: Result<Vec<DirectoryEntry>, BackendError>)
    ensures
        if is_dir {
            r matches Ok(found) && found.deep_view() == listed(
                list.deep_view(),
                entries.deep_view(),
            )
        } else {
            r matches Err(error) && error.deep_view() == no_directory(list.root@)
        },
{
    if !is_dir {
        let mut message = owned("not a directory: ");
        message.append(list.root.as_str());
        return Err(BackendError { message });
    }
    let found = take_entries(list, entries);
    Ok(sort_entries(&found))
}

/// The line of an entry: its name or its path.
pub open spec fn entry_line(list: DirectoryListView, entry: EntryView) -> Seq<char> {
    if list.names_only {
        entry.name
    } else {
        entry.path
    }
}

/// The lines of a listing.
pub open spec fn listing_lines(list: DirectoryListView, entries: Seq<EntryView>) -> Seq<Seq<char>> {
    listed(list, entries).map_values(|entry: EntryView| entry_line(list, entry))
}

/// The text of a listing, or a note that nothing is there.
pub open spec fn listing_text(list: DirectoryListView, entries: Seq<EntryView>) -> Seq<char> {
    let lines = listing_lines(list, entries);
    if lines.len() == 0 {
        "no results"@
    } else {
        joined(lines, "\n"@)
    }
}

/// The text of a listing, given what the file system says of the root and its
/// entries.
pub fn list_directory(list: &DirectoryList, is_dir: bool, entries: &Vec<DirectoryEntry>) -> (r: Result<
    String,
    BackendError,
>)
    ensures
        if is_dir {
            r matches Ok(text) && text@ == listing_text(list.deep_view(), entries.deep_view())
        } else {
            r matches Err(error) && error.deep_view() == no_directory(list.root@)
        },
{
    let found = match collect_directory_entries(list, is_dir, entries) {
        Ok(found) => found,
        Err(error) => {
            return Err(error);
        },
    };
    let ghost view = found.deep_view();
    let ghost all = listing_lines(list.deep_view(), entries.deep_view());
    let mut lines: Vec<String> = Vec::new();
    let mut i: usize = 0;
    assert(lines.deep_view() =~= all.take(0));
    while i < found.len()
        invariant
            i <= found.len(),
            lines.deep_view() == all.take(i as int),
        decreases found.len() - i,
    {
        assert(view[i as int] == found[i as int].deep_view());
        let line = if list.names_only {
            found[i].name.clone()
        } else {
            found[i].path.clone()
        };
        push_item(&mut lines, line);
        i += 1;
        assert(lines.deep_view() =~= all.take(i as int));
    }
    assert(all.take(i as int) =~= all);
    if lines.len() == 0 {
        Ok(owned("no results"))
    } else {
        Ok(join(&lines, "\n"))
    }
}

/// Whether an entry matches a pattern, in any case.
pub open spec fn name_matches(entry: EntryView, name_match: DirectoryNameMatchView) -> bool {
    accepted_match(
        any_case(name_match.pattern),
        match name_match.field {
            DirectoryMatchField::Name => entry.name,
            DirectoryMatchField::FullName => entry.path,
        },
    )
}

/// Whether an entry matches a pattern, in any case.
pub fn directory_name_matches(entry: &DirectoryEntry, name_match: &DirectoryNameMatch) -> (r: bool)
    ensures
        r == name_matches(entry.deep_view(), name_match.deep_view()),
{
    let pattern = in_any_case(name_match.pattern.as_str());
    let value = match name_match.field {
        DirectoryMatchField::Name => entry.name.as_str(),
        DirectoryMatchField::FullName => entry.path.as_str(),
    };
    matches_pattern(pattern.as_str(), value)
}

/// What is known of an entry as a file.
pub open spec fn entry_facts(entry: EntryView) -> FactsView {
    FactsView { path: entry.path, name: entry.name, metadata: entry.metadata }
}

/// The entries that match, as files.
pub open spec fn matching_facts(
    entries: Seq<EntryView>,
    name_match: Option<DirectoryNameMatchView>,
) -> Seq<FactsView>
    decreases entries.len(),
{
    if entries.len() == 0 {
        Seq::empty()
    } else {
        let before = matching_facts(entries.drop_last(), name_match);
        let entry = entries.last();
        if name_match matches Some(name_match) ==> name_matches(entry, name_match) {
            before.push(entry_facts(entry))
        } else {
            before
        }
    }
}

/// The text of a filtered and projected listing.
pub open spec fn pipeline_text(pipeline: DirectoryPipelineView, entries: Seq<EntryView>) -> Seq<
    char,
> {
    joined(
        projected_lines(
            matching_facts(listed(pipeline.list, entries), pipeline.name_match),
            pipeline.projection,
        ),
        "\n"@,
    )
}

/// The text of a filtered and projected listing, given what the file system
/// says of the root and its entries.
pub fn list_directory_projection(
    pipeline: &DirectoryPipeline,
    is_dir: bool,
    entries: &Vec<DirectoryEntry>,
) -> (r: Result<String, BackendError>)
    ensures
        if is_dir {
            r matches Ok(text) && text@ == pipeline_text(pipeline.deep_view(), entries.deep_view())
        } else {
            r matches Err(error) && error.deep_view() == no_directory(pipeline.list.root@)
        },
{
    let found = match collect_directory_entries(&pipeline.list, is_dir, entries) {
        Ok(found) => found,
        Err(error) => {
            return Err(error);
        },
    };
    let ghost view = found.deep_view();
    let ghost m = pipeline.name_match.deep_view();
    let mut files: Vec<FileFacts> = Vec::new();
    let mut i: usize = 0;
    assert(files.deep_view() =~= Seq::<FactsView>::empty());
    while i < found.len()
        invariant
            i <= found.len(),
            files.deep_view() == matching_facts(view.take(i as int), m),
        decreases found.len() - i,
    {
        proof {
            assert(view.take(i + 1).drop_last() =~= view.take(i as int));
            assert(view.take(i + 1).last() == found[i as int].deep_view());
        }
        let keep = match &pipeline.name_match {
            Some(name_match) => directory_name_matches(&found[i], name_match),
            None => true,
        };
        if keep {
            push_item(
                &mut files,
                FileFacts {
                    path: found[i].path.clone(),
                    name: found[i].name.clone(),
                    metadata: found[i].metadata,
                },
            );
        }
        i += 1;
    }
    assert(view.take(i as int) =~= view);
    Ok(render_projection(&files, &pipeline.projection))
}

} // verus!
