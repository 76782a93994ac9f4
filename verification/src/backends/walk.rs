//! Walking through directories: what is still to be looked at, and what to
//! do with what is found there. The looking itself is up to the caller.
#![verifier::loop_isolation(false)]

use super::grep::{
    add_blocks, at_most, blocks_in, check_context_query, match_lines, matches_in, search_file,
    searchable, verdicts_on, GrepContextQuery, GrepContextQueryView, GrepMatch, GrepQuery,
    GrepQueryView, MatchView,
};
use crate::error::BackendError;
use crate::split::{join, joined, lines, lines_of};
use crate::text::{owned, push_item};
use vstd::prelude::*;

verus! {

// What is to come.

/// Something still to be done.
#[derive(Debug, Clone, PartialEq, Eq)]
pub enum Pending {
    /// A path to be looked at; where it is required, it must exist.
    Path { path: String, required: bool },
    /// A failure that ends the walk when it is reached.
    Fail { message: String },
}

/// The contents of something still to be done.
#[verifier::ext_equal]
pub ghost enum PendingView {
    Path { path: Seq<char>, required: bool },
    Fail { message: Seq<char> },
}

impl DeepView for Pending {
    type V = PendingView;

    open spec fn deep_view(&self) -> PendingView {
        match self {
            Pending::Path { path, required } => PendingView::Path {
                path: path@,
                required: *required,
            },
            Pending::Fail { message } => PendingView::Fail { message: message@ },
        }
    }
}

/// What is found at a path.
#[derive(Debug, Clone, PartialEq, Eq)]
pub enum Visit {
    /// A directory with its entries, and the failure that ended their
    /// listing, if one did.
    Directory { entries: Vec<String>, failure: Option<String> },
    /// A directory that cannot be listed.
    Unlisted { message: String },
    /// A file with its text.
    File { text: String },
    /// A file that cannot be read, or something else.
    Other,
    /// Nothing.
    Missing,
}

/// The contents of what is found.
#[verifier::ext_equal]
pub ghost enum VisitView {
    Directory { entries: Seq<Seq<char>>, failure: Option<Seq<char>> },
    Unlisted { message: Seq<char> },
    File { text: Seq<char> },
    Other,
    Missing,
}

impl DeepView for Visit {
    type V = VisitView;

    open spec fn deep_view(&self) -> VisitView {
        match self {
            Visit::Directory { entries, failure } => VisitView::Directory {
                entries: entries.deep_view(),
                failure: failure.deep_view(),
            },
            Visit::Unlisted { message } => VisitView::Unlisted { message: message@ },
            Visit::File { text } => VisitView::File { text: text@ },
            Visit::Other => VisitView::Other,
            Visit::Missing => VisitView::Missing,
        }
    }
}

/// The failure of a walk whose root is missing.
pub open spec fn missing_root(path: Seq<char>) -> Seq<char> {
    "grep context root does not exist: "@ + path
}

/// Paths to be looked at.
pub open spec fn path_items(paths: Seq<Seq<char>>, required: bool) -> Seq<PendingView> {
    paths.map_values(|path: Seq<char>| PendingView::Path { path, required })
}

/// A failure to come, if there is one.
pub open spec fn fail_items(failure: Option<Seq<char>>) -> Seq<PendingView> {
    match failure {
        Some(message) => seq![PendingView::Fail { message }],
        None => Seq::empty(),
    }
}

/// What is to come after the first path is looked at.
pub open spec fn queue_after(queue: Seq<PendingView>, visit: VisitView) -> Seq<PendingView> {
    match visit {
        VisitView::Directory { entries, failure } => path_items(entries, false) + fail_items(
            failure,
        ) + queue.skip(1),
        VisitView::Unlisted { message } => seq![PendingView::Fail { message }] + queue.skip(1),
        VisitView::File { .. } => queue.skip(1),
        VisitView::Other => queue.skip(1),
        VisitView::Missing => if queue[0]->required {
            seq![PendingView::Fail { message: missing_root(queue[0]->path) }] + queue.skip(1)
        } else {
            queue.skip(1)
        },
    }
}

/// The file to search after the first path is looked at.
pub open spec fn file_after(queue: Seq<PendingView>, visit: VisitView) -> Option<
    (Seq<char>, Seq<char>),
> {
    match visit {
        VisitView::File { text } => Some((queue[0]->path, text)),
        _ => None,
    }
}

/// What is to come, the next last.
#[derive(Debug)]
pub struct Walk {
    pub pending: Vec<Pending>,
}

impl Walk {
    /// What is to come, the next first.
    pub open spec fn queue(&self) -> Seq<PendingView> {
        self.pending.deep_view().reverse()
    }

    /// A walk that starts with the given roots.
    pub fn new(roots: &Vec<String>, required: bool) -> (r: Walk)
        ensures
            r.queue() == path_items(roots.deep_view(), required),
    {
        let mut walk = Walk { pending: Vec::new() };
        assert(walk.queue() =~= Seq::<PendingView>::empty());
        walk.push_paths(roots, required);
        assert(walk.queue() =~= path_items(roots.deep_view(), required));
        walk
    }

    fn push_paths(&mut self, paths: &Vec<String>, required: bool)
        ensures
            final(self).queue() == path_items(paths.deep_view(), required) + old(self).queue(),
    {
        let ghost view = paths.deep_view();
        let ghost before = self.queue();
        let mut i: usize = paths.len();
        assert(view.skip(i as int) =~= Seq::<Seq<char>>::empty());
        assert(path_items(view.skip(i as int), required) + before =~= before);
        while i > 0
            invariant
                i <= paths.len(),
                self.queue() == path_items(view.skip(i as int), required) + before,
            decreases i,
        {
            let ghost so_far = self.queue();
            i -= 1;
            let item = Pending::Path { path: paths[i].clone(), required };
            let ghost item_view = item.deep_view();
            push_item(&mut self.pending, item);
            proof {
                assert(view[i as int] == paths[i as int]@);
                assert(self.queue() =~= seq![item_view] + so_far);
                assert(self.queue() =~= path_items(view.skip(i as int), required) + before);
            }
        }
        assert(view.skip(0) =~= view);
    }

    fn push_failure(&mut self, message: String)
        ensures
            final(self).queue() == seq![PendingView::Fail { message: message@ }] + old(
                self,
            ).queue(),
    {
        let ghost before = self.queue();
        push_item(&mut self.pending, Pending::Fail { message });
        assert(self.queue() =~= seq![PendingView::Fail { message: message@ }] + before);
    }

    /// The next path to be looked at; none at the end or before a failure.
    pub fn next_path(&self) -> (r: Option<String>)
        ensures
            match r {
                Some(path) => self.queue().len() > 0 && self.queue()[0] is Path && self.queue()[0]->path
                    == path@,
                None => self.queue().len() == 0 || self.queue()[0] is Fail,
            },
    {
        let n = self.pending.len();
        if n == 0 {
            return None;
        }
        assert(self.queue()[0] == self.pending[n - 1].deep_view());
        match &self.pending[n - 1] {
            Pending::Path { path, required: _ } => Some(path.clone()),
            Pending::Fail { message: _ } => None,
        }
    }

    /// The failure that comes next, if one does.
    pub fn next_failure(&self) -> (r: Option<String>)
        ensures
            match r {
                Some(message) => self.queue().len() > 0 && self.queue()[0] is Fail
                    && self.queue()[0]->message == message@,
                None => self.queue().len() == 0 || self.queue()[0] is Path,
            },
    {
        let n = self.pending.len();
        if n == 0 {
            return None;
        }
        assert(self.queue()[0] == self.pending[n - 1].deep_view());
        match &self.pending[n - 1] {
            Pending::Path { path: _, required: _ } => None,
            Pending::Fail { message } => Some(message.clone()),
        }
    }

    /// Goes on with what is found at the next path. Gives the file to search,
    /// if it is one.
    pub fn visit(&mut self, visit: Visit) -> (r: Option<(String, String)>)
        requires
            old(self).queue().len() > 0,
            old(self).queue()[0] is Path,
        ensures
            final(self).queue() == queue_after(old(self).queue(), visit.deep_view()),
            r.deep_view() == file_after(old(self).queue(), visit.deep_view()),
    {
        let ghost before = self.queue();
        let ghost items = self.pending.deep_view();
        let n = self.pending.len();
        proof {
            assert(before[0] == self.pending[n - 1].deep_view());
        }
        let (path, required) = match self.pending.pop() {
            Some(Pending::Path { path, required }) => (path, required),
            _ => {
                return None;
            },
        };
        assert(self.queue() =~= before.skip(1)) by {
            assert(self.pending.deep_view() =~= items.drop_last());
        }
        match visit {
            Visit::Directory { entries, failure } => {
                match failure {
                    Some(message) => {
                        self.push_failure(message);
                    },
                    None => {
                        assert(fail_items(None) + before.skip(1) =~= before.skip(1));
                    },
                }
                self.push_paths(&entries, false);
                assert(self.queue() =~= queue_after(before, visit.deep_view()));
                None
            },
            Visit::Unlisted { message } => {
                self.push_failure(message);
                None
            },
            Visit::File { text } => Some((path, text)),
            Visit::Other => None,
            Visit::Missing => {
                if required {
                    let mut message = owned("grep context root does not exist: ");
                    message.append(path.as_str());
                    self.push_failure(message);
                }
                None
            },
        }
    }
}

impl Walk {
    /// Ends the walk at the next path, with a failure if it is missing and
    /// must exist.
    fn end_with(&mut self, missing: bool)
        requires
            old(self).queue().len() > 0,
            old(self).queue()[0] is Path,
        ensures
            final(self).queue() == if missing && old(self).queue()[0]->required {
                seq![PendingView::Fail { message: missing_root(old(self).queue()[0]->path) }]
            } else {
                Seq::empty()
            },
    {
        let n = self.pending.len();
        assert(self.queue()[0] == self.pending[n - 1].deep_view());
        let last = self.pending.pop();
        self.pending = Vec::new();
        assert(self.queue() =~= Seq::<PendingView>::empty());
        if let Some(Pending::Path { path, required }) = last {
            if missing && required {
                let mut message = owned("grep context root does not exist: ");
                message.append(path.as_str());
                self.push_failure(message);
                assert(self.queue() =~= seq![
                    PendingView::Fail { message: missing_root(path@) },
                ]);
            }
        }
    }
}

// Searches.

/// A search for lines on its way.
#[derive(Debug)]
pub struct GrepWalk {
    pub walk: Walk,
    pub matches: Vec<GrepMatch>,
}

/// The result of a search so far, after what a visit adds.
pub open spec fn matches_after(
    matches: Seq<MatchView>,
    query: GrepQueryView,
    file: Option<(Seq<char>, Seq<char>)>,
) -> Seq<MatchView> {
    match file {
        Some((path, text)) => at_most(
            matches + matches_in(path, lines_of(text), query),
            query.limit as nat,
        ),
        None => matches,
    }
}

/// Starts a search for lines.
pub fn grep(query: &GrepQuery) -> (r: GrepWalk)
    ensures
        r.walk.queue() == path_items(query.roots.deep_view(), false),
        r.matches.deep_view() == Seq::<MatchView>::empty(),
{
    let matches: Vec<GrepMatch> = Vec::new();
    assert(matches.deep_view() =~= Seq::<MatchView>::empty());
    GrepWalk { walk: Walk::new(&query.roots, false), matches }
}

impl GrepWalk {
    /// The next path to be looked at; none where the search is over.
    pub fn next_path(&self, query: &GrepQuery) -> (r: Option<String>)
        ensures
            match r {
                Some(path) => self.matches.len() < query.limit && self.walk.queue().len() > 0
                    && self.walk.queue()[0] is Path && self.walk.queue()[0]->path == path@,
                None => self.matches.len() >= query.limit || self.walk.queue().len() == 0
                    || self.walk.queue()[0] is Fail,
            },
    {
        if self.matches.len() >= query.limit {
            return None;
        }
        self.walk.next_path()
    }

    /// Goes on with what is found at the next path.
    pub fn visit(&mut self, query: &GrepQuery, visit: Visit)
        requires
            old(self).matches.len() <= query.limit,
            old(self).walk.queue().len() > 0,
            old(self).walk.queue()[0] is Path,
        ensures
            final(self).matches.len() <= query.limit,
            final(self).walk.queue() == queue_after(old(self).walk.queue(), visit.deep_view()),
            final(self).matches.deep_view() == matches_after(
                old(self).matches.deep_view(),
                query.deep_view(),
                file_after(old(self).walk.queue(), visit.deep_view()),
            ),
    {
        if let Some((path, text)) = self.walk.visit(visit) {
            search_file(path.as_str(), text.as_str(), query, &mut self.matches);
        }
    }

    /// The result of the search.
    pub fn finish(self, query: &GrepQuery) -> (r: Result<Vec<GrepMatch>, BackendError>)
        ensures
            if self.matches.len() < query.limit && self.walk.queue().len() > 0
                && self.walk.queue()[0] is Fail {
                r matches Err(error) && error.deep_view() == self.walk.queue()[0]->message
            } else {
                r matches Ok(matches) && matches.deep_view() == self.matches.deep_view()
            },
    {
        if self.matches.len() < query.limit {
            if let Some(message) = self.walk.next_failure() {
                return Err(BackendError { message });
            }
        }
        Ok(self.matches)
    }
}

/// A search with context on its way.
#[derive(Debug)]
pub struct ContextWalk {
    pub walk: Walk,
    pub blocks: Vec<String>,
}

/// The blocks of a file.
pub open spec fn file_blocks(path: Seq<char>, text: Seq<char>, query: GrepContextQueryView) -> Seq<
    Seq<char>,
> {
    let lines = lines_of(text);
    blocks_in(path, lines, query, verdicts_on(query, lines), lines.len())
}

/// The blocks so far, after what a visit adds.
pub open spec fn blocks_after(
    blocks: Seq<Seq<char>>,
    query: GrepContextQueryView,
    file: Option<(Seq<char>, Seq<char>)>,
) -> Seq<Seq<char>> {
    match file {
        Some((path, text)) => at_most(
            blocks + file_blocks(path, text, query),
            query.limit as nat,
        ),
        None => blocks,
    }
}

/// What is to come in a search with context after the first path is looked
/// at. Where nothing is wanted, only the first root is looked at, and only
/// whether it is there.
pub open spec fn context_queue_after(
    queue: Seq<PendingView>,
    visit: VisitView,
    limit: nat,
) -> Seq<PendingView> {
    if limit > 0 {
        queue_after(queue, visit)
    } else if visit is Missing && queue[0]->required {
        seq![PendingView::Fail { message: missing_root(queue[0]->path) }]
    } else {
        Seq::empty()
    }
}

/// Starts a search with context; fails where the pattern is not accepted.
/// The wording of that error is that of the regular expressions.
pub fn grep_context(query: &GrepContextQuery) -> (r: Result<ContextWalk, BackendError>)
    ensures
        r is Ok <==> searchable(query.deep_view()),
        r matches Ok(walk) ==> walk.walk.queue() == path_items(query.roots.deep_view(), true)
            && walk.blocks.deep_view() == Seq::<Seq<char>>::empty(),
{
    match check_context_query(query) {
        Ok(_) => {
            let blocks: Vec<String> = Vec::new();
            assert(blocks.deep_view() =~= Seq::<Seq<char>>::empty());
            Ok(ContextWalk { walk: Walk::new(&query.roots, true), blocks })
        },
        Err(error) => Err(error),
    }
}

impl ContextWalk {
    /// The next path to be looked at; none where the search is over.
    pub fn next_path(&self, query: &GrepContextQuery) -> (r: Option<String>)
        ensures
            match r {
                Some(path) => (query.limit == 0 || self.blocks.len() < query.limit)
                    && self.walk.queue().len() > 0 && self.walk.queue()[0] is Path
                    && self.walk.queue()[0]->path == path@,
                None => (query.limit > 0 && self.blocks.len() >= query.limit)
                    || self.walk.queue().len() == 0 || self.walk.queue()[0] is Fail,
            },
    {
        if query.limit > 0 && self.blocks.len() >= query.limit {
            return None;
        }
        self.walk.next_path()
    }

    /// Goes on with what is found at the next path. A query that cannot be
    /// run finds nothing.
    pub fn visit(&mut self, query: &GrepContextQuery, visit: Visit)
        requires
            old(self).blocks.len() <= query.limit,
            old(self).walk.queue().len() > 0,
            old(self).walk.queue()[0] is Path,
        ensures
            final(self).blocks.len() <= query.limit,
            final(self).walk.queue() == context_queue_after(
                old(self).walk.queue(),
                visit.deep_view(),
                query.limit as nat,
            ),
            searchable(query.deep_view()) ==> final(self).blocks.deep_view() == blocks_after(
                old(self).blocks.deep_view(),
                query.deep_view(),
                file_after(old(self).walk.queue(), visit.deep_view()),
            ),
            !searchable(query.deep_view()) ==> final(self).blocks.deep_view() == old(
                self,
            ).blocks.deep_view(),
    {
        if query.limit == 0 {
            let ghost blocks = self.blocks.deep_view();
            self.walk.end_with(matches!(visit, Visit::Missing));
            assert(self.blocks.deep_view() =~= blocks);
            assert(blocks =~= Seq::<Seq<char>>::empty());
            return;
        }
        if let Some((path, text)) = self.walk.visit(visit) {
            let all = lines(text.as_str());
            if let Some(verdicts) = match_lines(query, &all) {
                add_blocks(path.as_str(), &all, query, &verdicts, &mut self.blocks);
            }
        }
    }

    /// The result of the search: the blocks with a line between them.
    pub fn finish(self, query: &GrepContextQuery) -> (r: Result<String, BackendError>)
        ensures
            if (query.limit == 0 || self.blocks.len() < query.limit) && self.walk.queue().len() > 0
                && self.walk.queue()[0] is Fail {
                r matches Err(error) && error.deep_view() == self.walk.queue()[0]->message
            } else {
                r matches Ok(text) && text@ == joined(self.blocks.deep_view(), "\n--\n"@)
            },
    {
        if query.limit == 0 || self.blocks.len() < query.limit {
            if let Some(message) = self.walk.next_failure() {
                return Err(BackendError { message });
            }
        }
        Ok(join(&self.blocks, "\n--\n"))
    }
}

// Trees.

/// What stands at a path, with all below it.
pub ghost enum FileTree {
    Directory { path: Seq<char>, entries: Seq<FileTree>, failure: Option<Seq<char>> },
    Unlisted { path: Seq<char>, message: Seq<char> },
    File { path: Seq<char>, text: Seq<char> },
    Other { path: Seq<char> },
    Missing { path: Seq<char> },
}

impl FileTree {
    /// Where the tree stands.
    pub open spec fn place(self) -> Seq<char> {
        match self {
            FileTree::Directory { path, .. } => path,
            FileTree::Unlisted { path, .. } => path,
            FileTree::File { path, .. } => path,
            FileTree::Other { path } => path,
            FileTree::Missing { path } => path,
        }
    }

    /// What is found where the tree stands.
    pub open spec fn found(self) -> VisitView {
        match self {
            FileTree::Directory { entries, failure, .. } => VisitView::Directory {
                entries: entries.map_values(|t: FileTree| t.place()),
                failure,
            },
            FileTree::Unlisted { message, .. } => VisitView::Unlisted { message },
            FileTree::File { text, .. } => VisitView::File { text },
            FileTree::Other { .. } => VisitView::Other,
            FileTree::Missing { .. } => VisitView::Missing,
        }
    }
}

/// Searches a tree in depth, entries in order, until as much is found as is
/// wanted or something fails: what is found, on top of what was, and the
/// failure. `search` tells what is found in a file.
pub open spec fn search_tree<R>(
    tree: FileTree,
    required: bool,
    limit: nat,
    search: spec_fn(Seq<char>, Seq<char>) -> Seq<R>,
    found: Seq<R>,
) -> (Seq<R>, Option<Seq<char>>)
    decreases tree, 0nat,
{
    if found.len() >= limit {
        (found, None)
    } else {
        match tree {
            FileTree::Directory { entries, failure, .. } => {
                let (more, failed) = search_entries(entries, entries.len(), limit, search, found);
                if failed is Some || more.len() >= limit {
                    (more, failed)
                } else {
                    (more, failure)
                }
            },
            FileTree::Unlisted { message, .. } => (found, Some(message)),
            FileTree::File { path, text } => (at_most(found + search(path, text), limit), None),
            FileTree::Other { .. } => (found, None),
            FileTree::Missing { path } => if required {
                (found, Some(missing_root(path)))
            } else {
                (found, None)
            },
        }
    }
}

/// Searches the first `n` entries of a directory.
pub open spec fn search_entries<R>(
    entries: Seq<FileTree>,
    n: nat,
    limit: nat,
    search: spec_fn(Seq<char>, Seq<char>) -> Seq<R>,
    found: Seq<R>,
) -> (Seq<R>, Option<Seq<char>>)
    decreases entries, n,
{
    if n == 0 || n > entries.len() {
        (found, None)
    } else {
        let (more, failed) = search_entries(entries, (n - 1) as nat, limit, search, found);
        if failed is Some {
            (more, failed)
        } else {
            search_tree(entries[n - 1], false, limit, search, more)
        }
    }
}

/// A tree to be searched, or a failure.
pub ghost enum Item {
    Search { tree: FileTree, required: bool },
    Fail { message: Seq<char> },
}

impl Item {
    /// What the walk knows of the item.
    pub open spec fn pending(self) -> PendingView {
        match self {
            Item::Search { tree, required } => PendingView::Path { path: tree.place(), required },
            Item::Fail { message } => PendingView::Fail { message },
        }
    }
}

/// What the walk knows of the items.
pub open spec fn known(items: Seq<Item>) -> Seq<PendingView> {
    items.map_values(|item: Item| item.pending())
}

/// Searches one item.
pub open spec fn search_item<R>(
    item: Item,
    limit: nat,
    search: spec_fn(Seq<char>, Seq<char>) -> Seq<R>,
    found: Seq<R>,
) -> (Seq<R>, Option<Seq<char>>) {
    match item {
        Item::Search { tree, required } => search_tree(tree, required, limit, search, found),
        Item::Fail { message } => if found.len() >= limit {
            (found, None)
        } else {
            (found, Some(message))
        },
    }
}

/// Searches the items in order.
pub open spec fn search_items<R>(
    items: Seq<Item>,
    limit: nat,
    search: spec_fn(Seq<char>, Seq<char>) -> Seq<R>,
    found: Seq<R>,
) -> (Seq<R>, Option<Seq<char>>)
    decreases items.len(),
{
    if items.len() == 0 {
        (found, None)
    } else {
        let (more, failed) = search_item(items[0], limit, search, found);
        if failed is Some {
            (more, failed)
        } else {
            search_items(items.skip(1), limit, search, more)
        }
    }
}

/// The items after the first is looked at.
pub open spec fn items_after(items: Seq<Item>) -> Seq<Item> {
    match items[0] {
        Item::Search { tree, required } => match tree {
            FileTree::Directory { entries, failure, .. } => entries.map_values(
                |t: FileTree| Item::Search { tree: t, required: false },
            ) + match failure {
                Some(message) => seq![Item::Fail { message }],
                None => Seq::empty(),
            } + items.skip(1),
            FileTree::Unlisted { message, .. } => seq![Item::Fail { message }] + items.skip(1),
            FileTree::File { .. } => items.skip(1),
            FileTree::Other { .. } => items.skip(1),
            FileTree::Missing { path } => if required {
                seq![Item::Fail { message: missing_root(path) }] + items.skip(1)
            } else {
                items.skip(1)
            },
        },
        Item::Fail { .. } => items,
    }
}

proof fn lemma_search_full<R>(
    items: Seq<Item>,
    limit: nat,
    search: spec_fn(Seq<char>, Seq<char>) -> Seq<R>,
    found: Seq<R>,
)
    requires
        found.len() >= limit,
    ensures
        search_items(items, limit, search, found) == (found, None::<Seq<char>>),
    decreases items.len(),
{
    if items.len() > 0 {
        lemma_search_full(items.skip(1), limit, search, found);
    }
}

proof fn lemma_search_parts<R>(
    first: Seq<Item>,
    second: Seq<Item>,
    limit: nat,
    search: spec_fn(Seq<char>, Seq<char>) -> Seq<R>,
    found: Seq<R>,
)
    ensures
        search_items(first + second, limit, search, found) == {
            let (more, failed) = search_items(first, limit, search, found);
            if failed is Some {
                (more, failed)
            } else {
                search_items(second, limit, search, more)
            }
        },
    decreases first.len(),
{
    if first.len() == 0 {
        assert(first + second =~= second);
    } else {
        assert((first + second)[0] == first[0]);
        assert((first + second).skip(1) =~= first.skip(1) + second);
        let (more, failed) = search_item(first[0], limit, search, found);
        if failed is None {
            lemma_search_parts(first.skip(1), second, limit, search, more);
        }
    }
}

proof fn lemma_search_last<R>(
    items: Seq<Item>,
    last: Item,
    limit: nat,
    search: spec_fn(Seq<char>, Seq<char>) -> Seq<R>,
    found: Seq<R>,
)
    ensures
        search_items(items.push(last), limit, search, found) == {
            let (more, failed) = search_items(items, limit, search, found);
            if failed is Some {
                (more, failed)
            } else {
                search_item(last, limit, search, more)
            }
        },
{
    assert(items.push(last) =~= items + seq![last]);
    lemma_search_parts(items, seq![last], limit, search, found);
    let (more, failed) = search_items(items, limit, search, found);
    if failed is None {
        assert(seq![last].skip(1) =~= Seq::<Item>::empty());
        let (rest, end) = search_item(last, limit, search, more);
        assert(search_items(seq![last], limit, search, more) == (if end is Some {
            (rest, end)
        } else {
            search_items(Seq::<Item>::empty(), limit, search, rest)
        }));
    }
}

proof fn lemma_search_entries<R>(
    entries: Seq<FileTree>,
    n: nat,
    limit: nat,
    search: spec_fn(Seq<char>, Seq<char>) -> Seq<R>,
    found: Seq<R>,
)
    requires
        n <= entries.len(),
    ensures
        search_items(
            entries.take(n as int).map_values(|t: FileTree| Item::Search { tree: t, required: false }),
            limit,
            search,
            found,
        ) == search_entries(entries, n, limit, search, found),
    decreases n,
{
    let items = entries.take(n as int).map_values(
        |t: FileTree| Item::Search { tree: t, required: false },
    );
    if n > 0 {
        let m = (n - 1) as nat;
        let before = entries.take(m as int).map_values(
            |t: FileTree| Item::Search { tree: t, required: false },
        );
        lemma_search_entries(entries, m, limit, search, found);
        let last = Item::Search { tree: entries[n - 1], required: false };
        assert(items =~= before.push(last));
        lemma_search_last(before, last, limit, search, found);
    }
}

proof fn lemma_search_directory<R>(
    items: Seq<Item>,
    limit: nat,
    search: spec_fn(Seq<char>, Seq<char>) -> Seq<R>,
    found: Seq<R>,
)
    requires
        items.len() > 0,
        found.len() < limit,
        items[0] matches Item::Search { tree, .. } && tree is Directory,
    ensures
        search_items(items_after(items), limit, search, found) == search_items(
            items,
            limit,
            search,
            found,
        ),
{
    if let Item::Search { tree, required } = items[0] {
        if let FileTree::Directory { path, entries, failure } = tree {
            let children = entries.map_values(|t: FileTree| Item::Search { tree: t, required: false });
            let fails = match failure {
                Some(message) => seq![Item::Fail { message }],
                None => Seq::<Item>::empty(),
            };
            let rest = items.skip(1);
            assert(entries.take(entries.len() as int) =~= entries);
            lemma_search_entries(entries, entries.len(), limit, search, found);
            assert(items_after(items) =~= children + (fails + rest));
            lemma_search_parts(children, fails + rest, limit, search, found);
            let (more, failed) = search_items(children, limit, search, found);
            if failed is None {
                if more.len() >= limit {
                    lemma_search_full(fails + rest, limit, search, more);
                    lemma_search_full(rest, limit, search, more);
                } else {
                    match failure {
                        Some(message) => {
                            assert((fails + rest)[0] == Item::Fail { message });
                        },
                        None => {
                            assert(fails + rest =~= rest);
                        },
                    }
                }
            }
        }
    }
}

/// Looking at the next path keeps what the search will give: with the items
/// after it, and what is found in it, the search ends as it would have.
pub proof fn law_visit_keeps_result<R>(
    items: Seq<Item>,
    limit: nat,
    search: spec_fn(Seq<char>, Seq<char>) -> Seq<R>,
    found: Seq<R>,
)
    requires
        items.len() > 0,
        items[0] is Search,
        found.len() < limit,
    ensures
        ({
            let visit = items[0]->tree.found();
            let now = match file_after(known(items), visit) {
                Some((path, text)) => at_most(found + search(path, text), limit),
                None => found,
            };
            &&& known(items_after(items)) == queue_after(known(items), visit)
            &&& search_items(items_after(items), limit, search, now) == search_items(
                items,
                limit,
                search,
                found,
            )
        }),
{
    let visit = items[0]->tree.found();
    let required = items[0]->required;
    let rest = items.skip(1);
    assert(known(items)[0] == items[0].pending());
    assert(known(rest) =~= known(items).skip(1));
    match items[0]->tree {
        FileTree::Directory { path, entries, failure } => {
            lemma_search_directory(items, limit, search, found);
            assert(known(items_after(items)) =~= queue_after(known(items), visit));
        },
        FileTree::Unlisted { path, message } => {
            let after = items_after(items);
            assert(after[0] == Item::Fail { message });
            assert(known(after) =~= queue_after(known(items), visit));
        },
        FileTree::File { path, text } => {},
        FileTree::Other { path } => {},
        FileTree::Missing { path } => {
            if required {
                let after = items_after(items);
                assert(after[0] == Item::Fail { message: missing_root(path) });
                assert(known(after) =~= queue_after(known(items), visit));
            }
        },
    }
}

/// Where as much is found as is wanted, or nothing is left, or a failure
/// comes next, the search is over.
pub proof fn law_search_is_over<R>(
    items: Seq<Item>,
    limit: nat,
    search: spec_fn(Seq<char>, Seq<char>) -> Seq<R>,
    found: Seq<R>,
)
    requires
        found.len() >= limit || items.len() == 0 || items[0] is Fail,
    ensures
        search_items(items, limit, search, found) == (
            found,
            if found.len() < limit && items.len() > 0 {
                Some(items[0]->message)
            } else {
                None
            },
        ),
{
    if found.len() >= limit {
        lemma_search_full(items, limit, search, found);
    }
}

/// A search never gives more than is wanted.
pub proof fn law_search_is_bounded<R>(
    items: Seq<Item>,
    limit: nat,
    search: spec_fn(Seq<char>, Seq<char>) -> Seq<R>,
    found: Seq<R>,
)
    requires
        found.len() <= limit,
    ensures
        search_items(items, limit, search, found).0.len() <= limit,
    decreases items.len(),
{
    if items.len() > 0 {
        if let Item::Search { tree, required } = items[0] {
            lemma_tree_is_bounded(tree, required, limit, search, found);
        }
        let (more, failed) = search_item(items[0], limit, search, found);
        if failed is None {
            law_search_is_bounded(items.skip(1), limit, search, more);
        }
    }
}

proof fn lemma_tree_is_bounded<R>(
    tree: FileTree,
    required: bool,
    limit: nat,
    search: spec_fn(Seq<char>, Seq<char>) -> Seq<R>,
    found: Seq<R>,
)
    requires
        found.len() <= limit,
    ensures
        search_tree(tree, required, limit, search, found).0.len() <= limit,
    decreases tree, 0nat,
{
    if found.len() < limit {
        if let FileTree::Directory { entries, .. } = tree {
            lemma_entries_are_bounded(entries, entries.len(), limit, search, found);
        }
    }
}

proof fn lemma_entries_are_bounded<R>(
    entries: Seq<FileTree>,
    n: nat,
    limit: nat,
    search: spec_fn(Seq<char>, Seq<char>) -> Seq<R>,
    found: Seq<R>,
)
    requires
        found.len() <= limit,
    ensures
        search_entries(entries, n, limit, search, found).0.len() <= limit,
    decreases entries, n,
{
    if 0 < n <= entries.len() {
        lemma_entries_are_bounded(entries, (n - 1) as nat, limit, search, found);
        let (more, failed) = search_entries(entries, (n - 1) as nat, limit, search, found);
        if failed is None {
            lemma_tree_is_bounded(entries[n - 1], false, limit, search, more);
        }
    }
}

} // verus!
