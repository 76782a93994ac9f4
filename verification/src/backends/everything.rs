//! File name search.
#![verifier::loop_isolation(false)]

use crate::error::BackendError;
use crate::split::{join, joined};
use crate::text::{clone_option, owned, push_item};
use vstd::prelude::*;

verus! {

/// A search for file names.
#[derive(Debug, Clone, PartialEq, Eq)]
pub struct FindQuery {
    pub root: Option<String>,
    pub pattern: String,
    pub files_only: bool,
    pub limit: usize,
}

/// The contents of a search.
#[verifier::ext_equal]
pub ghost struct FindQueryView {
    pub root: Option<Seq<char>>,
    pub pattern: Seq<char>,
    pub files_only: bool,
    pub limit: usize,
}

impl DeepView for FindQuery {
    type V = FindQueryView;

    open spec fn deep_view(&self) -> FindQueryView {
        FindQueryView {
            root: self.root.deep_view(),
            pattern: self.pattern@,
            files_only: self.files_only,
            limit: self.limit,
        }
    }
}

impl FindQuery {
    /// A copy of the search.
    pub fn copy(&self) -> (r: FindQuery)
        ensures
            r.deep_view() == self.deep_view(),
    {
        FindQuery {
            root: clone_option(&self.root),
            pattern: self.pattern.clone(),
            files_only: self.files_only,
            limit: self.limit,
        }
    }
}

/// Something that finds files by name.
pub trait FileFinder {
    /// Whether the finder may give a result for a search. One that does not
    /// say so may give anything.
    open spec fn may_give(&self, query: FindQueryView, r: Result<Vec<String>, BackendError>) -> bool {
        true
    }

    fn find(&self, query: &FindQuery) -> (r: Result<Vec<String>, BackendError>)
        ensures
            self.may_give(query.deep_view(), r),
    ;
}

/// What a finder may give, for each search.
pub open spec fn answers_of<F: FileFinder + ?Sized>(finder: &F) -> spec_fn(
    FindQueryView,
    Result<Vec<String>, BackendError>,
) -> bool {
    |query: FindQueryView, r: Result<Vec<String>, BackendError>| finder.may_give(query, r)
}

/// A finder that asks another one: it hands on a finder of which nothing but
/// its trait is known.
pub struct LentFinder<'a, F: FileFinder + ?Sized> {
    pub finder: &'a F,
}

impl<'a, F: FileFinder + ?Sized> FileFinder for LentFinder<'a, F> {
    open spec fn may_give(&self, query: FindQueryView, r: Result<Vec<String>, BackendError>) -> bool {
        self.finder.may_give(query, r)
    }

    fn find(&self, query: &FindQuery) -> (r: Result<Vec<String>, BackendError>) {
        self.finder.find(query)
    }
}

proof fn lemma_lent<F: FileFinder + ?Sized>(
    lent: LentFinder<F>,
    query: FindQueryView,
    r: Result<Vec<String>, BackendError>,
)
    ensures
        lent.may_give(query, r) == lent.finder.may_give(query, r),
{
}

/// A finder that asks the given one.
pub fn lend<F: FileFinder + ?Sized>(finder: &F) -> (lent: LentFinder<F>)
    ensures
        answers_of(&lent) == answers_of(finder),
{
    let lent = LentFinder { finder };
    proof {
        assert forall|query: FindQueryView, r: Result<Vec<String>, BackendError>|
            #[trigger] finder.may_give(query, r) == lent.may_give(query, r) by {
            lemma_lent(lent, query, r);
        }
    }
    assert(answers_of(&lent) =~= answers_of(finder));
    lent
}

/// The words of the query text for a search: a filter on files where one is
/// wanted, the pattern, and the root where there is one.
pub open spec fn query_words(query: FindQueryView) -> Seq<Seq<char>> {
    let files = if query.files_only {
        seq!["file:"@]
    } else {
        Seq::empty()
    };
    let root = match query.root {
        Some(root) => seq![root],
        None => Seq::empty(),
    };
    files + seq![query.pattern] + root
}

/// The text of a search as the index takes it.
pub fn everything_query_text(query: &FindQuery) -> (r: String)
    ensures
        r@ == joined(query_words(query.deep_view()), " "@),
{
    let mut parts: Vec<String> = Vec::new();
    if query.files_only {
        push_item(&mut parts, owned("file:"));
    }
    push_item(&mut parts, query.pattern.clone());
    if let Some(root) = &query.root {
        push_item(&mut parts, root.clone());
    }
    assert(parts.deep_view() =~= query_words(query.deep_view()));
    join(&parts, " ")
}

/// What the index has: a path, or why it has none.
#[derive(Debug, PartialEq, Eq)]
pub struct IndexItem {
    pub path: Result<String, BackendError>,
    pub is_folder: bool,
}

/// The contents of what the index has.
#[verifier::ext_equal]
pub ghost struct ItemView {
    pub path: Result<Seq<char>, Seq<char>>,
    pub is_folder: bool,
}

impl DeepView for IndexItem {
    type V = ItemView;

    open spec fn deep_view(&self) -> ItemView {
        ItemView {
            path: match self.path {
                Ok(path) => Ok(path@),
                Err(error) => Err(error.deep_view()),
            },
            is_folder: self.is_folder,
        }
    }
}

/// The paths taken after those already taken: folders are left out where only
/// files are wanted, and the search ends once there are enough.
pub open spec fn taken(
    items: Seq<ItemView>,
    files_only: bool,
    limit: nat,
    before: Seq<Seq<char>>,
) -> Result<Seq<Seq<char>>, Seq<char>>
    decreases items.len(),
{
    if items.len() == 0 {
        Ok(before)
    } else if files_only && items[0].is_folder {
        taken(items.skip(1), files_only, limit, before)
    } else {
        match items[0].path {
            Ok(path) => if before.len() + 1 >= limit {
                Ok(before.push(path))
            } else {
                taken(items.skip(1), files_only, limit, before.push(path))
            },
            Err(message) => Err(message),
        }
    }
}

/// The paths that a search takes of what the index has for it.
pub fn find_with_everything(query: &FindQuery, items: &Vec<IndexItem>) -> (r: Result<
    Vec<String>,
    BackendError,
>)
    ensures
        taken(items.deep_view(), query.files_only, query.limit as nat, Seq::empty()) == match r {
            Ok(paths) => Ok::<Seq<Seq<char>>, Seq<char>>(paths.deep_view()),
            Err(error) => Err::<Seq<Seq<char>>, Seq<char>>(error.deep_view()),
        },
{
    let ghost view = items.deep_view();
    let ghost all = taken(view, query.files_only, query.limit as nat, Seq::empty());
    let mut paths: Vec<String> = Vec::new();
    let mut i: usize = 0;
    assert(paths.deep_view() =~= Seq::<Seq<char>>::empty());
    assert(view.skip(0) =~= view);
    while i < items.len()
        invariant
            i <= items.len(),
            taken(
                view.skip(i as int),
                query.files_only,
                query.limit as nat,
                paths.deep_view(),
            ) == all,
        decreases items.len() - i,
    {
        assert(view.skip(i as int)[0] == items[i as int].deep_view());
        assert(view.skip(i as int).skip(1) =~= view.skip(i + 1));
        if !(query.files_only && items[i].is_folder) {
            match &items[i].path {
                Ok(path) => {
                    push_item(&mut paths, path.clone());
                },
                Err(error) => {
                    return Err(BackendError { message: error.message.clone() });
                },
            }
            if paths.len() >= query.limit {
                return Ok(paths);
            }
        }
        i += 1;
    }
    assert(view.skip(i as int).len() == 0);
    Ok(paths)
}

/// How much the index is asked for at most.
pub fn search_maximum(limit: usize) -> (r: u32)
    ensures
        r == if limit > u32::MAX {
            u32::MAX as int
        } else {
            limit as int
        },
{
    if limit > u32::MAX as usize {
        u32::MAX
    } else {
        limit as u32
    }
}

/// A search takes no more than its limit, but for the one path that a limit
/// of nothing lets through.
pub proof fn law_search_is_limited(
    items: Seq<ItemView>,
    files_only: bool,
    limit: nat,
    before: Seq<Seq<char>>,
)
    requires
        before.len() == 0 || before.len() < limit,
    ensures
        taken(items, files_only, limit, before) matches Ok(paths) ==> paths.len() <= limit
            || paths.len() <= 1,
    decreases items.len(),
{
    if items.len() > 0 {
        if files_only && items[0].is_folder {
            law_search_is_limited(items.skip(1), files_only, limit, before);
        } else if let Ok(path) = items[0].path {
            if before.len() + 1 < limit {
                law_search_is_limited(items.skip(1), files_only, limit, before.push(path));
            }
        }
    }
}

} // verus!
