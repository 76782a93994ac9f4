//! Single commands and pipelines, and the operations that stand for them.
#![verifier::loop_isolation(false)]

use super::arguments::{
    gci_listing, gci_pattern, gci_search, parse_gci_listing, parse_gci_options, token_at,
    GciOptions, GciView,
};
use super::content::{
    bounded_options, content_path_scan, inspect_options, parse_get_content_bounds,
    parse_get_content_inspect_options, parse_get_content_path, parse_select_object_window,
    parse_select_string_options, parse_select_string_pattern, pattern_scan, select_options,
    window_scan,
};
use super::filters::{
    allowlisted, is_readonly_external_shape, limited_projection, measure_of, name_match_of,
    parse_measure_object, parse_name_match, parse_select_projection,
    parse_select_projection_with_limit, parse_sort_object, parse_where_object_filter,
    projection_of, sort_scan, where_filter_of,
};
use super::operation::{operation_view, FastOperation, OperationView};
use super::words::{parts_of, split_pipeline, tokenize, tokens_of};
use crate::backends::directory::{
    DirectoryList, DirectoryListView, DirectoryNameMatch, DirectoryNameMatchView,
    DirectoryPipeline, DirectoryPipelineView,
};
use crate::backends::everything::{FindQuery, FindQueryView};
use crate::backends::grep::{
    GrepContextQuery, GrepContextQueryView, GrepQuery, GrepQueryView,
};
use crate::backends::projection::{
    FileSort, FileWhere, FileWhereView, FindMeasure, FindMeasureView, FindPipeline,
    FindPipelineView, FindProjection, FindProjectionView, Projection, ProjectionView,
    ReadOnlyExternal, ReadOnlyExternalView,
};
use crate::case::{any_ignoring_case, contains_ignore_ascii_case, lowered, to_lowercase};
use crate::text::{contains_char, owned, push_item, same, texts_from};
use vstd::prelude::*;

verus! {

// Names.

/// The names of the command that lists files.
pub open spec fn lists(name: Seq<char>) -> bool {
    name == "get-childitem"@ || name == "gci"@ || name == "dir"@ || name == "ls"@
}

/// The names of the command that reads a file.
pub open spec fn reads(name: Seq<char>) -> bool {
    name == "get-content"@ || name == "gc"@ || name == "cat"@ || name == "type"@
}

/// The names of the command that searches in files.
pub open spec fn searches(name: Seq<char>) -> bool {
    name == "select-string"@ || name == "sls"@
}

/// The names of the command that projects.
pub open spec fn selects(name: Seq<char>) -> bool {
    name == "select-object"@ || name == "select"@
}

/// The names of the commands that only lay out what they are given.
pub open spec fn formats(name: Seq<char>) -> bool {
    name == "format-table"@ || name == "ft"@ || name == "format-list"@ || name == "fl"@
}

/// The names of the command that filters.
pub open spec fn filters(name: Seq<char>) -> bool {
    name == "where-object"@ || name == "where"@ || name == "?"@
}

/// The names of the command that sorts.
pub open spec fn sorts(name: Seq<char>) -> bool {
    name == "sort-object"@ || name == "sort"@
}

/// The names of the command that measures.
pub open spec fn measures(name: Seq<char>) -> bool {
    name == "measure-object"@ || name == "measure"@
}

fn is_listing(name: &str) -> (r: bool)
    ensures
        r == lists(name@),
{
    same(name, "get-childitem") || same(name, "gci") || same(name, "dir") || same(name, "ls")
}

fn is_reading(name: &str) -> (r: bool)
    ensures
        r == reads(name@),
{
    same(name, "get-content") || same(name, "gc") || same(name, "cat") || same(name, "type")
}

fn is_search(name: &str) -> (r: bool)
    ensures
        r == searches(name@),
{
    same(name, "select-string") || same(name, "sls")
}

fn is_select(name: &str) -> (r: bool)
    ensures
        r == selects(name@),
{
    same(name, "select-object") || same(name, "select")
}

fn is_format(name: &str) -> (r: bool)
    ensures
        r == formats(name@),
{
    same(name, "format-table") || same(name, "ft") || same(name, "format-list") || same(name, "fl")
}

fn is_filter(name: &str) -> (r: bool)
    ensures
        r == filters(name@),
{
    same(name, "where-object") || same(name, "where") || same(name, "?")
}

fn is_sort(name: &str) -> (r: bool)
    ensures
        r == sorts(name@),
{
    same(name, "sort-object") || same(name, "sort")
}

fn is_measure(name: &str) -> (r: bool)
    ensures
        r == measures(name@),
{
    same(name, "measure-object") || same(name, "measure")
}

/// The name of a command in lower case, and its arguments.
pub open spec fn call_of(command: Seq<char>) -> Option<(Seq<char>, Seq<Seq<char>>)> {
    match tokens_of(command) {
        Some(tokens) => Some((lowered(tokens[0]), tokens.skip(1))),
        None => None,
    }
}

/// The name of a command in lower case, and its arguments.
pub fn read_call(command: &str) -> (r: Option<(String, Vec<String>)>)
    ensures
        r.deep_view() == call_of(command@),
{
    match tokenize(command) {
        Some(tokens) => {
            assert(tokens.deep_view()[0] == tokens[0]@);
            let name = to_lowercase(tokens[0].as_str());
            Some((name, texts_from(&tokens, 1)))
        },
        None => None,
    }
}

// Listings.

/// The search that stands for a recursive listing with a pattern.
pub open spec fn find_of(command: Seq<char>, cwd: Option<Seq<char>>) -> Option<OperationView> {
    if command.contains('|') {
        None
    } else {
        match call_of(command) {
            Some((name, args)) => if lists(name) {
                match gci_search(args, cwd) {
                    Some(options) => match gci_pattern(options) {
                        Some(pattern) => if options.recurse {
                            Some(
                                OperationView::Find(
                                    FindQueryView {
                                        root: token_at(options.roots, 0),
                                        pattern,
                                        files_only: true,
                                        limit: 80,
                                    },
                                ),
                            )
                        } else {
                            None
                        },
                        None => None,
                    },
                    None => None,
                }
            } else {
                None
            },
            None => None,
        }
    }
}

/// The search that stands for a recursive listing with a pattern.
pub fn parse_get_child_item_find(command: &str, cwd: Option<&str>) -> (r: Option<FastOperation>)
    ensures
        view_of(r) == find_of(command@, cwd.deep_view()),
{
    if contains_char(command, '|') {
        return None;
    }
    let (name, args) = match read_call(command) {
        Some(call) => call,
        None => {
            return None;
        },
    };
    if !is_listing(name.as_str()) {
        return None;
    }
    match parse_gci_options(&args, cwd) {
        Some(options) => {
            if !options.recurse {
                return None;
            }
            match options.pattern() {
                Some(pattern) => Some(
                    FastOperation::Find(
                        FindQuery {
                            root: options.first_root(),
                            pattern,
                            files_only: true,
                            limit: 80,
                        },
                    ),
                ),
                None => None,
            }
        },
        None => None,
    }
}

/// The contents of an operation, if there is one.
pub open spec fn view_of(operation: Option<FastOperation>) -> Option<OperationView> {
    match operation {
        Some(operation) => Some(operation_view(operation)),
        None => None,
    }
}

/// What stands for a listing in a list of commands: for a recursive one a
/// search, which needs a pattern; for another the listing of one directory,
/// which needs a pattern or is one of names.
pub open spec fn listing_of(command: Seq<char>, cwd: Option<Seq<char>>, recursive: bool) -> Option<
    OperationView,
> {
    if command.contains('|') {
        None
    } else {
        match call_of(command) {
            Some((name, args)) => if lists(name) {
                match gci_listing(args, cwd) {
                    Some(options) => if options.recurse {
                        if recursive && !options.names_only && !options.directories_only {
                            match gci_pattern(options) {
                                Some(pattern) => Some(
                                    OperationView::FindProjection(
                                        FindProjectionView {
                                            query: FindQueryView {
                                                root: token_at(options.roots, 0),
                                                pattern,
                                                files_only: true,
                                                limit: 200,
                                            },
                                            projection: ProjectionView::FullNameOnly,
                                        },
                                    ),
                                ),
                                None => None,
                            }
                        } else {
                            None
                        }
                    } else {
                        directory_of(options)
                    },
                    None => None,
                }
            } else {
                None
            },
            None => None,
        }
    }
}

/// The listing of the first root.
pub open spec fn directory_of(options: GciView) -> Option<OperationView> {
    if options.roots.len() > 0 && (gci_pattern(options) is Some || options.names_only) {
        Some(OperationView::ListDirectory(directory_list(options)))
    } else {
        None
    }
}

/// The listing of the first root.
pub open spec fn directory_list(options: GciView) -> DirectoryListView {
    DirectoryListView {
        root: options.roots[0],
        filter: gci_pattern(options),
        names_only: options.names_only,
        files_only: options.files_only,
        directories_only: options.directories_only,
    }
}

fn list_directory(options: &GciOptions) -> (r: DirectoryList)
    requires
        options.roots.len() > 0,
    ensures
        r.deep_view() == directory_list(options.deep_view()),
{
    assert(options.roots.deep_view()[0] == options.roots[0]@);
    DirectoryList {
        root: options.roots[0].clone(),
        filter: options.pattern(),
        names_only: options.names_only,
        files_only: options.files_only,
        directories_only: options.directories_only,
    }
}

/// What stands for a listing in a list of commands.
pub fn parse_get_child_item_list(command: &str, cwd: Option<&str>, recursive: bool) -> (r: Option<
    FastOperation,
>)
    ensures
        view_of(r) == listing_of(command@, cwd.deep_view(), recursive),
{
    if contains_char(command, '|') {
        return None;
    }
    let (name, args) = match read_call(command) {
        Some(call) => call,
        None => {
            return None;
        },
    };
    if !is_listing(name.as_str()) {
        return None;
    }
    match parse_gci_listing(&args, cwd) {
        Some(options) => {
            if options.recurse {
                if !recursive || options.names_only || options.directories_only {
                    return None;
                }
                match options.pattern() {
                    Some(pattern) => Some(
                        FastOperation::FindProjection(
                            FindProjection {
                                query: FindQuery {
                                    root: options.first_root(),
                                    pattern,
                                    files_only: true,
                                    limit: 200,
                                },
                                projection: Projection::FullNameOnly,
                            },
                        ),
                    ),
                    None => None,
                }
            } else if options.roots.len() > 0 && (options.pattern().is_some()
                || options.names_only) {
                Some(FastOperation::ListDirectory(list_directory(&options)))
            } else {
                None
            }
        },
        None => None,
    }
}

// Projections.

/// The query of a pipeline: the first root, the pattern or all, with a limit.
pub open spec fn pipeline_query(options: GciView, limit: usize) -> FindQueryView {
    FindQueryView {
        root: token_at(options.roots, 0),
        pattern: match gci_pattern(options) {
            Some(pattern) => pattern,
            None => "*"@,
        },
        files_only: true,
        limit,
    }
}

fn query_for(options: &GciOptions, limit: usize) -> (r: FindQuery)
    ensures
        r.deep_view() == pipeline_query(options.deep_view(), limit),
{
    FindQuery {
        root: options.first_root(),
        pattern: match options.pattern() {
            Some(pattern) => pattern,
            None => owned("*"),
        },
        files_only: true,
        limit,
    }
}

/// The operation for a projected listing: of the roots themselves where there
/// are several and nothing is searched, else of what a search finds.
pub open spec fn projected(options: GciView, projection: ProjectionView) -> OperationView {
    if !options.recurse && options.roots.len() > 1 && options.filter is None && options.included
        is None {
        OperationView::DirectProjection { paths: options.roots, projection }
    } else {
        OperationView::FindProjection(
            FindProjectionView { query: pipeline_query(options, 200), projection },
        )
    }
}

/// The operation for a pipeline of a listing and a projection, with or
/// without a layout at the end.
pub open spec fn find_projection_of(command: Seq<char>, cwd: Option<Seq<char>>) -> Option<
    OperationView,
> {
    match parts_of(command, '|') {
        Some(parts) => if parts.len() == 2 || (parts.len() == 3 && (call_of(parts[2]) matches Some(
            (name, _),
        ) && formats(name))) {
            match (call_of(parts[0]), call_of(parts[1])) {
                (Some((left, left_args)), Some((right, right_args))) => if lists(left) && selects(
                    right,
                ) {
                    match (gci_search(left_args, cwd), projection_of(right_args)) {
                        (Some(options), Some(projection)) => Some(projected(options, projection)),
                        _ => None,
                    }
                } else {
                    None
                },
                _ => None,
            }
        } else {
            None
        },
        None => None,
    }
}

/// The operation for a pipeline of a listing and a projection.
pub fn parse_find_projection(command: &str, cwd: Option<&str>) -> (r: Option<FastOperation>)
    ensures
        view_of(r) == find_projection_of(command@, cwd.deep_view()),
{
    let parts = match split_pipeline(command) {
        Some(parts) => parts,
        None => {
            return None;
        },
    };
    let ghost view = parts.deep_view();
    if parts.len() != 2 && parts.len() != 3 {
        return None;
    }
    assert(view[0] == parts[0]@ && view[1] == parts[1]@);
    if parts.len() == 3 {
        assert(view[2] == parts[2]@);
        match read_call(parts[2].as_str()) {
            Some((name, _)) => {
                if !is_format(name.as_str()) {
                    return None;
                }
            },
            None => {
                return None;
            },
        }
    }
    let (left, left_args) = match read_call(parts[0].as_str()) {
        Some(call) => call,
        None => {
            return None;
        },
    };
    let (right, right_args) = match read_call(parts[1].as_str()) {
        Some(call) => call,
        None => {
            return None;
        },
    };
    if !is_listing(left.as_str()) || !is_select(right.as_str()) {
        return None;
    }
    let options = match parse_gci_options(&left_args, cwd) {
        Some(options) => options,
        None => {
            return None;
        },
    };
    let projection = match parse_select_projection(&right_args) {
        Some(projection) => projection,
        None => {
            return None;
        },
    };
    if !options.recurse && options.roots.len() > 1 && options.filter.is_none()
        && options.included.is_none() {
        return Some(FastOperation::DirectProjection { paths: options.roots, projection });
    }
    Some(
        FastOperation::FindProjection(
            FindProjection { query: query_for(&options, 200), projection },
        ),
    )
}

// Pipelines.

/// What the steps of a pipeline ask for.
pub struct PipelineSteps {
    pub where_filter: Option<FileWhere>,
    pub sort: Option<FileSort>,
    pub projection: Option<Projection>,
    pub limit: Option<usize>,
}

/// The contents of the steps of a pipeline.
#[verifier::ext_equal]
pub ghost struct StepsView {
    pub where_filter: Option<FileWhereView>,
    pub sort: Option<FileSort>,
    pub projection: Option<ProjectionView>,
    pub limit: Option<usize>,
}

impl DeepView for PipelineSteps {
    type V = StepsView;

    open spec fn deep_view(&self) -> StepsView {
        StepsView {
            where_filter: self.where_filter.deep_view(),
            sort: self.sort,
            projection: self.projection.deep_view(),
            limit: self.limit,
        }
    }
}

/// No steps.
pub open spec fn no_steps() -> StepsView {
    StepsView { where_filter: None, sort: None, projection: None, limit: None }
}

/// One more step: a filter, a sort or a projection, each at most once.
pub open spec fn with_step(steps: StepsView, part: Seq<char>) -> Option<StepsView> {
    match call_of(part) {
        Some((name, args)) => if filters(name) {
            match where_filter_of(args) {
                Some(filter) => if steps.where_filter is None {
                    Some(StepsView { where_filter: Some(filter), ..steps })
                } else {
                    None
                },
                None => None,
            }
        } else if sorts(name) {
            match sort_scan(args, 0, None, false) {
                Some(sort) => if steps.sort is None {
                    Some(StepsView { sort: Some(sort), ..steps })
                } else {
                    None
                },
                None => None,
            }
        } else if selects(name) {
            match limited_projection(args) {
                Some((projection, limit)) => if steps.projection is None {
                    Some(StepsView { projection: Some(projection), limit, ..steps })
                } else {
                    None
                },
                None => None,
            }
        } else {
            None
        },
        None => None,
    }
}

/// The steps of the parts from the second on.
pub open spec fn steps_of(parts: Seq<Seq<char>>) -> Option<StepsView>
    decreases parts.len(),
{
    if parts.len() <= 1 {
        Some(no_steps())
    } else {
        match steps_of(parts.drop_last()) {
            Some(steps) => with_step(steps, parts.last()),
            None => None,
        }
    }
}

proof fn lemma_steps_prefix(parts: Seq<Seq<char>>, n: int)
    requires
        0 <= n <= parts.len(),
        steps_of(parts.take(n)) is None,
    ensures
        steps_of(parts) is None,
    decreases parts.len() - n,
{
    if n < parts.len() {
        assert(parts.take(n + 1).drop_last() =~= parts.take(n));
        lemma_steps_prefix(parts, n + 1);
    } else {
        assert(parts.take(n) =~= parts);
    }
}

/// The parts without the layout at the end; `None` where the last part is no
/// command.
pub open spec fn without_layout(parts: Seq<Seq<char>>) -> Option<Seq<Seq<char>>> {
    match call_of(parts.last()) {
        Some((name, _)) => if formats(name) {
            Some(parts.drop_last())
        } else {
            Some(parts)
        },
        None => None,
    }
}

/// The operation for a listing and the steps behind it, one of which must
/// filter or sort.
pub open spec fn pipeline_of(parts: Seq<Seq<char>>, cwd: Option<Seq<char>>) -> Option<
    OperationView,
> {
    match call_of(parts[0]) {
        Some((name, args)) => if lists(name) {
            match (gci_search(args, cwd), steps_of(parts)) {
                (Some(options), Some(steps)) => if steps.where_filter is None && steps.sort is None {
                    None
                } else {
                    Some(
                        OperationView::FindPipeline(
                            FindPipelineView {
                                query: pipeline_query(options, 1_000),
                                where_filter: steps.where_filter,
                                sort: steps.sort,
                                projection: match steps.projection {
                                    Some(projection) => projection,
                                    None => ProjectionView::FullNameOnly,
                                },
                                limit: steps.limit,
                            },
                        ),
                    )
                },
                _ => None,
            }
        } else {
            None
        },
        None => None,
    }
}

/// The operation for a pipeline of three to five parts that starts with a
/// listing and filters or sorts.
pub open spec fn find_pipeline_of(command: Seq<char>, cwd: Option<Seq<char>>) -> Option<
    OperationView,
> {
    match parts_of(command, '|') {
        Some(parts) => if 3 <= parts.len() <= 5 {
            match without_layout(parts) {
                Some(parts) => pipeline_of(parts, cwd),
                None => None,
            }
        } else {
            None
        },
        None => None,
    }
}

fn add_step(steps: &mut PipelineSteps, part: &str) -> (r: bool)
    ensures
        match with_step(old(steps).deep_view(), part@) {
            Some(view) => r && final(steps).deep_view() == view,
            None => !r,
        },
{
    let (name, args) = match read_call(part) {
        Some(call) => call,
        None => {
            return false;
        },
    };
    if is_filter(name.as_str()) {
        match parse_where_object_filter(&args) {
            Some(filter) => {
                if steps.where_filter.is_some() {
                    return false;
                }
                steps.where_filter = Some(filter);
                true
            },
            None => false,
        }
    } else if is_sort(name.as_str()) {
        match parse_sort_object(&args) {
            Some(sort) => {
                if steps.sort.is_some() {
                    return false;
                }
                steps.sort = Some(sort);
                true
            },
            None => false,
        }
    } else if is_select(name.as_str()) {
        match parse_select_projection_with_limit(&args) {
            Some((projection, limit)) => {
                if steps.projection.is_some() {
                    return false;
                }
                steps.projection = Some(projection);
                steps.limit = limit;
                true
            },
            None => false,
        }
    } else {
        false
    }
}

fn read_steps(parts: &Vec<String>) -> (r: Option<PipelineSteps>)
    requires
        parts.len() > 0,
    ensures
        r.deep_view() == steps_of(parts.deep_view()),
{
    let ghost view = parts.deep_view();
    let mut steps = PipelineSteps {
        where_filter: None,
        sort: None,
        projection: None,
        limit: None,
    };
    assert(steps.deep_view() =~= no_steps());
    let mut i: usize = 1;
    while i < parts.len()
        invariant
            1 <= i <= parts.len(),
            steps_of(view.take(i as int)) == Some(steps.deep_view()),
        decreases parts.len() - i,
    {
        proof {
            assert(view.take(i + 1).drop_last() =~= view.take(i as int));
            assert(view.take(i + 1).last() == parts[i as int]@);
        }
        if !add_step(&mut steps, parts[i].as_str()) {
            proof {
                lemma_steps_prefix(view, i + 1);
            }
            return None;
        }
        i += 1;
    }
    assert(view.take(i as int) =~= view);
    Some(steps)
}

fn drop_layout(parts: Vec<String>) -> (r: Option<Vec<String>>)
    requires
        parts.len() > 1,
    ensures
        r.deep_view() == without_layout(parts.deep_view()),
        r matches Some(kept) ==> kept.len() > 0,
{
    let ghost view = parts.deep_view();
    let mut parts = parts;
    let last: usize = parts.len() - 1;
    assert(view.last() == parts[last as int]@);
    match read_call(parts[last].as_str()) {
        Some((name, _)) => {
            if is_format(name.as_str()) {
                let _ = parts.pop();
                assert(parts.deep_view() =~= view.drop_last());
            }
            Some(parts)
        },
        None => None,
    }
}

/// The operation for a pipeline that starts with a listing and filters or
/// sorts.
pub fn parse_find_pipeline(command: &str, cwd: Option<&str>) -> (r: Option<FastOperation>)
    ensures
        view_of(r) == find_pipeline_of(command@, cwd.deep_view()),
{
    let parts = match split_pipeline(command) {
        Some(parts) => parts,
        None => {
            return None;
        },
    };
    if parts.len() < 3 || parts.len() > 5 {
        return None;
    }
    let parts = match drop_layout(parts) {
        Some(parts) => parts,
        None => {
            return None;
        },
    };
    assert(parts.deep_view()[0] == parts[0]@);
    let (name, args) = match read_call(parts[0].as_str()) {
        Some(call) => call,
        None => {
            return None;
        },
    };
    if !is_listing(name.as_str()) {
        return None;
    }
    let options = match parse_gci_options(&args, cwd) {
        Some(options) => options,
        None => {
            return None;
        },
    };
    let steps = match read_steps(&parts) {
        Some(steps) => steps,
        None => {
            return None;
        },
    };
    if steps.where_filter.is_none() && steps.sort.is_none() {
        return None;
    }
    Some(
        FastOperation::FindPipeline(
            FindPipeline {
                query: query_for(&options, 1_000),
                where_filter: steps.where_filter,
                sort: steps.sort,
                projection: match steps.projection {
                    Some(projection) => projection,
                    None => Projection::FullNameOnly,
                },
                limit: steps.limit,
            },
        ),
    )
}

// Measures.

/// The filter in the middle of a measured pipeline; the outer `None` is for
/// a part that is no filter.
pub open spec fn middle_filter(part: Seq<char>) -> Option<FileWhereView> {
    match call_of(part) {
        Some((name, args)) => if filters(name) {
            where_filter_of(args)
        } else {
            None
        },
        None => None,
    }
}

fn read_middle_filter(part: &str) -> (r: Option<FileWhere>)
    ensures
        r.deep_view() == middle_filter(part@),
{
    match read_call(part) {
        Some((name, args)) => {
            if is_filter(name.as_str()) {
                parse_where_object_filter(&args)
            } else {
                None
            }
        },
        None => None,
    }
}

/// The measure of a part.
pub open spec fn measure_part(
    part: Seq<char>,
) -> Option<crate::backends::projection::MeasureKind> {
    match call_of(part) {
        Some((name, args)) => if measures(name) {
            measure_of(args)
        } else {
            None
        },
        None => None,
    }
}

/// The operation for a listing that is measured, with or without a filter
/// between.
pub open spec fn find_measure_of(command: Seq<char>, cwd: Option<Seq<char>>) -> Option<
    OperationView,
> {
    match parts_of(command, '|') {
        Some(parts) => if parts.len() == 2 || parts.len() == 3 {
            match call_of(parts[0]) {
                Some((name, args)) => if lists(name) && (parts.len() == 3 ==> middle_filter(
                    parts[1],
                ) is Some) {
                    match (gci_search(args, cwd), measure_part(parts.last())) {
                        (Some(options), Some(measure)) => Some(
                            OperationView::FindMeasure(
                                FindMeasureView {
                                    query: pipeline_query(options, 1_000),
                                    where_filter: if parts.len() == 3 {
                                        middle_filter(parts[1])
                                    } else {
                                        None
                                    },
                                    measure,
                                },
                            ),
                        ),
                        _ => None,
                    }
                } else {
                    None
                },
                None => None,
            }
        } else {
            None
        },
        None => None,
    }
}

/// The operation for a listing that is measured.
pub fn parse_find_measure(command: &str, cwd: Option<&str>) -> (r: Option<FastOperation>)
    ensures
        view_of(r) == find_measure_of(command@, cwd.deep_view()),
{
    let parts = match split_pipeline(command) {
        Some(parts) => parts,
        None => {
            return None;
        },
    };
    let ghost view = parts.deep_view();
    if parts.len() != 2 && parts.len() != 3 {
        return None;
    }
    assert(view[0] == parts[0]@ && view[1] == parts[1]@);
    let (name, args) = match read_call(parts[0].as_str()) {
        Some(call) => call,
        None => {
            return None;
        },
    };
    if !is_listing(name.as_str()) {
        return None;
    }
    let options = match parse_gci_options(&args, cwd) {
        Some(options) => options,
        None => {
            return None;
        },
    };
    let where_filter: Option<FileWhere> = if parts.len() == 3 {
        match read_middle_filter(parts[1].as_str()) {
            Some(filter) => Some(filter),
            None => {
                return None;
            },
        }
    } else {
        None
    };
    let last: usize = parts.len() - 1;
    assert(view.last() == parts[last as int]@);
    let (name, args) = match read_call(parts[last].as_str()) {
        Some(call) => call,
        None => {
            return None;
        },
    };
    if !is_measure(name.as_str()) {
        return None;
    }
    match parse_measure_object(&args) {
        Some(measure) => Some(
            FastOperation::FindMeasure(
                FindMeasure { query: query_for(&options, 1_000), where_filter, measure },
            ),
        ),
        None => None,
    }
}

// Listings of directories.

/// The match in the middle of a listing of directories.
pub open spec fn middle_match(part: Seq<char>) -> Option<DirectoryNameMatchView> {
    match call_of(part) {
        Some((name, args)) => if filters(name) {
            name_match_of(args)
        } else {
            None
        },
        None => None,
    }
}

fn read_middle_match(part: &str) -> (r: Option<DirectoryNameMatch>)
    ensures
        r.deep_view() == middle_match(part@),
{
    match read_call(part) {
        Some((name, args)) => {
            if is_filter(name.as_str()) {
                parse_name_match(&args)
            } else {
                None
            }
        },
        None => None,
    }
}

/// The projection of a part.
pub open spec fn projection_part(part: Seq<char>) -> Option<ProjectionView> {
    match call_of(part) {
        Some((name, args)) => if selects(name) {
            projection_of(args)
        } else {
            None
        },
        None => None,
    }
}

fn read_projection_part(part: &str) -> (r: Option<Projection>)
    ensures
        r.deep_view() == projection_part(part@),
{
    match read_call(part) {
        Some((name, args)) => {
            if is_select(name.as_str()) {
                parse_select_projection(&args)
            } else {
                None
            }
        },
        None => None,
    }
}

/// The operation for a listing of the directories in one directory, a match
/// on their names where there is one, and a projection.
pub open spec fn directory_parts(parts: Seq<Seq<char>>, cwd: Option<Seq<char>>) -> Option<
    OperationView,
> {
    if parts.len() != 2 && parts.len() != 3 {
        None
    } else {
        match call_of(parts[0]) {
            Some((name, args)) => if lists(name) && (parts.len() == 3 ==> middle_match(parts[1])
                is Some) {
                match (gci_listing(args, cwd), projection_part(parts.last())) {
                    (Some(options), Some(projection)) => if options.directories_only
                        && !options.recurse && !options.names_only && options.roots.len() > 0 {
                        Some(
                            OperationView::ListDirectoryPipeline(
                                DirectoryPipelineView {
                                    list: directory_list(options),
                                    name_match: if parts.len() == 3 {
                                        middle_match(parts[1])
                                    } else {
                                        None
                                    },
                                    projection,
                                },
                            ),
                        )
                    } else {
                        None
                    },
                    _ => None,
                }
            } else {
                None
            },
            None => None,
        }
    }
}

/// The operation for a pipeline that starts with a listing of directories,
/// with or without a layout at the end.
pub open spec fn directory_pipeline_of(command: Seq<char>, cwd: Option<Seq<char>>) -> Option<
    OperationView,
> {
    match parts_of(command, '|') {
        Some(parts) => if 2 <= parts.len() <= 4 {
            match without_layout(parts) {
                Some(parts) => directory_parts(parts, cwd),
                None => None,
            }
        } else {
            None
        },
        None => None,
    }
}

/// The operation for a pipeline that starts with a listing of directories.
pub fn parse_directory_pipeline(command: &str, cwd: Option<&str>) -> (r: Option<FastOperation>)
    ensures
        view_of(r) == directory_pipeline_of(command@, cwd.deep_view()),
{
    let parts = match split_pipeline(command) {
        Some(parts) => parts,
        None => {
            return None;
        },
    };
    if parts.len() < 2 || parts.len() > 4 {
        return None;
    }
    let parts = match drop_layout(parts) {
        Some(parts) => parts,
        None => {
            return None;
        },
    };
    let ghost view = parts.deep_view();
    if parts.len() != 2 && parts.len() != 3 {
        return None;
    }
    assert(view[0] == parts[0]@ && view[1] == parts[1]@);
    let (name, args) = match read_call(parts[0].as_str()) {
        Some(call) => call,
        None => {
            return None;
        },
    };
    if !is_listing(name.as_str()) {
        return None;
    }
    let options = match parse_gci_listing(&args, cwd) {
        Some(options) => options,
        None => {
            return None;
        },
    };
    if !options.directories_only || options.recurse || options.names_only || options.roots.len()
        == 0 {
        return None;
    }
    let name_match: Option<DirectoryNameMatch> = if parts.len() == 3 {
        match read_middle_match(parts[1].as_str()) {
            Some(name_match) => Some(name_match),
            None => {
                return None;
            },
        }
    } else {
        None
    };
    let last: usize = parts.len() - 1;
    assert(view.last() == parts[last as int]@);
    match read_projection_part(parts[last].as_str()) {
        Some(projection) => Some(
            FastOperation::ListDirectoryPipeline(
                DirectoryPipeline { list: list_directory(&options), name_match, projection },
            ),
        ),
        None => None,
    }
}

// Readings.

/// The two calls of a pipeline of two parts.
pub open spec fn two_calls(command: Seq<char>) -> Option<
    ((Seq<char>, Seq<Seq<char>>), (Seq<char>, Seq<Seq<char>>)),
> {
    match parts_of(command, '|') {
        Some(parts) => if parts.len() == 2 {
            match (call_of(parts[0]), call_of(parts[1])) {
                (Some(left), Some(right)) => Some((left, right)),
                _ => None,
            }
        } else {
            None
        },
        None => None,
    }
}

fn read_two_calls(command: &str) -> (r: Option<((String, Vec<String>), (String, Vec<String>))>)
    ensures
        r.deep_view() == two_calls(command@),
{
    let parts = match split_pipeline(command) {
        Some(parts) => parts,
        None => {
            return None;
        },
    };
    if parts.len() != 2 {
        return None;
    }
    assert(parts.deep_view()[0] == parts[0]@ && parts.deep_view()[1] == parts[1]@);
    match (read_call(parts[0].as_str()), read_call(parts[1].as_str())) {
        (Some(left), Some(right)) => Some((left, right)),
        _ => None,
    }
}

/// The operation for the reading of a window of lines.
pub open spec fn slice_of(command: Seq<char>) -> Option<OperationView> {
    match two_calls(command) {
        Some(((left, left_args), (right, right_args))) => if reads(left) && selects(right) {
            match (
                content_path_scan(left_args, 0, Seq::empty()),
                window_scan(right_args, 0, None, None),
            ) {
                (Some(path), Some((skip, first))) => Some(
                    OperationView::Slice { path, skip, first },
                ),
                _ => None,
            }
        } else {
            None
        },
        None => None,
    }
}

/// The operation for the reading of a window of lines.
pub fn parse_get_content_slice(command: &str) -> (r: Option<FastOperation>)
    ensures
        view_of(r) == slice_of(command@),
{
    match read_two_calls(command) {
        Some(((left, left_args), (right, right_args))) => {
            if !is_reading(left.as_str()) || !is_select(right.as_str()) {
                return None;
            }
            match (parse_get_content_path(&left_args), parse_select_object_window(&right_args)) {
                (Some(path), Some((skip, first))) => Some(
                    FastOperation::Slice { path, skip, first },
                ),
                _ => None,
            }
        },
        None => None,
    }
}

/// The search with context in what a reading gives.
pub open spec fn content_search_of(command: Seq<char>) -> Option<OperationView> {
    match two_calls(command) {
        Some(((left, left_args), (right, right_args))) => if reads(left) && searches(right)
            && any_ignoring_case(right_args, "-context"@) {
            match (content_path_scan(left_args, 0, Seq::empty()), select_options(right_args, false)) {
                (Some(path), Some(options)) => match options.pattern {
                    Some(pattern) => {
                        let (before, after) = match options.context {
                            Some(context) => context,
                            None => (0, 0),
                        };
                        Some(
                            OperationView::GrepContext(
                                GrepContextQueryView {
                                    roots: seq![path],
                                    pattern,
                                    before,
                                    after,
                                    case_sensitive: options.case_sensitive,
                                    simple_match: options.simple_match,
                                    limit: 200,
                                },
                            ),
                        )
                    },
                    None => None,
                },
                _ => None,
            }
        } else {
            None
        },
        None => None,
    }
}

fn one_text(text: String) -> (r: Vec<String>)
    ensures
        r.deep_view() == seq![text@],
{
    let mut list: Vec<String> = Vec::new();
    push_item(&mut list, text);
    assert(list.deep_view() =~= seq![text@]);
    list
}

/// The search with context in what a reading gives.
pub fn parse_get_content_select_string(command: &str) -> (r: Option<FastOperation>)
    ensures
        view_of(r) == content_search_of(command@),
{
    match read_two_calls(command) {
        Some(((left, left_args), (right, right_args))) => {
            if !is_reading(left.as_str()) || !is_search(right.as_str()) {
                return None;
            }
            if !contains_ignore_ascii_case(&right_args, "-context") {
                return None;
            }
            match (
                parse_get_content_path(&left_args),
                parse_select_string_options(&right_args, false),
            ) {
                (Some(path), Some(options)) => {
                    let (before, after) = match options.context {
                        Some(context) => context,
                        None => (0, 0),
                    };
                    match options.pattern {
                        Some(pattern) => Some(
                            FastOperation::GrepContext(
                                GrepContextQuery {
                                    roots: one_text(path),
                                    pattern,
                                    before,
                                    after,
                                    case_sensitive: options.case_sensitive,
                                    simple_match: options.simple_match,
                                    limit: 200,
                                },
                            ),
                        ),
                        None => None,
                    }
                },
                _ => None,
            }
        },
        None => None,
    }
}

/// The search in what a recursive listing gives: below its first root, or
/// below the working directory.
pub open spec fn listing_search_of(command: Seq<char>, cwd: Option<Seq<char>>) -> Option<
    OperationView,
> {
    match two_calls(command) {
        Some(((left, left_args), (right, right_args))) => if lists(left) && searches(right) {
            match (gci_search(left_args, cwd), pattern_scan(right_args, 0, None)) {
                (Some(options), Some(pattern)) => if options.recurse && (options.roots.len() > 0
                    || cwd is Some) {
                    Some(
                        OperationView::Grep(
                            GrepQueryView {
                                roots: seq![
                                    if options.roots.len() > 0 {
                                        options.roots[0]
                                    } else {
                                        cwd->0
                                    },
                                ],
                                pattern,
                                case_sensitive: any_ignoring_case(
                                    right_args,
                                    "-casesensitive"@,
                                ),
                                simple_match: any_ignoring_case(right_args, "-simplematch"@),
                                limit: 200,
                            },
                        ),
                    )
                } else {
                    None
                },
                _ => None,
            }
        } else {
            None
        },
        None => None,
    }
}

/// The search in what a recursive listing gives.
pub fn parse_gci_select_string_pipeline(command: &str, cwd: Option<&str>) -> (r: Option<
    FastOperation,
>)
    ensures
        view_of(r) == listing_search_of(command@, cwd.deep_view()),
{
    match read_two_calls(command) {
        Some(((left, left_args), (right, right_args))) => {
            if !is_listing(left.as_str()) || !is_search(right.as_str()) {
                return None;
            }
            let options = match parse_gci_options(&left_args, cwd) {
                Some(options) => options,
                None => {
                    return None;
                },
            };
            if !options.recurse {
                return None;
            }
            let root = match options.first_root() {
                Some(root) => root,
                None => match cwd {
                    Some(cwd) => owned(cwd),
                    None => {
                        return None;
                    },
                },
            };
            match parse_select_string_pattern(&right_args) {
                Some(pattern) => Some(
                    FastOperation::Grep(
                        GrepQuery {
                            roots: one_text(root),
                            pattern,
                            case_sensitive: contains_ignore_ascii_case(
                                &right_args,
                                "-casesensitive",
                            ),
                            simple_match: contains_ignore_ascii_case(&right_args, "-simplematch"),
                            limit: 200,
                        },
                    ),
                ),
                None => None,
            }
        },
        None => None,
    }
}

/// Where a search looks: the roots that options give, else the arguments
/// that stand for themselves, else the working directory.
pub open spec fn search_roots(
    roots: Seq<Seq<char>>,
    positional: Seq<Seq<char>>,
    cwd: Option<Seq<char>>,
) -> Option<Seq<Seq<char>>> {
    if roots.len() > 0 {
        Some(roots)
    } else if positional.len() > 0 {
        Some(positional)
    } else {
        match cwd {
            Some(cwd) => Some(seq![cwd]),
            None => None,
        }
    }
}

/// The operation for a search: with context where it is asked for.
pub open spec fn search_of(command: Seq<char>, cwd: Option<Seq<char>>) -> Option<OperationView> {
    match parts_of(command, '|') {
        Some(parts) => if parts.len() > 1 {
            listing_search_of(command, cwd)
        } else {
            match call_of(command) {
                Some((name, args)) => if searches(name) {
                    match select_options(args, true) {
                        Some(options) => match (
                            options.pattern,
                            search_roots(options.roots, options.positional, cwd),
                        ) {
                            (Some(pattern), Some(roots)) => match options.context {
                                Some((before, after)) => Some(
                                    OperationView::GrepContext(
                                        GrepContextQueryView {
                                            roots,
                                            pattern,
                                            before,
                                            after,
                                            case_sensitive: options.case_sensitive,
                                            simple_match: options.simple_match,
                                            limit: 200,
                                        },
                                    ),
                                ),
                                None => Some(
                                    OperationView::Grep(
                                        GrepQueryView {
                                            roots,
                                            pattern,
                                            case_sensitive: options.case_sensitive,
                                            simple_match: options.simple_match,
                                            limit: 200,
                                        },
                                    ),
                                ),
                            },
                            _ => None,
                        },
                        None => None,
                    }
                } else {
                    None
                },
                None => None,
            }
        },
        None => None,
    }
}

fn choose_roots(roots: Vec<String>, positional: Vec<String>, cwd: Option<&str>) -> (r: Option<
    Vec<String>,
>)
    ensures
        r.deep_view() == search_roots(roots.deep_view(), positional.deep_view(), cwd.deep_view()),
{
    if roots.len() > 0 {
        Some(roots)
    } else if positional.len() > 0 {
        Some(positional)
    } else {
        match cwd {
            Some(cwd) => Some(one_text(owned(cwd))),
            None => None,
        }
    }
}

/// The operation for a search.
pub fn parse_select_string(command: &str, cwd: Option<&str>) -> (r: Option<FastOperation>)
    ensures
        view_of(r) == search_of(command@, cwd.deep_view()),
{
    let parts = match split_pipeline(command) {
        Some(parts) => parts,
        None => {
            return None;
        },
    };
    if parts.len() > 1 {
        return parse_gci_select_string_pipeline(command, cwd);
    }
    let (name, args) = match read_call(command) {
        Some(call) => call,
        None => {
            return None;
        },
    };
    if !is_search(name.as_str()) {
        return None;
    }
    let options = match parse_select_string_options(&args, true) {
        Some(options) => options,
        None => {
            return None;
        },
    };
    let context = options.context;
    let case_sensitive = options.case_sensitive;
    let simple_match = options.simple_match;
    match (options.pattern, choose_roots(options.roots, options.positional, cwd)) {
        (Some(pattern), Some(roots)) => match context {
            Some((before, after)) => Some(
                FastOperation::GrepContext(
                    GrepContextQuery {
                        roots,
                        pattern,
                        before,
                        after,
                        case_sensitive,
                        simple_match,
                        limit: 200,
                    },
                ),
            ),
            None => Some(
                FastOperation::Grep(
                    GrepQuery { roots, pattern, case_sensitive, simple_match, limit: 200 },
                ),
            ),
        },
        _ => None,
    }
}

/// The operation for the reading of a whole file.
pub open spec fn inspect_of(command: Seq<char>) -> Option<OperationView> {
    if command.contains('|') {
        None
    } else {
        match call_of(command) {
            Some((name, args)) => if reads(name) {
                match inspect_options(args) {
                    Some((path, raw)) => Some(OperationView::InspectFile { path, raw }),
                    None => None,
                }
            } else {
                None
            },
            None => None,
        }
    }
}

/// The operation for the reading of a whole file.
pub fn parse_get_content_inspect(command: &str) -> (r: Option<FastOperation>)
    ensures
        view_of(r) == inspect_of(command@),
{
    if contains_char(command, '|') {
        return None;
    }
    match read_call(command) {
        Some((name, args)) => {
            if !is_reading(name.as_str()) {
                return None;
            }
            match parse_get_content_inspect_options(&args) {
                Some((path, raw)) => Some(FastOperation::InspectFile { path, raw }),
                None => None,
            }
        },
        None => None,
    }
}

/// The operation for the reading of the first or the last lines of a file.
pub open spec fn bounded_read_of(command: Seq<char>) -> Option<OperationView> {
    if command.contains('|') {
        None
    } else {
        match call_of(command) {
            Some((name, args)) => if reads(name) {
                match bounded_options(args) {
                    Some((path, window, count)) => Some(
                        OperationView::ReadLines { path, window, count },
                    ),
                    None => None,
                }
            } else {
                None
            },
            None => None,
        }
    }
}

/// The operation for the reading of the first or the last lines of a file.
pub fn parse_get_content_bounded(command: &str) -> (r: Option<FastOperation>)
    ensures
        view_of(r) == bounded_read_of(command@),
{
    if contains_char(command, '|') {
        return None;
    }
    match read_call(command) {
        Some((name, args)) => {
            if !is_reading(name.as_str()) {
                return None;
            }
            match parse_get_content_bounds(&args) {
                Some((path, window, count)) => Some(
                    FastOperation::ReadLines { path, window, count },
                ),
                None => None,
            }
        },
        None => None,
    }
}

// Programs.

/// The program call that a command is, if it is one of the few that are
/// known to change nothing.
pub open spec fn external_of(command: Seq<char>) -> Option<ReadOnlyExternalView> {
    match call_of(command) {
        Some((program, args)) => {
            let external = ReadOnlyExternalView { program, args };
            if allowlisted(external) {
                Some(external)
            } else {
                None
            }
        },
        None => None,
    }
}

/// The program call that a command is, if it is one of the few that are
/// known to change nothing.
pub fn parse_readonly_external(command: &str) -> (r: Option<ReadOnlyExternal>)
    ensures
        r.deep_view() == external_of(command@),
{
    match read_call(command) {
        Some((program, args)) => {
            let external = ReadOnlyExternal { program, args };
            if is_readonly_external_shape(&external) {
                Some(external)
            } else {
                None
            }
        },
        None => None,
    }
}

} // verus!
