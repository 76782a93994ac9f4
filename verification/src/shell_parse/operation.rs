//! What a command asks for, once it is understood.
#![verifier::loop_isolation(false)]

use crate::backends::directory::{
    DirectoryList, DirectoryListView, DirectoryPipeline, DirectoryPipelineView,
};
use crate::backends::everything::{FindQuery, FindQueryView};
use crate::backends::grep::{
    GrepContextQuery, GrepContextQueryView, GrepQuery, GrepQueryView,
};
use crate::backends::projection::{
    FindMeasure, FindMeasureView, FindPipeline, FindPipelineView, FindProjection,
    FindProjectionView, Projection, ProjectionView, ReadOnlyExternal, ReadOnlyExternalView,
};
use vstd::prelude::*;

verus! {

/// Which end of a file is read.
#[derive(Debug, Clone, Copy, PartialEq, Eq, Structural)]
pub enum ReadWindow {
    Head,
    Tail,
}

/// An operation that is run in place of a command.
#[derive(Debug, PartialEq, Eq)]
pub enum FastOperation {
    Find(FindQuery),
    FindProjection(FindProjection),
    FindPipeline(FindPipeline),
    FindMeasure(FindMeasure),
    DirectProjection { paths: Vec<String>, projection: Projection },
    Grep(GrepQuery),
    GrepContext(GrepContextQuery),
    InspectFile { path: String, raw: bool },
    ReadLines { path: String, window: ReadWindow, count: usize },
    Slice { path: String, skip: usize, first: usize },
    ListDirectory(DirectoryList),
    ListDirectoryPipeline(DirectoryPipeline),
    CommandList(Vec<FastSegment>),
    MiniScript(MiniScript),
}

/// One step of a list of commands.
#[derive(Debug, PartialEq, Eq)]
pub enum FastSegment {
    Operation(Box<FastOperation>),
    ReadOnlyExternal(ReadOnlyExternal),
}

/// A chain of conditions and what to run where one holds.
#[derive(Debug, PartialEq, Eq)]
pub struct MiniScript {
    pub branches: Vec<MiniBranch>,
}

/// A condition, none for `else`, and what to run where it holds.
#[derive(Debug, PartialEq, Eq)]
pub struct MiniBranch {
    pub condition: Option<MiniCondition>,
    pub segments: Vec<FastSegment>,
}

/// A condition on what exists.
#[derive(Debug, PartialEq, Eq)]
pub enum MiniCondition {
    TestPath { path: String, path_type: TestPathType },
    Not(Box<MiniCondition>),
    And(Box<MiniCondition>, Box<MiniCondition>),
    Or(Box<MiniCondition>, Box<MiniCondition>),
}

/// What a path must be for a test to hold.
#[derive(Debug, Clone, Copy, PartialEq, Eq, Structural)]
pub enum TestPathType {
    Any,
    Leaf,
    Container,
}

/// The contents of an operation.
#[verifier::ext_equal]
pub ghost enum OperationView {
    Find(FindQueryView),
    FindProjection(FindProjectionView),
    FindPipeline(FindPipelineView),
    FindMeasure(FindMeasureView),
    DirectProjection { paths: Seq<Seq<char>>, projection: ProjectionView },
    Grep(GrepQueryView),
    GrepContext(GrepContextQueryView),
    InspectFile { path: Seq<char>, raw: bool },
    ReadLines { path: Seq<char>, window: ReadWindow, count: usize },
    Slice { path: Seq<char>, skip: usize, first: usize },
    ListDirectory(DirectoryListView),
    ListDirectoryPipeline(DirectoryPipelineView),
    CommandList(Seq<SegmentView>),
    MiniScript(Seq<BranchView>),
}

/// The contents of a step.
#[verifier::ext_equal]
pub ghost enum SegmentView {
    Operation(Box<OperationView>),
    ReadOnlyExternal(ReadOnlyExternalView),
}

/// The contents of a branch.
#[verifier::ext_equal]
pub ghost struct BranchView {
    pub condition: Option<ConditionView>,
    pub segments: Seq<SegmentView>,
}

/// The contents of a condition.
#[verifier::ext_equal]
pub ghost enum ConditionView {
    TestPath { path: Seq<char>, path_type: TestPathType },
    Not(Box<ConditionView>),
    And(Box<ConditionView>, Box<ConditionView>),
    Or(Box<ConditionView>, Box<ConditionView>),
}

/// The contents of a condition.
pub open spec fn condition_view(condition: MiniCondition) -> ConditionView
    decreases condition,
{
    match condition {
        MiniCondition::TestPath { path, path_type } => ConditionView::TestPath {
            path: path@,
            path_type,
        },
        MiniCondition::Not(inner) => ConditionView::Not(Box::new(condition_view(*inner))),
        MiniCondition::And(left, right) => ConditionView::And(
            Box::new(condition_view(*left)),
            Box::new(condition_view(*right)),
        ),
        MiniCondition::Or(left, right) => ConditionView::Or(
            Box::new(condition_view(*left)),
            Box::new(condition_view(*right)),
        ),
    }
}

/// The contents of an operation.
pub open spec fn operation_view(operation: FastOperation) -> OperationView
    decreases operation, 0nat,
{
    match operation {
        FastOperation::Find(query) => OperationView::Find(query.deep_view()),
        FastOperation::FindProjection(find) => OperationView::FindProjection(find.deep_view()),
        FastOperation::FindPipeline(find) => OperationView::FindPipeline(find.deep_view()),
        FastOperation::FindMeasure(find) => OperationView::FindMeasure(find.deep_view()),
        FastOperation::DirectProjection { paths, projection } => OperationView::DirectProjection {
            paths: paths.deep_view(),
            projection: projection.deep_view(),
        },
        FastOperation::Grep(query) => OperationView::Grep(query.deep_view()),
        FastOperation::GrepContext(query) => OperationView::GrepContext(query.deep_view()),
        FastOperation::InspectFile { path, raw } => OperationView::InspectFile { path: path@, raw },
        FastOperation::ReadLines { path, window, count } => OperationView::ReadLines {
            path: path@,
            window,
            count,
        },
        FastOperation::Slice { path, skip, first } => OperationView::Slice {
            path: path@,
            skip,
            first,
        },
        FastOperation::ListDirectory(list) => OperationView::ListDirectory(list.deep_view()),
        FastOperation::ListDirectoryPipeline(list) => OperationView::ListDirectoryPipeline(
            list.deep_view(),
        ),
        FastOperation::CommandList(segments) => OperationView::CommandList(
            segments_view(segments@),
        ),
        FastOperation::MiniScript(script) => OperationView::MiniScript(
            branches_view(script.branches@),
        ),
    }
}

/// The contents of a list of steps.
pub open spec fn segments_view(segments: Seq<FastSegment>) -> Seq<SegmentView>
    decreases segments,
{
    Seq::new(
        segments.len(),
        |i: int|
            if 0 <= i < segments.len() {
                segment_view(segments[i])
            } else {
                arbitrary()
            },
    )
}

/// The contents of a step.
pub open spec fn segment_view(segment: FastSegment) -> SegmentView
    decreases segment,
{
    match segment {
        FastSegment::Operation(operation) => SegmentView::Operation(
            Box::new(operation_view(*operation)),
        ),
        FastSegment::ReadOnlyExternal(external) => SegmentView::ReadOnlyExternal(
            external.deep_view(),
        ),
    }
}

/// The contents of a list of branches.
pub open spec fn branches_view(branches: Seq<MiniBranch>) -> Seq<BranchView>
    decreases branches,
{
    Seq::new(
        branches.len(),
        |i: int|
            if 0 <= i < branches.len() {
                branch_view(branches[i])
            } else {
                arbitrary()
            },
    )
}

/// The contents of a branch.
pub open spec fn branch_view(branch: MiniBranch) -> BranchView
    decreases branch,
{
    BranchView {
        condition: match branch.condition {
            Some(condition) => Some(condition_view(condition)),
            None => None,
        },
        segments: segments_view(branch.segments@),
    }
}

} // verus!
