//! Syntax trees, as lists of nodes in the order in which they start.
#![verifier::loop_isolation(false)]

use crate::text::{option_is, option_str};
use vstd::prelude::*;
use vstd::string::*;

verus! {

/// The grammars that can be parsed.
#[derive(Debug, Clone, Copy, PartialEq, Eq, Structural)]
pub enum Grammar {
    Rust,
    Python,
    C,
    Cpp,
    GDScript,
    PowerShell,
}

/// One node of a syntax tree. The nodes of a tree are listed in preorder;
/// the depth tells where a subtree ends.
#[derive(Debug, Clone, PartialEq, Eq)]
pub struct SyntaxNode {
    /// The distance from the root.
    pub depth: u32,
    /// The node's kind in its grammar.
    pub kind: String,
    /// The field of the parent that the node stands in.
    pub field: Option<String>,
    /// Whether the node is text that fits nowhere in the grammar.
    pub error: bool,
    /// Whether the parser made the node up to go on.
    pub missing: bool,
    /// Whether the node holds an error somewhere.
    pub has_error: bool,
    pub start_row: u32,
    pub end_row: u32,
    pub start_byte: usize,
    pub end_byte: usize,
}

/// The contents of a node.
#[verifier::ext_equal]
pub ghost struct NodeView {
    pub depth: u32,
    pub kind: Seq<char>,
    pub field: Option<Seq<char>>,
    pub error: bool,
    pub missing: bool,
    pub has_error: bool,
    pub start_row: u32,
    pub end_row: u32,
    pub start_byte: usize,
    pub end_byte: usize,
}

impl DeepView for SyntaxNode {
    type V = NodeView;

    open spec fn deep_view(&self) -> NodeView {
        NodeView {
            depth: self.depth,
            kind: self.kind@,
            field: self.field.deep_view(),
            error: self.error,
            missing: self.missing,
            has_error: self.has_error,
            start_row: self.start_row,
            end_row: self.end_row,
            start_byte: self.start_byte,
            end_byte: self.end_byte,
        }
    }
}

/// `tree_sitter::Tree`, a parsed text.
#[verifier::external_type_specification]
#[verifier::external_body]
pub struct ExTree(tree_sitter::Tree);

/// The nodes of a tree, in preorder.
pub uninterp spec fn tree_nodes(tree: tree_sitter::Tree) -> Seq<NodeView>;

/// The nodes that `tree_sitter::Parser::parse` finds in a text with the
/// grammar of one of the `tree_sitter_*` crates; `None` where it gives no
/// tree.
pub uninterp spec fn parsed_nodes(grammar: Grammar, text: Seq<char>) -> Option<Seq<NodeView>>;

/// Calls `tree_sitter::Parser::parse` on a fresh parser with the language of
/// the grammar. Claimed: whether there is a tree, and which nodes it has,
/// depends on the grammar and the text alone.
#[verifier::external_body]
fn parse(grammar: Grammar, text: &str) -> (r: Option<tree_sitter::Tree>)
    ensures
        match r {
            Some(tree) => parsed_nodes(grammar, text@) == Some(tree_nodes(tree)),
            None => parsed_nodes(grammar, text@) is None,
        },
{
    let language = match grammar {
        Grammar::Rust => tree_sitter_rust::LANGUAGE,
        Grammar::Python => tree_sitter_python::LANGUAGE,
        Grammar::C => tree_sitter_c::LANGUAGE,
        Grammar::Cpp => tree_sitter_cpp::LANGUAGE,
        Grammar::GDScript => tree_sitter_gdscript::LANGUAGE,
        Grammar::PowerShell => tree_sitter_powershell::LANGUAGE,
    };
    let mut parser = tree_sitter::Parser::new();
    parser.set_language(&language.into()).ok()?;
    parser.parse(text, None)
}

/// Walks a `tree_sitter::TreeCursor` over a tree, from the root through all
/// children. Claimed: it meets the nodes of the tree, each once, in preorder.
#[verifier::external_body]
fn nodes(tree: &tree_sitter::Tree) -> (r: Vec<SyntaxNode>)
    ensures
        r.deep_view() == tree_nodes(*tree),
{
    let (mut cursor, mut out) = (tree.walk(), Vec::new());
    loop {
        let node = cursor.node();
        out.push(SyntaxNode { depth: cursor.depth(), kind: node.kind().to_owned(),
            field: cursor.field_name().map(str::to_owned), error: node.is_error(),
            missing: node.is_missing(), has_error: node.has_error(),
            start_row: node.start_position().row as u32, end_row: node.end_position().row as u32,
            start_byte: node.start_byte(), end_byte: node.end_byte() });
        if cursor.goto_first_child() { continue; }
        while !cursor.goto_next_sibling() {
            if !cursor.goto_parent() { return out; }
        }
    }
}

/// The nodes of a text under a grammar.
pub fn parse_nodes(grammar: Grammar, text: &str) -> (r: Option<Vec<SyntaxNode>>)
    ensures
        r.deep_view() == parsed_nodes(grammar, text@),
{
    match parse(grammar, text) {
        Some(tree) => Some(nodes(&tree)),
        None => None,
    }
}

/// Whether a node is free of errors.
pub open spec fn clean(node: NodeView) -> bool {
    !node.has_error && !node.error && !node.missing
}

/// The first child, from `j` on, of a node of the given depth that is not
/// clean.
pub open spec fn flawed_child(nodes: Seq<NodeView>, depth: int, j: int) -> Option<int>
    decreases nodes.len() - j,
{
    if j < 0 || j >= nodes.len() || nodes[j].depth <= depth {
        None
    } else if nodes[j].depth == depth + 1 && !clean(nodes[j]) {
        Some(j)
    } else {
        flawed_child(nodes, depth, j + 1)
    }
}

/// The first child, from `j` on, of a node of the given depth that stands
/// in the field.
pub open spec fn field_child(nodes: Seq<NodeView>, depth: int, j: int, field: Seq<char>) -> Option<
    int,
>
    decreases nodes.len() - j,
{
    if j < 0 || j >= nodes.len() || nodes[j].depth <= depth {
        None
    } else if nodes[j].depth == depth + 1 && nodes[j].field == Some(field) {
        Some(j)
    } else {
        field_child(nodes, depth, j + 1, field)
    }
}

/// Where the first problem in the subtree of node `i` starts, counted from
/// line 1: at the node itself if it is an error or missing, else in its
/// first child with a problem, else at the node.
pub open spec fn issue_line(nodes: Seq<NodeView>, i: int) -> Option<u64>
    decreases nodes.len() - i,
{
    if i < 0 || i >= nodes.len() || clean(nodes[i]) {
        None
    } else {
        let own = (nodes[i].start_row + 1) as u64;
        if nodes[i].error || nodes[i].missing {
            Some(own)
        } else {
            match flawed_child(nodes, nodes[i].depth as int, i + 1) {
                Some(j) => if i < j < nodes.len() {
                    issue_line(nodes, j)
                } else {
                    None
                },
                None => Some(own),
            }
        }
    }
}

proof fn lemma_flawed_child(nodes: Seq<NodeView>, depth: int, j: int)
    ensures
        flawed_child(nodes, depth, j) matches Some(k) ==> j <= k < nodes.len() && nodes[k].depth
            == depth + 1 && !clean(nodes[k]),
    decreases nodes.len() - j,
{
    if !(j < 0 || j >= nodes.len() || nodes[j].depth <= depth) {
        if !(nodes[j].depth == depth + 1 && !clean(nodes[j])) {
            lemma_flawed_child(nodes, depth, j + 1);
        }
    }
}

/// Where the first problem of a tree starts, counted from line 1.
pub fn first_syntax_issue_line(nodes: &Vec<SyntaxNode>) -> (r: Option<u64>)
    ensures
        r == issue_line(nodes.deep_view(), 0),
{
    let mut i: usize = 0;
    while i < nodes.len()
        invariant
            i <= nodes.len(),
            issue_line(nodes.deep_view(), i as int) == issue_line(nodes.deep_view(), 0),
            i == nodes.len() ==> i == 0,
        decreases nodes.len() - i,
    {
        let ghost view = nodes.deep_view();
        assert(view[i as int] == nodes[i as int].deep_view());
        let node = &nodes[i];
        if !node.has_error && !node.error && !node.missing {
            return None;
        }
        let own: u64 = node.start_row as u64 + 1;
        if node.error || node.missing {
            return Some(own);
        }
        let depth = node.depth;
        let mut j: usize = i + 1;
        while j < nodes.len() && nodes[j].depth > depth && !(nodes[j].depth == depth + 1 && (
        nodes[j].has_error || nodes[j].error || nodes[j].missing))
            invariant
                i < j <= nodes.len(),
                flawed_child(view, depth as int, j as int) == flawed_child(
                    view,
                    depth as int,
                    i + 1,
                ),
            decreases nodes.len() - j,
        {
            assert(view[j as int] == nodes[j as int].deep_view());
            j += 1;
        }
        if j == nodes.len() || nodes[j].depth <= depth {
            if j < nodes.len() {
                assert(view[j as int] == nodes[j as int].deep_view());
            }
            return Some(own);
        }
        assert(view[j as int] == nodes[j as int].deep_view());
        assert(flawed_child(view, depth as int, j as int) == Some(j as int));
        i = j;
    }
    None
}

/// The first child of node `i` that stands in the field.
pub fn child_by_field_name(nodes: &Vec<SyntaxNode>, i: usize, field: &str) -> (r: Option<usize>)
    requires
        i < nodes.len(),
    ensures
        match r {
            Some(j) => j < nodes.len() && field_child(
                nodes.deep_view(),
                nodes[i as int].depth as int,
                i + 1,
                field@,
            ) == Some(j as int),
            None => field_child(nodes.deep_view(), nodes[i as int].depth as int, i + 1, field@)
                is None,
        },
{
    let depth = nodes[i].depth;
    let ghost view = nodes.deep_view();
    let mut j: usize = i + 1;
    while j < nodes.len() && nodes[j].depth > depth
        invariant
            i < j <= nodes.len(),
            field_child(view, depth as int, j as int, field@) == field_child(
                view,
                depth as int,
                i + 1,
                field@,
            ),
        decreases nodes.len() - j,
    {
        assert(view[j as int] == nodes[j as int].deep_view());
        if nodes[j].depth == depth + 1 && option_is(option_str(&nodes[j].field), field) {
            return Some(j);
        }
        j += 1;
    }
    if j < nodes.len() {
        assert(view[j as int] == nodes[j as int].deep_view());
    }
    None
}

/// A tree has a problem to report exactly where its root is not clean, and
/// what is reported is the line of one of its nodes that is not clean.
pub proof fn law_issue_line(nodes: Seq<NodeView>)
    ensures
        issue_line(nodes, 0) is Some <==> nodes.len() > 0 && !clean(nodes[0]),
        issue_line(nodes, 0) matches Some(line) ==> exists|i: int|
            0 <= i < nodes.len() && !clean(#[trigger] nodes[i]) && line == nodes[i].start_row + 1,
{
    lemma_issue_line(nodes, 0);
}

proof fn lemma_issue_line(nodes: Seq<NodeView>, i: int)
    requires
        0 <= i,
    ensures
        issue_line(nodes, i) is Some <==> i < nodes.len() && !clean(nodes[i]),
        issue_line(nodes, i) matches Some(line) ==> exists|k: int|
            i <= k < nodes.len() && !clean(#[trigger] nodes[k]) && line == nodes[k].start_row + 1,
    decreases nodes.len() - i,
{
    if i < nodes.len() && !clean(nodes[i]) && !nodes[i].error && !nodes[i].missing {
        let depth = nodes[i].depth as int;
        lemma_flawed_child(nodes, depth, i + 1);
        if let Some(j) = flawed_child(nodes, depth, i + 1) {
            lemma_issue_line(nodes, j);
        }
    }
}

} // verus!
