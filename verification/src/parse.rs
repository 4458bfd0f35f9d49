//! Syntax trees from source text, by way of the tree-sitter parser.
//!
//! The parser's tree comes as a `RawNode`: a plain copy of its named nodes,
//! with rows and columns as the parser counts them. What the parser makes of
//! a source has a name, `parsed`, and no more is said of it than that it is
//! the same for the same source and language. The copy is then lowered to a
//! `SyntaxNode` tree, with lines in place of rows, which is what the rest of
//! the crate reads.

use vstd::prelude::*;
use vstd::string::*;
use crate::lines::LineRange;
use crate::syntax::{lemma_children_view, SourceLanguage, SyntaxNode, Tree};

verus! {

/// `tree_sitter::Node`: a node of the parser's tree. Opaque.
#[verifier::external_type_specification]
#[verifier::external_body]
pub struct ExNode<'tree>(tree_sitter::Node<'tree>);

/// A named node as the parser gives it: its kind, the zero-based row in which
/// it starts, the zero-based row and column just behind its last byte, and
/// its named children in source order.
#[derive(Debug, PartialEq, Eq)]
pub struct RawNode {
    pub kind: String,
    pub start_row: usize,
    pub end_row: usize,
    pub end_column: usize,
    pub children: Vec<RawNode>,
}

/// What the tree-sitter parser makes of `source` under the grammar of
/// `language`: the root of its tree, or nothing where it refuses the grammar
/// or returns no tree.
pub uninterp spec fn parsed(source: Seq<char>, language: SourceLanguage) -> Option<RawNode>;

/// Copies a node of the parser's tree, field by field, and its named
/// children with it: `tree_sitter::Node::kind`, `start_position`,
/// `end_position` and `named_children`. Nothing is claimed of the copy.
#[verifier::external_body]
fn copy_node(node: tree_sitter::Node) -> RawNode {
    let (start, end) = (node.start_position(), node.end_position());
    RawNode {
        kind: node.kind().to_owned(),
        start_row: start.row,
        end_row: end.row,
        end_column: end.column,
        children: node.named_children(&mut node.walk()).map(copy_node).collect(),
    }
}

/// `tree_sitter::Parser::parse` on a new parser that was given the grammar of
/// `language` by `set_language`, with no earlier tree, and `root_node` of the
/// tree that comes back, copied. With no time limit and no earlier tree the
/// parser's answer is a function of the source and the grammar alone, which
/// is all that the contract claims. The parser counts bytes in 32 bits, so
/// longer sources are kept from it.
#[verifier::external_body]
fn parse_text(source: &str, language: SourceLanguage) -> (tree: Option<RawNode>)
    requires
        source.spec_bytes().len() <= u32::MAX,
    ensures
        tree == parsed(source@, language),
{
    let grammar = match language {
        SourceLanguage::Swift => tree_sitter_swift::LANGUAGE,
        SourceLanguage::Rust => tree_sitter_rust::LANGUAGE,
        SourceLanguage::Go => tree_sitter_go::LANGUAGE,
    };
    let mut parser = tree_sitter::Parser::new();
    parser.set_language(&grammar.into()).ok()?;
    let tree = parser.parse(source, None)?;
    Some(copy_node(tree.root_node()))
}

/// The lines of a node that starts in row `start_row` and ends just before
/// column `end_column` of row `end_row`, rows and columns counted from zero
/// and lines from one. A node that ends at the very start of a later row ends
/// with the line before it.
pub open spec fn span_of(start_row: usize, end_row: usize, end_column: usize) -> Option<LineRange> {
    let last_row = if end_column == 0 && end_row > start_row {
        end_row - 1
    } else {
        end_row as int
    };
    if start_row <= last_row && last_row + 2 <= usize::MAX {
        Some(LineRange { start: (start_row + 1) as usize, end: (last_row + 2) as usize })
    } else {
        None
    }
}

/// The lines of a node, from its start row and its end position. There is
/// none where the node would end before it starts, or beyond the last line
/// number that `usize` holds.
pub fn line_span(start_row: usize, end_row: usize, end_column: usize) -> (range: Option<LineRange>)
    ensures
        range == span_of(start_row, end_row, end_column),
        range matches Some(lines) ==> lines.wf(),
{
    let last_row = if end_column == 0 && end_row > start_row {
        end_row - 1
    } else {
        end_row
    };
    if start_row <= last_row && last_row <= usize::MAX - 2 {
        Some(LineRange { start: start_row + 1, end: last_row + 2 })
    } else {
        None
    }
}

/// The syntax tree of the parser's node `raw`: the same kinds and children,
/// each node over the lines of `span_of`. There is none where a node of it
/// has no lines.
pub open spec fn tree_of(raw: RawNode) -> Option<Tree>
    decreases raw,
{
    match span_of(raw.start_row, raw.end_row, raw.end_column) {
        Some(range) => if forall|i: int|
            0 <= i < raw.children@.len() ==> tree_of(#[trigger] raw.children@[i]) is Some {
            Some(
                Tree {
                    kind: raw.kind@,
                    range,
                    children: Seq::new(
                        raw.children@.len(),
                        |i: int|
                            if 0 <= i < raw.children@.len() {
                                tree_of(raw.children@[i]).unwrap()
                            } else {
                                arbitrary()
                            },
                    ),
                },
            )
        } else {
            None
        },
        None => None,
    }
}

/// The syntax tree of `source` under the grammar of `language`: the tree of
/// what the parser makes of it. There is none for a source of more bytes
/// than the parser can count.
pub open spec fn syntax_tree(source: &str, language: SourceLanguage) -> Option<Tree> {
    if source.spec_bytes().len() > u32::MAX {
        None
    } else {
        match parsed(source@, language) {
            Some(raw) => tree_of(raw),
            None => None,
        }
    }
}

/// Every tree that lowering gives is well formed.
pub proof fn lemma_tree_of_wf(raw: RawNode)
    ensures
        tree_of(raw) matches Some(tree) ==> tree.wf(),
    decreases raw,
{
    if let Some(tree) = tree_of(raw) {
        assert forall|i: int| 0 <= i < tree.children.len() implies (#[trigger] tree.children[i]).wf() by {
            lemma_tree_of_wf(raw.children@[i]);
        }
    }
}

/// Lowers the parser's node `raw` to a syntax tree: each node keeps its kind
/// and its children and gets the lines that its rows and end column span.
/// Fails where a node of `raw` has no such lines.
pub fn lower(raw: &RawNode) -> (lowered: Option<SyntaxNode>)
    ensures
        match tree_of(*raw) {
            Some(tree) => lowered matches Some(root) && root@ == tree,
            None => lowered is None,
        },
    decreases raw,
{
    let range = match line_span(raw.start_row, raw.end_row, raw.end_column) {
        Some(range) => range,
        None => {
            return None;
        },
    };
    let mut children: Vec<SyntaxNode> = Vec::new();
    let mut index: usize = 0;
    while index < raw.children.len()
        invariant
            index <= raw.children@.len(),
            children@.len() == index,
            forall|i: int|
                0 <= i < index ==> tree_of(#[trigger] raw.children@[i]) == Some(children@[i]@),
        decreases raw.children@.len() - index,
    {
        match lower(&raw.children[index]) {
            Some(lowered) => {
                children.push(lowered);
            },
            None => {
                return None;
            },
        }
        index += 1;
    }
    let root = SyntaxNode { kind: raw.kind.clone(), range, children };
    proof {
        lemma_children_view(root);
        assert(root@.children =~= tree_of(*raw).unwrap().children);
    }
    Some(root)
}

/// Parses `source` with the grammar of `language` and returns its syntax
/// tree: the named nodes, each with its kind, its lines and its named
/// children in source order.
///
/// There is no tree where the source is longer than the parser can count,
/// where the parser refuses the grammar or returns no tree, or where a node's
/// lines do not form a range.
pub fn parse_source(source: &str, language: SourceLanguage) -> (tree: Option<SyntaxNode>)
    ensures
        match syntax_tree(source, language) {
            Some(expected) => tree matches Some(root) && root@ == expected,
            None => tree is None,
        },
{
    if source.as_bytes().len() > u32::MAX as usize {
        return None;
    }
    match parse_text(source, language) {
        Some(raw) => lower(&raw),
        None => None,
    }
}

} // verus!
