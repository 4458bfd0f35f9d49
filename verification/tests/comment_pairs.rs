use nudge::comments::{find_comments, CommentPair};
use nudge::lines::LineRange;
use nudge::syntax::{KindTable, SourceLanguage, SyntaxNode};

fn range(start: usize, end: usize) -> LineRange {
    LineRange::new(start, end).expect("a range")
}

fn leaf(kind: &str, first: usize, last: usize) -> SyntaxNode {
    SyntaxNode::new(kind, range(first, last + 1), Vec::new())
}

fn file(last: usize, children: Vec<SyntaxNode>) -> SyntaxNode {
    SyntaxNode::new("source_file", range(1, last + 1), children)
}

fn rust() -> KindTable {
    SourceLanguage::Rust.kind_table()
}

#[test]
fn comment_before_declaration_pairs() {
    let tree = file(2, vec![leaf("line_comment", 1, 1), leaf("function_item", 2, 2)]);
    assert_eq!(
        find_comments(&tree, &rust()),
        vec![CommentPair { comment: range(1, 2), declaration: range(2, 3) }]
    );
}

#[test]
fn declaration_without_comment_has_no_pair() {
    let tree = file(3, vec![leaf("function_item", 1, 1), leaf("struct_item", 2, 3)]);
    assert_eq!(find_comments(&tree, &rust()), Vec::new());
}

#[test]
fn comment_after_declaration_has_no_pair() {
    let tree = file(2, vec![leaf("function_item", 1, 1), leaf("line_comment", 2, 2)]);
    assert_eq!(find_comments(&tree, &rust()), Vec::new());
}

#[test]
fn run_of_comments_forms_one_block() {
    let tree = file(
        6,
        vec![
            leaf("use_declaration", 1, 1),
            leaf("line_comment", 2, 2),
            leaf("block_comment", 3, 4),
            leaf("line_comment", 5, 5),
            leaf("function_item", 6, 6),
        ],
    );
    assert_eq!(
        find_comments(&tree, &rust()),
        vec![CommentPair { comment: range(2, 6), declaration: range(6, 7) }]
    );
}

#[test]
fn run_starts_behind_the_nearest_other_node() {
    let tree = file(
        5,
        vec![
            leaf("line_comment", 1, 1),
            leaf("use_declaration", 2, 2),
            leaf("line_comment", 3, 3),
            leaf("line_comment", 4, 4),
            leaf("struct_item", 5, 5),
        ],
    );
    assert_eq!(
        find_comments(&tree, &rust()),
        vec![CommentPair { comment: range(3, 5), declaration: range(5, 6) }]
    );
}

#[test]
fn blank_lines_do_not_part_comment_and_declaration() {
    let tree = file(5, vec![leaf("line_comment", 1, 1), leaf("function_item", 4, 5)]);
    assert_eq!(
        find_comments(&tree, &rust()),
        vec![CommentPair { comment: range(1, 4), declaration: range(4, 6) }]
    );
}

#[test]
fn another_named_node_parts_comment_and_declaration() {
    let tree = file(
        3,
        vec![
            leaf("line_comment", 1, 1),
            leaf("attribute_item", 2, 2),
            leaf("struct_item", 3, 3),
        ],
    );
    assert_eq!(find_comments(&tree, &rust()), Vec::new());
}

#[test]
fn only_documentable_kinds_pair() {
    let tree = file(2, vec![leaf("line_comment", 1, 1), leaf("expression_statement", 2, 2)]);
    assert_eq!(find_comments(&tree, &rust()), Vec::new());
}

#[test]
fn comment_on_the_declaration_line_forms_no_block() {
    let tree = file(1, vec![leaf("block_comment", 1, 1), leaf("function_item", 1, 1)]);
    assert_eq!(find_comments(&tree, &rust()), Vec::new());
}

#[test]
fn comment_starting_below_the_declaration_forms_no_block() {
    let tree = file(3, vec![leaf("block_comment", 3, 3), leaf("function_item", 2, 2)]);
    assert_eq!(find_comments(&tree, &rust()), Vec::new());
}

#[test]
fn root_has_no_siblings() {
    let tree = leaf("function_item", 1, 3);
    assert_eq!(find_comments(&tree, &rust()), Vec::new());
}

#[test]
fn pairs_at_every_depth() {
    let body = SyntaxNode::new(
        "declaration_list",
        range(3, 9),
        vec![
            leaf("line_comment", 4, 4),
            leaf("function_item", 5, 6),
            leaf("function_item", 7, 7),
        ],
    );
    let module = SyntaxNode::new("mod_item", range(3, 9), vec![leaf("identifier", 3, 3), body]);
    let tree = file(
        12,
        vec![
            leaf("line_comment", 1, 2),
            module,
            leaf("block_comment", 10, 10),
            leaf("struct_item", 11, 12),
        ],
    );
    assert_eq!(
        find_comments(&tree, &rust()),
        vec![
            CommentPair { comment: range(1, 3), declaration: range(3, 9) },
            CommentPair { comment: range(10, 11), declaration: range(11, 13) },
            CommentPair { comment: range(4, 5), declaration: range(5, 7) },
        ]
    );
}

#[test]
fn two_declarations_after_one_comment() {
    let tree = file(
        3,
        vec![
            leaf("line_comment", 1, 1),
            leaf("function_item", 2, 2),
            leaf("function_item", 3, 3),
        ],
    );
    assert_eq!(
        find_comments(&tree, &rust()),
        vec![CommentPair { comment: range(1, 2), declaration: range(2, 3) }]
    );
}

#[test]
fn custom_kind_table() {
    let table = KindTable {
        comments: vec!["note".to_string()],
        documentable: vec!["rule".to_string(), "note".to_string()],
    };
    assert!(table.comment_kind(&"note".to_string()));
    assert!(!table.comment_kind(&"rule".to_string()));
    assert!(table.documentable_kind(&"rule".to_string()));
    assert!(!table.documentable_kind(&"note".to_string()));
    assert!(!table.documentable_kind(&"other".to_string()));
    let tree = SyntaxNode::new(
        "rules",
        range(1, 5),
        vec![leaf("note", 1, 1), leaf("note", 2, 2), leaf("rule", 3, 3), leaf("function_item", 4, 4)],
    );
    assert_eq!(
        find_comments(&tree, &table),
        vec![CommentPair { comment: range(1, 3), declaration: range(3, 4) }]
    );
}

#[test]
fn syntax_node_constructor_keeps_its_parts() {
    let node = SyntaxNode::new("function_item", range(2, 4), vec![leaf("identifier", 2, 2)]);
    assert_eq!(node.kind, "function_item");
    assert_eq!(node.range, LineRange { start: 2, end: 4 });
    assert_eq!(node.children, vec![leaf("identifier", 2, 2)]);
}
