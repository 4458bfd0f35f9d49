//! Syntax trees as the comment logic reads them, and the node kinds that
//! count as comments and as documentable declarations.

use vstd::prelude::*;
use crate::lines::LineRange;

verus! {

/// A named node of a syntax tree: its kind tag, the lines it spans, and its
/// named children in source order. The nodes of `children` are each other's
/// named siblings.
#[derive(Debug, PartialEq, Eq)]
pub struct SyntaxNode {
    pub kind: String,
    pub range: LineRange,
    pub children: Vec<SyntaxNode>,
}

/// A syntax tree as a plain value: the view of a `SyntaxNode`.
pub struct Tree {
    pub kind: Seq<char>,
    pub range: LineRange,
    pub children: Seq<Tree>,
}

impl Tree {
    /// Whether the lines of the node and of every node below it form
    /// well-formed ranges.
    pub open spec fn wf(self) -> bool
        decreases self,
    {
        &&& self.range.wf()
        &&& forall|i: int| 0 <= i < self.children.len() ==> (#[trigger] self.children[i]).wf()
    }
}

/// The tree that `node` stands for.
pub open spec fn tree_view(node: SyntaxNode) -> Tree
    decreases node,
{
    Tree {
        kind: node.kind@,
        range: node.range,
        children: Seq::new(
            node.children@.len(),
            |i: int|
                if 0 <= i < node.children@.len() {
                    tree_view(node.children@[i])
                } else {
                    arbitrary()
                },
        ),
    }
}

/// The trees that `nodes` stand for.
pub open spec fn trees(nodes: Seq<SyntaxNode>) -> Seq<Tree> {
    Seq::new(nodes.len(), |i: int| nodes[i]@)
}

impl View for SyntaxNode {
    type V = Tree;

    open spec fn view(&self) -> Tree {
        tree_view(*self)
    }
}

/// The children of a node's tree are the trees of its children.
pub proof fn lemma_children_view(node: SyntaxNode)
    ensures
        node@.kind == node.kind@,
        node@.range == node.range,
        node@.children == trees(node.children@),
{
    assert(node@.children =~= trees(node.children@));
}

impl SyntaxNode {
    /// A node of kind `kind` over `range` with the given children.
    pub fn new(kind: &str, range: LineRange, children: Vec<SyntaxNode>) -> (node: SyntaxNode)
        ensures
            node.kind@ == kind@,
            node.range == range,
            node.children == children,
            node@ == (Tree { kind: kind@, range, children: trees(children@) }),
    {
        let node = SyntaxNode { kind: kind.to_owned(), range, children };
        proof {
            lemma_children_view(node);
        }
        node
    }
}

/// The kind names that a language's grammar gives to comments and to
/// documentable declarations.
#[derive(Debug, PartialEq, Eq)]
pub struct KindTable {
    pub comments: Vec<String>,
    pub documentable: Vec<String>,
}

/// The names that `kinds` holds.
pub open spec fn names(kinds: Seq<String>) -> Seq<Seq<char>> {
    kinds.map_values(|kind: String| kind@)
}

/// The kind names of a grammar as plain sequences: the view of a
/// `KindTable`.
pub struct Kinds {
    pub comments: Seq<Seq<char>>,
    pub documentable: Seq<Seq<char>>,
}

impl Kinds {
    /// Whether `kind` names a comment.
    pub open spec fn is_comment(self, kind: Seq<char>) -> bool {
        self.comments.contains(kind)
    }

    /// Whether `kind` names a documentable declaration. A kind that names a
    /// comment never does.
    pub open spec fn is_declaration(self, kind: Seq<char>) -> bool {
        self.documentable.contains(kind) && !self.is_comment(kind)
    }
}

impl View for KindTable {
    type V = Kinds;

    open spec fn view(&self) -> Kinds {
        Kinds { comments: names(self.comments@), documentable: names(self.documentable@) }
    }
}

impl KindTable {
    /// Whether `kind` names a comment.
    pub fn comment_kind(&self, kind: &String) -> (found: bool)
        ensures
            found == self@.is_comment(kind@),
    {
        holds_name(&self.comments, kind)
    }

    /// Whether `kind` names a documentable declaration.
    pub fn documentable_kind(&self, kind: &String) -> (found: bool)
        ensures
            found == self@.is_declaration(kind@),
    {
        holds_name(&self.documentable, kind) && !holds_name(&self.comments, kind)
    }
}

/// Whether `kinds` holds the name `kind`.
fn holds_name(kinds: &Vec<String>, kind: &String) -> (found: bool)
    ensures
        found == names(kinds@).contains(kind@),
{
    let mut i: usize = 0;
    while i < kinds.len()
        invariant
            i <= kinds@.len(),
            forall|k: int| 0 <= k < i ==> #[trigger] names(kinds@)[k] != kind@,
        decreases kinds@.len() - i,
    {
        if kinds[i].eq(kind) {
            assert(names(kinds@)[i as int] == kind@);
            return true;
        }
        i += 1;
    }
    false
}

/// A language whose sources can be checked.
#[derive(Clone, Copy, Debug, PartialEq, Eq, Structural, Hash)]
pub enum SourceLanguage {
    Swift,
    Rust,
    Go,
}

/// The language of files with the extension `extension`, if it is a
/// supported one: `swift`, `rs` or `go`.
pub open spec fn language_of(extension: Seq<char>) -> Option<SourceLanguage> {
    if extension == "swift"@ {
        Some(SourceLanguage::Swift)
    } else if extension == "rs"@ {
        Some(SourceLanguage::Rust)
    } else if extension == "go"@ {
        Some(SourceLanguage::Go)
    } else {
        None
    }
}

/// Maps a file extension, without its dot, to the language of such files.
/// Files of any other extension are not to be checked.
pub fn language_for_extension(extension: &str) -> (language: Option<SourceLanguage>)
    ensures
        language == language_of(extension@),
{
    let extension = extension.to_owned();
    if extension.eq(&"swift".to_owned()) {
        Some(SourceLanguage::Swift)
    } else if extension.eq(&"rs".to_owned()) {
        Some(SourceLanguage::Rust)
    } else if extension.eq(&"go".to_owned()) {
        Some(SourceLanguage::Go)
    } else {
        None
    }
}

/// The kind names of the grammar of `language`.
pub open spec fn kinds_of(language: SourceLanguage) -> Kinds {
    Kinds { comments: comment_kinds(language), documentable: documentable_kinds(language) }
}

/// The kinds of comment nodes in the grammar of `language`.
pub open spec fn comment_kinds(language: SourceLanguage) -> Seq<Seq<char>> {
    match language {
        SourceLanguage::Swift => seq!["comment"@, "multiline_comment"@],
        SourceLanguage::Rust => seq!["line_comment"@, "block_comment"@],
        SourceLanguage::Go => seq!["comment"@],
    }
}

/// The kinds of documentable declarations in the grammar of `language`.
pub open spec fn documentable_kinds(language: SourceLanguage) -> Seq<Seq<char>> {
    match language {
        SourceLanguage::Swift => seq![
            "function_declaration"@,
            "class_declaration"@,
            "protocol_declaration"@,
            "property_declaration"@,
            "typealias_declaration"@,
            "init_declaration"@,
            "deinit_declaration"@,
            "subscript_declaration"@,
            "associatedtype_declaration"@,
            "protocol_function_declaration"@,
            "protocol_property_declaration"@,
            "operator_declaration"@,
            "macro_declaration"@,
        ],
        SourceLanguage::Rust => seq![
            "function_item"@,
            "function_signature_item"@,
            "struct_item"@,
            "enum_item"@,
            "union_item"@,
            "trait_item"@,
            "impl_item"@,
            "mod_item"@,
            "const_item"@,
            "static_item"@,
            "type_item"@,
            "associated_type"@,
            "macro_definition"@,
            "field_declaration"@,
            "enum_variant"@,
            "let_declaration"@,
        ],
        SourceLanguage::Go => seq![
            "function_declaration"@,
            "method_declaration"@,
            "type_declaration"@,
            "const_declaration"@,
            "var_declaration"@,
            "type_spec"@,
            "const_spec"@,
            "var_spec"@,
            "field_declaration"@,
        ],
    }
}

/// Appends the kind `name` to `kinds`.
fn push_kind(kinds: &mut Vec<String>, name: &str)
    ensures
        names(final(kinds)@) == names(old(kinds)@).push(name@),
{
    kinds.push(name.to_owned());
    assert(names(kinds@) =~= names(old(kinds)@).push(name@));
}

impl SourceLanguage {
    /// The kind table of the language's grammar.
    pub fn kind_table(self) -> (table: KindTable)
        ensures
            table@ == kinds_of(self),
    {
        let mut comments: Vec<String> = Vec::new();
        let mut documentable: Vec<String> = Vec::new();
        assert(names(comments@) =~= Seq::<Seq<char>>::empty());
        assert(names(documentable@) =~= Seq::<Seq<char>>::empty());
        match self {
            SourceLanguage::Swift => {
                push_kind(&mut comments, "comment");
                push_kind(&mut comments, "multiline_comment");
                push_kind(&mut documentable, "function_declaration");
                push_kind(&mut documentable, "class_declaration");
                push_kind(&mut documentable, "protocol_declaration");
                push_kind(&mut documentable, "property_declaration");
                push_kind(&mut documentable, "typealias_declaration");
                push_kind(&mut documentable, "init_declaration");
                push_kind(&mut documentable, "deinit_declaration");
                push_kind(&mut documentable, "subscript_declaration");
                push_kind(&mut documentable, "associatedtype_declaration");
                push_kind(&mut documentable, "protocol_function_declaration");
                push_kind(&mut documentable, "protocol_property_declaration");
                push_kind(&mut documentable, "operator_declaration");
                push_kind(&mut documentable, "macro_declaration");
            },
            SourceLanguage::Rust => {
                push_kind(&mut comments, "line_comment");
                push_kind(&mut comments, "block_comment");
                push_kind(&mut documentable, "function_item");
                push_kind(&mut documentable, "function_signature_item");
                push_kind(&mut documentable, "struct_item");
                push_kind(&mut documentable, "enum_item");
                push_kind(&mut documentable, "union_item");
                push_kind(&mut documentable, "trait_item");
                push_kind(&mut documentable, "impl_item");
                push_kind(&mut documentable, "mod_item");
                push_kind(&mut documentable, "const_item");
                push_kind(&mut documentable, "static_item");
                push_kind(&mut documentable, "type_item");
                push_kind(&mut documentable, "associated_type");
                push_kind(&mut documentable, "macro_definition");
                push_kind(&mut documentable, "field_declaration");
                push_kind(&mut documentable, "enum_variant");
                push_kind(&mut documentable, "let_declaration");
            },
            SourceLanguage::Go => {
                push_kind(&mut comments, "comment");
                push_kind(&mut documentable, "function_declaration");
                push_kind(&mut documentable, "method_declaration");
                push_kind(&mut documentable, "type_declaration");
                push_kind(&mut documentable, "const_declaration");
                push_kind(&mut documentable, "var_declaration");
                push_kind(&mut documentable, "type_spec");
                push_kind(&mut documentable, "const_spec");
                push_kind(&mut documentable, "var_spec");
                push_kind(&mut documentable, "field_declaration");
            },
        }
        assert(names(comments@) =~= comment_kinds(self));
        assert(names(documentable@) =~= documentable_kinds(self));
        KindTable { comments, documentable }
    }
}

} // verus!
