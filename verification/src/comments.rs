//! Pairs each documentable declaration of a syntax tree with its leading
//! comment block.
//!
//! A declaration's leading comment block is the maximal run of comment nodes
//! that ends at the declaration's previous named sibling. Adjacency is a
//! matter of siblings alone: blank lines between a comment and its
//! declaration do not part them, any other named node does. The block spans
//! the lines from the first comment of the run up to, but not including, the
//! line on which the declaration starts. A run that starts on the
//! declaration's own line has no such line and forms no block.

use vstd::prelude::*;
use crate::lines::LineRange;
use crate::syntax::{lemma_children_view, trees, KindTable, Kinds, SyntaxNode, Tree};

verus! {

/// A leading comment block and the declaration that it documents.
#[derive(Clone, Copy, Debug, PartialEq, Eq, Structural, Hash)]
pub struct CommentPair {
    pub comment: LineRange,
    pub declaration: LineRange,
}

/// Whether `siblings[at]` is a comment.
pub open spec fn comment_at(siblings: Seq<Tree>, kinds: Kinds, at: int) -> bool {
    0 <= at < siblings.len() && kinds.is_comment(siblings[at].kind)
}

/// Whether `siblings[at]` is a documentable declaration.
pub open spec fn declaration_at(siblings: Seq<Tree>, kinds: Kinds, at: int) -> bool {
    0 <= at < siblings.len() && kinds.is_declaration(siblings[at].kind)
}

/// The index of the first comment of the run of consecutive comments that
/// ends at `siblings[last]`.
pub open spec fn run_start(siblings: Seq<Tree>, kinds: Kinds, last: int) -> int
    decreases last,
{
    if last > 0 && comment_at(siblings, kinds, last - 1) {
        run_start(siblings, kinds, last - 1)
    } else {
        last
    }
}

/// The pair that the declaration `siblings[at]` forms with its leading
/// comment block, if it has one.
pub open spec fn leading_pair(siblings: Seq<Tree>, kinds: Kinds, at: int) -> Option<
    CommentPair,
> {
    if declaration_at(siblings, kinds, at) && comment_at(siblings, kinds, at - 1) {
        let first = siblings[run_start(siblings, kinds, at - 1)];
        let comment = LineRange { start: first.range.start, end: siblings[at].range.start };
        if comment.wf() {
            Some(CommentPair { comment, declaration: siblings[at].range })
        } else {
            None
        }
    } else {
        None
    }
}

/// The pairs of the first `count` nodes of `siblings`, in source order.
pub open spec fn sibling_pairs(siblings: Seq<Tree>, kinds: Kinds, count: int) -> Seq<
    CommentPair,
>
    decreases count,
{
    if count <= 0 {
        Seq::empty()
    } else {
        let rest = sibling_pairs(siblings, kinds, count - 1);
        match leading_pair(siblings, kinds, count - 1) {
            Some(pair) => rest.push(pair),
            None => rest,
        }
    }
}

/// All pairs of the tree below `node`: those among the node's children,
/// then those below each child in turn.
pub open spec fn pairs_of(node: Tree, kinds: Kinds) -> Seq<CommentPair>
    decreases node, 0int,
{
    sibling_pairs(node.children, kinds, node.children.len() as int) + nested_pairs(
        node.children,
        kinds,
        node.children.len() as int,
    )
}

/// The pairs below each of the first `count` nodes of `nodes`.
pub open spec fn nested_pairs(nodes: Seq<Tree>, kinds: Kinds, count: int) -> Seq<
    CommentPair,
>
    decreases nodes, count,
{
    if count <= 0 || count > nodes.len() {
        Seq::empty()
    } else {
        nested_pairs(nodes, kinds, count - 1) + pairs_of(nodes[count - 1], kinds)
    }
}

/// Appends the pairs among `siblings` to `pairs`.
fn collect_sibling_pairs(siblings: &Vec<SyntaxNode>, table: &KindTable, pairs: &mut Vec<CommentPair>)
    ensures
        final(pairs)@ == old(pairs)@ + sibling_pairs(
            trees(siblings@),
            table@,
            siblings@.len() as int,
        ),
{
    let ghost nodes = trees(siblings@);
    let mut run: Option<usize> = None;
    let mut at: usize = 0;
    assert(pairs@ =~= old(pairs)@ + sibling_pairs(nodes, table@, 0));
    while at < siblings.len()
        invariant
            at <= siblings@.len(),
            nodes == trees(siblings@),
            pairs@ == old(pairs)@ + sibling_pairs(nodes, table@, at as int),
            match run {
                Some(first) => comment_at(nodes, table@, at - 1) && first == run_start(
                    nodes,
                    table@,
                    at - 1,
                ) && first < at,
                None => !comment_at(nodes, table@, at - 1),
            },
        decreases siblings@.len() - at,
    {
        let node = &siblings[at];
        let ghost before = pairs@;
        proof {
            lemma_children_view(*node);
            if let Some(first) = run {
                lemma_children_view(siblings@[first as int]);
            }
        }
        if table.comment_kind(&node.kind) {
            if run.is_none() {
                run = Some(at);
            }
        } else {
            if table.documentable_kind(&node.kind) {
                if let Some(first) = run {
                    let start = siblings[first].range.start;
                    let end = node.range.start;
                    if 1 <= start && start < end {
                        pairs.push(
                            CommentPair {
                                comment: LineRange { start, end },
                                declaration: node.range,
                            },
                        );
                    }
                }
            }
            run = None;
        }
        proof {
            let rest = sibling_pairs(nodes, table@, at as int);
            match leading_pair(nodes, table@, at as int) {
                Some(pair) => {
                    assert(pairs@ == before.push(pair));
                    assert(before.push(pair) =~= old(pairs)@ + rest.push(pair));
                },
                None => {
                    assert(pairs@ == before);
                },
            }
        }
        at += 1;
    }
}

/// Appends the pairs of the tree below `node` to `pairs`.
fn collect_pairs(node: &SyntaxNode, table: &KindTable, pairs: &mut Vec<CommentPair>)
    ensures
        final(pairs)@ == old(pairs)@ + pairs_of(node@, table@),
    decreases node,
{
    let ghost children = trees(node.children@);
    proof {
        lemma_children_view(*node);
    }
    collect_sibling_pairs(&node.children, table, pairs);
    let ghost among = pairs@;
    let mut at: usize = 0;
    assert(pairs@ =~= among + nested_pairs(children, table@, 0));
    while at < node.children.len()
        invariant
            at <= node.children@.len(),
            children == trees(node.children@),
            pairs@ == among + nested_pairs(children, table@, at as int),
        decreases node.children@.len() - at,
    {
        let ghost before = pairs@;
        collect_pairs(&node.children[at], table, pairs);
        proof {
            let below = pairs_of(children[at as int], table@);
            assert(before + below =~= among + (nested_pairs(children, table@, at as int) + below));
        }
        at += 1;
    }
    proof {
        let count = children.len() as int;
        assert(pairs@ =~= old(pairs)@ + (sibling_pairs(children, table@, count) + nested_pairs(
            children,
            table@,
            count,
        )));
    }
}

/// Walks the tree below `root` once and pairs each documentable declaration
/// with its leading comment block. A declaration whose previous named sibling
/// is absent or no comment yields no pair. The root, which has no siblings,
/// yields none either.
pub fn find_comments(root: &SyntaxNode, table: &KindTable) -> (pairs: Vec<CommentPair>)
    ensures
        pairs@ == pairs_of(root@, table@),
{
    let mut pairs: Vec<CommentPair> = Vec::new();
    collect_pairs(root, table, &mut pairs);
    assert(pairs@ =~= pairs_of(root@, table@));
    pairs
}

/// The node reached from `root` along `path`, a list of child indices.
pub open spec fn node_at(root: Tree, path: Seq<int>) -> Option<Tree>
    decreases path.len(),
{
    if path.len() == 0 {
        Some(root)
    } else if 0 <= path[0] < root.children.len() {
        node_at(root.children[path[0]], path.drop_first())
    } else {
        None
    }
}

/// Whether the node reached along `path` has, as its child `at`, a
/// documentable declaration whose previous sibling is a comment and whose
/// pair is `pair`.
pub open spec fn pair_site(
    root: Tree,
    kinds: Kinds,
    path: Seq<int>,
    at: int,
    pair: CommentPair,
) -> bool {
    node_at(root, path) matches Some(parent) && declaration_at(parent.children, kinds, at)
        && comment_at(parent.children, kinds, at - 1) && leading_pair(
        parent.children,
        kinds,
        at,
    ) == Some(pair)
}

/// The run that `run_start` finds is a run of comments, and it is maximal:
/// the sibling before its first comment, if there is one, is no comment.
pub proof fn lemma_run_is_maximal(siblings: Seq<Tree>, kinds: Kinds, last: int)
    requires
        comment_at(siblings, kinds, last),
    ensures
        0 <= run_start(siblings, kinds, last) <= last,
        forall|k: int|
            run_start(siblings, kinds, last) <= k <= last ==> comment_at(siblings, kinds, k),
        !comment_at(siblings, kinds, run_start(siblings, kinds, last) - 1),
    decreases last,
{
    if last > 0 && comment_at(siblings, kinds, last - 1) {
        lemma_run_is_maximal(siblings, kinds, last - 1);
    }
}

/// A declaration whose previous named sibling is absent or no comment forms
/// no pair, and neither does a node that is no documentable declaration.
pub proof fn lemma_pair_needs_comment(siblings: Seq<Tree>, kinds: Kinds, at: int)
    requires
        !comment_at(siblings, kinds, at - 1) || !declaration_at(siblings, kinds, at),
    ensures
        leading_pair(siblings, kinds, at) is None,
{
}

/// The comment block of a pair is a well-formed range that ends where the
/// declaration starts and begins where the first comment of the run starts.
pub proof fn lemma_pair_block(siblings: Seq<Tree>, kinds: Kinds, at: int)
    requires
        leading_pair(siblings, kinds, at) is Some,
    ensures
        ({
            let pair = leading_pair(siblings, kinds, at).unwrap();
            let first = run_start(siblings, kinds, at - 1);
            &&& pair.comment.wf()
            &&& pair.comment.start == siblings[first].range.start
            &&& pair.comment.end == siblings[at].range.start
            &&& pair.declaration == siblings[at].range
            &&& 0 <= first < at
            &&& comment_at(siblings, kinds, first)
        }),
{
    lemma_run_is_maximal(siblings, kinds, at - 1);
}

proof fn lemma_concat_contains<A>(left: Seq<A>, right: Seq<A>, item: A)
    ensures
        (left + right).contains(item) <==> left.contains(item) || right.contains(item),
{
    let both = left + right;
    if both.contains(item) {
        let i = choose|i: int| 0 <= i < both.len() && both[i] == item;
        if i < left.len() {
            assert(left[i] == item);
        } else {
            assert(right[i - left.len()] == item);
        }
    }
    if left.contains(item) {
        let i = choose|i: int| 0 <= i < left.len() && left[i] == item;
        assert(both[i] == item);
    }
    if right.contains(item) {
        let i = choose|i: int| 0 <= i < right.len() && right[i] == item;
        assert(both[left.len() + i] == item);
    }
}

proof fn lemma_sibling_pairs_contains(
    siblings: Seq<Tree>,
    kinds: Kinds,
    count: int,
    pair: CommentPair,
)
    ensures
        sibling_pairs(siblings, kinds, count).contains(pair) <==> exists|at: int|
            0 <= at < count && #[trigger] leading_pair(siblings, kinds, at) == Some(pair),
    decreases count,
{
    if count > 0 {
        lemma_sibling_pairs_contains(siblings, kinds, count - 1, pair);
        let rest = sibling_pairs(siblings, kinds, count - 1);
        let last = leading_pair(siblings, kinds, count - 1);
        lemma_concat_contains(
            rest,
            match last {
                Some(found) => seq![found],
                None => Seq::empty(),
            },
            pair,
        );
        match last {
            Some(found) => {
                assert(rest.push(found) =~= rest + seq![found]);
                assert(seq![found][0] == found);
            },
            None => {
                assert(rest + Seq::<CommentPair>::empty() =~= rest);
            },
        }
        if exists|at: int|
            0 <= at < count && #[trigger] leading_pair(siblings, kinds, at) == Some(pair) {
            let at = choose|at: int|
                0 <= at < count && #[trigger] leading_pair(siblings, kinds, at) == Some(pair);
            if at < count - 1 {
                assert(rest.contains(pair));
            }
        }
    }
}

proof fn lemma_nested_pairs_contains(
    nodes: Seq<Tree>,
    kinds: Kinds,
    count: int,
    pair: CommentPair,
)
    requires
        count <= nodes.len(),
    ensures
        nested_pairs(nodes, kinds, count).contains(pair) <==> exists|k: int|
            0 <= k < count && (#[trigger] pairs_of(nodes[k], kinds)).contains(pair),
    decreases count,
{
    if count > 0 {
        lemma_nested_pairs_contains(nodes, kinds, count - 1, pair);
        lemma_concat_contains(
            nested_pairs(nodes, kinds, count - 1),
            pairs_of(nodes[count - 1], kinds),
            pair,
        );
        if exists|k: int| 0 <= k < count && (#[trigger] pairs_of(nodes[k], kinds)).contains(pair) {
            let k = choose|k: int|
                0 <= k < count && (#[trigger] pairs_of(nodes[k], kinds)).contains(pair);
            if k < count - 1 {
                assert(nested_pairs(nodes, kinds, count - 1).contains(pair));
            }
        }
    }
}

/// Every pair that the walk finds is the pair of a documentable declaration
/// somewhere in the tree whose previous sibling is a comment.
pub proof fn lemma_pair_has_site(root: Tree, kinds: Kinds, pair: CommentPair)
    requires
        pairs_of(root, kinds).contains(pair),
    ensures
        exists|path: Seq<int>, at: int| pair_site(root, kinds, path, at, pair),
    decreases root,
{
    let children = root.children;
    let count = children.len() as int;
    lemma_concat_contains(
        sibling_pairs(children, kinds, count),
        nested_pairs(children, kinds, count),
        pair,
    );
    if sibling_pairs(children, kinds, count).contains(pair) {
        lemma_sibling_pairs_contains(children, kinds, count, pair);
        let at = choose|at: int|
            0 <= at < count && #[trigger] leading_pair(children, kinds, at) == Some(pair);
        assert(pair_site(root, kinds, Seq::<int>::empty(), at, pair));
    } else {
        lemma_nested_pairs_contains(children, kinds, count, pair);
        let k = choose|k: int|
            0 <= k < count && (#[trigger] pairs_of(children[k], kinds)).contains(pair);
        lemma_pair_has_site(children[k], kinds, pair);
        let (below, at) = choose|below: Seq<int>, at: int|
            pair_site(children[k], kinds, below, at, pair);
        let path = seq![k] + below;
        assert(path.drop_first() =~= below);
        assert(pair_site(root, kinds, path, at, pair));
    }
}

/// The walk misses no pair: the pair of every documentable declaration in
/// the tree with a leading comment block is found.
pub proof fn lemma_site_is_found(
    root: Tree,
    kinds: Kinds,
    path: Seq<int>,
    at: int,
    pair: CommentPair,
)
    requires
        pair_site(root, kinds, path, at, pair),
    ensures
        pairs_of(root, kinds).contains(pair),
    decreases path.len(),
{
    let children = root.children;
    let count = children.len() as int;
    lemma_concat_contains(
        sibling_pairs(children, kinds, count),
        nested_pairs(children, kinds, count),
        pair,
    );
    if path.len() == 0 {
        lemma_sibling_pairs_contains(children, kinds, count, pair);
    } else {
        let k = path[0];
        lemma_site_is_found(children[k], kinds, path.drop_first(), at, pair);
        lemma_nested_pairs_contains(children, kinds, count, pair);
    }
}

proof fn lemma_node_at_wf(root: Tree, path: Seq<int>)
    requires
        root.wf(),
    ensures
        node_at(root, path) matches Some(node) ==> node.wf(),
    decreases path.len(),
{
    if path.len() > 0 && 0 <= path[0] < root.children.len() {
        lemma_node_at_wf(root.children[path[0]], path.drop_first());
    }
}

/// In a well-formed tree every pair holds two well-formed ranges, and the
/// comment block ends on the line on which the declaration starts.
pub proof fn lemma_pairs_well_formed(root: Tree, kinds: Kinds, pair: CommentPair)
    requires
        root.wf(),
        pairs_of(root, kinds).contains(pair),
    ensures
        pair.comment.wf(),
        pair.declaration.wf(),
        pair.comment.end == pair.declaration.start,
{
    lemma_pair_has_site(root, kinds, pair);
    let (path, at) = choose|path: Seq<int>, at: int| pair_site(root, kinds, path, at, pair);
    lemma_node_at_wf(root, path);
    let parent = node_at(root, path).unwrap();
    assert(parent.children[at].wf());
}

} // verus!
