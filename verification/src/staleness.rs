//! Decides which leading comment blocks are possibly stale.
//!
//! A pair is stale when the declaration's lines hold a changed line and the
//! comment block's lines hold none: the code changed and its comment did
//! not. A comment edited alone, or together with its declaration, is never
//! reported.

use vstd::prelude::*;
use crate::comments::{find_comments, lemma_pair_has_site, pair_site, pairs_of, CommentPair};
use crate::lines::{touches, ChangedLines, LineRange};
use crate::syntax::{KindTable, Kinds, SyntaxNode, Tree};

verus! {

/// Whether `pair` is stale under the changed lines `changed`.
pub open spec fn is_stale(pair: CommentPair, changed: Set<int>) -> bool {
    touches(pair.declaration, changed) && !touches(pair.comment, changed)
}

/// The comment blocks of the stale pairs among `pairs`, each block once, in
/// the order in which the pairs first reach them.
pub open spec fn stale_blocks_of(pairs: Seq<CommentPair>, changed: Set<int>) -> Seq<LineRange>
    decreases pairs.len(),
{
    if pairs.len() == 0 {
        Seq::empty()
    } else {
        let earlier = stale_blocks_of(pairs.drop_last(), changed);
        let pair = pairs.last();
        if is_stale(pair, changed) && !earlier.contains(pair.comment) {
            earlier.push(pair.comment)
        } else {
            earlier
        }
    }
}

/// Whether `blocks` holds `block`.
fn holds_block(blocks: &Vec<LineRange>, block: LineRange) -> (found: bool)
    ensures
        found == blocks@.contains(block),
{
    let mut i: usize = 0;
    while i < blocks.len()
        invariant
            i <= blocks@.len(),
            forall|k: int| 0 <= k < i ==> blocks@[k] != block,
        decreases blocks@.len() - i,
    {
        if blocks[i] == block {
            return true;
        }
        i += 1;
    }
    false
}

/// Whether `pair` is stale under `changed`.
pub fn stale(pair: &CommentPair, changed: &ChangedLines) -> (flagged: bool)
    ensures
        flagged == is_stale(*pair, changed@),
{
    changed.intersects(&pair.declaration) && !changed.intersects(&pair.comment)
}

/// The comment blocks to report for `pairs` under the changed lines
/// `changed`: the block of every stale pair, reported once however many
/// pairs share it.
pub fn stale_blocks(pairs: &Vec<CommentPair>, changed: &ChangedLines) -> (blocks: Vec<LineRange>)
    ensures
        blocks@ == stale_blocks_of(pairs@, changed@),
{
    let mut blocks: Vec<LineRange> = Vec::new();
    let mut at: usize = 0;
    assert(pairs@.subrange(0, 0) =~= Seq::<CommentPair>::empty());
    while at < pairs.len()
        invariant
            at <= pairs@.len(),
            blocks@ == stale_blocks_of(pairs@.subrange(0, at as int), changed@),
        decreases pairs@.len() - at,
    {
        let pair = &pairs[at];
        assert(pairs@.subrange(0, at + 1).drop_last() =~= pairs@.subrange(0, at as int));
        if stale(pair, changed) && !holds_block(&blocks, pair.comment) {
            blocks.push(pair.comment);
        }
        at += 1;
    }
    assert(pairs@.subrange(0, at as int) =~= pairs@);
    blocks
}

/// The comment blocks to report for the tree below `root`: the leading
/// comment blocks whose declaration changed while the block did not.
pub fn stale_comments(root: &SyntaxNode, table: &KindTable, changed: &ChangedLines) -> (blocks: Vec<
    LineRange,
>)
    ensures
        blocks@ == stale_blocks_of(pairs_of(root@, table@), changed@),
{
    let pairs = find_comments(root, table);
    stale_blocks(&pairs, changed)
}

/// A block is reported exactly when some pair with that block is stale.
pub proof fn lemma_reported_iff_stale(pairs: Seq<CommentPair>, changed: Set<int>, block: LineRange)
    ensures
        stale_blocks_of(pairs, changed).contains(block) <==> exists|k: int|
            0 <= k < pairs.len() && (#[trigger] pairs[k]).comment == block && is_stale(
                pairs[k],
                changed,
            ),
    decreases pairs.len(),
{
    if pairs.len() > 0 {
        let shorter = pairs.drop_last();
        let earlier = stale_blocks_of(shorter, changed);
        let pair = pairs.last();
        lemma_reported_iff_stale(shorter, changed, block);
        if stale_blocks_of(pairs, changed).contains(block) {
            if earlier.contains(block) {
                let k = choose|k: int|
                    0 <= k < shorter.len() && (#[trigger] shorter[k]).comment == block && is_stale(
                        shorter[k],
                        changed,
                    );
                assert(pairs[k] == shorter[k]);
            } else {
                let blocks = stale_blocks_of(pairs, changed);
                let i = choose|i: int| 0 <= i < blocks.len() && blocks[i] == block;
                if i < earlier.len() {
                    assert(earlier[i] == block);
                }
                assert(pairs[pairs.len() - 1].comment == block);
            }
        }
        if exists|k: int|
            0 <= k < pairs.len() && (#[trigger] pairs[k]).comment == block && is_stale(
                pairs[k],
                changed,
            ) {
            let k = choose|k: int|
                0 <= k < pairs.len() && (#[trigger] pairs[k]).comment == block && is_stale(
                    pairs[k],
                    changed,
                );
            if k < shorter.len() {
                assert(shorter[k] == pairs[k]);
                assert(earlier.contains(block));
                let i = choose|i: int| 0 <= i < earlier.len() && earlier[i] == block;
                assert(stale_blocks_of(pairs, changed)[i] == block);
            } else {
                if earlier.contains(block) {
                    let i = choose|i: int| 0 <= i < earlier.len() && earlier[i] == block;
                    assert(stale_blocks_of(pairs, changed)[i] == block);
                } else {
                    assert(earlier.push(block)[earlier.len() as int] == block);
                }
            }
        }
    }
}

/// No block is reported twice, however many stale pairs share it.
pub proof fn lemma_reported_once(pairs: Seq<CommentPair>, changed: Set<int>)
    ensures
        stale_blocks_of(pairs, changed).no_duplicates(),
    decreases pairs.len(),
{
    if pairs.len() > 0 {
        lemma_reported_once(pairs.drop_last(), changed);
    }
}

/// A block that is reported holds no changed line: a comment that was
/// edited, alone or together with its declaration, is never reported.
pub proof fn lemma_reported_block_unchanged(
    pairs: Seq<CommentPair>,
    changed: Set<int>,
    block: LineRange,
)
    requires
        stale_blocks_of(pairs, changed).contains(block),
    ensures
        !touches(block, changed),
{
    lemma_reported_iff_stale(pairs, changed, block);
}

/// Every block reported for a tree is the leading comment block of a
/// documentable declaration in that tree whose previous sibling is a comment,
/// and that declaration's pair is stale. A declaration with no preceding
/// comment is therefore never behind a report, whatever lines changed.
pub proof fn lemma_report_has_site(
    root: Tree,
    kinds: Kinds,
    changed: Set<int>,
    block: LineRange,
)
    requires
        stale_blocks_of(pairs_of(root, kinds), changed).contains(block),
    ensures
        exists|path: Seq<int>, at: int, pair: CommentPair|
            pair_site(root, kinds, path, at, pair) && pair.comment == block && is_stale(
                pair,
                changed,
            ),
{
    let pairs = pairs_of(root, kinds);
    lemma_reported_iff_stale(pairs, changed, block);
    let k = choose|k: int|
        0 <= k < pairs.len() && (#[trigger] pairs[k]).comment == block && is_stale(
            pairs[k],
            changed,
        );
    lemma_pair_has_site(root, kinds, pairs[k]);
    let (path, at) = choose|path: Seq<int>, at: int| pair_site(root, kinds, path, at, pairs[k]);
    assert(pair_site(root, kinds, path, at, pairs[k]));
}

} // verus!
