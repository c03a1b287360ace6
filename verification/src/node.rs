//! The tree that a crawl grows: each node names an article and points at the
//! article on which its link was found.

use std::sync::Arc;
use vstd::prelude::*;

verus! {

/// One article of the search tree. Nodes are never changed once made, and
/// many children may share one parent.
pub struct ArticleNode {
    pub name: String,
    pub parent: Option<Arc<ArticleNode>>,
}

/// A group of titles to be fetched together, and the node under which the
/// articles they name will hang.
pub struct BatchData {
    pub parent: Option<Arc<ArticleNode>>,
    pub new_batch: Vec<String>,
}

/// What a batch stands for: the path to its parent, empty where it has
/// none, and its titles.
pub struct BatchView {
    pub trail: Seq<Seq<char>>,
    pub titles: Seq<Seq<char>>,
}

impl View for BatchData {
    type V = BatchView;

    open spec fn view(&self) -> BatchView {
        BatchView { trail: trail(self.parent), titles: crate::text::titles_of(self.new_batch@) }
    }
}

/// What a sequence of batches stands for.
pub open spec fn batch_views(batches: Seq<BatchData>) -> Seq<BatchView> {
    Seq::new(batches.len(), |i: int| batches[i]@)
}

/// The titles of a sequence of batches, laid end to end.
pub open spec fn flat_titles(batches: Seq<BatchView>) -> Seq<Seq<char>>
    decreases batches.len(),
{
    if batches.len() == 0 {
        Seq::empty()
    } else {
        flat_titles(batches.drop_last()) + batches.last().titles
    }
}

/// Laying two runs of batches end to end lays their titles end to end.
pub proof fn lemma_flat_titles_concat(first: Seq<BatchView>, second: Seq<BatchView>)
    ensures
        flat_titles(first + second) == flat_titles(first) + flat_titles(second),
    decreases second.len(),
{
    if second.len() == 0 {
        assert(first + second =~= first);
        assert(flat_titles(first) + flat_titles(second) =~= flat_titles(first));
    } else {
        lemma_flat_titles_concat(first, second.drop_last());
        assert((first + second).drop_last() =~= first + second.drop_last());
        assert(flat_titles(first + second) =~= flat_titles(first) + flat_titles(second));
    }
}

/// The titles from the root of the tree down to `node`, `node` itself last.
pub open spec fn path_to(node: ArticleNode) -> Seq<Seq<char>>
    decreases node,
{
    match node.parent {
        None => seq![node.name@],
        Some(parent) => path_to(*parent).push(node.name@),
    }
}

/// The path to an optional parent: empty where there is none.
pub open spec fn trail(parent: Option<Arc<ArticleNode>>) -> Seq<Seq<char>> {
    match parent {
        None => Seq::empty(),
        Some(node) => path_to(*node),
    }
}

/// The number of ancestors of `node`.
pub open spec fn depth(node: ArticleNode) -> nat
    decreases node,
{
    match node.parent {
        None => 0,
        Some(parent) => 1 + depth(*parent),
    }
}

/// A path is never empty, and it ends in the node's own name.
pub proof fn lemma_path_ends_in_name(node: &ArticleNode)
    ensures
        path_to(*node).len() == depth(*node) + 1,
        path_to(*node).last() == node.name@,
        path_to(*node) == trail(node.parent).push(node.name@),
    decreases node,
{
    match &node.parent {
        None => {
            assert(path_to(*node) =~= trail(node.parent).push(node.name@));
        },
        Some(parent) => {
            lemma_path_ends_in_name(&**parent);
        },
    }
}

/// `std::sync::Arc::clone`: a second handle on the same node. The node
/// behind the new handle is the node behind the old one.
#[verifier::external_body]
pub(crate) fn share(node: &Arc<ArticleNode>) -> (shared: Arc<ArticleNode>)
    ensures
        shared == *node,
{
    Arc::clone(node)
}

/// A copy of an optional parent handle.
pub fn share_parent(parent: &Option<Arc<ArticleNode>>) -> (shared: Option<Arc<ArticleNode>>)
    ensures
        shared == *parent,
{
    match parent {
        None => None,
        Some(node) => Some(share(node)),
    }
}

impl ArticleNode {
    /// A node named `name` under `parent`.
    pub fn new(name: &str, parent: Option<Arc<ArticleNode>>) -> (node: ArticleNode)
        ensures
            node.name@ == name@,
            node.parent == parent,
            path_to(node) == trail(parent).push(name@),
    {
        let node = ArticleNode { name: name.to_string(), parent };
        proof {
            lemma_path_ends_in_name(&node);
        }
        node
    }

    /// The titles from the root down to this node, as owned strings.
    pub fn path(&self) -> (titles: Vec<String>)
        ensures
            crate::text::titles_of(titles@) == path_to(*self),
    {
        let mut upward: Vec<String> = Vec::new();
        let mut current: &ArticleNode = self;
        loop
            invariant_except_break
                path_to(*self) == path_to(*current) + crate::text::titles_of(upward@).reverse(),
            ensures
                path_to(*self) == crate::text::titles_of(upward@).reverse(),
            decreases depth(*current),
        {
            let ghost before = crate::text::titles_of(upward@);
            upward.push(current.name.clone());
            proof {
                let after = crate::text::titles_of(upward@);
                assert(after == before.push(current.name@));
                assert(after.reverse() == seq![current.name@] + before.reverse());
                lemma_path_ends_in_name(current);
            }
            match &current.parent {
                None => {
                    assert(path_to(*current) == seq![current.name@]);
                    break ;
                },
                Some(parent) => {
                    assert(path_to(*current) + before.reverse() == path_to(**parent) + (
                    seq![current.name@] + before.reverse()));
                    current = &**parent;
                },
            }
        }
        let mut titles: Vec<String> = Vec::new();
        let mut left: usize = upward.len();
        while left > 0
            invariant
                left <= upward.len(),
                titles.len() == upward.len() - left,
                forall|i: int|
                    0 <= i < titles.len() ==> titles[i]@ == #[trigger] upward[upward.len() - 1
                        - i]@,
            decreases left,
        {
            left = left - 1;
            titles.push(upward[left].clone());
        }
        assert(crate::text::titles_of(titles@) == crate::text::titles_of(upward@).reverse());
        titles
    }
}

impl BatchData {
    /// A batch of `new_batch` under `parent`.
    pub fn new(parent: Option<Arc<ArticleNode>>, new_batch: Vec<String>) -> (batch: BatchData)
        ensures
            batch.parent == parent,
            batch.new_batch == new_batch,
    {
        BatchData { parent, new_batch }
    }
}

} // verus!
