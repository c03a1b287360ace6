//! The state that all parts of one crawl share.

use crate::node::path_to;
use crate::node::ArticleNode;
use crate::visited::VisitedSet;
use std::sync::Arc;
use vstd::prelude::*;

verus! {

/// How many times taking the crawl's lock is tried again after it failed.
pub const MAX_TRIES: u8 = 10;

/// Whether the lock may be tried again after a failure, when it has been
/// tried again `tries` times already.
pub fn may_retry(tries: u8) -> (again: bool)
    ensures
        again == (tries < MAX_TRIES),
{
    tries < MAX_TRIES
}

/// The shared record of one crawl: where it starts, what it looks for, which
/// titles it has queued so far, whether it is over, and the node it ended
/// on. A caller that shares it between threads puts it behind one lock, so
/// that each method below is one atomic step.
pub struct Crawler {
    origin: ArticleNode,
    goal: String,
    visited: VisitedSet,
    finished: bool,
    final_node: Option<ArticleNode>,
}

impl Crawler {
    /// The title the crawl starts from.
    pub closed spec fn origin_title(&self) -> Seq<char> {
        self.origin.name@
    }

    /// The title the crawl looks for.
    pub closed spec fn goal_title(&self) -> Seq<char> {
        self.goal@
    }

    /// Every title queued so far, oldest first.
    pub closed spec fn visited(&self) -> Seq<Seq<char>> {
        self.visited@
    }

    /// Whether the crawl is over.
    pub closed spec fn terminated(&self) -> bool {
        self.finished
    }

    /// The path from the root to the node the crawl ended on, if it ended on
    /// one.
    pub closed spec fn result(&self) -> Option<Seq<Seq<char>>> {
        match self.final_node {
            None => None,
            Some(node) => Some(path_to(node)),
        }
    }

    /// No title is queued twice, the origin is queued, and a result is only
    /// there once the crawl is over.
    pub closed spec fn wf(&self) -> bool {
        &&& self.visited.wf()
        &&& self.visited@.contains(self.origin.name@)
        &&& self.origin.parent is None
        &&& self.final_node is Some ==> self.finished
    }

    /// Whether the crawl has not begun: only the origin is queued, and
    /// nothing has ended the crawl.
    pub open spec fn fresh(&self) -> bool {
        &&& self.visited() == seq![self.origin_title()]
        &&& !self.terminated()
        &&& self.result() is None
    }

    /// What `wf` says, over the public names.
    pub proof fn lemma_wf(&self)
        requires
            self.wf(),
        ensures
            self.visited().no_duplicates(),
            self.visited().contains(self.origin_title()),
            self.result() is Some ==> self.terminated(),
    {
        self.visited.lemma_wf();
    }

    /// A crawl from `origin` to `goal` that has queued only `origin`.
    pub fn new(origin: &str, goal: &str) -> (crawler: Crawler)
        ensures
            crawler.wf(),
            crawler.origin_title() == origin@,
            crawler.goal_title() == goal@,
            crawler.visited() == seq![origin@],
            !crawler.terminated(),
            crawler.result() is None,
    {
        let mut visited = VisitedSet::new();
        let origin_name = origin.to_string();
        visited.insert(&origin_name);
        assert(visited@ =~= seq![origin@]);
        assert(visited@[0] == origin@);
        Crawler {
            origin: ArticleNode::new(origin, None),
            goal: goal.to_string(),
            visited,
            finished: false,
            final_node: None,
        }
    }

    /// The same as `new`, behind a shared handle.
    pub fn new_arc(origin: &str, goal: &str) -> (crawler: Arc<Crawler>)
        ensures
            crawler.wf(),
            crawler.origin_title() == origin@,
            crawler.goal_title() == goal@,
            crawler.visited() == seq![origin@],
            !crawler.terminated(),
            crawler.result() is None,
    {
        Arc::new(Crawler::new(origin, goal))
    }

    /// The title the crawl starts from.
    pub fn origin(&self) -> (title: &String)
        ensures
            title@ == self.origin_title(),
    {
        &self.origin.name
    }

    /// The title the crawl looks for.
    pub fn goal(&self) -> (title: &String)
        ensures
            title@ == self.goal_title(),
    {
        &self.goal
    }

    /// How many titles have been queued so far.
    pub fn visited_count(&self) -> (count: usize)
        ensures
            count == self.visited().len(),
    {
        self.visited.len()
    }

    /// Whether the crawl is over.
    pub fn is_terminated(&self) -> (over: bool)
        ensures
            over == self.terminated(),
    {
        self.finished
    }

    /// Whether the crawl has ended on a node.
    pub fn has_result(&self) -> (found: bool)
        ensures
            found == self.result() is Some,
    {
        self.final_node.is_some()
    }

    /// Ends the crawl on `node`. The first call decides: once the crawl is
    /// over, neither the flag nor the result changes again.
    pub fn mark_found(&mut self, node: ArticleNode)
        requires
            old(self).wf(),
        ensures
            final(self).wf(),
            final(self).terminated(),
            final(self).result() == if old(self).terminated() {
                old(self).result()
            } else {
                Some(path_to(node))
            },
            final(self).visited() == old(self).visited(),
            final(self).origin_title() == old(self).origin_title(),
            final(self).goal_title() == old(self).goal_title(),
    {
        if !self.finished {
            self.finished = true;
            self.final_node = Some(node);
        }
    }

    /// Ends the crawl without a result, where it has not ended already.
    pub fn mark_exhausted(&mut self)
        requires
            old(self).wf(),
        ensures
            final(self).wf(),
            final(self).terminated(),
            final(self).result() == old(self).result(),
            final(self).visited() == old(self).visited(),
            final(self).origin_title() == old(self).origin_title(),
            final(self).goal_title() == old(self).goal_title(),
    {
        self.finished = true;
    }

    /// Queues `title` unless it was queued before, and says whether it was
    /// new. This is the only gate through which a title enters a batch.
    pub fn record_visited(&mut self, title: &String) -> (fresh: bool)
        requires
            old(self).wf(),
        ensures
            final(self).wf(),
            fresh == !old(self).visited().contains(title@),
            final(self).visited() == if fresh {
                old(self).visited().push(title@)
            } else {
                old(self).visited()
            },
            old(self).visited().is_prefix_of(final(self).visited()),
            final(self).terminated() == old(self).terminated(),
            final(self).result() == old(self).result(),
            final(self).origin_title() == old(self).origin_title(),
            final(self).goal_title() == old(self).goal_title(),
    {
        let fresh = self.visited.insert(title);
        proof {
            if fresh {
                let i = choose|i: int|
                    0 <= i < old(self).visited@.len() && old(self).visited@[i] == self.origin.name@;
                assert(self.visited@[i] == self.origin.name@);
            }
        }
        fresh
    }

    /// Takes the crawl apart into the node it ended on, if any.
    pub fn into_final_node(self) -> (node: Option<ArticleNode>)
        ensures
            match node {
                None => self.result() is None,
                Some(found) => self.result() == Some(path_to(found)),
            },
    {
        self.final_node
    }
}

} // verus!
