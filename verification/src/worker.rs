//! What is done with the answer to one request: look for the goal, hang the
//! answered articles into the tree, and queue the links that are new.

use crate::crawler::Crawler;
use crate::node::batch_views;
use crate::node::flat_titles;
use crate::node::share;
use crate::node::share_parent;
use crate::node::trail;
use crate::node::ArticleNode;
use crate::node::BatchData;
use crate::node::BatchView;
use crate::pager::fresh_titles;
use crate::pager::paginate_links;
use crate::pager::pagination;
use crate::text::titles_of;
use std::sync::Arc;
use vstd::prelude::*;

verus! {

/// What an answer stands for: each answered article with its links.
pub open spec fn pairs_of(answer: Seq<(String, Vec<String>)>) -> Seq<(Seq<char>, Seq<Seq<char>>)> {
    Seq::new(answer.len(), |i: int| (answer[i].0@, titles_of(answer[i].1@)))
}

/// How many articles of an answer are handled: all that stand before the
/// first one that links to `goal`, and all of them where none does.
pub open spec fn handled(pairs: Seq<(Seq<char>, Seq<Seq<char>>)>, goal: Seq<char>) -> int
    decreases pairs.len(),
{
    if pairs.len() == 0 {
        0
    } else if pairs[0].1.contains(goal) {
        0
    } else {
        1 + handled(pairs.drop_first(), goal)
    }
}

/// The titles queued once the first `count` articles of an answer have been
/// handled, when `visited` were queued before.
pub open spec fn queued_after(
    pairs: Seq<(Seq<char>, Seq<Seq<char>>)>,
    visited: Seq<Seq<char>>,
    count: int,
) -> Seq<Seq<char>>
    decreases count,
{
    if count <= 0 {
        visited
    } else {
        let before = queued_after(pairs, visited, count - 1);
        before + fresh_titles(pairs[count - 1].1, before)
    }
}

/// The batches of one article: each batch of `batches` under the path `up`.
pub open spec fn under(up: Seq<Seq<char>>, batches: Seq<Seq<Seq<char>>>) -> Seq<BatchView> {
    Seq::new(batches.len(), |i: int| BatchView { trail: up, titles: batches[i] })
}

/// The batches sent once the first `count` articles of an answer have been
/// handled: for each article in turn, its new links cut into batches, under
/// the article's own node, which hangs below `up`.
pub open spec fn emitted(
    pairs: Seq<(Seq<char>, Seq<Seq<char>>)>,
    visited: Seq<Seq<char>>,
    up: Seq<Seq<char>>,
    count: int,
) -> Seq<BatchView>
    decreases count,
{
    if count <= 0 {
        Seq::empty()
    } else {
        emitted(pairs, visited, up, count - 1) + under(
            up.push(pairs[count - 1].0),
            pagination(
                fresh_titles(pairs[count - 1].1, queued_after(pairs, visited, count - 1)),
            ),
        )
    }
}

/// `handled` is the place of the first article that links to the goal.
pub proof fn lemma_handled(pairs: Seq<(Seq<char>, Seq<Seq<char>>)>, goal: Seq<char>)
    ensures
        0 <= handled(pairs, goal) <= pairs.len(),
        forall|i: int| 0 <= i < handled(pairs, goal) ==> !(#[trigger] pairs[i]).1.contains(goal),
        handled(pairs, goal) < pairs.len() ==> pairs[handled(pairs, goal)].1.contains(goal),
    decreases pairs.len(),
{
    if pairs.len() > 0 && !pairs[0].1.contains(goal) {
        let rest = pairs.drop_first();
        lemma_handled(rest, goal);
        assert forall|i: int| 0 <= i < handled(pairs, goal) implies !(#[trigger] pairs[i]).1.contains(
            goal,
        ) by {
            if i > 0 {
                assert(rest[i - 1] == pairs[i]);
            }
        }
    }
}

/// Where no article before `place` links to the goal, `handled` is `place`
/// if the article there does, or if the answer ends there.
pub proof fn lemma_handled_is(pairs: Seq<(Seq<char>, Seq<Seq<char>>)>, goal: Seq<char>, place: int)
    requires
        0 <= place <= pairs.len(),
        forall|i: int| 0 <= i < place ==> !(#[trigger] pairs[i]).1.contains(goal),
        place < pairs.len() ==> pairs[place].1.contains(goal),
    ensures
        handled(pairs, goal) == place,
{
    lemma_handled(pairs, goal);
}

/// Whether `batch` hangs below one of the first `count` articles of an
/// answer and holds only links of that article.
pub open spec fn from_answer(
    pairs: Seq<(Seq<char>, Seq<Seq<char>>)>,
    up: Seq<Seq<char>>,
    count: int,
    batch: BatchView,
) -> bool {
    exists|j: int|
        0 <= j < count && batch.trail == up.push((#[trigger] pairs[j]).0) && forall|i: int|
            0 <= i < batch.titles.len() ==> pairs[j].1.contains(#[trigger] batch.titles[i])
}

/// The titles of an article's batches are the titles that were cut.
pub proof fn lemma_flat_under(up: Seq<Seq<char>>, batches: Seq<Seq<Seq<char>>>)
    ensures
        flat_titles(under(up, batches)) == batches.flatten(),
    decreases batches.len(),
{
    if batches.len() == 0 {
        assert(batches.flatten() =~= Seq::<Seq<char>>::empty());
    } else {
        let shorter = batches.drop_last();
        lemma_flat_under(up, shorter);
        assert(batches =~= shorter.push(batches.last()));
        shorter.lemma_flatten_push(batches.last());
        assert(under(up, batches).drop_last() =~= under(up, shorter));
    }
}

/// The titles of the batches sent are exactly the titles newly queued, in
/// the same order: no title is sent twice, and none that was queued before
/// is sent again. There are at most as many batches as articles handled and
/// titles sent together.
pub proof fn lemma_emitted_titles(
    pairs: Seq<(Seq<char>, Seq<Seq<char>>)>,
    visited: Seq<Seq<char>>,
    up: Seq<Seq<char>>,
    count: int,
)
    requires
        0 <= count <= pairs.len(),
        visited.no_duplicates(),
    ensures
        queued_after(pairs, visited, count) == visited + flat_titles(
            emitted(pairs, visited, up, count),
        ),
        queued_after(pairs, visited, count).no_duplicates(),
        emitted(pairs, visited, up, count).len() <= count + flat_titles(
            emitted(pairs, visited, up, count),
        ).len(),
    decreases count,
{
    let sent = emitted(pairs, visited, up, count);
    let queued = queued_after(pairs, visited, count);
    if count == 0 {
        assert(visited + flat_titles(sent) =~= visited);
    } else {
        let before = queued_after(pairs, visited, count - 1);
        let sent_before = emitted(pairs, visited, up, count - 1);
        let fresh = fresh_titles(pairs[count - 1].1, before);
        let cut = pagination(fresh);
        let below = up.push(pairs[count - 1].0);
        lemma_emitted_titles(pairs, visited, up, count - 1);
        crate::pager::lemma_fresh_titles(pairs[count - 1].1, before);
        crate::pager::lemma_pagination_keeps_titles(fresh);
        crate::pager::lemma_pagination_shape(fresh);
        lemma_flat_under(below, cut);
        crate::node::lemma_flat_titles_concat(sent_before, under(below, cut));
        assert(queued =~= visited + flat_titles(sent));
    }
}

/// Handling an answer only ever adds to what is queued: what was queued
/// before stays, in its order, at the front.
pub proof fn lemma_queue_only_grows(
    pairs: Seq<(Seq<char>, Seq<Seq<char>>)>,
    visited: Seq<Seq<char>>,
    count: int,
)
    ensures
        visited.len() <= queued_after(pairs, visited, count).len(),
        visited.is_prefix_of(queued_after(pairs, visited, count)),
    decreases count,
{
    if count > 0 {
        lemma_queue_only_grows(pairs, visited, count - 1);
    }
}

/// Across two answers handled one after the other, no title is sent twice,
/// and none is sent that was queued before: the titles queued before and
/// the titles of the batches sent for the first answer and for the second,
/// laid end to end, hold no title twice.
pub proof fn lemma_no_title_sent_twice(
    first: Seq<(Seq<char>, Seq<Seq<char>>)>,
    first_up: Seq<Seq<char>>,
    first_count: int,
    second: Seq<(Seq<char>, Seq<Seq<char>>)>,
    second_up: Seq<Seq<char>>,
    second_count: int,
    visited: Seq<Seq<char>>,
)
    requires
        visited.no_duplicates(),
        0 <= first_count <= first.len(),
        0 <= second_count <= second.len(),
    ensures
        ({
            let between = queued_after(first, visited, first_count);
            let sent_first = emitted(first, visited, first_up, first_count);
            let sent_second = emitted(second, between, second_up, second_count);
            (visited + flat_titles(sent_first) + flat_titles(sent_second)).no_duplicates()
        }),
{
    let between = queued_after(first, visited, first_count);
    lemma_emitted_titles(first, visited, first_up, first_count);
    lemma_emitted_titles(second, between, second_up, second_count);
}

/// Every batch sent hangs below the node of one of the articles handled,
/// and holds only links of that article.
pub proof fn lemma_emitted_from_answer(
    pairs: Seq<(Seq<char>, Seq<Seq<char>>)>,
    visited: Seq<Seq<char>>,
    up: Seq<Seq<char>>,
    count: int,
    place: int,
)
    requires
        0 <= count <= pairs.len(),
        0 <= place < emitted(pairs, visited, up, count).len(),
        visited.no_duplicates(),
    ensures
        from_answer(pairs, up, count, emitted(pairs, visited, up, count)[place]),
    decreases count,
{
    let sent = emitted(pairs, visited, up, count);
    if count > 0 {
        let before = queued_after(pairs, visited, count - 1);
        let sent_before = emitted(pairs, visited, up, count - 1);
        let links = pairs[count - 1].1;
        let cut = pagination(fresh_titles(links, before));
        let below = up.push(pairs[count - 1].0);
        if place < sent_before.len() {
            lemma_emitted_from_answer(pairs, visited, up, count - 1, place);
            assert(sent[place] == sent_before[place]);
            let j = choose|j: int|
                0 <= j < count - 1 && sent[place].trail == up.push((#[trigger] pairs[j]).0)
                    && forall|i: int|
                    0 <= i < sent[place].titles.len() ==> pairs[j].1.contains(
                        #[trigger] sent[place].titles[i],
                    );
            assert(0 <= j < count);
        } else {
            let at = place - sent_before.len();
            lemma_emitted_titles(pairs, visited, up, count - 1);
            crate::pager::lemma_fresh_titles(links, before);
            crate::pager::lemma_pagination_keeps_titles(fresh_titles(links, before));
            assert(sent[place] == under(below, cut)[at]);
            assert forall|i: int| 0 <= i < sent[place].titles.len() implies links.contains(
                #[trigger] sent[place].titles[i],
            ) by {
                crate::pager::lemma_flatten_holds_each(cut, at, i);
            }
            assert(sent[place].trail == up.push(pairs[count - 1].0));
        }
    }
}

/// Every link of every article handled is queued afterwards.
pub proof fn lemma_links_queued(
    pairs: Seq<(Seq<char>, Seq<Seq<char>>)>,
    visited: Seq<Seq<char>>,
    count: int,
    article: int,
    title: Seq<char>,
)
    requires
        0 <= article < count <= pairs.len(),
        visited.no_duplicates(),
        pairs[article].1.contains(title),
    ensures
        queued_after(pairs, visited, count).contains(title),
    decreases count,
{
    let queued = queued_after(pairs, visited, count);
    let before = queued_after(pairs, visited, count - 1);
    let fresh = fresh_titles(pairs[count - 1].1, before);
    lemma_emitted_titles(pairs, visited, Seq::empty(), count - 1);
    crate::pager::lemma_fresh_titles(pairs[count - 1].1, before);
    if article < count - 1 {
        lemma_links_queued(pairs, visited, count - 1, article, title);
    }
    if before.contains(title) {
        let i = choose|i: int| 0 <= i < before.len() && before[i] == title;
        assert(queued[i] == title);
    } else {
        assert(fresh.contains(title));
        let i = choose|i: int| 0 <= i < fresh.len() && fresh[i] == title;
        assert(queued[before.len() + i] == title);
    }
}

/// What a worker does when a batch could not be sent.
#[derive(Clone, Copy, Debug, PartialEq, Eq)]
pub enum AfterSendFailure {
    /// The crawl is over and the channel gone with it: stop, and say
    /// nothing.
    Stop,
    /// Report the failure, and go on with the batches that are left.
    ReportAndGoOn,
}

/// Decides what to do about a batch that could not be sent, given whether
/// the crawl is over.
pub fn after_send_failure(terminated: bool) -> (next: AfterSendFailure)
    ensures
        next == if terminated {
            AfterSendFailure::Stop
        } else {
            AfterSendFailure::ReportAndGoOn
        },
{
    if terminated {
        AfterSendFailure::Stop
    } else {
        AfterSendFailure::ReportAndGoOn
    }
}

/// Whether `title` is among `list`.
pub fn has_title(list: &Vec<String>, title: &String) -> (found: bool)
    ensures
        found == titles_of(list@).contains(title@),
{
    let mut i: usize = 0;
    while i < list.len()
        invariant
            i <= list.len(),
            forall|j: int| 0 <= j < i ==> titles_of(list@)[j] != title@,
        decreases list.len() - i,
    {
        if list[i] == *title {
            assert(titles_of(list@)[i as int] == title@);
            return true;
        }
        i = i + 1;
    }
    false
}

/// Handles the answer to one request. `new_batches` pairs each answered
/// article with its links; `parent` is the node under which the request's
/// titles were found.
///
/// The articles are taken in order. The first one that links to the goal
/// ends the crawl: the goal's node is hung below the article's node, and the
/// rest of the answer is left alone. Every article before it gets a node
/// below `parent`, and its links that were never queued are queued now, cut
/// into batches under that node. The batches come back in the order in
/// which they are to be sent.
pub fn threaded_processing(
    crawler: &mut Crawler,
    new_batches: &Vec<(String, Vec<String>)>,
    parent: Option<Arc<ArticleNode>>,
) -> (sent: Vec<BatchData>)
    requires
        old(crawler).wf(),
    ensures
        final(crawler).wf(),
        final(crawler).origin_title() == old(crawler).origin_title(),
        final(crawler).goal_title() == old(crawler).goal_title(),
        ({
            let pairs = pairs_of(new_batches@);
            let goal = old(crawler).goal_title();
            let count = handled(pairs, goal);
            &&& batch_views(sent@) == emitted(pairs, old(crawler).visited(), trail(parent), count)
            &&& final(crawler).visited() == queued_after(pairs, old(crawler).visited(), count)
            &&& old(crawler).visited().is_prefix_of(final(crawler).visited())
            &&& final(crawler).terminated() == (old(crawler).terminated() || count < pairs.len())
            &&& final(crawler).result() == if old(crawler).terminated() || count == pairs.len() {
                old(crawler).result()
            } else {
                Some(trail(parent).push(pairs[count].0).push(goal))
            }
        }),
{
    let ghost pairs = pairs_of(new_batches@);
    let ghost goal = crawler.goal_title();
    let ghost start = crawler.visited();
    let ghost up = trail(parent);
    let goal_name = crawler.goal().clone();
    let mut sent: Vec<BatchData> = Vec::new();
    assert(batch_views(sent@) =~= emitted(pairs, start, up, 0));

    let mut i: usize = 0;
    while i < new_batches.len()
        invariant
            i <= new_batches.len(),
            pairs == pairs_of(new_batches@),
            goal == crawler.goal_title(),
            goal == goal_name@,
            up == trail(parent),
            start == old(crawler).visited(),
            crawler.wf(),
            forall|j: int| 0 <= j < i ==> !(#[trigger] pairs[j]).1.contains(goal),
            batch_views(sent@) == emitted(pairs, start, up, i as int),
            crawler.visited() == queued_after(pairs, start, i as int),
            crawler.terminated() == old(crawler).terminated(),
            crawler.result() == old(crawler).result(),
            crawler.origin_title() == old(crawler).origin_title(),
            crawler.goal_title() == old(crawler).goal_title(),
        decreases new_batches.len() - i,
    {
        let article = &new_batches[i].0;
        let links = &new_batches[i].1;
        assert(pairs[i as int] == (article@, titles_of(links@)));
        if has_title(links, &goal_name) {
            let article_node = Arc::new(ArticleNode::new(article.as_str(), share_parent(&parent)));
            assert(trail(Some(article_node)) == up.push(article@));
            let goal_node = ArticleNode::new(goal_name.as_str(), Some(article_node));
            assert(crate::node::path_to(goal_node) == up.push(article@).push(goal));
            crawler.mark_found(goal_node);
            proof {
                lemma_handled_is(pairs, goal, i as int);
                lemma_queue_only_grows(pairs, start, i as int);
            }
            return sent;
        }
        let article_node = Arc::new(ArticleNode::new(article.as_str(), share_parent(&parent)));
        let ghost before = crawler.visited();
        let ghost cut = pagination(fresh_titles(titles_of(links@), before));
        let ghost sent_before = batch_views(sent@);
        let link_batches = paginate_links(links, crawler);
        let ghost below = up.push(article@);
        for link_batch in batches: link_batches
            invariant
                batches.seq() == link_batches@,
                crate::text::batches_of(link_batches@) == cut,
                trail(Some(article_node)) == below,
                batch_views(sent@) == sent_before + under(below, cut.take(batches.index())),
        {
            let ghost views = batch_views(sent@);
            let ghost taken = batches.index();
            sent.push(BatchData::new(Some(share(&article_node)), link_batch));
            assert(cut.take(taken + 1) == cut.take(taken).push(cut[taken]));
            assert(batch_views(sent@) == views.push(BatchView { trail: below, titles: cut[taken] }));
            assert(under(below, cut.take(taken + 1)) == under(below, cut.take(taken)).push(
                BatchView { trail: below, titles: cut[taken] },
            ));
        }
        assert(cut.take(cut.len() as int) == cut);
        i = i + 1;
    }
    proof {
        lemma_handled_is(pairs, goal, new_batches.len() as int);
        lemma_queue_only_grows(pairs, start, new_batches.len() as int);
    }
    sent
}

} // verus!
