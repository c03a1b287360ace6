//! A whole crawl, run against a link table held in memory, and the walk
//! back from the goal to the origin.

use crate::crawler::Crawler;
use crate::graph::answer;
use crate::graph::fetch_links;
use crate::graph::is_route;
use crate::graph::leads;
use crate::graph::linked;
use crate::graph::links_of;
use crate::graph::reachable;
use crate::node::batch_views;
use crate::node::flat_titles;
use crate::node::share_parent;
use crate::node::BatchData;
use crate::node::BatchView;
use crate::scheduler::Action;
use crate::scheduler::Event;
use crate::scheduler::Phase;
use crate::scheduler::Scheduler;
use crate::text::titles_of;
use crate::worker::emitted;
use crate::worker::from_answer;
use crate::worker::handled;
use crate::worker::pairs_of;
use crate::worker::queued_after;
use crate::worker::threaded_processing;
use vstd::prelude::*;

verus! {

/// Whether `path` starts at `origin` and follows links all the way.
pub open spec fn sound_trail(
    table: Seq<(Seq<char>, Seq<Seq<char>>)>,
    origin: Seq<char>,
    path: Seq<Seq<char>>,
) -> bool {
    path.len() > 0 && path[0] == origin && is_route(table, path)
}

/// Whether a batch is what a crawl from `origin` may queue: the origin
/// itself under no parent, or links of the article that its parent stands
/// for, which the crawl has reached over links.
pub open spec fn sound_batch(
    table: Seq<(Seq<char>, Seq<Seq<char>>)>,
    origin: Seq<char>,
    batch: BatchView,
) -> bool {
    if batch.trail.len() == 0 {
        forall|i: int| 0 <= i < batch.titles.len() ==> #[trigger] batch.titles[i] == origin
    } else {
        sound_trail(table, origin, batch.trail) && forall|i: int|
            0 <= i < batch.titles.len() ==> linked(
                table,
                batch.trail.last(),
                #[trigger] batch.titles[i],
            )
    }
}

/// Whether every link of `title` is queued, and none of them is the goal.
pub open spec fn explored(
    table: Seq<(Seq<char>, Seq<Seq<char>>)>,
    goal: Seq<char>,
    visited: Seq<Seq<char>>,
    title: Seq<char>,
) -> bool {
    forall|to: Seq<char>| #[trigger] linked(table, title, to) ==> visited.contains(to) && to != goal
}

/// Every link of every entry, laid end to end.
pub open spec fn all_links(table: Seq<(Seq<char>, Seq<Seq<char>>)>) -> Seq<Seq<char>>
    decreases table.len(),
{
    if table.len() == 0 {
        Seq::empty()
    } else {
        all_links(table.drop_last()) + table.last().1
    }
}

/// Every title a crawl from `origin` can come across.
pub open spec fn universe(table: Seq<(Seq<char>, Seq<Seq<char>>)>, origin: Seq<char>) -> Seq<
    Seq<char>,
> {
    seq![origin] + all_links(table)
}

proof fn lemma_all_links_hold(table: Seq<(Seq<char>, Seq<Seq<char>>)>, entry: int, link: int)
    requires
        0 <= entry < table.len(),
        0 <= link < table[entry].1.len(),
    ensures
        all_links(table).contains(table[entry].1[link]),
    decreases table.len(),
{
    let shorter = table.drop_last();
    if entry == table.len() - 1 {
        assert(all_links(table)[all_links(shorter).len() + link] == table[entry].1[link]);
    } else {
        lemma_all_links_hold(shorter, entry, link);
        let i = choose|i: int|
            0 <= i < all_links(shorter).len() && all_links(shorter)[i] == table[entry].1[link];
        assert(all_links(table)[i] == table[entry].1[link]);
    }
}

proof fn lemma_linked_in_universe(
    table: Seq<(Seq<char>, Seq<Seq<char>>)>,
    origin: Seq<char>,
    from: Seq<char>,
    to: Seq<char>,
)
    requires
        linked(table, from, to),
    ensures
        universe(table, origin).contains(to),
{
    crate::graph::lemma_entry_of(table, from);
    let entry = crate::graph::entry_of(table, from);
    let links = table[entry].1;
    let link = choose|i: int| 0 <= i < links.len() && links[i] == to;
    lemma_all_links_hold(table, entry, link);
    let i = choose|i: int| 0 <= i < all_links(table).len() && all_links(table)[i] == to;
    assert(universe(table, origin)[i + 1] == to);
}

proof fn lemma_bounded_by_universe(visited: Seq<Seq<char>>, all: Seq<Seq<char>>)
    requires
        visited.no_duplicates(),
        forall|i: int| 0 <= i < visited.len() ==> all.contains(#[trigger] visited[i]),
    ensures
        visited.len() <= all.len(),
{
    visited.unique_seq_to_set();
    all.lemma_cardinality_of_set();
    vstd::seq_lib::seq_to_set_is_finite(all);
    assert(visited.to_set().subset_of(all.to_set())) by {
        assert forall|title: Seq<char>| visited.to_set().contains(title) implies all.to_set().contains(
            title,
        ) by {
            let i = choose|i: int| 0 <= i < visited.len() && visited[i] == title;
            assert(all.contains(visited[i]));
        }
    }
    vstd::set_lib::lemma_len_subset(visited.to_set(), all.to_set());
}

proof fn lemma_flat_titles_take(batches: Seq<BatchView>, count: int)
    requires
        0 <= count <= batches.len(),
    ensures
        flat_titles(batches.take(count)).len() <= flat_titles(batches).len(),
        forall|i: int|
            0 <= i < flat_titles(batches.take(count)).len() ==> flat_titles(batches.take(count))[i]
                == flat_titles(batches)[i],
{
    assert(batches =~= batches.take(count) + batches.skip(count));
    crate::node::lemma_flat_titles_concat(batches.take(count), batches.skip(count));
}

/// Where the origin is queued and every queued title is explored, no chain
/// of links leads to the goal: each title of such a chain would be queued in
/// turn, and the last link would lead to the goal from an explored title.
pub proof fn lemma_explored_means_unreachable(
    table: Seq<(Seq<char>, Seq<Seq<char>>)>,
    origin: Seq<char>,
    goal: Seq<char>,
    visited: Seq<Seq<char>>,
)
    requires
        visited.contains(origin),
        forall|i: int| 0 <= i < visited.len() ==> explored(table, goal, visited, #[trigger] visited[i]),
    ensures
        !reachable(table, origin, goal),
{
    if reachable(table, origin, goal) {
        let path = choose|path: Seq<Seq<char>>| leads(table, origin, goal, path);
        lemma_route_stays_queued(table, goal, visited, path, path.len() - 2);
        let last = path.len() - 2;
        let i = choose|i: int| 0 <= i < visited.len() && visited[i] == path[last];
        assert(explored(table, goal, visited, visited[i]));
        assert(linked(table, path[last], path[last + 1]));
        assert(path[last + 1] == goal);

    }
}

proof fn lemma_route_stays_queued(
    table: Seq<(Seq<char>, Seq<Seq<char>>)>,
    goal: Seq<char>,
    visited: Seq<Seq<char>>,
    path: Seq<Seq<char>>,
    upto: int,
)
    requires
        0 <= upto < path.len(),
        is_route(table, path),
        visited.contains(path[0]),
        forall|i: int| 0 <= i < visited.len() ==> explored(table, goal, visited, #[trigger] visited[i]),
    ensures
        visited.contains(path[upto]),
    decreases upto,
{
    if upto > 0 {
        lemma_route_stays_queued(table, goal, visited, path, upto - 1);
        let i = choose|i: int| 0 <= i < visited.len() && visited[i] == path[upto - 1];
        assert(explored(table, goal, visited, visited[i]));
        assert(linked(table, path[upto - 1], path[upto - 1 + 1]));
    }
}

/// The node of an answered article continues the trail of the batch that
/// asked for it.
proof fn lemma_article_trail(
    table: Seq<(Seq<char>, Seq<Seq<char>>)>,
    origin: Seq<char>,
    batch: BatchView,
    article: Seq<char>,
)
    requires
        sound_batch(table, origin, batch),
        batch.titles.contains(article),
    ensures
        sound_trail(table, origin, batch.trail.push(article)),
{
    let path = batch.trail.push(article);
    let at = choose|i: int| 0 <= i < batch.titles.len() && batch.titles[i] == article;
    if batch.trail.len() == 0 {
        assert(batch.titles[at] == origin);
    } else {
        assert(linked(table, batch.trail.last(), batch.titles[at]));
        assert forall|i: int| 0 <= i < path.len() - 1 implies linked(
            table,
            #[trigger] path[i],
            path[i + 1],
        ) by {
            if i < batch.trail.len() - 1 {
                assert(path[i] == batch.trail[i]);
                assert(path[i + 1] == batch.trail[i + 1]);
            }
        }
    }
}

/// What handling the answer to a sound batch comes to, when the answer is
/// the table's.
///
/// Every batch sent is sound again, so that a crawl that begins with the
/// origin's batch only ever asks for titles that it has reached over links.
/// A path that is found leads from the origin to the goal. Where the goal
/// was not found, every title of the batch is explored afterwards. Each
/// batch sent hangs one step below the batch asked. No title is queued
/// twice, and every title queued is one that the table mentions.
pub proof fn lemma_answer_handled(
    table: Seq<(Seq<char>, Seq<Seq<char>>)>,
    origin: Seq<char>,
    goal: Seq<char>,
    visited: Seq<Seq<char>>,
    batch: BatchView,
)
    requires
        visited.no_duplicates(),
        sound_batch(table, origin, batch),
        forall|i: int| 0 <= i < visited.len() ==> universe(table, origin).contains(#[trigger] visited[i]),
    ensures
        ({
            let pairs = answer(table, batch.titles);
            let count = handled(pairs, goal);
            let sent = emitted(pairs, visited, batch.trail, count);
            let queued = queued_after(pairs, visited, count);
            &&& 0 <= count <= pairs.len() <= batch.titles.len()
            &&& queued == visited + flat_titles(sent)
            &&& queued.no_duplicates()
            &&& sent.len() <= count + flat_titles(sent).len()
            &&& forall|k: int| 0 <= k < sent.len() ==> sound_batch(table, origin, #[trigger] sent[k])
            &&& forall|k: int|
                0 <= k < sent.len() ==> (#[trigger] sent[k]).trail.len() == batch.trail.len() + 1
            &&& forall|i: int|
                0 <= i < queued.len() ==> universe(table, origin).contains(#[trigger] queued[i])
            &&& count < pairs.len() ==> leads(
                table,
                origin,
                goal,
                batch.trail.push(pairs[count].0).push(goal),
            )
            &&& count == pairs.len() ==> forall|i: int|
                0 <= i < batch.titles.len() ==> explored(table, goal, queued, #[trigger] batch.titles[i])
        }),
{
    let pairs = answer(table, batch.titles);
    let count = handled(pairs, goal);
    let sent = emitted(pairs, visited, batch.trail, count);
    let queued = queued_after(pairs, visited, count);
    crate::graph::lemma_answer(table, batch.titles);
    crate::worker::lemma_handled(pairs, goal);
    crate::worker::lemma_emitted_titles(pairs, visited, batch.trail, count);

    assert forall|k: int| 0 <= k < sent.len() implies sound_batch(table, origin, #[trigger] sent[k]) by {
        crate::worker::lemma_emitted_from_answer(pairs, visited, batch.trail, count, k);
        let j = choose|j: int|
            0 <= j < count && sent[k].trail == batch.trail.push((#[trigger] pairs[j]).0)
                && forall|i: int|
                0 <= i < sent[k].titles.len() ==> pairs[j].1.contains(#[trigger] sent[k].titles[i]);
        lemma_article_trail(table, origin, batch, pairs[j].0);
        assert forall|i: int| 0 <= i < sent[k].titles.len() implies linked(
            table,
            sent[k].trail.last(),
            #[trigger] sent[k].titles[i],
        ) by {
            assert(pairs[j].1.contains(sent[k].titles[i]));
        }
    }

    assert forall|k: int| 0 <= k < sent.len() implies (#[trigger] sent[k]).trail.len()
        == batch.trail.len() + 1 by {
        crate::worker::lemma_emitted_from_answer(pairs, visited, batch.trail, count, k);
    }

    assert forall|i: int| 0 <= i < queued.len() implies universe(table, origin).contains(
        #[trigger] queued[i],
    ) by {
        if i < visited.len() {
            assert(queued[i] == visited[i]);
        } else {
            let title = queued[i];
            lemma_flat_titles_from(sent, i - visited.len());
            let k = choose|k: int| 0 <= k < sent.len() && sent[k].titles.contains(title);
            crate::worker::lemma_emitted_from_answer(pairs, visited, batch.trail, count, k);
            let j = choose|j: int|
                0 <= j < count && sent[k].trail == batch.trail.push((#[trigger] pairs[j]).0)
                    && forall|m: int|
                    0 <= m < sent[k].titles.len() ==> pairs[j].1.contains(
                        #[trigger] sent[k].titles[m],
                    );
            let m = choose|m: int| 0 <= m < sent[k].titles.len() && sent[k].titles[m] == title;
            assert(pairs[j].1.contains(sent[k].titles[m]));
            lemma_linked_in_universe(table, origin, pairs[j].0, title);
        }
    }

    if count < pairs.len() {
        let article = pairs[count].0;
        let path = batch.trail.push(article).push(goal);
        lemma_article_trail(table, origin, batch, article);
        assert(linked(table, article, goal));
        assert forall|i: int| 0 <= i < path.len() - 1 implies linked(
            table,
            #[trigger] path[i],
            path[i + 1],
        ) by {
            if i < path.len() - 2 {
                assert(path[i] == batch.trail.push(article)[i]);
                assert(path[i + 1] == batch.trail.push(article)[i + 1]);
            }
        }
    } else {
        assert forall|i: int| 0 <= i < batch.titles.len() implies explored(
            table,
            goal,
            queued,
            #[trigger] batch.titles[i],
        ) by {
            let title = batch.titles[i];
            assert forall|to: Seq<char>| linked(table, title, to) implies queued.contains(to) && to
                != goal by {
                let links = links_of(table, title)->0;
                assert(pairs.contains((title, links)));
                let j = choose|j: int| 0 <= j < pairs.len() && pairs[j] == (title, links);
                assert(pairs[j].1.contains(to));
                assert(!pairs[j].1.contains(goal));
                crate::worker::lemma_links_queued(pairs, visited, count, j, to);
            }
        }
    }
}

/// A title of the batches laid end to end is a title of one of them.
proof fn lemma_flat_titles_from(batches: Seq<BatchView>, place: int)
    requires
        0 <= place < flat_titles(batches).len(),
    ensures
        exists|k: int|
            0 <= k < batches.len() && (#[trigger] batches[k]).titles.contains(
                flat_titles(batches)[place],
            ),
    decreases batches.len(),
{
    let shorter = batches.drop_last();
    if place < flat_titles(shorter).len() {
        lemma_flat_titles_from(shorter, place);
        let k = choose|k: int|
            0 <= k < shorter.len() && (#[trigger] shorter[k]).titles.contains(
                flat_titles(shorter)[place],
            );
        assert(batches[k] == shorter[k]);
    } else {
        let last = batches.len() - 1;
        assert(batches[last].titles[place - flat_titles(shorter).len()] == flat_titles(
            batches,
        )[place]);
    }
}

proof fn lemma_explored_grows(
    table: Seq<(Seq<char>, Seq<Seq<char>>)>,
    goal: Seq<char>,
    visited: Seq<Seq<char>>,
    more: Seq<Seq<char>>,
    title: Seq<char>,
)
    requires
        explored(table, goal, visited, title),
    ensures
        explored(table, goal, visited + more, title),
{
    assert forall|to: Seq<char>| #[trigger] linked(table, title, to) implies (visited + more).contains(
        to,
    ) && to != goal by {
        let i = choose|i: int| 0 <= i < visited.len() && visited[i] == to;
        assert((visited + more)[i] == to);
    }
}

/// Where the origin links to the goal, the answer to the first request
/// holds the origin, and its links hold the goal.
proof fn lemma_first_answer(
    table: Seq<(Seq<char>, Seq<Seq<char>>)>,
    origin: Seq<char>,
    goal: Seq<char>,
)
    requires
        linked(table, origin, goal),
    ensures
        answer(table, seq![origin]).len() == 1,
        answer(table, seq![origin])[0].0 == origin,
        handled(answer(table, seq![origin]), goal) == 0,
{
    let asked = seq![origin];
    assert(asked.drop_last() =~= Seq::<Seq<char>>::empty());
    assert(asked.last() == origin);
    assert(answer(table, asked.drop_last()).len() == 0);
}

/// The batch that a crawl begins with: the origin, under no parent.
pub open spec fn root_batch(origin: Seq<char>) -> BatchView {
    BatchView { trail: Seq::empty(), titles: seq![origin] }
}

/// What holds between any two steps of a crawl against a table.
///
/// `batches` are all the batches queued so far, of which the first `head`
/// have been asked; `visited` are the titles queued, and `result` is the
/// path found, if any.
#[verifier::opaque]
spec fn in_order(
    table: Seq<(Seq<char>, Seq<Seq<char>>)>,
    origin: Seq<char>,
    goal: Seq<char>,
    batches: Seq<BatchView>,
    head: int,
    visited: Seq<Seq<char>>,
    result: Option<Seq<Seq<char>>>,
) -> bool {
    &&& 0 <= head <= batches.len()
    &&& batches.len() >= 1
    &&& visited.no_duplicates()
    &&& visited.contains(origin)
    &&& flat_titles(batches) == visited
    &&& forall|k: int| 0 <= k < batches.len() ==> sound_batch(table, origin, #[trigger] batches[k])
    &&& forall|i: int|
        0 <= i < visited.len() ==> universe(table, origin).contains(#[trigger] visited[i])
    &&& result matches Some(found) ==> leads(table, origin, goal, found)
    &&& result is None ==> forall|i: int|
        0 <= i < flat_titles(batches.take(head)).len() ==> explored(
            table,
            goal,
            visited,
            #[trigger] flat_titles(batches.take(head))[i],
        )
    &&& head == 0 ==> result is None && batches[0] == root_batch(origin)
    &&& head > 0 && linked(table, origin, goal) ==> result == Some(seq![origin, goal])
}

/// What is left to do at most: it shrinks with every batch asked.
spec fn work_left(
    table: Seq<(Seq<char>, Seq<Seq<char>>)>,
    origin: Seq<char>,
    batches: Seq<BatchView>,
    head: int,
    visited: Seq<Seq<char>>,
) -> int {
    2 * universe(table, origin).len() + batches.len() - head - flat_titles(batches.take(head)).len()
        - visited.len()
}

proof fn lemma_begin(table: Seq<(Seq<char>, Seq<Seq<char>>)>, origin: Seq<char>, goal: Seq<char>)
    ensures
        in_order(table, origin, goal, seq![root_batch(origin)], 0, seq![origin], None),
{
    reveal(in_order);
    let batches = seq![root_batch(origin)];
    let visited = seq![origin];
    assert(batches.drop_last() =~= Seq::<BatchView>::empty());
    assert(flat_titles(Seq::<BatchView>::empty()) =~= Seq::<Seq<char>>::empty());
    assert(flat_titles(batches) =~= visited);
    assert(batches.take(0) =~= Seq::<BatchView>::empty());
    assert(universe(table, origin)[0] == origin);
    assert(visited[0] == origin);
    assert(sound_batch(table, origin, batches[0]));
}

proof fn lemma_work_left(
    table: Seq<(Seq<char>, Seq<Seq<char>>)>,
    origin: Seq<char>,
    goal: Seq<char>,
    batches: Seq<BatchView>,
    head: int,
    visited: Seq<Seq<char>>,
    result: Option<Seq<Seq<char>>>,
)
    requires
        in_order(table, origin, goal, batches, head, visited, result),
    ensures
        0 <= head <= batches.len(),
        work_left(table, origin, batches, head, visited) >= batches.len() - head,
{
    reveal(in_order);
    lemma_bounded_by_universe(visited, universe(table, origin));
    lemma_flat_titles_take(batches, head);
}

/// An empty batch is passed over.
proof fn lemma_skip(
    table: Seq<(Seq<char>, Seq<Seq<char>>)>,
    origin: Seq<char>,
    goal: Seq<char>,
    batches: Seq<BatchView>,
    head: int,
    visited: Seq<Seq<char>>,
)
    requires
        in_order(table, origin, goal, batches, head, visited, None),
        head < batches.len(),
        batches[head].titles.len() == 0,
    ensures
        in_order(table, origin, goal, batches, head + 1, visited, None),
        work_left(table, origin, batches, head + 1, visited) < work_left(
            table,
            origin,
            batches,
            head,
            visited,
        ),
{
    reveal(in_order);
    let done = flat_titles(batches.take(head));
    assert(batches.take(head + 1).drop_last() == batches.take(head));
    assert(flat_titles(batches.take(head + 1)) =~= done);
    if head == 0 {
        assert(batches[0].titles[0] == origin);
    }
}

/// A batch is asked and its answer handled.
proof fn lemma_advance(
    table: Seq<(Seq<char>, Seq<Seq<char>>)>,
    origin: Seq<char>,
    goal: Seq<char>,
    batches: Seq<BatchView>,
    head: int,
    visited: Seq<Seq<char>>,
)
    requires
        in_order(table, origin, goal, batches, head, visited, None),
        head < batches.len(),
    ensures
        ({
            let pairs = answer(table, batches[head].titles);
            let count = handled(pairs, goal);
            let sent = emitted(pairs, visited, batches[head].trail, count);
            let queued = queued_after(pairs, visited, count);
            let result = if count < pairs.len() {
                Some(batches[head].trail.push(pairs[count].0).push(goal))
            } else {
                None
            };
            &&& 0 <= count <= pairs.len()
            &&& in_order(table, origin, goal, batches + sent, head + 1, queued, result)
            &&& forall|k: int|
                0 <= k < sent.len() ==> (#[trigger] sent[k]).trail.len() == batches[head].trail.len()
                    + 1
            &&& work_left(table, origin, batches + sent, head + 1, queued) < work_left(
                table,
                origin,
                batches,
                head,
                visited,
            )
        }),
{
    reveal(in_order);
    let asked = batches[head];
    let pairs = answer(table, asked.titles);
    let count = handled(pairs, goal);
    let sent = emitted(pairs, visited, asked.trail, count);
    let queued = queued_after(pairs, visited, count);
    let after = batches + sent;
    let done = flat_titles(batches.take(head));
    lemma_answer_handled(table, origin, goal, visited, asked);
    crate::node::lemma_flat_titles_concat(batches, sent);
    assert(after.take(head + 1) =~= batches.take(head + 1));
    assert(batches.take(head + 1).drop_last() == batches.take(head));
    assert(flat_titles(after.take(head + 1)) == done + asked.titles);

    assert(queued.contains(origin)) by {
        let i = choose|i: int| 0 <= i < visited.len() && visited[i] == origin;
        assert(queued[i] == origin);
    }
    assert forall|k: int| 0 <= k < after.len() implies sound_batch(table, origin, #[trigger] after[k]) by {
        if k < batches.len() {
            assert(after[k] == batches[k]);
        } else {
            assert(after[k] == sent[k - batches.len()]);
        }
    }
    if count == pairs.len() {
        assert forall|i: int| 0 <= i < (done + asked.titles).len() implies explored(
            table,
            goal,
            queued,
            #[trigger] (done + asked.titles)[i],
        ) by {
            if i < done.len() {
                lemma_explored_grows(table, goal, visited, flat_titles(sent), done[i]);
            } else {
                assert((done + asked.titles)[i] == asked.titles[i - done.len()]);
            }
        }
    }
    if linked(table, origin, goal) {
        assert(head == 0);
        assert(asked.titles =~= seq![origin]);
        lemma_first_answer(table, origin, goal);
        assert(Seq::<Seq<char>>::empty().push(origin).push(goal) =~= seq![origin, goal]);
    }
}

/// Whether `path` leads from `origin` to `goal`, and no path that does is
/// shorter.
pub open spec fn shortest(
    table: Seq<(Seq<char>, Seq<Seq<char>>)>,
    origin: Seq<char>,
    goal: Seq<char>,
    path: Seq<Seq<char>>,
) -> bool {
    &&& leads(table, origin, goal, path)
    &&& forall|other: Seq<Seq<char>>|
        #[trigger] leads(table, origin, goal, other) ==> path.len() <= other.len()
}

/// Whether `title` stands in a batch that hangs no more than `depth` steps
/// below the origin.
spec fn placed(batches: Seq<BatchView>, title: Seq<char>, depth: int) -> bool {
    exists|j: int|
        0 <= j < batches.len() && (#[trigger] batches[j]).titles.contains(title)
            && batches[j].trail.len() <= depth
}

/// Whether the batches are queued level by level: none stands before one
/// that hangs higher.
spec fn by_level(batches: Seq<BatchView>) -> bool {
    forall|i: int, j: int|
        0 <= i <= j < batches.len() ==> (#[trigger] batches[i]).trail.len() <= (
        #[trigger] batches[j]).trail.len()
}

/// Whether every title that `steps` links or fewer lead to from the origin
/// stands in a batch no deeper than the links it takes.
spec fn reached_within(
    table: Seq<(Seq<char>, Seq<Seq<char>>)>,
    origin: Seq<char>,
    batches: Seq<BatchView>,
    steps: int,
) -> bool {
    forall|route: Seq<Seq<char>>|
        #[trigger] sound_trail(table, origin, route) && route.len() - 1 <= steps ==> placed(
            batches,
            route.last(),
            route.len() - 1,
        )
}

/// What makes the path that a crawl finds a shortest one.
///
/// While nothing is found, the batches are queued level by level, no batch
/// hangs more than one step below the next one to be asked, and every title
/// that can be reached in as many steps as that batch hangs deep is queued
/// no deeper than it need be.
#[verifier::opaque]
spec fn in_levels(
    table: Seq<(Seq<char>, Seq<Seq<char>>)>,
    origin: Seq<char>,
    goal: Seq<char>,
    batches: Seq<BatchView>,
    head: int,
    result: Option<Seq<Seq<char>>>,
) -> bool {
    &&& result is None ==> by_level(batches)
    &&& result is None && head < batches.len() ==> forall|j: int|
        0 <= j < batches.len() ==> (#[trigger] batches[j]).trail.len() <= batches[head].trail.len()
            + 1
    &&& result is None && head < batches.len() ==> reached_within(
        table,
        origin,
        batches,
        batches[head].trail.len() as int,
    )
    &&& result matches Some(found) ==> forall|other: Seq<Seq<char>>|
        #[trigger] leads(table, origin, goal, other) ==> found.len() <= other.len()
}

/// A title of one of the batches is a title of the batches laid end to end.
proof fn lemma_flat_titles_hold(batches: Seq<BatchView>, batch: int, place: int)
    requires
        0 <= batch < batches.len(),
        0 <= place < batches[batch].titles.len(),
    ensures
        flat_titles(batches).contains(batches[batch].titles[place]),
    decreases batches.len(),
{
    let shorter = batches.drop_last();
    let title = batches[batch].titles[place];
    if batch == batches.len() - 1 {
        assert(flat_titles(batches)[flat_titles(shorter).len() + place] == title);
    } else {
        lemma_flat_titles_hold(shorter, batch, place);
        let i = choose|i: int| 0 <= i < flat_titles(shorter).len() && flat_titles(shorter)[i] == title;
        assert(flat_titles(batches)[i] == title);
    }
}

/// What the order of a crawl says of the batches that have been asked.
proof fn lemma_asked_are_explored(
    table: Seq<(Seq<char>, Seq<Seq<char>>)>,
    origin: Seq<char>,
    goal: Seq<char>,
    batches: Seq<BatchView>,
    head: int,
    visited: Seq<Seq<char>>,
    batch: int,
    title: Seq<char>,
)
    requires
        in_order(table, origin, goal, batches, head, visited, None),
        0 <= batch < head,
        0 <= batch < batches.len(),
        batches[batch].titles.contains(title),
    ensures
        explored(table, goal, visited, title),
        flat_titles(batches) == visited,
{
    reveal(in_order);
    let asked = batches.take(head);
    let place = choose|i: int| 0 <= i < batches[batch].titles.len() && batches[batch].titles[i] == title;
    assert(asked[batch] == batches[batch]);
    lemma_flat_titles_hold(asked, batch, place);
    let i = choose|i: int| 0 <= i < flat_titles(asked).len() && flat_titles(asked)[i] == title;
    assert(explored(table, goal, visited, flat_titles(asked)[i]));
}

/// A route without its last title is a route still.
proof fn lemma_route_shortened(
    table: Seq<(Seq<char>, Seq<Seq<char>>)>,
    origin: Seq<char>,
    route: Seq<Seq<char>>,
)
    requires
        sound_trail(table, origin, route),
        route.len() >= 2,
    ensures
        sound_trail(table, origin, route.drop_last()),
        linked(table, route.drop_last().last(), route.last()),
{
    let shorter = route.drop_last();
    assert forall|i: int| 0 <= i < shorter.len() - 1 implies linked(
        table,
        #[trigger] shorter[i],
        shorter[i + 1],
    ) by {
        assert(shorter[i] == route[i]);
        assert(shorter[i + 1] == route[i + 1]);
    }
    assert(linked(table, route[route.len() - 2], route[route.len() - 2 + 1]));
}

/// Once every batch above a level has been asked, the titles of the level
/// are all queued: what can be reached in one step more stands in a batch
/// at the next level or above.
proof fn lemma_next_level(
    table: Seq<(Seq<char>, Seq<Seq<char>>)>,
    origin: Seq<char>,
    goal: Seq<char>,
    batches: Seq<BatchView>,
    head: int,
    visited: Seq<Seq<char>>,
)
    requires
        0 < head < batches.len(),
        in_order(table, origin, goal, batches, head, visited, None),
        by_level(batches),
        forall|j: int|
            0 <= j < batches.len() ==> (#[trigger] batches[j]).trail.len() <= batches[head
                - 1].trail.len() + 1,
        reached_within(table, origin, batches, batches[head - 1].trail.len() as int),
    ensures
        reached_within(table, origin, batches, batches[head].trail.len() as int),
{
    let above = batches[head - 1].trail.len() as int;
    let level = batches[head].trail.len() as int;
    assert forall|route: Seq<Seq<char>>| #[trigger]
        sound_trail(table, origin, route) && route.len() - 1 <= level implies placed(
        batches,
        route.last(),
        route.len() - 1,
    ) by {
        if route.len() - 1 > above {
            lemma_route_shortened(table, origin, route);
            let shorter = route.drop_last();
            assert(sound_trail(table, origin, shorter) && shorter.len() - 1 <= above);
            assert(placed(batches, shorter.last(), shorter.len() - 1));
            let j = choose|j: int|
                0 <= j < batches.len() && (#[trigger] batches[j]).titles.contains(shorter.last())
                    && batches[j].trail.len() <= shorter.len() - 1;
            assert(j < head) by {
                if j >= head {
                    assert(batches[head].trail.len() <= batches[j].trail.len());
                }
            }
            lemma_asked_are_explored(table, origin, goal, batches, head, visited, j, shorter.last());
            assert(visited.contains(route.last()));
            let i = choose|i: int| 0 <= i < visited.len() && visited[i] == route.last();
            lemma_flat_titles_from(batches, i);
            let k = choose|k: int|
                0 <= k < batches.len() && (#[trigger] batches[k]).titles.contains(
                    flat_titles(batches)[i],
                );
            assert(batches[k].trail.len() <= above + 1);
        }
    }
}

proof fn lemma_levels_begin(
    table: Seq<(Seq<char>, Seq<Seq<char>>)>,
    origin: Seq<char>,
    goal: Seq<char>,
)
    ensures
        in_levels(table, origin, goal, seq![root_batch(origin)], 0, None),
{
    reveal(in_levels);
    let batches = seq![root_batch(origin)];
    assert forall|route: Seq<Seq<char>>| #[trigger]
        sound_trail(table, origin, route) && route.len() - 1 <= 0 implies placed(
        batches,
        route.last(),
        route.len() - 1,
    ) by {
        assert(batches[0].titles[0] == route.last());
    }
}

/// The levels stay in order when a batch has been asked and nothing was
/// found: `sent` are the batches that came of it, one step below.
proof fn lemma_levels_kept(
    table: Seq<(Seq<char>, Seq<Seq<char>>)>,
    origin: Seq<char>,
    goal: Seq<char>,
    batches: Seq<BatchView>,
    head: int,
    sent: Seq<BatchView>,
    queued: Seq<Seq<char>>,
)
    requires
        0 <= head < batches.len(),
        in_levels(table, origin, goal, batches, head, None),
        in_order(table, origin, goal, batches + sent, head + 1, queued, None),
        forall|k: int|
            0 <= k < sent.len() ==> (#[trigger] sent[k]).trail.len() == batches[head].trail.len()
                + 1,
    ensures
        in_levels(table, origin, goal, batches + sent, head + 1, None),
{
    reveal(in_levels);
    let after = batches + sent;
    let level = batches[head].trail.len() as int;
    assert forall|i: int, j: int| 0 <= i <= j < after.len() implies (#[trigger] after[i]).trail.len()
        <= (#[trigger] after[j]).trail.len() by {
        if j < batches.len() {
            assert(after[i] == batches[i] && after[j] == batches[j]);
        } else if i < batches.len() {
            assert(after[i] == batches[i] && after[j] == sent[j - batches.len()]);
        } else {
            assert(after[i] == sent[i - batches.len()] && after[j] == sent[j - batches.len()]);
        }
    }
    assert forall|j: int| 0 <= j < after.len() implies (#[trigger] after[j]).trail.len() <= level
        + 1 by {
        if j < batches.len() {
            assert(after[j] == batches[j]);
        } else {
            assert(after[j] == sent[j - batches.len()]);
        }
    }
    assert(after[head] == batches[head]);
    assert forall|route: Seq<Seq<char>>| #[trigger]
        sound_trail(table, origin, route) && route.len() - 1 <= level implies placed(
        after,
        route.last(),
        route.len() - 1,
    ) by {
        assert(placed(batches, route.last(), route.len() - 1));
        let j = choose|j: int|
            0 <= j < batches.len() && (#[trigger] batches[j]).titles.contains(route.last())
                && batches[j].trail.len() <= route.len() - 1;
        assert(after[j] == batches[j]);
    }
    if head + 1 < after.len() {
        assert(after[head].trail.len() <= after[head + 1].trail.len());
        lemma_next_level(table, origin, goal, after, head + 1, queued);
    }
}

/// A path found at a batch is a shortest one: it is one step longer than
/// the batch hangs deep, and a shorter way to the goal would have passed
/// through a title that was explored before.
proof fn lemma_levels_found(
    table: Seq<(Seq<char>, Seq<Seq<char>>)>,
    origin: Seq<char>,
    goal: Seq<char>,
    batches: Seq<BatchView>,
    head: int,
    visited: Seq<Seq<char>>,
    found: Seq<Seq<char>>,
    after: Seq<BatchView>,
    next: int,
)
    requires
        0 <= head < batches.len(),
        in_levels(table, origin, goal, batches, head, None),
        in_order(table, origin, goal, batches, head, visited, None),
        found.len() == batches[head].trail.len() + 2,
    ensures
        in_levels(table, origin, goal, after, next, Some(found)),
{
    reveal(in_levels);
    let level = batches[head].trail.len() as int;
    assert forall|other: Seq<Seq<char>>| #[trigger]
        leads(table, origin, goal, other) implies found.len() <= other.len() by {
        if other.len() < found.len() {
            lemma_route_shortened(table, origin, other);
            let shorter = other.drop_last();
            assert(sound_trail(table, origin, shorter) && shorter.len() - 1 <= level);
            assert(placed(batches, shorter.last(), shorter.len() - 1));
            let j = choose|j: int|
                0 <= j < batches.len() && (#[trigger] batches[j]).titles.contains(shorter.last())
                    && batches[j].trail.len() <= shorter.len() - 1;
            assert(j < head) by {
                if j >= head {
                    assert(batches[head].trail.len() <= batches[j].trail.len());
                }
            }
            lemma_asked_are_explored(table, origin, goal, batches, head, visited, j, shorter.last());
            assert(linked(table, shorter.last(), goal));
        }
    }
}

/// What a crawl that has ended has to show.
proof fn lemma_outcome(
    table: Seq<(Seq<char>, Seq<Seq<char>>)>,
    origin: Seq<char>,
    goal: Seq<char>,
    batches: Seq<BatchView>,
    head: int,
    visited: Seq<Seq<char>>,
    result: Option<Seq<Seq<char>>>,
)
    requires
        in_order(table, origin, goal, batches, head, visited, result),
        in_levels(table, origin, goal, batches, head, result),
        result is Some || head == batches.len(),
    ensures
        result matches Some(found) ==> shortest(table, origin, goal, found),
        result is None ==> !reachable(table, origin, goal),
        linked(table, origin, goal) ==> result == Some(seq![origin, goal]),
{
    reveal(in_order);
    reveal(in_levels);
    if result is None {
        assert(batches.take(head) == batches);
        lemma_explored_means_unreachable(table, origin, goal, visited);
    }
}

/// Runs a whole crawl against the link table `table`, and gives the path
/// that it finds.
///
/// Batches are taken in the order in which they were queued, each is asked
/// of the table, and the answer is handled as a worker handles it. The
/// crawl ends when the goal turns up among the links of an answered
/// article, or when nothing is left to ask.
///
/// A path that comes back leads from the origin to the goal, each of its
/// titles is among the links of the one before, and no chain of links from
/// the origin to the goal is shorter. A path comes back exactly
/// where some chain of links leads to the goal: on a goal that cannot be
/// reached the crawl ends all the same, with nothing to show. Where the
/// origin itself links to the goal, the path is the two of them.
pub fn start(crawler: Crawler, table: &Vec<(String, Vec<String>)>) -> (path: Option<Vec<String>>)
    requires
        crawler.wf(),
        crawler.fresh(),
    ensures
        match path {
            Some(titles) => shortest(
                pairs_of(table@),
                crawler.origin_title(),
                crawler.goal_title(),
                titles_of(titles@),
            ),
            None => !reachable(pairs_of(table@), crawler.origin_title(), crawler.goal_title()),
        },
        path is Some <==> reachable(
            pairs_of(table@),
            crawler.origin_title(),
            crawler.goal_title(),
        ),
        linked(pairs_of(table@), crawler.origin_title(), crawler.goal_title()) ==> path is Some
            && titles_of(path->0@) == seq![crawler.origin_title(), crawler.goal_title()],
{
    let mut crawler = crawler;
    let ghost links = pairs_of(table@);
    let ghost origin = crawler.origin_title();
    let ghost goal = crawler.goal_title();

    let mut first: Vec<String> = Vec::new();
    first.push(crawler.origin().clone());
    let mut queue: Vec<BatchData> = Vec::new();
    queue.push(BatchData::new(None, first));
    let mut head: usize = 0;
    let mut scheduler = Scheduler::new();

    proof {
        let views = batch_views(queue@);
        assert(views[0].titles =~= seq![origin]);
        assert(views =~= seq![root_batch(origin)]);
        lemma_begin(links, origin, goal);
        lemma_levels_begin(links, origin, goal);
    }

    loop
        invariant_except_break
            crawler.wf(),
            crawler.origin_title() == origin,
            crawler.goal_title() == goal,
            links == pairs_of(table@),
            head <= queue.len(),
            scheduler == (Scheduler {
                phase: Phase::Running,
                failed_receives: 0,
                queued: (queue.len() - head) as usize,
                running: 0,
                aborted: false,
            }),
            crawler.terminated() == crawler.result() is Some,
            in_order(
                links,
                origin,
                goal,
                batch_views(queue@),
                head as int,
                crawler.visited(),
                crawler.result(),
            ),
            in_levels(links, origin, goal, batch_views(queue@), head as int, crawler.result()),
        ensures
            scheduler.phase == Phase::Draining,
            !scheduler.aborted,
            crawler.origin_title() == origin,
            crawler.goal_title() == goal,
            crawler.result() matches Some(found) ==> shortest(links, origin, goal, found),
            crawler.result() is None ==> !reachable(links, origin, goal),
            linked(links, origin, goal) ==> crawler.result() == Some(seq![origin, goal]),
        decreases work_left(links, origin, batch_views(queue@), head as int, crawler.visited()),
    {
        let ghost views = batch_views(queue@);
        let ghost visited = crawler.visited();
        proof {
            lemma_work_left(links, origin, goal, views, head as int, visited, crawler.result());
        }
        match scheduler.step(Event::Polled { terminated: crawler.is_terminated() }) {
            Action::Receive => {},
            Action::Exhaust => {
                proof {
                    lemma_outcome(links, origin, goal, views, head as int, visited, crawler.result());
                }
                crawler.mark_exhausted();
                break ;
            },
            _ => {
                proof {
                    lemma_outcome(links, origin, goal, views, head as int, visited, crawler.result());
                }
                break ;
            },
        }
        let batch = &queue[head];
        let size = batch.new_batch.len();
        match scheduler.step(Event::Received { size }) {
            Action::Fetch => {
                let found = fetch_links(table, &batch.new_batch);
                let parent = share_parent(&batch.parent);
                let spawn = scheduler.step(Event::Fetched);
                assert(spawn == Action::Spawn);
                let mut sent = threaded_processing(&mut crawler, &found, parent);
                let count = sent.len();
                let ghost sent_views = batch_views(sent@);
                proof {
                    lemma_advance(links, origin, goal, views, head as int, visited);
                    match crawler.result() {
                        None => {
                            lemma_levels_kept(
                                links,
                                origin,
                                goal,
                                views,
                                head as int,
                                sent_views,
                                crawler.visited(),
                            );
                        },
                        Some(path) => {
                            lemma_levels_found(
                                links,
                                origin,
                                goal,
                                views,
                                head as int,
                                visited,
                                path,
                                views + sent_views,
                                head + 1,
                            );
                        },
                    }
                }
                queue.append(&mut sent);
                assert(batch_views(queue@) =~= views + sent_views);
                let reported = scheduler.step(Event::WorkerDone { sent: count });
                assert(reported == Action::Continue);
            },
            _ => {
                proof {
                    lemma_skip(links, origin, goal, views, head as int, visited);
                    assert(views + Seq::<BatchView>::empty() =~= views);
                    lemma_levels_kept(
                        links,
                        origin,
                        goal,
                        views,
                        head as int,
                        Seq::empty(),
                        visited,
                    );
                }
            },
        }
        head = head + 1;
        proof {
            lemma_work_left(
                links,
                origin,
                goal,
                batch_views(queue@),
                head as int,
                crawler.visited(),
                crawler.result(),
            );
        }
    }
    let last = scheduler.step(Event::Joined);
    assert(last == Action::Reconstruct);
    detravel_path(crawler)
}

/// Walks back from the node that a finished crawl ended on, and gives the
/// titles from the origin to the goal. A crawl that ended on no node has no
/// path.
pub fn detravel_path(crawler: Crawler) -> (path: Option<Vec<String>>)
    ensures
        match path {
            None => crawler.result() is None,
            Some(titles) => crawler.result() == Some(titles_of(titles@)),
        },
{
    match crawler.into_final_node() {
        None => None,
        Some(node) => Some(node.path()),
    }
}

} // verus!
