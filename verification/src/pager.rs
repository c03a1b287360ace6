//! Cutting a list of links into batches that one request can carry.

use crate::crawler::Crawler;
use crate::text::batches_of;
use crate::text::byte_len;
use crate::text::byte_length;
use crate::text::joined;
use crate::text::lemma_byte_len_concat;
use crate::text::titles_of;
use vstd::prelude::*;
use vstd::utf8::encode_scalar;
use vstd::utf8::encode_utf8;

verus! {

/// The longest request line the remote side takes.
pub const MAX_URI: usize = 2000;

/// The part of a request line that is there whatever the titles are.
pub const QUERY_LENGTH: usize = 105;

/// Room left unused for safety.
pub const GRACE_SPACE: usize = 20;

/// The most titles one request may name.
pub const MAX_LINKS: usize = 50;

/// The bytes that the titles of one request, and the separators between
/// them, may take together.
pub const MAX_CHARS: usize = MAX_URI - QUERY_LENGTH - GRACE_SPACE;

/// The titles of `links` that are new to `visited`, each once, in the order
/// of their first occurrence.
pub open spec fn fresh_titles(links: Seq<Seq<char>>, visited: Seq<Seq<char>>) -> Seq<Seq<char>>
    decreases links.len(),
{
    if links.len() == 0 {
        Seq::empty()
    } else {
        let earlier = fresh_titles(links.drop_last(), visited);
        if (visited + earlier).contains(links.last()) {
            earlier
        } else {
            earlier.push(links.last())
        }
    }
}

/// The bytes of a batch's titles, with one separator counted for each.
pub open spec fn cost(batch: Seq<Seq<char>>) -> nat
    decreases batch.len(),
{
    if batch.len() == 0 {
        0
    } else {
        cost(batch.drop_last()) + byte_len(batch.last()) + 1
    }
}

/// The length in bytes of the request line that names a batch's titles:
/// the titles, and one separator between each two.
pub open spec fn request_len(batch: Seq<Seq<char>>) -> nat {
    if batch.len() == 0 {
        0
    } else {
        (cost(batch) - 1) as nat
    }
}

/// What a batch has used of its budget when it stands at `index` in the
/// list: the first batch of a list pays for a separator before its first
/// title, the later ones do not.
pub open spec fn load(index: int, batch: Seq<Seq<char>>) -> nat {
    if index == 0 {
        cost(batch)
    } else {
        request_len(batch)
    }
}

/// Whether `title`, with its separator, still goes into `batch` at `index`.
pub open spec fn fits(index: int, batch: Seq<Seq<char>>, title: Seq<char>) -> bool {
    batch.len() < MAX_LINKS && load(index, batch) + byte_len(title) + 1 <= MAX_CHARS
}

/// The batches that `fresh` is cut into. Titles are taken in order; each
/// goes into the last batch while it fits there, and opens a new batch when
/// it does not. There is always a first batch, which stays empty where
/// nothing fits into it.
pub open spec fn pagination(fresh: Seq<Seq<char>>) -> Seq<Seq<Seq<char>>>
    decreases fresh.len(),
{
    if fresh.len() == 0 {
        seq![Seq::empty()]
    } else {
        let before = pagination(fresh.drop_last());
        if fits(before.len() - 1, before.last(), fresh.last()) {
            before.drop_last().push(before.last().push(fresh.last()))
        } else {
            before.push(seq![fresh.last()])
        }
    }
}

/// The titles of a batch, joined by bars as a request names them, take as
/// many bytes as `request_len` says.
pub proof fn lemma_request_len(batch: Seq<Seq<char>>)
    ensures
        byte_len(joined(batch, "|"@)) == request_len(batch),
    decreases batch.len(),
{
    reveal_strlit("|");
    let bar = "|"@;
    assert(bar =~= seq!['|']);
    assert(byte_len(bar) == 1) by {
        assert(bar.drop_first() =~= Seq::<char>::empty());
        assert(encode_utf8(bar.drop_first()).len() == 0);
        assert(encode_scalar('|' as u32).len() == 1);
    }
    if batch.len() == 0 {
        assert(byte_len(Seq::<char>::empty()) == 0);
    } else if batch.len() == 1 {
        assert(batch.drop_last() =~= Seq::<Seq<char>>::empty());
        assert(cost(batch.drop_last()) == 0);
    } else {
        let shorter = batch.drop_last();
        lemma_request_len(shorter);
        lemma_byte_len_concat(joined(shorter, bar), bar);
        lemma_byte_len_concat(joined(shorter, bar) + bar, batch.last());
    }
}

/// Every list of batches has a first batch, and only that one can be empty.
pub proof fn lemma_pagination_shape(fresh: Seq<Seq<char>>)
    ensures
        1 <= pagination(fresh).len() <= fresh.len() + 1,
        forall|i: int| 1 <= i < pagination(fresh).len() ==> #[trigger] pagination(fresh)[i].len() > 0,
    decreases fresh.len(),
{
    if fresh.len() > 0 {
        lemma_pagination_shape(fresh.drop_last());
    }
}

/// The fresh titles are exactly the titles of `links` that `visited` lacks,
/// and none of them occurs twice: appended to `visited`, they leave it
/// without repeats.
pub proof fn lemma_fresh_titles(links: Seq<Seq<char>>, visited: Seq<Seq<char>>)
    requires
        visited.no_duplicates(),
    ensures
        (visited + fresh_titles(links, visited)).no_duplicates(),
        fresh_titles(links, visited).no_duplicates(),
        fresh_titles(links, visited).len() <= links.len(),
        forall|title: Seq<char>|
            fresh_titles(links, visited).contains(title) <==> links.contains(title)
                && !visited.contains(title),
    decreases links.len(),
{
    let fresh = fresh_titles(links, visited);
    assert((visited + fresh).no_duplicates() ==> fresh.no_duplicates()) by {
        if (visited + fresh).no_duplicates() {
            assert forall|i: int, j: int|
                0 <= i < fresh.len() && 0 <= j < fresh.len() && i != j implies fresh[i]
                != fresh[j] by {
                assert((visited + fresh)[visited.len() + i] == fresh[i]);
                assert((visited + fresh)[visited.len() + j] == fresh[j]);
            }
        }
    }
    if links.len() == 0 {
        assert(visited + fresh =~= visited);
    } else {
        let shorter = links.drop_last();
        let earlier = fresh_titles(shorter, visited);
        let last = links.last();
        lemma_fresh_titles(shorter, visited);
        assert forall|title: Seq<char>| links.contains(title) <==> shorter.contains(title) || title
            == last by {
            if links.contains(title) {
                let i = choose|i: int| 0 <= i < links.len() && links[i] == title;
                if i < links.len() - 1 {
                    assert(shorter[i] == title);
                }
            }
            if shorter.contains(title) {
                let i = choose|i: int| 0 <= i < shorter.len() && shorter[i] == title;
                assert(links[i] == title);
            }
            if title == last {
                assert(links[links.len() - 1] == title);
            }
        }
        assert forall|title: Seq<char>| (visited + earlier).contains(title) <==> visited.contains(
            title,
        ) || earlier.contains(title) by {
            if (visited + earlier).contains(title) {
                let i = choose|i: int| 0 <= i < (visited + earlier).len() && (visited + earlier)[i]
                    == title;
                if i < visited.len() {
                    assert(visited[i] == title);
                } else {
                    assert(earlier[i - visited.len()] == title);
                }
            }
            if visited.contains(title) {
                let i = choose|i: int| 0 <= i < visited.len() && visited[i] == title;
                assert((visited + earlier)[i] == title);
            }
            if earlier.contains(title) {
                let i = choose|i: int| 0 <= i < earlier.len() && earlier[i] == title;
                assert((visited + earlier)[visited.len() + i] == title);
            }
        }
        if (visited + earlier).contains(last) {
            assert(fresh == earlier);
        } else {
            assert(fresh == earlier.push(last));
            assert(visited + fresh =~= (visited + earlier).push(last));
            assert forall|title: Seq<char>| fresh.contains(title) <==> earlier.contains(title)
                || title == last by {
                if fresh.contains(title) {
                    let i = choose|i: int| 0 <= i < fresh.len() && fresh[i] == title;
                    if i < earlier.len() {
                        assert(earlier[i] == title);
                    }
                }
                if earlier.contains(title) {
                    let i = choose|i: int| 0 <= i < earlier.len() && earlier[i] == title;
                    assert(fresh[i] == title);
                }
                if title == last {
                    assert(fresh[fresh.len() - 1] == title);
                }
            }
        }
    }
}

/// A title that one call has put into a batch is in no batch of a later
/// call: what the second call finds fresh has nothing in common with what
/// the first found, nor with what was queued before either.
pub proof fn lemma_no_title_queued_twice(
    first: Seq<Seq<char>>,
    second: Seq<Seq<char>>,
    visited: Seq<Seq<char>>,
)
    requires
        visited.no_duplicates(),
    ensures
        ({
            let earlier = fresh_titles(first, visited);
            let later = fresh_titles(second, visited + earlier);
            &&& (visited + earlier + later).no_duplicates()
            &&& forall|title: Seq<char>| later.contains(title) ==> !earlier.contains(title)
            &&& visited.len() <= (visited + earlier).len() <= (visited + earlier + later).len()
        }),
{
    let earlier = fresh_titles(first, visited);
    let later = fresh_titles(second, visited + earlier);
    lemma_fresh_titles(first, visited);
    lemma_fresh_titles(second, visited + earlier);
    assert forall|title: Seq<char>| later.contains(title) implies !earlier.contains(title) by {
        if earlier.contains(title) {
            let i = choose|i: int| 0 <= i < earlier.len() && earlier[i] == title;
            assert((visited + earlier)[visited.len() + i] == title);
            assert((visited + earlier).contains(title));
        }
    }
    assert(visited + earlier + later =~= (visited + earlier) + later);
}

/// Cutting into batches loses no title, adds none and keeps their order:
/// the batches, laid end to end, are the list that was cut.
pub proof fn lemma_pagination_keeps_titles(fresh: Seq<Seq<char>>)
    ensures
        pagination(fresh).flatten() == fresh,
    decreases fresh.len(),
{
    let none = Seq::<Seq<char>>::empty();
    if fresh.len() == 0 {
        let no_batches = Seq::<Seq<Seq<char>>>::empty();
        assert(pagination(fresh) =~= no_batches.push(none));
        no_batches.lemma_flatten_push(none);
        assert(no_batches.flatten() =~= none);
        assert(pagination(fresh).flatten() =~= fresh);
    } else {
        let shorter = fresh.drop_last();
        let before = pagination(shorter);
        let closed = before.drop_last();
        lemma_pagination_keeps_titles(shorter);
        lemma_pagination_shape(shorter);
        assert(before =~= closed.push(before.last()));
        closed.lemma_flatten_push(before.last());
        assert(closed.flatten() + before.last() == shorter);
        assert(fresh =~= shorter.push(fresh.last()));
        if fits(before.len() - 1, before.last(), fresh.last()) {
            closed.lemma_flatten_push(before.last().push(fresh.last()));
            assert(pagination(fresh).flatten() =~= fresh);
        } else {
            before.lemma_flatten_push(seq![fresh.last()]);
            assert(pagination(fresh).flatten() =~= fresh);
        }
    }
}

/// No batch holds more titles than one request may name. No batch is over
/// its budget either, but for one case: a title that is by itself longer
/// than the budget stands alone in a batch of its own.
pub proof fn lemma_pagination_within_limits(fresh: Seq<Seq<char>>, index: int)
    requires
        0 <= index < pagination(fresh).len(),
    ensures
        pagination(fresh)[index].len() <= MAX_LINKS,
        request_len(pagination(fresh)[index]) <= load(index, pagination(fresh)[index]),
        load(index, pagination(fresh)[index]) <= MAX_CHARS || (index > 0 && pagination(
            fresh,
        )[index].len() == 1 && byte_len(pagination(fresh)[index][0]) > MAX_CHARS),
    decreases fresh.len(),
{
    if fresh.len() > 0 {
        let shorter = fresh.drop_last();
        let before = pagination(shorter);
        let title = fresh.last();
        lemma_pagination_shape(shorter);
        if index < before.len() {
            lemma_pagination_within_limits(shorter, index);
        }
        if fits(before.len() - 1, before.last(), title) {
            if index == before.len() - 1 {
                let batch = before.last();
                assert(batch.push(title).drop_last() == batch);
            }
        } else {
            if index == before.len() {
                assert(seq![title].drop_last() == Seq::<Seq<char>>::empty());
                assert(cost(Seq::<Seq<char>>::empty()) == 0);
            }
        }
    }
}

/// Where every title is short enough to go into a request by itself, no
/// batch exceeds the cap on titles, and no batch's request line exceeds the
/// budget in bytes.
pub proof fn lemma_batches_within_budget(fresh: Seq<Seq<char>>, index: int)
    requires
        0 <= index < pagination(fresh).len(),
        forall|i: int| 0 <= i < fresh.len() ==> byte_len(#[trigger] fresh[i]) <= MAX_CHARS,
    ensures
        pagination(fresh)[index].len() <= MAX_LINKS,
        request_len(pagination(fresh)[index]) <= MAX_CHARS,
{
    lemma_pagination_within_limits(fresh, index);
    let batch = pagination(fresh)[index];
    if load(index, batch) > MAX_CHARS {
        lemma_pagination_keeps_titles(fresh);
        lemma_flatten_holds_each(pagination(fresh), index, 0);
        let i = choose|i: int| 0 <= i < fresh.len() && fresh[i] == batch[0];
        assert(byte_len(fresh[i]) <= MAX_CHARS);
    }
}

/// An item of one of the lists is an item of the lists laid end to end.
pub proof fn lemma_flatten_holds_each(lists: Seq<Seq<Seq<char>>>, outer: int, inner: int)
    requires
        0 <= outer < lists.len(),
        0 <= inner < lists[outer].len(),
    ensures
        lists.flatten().contains(lists[outer][inner]),
    decreases lists.len(),
{
    let shorter = lists.drop_last();
    assert(lists =~= shorter.push(lists.last()));
    shorter.lemma_flatten_push(lists.last());
    if outer == lists.len() - 1 {
        assert(lists.flatten()[shorter.flatten().len() + inner] == lists[outer][inner]);
    } else {
        lemma_flatten_holds_each(shorter, outer, inner);
        let i = choose|i: int|
            0 <= i < shorter.flatten().len() && shorter.flatten()[i] == lists[outer][inner];
        assert(lists.flatten()[i] == lists[outer][inner]);
    }
}

/// The batches that a list of links is cut into hold, between them, each
/// title of the list that was not queued before, once, and nothing else.
pub proof fn lemma_batches_hold_the_new_titles(links: Seq<Seq<char>>, visited: Seq<Seq<char>>)
    requires
        visited.no_duplicates(),
    ensures
        ({
            let held = pagination(fresh_titles(links, visited)).flatten();
            &&& held.no_duplicates()
            &&& forall|title: Seq<char>|
                held.contains(title) <==> links.contains(title) && !visited.contains(title)
        }),
{
    lemma_fresh_titles(links, visited);
    lemma_pagination_keeps_titles(fresh_titles(links, visited));
}

/// A batch is only closed when it must be: the first title of each later
/// batch did not fit into the batch before it.
pub proof fn lemma_pagination_is_greedy(fresh: Seq<Seq<char>>, index: int)
    requires
        1 <= index < pagination(fresh).len(),
    ensures
        pagination(fresh)[index].len() > 0,
        !fits(index - 1, pagination(fresh)[index - 1], pagination(fresh)[index][0]),
    decreases fresh.len(),
{
    if fresh.len() > 0 {
        let shorter = fresh.drop_last();
        let before = pagination(shorter);
        lemma_pagination_shape(shorter);
        lemma_pagination_shape(fresh);
        if index < before.len() {
            lemma_pagination_is_greedy(shorter, index);
        }
    }
}

/// Splits `links` into batches for the remote side, and queues every title
/// that goes into one. A title that was queued before, in this call or an
/// earlier one, goes into none.
///
/// No batch holds more than `MAX_LINKS` titles, and the request line of a
/// batch stays within `MAX_CHARS` bytes, unless a single title is longer
/// than that by itself: such a title gets a batch of its own. An empty list
/// gives one empty batch.
pub fn paginate_links(links: &Vec<String>, crawler: &mut Crawler) -> (link_batches: Vec<
    Vec<String>,
>)
    requires
        old(crawler).wf(),
    ensures
        final(crawler).wf(),
        batches_of(link_batches@) == pagination(
            fresh_titles(titles_of(links@), old(crawler).visited()),
        ),
        final(crawler).visited() == old(crawler).visited() + fresh_titles(
            titles_of(links@),
            old(crawler).visited(),
        ),
        old(crawler).visited().is_prefix_of(final(crawler).visited()),
        batches_of(link_batches@).flatten() == fresh_titles(
            titles_of(links@),
            old(crawler).visited(),
        ),
        forall|i: int|
            0 <= i < link_batches.len() ==> (#[trigger] link_batches[i]).len() <= MAX_LINKS,
        forall|i: int|
            0 <= i < link_batches.len() ==> request_len(titles_of(#[trigger] link_batches[i]@))
                <= MAX_CHARS || link_batches[i].len() == 1,
        final(crawler).terminated() == old(crawler).terminated(),
        final(crawler).result() == old(crawler).result(),
        final(crawler).origin_title() == old(crawler).origin_title(),
        final(crawler).goal_title() == old(crawler).goal_title(),
{
    let mut available_chars: usize = MAX_CHARS;
    let mut link_batches: Vec<Vec<String>> = Vec::new();
    let mut current: Vec<String> = Vec::new();
    let ghost start = crawler.visited();
    let ghost all = titles_of(links@);

    assert(all.take(0) =~= Seq::<Seq<char>>::empty());
    assert(titles_of(current@) =~= Seq::<Seq<char>>::empty());
    assert(batches_of(link_batches@).push(titles_of(current@)) =~= seq![Seq::<Seq<char>>::empty()]);
    assert(start + Seq::<Seq<char>>::empty() =~= start);

    let mut i: usize = 0;
    while i < links.len()
        invariant
            i <= links.len(),
            all == titles_of(links@),
            crawler.wf(),
            crawler.visited() == start + fresh_titles(all.take(i as int), start),
            batches_of(link_batches@).push(titles_of(current@)) == pagination(
                fresh_titles(all.take(i as int), start),
            ),
            link_batches.len() > 0 ==> current.len() > 0,
            current.len() <= MAX_LINKS,
            available_chars as int == if load(link_batches.len() as int, titles_of(current@))
                <= MAX_CHARS {
                MAX_CHARS - load(link_batches.len() as int, titles_of(current@))
            } else {
                0
            },
            crawler.terminated() == old(crawler).terminated(),
            crawler.result() == old(crawler).result(),
            crawler.origin_title() == old(crawler).origin_title(),
            crawler.goal_title() == old(crawler).goal_title(),
        decreases links.len() - i,
    {
        let link = &links[i];
        let ghost seen = fresh_titles(all.take(i as int), start);
        let ghost batch = titles_of(current@);
        assert(all.take(i + 1).drop_last() == all.take(i as int));
        assert(all.take(i + 1).last() == link@);

        if crawler.record_visited(link) {
            assert(crawler.visited() == start + seen.push(link@));
            assert(fresh_titles(all.take(i + 1), start) == seen.push(link@));
            assert(seen.push(link@).drop_last() == seen);
            let ghost before = pagination(seen);
            let ghost old_batches = batches_of(link_batches@);
            assert(before.last() == batch);
            assert(before.drop_last() == old_batches);
            let length = byte_length(link.as_str());
            if available_chars <= length || current.len() >= MAX_LINKS {
                assert(!fits(link_batches.len() as int, batch, link@));
                let mut full: Vec<String> = Vec::new();
                std::mem::swap(&mut full, &mut current);
                link_batches.push(full);
                available_chars = if length <= MAX_CHARS {
                    MAX_CHARS - length
                } else {
                    0
                };
                current.push(link.clone());
                assert(titles_of(current@) == seq![link@]);
                assert(seq![link@].drop_last() == Seq::<Seq<char>>::empty());
                assert(cost(Seq::<Seq<char>>::empty()) == 0);
                assert(batches_of(link_batches@) == old_batches.push(batch));
                assert(old_batches.push(batch) == before);
                assert(pagination(seen.push(link@)) == before.push(seq![link@]));
            } else {
                assert(fits(link_batches.len() as int, batch, link@));
                available_chars = available_chars - length - 1;
                current.push(link.clone());
                assert(titles_of(current@) == batch.push(link@));
                assert(batch.push(link@).drop_last() == batch);
                assert(pagination(seen.push(link@)) == old_batches.push(batch.push(link@)));
            }
        } else {
            assert(crawler.visited() == start + seen);
            assert(fresh_titles(all.take(i + 1), start) == seen);
        }
        i = i + 1;
    }
    assert(all.take(links.len() as int) == all);
    link_batches.push(current);
    assert(batches_of(link_batches@) == pagination(fresh_titles(all, start)));
    proof {
        let fresh = fresh_titles(all, start);
        lemma_pagination_keeps_titles(fresh);
        assert forall|i: int| 0 <= i < link_batches.len() implies (#[trigger] link_batches[i]).len()
            <= MAX_LINKS && (request_len(titles_of(link_batches[i]@)) <= MAX_CHARS
            || link_batches[i].len() == 1) by {
            lemma_pagination_within_limits(fresh, i);
            assert(batches_of(link_batches@)[i] == titles_of(link_batches[i]@));
        }
    }
    link_batches
}

} // verus!
