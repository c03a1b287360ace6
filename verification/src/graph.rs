//! A link table held in memory: for each article that can be fetched, the
//! links found on it. It answers requests the way the remote side does, and
//! it is what a path is checked against.

use crate::text::titles_of;
use crate::worker::pairs_of;
use vstd::prelude::*;

verus! {

/// The place of the first entry for `title` in `table`, or the table's
/// length where there is none.
pub open spec fn entry_of(table: Seq<(Seq<char>, Seq<Seq<char>>)>, title: Seq<char>) -> int
    decreases table.len(),
{
    if table.len() == 0 {
        0
    } else if table[0].0 == title {
        0
    } else {
        1 + entry_of(table.drop_first(), title)
    }
}

/// The links that `table` gives for `title`: those of its first entry.
pub open spec fn links_of(table: Seq<(Seq<char>, Seq<Seq<char>>)>, title: Seq<char>) -> Option<
    Seq<Seq<char>>,
> {
    if entry_of(table, title) < table.len() {
        Some(table[entry_of(table, title)].1)
    } else {
        None
    }
}

/// Whether the article `from` links to `to`.
pub open spec fn linked(table: Seq<(Seq<char>, Seq<Seq<char>>)>, from: Seq<char>, to: Seq<char>) -> bool {
    links_of(table, from) matches Some(links) && links.contains(to)
}

/// Whether each title of `path` is among the links of the one before it.
pub open spec fn is_route(table: Seq<(Seq<char>, Seq<Seq<char>>)>, path: Seq<Seq<char>>) -> bool {
    forall|i: int| 0 <= i < path.len() - 1 ==> linked(table, #[trigger] path[i], path[i + 1])
}

/// Whether `path` leads from `origin` to `goal` over at least one link.
pub open spec fn leads(
    table: Seq<(Seq<char>, Seq<Seq<char>>)>,
    origin: Seq<char>,
    goal: Seq<char>,
    path: Seq<Seq<char>>,
) -> bool {
    &&& path.len() >= 2
    &&& path[0] == origin
    &&& path.last() == goal
    &&& is_route(table, path)
}

/// Whether some chain of links leads from `origin` to `goal`.
pub open spec fn reachable(
    table: Seq<(Seq<char>, Seq<Seq<char>>)>,
    origin: Seq<char>,
    goal: Seq<char>,
) -> bool {
    exists|path: Seq<Seq<char>>| leads(table, origin, goal, path)
}

/// What the table answers to a request for `titles`: for each title that
/// has an entry, in the order asked, the title with its links.
pub open spec fn answer(table: Seq<(Seq<char>, Seq<Seq<char>>)>, titles: Seq<Seq<char>>) -> Seq<
    (Seq<char>, Seq<Seq<char>>),
>
    decreases titles.len(),
{
    if titles.len() == 0 {
        Seq::empty()
    } else {
        let before = answer(table, titles.drop_last());
        match links_of(table, titles.last()) {
            None => before,
            Some(links) => before.push((titles.last(), links)),
        }
    }
}

/// `entry_of` is the first place that holds `title`.
pub proof fn lemma_entry_of(table: Seq<(Seq<char>, Seq<Seq<char>>)>, title: Seq<char>)
    ensures
        0 <= entry_of(table, title) <= table.len(),
        forall|i: int| 0 <= i < entry_of(table, title) ==> (#[trigger] table[i]).0 != title,
        entry_of(table, title) < table.len() ==> table[entry_of(table, title)].0 == title,
    decreases table.len(),
{
    if table.len() > 0 && table[0].0 != title {
        let rest = table.drop_first();
        lemma_entry_of(rest, title);
        assert forall|i: int| 0 <= i < entry_of(table, title) implies (#[trigger] table[i]).0
            != title by {
            if i > 0 {
                assert(rest[i - 1] == table[i]);
            }
        }
    }
}

/// Every title that is answered was asked for, and is answered with its
/// links; every title that was asked for and has links is answered.
pub proof fn lemma_answer(table: Seq<(Seq<char>, Seq<Seq<char>>)>, titles: Seq<Seq<char>>)
    ensures
        answer(table, titles).len() <= titles.len(),
        forall|i: int|
            0 <= i < answer(table, titles).len() ==> titles.contains(
                (#[trigger] answer(table, titles)[i]).0,
            ) && links_of(table, answer(table, titles)[i].0) == Some(answer(table, titles)[i].1),
        forall|j: int|
            0 <= j < titles.len() && links_of(table, #[trigger] titles[j]) is Some ==> answer(
                table,
                titles,
            ).contains((titles[j], links_of(table, titles[j])->0)),
    decreases titles.len(),
{
    if titles.len() > 0 {
        let shorter = titles.drop_last();
        let before = answer(table, shorter);
        let full = answer(table, titles);
        lemma_answer(table, shorter);
        assert forall|i: int| 0 <= i < full.len() implies titles.contains((#[trigger] full[i]).0)
            && links_of(table, full[i].0) == Some(full[i].1) by {
            if i < before.len() {
                assert(full[i] == before[i]);
                let k = choose|k: int| 0 <= k < shorter.len() && shorter[k] == before[i].0;
                assert(titles[k] == before[i].0);
            } else {
                assert(titles[titles.len() - 1] == full[i].0);
            }
        }
        assert forall|j: int|
            0 <= j < titles.len() && links_of(table, #[trigger] titles[j]) is Some implies full.contains(
            (titles[j], links_of(table, titles[j])->0),
        ) by {
            let pair = (titles[j], links_of(table, titles[j])->0);
            if j < shorter.len() {
                assert(shorter[j] == titles[j]);
                let k = choose|k: int| 0 <= k < before.len() && before[k] == pair;
                assert(full[k] == pair);
            } else {
                assert(full[full.len() - 1] == pair);
            }
        }
    }
}

/// The place of the first entry for `title`, if there is one.
pub fn find_entry(table: &Vec<(String, Vec<String>)>, title: &String) -> (place: Option<usize>)
    ensures
        match place {
            None => entry_of(pairs_of(table@), title@) == table.len() && links_of(
                pairs_of(table@),
                title@,
            ) is None,
            Some(i) => i < table.len() && i == entry_of(pairs_of(table@), title@) && links_of(
                pairs_of(table@),
                title@,
            ) == Some(titles_of(table[i as int].1@)),
        },
{
    let ghost pairs = pairs_of(table@);
    proof {
        lemma_entry_of(pairs, title@);
    }
    let mut i: usize = 0;
    while i < table.len()
        invariant
            i <= table.len(),
            pairs == pairs_of(table@),
            forall|j: int| 0 <= j < i ==> (#[trigger] pairs[j]).0 != title@,
            0 <= entry_of(pairs, title@) <= pairs.len(),
            forall|j: int| 0 <= j < entry_of(pairs, title@) ==> (#[trigger] pairs[j]).0 != title@,
            entry_of(pairs, title@) < pairs.len() ==> pairs[entry_of(pairs, title@)].0 == title@,
        decreases table.len() - i,
    {
        if table[i].0 == *title {
            assert(pairs[i as int].0 == title@);
            return Some(i);
        }
        i = i + 1;
    }
    None
}

/// A copy of a list of titles.
pub fn copy_titles(list: &Vec<String>) -> (copy: Vec<String>)
    ensures
        titles_of(copy@) == titles_of(list@),
{
    let mut copy: Vec<String> = Vec::new();
    let mut i: usize = 0;
    while i < list.len()
        invariant
            i <= list.len(),
            copy.len() == i,
            forall|j: int| 0 <= j < i ==> copy[j]@ == list[j]@,
        decreases list.len() - i,
    {
        copy.push(list[i].clone());
        i = i + 1;
    }
    assert(titles_of(copy@) =~= titles_of(list@));
    copy
}

/// Answers a request for `titles` from the table.
pub fn fetch_links(table: &Vec<(String, Vec<String>)>, titles: &Vec<String>) -> (found: Vec<
    (String, Vec<String>),
>)
    ensures
        pairs_of(found@) == answer(pairs_of(table@), titles_of(titles@)),
{
    let ghost asked = titles_of(titles@);
    let mut found: Vec<(String, Vec<String>)> = Vec::new();
    assert(asked.take(0) =~= Seq::<Seq<char>>::empty());
    assert(pairs_of(found@) =~= answer(pairs_of(table@), asked.take(0)));
    let mut i: usize = 0;
    while i < titles.len()
        invariant
            i <= titles.len(),
            asked == titles_of(titles@),
            pairs_of(found@) == answer(pairs_of(table@), asked.take(i as int)),
        decreases titles.len() - i,
    {
        assert(asked.take(i + 1).drop_last() == asked.take(i as int));
        assert(asked.take(i + 1).last() == titles[i as int]@);
        let ghost before = pairs_of(found@);
        match find_entry(table, &titles[i]) {
            None => {},
            Some(place) => {
                let links = copy_titles(&table[place].1);
                found.push((titles[i].clone(), links));
                assert(pairs_of(found@) =~= before.push(
                    (titles[i as int]@, titles_of(table[place as int].1@)),
                ));
            },
        }
        i = i + 1;
    }
    assert(asked.take(titles.len() as int) == asked);
    found
}

} // verus!
