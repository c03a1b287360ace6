//! What is asked of the encyclopedia, and what is made of its answers.
//!
//! The requests themselves are made elsewhere. Here are the parameters that
//! a request carries, the reading of the links and of the search results out
//! of an answer, and the settling of which article a name stands for, from
//! the results of a search and, where they leave a choice, from what the
//! user types.

use crate::graph::entry_of;
use crate::graph::find_entry;
use crate::json::array_items;
use crate::json::elements;
use crate::json::find;
use crate::json::found_text;
use crate::json::json_text;
use crate::json::member;
use crate::json::member_text;
use crate::json::object_of;
use crate::json::object_values;
use crate::json::text_of;
use crate::json::texts_of;
use crate::json::texts_of_borrowed;
use crate::json::values_of;
use crate::number::decimal;
use crate::number::decimal_text;
use crate::number::parse_u8;
use crate::number::parsed_u8;
use crate::text::strip_quotes;
use crate::text::titles_of;
use crate::text::unquoted;
use crate::worker::pairs_of;
use vstd::prelude::*;
use vstd::string::StringExecFns;

verus! {

/// The title that the value written `item` carries: the text of its member
/// `title`, without the first and the last character, which for a string
/// are its quotes.
pub open spec fn title_in(item: Seq<char>) -> Seq<char> {
    unquoted(member_text(item, "title"@))
}

/// The titles that a list of values carries.
pub open spec fn titles_in(items: Seq<Seq<char>>) -> Seq<Seq<char>> {
    Seq::new(items.len(), |i: int| title_in(items[i]))
}

/// `pairs` with `links` as the links of `name`: in place of the links that
/// `name` had, or at the end where it had none.
pub open spec fn with_page(
    pairs: Seq<(Seq<char>, Seq<Seq<char>>)>,
    name: Seq<char>,
    links: Seq<Seq<char>>,
) -> Seq<(Seq<char>, Seq<Seq<char>>)> {
    if entry_of(pairs, name) < pairs.len() {
        pairs.update(entry_of(pairs, name), (name, links))
    } else {
        pairs.push((name, links))
    }
}

/// What one page of an answer says: its title and the titles of its links,
/// or nothing where the page has no list of links.
pub open spec fn page_of(page: Seq<char>) -> Option<(Seq<char>, Seq<Seq<char>>)> {
    match array_items(member_text(page, "links"@)) {
        None => None,
        Some(items) => Some((title_in(page), titles_in(items))),
    }
}

/// What the pages of an answer say together. A page without links is left
/// out; of two pages with one title the later one counts.
pub open spec fn pages_of(pages: Seq<Seq<char>>) -> Seq<(Seq<char>, Seq<Seq<char>>)>
    decreases pages.len(),
{
    if pages.len() == 0 {
        Seq::empty()
    } else {
        let before = pages_of(pages.drop_last());
        match page_of(pages.last()) {
            None => before,
            Some(page) => with_page(before, page.0, page.1),
        }
    }
}

/// The links that the answer written `document` reports: the pages under
/// `query`, `pages`. There are none to be had where `query` has no member
/// `pages`, or where that is no object.
pub open spec fn links_in(document: Seq<char>) -> Option<Seq<(Seq<char>, Seq<Seq<char>>)>> {
    match found_text(member_text(document, "query"@), "pages"@) {
        None => None,
        Some(pages) => match object_values(pages) {
            None => None,
            Some(values) => Some(pages_of(values)),
        },
    }
}

/// The message for an answer from which no links can be had.
pub open spec fn fetch_error(articles: Seq<char>) -> Seq<char> {
    "Error while fetching link data with the article collection '"@ + articles + "'\n"@
}

/// What a search answer holds.
pub enum SearchOutcome {
    /// The answer has no search results at all.
    NoSearch,
    /// What stands in place of the results is no list.
    NotAList,
    /// The titles found, best match first.
    Found(Vec<String>),
}

/// What a search answer stands for.
pub enum SearchView {
    NoSearch,
    NotAList,
    Found(Seq<Seq<char>>),
}

impl View for SearchOutcome {
    type V = SearchView;

    open spec fn view(&self) -> SearchView {
        match self {
            SearchOutcome::NoSearch => SearchView::NoSearch,
            SearchOutcome::NotAList => SearchView::NotAList,
            SearchOutcome::Found(titles) => SearchView::Found(titles_of(titles@)),
        }
    }
}

/// The search results that the answer written `document` reports: the
/// titles of the items under `query`, `search`.
pub open spec fn search_in(document: Seq<char>) -> SearchView {
    match found_text(member_text(document, "query"@), "search"@) {
        None => SearchView::NoSearch,
        Some(results) => match array_items(results) {
            None => SearchView::NotAList,
            Some(items) => SearchView::Found(titles_in(items)),
        },
    }
}

/// The title that `item` carries.
pub fn title_of(item: &serde_json::Value) -> (title: String)
    ensures
        title@ == title_in(json_text(*item)),
{
    let quoted = text_of(member(item, "title"));
    strip_quotes(quoted.as_str()).to_string()
}

/// The titles that the values of `items` carry.
pub fn titles_from(items: &Vec<serde_json::Value>) -> (titles: Vec<String>)
    ensures
        titles_of(titles@) == titles_in(texts_of(items@)),
{
    let mut titles: Vec<String> = Vec::new();
    let mut i: usize = 0;
    while i < items.len()
        invariant
            i <= items.len(),
            titles.len() == i,
            forall|j: int| 0 <= j < i ==> titles[j]@ == title_in(json_text(items[j])),
        decreases items.len() - i,
    {
        titles.push(title_of(&items[i]));
        i = i + 1;
    }
    assert(titles_of(titles@) =~= titles_in(texts_of(items@)));
    titles
}

/// Puts `links` down as the links of `name`, in place of what was there for
/// that title or at the end.
pub fn put_page(pairs: &mut Vec<(String, Vec<String>)>, name: String, links: Vec<String>)
    ensures
        pairs_of(final(pairs)@) == with_page(pairs_of(old(pairs)@), name@, titles_of(links@)),
{
    let ghost before = pairs_of(pairs@);
    match find_entry(pairs, &name) {
        Some(place) => {
            pairs.set(place, (name, links));
            assert(pairs_of(pairs@) =~= before.update(place as int, (name@, titles_of(links@))));
        },
        None => {
            pairs.push((name, links));
            assert(pairs_of(pairs@) =~= before.push((name@, titles_of(links@))));
        },
    }
}

/// Reads the links out of the answer `result` to a request for the titles
/// `articles_string`. Each page that lists links gives one pair of its
/// title and the titles it links to. An answer without pages gives an error
/// that names the request.
pub fn get_links(result: &serde_json::Value, articles_string: &str) -> (links: Result<
    Vec<(String, Vec<String>)>,
    String,
>)
    ensures
        match links {
            Ok(pairs) => links_in(json_text(*result)) == Some(pairs_of(pairs@)),
            Err(message) => links_in(json_text(*result)) is None && message@ == fetch_error(
                articles_string@,
            ),
        },
{
    let pages = match find(member(result, "query"), "pages") {
        None => None,
        Some(found) => match object_of(found) {
            None => None,
            Some(object) => Some(values_of(object)),
        },
    };
    match pages {
        None => {
            let mut message = String::from_str(
                "Error while fetching link data with the article collection '",
            );
            message.append(articles_string);
            message.append("'\n");
            Err(message)
        },
        Some(pages) => {
            let ghost texts = texts_of_borrowed(pages@);
            let mut pairs: Vec<(String, Vec<String>)> = Vec::new();
            assert(texts.take(0) =~= Seq::<Seq<char>>::empty());
            assert(pairs_of(pairs@) =~= pages_of(texts.take(0)));
            let mut i: usize = 0;
            while i < pages.len()
                invariant
                    i <= pages.len(),
                    texts == texts_of_borrowed(pages@),
                    pairs_of(pairs@) == pages_of(texts.take(i as int)),
                decreases pages.len() - i,
            {
                assert(texts.take(i + 1).drop_last() == texts.take(i as int));
                assert(texts.take(i + 1).last() == json_text(*pages[i as int]));
                let page = pages[i];
                match elements(member(page, "links")) {
                    None => {},
                    Some(items) => {
                        let page_links = titles_from(items);
                        let page_name = title_of(page);
                        put_page(&mut pairs, page_name, page_links);
                    },
                }
                i = i + 1;
            }
            assert(texts.take(pages.len() as int) == texts);
            Ok(pairs)
        },
    }
}

/// Reads the titles found out of the answer `result` to a search.
pub fn search_results(result: &serde_json::Value) -> (outcome: SearchOutcome)
    ensures
        outcome@ == search_in(json_text(*result)),
{
    match find(member(result, "query"), "search") {
        None => SearchOutcome::NoSearch,
        Some(results) => match elements(results) {
            None => SearchOutcome::NotAList,
            Some(items) => SearchOutcome::Found(titles_from(items)),
        },
    }
}

/// Why a name stands for no article.
#[derive(Clone, Copy, Debug, PartialEq, Eq)]
pub enum Miss {
    /// The answer held no search results at all.
    NoSearch,
    /// What the answer held in place of the results was no list.
    NotAList,
    /// The search found nothing.
    NoTitles,
}

/// What a search has made of a name.
#[derive(Debug, PartialEq, Eq)]
pub enum Resolution {
    /// The name is the title of an article.
    Resolved(String),
    /// The name is no title, but these titles are close to it.
    Disambiguation(Vec<String>),
    /// The name stands for nothing.
    NotFound(Miss),
}

/// What a resolution stands for.
pub enum ResolutionView {
    Resolved(Seq<char>),
    Disambiguation(Seq<Seq<char>>),
    NotFound(Miss),
}

impl View for Resolution {
    type V = ResolutionView;

    open spec fn view(&self) -> ResolutionView {
        match self {
            Resolution::Resolved(title) => ResolutionView::Resolved(title@),
            Resolution::Disambiguation(titles) => ResolutionView::Disambiguation(titles_of(titles@)),
            Resolution::NotFound(miss) => ResolutionView::NotFound(*miss),
        }
    }
}

/// What the user has made of a list of candidates.
#[derive(Debug, PartialEq, Eq)]
pub enum Choice {
    /// The candidate of that number.
    Picked(String),
    /// None of them.
    Cancelled,
    /// A number that no candidate has.
    OutOfRange,
    /// No number at all.
    NotANumber,
}

/// What a choice stands for.
pub enum ChoiceView {
    Picked(Seq<char>),
    Cancelled,
    OutOfRange,
    NotANumber,
}

impl View for Choice {
    type V = ChoiceView;

    open spec fn view(&self) -> ChoiceView {
        match self {
            Choice::Picked(title) => ChoiceView::Picked(title@),
            Choice::Cancelled => ChoiceView::Cancelled,
            Choice::OutOfRange => ChoiceView::OutOfRange,
            Choice::NotANumber => ChoiceView::NotANumber,
        }
    }
}

/// What `search` makes of `article`: the name itself where the best match
/// is exactly the name, the matches to choose from where it is not, and
/// nothing where there are no matches.
pub open spec fn resolution(article: Seq<char>, search: SearchView) -> ResolutionView {
    match search {
        SearchView::NoSearch => ResolutionView::NotFound(Miss::NoSearch),
        SearchView::NotAList => ResolutionView::NotFound(Miss::NotAList),
        SearchView::Found(titles) => if titles.len() == 0 {
            ResolutionView::NotFound(Miss::NoTitles)
        } else if titles[0] == article {
            ResolutionView::Resolved(article)
        } else {
            ResolutionView::Disambiguation(titles)
        },
    }
}

/// The numbered lines that offer `candidates`, counted from one.
pub open spec fn choices_text(candidates: Seq<Seq<char>>) -> Seq<char>
    decreases candidates.len(),
{
    if candidates.len() == 0 {
        Seq::empty()
    } else {
        choices_text(candidates.drop_last()) + decimal_text(candidates.len()) + ": "@
            + candidates.last() + "\n"@
    }
}

/// The question that offers `candidates` in place of `article`.
pub open spec fn prompt_text(article: Seq<char>, candidates: Seq<Seq<char>>) -> Seq<char> {
    "\nDidn't find an article matching exact string '"@ + article
        + "', did you mean one of these articles:\n"@ + choices_text(candidates)
        + "0: None of the above.\nPlease input a number representing your intent: "@
}

/// What the answer `input` picks from `candidates`: zero is none of them, a
/// number up to their count is the candidate of that number, and anything
/// else picks nothing.
pub open spec fn choice(input: Seq<char>, candidates: Seq<Seq<char>>) -> ChoiceView {
    match parsed_u8(input) {
        None => ChoiceView::NotANumber,
        Some(number) => if number == 0 {
            ChoiceView::Cancelled
        } else if number > candidates.len() {
            ChoiceView::OutOfRange
        } else {
            ChoiceView::Picked(candidates[number - 1])
        },
    }
}

/// The parameters of the search for `article`.
pub open spec fn search_query_of(article: Seq<char>) -> Seq<(Seq<char>, Seq<char>)> {
    seq![
        ("action"@, "query"@),
        ("format"@, "json"@),
        ("list"@, "search"@),
        ("srsearch"@, article),
        ("srnamespace"@, "0"@),
        ("srlimit"@, "5"@),
    ]
}

/// The parameters of the request for the links of `titles`, which are
/// joined by bars.
pub open spec fn links_query_of(titles: Seq<char>) -> Seq<(Seq<char>, Seq<char>)> {
    seq![
        ("action"@, "query"@),
        ("format"@, "json"@),
        ("titles"@, titles),
        ("prop"@, "links"@),
        ("pllimit"@, "max"@),
        ("plnamespace"@, "0"@),
    ]
}

/// What a list of parameters stands for.
pub open spec fn query_of(parameters: Seq<(String, String)>) -> Seq<(Seq<char>, Seq<char>)> {
    Seq::new(parameters.len(), |i: int| (parameters[i].0@, parameters[i].1@))
}

fn parameter(name: &str, value: &str) -> (pair: (String, String))
    ensures
        pair.0@ == name@,
        pair.1@ == value@,
{
    (String::from_str(name), String::from_str(value))
}

/// The parameters of the search for `article`: the five best matches among
/// the articles proper.
pub fn search_query(article: &str) -> (parameters: Vec<(String, String)>)
    ensures
        query_of(parameters@) == search_query_of(article@),
{
    let mut parameters: Vec<(String, String)> = Vec::new();
    parameters.push(parameter("action", "query"));
    parameters.push(parameter("format", "json"));
    parameters.push(parameter("list", "search"));
    parameters.push(parameter("srsearch", article));
    parameters.push(parameter("srnamespace", "0"));
    parameters.push(parameter("srlimit", "5"));
    assert(query_of(parameters@) =~= search_query_of(article@));
    parameters
}

/// The parameters of the request for all links of `titles` that lead to
/// articles proper.
pub fn links_query(titles: &str) -> (parameters: Vec<(String, String)>)
    ensures
        query_of(parameters@) == links_query_of(titles@),
{
    let mut parameters: Vec<(String, String)> = Vec::new();
    parameters.push(parameter("action", "query"));
    parameters.push(parameter("format", "json"));
    parameters.push(parameter("titles", titles));
    parameters.push(parameter("prop", "links"));
    parameters.push(parameter("pllimit", "max"));
    parameters.push(parameter("plnamespace", "0"));
    assert(query_of(parameters@) =~= links_query_of(titles@));
    parameters
}

/// Settles what `article` stands for, given what a search for it has found.
pub fn resolve(article: &str, outcome: SearchOutcome) -> (found: Resolution)
    ensures
        found@ == resolution(article@, outcome@),
{
    match outcome {
        SearchOutcome::NoSearch => Resolution::NotFound(Miss::NoSearch),
        SearchOutcome::NotAList => Resolution::NotFound(Miss::NotAList),
        SearchOutcome::Found(titles) => {
            if titles.len() == 0 {
                Resolution::NotFound(Miss::NoTitles)
            } else if titles[0] == String::from_str(article) {
                Resolution::Resolved(String::from_str(article))
            } else {
                Resolution::Disambiguation(titles)
            }
        },
    }
}

/// Settles what `article` stands for, given the answer `result` to a
/// search for it.
pub fn validate_article(article: &str, result: &serde_json::Value) -> (found: Resolution)
    ensures
        found@ == resolution(article@, search_in(json_text(*result))),
{
    resolve(article, search_results(result))
}

/// Writes the question that offers `candidates` in place of `article`.
pub fn disambiguation_prompt(article: &str, candidates: &Vec<String>) -> (prompt: String)
    ensures
        prompt@ == prompt_text(article@, titles_of(candidates@)),
{
    let ghost offered = titles_of(candidates@);
    let mut prompt = String::from_str("\nDidn't find an article matching exact string '");
    prompt.append(article);
    prompt.append("', did you mean one of these articles:\n");
    let ghost head = prompt@;
    assert(offered.take(0) =~= Seq::<Seq<char>>::empty());
    assert(head + choices_text(offered.take(0)) =~= head);
    let mut i: usize = 0;
    while i < candidates.len()
        invariant
            i <= candidates.len(),
            offered == titles_of(candidates@),
            prompt@ == head + choices_text(offered.take(i as int)),
        decreases candidates.len() - i,
    {
        let ghost before = choices_text(offered.take(i as int));
        assert(offered.take(i + 1).drop_last() == offered.take(i as int));
        assert(offered.take(i + 1).last() == candidates[i as int]@);
        let number = decimal(i + 1);
        prompt.append(number.as_str());
        prompt.append(": ");
        prompt.append(candidates[i].as_str());
        prompt.append("\n");
        assert(prompt@ =~= head + (before + decimal_text((i + 1) as nat) + ": "@
            + candidates[i as int]@ + "\n"@));
        i = i + 1;
    }
    assert(offered.take(candidates.len() as int) == offered);
    prompt.append("0: None of the above.\nPlease input a number representing your intent: ");
    prompt
}

/// Reads the user's answer `input` to the question that offered
/// `candidates`.
pub fn pick_article(input: &str, candidates: &Vec<String>) -> (picked: Choice)
    ensures
        picked@ == choice(input@, titles_of(candidates@)),
{
    match parse_u8(input) {
        None => Choice::NotANumber,
        Some(number) => {
            if number == 0 {
                Choice::Cancelled
            } else if number as usize > candidates.len() {
                Choice::OutOfRange
            } else {
                Choice::Picked(candidates[number as usize - 1].clone())
            }
        },
    }
}

} // verus!
