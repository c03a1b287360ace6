use eddie_crawler::crawler::Crawler;
use eddie_crawler::graph::fetch_links;
use eddie_crawler::node::ArticleNode;
use eddie_crawler::search::detravel_path;
use eddie_crawler::search::start;
use eddie_crawler::crawler::may_retry;
use eddie_crawler::crawler::MAX_TRIES;
use eddie_crawler::worker::after_send_failure;
use eddie_crawler::worker::threaded_processing;
use eddie_crawler::worker::AfterSendFailure;
use std::sync::Arc;

fn strings(items: &[&str]) -> Vec<String> {
    items.iter().map(|s| s.to_string()).collect()
}

fn table(entries: &[(&str, &[&str])]) -> Vec<(String, Vec<String>)> {
    entries.iter().map(|(title, links)| (title.to_string(), strings(links))).collect()
}

#[test]
fn finds_the_path_through_the_second_branch() {
    let links = table(&[("A", &["B", "C"]), ("B", &["D"]), ("C", &["GOAL"])]);
    let path = start(Crawler::new("A", "GOAL"), &links);
    assert_eq!(path, Some(strings(&["A", "C", "GOAL"])));
}

#[test]
fn direct_link_gives_a_path_of_two() {
    let links = table(&[("A", &["X", "GOAL", "Y"]), ("X", &["GOAL"])]);
    let path = start(Crawler::new("A", "GOAL"), &links);
    assert_eq!(path, Some(strings(&["A", "GOAL"])));
}

#[test]
fn unreachable_goal_ends_without_a_path() {
    let links = table(&[("A", &["B", "C"]), ("B", &["A", "C"]), ("C", &["B"]), ("D", &["GOAL"])]);
    let path = start(Crawler::new("A", "GOAL"), &links);
    assert_eq!(path, None);
}

#[test]
fn origin_without_an_entry_ends_without_a_path() {
    let links = table(&[("B", &["GOAL"])]);
    assert_eq!(start(Crawler::new("A", "GOAL"), &links), None);
    assert_eq!(start(Crawler::new("A", "GOAL"), &Vec::new()), None);
}

#[test]
fn cycles_are_broken_by_the_visited_set() {
    let links = table(&[
        ("A", &["B"]),
        ("B", &["A", "C"]),
        ("C", &["A", "B", "D"]),
        ("D", &["C", "GOAL"]),
    ]);
    let path = start(Crawler::new("A", "GOAL"), &links);
    assert_eq!(path, Some(strings(&["A", "B", "C", "D", "GOAL"])));
}

#[test]
fn every_step_of_a_path_is_a_link() {
    let links = table(&[
        ("A", &["B", "C", "D"]),
        ("B", &["E"]),
        ("C", &["F"]),
        ("D", &["G"]),
        ("E", &["H"]),
        ("F", &["GOAL"]),
        ("G", &["GOAL"]),
    ]);
    let path = start(Crawler::new("A", "GOAL"), &links).unwrap();
    assert_eq!(path.first().unwrap(), "A");
    assert_eq!(path.last().unwrap(), "GOAL");
    for pair in path.windows(2) {
        let entry = links.iter().find(|(title, _)| *title == pair[0]).unwrap();
        assert!(entry.1.contains(&pair[1]));
    }
    assert_eq!(path, strings(&["A", "C", "F", "GOAL"]));
}

#[test]
fn the_path_found_is_a_shortest_one() {
    // The goal is four links from the origin by way of B, and two by way of
    // D, which is asked for after every link of B.
    let links = table(&[
        ("A", &["B", "C", "D"]),
        ("B", &["B1"]),
        ("B1", &["B2"]),
        ("B2", &["GOAL"]),
        ("C", &["B1", "C1"]),
        ("C1", &["GOAL"]),
        ("D", &["GOAL"]),
    ]);
    let path = start(Crawler::new("A", "GOAL"), &links);
    assert_eq!(path, Some(strings(&["A", "D", "GOAL"])));
}

#[test]
fn goal_equal_to_the_origin_needs_a_way_back() {
    let links = table(&[("A", &["B"]), ("B", &["C"]), ("C", &["A"])]);
    assert_eq!(start(Crawler::new("A", "A"), &links), Some(strings(&["A", "B", "C", "A"])));
    let links = table(&[("A", &["B"]), ("B", &["C"])]);
    assert_eq!(start(Crawler::new("A", "A"), &links), None);
}

#[test]
fn a_large_fan_out_is_crawled_batch_by_batch() {
    let first: Vec<String> = (0..130).map(|i| format!("L{}", i)).collect();
    let mut links: Vec<(String, Vec<String>)> = vec![("A".to_string(), first.clone())];
    for (i, title) in first.iter().enumerate() {
        let next = if i == 129 { vec!["GOAL".to_string()] } else { vec![format!("M{}", i)] };
        links.push((title.clone(), next));
    }
    let path = start(Crawler::new("A", "GOAL"), &links);
    assert_eq!(path, Some(strings(&["A", "L129", "GOAL"])));
}

#[test]
fn first_entry_of_a_title_answers_for_it() {
    let links = table(&[("A", &["B"]), ("A", &["GOAL"]), ("B", &["C"])]);
    assert_eq!(start(Crawler::new("A", "GOAL"), &links), None);
    let found = fetch_links(&links, &strings(&["B", "Z", "A"]));
    assert_eq!(found, table(&[("B", &["C"]), ("A", &["B"])]));
}

#[test]
fn worker_stops_at_the_first_article_that_links_to_the_goal() {
    let mut crawler = Crawler::new("A", "GOAL");
    let answer = table(&[("B", &["D", "E"]), ("C", &["F", "GOAL"]), ("X", &["Y"])]);
    let parent = Arc::new(ArticleNode::new("A", None));
    let sent = threaded_processing(&mut crawler, &answer, Some(parent));
    assert_eq!(sent.len(), 1);
    assert_eq!(sent[0].new_batch, strings(&["D", "E"]));
    assert_eq!(sent[0].parent.as_ref().unwrap().path(), strings(&["A", "B"]));
    assert!(crawler.is_terminated());
    assert_eq!(crawler.visited_count(), 3);
    assert_eq!(detravel_path(crawler), Some(strings(&["A", "C", "GOAL"])));
}

#[test]
fn worker_queues_each_new_link_once() {
    let mut crawler = Crawler::new("A", "GOAL");
    let answer = table(&[("B", &["D", "A", "E", "D"]), ("C", &["E", "F"]), ("G", &[])]);
    let sent = threaded_processing(&mut crawler, &answer, None);
    let titles: Vec<Vec<String>> = sent.iter().map(|batch| batch.new_batch.clone()).collect();
    assert_eq!(titles, vec![strings(&["D", "E"]), strings(&["F"]), Vec::<String>::new()]);
    assert_eq!(sent[1].parent.as_ref().unwrap().path(), strings(&["C"]));
    assert!(!crawler.is_terminated());
    assert_eq!(crawler.visited_count(), 4);
    assert_eq!(detravel_path(crawler), None);
}

#[test]
fn lock_is_tried_again_ten_times() {
    assert_eq!(MAX_TRIES, 10);
    assert!(may_retry(0));
    assert!(may_retry(9));
    assert!(!may_retry(10));
    assert!(!may_retry(255));
}

#[test]
fn failed_send_is_silent_only_after_the_end() {
    assert_eq!(after_send_failure(true), AfterSendFailure::Stop);
    assert_eq!(after_send_failure(false), AfterSendFailure::ReportAndGoOn);
}

#[test]
fn first_result_stays() {
    let mut crawler = Crawler::new("A", "GOAL");
    let first = Arc::new(ArticleNode::new("B", Some(Arc::new(ArticleNode::new("A", None)))));
    assert!(!crawler.has_result());
    crawler.mark_found(ArticleNode::new("GOAL", Some(first)));
    assert!(crawler.is_terminated());
    assert!(crawler.has_result());
    crawler.mark_found(ArticleNode::new("GOAL", Some(Arc::new(ArticleNode::new("Z", None)))));
    crawler.mark_exhausted();
    assert_eq!(detravel_path(crawler), Some(strings(&["A", "B", "GOAL"])));
}

#[test]
fn exhausted_crawl_has_no_path() {
    let mut crawler = Crawler::new("A", "GOAL");
    assert!(!crawler.is_terminated());
    crawler.mark_exhausted();
    assert!(crawler.is_terminated());
    assert!(!crawler.has_result());
    crawler.mark_found(ArticleNode::new("GOAL", None));
    assert_eq!(detravel_path(crawler), None);
}

#[test]
fn record_visited_is_true_only_for_new_titles() {
    let mut crawler = Crawler::new("A", "GOAL");
    assert_eq!(crawler.origin(), "A");
    assert_eq!(crawler.goal(), "GOAL");
    assert!(!crawler.record_visited(&"A".to_string()));
    assert!(crawler.record_visited(&"B".to_string()));
    assert!(!crawler.record_visited(&"B".to_string()));
    assert_eq!(crawler.visited_count(), 2);
    let shared = Crawler::new_arc("A", "GOAL");
    assert_eq!(shared.visited_count(), 1);
    assert_eq!(shared.goal(), "GOAL");
    assert!(!shared.is_terminated());
}
