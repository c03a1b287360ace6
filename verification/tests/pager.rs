use eddie_crawler::crawler::Crawler;
use eddie_crawler::pager::paginate_links;
use eddie_crawler::pager::MAX_CHARS;
use eddie_crawler::pager::MAX_LINKS;

fn strings(items: &[&str]) -> Vec<String> {
    items.iter().map(|s| s.to_string()).collect()
}

fn numbered(count: usize, width: usize) -> Vec<String> {
    (0..count).map(|i| format!("{:0width$}", i, width = width)).collect()
}

#[test]
fn empty_input_yields_one_empty_batch() {
    let mut crawler = Crawler::new("A", "Z");
    let batches = paginate_links(&Vec::new(), &mut crawler);
    assert_eq!(batches, vec![Vec::<String>::new()]);
    assert_eq!(crawler.visited_count(), 1);
}

#[test]
fn visited_titles_are_skipped() {
    let mut crawler = Crawler::new("A", "Z");
    let batches = paginate_links(&strings(&["B", "A", "C", "B"]), &mut crawler);
    assert_eq!(batches, vec![strings(&["B", "C"])]);
    assert_eq!(crawler.visited_count(), 3);
    let again = paginate_links(&strings(&["C", "D"]), &mut crawler);
    assert_eq!(again, vec![strings(&["D"])]);
    assert_eq!(crawler.visited_count(), 4);
    let nothing = paginate_links(&strings(&["A", "B", "C", "D"]), &mut crawler);
    assert_eq!(nothing, vec![Vec::<String>::new()]);
    assert_eq!(crawler.visited_count(), 4);
}

#[test]
fn budget_constants() {
    assert_eq!(MAX_CHARS, 1875);
    assert_eq!(MAX_LINKS, 50);
}

#[test]
fn a_batch_holds_fifty_titles_at_most() {
    let mut crawler = Crawler::new("A", "Z");
    let links = numbered(120, 3);
    let batches = paginate_links(&links, &mut crawler);
    let sizes: Vec<usize> = batches.iter().map(|batch| batch.len()).collect();
    assert_eq!(sizes, vec![50, 50, 20]);
    assert_eq!(batches.concat(), links);
    assert_eq!(crawler.visited_count(), 121);
}

#[test]
fn a_batch_stays_within_the_byte_budget() {
    let mut crawler = Crawler::new("A", "Z");
    // 100 bytes a title: 18 of them with their separators take 1818 bytes in
    // the first batch, and a nineteenth would take it to 1919.
    let links = numbered(40, 100);
    let batches = paginate_links(&links, &mut crawler);
    let sizes: Vec<usize> = batches.iter().map(|batch| batch.len()).collect();
    assert_eq!(sizes, vec![18, 18, 4]);
    for batch in &batches {
        assert!(batch.join("|").len() <= MAX_CHARS);
    }
    assert_eq!(batches.concat(), links);
}

#[test]
fn later_batches_do_not_pay_for_a_leading_separator() {
    let mut crawler = Crawler::new("A", "Z");
    // 468 bytes a title. In the first batch each title pays for a
    // separator, so that four would take 1876 bytes: it holds three. A later
    // batch pays none for its first title, so that four take 1875 bytes and
    // fit.
    let links = numbered(10, 468);
    let batches = paginate_links(&links, &mut crawler);
    let sizes: Vec<usize> = batches.iter().map(|batch| batch.len()).collect();
    assert_eq!(sizes, vec![3, 4, 3]);
    assert_eq!(batches[1].join("|").len(), MAX_CHARS);
}

#[test]
fn bytes_count_not_characters() {
    let mut crawler = Crawler::new("A", "Z");
    // Each title is 200 characters of two bytes each.
    let links: Vec<String> = (0..6).map(|i| format!("{}{}", "é".repeat(199), i)).collect();
    assert_eq!(links[0].len(), 399);
    let batches = paginate_links(&links, &mut crawler);
    let sizes: Vec<usize> = batches.iter().map(|batch| batch.len()).collect();
    assert_eq!(sizes, vec![4, 2]);
}

#[test]
fn a_title_longer_than_the_budget_stands_alone() {
    let mut crawler = Crawler::new("A", "Z");
    let long = "x".repeat(3000);
    let links = vec!["B".to_string(), long.clone(), "C".to_string(), "D".to_string()];
    let batches = paginate_links(&links, &mut crawler);
    assert_eq!(batches, vec![strings(&["B"]), vec![long.clone()], strings(&["C", "D"])]);
    let mut other = Crawler::new("A", "Z");
    let batches = paginate_links(&vec![long.clone(), "B".to_string()], &mut other);
    assert_eq!(batches, vec![Vec::<String>::new(), vec![long], strings(&["B"])]);
}

#[test]
fn a_title_of_exactly_the_budget_fills_a_later_batch() {
    let mut crawler = Crawler::new("A", "Z");
    let full = "y".repeat(MAX_CHARS);
    let batches = paginate_links(&vec![full.clone(), "B".to_string()], &mut crawler);
    assert_eq!(batches, vec![Vec::<String>::new(), vec![full], strings(&["B"])]);
    let mut other = Crawler::new("A", "Z");
    let nearly = "y".repeat(MAX_CHARS - 1);
    let batches = paginate_links(&vec![nearly.clone(), "B".to_string()], &mut other);
    assert_eq!(batches, vec![vec![nearly], strings(&["B"])]);
}
