use eddie_crawler::wiki_api::get_links;
use eddie_crawler::wiki_api::put_page;
use eddie_crawler::wiki_api::search_results;
use eddie_crawler::wiki_api::title_of;
use eddie_crawler::wiki_api::titles_from;
use eddie_crawler::wiki_api::SearchOutcome;

fn strings(items: &[&str]) -> Vec<String> {
    items.iter().map(|s| s.to_string()).collect()
}

fn parse(text: &str) -> serde_json::Value {
    serde_json::from_str(text).unwrap()
}

#[test]
fn title_is_read_without_its_quotes() {
    assert_eq!(title_of(&parse(r#"{"ns":0,"title":"Rust (language)"}"#)), "Rust (language)");
    assert_eq!(title_of(&parse(r#"{"title":""}"#)), "");
    assert_eq!(title_of(&parse(r#"{"title":"Ål"}"#)), "Ål");
}

#[test]
fn title_keeps_the_escapes_of_its_json_text() {
    assert_eq!(title_of(&parse(r#"{"title":"a \"b\" c"}"#)), r#"a \"b\" c"#);
    assert_eq!(title_of(&parse(r#"{"title":"back\\slash"}"#)), r#"back\\slash"#);
}

#[test]
fn title_that_is_no_string_loses_first_and_last_character() {
    assert_eq!(title_of(&parse(r#"{"ns":0}"#)), "ul");
    assert_eq!(title_of(&parse(r#"{"title":12345}"#)), "234");
    assert_eq!(title_of(&parse(r#"{"title":7}"#)), "");
    assert_eq!(title_of(&parse(r#"[1,2]"#)), "ul");
    assert_eq!(title_of(&parse(r#"{"title":["x"]}"#)), r#""x""#);
}

#[test]
fn titles_come_in_the_order_of_the_array() {
    let items = parse(r#"[{"title":"B"},{"title":"A"},{"title":"B"}]"#);
    assert_eq!(titles_from(items.as_array().unwrap()), strings(&["B", "A", "B"]));
    assert_eq!(titles_from(&Vec::new()), Vec::<String>::new());
}

#[test]
fn links_are_read_page_by_page() {
    let answer = parse(
        r#"{"batchcomplete":"","query":{"pages":{
            "11":{"pageid":11,"ns":0,"title":"A","links":[{"ns":0,"title":"B"},{"ns":0,"title":"C"}]},
            "12":{"pageid":12,"ns":0,"title":"B","links":[{"ns":0,"title":"D"}]},
            "13":{"pageid":13,"ns":0,"title":"Lonely"},
            "14":{"pageid":14,"ns":0,"title":"E","links":[]}
        }}}"#,
    );
    let links = get_links(&answer, "A|B|Lonely|E").unwrap();
    assert_eq!(
        links,
        vec![
            ("A".to_string(), strings(&["B", "C"])),
            ("B".to_string(), strings(&["D"])),
            ("E".to_string(), Vec::new()),
        ]
    );
}

#[test]
fn of_two_pages_with_one_title_the_later_counts() {
    let answer = parse(
        r#"{"query":{"pages":{
            "1":{"title":"A","links":[{"title":"B"}]},
            "2":{"title":"C","links":[{"title":"D"}]},
            "3":{"title":"A","links":[{"title":"E"}]}
        }}}"#,
    );
    let links = get_links(&answer, "A|C").unwrap();
    assert_eq!(
        links,
        vec![("A".to_string(), strings(&["E"])), ("C".to_string(), strings(&["D"]))]
    );
}

#[test]
fn answer_without_pages_is_an_error_that_names_the_request() {
    let expected = "Error while fetching link data with the article collection 'A|B'\n";
    for text in [
        r#"{}"#,
        r#"{"query":{}}"#,
        r#"{"query":[1]}"#,
        r#"{"query":{"pages":[]}}"#,
        r#"{"query":{"pages":"none"}}"#,
        r#"{"error":{"code":"x"}}"#,
        r#"null"#,
    ] {
        assert_eq!(get_links(&parse(text), "A|B"), Err(expected.to_string()));
    }
    assert_eq!(get_links(&parse(r#"{"query":{"pages":{}}}"#), "A"), Ok(Vec::new()));
}

#[test]
fn put_page_replaces_or_appends() {
    let mut pairs = vec![("A".to_string(), strings(&["B"])), ("C".to_string(), strings(&["D"]))];
    put_page(&mut pairs, "C".to_string(), strings(&["X", "Y"]));
    put_page(&mut pairs, "E".to_string(), Vec::new());
    assert_eq!(
        pairs,
        vec![
            ("A".to_string(), strings(&["B"])),
            ("C".to_string(), strings(&["X", "Y"])),
            ("E".to_string(), Vec::new()),
        ]
    );
}

#[test]
fn search_results_are_read_in_order() {
    let answer = parse(
        r#"{"query":{"searchinfo":{"totalhits":2},"search":[
            {"ns":0,"title":"Rust","pageid":1},
            {"ns":0,"title":"Rust (video game)","pageid":2}
        ]}}"#,
    );
    match search_results(&answer) {
        SearchOutcome::Found(titles) => assert_eq!(titles, strings(&["Rust", "Rust (video game)"])),
        _ => panic!("expected titles"),
    }
    match search_results(&parse(r#"{"query":{"search":[]}}"#)) {
        SearchOutcome::Found(titles) => assert!(titles.is_empty()),
        _ => panic!("expected an empty list"),
    }
}

#[test]
fn search_answer_without_results() {
    assert!(matches!(search_results(&parse(r#"{}"#)), SearchOutcome::NoSearch));
    assert!(matches!(search_results(&parse(r#"{"query":{}}"#)), SearchOutcome::NoSearch));
    assert!(matches!(search_results(&parse(r#"{"query":"x"}"#)), SearchOutcome::NoSearch));
    assert!(matches!(
        search_results(&parse(r#"{"query":{"search":{"a":1}}}"#)),
        SearchOutcome::NotAList
    ));
    assert!(matches!(
        search_results(&parse(r#"{"query":{"search":null}}"#)),
        SearchOutcome::NotAList
    ));
}
