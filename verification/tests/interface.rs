use eddie_crawler::configs::Config;
use eddie_crawler::configs::DEFAULT_API_PATH;
use eddie_crawler::progress::closing_line;
use eddie_crawler::progress::display_process;
use eddie_crawler::wiki_api::disambiguation_prompt;
use eddie_crawler::wiki_api::links_query;
use eddie_crawler::wiki_api::pick_article;
use eddie_crawler::wiki_api::resolve;
use eddie_crawler::wiki_api::search_query;
use eddie_crawler::wiki_api::validate_article;
use eddie_crawler::wiki_api::Choice;
use eddie_crawler::wiki_api::Miss;
use eddie_crawler::wiki_api::Resolution;
use eddie_crawler::wiki_api::SearchOutcome;
use eddie_crawler::search::start;
use eddie_crawler::user_interface::crawl;
use eddie_crawler::user_interface::get_user_input;
use eddie_crawler::user_interface::menu_choice;
use eddie_crawler::user_interface::pretty_print_path;
use eddie_crawler::user_interface::BotLoginData;
use eddie_crawler::user_interface::MenuChoice;
use eddie_crawler::user_interface::SECRETS;

fn strings(items: &[&str]) -> Vec<String> {
    items.iter().map(|s| s.to_string()).collect()
}

fn pairs(items: &[(&str, &str)]) -> Vec<(String, String)> {
    items.iter().map(|(name, value)| (name.to_string(), value.to_string())).collect()
}

#[test]
fn path_is_shown_with_arrows() {
    assert_eq!(pretty_print_path(&strings(&["A", "B", "C"])), "A -> B -> C");
    assert_eq!(pretty_print_path(&strings(&["A", "GOAL"])), "A -> GOAL");
    assert_eq!(pretty_print_path(&strings(&["A"])), "A");
    assert_eq!(pretty_print_path(&Vec::new()), "");
}

#[test]
fn menu_offers_exit_and_crawl() {
    assert_eq!(menu_choice("0"), MenuChoice::Exit);
    assert_eq!(menu_choice("1"), MenuChoice::Crawl);
    assert_eq!(menu_choice("+1"), MenuChoice::Crawl);
    assert_eq!(menu_choice("01"), MenuChoice::Crawl);
    assert_eq!(menu_choice("2"), MenuChoice::Invalid);
    assert_eq!(menu_choice("255"), MenuChoice::Invalid);
    assert_eq!(menu_choice("256"), MenuChoice::Invalid);
    assert_eq!(menu_choice(""), MenuChoice::Invalid);
    assert_eq!(menu_choice("one"), MenuChoice::Invalid);
    assert_eq!(menu_choice(" 1"), MenuChoice::Invalid);
    assert_eq!(menu_choice("-1"), MenuChoice::Invalid);
}

#[test]
fn user_input_loses_the_white_space_around_it() {
    assert_eq!(get_user_input("Rust (language)\n"), "Rust (language)");
    assert_eq!(get_user_input("  1 \r\n"), "1");
    assert_eq!(get_user_input("\n"), "");
    assert_eq!(get_user_input(""), "");
}

#[test]
fn login_data_is_the_first_two_lines() {
    assert_eq!(SECRETS, "./secrets.txt");
    assert_eq!(
        BotLoginData::get_login_from_file("Bot@crawler\nopen sesame\n"),
        Some(BotLoginData {
            username: "Bot@crawler".to_string(),
            password: "open sesame".to_string(),
        })
    );
    assert_eq!(
        BotLoginData::get_login_from_file("  name \r\n\tpass word\t\r\nmore\nlines"),
        Some(BotLoginData { username: "name".to_string(), password: "pass word".to_string() })
    );
    assert_eq!(
        BotLoginData::get_login_from_file("name\n"),
        Some(BotLoginData { username: "name".to_string(), password: String::new() })
    );
    assert_eq!(
        BotLoginData::get_login_from_file("\n"),
        Some(BotLoginData { username: String::new(), password: String::new() })
    );
}

#[test]
fn login_data_needs_a_second_line() {
    assert_eq!(BotLoginData::get_login_from_file(""), None);
    assert_eq!(BotLoginData::get_login_from_file("only a name"), None);
}

#[test]
fn login_data_agrees_with_splitting_at_line_breaks() {
    for contents in ["a\nb", "a\nb\nc", " a \n b \n", "é\n\n", "\n\n\n", "x", "", "u\r\np\r\n"] {
        let rows: Vec<&str> = contents.split("\n").collect();
        let expected = if rows.len() >= 2 {
            Some(BotLoginData {
                username: rows[0].trim().to_string(),
                password: rows[1].trim().to_string(),
            })
        } else {
            None
        };
        assert_eq!(BotLoginData::get_login_from_file(contents), expected);
    }
}

#[test]
fn config_takes_the_second_argument() {
    assert_eq!(DEFAULT_API_PATH, "https://en.wikipedia.org/w/api.php");
    assert_eq!(Config::new(&strings(&["prog"])).api_path, DEFAULT_API_PATH);
    assert_eq!(Config::new(&Vec::new()).api_path, DEFAULT_API_PATH);
    assert_eq!(
        Config::new(&strings(&["prog", "https://example.org/api.php", "x"])).api_path,
        "https://example.org/api.php"
    );
}

#[test]
fn identical_endpoints_are_rejected() {
    assert!(crawl("A", "A").is_none());
    let crawler = crawl("A", "B").unwrap();
    assert_eq!(crawler.origin(), "A");
    assert_eq!(crawler.goal(), "B");
    assert_eq!(crawler.visited_count(), 1);
    assert_eq!(start(crawler, &vec![("A".to_string(), strings(&["B"]))]), Some(strings(&["A", "B"])));
}

#[test]
fn queries_name_their_parameters() {
    assert_eq!(
        search_query("Rust"),
        pairs(&[
            ("action", "query"),
            ("format", "json"),
            ("list", "search"),
            ("srsearch", "Rust"),
            ("srnamespace", "0"),
            ("srlimit", "5"),
        ])
    );
    assert_eq!(
        links_query("A|B"),
        pairs(&[
            ("action", "query"),
            ("format", "json"),
            ("titles", "A|B"),
            ("prop", "links"),
            ("pllimit", "max"),
            ("plnamespace", "0"),
        ])
    );
}

#[test]
fn exact_best_match_resolves_the_name() {
    let found = SearchOutcome::Found(strings(&["Rust", "Rust (video game)"]));
    assert_eq!(resolve("Rust", found), Resolution::Resolved("Rust".to_string()));
}

#[test]
fn other_matches_ask_for_a_choice() {
    let found = SearchOutcome::Found(strings(&["Rust (language)", "Rust"]));
    assert_eq!(
        resolve("Rust", found),
        Resolution::Disambiguation(strings(&["Rust (language)", "Rust"]))
    );
    let found = SearchOutcome::Found(strings(&["rust"]));
    assert_eq!(resolve("Rust", found), Resolution::Disambiguation(strings(&["rust"])));
}

#[test]
fn no_matches_resolve_to_nothing() {
    assert_eq!(resolve("Rust", SearchOutcome::Found(Vec::new())), Resolution::NotFound(Miss::NoTitles));
    assert_eq!(resolve("Rust", SearchOutcome::NoSearch), Resolution::NotFound(Miss::NoSearch));
    assert_eq!(resolve("Rust", SearchOutcome::NotAList), Resolution::NotFound(Miss::NotAList));
}

#[test]
fn search_answer_is_resolved() {
    let answer: serde_json::Value = serde_json::from_str(
        r#"{"query":{"search":[{"title":"Ferris wheel"},{"title":"Ferris"}]}}"#,
    )
    .unwrap();
    assert_eq!(
        validate_article("Ferris wheel", &answer),
        Resolution::Resolved("Ferris wheel".to_string())
    );
    assert_eq!(
        validate_article("Ferris", &answer),
        Resolution::Disambiguation(strings(&["Ferris wheel", "Ferris"]))
    );
    let empty: serde_json::Value = serde_json::from_str(r#"{"query":{"search":[]}}"#).unwrap();
    assert_eq!(validate_article("Ferris", &empty), Resolution::NotFound(Miss::NoTitles));
    let none: serde_json::Value = serde_json::from_str(r#"{"batchcomplete":""}"#).unwrap();
    assert_eq!(validate_article("Ferris", &none), Resolution::NotFound(Miss::NoSearch));
}

#[test]
fn prompt_numbers_the_candidates_from_one() {
    let prompt = disambiguation_prompt("Rsut", &strings(&["Rust", "Rust (video game)"]));
    assert_eq!(
        prompt,
        "\nDidn't find an article matching exact string 'Rsut', did you mean one of these \
         articles:\n1: Rust\n2: Rust (video game)\n0: None of the above.\nPlease input a \
         number representing your intent: "
    );
    let many: Vec<String> = (0..12).map(|i| format!("T{}", i)).collect();
    let prompt = disambiguation_prompt("x", &many);
    assert!(prompt.contains("\n9: T8\n10: T9\n11: T10\n12: T11\n0: None of the above."));
    assert_eq!(
        disambiguation_prompt("x", &Vec::new()),
        "\nDidn't find an article matching exact string 'x', did you mean one of these \
         articles:\n0: None of the above.\nPlease input a number representing your intent: "
    );
}

#[test]
fn pick_reads_a_number() {
    let candidates = strings(&["A", "B", "C"]);
    assert_eq!(pick_article("0", &candidates), Choice::Cancelled);
    assert_eq!(pick_article("1", &candidates), Choice::Picked("A".to_string()));
    assert_eq!(pick_article("3", &candidates), Choice::Picked("C".to_string()));
    assert_eq!(pick_article("+2", &candidates), Choice::Picked("B".to_string()));
    assert_eq!(pick_article("4", &candidates), Choice::OutOfRange);
    assert_eq!(pick_article("255", &candidates), Choice::OutOfRange);
    assert_eq!(pick_article("256", &candidates), Choice::NotANumber);
    assert_eq!(pick_article("", &candidates), Choice::NotANumber);
    assert_eq!(pick_article("A", &candidates), Choice::NotANumber);
    assert_eq!(pick_article("-1", &candidates), Choice::NotANumber);
    assert_eq!(pick_article("1", &Vec::new()), Choice::OutOfRange);
}

#[test]
fn progress_frames_add_a_dot_each() {
    let frames = display_process(1234);
    assert_eq!(frames.len(), 3);
    assert_eq!(frames[0].line, "\rCrawling, analyzed 1234 articles.  ");
    assert_eq!(frames[1].line, "\rCrawling, analyzed 1234 articles.. ");
    assert_eq!(frames[2].line, "\rCrawling, analyzed 1234 articles...");
    let pauses: Vec<u64> = frames.iter().map(|frame| frame.pause_ms).collect();
    assert_eq!(pauses, vec![600, 600, 800]);
    assert_eq!(display_process(0)[0].line, "\rCrawling, analyzed 0 articles.  ");
}

#[test]
fn display_closes_when_the_crawl_is_over() {
    assert_eq!(closing_line(false, false), None);
    assert_eq!(closing_line(false, true), None);
    assert_eq!(
        closing_line(true, true),
        Some("\nArticle found! Tidying up some threads. This may take time...")
    );
    assert_eq!(
        closing_line(true, false),
        Some("\nNo articles left to look at. Tidying up some threads. This may take time...")
    );
}
