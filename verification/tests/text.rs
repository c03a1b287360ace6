use eddie_crawler::number::decimal;
use eddie_crawler::number::parse_u8;
use eddie_crawler::text::byte_length;
use eddie_crawler::text::find_char;
use eddie_crawler::text::join;
use eddie_crawler::text::strip_quotes;
use eddie_crawler::text::trim;

fn strings(items: &[&str]) -> Vec<String> {
    items.iter().map(|s| s.to_string()).collect()
}

#[test]
fn strip_quotes_removes_first_and_last_character() {
    assert_eq!(strip_quotes("\"Rust\""), "Rust");
    assert_eq!(strip_quotes("abc"), "b");
    assert_eq!(strip_quotes("ab"), "");
    assert_eq!(strip_quotes("a"), "");
    assert_eq!(strip_quotes(""), "");
    assert_eq!(strip_quotes("\"Ångström é\""), "Ångström é");
    assert_eq!(strip_quotes("éaé"), "a");
    assert_eq!(strip_quotes("null"), "ul");
}

#[test]
fn join_puts_the_separator_between_neighbours() {
    assert_eq!(join(&strings(&["A", "B", "C"]), "|"), "A|B|C");
    assert_eq!(join(&strings(&["A", "B", "C"]), " -> "), "A -> B -> C");
    assert_eq!(join(&strings(&["A"]), "|"), "A");
    assert_eq!(join(&Vec::new(), "|"), "");
    assert_eq!(join(&strings(&["", "", ""]), "|"), "||");
    assert_eq!(join(&strings(&["A", "B"]), ""), "AB");
}

#[test]
fn byte_length_counts_bytes() {
    assert_eq!(byte_length(""), 0);
    assert_eq!(byte_length("abc"), 3);
    assert_eq!(byte_length("é"), 2);
    assert_eq!(byte_length("日本語"), 9);
    assert_eq!(byte_length("a😀"), 5);
}

#[test]
fn trim_agrees_with_the_standard_library() {
    for text in [
        "",
        " ",
        "  \t\n",
        "abc",
        "  abc",
        "abc  ",
        " a b c ",
        "\n\tpass word\r\n",
        "\u{a0}x\u{2003}",
        "\u{3000}é\u{85}",
        "x\u{200b}",
        " \u{1680}\u{2028}y z\u{2029}\u{202f}\u{205f} ",
    ] {
        assert_eq!(trim(text), text.trim());
    }
}

#[test]
fn find_char_gives_the_first_place_or_the_length() {
    assert_eq!(find_char("a\nb\nc", '\n', 0), 1);
    assert_eq!(find_char("a\nb\nc", '\n', 1), 1);
    assert_eq!(find_char("a\nb\nc", '\n', 2), 3);
    assert_eq!(find_char("a\nb\nc", '\n', 4), 5);
    assert_eq!(find_char("é\n", '\n', 0), 1);
    assert_eq!(find_char("", 'x', 0), 0);
}

#[test]
fn parse_u8_agrees_with_the_standard_library() {
    let mut texts: Vec<String> = Vec::new();
    for number in 0..1200 {
        texts.push(number.to_string());
        texts.push(format!("+{}", number));
        texts.push(format!("-{}", number));
        texts.push(format!("00{}", number));
        texts.push(format!("{} ", number));
        texts.push(format!(" {}", number));
        texts.push(format!("{}x", number));
    }
    for text in [
        "", "+", "-", "++1", "+-1", "1+", "0x10", "1_0", "١٢", "1.0", "1e2", "٣", "²",
        "000000000000000000000000000000255", "000000000000000000000000000000256",
        "99999999999999999999999999999999999999", "+0", "+000", "2 5", "a", "two",
    ] {
        texts.push(text.to_string());
    }
    for text in &texts {
        assert_eq!(parse_u8(text), text.parse::<u8>().ok(), "for {:?}", text);
    }
    assert_eq!(parse_u8("255"), Some(255));
    assert_eq!(parse_u8("256"), None);
    assert_eq!(parse_u8("+7"), Some(7));
}

#[test]
fn decimal_agrees_with_the_standard_library() {
    for number in (0..2000).chain([9_999, 10_000, 65_535, 1_000_000, 4_294_967_295, usize::MAX]) {
        assert_eq!(decimal(number), number.to_string());
    }
    assert_eq!(decimal(0), "0");
    assert_eq!(decimal(120), "120");
}
