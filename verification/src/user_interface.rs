//! What the command line makes of the text it reads, and the text it
//! writes.

use crate::crawler::Crawler;
use crate::number::parse_u8;
use crate::number::parsed_u8;
use crate::text::find_char;
use crate::text::index_of;
use crate::text::join;
use crate::text::joined;
use crate::text::titles_of;
use crate::text::trim;
use crate::text::trimmed;
use vstd::prelude::*;
use vstd::string::StrSliceExecFns;
use vstd::string::StringExecFns;

verus! {

/// The file that holds the bot account's name and password.
pub const SECRETS: &'static str = "./secrets.txt";

/// The name and the password of the bot account that the crawler logs in
/// with.
#[derive(PartialEq, Debug)]
pub struct BotLoginData {
    pub username: String,
    pub password: String,
}

/// What the user has chosen from the main menu.
#[derive(Clone, Copy, Debug, PartialEq, Eq)]
pub enum MenuChoice {
    /// Leave the program.
    Exit,
    /// Start a new crawl.
    Crawl,
    /// Anything that the menu does not offer.
    Invalid,
}

/// What the answer `input` chooses from the main menu: zero leaves, one
/// starts a crawl.
pub open spec fn menu_choice_of(input: Seq<char>) -> MenuChoice {
    match parsed_u8(input) {
        Some(number) => if number == 0 {
            MenuChoice::Exit
        } else if number == 1 {
            MenuChoice::Crawl
        } else {
            MenuChoice::Invalid
        },
        None => MenuChoice::Invalid,
    }
}

/// The first line of `text`, without the line break.
pub open spec fn first_line(text: Seq<char>) -> Seq<char> {
    text.take(index_of(text, '\n'))
}

/// What follows the first line break of `text`.
pub open spec fn after_first_line(text: Seq<char>) -> Seq<char> {
    text.skip(index_of(text, '\n') + 1)
}

/// The name and the password that the contents of a secrets file give: the
/// first line and the second, each without the white space around it. A
/// text without a line break has no second line, and gives nothing.
pub open spec fn login_in(contents: Seq<char>) -> Option<(Seq<char>, Seq<char>)> {
    if index_of(contents, '\n') < contents.len() {
        Some((trimmed(first_line(contents)), trimmed(first_line(after_first_line(contents)))))
    } else {
        None
    }
}

impl BotLoginData {
    /// Reads the login data from the contents of the secrets file.
    pub fn get_login_from_file(file_contents: &str) -> (login: Option<BotLoginData>)
        ensures
            match login {
                None => login_in(file_contents@) is None,
                Some(data) => login_in(file_contents@) == Some((data.username@, data.password@)),
            },
    {
        let length = file_contents.unicode_len();
        let first_end = find_char(file_contents, '\n', 0);
        assert(file_contents@.skip(0) == file_contents@);
        if first_end == length {
            return None;
        }
        let second_end = find_char(file_contents, '\n', first_end + 1);
        let first = file_contents.substring_char(0, first_end);
        let second = file_contents.substring_char(first_end + 1, second_end);
        proof {
            let rest = after_first_line(file_contents@);
            assert(first@ =~= first_line(file_contents@));
            assert(second@ =~= first_line(rest));
        }
        let username = trim(first).to_string();
        let password = trim(second).to_string();
        Some(BotLoginData { username, password })
    }
}

/// Reads the user's answer to the main menu.
pub fn menu_choice(input: &str) -> (chosen: MenuChoice)
    ensures
        chosen == menu_choice_of(input@),
{
    match parse_u8(input) {
        Some(0) => MenuChoice::Exit,
        Some(1) => MenuChoice::Crawl,
        _ => MenuChoice::Invalid,
    }
}

/// What the user has typed, given the line as it was read: the line
/// without the white space around it, which takes the line break off too.
pub fn get_user_input(line: &str) -> (input: String)
    ensures
        input@ == trimmed(line@),
{
    trim(line).to_string()
}

/// The line that shows `path`: its titles with an arrow between each two.
pub fn pretty_print_path(path: &Vec<String>) -> (line: String)
    ensures
        line@ == joined(titles_of(path@), " -> "@),
{
    join(path, " -> ")
}

/// A crawl between two articles, which must not be the same one.
pub fn crawl(origin: &str, goal: &str) -> (planned: Option<Crawler>)
    ensures
        match planned {
            None => origin@ == goal@,
            Some(crawler) => {
                &&& origin@ != goal@
                &&& crawler.wf()
                &&& crawler.fresh()
                &&& crawler.origin_title() == origin@
                &&& crawler.goal_title() == goal@
            },
        },
{
    if String::from_str(origin) == String::from_str(goal) {
        None
    } else {
        Some(Crawler::new(origin, goal))
    }
}

} // verus!
