//! The lines that keep the user company while a crawl runs.

use crate::number::decimal;
use crate::number::decimal_text;
use vstd::prelude::*;
use vstd::string::StringExecFns;

verus! {

/// How many frames one round of the display has.
pub const FRAMES: usize = 3;

/// One line of the display, and how long it stays before the next.
pub struct ProgressFrame {
    pub line: String,
    pub pause_ms: u64,
}

/// The dots that end the frame of that number.
pub open spec fn dots_of(frame: int) -> Seq<char> {
    if frame == 0 {
        ".  "@
    } else if frame == 1 {
        ".. "@
    } else {
        "..."@
    }
}

/// How long the frame of that number stays, in milliseconds.
pub open spec fn pause_of(frame: int) -> u64 {
    if frame == 2 {
        800
    } else {
        600
    }
}

/// The line of the frame of that number, for a crawl that has queued
/// `total` articles.
pub open spec fn line_of(total: nat, frame: int) -> Seq<char> {
    "\rCrawling, analyzed "@ + decimal_text(total) + " articles"@ + dots_of(frame)
}

/// The frames of one round of the display, for a crawl that has queued
/// `total_analysed` articles: the same count three times, with one dot
/// more each time.
pub fn display_process(total_analysed: usize) -> (frames: Vec<ProgressFrame>)
    ensures
        frames.len() == FRAMES,
        forall|i: int|
            0 <= i < FRAMES ==> (#[trigger] frames[i]).line@ == line_of(total_analysed as nat, i)
                && frames[i].pause_ms == pause_of(i),
{
    let count = decimal(total_analysed);
    let mut frames: Vec<ProgressFrame> = Vec::new();
    let mut i: usize = 0;
    while i < FRAMES
        invariant
            i <= FRAMES,
            frames.len() == i,
            count@ == decimal_text(total_analysed as nat),
            forall|j: int|
                0 <= j < i ==> (#[trigger] frames[j]).line@ == line_of(total_analysed as nat, j)
                    && frames[j].pause_ms == pause_of(j),
        decreases FRAMES - i,
    {
        let mut line = String::from_str("\rCrawling, analyzed ");
        line.append(count.as_str());
        line.append(" articles");
        if i == 0 {
            line.append(".  ");
        } else if i == 1 {
            line.append(".. ");
        } else {
            line.append("...");
        }
        let pause_ms: u64 = if i == 2 {
            800
        } else {
            600
        };
        frames.push(ProgressFrame { line, pause_ms });
        i = i + 1;
    }
    frames
}

/// What the display says last, or nothing where the round goes on. A
/// crawl that is over has either found its article or run out of articles.
pub fn closing_line(terminated: bool, found: bool) -> (line: Option<&'static str>)
    ensures
        match line {
            None => !terminated,
            Some(text) => terminated && text@ == if found {
                "\nArticle found! Tidying up some threads. This may take time..."@
            } else {
                "\nNo articles left to look at. Tidying up some threads. This may take time..."@
            },
        },
{
    if !terminated {
        None
    } else if found {
        Some("\nArticle found! Tidying up some threads. This may take time...")
    } else {
        Some("\nNo articles left to look at. Tidying up some threads. This may take time...")
    }
}

} // verus!
