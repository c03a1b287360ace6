//! Breadth-first search for a chain of links between two encyclopedia
//! articles.
//!
//! The crate holds the crawl's logic as sequential, verified code: the
//! record of visited titles, the pager that cuts a link list into
//! request-sized batches, the worker that turns one fetch result into tree
//! nodes and new batches, the scheduler's decisions, and the walk back from
//! the goal to the origin. Fetching, prompting, and threads belong to the
//! caller.

pub mod configs;
pub mod crawler;
pub mod graph;
pub mod json;
pub mod node;
pub mod number;
pub mod pager;
pub mod progress;
pub mod scheduler;
pub mod search;
pub mod text;
pub mod user_interface;
pub mod visited;
pub mod wiki_api;
pub mod worker;

