//! Where the remote side is to be found.

use vstd::prelude::*;
use vstd::string::StringExecFns;

verus! {

/// The address that is used where none is given.
pub const DEFAULT_API_PATH: &'static str = "https://en.wikipedia.org/w/api.php";

/// The settings of the program.
pub struct Config {
    pub api_path: String,
}

impl Config {
    /// The settings that the command line `args` asks for. The first
    /// argument is the program's own name; the second, where there is one,
    /// is the address of the remote side.
    pub fn new(args: &Vec<String>) -> (config: Config)
        ensures
            config.api_path@ == if args.len() >= 2 {
                args[1]@
            } else {
                DEFAULT_API_PATH@
            },
    {
        if args.len() >= 2 {
            Config { api_path: args[1].clone() }
        } else {
            Config { api_path: String::from_str(DEFAULT_API_PATH) }
        }
    }
}

} // verus!
