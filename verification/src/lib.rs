//! The back end of a small imperative language: from a parsed program to
//! the instructions of a stack machine.

use vstd::prelude::*;
use crate::text::{remove_all, without};

pub mod ast;
pub mod error;
pub mod parser;
pub mod text;
pub mod translator;
pub mod vit;

verus! {

/// Where the source is read from and where the instructions go.
pub struct Config {
    pub file_name: String,
    pub target_name: String,
}

/// The target where the command line names none: the source's name
/// without `.vit`.
pub open spec fn default_target(file_name: Seq<char>) -> Seq<char> {
    without(file_name, ".vit"@)
}

impl Config {
    /// Reads the command line: the program's own name, the source, and
    /// optionally the target.
    pub fn build(args: Vec<String>) -> (r: Result<Config, &'static str>)
        ensures
            match r {
                Ok(config) => {
                    &&& args.len() >= 2
                    &&& config.file_name@ == args[1]@
                    &&& config.target_name@ == if args.len() >= 3 {
                        args[2]@
                    } else {
                        default_target(args[1]@)
                    }
                },
                Err(message) => args.len() < 2 && message@ == "No input file name given."@,
            },
    {
        if args.len() < 2 {
            return Err("No input file name given.");
        }
        let file_name: String = args[1].clone();
        let target_name: String = if args.len() >= 3 {
            args[2].clone()
        } else {
            remove_all(file_name.as_str(), ".vit")
        };
        Ok(Config { file_name, target_name })
    }
}

} // verus!
