//! Argument handling for the search-and-replace tool.

use vstd::prelude::*;

verus! {

/// The four arguments of a replacement run: what to look for, what to
/// put in its place, and the input and output file names.
#[derive(Debug)]
pub struct Arguments {
    pub target: String,
    pub replacement: String,
    pub filename: String,
    pub output: String,
}

impl Arguments {
    /// Reads the four arguments out of an argument list, in order;
    /// fewer than four is a usage error.
    pub fn from_args(args: &Vec<String>) -> (r: Option<Arguments>)
        ensures
            r is Some <==> args@.len() >= 4,
            r matches Some(a) ==> {
                &&& a.target == args@[0]
                &&& a.replacement == args@[1]
                &&& a.filename == args@[2]
                &&& a.output == args@[3]
            },
    {
        if args.len() < 4 {
            return None;
        }
        Some(
            Arguments {
                target: args[0].clone(),
                replacement: args[1].clone(),
                filename: args[2].clone(),
                output: args[3].clone(),
            },
        )
    }
}

} // verus!
