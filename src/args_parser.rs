//! Reading the archive path from the command line.

use vstd::prelude::*;

verus! {

pub struct RunArguments {
    pub path: String,
}

/// The first argument after the program's name, if there is one.
pub fn parse_args(args: &Vec<String>) -> (r: Option<RunArguments>)
    ensures
        r is Some <==> args@.len() > 1,
        r matches Some(a) ==> a.path@ == args@[1]@,
{
    if args.len() > 1 {
        Some(RunArguments { path: args[1].clone() })
    } else {
        None
    }
}

} // verus!
