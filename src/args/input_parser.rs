//! Reading the archive path and the output directory from the command line.

use vstd::prelude::*;

verus! {

pub struct RunArguments {
    pub in_file: String,
    pub out_folder: String,
}

/// The message of a command line with fewer than two arguments.
pub const NOT_ENOUGH_PARAMS: &'static str = "Not enough actual parameters.";

/// The first two arguments after the program's name: the archive and the
/// output directory.
pub fn parse_args(args: &Vec<String>) -> (r: Result<RunArguments, &'static str>)
    ensures
        r is Ok <==> args@.len() > 2,
        r matches Ok(a) ==> a.in_file@ == args@[1]@ && a.out_folder@ == args@[2]@,
        r matches Err(e) ==> e@ == NOT_ENOUGH_PARAMS@,
{
    if args.len() < 3 {
        return Err(NOT_ENOUGH_PARAMS);
    }
    Ok(RunArguments { in_file: args[1].clone(), out_folder: args[2].clone() })
}

} // verus!
