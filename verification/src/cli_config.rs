//! Command-line configuration: the single positional argument naming
//! the input file.

use vstd::prelude::*;

verus! {

pub const USAGE: &'static str = "\nUsage:\n    bulbasaur csv_filename.csv\n";

pub struct CliConfig {
    pub filename: String,
}

impl CliConfig {
    /// Reads the configuration out of the argument list: the first
    /// real argument (after the program name) is the input file.
    pub fn new(args: &[String]) -> (r: Result<Self, &'static str>)
        ensures
            r is Ok <==> args@.len() >= 2,
            r is Ok ==> r->Ok_0.filename@ == args@[1]@,
            r is Err ==> r->Err_0@ == USAGE@,
    {
        if args.len() < 2 {
            return Err(USAGE);
        }

        let filename = args[1].clone();

        Ok(CliConfig { filename })
    }
}

} // verus!
