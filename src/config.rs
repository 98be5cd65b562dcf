//! What a run of the search is asked to do.
use vstd::prelude::*;

verus! {

/// A query, the file to search, and whether case counts.
pub struct Config {
    pub query: String,
    pub filename: String,
    pub case_sensitive: bool,
}

impl Config {
    /// Builds a configuration from the program's arguments, the first of
    /// which is the program's own name, and from whether case-insensitive
    /// search was asked for. The second argument is the query, the third the
    /// file name; any further ones are ignored.
    pub fn new(args: &Vec<String>, case_insensitive: bool) -> (r: Result<Config, &'static str>)
        ensures
            match r {
                Ok(c) => {
                    &&& args.len() >= 3
                    &&& c.query@ == args[1]@
                    &&& c.filename@ == args[2]@
                    &&& c.case_sensitive == !case_insensitive
                },
                Err(e) => {
                    ||| (args.len() < 2 && e@ == "Didn't get a query string"@)
                    ||| (args.len() == 2 && e@ == "Didn't get a file name"@)
                },
            },
    {
        if args.len() < 2 {
            return Err("Didn't get a query string");
        }
        if args.len() < 3 {
            return Err("Didn't get a file name");
        }
        let query = args[1].clone();
        let filename = args[2].clone();
        Ok(Config { query, filename, case_sensitive: !case_insensitive })
    }
}

} // verus!
