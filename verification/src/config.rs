use vstd::prelude::*;

verus! {

/// One analysis run's settings, as plain values.  An unverified front end
/// (flag parsing, shell defaults) fills this in and hands it over.
pub struct Cli {
    /// Path of the repository to analyse.
    pub repo: String,
    /// Optional inclusive lower bound on commit dates, `YYYY-MM-DD`.
    pub since: Option<String>,
    /// Optional inclusive upper bound on commit dates, `YYYY-MM-DD`.
    pub until: Option<String>,
    /// Substring filters a path must match one of (when nonempty).
    pub includes: Vec<String>,
    /// Substring filters that always drop a path, overriding `includes`.
    pub excludes: Vec<String>,
    /// How many ranked entries to keep.
    pub top: usize,
    /// Emit JSON instead of a table.
    pub json: bool,
    /// Emit CSV instead of a table.
    pub csv: bool,
    /// Where to write the report, if anywhere.
    pub out: Option<String>,
}

impl Default for Cli {
    /// The defaults of the command line: the current directory, no window,
    /// no filters, the ten best-ranked files, table output to the terminal.
    fn default() -> (r: Cli)
        ensures
            r.repo@ == "."@,
            r.since is None,
            r.until is None,
            r.includes@.len() == 0,
            r.excludes@.len() == 0,
            r.top == 10,
            !r.json,
            !r.csv,
            r.out is None,
    {
        Cli {
            repo: String::from_str("."),
            since: None,
            until: None,
            includes: Vec::new(),
            excludes: Vec::new(),
            top: 10,
            json: false,
            csv: false,
            out: None,
        }
    }
}

} // verus!
