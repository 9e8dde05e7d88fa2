use vstd::prelude::*;

verus! {

/// A rewrite directive: a list of match expressions (literal strings or
/// regular-expression patterns, tried in order) together with an optional
/// replacement for the scalar field and an optional replacement list for the
/// plural field. Both, either, or neither replacement may be set; a rule with
/// neither has no effect even when it matches.
#[derive(Debug)]
pub struct Rewrite {
    pub expressions: Vec<String>,
    pub single: Option<String>,
    pub multi: Option<Vec<String>>,
}

/// All rules that a run applies: one ordered list for the artist field and one
/// for the album-artist field. Loaded once per invocation and immutable for
/// the duration of the run.
#[derive(Debug)]
pub struct Config {
    pub artist_rewrites: Vec<Rewrite>,
    pub albumartist_rewrites: Vec<Rewrite>,
}

impl Default for Config {
    /// A configuration with no rules at all.
    fn default() -> (c: Config)
        ensures
            c.artist_rewrites@.len() == 0,
            c.albumartist_rewrites@.len() == 0,
    {
        Config { artist_rewrites: Vec::new(), albumartist_rewrites: Vec::new() }
    }
}

impl Default for Rewrite {
    /// A rule with no expressions and no replacements.
    fn default() -> (r: Rewrite)
        ensures
            r.expressions@.len() == 0,
            r.single is None,
            r.multi is None,
    {
        Rewrite { expressions: Vec::new(), single: None, multi: None }
    }
}

} // verus!
