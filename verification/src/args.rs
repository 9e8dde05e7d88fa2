use vstd::prelude::*;

verus! {

/// What the tool is asked to do. The edit forms are the ones the external
/// manager invokes through its editor setting, handing over the path of the
/// temporary file that holds the multi-document stream.
#[derive(Debug)]
pub enum SubCommand {
    /// Scan the working directory and drive the external manager on every
    /// entry whose name matches an album-artist rule.
    Run,
    /// Rewrite a file of track documents in place.
    EditTracks { path: String },
    /// Rewrite a file of album documents in place.
    EditAlbum { path: String },
}

/// The command line: a verbosity count and the chosen subcommand.
#[derive(Debug)]
pub struct CliArguments {
    pub verbose: u8,
    pub cmd: SubCommand,
}

} // verus!
