use vstd::prelude::*;

verus! {

/// One track of an album, as the external manager lays it out for editing.
///
/// `albumartists` and `artists` hold several values joined into one string by
/// the manager's fixed delimiter sequence; see `crate::rewrite::multi_delim`.
#[derive(Debug)]
pub struct Track {
    pub album: String,
    pub albumartist: String,
    pub albumartists: String,
    pub artist: String,
    pub artists: String,
    pub id: usize,
    pub title: String,
    pub track: usize,
}

/// One album, as the external manager lays it out for editing.
#[derive(Debug)]
pub struct Album {
    pub album: String,
    pub albumartist: String,
    pub id: usize,
}

} // verus!
