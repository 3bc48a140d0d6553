//! Sort options for song listings.

use vstd::prelude::*;

verus! {

/// Sort options for songs
#[derive(Debug, Clone, Copy, PartialEq, Eq, Structural)]
pub enum SongSortBy {
    Title,
    Number,
    ViewsDesc,
    FavoritesDesc,
    RecentlyAdded,
    HasChordsFirst,
    NoChordsFirst,
}

impl Default for SongSortBy {
    /// The default ordering is by title.
    fn default() -> (r: Self)
        ensures
            r == SongSortBy::Title,
    {
        SongSortBy::Title
    }
}

} // verus!
