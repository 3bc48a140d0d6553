//! The fully parsed song: optional metadata fields and the ordered sections.

use vstd::prelude::*;
use crate::section::{SongSection, SongSectionView};

verus! {

/// Fully parsed song structure
#[derive(Debug, Clone)]
pub struct ParsedSong {
    pub title: Option<String>,
    pub subtitle: Option<String>,
    pub artist: Option<String>,
    pub composer: Option<String>,
    pub key: Option<String>,
    pub tempo: Option<i32>,
    pub time_signature: Option<String>,
    pub capo: Option<i32>,
    pub sections: Vec<SongSection>,
}

/// The image of a parsed song.
#[verifier::ext_equal]
pub struct ParsedSongView {
    pub title: Option<Seq<char>>,
    pub subtitle: Option<Seq<char>>,
    pub artist: Option<Seq<char>>,
    pub composer: Option<Seq<char>>,
    pub key: Option<Seq<char>>,
    pub tempo: Option<i32>,
    pub time_signature: Option<Seq<char>>,
    pub capo: Option<i32>,
    pub sections: Seq<SongSectionView>,
}

impl View for ParsedSong {
    type V = ParsedSongView;

    open spec fn view(&self) -> ParsedSongView {
        ParsedSongView {
            title: self.title.deep_view(),
            subtitle: self.subtitle.deep_view(),
            artist: self.artist.deep_view(),
            composer: self.composer.deep_view(),
            key: self.key.deep_view(),
            tempo: self.tempo,
            time_signature: self.time_signature.deep_view(),
            capo: self.capo,
            sections: self.sections.deep_view(),
        }
    }
}

impl DeepView for ParsedSong {
    type V = ParsedSongView;

    open spec fn deep_view(&self) -> ParsedSongView {
        self.view()
    }
}

} // verus!
