//! Song sections: a typed block of lines, each line carrying its stripped
//! text and the chords positioned within it.

use vstd::prelude::*;
use crate::chord::{PositionedChord, PositionedChordView};

verus! {

/// Parsed song line with chords positioned above text
#[derive(Debug, Clone)]
pub struct SongLine {
    pub text: String,
    pub chords: Vec<PositionedChord>,
}

/// The image of a song line: its text and its positioned chords.
#[verifier::ext_equal]
pub struct SongLineView {
    pub text: Seq<char>,
    pub chords: Seq<PositionedChordView>,
}

impl View for SongLine {
    type V = SongLineView;

    open spec fn view(&self) -> SongLineView {
        SongLineView { text: self.text@, chords: self.chords.deep_view() }
    }
}

impl DeepView for SongLine {
    type V = SongLineView;

    open spec fn deep_view(&self) -> SongLineView {
        self.view()
    }
}

/// Section type
#[derive(Debug, Clone, Copy, PartialEq, Eq, Structural)]
pub enum SongSectionType {
    Verse,
    Chorus,
    Bridge,
    PreChorus,
    Intro,
    Outro,
    Interlude,
    Tag,
    Ending,
    Other,
}

/// Song section (verse, chorus, bridge, etc.)
#[derive(Debug, Clone)]
pub struct SongSection {
    pub section_type: SongSectionType,
    pub label: Option<String>,
    pub lines: Vec<SongLine>,
}

/// The image of a song section.
#[verifier::ext_equal]
pub struct SongSectionView {
    pub section_type: SongSectionType,
    pub label: Option<Seq<char>>,
    pub lines: Seq<SongLineView>,
}

impl View for SongSection {
    type V = SongSectionView;

    open spec fn view(&self) -> SongSectionView {
        SongSectionView {
            section_type: self.section_type,
            label: self.label.deep_view(),
            lines: self.lines.deep_view(),
        }
    }
}

impl DeepView for SongSection {
    type V = SongSectionView;

    open spec fn deep_view(&self) -> SongSectionView {
        self.view()
    }
}

/// The Russian display name of each section type.
pub open spec fn section_name_ru(t: SongSectionType) -> Seq<char> {
    match t {
        SongSectionType::Verse => seq!['К', 'у', 'п', 'л', 'е', 'т'],
        SongSectionType::Chorus => seq!['П', 'р', 'и', 'п', 'е', 'в'],
        SongSectionType::Bridge => seq!['Б', 'р', 'и', 'д', 'ж'],
        SongSectionType::PreChorus => seq!['П', 'р', 'е', 'д', 'п', 'р', 'и', 'п', 'е', 'в'],
        SongSectionType::Intro => seq!['В', 'с', 'т', 'у', 'п', 'л', 'е', 'н', 'и', 'е'],
        SongSectionType::Outro => seq!['О', 'к', 'о', 'н', 'ч', 'а', 'н', 'и', 'е'],
        SongSectionType::Interlude => seq!['П', 'р', 'о', 'и', 'г', 'р', 'ы', 'ш'],
        SongSectionType::Tag => seq!['Т', 'е', 'г'],
        SongSectionType::Ending => seq!['К', 'о', 'д', 'а'],
        SongSectionType::Other => Seq::<char>::empty(),
    }
}

impl SongSectionType {
    /// Get Russian display name
    pub fn name_ru(&self) -> (r: &'static str)
        ensures
            r@ == section_name_ru(*self),
    {
        proof {
            reveal_strlit("Куплет");
            reveal_strlit("Припев");
            reveal_strlit("Бридж");
            reveal_strlit("Предприпев");
            reveal_strlit("Вступление");
            reveal_strlit("Окончание");
            reveal_strlit("Проигрыш");
            reveal_strlit("Тег");
            reveal_strlit("Кода");
            reveal_strlit("");
        }
        let r = match self {
            Self::Verse => "Куплет",
            Self::Chorus => "Припев",
            Self::Bridge => "Бридж",
            Self::PreChorus => "Предприпев",
            Self::Intro => "Вступление",
            Self::Outro => "Окончание",
            Self::Interlude => "Проигрыш",
            Self::Tag => "Тег",
            Self::Ending => "Кода",
            Self::Other => "",
        };
        proof {
            assert(r@ =~= section_name_ru(*self));
        }
        r
    }
}

} // verus!
