//! Parsing and transposition for plain-text songs in the ChordPro style:
//! lyrics with inline `[chord]` annotations and `{name: value}` directives.

pub mod category;
pub mod chord;
pub mod filters;
pub mod note;
pub mod parsed;
pub mod parser;
pub mod section;
pub mod text;
pub mod token;
pub mod transpose;

pub use category::SongCategory;
pub use chord::Chord;
pub use chord::PositionedChord;
pub use filters::SongSortBy;
pub use note::Note;
pub use parsed::ParsedSong;
pub use parser::ChordProParser;
pub use section::SongLine;
pub use section::SongSection;
pub use section::SongSectionType;
pub use transpose::semitones_between;
pub use transpose::transpose_content;
pub use transpose::transpose_key;
