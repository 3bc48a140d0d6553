//! Chords: a root spelling, a free-form quality and an optional bass
//! spelling, parsed from tokens such as `Am7`, `C#dim` or `G/B`, transposed
//! root and bass independently, and rendered back to text.

use vstd::prelude::*;
use crate::note::{
    Note, note_parse_range, parse_note_seq, note_transpose, note_name,
    lemma_note_octave_identity,
};
use crate::text::{
    chars_to_string, find_last, rfind_char, str_to_chars, subvec, trim, trim_range,
    lemma_trim_identity,
};

verus! {

/// Parsed chord
#[derive(Debug, Clone)]
pub struct Chord {
    pub root: String,
    pub quality: String,
    pub bass: Option<String>,
}

/// The mathematical image of a chord: its three parts as character
/// sequences.
#[verifier::ext_equal]
pub struct ChordView {
    pub root: Seq<char>,
    pub quality: Seq<char>,
    pub bass: Option<Seq<char>>,
}

impl View for Chord {
    type V = ChordView;

    open spec fn view(&self) -> ChordView {
        ChordView { root: self.root@, quality: self.quality@, bass: self.bass.deep_view() }
    }
}

impl DeepView for Chord {
    type V = ChordView;

    open spec fn deep_view(&self) -> ChordView {
        self.view()
    }
}

/// Chord with position in text
#[derive(Debug, Clone)]
pub struct PositionedChord {
    pub position: usize,
    pub chord: Chord,
}

/// The image of a positioned chord: a character offset and a chord image.
#[verifier::ext_equal]
pub struct PositionedChordView {
    pub position: int,
    pub chord: ChordView,
}

impl View for PositionedChord {
    type V = PositionedChordView;

    open spec fn view(&self) -> PositionedChordView {
        PositionedChordView { position: self.position as int, chord: self.chord@ }
    }
}

impl DeepView for PositionedChord {
    type V = PositionedChordView;

    open spec fn deep_view(&self) -> PositionedChordView {
        self.view()
    }
}

/// What chord parsing yields: after trimming, the candidate bass after the
/// last `/` is split off when it parses as a note; the root is the first
/// character of the remainder, or the first two when the second is `#` or
/// `b`, and must parse as a note; everything after the root is the quality,
/// kept verbatim.
pub open spec fn parse_chord_seq(s: Seq<char>) -> Option<ChordView> {
    let t = trim(s);
    if t.len() == 0 {
        None
    } else {
        let sl = find_last(t, '/');
        let bass_ok = sl >= 0 && parse_note_seq(t.subrange(sl + 1, t.len() as int)) is Some;
        let main = if bass_ok {
            t.subrange(0, sl)
        } else {
            t
        };
        let bass = if bass_ok {
            Some(t.subrange(sl + 1, t.len() as int))
        } else {
            None
        };
        if main.len() == 0 {
            None
        } else {
            let root_len: int = if main.len() >= 2 && (main[1] == '#' || main[1] == 'b') {
                2
            } else {
                1
            };
            let root = main.subrange(0, root_len);
            if parse_note_seq(root) is None {
                None
            } else {
                Some(
                    ChordView {
                        root,
                        quality: main.subrange(root_len, main.len() as int),
                        bass,
                    },
                )
            }
        }
    }
}

/// A note spelling transposed as text: parsed, moved and rendered in the
/// chosen table, or left unchanged when it does not parse.
pub open spec fn transpose_note_text(s: Seq<char>, semitones: int, use_flats: bool) -> Seq<char> {
    match parse_note_seq(s) {
        Some(p) => note_name(note_transpose(p.0, semitones), use_flats),
        None => s,
    }
}

/// A transposed chord: root and bass moved independently, quality kept.
pub open spec fn chord_transpose_view(c: ChordView, semitones: int, use_flats: bool) -> ChordView {
    ChordView {
        root: transpose_note_text(c.root, semitones, use_flats),
        quality: c.quality,
        bass: match c.bass {
            Some(b) => Some(transpose_note_text(b, semitones, use_flats)),
            None => None,
        },
    }
}

/// The canonical text of a chord: root, quality, and `/bass` when present.
pub open spec fn chord_display(c: ChordView) -> Seq<char> {
    match c.bass {
        Some(b) => c.root + c.quality + seq!['/'] + b,
        None => c.root + c.quality,
    }
}

/// A note spelling transposed as text, on a string.
pub(crate) fn transpose_note_string(s: &str, semitones: i32, use_flats: bool) -> (r: String)
    ensures
        r@ == transpose_note_text(s@, semitones as int, use_flats),
{
    match Note::parse(s) {
        Some((n, _)) => {
            let moved = n.transpose(semitones);
            if use_flats {
                String::from_str(moved.to_flat_string())
            } else {
                String::from_str(moved.to_sharp_string())
            }
        },
        None => String::from_str(s),
    }
}

impl Chord {
    /// Parse chord from string like "Am7", "C#dim", "G/B"
    pub fn parse(s: &str) -> (r: Option<Chord>)
        ensures
            r.deep_view() == parse_chord_seq(s@),
    {
        let v = str_to_chars(s);
        proof {
            assert(v@.subrange(0, v@.len() as int) =~= s@);
        }
        let (a, b) = trim_range(&v, 0, v.len());
        if a == b {
            return None;
        }
        let ghost t = trim(s@);
        proof {
            assert(t == v@.subrange(a as int, b as int));
            assert(forall|j: int| 0 <= j < t.len() ==> t[j] == v@[a + j]);
        }
        let sl = rfind_char(&v, a, b, '/');
        let (main_to, bass) = match sl {
            Some(i) => {
                proof {
                    assert(t.subrange(i - a + 1, t.len() as int) =~= v@.subrange(
                        i + 1,
                        b as int,
                    ));
                }
                if note_parse_range(&v, i + 1, b).is_some() {
                    let bass_chars = subvec(&v, i + 1, b);
                    (i, Some(chars_to_string(&bass_chars)))
                } else {
                    (b, None)
                }
            },
            None => (b, None),
        };
        let ghost main = if main_to == b {
            t
        } else {
            t.subrange(0, main_to - a)
        };
        proof {
            assert(main =~= v@.subrange(a as int, main_to as int));
        }
        if a == main_to {
            return None;
        }
        let root_len: usize = if main_to - a >= 2 && (v[a + 1] == '#' || v[a + 1] == 'b') {
            2
        } else {
            1
        };
        proof {
            if main.len() >= 2 {
                assert(main[1] == v@[a + 1]);
            }
        }
        if note_parse_range(&v, a, a + root_len).is_none() {
            proof {
                assert(main.subrange(0, root_len as int) =~= v@.subrange(
                    a as int,
                    a + root_len,
                ));
            }
            return None;
        }
        let root_chars = subvec(&v, a, a + root_len);
        let quality_chars = subvec(&v, a + root_len, main_to);
        proof {
            assert(main.subrange(0, root_len as int) =~= v@.subrange(a as int, a + root_len));
            assert(main.subrange(root_len as int, main.len() as int) =~= v@.subrange(
                a + root_len,
                main_to as int,
            ));
        }
        Some(
            Chord {
                root: chars_to_string(&root_chars),
                quality: chars_to_string(&quality_chars),
                bass,
            },
        )
    }

    /// Transpose chord by semitones
    pub fn transpose(&self, semitones: i32, use_flats: bool) -> (r: Chord)
        ensures
            r@ == chord_transpose_view(self@, semitones as int, use_flats),
    {
        let root = transpose_note_string(self.root.as_str(), semitones, use_flats);
        let bass = match &self.bass {
            Some(b) => Some(transpose_note_string(b.as_str(), semitones, use_flats)),
            None => None,
        };
        Chord { root, quality: self.quality.clone(), bass }
    }

    /// The chord as text: `root` then `quality`, then `/bass` when a bass is
    /// present.
    pub fn display(&self) -> (r: String)
        ensures
            r@ == chord_display(self@),
    {
        let mut out = self.root.clone();
        out.append(self.quality.as_str());
        match &self.bass {
            Some(b) => {
                proof {
                    reveal_strlit("/");
                }
                out.append("/");
                proof {
                    assert("/"@ =~= seq!['/']);
                }
                out.append(b.as_str());
            },
            None => {},
        }
        proof {
            assert(out@ =~= chord_display(self@));
        }
        out
    }
}

// ---------------------------------------------------------------------------
// Laws
// ---------------------------------------------------------------------------

/// `s` is the canonical rendering, in the chosen table, of some pitch class.
pub open spec fn is_canonical_spelling(s: Seq<char>, use_flats: bool) -> bool {
    exists|n: Note| s == note_name(n, use_flats)
}

/// Parsing a canonical note name recovers the pitch class it renders.
pub proof fn lemma_parse_canonical(n: Note, use_flats: bool)
    ensures
        parse_note_seq(note_name(n, use_flats)) is Some,
        parse_note_seq(note_name(n, use_flats))->Some_0.0 == n,
{
    lemma_trim_identity(note_name(n, use_flats));
}

/// Transposing a chord by a full octave is the identity, for chords whose
/// root and bass carry the canonical spelling of the chosen table.
pub proof fn lemma_chord_octave_identity(c: ChordView, use_flats: bool)
    requires
        is_canonical_spelling(c.root, use_flats),
        c.bass is Some ==> is_canonical_spelling(c.bass->Some_0, use_flats),
    ensures
        chord_transpose_view(c, 12, use_flats) == c,
{
    let n = choose|n: Note| c.root == note_name(n, use_flats);
    lemma_parse_canonical(n, use_flats);
    lemma_note_octave_identity(n);
    match c.bass {
        Some(b) => {
            let m = choose|m: Note| b == note_name(m, use_flats);
            lemma_parse_canonical(m, use_flats);
            lemma_note_octave_identity(m);
        },
        None => {},
    }
}

} // verus!
