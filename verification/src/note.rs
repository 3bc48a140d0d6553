//! The twelve pitch classes: parsing of note spellings (including enharmonic
//! ones and the `H` convention for B), the semitone bijection, transposition
//! and canonical sharp/flat display.

use vstd::prelude::*;
use crate::text::{
    is_space_char, str_to_chars, trim, trim_range, upper_char, lemma_trim_identity, to_upper_char,
};
use vstd::arithmetic::div_mod::{lemma_small_mod, lemma_fundamental_div_mod, lemma_mod_multiples_vanish, lemma_add_mod_noop};

verus! {

/// Musical note (for transposition)
#[derive(Debug, Clone, Copy, PartialEq, Eq, Hash, Structural)]
pub enum Note {
    C,
    CSharp,
    D,
    DSharp,
    E,
    F,
    FSharp,
    G,
    GSharp,
    A,
    ASharp,
    B,
}

/// The fixed bijection from pitch classes to semitone indices, C = 0 … B = 11.
pub open spec fn semitone_of(n: Note) -> int {
    match n {
        Note::C => 0,
        Note::CSharp => 1,
        Note::D => 2,
        Note::DSharp => 3,
        Note::E => 4,
        Note::F => 5,
        Note::FSharp => 6,
        Note::G => 7,
        Note::GSharp => 8,
        Note::A => 9,
        Note::ASharp => 10,
        Note::B => 11,
    }
}

/// The pitch class of a semitone index, reduced modulo twelve.
pub open spec fn note_of_semitone(k: int) -> Note {
    let m = k % 12;
    if m == 0 {
        Note::C
    } else if m == 1 {
        Note::CSharp
    } else if m == 2 {
        Note::D
    } else if m == 3 {
        Note::DSharp
    } else if m == 4 {
        Note::E
    } else if m == 5 {
        Note::F
    } else if m == 6 {
        Note::FSharp
    } else if m == 7 {
        Note::G
    } else if m == 8 {
        Note::GSharp
    } else if m == 9 {
        Note::A
    } else if m == 10 {
        Note::ASharp
    } else {
        Note::B
    }
}

/// What note parsing yields on a character sequence: after trimming, the
/// first letter (case-insensitive, `H` standing for B) picks the base note,
/// and a second character `#` or `b` applies the enharmonic tables. The
/// boolean records whether a flat spelling was used.
pub open spec fn parse_note_seq(s: Seq<char>) -> Option<(Note, bool)> {
    let t = trim(s);
    if t.len() == 0 {
        None
    } else {
        let base = upper_char(t[0]);
        let sharp = t.len() >= 2 && t[1] == '#';
        let flat = t.len() >= 2 && t[1] == 'b';
        if base == 'C' {
            Some(
                if sharp {
                    (Note::CSharp, false)
                } else if flat {
                    (Note::B, true)
                } else {
                    (Note::C, false)
                },
            )
        } else if base == 'D' {
            Some(
                if sharp {
                    (Note::DSharp, false)
                } else if flat {
                    (Note::CSharp, true)
                } else {
                    (Note::D, false)
                },
            )
        } else if base == 'E' {
            Some(
                if sharp {
                    (Note::F, false)
                } else if flat {
                    (Note::DSharp, true)
                } else {
                    (Note::E, false)
                },
            )
        } else if base == 'F' {
            Some(
                if sharp {
                    (Note::FSharp, false)
                } else if flat {
                    (Note::E, true)
                } else {
                    (Note::F, false)
                },
            )
        } else if base == 'G' {
            Some(
                if sharp {
                    (Note::GSharp, false)
                } else if flat {
                    (Note::FSharp, true)
                } else {
                    (Note::G, false)
                },
            )
        } else if base == 'A' {
            Some(
                if sharp {
                    (Note::ASharp, false)
                } else if flat {
                    (Note::GSharp, true)
                } else {
                    (Note::A, false)
                },
            )
        } else if base == 'B' {
            Some(
                if sharp {
                    (Note::C, false)
                } else if flat {
                    (Note::ASharp, true)
                } else {
                    (Note::B, false)
                },
            )
        } else if base == 'H' {
            Some((Note::B, false))
        } else {
            None
        }
    }
}

/// The transposed pitch class: semitone arithmetic modulo twelve, correct
/// for negative offsets and offsets beyond an octave.
pub open spec fn note_transpose(n: Note, semitones: int) -> Note {
    note_of_semitone(semitone_of(n) + semitones)
}

/// The canonical sharp spelling of each pitch class.
pub open spec fn sharp_name(n: Note) -> Seq<char> {
    match n {
        Note::C => seq!['C'],
        Note::CSharp => seq!['C', '#'],
        Note::D => seq!['D'],
        Note::DSharp => seq!['D', '#'],
        Note::E => seq!['E'],
        Note::F => seq!['F'],
        Note::FSharp => seq!['F', '#'],
        Note::G => seq!['G'],
        Note::GSharp => seq!['G', '#'],
        Note::A => seq!['A'],
        Note::ASharp => seq!['A', '#'],
        Note::B => seq!['B'],
    }
}

/// The canonical flat spelling of each pitch class; naturals are spelt as in
/// the sharp table.
pub open spec fn flat_name(n: Note) -> Seq<char> {
    match n {
        Note::C => seq!['C'],
        Note::CSharp => seq!['D', 'b'],
        Note::D => seq!['D'],
        Note::DSharp => seq!['E', 'b'],
        Note::E => seq!['E'],
        Note::F => seq!['F'],
        Note::FSharp => seq!['G', 'b'],
        Note::G => seq!['G'],
        Note::GSharp => seq!['A', 'b'],
        Note::A => seq!['A'],
        Note::ASharp => seq!['B', 'b'],
        Note::B => seq!['B'],
    }
}

/// The chosen display of a pitch class: its flat or its sharp name.
pub open spec fn note_name(n: Note, use_flats: bool) -> Seq<char> {
    if use_flats {
        flat_name(n)
    } else {
        sharp_name(n)
    }
}

/// Note parsing on a character range: what `Note::parse` yields on the text
/// `v[from..to]`.
pub fn note_parse_range(v: &Vec<char>, from: usize, to: usize) -> (r: Option<(Note, bool)>)
    requires
        from <= to <= v@.len(),
    ensures
        r == parse_note_seq(v@.subrange(from as int, to as int)),
{
    let ghost s = v@.subrange(from as int, to as int);
    let (a, b) = trim_range(v, from, to);
    if a == b {
        return None;
    }
    let ghost t = trim(s);
    proof {
        assert(t[0] == v@[a as int]);
        if b - a >= 2 {
            assert(t[1] == v@[a + 1]);
        }
    }
    let base = to_upper_char(v[a]);
        let sharp = b - a >= 2 && v[a + 1] == '#';
        let flat = b - a >= 2 && v[a + 1] == 'b';
        if base == 'C' {
            Some(
                if sharp {
                    (Note::CSharp, false)
                } else if flat {
                    (Note::B, true)
                } else {
                    (Note::C, false)
                },
            )
        } else if base == 'D' {
            Some(
                if sharp {
                    (Note::DSharp, false)
                } else if flat {
                    (Note::CSharp, true)
                } else {
                    (Note::D, false)
                },
            )
        } else if base == 'E' {
            Some(
                if sharp {
                    (Note::F, false)
                } else if flat {
                    (Note::DSharp, true)
                } else {
                    (Note::E, false)
                },
            )
        } else if base == 'F' {
            Some(
                if sharp {
                    (Note::FSharp, false)
                } else if flat {
                    (Note::E, true)
                } else {
                    (Note::F, false)
                },
            )
        } else if base == 'G' {
            Some(
                if sharp {
                    (Note::GSharp, false)
                } else if flat {
                    (Note::FSharp, true)
                } else {
                    (Note::G, false)
                },
            )
        } else if base == 'A' {
            Some(
                if sharp {
                    (Note::ASharp, false)
                } else if flat {
                    (Note::GSharp, true)
                } else {
                    (Note::A, false)
                },
            )
        } else if base == 'B' {
            Some(
                if sharp {
                    (Note::C, false)
                } else if flat {
                    (Note::ASharp, true)
                } else {
                    (Note::B, false)
                },
            )
        } else if base == 'H' {
            Some((Note::B, false))
        } else {
            None
        }
}

impl Note {
    /// Parse note from string (C, C#, Db, etc.)
    pub fn parse(s: &str) -> (r: Option<(Note, bool)>)
        ensures
            r == parse_note_seq(s@),
    {
        let v = str_to_chars(s);
        proof {
            assert(v@.subrange(0, v@.len() as int) =~= s@);
        }
        note_parse_range(&v, 0, v.len())
    }

    /// Convert to semitone index (0-11)
    pub fn to_semitone(self) -> (r: u8)
        ensures
            r as int == semitone_of(self),
    {
        match self {
            Note::C => 0,
            Note::CSharp => 1,
            Note::D => 2,
            Note::DSharp => 3,
            Note::E => 4,
            Note::F => 5,
            Note::FSharp => 6,
            Note::G => 7,
            Note::GSharp => 8,
            Note::A => 9,
            Note::ASharp => 10,
            Note::B => 11,
        }
    }

    /// Create from semitone index
    pub fn from_semitone(semitone: u8) -> (r: Self)
        ensures
            r == note_of_semitone(semitone as int),
    {
        let m = semitone % 12;
        if m == 0 {
            Note::C
        } else if m == 1 {
            Note::CSharp
        } else if m == 2 {
            Note::D
        } else if m == 3 {
            Note::DSharp
        } else if m == 4 {
            Note::E
        } else if m == 5 {
            Note::F
        } else if m == 6 {
            Note::FSharp
        } else if m == 7 {
            Note::G
        } else if m == 8 {
            Note::GSharp
        } else if m == 9 {
            Note::A
        } else if m == 10 {
            Note::ASharp
        } else {
            Note::B
        }
    }

    /// Transpose by semitones
    pub fn transpose(self, semitones: i32) -> (r: Self)
        ensures
            r == note_transpose(self, semitones as int),
    {
        let cur: u32 = self.to_semitone() as u32;
        let r: u32 = if semitones >= 0 {
            (semitones as u32) % 12
        } else {
            let a: u64 = (-(semitones as i64)) as u64;
            let m: u32 = (a % 12) as u32;
            proof {
                lemma_negative_mod(semitones as int, a as int);
            }
            if m == 0 {
                0
            } else {
                12 - m
            }
        };
        let idx: u32 = (cur + r) % 12;
        proof {
            lemma_add_mod_noop(semitone_of(self), semitones as int, 12);
            lemma_small_mod(semitone_of(self) as nat, 12);
            assert((semitone_of(self) + semitones as int) % 12 == (cur + r) as int % 12);
            lemma_small_mod(idx as nat, 12);
        }
        Self::from_semitone(idx as u8)
    }

    /// Convert to string with sharp notation
    pub fn to_sharp_string(self) -> (r: &'static str)
        ensures
            r@ == sharp_name(self),
    {
        proof {
            reveal_strlit("C");
            reveal_strlit("C#");
            reveal_strlit("D");
            reveal_strlit("D#");
            reveal_strlit("E");
            reveal_strlit("F");
            reveal_strlit("F#");
            reveal_strlit("G");
            reveal_strlit("G#");
            reveal_strlit("A");
            reveal_strlit("A#");
            reveal_strlit("B");
        }
        let r = match self {
            Note::C => "C",
            Note::CSharp => "C#",
            Note::D => "D",
            Note::DSharp => "D#",
            Note::E => "E",
            Note::F => "F",
            Note::FSharp => "F#",
            Note::G => "G",
            Note::GSharp => "G#",
            Note::A => "A",
            Note::ASharp => "A#",
            Note::B => "B",
        };
        proof {
            assert(r@ =~= sharp_name(self));
        }
        r
    }

    /// Convert to string with flat notation
    pub fn to_flat_string(self) -> (r: &'static str)
        ensures
            r@ == flat_name(self),
    {
        proof {
            reveal_strlit("C");
            reveal_strlit("Db");
            reveal_strlit("D");
            reveal_strlit("Eb");
            reveal_strlit("E");
            reveal_strlit("F");
            reveal_strlit("Gb");
            reveal_strlit("G");
            reveal_strlit("Ab");
            reveal_strlit("A");
            reveal_strlit("Bb");
            reveal_strlit("B");
        }
        let r = match self {
            Note::C => "C",
            Note::CSharp => "Db",
            Note::D => "D",
            Note::DSharp => "Eb",
            Note::E => "E",
            Note::F => "F",
            Note::FSharp => "Gb",
            Note::G => "G",
            Note::GSharp => "Ab",
            Note::A => "A",
            Note::ASharp => "Bb",
            Note::B => "B",
        };
        proof {
            assert(r@ =~= flat_name(self));
        }
        r
    }
}

/// The Euclidean remainder of a negative number, computed from the remainder
/// of its absolute value.
proof fn lemma_negative_mod(s: int, a: int)
    requires
        s < 0,
        a == -s,
    ensures
        a % 12 == 0 ==> s % 12 == 0,
        a % 12 != 0 ==> s % 12 == 12 - (a % 12),
{
    lemma_fundamental_div_mod(a, 12);
    let k = a / 12;
    let m = a % 12;
    if m == 0 {
        assert(s == 12 * (-k) + 0);
        lemma_mod_multiples_vanish(-k, 0, 12);
    } else {
        assert(s == 12 * (-k - 1) + (12 - m));
        lemma_mod_multiples_vanish(-k - 1, 12 - m, 12);
        lemma_small_mod((12 - m) as nat, 12);
    }
}

// ---------------------------------------------------------------------------
// Laws
// ---------------------------------------------------------------------------

/// A note spelling the format accepts: one letter A–H in either case,
/// optionally followed by `#` or `b`.
pub open spec fn valid_note_spelling(s: Seq<char>) -> bool {
    &&& (s.len() == 1 || (s.len() == 2 && (s[1] == '#' || s[1] == 'b')))
    &&& {
        let base = upper_char(s[0]);
        'A' <= base && base <= 'H'
    }
}

/// Every valid note spelling parses, and the pitch class it denotes
/// round-trips through the semitone bijection.
pub proof fn lemma_valid_spelling_parses(s: Seq<char>)
    requires
        valid_note_spelling(s),
    ensures
        parse_note_seq(s) is Some,
        note_of_semitone(semitone_of(parse_note_seq(s)->Some_0.0)) == parse_note_seq(s)->Some_0.0,
{
    assert(!is_space_char(s[0]));
    assert(!is_space_char(s[s.len() - 1]));
    lemma_trim_identity(s);
    lemma_semitone_round_trip(parse_note_seq(s)->Some_0.0);
}

/// The semitone bijection: every pitch class is recovered from its own
/// semitone index.
pub proof fn lemma_semitone_round_trip(n: Note)
    ensures
        note_of_semitone(semitone_of(n)) == n,
{
    lemma_small_mod(semitone_of(n) as nat, 12);
}

/// Transposing a note by a full octave is the identity.
pub proof fn lemma_note_octave_identity(n: Note)
    ensures
        note_transpose(n, 12) == n,
{
    lemma_mod_multiples_vanish(1, semitone_of(n), 12);
    lemma_small_mod(semitone_of(n) as nat, 12);
}

} // verus!
