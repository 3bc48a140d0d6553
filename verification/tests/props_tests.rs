use songcore::{
    semitones_between, transpose_content, Chord, ChordProParser, Note,
};

#[test]
fn test_every_valid_spelling_parses_and_round_trips() {
    let spellings = [
        "A", "B", "C", "D", "E", "F", "G", "H", "a", "b", "c", "d", "e", "f", "g", "h", "A#",
        "B#", "C#", "D#", "E#", "F#", "G#", "Ab", "Bb", "Cb", "Db", "Eb", "Fb", "Gb", "a#",
        "c#", "db", "eb",
    ];
    for s in spellings {
        let (note, _) = Note::parse(s).unwrap();
        assert_eq!(Note::from_semitone(note.to_semitone()), note);
    }
}

#[test]
fn test_note_octave_identity() {
    for k in 0..12u8 {
        let n = Note::from_semitone(k);
        assert_eq!(n.transpose(12), n);
        assert_eq!(n.transpose(-12), n);
        assert_eq!(n.transpose(24), n);
    }
}

#[test]
fn test_chord_octave_identity() {
    let c = Chord::parse("C#m7/G#").unwrap();
    let moved = c.transpose(12, false);
    assert_eq!(moved.root, "C#");
    assert_eq!(moved.quality, "m7");
    assert_eq!(moved.bass, Some("G#".to_string()));

    let c = Chord::parse("Ebsus4/Bb").unwrap();
    let moved = c.transpose(12, true);
    assert_eq!(moved.root, "Eb");
    assert_eq!(moved.quality, "sus4");
    assert_eq!(moved.bass, Some("Bb".to_string()));
}

#[test]
fn test_transpose_zero_is_identity() {
    let content = "{key: Qx}\r\n [Zz]weird \t[[]] {unknown} text\nlast";
    assert_eq!(transpose_content(content, 0), content);
}

#[test]
fn test_semitones_between_same_key() {
    for k in ["C", "C#", "Db", "E", "Gb", "H", "Am", "Bbm", "F#m"] {
        assert_eq!(semitones_between(k, k), Some(0));
    }
}

#[test]
fn test_transpose_slash_chord_display() {
    let chord = Chord::parse("C/G").unwrap();
    let moved = chord.transpose(2, false);
    assert_eq!(moved.root, "D");
    assert_eq!(moved.bass, Some("A".to_string()));
    assert_eq!(moved.display(), "D/A");
}

#[test]
fn test_empty_section_discarded() {
    let song = ChordProParser::parse("{start_of_verse}{end_of_verse}");
    assert_eq!(song.sections.len(), 0);

    let song = ChordProParser::parse("{start_of_verse}\n{end_of_verse}");
    assert_eq!(song.sections.len(), 0);
}

#[test]
fn test_directive_only_document() {
    let content = "{title: Only Meta}\n{key: C}\n\n{tempo: 90}";
    let song = ChordProParser::parse(content);
    assert_eq!(song.sections.len(), 0);
    assert_eq!(ChordProParser::extract_first_line(content), "");
}

#[test]
fn test_h_is_b_and_never_flat() {
    assert_eq!(Note::parse("H"), Some((Note::B, false)));
    assert_eq!(Note::parse("Hb"), Some((Note::B, false)));
    assert_eq!(Note::parse("h"), Some((Note::B, false)));
}

#[test]
fn test_short_section_markers() {
    let song = ChordProParser::parse("{sochorus}\nLa la\n{eochorus}");
    assert_eq!(song.sections.len(), 1);
    assert_eq!(
        song.sections[0].section_type,
        songcore::SongSectionType::Chorus
    );
}

#[test]
fn test_end_marker_keyword_need_not_match() {
    let song = ChordProParser::parse("{start_of_verse}\nLine\n{end_of_chorus}\nAfter");
    assert_eq!(song.sections.len(), 2);
    assert_eq!(
        song.sections[0].section_type,
        songcore::SongSectionType::Verse
    );
    assert_eq!(song.sections[0].lines.len(), 1);
    assert_eq!(song.sections[1].lines[0].text, "After");
}

#[test]
fn test_unknown_directive_ignored() {
    let song = ChordProParser::parse("{foobar: zap}\nHello");
    assert_eq!(song.title, None);
    assert_eq!(song.sections.len(), 1);
    assert_eq!(song.sections[0].lines[0].text, "Hello");
}

#[test]
fn test_unparseable_chord_token_dropped() {
    let song = ChordProParser::parse("[xyz]Hello [Am]world");
    let line = &song.sections[0].lines[0];
    assert_eq!(line.text, "Hello world");
    assert_eq!(line.chords.len(), 1);
    assert_eq!(line.chords[0].chord.root, "A");
    assert_eq!(line.chords[0].position, 6);
}

#[test]
fn test_tempo_and_capo_edge_values() {
    let song = ChordProParser::parse("{tempo: +120}\n{capo: -3}");
    assert_eq!(song.tempo, Some(120));
    assert_eq!(song.capo, Some(-3));

    let song = ChordProParser::parse("{tempo: 99999999999}");
    assert_eq!(song.tempo, None);

    let song = ChordProParser::parse("{tempo: 2147483647}\n{capo: -2147483648}");
    assert_eq!(song.tempo, Some(2147483647));
    assert_eq!(song.capo, Some(-2147483648));
}

#[test]
fn test_directive_without_value_clears_field() {
    let song = ChordProParser::parse("{title: Kept?}\n{title}");
    assert_eq!(song.title, None);
}

#[test]
fn test_label_is_trimmed() {
    let song = ChordProParser::parse("{start_of_chorus:   Refrain  }\nLa");
    assert_eq!(song.sections[0].label, Some("Refrain".to_string()));
}

#[test]
fn test_crlf_lines() {
    let song = ChordProParser::parse("{start_of_verse}\r\nOne\r\n\r\nTwo\r\n{end_of_verse}\r\n");
    assert_eq!(song.sections.len(), 1);
    assert_eq!(song.sections[0].lines.len(), 3);
    assert_eq!(song.sections[0].lines[0].text, "One");
    assert_eq!(song.sections[0].lines[1].text, "");
    assert_eq!(song.sections[0].lines[2].text, "Two");
}

#[test]
fn test_strip_chords_drops_empty_and_directive_lines() {
    let content = "{title: T}\n[Am]\n{c: note}\n[C]Sing";
    assert_eq!(ChordProParser::strip_chords(content), "note\nSing");
}

#[test]
fn test_flat_key_keeps_flats() {
    let content = "{key: Bb}\n[Bb]Home [F]row";
    let moved = transpose_content(content, 2);
    assert_eq!(moved, "{key: C}\n[C]Home [G]row");

    let content = "{key: Db}\n[Db]Soft";
    let moved = transpose_content(content, 1);
    assert_eq!(moved, "{key: D}\n[D]Soft");
}

#[test]
fn test_flat_preferred_targets() {
    let content = "{key: C}\n[C]Up";
    let moved = transpose_content(content, 3);
    assert_eq!(moved, "{key: Eb}\n[Eb]Up");

    let moved = transpose_content(content, 1);
    assert_eq!(moved, "{key: C#}\n[C#]Up");
}

#[test]
fn test_key_directive_case_insensitive_and_rewritten() {
    let content = "{KEY:  Am }\n[Am]x";
    let moved = transpose_content(content, 2);
    assert_eq!(moved, "{key: Bm}\n[Bm]x");
}

#[test]
fn test_transpose_preserves_surrounding_text() {
    let content = "intro  [C]  mid[G7/B]end\nno chords here";
    let moved = transpose_content(content, 2);
    assert_eq!(moved, "intro  [D]  mid[A7/C#]end\nno chords here");
}

#[test]
fn test_empty_input() {
    let song = ChordProParser::parse("");
    assert_eq!(song.sections.len(), 0);
    assert_eq!(song.title, None);
    assert_eq!(ChordProParser::strip_chords(""), "");
    assert_eq!(ChordProParser::extract_first_line(""), "");
    assert!(ChordProParser::extract_title("").is_none());
    assert_eq!(transpose_content("", 5), "");
}

#[test]
fn test_semitones_between_invalid() {
    assert_eq!(semitones_between("X", "C"), None);
    assert_eq!(semitones_between("C", ""), None);
}

#[test]
fn test_directive_anywhere_in_line_consumes_it() {
    let song = ChordProParser::parse("Hello {x} world");
    assert_eq!(song.sections.len(), 0);
}

#[test]
fn test_section_end_with_label_is_plain_directive() {
    let song = ChordProParser::parse("{start_of_verse}\nLine\n{end_of_verse: 2}\nMore");
    assert_eq!(song.sections.len(), 1);
    assert_eq!(song.sections[0].lines.len(), 2);
    assert_eq!(song.sections[0].lines[1].text, "More");
}

#[test]
fn test_section_start_anywhere_in_line() {
    let song = ChordProParser::parse("xx {start_of_chorus} yy\nLa");
    assert_eq!(song.sections.len(), 1);
    assert_eq!(
        song.sections[0].section_type,
        songcore::SongSectionType::Chorus
    );
    assert_eq!(song.sections[0].lines[0].text, "La");
}

#[test]
fn test_bracket_inside_token() {
    let song = ChordProParser::parse("a[[x]b");
    let line = &song.sections[0].lines[0];
    assert_eq!(line.text, "ab");
    assert_eq!(line.chords.len(), 0);
}

#[test]
fn test_uppercase_directive_names() {
    let song = ChordProParser::parse("{TITLE: Loud}\n{T: Louder}");
    assert_eq!(song.title, Some("Louder".to_string()));
}

#[test]
fn test_key_value_with_brackets_goes_through_both_passes() {
    let moved = transpose_content("{key: [Am]}", 2);
    assert_eq!(moved, "{key: [Bm]}");
}

#[test]
fn test_sort_default() {
    let d: songcore::SongSortBy = Default::default();
    assert!(matches!(d, songcore::SongSortBy::Title));
}
