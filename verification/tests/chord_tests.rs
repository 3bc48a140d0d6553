use songcore::Chord;

#[test]
fn test_parse_simple_chord() {
    let chord = Chord::parse("Am").unwrap();
    assert_eq!(chord.root, "A");
    assert_eq!(chord.quality, "m");
    assert!(chord.bass.is_none());
}

#[test]
fn test_parse_chord_with_sharp() {
    let chord = Chord::parse("C#m7").unwrap();
    assert_eq!(chord.root, "C#");
    assert_eq!(chord.quality, "m7");
    assert!(chord.bass.is_none());
}

#[test]
fn test_parse_chord_with_flat() {
    let chord = Chord::parse("Bbmaj7").unwrap();
    assert_eq!(chord.root, "Bb");
    assert_eq!(chord.quality, "maj7");
    assert!(chord.bass.is_none());
}

#[test]
fn test_parse_chord_with_bass() {
    let chord = Chord::parse("G/B").unwrap();
    assert_eq!(chord.root, "G");
    assert_eq!(chord.quality, "");
    assert_eq!(chord.bass, Some("B".to_string()));
}

#[test]
fn test_parse_complex_chord_with_bass() {
    let chord = Chord::parse("Am7/G").unwrap();
    assert_eq!(chord.root, "A");
    assert_eq!(chord.quality, "m7");
    assert_eq!(chord.bass, Some("G".to_string()));
}

#[test]
fn test_parse_empty_string() {
    assert!(Chord::parse("").is_none());
    assert!(Chord::parse("   ").is_none());
}

#[test]
fn test_parse_invalid_chord() {
    assert!(Chord::parse("X").is_none());
    assert!(Chord::parse("123").is_none());
}

#[test]
fn test_parse_slash_with_invalid_bass() {
    let chord = Chord::parse("Am/X").unwrap();
    assert_eq!(chord.root, "A");
    assert_eq!(chord.quality, "m/X");
    assert!(chord.bass.is_none());
}

#[test]
fn test_transpose_chord() {
    let chord = Chord::parse("C").unwrap();
    let transposed = chord.transpose(2, false);
    assert_eq!(transposed.root, "D");
}

#[test]
fn test_transpose_chord_with_flats() {
    let chord = Chord::parse("C").unwrap();
    let transposed = chord.transpose(1, true);
    assert_eq!(transposed.root, "Db");
}

#[test]
fn test_transpose_chord_with_bass() {
    let chord = Chord::parse("C/G").unwrap();
    let transposed = chord.transpose(2, false);
    assert_eq!(transposed.root, "D");
    assert_eq!(transposed.bass, Some("A".to_string()));
}

#[test]
fn test_display_simple_chord() {
    let chord = Chord::parse("Am").unwrap();
    assert_eq!(chord.display(), "Am");
}

#[test]
fn test_display_chord_with_bass() {
    let chord = Chord::parse("G/B").unwrap();
    assert_eq!(chord.display(), "G/B");
}
