use songcore::{semitones_between, transpose_content};

#[test]
fn test_transpose_content() {
    let content = r#"
{title: Test Song}
{key: C}

[C]Hello [G]world
[Am]Second [F]line
"#;

    let transposed = transpose_content(content, 2);

    assert!(transposed.contains("{key: D}"));
    assert!(transposed.contains("[D]Hello"));
    assert!(transposed.contains("[A]world"));
    assert!(transposed.contains("[Bm]Second"));
    assert!(transposed.contains("[G]line"));
}

#[test]
fn test_transpose_with_slash_chords() {
    let content = "[C/G]Hello [Am/E]world";
    let transposed = transpose_content(content, 2);
    assert_eq!(transposed, "[D/A]Hello [Bm/F#]world");
}

#[test]
fn test_transpose_chord_qualities() {
    let content = "[Cmaj7] [Dm7] [G7sus4] [Fdim] [Eaug]";
    let transposed = transpose_content(content, 2);
    assert_eq!(transposed, "[Dmaj7] [Em7] [A7sus4] [Gdim] [F#aug]");
}

#[test]
fn test_transpose_negative() {
    let content = "[D]Hello [A]world";
    let transposed = transpose_content(content, -2);
    assert_eq!(transposed, "[C]Hello [G]world");
}

#[test]
fn test_semitones_between() {
    assert_eq!(semitones_between("C", "D"), Some(2));
    assert_eq!(semitones_between("C", "G"), Some(7));
    assert_eq!(semitones_between("G", "C"), Some(5));
    assert_eq!(semitones_between("A", "A"), Some(0));
}
