//! The format parser: a line-by-line state machine folding raw text into a
//! `ParsedSong`, together with the plain-text extraction utilities.

use vstd::prelude::*;
use crate::chord::{Chord, PositionedChord, PositionedChordView, parse_chord_seq};
use crate::parsed::{ParsedSong, ParsedSongView};
use crate::section::{
    SongLine, SongLineView, SongSection, SongSectionType, SongSectionView,
};
use crate::text::{
    chars_to_string, find_char, lemma_split_first, parse_i32_spec, parse_i32_range, split_lines,
    str_to_chars, strip_cr, subvec, trim, trim_range, extend_range,
};
use crate::token::{
    chord_tok_close, directive_name_at, directive_value_at, find_chord_tok, find_directive_pos,
    find_section_start_pos, has_section_end, lemma_chord_tok_close, lemma_find_chord_tok,
    name_is_ci, name_matches, next_chord_tok, scan_directive, scan_section_end,
    scan_section_start, section_label_at, section_type_at,
};

verus! {

// ---------------------------------------------------------------------------
// Lines with inline chords
// ---------------------------------------------------------------------------

/// One step of the line scan: text up to the next chord token is kept, the
/// token's interior is parsed — a chord is recorded at the current length of
/// the stripped text, an unparseable token is dropped — and the scan resumes
/// after the closing bracket.
pub open spec fn scan_line(
    s: Seq<char>,
    p: int,
    text: Seq<char>,
    chords: Seq<PositionedChordView>,
) -> SongLineView
    decreases s.len() - p,
    via scan_line_decreases
{
    if p < 0 || p > s.len() {
        SongLineView { text, chords }
    } else {
        let i = find_chord_tok(s, p);
        if i == s.len() {
            SongLineView { text: text + s.subrange(p, s.len() as int), chords }
        } else {
            let j = chord_tok_close(s, i);
            let text2 = text + s.subrange(p, i);
            let chords2 = match parse_chord_seq(s.subrange(i + 1, j)) {
                Some(c) => chords.push(
                    PositionedChordView { position: text2.len() as int, chord: c },
                ),
                None => chords,
            };
            scan_line(s, j + 1, text2, chords2)
        }
    }
}

#[via_fn]
proof fn scan_line_decreases(s: Seq<char>, p: int, text: Seq<char>, chords: Seq<
    PositionedChordView,
>) {
    if 0 <= p <= s.len() {
        lemma_find_chord_tok(s, p);
        let i = find_chord_tok(s, p);
        if i < s.len() {
            lemma_chord_tok_close(s, i);
        }
    }
}

/// What line parsing yields: the line's text with every bracketed token
/// removed, and the chords of the parseable tokens, positioned at the
/// character offset where each token stood in the stripped text.
pub open spec fn parse_line_seq(line: Seq<char>) -> SongLineView {
    scan_line(line, 0, Seq::empty(), Seq::empty())
}

/// Line parsing on a character vector.
pub fn parse_line_chars(v: &Vec<char>) -> (r: SongLine)
    ensures
        r@ == parse_line_seq(v@),
{
    let n = v.len();
    let mut text: Vec<char> = Vec::new();
    let mut chords: Vec<PositionedChord> = Vec::new();
    let mut p: usize = 0;
    proof {
        assert(chords.deep_view() =~= Seq::<PositionedChordView>::empty());
        assert(text@ =~= Seq::<char>::empty());
    }
    loop
        invariant_except_break
            p <= n,
            n == v@.len(),
            scan_line(v@, p as int, text@, chords.deep_view()) == parse_line_seq(v@),
        ensures
            text@ == parse_line_seq(v@).text,
            chords.deep_view() == parse_line_seq(v@).chords,
        decreases n - p,
    {
        match next_chord_tok(v, p) {
            None => {
                extend_range(&mut text, v, p, n);
                proof {
                    assert(text@ =~= parse_line_seq(v@).text);
                }
                break ;
            },
            Some((i, j)) => {
                extend_range(&mut text, v, p, i);
                let ghost text2 = text@;
                let ghost chords_before = chords.deep_view();
                let interior = subvec(v, i + 1, j);
                let tok = chars_to_string(&interior);
                match Chord::parse(tok.as_str()) {
                    Some(c) => {
                        let pos = text.len();
                        chords.push(PositionedChord { position: pos, chord: c });
                        proof {
                            assert(chords.deep_view() =~= chords_before.push(
                                PositionedChordView { position: pos as int, chord: c@ },
                            ));
                        }
                    },
                    None => {},
                }
                proof {
                    assert(scan_line(v@, j + 1, text@, chords.deep_view()) == parse_line_seq(
                        v@,
                    ));
                }
                p = j + 1;
            },
        }
    }
    let r = SongLine { text: chars_to_string(&text), chords };
    proof {
        assert(r@.chords =~= parse_line_seq(v@).chords);
    }
    r
}

// ---------------------------------------------------------------------------
// The parse fold
// ---------------------------------------------------------------------------

/// The state the parser threads through the lines: the song built so far
/// and the currently open section, if any.
#[verifier::ext_equal]
pub struct ParseStateView {
    pub song: ParsedSongView,
    pub cur: Option<SongSectionView>,
}

pub open spec fn empty_line_view() -> SongLineView {
    SongLineView { text: Seq::empty(), chords: Seq::empty() }
}

/// The state before any line is read: no metadata, no sections, no open
/// section.
pub open spec fn initial_state() -> ParseStateView {
    ParseStateView {
        song: ParsedSongView {
            title: None,
            subtitle: None,
            artist: None,
            composer: None,
            key: None,
            tempo: None,
            time_signature: None,
            capo: None,
            sections: Seq::empty(),
        },
        cur: None,
    }
}

/// Closing the open section: appended to the song when it has at least one
/// line, discarded otherwise.
pub open spec fn flush_state(st: ParseStateView) -> ParseStateView {
    match st.cur {
        Some(sec) => ParseStateView {
            song: if sec.lines.len() > 0 {
                ParsedSongView { sections: st.song.sections.push(sec), ..st.song }
            } else {
                st.song
            },
            cur: None,
        },
        None => st,
    }
}

/// Directive dispatch: the lower-cased name selects a metadata field
/// (last occurrence wins), `tempo` and `capo` parse their value as an
/// integer, a comment appends a chord-less line to the open section, and
/// any other name is ignored.
pub open spec fn apply_directive(
    st: ParseStateView,
    name: Seq<char>,
    value: Option<Seq<char>>,
) -> ParseStateView {
    if name_is_ci(name, seq!['t', 'i', 't', 'l', 'e']) || name_is_ci(name, seq!['t']) {
        ParseStateView { song: ParsedSongView { title: value, ..st.song }, cur: st.cur }
    } else if name_is_ci(name, seq!['s', 'u', 'b', 't', 'i', 't', 'l', 'e']) || name_is_ci(
        name,
        seq!['s', 't'],
    ) {
        ParseStateView { song: ParsedSongView { subtitle: value, ..st.song }, cur: st.cur }
    } else if name_is_ci(name, seq!['a', 'r', 't', 'i', 's', 't']) || name_is_ci(
        name,
        seq!['a'],
    ) {
        ParseStateView { song: ParsedSongView { artist: value, ..st.song }, cur: st.cur }
    } else if name_is_ci(name, seq!['c', 'o', 'm', 'p', 'o', 's', 'e', 'r']) {
        ParseStateView { song: ParsedSongView { composer: value, ..st.song }, cur: st.cur }
    } else if name_is_ci(name, seq!['k', 'e', 'y']) {
        ParseStateView { song: ParsedSongView { key: value, ..st.song }, cur: st.cur }
    } else if name_is_ci(name, seq!['t', 'e', 'm', 'p', 'o']) {
        let tempo = match value {
            Some(v) => parse_i32_spec(v),
            None => None,
        };
        ParseStateView { song: ParsedSongView { tempo, ..st.song }, cur: st.cur }
    } else if name_is_ci(name, seq!['t', 'i', 'm', 'e']) {
        ParseStateView { song: ParsedSongView { time_signature: value, ..st.song }, cur: st.cur }
    } else if name_is_ci(name, seq!['c', 'a', 'p', 'o']) {
        let capo = match value {
            Some(v) => parse_i32_spec(v),
            None => None,
        };
        ParseStateView { song: ParsedSongView { capo, ..st.song }, cur: st.cur }
    } else if name_is_ci(name, seq!['c']) || name_is_ci(
        name,
        seq!['c', 'o', 'm', 'm', 'e', 'n', 't'],
    ) {
        match (st.cur, value) {
            (Some(sec), Some(text)) => ParseStateView {
                song: st.song,
                cur: Some(
                    SongSectionView {
                        lines: sec.lines.push(SongLineView { text, chords: Seq::empty() }),
                        ..sec
                    },
                ),
            },
            _ => st,
        }
    } else {
        st
    }
}

/// One line of the fold, in priority order: blank lines pad the open
/// section, then section start, section end, directive, and finally a
/// content line, which opens an unlabeled verse when no section is open and
/// the line carries text or chords.
pub open spec fn parse_step(st: ParseStateView, line: Seq<char>) -> ParseStateView {
    let t = trim(line);
    if t.len() == 0 {
        match st.cur {
            Some(sec) => ParseStateView {
                song: st.song,
                cur: Some(SongSectionView { lines: sec.lines.push(empty_line_view()), ..sec }),
            },
            None => st,
        }
    } else if find_section_start_pos(t, 0) < t.len() {
        let p = find_section_start_pos(t, 0);
        ParseStateView {
            song: flush_state(st).song,
            cur: Some(
                SongSectionView {
                    section_type: section_type_at(t, p),
                    label: section_label_at(t, p),
                    lines: Seq::empty(),
                },
            ),
        }
    } else if has_section_end(t) {
        flush_state(st)
    } else if find_directive_pos(t, 0) < t.len() {
        let p = find_directive_pos(t, 0);
        apply_directive(st, directive_name_at(t, p), directive_value_at(t, p))
    } else {
        let l = parse_line_seq(t);
        match st.cur {
            Some(sec) => ParseStateView {
                song: st.song,
                cur: Some(SongSectionView { lines: sec.lines.push(l), ..sec }),
            },
            None => {
                if l.text.len() > 0 || l.chords.len() > 0 {
                    ParseStateView {
                        song: st.song,
                        cur: Some(
                            SongSectionView {
                                section_type: SongSectionType::Verse,
                                label: None,
                                lines: seq![l],
                            },
                        ),
                    }
                } else {
                    st
                }
            },
        }
    }
}

/// The fold of `parse_step` over a sequence of lines.
pub open spec fn fold_lines(st: ParseStateView, lines: Seq<Seq<char>>) -> ParseStateView
    decreases lines.len(),
{
    if lines.len() == 0 {
        st
    } else {
        fold_lines(parse_step(st, lines[0]), lines.subrange(1, lines.len() as int))
    }
}

/// What parsing yields on a whole document: the fold over its lines, with
/// a still-open section flushed at the end.
pub open spec fn parse_song_seq(content: Seq<char>) -> ParsedSongView {
    flush_state(fold_lines(initial_state(), split_lines(content))).song
}

// ---------------------------------------------------------------------------
// Exec steps
// ---------------------------------------------------------------------------

/// Flushes the open section into the song.
fn flush_exec(song: ParsedSong, cur: Option<SongSection>) -> (r: (ParsedSong, Option<
    SongSection,
>))
    ensures
        ({
            let st2 = flush_state(ParseStateView { song: song@, cur: cur.deep_view() });
            r.0@ == st2.song && r.1.deep_view() == st2.cur
        }),
{
    let ghost st2 = flush_state(ParseStateView { song: song@, cur: cur.deep_view() });
    match cur {
        Some(sec) => {
            if sec.lines.len() > 0 {
                let mut song = song;
                song.sections.push(sec);
                proof {
                    assert(song@.sections =~= st2.song.sections);
                }
                (song, None)
            } else {
                (song, None)
            }
        },
        None => (song, None),
    }
}

/// Applies the directive whose name is `lv[nf..nf+nl]` and whose value, when
/// present, is `lv[vf..vt]`.
fn apply_directive_exec(
    song: ParsedSong,
    cur: Option<SongSection>,
    lv: &Vec<char>,
    nf: usize,
    nl: usize,
    val: Option<(usize, usize)>,
) -> (r: (ParsedSong, Option<SongSection>))
    requires
        nf + nl <= lv@.len(),
        match val {
            Some((vf, vt)) => vf <= vt <= lv@.len(),
            None => true,
        },
    ensures
        ({
            let name = lv@.subrange(nf as int, nf + nl as int);
            let value = match val {
                Some((vf, vt)) => Some(lv@.subrange(vf as int, vt as int)),
                None => None,
            };
            let st2 = apply_directive(
                ParseStateView { song: song@, cur: cur.deep_view() },
                name,
                value,
            );
            r.0@ == st2.song && r.1.deep_view() == st2.cur
        }),
{
    proof {
        reveal_strlit("title");
        reveal_strlit("t");
        reveal_strlit("subtitle");
        reveal_strlit("st");
        reveal_strlit("artist");
        reveal_strlit("a");
        reveal_strlit("composer");
        reveal_strlit("key");
        reveal_strlit("tempo");
        reveal_strlit("time");
        reveal_strlit("capo");
        reveal_strlit("c");
        reveal_strlit("comment");
        assert("title"@ =~= seq!['t', 'i', 't', 'l', 'e']);
        assert("t"@ =~= seq!['t']);
        assert("subtitle"@ =~= seq!['s', 'u', 'b', 't', 'i', 't', 'l', 'e']);
        assert("st"@ =~= seq!['s', 't']);
        assert("artist"@ =~= seq!['a', 'r', 't', 'i', 's', 't']);
        assert("a"@ =~= seq!['a']);
        assert("composer"@ =~= seq!['c', 'o', 'm', 'p', 'o', 's', 'e', 'r']);
        assert("key"@ =~= seq!['k', 'e', 'y']);
        assert("tempo"@ =~= seq!['t', 'e', 'm', 'p', 'o']);
        assert("time"@ =~= seq!['t', 'i', 'm', 'e']);
        assert("capo"@ =~= seq!['c', 'a', 'p', 'o']);
        assert("c"@ =~= seq!['c']);
        assert("comment"@ =~= seq!['c', 'o', 'm', 'm', 'e', 'n', 't']);
    }
    let mut song = song;
    if name_matches(lv, nf, nl, "title") || name_matches(lv, nf, nl, "t") {
        song.title = make_value(lv, val);
        (song, cur)
    } else if name_matches(lv, nf, nl, "subtitle") || name_matches(lv, nf, nl, "st") {
        song.subtitle = make_value(lv, val);
        (song, cur)
    } else if name_matches(lv, nf, nl, "artist") || name_matches(lv, nf, nl, "a") {
        song.artist = make_value(lv, val);
        (song, cur)
    } else if name_matches(lv, nf, nl, "composer") {
        song.composer = make_value(lv, val);
        (song, cur)
    } else if name_matches(lv, nf, nl, "key") {
        song.key = make_value(lv, val);
        (song, cur)
    } else if name_matches(lv, nf, nl, "tempo") {
        song.tempo = match val {
            Some((vf, vt)) => parse_i32_range(lv, vf, vt),
            None => None,
        };
        (song, cur)
    } else if name_matches(lv, nf, nl, "time") {
        song.time_signature = make_value(lv, val);
        (song, cur)
    } else if name_matches(lv, nf, nl, "capo") {
        song.capo = match val {
            Some((vf, vt)) => parse_i32_range(lv, vf, vt),
            None => None,
        };
        (song, cur)
    } else if name_matches(lv, nf, nl, "c") || name_matches(lv, nf, nl, "comment") {
        match (cur, val) {
            (Some(mut sec), Some((vf, vt))) => {
                let text = chars_to_string(&subvec(lv, vf, vt));
                let ghost lines_before = sec.lines.deep_view();
                sec.lines.push(SongLine { text, chords: Vec::new() });
                proof {
                    assert(sec.lines.deep_view() =~~= lines_before.push(
                        SongLineView {
                            text: lv@.subrange(vf as int, vt as int),
                            chords: Seq::<PositionedChordView>::empty(),
                        },
                    ));
                }
                (song, Some(sec))
            },
            (c, _) => (song, c),
        }
    } else {
        (song, cur)
    }
}

/// The directive value as an owned string.
fn make_value(lv: &Vec<char>, val: Option<(usize, usize)>) -> (r: Option<String>)
    requires
        match val {
            Some((vf, vt)) => vf <= vt <= lv@.len(),
            None => true,
        },
    ensures
        r.deep_view() == match val {
            Some((vf, vt)) => Some(lv@.subrange(vf as int, vt as int)),
            None => None::<Seq<char>>,
        },
{
    match val {
        Some((vf, vt)) => Some(chars_to_string(&subvec(lv, vf, vt))),
        None => None,
    }
}

/// One line of the parse: classifies the trimmed line and advances the
/// state exactly as `parse_step` says.
fn step_line(song: ParsedSong, cur: Option<SongSection>, line: &Vec<char>) -> (r: (ParsedSong,
    Option<SongSection>))
    ensures
        ({
            let st2 = parse_step(ParseStateView { song: song@, cur: cur.deep_view() }, line@);
            r.0@ == st2.song && r.1.deep_view() == st2.cur
        }),
{
    proof {
        assert(line@.subrange(0, line@.len() as int) =~= line@);
    }
    let (a, b) = trim_range(line, 0, line.len());
    let ghost t = trim(line@);
    if a == b {
        match cur {
            Some(mut sec) => {
                let ghost lines_before = sec.lines.deep_view();
                sec.lines.push(SongLine { text: String::new(), chords: Vec::new() });
                proof {
                    assert(sec.lines.deep_view() =~~= lines_before.push(empty_line_view()));
                }
                (song, Some(sec))
            },
            None => (song, None),
        }
    } else {
        let lv = subvec(line, a, b);
        match scan_section_start(&lv) {
            Some((ty, lab)) => {
                let label = make_value(&lv, lab);
                let (song2, _none) = flush_exec(song, cur);
                (song2, Some(SongSection { section_type: ty, label, lines: Vec::new() }))
            },
            None => {
                if scan_section_end(&lv) {
                    flush_exec(song, cur)
                } else {
                    match scan_directive(&lv) {
                        Some((nf, nl, val)) => apply_directive_exec(song, cur, &lv, nf, nl, val),
                        None => {
                            let l = parse_line_chars(&lv);
                            match cur {
                                Some(mut sec) => {
                                    let ghost lines_before = sec.lines.deep_view();
                                    let ghost lv_parsed = l@;
                                    sec.lines.push(l);
                                    proof {
                                        assert(sec.lines.deep_view() =~= lines_before.push(
                                            lv_parsed,
                                        ));
                                    }
                                    (song, Some(sec))
                                },
                                None => {
                                    if l.text.as_str().unicode_len() > 0 || l.chords.len() > 0 {
                                        let ghost lv_parsed = l@;
                                        let mut lines0: Vec<SongLine> = Vec::new();
                                        lines0.push(l);
                                        proof {
                                            assert(lines0.deep_view() =~= seq![lv_parsed]);
                                        }
                                        (
                                            song,
                                            Some(
                                                SongSection {
                                                    section_type: SongSectionType::Verse,
                                                    label: None,
                                                    lines: lines0,
                                                },
                                            ),
                                        )
                                    } else {
                                        (song, None)
                                    }
                                },
                            }
                        },
                    }
                }
            },
        }
    }
}

// ---------------------------------------------------------------------------
// Plain-text extraction
// ---------------------------------------------------------------------------

/// The text a line contributes to the plain-text form: a brace-wrapped line
/// contributes its comment value (directives of any other name nothing), any
/// other line its trimmed chord-stripped text; non-empty contributions end
/// in a newline.
pub open spec fn strip_line(line: Seq<char>) -> Seq<char> {
    let t = trim(line);
    if t.len() > 0 && t[0] == '{' && t[t.len() - 1] == '}' {
        let p = find_directive_pos(t, 0);
        if p < t.len() && (name_is_ci(directive_name_at(t, p), seq!['c']) || name_is_ci(
            directive_name_at(t, p),
            seq!['c', 'o', 'm', 'm', 'e', 'n', 't'],
        )) && directive_value_at(t, p) is Some {
            directive_value_at(t, p)->Some_0 + seq!['\n']
        } else {
            Seq::empty()
        }
    } else {
        let plain = trim(parse_line_seq(t).text);
        if plain.len() > 0 {
            plain + seq!['\n']
        } else {
            Seq::empty()
        }
    }
}

pub open spec fn strip_fold(lines: Seq<Seq<char>>) -> Seq<char>
    decreases lines.len(),
{
    if lines.len() == 0 {
        Seq::empty()
    } else {
        strip_line(lines[0]) + strip_fold(lines.subrange(1, lines.len() as int))
    }
}

/// The plain-text form of a document: each line's contribution, joined, and
/// the whole trimmed.
pub open spec fn strip_chords_seq(content: Seq<char>) -> Seq<char> {
    trim(strip_fold(split_lines(content)))
}

/// The first content line: the first line that is neither blank nor
/// brace-wrapped and whose chord-stripped trimmed text is non-empty; the
/// empty sequence when there is none.
pub open spec fn first_line_of(lines: Seq<Seq<char>>) -> Seq<char>
    decreases lines.len(),
{
    if lines.len() == 0 {
        Seq::empty()
    } else {
        let t = trim(lines[0]);
        let rest = lines.subrange(1, lines.len() as int);
        if t.len() == 0 || (t[0] == '{' && t[t.len() - 1] == '}') {
            first_line_of(rest)
        } else {
            let plain = trim(parse_line_seq(t).text);
            if plain.len() > 0 {
                plain
            } else {
                first_line_of(rest)
            }
        }
    }
}

pub open spec fn extract_first_line_seq(content: Seq<char>) -> Seq<char> {
    first_line_of(split_lines(content))
}

/// The value of the first `title`/`t` directive, scanning line by line; the
/// first such directive decides, even when it has no value.
pub open spec fn title_of(lines: Seq<Seq<char>>) -> Option<Seq<char>>
    decreases lines.len(),
{
    if lines.len() == 0 {
        None
    } else {
        let t = trim(lines[0]);
        let p = find_directive_pos(t, 0);
        let rest = lines.subrange(1, lines.len() as int);
        if p < t.len() && (name_is_ci(directive_name_at(t, p), seq!['t', 'i', 't', 'l', 'e'])
            || name_is_ci(directive_name_at(t, p), seq!['t'])) {
            directive_value_at(t, p)
        } else {
            title_of(rest)
        }
    }
}

pub open spec fn extract_title_seq(content: Seq<char>) -> Option<Seq<char>> {
    title_of(split_lines(content))
}

/// The value of the first `key` directive, scanning line by line.
pub open spec fn key_of(lines: Seq<Seq<char>>) -> Option<Seq<char>>
    decreases lines.len(),
{
    if lines.len() == 0 {
        None
    } else {
        let t = trim(lines[0]);
        let p = find_directive_pos(t, 0);
        let rest = lines.subrange(1, lines.len() as int);
        if p < t.len() && name_is_ci(directive_name_at(t, p), seq!['k', 'e', 'y']) {
            directive_value_at(t, p)
        } else {
            key_of(rest)
        }
    }
}

pub open spec fn extract_key_seq(content: Seq<char>) -> Option<Seq<char>> {
    key_of(split_lines(content))
}

/// The section type a keyword names, matched case-insensitively against the
/// known aliases; anything else is `Other`.
pub open spec fn section_type_of_name(s: Seq<char>) -> SongSectionType {
    if name_is_ci(s, seq!['v', 'e', 'r', 's', 'e']) || name_is_ci(s, seq!['v']) {
        SongSectionType::Verse
    } else if name_is_ci(s, seq!['c', 'h', 'o', 'r', 'u', 's']) || name_is_ci(s, seq!['c']) {
        SongSectionType::Chorus
    } else if name_is_ci(s, seq!['b', 'r', 'i', 'd', 'g', 'e']) || name_is_ci(s, seq!['b']) {
        SongSectionType::Bridge
    } else if name_is_ci(s, seq!['p', 'r', 'e', 'c', 'h', 'o', 'r', 'u', 's']) || name_is_ci(
        s,
        seq!['p', 'r', 'e', '-', 'c', 'h', 'o', 'r', 'u', 's'],
    ) || name_is_ci(s, seq!['p', 'c']) {
        SongSectionType::PreChorus
    } else if name_is_ci(s, seq!['i', 'n', 't', 'r', 'o']) {
        SongSectionType::Intro
    } else if name_is_ci(s, seq!['o', 'u', 't', 'r', 'o']) {
        SongSectionType::Outro
    } else if name_is_ci(s, seq!['i', 'n', 't', 'e', 'r', 'l', 'u', 'd', 'e']) {
        SongSectionType::Interlude
    } else if name_is_ci(s, seq!['t', 'a', 'g']) {
        SongSectionType::Tag
    } else if name_is_ci(s, seq!['e', 'n', 'd', 'i', 'n', 'g']) || name_is_ci(
        s,
        seq!['c', 'o', 'd', 'a'],
    ) {
        SongSectionType::Ending
    } else {
        SongSectionType::Other
    }
}

// ---------------------------------------------------------------------------
// Laws
// ---------------------------------------------------------------------------

/// Every section in the list holds at least one line.
pub open spec fn sections_nonempty(sections: Seq<SongSectionView>) -> bool {
    forall|i: int| 0 <= i < sections.len() ==> sections[i].lines.len() > 0
}

proof fn lemma_flush_nonempty(st: ParseStateView)
    requires
        sections_nonempty(st.song.sections),
    ensures
        sections_nonempty(flush_state(st).song.sections),
{
    match st.cur {
        Some(sec) => {
            if sec.lines.len() > 0 {
                let pushed = st.song.sections.push(sec);
                assert forall|i: int| 0 <= i < pushed.len() implies pushed[i].lines.len() > 0 by {
                    if i < st.song.sections.len() {
                        assert(pushed[i] == st.song.sections[i]);
                    }
                }
            }
        },
        None => {},
    }
}

proof fn lemma_step_nonempty(st: ParseStateView, line: Seq<char>)
    requires
        sections_nonempty(st.song.sections),
    ensures
        sections_nonempty(parse_step(st, line).song.sections),
{
    lemma_flush_nonempty(st);
}

proof fn lemma_fold_nonempty(st: ParseStateView, lines: Seq<Seq<char>>)
    requires
        sections_nonempty(st.song.sections),
    ensures
        sections_nonempty(fold_lines(st, lines).song.sections),
    decreases lines.len(),
{
    if lines.len() > 0 {
        lemma_step_nonempty(st, lines[0]);
        lemma_fold_nonempty(parse_step(st, lines[0]), lines.subrange(1, lines.len() as int));
    }
}

/// A section opened and closed with no content between never appears: every
/// section of a parsed song holds at least one line.
pub proof fn lemma_no_empty_sections(content: Seq<char>)
    ensures
        sections_nonempty(parse_song_seq(content).sections),
{
    lemma_fold_nonempty(initial_state(), split_lines(content));
    lemma_flush_nonempty(fold_lines(initial_state(), split_lines(content)));
}

/// The invariant of a parsed line: every chord position lies within the
/// stripped text, and positions are non-decreasing in encounter order.
pub open spec fn line_wf(l: SongLineView) -> bool {
    &&& forall|i: int| 0 <= i < l.chords.len() ==> 0 <= #[trigger] l.chords[i].position
        <= l.text.len()
    &&& forall|i: int, j: int| 0 <= i <= j < l.chords.len() ==> #[trigger] l.chords[i].position
        <= #[trigger] l.chords[j].position
}

proof fn lemma_scan_line_wf(s: Seq<char>, p: int, text: Seq<char>, chords: Seq<
    PositionedChordView,
>)
    requires
        forall|i: int| 0 <= i < chords.len() ==> 0 <= #[trigger] chords[i].position <= text.len(),
        forall|i: int, j: int| 0 <= i <= j < chords.len() ==> #[trigger] chords[i].position
            <= #[trigger] chords[j].position,
    ensures
        line_wf(scan_line(s, p, text, chords)),
        scan_line(s, p, text, chords).text.len() >= text.len(),
    decreases s.len() - p,
{
    if p < 0 || p > s.len() {
    } else {
        lemma_find_chord_tok(s, p);
        let i = find_chord_tok(s, p);
        if i == s.len() {
        } else {
            lemma_chord_tok_close(s, i);
            let j = chord_tok_close(s, i);
            let text2 = text + s.subrange(p, i);
            let chords2 = match parse_chord_seq(s.subrange(i + 1, j)) {
                Some(c) => chords.push(
                    PositionedChordView { position: text2.len() as int, chord: c },
                ),
                None => chords,
            };
            assert(forall|k: int| 0 <= k < chords.len() ==> chords2[k] == chords[k]);
            lemma_scan_line_wf(s, j + 1, text2, chords2);
        }
    }
}

/// Within every parsed line, the chord positions lie within the stripped
/// text and are non-decreasing.
pub proof fn lemma_parse_line_positions(line: Seq<char>)
    ensures
        line_wf(parse_line_seq(line)),
{
    lemma_scan_line_wf(line, 0, Seq::empty(), Seq::empty());
}

/// The line invariant, over a whole song and the open section.
pub open spec fn song_lines_wf(song: ParsedSongView) -> bool {
    forall|i: int, j: int|
        0 <= i < song.sections.len() && 0 <= j < song.sections[i].lines.len() ==> line_wf(
            #[trigger] song.sections[i].lines[j],
        )
}

pub open spec fn state_lines_wf(st: ParseStateView) -> bool {
    &&& song_lines_wf(st.song)
    &&& match st.cur {
        Some(sec) => forall|j: int| 0 <= j < sec.lines.len() ==> line_wf(#[trigger] sec.lines[j]),
        None => true,
    }
}

proof fn lemma_flush_lines_wf(st: ParseStateView)
    requires
        state_lines_wf(st),
    ensures
        state_lines_wf(flush_state(st)),
{
    match st.cur {
        Some(sec) => {
            if sec.lines.len() > 0 {
                let pushed = st.song.sections.push(sec);
                assert forall|i: int, j: int|
                    0 <= i < pushed.len() && 0 <= j < pushed[i].lines.len() implies line_wf(
                    pushed[i].lines[j],
                ) by {
                    if i < st.song.sections.len() {
                        assert(pushed[i] == st.song.sections[i]);
                    } else {
                        assert(pushed[i] == sec);
                    }
                }
            }
        },
        None => {},
    }
}

proof fn lemma_step_lines_wf(st: ParseStateView, line: Seq<char>)
    requires
        state_lines_wf(st),
    ensures
        state_lines_wf(parse_step(st, line)),
{
    lemma_flush_lines_wf(st);
    let t = trim(line);
    if t.len() == 0 {
    } else if find_section_start_pos(t, 0) < t.len() {
    } else if has_section_end(t) {
    } else if find_directive_pos(t, 0) < t.len() {
    } else {
        lemma_parse_line_positions(t);
    }
}

proof fn lemma_fold_lines_wf(st: ParseStateView, lines: Seq<Seq<char>>)
    requires
        state_lines_wf(st),
    ensures
        state_lines_wf(fold_lines(st, lines)),
    decreases lines.len(),
{
    if lines.len() > 0 {
        lemma_step_lines_wf(st, lines[0]);
        lemma_fold_lines_wf(parse_step(st, lines[0]), lines.subrange(1, lines.len() as int));
    }
}

/// In every line of a parsed song, chord positions lie within the line's
/// text and come in non-decreasing order.
pub proof fn lemma_parse_positions(content: Seq<char>)
    ensures
        song_lines_wf(parse_song_seq(content)),
{
    lemma_fold_lines_wf(initial_state(), split_lines(content));
    lemma_flush_lines_wf(fold_lines(initial_state(), split_lines(content)));
}

/// A line of a directive-only document: blank after trimming, or a single
/// brace-wrapped directive that is no section marker.
pub open spec fn is_directive_only_line(line: Seq<char>) -> bool {
    let t = trim(line);
    t.len() == 0 || {
        &&& t[0] == '{'
        &&& t[t.len() - 1] == '}'
        &&& find_section_start_pos(t, 0) == t.len()
        &&& !has_section_end(t)
        &&& find_directive_pos(t, 0) < t.len()
    }
}

/// No section is open and none has been produced.
pub open spec fn quiet_state(st: ParseStateView) -> bool {
    st.cur is None && st.song.sections.len() == 0
}

proof fn lemma_apply_directive_quiet(st: ParseStateView, name: Seq<char>, value: Option<
    Seq<char>,
>)
    requires
        quiet_state(st),
    ensures
        quiet_state(apply_directive(st, name, value)),
{
}

proof fn lemma_step_quiet(st: ParseStateView, line: Seq<char>)
    requires
        quiet_state(st),
        is_directive_only_line(line),
    ensures
        quiet_state(parse_step(st, line)),
{
    let t = trim(line);
    if t.len() > 0 {
        let p = find_directive_pos(t, 0);
        lemma_apply_directive_quiet(st, directive_name_at(t, p), directive_value_at(t, p));
    }
}

proof fn lemma_fold_quiet(st: ParseStateView, lines: Seq<Seq<char>>)
    requires
        quiet_state(st),
        forall|i: int| 0 <= i < lines.len() ==> is_directive_only_line(#[trigger] lines[i]),
    ensures
        quiet_state(fold_lines(st, lines)),
    decreases lines.len(),
{
    if lines.len() > 0 {
        lemma_step_quiet(st, lines[0]);
        let rest = lines.subrange(1, lines.len() as int);
        assert(forall|i: int| 0 <= i < rest.len() ==> rest[i] == lines[i + 1]);
        lemma_fold_quiet(parse_step(st, lines[0]), rest);
    }
}

proof fn lemma_first_line_quiet(lines: Seq<Seq<char>>)
    requires
        forall|i: int| 0 <= i < lines.len() ==> is_directive_only_line(#[trigger] lines[i]),
    ensures
        first_line_of(lines) == Seq::<char>::empty(),
    decreases lines.len(),
{
    if lines.len() > 0 {
        let rest = lines.subrange(1, lines.len() as int);
        assert(forall|i: int| 0 <= i < rest.len() ==> rest[i] == lines[i + 1]);
        lemma_first_line_quiet(rest);
    }
}

/// A directive-only document — every line blank or a lone non-marker
/// directive — produces no sections, and its first content line is empty.
pub proof fn lemma_directive_only_document(content: Seq<char>)
    requires
        forall|i: int| 0 <= i < split_lines(content).len() ==> is_directive_only_line(
            #[trigger] split_lines(content)[i],
        ),
    ensures
        parse_song_seq(content).sections.len() == 0,
        extract_first_line_seq(content) == Seq::<char>::empty(),
{
    lemma_fold_quiet(initial_state(), split_lines(content));
    lemma_first_line_quiet(split_lines(content));
}

/// The chord-stripped text of a line: the scan of `parse_line_seq` with the
/// chords kept only in ghost state.
fn line_text_chars(v: &Vec<char>) -> (r: Vec<char>)
    ensures
        r@ == parse_line_seq(v@).text,
{
    let n = v.len();
    let mut text: Vec<char> = Vec::new();
    let ghost mut chords: Seq<PositionedChordView> = Seq::empty();
    let mut p: usize = 0;
    loop
        invariant_except_break
            p <= n,
            n == v@.len(),
            scan_line(v@, p as int, text@, chords) == parse_line_seq(v@),
        ensures
            text@ == parse_line_seq(v@).text,
        decreases n - p,
    {
        match next_chord_tok(v, p) {
            None => {
                extend_range(&mut text, v, p, n);
                proof {
                    assert(text@ =~= parse_line_seq(v@).text);
                }
                break ;
            },
            Some((i, j)) => {
                extend_range(&mut text, v, p, i);
                proof {
                    chords = match parse_chord_seq(v@.subrange(i + 1, j as int)) {
                        Some(c) => chords.push(
                            PositionedChordView { position: text@.len() as int, chord: c },
                        ),
                        None => chords,
                    };
                }
                p = j + 1;
            },
        }
    }
    text
}

/// ChordPro format parser
pub struct ChordProParser;

impl ChordProParser {
    /// Parse ChordPro content into structured song
    pub fn parse(content: &str) -> (r: ParsedSong)
        ensures
            r@ == parse_song_seq(content@),
    {
        let v = str_to_chars(content);
        proof {
            assert(v@.subrange(0, v@.len() as int) =~= v@);
        }
        let n = v.len();
        let mut song = ParsedSong {
            title: None,
            subtitle: None,
            artist: None,
            composer: None,
            key: None,
            tempo: None,
            time_signature: None,
            capo: None,
            sections: Vec::new(),
        };
        let mut cur: Option<SongSection> = None;
        proof {
            assert(song@.sections =~= initial_state().song.sections);
            assert(song@ == initial_state().song);
        }
        let mut p: usize = 0;
        while p < n
            invariant
                p <= n,
                n == v@.len(),
                v@ == content@,
                fold_lines(
                    ParseStateView { song: song@, cur: cur.deep_view() },
                    split_lines(v@.subrange(p as int, n as int)),
                ) == fold_lines(initial_state(), split_lines(v@)),
            decreases n - p,
        {
            let ghost s1 = v@.subrange(p as int, n as int);
            let nl = find_char(&v, p, n, '\n');
            let line_end = if nl < n && nl > p && v[nl - 1] == '\r' {
                nl - 1
            } else {
                nl
            };
            let line = subvec(&v, p, line_end);
            proof {
                assert(s1.len() > 0);
                assert(crate::text::find_first(s1, '\n') == nl - p);
                if nl < n {
                    assert(s1.subrange(0, nl - p) =~= v@.subrange(p as int, nl as int));
                    assert(line@ =~= strip_cr(s1.subrange(0, nl - p)));
                    assert(s1.subrange(nl - p + 1, s1.len() as int) =~= v@.subrange(
                        nl + 1,
                        n as int,
                    ));
                    assert(split_lines(s1) == seq![line@] + split_lines(
                        v@.subrange(nl + 1, n as int),
                    ));
                    assert((seq![line@] + split_lines(v@.subrange(nl + 1, n as int)))[0]
                        == line@);
                    assert((seq![line@] + split_lines(v@.subrange(nl + 1, n as int))).subrange(
                        1,
                        split_lines(s1).len() as int,
                    ) =~= split_lines(v@.subrange(nl + 1, n as int)));
                } else {
                    assert(line@ =~= s1);
                    assert(split_lines(s1) == seq![s1]);
                    assert(split_lines(s1).subrange(1, 1) =~= Seq::<Seq<char>>::empty());
                }
            }
            let (song2, cur2) = step_line(song, cur, &line);
            song = song2;
            cur = cur2;
            p = if nl < n {
                nl + 1
            } else {
                n
            };
            proof {
                if p == n {
                    assert(v@.subrange(n as int, n as int) =~= Seq::<char>::empty());
                }
            }
        }
        proof {
            assert(v@.subrange(n as int, n as int) =~= Seq::<char>::empty());
        }
        let (song3, _none) = flush_exec(song, cur);
        song3
    }

    /// Strip chords from ChordPro content, returning plain text
    pub fn strip_chords(content: &str) -> (r: String)
        ensures
            r@ == strip_chords_seq(content@),
    {
        let v = str_to_chars(content);
        proof {
            assert(v@.subrange(0, v@.len() as int) =~= v@);
        }
        let n = v.len();
        let mut out: Vec<char> = Vec::new();
        let mut p: usize = 0;
        while p < n
            invariant
                p <= n,
                n == v@.len(),
                v@ == content@,
                out@ + strip_fold(split_lines(v@.subrange(p as int, n as int))) == strip_fold(
                    split_lines(v@),
                ),
            decreases n - p,
        {
            let ghost out_before = out@;
            let nl = find_char(&v, p, n, '\n');
            let line_end = if nl < n && nl > p && v[nl - 1] == '\r' {
                nl - 1
            } else {
                nl
            };
            let line = subvec(&v, p, line_end);
            proof {
                lemma_split_first(v@, p as int, n as int, nl as int);
                if nl < n {
                    assert(line@ =~= strip_cr(v@.subrange(p as int, nl as int)));
                }
            }
            proof {
                assert(line@.subrange(0, line@.len() as int) =~= line@);
            }
            let (a, b) = trim_range(&line, 0, line.len());
            let ghost t = trim(line@);
            if b > a && line[a] == '{' && line[b - 1] == '}' {
                let lv = subvec(&line, a, b);
                proof {
                    reveal_strlit("c");
                    reveal_strlit("comment");
                    assert("c"@ =~= seq!['c']);
                    assert("comment"@ =~= seq!['c', 'o', 'm', 'm', 'e', 'n', 't']);
                }
                match scan_directive(&lv) {
                    Some((nf, nln, val)) => {
                        if name_matches(&lv, nf, nln, "c") || name_matches(&lv, nf, nln, "comment")
                        {
                            match val {
                                Some((vf, vt)) => {
                                    extend_range(&mut out, &lv, vf, vt);
                                    out.push('\n');
                                    proof {
                                        assert(out@ =~= out_before + strip_line(line@));
                                    }
                                },
                                None => {},
                            }
                        }
                    },
                    None => {},
                }
                proof {
                    assert(out@ =~= out_before + strip_line(line@));
                }
            } else {
                let lv = subvec(&line, a, b);
                let textv = line_text_chars(&lv);
                proof {
                    assert(textv@.subrange(0, textv@.len() as int) =~= textv@);
                }
                let (pa, pb) = trim_range(&textv, 0, textv.len());
                if pb > pa {
                    extend_range(&mut out, &textv, pa, pb);
                    out.push('\n');
                }
                proof {
                    assert(out@ =~= out_before + strip_line(line@));
                }
            }
            proof {
                let ghost s1 = v@.subrange(p as int, n as int);
                let rest = if nl < n {
                    v@.subrange(nl + 1, n as int)
                } else {
                    Seq::<char>::empty()
                };
                assert(strip_fold(split_lines(s1)) == strip_line(line@) + strip_fold(
                    split_lines(rest),
                ));
                assert(out@ + strip_fold(split_lines(rest)) =~= strip_fold(split_lines(v@)));
                if nl >= n {
                    assert(v@.subrange(n as int, n as int) =~= Seq::<char>::empty());
                }
            }
            p = if nl < n {
                nl + 1
            } else {
                n
            };
        }
        proof {
            assert(v@.subrange(n as int, n as int) =~= Seq::<char>::empty());
            assert(out@ =~= strip_fold(split_lines(v@)));
            assert(out@.subrange(0, out@.len() as int) =~= out@);
        }
        let (fa, fb) = trim_range(&out, 0, out.len());
        chars_to_string(&subvec(&out, fa, fb))
    }

    /// Extract first line of lyrics (for search indexing)
    pub fn extract_first_line(content: &str) -> (r: String)
        ensures
            r@ == extract_first_line_seq(content@),
    {
        let v = str_to_chars(content);
        proof {
            assert(v@.subrange(0, v@.len() as int) =~= v@);
        }
        let n = v.len();
        let mut p: usize = 0;
        while p < n
            invariant
                p <= n,
                n == v@.len(),
                v@ == content@,
                first_line_of(split_lines(v@.subrange(p as int, n as int)))
                    == extract_first_line_seq(v@),
            decreases n - p,
        {
            let nl = find_char(&v, p, n, '\n');
            let line_end = if nl < n && nl > p && v[nl - 1] == '\r' {
                nl - 1
            } else {
                nl
            };
            let line = subvec(&v, p, line_end);
            proof {
                lemma_split_first(v@, p as int, n as int, nl as int);
                if nl < n {
                    assert(line@ =~= strip_cr(v@.subrange(p as int, nl as int)));
                }
                assert(line@.subrange(0, line@.len() as int) =~= line@);
            }
            let (a, b) = trim_range(&line, 0, line.len());
            if b > a && !(line[a] == '{' && line[b - 1] == '}') {
                let lv = subvec(&line, a, b);
                let textv = line_text_chars(&lv);
                proof {
                    assert(textv@.subrange(0, textv@.len() as int) =~= textv@);
                }
                let (pa, pb) = trim_range(&textv, 0, textv.len());
                if pb > pa {
                    return chars_to_string(&subvec(&textv, pa, pb));
                }
            }
            proof {
                if nl >= n {
                    assert(v@.subrange(n as int, n as int) =~= Seq::<char>::empty());
                }
            }
            p = if nl < n {
                nl + 1
            } else {
                n
            };
        }
        proof {
            assert(v@.subrange(n as int, n as int) =~= Seq::<char>::empty());
            assert(split_lines(Seq::<char>::empty()) =~= Seq::<Seq<char>>::empty());
        }
        String::new()
    }

    /// Extract title from ChordPro content
    pub fn extract_title(content: &str) -> (r: Option<String>)
        ensures
            r.deep_view() == extract_title_seq(content@),
    {
        let v = str_to_chars(content);
        proof {
            assert(v@.subrange(0, v@.len() as int) =~= v@);
        }
        let n = v.len();
        let mut p: usize = 0;
        while p < n
            invariant
                p <= n,
                n == v@.len(),
                v@ == content@,
                title_of(split_lines(v@.subrange(p as int, n as int))) == extract_title_seq(v@),
            decreases n - p,
        {
            let nl = find_char(&v, p, n, '\n');
            let line_end = if nl < n && nl > p && v[nl - 1] == '\r' {
                nl - 1
            } else {
                nl
            };
            let line = subvec(&v, p, line_end);
            proof {
                lemma_split_first(v@, p as int, n as int, nl as int);
                if nl < n {
                    assert(line@ =~= strip_cr(v@.subrange(p as int, nl as int)));
                }
                assert(line@.subrange(0, line@.len() as int) =~= line@);
                reveal_strlit("title");
                reveal_strlit("t");
                assert("title"@ =~= seq!['t', 'i', 't', 'l', 'e']);
                assert("t"@ =~= seq!['t']);
            }
            let (a, b) = trim_range(&line, 0, line.len());
            let lv = subvec(&line, a, b);
            match scan_directive(&lv) {
                Some((nf, nln, val)) => {
                    if name_matches(&lv, nf, nln, "title") || name_matches(&lv, nf, nln, "t") {
                        return make_value(&lv, val);
                    }
                },
                None => {},
            }
            proof {
                if nl >= n {
                    assert(v@.subrange(n as int, n as int) =~= Seq::<char>::empty());
                }
            }
            p = if nl < n {
                nl + 1
            } else {
                n
            };
        }
        proof {
            assert(v@.subrange(n as int, n as int) =~= Seq::<char>::empty());
            assert(split_lines(Seq::<char>::empty()) =~= Seq::<Seq<char>>::empty());
        }
        None
    }

    /// Extract key from ChordPro content
    pub fn extract_key(content: &str) -> (r: Option<String>)
        ensures
            r.deep_view() == extract_key_seq(content@),
    {
        let v = str_to_chars(content);
        proof {
            assert(v@.subrange(0, v@.len() as int) =~= v@);
        }
        let n = v.len();
        let mut p: usize = 0;
        while p < n
            invariant
                p <= n,
                n == v@.len(),
                v@ == content@,
                key_of(split_lines(v@.subrange(p as int, n as int))) == extract_key_seq(v@),
            decreases n - p,
        {
            let nl = find_char(&v, p, n, '\n');
            let line_end = if nl < n && nl > p && v[nl - 1] == '\r' {
                nl - 1
            } else {
                nl
            };
            let line = subvec(&v, p, line_end);
            proof {
                lemma_split_first(v@, p as int, n as int, nl as int);
                if nl < n {
                    assert(line@ =~= strip_cr(v@.subrange(p as int, nl as int)));
                }
                assert(line@.subrange(0, line@.len() as int) =~= line@);
                reveal_strlit("key");
                assert("key"@ =~= seq!['k', 'e', 'y']);
            }
            let (a, b) = trim_range(&line, 0, line.len());
            let lv = subvec(&line, a, b);
            match scan_directive(&lv) {
                Some((nf, nln, val)) => {
                    if name_matches(&lv, nf, nln, "key") {
                        return make_value(&lv, val);
                    }
                },
                None => {},
            }
            proof {
                if nl >= n {
                    assert(v@.subrange(n as int, n as int) =~= Seq::<char>::empty());
                }
            }
            p = if nl < n {
                nl + 1
            } else {
                n
            };
        }
        proof {
            assert(v@.subrange(n as int, n as int) =~= Seq::<char>::empty());
            assert(split_lines(Seq::<char>::empty()) =~= Seq::<Seq<char>>::empty());
        }
        None
    }

    /// Parse section type from string
    pub fn parse_section_type(s: &str) -> (r: SongSectionType)
        ensures
            r == section_type_of_name(s@),
    {
        let v = str_to_chars(s);
        proof {
            assert(v@.subrange(0, v@.len() as int) =~= s@);
            reveal_strlit("verse");
            reveal_strlit("v");
            reveal_strlit("chorus");
            reveal_strlit("c");
            reveal_strlit("bridge");
            reveal_strlit("b");
            reveal_strlit("prechorus");
            reveal_strlit("pre-chorus");
            reveal_strlit("pc");
            reveal_strlit("intro");
            reveal_strlit("outro");
            reveal_strlit("interlude");
            reveal_strlit("tag");
            reveal_strlit("ending");
            reveal_strlit("coda");
            assert("verse"@ =~= seq!['v', 'e', 'r', 's', 'e']);
            assert("v"@ =~= seq!['v']);
            assert("chorus"@ =~= seq!['c', 'h', 'o', 'r', 'u', 's']);
            assert("c"@ =~= seq!['c']);
            assert("bridge"@ =~= seq!['b', 'r', 'i', 'd', 'g', 'e']);
            assert("b"@ =~= seq!['b']);
            assert("prechorus"@ =~= seq!['p', 'r', 'e', 'c', 'h', 'o', 'r', 'u', 's']);
            assert("pre-chorus"@ =~= seq!['p', 'r', 'e', '-', 'c', 'h', 'o', 'r', 'u', 's']);
            assert("pc"@ =~= seq!['p', 'c']);
            assert("intro"@ =~= seq!['i', 'n', 't', 'r', 'o']);
            assert("outro"@ =~= seq!['o', 'u', 't', 'r', 'o']);
            assert("interlude"@ =~= seq!['i', 'n', 't', 'e', 'r', 'l', 'u', 'd', 'e']);
            assert("tag"@ =~= seq!['t', 'a', 'g']);
            assert("ending"@ =~= seq!['e', 'n', 'd', 'i', 'n', 'g']);
            assert("coda"@ =~= seq!['c', 'o', 'd', 'a']);
        }
        let n = v.len();
        if name_matches(&v, 0, n, "verse") || name_matches(&v, 0, n, "v") {
            SongSectionType::Verse
        } else if name_matches(&v, 0, n, "chorus") || name_matches(&v, 0, n, "c") {
            SongSectionType::Chorus
        } else if name_matches(&v, 0, n, "bridge") || name_matches(&v, 0, n, "b") {
            SongSectionType::Bridge
        } else if name_matches(&v, 0, n, "prechorus") || name_matches(&v, 0, n, "pre-chorus")
            || name_matches(&v, 0, n, "pc") {
            SongSectionType::PreChorus
        } else if name_matches(&v, 0, n, "intro") {
            SongSectionType::Intro
        } else if name_matches(&v, 0, n, "outro") {
            SongSectionType::Outro
        } else if name_matches(&v, 0, n, "interlude") {
            SongSectionType::Interlude
        } else if name_matches(&v, 0, n, "tag") {
            SongSectionType::Tag
        } else if name_matches(&v, 0, n, "ending") || name_matches(&v, 0, n, "coda") {
            SongSectionType::Ending
        } else {
            SongSectionType::Other
        }
    }
}

} // verus!
