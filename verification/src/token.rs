//! The token grammar of the format: `{name}` / `{name: value}` directives,
//! case-insensitive `{start_of_X[:label]}` / `{soX[:label]}` and
//! `{end_of_X}` / `{eoX}` section markers, and inline `[chord]` tokens.
//! A pattern is recognised at the first position where it matches, anywhere
//! in the text it is searched in.

use vstd::prelude::*;
use crate::section::SongSectionType;
use crate::text::{
    find_char, find_first, is_word_char, kw_at_ci, lemma_find_first, lemma_word_run_is,
    lower_char, matches_at_ci, trim, trim_range, word_run,
};

verus! {

// ---------------------------------------------------------------------------
// Directives
// ---------------------------------------------------------------------------

/// A directive matches at `i`: a brace, a non-empty word, then either the
/// closing brace or a colon with a closing brace somewhere after it.
pub open spec fn directive_at(s: Seq<char>, i: int) -> bool {
    &&& 0 <= i < s.len()
    &&& s[i] == '{'
    &&& word_run(s, i + 1) >= 1
    &&& {
        let e = i + 1 + word_run(s, i + 1);
        &&& e < s.len()
        &&& (s[e] == '}' || (s[e] == ':' && find_first(s.subrange(e + 1, s.len() as int), '}')
            < s.len() - e - 1))
    }
}

/// The directive's name: the word after the brace.
pub open spec fn directive_name_at(s: Seq<char>, i: int) -> Seq<char> {
    s.subrange(i + 1, i + 1 + word_run(s, i + 1))
}

/// The directive's value: absent without a colon, else the trimmed text
/// between the colon and the first closing brace after it.
pub open spec fn directive_value_at(s: Seq<char>, i: int) -> Option<Seq<char>> {
    let e = i + 1 + word_run(s, i + 1);
    if s[e] == '}' {
        None
    } else {
        let close = e + 1 + find_first(s.subrange(e + 1, s.len() as int), '}');
        Some(trim(s.subrange(e + 1, close)))
    }
}

/// First position at or after `from` where a directive matches, or `s.len()`.
pub open spec fn find_directive_pos(s: Seq<char>, from: int) -> int
    decreases s.len() - from,
{
    if from < 0 || from >= s.len() {
        s.len() as int
    } else if directive_at(s, from) {
        from
    } else {
        find_directive_pos(s, from + 1)
    }
}

pub proof fn lemma_find_directive_pos_is(s: Seq<char>, from: int, k: int)
    requires
        0 <= from <= k <= s.len(),
        forall|i: int| from <= i < k ==> !directive_at(s, i),
        k < s.len() ==> directive_at(s, k),
    ensures
        find_directive_pos(s, from) == k,
    decreases s.len() - from,
{
    if from < s.len() && !directive_at(s, from) {
        lemma_find_directive_pos_is(s, from + 1, k);
    }
}

// ---------------------------------------------------------------------------
// Section markers
// ---------------------------------------------------------------------------

/// The section keyword matching at `j`, if any, with its length and the
/// section type its name denotes (the keywords other than verse, chorus and
/// bridge all map to `Other`). No keyword is a prefix of another, so at most
/// one matches.
pub open spec fn section_kw_at(s: Seq<char>, j: int) -> Option<(int, SongSectionType)> {
    if matches_at_ci(s, j, seq!['v', 'e', 'r', 's', 'e']) {
        Some((5, SongSectionType::Verse))
    } else if matches_at_ci(s, j, seq!['c', 'h', 'o', 'r', 'u', 's']) {
        Some((6, SongSectionType::Chorus))
    } else if matches_at_ci(s, j, seq!['b', 'r', 'i', 'd', 'g', 'e']) {
        Some((6, SongSectionType::Bridge))
    } else if matches_at_ci(s, j, seq!['t', 'a', 'b']) {
        Some((3, SongSectionType::Other))
    } else if matches_at_ci(s, j, seq!['g', 'r', 'i', 'd']) {
        Some((4, SongSectionType::Other))
    } else if matches_at_ci(s, j, seq!['a', 'b', 'c']) {
        Some((3, SongSectionType::Other))
    } else if matches_at_ci(s, j, seq!['l', 'y']) {
        Some((2, SongSectionType::Other))
    } else if matches_at_ci(s, j, seq!['t', 'e', 'x', 't', 'b', 'l', 'o', 'c', 'k']) {
        Some((9, SongSectionType::Other))
    } else {
        None
    }
}

/// Length of the section-start prefix at `j`: `start_of_`, `so`, or none.
/// The two cannot both match.
pub open spec fn start_prefix_len_at(s: Seq<char>, j: int) -> int {
    if matches_at_ci(s, j, seq!['s', 't', 'a', 'r', 't', '_', 'o', 'f', '_']) {
        9
    } else if matches_at_ci(s, j, seq!['s', 'o']) {
        2
    } else {
        0
    }
}

/// Length of the section-end prefix at `j`: `end_of_`, `eo`, or none.
pub open spec fn end_prefix_len_at(s: Seq<char>, j: int) -> int {
    if matches_at_ci(s, j, seq!['e', 'n', 'd', '_', 'o', 'f', '_']) {
        7
    } else if matches_at_ci(s, j, seq!['e', 'o']) {
        2
    } else {
        0
    }
}

/// A section start matches at `i`: brace, start prefix, keyword, then a
/// closing brace or a colon with a closing brace after it (the label).
pub open spec fn section_start_at(s: Seq<char>, i: int) -> bool {
    &&& 0 <= i < s.len()
    &&& s[i] == '{'
    &&& start_prefix_len_at(s, i + 1) > 0
    &&& section_kw_at(s, i + 1 + start_prefix_len_at(s, i + 1)) is Some
    &&& {
        let e = i + 1 + start_prefix_len_at(s, i + 1) + section_kw_at(
            s,
            i + 1 + start_prefix_len_at(s, i + 1),
        )->Some_0.0;
        &&& e < s.len()
        &&& (s[e] == '}' || (s[e] == ':' && find_first(s.subrange(e + 1, s.len() as int), '}')
            < s.len() - e - 1))
    }
}

/// The type of the section started at `i`.
pub open spec fn section_type_at(s: Seq<char>, i: int) -> SongSectionType {
    section_kw_at(s, i + 1 + start_prefix_len_at(s, i + 1))->Some_0.1
}

/// The label of the section started at `i`: absent without a colon, else
/// the trimmed text between the colon and the first closing brace after it.
pub open spec fn section_label_at(s: Seq<char>, i: int) -> Option<Seq<char>> {
    let e = i + 1 + start_prefix_len_at(s, i + 1) + section_kw_at(
        s,
        i + 1 + start_prefix_len_at(s, i + 1),
    )->Some_0.0;
    if s[e] == '}' {
        None
    } else {
        let close = e + 1 + find_first(s.subrange(e + 1, s.len() as int), '}');
        Some(trim(s.subrange(e + 1, close)))
    }
}

/// First position at or after `from` where a section start matches, or
/// `s.len()`.
pub open spec fn find_section_start_pos(s: Seq<char>, from: int) -> int
    decreases s.len() - from,
{
    if from < 0 || from >= s.len() {
        s.len() as int
    } else if section_start_at(s, from) {
        from
    } else {
        find_section_start_pos(s, from + 1)
    }
}

pub proof fn lemma_find_section_start_pos_is(s: Seq<char>, from: int, k: int)
    requires
        0 <= from <= k <= s.len(),
        forall|i: int| from <= i < k ==> !section_start_at(s, i),
        k < s.len() ==> section_start_at(s, k),
    ensures
        find_section_start_pos(s, from) == k,
    decreases s.len() - from,
{
    if from < s.len() && !section_start_at(s, from) {
        lemma_find_section_start_pos_is(s, from + 1, k);
    }
}

/// A section end matches at `i`: brace, end prefix, keyword, closing brace.
pub open spec fn section_end_at(s: Seq<char>, i: int) -> bool {
    &&& 0 <= i < s.len()
    &&& s[i] == '{'
    &&& end_prefix_len_at(s, i + 1) > 0
    &&& section_kw_at(s, i + 1 + end_prefix_len_at(s, i + 1)) is Some
    &&& {
        let e = i + 1 + end_prefix_len_at(s, i + 1) + section_kw_at(
            s,
            i + 1 + end_prefix_len_at(s, i + 1),
        )->Some_0.0;
        e < s.len() && s[e] == '}'
    }
}

pub open spec fn find_section_end_pos(s: Seq<char>, from: int) -> int
    decreases s.len() - from,
{
    if from < 0 || from >= s.len() {
        s.len() as int
    } else if section_end_at(s, from) {
        from
    } else {
        find_section_end_pos(s, from + 1)
    }
}

/// Whether some section end marker occurs in `s`.
pub open spec fn has_section_end(s: Seq<char>) -> bool {
    find_section_end_pos(s, 0) < s.len()
}

pub proof fn lemma_find_section_end_pos_is(s: Seq<char>, from: int, k: int)
    requires
        0 <= from <= k <= s.len(),
        forall|i: int| from <= i < k ==> !section_end_at(s, i),
        k < s.len() ==> section_end_at(s, k),
    ensures
        find_section_end_pos(s, from) == k,
    decreases s.len() - from,
{
    if from < s.len() && !section_end_at(s, from) {
        lemma_find_section_end_pos_is(s, from + 1, k);
    }
}

// ---------------------------------------------------------------------------
// Chord tokens
// ---------------------------------------------------------------------------

/// A chord token matches at `i`: a bracket, at least one character other
/// than `]`, and a closing `]` after it.
pub open spec fn chord_tok_at(s: Seq<char>, i: int) -> bool {
    &&& 0 <= i < s.len()
    &&& s[i] == '['
    &&& i + 1 < s.len()
    &&& s[i + 1] != ']'
    &&& find_first(s.subrange(i + 1, s.len() as int), ']') < s.len() - i - 1
}

/// Index of the `]` closing the token at `i`: the first `]` after the
/// bracket.
pub open spec fn chord_tok_close(s: Seq<char>, i: int) -> int {
    i + 1 + find_first(s.subrange(i + 1, s.len() as int), ']')
}

/// First position at or after `from` where a chord token matches, or
/// `s.len()`.
pub open spec fn find_chord_tok(s: Seq<char>, from: int) -> int
    decreases s.len() - from,
{
    if from < 0 || from >= s.len() {
        s.len() as int
    } else if chord_tok_at(s, from) {
        from
    } else {
        find_chord_tok(s, from + 1)
    }
}

pub proof fn lemma_find_chord_tok(s: Seq<char>, from: int)
    requires
        0 <= from <= s.len(),
    ensures
        from <= find_chord_tok(s, from) <= s.len(),
        find_chord_tok(s, from) < s.len() ==> chord_tok_at(s, find_chord_tok(s, from)),
        forall|i: int| from <= i < find_chord_tok(s, from) ==> !chord_tok_at(s, i),
    decreases s.len() - from,
{
    if from < s.len() && !chord_tok_at(s, from) {
        lemma_find_chord_tok(s, from + 1);
    }
}

pub proof fn lemma_find_chord_tok_is(s: Seq<char>, from: int, k: int)
    requires
        0 <= from <= k <= s.len(),
        forall|i: int| from <= i < k ==> !chord_tok_at(s, i),
        k < s.len() ==> chord_tok_at(s, k),
    ensures
        find_chord_tok(s, from) == k,
    decreases s.len() - from,
{
    if from < s.len() && !chord_tok_at(s, from) {
        lemma_find_chord_tok_is(s, from + 1, k);
    }
}

/// The closing bracket lies strictly between the opening one and the end.
pub proof fn lemma_chord_tok_close(s: Seq<char>, i: int)
    requires
        chord_tok_at(s, i),
    ensures
        i + 1 < chord_tok_close(s, i) < s.len(),
        s[chord_tok_close(s, i)] == ']',
    {
    let tail = s.subrange(i + 1, s.len() as int);
    lemma_find_first(tail, ']');
    assert(tail[0] == s[i + 1]);
    assert(s[chord_tok_close(s, i)] == tail[find_first(tail, ']')]);
}

// ---------------------------------------------------------------------------
// Case-insensitive name comparison
// ---------------------------------------------------------------------------

/// `name`, lower-cased ASCII-wise, equals the (lower-case) keyword `kw`.
pub open spec fn name_is_ci(name: Seq<char>, kw: Seq<char>) -> bool {
    name.len() == kw.len() && (forall|j: int| 0 <= j < kw.len() ==> lower_char(name[j]) == kw[j])
}

/// Decides `name_is_ci` for the name `v[nf..nf+nl]`.
pub fn name_matches(v: &Vec<char>, nf: usize, nl: usize, kw: &str) -> (r: bool)
    requires
        nf + nl <= v@.len(),
    ensures
        r == name_is_ci(v@.subrange(nf as int, nf + nl as int), kw@),
{
    let ghost name = v@.subrange(nf as int, nf + nl as int);
    proof {
        assert(forall|j: int| 0 <= j < nl ==> name[j] == v@[nf + j]);
    }
    if nl != kw.unicode_len() {
        return false;
    }
    kw_at_ci(v, nf, kw)
}

// ---------------------------------------------------------------------------
// Exec scanners
// ---------------------------------------------------------------------------

/// Length of the run of word characters starting at `from`.
pub fn word_run_from(v: &Vec<char>, from: usize) -> (w: usize)
    requires
        from <= v@.len(),
    ensures
        w == word_run(v@, from as int),
        from + w <= v@.len(),
{
    let n = v.len();
    let mut i: usize = from;
    while i < n && crate::text::word_char(v[i])
        invariant
            from <= i <= n,
            n == v@.len(),
            forall|j: int| from <= j < i ==> is_word_char(v@[j]),
        decreases n - i,
    {
        i = i + 1;
    }
    proof {
        lemma_word_run_is(v@, from as int, i - from);
    }
    i - from
}

/// The section keyword at `j`, if any, with its length and section type.
pub fn scan_section_kw(v: &Vec<char>, j: usize) -> (r: Option<(usize, SongSectionType)>)
    requires
        j <= v@.len(),
    ensures
        match r {
            Some(p) => section_kw_at(v@, j as int) == Some((p.0 as int, p.1)),
            None => section_kw_at(v@, j as int) is None,
        },
{
    proof {
        reveal_strlit("verse");
        reveal_strlit("chorus");
        reveal_strlit("bridge");
        reveal_strlit("tab");
        reveal_strlit("grid");
        reveal_strlit("abc");
        reveal_strlit("ly");
        reveal_strlit("textblock");
        assert("verse"@ =~= seq!['v', 'e', 'r', 's', 'e']);
        assert("chorus"@ =~= seq!['c', 'h', 'o', 'r', 'u', 's']);
        assert("bridge"@ =~= seq!['b', 'r', 'i', 'd', 'g', 'e']);
        assert("tab"@ =~= seq!['t', 'a', 'b']);
        assert("grid"@ =~= seq!['g', 'r', 'i', 'd']);
        assert("abc"@ =~= seq!['a', 'b', 'c']);
        assert("ly"@ =~= seq!['l', 'y']);
        assert("textblock"@ =~= seq!['t', 'e', 'x', 't', 'b', 'l', 'o', 'c', 'k']);
    }
    if kw_at_ci(v, j, "verse") {
        Some((5, SongSectionType::Verse))
    } else if kw_at_ci(v, j, "chorus") {
        Some((6, SongSectionType::Chorus))
    } else if kw_at_ci(v, j, "bridge") {
        Some((6, SongSectionType::Bridge))
    } else if kw_at_ci(v, j, "tab") {
        Some((3, SongSectionType::Other))
    } else if kw_at_ci(v, j, "grid") {
        Some((4, SongSectionType::Other))
    } else if kw_at_ci(v, j, "abc") {
        Some((3, SongSectionType::Other))
    } else if kw_at_ci(v, j, "ly") {
        Some((2, SongSectionType::Other))
    } else if kw_at_ci(v, j, "textblock") {
        Some((9, SongSectionType::Other))
    } else {
        None
    }
}

/// Finds the first directive in `v`, returning the bounds of its name and,
/// when a colon is present, the trimmed bounds of its value.
pub fn scan_directive(v: &Vec<char>) -> (r: Option<(usize, usize, Option<(usize, usize)>)>)
    ensures
        ({
            let pos = find_directive_pos(v@, 0);
            match r {
                Some((nf, nl, val)) => {
                    &&& pos < v@.len()
                    &&& nf == pos + 1
                    &&& nl == word_run(v@, pos + 1)
                    &&& nf + nl <= v@.len()
                    &&& (match val {
                        Some((vf, vt)) => vf <= vt <= v@.len() && directive_value_at(v@, pos)
                            == Some(v@.subrange(vf as int, vt as int)),
                        None => directive_value_at(v@, pos) is None,
                    })
                },
                None => pos == v@.len(),
            }
        }),
{
    let n = v.len();
    let mut i: usize = 0;
    while i < n
        invariant
            i <= n,
            n == v@.len(),
            forall|j: int| 0 <= j < i ==> !directive_at(v@, j),
        decreases n - i,
    {
        if v[i] == '{' {
            let w = word_run_from(v, i + 1);
            if w >= 1 {
                let e = i + 1 + w;
                if e < n && v[e] == '}' {
                    proof {
                        assert(directive_at(v@, i as int));
                        lemma_find_directive_pos_is(v@, 0, i as int);
                    }
                    return Some((i + 1, w, None));
                }
                if e < n && v[e] == ':' {
                    let close = find_char(v, e + 1, n, '}');
                    if close < n {
                        proof {
                            assert(v@.subrange(e + 1, n as int) == v@.subrange(
                                e + 1,
                                v@.len() as int,
                            ));
                            assert(directive_at(v@, i as int));
                            lemma_find_directive_pos_is(v@, 0, i as int);
                        }
                        let (vf, vt) = trim_range(v, e + 1, close);
                        return Some((i + 1, w, Some((vf, vt))));
                    }
                    proof {
                        assert(v@.subrange(e + 1, n as int) == v@.subrange(e + 1, v@.len() as int));
                        assert(!directive_at(v@, i as int));
                    }
                } else {
                    proof {
                        assert(!directive_at(v@, i as int));
                    }
                }
            } else {
                proof {
                    assert(!directive_at(v@, i as int));
                }
            }
        } else {
            proof {
                assert(!directive_at(v@, i as int));
            }
        }
        i = i + 1;
    }
    proof {
        lemma_find_directive_pos_is(v@, 0, n as int);
    }
    None
}

/// Finds the first section start in `v`, returning its type and, when a
/// colon is present, the trimmed bounds of its label.
pub fn scan_section_start(v: &Vec<char>) -> (r: Option<(SongSectionType, Option<(usize, usize)>)>)
    ensures
        ({
            let pos = find_section_start_pos(v@, 0);
            match r {
                Some((ty, lab)) => {
                    &&& pos < v@.len()
                    &&& ty == section_type_at(v@, pos)
                    &&& (match lab {
                        Some((lf, lt)) => lf <= lt <= v@.len() && section_label_at(v@, pos)
                            == Some(v@.subrange(lf as int, lt as int)),
                        None => section_label_at(v@, pos) is None,
                    })
                },
                None => pos == v@.len(),
            }
        }),
{
    let n = v.len();
    let mut i: usize = 0;
    while i < n
        invariant
            i <= n,
            n == v@.len(),
            forall|j: int| 0 <= j < i ==> !section_start_at(v@, j),
        decreases n - i,
    {
        if v[i] == '{' {
            let pl: usize = if kw_at_ci(v, i + 1, "start_of_") {
                9
            } else if kw_at_ci(v, i + 1, "so") {
                2
            } else {
                0
            };
            proof {
                reveal_strlit("start_of_");
                reveal_strlit("so");
                assert("start_of_"@ =~= seq!['s', 't', 'a', 'r', 't', '_', 'o', 'f', '_']);
                assert("so"@ =~= seq!['s', 'o']);
                assert(pl as int == start_prefix_len_at(v@, i + 1));
            }
            if pl > 0 {
                match scan_section_kw(v, i + 1 + pl) {
                    Some((kl, ty)) => {
                        let e = i + 1 + pl + kl;
                        if e < n && v[e] == '}' {
                            proof {
                                assert(section_start_at(v@, i as int));
                                lemma_find_section_start_pos_is(v@, 0, i as int);
                            }
                            return Some((ty, None));
                        }
                        if e < n && v[e] == ':' {
                            let close = find_char(v, e + 1, n, '}');
                            if close < n {
                                proof {
                                    assert(v@.subrange(e + 1, n as int) == v@.subrange(
                                        e + 1,
                                        v@.len() as int,
                                    ));
                                    assert(section_start_at(v@, i as int));
                                    lemma_find_section_start_pos_is(v@, 0, i as int);
                                }
                                let (lf, lt) = trim_range(v, e + 1, close);
                                return Some((ty, Some((lf, lt))));
                            }
                            proof {
                                assert(v@.subrange(e + 1, n as int) == v@.subrange(
                                    e + 1,
                                    v@.len() as int,
                                ));
                                assert(!section_start_at(v@, i as int));
                            }
                        } else {
                            proof {
                                assert(!section_start_at(v@, i as int));
                            }
                        }
                    },
                    None => {
                        proof {
                            assert(!section_start_at(v@, i as int));
                        }
                    },
                }
            } else {
                proof {
                    assert(!section_start_at(v@, i as int));
                }
            }
        } else {
            proof {
                assert(!section_start_at(v@, i as int));
            }
        }
        i = i + 1;
    }
    proof {
        lemma_find_section_start_pos_is(v@, 0, n as int);
    }
    None
}

/// Whether a section end marker occurs anywhere in `v`.
pub fn scan_section_end(v: &Vec<char>) -> (r: bool)
    ensures
        r == has_section_end(v@),
{
    let n = v.len();
    let mut i: usize = 0;
    while i < n
        invariant
            i <= n,
            n == v@.len(),
            forall|j: int| 0 <= j < i ==> !section_end_at(v@, j),
        decreases n - i,
    {
        if v[i] == '{' {
            let pl: usize = if kw_at_ci(v, i + 1, "end_of_") {
                7
            } else if kw_at_ci(v, i + 1, "eo") {
                2
            } else {
                0
            };
            proof {
                reveal_strlit("end_of_");
                reveal_strlit("eo");
                assert("end_of_"@ =~= seq!['e', 'n', 'd', '_', 'o', 'f', '_']);
                assert("eo"@ =~= seq!['e', 'o']);
                assert(pl as int == end_prefix_len_at(v@, i + 1));
            }
            if pl > 0 {
                match scan_section_kw(v, i + 1 + pl) {
                    Some((kl, _ty)) => {
                        let e = i + 1 + pl + kl;
                        if e < n && v[e] == '}' {
                            proof {
                                assert(section_end_at(v@, i as int));
                                lemma_find_section_end_pos_is(v@, 0, i as int);
                            }
                            return true;
                        }
                        proof {
                            assert(!section_end_at(v@, i as int));
                        }
                    },
                    None => {
                        proof {
                            assert(!section_end_at(v@, i as int));
                        }
                    },
                }
            } else {
                proof {
                    assert(!section_end_at(v@, i as int));
                }
            }
        } else {
            proof {
                assert(!section_end_at(v@, i as int));
            }
        }
        i = i + 1;
    }
    proof {
        lemma_find_section_end_pos_is(v@, 0, n as int);
    }
    false
}

/// Finds the first chord token at or after `p`, returning the positions of
/// its opening and closing brackets.
pub fn next_chord_tok(v: &Vec<char>, p: usize) -> (r: Option<(usize, usize)>)
    requires
        p <= v@.len(),
    ensures
        match r {
            Some((i, j)) => {
                &&& i as int == find_chord_tok(v@, p as int)
                &&& chord_tok_at(v@, i as int)
                &&& j as int == chord_tok_close(v@, i as int)
                &&& p <= i && i + 1 < j < v@.len()
            },
            None => find_chord_tok(v@, p as int) == v@.len(),
        },
{
    let n = v.len();
    let mut i: usize = p;
    while i < n
        invariant
            p <= i <= n,
            n == v@.len(),
            forall|j: int| p <= j < i ==> !chord_tok_at(v@, j),
        decreases n - i,
    {
        if v[i] == '[' && i + 1 < n && v[i + 1] != ']' {
            let close = find_char(v, i + 1, n, ']');
            proof {
                assert(v@.subrange(i + 1, n as int) == v@.subrange(i + 1, v@.len() as int));
            }
            if close < n {
                proof {
                    assert(chord_tok_at(v@, i as int));
                    lemma_find_chord_tok_is(v@, p as int, i as int);
                    lemma_chord_tok_close(v@, i as int);
                }
                return Some((i, close));
            }
            proof {
                assert(!chord_tok_at(v@, i as int));
            }
        } else {
            proof {
                assert(!chord_tok_at(v@, i as int));
            }
        }
        i = i + 1;
    }
    proof {
        lemma_find_chord_tok_is(v@, p as int, n as int);
    }
    None
}

} // verus!
