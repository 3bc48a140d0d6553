//! The transposition engine: rewrites raw text token by token — the first
//! `{key: …}` directive and every bracketed chord — by a semitone offset,
//! choosing sharp or flat spelling from the key, and leaving all other text
//! untouched.

use vstd::prelude::*;
use crate::note::{
    Note, note_parse_range, note_transpose, note_name, parse_note_seq, semitone_of,
};
use crate::text::{
    chars_to_string, extend_range, extend_str, find_char, find_first, find_last,
    matches_at_ci, rfind_char, str_to_chars, subvec, trim, trim_range,
};
use crate::token::{
    chord_tok_close, find_chord_tok, lemma_chord_tok_close, lemma_find_chord_tok, next_chord_tok,
};
use vstd::arithmetic::div_mod::lemma_mod_multiples_vanish;

verus! {

// ---------------------------------------------------------------------------
// Token rewriting, specified
// ---------------------------------------------------------------------------

/// A chord token rewritten: when its first one or two characters spell a
/// note, that root is transposed and rendered in the chosen table and the
/// rest is kept verbatim; otherwise the text passes through unchanged.
pub open spec fn transpose_single_chord_seq(
    s: Seq<char>,
    semitones: int,
    use_flats: bool,
) -> Seq<char> {
    if s.len() == 0 {
        s
    } else {
        let root_len: int = if s.len() >= 2 && (s[1] == '#' || s[1] == 'b') {
            2
        } else {
            1
        };
        match parse_note_seq(s.subrange(0, root_len)) {
            Some(p) => note_name(note_transpose(p.0, semitones), use_flats) + s.subrange(
                root_len,
                s.len() as int,
            ),
            None => s,
        }
    }
}

/// A bass string rewritten: trimmed, then its leading note transposed with
/// the trailing characters kept.
pub open spec fn transpose_note_in_string_seq(
    s: Seq<char>,
    semitones: int,
    use_flats: bool,
) -> Seq<char> {
    transpose_single_chord_seq(trim(s), semitones, use_flats)
}

/// A whole chord text rewritten: trimmed, split at the last `/` into main
/// part and bass, each transposed on its own; without a slash the whole is
/// one chord.
pub open spec fn transpose_chord_seq(s: Seq<char>, semitones: int, use_flats: bool) -> Seq<char> {
    let t = trim(s);
    if t.len() == 0 {
        t
    } else {
        let sl = find_last(t, '/');
        if sl >= 0 {
            transpose_single_chord_seq(t.subrange(0, sl), semitones, use_flats) + seq!['/']
                + transpose_note_in_string_seq(
                t.subrange(sl + 1, t.len() as int),
                semitones,
                use_flats,
            )
        } else {
            transpose_single_chord_seq(t, semitones, use_flats)
        }
    }
}

// ---------------------------------------------------------------------------
// The key directive
// ---------------------------------------------------------------------------

/// A key directive matches at `i`: `{key:` case-insensitively, then at least
/// one character before the first closing brace.
pub open spec fn key_dir_at(s: Seq<char>, i: int) -> bool {
    &&& 0 <= i < s.len()
    &&& s[i] == '{'
    &&& matches_at_ci(s, i + 1, seq!['k', 'e', 'y', ':'])
    &&& {
        let q = i + 5;
        let close = q + find_first(s.subrange(q, s.len() as int), '}');
        close < s.len() && close > q
    }
}

/// Index of the `}` closing the key directive at `i`.
pub open spec fn key_dir_close(s: Seq<char>, i: int) -> int {
    i + 5 + find_first(s.subrange(i + 5, s.len() as int), '}')
}

/// The trimmed key text of the directive at `i`.
pub open spec fn key_dir_value(s: Seq<char>, i: int) -> Seq<char> {
    trim(s.subrange(i + 5, key_dir_close(s, i)))
}

/// First position at or after `from` where a key directive matches, or
/// `s.len()`.
pub open spec fn find_key_dir(s: Seq<char>, from: int) -> int
    decreases s.len() - from,
{
    if from < 0 || from >= s.len() {
        s.len() as int
    } else if key_dir_at(s, from) {
        from
    } else {
        find_key_dir(s, from + 1)
    }
}

pub proof fn lemma_find_key_dir_is(s: Seq<char>, from: int, k: int)
    requires
        0 <= from <= k <= s.len(),
        forall|i: int| from <= i < k ==> !key_dir_at(s, i),
        k < s.len() ==> key_dir_at(s, k),
    ensures
        find_key_dir(s, from) == k,
    decreases s.len() - from,
{
    if from < s.len() && !key_dir_at(s, from) {
        lemma_find_key_dir_is(s, from + 1, k);
    }
}

// ---------------------------------------------------------------------------
// Whole-content rewriting, specified
// ---------------------------------------------------------------------------

/// The spelling decision: a flat original key keeps flats; otherwise flats
/// are chosen exactly when the transposed key lands on D#, G# or A#; without
/// a parseable key, sharps.
pub open spec fn should_use_flats_seq(content: Seq<char>, semitones: int) -> bool {
    let p = find_key_dir(content, 0);
    if p < content.len() {
        match parse_note_seq(key_dir_value(content, p)) {
            Some(pr) => pr.1 || {
                let moved = note_transpose(pr.0, semitones);
                moved == Note::DSharp || moved == Note::GSharp || moved == Note::ASharp
            },
            None => false,
        }
    } else {
        false
    }
}

/// The first key directive rewritten: the matched token is replaced by
/// `{key: ` followed by the transposed key and `}`; without a match the
/// content is unchanged.
pub open spec fn rewrite_key(content: Seq<char>, semitones: int, use_flats: bool) -> Seq<char> {
    let p = find_key_dir(content, 0);
    if p < content.len() {
        content.subrange(0, p) + seq!['{', 'k', 'e', 'y', ':', ' '] + transpose_chord_seq(
            key_dir_value(content, p),
            semitones,
            use_flats,
        ) + seq!['}'] + content.subrange(key_dir_close(content, p) + 1, content.len() as int)
    } else {
        content
    }
}

/// Every bracketed token rewritten in turn: text between tokens is kept, and
/// each token's interior is transposed as a chord.
pub open spec fn rewrite_toks(s: Seq<char>, p: int, out: Seq<char>, semitones: int, use_flats: bool) -> Seq<char>
    decreases s.len() - p,
    via rewrite_toks_decreases
{
    if p < 0 || p > s.len() {
        out
    } else {
        let i = find_chord_tok(s, p);
        if i == s.len() {
            out + s.subrange(p, s.len() as int)
        } else {
            let j = chord_tok_close(s, i);
            rewrite_toks(
                s,
                j + 1,
                out + s.subrange(p, i) + seq!['['] + transpose_chord_seq(
                    s.subrange(i + 1, j),
                    semitones,
                    use_flats,
                ) + seq![']'],
                semitones,
                use_flats,
            )
        }
    }
}

#[via_fn]
proof fn rewrite_toks_decreases(s: Seq<char>, p: int, out: Seq<char>, semitones: int, use_flats: bool) {
    if 0 <= p <= s.len() {
        lemma_find_chord_tok(s, p);
        let i = find_chord_tok(s, p);
        if i < s.len() {
            lemma_chord_tok_close(s, i);
        }
    }
}

/// The transposed document: unchanged for a zero offset, else the key
/// directive and every chord token rewritten under the chosen spelling.
pub open spec fn transpose_content_seq(content: Seq<char>, semitones: int) -> Seq<char> {
    if semitones == 0 {
        content
    } else {
        let use_flats = should_use_flats_seq(content, semitones);
        rewrite_toks(rewrite_key(content, semitones, use_flats), 0, Seq::empty(), semitones, use_flats)
    }
}

/// The semitone distance from one key to another, both parsed as notes:
/// their semitone difference reduced modulo twelve; absent when either does
/// not parse.
pub open spec fn semitones_between_seq(from: Seq<char>, to: Seq<char>) -> Option<i32> {
    match (parse_note_seq(from), parse_note_seq(to)) {
        (Some(f), Some(t)) => Some(
            ((semitone_of(t.0) - semitone_of(f.0)) % 12) as i32,
        ),
        _ => None,
    }
}

// ---------------------------------------------------------------------------
// Exec rewriting
// ---------------------------------------------------------------------------

/// Appends the rewritten chord `v[from..to]` (no trimming, no slash) to
/// `out`.
fn append_single_chord(
    out: &mut Vec<char>,
    v: &Vec<char>,
    from: usize,
    to: usize,
    semitones: i32,
    use_flats: bool,
)
    requires
        from <= to <= v@.len(),
    ensures
        final(out)@ == old(out)@ + transpose_single_chord_seq(
            v@.subrange(from as int, to as int),
            semitones as int,
            use_flats,
        ),
{
    let ghost s = v@.subrange(from as int, to as int);
    if from == to {
        return ;
    }
    proof {
        if to - from >= 2 {
            assert(s[1] == v@[from + 1]);
        }
    }
    let root_len: usize = if to - from >= 2 && (v[from + 1] == '#' || v[from + 1] == 'b') {
        2
    } else {
        1
    };
    proof {
        assert(s.subrange(0, root_len as int) =~= v@.subrange(from as int, from + root_len));
        assert(s.subrange(root_len as int, s.len() as int) =~= v@.subrange(
            from + root_len,
            to as int,
        ));
    }
    match note_parse_range(v, from, from + root_len) {
        Some((n, _)) => {
            let moved = n.transpose(semitones);
            let name = if use_flats {
                moved.to_flat_string()
            } else {
                moved.to_sharp_string()
            };
            extend_str(out, name);
            extend_range(out, v, from + root_len, to);
        },
        None => {
            extend_range(out, v, from, to);
        },
    }
}

/// Appends the rewritten bass `v[from..to]` (trimmed first) to `out`.
fn append_note_in_string(
    out: &mut Vec<char>,
    v: &Vec<char>,
    from: usize,
    to: usize,
    semitones: i32,
    use_flats: bool,
)
    requires
        from <= to <= v@.len(),
    ensures
        final(out)@ == old(out)@ + transpose_note_in_string_seq(
            v@.subrange(from as int, to as int),
            semitones as int,
            use_flats,
        ),
{
    let (a, b) = trim_range(v, from, to);
    append_single_chord(out, v, a, b, semitones, use_flats);
}

/// Appends the rewritten chord text `v[from..to]` (trimmed, slash split) to
/// `out`.
fn append_chord(
    out: &mut Vec<char>,
    v: &Vec<char>,
    from: usize,
    to: usize,
    semitones: i32,
    use_flats: bool,
)
    requires
        from <= to <= v@.len(),
    ensures
        final(out)@ == old(out)@ + transpose_chord_seq(
            v@.subrange(from as int, to as int),
            semitones as int,
            use_flats,
        ),
{
    let ghost s = v@.subrange(from as int, to as int);
    let (a, b) = trim_range(v, from, to);
    let ghost t = trim(s);
    if a == b {
        return ;
    }
    proof {
        assert(forall|j: int| 0 <= j < t.len() ==> t[j] == v@[a + j]);
    }
    match rfind_char(v, a, b, '/') {
        Some(i) => {
            proof {
                assert(t.subrange(0, i - a) =~= v@.subrange(a as int, i as int));
                assert(t.subrange(i - a + 1, t.len() as int) =~= v@.subrange(i + 1, b as int));
            }
            append_single_chord(out, v, a, i, semitones, use_flats);
            out.push('/');
            append_note_in_string(out, v, i + 1, b, semitones, use_flats);
            proof {
                assert(out@ =~= old(out)@ + transpose_chord_seq(s, semitones as int, use_flats));
            }
        },
        None => {
            append_single_chord(out, v, a, b, semitones, use_flats);
        },
    }
}

/// Finds the first key directive, returning its position, the trimmed
/// bounds of its value, and the closing brace.
fn scan_key_dir(v: &Vec<char>) -> (r: Option<(usize, usize, usize, usize)>)
    ensures
        ({
            let pos = find_key_dir(v@, 0);
            match r {
                Some((i, vf, vt, close)) => {
                    &&& pos < v@.len()
                    &&& i as int == pos
                    &&& vf <= vt <= v@.len()
                    &&& key_dir_value(v@, pos) == v@.subrange(vf as int, vt as int)
                    &&& close as int == key_dir_close(v@, pos)
                    &&& i + 5 < close < v@.len()
                },
                None => pos == v@.len(),
            }
        }),
{
    proof {
        reveal_strlit("key:");
        assert("key:"@ =~= seq!['k', 'e', 'y', ':']);
    }
    let n = v.len();
    let mut i: usize = 0;
    while i < n
        invariant
            i <= n,
            n == v@.len(),
            forall|j: int| 0 <= j < i ==> !key_dir_at(v@, j),
        decreases n - i,
    {
        if v[i] == '{' && kw_at_ci_key(v, i + 1) {
            let q = i + 5;
            let close = find_char(v, q, n, '}');
            proof {
                assert(v@.subrange(q as int, n as int) == v@.subrange(q as int, v@.len() as int));
            }
            if close < n && close > q {
                proof {
                    assert(key_dir_at(v@, i as int));
                    lemma_find_key_dir_is(v@, 0, i as int);
                }
                let (vf, vt) = trim_range(v, q, close);
                return Some((i, vf, vt, close));
            }
            proof {
                assert(!key_dir_at(v@, i as int));
            }
        } else {
            proof {
                assert(!key_dir_at(v@, i as int));
            }
        }
        i = i + 1;
    }
    proof {
        lemma_find_key_dir_is(v@, 0, n as int);
    }
    None
}

/// Whether `key:` matches case-insensitively at `j`.
fn kw_at_ci_key(v: &Vec<char>, j: usize) -> (r: bool)
    requires
        j <= v@.len(),
    ensures
        r == matches_at_ci(v@, j as int, seq!['k', 'e', 'y', ':']),
{
    proof {
        reveal_strlit("key:");
        assert("key:"@ =~= seq!['k', 'e', 'y', ':']);
    }
    crate::text::kw_at_ci(v, j, "key:")
}

/// The spelling decision on a document.
fn should_use_flats(v: &Vec<char>, semitones: i32) -> (r: bool)
    ensures
        r == should_use_flats_seq(v@, semitones as int),
{
    match scan_key_dir(v) {
        Some((_i, vf, vt, _close)) => {
            match note_parse_range(v, vf, vt) {
                Some((n, is_flat)) => {
                    if is_flat {
                        true
                    } else {
                        let moved = n.transpose(semitones);
                        moved == Note::DSharp || moved == Note::GSharp || moved == Note::ASharp
                    }
                },
                None => false,
            }
        },
        None => false,
    }
}

/// Transpose a single key notation
pub fn transpose_key(key: &str, semitones: i32, use_flats: bool) -> (r: String)
    ensures
        r@ == transpose_chord_seq(key@, semitones as int, use_flats),
{
    let v = str_to_chars(key);
    proof {
        assert(v@.subrange(0, v@.len() as int) =~= key@);
    }
    let mut out: Vec<char> = Vec::new();
    append_chord(&mut out, &v, 0, v.len(), semitones, use_flats);
    chars_to_string(&out)
}

/// Transpose all chords in ChordPro content by given semitones
///
/// A positive count moves up, a negative one down; a zero count returns the
/// content unchanged, byte for byte.
pub fn transpose_content(content: &str, semitones: i32) -> (r: String)
    ensures
        r@ == transpose_content_seq(content@, semitones as int),
{
    if semitones == 0 {
        return String::from_str(content);
    }
    let v = str_to_chars(content);
    proof {
        assert(v@.subrange(0, v@.len() as int) =~= content@);
    }
    let use_flats = should_use_flats(&v, semitones);
    let s1: Vec<char> = match scan_key_dir(&v) {
        Some((pos, vf, vt, close)) => {
            let vn = v.len();
            let mut s1 = subvec(&v, 0, pos);
            proof {
                reveal_strlit("{key: ");
                assert("{key: "@ =~= seq!['{', 'k', 'e', 'y', ':', ' ']);
            }
            extend_str(&mut s1, "{key: ");
            append_chord(&mut s1, &v, vf, vt, semitones, use_flats);
            s1.push('}');
            extend_range(&mut s1, &v, close + 1, vn);
            proof {
                assert(s1@ =~= rewrite_key(v@, semitones as int, use_flats));
            }
            s1
        },
        None => {
            let s1 = subvec(&v, 0, v.len());
            proof {
                assert(s1@ =~= rewrite_key(v@, semitones as int, use_flats));
            }
            s1
        },
    };
    let n = s1.len();
    let mut out: Vec<char> = Vec::new();
    let mut p: usize = 0;
    proof {
        assert(out@ =~= Seq::<char>::empty());
    }
    loop
        invariant_except_break
            p <= n,
            n == s1@.len(),
            rewrite_toks(s1@, p as int, out@, semitones as int, use_flats) == rewrite_toks(
                s1@,
                0,
                Seq::empty(),
                semitones as int,
                use_flats,
            ),
        ensures
            out@ == rewrite_toks(s1@, 0, Seq::empty(), semitones as int, use_flats),
        decreases n - p,
    {
        match next_chord_tok(&s1, p) {
            None => {
                extend_range(&mut out, &s1, p, n);
                proof {
                    assert(out@ =~= rewrite_toks(
                        s1@,
                        0,
                        Seq::empty(),
                        semitones as int,
                        use_flats,
                    ));
                }
                break ;
            },
            Some((i, j)) => {
                let ghost out_before = out@;
                extend_range(&mut out, &s1, p, i);
                out.push('[');
                append_chord(&mut out, &s1, i + 1, j, semitones, use_flats);
                out.push(']');
                proof {
                    assert(out@ =~= out_before + s1@.subrange(p as int, i as int) + seq!['[']
                        + transpose_chord_seq(
                        s1@.subrange(i + 1, j as int),
                        semitones as int,
                        use_flats,
                    ) + seq![']']);
                    assert(rewrite_toks(s1@, j + 1, out@, semitones as int, use_flats)
                        == rewrite_toks(s1@, 0, Seq::empty(), semitones as int, use_flats));
                }
                p = j + 1;
            },
        }
    }
    chars_to_string(&out)
}

/// Get the number of semitones between two keys
pub fn semitones_between(from: &str, to: &str) -> (r: Option<i32>)
    ensures
        r == semitones_between_seq(from@, to@),
{
    let f = match Note::parse(from) {
        Some((n, _)) => n,
        None => {
            return None;
        },
    };
    let t = match Note::parse(to) {
        Some((n, _)) => n,
        None => {
            return None;
        },
    };
    let fs = f.to_semitone() as i32;
    let ts = t.to_semitone() as i32;
    let d = (ts - fs + 12) % 12;
    proof {
        lemma_mod_multiples_vanish(1, semitone_of(t) - semitone_of(f), 12);
        assert((ts - fs + 12) >= 0);
    }
    Some(d)
}

// ---------------------------------------------------------------------------
// Laws
// ---------------------------------------------------------------------------

/// Transposing by zero semitones is the identity on the text.
pub proof fn lemma_transpose_zero(content: Seq<char>)
    ensures
        transpose_content_seq(content, 0) == content,
{
}

/// The semitone distance from any parseable key to itself is zero.
pub proof fn lemma_semitones_between_same(k: Seq<char>)
    requires
        parse_note_seq(k) is Some,
    ensures
        semitones_between_seq(k, k) == Some(0i32),
{
}

} // verus!
