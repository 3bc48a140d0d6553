//! Character-level text utilities: whitespace trimming, line splitting,
//! substring search and integer parsing, with exact sequence-level
//! specifications. All views are sequences of characters.

use vstd::prelude::*;

verus! {

// ---------------------------------------------------------------------------
// Character classes
// ---------------------------------------------------------------------------

/// The Unicode `White_Space` characters, the set honoured by standard
/// trimming.
pub open spec fn is_space_char(c: char) -> bool {
    c == ' ' || c == '\t' || c == '\n' || c == '\r' || c == '\u{b}' || c == '\u{c}'
        || c == '\u{85}' || c == '\u{a0}' || c == '\u{1680}'
        || ('\u{2000}' <= c && c <= '\u{200a}') || c == '\u{2028}' || c == '\u{2029}'
        || c == '\u{202f}' || c == '\u{205f}' || c == '\u{3000}'
}

pub fn space_char(c: char) -> (r: bool)
    ensures
        r == is_space_char(c),
{
    c == ' ' || c == '\t' || c == '\n' || c == '\r' || c == '\u{b}' || c == '\u{c}'
        || c == '\u{85}' || c == '\u{a0}' || c == '\u{1680}'
        || ('\u{2000}' <= c && c <= '\u{200a}') || c == '\u{2028}' || c == '\u{2029}'
        || c == '\u{202f}' || c == '\u{205f}' || c == '\u{3000}'
}

/// The characters a directive name may consist of: letters, digits and the
/// underscore.
pub open spec fn is_word_char(c: char) -> bool {
    ('a' <= c && c <= 'z') || ('A' <= c && c <= 'Z') || ('0' <= c && c <= '9') || c == '_'
}

pub fn word_char(c: char) -> (r: bool)
    ensures
        r == is_word_char(c),
{
    ('a' <= c && c <= 'z') || ('A' <= c && c <= 'Z') || ('0' <= c && c <= '9') || c == '_'
}

pub open spec fn is_ascii_digit_char(c: char) -> bool {
    '0' <= c && c <= '9'
}

/// Lower-cases an ASCII letter; any other character is unchanged.
pub open spec fn lower_char(c: char) -> char {
    if 'A' <= c && c <= 'Z' {
        ((c as u8) + 32) as char
    } else {
        c
    }
}

pub fn to_lower_char(c: char) -> (r: char)
    ensures
        r == lower_char(c),
{
    if 'A' <= c && c <= 'Z' {
        ((c as u8) + 32) as char
    } else {
        c
    }
}

/// Upper-cases an ASCII letter; any other character is unchanged.
pub open spec fn upper_char(c: char) -> char {
    if 'a' <= c && c <= 'z' {
        ((c as u8) - 32) as char
    } else {
        c
    }
}

pub fn to_upper_char(c: char) -> (r: char)
    ensures
        r == upper_char(c),
{
    if 'a' <= c && c <= 'z' {
        ((c as u8) - 32) as char
    } else {
        c
    }
}

// ---------------------------------------------------------------------------
// Trimming
// ---------------------------------------------------------------------------

/// Number of whitespace characters at the front of `s`.
pub open spec fn leading_spaces(s: Seq<char>) -> int
    decreases s.len(),
{
    if s.len() == 0 || !is_space_char(s[0]) {
        0
    } else {
        1 + leading_spaces(s.subrange(1, s.len() as int))
    }
}

/// Number of whitespace characters at the back of `s`.
pub open spec fn trailing_spaces(s: Seq<char>) -> int
    decreases s.len(),
{
    if s.len() == 0 || !is_space_char(s[s.len() - 1]) {
        0
    } else {
        1 + trailing_spaces(s.subrange(0, s.len() - 1))
    }
}

pub open spec fn trim_start(s: Seq<char>) -> Seq<char> {
    s.subrange(leading_spaces(s), s.len() as int)
}

pub open spec fn trim_end(s: Seq<char>) -> Seq<char> {
    s.subrange(0, s.len() - trailing_spaces(s))
}

/// `s` with whitespace removed from both ends, as standard trimming does.
pub open spec fn trim(s: Seq<char>) -> Seq<char> {
    trim_end(trim_start(s))
}

/// The count of leading spaces is the unique boundary between an all-space
/// prefix and a non-space character (or the end).
pub proof fn lemma_leading_spaces_is(s: Seq<char>, k: int)
    requires
        0 <= k <= s.len(),
        forall|i: int| 0 <= i < k ==> is_space_char(s[i]),
        k < s.len() ==> !is_space_char(s[k]),
    ensures
        leading_spaces(s) == k,
    decreases s.len(),
{
    if s.len() == 0 || !is_space_char(s[0]) {
    } else {
        let t = s.subrange(1, s.len() as int);
        assert(forall|i: int| 0 <= i < k - 1 ==> s[i + 1] == t[i]);
        lemma_leading_spaces_is(t, k - 1);
    }
}

pub proof fn lemma_trailing_spaces_is(s: Seq<char>, k: int)
    requires
        0 <= k <= s.len(),
        forall|i: int| s.len() - k <= i < s.len() ==> is_space_char(s[i]),
        k < s.len() ==> !is_space_char(s[s.len() - k - 1]),
    ensures
        trailing_spaces(s) == k,
    decreases s.len(),
{
    if s.len() == 0 || !is_space_char(s[s.len() - 1]) {
    } else {
        let t = s.subrange(0, s.len() - 1);
        lemma_trailing_spaces_is(t, k - 1);
    }
}

/// A sequence that neither starts nor ends with whitespace is its own trim.
pub proof fn lemma_trim_identity(s: Seq<char>)
    requires
        s.len() > 0 ==> !is_space_char(s[0]),
        s.len() > 0 ==> !is_space_char(s[s.len() - 1]),
    ensures
        trim(s) == s,
{
    lemma_leading_spaces_is(s, 0);
    assert(trim_start(s) =~= s);
    lemma_trailing_spaces_is(s, 0);
    assert(trim_end(s) =~= s);
}

// ---------------------------------------------------------------------------
// Searching
// ---------------------------------------------------------------------------

/// Index of the first occurrence of `c` in `s`, or `s.len()` if absent.
pub open spec fn find_first(s: Seq<char>, c: char) -> int
    decreases s.len(),
{
    if s.len() == 0 {
        0
    } else if s[0] == c {
        0
    } else {
        1 + find_first(s.subrange(1, s.len() as int), c)
    }
}

pub proof fn lemma_find_first(s: Seq<char>, c: char)
    ensures
        0 <= find_first(s, c) <= s.len(),
        forall|i: int| 0 <= i < find_first(s, c) ==> s[i] != c,
        find_first(s, c) < s.len() ==> s[find_first(s, c)] == c,
    decreases s.len(),
{
    if s.len() == 0 || s[0] == c {
    } else {
        let t = s.subrange(1, s.len() as int);
        lemma_find_first(t, c);
        assert forall|i: int| 0 <= i < find_first(s, c) implies s[i] != c by {
            if i >= 1 {
                assert(s[i] == t[i - 1]);
            }
        }
    }
}

pub proof fn lemma_find_first_is(s: Seq<char>, c: char, k: int)
    requires
        0 <= k <= s.len(),
        forall|i: int| 0 <= i < k ==> s[i] != c,
        k < s.len() ==> s[k] == c,
    ensures
        find_first(s, c) == k,
    decreases s.len(),
{
    if s.len() == 0 || s[0] == c {
    } else {
        let t = s.subrange(1, s.len() as int);
        assert(forall|i: int| 0 <= i < k - 1 ==> s[i + 1] == t[i]);
        lemma_find_first_is(t, c, k - 1);
    }
}

/// Index of the last occurrence of `c` in `s`, or `-1` if absent.
pub open spec fn find_last(s: Seq<char>, c: char) -> int
    decreases s.len(),
{
    if s.len() == 0 {
        -1
    } else if s[s.len() - 1] == c {
        s.len() - 1
    } else {
        find_last(s.subrange(0, s.len() - 1), c)
    }
}

pub proof fn lemma_find_last_is(s: Seq<char>, c: char, k: int)
    requires
        -1 <= k < s.len(),
        forall|i: int| k < i < s.len() ==> s[i] != c,
        k >= 0 ==> s[k] == c,
    ensures
        find_last(s, c) == k,
    decreases s.len(),
{
    if s.len() == 0 || s[s.len() - 1] == c {
    } else {
        lemma_find_last_is(s.subrange(0, s.len() - 1), c, k);
    }
}

/// Length of the run of word characters in `s` starting at index `i`.
pub open spec fn word_run(s: Seq<char>, i: int) -> int
    decreases s.len() - i,
{
    if i < 0 || i >= s.len() || !is_word_char(s[i]) {
        0
    } else {
        1 + word_run(s, i + 1)
    }
}

pub proof fn lemma_word_run_is(s: Seq<char>, i: int, k: int)
    requires
        0 <= i <= s.len(),
        0 <= k <= s.len() - i,
        forall|j: int| i <= j < i + k ==> is_word_char(s[j]),
        i + k < s.len() ==> !is_word_char(s[i + k]),
    ensures
        word_run(s, i) == k,
    decreases s.len() - i,
{
    if i < s.len() && is_word_char(s[i]) {
        lemma_word_run_is(s, i + 1, k - 1);
    }
}

/// `kw` occurs in `s` starting exactly at index `i`.
pub open spec fn matches_at(s: Seq<char>, i: int, kw: Seq<char>) -> bool {
    0 <= i && i + kw.len() <= s.len() && s.subrange(i, i + kw.len()) == kw
}

/// `kw` (given lower-case) occurs at index `i` of `s` up to ASCII case.
pub open spec fn matches_at_ci(s: Seq<char>, i: int, kw: Seq<char>) -> bool {
    0 <= i && i + kw.len() <= s.len() && (forall|j: int|
        0 <= j < kw.len() ==> lower_char(s[i + j]) == kw[j])
}

// ---------------------------------------------------------------------------
// Line splitting
// ---------------------------------------------------------------------------

/// A line with one carriage return dropped from its end, as standard
/// line iteration does for lines ended by `\r\n`.
pub open spec fn strip_cr(l: Seq<char>) -> Seq<char> {
    if l.len() > 0 && l[l.len() - 1] == '\r' {
        l.subrange(0, l.len() - 1)
    } else {
        l
    }
}

/// Splits text into lines at `\n`, dropping a `\r` before each `\n` and
/// producing no final empty line for text ending in `\n`.
pub open spec fn split_lines(s: Seq<char>) -> Seq<Seq<char>>
    decreases s.len(),
    via split_lines_decreases
{
    if s.len() == 0 {
        Seq::empty()
    } else if find_first(s, '\n') == s.len() {
        seq![s]
    } else {
        seq![strip_cr(s.subrange(0, find_first(s, '\n')))] + split_lines(
            s.subrange(find_first(s, '\n') + 1, s.len() as int),
        )
    }
}

#[via_fn]
proof fn split_lines_decreases(s: Seq<char>) {
    lemma_find_first(s, '\n');
}

/// Peeling the first line off `v[p..n]`: with `nl` the position of the next
/// newline (or `n`), the lines of the suffix are the line ending there
/// followed by the lines of the rest.
pub proof fn lemma_split_first(v: Seq<char>, p: int, n: int, nl: int)
    requires
        0 <= p < n == v.len(),
        p <= nl <= n,
        nl - p == find_first(v.subrange(p, n), '\n'),
    ensures
        ({
            let line = if nl < n {
                strip_cr(v.subrange(p, nl))
            } else {
                v.subrange(p, n)
            };
            let rest = if nl < n {
                v.subrange(nl + 1, n)
            } else {
                Seq::<char>::empty()
            };
            &&& split_lines(v.subrange(p, n)) == seq![line] + split_lines(rest)
            &&& (seq![line] + split_lines(rest))[0] == line
            &&& (seq![line] + split_lines(rest)).subrange(
                1,
                (seq![line] + split_lines(rest)).len() as int,
            ) == split_lines(rest)
        }),
{
    let s1 = v.subrange(p, n);
    if nl < n {
        let line = strip_cr(v.subrange(p, nl));
        assert(s1.subrange(0, nl - p) =~= v.subrange(p, nl));
        assert(s1.subrange(nl - p + 1, s1.len() as int) =~= v.subrange(nl + 1, n));
        assert(split_lines(s1) == seq![line] + split_lines(v.subrange(nl + 1, n)));
        assert((seq![line] + split_lines(v.subrange(nl + 1, n))).subrange(
            1,
            (seq![line] + split_lines(v.subrange(nl + 1, n))).len() as int,
        ) =~= split_lines(v.subrange(nl + 1, n)));
    } else {
        assert(split_lines(Seq::<char>::empty()) =~= Seq::<Seq<char>>::empty());
        assert(seq![s1] + split_lines(Seq::<char>::empty()) =~= seq![s1]);
        assert((seq![s1] + split_lines(Seq::<char>::empty())).subrange(1, 1) =~= split_lines(
            Seq::<char>::empty(),
        ));
    }
}

// ---------------------------------------------------------------------------
// Exec helpers over character vectors
// ---------------------------------------------------------------------------

/// The characters of `s`, in order.
pub fn str_to_chars(s: &str) -> (v: Vec<char>)
    ensures
        v@ == s@,
{
    let n = s.unicode_len();
    let mut v: Vec<char> = Vec::new();
    let mut i: usize = 0;
    while i < n
        invariant
            i <= n,
            n == s@.len(),
            v@ == s@.subrange(0, i as int),
        decreases n - i,
    {
        v.push(s.get_char(i));
        i = i + 1;
    }
    assert(v@ =~= s@);
    v
}

/// A copy of `v[from..to]`.
pub fn subvec(v: &Vec<char>, from: usize, to: usize) -> (r: Vec<char>)
    requires
        from <= to <= v@.len(),
    ensures
        r@ == v@.subrange(from as int, to as int),
{
    let mut r: Vec<char> = Vec::new();
    let mut i: usize = from;
    while i < to
        invariant
            from <= i <= to <= v@.len(),
            r@ == v@.subrange(from as int, i as int),
        decreases to - i,
    {
        r.push(v[i]);
        assert(r@ =~= v@.subrange(from as int, i + 1));
        i = i + 1;
    }
    r
}

/// Appends `v[from..to]` to `out`.
pub fn extend_range(out: &mut Vec<char>, v: &Vec<char>, from: usize, to: usize)
    requires
        from <= to <= v@.len(),
    ensures
        final(out)@ == old(out)@ + v@.subrange(from as int, to as int),
{
    let mut i: usize = from;
    while i < to
        invariant
            from <= i <= to <= v@.len(),
            out@ == old(out)@ + v@.subrange(from as int, i as int),
        decreases to - i,
    {
        out.push(v[i]);
        assert(out@ =~= old(out)@ + v@.subrange(from as int, i + 1));
        i = i + 1;
    }
    assert(out@ =~= old(out)@ + v@.subrange(from as int, to as int));
}

/// Appends the characters of `s` to `out`.
pub fn extend_str(out: &mut Vec<char>, s: &str)
    ensures
        final(out)@ == old(out)@ + s@,
{
    let n = s.unicode_len();
    let mut i: usize = 0;
    while i < n
        invariant
            i <= n,
            n == s@.len(),
            out@ == old(out)@ + s@.subrange(0, i as int),
        decreases n - i,
    {
        out.push(s.get_char(i));
        assert(out@ =~= old(out)@ + s@.subrange(0, i + 1));
        i = i + 1;
    }
    assert(out@ =~= old(out)@ + s@);
}

/// Builds the string holding exactly the characters of `v`.
///
/// Relies on `String`'s `FromIterator` over `char`: collecting an iterator
/// of characters yields the string of those characters in order.
#[verifier::external_body]
pub fn chars_to_string(v: &Vec<char>) -> (s: String)
    ensures
        s@ == v@,
{
    v.iter().collect()
}

/// First index `i` in `[from, to)` with `v[i] == c`, or `to` if none;
/// stated through `find_first` on the subrange.
pub fn find_char(v: &Vec<char>, from: usize, to: usize, c: char) -> (i: usize)
    requires
        from <= to <= v@.len(),
    ensures
        i == from + find_first(v@.subrange(from as int, to as int), c),
        from <= i <= to,
{
    let mut i: usize = from;
    while i < to
        invariant
            from <= i <= to <= v@.len(),
            forall|j: int| from <= j < i ==> v@[j] != c,
        decreases to - i,
    {
        if v[i] == c {
            proof {
                let s = v@.subrange(from as int, to as int);
                assert(forall|j: int| 0 <= j < i - from ==> s[j] == v@[from + j]);
                lemma_find_first_is(s, c, i - from);
            }
            return i;
        }
        i = i + 1;
    }
    proof {
        let s = v@.subrange(from as int, to as int);
        assert(forall|j: int| 0 <= j < to - from ==> s[j] == v@[from + j]);
        lemma_find_first_is(s, c, to - from);
    }
    to
}

/// Index of the last occurrence of `c` in `v[from..to)`, if any; stated
/// through `find_last` on the subrange.
pub fn rfind_char(v: &Vec<char>, from: usize, to: usize, c: char) -> (r: Option<usize>)
    requires
        from <= to <= v@.len(),
    ensures
        ({
            let s = v@.subrange(from as int, to as int);
            match r {
                Some(i) => from <= i < to && i - from == find_last(s, c) && v@[i as int] == c,
                None => find_last(s, c) == -1,
            }
        }),
{
    let ghost s = v@.subrange(from as int, to as int);
    proof {
        assert(forall|j: int| 0 <= j < s.len() ==> s[j] == v@[from + j]);
    }
    let mut i: usize = to;
    while i > from
        invariant
            from <= i <= to <= v@.len(),
            s == v@.subrange(from as int, to as int),
            forall|j: int| i <= j < to ==> v@[j] != c,
        decreases i,
    {
        i = i - 1;
        if v[i] == c {
            proof {
                lemma_find_last_is(s, c, i - from);
            }
            return Some(i);
        }
    }
    proof {
        lemma_find_last_is(s, c, -1);
    }
    None
}

/// Trims whitespace from both ends of `v[from..to]`, returning the
/// boundaries of the trimmed part.
pub fn trim_range(v: &Vec<char>, from: usize, to: usize) -> (r: (usize, usize))
    requires
        from <= to <= v@.len(),
    ensures
        from <= r.0 <= r.1 <= to,
        v@.subrange(r.0 as int, r.1 as int) == trim(v@.subrange(from as int, to as int)),
{
    let ghost s = v@.subrange(from as int, to as int);
    let mut a: usize = from;
    while a < to && space_char(v[a])
        invariant
            from <= a <= to <= v@.len(),
            forall|j: int| from <= j < a ==> is_space_char(v@[j]),
        decreases to - a,
    {
        a = a + 1;
    }
    proof {
        assert(forall|j: int| 0 <= j < a - from ==> s[j] == v@[from + j]);
        lemma_leading_spaces_is(s, a - from);
        assert(trim_start(s) =~= v@.subrange(a as int, to as int));
    }
    let ghost s1 = v@.subrange(a as int, to as int);
    let mut b: usize = to;
    while b > a && space_char(v[b - 1])
        invariant
            from <= a <= b <= to <= v@.len(),
            forall|j: int| b <= j < to ==> is_space_char(v@[j]),
        decreases b,
    {
        b = b - 1;
    }
    proof {
        assert(forall|j: int| 0 <= j < to - a ==> s1[j] == v@[a + j]);
        lemma_trailing_spaces_is(s1, to - b);
        assert(trim_end(s1) =~= v@.subrange(a as int, b as int));
    }
    (a, b)
}

/// Whether `kw` occurs in `v` starting at `i`.
pub fn kw_at(v: &Vec<char>, i: usize, kw: &str) -> (r: bool)
    requires
        i <= v@.len(),
    ensures
        r == matches_at(v@, i as int, kw@),
{
    let n = kw.unicode_len();
    if n > v.len() - i {
        proof {
            assert(!matches_at(v@, i as int, kw@));
        }
        return false;
    }
    let len = v.len();
    let mut j: usize = 0;
    while j < n
        invariant
            j <= n,
            n == kw@.len(),
            i + n <= len,
            len == v@.len(),
            forall|k: int| 0 <= k < j ==> v@[i + k] == kw@[k],
        decreases n - j,
    {
        if v[i + j] != kw.get_char(j) {
            proof {
                let sub = v@.subrange(i as int, i + kw@.len());
                assert(sub[j as int] != kw@[j as int]);
            }
            return false;
        }
        j = j + 1;
    }
    proof {
        assert(v@.subrange(i as int, i + kw@.len()) =~= kw@);
    }
    true
}

/// Whether `kw` (a lower-case keyword) occurs at `i` of `v` up to ASCII case.
pub fn kw_at_ci(v: &Vec<char>, i: usize, kw: &str) -> (r: bool)
    requires
        i <= v@.len(),
    ensures
        r == matches_at_ci(v@, i as int, kw@),
{
    let n = kw.unicode_len();
    if n > v.len() - i {
        return false;
    }
    let len = v.len();
    let mut j: usize = 0;
    while j < n
        invariant
            j <= n,
            n == kw@.len(),
            i + n <= len,
            len == v@.len(),
            forall|k: int| 0 <= k < j ==> lower_char(v@[i + k]) == kw@[k],
        decreases n - j,
    {
        if to_lower_char(v[i + j]) != kw.get_char(j) {
            return false;
        }
        j = j + 1;
    }
    true
}

// ---------------------------------------------------------------------------
// Integer parsing
// ---------------------------------------------------------------------------

/// Value of an all-digit string read in base ten.
pub open spec fn digits_value(s: Seq<char>) -> int
    decreases s.len(),
{
    if s.len() == 0 {
        0
    } else {
        digits_value(s.subrange(0, s.len() - 1)) * 10 + (s[s.len() - 1] as int - '0' as int)
    }
}

pub open spec fn all_digits(s: Seq<char>) -> bool {
    forall|i: int| 0 <= i < s.len() ==> is_ascii_digit_char(s[i])
}

/// Signed decimal parsing exactly as the standard library does it: an
/// optional sign, then one or more ASCII digits, rejecting anything else
/// and values outside the `i32` range.
pub open spec fn parse_i32_spec(s: Seq<char>) -> Option<i32> {
    if s.len() == 0 {
        None
    } else {
        let neg = s[0] == '-';
        let digits = if s[0] == '-' || s[0] == '+' {
            s.subrange(1, s.len() as int)
        } else {
            s
        };
        if digits.len() == 0 || !all_digits(digits) {
            None
        } else {
            let v = if neg {
                -digits_value(digits)
            } else {
                digits_value(digits)
            };
            if i32::MIN <= v <= i32::MAX {
                Some(v as i32)
            } else {
                None
            }
        }
    }
}

proof fn lemma_digits_value_nonneg(s: Seq<char>)
    requires
        all_digits(s),
    ensures
        digits_value(s) >= 0,
    decreases s.len(),
{
    if s.len() > 0 {
        let t = s.subrange(0, s.len() - 1);
        assert(all_digits(t));
        lemma_digits_value_nonneg(t);
    }
}

/// Extending a digit string to the right never lowers its value.
proof fn lemma_digits_value_prefix(s: Seq<char>, k: int)
    requires
        all_digits(s),
        0 <= k <= s.len(),
    ensures
        digits_value(s) >= digits_value(s.subrange(0, k)),
    decreases s.len() - k,
{
    if k < s.len() {
        let t = s.subrange(0, s.len() - 1);
        assert(all_digits(t));
        assert(t.subrange(0, k) =~= s.subrange(0, k));
        lemma_digits_value_prefix(t, k);
        lemma_digits_value_nonneg(t);
        assert(digits_value(s) == digits_value(t) * 10 + (s[s.len() - 1] as int - '0' as int));
        assert(digits_value(t) * 10 >= digits_value(t)) by (nonlinear_arith)
            requires digits_value(t) >= 0;
    } else {
        assert(s.subrange(0, k) =~= s);
    }
}

/// Parses the digit part `v[from..to]` (no sign) as a base-ten value,
/// reporting `None` for a value above `bound` or an empty or non-digit part.
fn parse_digits(v: &Vec<char>, from: usize, to: usize, bound: u32) -> (r: Option<u32>)
    requires
        from <= to <= v@.len(),
    ensures
        ({
            let s = v@.subrange(from as int, to as int);
            match r {
                Some(n) => all_digits(s) && s.len() > 0 && n as int == digits_value(s) && n
                    <= bound,
                None => s.len() == 0 || !all_digits(s) || digits_value(s) > bound,
            }
        }),
{
    let ghost s = v@.subrange(from as int, to as int);
    proof {
        assert(forall|j: int| 0 <= j < s.len() ==> s[j] == v@[from + j]);
    }
    if from == to {
        return None;
    }
    let mut acc: u64 = 0;
    let mut i: usize = from;
    while i < to
        invariant
            from <= i <= to <= v@.len(),
            s == v@.subrange(from as int, to as int),
            all_digits(s.subrange(0, i - from)),
            acc as int == digits_value(s.subrange(0, i - from)),
            acc <= bound,
        decreases to - i,
    {
        let c = v[i];
        if !('0' <= c && c <= '9') {
            proof {
                assert(s[i - from] == c);
                assert(!all_digits(s));
            }
            return None;
        }
        let d: u64 = (c as u32 - '0' as u32) as u64;
        let next: u64 = acc * 10 + d;
        proof {
            let p = s.subrange(0, i + 1 - from);
            assert(p.subrange(0, p.len() - 1) =~= s.subrange(0, i - from));
            assert(p[p.len() - 1] == c);
            assert(all_digits(p));
            assert(next as int == digits_value(p));
        }
        if next > bound as u64 {
            proof {
                let p = s.subrange(0, i + 1 - from);
                assert(all_digits(p) ==> digits_value(p) >= 0);
                if all_digits(s) {
                    lemma_digits_value_prefix(s, i + 1 - from);
                }
            }
            return None;
        }
        acc = next;
        i = i + 1;
    }
    proof {
        assert(s.subrange(0, to - from) =~= s);
    }
    Some(acc as u32)
}

/// Parses `v[from..to]` as the standard library parses an `i32`.
pub fn parse_i32_range(v: &Vec<char>, from: usize, to: usize) -> (r: Option<i32>)
    requires
        from <= to <= v@.len(),
    ensures
        r == parse_i32_spec(v@.subrange(from as int, to as int)),
{
    let ghost s = v@.subrange(from as int, to as int);
    if from == to {
        return None;
    }
    let c0 = v[from];
    let neg = c0 == '-';
    let dfrom = if c0 == '-' || c0 == '+' {
        from + 1
    } else {
        from
    };
    let ghost digits = v@.subrange(dfrom as int, to as int);
    proof {
        if c0 == '-' || c0 == '+' {
            assert(digits =~= s.subrange(1, s.len() as int));
        } else {
            assert(digits =~= s);
        }
    }
    if neg {
        match parse_digits(v, dfrom, to, 0x8000_0000) {
            Some(n) => {
                if n == 0x8000_0000 {
                    Some(i32::MIN)
                } else {
                    Some(-(n as i32))
                }
            },
            None => {
                proof {
                    if all_digits(digits) && digits.len() > 0 {
                        lemma_digits_value_nonneg(digits);
                    }
                }
                None
            },
        }
    } else {
        match parse_digits(v, dfrom, to, 0x7fff_ffff) {
            Some(n) => Some(n as i32),
            None => {
                proof {
                    if all_digits(digits) && digits.len() > 0 {
                        lemma_digits_value_nonneg(digits);
                    }
                }
                None
            },
        }
    }
}

} // verus!
