//! Character-level text utilities shared by the CUE-sheet parser and the
//! template scanner: character classes, index scans, trimming, decimal
//! parsing, line splitting, and conversions between `str`/`String` and
//! `Vec<char>`.

use vstd::prelude::*;
use vstd::string::StrSliceExecFns;

verus! {

// ---------------------------------------------------------------------------
// Character classes
// ---------------------------------------------------------------------------

/// A space or a horizontal tab.
pub open spec fn is_space_tab(c: char) -> bool {
    c == ' ' || c == '\t'
}

/// The characters that end an unquoted word inside a line.
pub open spec fn is_break_ws(c: char) -> bool {
    c == ' ' || c == '\t' || c == '\r' || c == '\n'
}

/// ASCII whitespace: space, tab, newline, carriage return, form feed.
pub open spec fn is_ascii_ws(c: char) -> bool {
    c == ' ' || c == '\t' || c == '\n' || c == '\r' || c == '\u{c}'
}

/// Unicode whitespace (the `White_Space` property), used for trimming.
pub open spec fn is_uni_ws(c: char) -> bool {
    ||| c == '\u{9}'
    ||| c == '\u{a}'
    ||| c == '\u{b}'
    ||| c == '\u{c}'
    ||| c == '\u{d}'
    ||| c == ' '
    ||| c == '\u{85}'
    ||| c == '\u{a0}'
    ||| c == '\u{1680}'
    ||| c == '\u{2000}'
    ||| c == '\u{2001}'
    ||| c == '\u{2002}'
    ||| c == '\u{2003}'
    ||| c == '\u{2004}'
    ||| c == '\u{2005}'
    ||| c == '\u{2006}'
    ||| c == '\u{2007}'
    ||| c == '\u{2008}'
    ||| c == '\u{2009}'
    ||| c == '\u{200a}'
    ||| c == '\u{2028}'
    ||| c == '\u{2029}'
    ||| c == '\u{202f}'
    ||| c == '\u{205f}'
    ||| c == '\u{3000}'
}

pub fn space_tab(c: char) -> (r: bool)
    ensures
        r == is_space_tab(c),
{
    c == ' ' || c == '\t'
}

pub fn break_ws(c: char) -> (r: bool)
    ensures
        r == is_break_ws(c),
{
    c == ' ' || c == '\t' || c == '\r' || c == '\n'
}

pub fn ascii_ws(c: char) -> (r: bool)
    ensures
        r == is_ascii_ws(c),
{
    c == ' ' || c == '\t' || c == '\n' || c == '\r' || c == '\u{c}'
}

pub fn uni_ws(c: char) -> (r: bool)
    ensures
        r == is_uni_ws(c),
{
    c == '\u{9}' || c == '\u{a}' || c == '\u{b}' || c == '\u{c}' || c == '\u{d}' || c == ' '
        || c == '\u{85}' || c == '\u{a0}' || c == '\u{1680}' || c == '\u{2000}' || c == '\u{2001}'
        || c == '\u{2002}' || c == '\u{2003}' || c == '\u{2004}' || c == '\u{2005}'
        || c == '\u{2006}' || c == '\u{2007}' || c == '\u{2008}' || c == '\u{2009}'
        || c == '\u{200a}' || c == '\u{2028}' || c == '\u{2029}' || c == '\u{202f}'
        || c == '\u{205f}' || c == '\u{3000}'
}

// ---------------------------------------------------------------------------
// Index scans
// ---------------------------------------------------------------------------

/// First index at or after `i` whose character is not Unicode whitespace,
/// or `s.len()` if there is none.
pub open spec fn idx_non_uni_ws(s: Seq<char>, i: int) -> int
    decreases s.len() - i,
{
    if i < 0 || i >= s.len() {
        s.len() as int
    } else if is_uni_ws(s[i]) {
        idx_non_uni_ws(s, i + 1)
    } else {
        i
    }
}

pub proof fn lemma_idx_non_uni_ws(s: Seq<char>, i: int)
    requires
        0 <= i <= s.len(),
    ensures
        i <= idx_non_uni_ws(s, i) <= s.len(),
        idx_non_uni_ws(s, i) < s.len() ==> !is_uni_ws(s[idx_non_uni_ws(s, i)]),
        forall|j: int| i <= j < idx_non_uni_ws(s, i) ==> is_uni_ws(s[j]),
    decreases s.len() - i,
{
    if i < s.len() && is_uni_ws(s[i]) {
        lemma_idx_non_uni_ws(s, i + 1);
    }
}

/// One past the last index before `j` whose character is not Unicode
/// whitespace, or `0` if there is none.
pub open spec fn end_non_uni_ws(s: Seq<char>, j: int) -> int
    decreases j,
{
    if j <= 0 || j > s.len() {
        0
    } else if is_uni_ws(s[j - 1]) {
        end_non_uni_ws(s, j - 1)
    } else {
        j
    }
}

pub proof fn lemma_end_non_uni_ws(s: Seq<char>, j: int)
    requires
        0 <= j <= s.len(),
    ensures
        0 <= end_non_uni_ws(s, j) <= j,
        end_non_uni_ws(s, j) > 0 ==> !is_uni_ws(s[end_non_uni_ws(s, j) - 1]),
        forall|k: int| end_non_uni_ws(s, j) <= k < j ==> is_uni_ws(s[k]),
    decreases j,
{
    if j > 0 && is_uni_ws(s[j - 1]) {
        lemma_end_non_uni_ws(s, j - 1);
    }
}

/// First index at or after `i` whose character is not ASCII whitespace,
/// or `s.len()` if there is none.
pub open spec fn idx_non_ascii_ws(s: Seq<char>, i: int) -> int
    decreases s.len() - i,
{
    if i < 0 || i >= s.len() {
        s.len() as int
    } else if is_ascii_ws(s[i]) {
        idx_non_ascii_ws(s, i + 1)
    } else {
        i
    }
}

pub proof fn lemma_idx_non_ascii_ws(s: Seq<char>, i: int)
    requires
        0 <= i <= s.len(),
    ensures
        i <= idx_non_ascii_ws(s, i) <= s.len(),
        idx_non_ascii_ws(s, i) < s.len() ==> !is_ascii_ws(s[idx_non_ascii_ws(s, i)]),
        forall|j: int| i <= j < idx_non_ascii_ws(s, i) ==> is_ascii_ws(s[j]),
    decreases s.len() - i,
{
    if i < s.len() && is_ascii_ws(s[i]) {
        lemma_idx_non_ascii_ws(s, i + 1);
    }
}

/// First index at or after `i` whose character is ASCII whitespace,
/// or `s.len()` if there is none.
pub open spec fn idx_ascii_ws(s: Seq<char>, i: int) -> int
    decreases s.len() - i,
{
    if i < 0 || i >= s.len() {
        s.len() as int
    } else if is_ascii_ws(s[i]) {
        i
    } else {
        idx_ascii_ws(s, i + 1)
    }
}

pub proof fn lemma_idx_ascii_ws(s: Seq<char>, i: int)
    requires
        0 <= i <= s.len(),
    ensures
        i <= idx_ascii_ws(s, i) <= s.len(),
        idx_ascii_ws(s, i) < s.len() ==> is_ascii_ws(s[idx_ascii_ws(s, i)]),
        forall|j: int| i <= j < idx_ascii_ws(s, i) ==> !is_ascii_ws(s[j]),
    decreases s.len() - i,
{
    if i < s.len() && !is_ascii_ws(s[i]) {
        lemma_idx_ascii_ws(s, i + 1);
    }
}

/// First index at or after `i` whose character is neither a space nor a
/// tab, or `s.len()` if there is none.
pub open spec fn idx_non_st(s: Seq<char>, i: int) -> int
    decreases s.len() - i,
{
    if i < 0 || i >= s.len() {
        s.len() as int
    } else if is_space_tab(s[i]) {
        idx_non_st(s, i + 1)
    } else {
        i
    }
}

pub proof fn lemma_idx_non_st(s: Seq<char>, i: int)
    requires
        0 <= i <= s.len(),
    ensures
        i <= idx_non_st(s, i) <= s.len(),
        idx_non_st(s, i) < s.len() ==> !is_space_tab(s[idx_non_st(s, i)]),
        forall|j: int| i <= j < idx_non_st(s, i) ==> is_space_tab(s[j]),
    decreases s.len() - i,
{
    if i < s.len() && is_space_tab(s[i]) {
        lemma_idx_non_st(s, i + 1);
    }
}

/// First index at or after `i` holding a newline, or `s.len()` if there is
/// none.
pub open spec fn idx_nl(s: Seq<char>, i: int) -> int
    decreases s.len() - i,
{
    if i < 0 || i >= s.len() {
        s.len() as int
    } else if s[i] == '\n' {
        i
    } else {
        idx_nl(s, i + 1)
    }
}

pub proof fn lemma_idx_nl(s: Seq<char>, i: int)
    requires
        0 <= i <= s.len(),
    ensures
        i <= idx_nl(s, i) <= s.len(),
        idx_nl(s, i) < s.len() ==> s[idx_nl(s, i)] == '\n',
        forall|j: int| i <= j < idx_nl(s, i) ==> s[j] != '\n',
    decreases s.len() - i,
{
    if i < s.len() && s[i] != '\n' {
        lemma_idx_nl(s, i + 1);
    }
}

pub fn find_non_uni_ws(v: &Vec<char>, from: usize) -> (r: usize)
    requires
        from <= v@.len(),
    ensures
        r == idx_non_uni_ws(v@, from as int),
        from <= r <= v@.len(),
{
    let mut i = from;
    loop
        invariant
            from <= i <= v@.len(),
            idx_non_uni_ws(v@, from as int) == idx_non_uni_ws(v@, i as int),
        decreases v@.len() - i,
    {
        if i == v.len() {
            return i;
        }
        if !uni_ws(v[i]) {
            return i;
        }
        i = i + 1;
    }
}

pub fn rfind_non_uni_ws(v: &Vec<char>, to: usize) -> (r: usize)
    requires
        to <= v@.len(),
    ensures
        r == end_non_uni_ws(v@, to as int),
        r <= to,
{
    let mut j = to;
    loop
        invariant
            0 <= j <= to,
            to <= v@.len(),
            end_non_uni_ws(v@, to as int) == end_non_uni_ws(v@, j as int),
        decreases j,
    {
        if j == 0 {
            return j;
        }
        if !uni_ws(v[j - 1]) {
            return j;
        }
        j = j - 1;
    }
}

pub fn find_non_ascii_ws(v: &Vec<char>, from: usize) -> (r: usize)
    requires
        from <= v@.len(),
    ensures
        r == idx_non_ascii_ws(v@, from as int),
        from <= r <= v@.len(),
{
    let mut i = from;
    loop
        invariant
            from <= i <= v@.len(),
            idx_non_ascii_ws(v@, from as int) == idx_non_ascii_ws(v@, i as int),
        decreases v@.len() - i,
    {
        if i == v.len() {
            return i;
        }
        if !ascii_ws(v[i]) {
            return i;
        }
        i = i + 1;
    }
}

pub fn find_ascii_ws(v: &Vec<char>, from: usize) -> (r: usize)
    requires
        from <= v@.len(),
    ensures
        r == idx_ascii_ws(v@, from as int),
        from <= r <= v@.len(),
{
    let mut i = from;
    loop
        invariant
            from <= i <= v@.len(),
            idx_ascii_ws(v@, from as int) == idx_ascii_ws(v@, i as int),
        decreases v@.len() - i,
    {
        if i == v.len() {
            return i;
        }
        if ascii_ws(v[i]) {
            return i;
        }
        i = i + 1;
    }
}

pub fn find_non_st(v: &Vec<char>, from: usize) -> (r: usize)
    requires
        from <= v@.len(),
    ensures
        r == idx_non_st(v@, from as int),
        from <= r <= v@.len(),
{
    let mut i = from;
    loop
        invariant
            from <= i <= v@.len(),
            idx_non_st(v@, from as int) == idx_non_st(v@, i as int),
        decreases v@.len() - i,
    {
        if i == v.len() {
            return i;
        }
        if !space_tab(v[i]) {
            return i;
        }
        i = i + 1;
    }
}

pub fn find_nl(v: &Vec<char>, from: usize) -> (r: usize)
    requires
        from <= v@.len(),
    ensures
        r == idx_nl(v@, from as int),
        from <= r <= v@.len(),
{
    let mut i = from;
    loop
        invariant
            from <= i <= v@.len(),
            idx_nl(v@, from as int) == idx_nl(v@, i as int),
        decreases v@.len() - i,
    {
        if i == v.len() {
            return i;
        }
        if v[i] == '\n' {
            return i;
        }
        i = i + 1;
    }
}

// ---------------------------------------------------------------------------
// Subranges, equality
// ---------------------------------------------------------------------------

/// Copy of `v[a..b]`.
pub fn subvec(v: &Vec<char>, a: usize, b: usize) -> (r: Vec<char>)
    requires
        a <= b <= v@.len(),
    ensures
        r@ == v@.subrange(a as int, b as int),
{
    let mut r: Vec<char> = Vec::new();
    let mut i = a;
    while i < b
        invariant
            a <= i <= b <= v@.len(),
            r@ == v@.subrange(a as int, i as int),
        decreases b - i,
    {
        r.push(v[i]);
        proof {
            assert(v@.subrange(a as int, i as int).push(v@[i as int]) =~= v@.subrange(
                a as int,
                i + 1 as int,
            ));
        }
        i = i + 1;
    }
    r
}

pub fn vec_char_eq(a: &Vec<char>, b: &Vec<char>) -> (r: bool)
    ensures
        r == (a@ == b@),
{
    if a.len() != b.len() {
        return false;
    }
    let mut i: usize = 0;
    while i < a.len()
        invariant
            0 <= i <= a@.len(),
            a@.len() == b@.len(),
            forall|j: int| 0 <= j < i ==> a@[j] == b@[j],
        decreases a@.len() - i,
    {
        if a[i] != b[i] {
            return false;
        }
        i = i + 1;
    }
    proof {
        assert(a@ =~= b@);
    }
    true
}

// ---------------------------------------------------------------------------
// Trimming
// ---------------------------------------------------------------------------

/// `s` with its leading Unicode whitespace removed.
pub open spec fn spec_trim_start(s: Seq<char>) -> Seq<char> {
    s.subrange(idx_non_uni_ws(s, 0), s.len() as int)
}

/// `s` with leading and trailing Unicode whitespace removed.
pub open spec fn spec_trim(s: Seq<char>) -> Seq<char> {
    if idx_non_uni_ws(s, 0) == s.len() {
        Seq::empty()
    } else {
        s.subrange(idx_non_uni_ws(s, 0), end_non_uni_ws(s, s.len() as int))
    }
}

pub fn trim_start_chars(v: &Vec<char>) -> (r: Vec<char>)
    ensures
        r@ == spec_trim_start(v@),
{
    proof {
        lemma_idx_non_uni_ws(v@, 0);
    }
    let a = find_non_uni_ws(v, 0);
    subvec(v, a, v.len())
}

pub fn trim_chars(v: &Vec<char>) -> (r: Vec<char>)
    ensures
        r@ == spec_trim(v@),
{
    proof {
        lemma_idx_non_uni_ws(v@, 0);
        lemma_end_non_uni_ws(v@, v@.len() as int);
    }
    let a = find_non_uni_ws(v, 0);
    if a == v.len() {
        let r: Vec<char> = Vec::new();
        return r;
    }
    let b = rfind_non_uni_ws(v, v.len());
    proof {
        // the non-whitespace character at `a` bounds the backward scan
        assert(!is_uni_ws(v@[a as int]));
        assert(b > a) by {
            if b <= a {
                assert(is_uni_ws(v@[a as int]));
            }
        }
    }
    subvec(v, a, b)
}

// ---------------------------------------------------------------------------
// ASCII case folding
// ---------------------------------------------------------------------------

/// ASCII lower-casing of one character; anything but `A`..`Z` is unchanged.
pub open spec fn ascii_lower(c: char) -> char {
    match c {
        'A' => 'a',
        'B' => 'b',
        'C' => 'c',
        'D' => 'd',
        'E' => 'e',
        'F' => 'f',
        'G' => 'g',
        'H' => 'h',
        'I' => 'i',
        'J' => 'j',
        'K' => 'k',
        'L' => 'l',
        'M' => 'm',
        'N' => 'n',
        'O' => 'o',
        'P' => 'p',
        'Q' => 'q',
        'R' => 'r',
        'S' => 's',
        'T' => 't',
        'U' => 'u',
        'V' => 'v',
        'W' => 'w',
        'X' => 'x',
        'Y' => 'y',
        'Z' => 'z',
        _ => c,
    }
}

/// ASCII lower-casing of a character sequence.
pub open spec fn lower_seq(s: Seq<char>) -> Seq<char> {
    s.map_values(|c: char| ascii_lower(c))
}

pub fn ascii_lower_char(c: char) -> (r: char)
    ensures
        r == ascii_lower(c),
{
    match c {
        'A' => 'a',
        'B' => 'b',
        'C' => 'c',
        'D' => 'd',
        'E' => 'e',
        'F' => 'f',
        'G' => 'g',
        'H' => 'h',
        'I' => 'i',
        'J' => 'j',
        'K' => 'k',
        'L' => 'l',
        'M' => 'm',
        'N' => 'n',
        'O' => 'o',
        'P' => 'p',
        'Q' => 'q',
        'R' => 'r',
        'S' => 's',
        'T' => 't',
        'U' => 'u',
        'V' => 'v',
        'W' => 'w',
        'X' => 'x',
        'Y' => 'y',
        'Z' => 'z',
        _ => c,
    }
}

pub fn lower_vec(v: &Vec<char>) -> (r: Vec<char>)
    ensures
        r@ == lower_seq(v@),
{
    let mut r: Vec<char> = Vec::new();
    let mut i: usize = 0;
    while i < v.len()
        invariant
            0 <= i <= v@.len(),
            r@ == lower_seq(v@).take(i as int),
        decreases v@.len() - i,
    {
        r.push(ascii_lower_char(v[i]));
        proof {
            assert(lower_seq(v@).take(i as int).push(ascii_lower(v@[i as int])) =~= lower_seq(
                v@,
            ).take(i + 1 as int));
        }
        i = i + 1;
    }
    proof {
        assert(lower_seq(v@).take(v@.len() as int) =~= lower_seq(v@));
    }
    r
}

// ---------------------------------------------------------------------------
// Decimal numbers
// ---------------------------------------------------------------------------

pub open spec fn is_digit(c: char) -> bool {
    c == '0' || c == '1' || c == '2' || c == '3' || c == '4' || c == '5' || c == '6' || c == '7'
        || c == '8' || c == '9'
}

pub open spec fn digit_val(c: char) -> nat {
    match c {
        '0' => 0,
        '1' => 1,
        '2' => 2,
        '3' => 3,
        '4' => 4,
        '5' => 5,
        '6' => 6,
        '7' => 7,
        '8' => 8,
        '9' => 9,
        _ => 0,
    }
}

pub open spec fn all_digits(s: Seq<char>) -> bool {
    forall|i: int| 0 <= i < s.len() ==> is_digit(s[i])
}

/// Value of a decimal digit string.
pub open spec fn dec_val(s: Seq<char>) -> nat
    decreases s.len(),
{
    if s.len() == 0 {
        0
    } else {
        dec_val(s.drop_last()) * 10 + digit_val(s.last())
    }
}

proof fn lemma_dec_val_prefix(s: Seq<char>, k: int)
    requires
        0 <= k <= s.len(),
    ensures
        dec_val(s.take(k)) <= dec_val(s),
    decreases s.len() - k,
{
    if k < s.len() {
        lemma_dec_val_prefix(s.drop_last(), k);
        assert(s.drop_last().take(k) =~= s.take(k));
    } else {
        assert(s.take(k) =~= s);
    }
}

/// The digits of a number token once an optional leading `+` is removed.
pub open spec fn uint_tail(s: Seq<char>) -> Seq<char> {
    if s.len() > 0 && s[0] == '+' {
        s.skip(1)
    } else {
        s
    }
}

/// What `str::parse` for an unsigned integer accepts: an optional leading
/// `+`, then one or more decimal digits; the value they denote.
pub open spec fn spec_parse_uint(s: Seq<char>) -> Option<nat> {
    let t = uint_tail(s);
    if t.len() > 0 && all_digits(t) {
        Some(dec_val(t))
    } else {
        None
    }
}

pub open spec fn spec_parse_u64(s: Seq<char>) -> Option<u64> {
    match spec_parse_uint(s) {
        Some(n) => if n <= u64::MAX {
            Some(n as u64)
        } else {
            None
        },
        None => None,
    }
}

pub open spec fn spec_parse_u32(s: Seq<char>) -> Option<u32> {
    match spec_parse_uint(s) {
        Some(n) => if n <= u32::MAX {
            Some(n as u32)
        } else {
            None
        },
        None => None,
    }
}

fn digit_of(c: char) -> (r: Option<u64>)
    ensures
        r is Some <==> is_digit(c),
        r is Some ==> r->0 == digit_val(c),
{
    match c {
        '0' => Some(0),
        '1' => Some(1),
        '2' => Some(2),
        '3' => Some(3),
        '4' => Some(4),
        '5' => Some(5),
        '6' => Some(6),
        '7' => Some(7),
        '8' => Some(8),
        '9' => Some(9),
        _ => None,
    }
}

/// Decimal parsing of a whole character string, as `str::parse::<u64>`
/// behaves on it.
pub fn parse_u64_chars(v: &Vec<char>) -> (r: Option<u64>)
    ensures
        r == spec_parse_u64(v@),
{
    let start: usize = if v.len() > 0 && v[0] == '+' {
        1
    } else {
        0
    };
    let ghost t = uint_tail(v@);
    proof {
        assert(t =~= v@.subrange(start as int, v@.len() as int));
    }
    if start == v.len() {
        return None;
    }
    let mut acc: u64 = 0;
    let mut i = start;
    while i < v.len()
        invariant
            start <= i <= v@.len(),
            start <= 1,
            t == uint_tail(v@),
            t == v@.subrange(start as int, v@.len() as int),
            all_digits(t.take(i - start)),
            acc == dec_val(t.take(i - start)),
        decreases v@.len() - i,
    {
        let d = match digit_of(v[i]) {
            Some(d) => d,
            None => {
                proof {
                    assert(t[i - start] == v@[i as int]);
                    assert(!all_digits(t)) by {
                        assert(!is_digit(t[i - start]));
                    }
                }
                return None;
            },
        };
        proof {
            assert(t[i - start] == v@[i as int]);
            assert(t.take(i - start).push(v@[i as int]) =~= t.take(i + 1 - start));
            assert(t.take(i + 1 - start).drop_last() =~= t.take(i - start));
            assert(t.take(i + 1 - start).last() == t[i - start]);
            assert(dec_val(t.take(i + 1 - start)) == dec_val(t.take(i - start)) * 10 + digit_val(
                t[i - start],
            ));
        }
        let acc10 = match acc.checked_mul(10) {
            Some(x) => x,
            None => {
                proof {
                    lemma_dec_val_prefix(t, i + 1 - start);
                }
                return None;
            },
        };
        let acc2 = match acc10.checked_add(d) {
            Some(x) => x,
            None => {
                proof {
                    lemma_dec_val_prefix(t, i + 1 - start);
                }
                return None;
            },
        };
        acc = acc2;
        i = i + 1;
    }
    proof {
        assert(t.take(v@.len() - start) =~= t);
    }
    Some(acc)
}

/// Decimal parsing of a whole character string, as `str::parse::<u32>`
/// behaves on it.
pub fn parse_u32_chars(v: &Vec<char>) -> (r: Option<u32>)
    ensures
        r == spec_parse_u32(v@),
{
    match parse_u64_chars(v) {
        Some(n) => if n <= u32::MAX as u64 {
            Some(n as u32)
        } else {
            None
        },
        None => None,
    }
}

// ---------------------------------------------------------------------------
// Line splitting
// ---------------------------------------------------------------------------

/// The logical lines of `s[i..]`, as `str::lines` yields them: split at
/// `\n`, with a `\r` immediately before the `\n` removed, the final line
/// ending optional.
pub open spec fn spec_lines_at(s: Seq<char>, i: int) -> Seq<Seq<char>>
    decreases s.len() - i,
    via spec_lines_at_dec
{
    if i < 0 || i >= s.len() {
        seq![]
    } else {
        let j = idx_nl(s, i);
        if j >= s.len() {
            seq![s.subrange(i, s.len() as int)]
        } else if j > i && s[j - 1] == '\r' {
            seq![s.subrange(i, j - 1)] + spec_lines_at(s, j + 1)
        } else {
            seq![s.subrange(i, j)] + spec_lines_at(s, j + 1)
        }
    }
}

#[via_fn]
proof fn spec_lines_at_dec(s: Seq<char>, i: int) {
    if 0 <= i < s.len() {
        lemma_idx_nl(s, i);
    }
}

/// The logical lines of `s`.
pub open spec fn spec_lines(s: Seq<char>) -> Seq<Seq<char>> {
    spec_lines_at(s, 0)
}

/// The character sequences of a vector of lines.
pub open spec fn lines_view(r: Seq<Vec<char>>) -> Seq<Seq<char>> {
    r.map_values(|l: Vec<char>| l@)
}

pub fn split_lines(v: &Vec<char>) -> (r: Vec<Vec<char>>)
    ensures
        lines_view(r@) == spec_lines(v@),
{
    let mut r: Vec<Vec<char>> = Vec::new();
    let mut i: usize = 0;
    while i < v.len()
        invariant
            0 <= i <= v@.len(),
            spec_lines(v@) == lines_view(r@) + spec_lines_at(v@, i as int),
        decreases v@.len() - i,
    {
        proof {
            lemma_idx_nl(v@, i as int);
        }
        let j = find_nl(v, i);
        let line: Vec<char>;
        let next: usize;
        if j == v.len() {
            line = subvec(v, i, v.len());
            next = v.len();
        } else if j > i && v[j - 1] == '\r' {
            line = subvec(v, i, j - 1);
            next = j + 1;
        } else {
            line = subvec(v, i, j);
            next = j + 1;
        }
        proof {
            assert(spec_lines_at(v@, i as int) == seq![line@] + spec_lines_at(v@, next as int));
        }
        let ghost prev = r@;
        r.push(line);
        proof {
            assert(lines_view(r@) =~= lines_view(prev) + seq![line@]);
            assert(lines_view(r@) + spec_lines_at(v@, next as int) =~= lines_view(prev) + (
            seq![line@] + spec_lines_at(v@, next as int)));
        }
        i = next;
    }
    proof {
        assert(lines_view(r@) + spec_lines_at(v@, i as int) =~= lines_view(r@));
    }
    r
}

// ---------------------------------------------------------------------------
// String conversions
// ---------------------------------------------------------------------------

/// The characters of a string, in order.
pub fn chars_of_str(s: &str) -> (r: Vec<char>)
    ensures
        r@ == s@,
{
    let n = s.unicode_len();
    let mut r: Vec<char> = Vec::new();
    let mut i: usize = 0;
    while i < n
        invariant
            0 <= i <= n,
            n == s@.len(),
            r@ == s@.take(i as int),
        decreases n - i,
    {
        r.push(s.get_char(i));
        proof {
            assert(s@.take(i as int).push(s@[i as int]) =~= s@.take(i + 1 as int));
        }
        i = i + 1;
    }
    proof {
        assert(s@.take(s@.len() as int) =~= s@);
    }
    r
}

/// Relies on `String: FromIterator<char>` (through `Iterator::collect`):
/// the collected string holds exactly the characters of the vector, in
/// order.
#[verifier::external_body]
pub fn chars_to_string(v: &Vec<char>) -> (r: String)
    ensures
        r@ == v@,
{
    v.iter().collect()
}

} // verus!
