//! The CUE-sheet parser: value-parsing primitives (quoted/unquoted
//! strings with escapes, key/value pairs, time codes) and the scoped
//! state machine over the scanned lines (global, then discs, then
//! tracks), with per-line error attribution.

use vstd::prelude::*;
use vstd::string::StringExecFns;

use crate::cue::error::{ErrV, Error};
use crate::cue::{Cue, CueV, Disc, DiscV, Rems, Track, TrackV};
use crate::text::{
    lines_view,
    break_ws, chars_of_str, chars_to_string, find_non_st, idx_ascii_ws, idx_non_ascii_ws,
    idx_non_st, is_break_ws, is_uni_ws, lemma_idx_ascii_ws, lemma_idx_non_ascii_ws,
    lemma_idx_non_st, lemma_idx_non_uni_ws, lower_seq, lower_vec, parse_u32_chars, parse_u64_chars,
    spec_parse_u32, spec_parse_u64, spec_trim, spec_trim_start, subvec, trim_chars,
    trim_start_chars, vec_char_eq,
};

verus! {

// ---------------------------------------------------------------------------
// Error messages
// ---------------------------------------------------------------------------

pub open spec fn msg_missing_value() -> Seq<char> {
    "missing value"@
}

pub open spec fn msg_unterminated() -> Seq<char> {
    "unterminated double-quoted string"@
}

pub open spec fn msg_too_many_values() -> Seq<char> {
    "too many values in line"@
}

pub open spec fn msg_rem_no_values() -> Seq<char> {
    "expected 2 values, have none"@
}

pub open spec fn msg_missing_index_number() -> Seq<char> {
    "missing index number"@
}

pub open spec fn msg_missing_time_spec() -> Seq<char> {
    "missing time specifier after index number"@
}

pub open spec fn msg_invalid_time(w: Seq<char>) -> Seq<char> {
    "invalid index time: "@ + w
}

pub open spec fn msg_invalid_track_number() -> Seq<char> {
    "invalid track number"@
}

pub open spec fn msg_track_before_file() -> Seq<char> {
    "`TRACK` declared before any `FILE`"@
}

pub open spec fn msg_missing_file() -> Seq<char> {
    "cue sheet is missing a `FILE` declaration"@
}

pub open spec fn msg_missing_index() -> Seq<char> {
    "track is missing a `INDEX` declaration"@
}

pub open spec fn msg_unknown_global(f: Seq<char>) -> Seq<char> {
    "unknown field for a disc: "@ + f
}

pub open spec fn msg_unknown_disc(f: Seq<char>) -> Seq<char> {
    "unknown field for disc: "@ + f
}

pub open spec fn msg_unknown_track(f: Seq<char>) -> Seq<char> {
    "unknown field for a track: "@ + f
}

/// A fixed message, with the prefix's characters followed by a payload.
fn msg_with(prefix: &str, payload: &Vec<char>) -> (r: String)
    ensures
        r@ == prefix@ + payload@,
{
    let mut m = prefix.to_owned();
    let p = chars_to_string(payload);
    m.append(p.as_str());
    m
}

// ---------------------------------------------------------------------------
// Escapes and words
// ---------------------------------------------------------------------------

/// What a backslash escape denotes: `n`, `t` and `r` map to their control
/// characters, anything else to itself.
pub open spec fn esc_char(c: char) -> char {
    match c {
        'n' => '\n',
        't' => '\t',
        'r' => '\r',
        _ => c,
    }
}

pub fn escaped(c: char) -> (r: char)
    ensures
        r == esc_char(c),
{
    match c {
        'n' => '\n',
        't' => '\t',
        'r' => '\r',
        _ => c,
    }
}

/// The first whitespace-delimited word of `s` and what follows it:
/// `Some((rest, word))`, or `None` when `s` holds only whitespace.
pub open spec fn spec_next_word(s: Seq<char>) -> Option<(Seq<char>, Seq<char>)> {
    let a = idx_non_ascii_ws(s, 0);
    if a == s.len() {
        None
    } else {
        let b = idx_ascii_ws(s, a);
        Some((s.subrange(b, s.len() as int), s.subrange(a, b)))
    }
}

pub fn next_word(s: &Vec<char>) -> (r: Option<(Vec<char>, Vec<char>)>)
    ensures
        match r {
            None => spec_next_word(s@) is None,
            Some(p) => spec_next_word(s@) == Some((p.0@, p.1@)),
        },
{
    proof {
        lemma_idx_non_ascii_ws(s@, 0);
    }
    let a = crate::text::find_non_ascii_ws(s, 0);
    if a == s.len() {
        return None;
    }
    proof {
        lemma_idx_ascii_ws(s@, a as int);
    }
    let b = crate::text::find_ascii_ws(s, a);
    let word = subvec(s, a, b);
    let rest = subvec(s, b, s.len());
    Some((rest, word))
}

/// What follows a non-empty run of spaces and tabs at the head of `s`,
/// or `None` when the run is empty or nothing follows it.
pub open spec fn spec_consume_space1(s: Seq<char>) -> Option<Seq<char>> {
    let i = idx_non_st(s, 0);
    if i == s.len() || i == 0 {
        None
    } else {
        Some(s.subrange(i, s.len() as int))
    }
}

pub fn consume_space1(s: &Vec<char>) -> (r: Option<Vec<char>>)
    ensures
        match r {
            None => spec_consume_space1(s@) is None,
            Some(v) => spec_consume_space1(s@) == Some(v@),
        },
{
    proof {
        lemma_idx_non_st(s@, 0);
    }
    let i = find_non_st(s, 0);
    if i == s.len() || i == 0 {
        None
    } else {
        Some(subvec(s, i, s.len()))
    }
}

// ---------------------------------------------------------------------------
// String values
// ---------------------------------------------------------------------------

/// Decoding an unquoted value: characters are copied up to the first
/// whitespace, a backslash escapes the following character, a trailing
/// backslash is kept literally.  Yields `(rest, decoded)`, where `rest`
/// begins at the whitespace that ended the value, if any.
pub open spec fn spec_unquoted(s: Seq<char>) -> (Seq<char>, Seq<char>)
    decreases s.len(),
{
    if s.len() == 0 {
        (Seq::empty(), Seq::empty())
    } else if is_break_ws(s[0]) {
        (s, Seq::empty())
    } else if s[0] == '\\' {
        if s.len() == 1 {
            (Seq::empty(), seq!['\\'])
        } else {
            let p = spec_unquoted(s.skip(2));
            (p.0, seq![esc_char(s[1])] + p.1)
        }
    } else {
        let p = spec_unquoted(s.skip(1));
        (p.0, seq![s[0]] + p.1)
    }
}

/// Decoding the inside of a double-quoted value, `s` beginning after the
/// opening quote: `Some((rest, decoded))` with `rest` beginning after the
/// closing quote, or `None` when the quote is never closed.
pub open spec fn spec_quoted(s: Seq<char>) -> Option<(Seq<char>, Seq<char>)>
    decreases s.len(),
{
    if s.len() == 0 {
        None
    } else if s[0] == '"' {
        Some((s.skip(1), Seq::empty()))
    } else if s[0] == '\\' {
        if s.len() == 1 {
            None
        } else {
            match spec_quoted(s.skip(2)) {
                Some(p) => Some((p.0, seq![esc_char(s[1])] + p.1)),
                None => None,
            }
        }
    } else {
        match spec_quoted(s.skip(1)) {
            Some(p) => Some((p.0, seq![s[0]] + p.1)),
            None => None,
        }
    }
}

/// Parsing one string value off the head of `s` (leading whitespace
/// ignored): a double-quoted literal when `s` starts with a quote, else
/// an unquoted word; `(rest, decoded)` on success.
pub open spec fn spec_parse_str(s: Seq<char>) -> Result<(Seq<char>, Seq<char>), Seq<char>> {
    let t = spec_trim_start(s);
    if t.len() == 0 {
        Err(msg_missing_value())
    } else if t[0] == '"' {
        match spec_quoted(t.skip(1)) {
            Some(p) => Ok(p),
            None => Err(msg_unterminated()),
        }
    } else {
        Ok(spec_unquoted(t))
    }
}

#[verifier::loop_isolation(false)]
pub fn parse_str(input: &Vec<char>) -> (r: Result<(Vec<char>, Vec<char>), String>)
    ensures
        match r {
            Ok(p) => spec_parse_str(input@) matches Ok(q) && q.0 == p.0@ && q.1 == p.1@,
            Err(m) => spec_parse_str(input@) matches Err(ms) && ms == m@,
        },
{
    let t = trim_start_chars(input);
    let ghost ts = t@;
    if t.len() == 0 {
        return Err("missing value".to_owned());
    }
    let mut buf: Vec<char> = Vec::new();
    if t[0] != '"' {
        let ghost w = spec_unquoted(ts);
        proof {
            assert(ts.skip(0) =~= ts);
            assert(buf@ + spec_unquoted(ts).1 =~= spec_unquoted(ts).1);
        }
        let mut i: usize = 0;
        loop
            invariant
                0 <= i <= ts.len(),
                ts == t@,
                w == spec_unquoted(ts),
                w.0 == spec_unquoted(ts.skip(i as int)).0,
                w.1 == buf@ + spec_unquoted(ts.skip(i as int)).1,
            decreases ts.len() - i,
        {
            let ghost su = ts.skip(i as int);
            if i == t.len() {
                proof {
                    assert(su =~= Seq::empty());
                    assert(w.1 =~= buf@);
                }
                let rest: Vec<char> = Vec::new();
                return Ok((rest, buf));
            }
            let c = t[i];
            proof {
                assert(su[0] == ts[i as int]);
            }
            if break_ws(c) {
                proof {
                    assert(su =~= ts.subrange(i as int, ts.len() as int));
                    assert(w.1 =~= buf@);
                }
                let rest = subvec(&t, i, t.len());
                return Ok((rest, buf));
            }
            if c == '\\' {
                if i + 1 == t.len() {
                    proof {
                        assert(su.len() == 1);
                        assert(w.1 =~= buf@.push('\\'));
                    }
                    buf.push('\\');
                    let rest: Vec<char> = Vec::new();
                    return Ok((rest, buf));
                }
                let e = escaped(t[i + 1]);
                proof {
                    assert(su[1] == ts[i + 1]);
                    assert(su.skip(2) =~= ts.skip(i + 2));
                    assert(buf@ + (seq![esc_char(ts[i + 1])] + spec_unquoted(ts.skip(i + 2)).1)
                        =~= buf@.push(esc_char(ts[i + 1])) + spec_unquoted(ts.skip(i + 2)).1);
                }
                buf.push(e);
                i = i + 2;
            } else {
                proof {
                    assert(su.skip(1) =~= ts.skip(i + 1));
                    assert(buf@ + (seq![ts[i as int]] + spec_unquoted(ts.skip(i + 1)).1) =~= buf@
                        .push(ts[i as int]) + spec_unquoted(ts.skip(i + 1)).1);
                }
                buf.push(c);
                i = i + 1;
            }
        }
    } else {
        let ghost q = spec_quoted(ts.skip(1));
        proof {
            match q {
                Some(p) => {
                    assert(buf@ + p.1 =~= p.1);
                },
                None => {},
            }
        }
        let mut i: usize = 1;
        loop
            invariant
                1 <= i <= ts.len(),
                ts == t@,
                q == spec_quoted(ts.skip(1)),
                q is Some <==> spec_quoted(ts.skip(i as int)) is Some,
                q matches Some(p) ==> (spec_quoted(ts.skip(i as int)) matches Some(p2) && p.0
                    == p2.0 && p.1 == buf@ + p2.1),
            decreases ts.len() - i,
        {
            let ghost su = ts.skip(i as int);
            if i == t.len() {
                proof {
                    assert(su =~= Seq::empty());
                }
                return Err("unterminated double-quoted string".to_owned());
            }
            let c = t[i];
            proof {
                assert(su[0] == ts[i as int]);
            }
            if c == '"' {
                proof {
                    assert(su.skip(1) =~= ts.subrange(i + 1, ts.len() as int));
                    match q {
                        Some(p) => {
                            assert(p.1 =~= buf@);
                        },
                        None => {},
                    }
                }
                let rest = subvec(&t, i + 1, t.len());
                return Ok((rest, buf));
            }
            if c == '\\' {
                if i + 1 == t.len() {
                    proof {
                        assert(su.len() == 1);
                    }
                    return Err("unterminated double-quoted string".to_owned());
                }
                let e = escaped(t[i + 1]);
                proof {
                    assert(su[1] == ts[i + 1]);
                    assert(su.skip(2) =~= ts.skip(i + 2));
                    match spec_quoted(ts.skip(i + 2)) {
                        Some(p2) => {
                            assert(buf@ + (seq![esc_char(ts[i + 1])] + p2.1) =~= buf@.push(
                                esc_char(ts[i + 1]),
                            ) + p2.1);
                        },
                        None => {},
                    }
                }
                buf.push(e);
                i = i + 2;
            } else {
                proof {
                    assert(su.skip(1) =~= ts.skip(i + 1));
                    match spec_quoted(ts.skip(i + 1)) {
                        Some(p2) => {
                            assert(buf@ + (seq![ts[i as int]] + p2.1) =~= buf@.push(ts[i as int])
                                + p2.1);
                        },
                        None => {},
                    }
                }
                buf.push(c);
                i = i + 1;
            }
        }
    }
}

/// Parsing a whole remainder as one value: a trimmed unquoted remainder
/// is taken verbatim; a remainder wrapped in double quotes is decoded and
/// must be consumed entirely; an empty remainder is an error.
pub open spec fn spec_parse_val(s: Seq<char>) -> Result<Seq<char>, Seq<char>> {
    let t = spec_trim(s);
    if t.len() == 0 {
        Err(msg_missing_value())
    } else if t.len() > 1 && t[0] == '"' && t[t.len() - 1] == '"' {
        match spec_parse_str(t) {
            Ok(p) => if spec_trim(p.0).len() > 0 {
                Err(msg_too_many_values())
            } else {
                Ok(p.1)
            },
            Err(m) => Err(m),
        }
    } else {
        Ok(t)
    }
}

pub fn parse_val(input: &Vec<char>) -> (r: Result<Vec<char>, String>)
    ensures
        match r {
            Ok(v) => spec_parse_val(input@) matches Ok(w) && w == v@,
            Err(m) => spec_parse_val(input@) matches Err(ms) && ms == m@,
        },
{
    let t = trim_chars(input);
    if t.len() == 0 {
        return Err("missing value".to_owned());
    }
    if t.len() > 1 && t[0] == '"' && t[t.len() - 1] == '"' {
        proof {
            // a trimmed, non-empty remainder starts with a non-whitespace
            // character, so trimming it again changes nothing
            lemma_idx_non_uni_ws(input@, 0);
            crate::text::lemma_end_non_uni_ws(input@, input@.len() as int);
            assert(!is_uni_ws(t@[0]));
            assert(spec_trim_start(t@) =~= t@);
        }
        match parse_str(&t) {
            Ok(p) => {
                let rest_t = trim_chars(&p.0);
                if rest_t.len() > 0 {
                    Err("too many values in line".to_owned())
                } else {
                    Ok(p.1)
                }
            },
            Err(m) => Err(m),
        }
    } else {
        Ok(t)
    }
}

/// Parsing a comment remainder as a key and an optional value: the key is
/// one string value; what follows it, trimmed, is the value, or the empty
/// string when nothing follows; an empty remainder is an error.
pub open spec fn spec_parse_rem(s: Seq<char>) -> Result<(Seq<char>, Seq<char>), Seq<char>> {
    let t = spec_trim_start(s);
    if t.len() == 0 {
        Err(msg_rem_no_values())
    } else {
        match spec_parse_str(t) {
            Err(m) => Err(m),
            Ok(p) => {
                let i = idx_non_st(p.0, 0);
                if i == p.0.len() {
                    Ok((p.1, Seq::empty()))
                } else {
                    match spec_parse_val(p.0.subrange(i, p.0.len() as int)) {
                        Err(m) => Err(m),
                        Ok(v) => Ok((p.1, spec_trim(v))),
                    }
                }
            },
        }
    }
}

pub fn parse_rem(input: &Vec<char>) -> (r: Result<(Vec<char>, Vec<char>), String>)
    ensures
        match r {
            Ok(p) => spec_parse_rem(input@) matches Ok(q) && q.0 == p.0@ && q.1 == p.1@,
            Err(m) => spec_parse_rem(input@) matches Err(ms) && ms == m@,
        },
{
    let t = trim_start_chars(input);
    if t.len() == 0 {
        return Err("expected 2 values, have none".to_owned());
    }
    proof {
        lemma_idx_non_uni_ws(input@, 0);
        assert(!is_uni_ws(t@[0]));
        assert(spec_trim_start(t@) =~= t@);
    }
    match parse_str(&t) {
        Err(m) => Err(m),
        Ok(p) => {
            proof {
                lemma_idx_non_st(p.0@, 0);
            }
            let i = find_non_st(&p.0, 0);
            if i == p.0.len() {
                let empty: Vec<char> = Vec::new();
                Ok((p.1, empty))
            } else {
                let tail = subvec(&p.0, i, p.0.len());
                match parse_val(&tail) {
                    Err(m) => Err(m),
                    Ok(v) => {
                        let vt = trim_chars(&v);
                        Ok((p.1, vt))
                    },
                }
            }
        },
    }
}

// ---------------------------------------------------------------------------
// Time codes
// ---------------------------------------------------------------------------

/// The largest index below `hi` holding a colon, or `-1` when there is
/// none.
pub open spec fn last_colon(w: Seq<char>, hi: int) -> int
    decreases hi,
{
    if hi <= 0 || hi > w.len() {
        -1
    } else if w[hi - 1] == ':' {
        hi - 1
    } else {
        last_colon(w, hi - 1)
    }
}

pub proof fn lemma_last_colon(w: Seq<char>, hi: int)
    requires
        0 <= hi <= w.len(),
    ensures
        -1 <= last_colon(w, hi) < hi,
        last_colon(w, hi) >= 0 ==> w[last_colon(w, hi)] == ':',
        forall|j: int| last_colon(w, hi) < j < hi ==> w[j] != ':',
    decreases hi,
{
    if hi > 0 && w[hi - 1] != ':' {
        lemma_last_colon(w, hi - 1);
    }
}

/// The weight of the `k`-th colon-separated field, counted from the
/// right: milliseconds, seconds, minutes, hours.
pub open spec fn field_weight(k: int) -> nat {
    if k == 0 {
        1
    } else if k == 1 {
        1000
    } else if k == 2 {
        60000
    } else {
        3600000
    }
}

/// The weighted sum of the colon-separated fields of `w[..hi]`, read
/// right to left starting at weight index `k`; at most four fields are
/// read and any further ones are ignored; `None` when a read field does
/// not parse as a decimal `u64`.
pub open spec fn spec_time_sum(w: Seq<char>, hi: int, k: int) -> Option<nat>
    decreases hi + 1,
    via spec_time_sum_dec
{
    if hi < 0 || hi > w.len() {
        None
    } else {
        let c = last_colon(w, hi);
        match spec_parse_u64(w.subrange(c + 1, hi)) {
            None => None,
            Some(n) => if c < 0 || k >= 3 {
                Some((field_weight(k) * n) as nat)
            } else {
                match spec_time_sum(w, c, k + 1) {
                    None => None,
                    Some(m) => Some((field_weight(k) * n + m) as nat),
                }
            },
        }
    }
}

#[via_fn]
proof fn spec_time_sum_dec(w: Seq<char>, hi: int, k: int) {
    if 0 <= hi <= w.len() {
        lemma_last_colon(w, hi);
    }
}

pub fn rfind_colon(w: &Vec<char>, hi: usize) -> (r: Option<usize>)
    requires
        hi <= w@.len(),
    ensures
        match r {
            None => last_colon(w@, hi as int) == -1,
            Some(j) => last_colon(w@, hi as int) == j && j < hi,
        },
{
    let mut j = hi;
    loop
        invariant
            0 <= j <= hi <= w@.len(),
            last_colon(w@, hi as int) == last_colon(w@, j as int),
        decreases j,
    {
        if j == 0 {
            return None;
        }
        if w[j - 1] == ':' {
            return Some(j - 1);
        }
        j = j - 1;
    }
}

fn weight_of(k: usize) -> (r: u64)
    ensures
        r == field_weight(k as int),
{
    if k == 0 {
        1
    } else if k == 1 {
        1000
    } else if k == 2 {
        60000
    } else {
        3600000
    }
}

/// The weighted field sum, reduced modulo 2^64 as the accumulating
/// machine arithmetic does.
fn time_sum(w: &Vec<char>, hi: usize, k: usize) -> (r: Option<u64>)
    requires
        hi <= w@.len(),
    ensures
        match r {
            None => spec_time_sum(w@, hi as int, k as int) is None,
            Some(v) => spec_time_sum(w@, hi as int, k as int) matches Some(n) && v == n
                % 0x1_0000_0000_0000_0000,
        },
    decreases hi,
{
    proof {
        lemma_last_colon(w@, hi as int);
    }
    let c = rfind_colon(w, hi);
    let lo = match c {
        Some(j) => j + 1,
        None => 0,
    };
    let field = subvec(w, lo, hi);
    let n = match parse_u64_chars(&field) {
        Some(n) => n,
        None => {
            return None;
        },
    };
    let wk = weight_of(k);
    let term = wk.wrapping_mul(n);
    proof {
        assert(field_weight(k as int) * n >= 0);
    }
    match c {
        None => Some(term),
        Some(j) => {
            if k >= 3 {
                Some(term)
            } else {
                match time_sum(w, j, k + 1) {
                    None => None,
                    Some(m) => {
                        let ghost nsub = spec_time_sum(w@, j as int, k + 1 as int)->0;
                        let s = term.wrapping_add(m);
                        proof {
                            let md = 0x1_0000_0000_0000_0000int;
                            let a = field_weight(k as int) * n;
                            vstd::arithmetic::div_mod::lemma_add_mod_noop(a, nsub as int, md);
                        }
                        Some(s)
                    },
                }
            }
        },
    }
}

/// Parsing an `INDEX` remainder: the index number (read and discarded),
/// then a time specifier of one to four colon-separated decimal fields,
/// weighted milliseconds/seconds/minutes/hours from the right.
pub open spec fn spec_parse_index(s: Seq<char>) -> Result<u64, Seq<char>> {
    match spec_next_word(s) {
        None => Err(msg_missing_index_number()),
        Some(p) => match spec_consume_space1(p.0) {
            None => Err(msg_missing_time_spec()),
            Some(rest) => match spec_parse_val(rest) {
                Err(m) => Err(m),
                Ok(word) => match spec_time_sum(word, word.len() as int, 0) {
                    None => Err(msg_invalid_time(word)),
                    Some(n) => Ok((n % 0x1_0000_0000_0000_0000) as u64),
                },
            },
        },
    }
}

pub fn parse_index(input: &Vec<char>) -> (r: Result<u64, String>)
    ensures
        match r {
            Ok(v) => spec_parse_index(input@) matches Ok(n) && n == v,
            Err(m) => spec_parse_index(input@) matches Err(ms) && ms == m@,
        },
{
    let rest = match next_word(input) {
        None => {
            return Err("missing index number".to_owned());
        },
        Some(p) => p.0,
    };
    let rest = match consume_space1(&rest) {
        None => {
            return Err("missing time specifier after index number".to_owned());
        },
        Some(v) => v,
    };
    let word = match parse_val(&rest) {
        Err(m) => {
            return Err(m);
        },
        Ok(w) => w,
    };
    match time_sum(&word, word.len(), 0) {
        None => Err(msg_with("invalid index time: ", &word)),
        Some(n) => Ok(n),
    }
}

// ---------------------------------------------------------------------------
// Field names
// ---------------------------------------------------------------------------

/// The recognized field names, matched case-insensitively; `Other` is
/// anything unrecognized.
pub enum FieldKind {
    Rem,
    Title,
    Performer,
    Songwriter,
    Catalog,
    File,
    Track,
    Index,
    Isrc,
    Flags,
    Other,
}

/// The kind a field name denotes, after ASCII lower-casing.
pub open spec fn spec_field_kind(w: Seq<char>) -> FieldKind {
    let l = lower_seq(w);
    if l == "rem"@ {
        FieldKind::Rem
    } else if l == "title"@ {
        FieldKind::Title
    } else if l == "performer"@ {
        FieldKind::Performer
    } else if l == "songwriter"@ {
        FieldKind::Songwriter
    } else if l == "catalog"@ {
        FieldKind::Catalog
    } else if l == "file"@ {
        FieldKind::File
    } else if l == "track"@ {
        FieldKind::Track
    } else if l == "index"@ {
        FieldKind::Index
    } else if l == "isrc"@ {
        FieldKind::Isrc
    } else if l == "flags"@ {
        FieldKind::Flags
    } else {
        FieldKind::Other
    }
}

fn vec_eq_str(v: &Vec<char>, s: &str) -> (r: bool)
    ensures
        r == (v@ == s@),
{
    let cs = chars_of_str(s);
    vec_char_eq(v, &cs)
}


pub fn field_kind(w: &Vec<char>) -> (k: FieldKind)
    ensures
        k == spec_field_kind(w@),
{
    let l = lower_vec(w);
    if vec_eq_str(&l, "rem") {
        FieldKind::Rem
    } else if vec_eq_str(&l, "title") {
        FieldKind::Title
    } else if vec_eq_str(&l, "performer") {
        FieldKind::Performer
    } else if vec_eq_str(&l, "songwriter") {
        FieldKind::Songwriter
    } else if vec_eq_str(&l, "catalog") {
        FieldKind::Catalog
    } else if vec_eq_str(&l, "file") {
        FieldKind::File
    } else if vec_eq_str(&l, "track") {
        FieldKind::Track
    } else if vec_eq_str(&l, "index") {
        FieldKind::Index
    } else if vec_eq_str(&l, "isrc") {
        FieldKind::Isrc
    } else if vec_eq_str(&l, "flags") {
        FieldKind::Flags
    } else {
        FieldKind::Other
    }
}

// ---------------------------------------------------------------------------
// The line scanner
// ---------------------------------------------------------------------------

/// The next scanned token at or after line `ln`: the line index where it
/// stands, the field name, and the remainder after the field name; blank
/// lines are skipped; `None` at end of input.
pub open spec fn spec_scan(lines: Seq<Seq<char>>, ln: int) -> Option<(int, Seq<char>, Seq<char>)>
    decreases lines.len() - ln,
{
    if ln < 0 || ln >= lines.len() {
        None
    } else {
        match spec_next_word(lines[ln]) {
            Some(p) => Some((ln, p.1, p.0)),
            None => spec_scan(lines, ln + 1),
        }
    }
}

pub proof fn lemma_scan(lines: Seq<Seq<char>>, ln: int)
    ensures
        spec_scan(lines, ln) matches Some(t) ==> ln <= t.0 < lines.len() && spec_next_word(
            lines[t.0],
        ) == Some((t.2, t.1)) && spec_scan(lines, t.0) == Some(t),
    decreases lines.len() - ln,
{
    if 0 <= ln < lines.len() && spec_next_word(lines[ln]) is None {
        lemma_scan(lines, ln + 1);
    }
}

fn scan(lines: &Vec<Vec<char>>, ln: usize) -> (r: Option<(usize, Vec<char>, Vec<char>)>)
    requires
        ln <= lines@.len(),
    ensures
        match r {
            None => spec_scan(lines_view(lines@), ln as int) is None,
            Some(t) => spec_scan(lines_view(lines@), ln as int) == Some(
                (t.0 as int, t.1@, t.2@),
            ) && ln <= t.0 < lines@.len(),
        },
{
    let ghost gl = lines_view(lines@);
    let mut i = ln;
    loop
        invariant
            ln <= i <= lines@.len(),
            gl == lines_view(lines@),
            spec_scan(gl, ln as int) == spec_scan(gl, i as int),
        decreases lines@.len() - i,
    {
        if i == lines.len() {
            return None;
        }
        proof {
            assert(gl[i as int] == lines@[i as int]@);
        }
        match next_word(&lines[i]) {
            Some(p) => {
                return Some((i, p.1, p.0));
            },
            None => {
                i = i + 1;
            },
        }
    }
}

// ---------------------------------------------------------------------------
// The scoped state machine
// ---------------------------------------------------------------------------

/// A document with nothing recorded yet.
pub open spec fn empty_cue_v() -> CueV {
    CueV {
        rems: Map::empty(),
        title: None,
        performer: None,
        songwriter: None,
        catalog: None,
        discs: Seq::empty(),
    }
}

/// The global scope: fields before the first `FILE` belong to the
/// document; `FILE` hands control over at its own line; `TRACK` here, an
/// unrecognized field, or end of input without any `FILE` is fatal.
pub open spec fn spec_global(lines: Seq<Seq<char>>, ln: int, cue: CueV) -> Result<
    (CueV, int),
    ErrV,
>
    decreases lines.len() - ln,
    via spec_global_dec
{
    match spec_scan(lines, ln) {
        None => Err(ErrV { ln: 0, msg: msg_missing_file() }),
        Some(t) => match spec_field_kind(t.1) {
            FieldKind::Rem => match spec_parse_rem(t.2) {
                Err(m) => Err(ErrV { ln: t.0, msg: m }),
                Ok(kv) => spec_global(
                    lines,
                    t.0 + 1,
                    CueV { rems: cue.rems.insert(kv.0, kv.1), ..cue },
                ),
            },
            FieldKind::Title => match spec_parse_val(t.2) {
                Err(m) => Err(ErrV { ln: t.0, msg: m }),
                Ok(v) => spec_global(lines, t.0 + 1, CueV { title: Some(v), ..cue }),
            },
            FieldKind::Performer => match spec_parse_val(t.2) {
                Err(m) => Err(ErrV { ln: t.0, msg: m }),
                Ok(v) => spec_global(lines, t.0 + 1, CueV { performer: Some(v), ..cue }),
            },
            FieldKind::Catalog => match spec_parse_val(t.2) {
                Err(m) => Err(ErrV { ln: t.0, msg: m }),
                Ok(v) => spec_global(lines, t.0 + 1, CueV { catalog: Some(v), ..cue }),
            },
            FieldKind::Songwriter => match spec_parse_val(t.2) {
                Err(m) => Err(ErrV { ln: t.0, msg: m }),
                Ok(v) => spec_global(lines, t.0 + 1, CueV { songwriter: Some(v), ..cue }),
            },
            FieldKind::File => Ok((cue, t.0)),
            FieldKind::Track => Err(ErrV { ln: t.0, msg: msg_track_before_file() }),
            _ => Err(ErrV { ln: t.0, msg: msg_unknown_global(t.1) }),
        },
    }
}

#[via_fn]
proof fn spec_global_dec(lines: Seq<Seq<char>>, ln: int, cue: CueV) {
    lemma_scan(lines, ln);
}

/// How a run of disc-scope fields ended: at a `TRACK` line, at a new
/// `FILE` line, or at end of input.
pub enum DiscNextV {
    Tracks(int),
    NewFile(int),
    End,
}

/// The disc scope before any `TRACK`: metadata fields accumulate on the
/// disc; `TRACK` or `FILE` ends the run at its own line.
pub open spec fn spec_disc_fields(lines: Seq<Seq<char>>, ln: int, d: DiscV) -> Result<
    (DiscV, DiscNextV),
    ErrV,
>
    decreases lines.len() - ln,
    via spec_disc_fields_dec
{
    match spec_scan(lines, ln) {
        None => Ok((d, DiscNextV::End)),
        Some(t) => match spec_field_kind(t.1) {
            FieldKind::Track => Ok((d, DiscNextV::Tracks(t.0))),
            FieldKind::File => Ok((d, DiscNextV::NewFile(t.0))),
            FieldKind::Rem => match spec_parse_rem(t.2) {
                Err(m) => Err(ErrV { ln: t.0, msg: m }),
                Ok(kv) => spec_disc_fields(
                    lines,
                    t.0 + 1,
                    DiscV { rems: d.rems.insert(kv.0, kv.1), ..d },
                ),
            },
            FieldKind::Title => match spec_parse_val(t.2) {
                Err(m) => Err(ErrV { ln: t.0, msg: m }),
                Ok(v) => spec_disc_fields(lines, t.0 + 1, DiscV { title: Some(v), ..d }),
            },
            FieldKind::Performer => match spec_parse_val(t.2) {
                Err(m) => Err(ErrV { ln: t.0, msg: m }),
                Ok(v) => spec_disc_fields(lines, t.0 + 1, DiscV { performer: Some(v), ..d }),
            },
            FieldKind::Songwriter => match spec_parse_val(t.2) {
                Err(m) => Err(ErrV { ln: t.0, msg: m }),
                Ok(v) => spec_disc_fields(lines, t.0 + 1, DiscV { songwriter: Some(v), ..d }),
            },
            FieldKind::Catalog => match spec_parse_val(t.2) {
                Err(m) => Err(ErrV { ln: t.0, msg: m }),
                Ok(v) => spec_disc_fields(lines, t.0 + 1, DiscV { catalog: Some(v), ..d }),
            },
            _ => Err(ErrV { ln: t.0, msg: msg_unknown_disc(t.1) }),
        },
    }
}

#[via_fn]
proof fn spec_disc_fields_dec(lines: Seq<Seq<char>>, ln: int, d: DiscV) {
    lemma_scan(lines, ln);
}

pub proof fn lemma_disc_fields_bounds(lines: Seq<Seq<char>>, ln: int, d: DiscV)
    ensures
        spec_disc_fields(lines, ln, d) matches Ok(r) ==> match r.1 {
            DiscNextV::Tracks(j) => ln <= j < lines.len(),
            DiscNextV::NewFile(j) => ln <= j < lines.len(),
            DiscNextV::End => true,
        },
    decreases lines.len() - ln,
{
    lemma_scan(lines, ln);
    match spec_scan(lines, ln) {
        None => {},
        Some(t) => {
            lemma_disc_fields_bounds(lines, t.0 + 1, d);
            match spec_field_kind(t.1) {
                FieldKind::Rem => {
                    match spec_parse_rem(t.2) {
                        Ok(kv) => {
                            lemma_disc_fields_bounds(
                                lines,
                                t.0 + 1,
                                DiscV { rems: d.rems.insert(kv.0, kv.1), ..d },
                            );
                        },
                        Err(_) => {},
                    }
                },
                FieldKind::Title => {
                    match spec_parse_val(t.2) {
                        Ok(v) => {
                            lemma_disc_fields_bounds(
                                lines,
                                t.0 + 1,
                                DiscV { title: Some(v), ..d },
                            );
                        },
                        Err(_) => {},
                    }
                },
                FieldKind::Performer => {
                    match spec_parse_val(t.2) {
                        Ok(v) => {
                            lemma_disc_fields_bounds(
                                lines,
                                t.0 + 1,
                                DiscV { performer: Some(v), ..d },
                            );
                        },
                        Err(_) => {},
                    }
                },
                FieldKind::Songwriter => {
                    match spec_parse_val(t.2) {
                        Ok(v) => {
                            lemma_disc_fields_bounds(
                                lines,
                                t.0 + 1,
                                DiscV { songwriter: Some(v), ..d },
                            );
                        },
                        Err(_) => {},
                    }
                },
                FieldKind::Catalog => {
                    match spec_parse_val(t.2) {
                        Ok(v) => {
                            lemma_disc_fields_bounds(
                                lines,
                                t.0 + 1,
                                DiscV { catalog: Some(v), ..d },
                            );
                        },
                        Err(_) => {},
                    }
                },
                _ => {},
            }
        },
    }
}

/// How a run of track-scope fields ended: at the next `TRACK` line, at a
/// new `FILE` line, or at end of input.
pub enum TrackEndV {
    NextTrack(int),
    NewFile(int),
    End,
}

/// The track scope: `INDEX` records the largest time seen, metadata
/// fields overwrite, `FLAGS` is ignored, `TRACK` and `FILE` end the run
/// at their own line; `CATALOG` or an unrecognized field is fatal.
pub open spec fn spec_track_fields(
    lines: Seq<Seq<char>>,
    ln: int,
    t: TrackV,
    have: bool,
) -> Result<(TrackV, bool, TrackEndV), ErrV>
    decreases lines.len() - ln,
    via spec_track_fields_dec
{
    match spec_scan(lines, ln) {
        None => Ok((t, have, TrackEndV::End)),
        Some(s) => match spec_field_kind(s.1) {
            FieldKind::Track => Ok((t, have, TrackEndV::NextTrack(s.0))),
            FieldKind::File => Ok((t, have, TrackEndV::NewFile(s.0))),
            FieldKind::Index => match spec_parse_index(s.2) {
                Err(m) => Err(ErrV { ln: s.0, msg: m }),
                Ok(idx) => spec_track_fields(
                    lines,
                    s.0 + 1,
                    TrackV {
                        index: if idx > t.index {
                            idx
                        } else {
                            t.index
                        },
                        ..t
                    },
                    true,
                ),
            },
            FieldKind::Title => match spec_parse_val(s.2) {
                Err(m) => Err(ErrV { ln: s.0, msg: m }),
                Ok(v) => spec_track_fields(lines, s.0 + 1, TrackV { title: Some(v), ..t }, have),
            },
            FieldKind::Performer => match spec_parse_val(s.2) {
                Err(m) => Err(ErrV { ln: s.0, msg: m }),
                Ok(v) => spec_track_fields(
                    lines,
                    s.0 + 1,
                    TrackV { performer: Some(v), ..t },
                    have,
                ),
            },
            FieldKind::Songwriter => match spec_parse_val(s.2) {
                Err(m) => Err(ErrV { ln: s.0, msg: m }),
                Ok(v) => spec_track_fields(
                    lines,
                    s.0 + 1,
                    TrackV { songwriter: Some(v), ..t },
                    have,
                ),
            },
            FieldKind::Isrc => match spec_parse_val(s.2) {
                Err(m) => Err(ErrV { ln: s.0, msg: m }),
                Ok(v) => spec_track_fields(lines, s.0 + 1, TrackV { isrc: Some(v), ..t }, have),
            },
            FieldKind::Flags => spec_track_fields(lines, s.0 + 1, t, have),
            FieldKind::Rem => match spec_parse_rem(s.2) {
                Err(m) => Err(ErrV { ln: s.0, msg: m }),
                Ok(kv) => spec_track_fields(
                    lines,
                    s.0 + 1,
                    TrackV { rems: t.rems.insert(kv.0, kv.1), ..t },
                    have,
                ),
            },
            _ => Err(ErrV { ln: s.0, msg: msg_unknown_track(s.1) }),
        },
    }
}

#[via_fn]
proof fn spec_track_fields_dec(lines: Seq<Seq<char>>, ln: int, t: TrackV, have: bool) {
    lemma_scan(lines, ln);
}

pub proof fn lemma_track_fields_bounds(lines: Seq<Seq<char>>, ln: int, t: TrackV, have: bool)
    ensures
        spec_track_fields(lines, ln, t, have) matches Ok(r) ==> match r.2 {
            TrackEndV::NextTrack(j) => ln <= j < lines.len(),
            TrackEndV::NewFile(j) => ln <= j < lines.len(),
            TrackEndV::End => true,
        },
    decreases lines.len() - ln,
{
    lemma_scan(lines, ln);
    match spec_scan(lines, ln) {
        None => {},
        Some(s) => {
            match spec_field_kind(s.1) {
                FieldKind::Index => {
                    match spec_parse_index(s.2) {
                        Ok(idx) => {
                            lemma_track_fields_bounds(
                                lines,
                                s.0 + 1,
                                TrackV {
                                    index: if idx > t.index {
                                        idx
                                    } else {
                                        t.index
                                    },
                                    ..t
                                },
                                true,
                            );
                        },
                        Err(_) => {},
                    }
                },
                FieldKind::Title => {
                    match spec_parse_val(s.2) {
                        Ok(v) => {
                            lemma_track_fields_bounds(
                                lines,
                                s.0 + 1,
                                TrackV { title: Some(v), ..t },
                                have,
                            );
                        },
                        Err(_) => {},
                    }
                },
                FieldKind::Performer => {
                    match spec_parse_val(s.2) {
                        Ok(v) => {
                            lemma_track_fields_bounds(
                                lines,
                                s.0 + 1,
                                TrackV { performer: Some(v), ..t },
                                have,
                            );
                        },
                        Err(_) => {},
                    }
                },
                FieldKind::Songwriter => {
                    match spec_parse_val(s.2) {
                        Ok(v) => {
                            lemma_track_fields_bounds(
                                lines,
                                s.0 + 1,
                                TrackV { songwriter: Some(v), ..t },
                                have,
                            );
                        },
                        Err(_) => {},
                    }
                },
                FieldKind::Isrc => {
                    match spec_parse_val(s.2) {
                        Ok(v) => {
                            lemma_track_fields_bounds(
                                lines,
                                s.0 + 1,
                                TrackV { isrc: Some(v), ..t },
                                have,
                            );
                        },
                        Err(_) => {},
                    }
                },
                FieldKind::Flags => {
                    lemma_track_fields_bounds(lines, s.0 + 1, t, have);
                },
                FieldKind::Rem => {
                    match spec_parse_rem(s.2) {
                        Ok(kv) => {
                            lemma_track_fields_bounds(
                                lines,
                                s.0 + 1,
                                TrackV { rems: t.rems.insert(kv.0, kv.1), ..t },
                                have,
                            );
                        },
                        Err(_) => {},
                    }
                },
                _ => {},
            }
        },
    }
}

/// A fresh track carrying only its declared number.
pub open spec fn new_track_v(no: u32) -> TrackV {
    TrackV {
        number: no,
        title: None,
        performer: None,
        songwriter: None,
        isrc: None,
        index: 0,
        rems: Map::empty(),
    }
}

/// The track loop of one disc, entered at a `TRACK` line: each track is
/// its number token, then its fields; a track closed without any `INDEX`
/// is fatal, attributed to its `TRACK` line; a new `FILE` hands control
/// back at its own line.
pub open spec fn spec_tracks(lines: Seq<Seq<char>>, ln: int, disc: DiscV) -> Result<
    (DiscV, int),
    ErrV,
>
    decreases lines.len() - ln,
{
    match spec_scan(lines, ln) {
        None => Ok((disc, lines.len() as int)),
        Some(s) => match spec_parse_str(s.2) {
            Err(m) => Err(ErrV { ln: s.0, msg: m }),
            Ok(p) => match spec_parse_u32(p.1) {
                None => Err(ErrV { ln: s.0, msg: msg_invalid_track_number() }),
                Some(no) => match spec_track_fields(lines, s.0 + 1, new_track_v(no), false) {
                    Err(e) => Err(e),
                    Ok(r) => if !r.1 {
                        Err(ErrV { ln: s.0, msg: msg_missing_index() })
                    } else {
                        let d2 = DiscV { tracks: disc.tracks.push(r.0), ..disc };
                        match r.2 {
                            TrackEndV::NextTrack(j) => if ln < j < lines.len() {
                                spec_tracks(lines, j, d2)
                            } else {
                                Ok((d2, lines.len() as int))
                            },
                            TrackEndV::NewFile(j) => Ok((d2, j)),
                            TrackEndV::End => Ok((d2, lines.len() as int)),
                        }
                    },
                },
            },
        },
    }
}

pub proof fn lemma_tracks_bounds(lines: Seq<Seq<char>>, ln: int, disc: DiscV)
    ensures
        spec_tracks(lines, ln, disc) matches Ok(r) ==> r.1 <= lines.len() && (r.1 < lines.len()
            ==> r.1 > ln),
    decreases lines.len() - ln,
{
    lemma_scan(lines, ln);
    match spec_scan(lines, ln) {
        None => {},
        Some(s) => {
            match spec_parse_str(s.2) {
                Err(_) => {},
                Ok(p) => {
                    match spec_parse_u32(p.1) {
                        None => {},
                        Some(no) => {
                            lemma_track_fields_bounds(lines, s.0 + 1, new_track_v(no), false);
                            match spec_track_fields(lines, s.0 + 1, new_track_v(no), false) {
                                Err(_) => {},
                                Ok(r) => {
                                    let d2 = DiscV { tracks: disc.tracks.push(r.0), ..disc };
                                    match r.2 {
                                        TrackEndV::NextTrack(j) => {
                                            if ln < j < lines.len() {
                                                lemma_tracks_bounds(lines, j, d2);
                                            }
                                        },
                                        _ => {},
                                    }
                                },
                            }
                        },
                    }
                },
            }
        },
    }
}

/// One disc, entered at its `FILE` line: the file path is one string
/// value off the remainder (any kind word after it discarded), then the
/// disc fields, then the tracks; yields the disc and the line at which
/// parsing is to resume.
pub open spec fn spec_disc(lines: Seq<Seq<char>>, ln: int) -> Result<(DiscV, int), ErrV> {
    match spec_scan(lines, ln) {
        None => Ok(
            (
                DiscV {
                    rems: Map::empty(),
                    catalog: None,
                    performer: None,
                    songwriter: None,
                    title: None,
                    file: Seq::empty(),
                    tracks: Seq::empty(),
                },
                lines.len() as int,
            ),
        ),
        Some(t) => match spec_parse_str(t.2) {
            Err(m) => Err(ErrV { ln: t.0, msg: m }),
            Ok(p) => {
                let d0 = DiscV {
                    rems: Map::empty(),
                    catalog: None,
                    performer: None,
                    songwriter: None,
                    title: None,
                    file: p.1,
                    tracks: Seq::empty(),
                };
                match spec_disc_fields(lines, t.0 + 1, d0) {
                    Err(e) => Err(e),
                    Ok(r) => match r.1 {
                        DiscNextV::Tracks(j) => spec_tracks(lines, j, r.0),
                        DiscNextV::NewFile(j) => Ok((r.0, j)),
                        DiscNextV::End => Ok((r.0, lines.len() as int)),
                    },
                }
            },
        },
    }
}

pub proof fn lemma_disc_bounds(lines: Seq<Seq<char>>, ln: int)
    requires
        0 <= ln < lines.len(),
    ensures
        spec_disc(lines, ln) matches Ok(r) ==> ln < r.1 <= lines.len(),
{
    lemma_scan(lines, ln);
    match spec_scan(lines, ln) {
        None => {},
        Some(t) => {
            match spec_parse_str(t.2) {
                Err(_) => {},
                Ok(p) => {
                    let d0 = DiscV {
                        rems: Map::empty(),
                        catalog: None,
                        performer: None,
                        songwriter: None,
                        title: None,
                        file: p.1,
                        tracks: Seq::empty(),
                    };
                    lemma_disc_fields_bounds(lines, t.0 + 1, d0);
                    match spec_disc_fields(lines, t.0 + 1, d0) {
                        Err(_) => {},
                        Ok(r) => {
                            match r.1 {
                                DiscNextV::Tracks(j) => {
                                    lemma_tracks_bounds(lines, j, r.0);
                                },
                                _ => {},
                            }
                        },
                    }
                },
            }
        },
    }
}

/// The disc loop: discs accumulate, each resuming where the previous one
/// stopped, until the input is exhausted.
pub open spec fn spec_discs(lines: Seq<Seq<char>>, ln: int, cue: CueV) -> Result<CueV, ErrV>
    decreases lines.len() - ln,
{
    if ln < 0 || ln >= lines.len() {
        Ok(cue)
    } else {
        match spec_disc(lines, ln) {
            Err(e) => Err(e),
            Ok(r) => if ln < r.1 && r.1 <= lines.len() {
                spec_discs(lines, r.1, CueV { discs: cue.discs.push(r.0), ..cue })
            } else {
                Ok(cue)
            },
        }
    }
}

/// The whole parse: the global fields, then, from the first `FILE` line,
/// the discs; no `FILE` at all is fatal, attributed to line 0.
pub open spec fn spec_parse(lines: Seq<Seq<char>>) -> Result<CueV, ErrV> {
    match spec_global(lines, 0, empty_cue_v()) {
        Err(e) => Err(e),
        Ok(r) => spec_discs(lines, r.1, r.0),
    }
}

fn parse_global(lines: &Vec<Vec<char>>, ln: usize, cue: Cue) -> (r: Result<(Cue, usize), Error>)
    requires
        ln <= lines@.len(),
    ensures
        match r {
            Ok(p) => spec_global(lines_view(lines@), ln as int, cue@) matches Ok(q) && q.0 == p.0@
                && q.1 == p.1 as int && p.1 <= lines@.len(),
            Err(e) => spec_global(lines_view(lines@), ln as int, cue@) matches Err(ev) && ev == e@,
        },
    decreases lines@.len() - ln,
{
    let ghost gl = lines_view(lines@);
    proof {
        vstd::std_specs::vec::axiom_spec_len(lines);
    }
    match scan(lines, ln) {
        None => Err(
            Error { ln: 0, msg: "cue sheet is missing a `FILE` declaration".to_owned() },
        ),
        Some(t) => {
            let (i, field, rest) = t;
            match field_kind(&field) {
                FieldKind::Rem => match parse_rem(&rest) {
                    Err(m) => Err(Error { ln: i, msg: m }),
                    Ok(kv) => {
                        let mut cue = cue;
                        let ks = chars_to_string(&kv.0);
                        let vs = chars_to_string(&kv.1);
                        cue.rems.insert(ks, vs);
                        parse_global(lines, i + 1, cue)
                    },
                },
                FieldKind::Title => match parse_val(&rest) {
                    Err(m) => Err(Error { ln: i, msg: m }),
                    Ok(v) => {
                        let mut cue = cue;
                        cue.title = Some(chars_to_string(&v));
                        parse_global(lines, i + 1, cue)
                    },
                },
                FieldKind::Performer => match parse_val(&rest) {
                    Err(m) => Err(Error { ln: i, msg: m }),
                    Ok(v) => {
                        let mut cue = cue;
                        cue.performer = Some(chars_to_string(&v));
                        parse_global(lines, i + 1, cue)
                    },
                },
                FieldKind::Catalog => match parse_val(&rest) {
                    Err(m) => Err(Error { ln: i, msg: m }),
                    Ok(v) => {
                        let mut cue = cue;
                        cue.catalog = Some(chars_to_string(&v));
                        parse_global(lines, i + 1, cue)
                    },
                },
                FieldKind::Songwriter => match parse_val(&rest) {
                    Err(m) => Err(Error { ln: i, msg: m }),
                    Ok(v) => {
                        let mut cue = cue;
                        cue.songwriter = Some(chars_to_string(&v));
                        parse_global(lines, i + 1, cue)
                    },
                },
                FieldKind::File => Ok((cue, i)),
                FieldKind::Track => Err(
                    Error { ln: i, msg: "`TRACK` declared before any `FILE`".to_owned() },
                ),
                FieldKind::Index | FieldKind::Isrc | FieldKind::Flags | FieldKind::Other => Err(
                    Error { ln: i, msg: msg_with("unknown field for a disc: ", &field) },
                ),
            }
        },
    }
}

/// Exec counterpart of `DiscNextV`.
enum DiscNext {
    Tracks(usize),
    NewFile(usize),
    End,
}

fn parse_disc_fields(lines: &Vec<Vec<char>>, ln: usize, disc: Disc) -> (r: Result<
    (Disc, DiscNext),
    Error,
>)
    requires
        ln <= lines@.len(),
    ensures
        match r {
            Ok(p) => spec_disc_fields(lines_view(lines@), ln as int, disc@) matches Ok(q) && q.0
                == p.0@ && (match (p.1, q.1) {
                (DiscNext::Tracks(j), DiscNextV::Tracks(sj)) => j as int == sj && j
                    < lines@.len(),
                (DiscNext::NewFile(j), DiscNextV::NewFile(sj)) => j as int == sj && j
                    < lines@.len(),
                (DiscNext::End, DiscNextV::End) => true,
                _ => false,
            }),
            Err(e) => spec_disc_fields(lines_view(lines@), ln as int, disc@) matches Err(ev) && ev
                == e@,
        },
    decreases lines@.len() - ln,
{
    let ghost gl = lines_view(lines@);
    proof {
        vstd::std_specs::vec::axiom_spec_len(lines);
    }
    match scan(lines, ln) {
        None => Ok((disc, DiscNext::End)),
        Some(t) => {
            let (i, field, rest) = t;
            match field_kind(&field) {
                FieldKind::Track => Ok((disc, DiscNext::Tracks(i))),
                FieldKind::File => Ok((disc, DiscNext::NewFile(i))),
                FieldKind::Rem => match parse_rem(&rest) {
                    Err(m) => Err(Error { ln: i, msg: m }),
                    Ok(kv) => {
                        let mut disc = disc;
                        let ks = chars_to_string(&kv.0);
                        let vs = chars_to_string(&kv.1);
                        disc.rems.insert(ks, vs);
                        parse_disc_fields(lines, i + 1, disc)
                    },
                },
                FieldKind::Title => match parse_val(&rest) {
                    Err(m) => Err(Error { ln: i, msg: m }),
                    Ok(v) => {
                        let mut disc = disc;
                        disc.title = Some(chars_to_string(&v));
                        parse_disc_fields(lines, i + 1, disc)
                    },
                },
                FieldKind::Performer => match parse_val(&rest) {
                    Err(m) => Err(Error { ln: i, msg: m }),
                    Ok(v) => {
                        let mut disc = disc;
                        disc.performer = Some(chars_to_string(&v));
                        parse_disc_fields(lines, i + 1, disc)
                    },
                },
                FieldKind::Songwriter => match parse_val(&rest) {
                    Err(m) => Err(Error { ln: i, msg: m }),
                    Ok(v) => {
                        let mut disc = disc;
                        disc.songwriter = Some(chars_to_string(&v));
                        parse_disc_fields(lines, i + 1, disc)
                    },
                },
                FieldKind::Catalog => match parse_val(&rest) {
                    Err(m) => Err(Error { ln: i, msg: m }),
                    Ok(v) => {
                        let mut disc = disc;
                        disc.catalog = Some(chars_to_string(&v));
                        parse_disc_fields(lines, i + 1, disc)
                    },
                },
                FieldKind::Index | FieldKind::Isrc | FieldKind::Flags | FieldKind::Other => Err(
                    Error { ln: i, msg: msg_with("unknown field for disc: ", &field) },
                ),
            }
        },
    }
}

/// Exec counterpart of `TrackEndV`.
enum TrackEnd {
    NextTrack(usize),
    NewFile(usize),
    End,
}

fn parse_track_fields(lines: &Vec<Vec<char>>, ln: usize, track: Track, have: bool) -> (r: Result<
    (Track, bool, TrackEnd),
    Error,
>)
    requires
        ln <= lines@.len(),
    ensures
        match r {
            Ok(p) => spec_track_fields(lines_view(lines@), ln as int, track@, have) matches Ok(q)
                && q.0 == p.0@ && q.1 == p.1 && (match (p.2, q.2) {
                (TrackEnd::NextTrack(j), TrackEndV::NextTrack(sj)) => j as int == sj && j
                    < lines@.len(),
                (TrackEnd::NewFile(j), TrackEndV::NewFile(sj)) => j as int == sj && j
                    < lines@.len(),
                (TrackEnd::End, TrackEndV::End) => true,
                _ => false,
            }),
            Err(e) => spec_track_fields(lines_view(lines@), ln as int, track@, have) matches Err(
                ev,
            ) && ev == e@,
        },
    decreases lines@.len() - ln,
{
    let ghost gl = lines_view(lines@);
    proof {
        vstd::std_specs::vec::axiom_spec_len(lines);
    }
    match scan(lines, ln) {
        None => Ok((track, have, TrackEnd::End)),
        Some(t) => {
            let (i, field, rest) = t;
            match field_kind(&field) {
                FieldKind::Track => Ok((track, have, TrackEnd::NextTrack(i))),
                FieldKind::File => Ok((track, have, TrackEnd::NewFile(i))),
                FieldKind::Index => match parse_index(&rest) {
                    Err(m) => Err(Error { ln: i, msg: m }),
                    Ok(idx) => {
                        let mut track = track;
                        if idx > track.index {
                            track.index = idx;
                        }
                        parse_track_fields(lines, i + 1, track, true)
                    },
                },
                FieldKind::Title => match parse_val(&rest) {
                    Err(m) => Err(Error { ln: i, msg: m }),
                    Ok(v) => {
                        let mut track = track;
                        track.title = Some(chars_to_string(&v));
                        parse_track_fields(lines, i + 1, track, have)
                    },
                },
                FieldKind::Performer => match parse_val(&rest) {
                    Err(m) => Err(Error { ln: i, msg: m }),
                    Ok(v) => {
                        let mut track = track;
                        track.performer = Some(chars_to_string(&v));
                        parse_track_fields(lines, i + 1, track, have)
                    },
                },
                FieldKind::Songwriter => match parse_val(&rest) {
                    Err(m) => Err(Error { ln: i, msg: m }),
                    Ok(v) => {
                        let mut track = track;
                        track.songwriter = Some(chars_to_string(&v));
                        parse_track_fields(lines, i + 1, track, have)
                    },
                },
                FieldKind::Isrc => match parse_val(&rest) {
                    Err(m) => Err(Error { ln: i, msg: m }),
                    Ok(v) => {
                        let mut track = track;
                        track.isrc = Some(chars_to_string(&v));
                        parse_track_fields(lines, i + 1, track, have)
                    },
                },
                FieldKind::Flags => parse_track_fields(lines, i + 1, track, have),
                FieldKind::Rem => match parse_rem(&rest) {
                    Err(m) => Err(Error { ln: i, msg: m }),
                    Ok(kv) => {
                        let mut track = track;
                        let ks = chars_to_string(&kv.0);
                        let vs = chars_to_string(&kv.1);
                        track.rems.insert(ks, vs);
                        parse_track_fields(lines, i + 1, track, have)
                    },
                },
                FieldKind::Catalog | FieldKind::Other => Err(
                    Error { ln: i, msg: msg_with("unknown field for a track: ", &field) },
                ),
            }
        },
    }
}

fn parse_tracks(lines: &Vec<Vec<char>>, ln: usize, disc: Disc) -> (r: Result<(Disc, usize), Error>)
    requires
        ln <= lines@.len(),
    ensures
        match r {
            Ok(p) => spec_tracks(lines_view(lines@), ln as int, disc@) matches Ok(q) && q.0 == p.0@
                && q.1 == p.1 as int && p.1 <= lines@.len(),
            Err(e) => spec_tracks(lines_view(lines@), ln as int, disc@) matches Err(ev) && ev
                == e@,
        },
    decreases lines@.len() - ln,
{
    let ghost gl = lines_view(lines@);
    proof {
        vstd::std_specs::vec::axiom_spec_len(lines);
    }
    match scan(lines, ln) {
        None => Ok((disc, lines.len())),
        Some(t) => {
            let (i, _field, rest) = t;
            match parse_str(&rest) {
                Err(m) => Err(Error { ln: i, msg: m }),
                Ok(p) => match parse_u32_chars(&p.1) {
                    None => Err(Error { ln: i, msg: "invalid track number".to_owned() }),
                    Some(no) => {
                        let t0 = Track {
                            number: no,
                            title: None,
                            performer: None,
                            songwriter: None,
                            isrc: None,
                            index: 0,
                            rems: Rems::new(),
                        };
                        proof {
                            assert(t0@ == new_track_v(no));
                        }
                        match parse_track_fields(lines, i + 1, t0, false) {
                            Err(e) => Err(e),
                            Ok(r) => {
                                if !r.1 {
                                    return Err(
                                        Error {
                                            ln: i,
                                            msg: "track is missing a `INDEX` declaration".to_owned(),
                                        },
                                    );
                                }
                                let (tr, _, end) = r;
                                let mut disc = disc;
                                let ghost dv = disc@;
                                disc.tracks.push(tr);
                                proof {
                                    lemma_track_fields_bounds(gl, i + 1, new_track_v(no), false);
                                    assert(disc@.tracks =~= dv.tracks.push(tr@));
                                    assert(disc@ == DiscV { tracks: dv.tracks.push(tr@), ..dv });
                                }
                                match end {
                                    TrackEnd::NextTrack(j) => parse_tracks(lines, j, disc),
                                    TrackEnd::NewFile(j) => Ok((disc, j)),
                                    TrackEnd::End => Ok((disc, lines.len())),
                                }
                            },
                        }
                    },
                },
            }
        },
    }
}

fn parse_disc_at(lines: &Vec<Vec<char>>, ln: usize) -> (r: Result<(Disc, usize), Error>)
    requires
        ln <= lines@.len(),
    ensures
        match r {
            Ok(p) => spec_disc(lines_view(lines@), ln as int) matches Ok(q) && q.0 == p.0@ && q.1
                == p.1 as int && p.1 <= lines@.len(),
            Err(e) => spec_disc(lines_view(lines@), ln as int) matches Err(ev) && ev == e@,
        },
{
    let ghost gl = lines_view(lines@);
    proof {
        vstd::std_specs::vec::axiom_spec_len(lines);
    }
    match scan(lines, ln) {
        None => {
            let d = Disc {
                rems: Rems::new(),
                catalog: None,
                performer: None,
                songwriter: None,
                title: None,
                file: String::new(),
                tracks: Vec::new(),
            };
            proof {
                assert(d@.tracks =~= Seq::<TrackV>::empty());
            }
            Ok((d, lines.len()))
        },
        Some(t) => {
            let (i, _field, rest) = t;
            match parse_str(&rest) {
                Err(m) => Err(Error { ln: i, msg: m }),
                Ok(p) => {
                    let d0 = Disc {
                        rems: Rems::new(),
                        catalog: None,
                        performer: None,
                        songwriter: None,
                        title: None,
                        file: chars_to_string(&p.1),
                        tracks: Vec::new(),
                    };
                    proof {
                        assert(d0@.tracks =~= Seq::<TrackV>::empty());
                    }
                    match parse_disc_fields(lines, i + 1, d0) {
                        Err(e) => Err(e),
                        Ok(r) => {
                            let (disc, next) = r;
                            match next {
                                DiscNext::Tracks(j) => parse_tracks(lines, j, disc),
                                DiscNext::NewFile(j) => Ok((disc, j)),
                                DiscNext::End => Ok((disc, lines.len())),
                            }
                        },
                    }
                },
            }
        },
    }
}

fn parse_discs(lines: &Vec<Vec<char>>, ln: usize, cue: Cue) -> (r: Result<Cue, Error>)
    requires
        ln <= lines@.len(),
    ensures
        match r {
            Ok(c) => spec_discs(lines_view(lines@), ln as int, cue@) matches Ok(cv) && c@ == cv,
            Err(e) => spec_discs(lines_view(lines@), ln as int, cue@) matches Err(ev) && ev == e@,
        },
    decreases lines@.len() - ln,
{
    let ghost gl = lines_view(lines@);
    if ln >= lines.len() {
        return Ok(cue);
    }
    match parse_disc_at(lines, ln) {
        Err(e) => Err(e),
        Ok(p) => {
            proof {
                lemma_disc_bounds(gl, ln as int);
            }
            let (d, next) = p;
            let mut cue = cue;
            let ghost cv = cue@;
            cue.discs.push(d);
            proof {
                assert(cue@.discs =~= cv.discs.push(d@));
                assert(cue@ == CueV { discs: cv.discs.push(d@), ..cv });
            }
            parse_discs(lines, next, cue)
        },
    }
}

/// The document parser over pre-split lines.
pub struct Parser {
    lines: Vec<Vec<char>>,
    ln: usize,
}

impl View for Parser {
    type V = Seq<Seq<char>>;

    closed spec fn view(&self) -> Seq<Seq<char>> {
        lines_view(self.lines@)
    }
}

impl Parser {
    /// The parser stands at the first line.
    pub closed spec fn wf(&self) -> bool {
        self.ln == 0
    }

    pub fn new(lines: Vec<Vec<char>>) -> (r: Parser)
        ensures
            r@ == lines_view(lines@),
            r.wf(),
    {
        Parser { lines, ln: 0 }
    }

    /// Runs the whole parse over the lines this parser was given.
    pub fn parse(self) -> (r: Result<Cue, Error>)
        requires
            self.wf(),
        ensures
            match r {
                Ok(c) => spec_parse(self@) matches Ok(cv) && c@ == cv,
                Err(e) => spec_parse(self@) matches Err(ev) && ev == e@,
            },
    {
        let cue = Cue {
            rems: Rems::new(),
            title: None,
            performer: None,
            songwriter: None,
            catalog: None,
            discs: Vec::new(),
        };
        proof {
            assert(cue@.discs =~= Seq::<DiscV>::empty());
            assert(cue@ == empty_cue_v());
        }
        match parse_global(&self.lines, 0, cue) {
            Err(e) => Err(e),
            Ok(p) => parse_discs(&self.lines, p.1, p.0),
        }
    }
}

} // verus!
