//! Laws of the parser, stated over its specification functions and
//! proved once for all inputs of the shapes they describe.

use vstd::prelude::*;

use crate::cue::error::ErrV;
use crate::cue::parser::{
    empty_cue_v, msg_missing_file, new_track_v, spec_field_kind, spec_global, spec_next_word,
    spec_disc, spec_disc_fields, spec_discs, spec_parse, spec_parse_index, spec_parse_rem,
    spec_parse_str, spec_parse_val, spec_scan, spec_track_fields, spec_tracks, DiscNextV,
    FieldKind, TrackEndV,
};
use crate::cue::{CueV, DiscV, TrackV};
use crate::text::{lower_seq, spec_parse_u32};

verus! {

/// A minimal valid sheet parses to exactly one disc holding exactly one
/// track, whose offset is the time-code value: for every three-line
/// input whose first line is a `FILE` declaration with a well-formed
/// value, whose second is a `TRACK` declaration with a well-formed
/// number, and whose third is an `INDEX` declaration with a well-formed
/// time code, the parse succeeds with exactly that structure.
pub proof fn lemma_minimal_sheet(
    lines: Seq<Seq<char>>,
    f0: (Seq<char>, Seq<char>),
    f1: (Seq<char>, Seq<char>),
    f2: (Seq<char>, Seq<char>),
    file: Seq<char>,
    no: u32,
    off: u64,
)
    requires
        lines.len() == 3,
        spec_next_word(lines[0]) == Some(f0),
        spec_field_kind(f0.1) == FieldKind::File,
        spec_parse_str(f0.0) matches Ok(p) && p.1 == file,
        spec_next_word(lines[1]) == Some(f1),
        spec_field_kind(f1.1) == FieldKind::Track,
        spec_parse_str(f1.0) matches Ok(p) && spec_parse_u32(p.1) == Some(no),
        spec_next_word(lines[2]) == Some(f2),
        spec_field_kind(f2.1) == FieldKind::Index,
        spec_parse_index(f2.0) == Ok::<u64, Seq<char>>(off),
    ensures
        spec_parse(lines) matches Ok(cue) && cue.discs.len() == 1 && cue.discs[0].file == file
            && cue.discs[0].tracks.len() == 1 && cue.discs[0].tracks[0].number == no
            && cue.discs[0].tracks[0].index == off,
{
    let t0 = (0int, f0.1, f0.0);
    let t1 = (1int, f1.1, f1.0);
    let t2 = (2int, f2.1, f2.0);
    assert(spec_scan(lines, 0) == Some(t0));
    assert(spec_scan(lines, 1) == Some(t1));
    assert(spec_scan(lines, 2) == Some(t2));
    assert(spec_scan(lines, 3) is None);
    assert(spec_global(lines, 0, empty_cue_v()) == Ok::<_, ErrV>((empty_cue_v(), 0int)));
    let tr0 = new_track_v(no);
    let idx = if off > tr0.index {
        off
    } else {
        tr0.index
    };
    let tr1 = TrackV { index: idx, ..tr0 };
    assert(spec_track_fields(lines, 3, tr1, true) == Ok::<_, ErrV>(
        (tr1, true, TrackEndV::End),
    ));
    assert(spec_track_fields(lines, 2, tr0, false) == Ok::<_, ErrV>(
        (tr1, true, TrackEndV::End),
    ));
    assert(tr1.index == off);
    let d0 = DiscV {
        rems: Map::empty(),
        catalog: None,
        performer: None,
        songwriter: None,
        title: None,
        file,
        tracks: Seq::empty(),
    };
    assert(spec_disc_fields(lines, 1, d0) == Ok::<_, ErrV>((d0, DiscNextV::Tracks(1int))));
    let d2 = DiscV { tracks: d0.tracks.push(tr1), ..d0 };
    assert(spec_tracks(lines, 1, d0) == Ok::<_, ErrV>((d2, 3int)));
    assert(spec_disc(lines, 0) == Ok::<_, ErrV>((d2, 3int)));
    let cue1 = CueV { discs: empty_cue_v().discs.push(d2), ..empty_cue_v() };
    assert(spec_discs(lines, 3, cue1) == Ok::<CueV, ErrV>(cue1));
    assert(spec_discs(lines, 0, empty_cue_v()) == Ok::<CueV, ErrV>(cue1));
    assert(spec_parse(lines) == Ok::<CueV, ErrV>(cue1));
    assert(cue1.discs[0] == d2);
    assert(d2.tracks[0] == tr1);
}

/// Field names are matched case-insensitively: two field names that
/// agree after ASCII lower-casing denote the same field kind, whatever
/// their cases.
pub proof fn lemma_field_kind_case_insensitive(w1: Seq<char>, w2: Seq<char>)
    requires
        lower_seq(w1) == lower_seq(w2),
    ensures
        spec_field_kind(w1) == spec_field_kind(w2),
{
}

/// Re-declaring a scalar field overwrites: at a well-formed `TITLE` line
/// in the global scope, the parse result does not depend on any title
/// recorded earlier — the later value wins, with no error and no
/// concatenation.
pub proof fn lemma_title_overwrites(
    lines: Seq<Seq<char>>,
    ln: int,
    cue: CueV,
    earlier: Option<Seq<char>>,
)
    requires
        spec_scan(lines, ln) matches Some(t) && spec_field_kind(t.1) == FieldKind::Title
            && spec_parse_val(t.2) is Ok,
    ensures
        spec_global(lines, ln, cue) == spec_global(lines, ln, CueV { title: earlier, ..cue }),
{
    let t = spec_scan(lines, ln)->0;
    match spec_parse_val(t.2) {
        Ok(v) => {
            assert(CueV { title: Some(v), ..cue } =~= CueV {
                title: Some(v),
                ..(CueV { title: earlier, ..cue })
            });
        },
        Err(_) => {},
    }
}

/// Re-declaring a comment key overwrites: at a well-formed `REM` line in
/// the global scope, the parse result does not depend on any value
/// recorded earlier under that key — the later value wins.
pub proof fn lemma_rem_overwrites(lines: Seq<Seq<char>>, ln: int, cue: CueV, earlier: Seq<char>)
    requires
        spec_scan(lines, ln) matches Some(t) && spec_field_kind(t.1) == FieldKind::Rem
            && spec_parse_rem(t.2) is Ok,
    ensures
        spec_global(lines, ln, cue) == spec_global(
            lines,
            ln,
            CueV { rems: cue.rems.insert((spec_parse_rem((spec_scan(lines, ln)->0).2)->Ok_0).0, earlier), ..cue },
        ),
{
    let t = spec_scan(lines, ln)->0;
    match spec_parse_rem(t.2) {
        Ok(kv) => {
            let cue2 = CueV { rems: cue.rems.insert(kv.0, earlier), ..cue };
            assert(cue.rems.insert(kv.0, earlier).insert(kv.0, kv.1) =~= cue.rems.insert(
                kv.0,
                kv.1,
            ));
            assert(CueV { rems: cue.rems.insert(kv.0, kv.1), ..cue } =~= CueV {
                rems: cue2.rems.insert(kv.0, kv.1),
                ..cue2
            });
        },
        Err(_) => {},
    }
}

/// Multiple `INDEX` lines collapse to the maximum, never the first-seen
/// value: at a well-formed `INDEX` line, the run of track fields depends
/// on the offset recorded so far only through the maximum of it and the
/// new time — two prior offsets with the same maximum are
/// indistinguishable from here on.
pub proof fn lemma_index_collapses_to_max(
    lines: Seq<Seq<char>>,
    ln: int,
    t1: TrackV,
    t2: TrackV,
    have: bool,
)
    requires
        spec_scan(lines, ln) matches Some(s) && spec_field_kind(s.1) == FieldKind::Index
            && spec_parse_index(s.2) is Ok,
        ({
            let idx = spec_parse_index((spec_scan(lines, ln)->0).2)->Ok_0;
            &&& t2 == TrackV { index: t2.index, ..t1 }
            &&& (if idx > t1.index {
                idx
            } else {
                t1.index
            }) == (if idx > t2.index {
                idx
            } else {
                t2.index
            })
        }),
    ensures
        spec_track_fields(lines, ln, t1, have) == spec_track_fields(lines, ln, t2, have),
{
    let s = spec_scan(lines, ln)->0;
    match spec_parse_index(s.2) {
        Ok(idx) => {
            let u1 = TrackV {
                index: if idx > t1.index {
                    idx
                } else {
                    t1.index
                },
                ..t1
            };
            let u2 = TrackV {
                index: if idx > t2.index {
                    idx
                } else {
                    t2.index
                },
                ..t2
            };
            assert(u1 =~= u2);
        },
        Err(_) => {},
    }
}

/// A line the global scope consumes without ending it: blank, or a
/// recognized global field with a well-formed value.
pub open spec fn global_field_line(l: Seq<char>) -> bool {
    match spec_next_word(l) {
        None => true,
        Some(p) => match spec_field_kind(p.1) {
            FieldKind::Rem => spec_parse_rem(p.0) is Ok,
            FieldKind::Title => spec_parse_val(p.0) is Ok,
            FieldKind::Performer => spec_parse_val(p.0) is Ok,
            FieldKind::Catalog => spec_parse_val(p.0) is Ok,
            FieldKind::Songwriter => spec_parse_val(p.0) is Ok,
            _ => false,
        },
    }
}

proof fn lemma_global_no_file(lines: Seq<Seq<char>>, ln: int, cue: CueV)
    requires
        forall|i: int| 0 <= i < lines.len() ==> global_field_line(#[trigger] lines[i]),
        0 <= ln,
    ensures
        spec_global(lines, ln, cue) == Err::<(CueV, int), ErrV>(
            ErrV { ln: 0, msg: msg_missing_file() },
        ),
    decreases lines.len() - ln,
{
    crate::cue::parser::lemma_scan(lines, ln);
    match spec_scan(lines, ln) {
        None => {},
        Some(t) => {
            assert(global_field_line(lines[t.0]));
            match spec_field_kind(t.1) {
                FieldKind::Rem => {
                    match spec_parse_rem(t.2) {
                        Ok(kv) => {
                            lemma_global_no_file(
                                lines,
                                t.0 + 1,
                                CueV { rems: cue.rems.insert(kv.0, kv.1), ..cue },
                            );
                        },
                        Err(_) => {},
                    }
                },
                FieldKind::Title => {
                    match spec_parse_val(t.2) {
                        Ok(v) => {
                            lemma_global_no_file(lines, t.0 + 1, CueV { title: Some(v), ..cue });
                        },
                        Err(_) => {},
                    }
                },
                FieldKind::Performer => {
                    match spec_parse_val(t.2) {
                        Ok(v) => {
                            lemma_global_no_file(
                                lines,
                                t.0 + 1,
                                CueV { performer: Some(v), ..cue },
                            );
                        },
                        Err(_) => {},
                    }
                },
                FieldKind::Catalog => {
                    match spec_parse_val(t.2) {
                        Ok(v) => {
                            lemma_global_no_file(lines, t.0 + 1, CueV { catalog: Some(v), ..cue });
                        },
                        Err(_) => {},
                    }
                },
                FieldKind::Songwriter => {
                    match spec_parse_val(t.2) {
                        Ok(v) => {
                            lemma_global_no_file(
                                lines,
                                t.0 + 1,
                                CueV { songwriter: Some(v), ..cue },
                            );
                        },
                        Err(_) => {},
                    }
                },
                _ => {},
            }
        },
    }
}

/// An input with no `FILE` declaration at all fails with the
/// missing-declaration error attributed to line 0: whenever every line
/// is blank or a well-formed global field — so no line declares a
/// `FILE` — the parse fails with exactly that error.
pub proof fn lemma_no_file_fails(lines: Seq<Seq<char>>)
    requires
        forall|i: int| 0 <= i < lines.len() ==> global_field_line(#[trigger] lines[i]),
    ensures
        spec_parse(lines) == Err::<CueV, ErrV>(ErrV { ln: 0, msg: msg_missing_file() }),
{
    lemma_global_no_file(lines, 0, empty_cue_v());
}

proof fn lemma_global_keeps_discs(lines: Seq<Seq<char>>, ln: int, cue: CueV)
    requires
        0 <= ln,
    ensures
        spec_global(lines, ln, cue) matches Ok(r) ==> r.0.discs == cue.discs && 0 <= r.1
            < lines.len(),
    decreases lines.len() - ln,
{
    crate::cue::parser::lemma_scan(lines, ln);
    match spec_scan(lines, ln) {
        None => {},
        Some(t) => {
            match spec_field_kind(t.1) {
                FieldKind::Rem => {
                    match spec_parse_rem(t.2) {
                        Ok(kv) => {
                            lemma_global_keeps_discs(
                                lines,
                                t.0 + 1,
                                CueV { rems: cue.rems.insert(kv.0, kv.1), ..cue },
                            );
                        },
                        Err(_) => {},
                    }
                },
                FieldKind::Title => {
                    match spec_parse_val(t.2) {
                        Ok(v) => {
                            lemma_global_keeps_discs(
                                lines,
                                t.0 + 1,
                                CueV { title: Some(v), ..cue },
                            );
                        },
                        Err(_) => {},
                    }
                },
                FieldKind::Performer => {
                    match spec_parse_val(t.2) {
                        Ok(v) => {
                            lemma_global_keeps_discs(
                                lines,
                                t.0 + 1,
                                CueV { performer: Some(v), ..cue },
                            );
                        },
                        Err(_) => {},
                    }
                },
                FieldKind::Catalog => {
                    match spec_parse_val(t.2) {
                        Ok(v) => {
                            lemma_global_keeps_discs(
                                lines,
                                t.0 + 1,
                                CueV { catalog: Some(v), ..cue },
                            );
                        },
                        Err(_) => {},
                    }
                },
                FieldKind::Songwriter => {
                    match spec_parse_val(t.2) {
                        Ok(v) => {
                            lemma_global_keeps_discs(
                                lines,
                                t.0 + 1,
                                CueV { songwriter: Some(v), ..cue },
                            );
                        },
                        Err(_) => {},
                    }
                },
                _ => {},
            }
        },
    }
}

proof fn lemma_discs_grow(lines: Seq<Seq<char>>, ln: int, cue: CueV)
    requires
        0 <= ln < lines.len(),
    ensures
        spec_discs(lines, ln, cue) matches Ok(c) ==> c.discs.len() > cue.discs.len(),
    decreases lines.len() - ln,
{
    crate::cue::parser::lemma_disc_bounds(lines, ln);
    match spec_disc(lines, ln) {
        Ok(r) => {
            if ln < r.1 && r.1 < lines.len() {
                lemma_discs_grow(lines, r.1, CueV { discs: cue.discs.push(r.0), ..cue });
            }
        },
        Err(_) => {},
    }
}

/// A successful parse holds at least one disc: absence of any `FILE` is
/// an error, never an empty document.
pub proof fn lemma_success_has_a_disc(lines: Seq<Seq<char>>)
    ensures
        spec_parse(lines) matches Ok(c) ==> c.discs.len() >= 1,
{
    match spec_global(lines, 0, empty_cue_v()) {
        Ok(r) => {
            lemma_global_keeps_discs(lines, 0, empty_cue_v());
            lemma_discs_grow(lines, r.1, r.0);
        },
        Err(_) => {},
    }
}

/// A `TRACK` before any `FILE` fails with the scope violation,
/// attributed to that `TRACK` line: whenever the first scanned token of
/// the input is a `TRACK` field, the parse fails there.
pub proof fn lemma_track_before_file(lines: Seq<Seq<char>>)
    requires
        spec_scan(lines, 0) matches Some(t) && spec_field_kind(t.1) == FieldKind::Track,
    ensures
        spec_parse(lines) matches Err(e) && e.ln == (spec_scan(lines, 0)->0).0 && e.msg
            == crate::cue::parser::msg_track_before_file(),
{
}

/// Closing a track that never saw an `INDEX` fails, attributed to the
/// line of the `TRACK` declaration itself, not to the line where the
/// omission is discovered: whenever the fields of a track scanned from
/// `ln` on end without any `INDEX` among them, the track loop entered at
/// the `TRACK` line `tl` fails at `tl`.
pub proof fn lemma_missing_index_blames_track_line(lines: Seq<Seq<char>>, tl: int, disc: DiscV)
    requires
        spec_scan(lines, tl) matches Some(s) && (spec_parse_str(s.2) matches Ok(p)
            && spec_parse_u32(p.1) is Some),
        ({
            let s = spec_scan(lines, tl)->0;
            let no = spec_parse_u32((spec_parse_str(s.2)->Ok_0).1)->0;
            spec_track_fields(lines, s.0 + 1, new_track_v(no), false) matches Ok(r) && !r.1
        }),
    ensures
        spec_tracks(lines, tl, disc) matches Err(e) && e.ln == (spec_scan(lines, tl)->0).0 && e.msg
            == crate::cue::parser::msg_missing_index(),
{
}

} // verus!
