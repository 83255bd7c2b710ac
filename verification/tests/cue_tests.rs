use hermes::cue::parse;

#[test]
fn minimal_sheet_one_disc_one_track() {
    let cue = parse("FILE audio.wav WAVE\nTRACK 01 AUDIO\nINDEX 01 00:02:03\n").unwrap();
    assert_eq!(cue.discs.len(), 1);
    assert_eq!(cue.discs[0].file, "audio.wav");
    assert_eq!(cue.discs[0].tracks.len(), 1);
    assert_eq!(cue.discs[0].tracks[0].number, 1);
    assert_eq!(cue.discs[0].tracks[0].index, 2003);
}

#[test]
fn time_code_three_fields() {
    // rightmost field is milliseconds, then seconds, then minutes
    let cue = parse("FILE a.wav\nTRACK 01 AUDIO\nINDEX 01 00:02:03").unwrap();
    assert_eq!(cue.discs[0].tracks[0].index, 2003);
}

#[test]
fn time_code_two_fields() {
    let cue = parse("FILE a.wav\nTRACK 01 AUDIO\nINDEX 01 5:250").unwrap();
    assert_eq!(cue.discs[0].tracks[0].index, 5250);
}

#[test]
fn time_code_four_fields() {
    let cue = parse("FILE a.wav\nTRACK 01 AUDIO\nINDEX 01 1:2:3:4").unwrap();
    assert_eq!(cue.discs[0].tracks[0].index, 3_600_000 + 2 * 60_000 + 3 * 1000 + 4);
}

#[test]
fn time_code_single_field_is_milliseconds() {
    let cue = parse("FILE a.wav\nTRACK 01 AUDIO\nINDEX 01 750").unwrap();
    assert_eq!(cue.discs[0].tracks[0].index, 750);
}

#[test]
fn time_code_malformed_names_the_text() {
    let e = parse("FILE a.wav\nTRACK 01 AUDIO\nINDEX 01 a:b").unwrap_err();
    assert_eq!(e.ln, 2);
    assert_eq!(e.msg, "invalid index time: a:b");
}

#[test]
fn multiple_index_lines_keep_the_maximum() {
    let cue = parse("FILE a.wav\nTRACK 01 AUDIO\nINDEX 00 00:00:00\nINDEX 01 00:03:00").unwrap();
    // the maximum of all INDEX values is stored, never the first-seen one
    assert_eq!(cue.discs[0].tracks[0].index, 3000);
}

#[test]
fn later_smaller_index_does_not_lower_the_offset() {
    let cue = parse("FILE a.wav\nTRACK 01 AUDIO\nINDEX 01 0:5000\nINDEX 02 0:1000").unwrap();
    assert_eq!(cue.discs[0].tracks[0].index, 5000);
}

#[test]
fn track_without_index_blames_track_line() {
    let e = parse("FILE a.wav\nTRACK 01 AUDIO\nTITLE x").unwrap_err();
    assert_eq!(e.ln, 1);
    assert_eq!(e.msg, "track is missing a `INDEX` declaration");
}

#[test]
fn track_without_index_at_end_of_input() {
    let e = parse("FILE a.wav\nTRACK 01 AUDIO").unwrap_err();
    assert_eq!(e.ln, 1);
    assert_eq!(e.msg, "track is missing a `INDEX` declaration");
}

#[test]
fn quoted_title_with_escaped_quotes_decodes() {
    let cue = parse(
        "TITLE \"He said \\\"hi\\\"\"\nFILE a.wav\nTRACK 01 AUDIO\nINDEX 01 0:0",
    )
    .unwrap();
    assert_eq!(cue.title.as_deref(), Some("He said \"hi\""));
}

#[test]
fn unescaped_interior_quote_is_too_many_values() {
    let e = parse("TITLE \"He said \"hi\"\"\nFILE a.wav").unwrap_err();
    assert_eq!(e.ln, 0);
    assert_eq!(e.msg, "too many values in line");
}

#[test]
fn unterminated_quote_is_its_own_error() {
    let e = parse("TITLE \"He said \\\"hi\\\"\nFILE a.wav").unwrap_err();
    assert_eq!(e.ln, 0);
    assert_eq!(e.msg, "unterminated double-quoted string");
}

#[test]
fn field_names_are_case_insensitive() {
    let lower = parse("title x\nfile a.wav\ntrack 01 AUDIO\nindex 01 0:7").unwrap();
    let mixed = parse("Title x\nFile a.wav\nTrack 01 AUDIO\nIndex 01 0:7").unwrap();
    let upper = parse("TITLE x\nFILE a.wav\nTRACK 01 AUDIO\nINDEX 01 0:7").unwrap();
    for cue in [&lower, &mixed, &upper] {
        assert_eq!(cue.title.as_deref(), Some("x"));
        assert_eq!(cue.discs[0].tracks[0].index, 7);
    }
}

#[test]
fn track_before_file_is_a_scope_violation() {
    let e = parse("TRACK 01 AUDIO\nFILE a.wav").unwrap_err();
    assert_eq!(e.ln, 0);
    assert_eq!(e.msg, "`TRACK` declared before any `FILE`");
}

#[test]
fn track_before_file_keeps_its_own_line() {
    let e = parse("TITLE x\n\nTRACK 01 AUDIO").unwrap_err();
    assert_eq!(e.ln, 2);
    assert_eq!(e.msg, "`TRACK` declared before any `FILE`");
}

#[test]
fn no_file_at_all_fails_at_line_zero() {
    let e = parse("TITLE x\nREM a b").unwrap_err();
    assert_eq!(e.ln, 0);
    assert_eq!(e.msg, "cue sheet is missing a `FILE` declaration");
}

#[test]
fn empty_input_fails_at_line_zero() {
    let e = parse("").unwrap_err();
    assert_eq!(e.ln, 0);
    assert_eq!(e.msg, "cue sheet is missing a `FILE` declaration");
}

#[test]
fn later_title_wins() {
    let cue = parse("TITLE first\nTITLE second\nFILE a.wav\nTRACK 01 AUDIO\nINDEX 01 0:0")
        .unwrap();
    assert_eq!(cue.title.as_deref(), Some("second"));
}

#[test]
fn later_rem_value_wins() {
    let cue = parse("REM DATE 1999\nREM DATE 2001\nFILE a.wav\nTRACK 1 AUDIO\nINDEX 01 0:0")
        .unwrap();
    let entries = cue.rems.entries();
    assert_eq!(entries.len(), 1);
    assert_eq!(entries[0].0, "DATE");
    assert_eq!(entries[0].1, "2001");
}

#[test]
fn rems_get_looks_up_by_key() {
    let cue = parse("REM DATE 1999\nREM GENRE Rock\nFILE a.wav\nTRACK 1 AUDIO\nINDEX 01 0:0")
        .unwrap();
    assert_eq!(cue.rems.get("DATE").map(String::as_str), Some("1999"));
    assert_eq!(cue.rems.get("GENRE").map(String::as_str), Some("Rock"));
    assert_eq!(cue.rems.get("genre"), None);
    assert_eq!(cue.rems.get("ARTIST"), None);
}

#[test]
fn rem_without_value_keeps_empty_string() {
    let cue = parse("REM COMPILATION\nFILE a.wav\nTRACK 1 AUDIO\nINDEX 01 0:0").unwrap();
    let entries = cue.rems.entries();
    assert_eq!(entries.len(), 1);
    assert_eq!(entries[0].0, "COMPILATION");
    assert_eq!(entries[0].1, "");
}

#[test]
fn rem_without_anything_is_an_error() {
    let e = parse("REM\nFILE a.wav").unwrap_err();
    assert_eq!(e.ln, 0);
    assert_eq!(e.msg, "expected 2 values, have none");
}

#[test]
fn scopes_keep_their_own_fields() {
    let cue = parse(
        "PERFORMER global\nFILE a.wav WAVE\nPERFORMER disc\nTRACK 01 AUDIO\nPERFORMER track\nINDEX 01 0:0",
    )
    .unwrap();
    assert_eq!(cue.performer.as_deref(), Some("global"));
    assert_eq!(cue.discs[0].performer.as_deref(), Some("disc"));
    assert_eq!(cue.discs[0].tracks[0].performer.as_deref(), Some("track"));
}

#[test]
fn two_files_two_discs() {
    let cue = parse(
        "FILE a.wav\nTRACK 01 AUDIO\nINDEX 01 0:1\nFILE b.wav\nTRACK 02 AUDIO\nINDEX 01 0:2",
    )
    .unwrap();
    assert_eq!(cue.discs.len(), 2);
    assert_eq!(cue.discs[0].file, "a.wav");
    assert_eq!(cue.discs[0].tracks[0].index, 1);
    assert_eq!(cue.discs[1].file, "b.wav");
    assert_eq!(cue.discs[1].tracks[0].number, 2);
    assert_eq!(cue.discs[1].tracks[0].index, 2);
}

#[test]
fn file_with_no_tracks_then_another_file() {
    let cue = parse("FILE a.wav\nFILE b.wav\nTRACK 01 AUDIO\nINDEX 01 0:0").unwrap();
    assert_eq!(cue.discs.len(), 2);
    assert_eq!(cue.discs[0].tracks.len(), 0);
    assert_eq!(cue.discs[1].tracks.len(), 1);
}

#[test]
fn lone_file_gives_empty_disc() {
    // the document-wide "at least one track" check belongs to the consumer
    let cue = parse("FILE a.wav").unwrap();
    assert_eq!(cue.discs.len(), 1);
    assert_eq!(cue.discs[0].tracks.len(), 0);
}

#[test]
fn quoted_file_name_keeps_spaces() {
    let cue = parse("FILE \"my audio.wav\" WAVE\nTRACK 01 AUDIO\nINDEX 01 0:0").unwrap();
    assert_eq!(cue.discs[0].file, "my audio.wav");
}

#[test]
fn blank_lines_are_skipped() {
    let cue = parse("\n\nFILE a.wav\n   \n\nTRACK 01 AUDIO\n\nINDEX 01 0:9\n\n").unwrap();
    assert_eq!(cue.discs[0].tracks[0].index, 9);
}

#[test]
fn crlf_line_endings_are_accepted() {
    let cue = parse("TITLE x\r\nFILE a.wav\r\nTRACK 01 AUDIO\r\nINDEX 01 0:4\r\n").unwrap();
    assert_eq!(cue.title.as_deref(), Some("x"));
    assert_eq!(cue.discs[0].tracks[0].index, 4);
}

#[test]
fn unknown_field_in_global_scope() {
    let e = parse("BOGUS x\nFILE a.wav").unwrap_err();
    assert_eq!(e.ln, 0);
    assert_eq!(e.msg, "unknown field for a disc: BOGUS");
}

#[test]
fn unknown_field_in_disc_scope() {
    let e = parse("FILE a.wav\nISRC abc").unwrap_err();
    assert_eq!(e.ln, 1);
    assert_eq!(e.msg, "unknown field for disc: ISRC");
}

#[test]
fn unknown_field_in_track_scope() {
    let e = parse("FILE a.wav\nTRACK 01 AUDIO\nCATALOG 123").unwrap_err();
    assert_eq!(e.ln, 2);
    assert_eq!(e.msg, "unknown field for a track: CATALOG");
}

#[test]
fn flags_are_ignored() {
    let cue = parse("FILE a.wav\nTRACK 01 AUDIO\nFLAGS DCP\nINDEX 01 0:6").unwrap();
    assert_eq!(cue.discs[0].tracks[0].index, 6);
}

#[test]
fn invalid_track_number() {
    let e = parse("FILE a.wav\nTRACK one AUDIO").unwrap_err();
    assert_eq!(e.ln, 1);
    assert_eq!(e.msg, "invalid track number");
}

#[test]
fn missing_index_number() {
    let e = parse("FILE a.wav\nTRACK 01 AUDIO\nINDEX").unwrap_err();
    assert_eq!(e.ln, 2);
    assert_eq!(e.msg, "missing index number");
}

#[test]
fn missing_time_specifier() {
    let e = parse("FILE a.wav\nTRACK 01 AUDIO\nINDEX 01").unwrap_err();
    assert_eq!(e.ln, 2);
    assert_eq!(e.msg, "missing time specifier after index number");
}

#[test]
fn missing_file_value() {
    let e = parse("FILE").unwrap_err();
    assert_eq!(e.ln, 0);
    assert_eq!(e.msg, "missing value");
}

#[test]
fn track_metadata_is_recorded() {
    let cue = parse(
        "FILE a.wav\nTRACK 07 AUDIO\nTITLE song\nSONGWRITER sw\nISRC USRC17607839\nREM k v\nINDEX 01 1:0",
    )
    .unwrap();
    let t = &cue.discs[0].tracks[0];
    assert_eq!(t.number, 7);
    assert_eq!(t.title.as_deref(), Some("song"));
    assert_eq!(t.songwriter.as_deref(), Some("sw"));
    assert_eq!(t.isrc.as_deref(), Some("USRC17607839"));
    assert_eq!(t.rems.entries()[0], ("k".to_string(), "v".to_string()));
    assert_eq!(t.index, 1000);
}

#[test]
fn unquoted_whole_value_is_verbatim() {
    // a whole-remainder value that is not quoted is taken as written
    let cue = parse("TITLE a\\nb\nFILE f.wav\nTRACK 1 AUDIO\nINDEX 01 0:0").unwrap();
    assert_eq!(cue.title.as_deref(), Some("a\\nb"));
}

#[test]
fn unquoted_word_value_decodes_escapes() {
    // a word-level value, such as a FILE path, decodes backslash escapes
    let cue = parse("FILE a\\ b.wav WAVE\nTRACK 1 AUDIO\nINDEX 01 0:0").unwrap();
    assert_eq!(cue.discs[0].file, "a b.wav");
}

#[test]
fn quoted_rem_key_and_value() {
    let cue = parse(
        "REM \"my key\" \"my value\"\nFILE a.wav\nTRACK 1 AUDIO\nINDEX 01 0:0",
    )
    .unwrap();
    let entries = cue.rems.entries();
    assert_eq!(entries[0].0, "my key");
    assert_eq!(entries[0].1, "my value");
}

#[test]
fn disc_catalog_and_global_catalog() {
    let cue = parse(
        "CATALOG 1234567890123\nFILE a.wav\nCATALOG 9999999999999\nTRACK 1 AUDIO\nINDEX 01 0:0",
    )
    .unwrap();
    assert_eq!(cue.catalog.as_deref(), Some("1234567890123"));
    assert_eq!(cue.discs[0].catalog.as_deref(), Some("9999999999999"));
}

#[test]
fn track_number_accepts_a_leading_plus() {
    let cue = parse("FILE a.wav\nTRACK +3 AUDIO\nINDEX 01 0:0").unwrap();
    assert_eq!(cue.discs[0].tracks[0].number, 3);
}

#[test]
fn track_number_too_large_is_invalid() {
    let e = parse("FILE a.wav\nTRACK 4294967296 AUDIO").unwrap_err();
    assert_eq!(e.ln, 1);
    assert_eq!(e.msg, "invalid track number");
}

#[test]
fn time_field_too_large_is_invalid() {
    let e = parse("FILE a.wav\nTRACK 01 AUDIO\nINDEX 01 99999999999999999999").unwrap_err();
    assert_eq!(e.ln, 2);
    assert_eq!(e.msg, "invalid index time: 99999999999999999999");
}

#[test]
fn time_sum_wraps_as_machine_arithmetic() {
    // 3600000 * (2^64 - 1) hours, reduced modulo 2^64
    let cue = parse("FILE a.wav\nTRACK 01 AUDIO\nINDEX 01 18446744073709551615:0:0:0")
        .unwrap();
    assert_eq!(cue.discs[0].tracks[0].index, 18_446_744_073_705_951_616);
}

#[test]
fn extra_time_fields_are_ignored() {
    // only the rightmost four colon-separated fields are read
    let cue = parse("FILE a.wav\nTRACK 01 AUDIO\nINDEX 01 9:0:0:0:5").unwrap();
    assert_eq!(cue.discs[0].tracks[0].index, 5);
}

#[test]
fn parser_over_pre_split_lines() {
    let lines: Vec<Vec<char>> = ["FILE a.wav", "TRACK 01 AUDIO", "INDEX 01 0:42"]
        .iter()
        .map(|l| l.chars().collect())
        .collect();
    let cue = hermes::cue::parser::Parser::new(lines).parse().unwrap();
    assert_eq!(cue.discs[0].tracks[0].index, 42);
}
