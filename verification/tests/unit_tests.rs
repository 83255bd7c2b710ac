use hermes::cue::error::ErrorCtx;
use hermes::cue::parser::{
    consume_space1, escaped, next_word, parse_index, parse_rem, parse_str, parse_val,
};
use hermes::preset::Preset;
use hermes::template::{Template, TemplatePart};

fn chars(s: &str) -> Vec<char> {
    s.chars().collect()
}

fn text(v: &[char]) -> String {
    v.iter().collect()
}

#[test]
fn error_ctx_attaches_the_line() {
    let r: Result<u32, String> = Err("boom".to_string());
    let e = r.line(7).unwrap_err();
    assert_eq!(e.ln, 7);
    assert_eq!(e.msg, "boom");
    let ok: Result<u32, String> = Ok(3);
    assert_eq!(ok.line(9).unwrap(), 3);
}

#[test]
fn escaped_characters() {
    assert_eq!(escaped('n'), '\n');
    assert_eq!(escaped('t'), '\t');
    assert_eq!(escaped('r'), '\r');
    assert_eq!(escaped('"'), '"');
    assert_eq!(escaped('\\'), '\\');
    assert_eq!(escaped('x'), 'x');
}

#[test]
fn next_word_splits_field_and_rest() {
    let (rest, word) = next_word(&chars("  FILE a.wav WAVE")).unwrap();
    assert_eq!(text(&word), "FILE");
    assert_eq!(text(&rest), " a.wav WAVE");
    assert!(next_word(&chars("   \t ")).is_none());
    assert!(next_word(&chars("")).is_none());
}

#[test]
fn consume_space1_needs_one_space() {
    assert_eq!(text(&consume_space1(&chars("  x y")).unwrap()), "x y");
    assert!(consume_space1(&chars("x")).is_none());
    assert!(consume_space1(&chars("   ")).is_none());
    assert!(consume_space1(&chars("")).is_none());
}

#[test]
fn parse_str_quoted_and_unquoted() {
    let (rest, word) = parse_str(&chars("  alpha beta")).unwrap();
    assert_eq!(text(&word), "alpha");
    assert_eq!(text(&rest), " beta");

    let (rest, word) = parse_str(&chars("\"a b\" c")).unwrap();
    assert_eq!(text(&word), "a b");
    assert_eq!(text(&rest), " c");

    assert_eq!(
        parse_str(&chars("\"open")).unwrap_err(),
        "unterminated double-quoted string"
    );
    assert_eq!(parse_str(&chars("   ")).unwrap_err(), "missing value");
}

#[test]
fn parse_str_trailing_backslash_stays() {
    let (rest, word) = parse_str(&chars("abc\\")).unwrap();
    assert_eq!(text(&word), "abc\\");
    assert_eq!(text(&rest), "");
}

#[test]
fn parse_val_whole_remainder() {
    assert_eq!(text(&parse_val(&chars("  plain words  ")).unwrap()), "plain words");
    assert_eq!(text(&parse_val(&chars(" \"q v\" ")).unwrap()), "q v");
    assert_eq!(
        parse_val(&chars("\"q\" \"extra\"")).unwrap_err(),
        "too many values in line"
    );
    // only a remainder wrapped in quotes on both ends is treated as quoted
    assert_eq!(text(&parse_val(&chars("\"q\" extra")).unwrap()), "\"q\" extra");
    assert_eq!(parse_val(&chars("   ")).unwrap_err(), "missing value");
}

#[test]
fn parse_rem_key_and_value() {
    let (k, v) = parse_rem(&chars(" GENRE  Electronic music ")).unwrap();
    assert_eq!(text(&k), "GENRE");
    assert_eq!(text(&v), "Electronic music");

    let (k, v) = parse_rem(&chars("ONLYKEY")).unwrap();
    assert_eq!(text(&k), "ONLYKEY");
    assert_eq!(text(&v), "");

    assert_eq!(parse_rem(&chars("  ")).unwrap_err(), "expected 2 values, have none");
}

#[test]
fn parse_index_three_field_time() {
    assert_eq!(parse_index(&chars("1 00:02:03")), Ok(2003));
}

#[test]
fn parse_index_two_field_time() {
    assert_eq!(parse_index(&chars("1 5:250")), Ok(5250));
}

#[test]
fn parse_index_malformed_field_names_the_text() {
    assert_eq!(
        parse_index(&chars("1 a:b")),
        Err("invalid index time: a:b".to_string())
    );
}

#[test]
fn parse_index_quoted_time() {
    assert_eq!(parse_index(&chars("01 \"30:250\"")), Ok(30_250));
}

#[test]
fn preset_extensions() {
    assert_eq!(Preset::Wav.ext(), "wav");
    assert_eq!(Preset::FlacComp10.ext(), "flac");
    assert_eq!(Preset::LibopusHigh.ext(), "ogg");
    assert_eq!(Preset::LibfdkAac.ext(), "m4a");
    assert_eq!(Preset::Libmp3lameUltra.ext(), "mp3");
    assert_eq!(Preset::LibvorbisLow.ext(), "ogg");
}

#[test]
fn preset_ffmpeg_args() {
    assert_eq!(Preset::Wav.ffmpeg_args(), vec!["-f", "wav"]);
    assert_eq!(
        Preset::Flac.ffmpeg_args(),
        vec!["-f", "flac", "-c:a", "flac", "-compression_level", "8"]
    );
    assert_eq!(
        Preset::LibfdkAacUltra.ffmpeg_args(),
        vec!["-f", "mp4", "-c:a", "libfdk_aac", "-b:a", "256k", "-cutoff", "18000"]
    );
}

#[test]
fn template_vars_in_order() {
    let t = Template::new("<year> - <album>/<no>. <title>.<ext>", "<", ">");
    assert_eq!(t.vars(), vec!["year", "album", "no", "title", "ext"]);
}

#[test]
fn template_contains_var() {
    let t = Template::new("<year> - <album>", "<", ">");
    assert!(t.contains_var("year"));
    assert!(t.contains_var("album"));
    assert!(!t.contains_var("title"));
    assert!(!t.contains_var("ear"));
}

#[test]
fn template_without_vars() {
    let t = Template::new("plain name.flac", "<", ">");
    assert!(t.vars().is_empty());
}

#[test]
fn template_unclosed_var_is_literal() {
    let t = Template::new("a<b", "<", ">");
    assert!(t.vars().is_empty());
    let parts = t.parts();
    assert_eq!(parts.len(), 2);
    assert!(matches!(&parts[0], TemplatePart::Lit(s) if s == "a"));
    assert!(matches!(&parts[1], TemplatePart::Lit(s) if s == "<b"));
}

#[test]
fn template_parts_expand_by_hand() {
    let t = Template::new("<no>. <title>.ogg", "<", ">");
    let mut out = String::new();
    for p in t.parts() {
        match p {
            TemplatePart::Lit(s) => out.push_str(&s),
            TemplatePart::Var(v) => match v.as_str() {
                "no" => out.push_str("03"),
                "title" => out.push_str("Song"),
                _ => unreachable!(),
            },
        }
    }
    assert_eq!(out, "03. Song.ogg");
}

#[test]
fn template_multi_char_delimiters() {
    let t = Template::new("x{{a}}y", "{{", "}}");
    let parts = t.parts();
    assert!(matches!(&parts[0], TemplatePart::Lit(s) if s == "x"));
    assert!(matches!(&parts[2], TemplatePart::Lit(s) if s == "y"));
}
