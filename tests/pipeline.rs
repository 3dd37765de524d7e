use enctool::codec::get_encoding;
use enctool::convert::{convert, convert_line, Stage};
use enctool::guess::{guess, Guesser};
use enctool::lines::split_lines;
use enctool::scan::{check_utf8mb4, utf8_width_of};
use enctool::validate::{ensure_newline, validate};

fn lines_of(bytes: &[u8]) -> Vec<Vec<u8>> {
    split_lines(&bytes.to_vec())
}

#[test]
fn split_keeps_terminators() {
    let lines = lines_of(b"ab\ncd\n\nef");
    assert_eq!(lines, vec![b"ab\n".to_vec(), b"cd\n".to_vec(), b"\n".to_vec(), b"ef".to_vec()]);
}

#[test]
fn split_empty_input_gives_no_lines() {
    assert!(lines_of(b"").is_empty());
}

#[test]
fn split_single_terminated_line() {
    assert_eq!(lines_of(b"a\n"), vec![b"a\n".to_vec()]);
}

#[test]
fn convert_ascii_line_to_latin1_keeps_terminator() {
    let src = get_encoding("utf-8").unwrap();
    let dest = get_encoding("iso-8859-1").unwrap();
    let out = convert(&lines_of(b"a\n"), &src, &dest);
    assert!(out.failure.is_none());
    assert_eq!(out.converted, vec![vec![0x61, 0x0A]]);
}

#[test]
fn convert_accented_line_to_latin1() {
    let src = get_encoding("utf-8").unwrap();
    let dest = get_encoding("iso-8859-1").unwrap();
    let out = convert(&lines_of("café\n".as_bytes()), &src, &dest);
    assert!(out.failure.is_none());
    assert_eq!(out.converted, vec![vec![0x63, 0x61, 0x66, 0xE9, 0x0A]]);
}

#[test]
fn convert_to_same_codec_reproduces_input() {
    let input = "première ligne\nzweite Zeile 😀\nlast".as_bytes();
    let codec = get_encoding("utf-8").unwrap();
    let out = convert(&lines_of(input), &codec, &codec);
    assert!(out.failure.is_none());
    assert_eq!(out.converted.concat(), input.to_vec());
}

#[test]
fn convert_latin1_round_trip() {
    let input: Vec<u8> = vec![0x63, 0x61, 0x66, 0xE9, 0x0A, 0x41, 0x0A];
    let codec = get_encoding("latin1").unwrap();
    let out = convert(&lines_of(&input), &codec, &codec);
    assert!(out.failure.is_none());
    assert_eq!(out.converted.concat(), input);
}

#[test]
fn convert_stops_at_undecodable_line() {
    let src = get_encoding("utf-8").unwrap();
    let dest = get_encoding("utf-16le").unwrap();
    let input: Vec<u8> = vec![b'a', b'\n', b'b', 0xFF, b'\n', b'c', b'\n'];
    let out = convert(&lines_of(&input), &src, &dest);
    let failure = out.failure.as_ref().unwrap();
    assert_eq!(failure.line, 2);
    assert_eq!(failure.stage, Stage::Input);
    assert!(!failure.message.is_empty());
    assert_eq!(out.converted, vec![vec![b'a', 0, b'\n', 0]]);
    assert_eq!(out.summary_count(), 2);
}

#[test]
fn convert_stops_at_unencodable_line() {
    let src = get_encoding("utf-8").unwrap();
    let dest = get_encoding("windows-1252").unwrap();
    let input = "one\ntwo\nΩ three\nfour\n".as_bytes();
    let out = convert(&lines_of(input), &src, &dest);
    let failure = out.failure.as_ref().unwrap();
    assert_eq!(failure.line, 3);
    assert_eq!(failure.stage, Stage::Output);
    assert_eq!(out.converted, vec![b"one\n".to_vec(), b"two\n".to_vec()]);
    assert_eq!(out.summary_count(), 3);
}

#[test]
fn convert_summary_counts_one_past_last_line() {
    let codec = get_encoding("utf-8").unwrap();
    let out = convert(&lines_of(b"x\ny\n"), &codec, &codec);
    assert_eq!(out.summary_count(), 3);
    let empty = convert(&lines_of(b""), &codec, &codec);
    assert!(empty.converted.is_empty());
    assert_eq!(empty.summary_count(), 1);
}

#[test]
fn convert_line_to_utf16le() {
    let src = get_encoding("utf-8").unwrap();
    let dest = get_encoding("utf16").unwrap();
    let out = convert_line("é\n".as_bytes(), &src, &dest).unwrap();
    assert_eq!(out, vec![0xE9, 0x00, 0x0A, 0x00]);
}

#[test]
fn validate_reports_single_invalid_line() {
    let codec = get_encoding("utf-8").unwrap();
    let input: Vec<u8> = vec![b'a', b'\n', b'b', 0xFF, b'c', b'\n', b'd', b'\n'];
    let found = validate(&lines_of(&input), &codec);
    assert_eq!(found.len(), 1);
    assert_eq!(found[0].line, 2);
    assert_eq!(found[0].rendering, "b\u{FFFD}c\n");
}

#[test]
fn validate_runs_through_every_invalid_line() {
    let codec = get_encoding("utf-8").unwrap();
    let input: Vec<u8> = vec![0xFF, b'\n', 0xFE, b'\n', b'o', b'k', b'\n', 0xC3];
    let found = validate(&lines_of(&input), &codec);
    let numbers: Vec<usize> = found.iter().map(|d| d.line).collect();
    assert_eq!(numbers, vec![1, 2, 4]);
    assert_eq!(found[2].rendering, "\u{FFFD}\n");
}

#[test]
fn validate_clean_stream_reports_nothing() {
    let codec = get_encoding("utf-8").unwrap();
    assert!(validate(&lines_of("ça va\nbien\n".as_bytes()), &codec).is_empty());
}

#[test]
fn ensure_newline_appends_only_when_missing() {
    assert_eq!(ensure_newline("abc".to_string()), "abc\n");
    assert_eq!(ensure_newline("abc\n".to_string()), "abc\n");
    assert_eq!(ensure_newline(String::new()), "\n");
}

#[test]
fn scanner_reports_only_the_emoji() {
    let scan = check_utf8mb4(&lines_of("café 😀 zoo".as_bytes()));
    assert_eq!(scan.wide, vec!['😀']);
    assert_eq!(scan.malformed_line, None);
}

#[test]
fn scanner_stops_at_malformed_line() {
    let mut input = "𝄞 ok\n".as_bytes().to_vec();
    input.extend_from_slice(&[0xF0, 0x9F, b'\n']);
    input.extend_from_slice("😀\n".as_bytes());
    let scan = check_utf8mb4(&lines_of(&input));
    assert_eq!(scan.wide, vec!['𝄞']);
    assert_eq!(scan.malformed_line, Some(2));
}

#[test]
fn utf8_widths() {
    assert_eq!(utf8_width_of('a'), 1);
    assert_eq!(utf8_width_of('é'), 2);
    assert_eq!(utf8_width_of('€'), 3);
    assert_eq!(utf8_width_of('😀'), 4);
}

#[test]
fn guess_plain_ascii() {
    let r = guess(&b"hello world\nplain text\n".to_vec());
    assert_eq!(r.ok(), Some(Some("ascii".to_string())));
}

#[test]
fn guess_long_ascii_over_several_chunks() {
    let input = b"0123456789abcdef\n".repeat(1000);
    assert_eq!(guess(&input).ok(), Some(Some("ascii".to_string())));
}

#[test]
fn guess_empty_input_gives_nothing() {
    assert_eq!(guess(&Vec::new()).ok(), Some(None));
}

#[test]
fn guess_streamed_chunks_match_whole_input() {
    let mut guesser = Guesser::new();
    guesser.feed(b"plain ");
    guesser.feed(b"");
    guesser.feed(b"text\n");
    assert!(guesser.is_closable());
    assert_eq!(guesser.finish(), Some("ascii".to_string()));
}

#[test]
fn guess_bom_then_more_chunks() {
    let mut input = vec![0xEF, 0xBB, 0xBF];
    input.extend_from_slice(&b"x".repeat(10000));
    assert_eq!(guess(&input).ok(), Some(Some("UTF-8".to_string())));
}
#[test]
fn registry_utf16_alias_is_little_endian() {
    assert_eq!(get_encoding("utf16").unwrap().name(), "utf-16le");
    assert_eq!(get_encoding("UTF16").unwrap().name(), "utf-16le");
    assert_eq!(get_encoding("utf-16be").unwrap().name(), "utf-16be");
}

#[test]
fn registry_is_case_insensitive_and_rejects_unknown() {
    assert_eq!(get_encoding("UTF-8").unwrap().name(), "utf-8");
    assert_eq!(get_encoding("Latin1").unwrap().name(), "windows-1252");
    assert!(get_encoding("no-such-encoding").is_none());
}

#[test]
fn display_name_is_whatwg_name() {
    assert_eq!(get_encoding("utf8").unwrap().display_name(), "utf-8");
    assert_eq!(get_encoding("mac").unwrap().display_name(), "macintosh");
}

#[test]
fn codec_decode_and_encode() {
    let latin = get_encoding("latin1").unwrap();
    assert_eq!(latin.decode(&[0x63, 0xE9]).unwrap(), "cé");
    assert_eq!(latin.encode("cé").unwrap(), vec![0x63, 0xE9]);
    assert!(latin.encode("Ω").is_err());
    let utf8 = get_encoding("utf-8").unwrap();
    assert!(utf8.decode(&[0xFF]).is_err());
    assert_eq!(utf8.decode_replacing(&[b'x', 0xFF]), "x\u{FFFD}");
}

#[test]
fn round_trip_needs_lines_that_encode_back_unchanged() {
    let codec = get_encoding("iso-2022-jp").unwrap();
    let input: Vec<u8> = vec![0x1B, b'(', b'B', b'a', b'\n'];
    assert_eq!(codec.decode(&input).unwrap(), "a\n");
    let out = convert(&lines_of(&input), &codec, &codec);
    assert!(out.failure.is_none());
    assert_eq!(out.converted.concat(), b"a\n".to_vec());
}

#[test]
fn guess_escape_bearing_ascii_hands_back_the_detector() {
    let input = b"\x1b[31mred\x1b[0m plain\n".to_vec();
    assert!(guess(&input).is_err());
}

#[test]
fn guess_iso_2022_jp_is_labelled_once_closed() {
    let mut input = b"\x1b$B".to_vec();
    input.extend_from_slice(&[0x24, 0x33, 0x24, 0x73, 0x24, 0x4B, 0x24, 0x41, 0x24, 0x4F]);
    input.extend_from_slice(b"\x1b(B\n");
    let guesser = match guess(&input) {
        Ok(_) => panic!("escape-only input is closed by the caller"),
        Err(g) => g,
    };
    let mut detector = guesser.into_detector();
    assert_eq!(detector.close().0, "ISO-2022-JP");
}

#[test]
fn guess_escape_with_high_bytes_still_closes() {
    let mut input = b"\x1b[1m".to_vec();
    input.extend_from_slice("bold déjà vu, ça marche très bien\n".as_bytes());
    assert!(matches!(guess(&input), Ok(Some(_))));
}
