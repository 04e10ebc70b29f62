use srt2webvtt::{convert, convert_output, Delta, Duration, Error, Format, Parser, Reason};
use std::str::FromStr;

#[test]
fn test_convert() {
    let mut out: Vec<u8> = Vec::new();

    convert(
        "WEBVTT

NOTE Hello World

00:01.000 --> 00:04.000
Never drink liquid nitrogen.

identifier
00:05.000 --> 00:09.000
— It will perforate your stomach.
— You could die."
            .as_bytes(),
        Format::WebVTT,
        &mut out,
        Format::WebVTT,
        Delta::Add(Duration::new(1, 0)),
    )
    .unwrap();

    assert_eq!(
        std::str::from_utf8(&out).unwrap(),
        "WEBVTT

00:02.000 --> 00:05.000
Never drink liquid nitrogen.

identifier
00:06.000 --> 00:10.000
— It will perforate your stomach.
— You could die.

"
    );
}

#[test]
fn webvtt_round_trip_gives_identical_bytes() {
    let input = b"WEBVTT\n\n00:00.000 --> 00:05.000\nHello World\n\n";
    let mut out: Vec<u8> = Vec::new();
    let n = convert(input, Format::WebVTT, &mut out, Format::WebVTT, Delta::Zero).unwrap();
    assert_eq!(n, 1);
    assert_eq!(out, input.to_vec());
}

#[test]
fn srt_to_webvtt_and_back() {
    let srt = b"\xEF\xBB\xBF1\r\n00:00:05,542 --> 00:00:07,792\r\nHello\r\nWorld\r\n\r\n7\r\n01:00:00,000 --> 01:00:01,001\r\nBye\r\n";
    let mut vtt: Vec<u8> = Vec::new();
    assert_eq!(
        convert(srt, Format::Srt, &mut vtt, Format::WebVTT, Delta::Zero),
        Ok(2)
    );
    assert_eq!(
        std::str::from_utf8(&vtt).unwrap(),
        "WEBVTT\n\n00:05.542 --> 00:07.792\nHello\nWorld\n\n01:00:00.000 --> 01:00:01.001\nBye\n\n"
    );
    let mut back: Vec<u8> = Vec::new();
    assert_eq!(
        convert(&vtt, Format::WebVTT, &mut back, Format::Srt, Delta::Sub(Duration::new(5, 0))),
        Ok(2)
    );
    assert_eq!(
        std::str::from_utf8(&back).unwrap(),
        "1\n00:00:00,542 --> 00:00:02,792\nHello\nWorld\n\n2\n00:59:55,000 --> 00:59:56,001\nBye\n\n"
    );
}

#[test]
fn convert_keeps_what_was_written_before_a_parse_error() {
    let mut out: Vec<u8> = b"before".to_vec();
    let r = convert(
        b"1\n00:00:01,000 --> 00:00:02,000\nOne\n\nTwo\n",
        Format::Srt,
        &mut out,
        Format::Srt,
        Delta::Zero,
    );
    assert_eq!(
        r,
        Err(Error::InvalidData {
            reason: Reason::UnexpectedLine,
            data: "Two".to_string(),
            line: 5
        })
    );
    assert_eq!(
        std::str::from_utf8(&out).unwrap(),
        "before1\n00:00:01,000 --> 00:00:02,000\nOne\n\n"
    );
}

#[test]
fn convert_keeps_what_was_written_before_an_underflow() {
    let mut out: Vec<u8> = Vec::new();
    let r = convert(
        b"WEBVTT\n\n00:05.000 --> 00:06.000\nA\n\n00:01.000 --> 00:09.000\nB\n\nlone\nline\n",
        Format::WebVTT,
        &mut out,
        Format::WebVTT,
        Delta::Sub(Duration::new(2, 0)),
    );
    assert_eq!(r, Err(Error::Underflow));
    assert_eq!(
        std::str::from_utf8(&out).unwrap(),
        "WEBVTT\n\n00:03.000 --> 00:04.000\nA\n\n"
    );
}

#[test]
fn convert_without_header_writes_nothing() {
    let mut out: Vec<u8> = Vec::new();
    assert_eq!(
        convert(b"", Format::WebVTT, &mut out, Format::WebVTT, Delta::Zero),
        Err(Error::UnexpectedEof { line: 0 })
    );
    assert_eq!(
        convert(b"00:01.000 --> 00:02.000\n", Format::WebVTT, &mut out, Format::Srt, Delta::Zero),
        Err(Error::InvalidData {
            reason: Reason::MissingHeader,
            data: "00:01.000 --> 00:02.000".to_string(),
            line: 1
        })
    );
    assert_eq!(
        convert(b"\xFFWEBVTT\n", Format::WebVTT, &mut out, Format::Srt, Delta::Zero),
        Err(Error::Io { line: 0 })
    );
    assert!(out.is_empty());
    assert_eq!(convert(b"", Format::Srt, &mut out, Format::WebVTT, Delta::Zero), Ok(0));
    assert_eq!(out, b"WEBVTT\n\n".to_vec());
}

#[test]
fn convert_output_drains_a_parser() {
    let mut parser = Parser::new(
        b"1\n0:0:1,000 --> 0:0:2,000\nA\n\n2\n0:0:3,000 --> 0:0:4,000\nB\n",
        Format::Srt,
    )
    .unwrap();
    assert_eq!(parser.line_number(), 0);
    let first = parser.next().unwrap().unwrap();
    assert_eq!(first.text, vec!["A".to_string()]);
    assert_eq!(parser.line_number(), 4);
    let mut out: Vec<u8> = Vec::new();
    assert_eq!(
        convert_output(parser, &mut out, Format::Srt, Delta::Add(Duration::new(3600, 0))),
        Ok(1)
    );
    assert_eq!(
        std::str::from_utf8(&out).unwrap(),
        "1\n01:00:03,000 --> 01:00:04,000\nB\n\n"
    );
}

#[test]
fn format_names() {
    assert_eq!(Format::from_str("srt"), Ok(Format::Srt));
    assert_eq!(Format::from_str("webvtt"), Ok(Format::WebVTT));
    assert!(Format::from_str("SRT").is_err());
    assert!(Format::from_str("srt ").is_err());
    assert!(Format::from_str("").is_err());
    assert!("vtt".parse::<Format>().is_err());
}
