use srt2webvtt::webvtt::{out, parse_duration, parse_timing, write_duration, write_head};
use srt2webvtt::{webvtt_out, Cue, Duration, Error, Reason, WebVTTParser};

#[test]
fn parser() {
    let mut p = WebVTTParser::new(
        "WEBVTT - A good webvtt file

REGION
id:editor-comments
regionanchor:0%,0%
viewportanchor:0%,0%

NOTE Hello World

NOTE
Lorem ipsum dolor sit amet, consectetur adipisicing
elit, sed do eiusmod tempor incididunt ut labore

STYLE
::cue(b) {
	color: red;
}

1
00:01.000 --> 00:04.000 line:63% position:72% align:start
Never drink liquid nitrogen.

identifier
00:05.000 --> 00:09.000
— It will perforate your stomach.
— You could die."
            .as_bytes(),
    )
    .unwrap();

    assert_eq!(
        p.next().unwrap().unwrap(),
        Cue::new(
            None,
            Duration::new(1, 0),
            Duration::new(4, 0),
            vec![String::from("Never drink liquid nitrogen.")],
        )
    );

    assert_eq!(
        p.next().unwrap().unwrap(),
        Cue::new(
            Some(String::from("identifier")),
            Duration::new(5, 0),
            Duration::new(9, 0),
            vec![
                String::from("— It will perforate your stomach."),
                String::from("— You could die."),
            ],
        )
    );
}

#[test]
fn test_parse_duration() {
    assert_eq!(
        (9, Duration::new(13 * 60 + 16, 500_000_000)),
        parse_duration("13:16.500", 0).unwrap()
    );
    assert_eq!(
        (14, Duration::new(7892 * 3600 + 13 * 60 + 16, 500_000_000)),
        parse_duration("7892:13:16.500", 0).unwrap()
    );
}

#[test]
fn webvtt_test_out() {
    let mut output: Vec<u8> = Vec::new();

    fn dur(d: u64) -> Duration {
        Duration::new(d, 0)
    }

    assert_eq!(
        out(
            vec![
                Cue::new(None, dur(0), dur(05), vec![String::from("Hello World")]),
                Cue::new(
                    Some("Yolo".to_string()),
                    dur(5),
                    dur(10),
                    vec![
                        String::from("J'espère que tous le monde va bien."),
                        String::from("On va commencer."),
                    ],
                ),
            ],
            &mut output,
        )
        .unwrap(),
        2
    );

    assert_eq!(
        std::str::from_utf8(&output).unwrap(),
        "WEBVTT

00:00.000 --> 00:05.000
Hello World

Yolo
00:05.000 --> 00:10.000
J'espère que tous le monde va bien.
On va commencer.

"
    );
}

#[test]
fn webvtt_test_write_duration() {
    let mut out: Vec<u8> = Vec::new();
    let d = Duration::new(3 * 60 + 5, 84 * 1_000_000);
    write_duration(&mut out, &d).unwrap();
    assert_eq!(std::str::from_utf8(&out).unwrap(), "03:05.084");

    let mut out: Vec<u8> = Vec::new();
    let d = Duration::new(2 * 3600 + 3 * 60 + 5, 84 * 1_000_000);
    write_duration(&mut out, &d).unwrap();
    assert_eq!(std::str::from_utf8(&out).unwrap(), "02:03:05.084");
}

#[test]
fn webvtt_lone_text_line_is_invalid_data() {
    let mut p = WebVTTParser::new(b"WEBVTT\n\nfirst\nsecond\n00:01.000 --> 00:02.000\n").unwrap();
    assert_eq!(
        p.next(),
        Some(Err(Error::InvalidData {
            reason: Reason::LoneTextLine,
            data: "first".to_string(),
            line: 3
        }))
    );
    assert_eq!(p.next(), None);

    let mut p = WebVTTParser::new(b"WEBVTT\nid\n\n00:01.000 --> 00:02.000\n").unwrap();
    assert_eq!(
        p.next(),
        Some(Err(Error::InvalidData {
            reason: Reason::LoneTextLine,
            data: "id".to_string(),
            line: 2
        }))
    );
}

#[test]
fn webvtt_header() {
    assert_eq!(WebVTTParser::new(b"").err(), Some(Error::UnexpectedEof { line: 0 }));
    assert_eq!(
        WebVTTParser::new(b"\xEF\xBB\xBF").err(),
        Some(Error::UnexpectedEof { line: 0 })
    );
    assert_eq!(
        WebVTTParser::new(b"webvtt\n").err(),
        Some(Error::InvalidData {
            reason: Reason::MissingHeader,
            data: "webvtt".to_string(),
            line: 1
        })
    );
    assert_eq!(
        WebVTTParser::new(b"\n WEBVTT\n").err(),
        Some(Error::InvalidData {
            reason: Reason::MissingHeader,
            data: "".to_string(),
            line: 1
        })
    );
    assert_eq!(WebVTTParser::new(b"WEBVTT\xFF\n").err(), Some(Error::Io { line: 0 }));
    let mut p = WebVTTParser::new(b"\xEF\xBB\xBFWEBVTTxyz").unwrap();
    assert_eq!(p.line_number(), 1);
    assert_eq!(p.next(), None);
    assert_eq!(p.next(), None);
    let mut p = WebVTTParser::new(b"WEBVTT\r\n\r\n00:01.000 --> 00:02.000\r\nHi\r\n").unwrap();
    assert_eq!(
        p.next(),
        Some(Ok(Cue::new(
            None,
            Duration::new(1, 0),
            Duration::new(2, 0),
            vec!["Hi".to_string()]
        )))
    );
    assert_eq!(p.line_number(), 4);
    assert_eq!(p.next(), None);
}

#[test]
fn webvtt_identifiers_and_metadata() {
    let mut p = WebVTTParser::new(
        "WEBVTT
NOTE --> not a cue
still the note
STYLE

123
00:09.000 -->00:01.000
a

12a
00:00:02.000--> 01:00:03.000 -->
b
c

NOTES
10:00.000 --> 10:00.001

last"
            .as_bytes(),
    )
    .unwrap();
    assert_eq!(
        p.next(),
        Some(Ok(Cue::new(
            None,
            Duration::new(1, 0),
            Duration::new(9, 0),
            vec!["a".to_string()]
        )))
    );
    assert_eq!(
        p.next(),
        Some(Ok(Cue::new(
            Some("12a".to_string()),
            Duration::new(2, 0),
            Duration::new(3603, 0),
            vec!["b".to_string(), "c".to_string()]
        )))
    );
    assert_eq!(p.next(), None);
    assert_eq!(p.next(), None);
}

#[test]
fn webvtt_timing_errors() {
    let invalid = |reason: Reason, data: &str| {
        Err(Error::InvalidData {
            reason,
            data: data.to_string(),
            line: 7,
        })
    };
    assert_eq!(
        parse_timing("00:01.000 --> 00:02.500 align:start", 7),
        Ok((Duration::new(1, 0), Duration::new(2, 500_000_000)))
    );
    assert_eq!(
        parse_timing("00:01.000 00:02.500 -->", 7),
        invalid(Reason::TimecodeSyntax, "00:01.000 00:02.500 -->")
    );
    assert_eq!(
        parse_timing("00:01.000 -->--> 00:02.500", 7),
        invalid(Reason::InvalidNumber, "00:01.000 -->--> 00:02.500")
    );
    assert_eq!(parse_timing("-->", 7), invalid(Reason::DurationSyntax, "-->"));
    assert_eq!(
        parse_timing("00:01.000 --> 00:02", 7),
        invalid(Reason::DurationSyntax, "00:01.000 --> 00:02")
    );
    assert_eq!(
        parse_timing("01.000 --> 00:02.000", 7),
        invalid(Reason::DurationSyntax, "01.000 --> 00:02.000")
    );
    assert_eq!(
        parse_timing("0:0:0:1.000 --> 00:02.000", 7),
        invalid(Reason::DurationSyntax, "0:0:0:1.000 --> 00:02.000")
    );
    assert_eq!(
        parse_timing("00:01.00 --> 00:02.000", 7),
        invalid(Reason::MillisecondDigits, "00:01.00 --> 00:02.000")
    );
    assert_eq!(
        parse_timing("00:01.000 --> 00:02.5", 7),
        invalid(Reason::MillisecondDigits, "00:01.000 --> 00:02.5")
    );
    assert_eq!(
        parse_timing("00:01.+12 --> 00:02.500", 7),
        invalid(Reason::MillisecondDigits, "00:01.+12 --> 00:02.500")
    );
    assert_eq!(
        parse_timing(" 00:01.000 --> 00:02.500", 7),
        invalid(Reason::InvalidNumber, " 00:01.000 --> 00:02.500")
    );
    assert_eq!(
        parse_timing("00:é.000 --> 00:02.500", 7),
        invalid(Reason::InvalidNumber, "00:é.000 --> 00:02.500")
    );
    assert_eq!(
        parse_duration("5124095576030431:00:15.999", 7),
        Ok((26, Duration::new(u64::MAX, 999_000_000)))
    );
    assert_eq!(
        parse_duration("5124095576030431:00:16.000", 7),
        Err(Error::InvalidData {
            reason: Reason::InvalidNumber,
            data: "5124095576030431:00:16.000".to_string(),
            line: 7,
        })
    );
    assert_eq!(
        parse_duration("99:99.9999", 7),
        Ok((9, Duration::new(99 * 60 + 99, 999_000_000)))
    );
}

#[test]
fn webvtt_writes_head_and_blocks() {
    let mut w: Vec<u8> = b"x".to_vec();
    write_head(&mut w);
    assert_eq!(w, b"xWEBVTT\n\n".to_vec());
    let c = Cue::new(
        Some("é".to_string()),
        Duration::new(3599, 999_999_999),
        Duration::new(360_000, 1_000_000),
        vec![],
    );
    srt2webvtt::webvtt::write(&mut w, &c);
    assert_eq!(
        std::str::from_utf8(&w).unwrap(),
        "xWEBVTT\n\né\n59:59.999 --> 100:00:00.001\n\n"
    );
    let mut e: Vec<u8> = Vec::new();
    assert_eq!(webvtt_out(Vec::new(), &mut e), Ok(0));
    assert_eq!(e, b"WEBVTT\n\n".to_vec());
}
