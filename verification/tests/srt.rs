use srt2webvtt::srt::{out, parse_duration, parse_time, write_duration};
use srt2webvtt::text::only_digit;
use srt2webvtt::{srt_out, Cue, Duration, Error, LineNb, Reason, Srt, SrtParser};

#[test]
fn srtparser() {
    fn t(s: &[u8]) {
        let mut p = SrtParser::new(s).unwrap();
        assert_eq!(
            Cue::new(
                None,
                Duration::new(5, 542_000_000),
                Duration::new(7, 792_000_000),
                vec!["Hello".to_string(), "World".to_string()]
            ),
            p.next().unwrap().unwrap()
        );
    }

    let mut input: Vec<u8> = vec![0xEF, 0xBB, 0xBF];
    input.extend_from_slice(
        b"1
00:00:05,542 --> 00:00:07,792
Hello
World
",
    );

    t(&input[3..]);
    t(&input[..]);
}

#[test]
fn parse_time_test() {
    fn dur(h: u64, m: u64, s: u64, ms: u32) -> Duration {
        Duration::new(h * 3600 + m * 60 + s, ms * 1_000_000)
    }
    assert_eq!(
        parse_time("17:35:29,942 --> 17:25:48,456", 0).unwrap(),
        (dur(17, 35, 29, 942), dur(17, 25, 48, 456))
    );
}

#[test]
fn srt_test_parse_duration_test() {
    assert_eq!(
        Duration::new(3600 + 23 * 60 + 17, 486 * 1_000_000),
        parse_duration("01:23:17,486", 0).unwrap()
    );
}

#[test]
fn test_parse_duration_test() {
    assert_eq!(
        Ok(Duration::new(3600 + 23 * 60 + 17, 486 * 1_000_000)),
        parse_duration("01:23:17,486", 1)
    )
}

#[test]
fn test_only_digit() {
    assert_eq!(only_digit("48Ã©"), false);
    assert_eq!(only_digit("0123456789"), true);
}

#[test]
fn srt_test_out() {
    fn dur(d: u64) -> Duration {
        Duration::new(d, 0)
    }

    let cues = vec![
        Cue::new(
            None,
            dur(1),
            dur(4),
            vec!["Never drink liquid nitrogen.".to_string()],
        ),
        Cue::new(
            None,
            dur(5),
            dur(9),
            vec![
                "— It will perforate your stomach.".to_string(),
                "— You could die.".to_string(),
            ],
        ),
    ];

    let mut output: Vec<u8> = Vec::new();
    assert_eq!(2, out(cues, &mut output).unwrap());
    assert_eq!(
        std::str::from_utf8(&output).unwrap(),
        "1
00:00:01,000 --> 00:00:04,000
Never drink liquid nitrogen.

2
00:00:05,000 --> 00:00:09,000
— It will perforate your stomach.
— You could die.

"
    );
}

#[test]
fn srt_test_write_duration() {
    let d = Duration::new(2 * 3600 + 3 * 60 + 5, 84 * 1_000_000);
    let mut out: Vec<u8> = Vec::new();
    write_duration(&mut out, &d).unwrap();
    assert_eq!(std::str::from_utf8(&out).unwrap(), "02:03:05,084");
}

#[test]
fn srt_parses_one_cue_with_two_lines() {
    let mut p = SrtParser::new(b"1\n00:00:05,542 --> 00:00:07,792\nHello\nWorld\n\n").unwrap();
    let c = p.next().unwrap().unwrap();
    assert_eq!(c.id, None);
    assert_eq!(c.begin, Duration::new(5, 542_000_000));
    assert_eq!(c.end, Duration::new(7, 792_000_000));
    assert_eq!(c.text, vec!["Hello".to_string(), "World".to_string()]);
    assert_eq!(p.next(), None);
    assert_eq!(p.next(), None);
}

#[test]
fn srt_numbers_blocks_from_one_whatever_the_ids() {
    let cue = |id: Option<&str>, at: u64| {
        Cue::new(
            id.map(|s| s.to_string()),
            Duration::new(at, 0),
            Duration::new(at + 1, 0),
            vec!["x".to_string()],
        )
    };
    let with_ids = vec![cue(Some("41"), 1), cue(Some("intro"), 2), cue(None, 3)];
    let without = vec![cue(None, 1), cue(None, 2), cue(None, 3)];
    let mut a: Vec<u8> = Vec::new();
    let mut b: Vec<u8> = Vec::new();
    assert_eq!(srt_out(with_ids, &mut a), Ok(3));
    assert_eq!(srt_out(without, &mut b), Ok(3));
    assert_eq!(a, b);
    assert_eq!(
        std::str::from_utf8(&a).unwrap(),
        "1\n00:00:01,000 --> 00:00:02,000\nx\n\n2\n00:00:02,000 --> 00:00:03,000\nx\n\n3\n00:00:03,000 --> 00:00:04,000\nx\n\n"
    );
    let mut c: Vec<u8> = Vec::new();
    srt2webvtt::srt::write(&mut c, 1234567, &cue(Some("9"), 360_000));
    assert_eq!(
        std::str::from_utf8(&c).unwrap(),
        "1234567\n100:00:00,000 --> 100:00:01,000\nx\n\n"
    );
}

#[test]
fn srt_swaps_reversed_times_and_skips_blank_lines() {
    let mut p = SrtParser::new(b"\n\n12\n00:00:09,000\t --> \t 00:00:01,500\n\n\n3\n1:2:3,004 --> 5:6:7,008\na\n").unwrap();
    let c = p.next().unwrap().unwrap();
    assert_eq!(c.begin, Duration::new(1, 500_000_000));
    assert_eq!(c.end, Duration::new(9, 0));
    assert!(c.text.is_empty());
    let c = p.next().unwrap().unwrap();
    assert_eq!(c.begin, Duration::new(3723, 4_000_000));
    assert_eq!(c.end, Duration::new(5 * 3600 + 6 * 60 + 7, 8_000_000));
    assert_eq!(c.text, vec!["a".to_string()]);
    assert_eq!(p.next(), None);
}

#[test]
fn srt_errors() {
    let invalid = |reason: Reason, data: &str, line: usize| Error::InvalidData {
        reason,
        data: data.to_string(),
        line,
    };
    let first = |s: &[u8]| SrtParser::new(s).unwrap().next();

    assert_eq!(first(b""), None);
    assert_eq!(first(b"\n\n"), None);
    assert_eq!(
        first(b"\nhello\n"),
        Some(Err(invalid(Reason::UnexpectedLine, "hello", 2)))
    );
    assert_eq!(
        first(b"1a\n"),
        Some(Err(invalid(Reason::UnexpectedLine, "1a", 1)))
    );
    assert_eq!(first(b"1\n"), Some(Err(Error::UnexpectedEof { line: 1 })));
    assert_eq!(first(b"1"), Some(Err(Error::UnexpectedEof { line: 1 })));
    assert_eq!(
        first(b"1\n\n"),
        Some(Err(invalid(Reason::TimecodeSyntax, "", 2)))
    );
    assert_eq!(
        first(b"1\n00:00:01,000 -> 00:00:02,000\n"),
        Some(Err(invalid(Reason::TimecodeSyntax, "00:00:01,000 -> 00:00:02,000", 2)))
    );
    assert_eq!(
        first(b"1\n00:00:01,000 --> 00:00:02,000 --> 00:00:03,000\n"),
        Some(Err(invalid(
            Reason::TimecodeSyntax,
            "00:00:01,000 --> 00:00:02,000 --> 00:00:03,000",
            2
        )))
    );
    assert_eq!(
        first(b"1\n00:01,000 --> 00:00:02,000\n"),
        Some(Err(invalid(Reason::DurationSyntax, "00:01,000 --> 00:00:02,000", 2)))
    );
    assert_eq!(
        first(b"1\n00:00:01.000 --> 00:00:02,000\n"),
        Some(Err(invalid(Reason::DurationSyntax, "00:00:01.000 --> 00:00:02,000", 2)))
    );
    assert_eq!(
        first(b"1\n00:00:01,000 --> 00:0x:02,000\n"),
        Some(Err(invalid(Reason::InvalidNumber, "00:00:01,000 --> 00:0x:02,000", 2)))
    );
    assert_eq!(
        first(b"1\n00:00:01,00 --> 00:00:02,000\n"),
        Some(Err(invalid(Reason::MillisecondDigits, "00:00:01,00 --> 00:00:02,000", 2)))
    );
    assert_eq!(
        first(b"1\n00:00:01,000 --> 00:00:02,1000\n"),
        Some(Err(invalid(Reason::MillisecondDigits, "00:00:01,000 --> 00:00:02,1000", 2)))
    );
    assert_eq!(
        first(b"1\n00:00:01,000 --> 00:00:02,000\ntext\n\xFF\n"),
        Some(Err(Error::Io { line: 3 }))
    );
    assert_eq!(first(b"\xC3\n"), Some(Err(Error::Io { line: 0 })));

    let mut p = SrtParser::new(b"x\n1\n00:00:01,000 --> 00:00:02,000\n").unwrap();
    assert!(p.next().unwrap().is_err());
    assert_eq!(p.next(), None);
}

#[test]
fn srt_durations() {
    assert_eq!(parse_duration("0:0:0,000", 3), Ok(Duration::new(0, 0)));
    assert_eq!(
        parse_duration("000100:99:99,999", 3),
        Ok(Duration::new(100 * 3600 + 99 * 60 + 99, 999_000_000))
    );
    assert_eq!(
        parse_duration("5124095576030431:00:15,000", 3),
        Ok(Duration::new(u64::MAX, 0))
    );
    let invalid = |reason: Reason, data: &str| {
        Err(Error::InvalidData {
            reason,
            data: data.to_string(),
            line: 3,
        })
    };
    assert_eq!(
        parse_duration("5124095576030431:00:16,000", 3),
        invalid(Reason::InvalidNumber, "5124095576030431:00:16,000")
    );
    assert_eq!(
        parse_duration("18446744073709551616:00:00,000", 3),
        invalid(Reason::InvalidNumber, "18446744073709551616:00:00,000")
    );
    assert_eq!(parse_duration("+1:00:00,000", 3), invalid(Reason::InvalidNumber, "+1:00:00,000"));
    assert_eq!(parse_duration(":00:00,000", 3), invalid(Reason::InvalidNumber, ":00:00,000"));
    assert_eq!(parse_duration(" 1:00:00,000", 3), invalid(Reason::InvalidNumber, " 1:00:00,000"));
    assert_eq!(parse_duration("1:00:00,0,0", 3), invalid(Reason::DurationSyntax, "1:00:00,0,0"));
    assert_eq!(parse_duration("1:00,0:00,000", 3), invalid(Reason::InvalidNumber, "1:00,0:00,000"));
    assert_eq!(parse_duration("1:00:00", 3), invalid(Reason::DurationSyntax, "1:00:00"));
    assert_eq!(parse_duration("1:00:00:00,000", 3), invalid(Reason::DurationSyntax, "1:00:00:00,000"));
    assert_eq!(parse_duration("", 3), invalid(Reason::DurationSyntax, ""));
    assert_eq!(
        parse_time("1:00:00,000\u{2003}\u{a0} --> \u{3000}2:00:00,000", 3),
        Ok((Duration::new(3600, 0), Duration::new(7200, 0)))
    );
    assert_eq!(
        parse_time("1:00:00,000 --> 2:00:00,000 ", 3),
        Err(Error::InvalidData {
            reason: Reason::MillisecondDigits,
            data: "1:00:00,000 --> 2:00:00,000 ".to_string(),
            line: 3,
        })
    );
}

#[test]
fn line_reader() {
    let mut lines = LineNb::new(b"\xEF\xBB\xBF\xEF\xBB\xBFa\r\nb\r\r\n\n\rc\xFF\nd\r");
    assert_eq!(lines.current(), 0);
    assert_eq!(lines.next(), Some(Ok("\u{feff}a".to_string())));
    assert_eq!(lines.current(), 1);
    assert_eq!(lines.next(), Some(Ok("b\r".to_string())));
    assert_eq!(lines.next(), Some(Ok("".to_string())));
    assert_eq!(lines.current(), 3);
    assert_eq!(lines.next(), Some(Err(Error::Io { line: 3 })));
    assert_eq!(lines.current(), 3);
    assert_eq!(lines.next(), Some(Ok("d\r".to_string())));
    assert_eq!(lines.current(), 4);
    assert_eq!(lines.next(), None);
    assert_eq!(lines.next(), None);
    assert_eq!(lines.current(), 4);
    assert_eq!(LineNb::new(b"").next(), None);
    assert_eq!(LineNb::new(b"\xEF\xBB\xBF").next(), None);
    assert_eq!(LineNb::new(b"\n").next(), Some(Ok(String::new())));
    assert_eq!(LineNb::new(b"\xEF\xBB").next(), Some(Err(Error::Io { line: 0 })));
}

#[test]
fn srt_keeps_the_error_that_ends_the_reading() {
    let mut srt = Srt::parse(b"1\n00:00:01,000 --> 00:00:02,000\nA\n\n2\n00:00:03 --> 00:00:04,000\nB\n");
    assert_eq!(
        srt.next(),
        Some(Cue::new(
            None,
            Duration::new(1, 0),
            Duration::new(2, 0),
            vec!["A".to_string()]
        ))
    );
    assert_eq!(srt.error, None);
    assert_eq!(srt.next(), None);
    assert_eq!(
        srt.error,
        Some(Error::InvalidData {
            reason: Reason::DurationSyntax,
            data: "00:00:03 --> 00:00:04,000".to_string(),
            line: 6
        })
    );
    assert_eq!(srt.next(), None);

    let mut srt = Srt::parse(b"");
    assert_eq!(srt.next(), None);
    assert_eq!(srt.error, None);
}
