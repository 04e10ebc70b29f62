use srt2webvtt::{Cue, Delta, DeltaSyntax, Duration, Error};

#[test]
fn delta_apply() {
    let c = Cue::new(None, Duration::new(5, 10), Duration::new(6, 20), Vec::new());

    let mut cc = c.clone();
    Delta::Zero.apply(&mut cc).unwrap();
    assert_eq!(cc, c);

    let mut cc = c.clone();
    Delta::Add(Duration::new(10, 0)).apply(&mut cc).unwrap();
    assert_eq!(
        cc,
        Cue::new(
            None,
            Duration::new(15, 10),
            Duration::new(16, 20),
            Vec::new()
        )
    );

    let mut cc = c.clone();
    Delta::Sub(Duration::new(2, 0)).apply(&mut cc).unwrap();
    assert_eq!(
        cc,
        Cue::new(None, Duration::new(3, 10), Duration::new(4, 20), Vec::new())
    );
}

#[test]
fn delta_applicator() {
    let c = Cue::new(None, Duration::new(5, 10), Duration::new(6, 20), Vec::new());

    let cc = Delta::Zero.applicator()(c.clone()).unwrap();
    assert_eq!(cc, c);

    let cc = Delta::Add(Duration::new(10, 0)).applicator()(c.clone()).unwrap();
    assert_eq!(
        cc,
        Cue::new(
            None,
            Duration::new(15, 10),
            Duration::new(16, 20),
            Vec::new()
        )
    );

    let cc = Delta::Sub(Duration::new(2, 0)).applicator()(c.clone()).unwrap();
    assert_eq!(
        cc,
        Cue::new(None, Duration::new(3, 10), Duration::new(4, 20), Vec::new())
    );
}

#[test]
fn delta_fromstr() {
    let add = Delta::Add(Duration::new(96, 125_000_000));
    assert_eq!("+96.125".parse::<Delta>().unwrap(), add);
    assert_eq!("+1:36.125".parse::<Delta>().unwrap(), add);

    let sub = Delta::Sub(Duration::new(96, 125_000_000));
    assert_eq!("-96.125".parse::<Delta>().unwrap(), sub);
    assert_eq!("-1:36.125".parse::<Delta>().unwrap(), sub);

    assert_eq!("".parse::<Delta>().unwrap(), Delta::Zero);
    assert_eq!("0".parse::<Delta>().unwrap(), Delta::Zero);
}

#[test]
fn delta_from_text_shifts_cue_to_96_125() {
    let delta = "+1:36.125".parse::<Delta>().unwrap();
    let mut c = Cue::new(None, Duration::new(0, 0), Duration::new(2, 0), Vec::new());
    delta.apply(&mut c).unwrap();
    assert_eq!(c.begin, Duration::new(96, 125_000_000));
    assert_eq!(c.end, Duration::new(98, 125_000_000));
}

#[test]
fn delta_add_then_sub_gives_the_cue_back() {
    let c = Cue::new(
        Some("id".to_string()),
        Duration::new(7, 999_999_999),
        Duration::new(9, 1),
        vec!["text".to_string()],
    );
    let d = Duration::new(3, 500_000_001);
    let mut cc = c.clone();
    Delta::Add(d).apply(&mut cc).unwrap();
    assert_eq!(cc.begin, Duration::new(11, 500_000_000));
    assert_eq!(cc.end, Duration::new(12, 500_000_002));
    Delta::Sub(d).apply(&mut cc).unwrap();
    assert_eq!(cc, c);
}

#[test]
fn delta_sub_past_zero_is_underflow() {
    let c = Cue::new(None, Duration::new(1, 0), Duration::new(5, 0), Vec::new());
    let mut cc = c.clone();
    assert_eq!(
        Delta::Sub(Duration::new(1, 1)).apply(&mut cc),
        Err(Error::Underflow)
    );
    assert_eq!(cc, c);
    assert_eq!(
        Delta::Sub(Duration::new(2, 0)).applicator()(c.clone()),
        Err(Error::Underflow)
    );
}

#[test]
fn delta_add_past_the_longest_duration_is_overflow() {
    let c = Cue::new(None, Duration::new(1, 0), Duration::new(u64::MAX, 0), Vec::new());
    let mut cc = c.clone();
    assert_eq!(
        Delta::Add(Duration::new(1, 0)).apply(&mut cc),
        Err(Error::Overflow)
    );
    assert_eq!(cc, c);
    let mut cc = c.clone();
    Delta::Add(Duration::new(0, 999_999_999)).apply(&mut cc).unwrap();
    assert_eq!(cc.end, Duration::new(u64::MAX, 999_999_999));
}

#[test]
fn delta_text_grammar() {
    assert_eq!("+0".parse::<Delta>(), Ok(Delta::Add(Duration::new(0, 0))));
    assert_eq!("+.5".parse::<Delta>(), Ok(Delta::Add(Duration::new(0, 500_000_000))));
    assert_eq!("-5.".parse::<Delta>(), Ok(Delta::Sub(Duration::new(5, 0))));
    assert_eq!(
        "+0.1234567891".parse::<Delta>(),
        Ok(Delta::Add(Duration::new(0, 123_456_789)))
    );
    assert_eq!("+2:0".parse::<Delta>(), Ok(Delta::Add(Duration::new(120, 0))));
    assert_eq!("96.125".parse::<Delta>(), Err(DeltaSyntax::MissingSign));
    assert_eq!("5".parse::<Delta>(), Err(DeltaSyntax::MissingSign));
    assert_eq!("+x:5".parse::<Delta>(), Err(DeltaSyntax::Minutes));
    assert_eq!("+:5".parse::<Delta>(), Err(DeltaSyntax::Minutes));
    assert_eq!("+".parse::<Delta>(), Err(DeltaSyntax::Seconds));
    assert_eq!("+.".parse::<Delta>(), Err(DeltaSyntax::Seconds));
    assert_eq!("+1e3".parse::<Delta>(), Err(DeltaSyntax::Seconds));
    assert_eq!("+1.2.3".parse::<Delta>(), Err(DeltaSyntax::Seconds));
    assert_eq!(
        "+18446744073709551615.999999999".parse::<Delta>(),
        Ok(Delta::Add(Duration::new(u64::MAX, 999_999_999)))
    );
    assert_eq!(
        "+18446744073709551616".parse::<Delta>(),
        Err(DeltaSyntax::TooLarge)
    );
    assert_eq!(
        "+307445734561825861:0".parse::<Delta>(),
        Err(DeltaSyntax::TooLarge)
    );
}

#[test]
fn cue_new_swaps_reversed_times() {
    let c = Cue::new(None, Duration::new(9, 0), Duration::new(4, 5), Vec::new());
    assert_eq!(c.begin, Duration::new(4, 5));
    assert_eq!(c.end, Duration::new(9, 0));
    let c = Cue::new(None, Duration::new(4, 5), Duration::new(4, 5), vec![String::new()]);
    assert_eq!(c.begin, c.end);
    assert_eq!(c.text, vec![String::new()]);
}

#[test]
fn duration_parts() {
    let d = Duration::new(3, 2_084_000_001);
    assert_eq!(d, Duration::new(5, 84_000_001));
    assert_eq!(d.as_secs(), 5);
    assert_eq!(d.subsec_nanos(), 84_000_001);
    assert_eq!(d.subsec_millis(), 84);
    assert!(d.gt(&Duration::new(5, 84_000_000)));
    assert!(!d.gt(&d));
    assert_eq!(d.checked_sub(&Duration::new(5, 84_000_002)), None);
    assert_eq!(
        d.checked_sub(&Duration::new(4, 900_000_000)),
        Some(Duration::new(0, 184_000_001))
    );
    assert_eq!(
        d.checked_add(&Duration::new(0, 999_999_999)),
        Some(Duration::new(6, 84_000_000))
    );
    assert_eq!(Duration::new(u64::MAX, 1).checked_add(&Duration::new(0, 999_999_999)), None);
}
