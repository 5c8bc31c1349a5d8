use semver2::cursor::{is_eof, peek1, take1, take_string_while, Cursor};
use semver2::parse::ParseError;
use semver2::version::{Identifier, Version};

#[test]
fn simple_parsing() {
    assert_eq!("1.2.3".parse::<Version>().unwrap(), Version::new(1, 2, 3));
    assert_eq!(
        "1.2.3-alpha.3".parse::<Version>().unwrap(),
        Version::new_prerelease(1, 2, 3, vec!["alpha".parse().unwrap(), 3.into()])
    );
    assert_eq!(
        "1.2.3+alpha.3".parse::<Version>().unwrap(),
        Version::new_build(1, 2, 3, vec!["alpha".parse().unwrap(), 3.into()])
    );

    assert_eq!(
        "1.2.3-beta.9+acd.v3.2".parse::<Version>().unwrap(),
        Version {
            major: 1,
            minor: 2,
            patch: 3,
            prerelease: vec!["beta".parse().unwrap(), 9.into()],
            build: vec!["acd".parse().unwrap(), "v3".parse().unwrap(), 2.into()],
        }
    );
}

#[test]
fn display() {
    assert_eq!(&Version::new(1, 2, 3).to_string(), "1.2.3");
    assert_eq!(
        &Version::new_prerelease(1, 2, 3, vec![0.into(), "alpha".parse().unwrap()]).to_string(),
        "1.2.3-0.alpha"
    );
    assert_eq!(
        &Version::new_build(1, 2, 3, vec![0.into(), "alpha".parse().unwrap()]).to_string(),
        "1.2.3+0.alpha"
    );
    assert_eq!(
        &Version {
            major: 1,
            minor: 2,
            patch: 3,
            prerelease: vec![0.into(), "alpha".parse().unwrap()],
            build: vec!["bla".parse().unwrap(), 9.into()],
        }
        .to_string(),
        "1.2.3-0.alpha+bla.9"
    );
}

#[test]
fn loose_versions() {
    assert_eq!(
        "001.20.0301".parse::<Version>().unwrap(),
        Version::new(1, 20, 301)
    );

    assert_eq!(
        "1.2.3-beta.01".parse::<Version>().unwrap(),
        Version::new_prerelease(1, 2, 3, vec!["beta".parse().unwrap(), 1.into()])
    );

    assert_eq!(
        "1.2.3foo".parse::<Version>().unwrap(),
        Version::new_prerelease(1, 2, 3, vec!["foo".parse().unwrap()])
    );

    assert_eq!(
        "1.2.3foo.8".parse::<Version>().unwrap(),
        Version::new_prerelease(1, 2, 3, vec!["foo".parse().unwrap(), 8.into()])
    );
}

#[test]
fn format_bare_triple() {
    assert_eq!(Version::new(0, 0, 0).to_string(), "0.0.0");
    assert_eq!(Version::new(10, 200, 3045).to_string(), "10.200.3045");
    assert_eq!(
        Version::new(u64::MAX, 7, 0).to_string(),
        "18446744073709551615.7.0"
    );
}

#[test]
fn round_trip_canonical_texts() {
    for text in [
        "0.0.0",
        "1.2.3",
        "1.2.3-alpha.3",
        "1.2.3+build.7",
        "1.2.3-0.alpha+bla.9",
        "18446744073709551615.0.1-x1.2+y",
    ] {
        let v = Version::parse(text).unwrap();
        assert_eq!(v.to_string(), text);
        assert_eq!(Version::parse(&v.to_string()).unwrap(), v);
    }
}

#[test]
fn loose_leading_zeros() {
    assert_eq!(Version::parse("001.20.0301").unwrap(), Version::new(1, 20, 301));
    assert_eq!(Version::parse("001.20.0301").unwrap().to_string(), "1.20.301");
}

#[test]
fn implicit_prerelease() {
    let a = Version::parse("1.2.3foo").unwrap();
    let b = Version::parse("1.2.3-foo").unwrap();
    assert_eq!(a, b);
    assert_eq!(a.prerelease, vec![Identifier::String("foo".to_string())]);
    assert!(a.build.is_empty());
}

#[test]
fn numeric_identifier_classification() {
    let v = Version::parse("1.2.3-beta.9+acd.v3.2").unwrap();
    assert_eq!(
        v.prerelease,
        vec![Identifier::String("beta".to_string()), Identifier::Number(9)]
    );
    assert_eq!(
        v.build,
        vec![
            Identifier::String("acd".to_string()),
            Identifier::String("v3".to_string()),
            Identifier::Number(2)
        ]
    );
}

#[test]
fn bare_version_defaulting() {
    let a = Version::parse("5").unwrap();
    let b = Version::parse("5.0").unwrap();
    let c = Version::parse("5.0.0").unwrap();
    assert_eq!(a, b);
    assert_eq!(b, c);
    assert_eq!(a, Version::new(5, 0, 0));
}

#[test]
fn error_scenarios() {
    assert_eq!(Version::parse("1.2."), Err(ParseError::InvalidNumericRange));
    assert_eq!(Version::parse(""), Err(ParseError::UnexpectedEof));
    assert_eq!(Version::parse("1..2"), Err(ParseError::InvalidNumericRange));
}

#[test]
fn invalid_separator() {
    assert_eq!(
        Version::parse("1,2"),
        Err(ParseError::Invalid { found: Some(',') })
    );
    assert_eq!(
        Version::parse("1.2-3"),
        Err(ParseError::Invalid { found: Some('-') })
    );
}

#[test]
fn leftover_after_qualifier() {
    assert_eq!(
        Version::parse("1.2.3-a-b"),
        Err(ParseError::Invalid { found: Some('-') })
    );
    assert_eq!(
        Version::parse("1.2.3+a-b"),
        Err(ParseError::Invalid { found: Some('-') })
    );
    assert_eq!(
        Version::parse("1.2.3-a+b+c"),
        Err(ParseError::Invalid { found: Some('+') })
    );
}

#[test]
fn empty_qualifier_parts_rejected() {
    assert_eq!(Version::parse("1.2.3-"), Err(ParseError::UnexpectedEof));
    assert_eq!(Version::parse("1.2.3+"), Err(ParseError::UnexpectedEof));
    assert_eq!(Version::parse("1.2.3-a."), Err(ParseError::UnexpectedEof));
    assert_eq!(
        Version::parse("1.2.3-.a"),
        Err(ParseError::Invalid { found: Some('.') })
    );
    assert_eq!(
        Version::parse("1.2.3!"),
        Err(ParseError::Invalid { found: Some('!') })
    );
}

#[test]
fn numeric_overflow() {
    assert_eq!(
        Version::parse("18446744073709551615").unwrap(),
        Version::new(u64::MAX, 0, 0)
    );
    assert_eq!(
        Version::parse("18446744073709551616"),
        Err(ParseError::InvalidNumericRange)
    );
    assert_eq!(
        Version::parse("1.99999999999999999999"),
        Err(ParseError::InvalidNumericRange)
    );
}

#[test]
fn overflowing_identifier_stays_text() {
    let v = Version::parse("1.2.3-99999999999999999999").unwrap();
    assert_eq!(
        v.prerelease,
        vec![Identifier::String("99999999999999999999".to_string())]
    );
}

#[test]
fn non_ascii_input() {
    assert_eq!(
        Version::parse("1.2.3-\u{e9}"),
        Err(ParseError::Invalid { found: Some('\u{c3}') })
    );
}

#[test]
fn identifier_parsing() {
    assert_eq!(Identifier::parse("alpha").unwrap(), Identifier::String("alpha".to_string()));
    assert_eq!(Identifier::parse("0042").unwrap(), Identifier::Number(42));
    assert_eq!(Identifier::parse("x7.y").unwrap(), Identifier::String("x7".to_string()));
    assert_eq!(Identifier::parse(""), Err(ParseError::UnexpectedEof));
    assert_eq!(
        Identifier::parse("-a"),
        Err(ParseError::Invalid { found: Some('-') })
    );
}

#[test]
fn identifier_text() {
    assert_eq!(Identifier::Number(907).to_string(), "907");
    assert_eq!(Identifier::String("rc1".to_string()).to_string(), "rc1");
    assert_eq!(Identifier::parse("beta").unwrap().to_string(), "beta");
}

#[test]
fn identifier_from_integers() {
    assert_eq!(Identifier::from(7u8), Identifier::Number(7));
    assert_eq!(Identifier::from(300u16), Identifier::Number(300));
    assert_eq!(Identifier::from(70000u32), Identifier::Number(70000));
    assert_eq!(Identifier::from(u64::MAX), Identifier::Number(u64::MAX));
    assert_eq!(Identifier::from(5i32), Identifier::Number(5));
    assert_eq!(Identifier::from(-1i8), Identifier::Number(u64::MAX));
}

#[test]
fn default_version() {
    assert_eq!(Version::default(), Version::new(0, 0, 0));
}

#[test]
fn formatting_is_repeatable() {
    let v = Version::parse("3.1.4-rc.1+sha.5").unwrap();
    assert_eq!(v.to_string(), v.to_string());
}

#[test]
fn cursor_primitives() {
    let mut c = Cursor::new("ab1");
    assert!(!is_eof(&c));
    assert_eq!(peek1(&c), Some(b'a'));
    assert_eq!(take1(&mut c), Some(b'a'));
    let run = take_string_while(&mut c, |b| b.is_ascii_alphabetic()).unwrap();
    assert_eq!(run, "b");
    assert_eq!(take1(&mut c), Some(b'1'));
    assert!(is_eof(&c));
    assert_eq!(take1(&mut c), None);
    assert_eq!(peek1(&c), None);
}

#[test]
fn take_string_while_rejects_split_character() {
    let mut c = Cursor::new("\u{e9}x");
    assert_eq!(take_string_while(&mut c, |b| b == 0xc3), Err(ParseError::Io));
    assert_eq!(peek1(&c), Some(0xa9));
    let mut d = Cursor::new("\u{e9}x");
    assert_eq!(take_string_while(&mut d, |b| b >= 0x80).unwrap(), "\u{e9}");
    assert_eq!(peek1(&d), Some(b'x'));
}
