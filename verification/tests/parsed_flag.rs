//! Token classification: the shapes and the dash-placement errors.

use supplements::parsed_flag::Error;
use supplements::parsed_flag::ParsedFlag;

fn class(s: &str) -> ParsedFlag {
    ParsedFlag::new(s).unwrap()
}

#[test]
fn parsed_flag_test_simple() {
    assert!(matches!(class(""), ParsedFlag::Empty));
    assert!(matches!(class("-"), ParsedFlag::SingleDash));
    assert!(matches!(class("--"), ParsedFlag::DoubleDash));

    match class("-s") {
        ParsedFlag::Short { body, equal } => {
            assert_eq!(body, 's');
            assert_eq!(equal, None);
        }
        other => panic!("unexpected class {:?}", other),
    }
    match class("--long") {
        ParsedFlag::Long { body, equal } => {
            assert_eq!(body, "long");
            assert_eq!(equal, None);
        }
        other => panic!("unexpected class {:?}", other),
    }
    match class("-long") {
        ParsedFlag::MultiShort(body) => assert_eq!(body, "long"),
        other => panic!("unexpected class {:?}", other),
    }

    // A single-character long name stays legal; lookup simply will not
    // find a flag under it unless one was declared.
    match class("--l") {
        ParsedFlag::Long { body, equal } => {
            assert_eq!(body, "l");
            assert_eq!(equal, None);
        }
        other => panic!("unexpected class {:?}", other),
    }
}

#[test]
fn test_equal() {
    match class("-s=") {
        ParsedFlag::Short { body, equal } => {
            assert_eq!(body, 's');
            assert_eq!(equal, Some("".to_string()));
        }
        other => panic!("unexpected class {:?}", other),
    }
    match class("--long=x") {
        ParsedFlag::Long { body, equal } => {
            assert_eq!(body, "long");
            assert_eq!(equal, Some("x".to_string()));
        }
        other => panic!("unexpected class {:?}", other),
    }
    match class("-long=x=b") {
        ParsedFlag::MultiShort(body) => assert_eq!(body, "long=x=b"),
        other => panic!("unexpected class {:?}", other),
    }
    match class("--l=x") {
        ParsedFlag::Long { body, equal } => {
            assert_eq!(body, "l");
            assert_eq!(equal, Some("x".to_string()));
        }
        other => panic!("unexpected class {:?}", other),
    }
}

#[test]
fn test_invalid() {
    assert_eq!(ParsedFlag::new("-s-b").unwrap_err(), Error::DashNotAllowed);
    assert_eq!(
        ParsedFlag::new("---long").unwrap_err(),
        Error::ConsecutiveDashes
    );
    assert_eq!(
        ParsedFlag::new("--long--and").unwrap_err(),
        Error::ConsecutiveDashes
    );
}
