use dechatter::cmd::{parse_filter, parse_key_range, KeyRangeParseError, KeyRangeTimeout, StringFilter};

#[test]
fn test_parse_key_range() {
    assert_eq!(
        parse_key_range("1:2:3").unwrap(),
        KeyRangeTimeout {
            start: 1,
            end: 2,
            timeout_ms: 3,
        }
    );

    assert!(parse_key_range("1:2").is_err());
    assert!(parse_key_range("1:2:3:4").is_err());
    assert!(parse_key_range("0:0:0").is_err());
    assert!(parse_key_range("0:0:1").is_ok());
    assert!(parse_key_range("1:0:1").is_err());
}

#[test]
fn parse_key_range_error_kinds() {
    assert_eq!(parse_key_range("1:2").unwrap_err(), KeyRangeParseError::WrongFieldCount);
    assert_eq!(parse_key_range("12").unwrap_err(), KeyRangeParseError::WrongFieldCount);
    assert_eq!(parse_key_range("1:2:3:4").unwrap_err(), KeyRangeParseError::InvalidNumber);
    assert_eq!(parse_key_range("a:2:3").unwrap_err(), KeyRangeParseError::InvalidNumber);
    assert_eq!(parse_key_range("1::3").unwrap_err(), KeyRangeParseError::InvalidNumber);
    assert_eq!(parse_key_range("70000:70001:3").unwrap_err(), KeyRangeParseError::InvalidNumber);
    assert_eq!(parse_key_range("1:0:1").unwrap_err(), KeyRangeParseError::EmptyRange);
    assert_eq!(parse_key_range("0:0:0").unwrap_err(), KeyRangeParseError::ZeroTimeout);
}

#[test]
fn parse_key_range_accepts_plus_and_leading_zeros() {
    assert_eq!(
        parse_key_range("+1:002:65535").unwrap(),
        KeyRangeTimeout {
            start: 1,
            end: 2,
            timeout_ms: 65535,
        }
    );
}

#[test]
fn parse_filter_prefixes() {
    assert!(matches!(parse_filter("s:Asus"), StringFilter::StartsWith(p) if p == "Asus"));
    assert!(matches!(parse_filter("e:board"), StringFilter::EndsWith(p) if p == "board"));
    assert!(matches!(parse_filter("c:USB"), StringFilter::Contains(p) if p == "USB"));
    assert!(matches!(
        parse_filter("/dev/input/event10"),
        StringFilter::Equals(p) if p == "/dev/input/event10"
    ));
    // An unknown prefix letter falls back to equality, colon included.
    assert!(matches!(parse_filter("x:abc"), StringFilter::Equals(p) if p == "x:abc"));
}

#[test]
fn string_filter_matching() {
    assert!(parse_filter("s:Asus").matches("Asus Keyboard"));
    assert!(!parse_filter("s:Asus").matches("My Asus"));
    assert!(parse_filter("e:board").matches("Asus Keyboard"));
    assert!(!parse_filter("e:board").matches("boards"));
    assert!(parse_filter("c:us Key").matches("Asus Keyboard"));
    assert!(!parse_filter("c:zzz").matches("Asus Keyboard"));
    assert!(parse_filter("Asus Keyboard").matches("Asus Keyboard"));
    assert!(!parse_filter("Asus").matches("Asus Keyboard"));
    // Empty patterns match anything for the substring modes.
    assert!(parse_filter("s:").matches("anything"));
    assert!(parse_filter("c:").matches("anything"));
}
