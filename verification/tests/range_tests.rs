use mpd_easy::Error;
use mpd_easy::range::Parser;

#[test]
fn test_valid_range() {
    let parser = Parser::new("5:10").unwrap();
    assert_eq!(parser.range.start, 5);
    assert_eq!(parser.range.end, 10);
    assert!(parser.is_range);
}

#[test]
fn test_single_index() {
    let parser = Parser::new("5").unwrap();
    assert_eq!(parser.index, 5);
    assert!(!parser.is_range);
}

#[test]
fn test_invalid_range() {
    assert!(Parser::new(":").is_err());
    assert!(Parser::new("").is_err());
    assert!(Parser::new("10:5").is_err());
    assert!(Parser::new("10:10").is_err());
    assert!(Parser::new("1:10:12").is_err());
    assert!(Parser::new("a:b").is_err());
}

#[test]
fn test_invalid_range_error_kind() {
    assert!(matches!(Parser::new("10:5"), Err(Error::InvalidRange)));
}

#[test]
fn test_single_index_spans_to_end() {
    let parser = Parser::new("7").unwrap();
    assert_eq!(parser.range.start, 7);
    assert_eq!(parser.range.end, u32::MAX);
}

#[test]
fn test_leading_plus_is_accepted() {
    let parser = Parser::new("+3:+9").unwrap();
    assert_eq!(parser.range.start, 3);
    assert_eq!(parser.range.end, 9);
}

#[test]
fn test_partial_field_is_rejected() {
    assert!(Parser::new("5:").is_err());
    assert!(Parser::new(":5").is_err());
    assert!(Parser::new("5:x").is_err());
    assert!(Parser::new("+:5").is_err());
}

#[test]
fn test_error_messages() {
    assert_eq!(
        Error::InvalidRange.message(),
        "invalid range, should be 'start:end' where start and end > 0"
    );
    assert_eq!(Error::NoOutputsGiven.message(), "no outputs given");
    assert_eq!(Error::SessionError("gone".to_string()).message(), "gone");
}
