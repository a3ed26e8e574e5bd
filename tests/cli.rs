use make_it_braille::cli::{input_kind, parse_mode, validate_greater_than_zero, InputKind};

#[test]
fn positive_sizes() {
    assert_eq!(validate_greater_than_zero("42"), Ok(42));
    assert_eq!(validate_greater_than_zero("+7"), Ok(7));
    assert_eq!(validate_greater_than_zero("4294967295"), Ok(4294967295));
}

#[test]
fn zero_size() {
    assert_eq!(validate_greater_than_zero("0"), Err("this argument cannot be 0"));
    assert_eq!(validate_greater_than_zero("000"), Err("this argument cannot be 0"));
}

#[test]
fn not_a_size() {
    for s in ["", "abc", "-3", " 5", "4294967296", "+", "1.5"] {
        assert_eq!(validate_greater_than_zero(s), Err("must be a positive integer"));
    }
}

#[test]
fn input_kinds() {
    assert_eq!(input_kind("-", false, false, None), Ok(InputKind::Stdin));
    assert_eq!(input_kind("-", true, true, Some("http")), Ok(InputKind::Stdin));
    assert_eq!(input_kind("a.png", true, true, None), Ok(InputKind::File));
    assert_eq!(
        input_kind("dir", true, false, None),
        Err("the given path exists but is not a file")
    );
    assert_eq!(input_kind("http://x/a.png", false, false, Some("http")), Ok(InputKind::Url));
    assert_eq!(input_kind("HTTPS://x/a.png", false, false, Some("HTTPS")), Ok(InputKind::Url));
    assert_eq!(
        input_kind("ftp://x/a.png", false, false, Some("ftp")),
        Err("the given URL must be either http or https")
    );
    assert_eq!(
        input_kind("nothing", false, false, None),
        Err("the given input was not a valid argument")
    );
}

#[test]
fn parse_mode_reads_urls() {
    assert_eq!(parse_mode("-", false, false), Ok(InputKind::Stdin));
    assert_eq!(parse_mode("https://example.com/a.png", false, false), Ok(InputKind::Url));
    assert_eq!(parse_mode("HTTP://example.com/a.png", false, false), Ok(InputKind::Url));
    assert_eq!(
        parse_mode("ftp://example.com/a.png", false, false),
        Err("the given URL must be either http or https")
    );
    assert_eq!(
        parse_mode("picture.png", false, false),
        Err("the given input was not a valid argument")
    );
    assert_eq!(parse_mode("picture.png", true, true), Ok(InputKind::File));
}
