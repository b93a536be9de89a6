use minisim::config::SizeFault;
use minisim::{parse_size, size_of_text};

#[test]
fn plain_numbers() {
    assert_eq!(parse_size("0"), Ok(Some(0)));
    assert_eq!(parse_size("4000000"), Ok(Some(4_000_000)));
    assert_eq!(parse_size("+12"), Ok(Some(12)));
    assert_eq!(parse_size("007"), Ok(Some(7)));
    assert_eq!(parse_size("18446744073709551615"), Ok(Some(u64::MAX)));
}

#[test]
fn units() {
    assert_eq!(parse_size("100KB"), Ok(Some(102_400)));
    assert_eq!(parse_size("2MB"), Ok(Some(2_097_152)));
    assert_eq!(parse_size("3GB"), Ok(Some(3_221_225_472)));
    assert_eq!(parse_size("0GB"), Ok(Some(0)));
    assert_eq!(parse_size("+1KB"), Ok(Some(1024)));
}

#[test]
fn case_and_space_do_not_matter() {
    assert_eq!(parse_size("  100kb "), Ok(Some(102_400)));
    assert_eq!(parse_size("2Mb"), Ok(Some(2_097_152)));
    assert_eq!(parse_size("\t3gB\n"), Ok(Some(3_221_225_472)));
    assert_eq!(parse_size(" 42 "), Ok(Some(42)));
}

#[test]
fn faults() {
    assert_eq!(parse_size(""), Err("cannot parse integer from empty string".to_string()));
    assert_eq!(parse_size("   "), Err("cannot parse integer from empty string".to_string()));
    assert_eq!(parse_size("KB"), Err("cannot parse integer from empty string".to_string()));
    assert_eq!(parse_size("+"), Err("invalid digit found in string".to_string()));
    assert_eq!(parse_size("-"), Err("invalid digit found in string".to_string()));
    assert_eq!(parse_size("-5"), Err("invalid digit found in string".to_string()));
    assert_eq!(parse_size("12x"), Err("invalid digit found in string".to_string()));
    assert_eq!(parse_size("1 KB"), Err("invalid digit found in string".to_string()));
    assert_eq!(parse_size("1.5MB"), Err("invalid digit found in string".to_string()));
    assert_eq!(parse_size("10TB"), Err("invalid digit found in string".to_string()));
    assert_eq!(parse_size("+KB"), Err("invalid digit found in string".to_string()));
    assert_eq!(
        parse_size("18446744073709551616"),
        Err("number too large to fit in target type".to_string())
    );
    assert_eq!(
        parse_size("99999999999999999999x"),
        Err("number too large to fit in target type".to_string())
    );
    assert_eq!(
        parse_size("18014398509481984KB"),
        Err("number too large to fit in target type".to_string())
    );
    assert_eq!(parse_size("18014398509481983KB"), Ok(Some(18014398509481983 * 1024)));
}

#[test]
fn faults_agree_with_the_standard_parser() {
    for text in ["", "+", "-", "-5", "12x", "18446744073709551616", "99999999999999999999x", "٣"] {
        let expected = text.parse::<u64>().map(Some).map_err(|e| e.to_string());
        assert_eq!(parse_size(text), expected);
    }
    for text in ["0", "+12", "007", "18446744073709551615"] {
        let expected = text.parse::<u64>().map(Some).map_err(|e| e.to_string());
        assert_eq!(parse_size(text), expected);
    }
}

#[test]
fn text_in_capitals_is_read_as_it_stands() {
    assert_eq!(size_of_text("100KB"), Ok(Some(102_400)));
    assert_eq!(size_of_text("100kb"), Err("invalid digit found in string".to_string()));
    assert_eq!(size_of_text(" 1"), Err("invalid digit found in string".to_string()));
    assert_eq!(size_of_text("1"), Ok(Some(1)));
}

#[test]
fn fault_messages() {
    assert_eq!(SizeFault::Empty.to_string(), "cannot parse integer from empty string");
    assert_eq!(SizeFault::InvalidDigit.to_string(), "invalid digit found in string");
    assert_eq!(SizeFault::TooLarge.to_string(), "number too large to fit in target type");
}
