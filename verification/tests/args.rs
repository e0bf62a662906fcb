use invoices::args::parse;
use invoices::error::{Error, IndexFault};
use invoices::invoice::InvoiceIndex;
use invoices::text::parse_integer;

fn args(list: &[&str]) -> Vec<String> {
    list.iter().map(|arg| arg.to_string()).collect()
}

#[test]
fn year_and_number() {
    assert_eq!(
        parse(args(&["2024", "1"])),
        Ok(InvoiceIndex { year: 2024, index: 1 })
    );
}

#[test]
fn signs_and_zeros_in_front() {
    assert_eq!(
        parse(args(&["+2024", "007"])),
        Ok(InvoiceIndex { year: 2024, index: 7 })
    );
}

#[test]
fn largest_year_and_number() {
    assert_eq!(
        parse(args(&["65535", "255"])),
        Ok(InvoiceIndex { year: 65535, index: 255 })
    );
}

#[test]
fn no_arguments() {
    assert_eq!(
        parse(args(&[])),
        Err(Error::InvalidIndex(IndexFault::MissingYear))
    );
}

#[test]
fn no_number() {
    assert_eq!(
        parse(args(&["2024"])),
        Err(Error::InvalidIndex(IndexFault::MissingIndex))
    );
}

#[test]
fn too_many_arguments() {
    assert_eq!(
        parse(args(&["2024", "1", "2"])),
        Err(Error::InvalidIndex(IndexFault::TooManyArguments))
    );
}

#[test]
fn year_that_is_none() {
    for year in ["", "x", "20x4", "-2024", "65536", " 2024", "2024 ", "+", "2_024"] {
        assert_eq!(
            parse(args(&[year, "1"])),
            Err(Error::InvalidIndex(IndexFault::Year))
        );
    }
}

#[test]
fn number_that_is_none() {
    for number in ["", "one", "256", "-1", "1.0", "0x1"] {
        assert_eq!(
            parse(args(&["2024", number])),
            Err(Error::InvalidIndex(IndexFault::Index))
        );
    }
}

#[test]
fn first_wrong_argument_decides() {
    assert_eq!(
        parse(args(&["x", "y", "z"])),
        Err(Error::InvalidIndex(IndexFault::Year))
    );
    assert_eq!(
        parse(args(&["2024", "y", "z"])),
        Err(Error::InvalidIndex(IndexFault::Index))
    );
    assert_eq!(
        parse(args(&["x"])),
        Err(Error::InvalidIndex(IndexFault::Year))
    );
}

#[test]
fn integers_with_and_without_sign() {
    assert_eq!(parse_integer("0", 0, 255), Some(0));
    assert_eq!(parse_integer("255", 0, 255), Some(255));
    assert_eq!(parse_integer("256", 0, 255), None);
    assert_eq!(parse_integer("-0", 0, 255), None);
    assert_eq!(parse_integer("-0", -1, 255), Some(0));
    assert_eq!(parse_integer("-12345", -0x8000_0000, 0x7fff_ffff), Some(-12345));
    assert_eq!(
        parse_integer("-2147483648", -0x8000_0000, 0x7fff_ffff),
        Some(-2147483648)
    );
    assert_eq!(parse_integer("-2147483649", -0x8000_0000, 0x7fff_ffff), None);
    assert_eq!(
        parse_integer("2147483647", -0x8000_0000, 0x7fff_ffff),
        Some(2147483647)
    );
    assert_eq!(parse_integer("2147483648", -0x8000_0000, 0x7fff_ffff), None);
    assert_eq!(
        parse_integer("99999999999999999999999999", -0x8000_0000, 0x7fff_ffff),
        None
    );
    assert_eq!(
        parse_integer("00000000000000000000000012", 0, 255),
        Some(12)
    );
    assert_eq!(parse_integer("\u{0663}", 0, 255), None);
}

#[test]
fn errors_in_words() {
    assert_eq!(
        Error::InvalidIndex(IndexFault::TooManyArguments).description(),
        "too many arguments"
    );
    assert_eq!(
        Error::InvalidIndex(IndexFault::MissingYear).description(),
        "missing year"
    );
    assert_eq!(
        Error::InvalidIndex(IndexFault::MissingIndex).description(),
        "missing index"
    );
}

#[test]
fn integers_between_any_bounds() {
    assert_eq!(parse_integer("7", 5, 9), Some(7));
    assert_eq!(parse_integer("4", 5, 9), None);
    assert_eq!(parse_integer("-7", -9, -5), Some(-7));
    assert_eq!(parse_integer("-4", -9, -5), None);
    assert_eq!(parse_integer("7", -9, -5), None);
    assert_eq!(parse_integer("7", 9, 5), None);
    assert_eq!(
        parse_integer("9223372036854775807", i64::MIN, i64::MAX),
        Some(i64::MAX)
    );
    assert_eq!(parse_integer("9223372036854775808", i64::MIN, i64::MAX), None);
    assert_eq!(
        parse_integer("-9223372036854775808", i64::MIN, i64::MAX),
        Some(i64::MIN)
    );
    assert_eq!(parse_integer("-9223372036854775809", i64::MIN, i64::MAX), None);
}
