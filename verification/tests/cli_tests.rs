use ambermap::cli::{dimension_from_lowercase, format_number, parse_dimension};
use ambermap::leveldb::keys::Dimension;

#[test]
fn test_format_number() {
    assert_eq!(format_number(0), "0");
    assert_eq!(format_number(7), "7");
    assert_eq!(format_number(999), "999");
    assert_eq!(format_number(1000), "1,000");
    assert_eq!(format_number(65536), "65,536");
    assert_eq!(format_number(1234567), "1,234,567");
    assert_eq!(format_number(100000000), "100,000,000");
}

#[test]
fn test_parse_dimension() {
    assert_eq!(parse_dimension("nether"), Dimension::Nether);
    assert_eq!(parse_dimension("NETHER"), Dimension::Nether);
    assert_eq!(parse_dimension("the_end"), Dimension::TheEnd);
    assert_eq!(parse_dimension("End"), Dimension::TheEnd);
    assert_eq!(parse_dimension("overworld"), Dimension::Overworld);
    assert_eq!(parse_dimension("mars"), Dimension::Overworld);
    assert_eq!(dimension_from_lowercase("End"), Dimension::Overworld);
}
