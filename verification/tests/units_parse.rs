use gpx_stats::units::Meters;
use gpx_stats::model::parse_coord;
use gpx_stats::Error;

#[test]
fn meters_whole() {
    assert_eq!(Meters::from_str("10"), Ok(Meters(10000)));
}

#[test]
fn meters_decimal() {
    assert_eq!(Meters::from_str("12.5"), Ok(Meters(12500)));
}

#[test]
fn meters_negative() {
    assert_eq!(Meters::from_str("-3.2"), Ok(Meters(-3200)));
}

#[test]
fn meters_plus_sign() {
    assert_eq!(Meters::from_str("+3.2"), Ok(Meters(3200)));
}

#[test]
fn meters_trailing_dot() {
    assert_eq!(Meters::from_str("1."), Ok(Meters(1000)));
}

#[test]
fn meters_leading_dot() {
    assert_eq!(Meters::from_str(".5"), Ok(Meters(500)));
}

#[test]
fn meters_zero() {
    assert_eq!(Meters::from_str("0"), Ok(Meters(0)));
}

#[test]
fn meters_truncates_extra_digits() {
    // 1.2345 m is 1234.5 mm; the sub-millimeter digit is truncated.
    assert_eq!(Meters::from_str("1.2345"), Ok(Meters(1234)));
}

#[test]
fn meters_feet_suffix() {
    // 405 ft = 405 * 304.8 mm = 123444 mm.
    assert_eq!(Meters::from_str("405 ft"), Ok(Meters(123444)));
}

#[test]
fn meters_feet_suffix_no_space() {
    assert_eq!(Meters::from_str("405ft"), Ok(Meters(123444)));
}

#[test]
fn meters_feet_fractional() {
    // 1.5 ft = 457.2 mm, truncated to whole millimeters.
    assert_eq!(Meters::from_str("1.5ft"), Ok(Meters(457)));
}

#[test]
fn meters_feet_negative() {
    assert_eq!(Meters::from_str("-1 ft"), Ok(Meters(-304)));
}

#[test]
fn meters_rejects_garbage() {
    assert_eq!(Meters::from_str("abc"), Err(Error::InvalidElevation));
}

#[test]
fn meters_rejects_empty() {
    assert_eq!(Meters::from_str(""), Err(Error::InvalidElevation));
}

#[test]
fn meters_rejects_lone_dot() {
    assert_eq!(Meters::from_str("."), Err(Error::InvalidElevation));
}

#[test]
fn meters_rejects_leading_space() {
    // Whitespace is only trimmed inside the `ft` form.
    assert_eq!(Meters::from_str(" 405"), Err(Error::InvalidElevation));
}

#[test]
fn meters_rejects_double_dot() {
    assert_eq!(Meters::from_str("1.2.3"), Err(Error::InvalidElevation));
}

#[test]
fn coord_positive() {
    assert_eq!(parse_coord("47.6062095"), Ok(47_606_209_500));
}

#[test]
fn coord_negative() {
    assert_eq!(parse_coord("-122.3320708"), Ok(-122_332_070_800));
}

#[test]
fn coord_whole_degrees() {
    assert_eq!(parse_coord("12"), Ok(12_000_000_000));
}

#[test]
fn coord_truncates_past_nano() {
    assert_eq!(parse_coord("1.00000000099"), Ok(1_000_000_000));
}

#[test]
fn coord_rejects_garbage() {
    assert_eq!(parse_coord("12a"), Err(Error::InvalidCoordinate));
}

#[test]
fn coord_rejects_empty() {
    assert_eq!(parse_coord(""), Err(Error::InvalidCoordinate));
}
