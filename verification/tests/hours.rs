use sitegen::hour::{make_hour, Hour, Hours, ValidationError};

#[test]
fn test_hours_display() {
    assert_eq!("9:30am-2pm", Hours(Hour(930), Hour(1400)).display());
    assert_eq!("11pm-1am", Hours(Hour(2300), Hour(2500)).display());
}

#[test]
fn test_hours_deserialize() {
    assert_eq!(make_hour(2400), Ok(Hour(2400)));
    assert_eq!(make_hour(2500), Ok(Hour(2500)));
    assert_eq!(make_hour(2100), Ok(Hour(2100)));
    assert_eq!(make_hour(2300), Ok(Hour(2300)));
    assert_eq!(make_hour(1300), Ok(Hour(1300)));
    assert!(make_hour(2900).is_err());
    assert!(make_hour(2399).is_err());
    assert!(make_hour(9900).is_err());
}

#[test]
fn test_make_hour_bounds() {
    assert_eq!(make_hour(0), Ok(Hour(0)));
    assert_eq!(make_hour(2359), Ok(Hour(2359)));
    assert_eq!(make_hour(2559), Ok(Hour(2559)));
    assert_eq!(make_hour(2510), Ok(Hour(2510)));
    assert_eq!(make_hour(2560), Err(ValidationError::InvalidHour));
    assert_eq!(make_hour(1060), Err(ValidationError::InvalidHour));
    assert_eq!(make_hour(2600), Err(ValidationError::InvalidHour));
    assert_eq!(make_hour(u16::MAX), Err(ValidationError::InvalidHour));
}

#[test]
fn test_hour_display_edges() {
    assert_eq!(Hour(0).display(), "12am");
    assert_eq!(Hour(5).display(), "12:05am");
    assert_eq!(Hour(930).display(), "9:30am");
    assert_eq!(Hour(1100).display(), "11am");
    assert_eq!(Hour(1200).display(), "12pm");
    assert_eq!(Hour(1205).display(), "12:05pm");
    assert_eq!(Hour(1300).display(), "1pm");
    assert_eq!(Hour(2300).display(), "11pm");
    assert_eq!(Hour(2400).display(), "12am");
    assert_eq!(Hour(2459).display(), "12:59am");
    assert_eq!(Hour(2500).display(), "1am");
}

#[test]
fn test_hour_wraparound() {
    assert_eq!(Hour(2400).wraparound(), Hour(0));
    assert_eq!(Hour(2500).wraparound(), Hour(100));
    assert_eq!(Hour(2359).wraparound(), Hour(2359));
    assert_eq!(Hour(1300).wraparound(), Hour(1300));
    assert_eq!(Hour(2501).wraparound(), Hour(2501));
}

#[test]
fn test_hour_parts() {
    assert_eq!(Hour(1630).hours(), 16);
    assert_eq!(Hour(1630).minutes(), 30);
    assert_eq!(Hour(2500).hours(), 25);
    assert_eq!(Hour(2500).minutes(), 0);
}

#[test]
fn test_bucket_rounding() {
    let r = Hours(Hour(1600), Hour(1800)).as_range();
    assert_eq!((r.start, r.end), (16, 18));
    let r = Hours(Hour(1630), Hour(1800)).as_range();
    assert_eq!((r.start, r.end), (17, 18));
    let r = Hours(Hour(1630), Hour(1815)).as_range();
    assert_eq!((r.start, r.end), (17, 19));
    let r = Hours(Hour(2300), Hour(2500)).as_range();
    assert_eq!((r.start, r.end), (23, 25));
}
