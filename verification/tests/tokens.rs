use sitegen::day::Day;
use sitegen::hour::{Hour, Hours};
use sitegen::schedule::{DayHours, HappyTimes};

#[test]
fn test_happytimes_dataattr() {
    assert_eq!(
        HappyTimes(vec![DayHours::Single(
            Day::Wed,
            Hours(Hour(1300), Hour(1500))
        )])
        .as_data_attributes(),
        r#"data-daytimes="3-13 3-14 3-all all-13 all-14""#
    );
    assert_eq!(
        HappyTimes(vec![
            DayHours::Single(Day::Wed, Hours(Hour(1300), Hour(1500))),
            DayHours::Range((Day::Wed, Day::Fri), Hours(Hour(1400), Hour(1600))),
        ])
        .as_data_attributes(),
        r#"data-daytimes="3-13 3-14 3-15 4-14 4-15 5-14 5-15 3-all 4-all 5-all all-13 all-14 all-15""#
    );
    assert_eq!(
        HappyTimes(vec![DayHours::Single(
            Day::Mon,
            Hours(Hour(1330), Hour(1530))
        )])
        .as_data_attributes(),
        r#"data-daytimes="1-14 1-15 1-all all-14 all-15""#
    );
    assert_eq!(
        HappyTimes(vec![DayHours::Range(
            (Day::Sat, Day::Sun),
            Hours(Hour(1000), Hour(1200))
        )])
        .as_data_attributes(),
        r#"data-daytimes="0-10 0-11 6-10 6-11 0-all 6-all all-10 all-11""#
    );
}

#[test]
fn test_dayhours_dataattr() {
    assert_eq!(
        DayHours::Single(Day::Wed, Hours(Hour(1300), Hour(1500))).as_data_attributes(),
        r#"data-daytimes="3-13 3-14 3-all all-13 all-14""#
    );
    assert_eq!(
        DayHours::Range((Day::Wed, Day::Fri), Hours(Hour(1300), Hour(1700)))
            .as_data_attributes(),
        r#"data-daytimes="3-13 3-14 3-15 3-16 4-13 4-14 4-15 4-16 5-13 5-14 5-15 5-16 3-all 4-all 5-all all-13 all-14 all-15 all-16""#
    );
}

#[test]
fn test_empty_happytimes_dataattr() {
    assert_eq!(
        HappyTimes(vec![]).as_data_attributes(),
        r#"data-daytimes="""#
    );
}

#[test]
fn test_data_daytimes_no_all_all() {
    let entry = DayHours::Range((Day::Sun, Day::Sat), Hours(Hour(900), Hour(1100)));
    let tuples = entry.as_tuples();
    let tokens = HappyTimes::data_daytimes(&tuples);
    assert!(!tokens.split(' ').any(|t| t == "all-all"));
    assert_eq!(
        tokens.split(' ').filter(|t| *t == "0-all").count(),
        1,
        "one row token per distinct day"
    );
    assert_eq!(
        tokens.split(' ').filter(|t| *t == "all-9").count(),
        1,
        "one column token per distinct hour"
    );
}

#[test]
fn test_as_tuples_order() {
    let entry = DayHours::Range((Day::Wed, Day::Thu), Hours(Hour(1000), Hour(1200)));
    assert_eq!(
        entry.as_tuples(),
        vec![
            (Day::Wed, 10),
            (Day::Wed, 11),
            (Day::Thu, 10),
            (Day::Thu, 11)
        ]
    );
}

#[test]
fn test_as_tuples_empty_span() {
    let entry = DayHours::Single(Day::Mon, Hours(Hour(1200), Hour(1200)));
    assert_eq!(entry.as_tuples(), vec![]);
}

#[test]
fn test_dayhours_display() {
    assert_eq!(
        DayHours::Single(Day::Wed, Hours(Hour(1300), Hour(1500))).display(),
        "Wed 1pm-3pm"
    );
    assert_eq!(
        DayHours::Range((Day::Wed, Day::Fri), Hours(Hour(1400), Hour(1600))).display(),
        "Wed-Fri 2pm-4pm"
    );
}

#[test]
fn test_as_human_readable() {
    let ht = HappyTimes(vec![
        DayHours::Single(Day::Mon, Hours(Hour(1600), Hour(1800))),
        DayHours::Range((Day::Wed, Day::Fri), Hours(Hour(1600), Hour(1800))),
    ]);
    let human = ht.as_human_readable();
    assert_eq!(human.len(), 2);
    assert_eq!(human[0].description, "Mon 4pm-6pm");
    assert_eq!(
        human[0].data_attributes,
        r#"data-daytimes="1-16 1-17 1-all all-16 all-17""#
    );
    assert_eq!(human[1].description, "Wed-Fri 4pm-6pm");
    assert_eq!(
        human[1].data_attributes,
        r#"data-daytimes="3-16 3-17 4-16 4-17 5-16 5-17 3-all 4-all 5-all all-16 all-17""#
    );
}

#[test]
fn test_as_human_readable_text() {
    let ht = HappyTimes(vec![
        DayHours::Single(Day::Mon, Hours(Hour(1600), Hour(1800))),
        DayHours::Single(Day::Tue, Hours(Hour(1600), Hour(2200))),
        DayHours::Range((Day::Wed, Day::Fri), Hours(Hour(1600), Hour(1800))),
    ]);
    assert_eq!(
        ht.as_human_readable_text(),
        "Mon 4pm-6pm, Tue 4pm-10pm, Wed-Fri 4pm-6pm"
    );
    assert_eq!(HappyTimes(vec![]).as_human_readable_text(), "");
}

#[test]
fn test_single_equals_degenerate_range() {
    let hours = Hours(Hour(1300), Hour(1500));
    assert_eq!(
        DayHours::Single(Day::Wed, hours).as_data_attributes(),
        DayHours::Range((Day::Wed, Day::Wed), hours).as_data_attributes()
    );
    assert_eq!(
        DayHours::Single(Day::Wed, hours).as_tuples(),
        DayHours::Range((Day::Wed, Day::Wed), hours).as_tuples()
    );
}

#[test]
fn test_dayhours_dataattr_wrapping_range() {
    // A week-wrapping range expands cyclically (Sat before Sun), but the
    // tokens come in ascending day-ordinal set order.
    assert_eq!(
        DayHours::Range((Day::Sat, Day::Sun), Hours(Hour(1000), Hour(1200)))
            .as_data_attributes(),
        r#"data-daytimes="0-10 0-11 6-10 6-11 0-all 6-all all-10 all-11""#
    );
    let human = HappyTimes(vec![DayHours::Range(
        (Day::Fri, Day::Mon),
        Hours(Hour(1000), Hour(1100)),
    )])
    .as_human_readable();
    assert_eq!(
        human[0].data_attributes,
        r#"data-daytimes="0-10 1-10 5-10 6-10 0-all 1-all 5-all 6-all all-10""#
    );
}
