use sitegen::day::Day;
use sitegen::hour::{Hour, Hours};
use sitegen::restaurants::{
    day_options, dayhours_grid, hour_options, Date, Kind, Restaurant, Restaurants,
};
use sitegen::schedule::{DayHours, HappyTimes};

fn listing(name: &str, kind: Kind) -> Restaurant {
    Restaurant {
        name: name.to_string(),
        url: String::new(),
        map_id: String::new(),
        instagram_id: String::new(),
        verified: Date {
            year: 2025,
            month: 7,
            day: 28,
        },
        kind,
    }
}

fn happy(name: &str, entries: Vec<DayHours>) -> Restaurant {
    listing(
        name,
        Kind::HappyHour {
            description: vec![],
            menu_url: None,
            happytimes: HappyTimes(entries),
        },
    )
}

#[test]
fn test_partition_keeps_order() {
    let rs = Restaurants(vec![
        listing("a", Kind::Byob),
        happy("b", vec![]),
        listing("c", Kind::Closed),
        happy("d", vec![]),
        listing("e", Kind::Other),
        listing("f", Kind::Byob),
    ]);
    let (happy_hour, byob, other, closed) = rs.partition();
    let names = |v: &[Restaurant]| v.iter().map(|r| r.name.clone()).collect::<Vec<_>>();
    assert_eq!(names(&happy_hour), vec!["b", "d"]);
    assert_eq!(names(&byob), vec!["a", "f"]);
    assert_eq!(names(&other), vec!["e"]);
    assert_eq!(names(&closed), vec!["c"]);
}

#[test]
fn test_hour_bounds() {
    let rs = Restaurants(vec![
        happy(
            "a",
            vec![
                DayHours::Single(Day::Mon, Hours(Hour(1600), Hour(1800))),
                DayHours::Single(Day::Tue, Hours(Hour(1100), Hour(2200))),
            ],
        ),
        listing("b", Kind::Byob),
        happy(
            "c",
            vec![DayHours::Range(
                (Day::Wed, Day::Fri),
                Hours(Hour(1400), Hour(2330)),
            )],
        ),
    ]);
    let (min_hour, max_hour) = rs.hour_bounds();
    assert_eq!(min_hour, Hour(1100));
    assert_eq!(max_hour, Hour(2330));
    let range = rs.hour_options_range();
    assert_eq!((range.start, range.end), (11, 24));
}

#[test]
fn test_hour_bounds_empty() {
    let rs = Restaurants(vec![listing("a", Kind::Closed)]);
    let range = rs.hour_options_range();
    assert!(range.is_empty());
}

#[test]
fn test_hour_options_labels() {
    let opts = hour_options(10, 14);
    let labels: Vec<(u16, &str)> = opts.iter().map(|(h, s)| (*h, s.as_str())).collect();
    assert_eq!(
        labels,
        vec![(10, "10am"), (11, "11am"), (12, "12pm"), (13, "1pm")]
    );
    let late = hour_options(23, 26);
    let labels: Vec<(u16, &str)> = late.iter().map(|(h, s)| (*h, s.as_str())).collect();
    assert_eq!(labels, vec![(23, "11pm"), (24, "12pm"), (25, "1am")]);
}

#[test]
fn test_day_options() {
    let opts = day_options();
    let expected = vec![
        (0, "Sun"),
        (1, "Mon"),
        (2, "Tue"),
        (3, "Wed"),
        (4, "Thu"),
        (5, "Fri"),
        (6, "Sat"),
    ];
    let got: Vec<(u8, &str)> = opts.iter().map(|(o, s)| (*o, s.as_str())).collect();
    assert_eq!(got, expected);
}

#[test]
fn test_dayhours_grid() {
    let grid = dayhours_grid(10, 12);
    let expected = vec![
        "0-10", "0-11", "0-all", "1-10", "1-11", "1-all", "2-10", "2-11", "2-all", "3-10",
        "3-11", "3-all", "4-10", "4-11", "4-all", "5-10", "5-11", "5-all", "6-10", "6-11",
        "6-all", "all-10", "all-11",
    ];
    assert_eq!(grid, expected);
    assert!(!grid.iter().any(|t| t == "all-all"));
}

#[test]
fn test_dayhours_grid_empty_span() {
    let grid = dayhours_grid(12, 12);
    assert_eq!(
        grid,
        vec!["0-all", "1-all", "2-all", "3-all", "4-all", "5-all", "6-all"]
    );
}
