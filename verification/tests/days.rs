use sitegen::day::{iter_days, Day};

#[test]
fn test_dayrange() {
    assert_eq!(
        iter_days((Day::Mon, Day::Thu)),
        vec![Day::Mon, Day::Tue, Day::Wed, Day::Thu]
    );
    assert_eq!(iter_days((Day::Sat, Day::Sun)), vec![Day::Sat, Day::Sun]);
    assert_eq!(
        iter_days((Day::Fri, Day::Sun)),
        vec![Day::Fri, Day::Sat, Day::Sun]
    );
    assert_eq!(iter_days((Day::Mon, Day::Mon)), vec![Day::Mon]);
}

#[test]
fn test_dayrange_full_week() {
    assert_eq!(
        iter_days((Day::Mon, Day::Sun)),
        vec![
            Day::Mon,
            Day::Tue,
            Day::Wed,
            Day::Thu,
            Day::Fri,
            Day::Sat,
            Day::Sun
        ]
    );
}

#[test]
fn test_dayrange_restartable() {
    assert_eq!(iter_days((Day::Wed, Day::Tue)), iter_days((Day::Wed, Day::Tue)));
    assert_eq!(iter_days((Day::Wed, Day::Tue)).len(), 7);
}

#[test]
fn test_day_iter_and_names() {
    let days = Day::iter();
    assert_eq!(
        days,
        vec![
            Day::Sun,
            Day::Mon,
            Day::Tue,
            Day::Wed,
            Day::Thu,
            Day::Fri,
            Day::Sat
        ]
    );
    let names: Vec<&str> = days.iter().map(|d| d.name()).collect();
    assert_eq!(names, vec!["Sun", "Mon", "Tue", "Wed", "Thu", "Fri", "Sat"]);
    assert_eq!(Day::Sun.ord(), 0);
    assert_eq!(Day::Wed.ord(), 3);
    assert_eq!(Day::Sat.ord(), 6);
}
