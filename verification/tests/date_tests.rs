use scoreboard::days_in_month;
use scoreboard::format_date;
use scoreboard::parse_date;
use scoreboard::Date;

#[test]
fn format_pads_to_wire_form() {
    let d = Date { year: 2023, month: 8, day: 5 };
    assert_eq!(format_date(&d), "2023-08-05");
    let early = Date { year: 987, month: 12, day: 31 };
    assert_eq!(format_date(&early), "0987-12-31");
}

#[test]
fn parse_round_trips_formatted_dates() {
    let dates = [
        Date { year: 2023, month: 8, day: 5 },
        Date { year: 2024, month: 2, day: 29 },
        Date { year: 2000, month: 1, day: 1 },
        Date { year: 9999, month: 12, day: 31 },
    ];
    for d in dates {
        let s = format_date(&d);
        assert_eq!(parse_date(&s), Some(d));
    }
}

#[test]
fn parse_accepts_only_valid_dates() {
    assert_eq!(parse_date("2023-08-05"), Some(Date { year: 2023, month: 8, day: 5 }));
    // Not a leap year: February has 28 days.
    assert_eq!(parse_date("2023-02-29"), None);
    // Leap year: the 29th is valid.
    assert_eq!(parse_date("2024-02-29"), Some(Date { year: 2024, month: 2, day: 29 }));
    // Century off the four-century cycle is not a leap year.
    assert_eq!(parse_date("1900-02-29"), None);
    assert_eq!(parse_date("2000-02-29"), Some(Date { year: 2000, month: 2, day: 29 }));
    assert_eq!(parse_date("2023-13-01"), None);
    assert_eq!(parse_date("2023-00-10"), None);
    assert_eq!(parse_date("2023-04-31"), None);
    assert_eq!(parse_date("2023-8-5"), None);
    assert_eq!(parse_date("20230805"), None);
    assert_eq!(parse_date("not-a-date"), None);
    assert_eq!(parse_date(""), None);
}

#[test]
fn month_lengths_match_calendar() {
    assert_eq!(days_in_month(2023, 1), 31);
    assert_eq!(days_in_month(2023, 2), 28);
    assert_eq!(days_in_month(2024, 2), 29);
    assert_eq!(days_in_month(2023, 4), 30);
    assert_eq!(days_in_month(2023, 12), 31);
}
