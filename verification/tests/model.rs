use scma_gcal_sync::date::{Date, Timestamp, MAX_INSTANT_SECS, MIN_INSTANT_SECS, PACIFIC_WEST_SECS};
use scma_gcal_sync::model::{
    format_name_email, format_timestamp, DateSelect, Event, MemberStatus, TripLeaderStatus,
    UnrecognizedStatus, User,
};
use scma_gcal_sync::reconcile::Keyed;
use std::str::FromStr;

fn some_event() -> Event {
    Event {
        id: "527".to_string(),
        title: "a title".to_string(),
        url: "a url".to_string(),
        start_date: Date::from_ymd_opt(2022, 1, 14).unwrap(),
        end_date: Date::from_ymd_opt(2022, 1, 17).unwrap(),
        location: "a location".to_string(),
        description: "a description".to_string(),
        comments: None,
        attendees: None,
        timestamp: None,
    }
}

#[test]
fn member_status_names() {
    let all = [
        (MemberStatus::Applicant, "Applicant"),
        (MemberStatus::Student, "Student"),
        (MemberStatus::AM, "AM"),
        (MemberStatus::HM, "HM"),
        (MemberStatus::RM, "RM"),
    ];
    for (status, name) in all {
        assert_eq!(status.to_string(), name);
        assert_eq!(MemberStatus::parse(name), Ok(status));
        assert_eq!(MemberStatus::from_str(name), Ok(status));
        assert_eq!(name.parse::<MemberStatus>(), Ok(status));
    }
    assert_eq!(MemberStatus::default(), MemberStatus::Applicant);
    assert_eq!(
        MemberStatus::parse("applicant"),
        Err(UnrecognizedStatus { text: "applicant".to_string() })
    );
    assert_eq!(MemberStatus::parse(""), Err(UnrecognizedStatus { text: "".to_string() }));
    assert!(MemberStatus::Applicant < MemberStatus::RM);
}

#[test]
fn trip_leader_status_names() {
    let all = [(TripLeaderStatus::G, "G"), (TripLeaderStatus::S1, "S1"), (TripLeaderStatus::S2, "S2")];
    for (status, name) in all {
        assert_eq!(status.to_string(), name);
        assert_eq!(TripLeaderStatus::parse(name), Ok(status));
        assert_eq!(TripLeaderStatus::from_str(name), Ok(status));
    }
    assert_eq!(TripLeaderStatus::default(), TripLeaderStatus::G);
    assert_eq!(TripLeaderStatus::parse("S3"), Err(UnrecognizedStatus { text: "S3".to_string() }));
}

#[test]
fn user_texts() {
    let user = User {
        name: "Ann".to_string(),
        email: "ann@example.com".to_string(),
        address: "1 Main St".to_string(),
        city: "Town".to_string(),
        state: "CA".to_string(),
        zipcode: "90000".to_string(),
        ..Default::default()
    };
    assert_eq!(user.name_email(), "Ann <ann@example.com>");
    assert_eq!(user.address(), "1 Main St, Town, CA 90000");
    assert_eq!(user.timestamp(), "");
    assert_eq!(user.key(), Some("ann@example.com".to_string()));
    assert_eq!(User::default().address(), ", ,  ");
    assert_eq!(format_name_email("", ""), " <>");
}

#[test]
fn default_user_is_empty() {
    let user = User::default();
    assert_eq!(user.id, "");
    assert_eq!(user.name, "");
    assert_eq!(user.member_status, MemberStatus::Applicant);
    assert_eq!(user.trip_leader_status, None);
    assert_eq!(user.position, None);
    assert_eq!(user.phone, None);
    assert_eq!(user.email, "");
    assert!(!user.caneval && !user.optedout && !user.block);
    assert_eq!(user.timestamp, None);
}

#[test]
fn timestamps_are_written_in_pacific_standard_time() {
    let mut user = User::default();
    user.timestamp = Timestamp::new(0, 0);
    assert_eq!(user.timestamp(), "1969-12-31T16:00:00-08:00");
    let mut event = some_event();
    assert_eq!(event.timestamp(), "");
    event.timestamp = Timestamp::new(1_642_177_800, 999_999_999);
    assert_eq!(event.timestamp(), "2022-01-14T08:30:00-08:00");
    assert_eq!(format_timestamp(&None), "");
    assert_eq!(PACIFIC_WEST_SECS, 8 * 60 * 60);
    let before = Timestamp::new(-62_167_219_200, 0).unwrap();
    assert_eq!(before.to_pacific_rfc3339(), "-0001-12-31T16:00:00-08:00");
    let last = Timestamp::new(253_402_300_799, 0).unwrap();
    assert_eq!(last.to_pacific_rfc3339(), "9999-12-31T15:59:59-08:00");
    let after = Timestamp::new(253_402_329_600, 0).unwrap();
    assert_eq!(after.to_pacific_rfc3339(), "+10000-01-01T00:00:00-08:00");
    let min = Timestamp::new(MIN_INSTANT_SECS, 0).unwrap();
    assert_eq!(min.to_pacific_rfc3339(), "-257878-05-06T06:13:20-08:00");
    let max = Timestamp::new(MAX_INSTANT_SECS, 999_999_999).unwrap();
    assert_eq!(max.to_pacific_rfc3339(), "+261817-08-28T01:46:40-08:00");
}

#[test]
fn timestamps_lie_between_the_first_and_the_last_second() {
    assert!(Timestamp::new(MIN_INSTANT_SECS, 0).is_some());
    assert!(Timestamp::new(MIN_INSTANT_SECS - 1, 0).is_none());
    assert!(Timestamp::new(MAX_INSTANT_SECS, 999_999_999).is_some());
    assert!(Timestamp::new(MAX_INSTANT_SECS + 1, 0).is_none());
    assert!(Timestamp::new(0, 1_000_000_000).is_none());
    assert!(Timestamp::new(i64::MIN, 0).is_none());
    assert!(Timestamp::new(i64::MAX, 0).is_none());
    let t = Timestamp::new(5, 7).unwrap();
    assert_eq!((t.secs(), t.nanos()), (5, 7));
    assert_eq!((MIN_INSTANT_SECS, MAX_INSTANT_SECS), (-8_200_000_000_000, 8_200_000_000_000));
    assert!(chrono::DateTime::from_timestamp(MIN_INSTANT_SECS - 86_400, 0).is_some());
    assert!(chrono::DateTime::from_timestamp(MAX_INSTANT_SECS + 86_400, 0).is_some());
}

#[test]
fn leap_second_is_the_last_second_of_a_minute() {
    let leap = Timestamp::new(59, 1_500_000_000).unwrap();
    assert_eq!((leap.secs(), leap.nanos()), (59, 1_500_000_000));
    assert_eq!(leap.to_pacific_rfc3339(), "1969-12-31T16:00:60-08:00");
    assert!(Timestamp::new(-1, 1_000_000_000).is_some());
    assert!(Timestamp::new(-61, 1_999_999_999).is_some());
    assert!(Timestamp::new(58, 1_000_000_000).is_none());
    assert!(Timestamp::new(-2, 1_000_000_000).is_none());
    assert!(Timestamp::new(59, 2_000_000_000).is_none());
    assert!(Timestamp::new(59, u32::MAX).is_none());
    for secs in [-8_200_000_000_000i64, -61, -60, -1, 0, 59, 60, 119, 1_483_228_799, 8_200_000_000_000] {
        assert_eq!(
            Timestamp::new(secs, 1_000_000_000).is_some(),
            chrono::DateTime::from_timestamp(secs, 1_000_000_000).is_some()
        );
    }
    let t = Timestamp::parse("2016-12-31T23:59:60Z").unwrap();
    assert_eq!((t.secs(), t.nanos()), (1_483_228_799, 1_000_000_000));
    assert_eq!(t.to_local_text(), {
        let at = chrono::DateTime::from_timestamp(1_483_228_799, 1_000_000_000).unwrap();
        at.with_timezone(&chrono::Local).to_string()
    });
}

#[test]
fn timestamps_are_read_from_text() {
    let t = Timestamp::parse("2022-01-14T08:30:00-08:00").unwrap();
    assert_eq!((t.secs(), t.nanos()), (1_642_177_800, 0));
    let t = Timestamp::parse("1970-01-01T00:00:01.5+00:00").unwrap();
    assert_eq!((t.secs(), t.nanos()), (1, 500_000_000));
    assert_eq!(Timestamp::parse("yesterday"), None);
    assert_eq!(Timestamp::parse(""), None);
    let t = Timestamp::parse("+12000-01-01T00:00:00+00:00").unwrap();
    assert_eq!((t.secs(), t.nanos()), (316_516_204_800, 0));
    let t = Timestamp::parse("-0001-12-31T23:59:59+00:00").unwrap();
    assert_eq!((t.secs(), t.nanos()), (-62_167_219_201, 0));
    assert_eq!(Timestamp::parse("+262000-01-01T00:00:00+00:00"), None);
}

#[test]
fn local_text_is_that_of_chrono() {
    let t = Timestamp::new(1_642_177_800, 0).unwrap();
    let expected = chrono::DateTime::from_timestamp(1_642_177_800, 0)
        .unwrap()
        .with_timezone(&chrono::Local)
        .to_string();
    assert_eq!(t.to_local_text(), expected);
    assert!(expected.starts_with("2022-01-1"));
    for (secs, nanos) in [
        (0, 0),
        (1_700_000_000, 123_456_789),
        (253_402_329_600, 0),
        (MIN_INSTANT_SECS, 0),
        (MAX_INSTANT_SECS, 999_999_999),
    ] {
        let expected = chrono::DateTime::from_timestamp(secs, nanos)
            .unwrap()
            .with_timezone(&chrono::Local)
            .to_string();
        assert_eq!(Timestamp::new(secs, nanos).unwrap().to_local_text(), expected);
    }
}

#[test]
fn event_in_a_line() {
    let event = some_event();
    assert_eq!(event.to_string(), "a title (2022-01-14/2022-01-17)");
    assert_eq!(event.key(), Some("527".to_string()));
}

#[test]
fn date_select_has_two_choices() {
    assert_ne!(DateSelect::All, DateSelect::NotPast);
    let copy = DateSelect::All;
    assert_eq!(copy, DateSelect::All);
}
