use chrono::Datelike;
use scma_gcal_sync::date::{Date, Timestamp, MAX_YEAR, MIN_YEAR};
use scma_gcal_sync::executor::Planned;
use scma_gcal_sync::model::{Attendee, Comment, Event};
use scma_gcal_sync::output::gcal::{
    event_description, event_description_with, event_end, event_id, event_start, event_summary,
    AclCall, AclRule, AclRuleScope, AclSyncOp, Calendar, CalendarChoice, CalendarError,
    CalendarEvent, CalendarListEntry, EventDateTime, EventError, GCal, SendNotifications, Upsert,
    WriteError, WriteReply, CALENDAR_DESCRIPTION,
};
use scma_gcal_sync::text::{format_decimal, format_zero_padded, parse_u32, ParseNumberError};

fn day(year: i32, month: u32, day: u32) -> Date {
    Date::from_ymd_opt(year, month, day).unwrap()
}

fn event(id: &str, start: Date, end: Date) -> Event {
    Event {
        id: id.to_string(),
        title: "a title".to_string(),
        url: "a url".to_string(),
        start_date: start,
        end_date: end,
        location: "a location".to_string(),
        description: "a description".to_string(),
        comments: None,
        attendees: None,
        timestamp: None,
    }
}

fn gcal(dry_run: bool, notify: bool) -> GCal {
    GCal::new("cal".to_string(), dry_run, notify)
}

fn user_rule(role: &str, email: &str) -> AclRule {
    AclRule {
        id: None,
        role: Some(role.to_string()),
        scope: Some(AclRuleScope { type_: Some("user".to_string()), value: Some(email.to_string()) }),
    }
}

#[test]
fn event_id_is_zero_padded_to_five_digits() {
    let first = day(2024, 1, 1);
    assert_eq!(event_id(&event("1", first, first)), Ok("00001".to_string()));
    assert_eq!(event_id(&event("527", first, first)), Ok("00527".to_string()));
    assert_eq!(event_id(&event("12345", first, first)), Ok("12345".to_string()));
    assert_eq!(event_id(&event("123456", first, first)), Ok("123456".to_string()));
    assert_eq!(event_id(&event("+7", first, first)), Ok("00007".to_string()));
    assert_eq!(event_id(&event("0", first, first)), Ok("00000".to_string()));
    assert_eq!(event_id(&event("4294967295", first, first)), Ok("4294967295".to_string()));
}

#[test]
fn event_id_that_is_no_number_is_an_error() {
    let first = day(2024, 1, 1);
    assert_eq!(event_id(&event("", first, first)), Err(ParseNumberError::Empty));
    assert_eq!(event_id(&event("12a", first, first)), Err(ParseNumberError::InvalidDigit));
    assert_eq!(event_id(&event("-1", first, first)), Err(ParseNumberError::InvalidDigit));
    assert_eq!(event_id(&event("+", first, first)), Err(ParseNumberError::InvalidDigit));
    assert_eq!(event_id(&event(" 1", first, first)), Err(ParseNumberError::InvalidDigit));
    assert_eq!(event_id(&event("4294967296", first, first)), Err(ParseNumberError::Overflow));
}

#[test]
fn parse_u32_reads_what_the_standard_library_reads() {
    let inputs = [
        "0", "1", "007", "+5", "+0", "42", "4294967295", "4294967296", "99999999999", "", "+", "-",
        "-0", "1 ", " 1", "1_000", "12a", "a", "++1", "0x10", "\u{0661}",
    ];
    for input in inputs {
        assert_eq!(parse_u32(input).ok(), input.parse::<u32>().ok(), "input {input:?}");
    }
}

#[test]
fn decimal_formatting_is_that_of_the_standard_library() {
    for n in [0u32, 1, 9, 10, 99, 100, 12345, 99999, 100000, 4294967295] {
        assert_eq!(format_decimal(n), format!("{n}"));
        assert_eq!(format_zero_padded(n, 5), format!("{n:05}"));
        assert_eq!(format_zero_padded(n, 2), format!("{n:02}"));
        assert_eq!(format_zero_padded(n, 12), format!("{n:012}"));
    }
}

#[test]
fn event_summary_names_the_club() {
    let first = day(2024, 1, 1);
    assert_eq!(event_summary(&event("1", first, first)), "SCMA: a title");
}

#[test]
fn event_of_one_day_ends_on_that_day() {
    let first = day(2024, 1, 1);
    let e = event("1", first, first);
    assert_eq!(event_start(&e), EventDateTime { date: Some(first) });
    assert_eq!(event_end(&e), Ok(EventDateTime { date: Some(day(2024, 1, 1)) }));
}

#[test]
fn event_of_several_days_ends_on_the_day_after() {
    let e = event("1", day(2024, 1, 1), day(2024, 1, 3));
    assert_eq!(event_end(&e), Ok(EventDateTime { date: Some(day(2024, 1, 4)) }));
    let e = event("1", day(2024, 2, 27), day(2024, 2, 28));
    assert_eq!(event_end(&e), Ok(EventDateTime { date: Some(day(2024, 2, 29)) }));
    let e = event("1", day(2023, 2, 27), day(2023, 2, 28));
    assert_eq!(event_end(&e), Ok(EventDateTime { date: Some(day(2023, 3, 1)) }));
    let e = event("1", day(2023, 12, 30), day(2023, 12, 31));
    assert_eq!(event_end(&e), Ok(EventDateTime { date: Some(day(2024, 1, 1)) }));
    let e = event("1", day(2024, 4, 29), day(2024, 4, 30));
    assert_eq!(event_end(&e), Ok(EventDateTime { date: Some(day(2024, 5, 1)) }));
}

#[test]
fn event_that_ends_on_the_last_day_has_no_end() {
    let last = day(MAX_YEAR, 12, 31);
    assert_eq!(event_end(&event("1", day(2024, 1, 1), last)), Err(EventError::EndOutOfRange));
    assert_eq!(event_end(&event("1", last, last)), Ok(EventDateTime { date: Some(last) }));
    assert_eq!(
        CalendarEvent::try_from(&event("1", day(2024, 1, 1), last)),
        Err(EventError::EndOutOfRange)
    );
    assert_eq!(
        CalendarEvent::try_from(&event("x", day(2024, 1, 1), last)),
        Err(EventError::Id(ParseNumberError::InvalidDigit))
    );
}

#[test]
fn next_day_is_that_of_chrono() {
    let mut date = chrono::NaiveDate::from_ymd_opt(1895, 12, 25).unwrap();
    for _ in 0..80000 {
        let own = day(date.year(), date.month(), date.day());
        let next = date.succ_opt().unwrap();
        let got = own.succ_opt().unwrap();
        assert_eq!((got.year(), got.month(), got.day()), (next.year(), next.month(), next.day()));
        date = next;
    }
    assert_eq!(day(MAX_YEAR, 12, 31).succ_opt(), None);
    assert_eq!(day(MIN_YEAR, 1, 1).succ_opt(), Some(day(MIN_YEAR, 1, 2)));
    assert_eq!(day(-1, 12, 31).succ_opt(), Some(day(0, 1, 1)));
}

#[test]
fn dates_are_those_of_chrono() {
    for year in [MIN_YEAR - 1, MIN_YEAR, -400, -1, 0, 1900, 2000, 2023, 2024, 2100, MAX_YEAR, MAX_YEAR + 1] {
        for month in 0..14u32 {
            for d in 0..33u32 {
                let own = Date::from_ymd_opt(year, month, d);
                let theirs = chrono::NaiveDate::from_ymd_opt(year, month, d);
                assert_eq!(own.is_some(), theirs.is_some(), "{year}-{month}-{d}");
                if let (Some(own), Some(theirs)) = (own, theirs) {
                    assert_eq!(own.to_string(), theirs.to_string());
                    assert_eq!((own.year(), own.month(), own.day()), (year, month, d));
                }
            }
        }
    }
    assert_eq!(day(2022, 1, 14).to_string(), "2022-01-14");
    assert_eq!(day(12345, 6, 7).to_string(), "+12345-06-07");
    assert_eq!(day(-5, 6, 7).to_string(), "-0005-06-07");
}

#[test]
fn dates_compare_by_year_month_and_day() {
    assert!(day(2023, 12, 31).is_before(&day(2024, 1, 1)));
    assert!(day(2024, 1, 31).is_before(&day(2024, 2, 1)));
    assert!(day(2024, 2, 1).is_before(&day(2024, 2, 2)));
    assert!(!day(2024, 2, 2).is_before(&day(2024, 2, 2)));
    assert!(!day(2024, 2, 3).is_before(&day(2024, 2, 2)));
    assert!(day(2024, 2, 2).same_day(&day(2024, 2, 2)));
    assert!(!day(2024, 2, 2).same_day(&day(2024, 3, 2)));
}

#[test]
fn description_without_details() {
    let first = day(2024, 1, 1);
    let e = event("1", first, first);
    let expected = "a url<h3>Description</h3>a description<h3>Attendees</h3>None<h3>Comments</h3>None";
    assert_eq!(event_description_with(&e, &Vec::new()), expected);
    assert_eq!(event_description(&e), expected);
}

#[test]
fn description_with_attendees_comments_and_timestamp() {
    let first = day(2024, 1, 1);
    let mut e = event("1", first, first);
    e.attendees = Some(vec![
        Attendee { name: "Ann".to_string(), count: 2, comment: "bringing rope".to_string() },
        Attendee { name: "Bob".to_string(), count: 255, comment: "".to_string() },
    ]);
    e.comments = Some(vec![Comment {
        author: "Cat".to_string(),
        date: Timestamp::new(0, 0).unwrap(),
        text: "see you".to_string(),
    }]);
    e.timestamp = Timestamp::new(1_642_177_800, 0);
    let dates = vec!["a date".to_string()];
    let expected = "a url<h3>Description</h3>a description<h3>Attendees</h3><ol>\
<li>Ann (2) bringing rope</li><li>Bob (255) </li></ol><h3>Comments</h3><ul>\
<li>Cat (a date) see you</li></ul>\n\nLast synced at 2022-01-14T08:30:00-08:00 by \
<a href='https://github.com/rfdonnelly/scma-gsync'>scma-gsync</a>.";
    assert_eq!(event_description_with(&e, &dates), expected);
    let local = Timestamp::new(0, 0).unwrap().to_local_text();
    assert_eq!(event_description(&e), expected.replace("a date", &local));
}

#[test]
fn description_with_empty_lists() {
    let first = day(2024, 1, 1);
    let mut e = event("1", first, first);
    e.attendees = Some(Vec::new());
    e.comments = Some(Vec::new());
    assert_eq!(
        event_description_with(&e, &Vec::new()),
        "a url<h3>Description</h3>a description<h3>Attendees</h3><ol></ol><h3>Comments</h3><ul></ul>"
    );
}

#[test]
fn calendar_event_of_an_event() {
    let e = event("527", day(2022, 1, 14), day(2022, 1, 17));
    let g = CalendarEvent::try_from(&e).unwrap();
    assert_eq!(g.id, Some("00527".to_string()));
    assert_eq!(g.summary, Some("SCMA: a title".to_string()));
    assert_eq!(g.start, Some(EventDateTime { date: Some(day(2022, 1, 14)) }));
    assert_eq!(g.end, Some(EventDateTime { date: Some(day(2022, 1, 18)) }));
    assert_eq!(g.description, Some(event_description(&e)));
    assert_eq!(g.location, Some("a location".to_string()));
    assert_eq!(g.html_link, None);
}

#[test]
fn scenario_one_insert_of_a_single_day_event() {
    let sync = gcal(false, false);
    let e = event("1", day(2024, 1, 1), day(2024, 1, 1));
    let first = sync.events_patch_or_insert(&e).unwrap();
    let Upsert::Patch { calendar_id, event_id, event: g } = first.clone() else {
        panic!("an update comes first");
    };
    assert_eq!(calendar_id, "cal");
    assert_eq!(event_id, "00001");
    assert_eq!(g.end, Some(EventDateTime { date: Some(day(2024, 1, 1)) }));
    let second = first.on_reply(WriteReply::NotFound);
    let Upsert::Insert { calendar_id, event: g } = second.clone() else {
        panic!("an insert follows an update that finds nothing");
    };
    assert_eq!(calendar_id, "cal");
    assert_eq!(g.end, Some(EventDateTime { date: Some(day(2024, 1, 1)) }));
    let done = second.on_reply(WriteReply::Written { link: Some("link".to_string()) });
    assert_eq!(done, Upsert::Inserted { link: Some("link".to_string()) });
    assert!(!done.pending());
    assert_eq!(done.outcome(), Some(Ok(())));
}

#[test]
fn upsert_updates_where_the_event_exists() {
    let sync = gcal(false, false);
    let e = event("1", day(2024, 1, 1), day(2024, 1, 3));
    let first = sync.events_patch_or_insert(&e).unwrap();
    assert!(first.pending());
    assert_eq!(first.clone().outcome(), None);
    let done = first.on_reply(WriteReply::Written { link: None });
    assert_eq!(done, Upsert::Updated { link: None });
    assert_eq!(done.clone().on_reply(WriteReply::NotFound), done);
    assert_eq!(done.outcome(), Some(Ok(())));
}

#[test]
fn upsert_fails_on_other_failures() {
    let sync = gcal(false, false);
    let e = event("1", day(2024, 1, 1), day(2024, 1, 3));
    let failed = sync
        .events_patch_or_insert(&e)
        .unwrap()
        .on_reply(WriteReply::Failed { message: "rate limit".to_string() });
    let error = WriteError::Remote { message: "rate limit".to_string() };
    assert_eq!(failed, Upsert::Failed { error: error.clone() });
    assert_eq!(failed.outcome(), Some(Err(error)));
    let failed = sync
        .events_patch_or_insert(&e)
        .unwrap()
        .on_reply(WriteReply::NotFound)
        .on_reply(WriteReply::NotFound);
    assert_eq!(failed, Upsert::Failed { error: WriteError::NotFound });
    let failed = sync
        .events_patch_or_insert(&e)
        .unwrap()
        .on_reply(WriteReply::NotFound)
        .on_reply(WriteReply::Failed { message: "no".to_string() });
    assert_eq!(failed, Upsert::Failed { error: WriteError::Remote { message: "no".to_string() } });
}

#[test]
fn dry_run_builds_the_event_and_sends_nothing() {
    let sync = gcal(true, false);
    let e = event("1", day(2024, 1, 1), day(2024, 1, 3));
    let first = sync.events_patch_or_insert(&e).unwrap();
    assert_eq!(first, Upsert::Skipped { event: CalendarEvent::try_from(&e).unwrap() });
    assert!(!first.pending());
    assert_eq!(first.outcome(), Some(Ok(())));
    assert_eq!(
        sync.events_patch_or_insert(&event("x", day(2024, 1, 1), day(2024, 1, 3))),
        Err(EventError::Id(ParseNumberError::InvalidDigit))
    );
}

#[test]
fn write_starts_an_upsert_for_each_event() {
    let sync = gcal(false, false);
    let events = vec![
        event("1", day(2024, 1, 1), day(2024, 1, 1)),
        event("bad", day(2024, 1, 1), day(2024, 1, 1)),
        event("3", day(2024, 1, 1), day(2024, 1, 2)),
    ];
    let started = sync.write(&events);
    assert_eq!(started.len(), 3);
    assert!(matches!(&started[0], Ok(Upsert::Patch { event_id, .. }) if event_id == "00001"));
    assert_eq!(started[1], Err(EventError::Id(ParseNumberError::InvalidDigit)));
    assert!(matches!(&started[2], Ok(Upsert::Patch { event_id, .. }) if event_id == "00003"));
    assert!(gcal(true, false).write(&events).iter().all(|s| !matches!(s, Ok(Upsert::Patch { .. }))));
}

#[test]
fn calendar_is_found_by_name() {
    let calendars = vec![
        CalendarListEntry { id: Some("0".to_string()), summary: None },
        CalendarListEntry { id: Some("1".to_string()), summary: Some("Other".to_string()) },
        CalendarListEntry { id: Some("2".to_string()), summary: Some("SCMA".to_string()) },
        CalendarListEntry { id: Some("3".to_string()), summary: Some("SCMA".to_string()) },
    ];
    assert_eq!(
        GCal::calendars_get_or_insert_by_name(&calendars, "SCMA", false),
        Ok(CalendarChoice::Found("2".to_string()))
    );
    assert_eq!(
        GCal::calendars_get_or_insert_by_name(&calendars, "SCMA", true),
        Ok(CalendarChoice::Found("2".to_string()))
    );
}

#[test]
fn calendar_that_is_absent_is_created_unless_on_a_dry_run() {
    let calendars = vec![CalendarListEntry { id: Some("1".to_string()), summary: Some("Other".to_string()) }];
    assert_eq!(
        GCal::calendars_get_or_insert_by_name(&calendars, "SCMA", false),
        Ok(CalendarChoice::Insert(Calendar {
            summary: Some("SCMA".to_string()),
            description: Some(CALENDAR_DESCRIPTION.to_string()),
        }))
    );
    assert_eq!(
        GCal::calendars_get_or_insert_by_name(&calendars, "SCMA", true),
        Err(CalendarError::DryRun)
    );
    assert_eq!(GCal::calendars_get_or_insert_by_name(&[], "SCMA", true), Err(CalendarError::DryRun));
    assert_eq!(CalendarError::DryRun.message(), "Cannot create calendar during dry run");
    let unnamed = vec![CalendarListEntry { id: None, summary: Some("SCMA".to_string()) }];
    assert_eq!(
        GCal::calendars_get_or_insert_by_name(&unnamed, "SCMA", false),
        Err(CalendarError::MissingId)
    );
    assert_eq!(CalendarError::MissingId.message(), "Calendar has no identifier");
}

#[test]
fn acl_calls_are_built_as_the_settings_say() {
    let sync = gcal(false, true);
    assert_eq!(
        sync.acl_insert("a@example.com", "reader", SendNotifications(true)),
        Planned {
            call: AclCall::Insert {
                calendar_id: "cal".to_string(),
                rule: user_rule("reader", "a@example.com"),
                send_notifications: true,
            },
            send: true,
        }
    );
    assert_eq!(
        sync.acl_delete("a@example.com"),
        Planned {
            call: AclCall::Delete { calendar_id: "cal".to_string(), rule_id: "user:a@example.com".to_string() },
            send: true,
        }
    );
    assert_eq!(
        sync.acl_insert_or_delete(&AclSyncOp::Insert("b".to_string())),
        sync.acl_insert("b", "reader", SendNotifications(true))
    );
    assert_eq!(
        gcal(false, false).acl_insert_or_delete(&AclSyncOp::Insert("b".to_string())),
        gcal(false, false).acl_insert("b", "reader", SendNotifications(false))
    );
    assert_eq!(sync.acl_insert_or_delete(&AclSyncOp::Delete("b".to_string())), sync.acl_delete("b"));
}

#[test]
fn owners_are_inserted_without_notification() {
    let owners = vec!["o1".to_string(), "o2".to_string()];
    let calls = gcal(false, true).owner_inserts(&owners);
    assert_eq!(
        calls,
        vec![
            gcal(false, true).acl_insert("o1", "owner", SendNotifications(false)),
            gcal(false, true).acl_insert("o2", "owner", SendNotifications(false)),
        ]
    );
    assert!(gcal(true, true).owner_inserts(&owners).iter().all(|call| !call.send));
}

#[test]
fn acl_sync_plans_inserts_then_deletes_without_owners() {
    let sync = gcal(false, false);
    let emails = vec!["a", "b", "o"];
    let owners = vec!["c".to_string(), "o".to_string()];
    let acls = vec![user_rule("reader", "b"), user_rule("reader", "c"), user_rule("reader", "d"), user_rule("owner", "o")];
    let plan = sync.acl_sync(&emails, &owners, &acls);
    assert_eq!(
        plan,
        vec![
            sync.acl_insert("a", "reader", SendNotifications(false)),
            sync.acl_delete("d"),
        ]
    );
}

#[test]
fn acl_sync_on_a_dry_run_sends_nothing() {
    let emails = vec!["a", "b"];
    let acls = vec![user_rule("reader", "c")];
    let plan = gcal(true, true).acl_sync(&emails, &[], &acls);
    assert_eq!(plan.len(), 3);
    assert!(plan.iter().all(|call| !call.send));
    let sent = gcal(false, true).acl_sync(&emails, &[], &acls);
    assert!(sent.iter().all(|call| call.send));
    assert_eq!(
        plan.iter().map(|p| p.call.clone()).collect::<Vec<_>>(),
        sent.iter().map(|p| p.call.clone()).collect::<Vec<_>>()
    );
}

#[test]
fn send_notifications_is_a_bool() {
    assert!(bool::from(SendNotifications(true)));
    assert!(!bool::from(SendNotifications(false)));
    assert_eq!(SendNotifications::from(true), SendNotifications(true));
    let flag: bool = SendNotifications::from(false).into();
    assert!(!flag);
}
