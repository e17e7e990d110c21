use scma_gcal_sync::date::{Date, Timestamp};
use scma_gcal_sync::input::html::MAX_PAGE_CHARS;
use scma_gcal_sync::input::web::{
    apply_email_aliases, attendee_from_raw, comment_from_raw, events_url, login_outcome,
    normalize_email, raw_attendees, raw_comments, sort_by_start_date, EventList, LoginError, Page,
    RawAttendee, RawComment, ScrapeError, Users, CONCURRENT_REQUESTS, EVENTS_URL, LOGIN_URL,
    SITE_URL, USERS_URL,
};
use scma_gcal_sync::model::{Attendee, Comment, DateSelect, Event, MemberStatus, User};
use scma_gcal_sync::text::{char_is_white_space, trim};

const EVENT_PAGE: &str = r#"<html><body>
<div class="attendees">
  <span class="attendee_name">Ann Alpha</span><span class="number_of_tickets">(2 tickets) bringing a rope </span>
  <span class="attendee_name">Bob Beta</span><span class="number_of_tickets">(1 ticket)</span>
  <span class="attendee_name">Nobody</span>
</div>
<div class="kmt-wrap">
  <span class="kmt-author"> Cat Gamma </span>
  <time itemprop="dateCreated" datetime="2022-01-10T18:05:00-08:00">Jan 10</time>
  <div class="kmt-body">
     See you there!
  </div>
</div>
<div class="kmt-wrap">
  <span class="kmt-author">Dan Delta</span>
  <time itemprop="dateModified" datetime="2022-01-12T00:00:00-08:00">Jan 12</time>
  <time itemprop="dateCreated" datetime="2022-01-11T07:00:00+00:00">Jan 11</time>
  <div class="kmt-body">Me too</div>
</div>
</body></html>"#;

fn day(year: i32, month: u32, day: u32) -> Date {
    Date::from_ymd_opt(year, month, day).unwrap()
}

fn event_item(id: &str, url: &str, start: Date) -> Event {
    Event {
        id: id.to_string(),
        title: "a title".to_string(),
        url: url.to_string(),
        start_date: start,
        end_date: start,
        location: "a location".to_string(),
        description: "a description".to_string(),
        comments: None,
        attendees: None,
        timestamp: None,
    }
}

#[test]
fn normalize_phone_number() {
    let phone_numbers = vec![
        "(555) 555-5555",
        "5555555555",
        "555-555-5555",
        "555 555 5555",
    ];
    let actual: Vec<String> = phone_numbers
        .into_iter()
        .map(scma_gcal_sync::input::web::normalize_phone_number)
        .collect();
    assert_eq!(actual, vec!["+15555555555"; 4]);
}

#[test]
fn phone_number_keeps_ascii_digits_only() {
    let normal = scma_gcal_sync::input::web::normalize_phone_number;
    assert_eq!(normal(""), "+1");
    assert_eq!(normal("+1 (555) 555-5555 x12"), "+11555555555512");
    assert_eq!(normal("\u{0661}\u{0662}3"), "+13");
    assert_eq!(normal("no digits"), "+1");
}

#[test]
fn email_is_put_in_lower_case() {
    assert_eq!(normalize_email("Ann.Alpha@Example.COM"), "ann.alpha@example.com");
    assert_eq!(normalize_email("already@lower.case"), "already@lower.case");
    assert_eq!(normalize_email("\u{00C4}@x"), "\u{00E4}@x");
}

#[test]
fn addresses_of_the_site() {
    assert_eq!(events_url(DateSelect::All), EVENTS_URL);
    assert_eq!(
        events_url(DateSelect::NotPast),
        "https://www.rockclimbing.org/index.php/event-list/events-list?format=json&filterEvents=notpast"
    );
    assert_eq!(SITE_URL, "https://www.rockclimbing.org");
    assert!(LOGIN_URL.starts_with(SITE_URL));
    assert!(USERS_URL.starts_with(SITE_URL));
    assert_eq!(CONCURRENT_REQUESTS, 3);
}

#[test]
fn login_went_well_if_the_site_led_to_its_front_page() {
    assert_eq!(login_outcome(true, "/"), Ok(()));
    assert_eq!(login_outcome(true, "/index.php/component/comprofiler/login"), Err(LoginError::BadCredentials));
    assert_eq!(login_outcome(true, ""), Err(LoginError::BadCredentials));
    assert_eq!(login_outcome(false, "/"), Err(LoginError::BadResponse));
    assert_eq!(login_outcome(false, "/x"), Err(LoginError::BadResponse));
    assert_eq!(
        LoginError::BadResponse.message(),
        "unable to login to https://www.rockclimbing.org due to bad response"
    );
    assert_eq!(
        LoginError::BadCredentials.message(),
        "unable to login to https://www.rockclimbing.org due to bad username or password"
    );
}

#[test]
fn parse_event_list_json() {
    let text = r#"[
        {"id":"527","title":"Joshua Tree","url":"/index.php/event-list/events-list/527",
         "date":"2022-01-14","end_date":"2022-01-17","venue":"Joshua Tree","description":"Climb"},
        {"id":"528","title":"Gym","url":"/index.php/event-list/events-list/528",
         "date":"2022-02-01","end_date":"2022-02-01","venue":"Gym","description":"Train"}
    ]"#;
    let parsed: serde_json::Value = serde_json::from_str(text).unwrap();
    let field = |item: &serde_json::Value, name: &str| item[name].as_str().unwrap().to_string();
    let date = |text: String| {
        let parts: Vec<u32> = text.split('-').map(|p| p.parse().unwrap()).collect();
        Date::from_ymd_opt(parts[0] as i32, parts[1], parts[2]).unwrap()
    };
    let items: Vec<Event> = parsed
        .as_array()
        .unwrap()
        .iter()
        .map(|item| Event {
            id: field(item, "id"),
            title: field(item, "title"),
            url: field(item, "url"),
            start_date: date(field(item, "date")),
            end_date: date(field(item, "end_date")),
            location: field(item, "venue"),
            description: field(item, "description"),
            comments: None,
            attendees: None,
            timestamp: None,
        })
        .collect();
    let events = EventList::try_from(items.clone()).into_inner();
    assert_eq!(events.len(), 2);
    assert_eq!(
        events[0].url,
        "https://www.rockclimbing.org/index.php/event-list/events-list/527"
    );
    assert_eq!(
        events[1].url,
        "https://www.rockclimbing.org/index.php/event-list/events-list/528"
    );
    for (event, item) in events.iter().zip(items.iter()) {
        let mut same = event.clone();
        same.url = item.url.clone();
        assert_eq!(&same, item);
    }
    assert_eq!(EventList::try_from(Vec::new()), EventList(Vec::new()));
}

#[test]
fn parse_users() {
    let now = Timestamp::new(1_642_177_800, 0).unwrap();
    let users = vec![
        User {
            id: "1".to_string(),
            name: "Ann".to_string(),
            email: "Ann@Example.com".to_string(),
            phone: Some("(555) 555-5555".to_string()),
            member_status: MemberStatus::HM,
            ..Default::default()
        },
        User { name: "Bob".to_string(), email: "bob@example.com".to_string(), ..Default::default() },
    ];
    let read = Users::try_from(users.clone(), now).0;
    assert_eq!(read.len(), 2);
    assert_eq!(read[0].email, "ann@example.com");
    assert_eq!(read[0].phone, Some("+15555555555".to_string()));
    assert_eq!(read[0].timestamp, Some(now));
    assert_eq!(read[1].email, "bob@example.com");
    assert_eq!(read[1].phone, None);
    assert_eq!(read[1].timestamp, Some(now));
    for (after, before) in read.iter().zip(users.iter()) {
        let mut same = after.clone();
        same.email = before.email.clone();
        same.phone = before.phone.clone();
        same.timestamp = None;
        assert_eq!(&same, before);
    }
}

#[test]
fn page_holds_comments_and_attendees() {
    assert_eq!(
        raw_comments(EVENT_PAGE).unwrap(),
        vec![
            RawComment {
                author: Some(" Cat Gamma ".to_string()),
                datetime: Some("2022-01-10T18:05:00-08:00".to_string()),
                text: Some("\n     See you there!\n  ".to_string()),
            },
            RawComment {
                author: Some("Dan Delta".to_string()),
                datetime: Some("2022-01-11T07:00:00+00:00".to_string()),
                text: Some("Me too".to_string()),
            },
        ]
    );
    assert_eq!(
        raw_attendees(EVENT_PAGE).unwrap(),
        vec![
            RawAttendee { name: "Ann Alpha".to_string(), tickets: "(2 tickets) bringing a rope ".to_string() },
            RawAttendee { name: "Bob Beta".to_string(), tickets: "(1 ticket)".to_string() },
        ]
    );
    assert_eq!(raw_comments("<html></html>"), Ok(Vec::new()));
    assert_eq!(raw_attendees(""), Ok(Vec::new()));
    let partial = r#"<div class="kmt-wrap"><span class="kmt-author">Eve</span></div>"#;
    assert_eq!(
        raw_comments(partial).unwrap(),
        vec![RawComment { author: Some("Eve".to_string()), datetime: None, text: None }]
    );
}

#[test]
fn page_that_is_too_long_is_not_searched() {
    assert_eq!(MAX_PAGE_CHARS, 16_777_216);
    let tail = r#"<div class="attendee_name">Ann</div><div class="number_of_tickets">(1 ticket)</div>"#;
    let mut long = " ".repeat(MAX_PAGE_CHARS - tail.len());
    long.push_str(tail);
    assert_eq!(long.chars().count(), MAX_PAGE_CHARS);
    assert_eq!(raw_comments(&long), Err(ScrapeError::PageTooLong));
    assert_eq!(raw_attendees(&long), Err(ScrapeError::PageTooLong));
    let item = Event {
        id: "1".into(),
        title: "a title".into(),
        url: "a url".into(),
        start_date: Date::from_ymd_opt(2022, 1, 14).unwrap(),
        end_date: Date::from_ymd_opt(2022, 1, 14).unwrap(),
        location: "a location".into(),
        description: "a description".into(),
        comments: None,
        attendees: None,
        timestamp: None,
    };
    let now = Timestamp::new(0, 0).unwrap();
    assert_eq!(Event::try_from((item, Page(long), now)), Err(ScrapeError::PageTooLong));
}

#[test]
fn longest_page_is_searched() {
    let tail = r#"<div class="kmt-wrap"></div>"#;
    let mut longest = " ".repeat(MAX_PAGE_CHARS - 1 - tail.len());
    longest.push_str(tail);
    assert_eq!(longest.chars().count(), MAX_PAGE_CHARS - 1);
    assert_eq!(raw_attendees(&longest), Ok(Vec::new()));
}

#[test]
fn page_is_measured_in_characters() {
    let wide = "\u{e9}".repeat(MAX_PAGE_CHARS);
    assert_eq!(raw_comments(&wide), Err(ScrapeError::PageTooLong));
    let wide = "\u{e9}".repeat(MAX_PAGE_CHARS / 2);
    assert_eq!(wide.len(), MAX_PAGE_CHARS);
    assert_eq!(raw_comments(&wide), Ok(Vec::new()));
}

#[test]
fn parse_event() {
    let event_item = Event {
        id: "527".into(),
        title: "a title".into(),
        url: "a url".into(),
        start_date: day(2022, 1, 14),
        end_date: day(2022, 1, 17),
        location: "a location".into(),
        description: "a description".into(),
        comments: None,
        attendees: None,
        timestamp: None,
    };
    let timestamp = Timestamp::new(0, 0).unwrap();
    let page = Page(EVENT_PAGE.to_string());
    assert_eq!(page.as_ref(), EVENT_PAGE);
    let event = Event::try_from((event_item.clone(), page, timestamp)).unwrap();
    assert_eq!(
        event,
        Event {
            comments: Some(vec![
                Comment {
                    author: "Cat Gamma".to_string(),
                    date: Timestamp::new(1_641_866_700, 0).unwrap(),
                    text: "See you there!".to_string(),
                },
                Comment {
                    author: "Dan Delta".to_string(),
                    date: Timestamp::new(1_641_884_400, 0).unwrap(),
                    text: "Me too".to_string(),
                },
            ]),
            attendees: Some(vec![
                Attendee { name: "Ann Alpha".to_string(), count: 2, comment: "bringing a rope".to_string() },
                Attendee { name: "Bob Beta".to_string(), count: 1, comment: "".to_string() },
            ]),
            timestamp: Some(timestamp),
            ..event_item
        }
    );
}

#[test]
fn page_without_details_gives_none() {
    let item = event_item("1", "a url", day(2022, 1, 14));
    let timestamp = Timestamp::new(5, 0).unwrap();
    let event = Event::try_from((item.clone(), Page("<html></html>".to_string()), timestamp)).unwrap();
    assert_eq!(event, Event { timestamp: Some(timestamp), ..item.clone() });
    let same = Event::with_details(item.clone(), Vec::new(), Vec::new(), timestamp).unwrap();
    assert_eq!(same, Event { timestamp: Some(timestamp), ..item });
}

#[test]
fn page_that_cannot_be_read_is_an_error() {
    let item = event_item("1", "a url", day(2022, 1, 14));
    let timestamp = Timestamp::new(5, 0).unwrap();
    let no_date = r#"<div class="kmt-wrap"><span class="kmt-author">Eve</span><div class="kmt-body">x</div></div>
<span class="attendee_name">Ann</span><span class="number_of_tickets">two</span>"#;
    assert_eq!(
        Event::try_from((item.clone(), Page(no_date.to_string()), timestamp)),
        Err(ScrapeError::Comment)
    );
    let bad_tickets = r#"<span class="attendee_name">Ann</span><span class="number_of_tickets">two</span>"#;
    assert_eq!(
        Event::try_from((item, Page(bad_tickets.to_string()), timestamp)),
        Err(ScrapeError::Attendee)
    );
}

#[test]
fn comment_is_made_of_its_parts() {
    let raw = RawComment {
        author: Some("  Ann\n".to_string()),
        datetime: Some("2022-01-14T08:30:00-08:00".to_string()),
        text: Some("\t hello  world \u{a0}".to_string()),
    };
    assert_eq!(
        comment_from_raw(raw.clone()),
        Some(Comment {
            author: "Ann".to_string(),
            date: Timestamp::new(1_642_177_800, 0).unwrap(),
            text: "hello  world".to_string(),
        })
    );
    assert_eq!(comment_from_raw(RawComment { author: None, ..raw.clone() }), None);
    assert_eq!(comment_from_raw(RawComment { datetime: None, ..raw.clone() }), None);
    assert_eq!(comment_from_raw(RawComment { text: None, ..raw.clone() }), None);
    assert_eq!(comment_from_raw(RawComment { datetime: Some("soon".to_string()), ..raw }), None);
}

#[test]
fn attendee_is_made_of_the_size_of_the_party_and_the_comment() {
    let made = |tickets: &str| {
        attendee_from_raw(RawAttendee { name: "Ann".to_string(), tickets: tickets.to_string() })
    };
    let attendee = |count: u8, comment: &str| {
        Some(Attendee { name: "Ann".to_string(), count, comment: comment.to_string() })
    };
    assert_eq!(made("(2 tickets) see you"), attendee(2, "see you"));
    assert_eq!(made("(1 ticket)"), attendee(1, ""));
    assert_eq!(made("(255 tickets)  a (b) c "), attendee(255, "a (b) c"));
    assert_eq!(made("(+3 t)x"), attendee(3, "x"));
    assert_eq!(made("x7 ) y"), attendee(7, "y"));
    assert_eq!(made("(256 tickets) no"), None);
    assert_eq!(made("(two tickets) no"), None);
    assert_eq!(made("(2tickets)"), None);
    assert_eq!(made("(2 tickets"), None);
    assert_eq!(made(" (2 tickets)"), None);
    assert_eq!(made("( 2 tickets)"), None);
    assert_eq!(made("\u{ff08}2 tickets)"), None);
    assert_eq!(made(""), None);
}

#[test]
fn events_are_sorted_by_their_first_day_and_keep_their_order() {
    let events = vec![
        event_item("a", "", day(2022, 3, 1)),
        event_item("b", "", day(2022, 1, 1)),
        event_item("c", "", day(2022, 3, 1)),
        event_item("d", "", day(2021, 12, 31)),
        event_item("e", "", day(2022, 1, 1)),
    ];
    let mut expected = events.clone();
    expected.sort_by_key(|event| (event.start_date.year(), event.start_date.month(), event.start_date.day()));
    let sorted = sort_by_start_date(events);
    assert_eq!(sorted.iter().map(|e| e.id.as_str()).collect::<Vec<_>>(), vec!["d", "b", "e", "a", "c"]);
    assert_eq!(sorted, expected);
    assert!(sort_by_start_date(Vec::new()).is_empty());
}

#[test]
fn aliases_are_resolved() {
    let aliases = vec![
        ("alias@example.com".to_string(), "old@example.com".to_string()),
        ("other@example.com".to_string(), "real@example.com".to_string()),
        ("alias@example.com".to_string(), "user@example.com".to_string()),
    ];
    let emails = vec!["alias@example.com".to_string(), "plain@example.com".to_string(), "real@example.com".to_string()];
    assert_eq!(
        apply_email_aliases(&emails, &aliases),
        vec!["user@example.com".to_string(), "plain@example.com".to_string(), "real@example.com".to_string()]
    );
    assert_eq!(apply_email_aliases(&emails, &Vec::new()), emails);
    assert!(apply_email_aliases(&[], &aliases).is_empty());
}

#[test]
fn white_space_is_that_of_the_standard_library() {
    for code in 0..=0x10ffffu32 {
        if let Some(c) = char::from_u32(code) {
            assert_eq!(char_is_white_space(c), c.is_whitespace(), "U+{code:04X}");
        }
    }
}

#[test]
fn trim_is_that_of_the_standard_library() {
    let texts = [
        "",
        " ",
        "a",
        "  a  ",
        "\t\n a b \r\n",
        "\u{a0}x\u{3000}",
        "\u{2028}\u{2029}\u{202f}\u{205f}y z\u{1680}\u{85}",
        "\u{200b}kept\u{200b}",
        " \u{feff} ",
        "inner  space",
        "\u{b}\u{c}",
    ];
    for text in texts {
        assert_eq!(trim(text), text.trim(), "text {text:?}");
    }
    assert_eq!(trim("  two words \n"), "two words");
}
