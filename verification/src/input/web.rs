//! What is made of the pages of the club's site: the addresses to fetch,
//! the outcome of a login, and the events and members as they are handed
//! to the sync.

use vstd::prelude::*;
use vstd::string::{StrSliceExecFns, StringExecFns};
use crate::date::{date_lt, instant_named, Timestamp};
use crate::queue::Queue;
use crate::input::html::{
    class_nodes, class_nodes_in, find_class, find_class_in, find_named_in, named_nodes_in,
    node_attr, node_attr_of, node_text, node_text_of, MAX_PAGE_CHARS,
};
use crate::lookup::first_position;
use crate::model::{Attendee, Comment, DateSelect, Event, User};
use crate::text::{
    char_is_digit, chars_of, find_char, is_digit, opt_view, parse_u32, parsed_u32, slice_string,
    trim, trimmed,
};

verus! {

/// The address of the club's site.
pub const SITE_URL: &'static str = "https://www.rockclimbing.org";

/// The address to log in at.
pub const LOGIN_URL: &'static str =
    "https://www.rockclimbing.org/index.php/component/comprofiler/login";

/// The address of the list of events.
pub const EVENTS_URL: &'static str =
    "https://www.rockclimbing.org/index.php/event-list/events-list?format=json";

/// What is added to the address of the list of events to leave out the
/// events that are over.
pub const NOT_PAST_FILTER: &'static str = "&filterEvents=notpast";

/// The address of the list of members.
pub const USERS_URL: &'static str = "https://www.rockclimbing.org/index.php?option=com_jsondumper";

/// The number of event pages that may be fetched at once.
pub const CONCURRENT_REQUESTS: usize = 3;

/// The address of the list of events for a choice of dates.
pub open spec fn events_url_text(dates: DateSelect) -> Seq<char> {
    match dates {
        DateSelect::All => EVENTS_URL@,
        DateSelect::NotPast => EVENTS_URL@ + NOT_PAST_FILTER@,
    }
}

/// The address from which the list of events is fetched.
pub fn events_url(dates: DateSelect) -> (r: String)
    ensures
        r@ == events_url_text(dates),
{
    let mut url = String::from_str(EVENTS_URL);
    match dates {
        DateSelect::All => {},
        DateSelect::NotPast => {
            url.append(NOT_PAST_FILTER);
        },
    }
    url
}

/// Why a login failed.
#[derive(Debug, Clone, Copy, PartialEq, Eq, Structural)]
pub enum LoginError {
    /// The site answered with a status that is no success.
    BadResponse,
    /// The site did not lead on to its front page: the name or the
    /// password is wrong.
    BadCredentials,
}

impl LoginError {
    /// The error in words.
    pub fn message(&self) -> (r: String)
        ensures
            r@ == "unable to login to "@ + SITE_URL@ + match self {
                LoginError::BadResponse => " due to bad response"@,
                LoginError::BadCredentials => " due to bad username or password"@,
            },
    {
        let mut out = String::from_str("unable to login to ");
        out.append(SITE_URL);
        match self {
            LoginError::BadResponse => out.append(" due to bad response"),
            LoginError::BadCredentials => out.append(" due to bad username or password"),
        }
        out
    }
}

/// Whether a login went well, given the answer of the site: whether its
/// status is a success, and the path of the page that it led to. A login
/// went well if the site led on to its front page.
pub fn login_outcome(success: bool, path: &str) -> (r: Result<(), LoginError>)
    ensures
        r == if !success {
            Err::<(), LoginError>(LoginError::BadResponse)
        } else if path@ != "/"@ {
            Err::<(), LoginError>(LoginError::BadCredentials)
        } else {
            Ok::<(), LoginError>(())
        },
{
    if !success {
        Err(LoginError::BadResponse)
    } else if !crate::text::str_eq(path, "/") {
        Err(LoginError::BadCredentials)
    } else {
        Ok(())
    }
}

/// The decimal digits among the characters, in their order.
pub open spec fn digits_of(s: Seq<char>) -> Seq<char>
    decreases s.len(),
{
    if s.len() == 0 {
        Seq::empty()
    } else if is_digit(s.last()) {
        digits_of(s.drop_last()).push(s.last())
    } else {
        digits_of(s.drop_last())
    }
}

/// A phone number in its normal form.
pub open spec fn normal_phone_number(s: Seq<char>) -> Seq<char> {
    "+1"@ + digits_of(s)
}

/// The phone number in its normal form: the country's prefix, then the
/// digits of the number and nothing else.
pub fn normalize_phone_number(phone_number: &str) -> (r: String)
    ensures
        r@ == normal_phone_number(phone_number@),
{
    let chars = chars_of(phone_number);
    let mut out = String::from_str("+1");
    let ghost head = out@;
    let mut i: usize = 0;
    while i < chars.len()
        invariant
            i <= chars@.len(),
            out@ == head + digits_of(chars@.take(i as int)),
        decreases chars@.len() - i,
    {
        assert(chars@.take(i + 1).drop_last() == chars@.take(i as int));
        assert(chars@.take(i + 1).last() == chars@[i as int]);
        if char_is_digit(chars[i]) {
            out.push(chars[i]);
            assert(out@ =~= head + digits_of(chars@.take(i + 1)));
        }
        i = i + 1;
    }
    assert(chars@.take(chars@.len() as int) == chars@);
    out
}

/// What `str::to_lowercase` makes of a text.
pub uninterp spec fn lowercase(s: Seq<char>) -> Seq<char>;

/// Calls `str::to_lowercase`. Claimed of it: the result depends on the
/// text alone.
#[verifier::external_body]
fn to_lowercase(s: &str) -> (r: String)
    ensures
        r@ == lowercase(s@),
{
    s.to_lowercase()
}

/// The e-mail address in its normal form: in lower case.
pub fn normalize_email(email: &str) -> (r: String)
    ensures
        r@ == lowercase(email@),
{
    to_lowercase(email)
}

/// `after` is `before` with the address `url` and nothing else changed.
pub open spec fn same_but_url(after: Event, before: Event, url: Seq<char>) -> bool {
    &&& after.url@ == url
    &&& after.id == before.id
    &&& after.title == before.title
    &&& after.start_date == before.start_date
    &&& after.end_date == before.end_date
    &&& after.location == before.location
    &&& after.description == before.description
    &&& after.comments == before.comments
    &&& after.attendees == before.attendees
    &&& after.timestamp == before.timestamp
}

/// The events of the club's list of events.
#[derive(Debug, Clone, PartialEq, Eq)]
pub struct EventList(pub Vec<Event>);

impl EventList {
    /// The events.
    pub fn into_inner(self) -> (r: Vec<Event>)
        ensures
            r == self.0,
    {
        self.0
    }

    /// The events as the list gives them, each with the address of its
    /// page made whole: the list gives the address within the site.
    pub fn try_from(events: Vec<Event>) -> (r: EventList)
        ensures
            r.0@.len() == events@.len(),
            forall|i: int|
                0 <= i < events@.len() ==> same_but_url(
                    #[trigger] r.0@[i],
                    events@[i],
                    SITE_URL@ + events@[i].url@,
                ),
    {
        let ghost given = events@;
        let mut queue = Queue::new(events);
        let mut out: Vec<Event> = Vec::new();
        while queue.len() > 0
            invariant
                out@.len() + queue@.len() == given.len(),
                queue@ == given.skip(out@.len() as int),
                forall|i: int|
                    0 <= i < out@.len() ==> same_but_url(
                        #[trigger] out@[i],
                        given[i],
                        SITE_URL@ + given[i].url@,
                    ),
            decreases queue@.len(),
        {
            assert(given.skip(out@.len() as int).skip(1) == given.skip(out@.len() as int + 1));
            match queue.next() {
                Some(event) => {
                    let mut url = String::from_str(SITE_URL);
                    url.append(event.url.as_str());
                    out.push(
                        Event {
                            id: event.id,
                            title: event.title,
                            url,
                            start_date: event.start_date,
                            end_date: event.end_date,
                            location: event.location,
                            description: event.description,
                            comments: event.comments,
                            attendees: event.attendees,
                            timestamp: event.timestamp,
                        },
                    );
                },
                None => {},
            }
        }
        EventList(out)
    }
}

/// `after` is the member `before` as handed to the sync: the phone number
/// and the e-mail address in their normal form, and fetched at `now`.
pub open spec fn is_normalized(after: User, before: User, now: Timestamp) -> bool {
    &&& opt_view(after.phone) == match before.phone {
        Some(phone) => Some(normal_phone_number(phone@)),
        None => None,
    }
    &&& after.email@ == lowercase(before.email@)
    &&& after.timestamp == Some(now)
    &&& after.id == before.id
    &&& after.name == before.name
    &&& after.member_status == before.member_status
    &&& after.trip_leader_status == before.trip_leader_status
    &&& after.position == before.position
    &&& after.address == before.address
    &&& after.city == before.city
    &&& after.state == before.state
    &&& after.zipcode == before.zipcode
    &&& after.climbingtypes == before.climbingtypes
    &&& after.lead == before.lead
    &&& after.follow == before.follow
    &&& after.favoriteclimbs == before.favoriteclimbs
    &&& after.referredby == before.referredby
    &&& after.dob == before.dob
    &&& after.applicantdate == before.applicantdate
    &&& after.membersince == before.membersince
    &&& after.resignedmembership == before.resignedmembership
    &&& after.sex == before.sex
    &&& after.caneval == before.caneval
    &&& after.optedout == before.optedout
    &&& after.block == before.block
    &&& after.register_date == before.register_date
    &&& after.lastvisit_date == before.lastvisit_date
}

/// The members of the club's list of members.
#[derive(Debug, Clone, PartialEq, Eq)]
pub struct Users(pub Vec<User>);

impl Users {
    /// The members as the list gives them, each with its phone number and
    /// e-mail address in normal form, and marked as fetched at `now`.
    pub fn try_from(users: Vec<User>, now: Timestamp) -> (r: Users)
        ensures
            r.0@.len() == users@.len(),
            forall|i: int| 0 <= i < users@.len() ==> is_normalized(#[trigger] r.0@[i], users@[i], now),
    {
        let ghost given = users@;
        let mut queue = Queue::new(users);
        let mut out: Vec<User> = Vec::new();
        while queue.len() > 0
            invariant
                out@.len() + queue@.len() == given.len(),
                queue@ == given.skip(out@.len() as int),
                forall|i: int| 0 <= i < out@.len() ==> is_normalized(#[trigger] out@[i], given[i], now),
            decreases queue@.len(),
        {
            assert(given.skip(out@.len() as int).skip(1) == given.skip(out@.len() as int + 1));
            match queue.next() {
                Some(user) => {
                    let phone = match &user.phone {
                        Some(phone) => Some(normalize_phone_number(phone.as_str())),
                        None => None,
                    };
                    let email = normalize_email(user.email.as_str());
                    out.push(
                        User {
                            id: user.id,
                            name: user.name,
                            member_status: user.member_status,
                            trip_leader_status: user.trip_leader_status,
                            position: user.position,
                            address: user.address,
                            city: user.city,
                            state: user.state,
                            zipcode: user.zipcode,
                            phone,
                            email,
                            climbingtypes: user.climbingtypes,
                            lead: user.lead,
                            follow: user.follow,
                            favoriteclimbs: user.favoriteclimbs,
                            referredby: user.referredby,
                            dob: user.dob,
                            applicantdate: user.applicantdate,
                            membersince: user.membersince,
                            resignedmembership: user.resignedmembership,
                            sex: user.sex,
                            caneval: user.caneval,
                            optedout: user.optedout,
                            block: user.block,
                            register_date: user.register_date,
                            lastvisit_date: user.lastvisit_date,
                            timestamp: Some(now),
                        },
                    );
                },
                None => {},
            }
        }
        Users(out)
    }
}

/// The class of the nodes of an event's page that hold a comment.
pub const COMMENT_CLASS: &'static str = "kmt-wrap";

/// The class of the node of a comment that holds its author.
pub const AUTHOR_CLASS: &'static str = "kmt-author";

/// The class of the node of a comment that holds its text.
pub const BODY_CLASS: &'static str = "kmt-body";

/// The class of the nodes of an event's page that hold an attendee's name.
pub const ATTENDEE_NAME_CLASS: &'static str = "attendee_name";

/// The class of the nodes of an event's page that hold the size of an
/// attendee's party and the attendee's comment.
pub const TICKETS_CLASS: &'static str = "number_of_tickets";

/// A page of the club's site.
#[derive(Debug, Clone, PartialEq, Eq)]
pub struct Page(pub String);

impl Page {
    /// The text of the page.
    pub fn as_ref(&self) -> (r: &str)
        ensures
            r@ == self.0@,
    {
        self.0.as_str()
    }
}

/// A comment as an event's page holds it: the texts of its author, of its
/// date and of its body, each where the page has it.
#[derive(Debug, Clone, PartialEq, Eq)]
pub struct RawComment {
    pub author: Option<String>,
    pub datetime: Option<String>,
    pub text: Option<String>,
}

/// An attendee as an event's page holds it: the name, and the text with
/// the size of the party and the comment.
#[derive(Debug, Clone, PartialEq, Eq)]
pub struct RawAttendee {
    pub name: String,
    pub tickets: String,
}

/// The text of the first node with a class below a node of a page.
pub open spec fn first_text_in(page: Seq<char>, node: usize, class: Seq<char>) -> Option<Seq<char>> {
    if class_nodes_in(page, node, class).len() > 0 {
        node_text_of(page, class_nodes_in(page, node, class)[0])
    } else {
        None
    }
}

/// The date of the comment in a node of a page: the `datetime` of the
/// first `time` element below it that is marked as the date of creation.
pub open spec fn comment_date_in(page: Seq<char>, node: usize) -> Option<Seq<char>> {
    let times = named_nodes_in(page, node, "time"@, "itemprop"@, "dateCreated"@);
    if times.len() > 0 {
        node_attr_of(page, times[0], "datetime"@)
    } else {
        None
    }
}

/// The text of a node where the page has the node, else nothing.
pub open spec fn text_at(page: Seq<char>, node: usize) -> Seq<char> {
    match node_text_of(page, node) {
        Some(text) => text,
        None => Seq::empty(),
    }
}

/// `comments` are the comments that the page holds, in the order of the
/// page: for each node of the class of comments, the text of its first
/// node of the class of authors, the date of its first `time` element, and
/// the text of its first node of the class of bodies.
pub open spec fn holds_comments(page: Seq<char>, comments: Seq<RawComment>) -> bool {
    &&& comments.len() == class_nodes(page, COMMENT_CLASS@).len()
    &&& forall|i: int|
        0 <= i < comments.len() ==> {
            &&& opt_view((#[trigger] comments[i]).author) == first_text_in(
                page,
                class_nodes(page, COMMENT_CLASS@)[i],
                AUTHOR_CLASS@,
            )
            &&& opt_view(comments[i].datetime) == comment_date_in(
                page,
                class_nodes(page, COMMENT_CLASS@)[i],
            )
            &&& opt_view(comments[i].text) == first_text_in(
                page,
                class_nodes(page, COMMENT_CLASS@)[i],
                BODY_CLASS@,
            )
        }
}

/// `attendees` are the attendees that the page holds: each name with the
/// text of the same position, as far as both lists go.
pub open spec fn holds_attendees(page: Seq<char>, attendees: Seq<RawAttendee>) -> bool {
    &&& attendees.len() == lesser(
        class_nodes(page, ATTENDEE_NAME_CLASS@).len(),
        class_nodes(page, TICKETS_CLASS@).len(),
    )
    &&& forall|i: int|
        0 <= i < attendees.len() ==> (#[trigger] attendees[i]).name@ == text_at(
            page,
            class_nodes(page, ATTENDEE_NAME_CLASS@)[i],
        ) && attendees[i].tickets@ == text_at(page, class_nodes(page, TICKETS_CLASS@)[i])
}

/// The comments of an event's page as the page holds them, in the order of
/// the page. A page that is too long is not searched.
pub fn raw_comments(page: &str) -> (r: Result<Vec<RawComment>, ScrapeError>)
    ensures
        r is Err <==> page@.len() >= MAX_PAGE_CHARS,
        r matches Err(e) ==> e == ScrapeError::PageTooLong,
        r matches Ok(list) ==> holds_comments(page@, list@),
{
    if page.unicode_len() >= MAX_PAGE_CHARS {
        return Err(ScrapeError::PageTooLong);
    }
    let nodes = find_class(page, COMMENT_CLASS);
    let mut out: Vec<RawComment> = Vec::new();
    let mut i: usize = 0;
    while i < nodes.len()
        invariant
            page@.len() < MAX_PAGE_CHARS,
            i <= nodes@.len(),
            nodes@ == class_nodes(page@, COMMENT_CLASS@),
            out@.len() == i,
            forall|j: int|
                0 <= j < i ==> {
                    &&& opt_view((#[trigger] out@[j]).author) == first_text_in(
                        page@,
                        nodes@[j],
                        AUTHOR_CLASS@,
                    )
                    &&& opt_view(out@[j].datetime) == comment_date_in(page@, nodes@[j])
                    &&& opt_view(out@[j].text) == first_text_in(page@, nodes@[j], BODY_CLASS@)
                },
        decreases nodes@.len() - i,
    {
        let node = nodes[i];
        let authors = find_class_in(page, node, AUTHOR_CLASS);
        let author = if authors.len() > 0 {
            node_text(page, authors[0])
        } else {
            None
        };
        let times = find_named_in(page, node, "time", "itemprop", "dateCreated");
        let datetime = if times.len() > 0 {
            node_attr(page, times[0], "datetime")
        } else {
            None
        };
        let bodies = find_class_in(page, node, BODY_CLASS);
        let text = if bodies.len() > 0 {
            node_text(page, bodies[0])
        } else {
            None
        };
        out.push(RawComment { author, datetime, text });
        i = i + 1;
    }
    Ok(out)
}

/// The lesser of two lengths.
pub open spec fn lesser(a: nat, b: nat) -> nat {
    if a <= b {
        a
    } else {
        b
    }
}

/// The attendees of an event's page as the page holds them: each name with
/// the text of the same position, as far as both lists go. A page that is
/// too long is not searched.
pub fn raw_attendees(page: &str) -> (r: Result<Vec<RawAttendee>, ScrapeError>)
    ensures
        r is Err <==> page@.len() >= MAX_PAGE_CHARS,
        r matches Err(e) ==> e == ScrapeError::PageTooLong,
        r matches Ok(list) ==> holds_attendees(page@, list@),
{
    if page.unicode_len() >= MAX_PAGE_CHARS {
        return Err(ScrapeError::PageTooLong);
    }
    let names = find_class(page, ATTENDEE_NAME_CLASS);
    let tickets = find_class(page, TICKETS_CLASS);
    let mut out: Vec<RawAttendee> = Vec::new();
    let mut i: usize = 0;
    while i < names.len() && i < tickets.len()
        invariant
            page@.len() < MAX_PAGE_CHARS,
            i <= names@.len(),
            i <= tickets@.len(),
            names@ == class_nodes(page@, ATTENDEE_NAME_CLASS@),
            tickets@ == class_nodes(page@, TICKETS_CLASS@),
            out@.len() == i,
            forall|j: int|
                0 <= j < i ==> (#[trigger] out@[j]).name@ == text_at(page@, names@[j])
                    && out@[j].tickets@ == text_at(page@, tickets@[j]),
        decreases names@.len() - i,
    {
        let name = match node_text(page, names[i]) {
            Some(text) => text,
            None => String::new(),
        };
        let text = match node_text(page, tickets[i]) {
            Some(text) => text,
            None => String::new(),
        };
        out.push(RawAttendee { name, tickets: text });
        i = i + 1;
    }
    Ok(out)
}

/// Why an event's page cannot be read.
#[derive(Debug, Clone, Copy, PartialEq, Eq, Structural)]
pub enum ScrapeError {
    /// A comment lacks its author, its date or its text, or its date names
    /// no instant.
    Comment,
    /// The text of an attendee does not start with the size of the party
    /// in round brackets.
    Attendee,
    /// The page is too long to be searched.
    PageTooLong,
}

/// The comment that is made of what the page holds of it: the author and
/// the text without white space around them, and the instant that the date
/// names. None where a part is missing or the date names no instant.
pub open spec fn comment_parts(raw: RawComment) -> Option<(Seq<char>, (int, int), Seq<char>)> {
    if raw.author is Some && raw.datetime is Some && raw.text is Some && instant_named(
        raw.datetime->0@,
    ) is Some {
        Some((trimmed(raw.author->0@), instant_named(raw.datetime->0@)->0, trimmed(raw.text->0@)))
    } else {
        None
    }
}

/// The size of the party and the comment that a text such as
/// `(2 tickets) see you there` holds: the number behind the opening
/// bracket, up to the first space, and what follows the first closing
/// bracket, without white space around it.
pub open spec fn attendee_parts(tickets: Seq<char>) -> Option<(u8, Seq<char>)> {
    let space = first_position(tickets, ' ');
    let close = first_position(tickets, ')');
    if space >= 1 && close >= 0 && (tickets[0] as u32) < 128 {
        match parsed_u32(tickets.subrange(1, space)) {
            Ok(n) => if n <= 255 {
                Some((n as u8, trimmed(tickets.skip(close + 1))))
            } else {
                None
            },
            Err(_) => None,
        }
    } else {
        None
    }
}

/// Makes a comment of what the page holds of it.
pub fn comment_from_raw(raw: RawComment) -> (r: Option<Comment>)
    ensures
        r is Some <==> comment_parts(raw) is Some,
        r matches Some(c) ==> comment_parts(raw) == Some((c.author@, c.date@, c.text@)),
{
    let author = match &raw.author {
        Some(author) => trim(author.as_str()),
        None => {
            return None;
        },
    };
    let date = match &raw.datetime {
        Some(datetime) => match Timestamp::parse(datetime.as_str()) {
            Some(date) => date,
            None => {
                return None;
            },
        },
        None => {
            return None;
        },
    };
    let text = match &raw.text {
        Some(text) => trim(text.as_str()),
        None => {
            return None;
        },
    };
    Some(Comment { author, date, text })
}

/// Makes an attendee of what the page holds of it.
pub fn attendee_from_raw(raw: RawAttendee) -> (r: Option<Attendee>)
    ensures
        r is Some <==> attendee_parts(raw.tickets@) is Some,
        r matches Some(a) ==> a.name == raw.name && attendee_parts(raw.tickets@) == Some(
            (a.count, a.comment@),
        ),
{
    let chars = chars_of(raw.tickets.as_str());
    let space = match find_char(&chars, ' ') {
        Some(space) => space,
        None => {
            return None;
        },
    };
    let close = match find_char(&chars, ')') {
        Some(close) => close,
        None => {
            return None;
        },
    };
    if space < 1 {
        return None;
    }
    proof {
        crate::lookup::lemma_first_position(chars@, ' ');
        crate::lookup::lemma_first_position(chars@, ')');
    }
    if chars[0] as u32 >= 128 {
        return None;
    }
    let number = slice_string(&chars, 1, space);
    let count = match parse_u32(number.as_str()) {
        Ok(n) => n,
        Err(_) => {
            return None;
        },
    };
    if count > 255 {
        return None;
    }
    let rest = slice_string(&chars, close + 1, chars.len());
    assert(chars@.subrange(close + 1, chars@.len() as int) == chars@.skip(close + 1));
    let comment = trim(rest.as_str());
    Some(Attendee { name: raw.name, count: count as u8, comment })
}

/// `event` is `item` with the details of its page: the comments and the
/// attendees made of what the page holds, none of either where the page
/// holds none, and the instant at which the page was fetched.
pub open spec fn has_details(
    event: Event,
    item: Event,
    comments: Seq<RawComment>,
    attendees: Seq<RawAttendee>,
    timestamp: Timestamp,
) -> bool {
    &&& event.id == item.id
    &&& event.title == item.title
    &&& event.url == item.url
    &&& event.start_date == item.start_date
    &&& event.end_date == item.end_date
    &&& event.location == item.location
    &&& event.description == item.description
    &&& event.timestamp == Some(timestamp)
    &&& event.comments is None <==> comments.len() == 0
    &&& event.comments matches Some(list) ==> list@.len() == comments.len() && forall|i: int|
        0 <= i < list@.len() ==> comment_parts(comments[i]) == Some(
            ((#[trigger] list@[i]).author@, list@[i].date@, list@[i].text@),
        )
    &&& event.attendees is None <==> attendees.len() == 0
    &&& event.attendees matches Some(list) ==> list@.len() == attendees.len() && forall|i: int|
        0 <= i < list@.len() ==> (#[trigger] list@[i]).name == attendees[i].name && attendee_parts(
            attendees[i].tickets@,
        ) == Some((list@[i].count, list@[i].comment@))
}

/// Every comment can be made of what the page holds of it.
pub open spec fn comments_readable(comments: Seq<RawComment>) -> bool {
    forall|i: int| 0 <= i < comments.len() ==> comment_parts(#[trigger] comments[i]) is Some
}

/// Every attendee can be made of what the page holds of it.
pub open spec fn attendees_readable(attendees: Seq<RawAttendee>) -> bool {
    forall|i: int|
        0 <= i < attendees.len() ==> attendee_parts((#[trigger] attendees[i]).tickets@) is Some
}

/// `r` is what is made of an event of the list and of what its page holds:
/// the event with its details where every comment and every attendee can
/// be read, else the error for a comment, or for an attendee where the
/// comments can be read.
pub open spec fn is_read_as(
    r: Result<Event, ScrapeError>,
    item: Event,
    comments: Seq<RawComment>,
    attendees: Seq<RawAttendee>,
    timestamp: Timestamp,
) -> bool {
    &&& r is Ok <==> comments_readable(comments) && attendees_readable(attendees)
    &&& r matches Ok(event) ==> has_details(event, item, comments, attendees, timestamp)
    &&& r matches Err(e) ==> e == if !comments_readable(comments) {
        ScrapeError::Comment
    } else {
        ScrapeError::Attendee
    }
}

/// `r` is what is made of an event of the list and of its page: what is
/// made of the comments and the attendees that the page holds, or the
/// error for a page that is too long to be searched.
pub open spec fn is_scraped_from(
    r: Result<Event, ScrapeError>,
    item: Event,
    page: Seq<char>,
    timestamp: Timestamp,
) -> bool {
    if page.len() >= MAX_PAGE_CHARS {
        r is Err && r->Err_0 == ScrapeError::PageTooLong
    } else {
        exists|comments: Seq<RawComment>, attendees: Seq<RawAttendee>|
            #![trigger holds_comments(page, comments), holds_attendees(page, attendees)]
            holds_comments(page, comments) && holds_attendees(page, attendees) && is_read_as(
                r,
                item,
                comments,
                attendees,
                timestamp,
            )
    }
}

impl Event {
    /// The event of the list of events with the details of its page, given
    /// what the page holds of comments and attendees and the instant at
    /// which it was fetched.
    pub fn with_details(
        event_item: Event,
        comments: Vec<RawComment>,
        attendees: Vec<RawAttendee>,
        timestamp: Timestamp,
    ) -> (r: Result<Event, ScrapeError>)
        ensures
            is_read_as(r, event_item, comments@, attendees@, timestamp),
    {
        let ghost raws = comments@;
        let mut queue = Queue::new(comments);
        let mut read: Vec<Comment> = Vec::new();
        while queue.len() > 0
            invariant
                raws == comments@,
                read@.len() + queue@.len() == raws.len(),
                queue@ == raws.skip(read@.len() as int),
                forall|i: int|
                    0 <= i < read@.len() ==> comment_parts(raws[i]) == Some(
                        ((#[trigger] read@[i]).author@, read@[i].date@, read@[i].text@),
                    ),
            decreases queue@.len(),
        {
            let ghost k = read@.len() as int;
            assert(raws.skip(k).skip(1) == raws.skip(k + 1));
            match queue.next() {
                Some(raw) => match comment_from_raw(raw) {
                    Some(comment) => read.push(comment),
                    None => {
                        assert(comment_parts(raws[k]) is None);
                        return Err(ScrapeError::Comment);
                    },
                },
                None => {},
            }
        }
        assert(comments_readable(raws)) by {
            assert forall|i: int| 0 <= i < raws.len() implies comment_parts(#[trigger] raws[i]) is Some by {
                assert(comment_parts(raws[i]) == Some((read@[i].author@, read@[i].date@, read@[i].text@)));
            }
        }
        let ghost people = attendees@;
        let mut queue = Queue::new(attendees);
        let mut came: Vec<Attendee> = Vec::new();
        while queue.len() > 0
            invariant
                comments_readable(raws),
                raws == comments@,
                people == attendees@,
                came@.len() + queue@.len() == people.len(),
                queue@ == people.skip(came@.len() as int),
                forall|i: int|
                    0 <= i < came@.len() ==> (#[trigger] came@[i]).name == people[i].name
                        && attendee_parts(people[i].tickets@) == Some(
                        (came@[i].count, came@[i].comment@),
                    ),
            decreases queue@.len(),
        {
            let ghost k = came@.len() as int;
            assert(people.skip(k).skip(1) == people.skip(k + 1));
            match queue.next() {
                Some(raw) => match attendee_from_raw(raw) {
                    Some(attendee) => came.push(attendee),
                    None => {
                        assert(attendee_parts(people[k].tickets@) is None);
                        return Err(ScrapeError::Attendee);
                    },
                },
                None => {},
            }
        }
        assert(attendees_readable(people)) by {
            assert forall|i: int| 0 <= i < people.len() implies attendee_parts(
                (#[trigger] people[i]).tickets@,
            ) is Some by {
                assert(came@[i].name == people[i].name);
            }
        }
        let comments = if read.len() == 0 {
            None
        } else {
            Some(read)
        };
        let attendees = if came.len() == 0 {
            None
        } else {
            Some(came)
        };
        Ok(
            Event {
                id: event_item.id,
                title: event_item.title,
                url: event_item.url,
                start_date: event_item.start_date,
                end_date: event_item.end_date,
                location: event_item.location,
                description: event_item.description,
                comments,
                attendees,
                timestamp: Some(timestamp),
            },
        )
    }

    /// The event of the list of events with the details that its page
    /// holds, fetched at the instant given. A page that is too long is not
    /// searched.
    pub fn try_from(event_page_timestamp: (Event, Page, Timestamp)) -> (r: Result<Event, ScrapeError>)
        ensures
            is_scraped_from(
                r,
                event_page_timestamp.0,
                event_page_timestamp.1.0@,
                event_page_timestamp.2,
            ),
    {
        let (event_item, page, timestamp) = event_page_timestamp;
        let comments = match raw_comments(page.as_ref()) {
            Ok(comments) => comments,
            Err(e) => {
                return Err(e);
            },
        };
        let attendees = match raw_attendees(page.as_ref()) {
            Ok(attendees) => attendees,
            Err(e) => {
                return Err(e);
            },
        };
        let ghost c = comments@;
        let ghost a = attendees@;
        let r = Event::with_details(event_item, comments, attendees, timestamp);
        assert(holds_comments(page.0@, c) && holds_attendees(page.0@, a));
        r
    }
}

/// The place of an event that starts on `day` among events in order of
/// their first day: behind the last event that starts no later.
pub open spec fn place_of(events: Seq<Event>, day: (int, int, int)) -> int
    decreases events.len(),
{
    if events.len() == 0 {
        0
    } else if date_lt(day, events.last().start_date@) {
        place_of(events.drop_last(), day)
    } else {
        events.len() as int
    }
}

/// The events in the order of their first day. Events that start on the
/// same day keep their order.
pub open spec fn by_start_date(events: Seq<Event>) -> Seq<Event>
    decreases events.len(),
{
    if events.len() == 0 {
        Seq::empty()
    } else {
        by_start_date(events.drop_last()).insert(
            place_of(by_start_date(events.drop_last()), events.last().start_date@),
            events.last(),
        )
    }
}

/// No event of the list starts before an event that stands before it.
pub open spec fn in_start_order(events: Seq<Event>) -> bool {
    forall|i: int, j: int|
        0 <= i < j < events.len() ==> !date_lt(
            (#[trigger] events[j]).start_date@,
            (#[trigger] events[i]).start_date@,
        )
}

/// The place of an event is within the list; the events before it start no
/// later, those from it on start later, where the list is in order.
pub proof fn lemma_place_of(events: Seq<Event>, day: (int, int, int))
    ensures
        0 <= place_of(events, day) <= events.len(),
        forall|i: int|
            place_of(events, day) <= i < events.len() ==> date_lt(
                day,
                (#[trigger] events[i]).start_date@,
            ),
        in_start_order(events) ==> forall|i: int|
            0 <= i < place_of(events, day) ==> !date_lt(day, (#[trigger] events[i]).start_date@),
    decreases events.len(),
{
    if events.len() > 0 {
        if date_lt(day, events.last().start_date@) {
            let rest = events.drop_last();
            lemma_place_of(rest, day);
            assert forall|i: int| place_of(events, day) <= i < events.len() implies date_lt(
                day,
                (#[trigger] events[i]).start_date@,
            ) by {
                if i < rest.len() {
                    assert(rest[i] == events[i]);
                }
            }
            if in_start_order(events) {
                assert(in_start_order(rest)) by {
                    assert forall|i: int, j: int| 0 <= i < j < rest.len() implies !date_lt(
                        (#[trigger] rest[j]).start_date@,
                        (#[trigger] rest[i]).start_date@,
                    ) by {
                        assert(rest[i] == events[i] && rest[j] == events[j]);
                    }
                }
                assert forall|i: int| 0 <= i < place_of(events, day) implies !date_lt(
                    day,
                    (#[trigger] events[i]).start_date@,
                ) by {
                    assert(rest[i] == events[i]);
                }
            }
        } else {
            if in_start_order(events) {
                assert forall|i: int| 0 <= i < events.len() implies !date_lt(
                    day,
                    (#[trigger] events[i]).start_date@,
                ) by {
                    if i < events.len() - 1 {
                        assert(!date_lt(events[events.len() - 1].start_date@, events[i].start_date@));
                    }
                }
            }
        }
    }
}

/// The events in the order of their first day are the same events, and
/// none of them starts before one that stands before it.
pub proof fn lemma_by_start_date(events: Seq<Event>)
    ensures
        by_start_date(events).len() == events.len(),
        by_start_date(events).to_multiset() == events.to_multiset(),
        in_start_order(by_start_date(events)),
    decreases events.len(),
{
    broadcast use vstd::seq_lib::group_to_multiset_ensures;

    if events.len() > 0 {
        let rest = events.drop_last();
        let last = events.last();
        lemma_by_start_date(rest);
        let sorted = by_start_date(rest);
        let at = place_of(sorted, last.start_date@);
        lemma_place_of(sorted, last.start_date@);
        let out = sorted.insert(at, last);
        assert(events == rest.push(last));
        assert(out.to_multiset() == sorted.to_multiset().insert(last));
        assert(events.to_multiset() == rest.to_multiset().insert(last));
        assert forall|i: int, j: int| 0 <= i < j < out.len() implies !date_lt(
            (#[trigger] out[j]).start_date@,
            (#[trigger] out[i]).start_date@,
        ) by {
            if j < at {
                assert(out[i] == sorted[i] && out[j] == sorted[j]);
            } else if j == at {
                assert(out[i] == sorted[i]);
            } else if i < at {
                assert(out[i] == sorted[i] && out[j] == sorted[j - 1]);
            } else if i == at {
                assert(out[j] == sorted[j - 1]);
            } else {
                assert(out[i] == sorted[i - 1] && out[j] == sorted[j - 1]);
            }
        }
    } else {
        assert(by_start_date(events) =~= events);
    }
}

/// Puts the events in the order of their first day. Events that start on
/// the same day keep their order.
pub fn sort_by_start_date(events: Vec<Event>) -> (r: Vec<Event>)
    ensures
        r@ == by_start_date(events@),
{
    let ghost given = events@;
    let mut queue = Queue::new(events);
    let mut out: Vec<Event> = Vec::new();
    while queue.len() > 0
        invariant
            out@.len() + queue@.len() == given.len(),
            queue@ == given.skip(out@.len() as int),
            out@ == by_start_date(given.take(out@.len() as int)),
        decreases queue@.len(),
    {
        let ghost k = out@.len() as int;
        let ghost done = given.take(k);
        assert(given.skip(k).skip(1) == given.skip(k + 1));
        match queue.next() {
            Some(event) => {
                assert(given.take(k + 1).drop_last() == done);
                assert(given.take(k + 1).last() == event);
                let mut at: usize = out.len();
                assert(out@.take(out@.len() as int) == out@);
                while at > 0 && event.start_date.is_before(&out[at - 1].start_date)
                    invariant
                        at <= out@.len(),
                        place_of(out@, event.start_date@) == place_of(
                            out@.take(at as int),
                            event.start_date@,
                        ),
                    decreases at,
                {
                    assert(out@.take(at as int).drop_last() == out@.take(at - 1));
                    assert(out@.take(at as int).last() == out@[at - 1]);
                    at = at - 1;
                }
                proof {
                    if at > 0 {
                        assert(out@.take(at as int).last() == out@[at - 1]);
                    }
                    assert(out@.take(out@.len() as int) == out@);
                }
                out.insert(at, event);
            },
            None => {},
        }
    }
    assert(given.take(given.len() as int) == given);
    out
}

/// The addresses with each alias resolved: an address that the table
/// knows gives way to the address that the table holds for it, as the
/// remote service would do by itself; any other address stays. Of several
/// entries for an address the last counts.
pub open spec fn resolved(email: Seq<char>, aliases: Seq<(String, String)>) -> Seq<char> {
    match crate::ordered_map::last_value(crate::ordered_map::pair_views(aliases), email) {
        Some(other) => other,
        None => email,
    }
}

/// Resolves each of the addresses by the table of aliases, so that the
/// sync compares the addresses that the remote service will hold.
pub fn apply_email_aliases(emails: &[String], aliases: &Vec<(String, String)>) -> (r: Vec<String>)
    ensures
        r@.len() == emails@.len(),
        forall|i: int| 0 <= i < r@.len() ==> (#[trigger] r@[i])@ == resolved(emails@[i]@, aliases@),
{
    let mut out: Vec<String> = Vec::new();
    let mut i: usize = 0;
    while i < emails.len()
        invariant
            i <= emails@.len(),
            out@.len() == i,
            forall|j: int| 0 <= j < i ==> (#[trigger] out@[j])@ == resolved(emails@[j]@, aliases@),
        decreases emails@.len() - i,
    {
        let ghost pairs = crate::ordered_map::pair_views(aliases@);
        let mut found: Option<usize> = None;
        let mut k: usize = aliases.len();
        assert(pairs.take(pairs.len() as int) == pairs);
        while k > 0 && found.is_none()
            invariant
                k <= aliases@.len(),
                pairs == crate::ordered_map::pair_views(aliases@),
                i < emails@.len(),
                crate::ordered_map::last_value(pairs, emails@[i as int]@) == match found {
                    Some(p) => Some(aliases@[p as int].1@),
                    None => crate::ordered_map::last_value(pairs.take(k as int), emails@[i as int]@),
                },
                found matches Some(p) ==> p < aliases@.len(),
            decreases k + if found is None { 1int } else { 0int },
        {
            assert(pairs.take(k as int).drop_last() == pairs.take(k - 1));
            assert(pairs.take(k as int).last() == pairs[k - 1]);
            if aliases[k - 1].0 == emails[i] {
                found = Some(k - 1);
            } else {
                k = k - 1;
            }
        }
        let email = match found {
            Some(p) => aliases[p].1.clone(),
            None => emails[i].clone(),
        };
        out.push(email);
        i = i + 1;
    }
    out
}

} // verus!
