//! The source records: the club's events and members as the club's site
//! gives them.

use vstd::prelude::*;
use vstd::string::StringExecFns;
use crate::date::{date_text, rfc3339_text, Date, Timestamp, PACIFIC_WEST_SECS};
use crate::reconcile::Keyed;
use crate::text::str_eq;

verus! {

/// An event of the club's calendar. Its identity is `id`.
#[derive(Debug, Clone, PartialEq, Eq)]
pub struct Event {
    pub id: String,
    pub title: String,
    pub url: String,
    pub start_date: Date,
    pub end_date: Date,
    pub location: String,
    pub description: String,
    pub comments: Option<Vec<Comment>>,
    pub attendees: Option<Vec<Attendee>>,
    /// When the event's page was fetched.
    pub timestamp: Option<Timestamp>,
}

/// The text of an optional instant: RFC 3339 to the second in Pacific
/// standard time, or nothing.
pub open spec fn timestamp_text(timestamp: Option<Timestamp>) -> Seq<char> {
    match timestamp {
        Some(t) => rfc3339_text(t@.0, t@.1, PACIFIC_WEST_SECS as int),
        None => Seq::empty(),
    }
}

/// Writes out an optional instant.
pub fn format_timestamp(timestamp: &Option<Timestamp>) -> (r: String)
    ensures
        r@ == timestamp_text(*timestamp),
{
    match timestamp {
        Some(t) => t.to_pacific_rfc3339(),
        None => String::new(),
    }
}

impl Event {
    /// When the event's page was fetched, as text; empty where it was not.
    pub fn timestamp(&self) -> (r: String)
        ensures
            r@ == timestamp_text(self.timestamp),
    {
        format_timestamp(&self.timestamp)
    }
}

impl Event {
    /// The event in a line: the title, then the first and the last day in
    /// round brackets.
    pub open spec fn line(&self) -> Seq<char> {
        self.title@ + " ("@ + date_text(self.start_date@) + "/"@ + date_text(self.end_date@) + ")"@
    }

    /// The event in a line: the title, then the first and the last day.
    pub fn to_string(&self) -> (r: String)
        ensures
            r@ == self.line(),
    {
        let mut out = self.title.clone();
        out.append(" (");
        let start = self.start_date.to_string();
        out.append(start.as_str());
        out.append("/");
        let end = self.end_date.to_string();
        out.append(end.as_str());
        out.append(")");
        out
    }
}

impl Keyed for Event {
    open spec fn key_view(&self) -> Option<Seq<char>> {
        Some(self.id@)
    }

    fn key(&self) -> (k: Option<String>) {
        Some(self.id.clone())
    }
}

/// A comment on an event's page.
#[derive(Debug, Clone, PartialEq, Eq)]
pub struct Comment {
    pub author: String,
    pub date: Timestamp,
    pub text: String,
}

/// Someone who signed up for an event, with the size of the party.
#[derive(Debug, Clone, PartialEq, Eq)]
pub struct Attendee {
    pub name: String,
    pub count: u8,
    pub comment: String,
}

/// Which events to fetch, by date.
#[derive(Debug, Clone, Copy, PartialEq, Eq, Structural)]
pub enum DateSelect {
    /// All events.
    All,
    /// Only events in progress and to come.
    NotPast,
}

/// The kinds of membership.
#[derive(Debug, Clone, Copy, PartialEq, Eq, Structural, PartialOrd, Ord, Hash)]
pub enum MemberStatus {
    Applicant,
    Student,
    AM,
    HM,
    RM,
}

/// A text that names no status.
#[derive(Debug, Clone, PartialEq, Eq)]
pub struct UnrecognizedStatus {
    /// The text as it was given.
    pub text: String,
}

impl Default for MemberStatus {
    fn default() -> (r: Self)
        ensures
            r == MemberStatus::Applicant,
    {
        MemberStatus::Applicant
    }
}

/// The name of a kind of membership.
pub open spec fn member_status_name(status: MemberStatus) -> Seq<char> {
    match status {
        MemberStatus::Applicant => "Applicant"@,
        MemberStatus::Student => "Student"@,
        MemberStatus::AM => "AM"@,
        MemberStatus::HM => "HM"@,
        MemberStatus::RM => "RM"@,
    }
}

/// The kind of membership that a text names, if any.
pub open spec fn member_status_named(s: Seq<char>) -> Option<MemberStatus> {
    if s == "Applicant"@ {
        Some(MemberStatus::Applicant)
    } else if s == "Student"@ {
        Some(MemberStatus::Student)
    } else if s == "AM"@ {
        Some(MemberStatus::AM)
    } else if s == "HM"@ {
        Some(MemberStatus::HM)
    } else if s == "RM"@ {
        Some(MemberStatus::RM)
    } else {
        None
    }
}

impl MemberStatus {
    /// The kind of membership that the text names; the text itself comes
    /// back where it names none.
    pub fn parse(s: &str) -> (r: Result<MemberStatus, UnrecognizedStatus>)
        ensures
            match r {
                Ok(status) => member_status_named(s@) == Some(status),
                Err(e) => member_status_named(s@) is None && e.text@ == s@,
            },
    {
        if str_eq(s, "Applicant") {
            Ok(MemberStatus::Applicant)
        } else if str_eq(s, "Student") {
            Ok(MemberStatus::Student)
        } else if str_eq(s, "AM") {
            Ok(MemberStatus::AM)
        } else if str_eq(s, "HM") {
            Ok(MemberStatus::HM)
        } else if str_eq(s, "RM") {
            Ok(MemberStatus::RM)
        } else {
            Err(UnrecognizedStatus { text: String::from_str(s) })
        }
    }

    /// The name of the kind of membership.
    pub fn to_string(&self) -> (r: String)
        ensures
            r@ == member_status_name(*self),
    {
        match self {
            MemberStatus::Applicant => String::from_str("Applicant"),
            MemberStatus::Student => String::from_str("Student"),
            MemberStatus::AM => String::from_str("AM"),
            MemberStatus::HM => String::from_str("HM"),
            MemberStatus::RM => String::from_str("RM"),
        }
    }
}

impl core::str::FromStr for MemberStatus {
    type Err = UnrecognizedStatus;

    fn from_str(s: &str) -> (r: Result<Self, Self::Err>)
        ensures
            match r {
                Ok(status) => member_status_named(s@) == Some(status),
                Err(e) => member_status_named(s@) is None && e.text@ == s@,
            },
    {
        MemberStatus::parse(s)
    }
}

/// A status read back from its own name is the same status.
pub proof fn lemma_member_status_round_trip(status: MemberStatus)
    ensures
        member_status_named(member_status_name(status)) == Some(status),
{
    reveal_strlit("Applicant");
    reveal_strlit("Student");
    reveal_strlit("AM");
    reveal_strlit("HM");
    reveal_strlit("RM");
    assert("Applicant"@.len() == 9);
    assert("Student"@.len() == 7);
    assert("AM"@[0] == 'A');
    assert("HM"@[0] == 'H');
    assert("RM"@[0] == 'R');
}

/// The ranks of trip leaders.
#[derive(Debug, Clone, Copy, PartialEq, Eq, Structural, PartialOrd, Ord, Hash)]
pub enum TripLeaderStatus {
    G,
    S1,
    S2,
}

impl Default for TripLeaderStatus {
    fn default() -> (r: Self)
        ensures
            r == TripLeaderStatus::G,
    {
        TripLeaderStatus::G
    }
}

/// The name of a trip leader's rank.
pub open spec fn trip_leader_status_name(status: TripLeaderStatus) -> Seq<char> {
    match status {
        TripLeaderStatus::G => "G"@,
        TripLeaderStatus::S1 => "S1"@,
        TripLeaderStatus::S2 => "S2"@,
    }
}

/// The rank that a text names, if any.
pub open spec fn trip_leader_status_named(s: Seq<char>) -> Option<TripLeaderStatus> {
    if s == "G"@ {
        Some(TripLeaderStatus::G)
    } else if s == "S1"@ {
        Some(TripLeaderStatus::S1)
    } else if s == "S2"@ {
        Some(TripLeaderStatus::S2)
    } else {
        None
    }
}

impl TripLeaderStatus {
    /// The rank that the text names; the text itself comes back where it
    /// names none.
    pub fn parse(s: &str) -> (r: Result<TripLeaderStatus, UnrecognizedStatus>)
        ensures
            match r {
                Ok(status) => trip_leader_status_named(s@) == Some(status),
                Err(e) => trip_leader_status_named(s@) is None && e.text@ == s@,
            },
    {
        if str_eq(s, "G") {
            Ok(TripLeaderStatus::G)
        } else if str_eq(s, "S1") {
            Ok(TripLeaderStatus::S1)
        } else if str_eq(s, "S2") {
            Ok(TripLeaderStatus::S2)
        } else {
            Err(UnrecognizedStatus { text: String::from_str(s) })
        }
    }

    /// The name of the rank.
    pub fn to_string(&self) -> (r: String)
        ensures
            r@ == trip_leader_status_name(*self),
    {
        match self {
            TripLeaderStatus::G => String::from_str("G"),
            TripLeaderStatus::S1 => String::from_str("S1"),
            TripLeaderStatus::S2 => String::from_str("S2"),
        }
    }
}

impl core::str::FromStr for TripLeaderStatus {
    type Err = UnrecognizedStatus;

    fn from_str(s: &str) -> (r: Result<Self, Self::Err>)
        ensures
            match r {
                Ok(status) => trip_leader_status_named(s@) == Some(status),
                Err(e) => trip_leader_status_named(s@) is None && e.text@ == s@,
            },
    {
        TripLeaderStatus::parse(s)
    }
}

/// A rank read back from its own name is the same rank.
pub proof fn lemma_trip_leader_status_round_trip(status: TripLeaderStatus)
    ensures
        trip_leader_status_named(trip_leader_status_name(status)) == Some(status),
{
    reveal_strlit("G");
    reveal_strlit("S1");
    reveal_strlit("S2");
    assert("G"@.len() == 1);
    assert("S1"@[1] == '1');
    assert("S2"@[1] == '2');
}

/// A member of the club. The identity is the e-mail address.
#[derive(Debug, Clone, PartialEq, Eq, PartialOrd, Ord)]
pub struct User {
    pub id: String,
    pub name: String,
    pub member_status: MemberStatus,
    pub trip_leader_status: Option<TripLeaderStatus>,
    pub position: Option<String>,
    pub address: String,
    pub city: String,
    pub state: String,
    pub zipcode: String,
    pub phone: Option<String>,
    pub email: String,
    pub climbingtypes: Option<String>,
    pub lead: Option<String>,
    pub follow: Option<String>,
    pub favoriteclimbs: Option<String>,
    pub referredby: Option<String>,
    pub dob: Option<String>,
    pub applicantdate: Option<String>,
    pub membersince: Option<String>,
    pub resignedmembership: Option<String>,
    pub sex: Option<String>,
    pub caneval: bool,
    pub optedout: bool,
    pub block: bool,
    pub register_date: String,
    pub lastvisit_date: String,
    /// When the member's record was fetched.
    pub timestamp: Option<Timestamp>,
}

impl Default for User {
    fn default() -> (r: Self)
        ensures
            r.id@.len() == 0,
            r.name@.len() == 0,
            r.member_status == MemberStatus::Applicant,
            r.trip_leader_status is None,
            r.position is None,
            r.address@.len() == 0,
            r.city@.len() == 0,
            r.state@.len() == 0,
            r.zipcode@.len() == 0,
            r.phone is None,
            r.email@.len() == 0,
            r.climbingtypes is None,
            r.lead is None,
            r.follow is None,
            r.favoriteclimbs is None,
            r.referredby is None,
            r.dob is None,
            r.applicantdate is None,
            r.membersince is None,
            r.resignedmembership is None,
            r.sex is None,
            !r.caneval,
            !r.optedout,
            !r.block,
            r.register_date@.len() == 0,
            r.lastvisit_date@.len() == 0,
            r.timestamp is None,
    {
        User {
            id: String::new(),
            name: String::new(),
            member_status: MemberStatus::Applicant,
            trip_leader_status: None,
            position: None,
            address: String::new(),
            city: String::new(),
            state: String::new(),
            zipcode: String::new(),
            phone: None,
            email: String::new(),
            climbingtypes: None,
            lead: None,
            follow: None,
            favoriteclimbs: None,
            referredby: None,
            dob: None,
            applicantdate: None,
            membersince: None,
            resignedmembership: None,
            sex: None,
            caneval: false,
            optedout: false,
            block: false,
            register_date: String::new(),
            lastvisit_date: String::new(),
            timestamp: None,
        }
    }
}

/// A name with an address in angle brackets.
pub open spec fn name_email_text(name: Seq<char>, email: Seq<char>) -> Seq<char> {
    name + " <"@ + email + ">"@
}

/// A name followed by an address in angle brackets.
pub fn format_name_email(name: &str, email: &str) -> (r: String)
    ensures
        r@ == name_email_text(name@, email@),
{
    let mut out = String::from_str(name);
    out.append(" <");
    out.append(email);
    out.append(">");
    out
}

impl User {
    /// The member's name and e-mail address.
    pub fn name_email(&self) -> (r: String)
        ensures
            r@ == name_email_text(self.name@, self.email@),
    {
        format_name_email(self.name.as_str(), self.email.as_str())
    }

    /// The postal address on one line.
    pub open spec fn address_text(&self) -> Seq<char> {
        self.address@ + ", "@ + self.city@ + ", "@ + self.state@ + " "@ + self.zipcode@
    }

    /// The postal address on one line: street, city, state and zip code.
    pub fn address(&self) -> (r: String)
        ensures
            r@ == self.address_text(),
    {
        let mut out = self.address.clone();
        out.append(", ");
        out.append(self.city.as_str());
        out.append(", ");
        out.append(self.state.as_str());
        out.append(" ");
        out.append(self.zipcode.as_str());
        out
    }

    /// When the member's record was fetched, as text; empty where it was
    /// not.
    pub fn timestamp(&self) -> (r: String)
        ensures
            r@ == timestamp_text(self.timestamp),
    {
        format_timestamp(&self.timestamp)
    }
}

impl Keyed for User {
    open spec fn key_view(&self) -> Option<Seq<char>> {
        Some(self.email@)
    }

    fn key(&self) -> (k: Option<String>) {
        Some(self.email.clone())
    }
}

} // verus!
