//! The calendar: its access list and its events.

use vstd::prelude::*;
use vstd::string::StringExecFns;
use crate::reconcile::{
    bucket_keys, diff_keys, in_bucket, ints, key_views, keys_of, lemma_positions, positions,
    Bucket, Keyed, Keys,
};
use crate::date::{day_after, is_local_text, rfc3339_text, Date, PACIFIC_WEST_SECS};
use crate::executor::{planned, Planned};
use crate::lookup::first_position;
use crate::merge::{find_tagged, tags_of, Tag, Tagged};
use crate::reconcile_laws::lemma_bucket_keys;
use crate::model::{Attendee, Comment, Event};
use crate::reconcile::{exclude, lemma_unpinned_strings, lemma_without, string_set, without};
use crate::text::{
    clone_opt, decimal, format_decimal, format_zero_padded, opt_view, parse_u32, parsed_u32,
    str_eq, zero_padded, ParseNumberError,
};

verus! {

/// An e-mail address.
pub type Email = String;

/// Whom a rule of the access list is about.
#[derive(Debug, Clone, PartialEq, Eq)]
pub struct AclRuleScope {
    /// The kind of grantee; `user` for a single person.
    pub type_: Option<String>,
    /// The grantee: for a user, the e-mail address.
    pub value: Option<String>,
}

/// A rule of a calendar's access list.
#[derive(Debug, Clone, PartialEq, Eq)]
pub struct AclRule {
    /// The rule's identifier at the remote service.
    pub id: Option<String>,
    /// What the grantee may do: `reader`, `owner` and others.
    pub role: Option<String>,
    pub scope: Option<AclRuleScope>,
}

impl Default for AclRule {
    fn default() -> (r: Self)
        ensures
            r.id is None,
            r.role is None,
            r.scope is None,
    {
        AclRule { id: None, role: None, scope: None }
    }
}

impl AclRule {
    /// The rule grants the reader role.
    pub open spec fn is_reader(&self) -> bool {
        self.role is Some && self.role->0@ == "reader"@
    }

    /// The address the rule is about, where it names one.
    pub open spec fn grantee(&self) -> Option<Seq<char>> {
        match self.scope {
            Some(scope) => opt_view(scope.value),
            None => None,
        }
    }
}

/// Only the rules for readers take part in a sync, under the address they
/// are about. A rule for another role, or one that names no address, has no
/// key and so is left alone.
impl Keyed for AclRule {
    open spec fn key_view(&self) -> Option<Seq<char>> {
        if self.is_reader() {
            self.grantee()
        } else {
            None
        }
    }

    fn key(&self) -> (k: Option<String>) {
        let reader = match &self.role {
            Some(role) => str_eq(role.as_str(), "reader"),
            None => false,
        };
        if !reader {
            return None;
        }
        match &self.scope {
            Some(scope) => clone_opt(&scope.value),
            None => None,
        }
    }
}

/// One change to the access list.
#[derive(Debug, Clone, PartialEq, Eq)]
pub enum AclSyncOp {
    Insert(Email),
    Delete(Email),
}

/// The changes that bring the readers of the access list in line with a
/// list of addresses: the addresses to add and the addresses to remove,
/// none of them twice.
#[derive(Debug, Clone, PartialEq, Eq)]
pub struct AclSyncOpsResult {
    pub inserts: Vec<Email>,
    pub deletes: Vec<Email>,
}

/// The views of a list of strings.
pub open spec fn views(list: Seq<String>) -> Seq<Seq<char>> {
    Seq::new(list.len(), |i: int| list[i]@)
}

/// The addresses as keys: each address is its own key.
pub open spec fn address_keys(emails: Seq<&str>) -> Keys {
    Seq::new(emails.len(), |i: int| Some(emails[i]@))
}

/// The settings of a calendar sync.
pub struct GCal {
    pub calendar_id: String,
    pub dry_run: bool,
    pub notify_acl_insert: bool,
}

impl GCal {
    /// The changes that bring the readers among `rules` in line with
    /// `emails`: an address without a reader rule is inserted, a reader
    /// whose address is not listed is deleted. Rules for other roles are
    /// passed over.
    pub fn acl_sync_ops(emails: &[&str], rules: &[AclRule]) -> (r: AclSyncOpsResult)
        ensures
            views(r.inserts@) == bucket_keys(
                Bucket::Insert,
                address_keys(emails@),
                keys_of(rules@),
            ),
            views(r.deletes@) == bucket_keys(
                Bucket::Delete,
                address_keys(emails@),
                keys_of(rules@),
            ),
            views(r.inserts@).no_duplicates(),
            views(r.deletes@).no_duplicates(),
    {
        let ghost ek = address_keys(emails@);
        let ghost rk = keys_of(rules@);
        let mut email_keys: Vec<Option<String>> = Vec::new();
        let mut i: usize = 0;
        while i < emails.len()
            invariant
                i <= emails@.len(),
                email_keys@.len() == i,
                forall|j: int| 0 <= j < i ==> opt_view(#[trigger] email_keys@[j]) == Some(emails@[j]@),
            decreases emails@.len() - i,
        {
            email_keys.push(Some(String::from_str(emails[i])));
            i = i + 1;
        }
        assert(key_views(email_keys@) == ek);
        let mut rule_keys: Vec<Option<String>> = Vec::new();
        let mut i: usize = 0;
        while i < rules.len()
            invariant
                i <= rules@.len(),
                rule_keys@.len() == i,
                forall|j: int| 0 <= j < i ==> opt_view(#[trigger] rule_keys@[j]) == rules@[j].key_view(),
            decreases rules@.len() - i,
        {
            rule_keys.push(rules[i].key());
            i = i + 1;
        }
        assert(key_views(rule_keys@) == rk);
        let plan = diff_keys(&email_keys, &rule_keys);
        proof {
            lemma_positions(Bucket::Insert, ek, rk);
            lemma_positions(Bucket::Delete, ek, rk);
            lemma_bucket_keys(Bucket::Insert, ek, rk);
            lemma_bucket_keys(Bucket::Delete, ek, rk);
        }
        assert forall|n: int| 0 <= n < plan.inserts@.len() implies (#[trigger] plan.inserts@[n])
            < email_keys@.len() && email_keys@[plan.inserts@[n] as int] is Some by {
            let p = positions(Bucket::Insert, ek, rk)[n];
            assert(ints(plan.inserts@)[n] == p);
            assert(in_bucket(Bucket::Insert, ek, rk, p));
            assert(key_views(email_keys@)[p] == opt_view(email_keys@[p]));
        }
        assert forall|n: int| 0 <= n < plan.deletes@.len() implies (#[trigger] plan.deletes@[n])
            < rule_keys@.len() && rule_keys@[plan.deletes@[n] as int] is Some by {
            let p = positions(Bucket::Delete, ek, rk)[n];
            assert(ints(plan.deletes@)[n] == p);
            assert(in_bucket(Bucket::Delete, ek, rk, p));
            assert(key_views(rule_keys@)[p] == opt_view(rule_keys@[p]));
        }
        let inserts = pick_keys(&email_keys, &plan.inserts);
        let deletes = pick_keys(&rule_keys, &plan.deletes);
        assert(views(inserts@) == bucket_keys(Bucket::Insert, ek, rk));
        assert(views(deletes@) == bucket_keys(Bucket::Delete, ek, rk));
        AclSyncOpsResult { inserts, deletes }
    }
}

/// The keys at the given positions.
fn pick_keys(keys: &Vec<Option<String>>, at: &Vec<usize>) -> (r: Vec<String>)
    requires
        forall|n: int| 0 <= n < at@.len() ==> (#[trigger] at@[n]) < keys@.len() && keys@[at@[n] as int] is Some,
    ensures
        r@.len() == at@.len(),
        forall|n: int| 0 <= n < at@.len() ==> (#[trigger] r@[n])@ == keys@[at@[n] as int]->0@,
{
    let mut out: Vec<String> = Vec::new();
    let mut n: usize = 0;
    while n < at.len()
        invariant
            n <= at@.len(),
            out@.len() == n,
            forall|m: int| 0 <= m < at@.len() ==> (#[trigger] at@[m]) < keys@.len() && keys@[at@[m] as int] is Some,
            forall|m: int| 0 <= m < n ==> (#[trigger] out@[m])@ == keys@[at@[m] as int]->0@,
        decreases at@.len() - n,
    {
        assert(at@[n as int] < keys@.len());
        match &keys[at[n]] {
            Some(k) => out.push(k.clone()),
            None => {},
        }
        n = n + 1;
    }
    out
}

impl AclSyncOpsResult {
    /// Takes the pinned addresses out of both buckets, so that the rule of
    /// a calendar owner is neither added nor removed by the sync.
    pub fn exclude(self, owners: &[String]) -> (r: AclSyncOpsResult)
        ensures
            views(r.inserts@) == without(views(self.inserts@), string_set(owners@)),
            views(r.deletes@) == without(views(self.deletes@), string_set(owners@)),
            views(self.inserts@).no_duplicates() ==> views(r.inserts@).no_duplicates(),
            views(self.deletes@).no_duplicates() ==> views(r.deletes@).no_duplicates(),
    {
        proof {
            lemma_unpinned_strings(self.inserts@, string_set(owners@));
            lemma_unpinned_strings(self.deletes@, string_set(owners@));
            lemma_without(views(self.inserts@), string_set(owners@));
            lemma_without(views(self.deletes@), string_set(owners@));
        }
        let inserts = exclude(self.inserts, owners);
        let deletes = exclude(self.deletes, owners);
        AclSyncOpsResult { inserts, deletes }
    }

    /// The changes one by one: first the inserts, then the deletes, each
    /// bucket in its order.
    pub fn into_ops(self) -> (r: Vec<AclSyncOp>)
        ensures
            op_views(r@) == sync_ops(views(self.inserts@), views(self.deletes@)),
    {
        let ghost ins = views(self.inserts@);
        let ghost del = views(self.deletes@);
        let mut out: Vec<AclSyncOp> = Vec::new();
        let mut i: usize = 0;
        while i < self.inserts.len()
            invariant
                i <= self.inserts@.len(),
                ins == views(self.inserts@),
                out@.len() == i,
                forall|j: int| 0 <= j < i ==> op_view(#[trigger] out@[j]) == (true, ins[j]),
            decreases self.inserts@.len() - i,
        {
            out.push(AclSyncOp::Insert(self.inserts[i].clone()));
            i = i + 1;
        }
        let mut i: usize = 0;
        while i < self.deletes.len()
            invariant
                i <= self.deletes@.len(),
                ins == views(self.inserts@),
                del == views(self.deletes@),
                out@.len() == ins.len() + i,
                forall|j: int| 0 <= j < ins.len() ==> op_view(#[trigger] out@[j]) == (true, ins[j]),
                forall|j: int|
                    0 <= j < i ==> op_view(#[trigger] out@[ins.len() + j]) == (false, del[j]),
            decreases self.deletes@.len() - i,
        {
            out.push(AclSyncOp::Delete(self.deletes[i].clone()));
            i = i + 1;
        }
        assert(op_views(out@) =~= sync_ops(ins, del)) by {
            assert forall|j: int| 0 <= j < out@.len() implies op_views(out@)[j] == sync_ops(
                ins,
                del,
            )[j] by {
                if j >= ins.len() {
                    assert(op_view(out@[ins.len() + (j - ins.len())]) == (false, del[j - ins.len()]));
                }
            }
        }
        out
    }
}

/// A change to the access list as plain values: whether it is an insert,
/// and the address.
pub open spec fn op_view(op: AclSyncOp) -> (bool, Seq<char>) {
    match op {
        AclSyncOp::Insert(email) => (true, email@),
        AclSyncOp::Delete(email) => (false, email@),
    }
}

/// The changes of a list as plain values.
pub open spec fn op_views(ops: Seq<AclSyncOp>) -> Seq<(bool, Seq<char>)> {
    Seq::new(ops.len(), |i: int| op_view(ops[i]))
}

/// The changes for two buckets of addresses: an insert for each of the
/// first, then a delete for each of the second.
pub open spec fn sync_ops(inserts: Seq<Seq<char>>, deletes: Seq<Seq<char>>) -> Seq<
    (bool, Seq<char>),
> {
    Seq::new(inserts.len(), |i: int| (true, inserts[i])) + Seq::new(
        deletes.len(),
        |i: int| (false, deletes[i]),
    )
}

/// Whether the remote service is to send an invitation by e-mail when a
/// rule is added.
#[derive(Debug, Clone, Copy, PartialEq, Eq, Structural)]
pub struct SendNotifications(pub bool);

impl From<SendNotifications> for bool {
    fn from(s: SendNotifications) -> (r: bool) {
        s.0
    }
}

impl vstd::std_specs::convert::FromSpecImpl<SendNotifications> for bool {
    open spec fn obeys_from_spec() -> bool {
        true
    }

    open spec fn from_spec(s: SendNotifications) -> bool {
        s.0
    }
}

impl From<bool> for SendNotifications {
    fn from(b: bool) -> (r: SendNotifications) {
        SendNotifications(b)
    }
}

impl vstd::std_specs::convert::FromSpecImpl<bool> for SendNotifications {
    open spec fn obeys_from_spec() -> bool {
        true
    }

    open spec fn from_spec(b: bool) -> SendNotifications {
        SendNotifications(b)
    }
}

/// A write to the access list.
#[derive(Debug, Clone, PartialEq, Eq)]
pub enum AclCall {
    /// Adds the rule to the calendar's access list.
    Insert { calendar_id: String, rule: AclRule, send_notifications: bool },
    /// Removes the rule with this identifier from the calendar's access
    /// list.
    Delete { calendar_id: String, rule_id: String },
}

/// A write to the access list as plain values.
pub enum AclCallView {
    Insert { calendar_id: Seq<char>, role: Seq<char>, email: Seq<char>, send_notifications: bool },
    Delete { calendar_id: Seq<char>, rule_id: Seq<char> },
    /// An insert of a rule that is no rule for a single user.
    Other,
}

impl View for AclCall {
    type V = AclCallView;

    open spec fn view(&self) -> AclCallView {
        match self {
            AclCall::Insert { calendar_id, rule, send_notifications } => {
                if rule.id is None && rule.role is Some && rule.scope is Some
                    && rule.scope->0.type_ is Some && rule.scope->0.type_->0@ == "user"@
                    && rule.scope->0.value is Some {
                    AclCallView::Insert {
                        calendar_id: calendar_id@,
                        role: rule.role->0@,
                        email: rule.scope->0.value->0@,
                        send_notifications: *send_notifications,
                    }
                } else {
                    AclCallView::Other
                }
            },
            AclCall::Delete { calendar_id, rule_id } => AclCallView::Delete {
                calendar_id: calendar_id@,
                rule_id: rule_id@,
            },
        }
    }
}

/// The identifier of the rule for a single user.
pub open spec fn user_rule_id(email: Seq<char>) -> Seq<char> {
    "user:"@ + email
}

impl GCal {
    /// The settings of a sync with the calendar `calendar_id`.
    pub fn new(calendar_id: String, dry_run: bool, notify_acl_insert: bool) -> (r: GCal)
        ensures
            r.calendar_id == calendar_id,
            r.dry_run == dry_run,
            r.notify_acl_insert == notify_acl_insert,
    {
        GCal { calendar_id, dry_run, notify_acl_insert }
    }

    /// The call that grants `role` to the user `email`. On a dry run it is
    /// built and not sent.
    pub fn acl_insert(&self, email: &str, role: &str, send_notifications: SendNotifications) -> (r:
        Planned<AclCall>)
        ensures
            r.send == !self.dry_run,
            r.call@ == (AclCallView::Insert {
                calendar_id: self.calendar_id@,
                role: role@,
                email: email@,
                send_notifications: send_notifications.0,
            }),
    {
        let rule = AclRule {
            id: None,
            role: Some(String::from_str(role)),
            scope: Some(
                AclRuleScope {
                    type_: Some(String::from_str("user")),
                    value: Some(String::from_str(email)),
                },
            ),
        };
        planned(
            AclCall::Insert {
                calendar_id: self.calendar_id.clone(),
                rule,
                send_notifications: send_notifications.0,
            },
            self.dry_run,
        )
    }

    /// The call that removes the rule of the user `email`. On a dry run it
    /// is built and not sent.
    pub fn acl_delete(&self, email: &str) -> (r: Planned<AclCall>)
        ensures
            r.send == !self.dry_run,
            r.call@ == (AclCallView::Delete {
                calendar_id: self.calendar_id@,
                rule_id: user_rule_id(email@),
            }),
    {
        let mut rule_id = String::from_str("user:");
        rule_id.append(email);
        planned(AclCall::Delete { calendar_id: self.calendar_id.clone(), rule_id }, self.dry_run)
    }

    /// The call for one change of a sync: an insert grants the reader role
    /// and notifies as the settings say; a delete removes the user's rule.
    pub fn acl_insert_or_delete(&self, op: &AclSyncOp) -> (r: Planned<AclCall>)
        ensures
            r.send == !self.dry_run,
            r.call@ == self.sync_call(op_view(*op)),
    {
        match op {
            AclSyncOp::Insert(email) => self.acl_insert(
                email.as_str(),
                "reader",
                SendNotifications(self.notify_acl_insert),
            ),
            AclSyncOp::Delete(email) => self.acl_delete(email.as_str()),
        }
    }

    /// The call for a change given as plain values.
    pub open spec fn sync_call(&self, op: (bool, Seq<char>)) -> AclCallView {
        if op.0 {
            AclCallView::Insert {
                calendar_id: self.calendar_id@,
                role: "reader"@,
                email: op.1,
                send_notifications: self.notify_acl_insert,
            }
        } else {
            AclCallView::Delete { calendar_id: self.calendar_id@, rule_id: user_rule_id(op.1) }
        }
    }

    /// The calls that make each of `owners` an owner of the calendar. None
    /// of them has the remote service send a notification.
    pub fn owner_inserts(&self, owners: &[String]) -> (r: Vec<Planned<AclCall>>)
        ensures
            r@.len() == owners@.len(),
            forall|i: int|
                0 <= i < r@.len() ==> (#[trigger] r@[i]).send == !self.dry_run && r@[i].call@ == (
                AclCallView::Insert {
                    calendar_id: self.calendar_id@,
                    role: "owner"@,
                    email: owners@[i]@,
                    send_notifications: false,
                }),
    {
        let mut out: Vec<Planned<AclCall>> = Vec::new();
        let mut i: usize = 0;
        while i < owners.len()
            invariant
                i <= owners@.len(),
                out@.len() == i,
                forall|j: int|
                    0 <= j < i ==> (#[trigger] out@[j]).send == !self.dry_run && out@[j].call@ == (
                    AclCallView::Insert {
                        calendar_id: self.calendar_id@,
                        role: "owner"@,
                        email: owners@[j]@,
                        send_notifications: false,
                    }),
            decreases owners@.len() - i,
        {
            out.push(self.acl_insert(owners[i].as_str(), "owner", SendNotifications(false)));
            i = i + 1;
        }
        out
    }

    /// Plans the sync of the calendar's readers with `emails`, given the
    /// rules of the access list as listed. The owners are pinned: none of
    /// them is inserted or deleted. The calls come in the order in which
    /// they are to be made: the inserts, then the deletes.
    pub fn acl_sync(&self, emails: &[&str], owners: &[String], acls: &[AclRule]) -> (r: Vec<
        Planned<AclCall>,
    >)
        ensures
            r@.len() == self.sync_plan(emails@, owners@, acls@).len(),
            forall|i: int|
                0 <= i < r@.len() ==> (#[trigger] r@[i]).send == !self.dry_run && r@[i].call@
                    == self.sync_call(self.sync_plan(emails@, owners@, acls@)[i]),
    {
        let ops = GCal::acl_sync_ops(emails, acls).exclude(owners).into_ops();
        let ghost plan = self.sync_plan(emails@, owners@, acls@);
        assert(op_views(ops@) == plan);
        let mut out: Vec<Planned<AclCall>> = Vec::new();
        let mut i: usize = 0;
        while i < ops.len()
            invariant
                i <= ops@.len(),
                op_views(ops@) == plan,
                out@.len() == i,
                forall|j: int|
                    0 <= j < i ==> (#[trigger] out@[j]).send == !self.dry_run && out@[j].call@
                        == self.sync_call(plan[j]),
            decreases ops@.len() - i,
        {
            assert(op_views(ops@)[i as int] == op_view(ops@[i as int]));
            out.push(self.acl_insert_or_delete(&ops[i]));
            i = i + 1;
        }
        assert(op_views(ops@).len() == ops@.len());
        out
    }

    /// The changes of a sync as plain values: the addresses without a
    /// reader rule and the readers that are not listed, both without the
    /// owners.
    pub open spec fn sync_plan(&self, emails: Seq<&str>, owners: Seq<String>, acls: Seq<AclRule>) -> Seq<
        (bool, Seq<char>),
    > {
        sync_ops(
            without(
                bucket_keys(Bucket::Insert, address_keys(emails), keys_of(acls)),
                string_set(owners),
            ),
            without(
                bucket_keys(Bucket::Delete, address_keys(emails), keys_of(acls)),
                string_set(owners),
            ),
        )
    }
}

/// One of the caller's calendars, as the remote service lists it.
#[derive(Debug, Clone, PartialEq, Eq)]
pub struct CalendarListEntry {
    /// The calendar's identifier.
    pub id: Option<String>,
    /// The calendar's name.
    pub summary: Option<String>,
}

/// A calendar to create.
#[derive(Debug, Clone, PartialEq, Eq)]
pub struct Calendar {
    pub summary: Option<String>,
    pub description: Option<String>,
}

/// Where the calendar to sync to is.
#[derive(Debug, Clone, PartialEq, Eq)]
pub enum CalendarChoice {
    /// It exists and has this identifier.
    Found(String),
    /// It does not exist and is to be created as given.
    Insert(Calendar),
}

/// Why there is no calendar to sync to.
#[derive(Debug, Clone, Copy, PartialEq, Eq, Structural)]
pub enum CalendarError {
    /// The calendar does not exist, and a dry run creates none.
    DryRun,
    /// The calendar is listed without an identifier.
    MissingId,
}

impl CalendarError {
    /// The error in words.
    pub fn message(&self) -> (r: String)
        ensures
            r@ == match self {
                CalendarError::DryRun => "Cannot create calendar during dry run"@,
                CalendarError::MissingId => "Calendar has no identifier"@,
            },
    {
        match self {
            CalendarError::DryRun => String::from_str("Cannot create calendar during dry run"),
            CalendarError::MissingId => String::from_str("Calendar has no identifier"),
        }
    }
}

/// What a new calendar says of itself.
pub const CALENDAR_DESCRIPTION: &'static str =
    "This calendar is synced daily with the SCMA event calendar (https://www.rockclimbing.org/index.php/event-list/events-list) by scma-gsync (https://github.com/rfdonnelly/scma-gsync).";

/// A calendar is found again by its name.
impl Tagged for CalendarListEntry {
    open spec fn tag_view(&self) -> Tag {
        opt_view(self.summary)
    }

    fn tag(&self) -> (t: &Option<String>) {
        &self.summary
    }
}

/// The names of the listed calendars.
pub open spec fn calendar_names(calendars: Seq<CalendarListEntry>) -> Seq<Option<Seq<char>>> {
    tags_of(calendars)
}

/// Where the calendar named `name` is, given the calendars as listed: the
/// first of that name; where there is none, a calendar to create, unless
/// this is a dry run.
pub open spec fn calendar_choice(
    calendars: Seq<CalendarListEntry>,
    name: Seq<char>,
    dry_run: bool,
) -> Result<(bool, Seq<char>), CalendarError> {
    let at = first_position(calendar_names(calendars), Some(name));
    if at >= 0 {
        match calendars[at].id {
            Some(id) => Ok((true, id@)),
            None => Err(CalendarError::MissingId),
        }
    } else if dry_run {
        Err(CalendarError::DryRun)
    } else {
        Ok((false, name))
    }
}

impl GCal {
    /// Finds the calendar named `calendar_name` among the caller's
    /// calendars. Where there is none it is to be created, with its name
    /// and the fixed description; on a dry run that is an error, as there
    /// is then nothing to sync to.
    pub fn calendars_get_or_insert_by_name(
        calendars: &[CalendarListEntry],
        calendar_name: &str,
        dry_run: bool,
    ) -> (r: Result<CalendarChoice, CalendarError>)
        ensures
            match r {
                Ok(CalendarChoice::Found(id)) => calendar_choice(calendars@, calendar_name@, dry_run)
                    == Ok::<(bool, Seq<char>), CalendarError>((true, id@)),
                Ok(CalendarChoice::Insert(calendar)) => calendar_choice(
                    calendars@,
                    calendar_name@,
                    dry_run,
                ) == Ok::<(bool, Seq<char>), CalendarError>((false, calendar_name@))
                    && opt_view(calendar.summary) == Some(calendar_name@) && opt_view(
                    calendar.description,
                ) == Some(CALENDAR_DESCRIPTION@),
                Err(e) => calendar_choice(calendars@, calendar_name@, dry_run) == Err::<
                    (bool, Seq<char>),
                    CalendarError,
                >(e),
            },
    {
        let wanted = Some(String::from_str(calendar_name));
        match find_tagged(calendars, &wanted) {
            Some(at) => match &calendars[at].id {
                Some(id) => Ok(CalendarChoice::Found(id.clone())),
                None => Err(CalendarError::MissingId),
            },
            None => if dry_run {
                Err(CalendarError::DryRun)
            } else {
                Ok(
                    CalendarChoice::Insert(
                        Calendar {
                            summary: Some(String::from_str(calendar_name)),
                            description: Some(String::from_str(CALENDAR_DESCRIPTION)),
                        },
                    ),
                )
            },
        }
    }
}

/// A day, as the start or the end of an all-day event.
#[derive(Debug, Clone, Copy, PartialEq, Eq)]
pub struct EventDateTime {
    pub date: Option<Date>,
}

/// An event as the calendar holds it.
#[derive(Debug, Clone, PartialEq, Eq)]
pub struct CalendarEvent {
    pub id: Option<String>,
    pub summary: Option<String>,
    pub start: Option<EventDateTime>,
    /// The end of the event. The day is exclusive: the event ends before
    /// it.
    pub end: Option<EventDateTime>,
    pub description: Option<String>,
    pub location: Option<String>,
    /// The address of the event's page at the remote service, where the
    /// service has given one.
    pub html_link: Option<String>,
}

/// Why an event cannot be written to the calendar.
#[derive(Debug, Clone, Copy, PartialEq, Eq, Structural)]
pub enum EventError {
    /// The event's identifier is no number.
    Id(ParseNumberError),
    /// The event ends on the last day there is, so that no day follows.
    EndOutOfRange,
}

/// The least number of digits of an event's identifier at the calendar.
pub const EVENT_ID_WIDTH: usize = 5;

/// The identifier at the calendar of the event with the source identifier
/// `id`: the number in decimal, with zeros in front up to five digits.
pub open spec fn event_id_text(id: Seq<char>) -> Result<Seq<char>, ParseNumberError> {
    match parsed_u32(id) {
        Ok(n) => Ok(zero_padded(n as nat, EVENT_ID_WIDTH as nat)),
        Err(e) => Err(e),
    }
}

/// The event's identifier at the calendar. It depends on the source
/// identifier alone, so that every run writes to the same remote event.
pub fn event_id(event: &Event) -> (r: Result<String, ParseNumberError>)
    ensures
        match r {
            Ok(id) => event_id_text(event.id@) == Ok::<Seq<char>, ParseNumberError>(id@),
            Err(e) => event_id_text(event.id@) == Err::<Seq<char>, ParseNumberError>(e),
        },
{
    match parse_u32(event.id.as_str()) {
        Ok(n) => Ok(format_zero_padded(n, EVENT_ID_WIDTH)),
        Err(e) => Err(e),
    }
}

/// The event's title at the calendar.
pub open spec fn event_summary_text(title: Seq<char>) -> Seq<char> {
    "SCMA: "@ + title
}

/// The event's title at the calendar: the title with the club's name in
/// front.
pub fn event_summary(event: &Event) -> (r: String)
    ensures
        r@ == event_summary_text(event.title@),
{
    let mut out = String::from_str("SCMA: ");
    out.append(event.title.as_str());
    out
}

/// The event's first day.
pub fn event_start(event: &Event) -> (r: EventDateTime)
    ensures
        r.date == Some(event.start_date),
{
    EventDateTime { date: Some(event.start_date) }
}

/// The day sent as the end of an event. The calendar takes the end of an
/// all-day event as exclusive, so an event of several days is sent with the
/// day after its last; an event of a single day is sent with that day.
pub open spec fn event_end_day(start: (int, int, int), end: (int, int, int)) -> (int, int, int) {
    if start == end {
        end
    } else {
        day_after(end.0, end.1, end.2)
    }
}

/// The event's end as sent to the calendar. There is none for an event of
/// several days that ends on the last day a date can be.
pub fn event_end(event: &Event) -> (r: Result<EventDateTime, EventError>)
    ensures
        r is Err <==> event.start_date@ != event.end_date@ && event.end_date@ == (
            crate::date::MAX_YEAR as int,
            12int,
            31int,
        ),
        r matches Err(e) ==> e == EventError::EndOutOfRange,
        r matches Ok(end) ==> end.date is Some && end.date->0@ == event_end_day(
            event.start_date@,
            event.end_date@,
        ),
{
    if event.start_date.same_day(&event.end_date) {
        Ok(EventDateTime { date: Some(event.end_date) })
    } else {
        match event.end_date.succ_opt() {
            Some(next) => Ok(EventDateTime { date: Some(next) }),
            None => Err(EventError::EndOutOfRange),
        }
    }
}

/// One attendee as an item of a list.
pub open spec fn attendee_item(attendee: Attendee) -> Seq<char> {
    "<li>"@ + attendee.name@ + " ("@ + decimal(attendee.count as nat) + ") "@ + attendee.comment@
        + "</li>"@
}

/// The attendees as the items of a list.
pub open spec fn attendee_items(attendees: Seq<Attendee>) -> Seq<char>
    decreases attendees.len(),
{
    if attendees.len() == 0 {
        Seq::empty()
    } else {
        attendee_items(attendees.drop_last()) + attendee_item(attendees.last())
    }
}

/// One comment as an item of a list, with its date as the text given.
pub open spec fn comment_item(comment: Comment, date: Seq<char>) -> Seq<char> {
    "<li>"@ + comment.author@ + " ("@ + date + ") "@ + comment.text@ + "</li>"@
}

/// The comments as the items of a list, each with the date of the same
/// position.
pub open spec fn comment_items(comments: Seq<Comment>, dates: Seq<Seq<char>>) -> Seq<char>
    decreases comments.len(),
{
    if comments.len() == 0 {
        Seq::empty()
    } else {
        comment_items(comments.drop_last(), dates) + comment_item(
            comments.last(),
            dates[comments.len() - 1],
        )
    }
}

/// The note that ends the description of an event that was fetched at a
/// known instant.
pub open spec fn synced_note(at: Seq<char>) -> Seq<char> {
    "\n\nLast synced at "@ + at
        + " by <a href='https://github.com/rfdonnelly/scma-gsync'>scma-gsync</a>."@
}

/// The description of an event at the calendar: the address of its page,
/// its description, its attendees and its comments, and when it was
/// fetched. `dates` are the dates of the comments as text.
pub open spec fn description_text(event: Event, dates: Seq<Seq<char>>) -> Seq<char> {
    event.url@ + "<h3>Description</h3>"@ + event.description@ + "<h3>Attendees</h3>"@ + (
    match event.attendees {
        Some(attendees) => "<ol>"@ + attendee_items(attendees@) + "</ol>"@,
        None => "None"@,
    }) + "<h3>Comments</h3>"@ + (match event.comments {
        Some(comments) => "<ul>"@ + comment_items(comments@, dates) + "</ul>"@,
        None => "None"@,
    }) + (match event.timestamp {
        Some(t) => synced_note(rfc3339_text(t@.0, t@.1, PACIFIC_WEST_SECS as int)),
        None => Seq::empty(),
    })
}

/// The number of comments of an event.
pub open spec fn comment_count(event: Event) -> nat {
    match event.comments {
        Some(comments) => comments@.len(),
        None => 0,
    }
}

/// Writes the attendees as the items of a list.
fn append_attendees(out: &mut String, attendees: &Vec<Attendee>)
    ensures
        final(out)@ == old(out)@ + attendee_items(attendees@),
{
    let ghost head = out@;
    let mut i: usize = 0;
    assert(out@ =~= head + attendee_items(attendees@.take(0)));
    while i < attendees.len()
        invariant
            i <= attendees@.len(),
            out@ == head + attendee_items(attendees@.take(i as int)),
        decreases attendees@.len() - i,
    {
        let ghost before = out@;
        let attendee = &attendees[i];
        out.append("<li>");
        out.append(attendee.name.as_str());
        out.append(" (");
        let count = format_decimal(attendee.count as u32);
        out.append(count.as_str());
        out.append(") ");
        out.append(attendee.comment.as_str());
        out.append("</li>");
        assert(attendees@.take(i + 1).drop_last() == attendees@.take(i as int));
        assert(attendees@.take(i + 1).last() == attendees@[i as int]);
        assert(out@ =~= before + attendee_item(attendees@[i as int]));
        assert(out@ =~= head + attendee_items(attendees@.take(i + 1)));
        i = i + 1;
    }
    assert(attendees@.take(attendees@.len() as int) == attendees@);
}

/// Writes the comments as the items of a list, each with its date as the
/// text given.
fn append_comments(out: &mut String, comments: &Vec<Comment>, dates: &Vec<String>)
    requires
        dates@.len() == comments@.len(),
    ensures
        final(out)@ == old(out)@ + comment_items(comments@, views(dates@)),
{
    let ghost head = out@;
    let mut i: usize = 0;
    assert(out@ =~= head + comment_items(comments@.take(0), views(dates@)));
    while i < comments.len()
        invariant
            i <= comments@.len(),
            dates@.len() == comments@.len(),
            out@ == head + comment_items(comments@.take(i as int), views(dates@)),
        decreases comments@.len() - i,
    {
        let ghost before = out@;
        let comment = &comments[i];
        out.append("<li>");
        out.append(comment.author.as_str());
        out.append(" (");
        out.append(dates[i].as_str());
        out.append(") ");
        out.append(comment.text.as_str());
        out.append("</li>");
        assert(comments@.take(i + 1).drop_last() == comments@.take(i as int));
        assert(comments@.take(i + 1).last() == comments@[i as int]);
        assert(views(dates@)[i as int] == dates@[i as int]@);
        assert(out@ =~= before + comment_item(comments@[i as int], dates@[i as int]@));
        assert(out@ =~= head + comment_items(comments@.take(i + 1), views(dates@)));
        i = i + 1;
    }
    assert(comments@.take(comments@.len() as int) == comments@);
}

/// The description of an event at the calendar, with the dates of the
/// comments given as text, one for each comment.
pub fn event_description_with(event: &Event, dates: &Vec<String>) -> (r: String)
    requires
        dates@.len() == comment_count(*event),
    ensures
        r@ == description_text(*event, views(dates@)),
{
    let mut out = event.url.clone();
    out.append("<h3>Description</h3>");
    out.append(event.description.as_str());
    out.append("<h3>Attendees</h3>");
    let ghost head = out@;
    match &event.attendees {
        Some(attendees) => {
            out.append("<ol>");
            append_attendees(&mut out, attendees);
            out.append("</ol>");
            assert(out@ =~= head + ("<ol>"@ + attendee_items(attendees@) + "</ol>"@));
        },
        None => {
            out.append("None");
        },
    }
    out.append("<h3>Comments</h3>");
    let ghost middle = out@;
    match &event.comments {
        Some(comments) => {
            out.append("<ul>");
            append_comments(&mut out, comments, dates);
            out.append("</ul>");
            assert(out@ =~= middle + ("<ul>"@ + comment_items(comments@, views(dates@)) + "</ul>"@));
        },
        None => {
            out.append("None");
        },
    }
    let ghost body = out@;
    match &event.timestamp {
        Some(t) => {
            out.append("\n\nLast synced at ");
            let at = t.to_pacific_rfc3339();
            out.append(at.as_str());
            out.append(" by <a href='https://github.com/rfdonnelly/scma-gsync'>scma-gsync</a>.");
            assert(out@ =~= body + synced_note(at@));
        },
        None => {
            assert(out@ =~= body + Seq::<char>::empty());
        },
    }
    assert(out@ =~= description_text(*event, views(dates@)));
    out
}

/// `dates` are the dates of the comments of an event as text, one for each
/// comment and in their order, each as some time zone shows it.
pub open spec fn are_local_dates(event: Event, dates: Seq<Seq<char>>) -> bool {
    &&& dates.len() == comment_count(event)
    &&& forall|i: int|
        0 <= i < dates.len() ==> is_local_text(#[trigger] dates[i], event.comments->0@[i].date@)
}

/// `text` is the description of an event at the calendar, with the date of
/// each comment as some time zone shows it.
pub open spec fn is_description(event: Event, text: Seq<char>) -> bool {
    exists|dates: Seq<Seq<char>>|
        are_local_dates(event, dates) && text == #[trigger] description_text(event, dates)
}

/// The description of an event at the calendar. The dates of the comments
/// are written as the machine's own time zone shows them.
pub fn event_description(event: &Event) -> (r: String)
    ensures
        is_description(*event, r@),
{
    let mut dates: Vec<String> = Vec::new();
    match &event.comments {
        Some(comments) => {
            let mut i: usize = 0;
            while i < comments.len()
                invariant
                    i <= comments@.len(),
                    dates@.len() == i,
                    forall|k: int|
                        0 <= k < i ==> is_local_text((#[trigger] dates@[k])@, comments@[k].date@),
                decreases comments@.len() - i,
            {
                dates.push(comments[i].date.to_local_text());
                i = i + 1;
            }
        },
        None => {},
    }
    let out = event_description_with(event, &dates);
    assert(are_local_dates(*event, views(dates@)));
    out
}

impl CalendarEvent {
    /// The event as it is written to the calendar.
    pub fn try_from(event: &Event) -> (r: Result<CalendarEvent, EventError>)
        ensures
            r is Ok <==> writable(*event),
            r matches Err(e) ==> e == match event_id_text(event.id@) {
                Err(n) => EventError::Id(n),
                Ok(_) => EventError::EndOutOfRange,
            },
            r matches Ok(g) ==> written_as(*event, g),
    {
        let id = match event_id(event) {
            Ok(id) => id,
            Err(e) => {
                return Err(EventError::Id(e));
            },
        };
        let summary = event_summary(event);
        let start = event_start(event);
        let end = match event_end(event) {
            Ok(end) => end,
            Err(e) => {
                return Err(e);
            },
        };
        let description = event_description(event);
        let location = event.location.clone();
        Ok(
            CalendarEvent {
                id: Some(id),
                summary: Some(summary),
                start: Some(start),
                end: Some(end),
                description: Some(description),
                location: Some(location),
                html_link: None,
            },
        )
    }
}

/// Why a write to the remote service failed.
#[derive(Debug, Clone, PartialEq, Eq)]
pub enum WriteError {
    /// The remote service has nothing under the identifier written to.
    NotFound,
    /// Any other failure, in the words of the remote service.
    Remote { message: String },
}

/// What the remote service answered to the write of an event.
#[derive(Debug, Clone, PartialEq, Eq)]
pub enum WriteReply {
    /// The event was written; the reply may hold the address of its page.
    Written { link: Option<String> },
    /// There is no event with the identifier written to.
    NotFound,
    /// The write failed otherwise.
    Failed { message: String },
}

/// The upsert of one event, under way or ended: an update by identifier
/// first, and an insert if the remote service has no such event. So an
/// event is written the same way whether or not it was written before.
#[derive(Debug, Clone, PartialEq, Eq)]
pub enum Upsert {
    /// The event is to be updated under its identifier.
    Patch { calendar_id: String, event_id: String, event: CalendarEvent },
    /// The event is to be inserted.
    Insert { calendar_id: String, event: CalendarEvent },
    /// Ended: the event was updated.
    Updated { link: Option<String> },
    /// Ended: the event was inserted.
    Inserted { link: Option<String> },
    /// Ended on a dry run: the event was built and nothing was sent.
    Skipped { event: CalendarEvent },
    /// Ended: the write failed.
    Failed { error: WriteError },
}

impl Upsert {
    /// A write is still to be made.
    pub open spec fn is_pending(&self) -> bool {
        self is Patch || self is Insert
    }

    /// The upsert has ended well: the event is written, or this is a dry
    /// run.
    pub open spec fn is_success(&self) -> bool {
        self is Updated || self is Inserted || self is Skipped
    }

    /// The upsert after the answer to the write that was to be made. An
    /// update that finds no event is followed by an insert; any other
    /// failure ends the upsert, and so does a write that is done. An upsert
    /// that has ended stays as it is.
    pub open spec fn after(self, reply: WriteReply) -> Upsert {
        match self {
            Upsert::Patch { calendar_id, event_id, event } => match reply {
                WriteReply::Written { link } => Upsert::Updated { link },
                WriteReply::NotFound => Upsert::Insert { calendar_id, event },
                WriteReply::Failed { message } => Upsert::Failed {
                    error: WriteError::Remote { message },
                },
            },
            Upsert::Insert { calendar_id, event } => match reply {
                WriteReply::Written { link } => Upsert::Inserted { link },
                WriteReply::NotFound => Upsert::Failed { error: WriteError::NotFound },
                WriteReply::Failed { message } => Upsert::Failed {
                    error: WriteError::Remote { message },
                },
            },
            _ => self,
        }
    }

    /// Whether a write is still to be made.
    pub fn pending(&self) -> (b: bool)
        ensures
            b == self.is_pending(),
    {
        match self {
            Upsert::Patch { .. } => true,
            Upsert::Insert { .. } => true,
            _ => false,
        }
    }

    /// Takes the answer to the write that was to be made.
    pub fn on_reply(self, reply: WriteReply) -> (r: Upsert)
        ensures
            r == self.after(reply),
    {
        match self {
            Upsert::Patch { calendar_id, event_id, event } => match reply {
                WriteReply::Written { link } => Upsert::Updated { link },
                WriteReply::NotFound => Upsert::Insert { calendar_id, event },
                WriteReply::Failed { message } => Upsert::Failed {
                    error: WriteError::Remote { message },
                },
            },
            Upsert::Insert { calendar_id, event } => match reply {
                WriteReply::Written { link } => Upsert::Inserted { link },
                WriteReply::NotFound => Upsert::Failed { error: WriteError::NotFound },
                WriteReply::Failed { message } => Upsert::Failed {
                    error: WriteError::Remote { message },
                },
            },
            Upsert::Updated { link } => Upsert::Updated { link },
            Upsert::Inserted { link } => Upsert::Inserted { link },
            Upsert::Skipped { event } => Upsert::Skipped { event },
            Upsert::Failed { error } => Upsert::Failed { error },
        }
    }

    /// The outcome of an upsert that has ended; none while a write is still
    /// to be made.
    pub fn outcome(self) -> (r: Option<Result<(), WriteError>>)
        ensures
            r is None <==> self.is_pending(),
            r matches Some(Ok(_)) ==> self.is_success(),
            r matches Some(Err(e)) ==> self == (Upsert::Failed { error: e }),
            self.is_success() ==> r == Some(Ok::<(), WriteError>(())),
    {
        match self {
            Upsert::Patch { .. } => None,
            Upsert::Insert { .. } => None,
            Upsert::Failed { error } => Some(Err(error)),
            _ => Some(Ok(())),
        }
    }
}

/// An upsert takes at most two writes: after two answers none is still to
/// be made.
pub proof fn lemma_upsert_ends(upsert: Upsert, first: WriteReply, second: WriteReply)
    ensures
        !upsert.after(first).after(second).is_pending(),
        upsert.after(first).is_pending() ==> upsert is Patch && first is NotFound,
{
}

/// An upsert that has ended makes no further write, whatever is answered.
pub proof fn lemma_upsert_stays_ended(upsert: Upsert, reply: WriteReply)
    requires
        !upsert.is_pending(),
    ensures
        upsert.after(reply) == upsert,
{
}

impl GCal {
    /// `first` is the first step of the upsert of `event` under these
    /// settings: an update of the remote event with the identifier made of
    /// the source identifier, or, on a dry run, the event built and held
    /// back.
    pub open spec fn starts_upsert(&self, event: Event, first: Result<Upsert, EventError>) -> bool {
        match first {
            Ok(Upsert::Patch { calendar_id, event_id, event: g }) => {
                &&& !self.dry_run
                &&& calendar_id@ == self.calendar_id@
                &&& event_id_text(event.id@) == Ok::<Seq<char>, ParseNumberError>(event_id@)
                &&& written_as(event, g)
            },
            Ok(Upsert::Skipped { event: g }) => self.dry_run && written_as(event, g),
            Ok(_) => false,
            Err(e) => !writable(event) && e == match event_id_text(event.id@) {
                Err(n) => EventError::Id(n),
                Ok(_) => EventError::EndOutOfRange,
            },
        }
    }

    /// Starts the upsert of an event. On a dry run the event is built and
    /// nothing is to be sent.
    pub fn events_patch_or_insert(&self, event: &Event) -> (r: Result<Upsert, EventError>)
        ensures
            self.starts_upsert(*event, r),
            r is Ok <==> writable(*event),
    {
        let g_event = match CalendarEvent::try_from(event) {
            Ok(g_event) => g_event,
            Err(e) => {
                return Err(e);
            },
        };
        if self.dry_run {
            return Ok(Upsert::Skipped { event: g_event });
        }
        let event_id = match &g_event.id {
            Some(id) => id.clone(),
            None => String::new(),
        };
        Ok(Upsert::Patch { calendar_id: self.calendar_id.clone(), event_id, event: g_event })
    }

    /// Starts the upsert of each of the events, in their order. An event
    /// that cannot be written gives an error in its place and hinders no
    /// other.
    pub fn write(&self, events: &[Event]) -> (r: Vec<Result<Upsert, EventError>>)
        ensures
            r@.len() == events@.len(),
            forall|i: int| 0 <= i < r@.len() ==> self.starts_upsert(events@[i], #[trigger] r@[i]),
    {
        let mut out: Vec<Result<Upsert, EventError>> = Vec::new();
        let mut i: usize = 0;
        while i < events.len()
            invariant
                i <= events@.len(),
                out@.len() == i,
                forall|j: int| 0 <= j < i ==> self.starts_upsert(events@[j], #[trigger] out@[j]),
            decreases events@.len() - i,
        {
            out.push(self.events_patch_or_insert(&events[i]));
            i = i + 1;
        }
        out
    }
}

/// The event can be written to the calendar: its identifier is a number,
/// and a day follows its last day where one is needed.
pub open spec fn writable(event: Event) -> bool {
    event_id_text(event.id@) is Ok && !(event.start_date@ != event.end_date@ && event.end_date@ == (
        crate::date::MAX_YEAR as int,
        12int,
        31int,
    ))
}

/// `g` is the event `event` as it is written to the calendar.
pub open spec fn written_as(event: Event, g: CalendarEvent) -> bool {
    &&& writable(event)
    &&& opt_view(g.id) == Some(event_id_text(event.id@)->Ok_0)
    &&& opt_view(g.summary) == Some(event_summary_text(event.title@))
    &&& g.start == Some(EventDateTime { date: Some(event.start_date) })
    &&& g.end is Some && g.end->0.date is Some && g.end->0.date->0@ == event_end_day(
        event.start_date@,
        event.end_date@,
    )
    &&& g.description is Some && is_description(event, g.description->0@)
    &&& opt_view(g.location) == Some(event.location@)
    &&& g.html_link is None
}

} // verus!
