//! The contacts directory: the members of a contact group, the merge of a
//! club member into the contact that matches, and the batches in which
//! contacts are written.

use vstd::prelude::*;
use vstd::string::StringExecFns;
use crate::executor::{chunks, joined, planned, Planned};
use crate::lookup::first_position;
use crate::merge::{
    find_tagged, lemma_upsert_again_replaces, lemma_upsert_keeps_foreign, tags_of, upsert,
    upserted, upserted_tags, Tag, Tagged,
};
use crate::queue::Queue;
use crate::model::{
    member_status_name, name_email_text, format_name_email, trip_leader_status_name, User,
};
use crate::ordered_map::{
    entry_keys, index_map_entries, index_map_insert, index_map_into_entries, index_map_new,
    last_value, lemma_with_entry, lemma_with_entry_held, pair_views, value_of, with_entry, Entries,
};
use crate::reconcile::{deletes_of, diff, inserts_of, updates_of, Changeset, Keyed};
use crate::text::{clone_opt, opt_view};

verus! {

/// The most members that are asked for when a contact group is fetched.
pub const CONTACT_GROUPS_GET_MAX_MEMBERS: i32 = 999;

/// The most contacts that one request may create.
pub const PEOPLE_BATCH_CREATE_MAX_CONTACTS: usize = 50;

/// The most contacts that one request may fetch.
pub const PEOPLE_BATCH_GET_MAX_CONTACTS: usize = 50;

/// The most contacts that one request may update.
pub const PEOPLE_BATCH_UPDATE_MAX_CONTACTS: usize = 50;

/// The fields of a contact group that are asked for.
pub const GROUP_FIELDS: &'static str = "name";

/// The fields of a contact that are asked for: the identity and what the
/// merge reads.
pub const PERSON_FIELDS_GET: &'static str =
    "addresses,emailAddresses,names,phoneNumbers,userDefined";

/// The fields of a contact that an update writes: those the merge may have
/// touched, and no others.
pub const PERSON_FIELDS_UPDATE: &'static str = "addresses,phoneNumbers,userDefined";

/// The tag of the entries that the club's data fills in.
pub const SCMA_TYPE: &'static str = "SCMA";

/// The key of the attribute that holds the kind of membership.
pub const SCMA_MEMBER_STATUS_KEY: &'static str = "SCMA Member Status";

/// The key of the attribute that holds the trip leader's rank.
pub const SCMA_TRIP_LEADER_STATUS_KEY: &'static str = "SCMA Trip Leader Status";

/// The key of the attribute that holds the position in the club.
pub const SCMA_POSITION_KEY: &'static str = "SCMA Position";

/// What stands for a status or a position that a member has not.
pub const NOT_APPLICABLE: &'static str = "n/a";

/// A phone number of a contact, tagged by its type.
#[derive(Debug, Clone, PartialEq, Eq)]
pub struct PhoneNumber {
    pub type_: Option<String>,
    pub value: Option<String>,
    /// For an entry read from the remote service, its position in the
    /// contact's list there, by which the caller finds the service's own
    /// entry again; none for an entry made here.
    pub source: Option<usize>,
}

/// A postal address of a contact, tagged by its type.
#[derive(Debug, Clone, PartialEq, Eq)]
pub struct Address {
    pub type_: Option<String>,
    pub formatted_value: Option<String>,
    /// As for a phone number.
    pub source: Option<usize>,
}

/// A named attribute of a contact.
#[derive(Debug, Clone, PartialEq, Eq)]
pub struct UserDefined {
    pub key: Option<String>,
    pub value: Option<String>,
}

/// A name of a contact.
#[derive(Debug, Clone, PartialEq, Eq)]
pub struct Name {
    pub display_name: Option<String>,
    pub unstructured_name: Option<String>,
}

/// An e-mail address of a contact, tagged by its type.
#[derive(Debug, Clone, PartialEq, Eq)]
pub struct EmailAddress {
    pub type_: Option<String>,
    pub value: Option<String>,
}

/// The membership of a contact in a contact group.
#[derive(Debug, Clone, PartialEq, Eq)]
pub struct ContactGroupMembership {
    pub contact_group_resource_name: Option<String>,
}

/// A membership of a contact.
#[derive(Debug, Clone, PartialEq, Eq)]
pub struct Membership {
    pub contact_group_membership: Option<ContactGroupMembership>,
}

/// A contact as the remote service holds it.
#[derive(Debug, Clone, PartialEq, Eq)]
pub struct Person {
    pub resource_name: Option<String>,
    pub names: Option<Vec<Name>>,
    pub email_addresses: Option<Vec<EmailAddress>>,
    pub addresses: Option<Vec<Address>>,
    pub phone_numbers: Option<Vec<PhoneNumber>>,
    pub memberships: Option<Vec<Membership>>,
    pub user_defined: Option<Vec<UserDefined>>,
}

impl Tagged for PhoneNumber {
    open spec fn tag_view(&self) -> Tag {
        opt_view(self.type_)
    }

    fn tag(&self) -> (t: &Option<String>) {
        &self.type_
    }
}

impl Tagged for Address {
    open spec fn tag_view(&self) -> Tag {
        opt_view(self.type_)
    }

    fn tag(&self) -> (t: &Option<String>) {
        &self.type_
    }
}

impl Tagged for EmailAddress {
    open spec fn tag_view(&self) -> Tag {
        opt_view(self.type_)
    }

    fn tag(&self) -> (t: &Option<String>) {
        &self.type_
    }
}

impl Default for Person {
    fn default() -> (r: Self)
        ensures
            r.resource_name is None,
            r.names is None,
            r.email_addresses is None,
            r.addresses is None,
            r.phone_numbers is None,
            r.memberships is None,
            r.user_defined is None,
    {
        Person {
            resource_name: None,
            names: None,
            email_addresses: None,
            addresses: None,
            phone_numbers: None,
            memberships: None,
            user_defined: None,
        }
    }
}

/// A contact with what identifies it: the name under which the remote
/// service holds it, its display name, and the e-mail address by which it
/// is matched.
#[derive(Debug, Clone, PartialEq, Eq)]
pub struct PersonWrapper {
    pub resource_name: String,
    pub name: String,
    pub email: Option<String>,
    pub person: Person,
}

impl Default for PersonWrapper {
    fn default() -> (r: Self)
        ensures
            r.resource_name@.len() == 0,
            r.name@.len() == 0,
            r.email is None,
            r.person.resource_name is None,
            r.person.names is None,
            r.person.email_addresses is None,
            r.person.addresses is None,
            r.person.phone_numbers is None,
            r.person.memberships is None,
            r.person.user_defined is None,
    {
        PersonWrapper {
            resource_name: String::new(),
            name: String::new(),
            email: None,
            person: Person::default(),
        }
    }
}

/// A contact is matched by its e-mail address. One without an address has
/// no key: it is neither matched nor deleted.
impl Keyed for PersonWrapper {
    open spec fn key_view(&self) -> Option<Seq<char>> {
        opt_view(self.email)
    }

    fn key(&self) -> (k: Option<String>) {
        clone_opt(&self.email)
    }
}

/// Why a contact cannot be taken in.
#[derive(Debug, Clone, Copy, PartialEq, Eq, Structural)]
pub enum PersonError {
    /// The contact has no resource name.
    MissingResourceName,
    /// The contact has no name, or its first name has no display name.
    MissingName,
}

/// The types of a list of e-mail addresses.
pub open spec fn email_types(emails: Seq<EmailAddress>) -> Seq<Tag> {
    tags_of(emails)
}

/// The e-mail address by which a contact is matched: the first tagged as
/// the club's, else the first of all.
pub open spec fn person_email(person: Person) -> Option<Seq<char>> {
    match person.email_addresses {
        Some(emails) => {
            let at = first_position(email_types(emails@), Some(SCMA_TYPE@));
            if at >= 0 {
                opt_view(emails@[at].value)
            } else if emails@.len() > 0 {
                opt_view(emails@[0].value)
            } else {
                None
            }
        },
        None => None,
    }
}

/// The display name of a contact: that of its first name.
pub open spec fn person_display_name(person: Person) -> Option<Seq<char>> {
    match person.names {
        Some(names) => if names@.len() > 0 {
            opt_view(names@[0].display_name)
        } else {
            None
        },
        None => None,
    }
}

impl PersonWrapper {
    /// The contact's name, with its e-mail address where it has one.
    pub fn name_email(&self) -> (r: String)
        ensures
            r@ == match self.email {
                Some(email) => name_email_text(self.name@, email@),
                None => self.name@,
            },
    {
        match &self.email {
            Some(email) => format_name_email(self.name.as_str(), email.as_str()),
            None => self.name.clone(),
        }
    }

    /// Takes in a contact as the remote service gave it.
    pub fn try_from(person: Person) -> (r: Result<PersonWrapper, PersonError>)
        ensures
            match r {
                Ok(wrapper) => {
                    &&& wrapper.person == person
                    &&& opt_view(person.resource_name) == Some(wrapper.resource_name@)
                    &&& person_display_name(person) == Some(wrapper.name@)
                    &&& opt_view(wrapper.email) == person_email(person)
                },
                Err(PersonError::MissingResourceName) => person.resource_name is None,
                Err(PersonError::MissingName) => person.resource_name is Some
                    && person_display_name(person) is None,
            },
    {
        let resource_name = match &person.resource_name {
            Some(name) => name.clone(),
            None => {
                return Err(PersonError::MissingResourceName);
            },
        };
        let display = match &person.names {
            Some(names) => if names.len() > 0 {
                clone_opt(&names[0].display_name)
            } else {
                None
            },
            None => None,
        };
        let name = match display {
            Some(name) => name,
            None => {
                return Err(PersonError::MissingName);
            },
        };
        let email = match &person.email_addresses {
            Some(emails) => {
                let club = Some(String::from_str(SCMA_TYPE));
                match find_tagged(emails.as_slice(), &club) {
                    Some(p) => {
                        proof {
                            crate::lookup::lemma_first_position(
                                tags_of(emails@),
                                Some(SCMA_TYPE@),
                            );
                        }
                        clone_opt(&emails[p].value)
                    },
                    None => if emails.len() > 0 {
                        clone_opt(&emails[0].value)
                    } else {
                        None
                    },
                }
            },
            None => None,
        };
        Ok(PersonWrapper { resource_name, name, email, person })
    }
}

/// The trip leader's rank of a member as text.
pub open spec fn trip_leader_text(user: User) -> Seq<char> {
    match user.trip_leader_status {
        Some(status) => trip_leader_status_name(status),
        None => NOT_APPLICABLE@,
    }
}

/// The position of a member as text.
pub open spec fn position_text(user: User) -> Seq<char> {
    match user.position {
        Some(position) => position@,
        None => NOT_APPLICABLE@,
    }
}

impl User {
    /// The trip leader's rank as text; `n/a` for a member who has none.
    pub fn trip_leader_status(&self) -> (r: String)
        ensures
            r@ == trip_leader_text(*self),
    {
        match &self.trip_leader_status {
            Some(status) => status.to_string(),
            None => String::from_str(NOT_APPLICABLE),
        }
    }

    /// The position in the club as text; `n/a` for a member who has none.
    pub fn position(&self) -> (r: String)
        ensures
            r@ == position_text(*self),
    {
        match &self.position {
            Some(position) => position.clone(),
            None => String::from_str(NOT_APPLICABLE),
        }
    }
}

/// The member's postal address as an entry of a contact.
pub fn create_api_address(user: &User) -> (r: Address)
    ensures
        opt_view(r.type_) == Some(SCMA_TYPE@),
        opt_view(r.formatted_value) == Some(user.address_text()),
        r.source is None,
{
    Address {
        type_: Some(String::from_str(SCMA_TYPE)),
        formatted_value: Some(user.address()),
        source: None,
    }
}

/// The member's phone number as an entry of a contact.
pub fn create_api_phone_number(user: &User) -> (r: PhoneNumber)
    ensures
        opt_view(r.type_) == Some(SCMA_TYPE@),
        opt_view(r.value) == opt_view(user.phone),
        r.source is None,
{
    PhoneNumber {
        type_: Some(String::from_str(SCMA_TYPE)),
        value: clone_opt(&user.phone),
        source: None,
    }
}

/// The member's kind of membership as an attribute of a contact.
pub fn create_api_member_status(user: &User) -> (r: UserDefined)
    ensures
        opt_view(r.key) == Some(SCMA_MEMBER_STATUS_KEY@),
        opt_view(r.value) == Some(member_status_name(user.member_status)),
{
    UserDefined {
        key: Some(String::from_str(SCMA_MEMBER_STATUS_KEY)),
        value: Some(user.member_status.to_string()),
    }
}

/// The member's trip leader's rank as an attribute of a contact.
pub fn create_api_trip_leader_status(user: &User) -> (r: UserDefined)
    ensures
        opt_view(r.key) == Some(SCMA_TRIP_LEADER_STATUS_KEY@),
        opt_view(r.value) == Some(trip_leader_text(*user)),
{
    UserDefined {
        key: Some(String::from_str(SCMA_TRIP_LEADER_STATUS_KEY)),
        value: Some(user.trip_leader_status()),
    }
}

/// The member's position as an attribute of a contact.
pub fn create_api_position(user: &User) -> (r: UserDefined)
    ensures
        opt_view(r.key) == Some(SCMA_POSITION_KEY@),
        opt_view(r.value) == Some(position_text(*user)),
{
    UserDefined { key: Some(String::from_str(SCMA_POSITION_KEY)), value: Some(user.position()) }
}

/// `person` is the contact made of `user` for the group `group`: one name,
/// one e-mail address, one postal address and one phone number, each
/// tagged as the club's, the membership in the group, and the three
/// attributes.
pub open spec fn is_created_from(person: Person, user: User, group: Seq<char>) -> bool {
    &&& person.resource_name is None
    &&& person.names is Some && person.names->0@.len() == 1
    &&& person.names->0@[0].display_name is None
    &&& opt_view(person.names->0@[0].unstructured_name) == Some(user.name@)
    &&& person.email_addresses is Some && person.email_addresses->0@.len() == 1
    &&& opt_view(person.email_addresses->0@[0].type_) == Some(SCMA_TYPE@)
    &&& opt_view(person.email_addresses->0@[0].value) == Some(user.email@)
    &&& person.addresses is Some && person.addresses->0@.len() == 1
    &&& opt_view(person.addresses->0@[0].type_) == Some(SCMA_TYPE@)
    &&& opt_view(person.addresses->0@[0].formatted_value) == Some(user.address_text())
    &&& person.addresses->0@[0].source is None
    &&& person.phone_numbers is Some && person.phone_numbers->0@.len() == 1
    &&& opt_view(person.phone_numbers->0@[0].type_) == Some(SCMA_TYPE@)
    &&& opt_view(person.phone_numbers->0@[0].value) == opt_view(user.phone)
    &&& person.phone_numbers->0@[0].source is None
    &&& person.memberships is Some && person.memberships->0@.len() == 1
    &&& person.memberships->0@[0].contact_group_membership is Some
    &&& opt_view(
        person.memberships->0@[0].contact_group_membership->0.contact_group_resource_name,
    ) == Some(group)
    &&& person.user_defined is Some && attribute_entries(person.user_defined->0@) == seq![
        (SCMA_MEMBER_STATUS_KEY@, member_status_name(user.member_status)),
        (SCMA_TRIP_LEADER_STATUS_KEY@, trip_leader_text(user)),
        (SCMA_POSITION_KEY@, position_text(user)),
    ]
    &&& all_filled(person.user_defined->0@)
}

/// The contact to create for a member, as a member of the contact group.
pub fn create_api_person(user: &User, group_resource_name: &str) -> (r: Person)
    ensures
        is_created_from(r, *user, group_resource_name@),
{
    let name = Name { display_name: None, unstructured_name: Some(user.name.clone()) };
    let email_address = EmailAddress {
        type_: Some(String::from_str(SCMA_TYPE)),
        value: Some(user.email.clone()),
    };
    let address = create_api_address(user);
    let phone_number = create_api_phone_number(user);
    let membership = Membership {
        contact_group_membership: Some(
            ContactGroupMembership {
                contact_group_resource_name: Some(String::from_str(group_resource_name)),
            },
        ),
    };
    let member_status = create_api_member_status(user);
    let trip_leader_status = create_api_trip_leader_status(user);
    let position = create_api_position(user);
    let mut names: Vec<Name> = Vec::new();
    names.push(name);
    let mut email_addresses: Vec<EmailAddress> = Vec::new();
    email_addresses.push(email_address);
    let mut addresses: Vec<Address> = Vec::new();
    addresses.push(address);
    let mut phone_numbers: Vec<PhoneNumber> = Vec::new();
    phone_numbers.push(phone_number);
    let mut memberships: Vec<Membership> = Vec::new();
    memberships.push(membership);
    let mut user_defined: Vec<UserDefined> = Vec::new();
    user_defined.push(member_status);
    user_defined.push(trip_leader_status);
    user_defined.push(position);
    assert(attribute_entries(user_defined@) =~= seq![
        (SCMA_MEMBER_STATUS_KEY@, member_status_name(user.member_status)),
        (SCMA_TRIP_LEADER_STATUS_KEY@, trip_leader_text(*user)),
        (SCMA_POSITION_KEY@, position_text(*user)),
    ]);
    Person {
        resource_name: None,
        names: Some(names),
        email_addresses: Some(email_addresses),
        addresses: Some(addresses),
        phone_numbers: Some(phone_numbers),
        memberships: Some(memberships),
        user_defined: Some(user_defined),
    }
}

/// The types of a list of phone numbers.
pub open spec fn phone_types(list: Seq<PhoneNumber>) -> Seq<Tag> {
    tags_of(list)
}

/// The phone numbers of a contact with `new` put in: in place of the
/// first number of the same type, or last.
pub open spec fn phone_numbers_with(list: Option<Vec<PhoneNumber>>, new: PhoneNumber) -> Seq<
    PhoneNumber,
> {
    match list {
        Some(numbers) => upserted(numbers@, phone_types(numbers@), new, opt_view(new.type_)),
        None => seq![new],
    }
}

/// Puts a phone number into those of a contact. It takes the place of the
/// first number of its type; where there is none, it comes last. Numbers of
/// other types stay as they are.
pub fn person_phone_numbers_update_or_insert(
    new_phone_number: PhoneNumber,
    phone_numbers: Option<Vec<PhoneNumber>>,
) -> (r: Option<Vec<PhoneNumber>>)
    ensures
        r is Some,
        r->0@ == phone_numbers_with(phone_numbers, new_phone_number),
{
    Some(upsert(new_phone_number, phone_numbers))
}

/// The types of a list of postal addresses.
pub open spec fn address_types(list: Seq<Address>) -> Seq<Tag> {
    tags_of(list)
}

/// The postal addresses of a contact with `new` put in: in place of the
/// first address of the same type, or last.
pub open spec fn addresses_with(list: Option<Vec<Address>>, new: Address) -> Seq<Address> {
    match list {
        Some(addresses) => upserted(
            addresses@,
            address_types(addresses@),
            new,
            opt_view(new.type_),
        ),
        None => seq![new],
    }
}

/// Puts a postal address into those of a contact. It takes the place of
/// the first address of its type; where there is none, it comes last.
/// Addresses of other types stay as they are.
pub fn person_addresses_update_or_insert(new_address: Address, addresses: Option<Vec<Address>>) -> (r:
    Option<Vec<Address>>)
    ensures
        r is Some,
        r->0@ == addresses_with(addresses, new_address),
{
    Some(upsert(new_address, addresses))
}

/// The text of an optional string, with nothing for none.
pub open spec fn text_or_empty(s: Option<String>) -> Seq<char> {
    match s {
        Some(t) => t@,
        None => Seq::empty(),
    }
}

/// The attributes of a list as pairs of key and value; a key or a value
/// that is missing counts as empty.
pub open spec fn attribute_entries(list: Seq<UserDefined>) -> Entries {
    Seq::new(list.len(), |i: int| (text_or_empty(list[i].key), text_or_empty(list[i].value)))
}

/// Every attribute of the list has a key and a value.
pub open spec fn all_filled(list: Seq<UserDefined>) -> bool {
    forall|i: int| 0 <= i < list.len() ==> (#[trigger] list[i]).key is Some && list[i].value is Some
}

/// The entries after each of `more` is set, from the first to the last.
pub open spec fn with_entries(entries: Entries, more: Entries) -> Entries
    decreases more.len(),
{
    if more.len() == 0 {
        entries
    } else {
        with_entry(with_entries(entries, more.drop_last()), more.last().0, more.last().1)
    }
}

/// The attributes of a contact after the merge of a member: the attributes
/// it has, each key once, in the order in which the keys first came, and
/// of several values of a key the last; then the member's kind of
/// membership, trip leader's rank and position, each under its key, in
/// place of what the key held or last.
pub open spec fn merged_attributes(existing: Option<Vec<UserDefined>>, user: User) -> Entries {
    let held = match existing {
        Some(list) => with_entries(Seq::empty(), attribute_entries(list@)),
        None => Seq::empty(),
    };
    with_entry(
        with_entry(
            with_entry(held, SCMA_MEMBER_STATUS_KEY@, member_status_name(user.member_status)),
            SCMA_TRIP_LEADER_STATUS_KEY@,
            trip_leader_text(user),
        ),
        SCMA_POSITION_KEY@,
        position_text(user),
    )
}

/// Merges the member's kind of membership, trip leader's rank and position
/// into the attributes of a contact. Attributes under other keys keep
/// their value and their place.
pub fn person_user_defined_update_or_insert(user: &User, user_defined: Option<Vec<UserDefined>>) -> (r:
    Option<Vec<UserDefined>>)
    ensures
        r is Some,
        attribute_entries(r->0@) == merged_attributes(user_defined, *user),
        all_filled(r->0@),
{
    let mut map = index_map_new();
    match &user_defined {
        Some(list) => {
            let mut i: usize = 0;
            while i < list.len()
                invariant
                    i <= list@.len(),
                    index_map_entries(map) == with_entries(
                        Seq::empty(),
                        attribute_entries(list@).take(i as int),
                    ),
                decreases list@.len() - i,
            {
                let key = match &list[i].key {
                    Some(k) => k.clone(),
                    None => String::new(),
                };
                let value = match &list[i].value {
                    Some(v) => v.clone(),
                    None => String::new(),
                };
                assert(attribute_entries(list@).take(i + 1).drop_last() == attribute_entries(
                    list@,
                ).take(i as int));
                assert(attribute_entries(list@).take(i + 1).last() == (key@, value@));
                index_map_insert(&mut map, key, value);
                i = i + 1;
            }
            assert(attribute_entries(list@).take(list@.len() as int) == attribute_entries(list@));
        },
        None => {},
    }
    index_map_insert(&mut map, String::from_str(SCMA_MEMBER_STATUS_KEY), user.member_status.to_string());
    index_map_insert(&mut map, String::from_str(SCMA_TRIP_LEADER_STATUS_KEY), user.trip_leader_status());
    index_map_insert(&mut map, String::from_str(SCMA_POSITION_KEY), user.position());
    let pairs = index_map_into_entries(map);
    let ghost merged = merged_attributes(user_defined, *user);
    assert(pair_views(pairs@) == merged);
    let ghost all = pairs@;
    let mut queue = Queue::new(pairs);
    let mut out: Vec<UserDefined> = Vec::new();
    while queue.len() > 0
        invariant
            out@.len() + queue@.len() == all.len(),
            queue@ == all.skip(out@.len() as int),
            forall|i: int|
                0 <= i < out@.len() ==> (#[trigger] out@[i]).key == Some(all[i].0) && out@[i].value
                    == Some(all[i].1),
        decreases queue@.len(),
    {
        assert(all.skip(out@.len() as int).skip(1) == all.skip(out@.len() as int + 1));
        match queue.next() {
            Some((k, v)) => out.push(UserDefined { key: Some(k), value: Some(v) }),
            None => {},
        }
    }
    assert(attribute_entries(out@) =~= merged) by {
        assert forall|i: int| 0 <= i < out@.len() implies attribute_entries(out@)[i] == merged[i] by {
            assert(pair_views(all)[i] == (all[i].0@, all[i].1@));
        }
        assert(pair_views(all).len() == all.len());
    }
    Some(out)
}

/// `after` is the contact `before` with the member `user` merged in. What
/// identifies the contact, its names, its e-mail addresses and its
/// memberships are as before. The member's phone number, where there is
/// one, and postal address are put in under the club's tag, and the
/// member's attributes under their keys.
pub open spec fn is_update_of(after: PersonWrapper, before: PersonWrapper, user: User) -> bool {
    &&& after.resource_name == before.resource_name
    &&& after.name == before.name
    &&& after.email == before.email
    &&& after.person.resource_name == before.person.resource_name
    &&& after.person.names == before.person.names
    &&& after.person.email_addresses == before.person.email_addresses
    &&& after.person.memberships == before.person.memberships
    &&& match user.phone {
        Some(phone) => after.person.phone_numbers is Some && exists|new: PhoneNumber|
            #![trigger phone_numbers_with(before.person.phone_numbers, new)]
            opt_view(new.type_) == Some(SCMA_TYPE@) && opt_view(new.value) == Some(phone@)
                && new.source is None && after.person.phone_numbers->0@ == phone_numbers_with(
                before.person.phone_numbers,
                new,
            ),
        None => after.person.phone_numbers == before.person.phone_numbers,
    }
    &&& after.person.addresses is Some && exists|new: Address|
        #![trigger addresses_with(before.person.addresses, new)]
        opt_view(new.type_) == Some(SCMA_TYPE@) && opt_view(new.formatted_value) == Some(
            user.address_text(),
        ) && new.source is None && after.person.addresses->0@ == addresses_with(
            before.person.addresses,
            new,
        )
    &&& after.person.user_defined is Some && attribute_entries(after.person.user_defined->0@)
        == merged_attributes(before.person.user_defined, user)
    &&& all_filled(after.person.user_defined->0@)
}

impl PersonWrapper {
    /// Merges a member into the contact that matches. The update of the
    /// remote service overwrites each field that it names as a whole, so
    /// the new value of each such field is made of what the contact holds
    /// and what the member brings. A member without a phone number leaves
    /// the contact's phone numbers as they are.
    pub fn update(self, user: User) -> (r: PersonWrapper)
        ensures
            is_update_of(r, self, user),
    {
        let PersonWrapper { resource_name, name, email, person } = self;
        let Person {
            resource_name: person_resource_name,
            names,
            email_addresses,
            addresses,
            phone_numbers,
            memberships,
            user_defined,
        } = person;
        let phone_numbers = if user.phone.is_some() {
            let new_phone_number = create_api_phone_number(&user);
            let ghost witness = new_phone_number;
            let merged = person_phone_numbers_update_or_insert(new_phone_number, phone_numbers);
            assert(merged->0@ == phone_numbers_with(phone_numbers, witness));
            merged
        } else {
            phone_numbers
        };
        let new_address = create_api_address(&user);
        let ghost witness = new_address;
        let merged_addresses = person_addresses_update_or_insert(new_address, addresses);
        assert(merged_addresses->0@ == addresses_with(addresses, witness));
        let merged_user_defined = person_user_defined_update_or_insert(&user, user_defined);
        PersonWrapper {
            resource_name,
            name,
            email,
            person: Person {
                resource_name: person_resource_name,
                names,
                email_addresses,
                addresses: merged_addresses,
                phone_numbers,
                memberships,
                user_defined: merged_user_defined,
            },
        }
    }
}

/// The changes that bring the contacts of the group in line with the
/// members of the club.
pub type PersonSyncOpsResult = Changeset<User, PersonWrapper>;

/// A contact group, as the remote service lists it.
#[derive(Debug, Clone, PartialEq, Eq)]
pub struct ContactGroup {
    pub name: Option<String>,
    pub resource_name: Option<String>,
}

/// A contact group to create.
#[derive(Debug, Clone, PartialEq, Eq)]
pub struct CreateContactGroupRequest {
    pub contact_group: Option<ContactGroup>,
    pub read_group_fields: Option<String>,
}

/// Where the contact group to sync to is.
#[derive(Debug, Clone, PartialEq, Eq)]
pub enum GroupChoice {
    /// It exists under this resource name.
    Found(String),
    /// It does not exist and is to be created as given.
    Create(CreateContactGroupRequest),
}

/// Why there is no contact group to sync to.
#[derive(Debug, Clone, Copy, PartialEq, Eq, Structural)]
pub enum GroupError {
    /// The contact group does not exist, and a dry run creates none.
    DryRun,
    /// The contact group is listed without a resource name.
    MissingResourceName,
}

impl GroupError {
    /// The error in words.
    pub fn message(&self) -> (r: String)
        ensures
            r@ == match self {
                GroupError::DryRun => "Cannot create contact group during dry run"@,
                GroupError::MissingResourceName => "Contact group has no resource name"@,
            },
    {
        match self {
            GroupError::DryRun => String::from_str("Cannot create contact group during dry run"),
            GroupError::MissingResourceName => String::from_str("Contact group has no resource name"),
        }
    }
}

/// A contact group is found again by its name.
impl Tagged for ContactGroup {
    open spec fn tag_view(&self) -> Tag {
        opt_view(self.name)
    }

    fn tag(&self) -> (t: &Option<String>) {
        &self.name
    }
}

/// The names of the listed contact groups.
pub open spec fn group_names(groups: Seq<ContactGroup>) -> Seq<Tag> {
    tags_of(groups)
}

/// The request that creates some contacts.
#[derive(Debug, Clone, PartialEq, Eq)]
pub struct BatchCreateContactsRequest {
    pub contacts: Vec<Person>,
}

/// The request that updates some contacts, each under its resource name.
/// Only the fields of the update mask are written.
#[derive(Debug, Clone, PartialEq, Eq)]
pub struct BatchUpdateContactsRequest {
    pub contacts: Vec<(String, Person)>,
    pub read_mask: String,
    pub update_mask: String,
}

/// The request that fetches some contacts by their resource names.
#[derive(Debug, Clone, PartialEq, Eq)]
pub struct BatchGetRequest {
    pub resource_names: Vec<String>,
    pub person_fields: String,
}

/// The settings of a sync with a contact group.
pub struct GPpl {
    /// The name under which the remote service holds the contact group.
    pub group_resource_name: String,
    pub dry_run: bool,
}

/// The contacts of the requests, one request after the other.
pub open spec fn created_contacts(requests: Seq<Planned<BatchCreateContactsRequest>>) -> Seq<Person>
    decreases requests.len(),
{
    if requests.len() == 0 {
        Seq::empty()
    } else {
        created_contacts(requests.drop_last()) + requests.last().call.contacts@
    }
}

/// The contacts of the requests, one request after the other.
pub open spec fn updated_contacts(requests: Seq<Planned<BatchUpdateContactsRequest>>) -> Seq<
    (String, Person),
>
    decreases requests.len(),
{
    if requests.len() == 0 {
        Seq::empty()
    } else {
        updated_contacts(requests.drop_last()) + requests.last().call.contacts@
    }
}

/// The resource names of the requests, one request after the other.
pub open spec fn fetched_names(requests: Seq<BatchGetRequest>) -> Seq<String>
    decreases requests.len(),
{
    if requests.len() == 0 {
        Seq::empty()
    } else {
        fetched_names(requests.drop_last()) + requests.last().resource_names@
    }
}

impl GPpl {
    /// The settings of a sync with the contact group held under
    /// `group_resource_name`.
    pub fn new(group_resource_name: String, dry_run: bool) -> (r: GPpl)
        ensures
            r.group_resource_name == group_resource_name,
            r.dry_run == dry_run,
    {
        GPpl { group_resource_name, dry_run }
    }

    /// Finds the contact group named `group_name` among those listed: the
    /// first of that name. Where there is none it is to be created; on a
    /// dry run that is an error, as there is then nothing to sync to.
    pub fn contact_groups_get_or_create_by_name(
        groups: &[ContactGroup],
        group_name: &str,
        dry_run: bool,
    ) -> (r: Result<GroupChoice, GroupError>)
        ensures
            match r {
                Ok(GroupChoice::Found(resource_name)) => {
                    let at = first_position(group_names(groups@), Some(group_name@));
                    at >= 0 && opt_view(groups@[at].resource_name) == Some(resource_name@)
                },
                Ok(GroupChoice::Create(request)) => {
                    &&& first_position(group_names(groups@), Some(group_name@)) == -1
                    &&& !dry_run
                    &&& request.contact_group is Some
                    &&& opt_view(request.contact_group->0.name) == Some(group_name@)
                    &&& request.contact_group->0.resource_name is None
                    &&& opt_view(request.read_group_fields) == Some(GROUP_FIELDS@)
                },
                Err(GroupError::DryRun) => first_position(
                    group_names(groups@),
                    Some(group_name@),
                ) == -1 && dry_run,
                Err(GroupError::MissingResourceName) => {
                    let at = first_position(group_names(groups@), Some(group_name@));
                    at >= 0 && groups@[at].resource_name is None
                },
            },
    {
        let wanted = Some(String::from_str(group_name));
        match find_tagged(groups, &wanted) {
            Some(at) => {
                proof {
                    crate::lookup::lemma_first_position(tags_of(groups@), Some(group_name@));
                }
                match &groups[at].resource_name {
                    Some(resource_name) => Ok(GroupChoice::Found(resource_name.clone())),
                    None => Err(GroupError::MissingResourceName),
                }
            },
            None => if dry_run {
                Err(GroupError::DryRun)
            } else {
                Ok(
                    GroupChoice::Create(
                        CreateContactGroupRequest {
                            contact_group: Some(
                                ContactGroup {
                                    name: Some(String::from_str(group_name)),
                                    resource_name: None,
                                },
                            ),
                            read_group_fields: Some(String::from_str(GROUP_FIELDS)),
                        },
                    ),
                )
            },
        }
    }

    /// The changes that bring the contacts in line with the members: a
    /// member without a contact is inserted, a member with a contact is
    /// paired with it for an update, and a contact without a member is put
    /// aside. Members and contacts are matched by e-mail address; a contact
    /// without one takes no part.
    pub fn people_sync_ops(users: Vec<User>, people: Vec<PersonWrapper>) -> (r: PersonSyncOpsResult)
        ensures
            r.is_diff_of(users@, people@),
    {
        diff(users, people)
    }

    /// The contacts after the merge: each contact of a pair with the
    /// member of the pair merged in.
    pub fn people_batch_update_ops(&self, updates: Vec<(User, PersonWrapper)>) -> (r: Vec<
        PersonWrapper,
    >)
        ensures
            r@.len() == updates@.len(),
            forall|i: int|
                0 <= i < r@.len() ==> is_update_of(#[trigger] r@[i], updates@[i].1, updates@[i].0),
    {
        let ghost all = updates@;
        let mut queue = Queue::new(updates);
        let mut out: Vec<PersonWrapper> = Vec::new();
        while queue.len() > 0
            invariant
                out@.len() + queue@.len() == all.len(),
                queue@ == all.skip(out@.len() as int),
                forall|i: int|
                    0 <= i < out@.len() ==> is_update_of(#[trigger] out@[i], all[i].1, all[i].0),
            decreases queue@.len(),
        {
            assert(all.skip(out@.len() as int).skip(1) == all.skip(out@.len() as int + 1));
            match queue.next() {
                Some((user, person)) => out.push(person.update(user)),
                None => {},
            }
        }
        out
    }

    /// The requests that fetch the contacts with the given resource names,
    /// fifty with each request and the rest with the last, with the fields
    /// that the match and the merge read.
    pub fn people_batch_get(&self, resource_names: &[String]) -> (r: Vec<BatchGetRequest>)
        ensures
            fetched_names(r@) == resource_names@,
            forall|i: int|
                0 <= i < r@.len() ==> 0 < (#[trigger] r@[i]).resource_names@.len()
                    <= PEOPLE_BATCH_GET_MAX_CONTACTS && r@[i].person_fields@ == PERSON_FIELDS_GET@,
            forall|i: int|
                0 <= i < r@.len() - 1 ==> (#[trigger] r@[i]).resource_names@.len()
                    == PEOPLE_BATCH_GET_MAX_CONTACTS,
    {
        let mut names: Vec<String> = Vec::new();
        let mut i: usize = 0;
        while i < resource_names.len()
            invariant
                i <= resource_names@.len(),
                names@ == resource_names@.take(i as int),
            decreases resource_names@.len() - i,
        {
            names.push(resource_names[i].clone());
            assert(resource_names@.take(i + 1) == resource_names@.take(i as int).push(
                resource_names@[i as int],
            ));
            i = i + 1;
        }
        assert(resource_names@.take(resource_names@.len() as int) == resource_names@);
        let pieces = chunks(names, PEOPLE_BATCH_GET_MAX_CONTACTS);
        let ghost all = pieces@;
        let mut queue = Queue::new(pieces);
        let mut out: Vec<BatchGetRequest> = Vec::new();
        while queue.len() > 0
            invariant
                out@.len() + queue@.len() == all.len(),
                queue@ == all.skip(out@.len() as int),
                forall|i: int|
                    0 <= i < out@.len() ==> (#[trigger] out@[i]).resource_names == all[i]
                        && out@[i].person_fields@ == PERSON_FIELDS_GET@,
            decreases queue@.len(),
        {
            assert(all.skip(out@.len() as int).skip(1) == all.skip(out@.len() as int + 1));
            match queue.next() {
                Some(piece) => out.push(
                    BatchGetRequest {
                        resource_names: piece,
                        person_fields: String::from_str(PERSON_FIELDS_GET),
                    },
                ),
                None => {},
            }
        }
        proof {
            lemma_fetched_names(out@, all);
        }
        out
    }
}

/// Requests that hold the pieces hold, together, what the pieces hold.
proof fn lemma_fetched_names(requests: Seq<BatchGetRequest>, pieces: Seq<Vec<String>>)
    requires
        requests.len() == pieces.len(),
        forall|i: int| 0 <= i < requests.len() ==> (#[trigger] requests[i]).resource_names == pieces[i],
    ensures
        fetched_names(requests) == joined(pieces),
    decreases requests.len(),
{
    if requests.len() > 0 {
        assert forall|i: int| 0 <= i < requests.drop_last().len() implies (
        #[trigger] requests.drop_last()[i]).resource_names == pieces.drop_last()[i] by {
            assert(requests.drop_last()[i] == requests[i]);
        }
        lemma_fetched_names(requests.drop_last(), pieces.drop_last());
        assert(requests[requests.len() - 1].resource_names == pieces[pieces.len() - 1]);
    }
}

/// Each contact with the resource name under which it is written.
pub open spec fn contact_pairs(people: Seq<PersonWrapper>) -> Seq<(String, Person)> {
    Seq::new(people.len(), |i: int| (people[i].resource_name, people[i].person))
}

/// Requests that hold the pieces hold, together, what the pieces hold.
proof fn lemma_created_contacts(
    requests: Seq<Planned<BatchCreateContactsRequest>>,
    pieces: Seq<Vec<Person>>,
)
    requires
        requests.len() == pieces.len(),
        forall|i: int| 0 <= i < requests.len() ==> (#[trigger] requests[i]).call.contacts == pieces[i],
    ensures
        created_contacts(requests) == joined(pieces),
    decreases requests.len(),
{
    if requests.len() > 0 {
        assert forall|i: int| 0 <= i < requests.drop_last().len() implies (
        #[trigger] requests.drop_last()[i]).call.contacts == pieces.drop_last()[i] by {
            assert(requests.drop_last()[i] == requests[i]);
        }
        lemma_created_contacts(requests.drop_last(), pieces.drop_last());
        assert(requests[requests.len() - 1].call.contacts == pieces[pieces.len() - 1]);
    }
}

/// Requests that hold the pieces hold, together, what the pieces hold.
proof fn lemma_updated_contacts(
    requests: Seq<Planned<BatchUpdateContactsRequest>>,
    pieces: Seq<Vec<(String, Person)>>,
)
    requires
        requests.len() == pieces.len(),
        forall|i: int| 0 <= i < requests.len() ==> (#[trigger] requests[i]).call.contacts == pieces[i],
    ensures
        updated_contacts(requests) == joined(pieces),
    decreases requests.len(),
{
    if requests.len() > 0 {
        assert forall|i: int| 0 <= i < requests.drop_last().len() implies (
        #[trigger] requests.drop_last()[i]).call.contacts == pieces.drop_last()[i] by {
            assert(requests.drop_last()[i] == requests[i]);
        }
        lemma_updated_contacts(requests.drop_last(), pieces.drop_last());
        assert(requests[requests.len() - 1].call.contacts == pieces[pieces.len() - 1]);
    }
}

impl GPpl {
    /// The requests that create a contact for each of the members, fifty
    /// with each request and the rest with the last, in the order of the
    /// members. On a dry run they are built and not sent.
    pub fn people_batch_create(&self, users: Vec<User>) -> (r: Vec<
        Planned<BatchCreateContactsRequest>,
    >)
        ensures
            created_contacts(r@).len() == users@.len(),
            forall|i: int|
                0 <= i < users@.len() ==> is_created_from(
                    #[trigger] created_contacts(r@)[i],
                    users@[i],
                    self.group_resource_name@,
                ),
            forall|k: int|
                0 <= k < r@.len() ==> (#[trigger] r@[k]).send == !self.dry_run && 0
                    < r@[k].call.contacts@.len() <= PEOPLE_BATCH_CREATE_MAX_CONTACTS,
            forall|k: int|
                0 <= k < r@.len() - 1 ==> (#[trigger] r@[k]).call.contacts@.len()
                    == PEOPLE_BATCH_CREATE_MAX_CONTACTS,
    {
        let mut persons: Vec<Person> = Vec::new();
        let mut i: usize = 0;
        while i < users.len()
            invariant
                i <= users@.len(),
                persons@.len() == i,
                forall|j: int|
                    0 <= j < i ==> is_created_from(
                        #[trigger] persons@[j],
                        users@[j],
                        self.group_resource_name@,
                    ),
            decreases users@.len() - i,
        {
            persons.push(create_api_person(&users[i], self.group_resource_name.as_str()));
            i = i + 1;
        }
        let ghost made = persons@;
        let pieces = chunks(persons, PEOPLE_BATCH_CREATE_MAX_CONTACTS);
        let ghost all = pieces@;
        let mut queue = Queue::new(pieces);
        let mut out: Vec<Planned<BatchCreateContactsRequest>> = Vec::new();
        while queue.len() > 0
            invariant
                out@.len() + queue@.len() == all.len(),
                queue@ == all.skip(out@.len() as int),
                forall|k: int|
                    0 <= k < out@.len() ==> (#[trigger] out@[k]).call.contacts == all[k]
                        && out@[k].send == !self.dry_run,
            decreases queue@.len(),
        {
            assert(all.skip(out@.len() as int).skip(1) == all.skip(out@.len() as int + 1));
            match queue.next() {
                Some(piece) => out.push(
                    planned(BatchCreateContactsRequest { contacts: piece }, self.dry_run),
                ),
                None => {},
            }
        }
        proof {
            lemma_created_contacts(out@, all);
        }
        assert(created_contacts(out@) == made);
        out
    }

    /// The requests that update the contacts, fifty with each request and
    /// the rest with the last, in the order of the contacts. Each request
    /// names the fields to write: those the merge may have touched, and no
    /// others. On a dry run the requests are built and not sent.
    pub fn people_batch_update(&self, people: Vec<PersonWrapper>) -> (r: Vec<
        Planned<BatchUpdateContactsRequest>,
    >)
        ensures
            updated_contacts(r@) == contact_pairs(people@),
            forall|k: int|
                0 <= k < r@.len() ==> {
                    &&& (#[trigger] r@[k]).send == !self.dry_run
                    &&& 0 < r@[k].call.contacts@.len() <= PEOPLE_BATCH_UPDATE_MAX_CONTACTS
                    &&& r@[k].call.read_mask@ == PERSON_FIELDS_GET@
                    &&& r@[k].call.update_mask@ == PERSON_FIELDS_UPDATE@
                },
            forall|k: int|
                0 <= k < r@.len() - 1 ==> (#[trigger] r@[k]).call.contacts@.len()
                    == PEOPLE_BATCH_UPDATE_MAX_CONTACTS,
    {
        let ghost given = people@;
        let mut queue = Queue::new(people);
        let mut pairs: Vec<(String, Person)> = Vec::new();
        while queue.len() > 0
            invariant
                pairs@.len() + queue@.len() == given.len(),
                queue@ == given.skip(pairs@.len() as int),
                pairs@ == contact_pairs(given).take(pairs@.len() as int),
            decreases queue@.len(),
        {
            let ghost k = pairs@.len() as int;
            assert(given.skip(k).skip(1) == given.skip(k + 1));
            match queue.next() {
                Some(person) => {
                    let PersonWrapper { resource_name, name: _, email: _, person: inner } = person;
                    pairs.push((resource_name, inner));
                    assert(contact_pairs(given).take(k + 1) =~= contact_pairs(given).take(k).push(
                        contact_pairs(given)[k],
                    ));
                },
                None => {},
            }
        }
        assert(contact_pairs(given).take(given.len() as int) =~= contact_pairs(given));
        let pieces = chunks(pairs, PEOPLE_BATCH_UPDATE_MAX_CONTACTS);
        let ghost all = pieces@;
        let mut queue = Queue::new(pieces);
        let mut out: Vec<Planned<BatchUpdateContactsRequest>> = Vec::new();
        while queue.len() > 0
            invariant
                out@.len() + queue@.len() == all.len(),
                queue@ == all.skip(out@.len() as int),
                forall|k: int|
                    0 <= k < out@.len() ==> {
                        &&& (#[trigger] out@[k]).call.contacts == all[k]
                        &&& out@[k].send == !self.dry_run
                        &&& out@[k].call.read_mask@ == PERSON_FIELDS_GET@
                        &&& out@[k].call.update_mask@ == PERSON_FIELDS_UPDATE@
                    },
            decreases queue@.len(),
        {
            assert(all.skip(out@.len() as int).skip(1) == all.skip(out@.len() as int + 1));
            match queue.next() {
                Some(piece) => out.push(
                    planned(
                        BatchUpdateContactsRequest {
                            contacts: piece,
                            read_mask: String::from_str(PERSON_FIELDS_GET),
                            update_mask: String::from_str(PERSON_FIELDS_UPDATE),
                        },
                        self.dry_run,
                    ),
                ),
                None => {},
            }
        }
        proof {
            lemma_updated_contacts(out@, all);
        }
        out
    }
}

/// What a sync of the contacts is to do: the requests that create
/// contacts, the requests that update contacts, and the contacts that have
/// no member and are left alone, by name.
#[derive(Debug, Clone, PartialEq, Eq)]
pub struct PeopleSync {
    pub creates: Vec<Planned<BatchCreateContactsRequest>>,
    pub updates: Vec<Planned<BatchUpdateContactsRequest>>,
    pub ignores: Vec<String>,
}

/// `pair` is what is written for the contact `before` after the member
/// `user` was merged in: the contact's resource name with the merged
/// contact.
pub open spec fn is_merged_pair(pair: (String, Person), before: PersonWrapper, user: User) -> bool {
    exists|after: PersonWrapper|
        #![trigger is_update_of(after, before, user)]
        is_update_of(after, before, user) && pair == (after.resource_name, after.person)
}

/// The name of a contact, with its e-mail address where it has one.
pub open spec fn person_label(person: PersonWrapper) -> Seq<char> {
    match person.email {
        Some(email) => name_email_text(person.name@, email@),
        None => person.name@,
    }
}

impl GPpl {
    /// Plans the sync of the contacts of the group with the members of the
    /// club, given the contacts as fetched. A member without a contact
    /// gets one; a member with a contact is merged into it; a contact
    /// without a member is neither deleted nor changed, only named. On a
    /// dry run every request is built and none is sent.
    pub fn people_sync(&self, users: Vec<User>, members: Vec<PersonWrapper>) -> (r: PeopleSync)
        ensures
            created_contacts(r.creates@).len() == inserts_of(users@, members@).len(),
            forall|i: int|
                0 <= i < inserts_of(users@, members@).len() ==> is_created_from(
                    #[trigger] created_contacts(r.creates@)[i],
                    inserts_of(users@, members@)[i],
                    self.group_resource_name@,
                ),
            updated_contacts(r.updates@).len() == updates_of(users@, members@).len(),
            forall|i: int|
                0 <= i < updates_of(users@, members@).len() ==> is_merged_pair(
                    #[trigger] updated_contacts(r.updates@)[i],
                    updates_of(users@, members@)[i].1,
                    updates_of(users@, members@)[i].0,
                ),
            r.ignores@.len() == deletes_of(users@, members@).len(),
            forall|i: int|
                0 <= i < r.ignores@.len() ==> (#[trigger] r.ignores@[i])@ == person_label(
                    deletes_of(users@, members@)[i],
                ),
            forall|k: int|
                0 <= k < r.creates@.len() ==> (#[trigger] r.creates@[k]).send == !self.dry_run && 0
                    < r.creates@[k].call.contacts@.len() <= PEOPLE_BATCH_CREATE_MAX_CONTACTS,
            forall|k: int|
                0 <= k < r.updates@.len() ==> {
                    &&& (#[trigger] r.updates@[k]).send == !self.dry_run
                    &&& 0 < r.updates@[k].call.contacts@.len() <= PEOPLE_BATCH_UPDATE_MAX_CONTACTS
                    &&& r.updates@[k].call.read_mask@ == PERSON_FIELDS_GET@
                    &&& r.updates@[k].call.update_mask@ == PERSON_FIELDS_UPDATE@
                },
            forall|k: int|
                0 <= k < r.creates@.len() - 1 ==> (#[trigger] r.creates@[k]).call.contacts@.len()
                    == PEOPLE_BATCH_CREATE_MAX_CONTACTS,
            forall|k: int|
                0 <= k < r.updates@.len() - 1 ==> (#[trigger] r.updates@[k]).call.contacts@.len()
                    == PEOPLE_BATCH_UPDATE_MAX_CONTACTS,
    {
        let ops = GPpl::people_sync_ops(users, members);
        let Changeset { inserts, updates, deletes } = ops;
        let creates = self.people_batch_create(inserts);
        let people = self.people_batch_update_ops(updates);
        let ghost merged = people@;
        let updates = self.people_batch_update(people);
        let mut ignores: Vec<String> = Vec::new();
        let mut i: usize = 0;
        while i < deletes.len()
            invariant
                i <= deletes@.len(),
                ignores@.len() == i,
                forall|j: int| 0 <= j < i ==> (#[trigger] ignores@[j])@ == person_label(deletes@[j]),
            decreases deletes@.len() - i,
        {
            ignores.push(deletes[i].name_email());
            i = i + 1;
        }
        let ghost wanted = updates_of(users@, members@);
        assert forall|i: int| 0 <= i < wanted.len() implies is_merged_pair(
            #[trigger] updated_contacts(updates@)[i],
            wanted[i].1,
            wanted[i].0,
        ) by {
            let after = merged[i];
            assert(contact_pairs(merged)[i] == (merged[i].resource_name, merged[i].person));
            assert(is_update_of(after, wanted[i].1, wanted[i].0));
        }
        PeopleSync { creates, updates, ignores }
    }
}

/// The merge keeps what others have put in. A phone number of another type
/// than the new one stays where it is, and the new one is in the list.
/// Merging again, with a new number of the same type, takes the place of
/// the first new number and touches nothing else.
pub proof fn lemma_phone_merge_preserves_foreign(
    held: Vec<PhoneNumber>,
    first: PhoneNumber,
    once: Vec<PhoneNumber>,
    second: PhoneNumber,
)
    requires
        once@ == phone_numbers_with(Some(held), first),
        opt_view(second.type_) == opt_view(first.type_),
    ensures
        forall|i: int|
            0 <= i < held@.len() && opt_view(held@[i].type_) != opt_view(first.type_)
                ==> #[trigger] once@[i] == held@[i],
        once@.contains(first),
        phone_numbers_with(Some(once), second) == phone_numbers_with(Some(held), second),
        phone_numbers_with(Some(once), second).len() == once@.len(),
        forall|i: int|
            0 <= i < held@.len() && opt_view(held@[i].type_) != opt_view(first.type_)
                ==> #[trigger] phone_numbers_with(Some(once), second)[i] == held@[i],
{
    let tags = phone_types(held@);
    let tag = opt_view(first.type_);
    lemma_upsert_keeps_foreign(held@, tags, first, tag);
    lemma_upsert_keeps_foreign(held@, tags, second, tag);
    lemma_upsert_again_replaces(held@, tags, first, second, tag);
    crate::lookup::lemma_first_position(tags, tag);
    assert(phone_types(once@) =~= upserted_tags(tags, tag));
    assert forall|i: int|
        0 <= i < held@.len() && opt_view(held@[i].type_) != opt_view(first.type_) implies #[trigger] once@[i]
        == held@[i] by {
        assert(tags[i] != tag);
        assert(upserted(held@, tags, first, tag)[i] == held@[i]);
    }
    assert forall|i: int|
        0 <= i < held@.len() && opt_view(held@[i].type_) != opt_view(first.type_) implies #[trigger] phone_numbers_with(
        Some(once),
        second,
    )[i] == held@[i] by {
        assert(tags[i] != tag);
        assert(upserted(held@, tags, second, tag)[i] == held@[i]);
    }
}

/// As for phone numbers: a postal address of another type than the new one
/// stays where it is, and merging again replaces the new address alone.
pub proof fn lemma_address_merge_preserves_foreign(
    held: Vec<Address>,
    first: Address,
    once: Vec<Address>,
    second: Address,
)
    requires
        once@ == addresses_with(Some(held), first),
        opt_view(second.type_) == opt_view(first.type_),
    ensures
        forall|i: int|
            0 <= i < held@.len() && opt_view(held@[i].type_) != opt_view(first.type_)
                ==> #[trigger] once@[i] == held@[i],
        once@.contains(first),
        addresses_with(Some(once), second) == addresses_with(Some(held), second),
        addresses_with(Some(once), second).len() == once@.len(),
{
    let tags = address_types(held@);
    let tag = opt_view(first.type_);
    lemma_upsert_keeps_foreign(held@, tags, first, tag);
    lemma_upsert_again_replaces(held@, tags, first, second, tag);
    crate::lookup::lemma_first_position(tags, tag);
    assert(address_types(once@) =~= upserted_tags(tags, tag));
    assert forall|i: int|
        0 <= i < held@.len() && opt_view(held@[i].type_) != opt_view(first.type_) implies #[trigger] once@[i]
        == held@[i] by {
        assert(tags[i] != tag);
        assert(upserted(held@, tags, first, tag)[i] == held@[i]);
    }
}

/// Entries set one after the other hold, under each key, the value that
/// came last for it, and hold no key twice.
pub proof fn lemma_with_entries(more: Entries, key: Seq<char>)
    ensures
        value_of(with_entries(Seq::empty(), more), key) == last_value(more, key),
        entry_keys(with_entries(Seq::empty(), more)).no_duplicates(),
    decreases more.len(),
{
    if more.len() > 0 {
        lemma_with_entries(more.drop_last(), key);
        lemma_with_entry(
            with_entries(Seq::empty(), more.drop_last()),
            more.last().0,
            more.last().1,
            key,
        );
    } else {
        crate::lookup::lemma_first_position(entry_keys(Seq::<(Seq<char>, Seq<char>)>::empty()), key);
    }
}

/// The merge keeps the attributes that others have set: under a key that
/// is none of the club's three, the contact holds after the merge the
/// value that it held before. The club's three keys hold the member's
/// values, and no key is held twice.
pub proof fn lemma_attribute_merge_preserves_foreign(
    existing: Option<Vec<UserDefined>>,
    user: User,
    key: Seq<char>,
)
    ensures
        entry_keys(merged_attributes(existing, user)).no_duplicates(),
        key != SCMA_MEMBER_STATUS_KEY@ && key != SCMA_TRIP_LEADER_STATUS_KEY@ && key
            != SCMA_POSITION_KEY@ ==> value_of(merged_attributes(existing, user), key) == (
        match existing {
            Some(list) => last_value(attribute_entries(list@), key),
            None => None,
        }),
        value_of(merged_attributes(existing, user), SCMA_POSITION_KEY@) == Some(position_text(user)),
        SCMA_TRIP_LEADER_STATUS_KEY@ != SCMA_POSITION_KEY@ ==> value_of(
            merged_attributes(existing, user),
            SCMA_TRIP_LEADER_STATUS_KEY@,
        ) == Some(trip_leader_text(user)),
        SCMA_MEMBER_STATUS_KEY@ != SCMA_POSITION_KEY@ && SCMA_MEMBER_STATUS_KEY@
            != SCMA_TRIP_LEADER_STATUS_KEY@ ==> value_of(
            merged_attributes(existing, user),
            SCMA_MEMBER_STATUS_KEY@,
        ) == Some(member_status_name(user.member_status)),
{
    let held = match existing {
        Some(list) => with_entries(Seq::empty(), attribute_entries(list@)),
        None => Seq::empty(),
    };
    match existing {
        Some(list) => {
            lemma_with_entries(attribute_entries(list@), key);
        },
        None => {
            lemma_with_entries(Seq::empty(), key);
        },
    }
    let a = with_entry(held, SCMA_MEMBER_STATUS_KEY@, member_status_name(user.member_status));
    let b = with_entry(a, SCMA_TRIP_LEADER_STATUS_KEY@, trip_leader_text(user));
    lemma_with_entry(held, SCMA_MEMBER_STATUS_KEY@, member_status_name(user.member_status), key);
    lemma_with_entry(a, SCMA_TRIP_LEADER_STATUS_KEY@, trip_leader_text(user), key);
    lemma_with_entry(b, SCMA_POSITION_KEY@, position_text(user), key);
    lemma_with_entry(b, SCMA_POSITION_KEY@, position_text(user), SCMA_POSITION_KEY@);
    lemma_with_entry(b, SCMA_POSITION_KEY@, position_text(user), SCMA_TRIP_LEADER_STATUS_KEY@);
    lemma_with_entry(
        a,
        SCMA_TRIP_LEADER_STATUS_KEY@,
        trip_leader_text(user),
        SCMA_TRIP_LEADER_STATUS_KEY@,
    );
    lemma_with_entry(b, SCMA_POSITION_KEY@, position_text(user), SCMA_MEMBER_STATUS_KEY@);
    lemma_with_entry(a, SCMA_TRIP_LEADER_STATUS_KEY@, trip_leader_text(user), SCMA_MEMBER_STATUS_KEY@);
    lemma_with_entry(
        held,
        SCMA_MEMBER_STATUS_KEY@,
        member_status_name(user.member_status),
        SCMA_MEMBER_STATUS_KEY@,
    );
}

/// Entries with distinct keys, set one after the other, are those entries.
pub proof fn lemma_with_entries_of_distinct(entries: Entries)
    requires
        entry_keys(entries).no_duplicates(),
    ensures
        with_entries(Seq::empty(), entries) == entries,
    decreases entries.len(),
{
    if entries.len() > 0 {
        let rest = entries.drop_last();
        let keys = entry_keys(entries);
        assert(entry_keys(rest) =~= keys.drop_last());
        assert(entry_keys(rest).no_duplicates()) by {
            assert forall|i: int, j: int|
                0 <= i < rest.len() && 0 <= j < rest.len() && i != j implies entry_keys(rest)[i]
                != entry_keys(rest)[j] by {
                assert(entry_keys(rest)[i] == keys[i] && entry_keys(rest)[j] == keys[j]);
            }
        }
        lemma_with_entries_of_distinct(rest);
        crate::lookup::lemma_first_position(entry_keys(rest), entries.last().0);
        let at = first_position(entry_keys(rest), entries.last().0);
        if at >= 0 {
            assert(keys[at] == entry_keys(rest)[at]);
            assert(keys[entries.len() - 1] == entries.last().0);
        }
        assert(rest.push((entries.last().0, entries.last().1)) =~= entries);
    } else {
        assert(with_entries(Seq::empty(), entries) =~= entries);
    }
}

/// The three keys of the club's attributes differ from each other.
pub proof fn lemma_attribute_keys_differ()
    ensures
        SCMA_MEMBER_STATUS_KEY@ != SCMA_TRIP_LEADER_STATUS_KEY@,
        SCMA_MEMBER_STATUS_KEY@ != SCMA_POSITION_KEY@,
        SCMA_TRIP_LEADER_STATUS_KEY@ != SCMA_POSITION_KEY@,
{
    reveal_strlit("SCMA Member Status");
    reveal_strlit("SCMA Trip Leader Status");
    reveal_strlit("SCMA Position");
    assert(SCMA_MEMBER_STATUS_KEY@.len() == 18);
    assert(SCMA_TRIP_LEADER_STATUS_KEY@.len() == 23);
    assert(SCMA_POSITION_KEY@.len() == 13);
}

/// Merging a member into a contact a second time changes no attribute: the
/// attributes after the first merge, merged with the same member again,
/// are the same.
pub proof fn lemma_attribute_merge_again(
    existing: Option<Vec<UserDefined>>,
    user: User,
    once: Vec<UserDefined>,
)
    requires
        attribute_entries(once@) == merged_attributes(existing, user),
    ensures
        merged_attributes(Some(once), user) == merged_attributes(existing, user),
{
    let merged = merged_attributes(existing, user);
    lemma_attribute_keys_differ();
    lemma_attribute_merge_preserves_foreign(existing, user, SCMA_POSITION_KEY@);
    lemma_with_entries_of_distinct(merged);
    lemma_with_entry_held(merged, SCMA_MEMBER_STATUS_KEY@, member_status_name(user.member_status));
    lemma_with_entry_held(merged, SCMA_TRIP_LEADER_STATUS_KEY@, trip_leader_text(user));
    lemma_with_entry_held(merged, SCMA_POSITION_KEY@, position_text(user));
}

} // verus!
