use scma_gcal_sync::executor::Planned;
use scma_gcal_sync::model::{MemberStatus, TripLeaderStatus, User};
use scma_gcal_sync::output::gppl::{
    create_api_address, create_api_member_status, create_api_person, create_api_phone_number,
    create_api_position, create_api_trip_leader_status, person_addresses_update_or_insert,
    person_phone_numbers_update_or_insert, person_user_defined_update_or_insert, Address,
    BatchGetRequest, ContactGroup, ContactGroupMembership, CreateContactGroupRequest, EmailAddress,
    GPpl, GroupChoice, GroupError, Membership, Name, Person, PersonError, PersonWrapper,
    PhoneNumber, UserDefined, PERSON_FIELDS_GET, PERSON_FIELDS_UPDATE,
};

fn member(name: &str, email: &str) -> User {
    User {
        name: name.to_string(),
        email: email.to_string(),
        address: "1 Main St".to_string(),
        city: "Town".to_string(),
        state: "CA".to_string(),
        zipcode: "90000".to_string(),
        phone: Some("+15555555555".to_string()),
        member_status: MemberStatus::RM,
        trip_leader_status: Some(TripLeaderStatus::S1),
        position: Some("Treasurer".to_string()),
        ..Default::default()
    }
}

fn phone(type_: &str, value: &str, source: Option<usize>) -> PhoneNumber {
    PhoneNumber { type_: Some(type_.to_string()), value: Some(value.to_string()), source }
}

fn address(type_: &str, value: &str, source: Option<usize>) -> Address {
    Address { type_: Some(type_.to_string()), formatted_value: Some(value.to_string()), source }
}

fn attribute(key: &str, value: &str) -> UserDefined {
    UserDefined { key: Some(key.to_string()), value: Some(value.to_string()) }
}

fn contact(resource_name: &str, name: &str, email: Option<&str>) -> PersonWrapper {
    PersonWrapper {
        resource_name: resource_name.to_string(),
        name: name.to_string(),
        email: email.map(|e| e.to_string()),
        person: Person { resource_name: Some(resource_name.to_string()), ..Default::default() },
    }
}

#[test]
fn merge_preserves_foreign_phone_numbers() {
    let held = vec![phone("home", "111", Some(0)), phone("work", "222", Some(1))];
    let once = person_phone_numbers_update_or_insert(phone("SCMA", "333", None), Some(held.clone()))
        .unwrap();
    assert_eq!(once, vec![held[0].clone(), held[1].clone(), phone("SCMA", "333", None)]);
    let twice = person_phone_numbers_update_or_insert(phone("SCMA", "444", None), Some(once)).unwrap();
    assert_eq!(twice, vec![held[0].clone(), held[1].clone(), phone("SCMA", "444", None)]);
}

#[test]
fn phone_number_takes_the_place_of_the_first_of_its_type() {
    let held = vec![
        phone("home", "111", Some(0)),
        phone("SCMA", "old", Some(1)),
        phone("work", "222", Some(2)),
        phone("SCMA", "older", Some(3)),
    ];
    let merged = person_phone_numbers_update_or_insert(phone("SCMA", "new", None), Some(held.clone()))
        .unwrap();
    assert_eq!(
        merged,
        vec![held[0].clone(), phone("SCMA", "new", None), held[2].clone(), held[3].clone()]
    );
    assert_eq!(
        person_phone_numbers_update_or_insert(phone("SCMA", "new", None), None),
        Some(vec![phone("SCMA", "new", None)])
    );
    assert_eq!(
        person_phone_numbers_update_or_insert(phone("SCMA", "new", None), Some(Vec::new())),
        Some(vec![phone("SCMA", "new", None)])
    );
    let untyped = PhoneNumber { type_: None, value: Some("x".to_string()), source: Some(0) };
    let merged = person_phone_numbers_update_or_insert(
        PhoneNumber { type_: None, value: Some("y".to_string()), source: None },
        Some(vec![phone("home", "111", Some(0)), untyped]),
    )
    .unwrap();
    assert_eq!(merged[0], phone("home", "111", Some(0)));
    assert_eq!(merged[1].value, Some("y".to_string()));
    assert_eq!(merged.len(), 2);
}

#[test]
fn merge_preserves_foreign_addresses() {
    let held = vec![address("SCMA", "old", Some(0)), address("home", "there", Some(1))];
    let merged = person_addresses_update_or_insert(address("SCMA", "new", None), Some(held.clone()))
        .unwrap();
    assert_eq!(merged, vec![address("SCMA", "new", None), held[1].clone()]);
    assert_eq!(
        person_addresses_update_or_insert(address("SCMA", "new", None), None),
        Some(vec![address("SCMA", "new", None)])
    );
    let appended = person_addresses_update_or_insert(
        address("SCMA", "new", None),
        Some(vec![address("home", "there", Some(0))]),
    )
    .unwrap();
    assert_eq!(appended, vec![address("home", "there", Some(0)), address("SCMA", "new", None)]);
}

#[test]
fn attributes_are_merged_by_key_in_stable_order() {
    let user = member("Ann", "ann@example.com");
    let held = vec![
        attribute("Foo", "bar"),
        attribute("SCMA Position", "old"),
        attribute("Foo", "baz"),
        UserDefined { key: None, value: None },
    ];
    let merged = person_user_defined_update_or_insert(&user, Some(held)).unwrap();
    assert_eq!(
        merged,
        vec![
            attribute("Foo", "baz"),
            attribute("SCMA Position", "Treasurer"),
            attribute("", ""),
            attribute("SCMA Member Status", "RM"),
            attribute("SCMA Trip Leader Status", "S1"),
        ]
    );
    let again = person_user_defined_update_or_insert(&user, Some(merged.clone())).unwrap();
    assert_eq!(again, merged);
}

#[test]
fn attributes_of_a_contact_without_any() {
    let user = User { name: "Bob".to_string(), ..Default::default() };
    let expected = vec![
        attribute("SCMA Member Status", "Applicant"),
        attribute("SCMA Trip Leader Status", "n/a"),
        attribute("SCMA Position", "n/a"),
    ];
    assert_eq!(person_user_defined_update_or_insert(&user, None), Some(expected.clone()));
    assert_eq!(person_user_defined_update_or_insert(&user, Some(Vec::new())), Some(expected));
}

#[test]
fn entries_made_of_a_member() {
    let user = member("Ann", "ann@example.com");
    assert_eq!(create_api_address(&user), address("SCMA", "1 Main St, Town, CA 90000", None));
    assert_eq!(create_api_phone_number(&user), phone("SCMA", "+15555555555", None));
    assert_eq!(create_api_member_status(&user), attribute("SCMA Member Status", "RM"));
    assert_eq!(create_api_trip_leader_status(&user), attribute("SCMA Trip Leader Status", "S1"));
    assert_eq!(create_api_position(&user), attribute("SCMA Position", "Treasurer"));
    assert_eq!(user.trip_leader_status(), "S1");
    assert_eq!(user.position(), "Treasurer");
    let plain = User::default();
    assert_eq!(plain.trip_leader_status(), "n/a");
    assert_eq!(plain.position(), "n/a");
    assert_eq!(
        create_api_phone_number(&plain),
        PhoneNumber { type_: Some("SCMA".to_string()), value: None, source: None }
    );
}

#[test]
fn person_made_of_a_member() {
    let user = member("Ann", "ann@example.com");
    let person = create_api_person(&user, "contactGroups/1");
    assert_eq!(
        person,
        Person {
            resource_name: None,
            names: Some(vec![Name { display_name: None, unstructured_name: Some("Ann".to_string()) }]),
            email_addresses: Some(vec![EmailAddress {
                type_: Some("SCMA".to_string()),
                value: Some("ann@example.com".to_string()),
            }]),
            addresses: Some(vec![address("SCMA", "1 Main St, Town, CA 90000", None)]),
            phone_numbers: Some(vec![phone("SCMA", "+15555555555", None)]),
            memberships: Some(vec![Membership {
                contact_group_membership: Some(ContactGroupMembership {
                    contact_group_resource_name: Some("contactGroups/1".to_string()),
                }),
            }]),
            user_defined: Some(vec![
                attribute("SCMA Member Status", "RM"),
                attribute("SCMA Trip Leader Status", "S1"),
                attribute("SCMA Position", "Treasurer"),
            ]),
        }
    );
}

#[test]
fn update_merges_the_member_and_keeps_the_rest() {
    let user = member("Ann Member", "ann@example.com");
    let names = Some(vec![Name { display_name: Some("Ann".to_string()), unstructured_name: None }]);
    let emails = Some(vec![EmailAddress { type_: None, value: Some("ann@example.com".to_string()) }]);
    let memberships = Some(vec![Membership { contact_group_membership: None }]);
    let before = PersonWrapper {
        resource_name: "people/1".to_string(),
        name: "Ann".to_string(),
        email: Some("ann@example.com".to_string()),
        person: Person {
            resource_name: Some("people/1".to_string()),
            names: names.clone(),
            email_addresses: emails.clone(),
            addresses: Some(vec![address("home", "there", Some(0))]),
            phone_numbers: Some(vec![phone("mobile", "111", Some(0))]),
            memberships: memberships.clone(),
            user_defined: Some(vec![attribute("Nick", "A")]),
        },
    };
    let after = before.update(user);
    assert_eq!(after.resource_name, "people/1");
    assert_eq!(after.name, "Ann");
    assert_eq!(after.email, Some("ann@example.com".to_string()));
    assert_eq!(after.person.resource_name, Some("people/1".to_string()));
    assert_eq!(after.person.names, names);
    assert_eq!(after.person.email_addresses, emails);
    assert_eq!(after.person.memberships, memberships);
    assert_eq!(
        after.person.phone_numbers,
        Some(vec![phone("mobile", "111", Some(0)), phone("SCMA", "+15555555555", None)])
    );
    assert_eq!(
        after.person.addresses,
        Some(vec![address("home", "there", Some(0)), address("SCMA", "1 Main St, Town, CA 90000", None)])
    );
    assert_eq!(
        after.person.user_defined,
        Some(vec![
            attribute("Nick", "A"),
            attribute("SCMA Member Status", "RM"),
            attribute("SCMA Trip Leader Status", "S1"),
            attribute("SCMA Position", "Treasurer"),
        ])
    );
}

#[test]
fn update_twice_is_update_once() {
    let before = PersonWrapper {
        person: Person {
            phone_numbers: Some(vec![phone("mobile", "111", Some(0))]),
            ..Default::default()
        },
        ..contact("people/1", "Ann", Some("ann@example.com"))
    };
    let once = before.update(member("Ann", "ann@example.com"));
    let twice = once.clone().update(member("Ann", "ann@example.com"));
    assert_eq!(once, twice);
}

#[test]
fn member_without_phone_leaves_the_phone_numbers() {
    let mut user = member("Ann", "ann@example.com");
    user.phone = None;
    let held = Some(vec![phone("SCMA", "old", Some(0))]);
    let before = PersonWrapper {
        person: Person { phone_numbers: held.clone(), ..Default::default() },
        ..contact("people/1", "Ann", None)
    };
    let after = before.update(user);
    assert_eq!(after.person.phone_numbers, held);
    let mut user = member("Ann", "ann@example.com");
    user.phone = None;
    let none = contact("people/1", "Ann", None).update(user);
    assert_eq!(none.person.phone_numbers, None);
}

#[test]
fn contact_is_taken_in_with_its_identity() {
    let person = Person {
        resource_name: Some("people/1".to_string()),
        names: Some(vec![
            Name { display_name: Some("Ann".to_string()), unstructured_name: None },
            Name { display_name: Some("Other".to_string()), unstructured_name: None },
        ]),
        email_addresses: Some(vec![
            EmailAddress { type_: Some("home".to_string()), value: Some("home@example.com".to_string()) },
            EmailAddress { type_: Some("SCMA".to_string()), value: Some("club@example.com".to_string()) },
        ]),
        ..Default::default()
    };
    let wrapper = PersonWrapper::try_from(person.clone()).unwrap();
    assert_eq!(wrapper.resource_name, "people/1");
    assert_eq!(wrapper.name, "Ann");
    assert_eq!(wrapper.email, Some("club@example.com".to_string()));
    assert_eq!(wrapper.person, person);
    assert_eq!(wrapper.name_email(), "Ann <club@example.com>");
}

#[test]
fn contact_without_club_address_is_matched_by_its_first() {
    let mut person = Person {
        resource_name: Some("people/1".to_string()),
        names: Some(vec![Name { display_name: Some("Ann".to_string()), unstructured_name: None }]),
        email_addresses: Some(vec![
            EmailAddress { type_: None, value: Some("first@example.com".to_string()) },
            EmailAddress { type_: Some("work".to_string()), value: Some("work@example.com".to_string()) },
        ]),
        ..Default::default()
    };
    assert_eq!(
        PersonWrapper::try_from(person.clone()).unwrap().email,
        Some("first@example.com".to_string())
    );
    person.email_addresses = Some(Vec::new());
    assert_eq!(PersonWrapper::try_from(person.clone()).unwrap().email, None);
    person.email_addresses = None;
    let wrapper = PersonWrapper::try_from(person.clone()).unwrap();
    assert_eq!(wrapper.email, None);
    assert_eq!(wrapper.name_email(), "Ann");
    person.email_addresses =
        Some(vec![EmailAddress { type_: Some("SCMA".to_string()), value: None }]);
    assert_eq!(PersonWrapper::try_from(person).unwrap().email, None);
}

#[test]
fn contact_without_identity_is_an_error() {
    let named = Some(vec![Name { display_name: Some("Ann".to_string()), unstructured_name: None }]);
    let person = Person { names: named.clone(), ..Default::default() };
    assert_eq!(PersonWrapper::try_from(person), Err(PersonError::MissingResourceName));
    let person = Person { resource_name: Some("people/1".to_string()), ..Default::default() };
    assert_eq!(PersonWrapper::try_from(person), Err(PersonError::MissingName));
    let person = Person {
        resource_name: Some("people/1".to_string()),
        names: Some(Vec::new()),
        ..Default::default()
    };
    assert_eq!(PersonWrapper::try_from(person), Err(PersonError::MissingName));
    let person = Person {
        resource_name: Some("people/1".to_string()),
        names: Some(vec![Name { display_name: None, unstructured_name: Some("Ann".to_string()) }]),
        ..Default::default()
    };
    assert_eq!(PersonWrapper::try_from(person), Err(PersonError::MissingName));
}

#[test]
fn contact_group_is_found_or_created_by_name() {
    let groups = vec![
        ContactGroup { name: None, resource_name: Some("contactGroups/0".to_string()) },
        ContactGroup { name: Some("Friends".to_string()), resource_name: Some("contactGroups/1".to_string()) },
        ContactGroup { name: Some("SCMA".to_string()), resource_name: Some("contactGroups/2".to_string()) },
        ContactGroup { name: Some("SCMA".to_string()), resource_name: Some("contactGroups/3".to_string()) },
    ];
    assert_eq!(
        GPpl::contact_groups_get_or_create_by_name(&groups, "SCMA", false),
        Ok(GroupChoice::Found("contactGroups/2".to_string()))
    );
    assert_eq!(
        GPpl::contact_groups_get_or_create_by_name(&groups, "SCMA", true),
        Ok(GroupChoice::Found("contactGroups/2".to_string()))
    );
    assert_eq!(
        GPpl::contact_groups_get_or_create_by_name(&groups, "Club", false),
        Ok(GroupChoice::Create(CreateContactGroupRequest {
            contact_group: Some(ContactGroup { name: Some("Club".to_string()), resource_name: None }),
            read_group_fields: Some("name".to_string()),
        }))
    );
    let unnamed = vec![ContactGroup { name: Some("SCMA".to_string()), resource_name: None }];
    assert_eq!(
        GPpl::contact_groups_get_or_create_by_name(&unnamed, "SCMA", false),
        Err(GroupError::MissingResourceName)
    );
    assert_eq!(
        GPpl::contact_groups_get_or_create_by_name(&unnamed, "SCMA", true),
        Err(GroupError::MissingResourceName)
    );
    assert_eq!(GroupError::MissingResourceName.message(), "Contact group has no resource name");
}

#[test]
fn contact_group_that_is_absent_is_not_created_on_a_dry_run() {
    let groups = vec![ContactGroup {
        name: Some("Friends".to_string()),
        resource_name: Some("contactGroups/1".to_string()),
    }];
    assert_eq!(
        GPpl::contact_groups_get_or_create_by_name(&groups, "SCMA", true),
        Err(GroupError::DryRun)
    );
    assert_eq!(GPpl::contact_groups_get_or_create_by_name(&[], "SCMA", true), Err(GroupError::DryRun));
    assert!(matches!(
        GPpl::contact_groups_get_or_create_by_name(&[], "SCMA", false),
        Ok(GroupChoice::Create(_))
    ));
    assert_eq!(GroupError::DryRun.message(), "Cannot create contact group during dry run");
}

#[test]
fn every_batch_but_the_last_is_full() {
    let sync = GPpl::new("contactGroups/1".to_string(), false);
    for n in [0usize, 1, 49, 50, 51, 100, 101, 149] {
        let expected = (n + 49) / 50;
        let users: Vec<User> = (0..n).map(|i| member("U", &format!("u{i}@example.com"))).collect();
        let creates = sync.people_batch_create(users);
        assert_eq!(creates.len(), expected);
        let people: Vec<PersonWrapper> = (0..n).map(|i| contact(&format!("people/{i}"), "P", None)).collect();
        let updates = sync.people_batch_update(people);
        assert_eq!(updates.len(), expected);
        let names: Vec<String> = (0..n).map(|i| format!("people/{i}")).collect();
        let gets = sync.people_batch_get(&names);
        assert_eq!(gets.len(), expected);
        for k in 0..expected.saturating_sub(1) {
            assert_eq!(creates[k].call.contacts.len(), 50);
            assert_eq!(updates[k].call.contacts.len(), 50);
            assert_eq!(gets[k].resource_names.len(), 50);
        }
    }
}

#[test]
fn contacts_are_created_in_batches_of_fifty() {
    let sync = GPpl::new("contactGroups/1".to_string(), false);
    let users: Vec<User> = (0..120).map(|i| member(&format!("User {i}"), &format!("u{i}@example.com"))).collect();
    let requests = sync.people_batch_create(users.clone());
    assert_eq!(requests.iter().map(|r| r.call.contacts.len()).collect::<Vec<_>>(), vec![50, 50, 20]);
    assert!(requests.iter().all(|r| r.send));
    let all: Vec<Person> = requests.into_iter().flat_map(|r| r.call.contacts).collect();
    let expected: Vec<Person> = users.iter().map(|u| create_api_person(u, "contactGroups/1")).collect();
    assert_eq!(all, expected);
    assert!(sync.people_batch_create(Vec::new()).is_empty());
    let dry = GPpl::new("contactGroups/1".to_string(), true);
    let held_back = dry.people_batch_create(users);
    assert_eq!(held_back.len(), 3);
    assert!(held_back.iter().all(|r| !r.send));
}

#[test]
fn contacts_are_updated_in_batches_with_the_field_masks() {
    let sync = GPpl::new("contactGroups/1".to_string(), false);
    let people: Vec<PersonWrapper> =
        (0..51).map(|i| contact(&format!("people/{i}"), &format!("P{i}"), None)).collect();
    let requests = sync.people_batch_update(people.clone());
    assert_eq!(requests.iter().map(|r| r.call.contacts.len()).collect::<Vec<_>>(), vec![50, 1]);
    for request in &requests {
        assert!(request.send);
        assert_eq!(request.call.read_mask, PERSON_FIELDS_GET);
        assert_eq!(request.call.update_mask, PERSON_FIELDS_UPDATE);
        assert_eq!(request.call.update_mask, "addresses,phoneNumbers,userDefined");
    }
    let all: Vec<(String, Person)> = requests.into_iter().flat_map(|r| r.call.contacts).collect();
    let expected: Vec<(String, Person)> =
        people.into_iter().map(|p| (p.resource_name, p.person)).collect();
    assert_eq!(all, expected);
    let dry = GPpl::new("contactGroups/1".to_string(), true);
    assert!(dry.people_batch_update(vec![contact("people/1", "P", None)]).iter().all(|r| !r.send));
}

#[test]
fn contacts_are_fetched_in_batches_of_fifty() {
    let sync = GPpl::new("contactGroups/1".to_string(), false);
    let names: Vec<String> = (0..101).map(|i| format!("people/{i}")).collect();
    let requests = sync.people_batch_get(&names);
    assert_eq!(requests.iter().map(|r| r.resource_names.len()).collect::<Vec<_>>(), vec![50, 50, 1]);
    assert_eq!(
        requests[2],
        BatchGetRequest {
            resource_names: vec!["people/100".to_string()],
            person_fields: "addresses,emailAddresses,names,phoneNumbers,userDefined".to_string(),
        }
    );
    let all: Vec<String> = requests.into_iter().flat_map(|r| r.resource_names).collect();
    assert_eq!(all, names);
    assert!(sync.people_batch_get(&[]).is_empty());
}

#[test]
fn pairs_are_merged_in_their_order() {
    let sync = GPpl::new("contactGroups/1".to_string(), false);
    let updates = vec![
        (member("A", "a@example.com"), contact("people/1", "A", Some("a@example.com"))),
        (member("B", "b@example.com"), contact("people/2", "B", Some("b@example.com"))),
    ];
    let merged = sync.people_batch_update_ops(updates.clone());
    let expected: Vec<PersonWrapper> = updates.into_iter().map(|(u, p)| p.update(u)).collect();
    assert_eq!(merged, expected);
}

#[test]
fn people_sync_plans_creates_updates_and_ignores() {
    let sync = GPpl::new("contactGroups/1".to_string(), false);
    let users = vec![member("User 0", "user0@example.com"), member("User 1", "user1@example.com")];
    let members = vec![
        contact("people/1", "User 1", Some("user1@example.com")),
        contact("people/2", "User 2", Some("user2@example.com")),
        contact("people/3", "User 3", None),
    ];
    let plan = sync.people_sync(users.clone(), members.clone());
    assert_eq!(
        plan.creates,
        vec![Planned {
            call: scma_gcal_sync::output::gppl::BatchCreateContactsRequest {
                contacts: vec![create_api_person(&users[0], "contactGroups/1")],
            },
            send: true,
        }]
    );
    let merged = members[0].clone().update(users[1].clone());
    assert_eq!(plan.updates.len(), 1);
    assert_eq!(plan.updates[0].call.contacts, vec![("people/1".to_string(), merged.person)]);
    assert!(plan.updates[0].send);
    assert_eq!(plan.ignores, vec!["User 2 <user2@example.com>".to_string()]);
}

#[test]
fn people_sync_on_a_dry_run_sends_nothing() {
    let sync = GPpl::new("contactGroups/1".to_string(), true);
    let users = vec![member("User 0", "user0@example.com"), member("User 1", "user1@example.com")];
    let members = vec![contact("people/1", "User 1", Some("user1@example.com"))];
    let plan = sync.people_sync(users, members);
    assert_eq!(plan.creates.len(), 1);
    assert_eq!(plan.updates.len(), 1);
    assert!(plan.creates.iter().all(|r| !r.send));
    assert!(plan.updates.iter().all(|r| !r.send));
}
