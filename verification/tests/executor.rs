use scma_gcal_sync::executor::{
    chunks, collect_outcomes, outcome_unsent, planned, reversed, tally, Planned, Tally,
    CONCURRENT_REQUESTS, CONCURRENT_REQUESTS_ACL,
};
use scma_gcal_sync::lister::{Listing, Page};
use scma_gcal_sync::merge::put;
use scma_gcal_sync::queue::Queue;
use scma_gcal_sync::output::gauth::{auth_kind, AuthKind, AuthType};

#[test]
fn chunks_are_full_but_the_last() {
    let items: Vec<u32> = (0..7).collect();
    assert_eq!(chunks(items.clone(), 3), vec![vec![0, 1, 2], vec![3, 4, 5], vec![6]]);
    assert_eq!(chunks(items.clone(), 7), vec![items.clone()]);
    assert_eq!(chunks(items.clone(), 8), vec![items.clone()]);
    assert_eq!(chunks(items.clone(), 1).len(), 7);
    assert_eq!(chunks((0..6).collect::<Vec<u32>>(), 3), vec![vec![0, 1, 2], vec![3, 4, 5]]);
    assert!(chunks(Vec::<u32>::new(), 3).is_empty());
    for size in 1..10usize {
        let expected: Vec<Vec<u32>> = items.chunks(size).map(|c| c.to_vec()).collect();
        assert_eq!(chunks(items.clone(), size), expected);
    }
}

#[test]
fn reversed_turns_the_list_around() {
    assert_eq!(reversed(vec![1, 2, 3]), vec![3, 2, 1]);
    assert_eq!(reversed(Vec::<u8>::new()), Vec::<u8>::new());
}

#[test]
fn put_replaces_or_appends() {
    assert_eq!(put(vec![1, 2, 3], Some(1), 9), vec![1, 9, 3]);
    assert_eq!(put(vec![1, 2, 3], Some(2), 9), vec![1, 2, 9]);
    assert_eq!(put(vec![1, 2, 3], None, 9), vec![1, 2, 3, 9]);
    assert_eq!(put(Vec::new(), None, 9), vec![9]);
}

#[test]
fn planned_write_is_sent_unless_on_a_dry_run() {
    assert_eq!(planned("call", false), Planned { call: "call", send: true });
    assert_eq!(planned("call", true), Planned { call: "call", send: false });
    assert_eq!(outcome_unsent::<String>(), Ok(()));
}

#[test]
fn failures_are_collected_together() {
    let outcomes: Vec<Result<(), &str>> = vec![Ok(()), Err("a"), Ok(()), Err("b"), Err("c")];
    assert_eq!(tally(&outcomes), Tally { attempted: 5, succeeded: 2 });
    assert_eq!(collect_outcomes(outcomes), Err(vec!["a", "b", "c"]));
    let fine: Vec<Result<(), &str>> = vec![Ok(()), Ok(())];
    assert_eq!(tally(&fine), Tally { attempted: 2, succeeded: 2 });
    assert_eq!(collect_outcomes(fine), Ok(()));
    assert_eq!(collect_outcomes(Vec::<Result<(), &str>>::new()), Ok(()));
    assert_eq!(tally(&Vec::<Result<(), &str>>::new()), Tally { attempted: 0, succeeded: 0 });
}

#[test]
fn dry_run_of_a_plan_succeeds_without_a_write() {
    let plan: Vec<Planned<u32>> = (0..4).map(|call| planned(call, true)).collect();
    let mut sent = 0;
    let outcomes: Vec<Result<(), String>> = plan
        .iter()
        .map(|p| {
            if p.send {
                sent += 1;
                Err("sent".to_string())
            } else {
                outcome_unsent()
            }
        })
        .collect();
    assert_eq!(sent, 0);
    assert_eq!(collect_outcomes(outcomes), Ok(()));
}

#[test]
fn pool_widths() {
    assert_eq!(CONCURRENT_REQUESTS, 3);
    assert_eq!(CONCURRENT_REQUESTS_ACL, 1);
}

#[test]
fn listing_gathers_all_pages() {
    let listing: Listing<u32> = Listing::start();
    assert_eq!(listing, Listing::Fetch { page_token: None, items: vec![] });
    let listing = listing.on_page(Ok(Page { items: vec![1, 2], next_page_token: Some("t1".to_string()) }));
    assert_eq!(listing, Listing::Fetch { page_token: Some("t1".to_string()), items: vec![1, 2] });
    let listing = listing.on_page(Ok(Page { items: vec![], next_page_token: Some("t2".to_string()) }));
    assert_eq!(listing, Listing::Fetch { page_token: Some("t2".to_string()), items: vec![1, 2] });
    let listing = listing.on_page(Ok(Page { items: vec![3], next_page_token: None }));
    assert_eq!(listing, Listing::Done { items: vec![1, 2, 3] });
    let after = listing.clone().on_page(Ok(Page { items: vec![4], next_page_token: None }));
    assert_eq!(after, listing);
    let after = listing.clone().on_page(Err("late".to_string()));
    assert_eq!(after, listing);
}

#[test]
fn listing_of_a_single_page() {
    let listing: Listing<u32> = Listing::start().on_page(Ok(Page { items: vec![7], next_page_token: None }));
    assert_eq!(listing, Listing::Done { items: vec![7] });
}

#[test]
fn failed_page_drops_what_was_gathered() {
    let listing: Listing<u32> = Listing::start()
        .on_page(Ok(Page { items: vec![1, 2], next_page_token: Some("t1".to_string()) }))
        .on_page(Err("boom".to_string()));
    assert_eq!(listing, Listing::Failed { error: "boom".to_string() });
    let after = listing.clone().on_page(Ok(Page { items: vec![3], next_page_token: None }));
    assert_eq!(after, listing);
}

#[test]
fn way_to_sign_in_is_settled_once() {
    assert_eq!(auth_kind(AuthType::Infer, AuthKind::ServiceAccount), AuthKind::ServiceAccount);
    assert_eq!(auth_kind(AuthType::Infer, AuthKind::OAuthUser), AuthKind::OAuthUser);
    assert_eq!(auth_kind(AuthType::OAuth, AuthKind::ServiceAccount), AuthKind::OAuthUser);
    assert_eq!(auth_kind(AuthType::ServiceAccount, AuthKind::OAuthUser), AuthKind::ServiceAccount);
}

#[test]
fn queue_hands_out_the_records_in_their_order() {
    let mut queue = Queue::new(vec![1, 2, 3]);
    assert_eq!(queue.len(), 3);
    assert_eq!(queue.next(), Some(1));
    assert_eq!(queue.next(), Some(2));
    assert_eq!(queue.len(), 1);
    assert_eq!(queue.next(), Some(3));
    assert_eq!(queue.next(), None);
    assert_eq!(queue.len(), 0);
    assert_eq!(Queue::<u8>::new(Vec::new()).next(), None);
}
