//! The paginated lister: the decisions of fetching a remote collection page
//! by page.
//!
//! The caller fetches; this module says which page to fetch next, gathers
//! the items, and ends the listing. A page that fails ends it with nothing:
//! the pages gathered so far are dropped, so that no half list is ever
//! taken for the whole.

use vstd::prelude::*;

verus! {

/// One page of a remote collection.
#[derive(Debug, Clone, PartialEq, Eq)]
pub struct Page<T> {
    pub items: Vec<T>,
    /// The token that fetches the next page; none on the last page.
    pub next_page_token: Option<String>,
}

/// A listing under way or ended.
#[derive(Debug, Clone, PartialEq, Eq)]
pub enum Listing<T> {
    /// The next page is to be fetched, with this token; the first page is
    /// fetched without one. `items` are those of the pages so far.
    Fetch { page_token: Option<String>, items: Vec<T> },
    /// All pages are in.
    Done { items: Vec<T> },
    /// A page could not be fetched.
    Failed { error: String },
}

/// A listing as plain values.
pub enum ListingView<T> {
    Fetch { page_token: Option<Seq<char>>, items: Seq<T> },
    Done { items: Seq<T> },
    Failed { error: Seq<char> },
}

/// The answer to the request for a page, as plain values: the page's
/// items and next token, or an error.
pub type PageReply<T> = Result<(Seq<T>, Option<Seq<char>>), Seq<char>>;

impl<T> View for Listing<T> {
    type V = ListingView<T>;

    open spec fn view(&self) -> ListingView<T> {
        match self {
            Listing::Fetch { page_token, items } => ListingView::Fetch {
                page_token: match page_token {
                    Some(t) => Some(t@),
                    None => None,
                },
                items: items@,
            },
            Listing::Done { items } => ListingView::Done { items: items@ },
            Listing::Failed { error } => ListingView::Failed { error: error@ },
        }
    }
}

/// The listing after the answer to the request for a page. A page is added
/// to the items; its token, if it has one, is the next to fetch with, else
/// the listing is done. An error ends the listing and drops the items. A
/// listing that has ended stays as it is.
pub open spec fn after_reply<T>(listing: ListingView<T>, reply: PageReply<T>) -> ListingView<T> {
    match listing {
        ListingView::Fetch { page_token, items } => match reply {
            Ok((page, next)) => match next {
                Some(token) => ListingView::Fetch { page_token: Some(token), items: items + page },
                None => ListingView::Done { items: items + page },
            },
            Err(error) => ListingView::Failed { error },
        },
        _ => listing,
    }
}

/// The listing after a run of answers, from the first to the last.
pub open spec fn after_replies<T>(listing: ListingView<T>, replies: Seq<PageReply<T>>) -> ListingView<
    T,
>
    decreases replies.len(),
{
    if replies.len() == 0 {
        listing
    } else {
        after_reply(after_replies(listing, replies.drop_last()), replies.last())
    }
}

/// The items of the pages, one page after the other.
pub open spec fn all_items<T>(replies: Seq<PageReply<T>>) -> Seq<T>
    decreases replies.len(),
{
    if replies.len() == 0 {
        Seq::empty()
    } else {
        match replies.last() {
            Ok((page, _)) => all_items(replies.drop_last()) + page,
            Err(_) => all_items(replies.drop_last()),
        }
    }
}

/// The view of the answer to the request for a page.
pub open spec fn reply_view<T>(reply: Result<Page<T>, String>) -> PageReply<T> {
    match reply {
        Ok(page) => Ok(
            (
                page.items@,
                match page.next_page_token {
                    Some(t) => Some(t@),
                    None => None,
                },
            ),
        ),
        Err(error) => Err(error@),
    }
}

impl<T> Listing<T> {
    /// A listing at its start: the first page is to be fetched, without a
    /// token.
    pub fn start() -> (r: Listing<T>)
        ensures
            r@ == (ListingView::Fetch { page_token: None, items: Seq::<T>::empty() }),
    {
        Listing::Fetch { page_token: None, items: Vec::new() }
    }

    /// Takes the answer to the request for the page that is to be fetched.
    pub fn on_page(self, reply: Result<Page<T>, String>) -> (r: Listing<T>)
        ensures
            r@ == after_reply(self@, reply_view(reply)),
    {
        match self {
            Listing::Fetch { page_token, items } => match reply {
                Ok(page) => {
                    let mut items = items;
                    let mut more = page.items;
                    items.append(&mut more);
                    match page.next_page_token {
                        Some(token) => Listing::Fetch { page_token: Some(token), items },
                        None => Listing::Done { items },
                    }
                },
                Err(error) => Listing::Failed { error },
            },
            Listing::Done { items } => Listing::Done { items },
            Listing::Failed { error } => Listing::Failed { error },
        }
    }
}

/// A listing whose every page but the last names a next page, and whose
/// last page names none, ends with the items of all pages in order. It asks
/// for each page with the token that the page before it named.
pub proof fn lemma_listing_gathers_all_pages<T>(replies: Seq<PageReply<T>>)
    requires
        replies.len() > 0,
        forall|i: int| 0 <= i < replies.len() ==> (#[trigger] replies[i]) is Ok,
        forall|i: int| 0 <= i < replies.len() - 1 ==> (#[trigger] replies[i])->Ok_0.1 is Some,
        replies.last()->Ok_0.1 is None,
    ensures
        after_replies(
            ListingView::Fetch { page_token: None, items: Seq::<T>::empty() },
            replies,
        ) == (ListingView::Done { items: all_items(replies) }),
{
    let start = ListingView::Fetch { page_token: None, items: Seq::<T>::empty() };
    lemma_listing_under_way(replies.drop_last());
    let before = after_replies(start, replies.drop_last());
    assert(after_replies(start, replies) == after_reply(before, replies.last()));
}

/// While every page names a next page, the listing goes on: it holds the
/// items of the pages so far and fetches next with the last token named.
pub proof fn lemma_listing_under_way<T>(replies: Seq<PageReply<T>>)
    requires
        forall|i: int| 0 <= i < replies.len() ==> (#[trigger] replies[i]) is Ok,
        forall|i: int| 0 <= i < replies.len() ==> (#[trigger] replies[i])->Ok_0.1 is Some,
    ensures
        after_replies(
            ListingView::Fetch { page_token: None, items: Seq::<T>::empty() },
            replies,
        ) == (ListingView::Fetch {
            page_token: if replies.len() == 0 {
                None
            } else {
                replies.last()->Ok_0.1
            },
            items: all_items(replies),
        }),
    decreases replies.len(),
{
    if replies.len() > 0 {
        let rest = replies.drop_last();
        assert forall|i: int| 0 <= i < rest.len() implies (#[trigger] rest[i]) is Ok
            && rest[i]->Ok_0.1 is Some by {
            assert(rest[i] == replies[i]);
        }
        lemma_listing_under_way(rest);
        assert(replies[replies.len() - 1] is Ok);
    }
}

/// A page that fails ends the listing with the error and without items,
/// whatever was gathered before.
pub proof fn lemma_failed_page_drops_all<T>(listing: ListingView<T>, error: Seq<char>)
    requires
        listing is Fetch,
    ensures
        after_reply(listing, Err(error)) == (ListingView::<T>::Failed { error }),
{
}

} // verus!
