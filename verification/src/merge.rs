//! The merger's core: putting one tagged entry into a list of tagged
//! entries. The entry takes the place of the first entry with its tag, or
//! comes last where no entry has the tag. No other entry is touched, so
//! what others have put into the list stays.

use vstd::prelude::*;
use crate::lookup::{first_position, lemma_first_position, lemma_first_position_is};
use crate::text::{opt_str_eq, opt_view};

verus! {

/// A tag: the discriminator by which an entry of a list is found again.
pub type Tag = Option<Seq<char>>;

/// The list with `new`, tagged `tag`, put in: in place of the first entry
/// with that tag, or last. `tags` are the tags of the entries of `list`.
pub open spec fn upserted<A>(list: Seq<A>, tags: Seq<Tag>, new: A, tag: Tag) -> Seq<A> {
    if first_position(tags, tag) >= 0 {
        list.update(first_position(tags, tag), new)
    } else {
        list.push(new)
    }
}

/// The tags of the list after an entry tagged `tag` was put in.
pub open spec fn upserted_tags(tags: Seq<Tag>, tag: Tag) -> Seq<Tag> {
    if first_position(tags, tag) >= 0 {
        tags
    } else {
        tags.push(tag)
    }
}

/// Putting an entry in keeps every entry with another tag where it is,
/// loses no entry but one with the same tag, and leaves the new entry in
/// the list.
pub proof fn lemma_upsert_keeps_foreign<A>(list: Seq<A>, tags: Seq<Tag>, new: A, tag: Tag)
    requires
        tags.len() == list.len(),
    ensures
        upserted(list, tags, new, tag).len() >= list.len(),
        upserted(list, tags, new, tag).len() <= list.len() + 1,
        forall|i: int|
            0 <= i < list.len() && tags[i] != tag ==> #[trigger] upserted(list, tags, new, tag)[i]
                == list[i],
        forall|i: int|
            0 <= i < list.len() && i != first_position(tags, tag) ==> #[trigger] upserted(
                list,
                tags,
                new,
                tag,
            )[i] == list[i],
        upserted(list, tags, new, tag).contains(new),
{
    lemma_first_position(tags, tag);
    let out = upserted(list, tags, new, tag);
    let at = first_position(tags, tag);
    if at >= 0 {
        assert(out[at] == new);
    } else {
        assert(out[list.len() as int] == new);
    }
}

/// Putting in a second entry with the tag of the first takes the place of
/// the first and touches nothing else: the result is as if only the second
/// had been put in.
pub proof fn lemma_upsert_again_replaces<A>(list: Seq<A>, tags: Seq<Tag>, first: A, second: A, tag: Tag)
    requires
        tags.len() == list.len(),
    ensures
        upserted(upserted(list, tags, first, tag), upserted_tags(tags, tag), second, tag)
            == upserted(list, tags, second, tag),
{
    lemma_first_position(tags, tag);
    let at = first_position(tags, tag);
    let once = upserted(list, tags, first, tag);
    let tags1 = upserted_tags(tags, tag);
    lemma_first_position(tags1, tag);
    if at >= 0 {
        assert(first_position(tags1, tag) == at);
        assert(once.update(at, second) =~= list.update(at, second));
    } else {
        let p = first_position(tags1, tag);
        assert(tags1[tags.len() as int] == tag);
        assert(p == tags.len()) by {
            if p < tags.len() {
                assert(tags1[p] == tags[p]);
            }
        }
        assert(once.update(p, second) =~= list.push(second));
    }
}

/// Puts `new` into the list at `at`, or last where `at` is none.
pub fn put<A>(list: Vec<A>, at: Option<usize>, new: A) -> (r: Vec<A>)
    requires
        at matches Some(i) ==> i < list@.len(),
    ensures
        r@ == match at {
            Some(i) => list@.update(i as int, new),
            None => list@.push(new),
        },
{
    let mut list = list;
    match at {
        Some(i) => {
            list.push(new);
            let _ = list.swap_remove(i);
        },
        None => {
            list.push(new);
        },
    }
    list
}

/// An entry that is found again by its tag: the type of a phone number or
/// of an address, the name of a calendar or of a contact group.
pub trait Tagged {
    /// The entry's tag.
    spec fn tag_view(&self) -> Tag;

    /// The entry's tag.
    fn tag(&self) -> (t: &Option<String>)
        ensures
            opt_view(*t) == self.tag_view(),
    ;
}

/// The tags of a list of entries.
pub open spec fn tags_of<T: Tagged>(list: Seq<T>) -> Seq<Tag> {
    Seq::new(list.len(), |i: int| list[i].tag_view())
}

/// The position of the first entry with a tag, if there is one.
pub fn find_tagged<T: Tagged>(list: &[T], tag: &Option<String>) -> (r: Option<usize>)
    ensures
        match r {
            Some(i) => i < list@.len() && first_position(tags_of(list@), opt_view(*tag)) == i,
            None => first_position(tags_of(list@), opt_view(*tag)) == -1,
        },
{
    let ghost tags = tags_of(list@);
    let mut i: usize = 0;
    while i < list.len()
        invariant
            i <= list@.len(),
            tags == tags_of(list@),
            forall|j: int| 0 <= j < i ==> tags[j] != opt_view(*tag),
        decreases list@.len() - i,
    {
        if opt_str_eq(list[i].tag(), tag) {
            proof {
                lemma_first_position_is(tags, opt_view(*tag), i as int);
            }
            return Some(i);
        }
        i = i + 1;
    }
    proof {
        lemma_first_position_is(tags, opt_view(*tag), -1);
    }
    None
}

/// The entries of a list, or of none, with `new` put in: in place of the
/// first entry with its tag, or last.
pub open spec fn upserted_into<T: Tagged>(list: Option<Vec<T>>, new: T) -> Seq<T> {
    match list {
        Some(entries) => upserted(entries@, tags_of(entries@), new, new.tag_view()),
        None => seq![new],
    }
}

/// Puts an entry into a list, or makes a list of it where there is none.
/// The entry takes the place of the first entry with its tag; where there
/// is none, it comes last. Entries with other tags stay as they are.
pub fn upsert<T: Tagged>(new: T, list: Option<Vec<T>>) -> (r: Vec<T>)
    ensures
        r@ == upserted_into(list, new),
{
    match list {
        None => {
            let mut out: Vec<T> = Vec::new();
            out.push(new);
            out
        },
        Some(entries) => {
            let found = find_tagged(entries.as_slice(), new.tag());
            put(entries, found, new)
        },
    }
}

} // verus!
