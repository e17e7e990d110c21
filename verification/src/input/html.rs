//! The nodes of a page of the club's site, found by `select`. A node is
//! named by its index in the document that `select` makes of the page.

use vstd::prelude::*;
use select::document::Document;
use select::predicate::{And, Attr, Class, Name};

verus! {

/// The length in characters from which a page is too long for `select`,
/// which holds a page, and each text that it makes of one, in a buffer of
/// less than four gibibytes.
pub const MAX_PAGE_CHARS: usize = 0x100_0000;

/// The nodes of a page that have a class, in document order.
pub uninterp spec fn class_nodes(page: Seq<char>, class: Seq<char>) -> Seq<usize>;

/// The nodes below a node of a page that have a class, in document order.
pub uninterp spec fn class_nodes_in(page: Seq<char>, node: usize, class: Seq<char>) -> Seq<usize>;

/// The elements below a node of a page that have a name and an attribute
/// of a value, in document order.
pub uninterp spec fn named_nodes_in(
    page: Seq<char>,
    node: usize,
    name: Seq<char>,
    attr: Seq<char>,
    value: Seq<char>,
) -> Seq<usize>;

/// The text of a node of a page and of all nodes below it; none where the
/// page has no such node.
pub uninterp spec fn node_text_of(page: Seq<char>, node: usize) -> Option<Seq<char>>;

/// The value of an attribute of a node of a page; none where the page has
/// no such node or the node no such attribute.
pub uninterp spec fn node_attr_of(page: Seq<char>, node: usize, attr: Seq<char>) -> Option<
    Seq<char>,
>;

/// Calls `Document::find` with the predicate `Class` on the document that
/// `Document::from` makes of the page, and `Node::index` on each node
/// found. Claimed of it: the result depends on the page and the class
/// alone. A page that is too long for `select` is left out.
#[verifier::external_body]
pub(crate) fn find_class(page: &str, class: &str) -> (r: Vec<usize>)
    requires
        page@.len() < MAX_PAGE_CHARS,
    ensures
        r@ == class_nodes(page@, class@),
{
    Document::from(page).find(Class(class)).map(|found| found.index()).collect()
}

/// Calls `Node::find` with the predicate `Class` on the node that
/// `Document::nth` gives, and `Node::index` on each node found. Claimed of
/// it: the result depends on the page, the node and the class alone.
#[verifier::external_body]
pub(crate) fn find_class_in(page: &str, node: usize, class: &str) -> (r: Vec<usize>)
    requires
        page@.len() < MAX_PAGE_CHARS,
    ensures
        r@ == class_nodes_in(page@, node, class@),
{
    let document = Document::from(page);
    let below = document.nth(node).into_iter();
    below.flat_map(|from| from.find(Class(class)).map(|found| found.index())).collect()
}

/// Calls `Node::find` with the predicates `Name` and `Attr`, joined by
/// `And`, on the node that `Document::nth` gives, and `Node::index` on each
/// node found. Claimed of it: the result depends on the arguments alone.
#[verifier::external_body]
pub(crate) fn find_named_in(page: &str, node: usize, name: &str, attr: &str, value: &str) -> (r:
    Vec<usize>)
    requires
        page@.len() < MAX_PAGE_CHARS,
    ensures
        r@ == named_nodes_in(page@, node, name@, attr@, value@),
{
    let document = Document::from(page);
    let below = document.nth(node).into_iter();
    let wanted = And(Name(name), Attr(attr, value));
    below.flat_map(|from| from.find(wanted).map(|found| found.index())).collect()
}

/// Calls `Node::text` on the node that `Document::nth` gives. Claimed of
/// it: the result depends on the page and the node alone.
#[verifier::external_body]
pub(crate) fn node_text(page: &str, node: usize) -> (r: Option<String>)
    requires
        page@.len() < MAX_PAGE_CHARS,
    ensures
        crate::text::opt_view(r) == node_text_of(page@, node),
{
    Document::from(page).nth(node).map(|found| found.text())
}

/// Calls `Node::attr` on the node that `Document::nth` gives. Claimed of
/// it: the result depends on the page, the node and the attribute's name
/// alone.
#[verifier::external_body]
pub(crate) fn node_attr(page: &str, node: usize, attr: &str) -> (r: Option<String>)
    requires
        page@.len() < MAX_PAGE_CHARS,
    ensures
        crate::text::opt_view(r) == node_attr_of(page@, node, attr@),
{
    Document::from(page).nth(node).and_then(|found| found.attr(attr).map(|value| value.to_string()))
}

} // verus!
