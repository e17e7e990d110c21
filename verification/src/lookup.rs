//! Finding the first entry of a list that holds a given name or tag.

use vstd::prelude::*;

verus! {

/// The first position at which `name` stands in `names`, or -1 where it
/// stands nowhere.
pub open spec fn first_position<A>(names: Seq<A>, name: A) -> int
    decreases names.len(),
{
    if names.len() == 0 {
        -1
    } else if first_position(names.drop_last(), name) >= 0 {
        first_position(names.drop_last(), name)
    } else if names.last() == name {
        names.len() - 1
    } else {
        -1
    }
}

/// What `first_position` finds: the name stands there and nowhere before;
/// -1 means that it stands nowhere.
pub proof fn lemma_first_position<A>(names: Seq<A>, name: A)
    ensures
        -1 <= first_position(names, name) < names.len(),
        first_position(names, name) >= 0 ==> names[first_position(names, name)] == name,
        first_position(names, name) >= 0 ==> forall|j: int|
            0 <= j < first_position(names, name) ==> names[j] != name,
        first_position(names, name) == -1 ==> forall|j: int|
            0 <= j < names.len() ==> names[j] != name,
    decreases names.len(),
{
    if names.len() > 0 {
        let rest = names.drop_last();
        lemma_first_position(rest, name);
        let p = first_position(rest, name);
        if p >= 0 {
            assert(rest[p] == names[p]);
            assert forall|j: int| 0 <= j < p implies names[j] != name by {
                assert(rest[j] == names[j]);
            }
        } else {
            assert forall|j: int| 0 <= j < names.len() - 1 implies names[j] != name by {
                assert(rest[j] == names[j]);
            }
        }
    }
}

/// A position that holds the name, with none before it that does, is the
/// first position of the name; where no position holds it, that is -1.
pub proof fn lemma_first_position_is<A>(names: Seq<A>, name: A, p: int)
    requires
        -1 <= p < names.len(),
        p >= 0 ==> names[p] == name,
        p >= 0 ==> forall|j: int| 0 <= j < p ==> names[j] != name,
        p == -1 ==> forall|j: int| 0 <= j < names.len() ==> names[j] != name,
    ensures
        first_position(names, name) == p,
{
    lemma_first_position(names, name);
}

} // verus!
