//! Consistency of a name with a chain.

use crate::context::context_after;
use crate::training::{followers_among, followers_in, trained};
use vstd::prelude::*;

verus! {

/// Whether `next` was seen after `context`.
pub open spec fn allows(table: Map<Seq<char>, Seq<char>>, context: Seq<char>, next: char) -> bool {
    table.contains_key(context) && table[context].contains(next)
}

/// Whether the table allows the character at position `at` of `name` after
/// the context that the characters before it leave behind.
pub open spec fn link_holds(
    table: Map<Seq<char>, Seq<char>>,
    order: nat,
    name: Seq<char>,
    at: int,
) -> bool {
    allows(table, context_after(order, name.take(at)), name[at])
}

/// Whether `name` is consistent with the chain: cut into its windows of
/// `order` characters and the character behind each, with the padding in
/// front, it shows no pair of context and next character that the table
/// lacks.
pub open spec fn follows_chain(table: Map<Seq<char>, Seq<char>>, order: nat, name: Seq<char>) -> bool {
    forall|at: int| 0 <= at < name.len() ==> #[trigger] link_holds(table, order, name, at)
}

/// The start of a name that is consistent with a chain is consistent with it.
pub proof fn lemma_prefix_follows_chain(
    table: Map<Seq<char>, Seq<char>>,
    order: nat,
    name: Seq<char>,
    start: Seq<char>,
)
    requires
        follows_chain(table, order, name),
        start.is_prefix_of(name),
    ensures
        follows_chain(table, order, start),
{
    assert forall|at: int| 0 <= at < start.len() implies #[trigger] link_holds(
        table,
        order,
        start,
        at,
    ) by {
        assert(link_holds(table, order, name, at));
        assert(start.take(at) == name.take(at));
    }
}

/// Every character of a name stands among the followers that the name
/// gives to the context in front of it.
pub proof fn lemma_followers_in_hold(name: Seq<char>, order: nat, at: int)
    requires
        0 <= at < name.len(),
    ensures
        followers_in(name, order, context_after(order, name.take(at))).contains(name[at]),
    decreases name.len(),
{
    let context = context_after(order, name.take(at));
    let shorter = name.drop_last();
    let earlier = followers_in(shorter, order, context);
    if at == name.len() - 1 {
        assert(earlier.push(name.last()).last() == name[at]);
    } else {
        assert(shorter.take(at) == name.take(at));
        lemma_followers_in_hold(shorter, order, at);
        let found = choose|i: int| 0 <= i < earlier.len() && earlier[i] == shorter[at];
        assert(followers_in(name, order, context)[found] == name[at]);
    }
}

/// What follows a context in one of the names follows it among all of them.
pub proof fn lemma_followers_among_hold(
    names: Seq<Seq<char>>,
    order: nat,
    which: int,
    context: Seq<char>,
    next: char,
)
    requires
        0 <= which < names.len(),
        followers_in(names[which], order, context).contains(next),
    ensures
        followers_among(names, order, context).contains(next),
    decreases names.len(),
{
    let earlier = followers_among(names.drop_last(), order, context);
    let last = followers_in(names.last(), order, context);
    if which == names.len() - 1 {
        let found = choose|i: int| 0 <= i < last.len() && last[i] == next;
        assert((earlier + last)[earlier.len() + found] == next);
    } else {
        lemma_followers_among_hold(names.drop_last(), order, which, context, next);
        let found = choose|i: int| 0 <= i < earlier.len() && earlier[i] == next;
        assert((earlier + last)[found] == next);
    }
}

/// Every name is consistent with the chain that was trained on it.
pub proof fn lemma_names_follow_their_chain(names: Seq<Seq<char>>, order: nat, which: int)
    requires
        0 <= which < names.len(),
    ensures
        follows_chain(trained(names, order), order, names[which]),
{
    let name = names[which];
    assert forall|at: int| 0 <= at < name.len() implies #[trigger] link_holds(
        trained(names, order),
        order,
        name,
        at,
    ) by {
        let context = context_after(order, name.take(at));
        lemma_followers_in_hold(name, order, at);
        lemma_followers_among_hold(names, order, which, context, name[at]);
    }
}

} // verus!
