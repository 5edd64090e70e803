//! Training: reading example names into a transition table.

use crate::context::{context_after, initial_context, lemma_context_slides, slide, PADDING};
use crate::table::{known, recorded, TransitionTable};
use vstd::prelude::*;

verus! {

/// The lower-case form of a text, as `str::to_lowercase` gives it.
pub uninterp spec fn lowercase_of(text: Seq<char>) -> Seq<char>;

/// `str::to_lowercase` returns the lower-case form of the whole string. It
/// depends on the string alone.
pub assume_specification[ str::to_lowercase ](s: &str) -> (lower: String)
    ensures
        lower@ == lowercase_of(s@),
;

/// The characters that follow `context` in `name`, in the order in which
/// they occur. The character at position `i` follows the context that the
/// `i` characters before it leave behind.
pub open spec fn followers_in(name: Seq<char>, order: nat, context: Seq<char>) -> Seq<char>
    decreases name.len(),
{
    if name.len() == 0 {
        Seq::empty()
    } else {
        let earlier = followers_in(name.drop_last(), order, context);
        if context_after(order, name.drop_last()) == context {
            earlier.push(name.last())
        } else {
            earlier
        }
    }
}

/// The table once `name` has been read into it: every context keeps what
/// it had and gains, behind it, what follows it in `name`.
pub open spec fn extended(
    table: Map<Seq<char>, Seq<char>>,
    name: Seq<char>,
    order: nat,
) -> Map<Seq<char>, Seq<char>> {
    Map::new(
        |context: Seq<char>|
            table.contains_key(context) || followers_in(name, order, context).len() > 0,
        |context: Seq<char>| known(table, context) + followers_in(name, order, context),
    )
}

/// The characters that follow `context` anywhere in `names`, name after name.
pub open spec fn followers_among(names: Seq<Seq<char>>, order: nat, context: Seq<char>) -> Seq<
    char,
>
    decreases names.len(),
{
    if names.len() == 0 {
        Seq::empty()
    } else {
        followers_among(names.drop_last(), order, context) + followers_in(
            names.last(),
            order,
            context,
        )
    }
}

/// The table trained on `names`: it knows exactly the contexts that occur
/// in them, each with all that follows it.
pub open spec fn trained(names: Seq<Seq<char>>, order: nat) -> Map<Seq<char>, Seq<char>> {
    Map::new(
        |context: Seq<char>| followers_among(names, order, context).len() > 0,
        |context: Seq<char>| followers_among(names, order, context),
    )
}

/// The lower-case forms of `names`.
pub open spec fn lowered(names: Seq<&str>) -> Seq<Seq<char>> {
    Seq::new(names.len(), |i: int| lowercase_of(names[i]@))
}

/// Reading one character into a table that has read `name` gives the table
/// that has read `name` with that character behind it.
pub proof fn lemma_extended_by_one(
    table: Map<Seq<char>, Seq<char>>,
    name: Seq<char>,
    order: nat,
    next: char,
)
    ensures
        recorded(extended(table, name, order), context_after(order, name), next) == extended(
            table,
            name.push(next),
            order,
        ),
        extended(table, Seq::empty(), order) == table,
{
    let longer = name.push(next);
    assert(longer.drop_last() == name);
    let after = recorded(extended(table, name, order), context_after(order, name), next);
    assert forall|context: Seq<char>| #[trigger]
        after.contains_key(context) implies after[context] == extended(
        table,
        longer,
        order,
    )[context] by {}
}

/// Training on one more name extends the table by that name.
pub proof fn lemma_trained_by_one(names: Seq<Seq<char>>, order: nat, name: Seq<char>)
    ensures
        trained(names.push(name), order) == extended(trained(names, order), name, order),
        trained(Seq::empty(), order) == Map::<Seq<char>, Seq<char>>::empty(),
{
    assert(names.push(name).drop_last() == names);
}

/// Only contexts of `order` characters have followers in a name.
pub proof fn lemma_followers_in_have_order(name: Seq<char>, order: nat, context: Seq<char>)
    requires
        followers_in(name, order, context).len() > 0,
    ensures
        context.len() == order,
    decreases name.len(),
{
    if name.len() > 0 {
        if context_after(order, name.drop_last()) == context {
            lemma_context_slides(order, name.drop_last(), PADDING);
        } else {
            lemma_followers_in_have_order(name.drop_last(), order, context);
        }
    }
}

/// Every context of a trained table is `order` characters long and has
/// at least one follower.
pub proof fn lemma_trained_contexts(names: Seq<Seq<char>>, order: nat, context: Seq<char>)
    requires
        trained(names, order).contains_key(context),
    ensures
        context.len() == order,
        trained(names, order)[context].len() > 0,
    decreases names.len(),
{
    if names.len() > 0 {
        if followers_in(names.last(), order, context).len() > 0 {
            lemma_followers_in_have_order(names.last(), order, context);
        } else {
            lemma_trained_contexts(names.drop_last(), order, context);
        }
    }
}

impl TransitionTable {
    /// Reads `name` into the table as it stands, without changing its case:
    /// each of its characters is recorded after the context that the
    /// characters before it leave behind.
    pub fn learn(&mut self, name: &str, order: usize)
        requires
            old(self).wf(),
        ensures
            final(self).wf(),
            final(self)@ == extended(old(self)@, name@, order as nat),
    {
        let mut context = initial_context(order);
        proof {
            lemma_context_slides(order as nat, Seq::empty(), PADDING);
            lemma_extended_by_one(old(self)@, Seq::empty(), order as nat, PADDING);
        }
        for next in it: name.chars()
            invariant
                it.seq() == name@,
                self.wf(),
                context@ == context_after(order as nat, name@.take(it.index())),
                self@ == extended(old(self)@, name@.take(it.index()), order as nat),
        {
            proof {
                let read = name@.take(it.index());
                assert(name@.take(it.index() + 1) == read.push(next));
                lemma_context_slides(order as nat, read, next);
                lemma_extended_by_one(old(self)@, read, order as nat, next);
            }
            let moved = slide(context.as_str(), next);
            self.record(context, next);
            context = moved;
        }
        assert(name@.take(name@.len() as int) == name@);
    }
}

/// Builds the transition table of the chain of the given order from
/// `names`, each read in lower case.
pub fn build_chain(names: &[&str], order: usize) -> (chain: TransitionTable)
    ensures
        chain.wf(),
        chain@ == trained(lowered(names@), order as nat),
{
    let mut chain = TransitionTable::new();
    let mut read: usize = 0;
    proof {
        lemma_trained_by_one(Seq::empty(), order as nat, Seq::empty());
    }
    while read < names.len()
        invariant
            read <= names.len(),
            chain.wf(),
            chain@ == trained(lowered(names@).take(read as int), order as nat),
        decreases names.len() - read,
    {
        let name = names[read].to_lowercase();
        chain.learn(name.as_str(), order);
        proof {
            let earlier = lowered(names@).take(read as int);
            assert(lowered(names@).take(read + 1) == earlier.push(name@));
            lemma_trained_by_one(earlier, order as nat, name@);
        }
        read = read + 1;
    }
    assert(lowered(names@).take(names@.len() as int) == lowered(names@));
    chain
}

} // verus!
