//! Generation: walking a transition table to produce a new name.

use crate::consistency::{follows_chain, lemma_prefix_follows_chain, link_holds};
use crate::context::{context_after, initial_context, lemma_context_slides, slide, PADDING};
use crate::repair::{ensure_complete_name, lemma_repaired_is_prefix, repaired};
use crate::table::TransitionTable;
use crate::training::{lowered, trained};
use nanorand::{Rng, WyRand};
use vstd::prelude::*;

verus! {

/// What one step of a walk does.
#[derive(Clone, Copy, Debug, PartialEq, Eq)]
pub enum Step {
    /// The character joins the name and the walk goes on.
    Append(char),
    /// The walk ends and the name stays as it is.
    Stop,
    /// The walk ends and a padding marker joins the name.
    StopMarked,
}

/// The step to take from a context with the given followers. An unknown
/// context ends the walk with a marker. A context without followers ends
/// it. Otherwise `draw` picks one follower, counted round the sequence, and
/// a padding marker or a NUL ends the walk where any other character goes
/// on with it.
pub open spec fn step_for(followers: Option<Seq<char>>, draw: usize) -> Step {
    match followers {
        None => Step::StopMarked,
        Some(followers) => if followers.len() == 0 {
            Step::Stop
        } else {
            let next = followers[draw as int % followers.len() as int];
            if next == PADDING || next == '\0' {
                Step::Stop
            } else {
                Step::Append(next)
            }
        },
    }
}

/// Decides the next step of a walk from the followers of its context and a
/// drawn number.
pub fn next_step(followers: Option<&Vec<char>>, draw: usize) -> (step: Step)
    ensures
        step == step_for(
            match followers {
                Some(followers) => Some(followers@),
                None => None,
            },
            draw,
        ),
{
    match followers {
        None => Step::StopMarked,
        Some(followers) => {
            if followers.len() == 0 {
                Step::Stop
            } else {
                let next = followers[draw % followers.len()];
                if next == PADDING || next == '\0' {
                    Step::Stop
                } else {
                    Step::Append(next)
                }
            }
        },
    }
}

/// A walk: the name so far, and whether it can still grow.
pub struct Walk {
    pub text: Seq<char>,
    pub open: bool,
}

/// What a table holds for `context`.
pub open spec fn looked_up(table: Map<Seq<char>, Seq<char>>, context: Seq<char>) -> Option<
    Seq<char>,
> {
    if table.contains_key(context) {
        Some(table[context])
    } else {
        None
    }
}

/// The walk after one more step with the given draw. A walk that has
/// ended stays as it is.
pub open spec fn stepped(
    table: Map<Seq<char>, Seq<char>>,
    order: nat,
    walk: Walk,
    draw: usize,
) -> Walk {
    if !walk.open {
        walk
    } else {
        match step_for(looked_up(table, context_after(order, walk.text)), draw) {
            Step::Append(next) => Walk { text: walk.text.push(next), open: true },
            Step::Stop => Walk { text: walk.text, open: false },
            Step::StopMarked => Walk { text: walk.text.push(PADDING), open: false },
        }
    }
}

/// The walk that starts from the padding and takes one step for each draw.
pub open spec fn walked(table: Map<Seq<char>, Seq<char>>, order: nat, draws: Seq<usize>) -> Walk
    decreases draws.len(),
{
    if draws.len() == 0 {
        Walk { text: Seq::empty(), open: true }
    } else {
        stepped(table, order, walked(table, order, draws.drop_last()), draws.last())
    }
}

/// The name that the given draws produce: the text of their walk, made
/// complete.
pub open spec fn generated(table: Map<Seq<char>, Seq<char>>, order: nat, draws: Seq<usize>) -> Seq<
    char,
> {
    repaired(walked(table, order, draws).text)
}

/// Generates a name from the given draws, one for each character at most:
/// the walk takes no more steps than there are draws.
pub fn generate_name_from(chain: &TransitionTable, order: usize, draws: &[usize]) -> (name:
    String)
    requires
        chain.wf(),
    ensures
        name@ == generated(chain@, order as nat, draws@),
        follows_chain(chain@, order as nat, name@),
        name@.len() <= draws@.len(),
{
    let mut context = initial_context(order);
    let mut name = String::new();
    let mut taken: usize = 0;
    proof {
        lemma_context_slides(order as nat, Seq::empty(), PADDING);
    }
    while taken < draws.len()
        invariant_except_break
            walked(chain@, order as nat, draws@.take(taken as int)) == (Walk {
                text: name@,
                open: true,
            }),
            context@ == context_after(order as nat, name@),
        invariant
            taken <= draws.len(),
            chain.wf(),
        ensures
            taken <= draws.len(),
            walked(chain@, order as nat, draws@.take(taken as int)).text == name@,
            taken < draws.len() ==> !walked(chain@, order as nat, draws@.take(taken as int)).open,
        decreases draws.len() - taken,
    {
        let step = next_step(chain.followers(context.as_str()), draws[taken]);
        proof {
            assert(draws@.take(taken + 1).drop_last() == draws@.take(taken as int));
            lemma_context_slides(order as nat, name@, PADDING);
        }
        taken = taken + 1;
        match step {
            Step::Append(next) => {
                proof {
                    lemma_context_slides(order as nat, name@, next);
                }
                let moved = slide(context.as_str(), next);
                name.push(next);
                context = moved;
            },
            Step::Stop => {
                break ;
            },
            Step::StopMarked => {
                name.push(PADDING);
                break ;
            },
        }
    }
    proof {
        assert(draws@.take(draws@.len() as int) == draws@);
        if taken < draws.len() {
            lemma_walk_stays_closed(chain@, order as nat, draws@, taken as int);
        }
        lemma_generated_follows_chain(chain@, order as nat, draws@);
    }
    ensure_complete_name(name)
}

/// A number below `bound`, drawn by a `WyRand` generator that
/// `WyRand::new` seeds afresh from the system. `Rng::generate_range` keeps
/// what it returns for `..bound` below `bound`; nothing else is known of it.
#[verifier::external_body]
fn random_index(bound: usize) -> (index: usize)
    requires
        bound > 0,
    ensures
        index < bound,
{
    WyRand::new().generate_range(..bound)
}

/// Generates a name of at most `max_len` characters by a random walk
/// through `chain`: every step draws uniformly among the followers of the
/// context, so that a character is picked as often as it was seen there.
/// The name is the one that `generate_name_from` gives for the numbers
/// drawn.
pub fn generate_name(chain: &TransitionTable, order: usize, max_len: usize) -> (name: String)
    requires
        chain.wf(),
    ensures
        exists|draws: Seq<usize>|
            draws.len() == max_len && name@ == #[trigger] generated(chain@, order as nat, draws),
        follows_chain(chain@, order as nat, name@),
        name@.len() <= max_len,
        !name@.contains(PADDING),
{
    let mut context = initial_context(order);
    let mut name = String::new();
    let mut taken: usize = 0;
    let ghost mut drawn: Seq<usize> = Seq::empty();
    proof {
        lemma_context_slides(order as nat, Seq::empty(), PADDING);
    }
    while taken < max_len
        invariant_except_break
            walked(chain@, order as nat, drawn) == (Walk { text: name@, open: true }),
            context@ == context_after(order as nat, name@),
        invariant
            taken <= max_len,
            drawn.len() == taken,
            chain.wf(),
        ensures
            walked(chain@, order as nat, drawn).text == name@,
            taken < max_len ==> !walked(chain@, order as nat, drawn).open,
        decreases max_len - taken,
    {
        let followers = chain.followers(context.as_str());
        let draw: usize = match followers {
            Some(followers) => if followers.len() > 0 {
                random_index(followers.len())
            } else {
                0
            },
            None => 0,
        };
        let step = next_step(followers, draw);
        proof {
            assert(drawn.push(draw).drop_last() == drawn);
            drawn = drawn.push(draw);
            lemma_context_slides(order as nat, name@, PADDING);
        }
        taken = taken + 1;
        match step {
            Step::Append(next) => {
                proof {
                    lemma_context_slides(order as nat, name@, next);
                }
                let moved = slide(context.as_str(), next);
                name.push(next);
                context = moved;
            },
            Step::Stop => {
                break ;
            },
            Step::StopMarked => {
                name.push(PADDING);
                break ;
            },
        }
    }
    proof {
        let rest = Seq::new((max_len - taken) as nat, |i: int| 0usize);
        let draws = drawn + rest;
        assert(draws.take(taken as int) == drawn);
        if taken < max_len {
            lemma_walk_stays_closed(chain@, order as nat, draws, taken as int);
        }
        lemma_generated_follows_chain(chain@, order as nat, draws);
    }
    ensure_complete_name(name)
}

/// The part of a walk's text that the table gave: all of it but the padding
/// marker with which it may have ended.
pub open spec fn grown(walk: Walk) -> Seq<char> {
    if !walk.open && walk.text.len() > 0 && walk.text.last() == PADDING {
        walk.text.drop_last()
    } else {
        walk.text
    }
}

/// What a walk's text holds, whatever the table and the draws: characters
/// that the table allows, one for each draw at most, none of them a padding
/// marker or a NUL, and behind them at most one padding marker, with which
/// the walk has ended.
pub proof fn lemma_walk_follows_chain(
    table: Map<Seq<char>, Seq<char>>,
    order: nat,
    draws: Seq<usize>,
)
    ensures
        follows_chain(table, order, grown(walked(table, order, draws))),
        !grown(walked(table, order, draws)).contains(PADDING),
        !grown(walked(table, order, draws)).contains('\0'),
        walked(table, order, draws).text.len() <= draws.len(),
        walked(table, order, draws).open ==> walked(table, order, draws).text.len() == draws.len(),
    decreases draws.len(),
{
    if draws.len() > 0 {
        let before = walked(table, order, draws.drop_last());
        let after = walked(table, order, draws);
        lemma_walk_follows_chain(table, order, draws.drop_last());
        if before.open {
            let context = context_after(order, before.text);
            match step_for(looked_up(table, context), draws.last()) {
                Step::Append(next) => {
                    assert forall|at: int| 0 <= at < after.text.len() implies #[trigger] link_holds(
                        table,
                        order,
                        after.text,
                        at,
                    ) by {
                        if at < before.text.len() {
                            assert(link_holds(table, order, before.text, at));
                            assert(after.text.take(at) == before.text.take(at));
                        } else {
                            assert(after.text.take(at) == before.text);
                        }
                    }
                },
                Step::Stop => {},
                Step::StopMarked => {
                    assert(after.text.drop_last() == before.text);
                },
            }
        }
    }
}

/// Every generated name is consistent with the table it was generated
/// from, whatever the table and the draws. It is no longer than the number
/// of draws, and holds no padding marker and no NUL.
pub proof fn lemma_generated_follows_chain(
    table: Map<Seq<char>, Seq<char>>,
    order: nat,
    draws: Seq<usize>,
)
    ensures
        follows_chain(table, order, generated(table, order, draws)),
        generated(table, order, draws).len() <= draws.len(),
        !generated(table, order, draws).contains(PADDING),
        !generated(table, order, draws).contains('\0'),
{
    let walk = walked(table, order, draws);
    let name = generated(table, order, draws);
    lemma_walk_follows_chain(table, order, draws);
    lemma_repaired_is_prefix(walk.text);
    if !(walk.text.len() > 0 && walk.text.last() == PADDING) {
        lemma_prefix_follows_chain(table, order, walk.text, name);
    }
}

/// No draw gives no name.
pub proof fn lemma_nothing_generated(table: Map<Seq<char>, Seq<char>>, order: nat)
    ensures
        generated(table, order, Seq::empty()) == Seq::<char>::empty(),
{
    lemma_generated_follows_chain(table, order, Seq::empty());
}

/// Once a walk has ended, further draws change nothing.
pub proof fn lemma_walk_stays_closed(
    table: Map<Seq<char>, Seq<char>>,
    order: nat,
    draws: Seq<usize>,
    used: int,
)
    requires
        0 <= used <= draws.len(),
        !walked(table, order, draws.take(used)).open,
    ensures
        walked(table, order, draws) == walked(table, order, draws.take(used)),
    decreases draws.len(),
{
    if used < draws.len() {
        let shorter = draws.drop_last();
        assert(shorter.take(used) == draws.take(used));
        lemma_walk_stays_closed(table, order, shorter, used);
    } else {
        assert(draws.take(used) == draws);
    }
}

/// Training does not depend on chance: two tables built from the same
/// names with the same order are equal, give the same name for the same
/// draws, and find the same names consistent.
pub proof fn lemma_training_is_deterministic(
    first: TransitionTable,
    second: TransitionTable,
    names: Seq<&str>,
    order: nat,
)
    requires
        first@ == trained(lowered(names), order),
        second@ == trained(lowered(names), order),
    ensures
        first@ == second@,
        forall|draws: Seq<usize>| #[trigger]
            generated(first@, order, draws) == generated(second@, order, draws),
        forall|name: Seq<char>| #[trigger]
            follows_chain(first@, order, name) == follows_chain(second@, order, name),
{
}

} // verus!
