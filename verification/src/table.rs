//! The transition table of a chain: for every context that was seen, the
//! characters that followed it.

use vstd::hash_map::StringHashMap;
use vstd::prelude::*;

verus! {

/// What a table knows of `context`: its followers, or nothing.
pub open spec fn known(table: Map<Seq<char>, Seq<char>>, context: Seq<char>) -> Seq<char> {
    if table.contains_key(context) {
        table[context]
    } else {
        Seq::empty()
    }
}

/// The table once `next` has been seen after `context`: `next` joins the
/// end of that context's followers, and every other context is untouched.
pub open spec fn recorded(
    table: Map<Seq<char>, Seq<char>>,
    context: Seq<char>,
    next: char,
) -> Map<Seq<char>, Seq<char>> {
    table.insert(context, known(table, context).push(next))
}

/// A transition table. Each context maps to the characters seen after it, in
/// the order in which they were seen and with repeats kept, so that a
/// uniform draw among them picks each character as often as it occurred.
pub struct TransitionTable {
    /// The row of each context.
    slots: StringHashMap<usize>,
    /// The followers, one row for each context, in the order of first sight.
    rows: Vec<Vec<char>>,
}

impl View for TransitionTable {
    type V = Map<Seq<char>, Seq<char>>;

    closed spec fn view(&self) -> Map<Seq<char>, Seq<char>> {
        Map::new(
            |context: Seq<char>| self.slots@.contains_key(context),
            |context: Seq<char>| self.rows[self.slots@[context] as int]@,
        )
    }
}

impl TransitionTable {
    /// Every context has a row of its own. Every table that this library
    /// hands out is well formed.
    pub closed spec fn wf(&self) -> bool {
        &&& self.slots@.dom().finite()
        &&& forall|context: Seq<char>| #[trigger]
            self.slots@.contains_key(context) ==> self.slots@[context] < self.rows.len()
        &&& forall|first: Seq<char>, second: Seq<char>|
            self.slots@.contains_key(first) && self.slots@.contains_key(second)
                && #[trigger] self.slots@[first] == #[trigger] self.slots@[second] ==> first
                == second
    }

    /// A table that has seen nothing.
    pub fn new() -> (table: Self)
        ensures
            table.wf(),
            table@ == Map::<Seq<char>, Seq<char>>::empty(),
    {
        TransitionTable { slots: StringHashMap::new(), rows: Vec::new() }
    }

    /// The number of contexts seen.
    pub fn len(&self) -> (count: usize)
        requires
            self.wf(),
        ensures
            count == self@.len(),
            self@.dom().finite(),
    {
        proof {
            assert(self@.dom() =~= self.slots@.dom());
        }
        self.slots.len()
    }

    /// Whether no context was seen.
    pub fn is_empty(&self) -> (empty: bool)
        requires
            self.wf(),
        ensures
            empty == (self@ == Map::<Seq<char>, Seq<char>>::empty()),
    {
        proof {
            assert(self@.dom() =~= self.slots@.dom());
            if self.slots@.is_empty() {
                assert(self@ =~= Map::<Seq<char>, Seq<char>>::empty());
            }
        }
        self.slots.is_empty()
    }

    /// The characters seen after `context`, if it was ever seen.
    pub fn followers(&self, context: &str) -> (found: Option<&Vec<char>>)
        requires
            self.wf(),
        ensures
            match found {
                Some(followers) => self@.contains_key(context@) && followers@ == self@[context@],
                None => !self@.contains_key(context@),
            },
    {
        match self.slots.get(context) {
            Some(row) => Some(&self.rows[*row]),
            None => None,
        }
    }

    /// Gives `context` the followers named, in place of any it had. They may
    /// be none at all: a walk ends at a context without followers.
    pub fn insert(&mut self, context: String, followers: Vec<char>)
        requires
            old(self).wf(),
        ensures
            final(self).wf(),
            final(self)@ == old(self)@.insert(context@, followers@),
    {
        let found: Option<usize> = match self.slots.get(context.as_str()) {
            Some(row) => Some(*row),
            None => None,
        };
        match found {
            Some(row) => {
                self.rows[row] = followers;
            },
            None => {
                let row: usize = self.rows.len();
                self.rows.push(followers);
                self.slots.insert(context, row);
            },
        }
    }

    /// Notes that `next` was seen after `context`.
    pub fn record(&mut self, context: String, next: char)
        requires
            old(self).wf(),
        ensures
            final(self).wf(),
            final(self)@ == recorded(old(self)@, context@, next),
    {
        let found: Option<usize> = match self.slots.get(context.as_str()) {
            Some(row) => Some(*row),
            None => None,
        };
        match found {
            Some(row) => {
                self.rows[row].push(next);
            },
            None => {
                let mut followers: Vec<char> = Vec::new();
                followers.push(next);
                let row: usize = self.rows.len();
                self.rows.push(followers);
                self.slots.insert(context, row);
            },
        }
    }
}

} // verus!
