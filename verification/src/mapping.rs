//! The loop over a list of strings: which string is mapped next, and what the mapped ones make up.

use crate::item::Item;
use std::collections::VecDeque;
use vstd::prelude::*;

verus! {

/// A loop that waits for the mapped string of the one handed out last.
pub struct MapLoop<A> {
    pending: VecDeque<Item<String, A>>,
    results: Vec<Item<String, A>>,
}

/// What a loop asks for.
pub enum MapStep<A> {
    /// To evaluate the mapped operation for a string, given its index, and to resume the loop with
    /// what came of it.
    Evaluate { index: usize, row: Item<String, A>, waiting: MapLoop<A> },
    /// Nothing more: these are the mapped strings.
    Finished(Vec<Item<String, A>>),
}

impl<A> MapLoop<A> {
    /// The strings that are still to be mapped, behind the one handed out last.
    pub closed spec fn pending(self) -> Seq<Item<String, A>> {
        self.pending@
    }

    /// The mapped strings so far.
    pub closed spec fn results(self) -> Seq<Item<String, A>> {
        self.results@
    }
}

/// Whether a step is the one to take with these strings still to map and these mapped.
pub open spec fn stands_at<A>(
    step: MapStep<A>,
    pending: Seq<Item<String, A>>,
    results: Seq<Item<String, A>>,
) -> bool {
    if pending.len() == 0 {
        step matches MapStep::Finished(list) && list@ == results
    } else {
        step matches MapStep::Evaluate { index, row, waiting } && index == results.len() && row
            == pending[0] && waiting.pending() == pending.skip(1) && waiting.results() == results
    }
}

/// The next step.
fn advance<A>(pending: VecDeque<Item<String, A>>, results: Vec<Item<String, A>>) -> (r: MapStep<A>)
    ensures
        stands_at(r, pending@, results@),
{
    let mut rest = pending;
    match rest.pop_front() {
        Some(row) => {
            assert(rest@ == pending@.skip(1));
            MapStep::Evaluate { index: results.len(), row, waiting: MapLoop { pending: rest, results } }
        },
        None => MapStep::Finished(results),
    }
}

/// Iterates over a list of strings, asking to evaluate the mapped operation for each one.
pub fn map_string<A>(strings: Vec<Item<String, A>>) -> (r: MapStep<A>)
    ensures
        stands_at(r, strings@, Seq::empty()),
{
    let mut pending: VecDeque<Item<String, A>> = VecDeque::new();
    for row in it: strings.into_iter()
        invariant
            it.seq() == strings@,
            pending@ == strings@.take(it.index()),
    {
        pending.push_back(row);
        assert(strings@.take(it.index() + 1) == strings@.take(it.index()).push(row));
    }
    assert(strings@.take(strings@.len() as int) == strings@);
    advance(pending, Vec::new())
}

/// Goes on with the loop once the mapped operation was evaluated.
pub fn resume<A>(waiting: MapLoop<A>, mapped: Item<String, A>) -> (r: MapStep<A>)
    ensures
        stands_at(r, waiting.pending(), waiting.results().push(mapped)),
{
    let mut results = waiting.results;
    results.push(mapped);
    advance(waiting.pending, results)
}

/// What a loop gives at last, where `operation` says what each string is mapped to at each index.
pub open spec fn outcome<A>(
    pending: Seq<Item<String, A>>,
    results: Seq<Item<String, A>>,
    operation: spec_fn(int, Item<String, A>) -> Item<String, A>,
) -> Seq<Item<String, A>>
    decreases pending.len(),
{
    if pending.len() == 0 {
        results
    } else {
        outcome(
            pending.skip(1),
            results.push(operation(results.len() as int, pending[0])),
            operation,
        )
    }
}

/// What a loop gives at last, from a step on.
pub open spec fn step_outcome<A>(
    step: MapStep<A>,
    operation: spec_fn(int, Item<String, A>) -> Item<String, A>,
) -> Seq<Item<String, A>> {
    match step {
        MapStep::Finished(list) => list@,
        MapStep::Evaluate { index, row, waiting } => outcome(
            waiting.pending(),
            waiting.results().push(operation(index as int, row)),
            operation,
        ),
    }
}

/// A loop maps every string of its list once, in order and with its index, and lists what they were
/// mapped to in the same order.
pub proof fn lemma_loop_maps_list<A>(
    first: MapStep<A>,
    strings: Seq<Item<String, A>>,
    operation: spec_fn(int, Item<String, A>) -> Item<String, A>,
)
    requires
        stands_at(first, strings, Seq::empty()),
    ensures
        step_outcome(first, operation) == strings.map(operation),
{
    lemma_outcome(strings, Seq::empty(), operation);
}

/// Every step that resumes a loop with what the operation gave leads to the same outcome.
pub proof fn lemma_resumed_loop_goes_on<A>(
    step: MapStep<A>,
    next: MapStep<A>,
    operation: spec_fn(int, Item<String, A>) -> Item<String, A>,
)
    requires
        step matches MapStep::Evaluate { index, row, waiting } && stands_at(
            next,
            waiting.pending(),
            waiting.results().push(operation(index as int, row)),
        ),
    ensures
        step_outcome(next, operation) == step_outcome(step, operation),
{
}

/// What a loop adds to the mapped strings so far.
proof fn lemma_outcome<A>(
    pending: Seq<Item<String, A>>,
    results: Seq<Item<String, A>>,
    operation: spec_fn(int, Item<String, A>) -> Item<String, A>,
)
    ensures
        outcome(pending, results, operation) == results + Seq::new(
            pending.len(),
            |i: int| operation(results.len() + i, pending[i]),
        ),
    decreases pending.len(),
{
    if pending.len() > 0 {
        lemma_outcome(
            pending.skip(1),
            results.push(operation(results.len() as int, pending[0])),
            operation,
        );
    }
}

/// What the context of an evaluation holds for the string of a loop.
pub enum VarArg<A> {
    /// Nothing: the evaluation is not inside a loop.
    Missing,
    /// A value that is not a string.
    OtherType,
    /// The current string.
    Text(Item<String, A>),
}

/// Reads the current string from within a loop over strings. It is empty outside a loop, or where
/// the loop runs over something else.
pub fn read_string<A>(vararg: VarArg<A>) -> (r: Item<String, A>)
    ensures
        match vararg {
            VarArg::Text(item) => r == item,
            _ => r.element@ == Seq::<char>::empty() && r.attributes@ == Seq::<
                (String, A),
            >::empty(),
        },
{
    match vararg {
        VarArg::Text(item) => item,
        _ => Item::new_from_element(String::new()),
    }
}

/// A step hands out the first of the strings that are left, with its index in the whole list, and leaves
/// the others in their order. Where none is left, it gives all the mapped strings in theirs.
pub proof fn lemma_steps<A>(
    step: MapStep<A>,
    pending: Seq<Item<String, A>>,
    results: Seq<Item<String, A>>,
)
    requires
        stands_at(step, pending, results),
    ensures
        pending.len() == 0 ==> (step matches MapStep::Finished(list) && list@ == results),
        pending.len() > 0 ==> (step matches MapStep::Evaluate { index, row, waiting } && index
            == results.len() && row == pending.first() && waiting.pending() == pending.drop_first()
            && waiting.results() == results),
{
    if pending.len() > 0 {
        assert(pending.skip(1) == pending.drop_first());
    }
}

} // verus!
