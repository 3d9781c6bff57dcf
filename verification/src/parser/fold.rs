//! Steps that are taken one after the other, and may fail.

use vstd::prelude::*;

verus! {

/// Why a snapshot could not be built.
#[derive(Debug, Clone, Copy, PartialEq, Eq, Structural)]
pub enum BuildError {
    /// A list of fixed size would have held more than it is made for, or a
    /// table more items than there are `Id`s.
    CapacityViolation,
}

/// Whether `states` are the states through which taking the first
/// `states.len() - 1` of `items` leads, one after the other, from `start`
/// on, each by `step`; after a failure nothing more is taken.
pub open spec fn chained<S, X>(
    step: spec_fn(S, X, Result<S, BuildError>) -> bool,
    start: S,
    items: Seq<X>,
    states: Seq<Result<S, BuildError>>,
) -> bool {
    &&& 1 <= states.len() <= items.len() + 1
    &&& states[0] == Ok::<S, BuildError>(start)
    &&& forall|k: int|
        0 <= k < states.len() - 1 ==> match #[trigger] states[k] {
            Ok(state) => step(state, items[k], states[k + 1]),
            Err(error) => states[k + 1] == Err::<S, BuildError>(error),
        }
}

/// Whether `outcome` is what comes of taking all of `items` one after the
/// other, from `start` on, each by `step`; a failure ends it.
pub open spec fn folded<S, X>(
    step: spec_fn(S, X, Result<S, BuildError>) -> bool,
    start: S,
    items: Seq<X>,
    outcome: Result<S, BuildError>,
) -> bool {
    exists|states: Seq<Result<S, BuildError>>| #[trigger]
        chained(step, start, items, states) && states.len() == items.len() + 1 && states.last()
            == outcome
}

/// Nothing taken leaves the start.
pub proof fn lemma_chain_starts<S, X>(
    step: spec_fn(S, X, Result<S, BuildError>) -> bool,
    start: S,
    items: Seq<X>,
)
    ensures
        chained(step, start, items, seq![Ok::<S, BuildError>(start)]),
{
}

/// One more item is taken by one more step.
pub proof fn lemma_chain_grows<S, X>(
    step: spec_fn(S, X, Result<S, BuildError>) -> bool,
    start: S,
    items: Seq<X>,
    states: Seq<Result<S, BuildError>>,
    state: S,
    outcome: Result<S, BuildError>,
)
    requires
        chained(step, start, items, states),
        states.len() <= items.len(),
        states.last() == Ok::<S, BuildError>(state),
        step(state, items[states.len() - 1], outcome),
    ensures
        chained(step, start, items, states.push(outcome)),
{
    let longer = states.push(outcome);
    assert forall|k: int| 0 <= k < longer.len() - 1 implies match #[trigger] longer[k] {
        Ok(state) => step(state, items[k], longer[k + 1]),
        Err(error) => longer[k + 1] == Err::<S, BuildError>(error),
    } by {
        if k < states.len() - 1 {
            assert(longer[k] == states[k]);
            assert(longer[k + 1] == states[k + 1]);
        }
    }
}

/// After a failure nothing more is taken: the failure is the outcome.
pub proof fn lemma_chain_fails<S, X>(
    step: spec_fn(S, X, Result<S, BuildError>) -> bool,
    start: S,
    items: Seq<X>,
    states: Seq<Result<S, BuildError>>,
    error: BuildError,
)
    requires
        chained(step, start, items, states),
        states.last() == Err::<S, BuildError>(error),
    ensures
        folded(step, start, items, Err(error)),
    decreases items.len() + 1 - states.len(),
{
    if states.len() == items.len() + 1 {
        assert(chained(step, start, items, states) && states.len() == items.len() + 1
            && states.last() == Err::<S, BuildError>(error));
    } else {
        let longer = states.push(Err::<S, BuildError>(error));
        assert forall|k: int| 0 <= k < longer.len() - 1 implies match #[trigger] longer[k] {
            Ok(state) => step(state, items[k], longer[k + 1]),
            Err(error) => longer[k + 1] == Err::<S, BuildError>(error),
        } by {
            if k < states.len() - 1 {
                assert(longer[k] == states[k]);
                assert(longer[k + 1] == states[k + 1]);
            }
        }
        lemma_chain_fails(step, start, items, longer, error);
    }
}

/// A chain through all the items ends in the outcome.
pub proof fn lemma_chain_ends<S, X>(
    step: spec_fn(S, X, Result<S, BuildError>) -> bool,
    start: S,
    items: Seq<X>,
    states: Seq<Result<S, BuildError>>,
)
    requires
        chained(step, start, items, states),
        states.len() == items.len() + 1,
    ensures
        folded(step, start, items, states.last()),
{
}

} // verus!
