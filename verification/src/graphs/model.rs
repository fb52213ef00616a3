//! The memory model of a preset, which the crate `fsrs` provides.

use crate::error::AnkiError;
use fsrs::FSRSError;
use fsrs::FSRSItem;
use fsrs::FSRSReview;
use fsrs::MemoryState;
use fsrs::FSRS;
use vstd::prelude::*;

verus! {

/// The memory model of `fsrs`: its parameters. It is carried through.
#[verifier::external_type_specification]
#[verifier::external_body]
pub struct ExFSRS(fsrs::FSRS);

/// A memory state of `fsrs`: a stability and a difficulty. It is carried through.
#[verifier::external_type_specification]
#[verifier::external_body]
pub struct ExMemoryState(fsrs::MemoryState);

/// A review, as the memory model is fed.
#[derive(Debug, Clone, Copy, PartialEq, Eq, Structural)]
pub struct FsrsReview {
    /// From 1 for again to 4 for easy.
    pub rating: u32,
    /// The days since the review before, 0 for the first.
    pub delta_t: u32,
}

/// The reviews of a card, as the memory model is fed.
#[derive(Debug, PartialEq, Eq)]
pub struct FsrsItem {
    pub reviews: Vec<FsrsReview>,
}

/// Why the memory model failed.
#[derive(Debug, Clone, Copy, PartialEq, Eq, Structural)]
pub enum FsrsError {
    NotEnoughData,
    Interrupted,
    InvalidParameters,
    OptimalNotFound,
    InvalidInput,
    InvalidDeckSize,
}

/// The error of the collection that a failure of the memory model becomes.
pub open spec fn error_of(e: FsrsError) -> AnkiError {
    match e {
        FsrsError::Interrupted => AnkiError::Interrupted,
        FsrsError::InvalidParameters => AnkiError::FsrsParamsInvalid,
        FsrsError::OptimalNotFound => AnkiError::FsrsUnableToDetermineDesiredRetention,
        _ => AnkiError::InvalidInput,
    }
}

pub fn to_anki_error(e: FsrsError) -> (error: AnkiError)
    ensures
        error == error_of(e),
{
    match e {
        FsrsError::NotEnoughData => AnkiError::InvalidInput,
        FsrsError::Interrupted => AnkiError::Interrupted,
        FsrsError::InvalidParameters => AnkiError::FsrsParamsInvalid,
        FsrsError::OptimalNotFound => AnkiError::FsrsUnableToDetermineDesiredRetention,
        FsrsError::InvalidInput => AnkiError::InvalidInput,
        FsrsError::InvalidDeckSize => AnkiError::InvalidInput,
    }
}

/// The list begins with the starting state, where there is one, and has a state after each
/// review.
pub open spec fn is_state_list(
    states: Seq<MemoryState>,
    item: FsrsItem,
    starting_state: Option<MemoryState>,
) -> bool {
    match starting_state {
        Some(state) => states.len() == item.reviews@.len() + 1 && states[0] == state,
        None => states.len() == item.reviews@.len(),
    }
}

/// What the memory model gives for items and their starting states, as far as it does not
/// depend on the numbers that it reckons with: a list of states for each item; or invalid
/// input, where there is not one starting state for each item, or where a state that follows a
/// review is not finite. Without items there is nothing to give.
pub open spec fn is_batch(
    r: Result<Vec<Vec<MemoryState>>, FsrsError>,
    items: Seq<FsrsItem>,
    starting_states: Seq<Option<MemoryState>>,
) -> bool {
    match r {
        Ok(lists) => {
            &&& lists@.len() == items.len()
            &&& items.len() > 0 ==> starting_states.len() == items.len()
            &&& forall|i: int|
                0 <= i < items.len() ==> is_state_list(
                    (#[trigger] lists@[i])@,
                    items[i],
                    starting_states[i],
                )
        },
        Err(e) => {
            &&& e == FsrsError::InvalidInput
            &&& items.len() > 0
            &&& starting_states.len() == items.len() ==> exists|i: int|
                0 <= i < items.len() && (#[trigger] items[i]).reviews@.len() > 0
        },
    }
}

/// Calls `fsrs::FSRS::historical_memory_state_batch`. The contract claims what does not depend
/// on floating point: one list for each item, with the starting state in front where there is
/// one, and one state for each review; no failure but `InvalidInput`, which comes when the
/// numbers of items and of starting states differ, or else only from a review. What the states
/// after the reviews are, and which of them are not finite, is left unsaid: they are reckoned
/// in floating point, which differs between machines.
#[verifier::external_body]
fn historical_memory_state_batch(
    model: &FSRS,
    items: Vec<FsrsItem>,
    starting_states: Vec<Option<MemoryState>>,
) -> (r: Result<Vec<Vec<MemoryState>>, FsrsError>)
    ensures
        is_batch(r, items@, starting_states@),
{
    let review = |r: FsrsReview| FSRSReview { rating: r.rating, delta_t: r.delta_t };
    let item = |i: FsrsItem| FSRSItem { reviews: i.reviews.into_iter().map(review).collect() };
    let items = items.into_iter().map(item).collect();
    match model.historical_memory_state_batch(items, Some(starting_states)) {
        Ok(states) => Ok(states),
        Err(FSRSError::NotEnoughData) => Err(FsrsError::NotEnoughData),
        Err(FSRSError::Interrupted) => Err(FsrsError::Interrupted),
        Err(FSRSError::InvalidParameters) => Err(FsrsError::InvalidParameters),
        Err(FSRSError::OptimalNotFound) => Err(FsrsError::OptimalNotFound),
        Err(FSRSError::InvalidInput) => Err(FsrsError::InvalidInput),
        Err(FSRSError::InvalidDeckSize) => Err(FsrsError::InvalidDeckSize),
    }
}

/// Calls `fsrs::FSRS::new` without parameters, for which it takes its default parameters. These
/// are valid, so a model comes back. What its parameters are is left unsaid.
#[verifier::external_body]
fn default_fsrs() -> (r: Option<FSRS>)
    ensures
        r is Some,
{
    FSRS::new(&[]).ok()
}

/// The outcome is one that the crate `fsrs` gave for the items and their starting states, put to
/// the model.
pub closed spec fn gave(
    model: FSRS,
    items: Vec<FsrsItem>,
    starting_states: Vec<Option<MemoryState>>,
    outcome: Result<Vec<Vec<MemoryState>>, FsrsError>,
) -> bool {
    call_ensures(historical_memory_state_batch, (&model, items, starting_states), outcome)
}

/// The states of the items: one after each review, after the starting state where there is one.
pub fn memory_states(
    model: &FSRS,
    items: Vec<FsrsItem>,
    starting_states: Vec<Option<MemoryState>>,
) -> (r: Result<Vec<Vec<MemoryState>>, AnkiError>)
    ensures
        exists|outcome: Result<Vec<Vec<MemoryState>>, FsrsError>|
            #[trigger] is_batch(outcome, items@, starting_states@) && gave(
                *model,
                items,
                starting_states,
                outcome,
            ) && match outcome {
                Ok(lists) => r == Ok::<Vec<Vec<MemoryState>>, AnkiError>(lists),
                Err(e) => r == Err::<Vec<Vec<MemoryState>>, AnkiError>(error_of(e)),
            },
{
    match historical_memory_state_batch(model, items, starting_states) {
        Ok(lists) => Ok(lists),
        Err(e) => Err(to_anki_error(e)),
    }
}

/// The model is one that the crate `fsrs` made with its default parameters.
pub closed spec fn has_default_parameters(model: FSRS) -> bool {
    call_ensures(default_fsrs, (), Some(model))
}

/// A model with the default parameters.
pub fn default_model() -> (r: Result<FSRS, AnkiError>)
    ensures
        r matches Ok(model) && has_default_parameters(model),
{
    match default_fsrs() {
        Some(model) => Ok(model),
        None => Err(AnkiError::FsrsParamsInvalid),
    }
}

} // verus!
