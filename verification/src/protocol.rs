//! The status codes by which the store's answers travel.

use crate::error::StoreError;
use vstd::prelude::*;

verus! {

/// Status of a successful read or removal.
pub const STATUS_OK: u16 = 200;

/// Status of a successful add.
pub const STATUS_CREATED: u16 = 201;

/// Status of a removal that found no record.
pub const STATUS_NOT_FOUND: u16 = 404;

/// Status of a failure of the store.
pub const STATUS_FAILED: u16 = 500;

/// The status that answers an add which ended in `outcome`.
pub open spec fn add_status_of(outcome: Result<(), StoreError>) -> u16 {
    match outcome {
        Ok(_) => STATUS_CREATED,
        Err(_) => STATUS_FAILED,
    }
}

/// The status that answers a removal which ended in `outcome`.
pub open spec fn remove_status_of(outcome: Result<(), StoreError>) -> u16 {
    match outcome {
        Ok(_) => STATUS_OK,
        Err(StoreError::NotFound) => STATUS_NOT_FOUND,
        Err(_) => STATUS_FAILED,
    }
}

/// What an add came to, as told by the status of its answer.
pub open spec fn add_outcome_of(status: u16) -> Result<(), StoreError> {
    if status == STATUS_CREATED {
        Ok(())
    } else if status == STATUS_FAILED {
        Err(StoreError::Unavailable)
    } else {
        Err(StoreError::Malformed)
    }
}

/// What a removal came to, as told by the status of its answer.
pub open spec fn remove_outcome_of(status: u16) -> Result<(), StoreError> {
    if status == STATUS_OK {
        Ok(())
    } else if status == STATUS_NOT_FOUND {
        Err(StoreError::NotFound)
    } else if status == STATUS_FAILED {
        Err(StoreError::Unavailable)
    } else {
        Err(StoreError::Malformed)
    }
}

/// The status that answers an add which ended in `outcome`.
pub fn add_status(outcome: &Result<(), StoreError>) -> (status: u16)
    ensures
        status == add_status_of(*outcome),
{
    match outcome {
        Ok(_) => STATUS_CREATED,
        Err(_) => STATUS_FAILED,
    }
}

/// The status that answers a removal which ended in `outcome`.
pub fn remove_status(outcome: &Result<(), StoreError>) -> (status: u16)
    ensures
        status == remove_status_of(*outcome),
{
    match outcome {
        Ok(_) => STATUS_OK,
        Err(StoreError::NotFound) => STATUS_NOT_FOUND,
        Err(_) => STATUS_FAILED,
    }
}

/// The status that answers a listing: `STATUS_OK` with the names, or
/// `STATUS_FAILED`.
pub fn list_status(outcome: &Result<Vec<String>, StoreError>) -> (status: u16)
    ensures
        status == if outcome is Ok { STATUS_OK } else { STATUS_FAILED },
{
    match outcome {
        Ok(_) => STATUS_OK,
        Err(_) => STATUS_FAILED,
    }
}

/// What an add came to, as told by the status of its answer.
pub fn add_outcome(status: u16) -> (outcome: Result<(), StoreError>)
    ensures
        outcome == add_outcome_of(status),
{
    if status == STATUS_CREATED {
        Ok(())
    } else if status == STATUS_FAILED {
        Err(StoreError::Unavailable)
    } else {
        Err(StoreError::Malformed)
    }
}

/// What a removal came to, as told by the status of its answer.
pub fn remove_outcome(status: u16) -> (outcome: Result<(), StoreError>)
    ensures
        outcome == remove_outcome_of(status),
{
    if status == STATUS_OK {
        Ok(())
    } else if status == STATUS_NOT_FOUND {
        Err(StoreError::NotFound)
    } else if status == STATUS_FAILED {
        Err(StoreError::Unavailable)
    } else {
        Err(StoreError::Malformed)
    }
}

/// What a listing came to, as told by the status of its answer and by its
/// body: the names, where the body could be read as a list of names.
pub fn list_outcome(status: u16, body: Option<Vec<String>>) -> (outcome: Result<
    Vec<String>,
    StoreError,
>)
    ensures
        status == STATUS_OK && body is Some ==> outcome == Ok::<Vec<String>, StoreError>(
            body->Some_0,
        ),
        status == STATUS_OK && body is None ==> outcome == Err::<Vec<String>, StoreError>(
            StoreError::Malformed,
        ),
        status == STATUS_FAILED ==> outcome == Err::<Vec<String>, StoreError>(
            StoreError::Unavailable,
        ),
        status != STATUS_OK && status != STATUS_FAILED ==> outcome == Err::<
            Vec<String>,
            StoreError,
        >(StoreError::Malformed),
{
    if status == STATUS_OK {
        match body {
            Some(names) => Ok(names),
            None => Err(StoreError::Malformed),
        }
    } else if status == STATUS_FAILED {
        Err(StoreError::Unavailable)
    } else {
        Err(StoreError::Malformed)
    }
}

/// Success and `NotFound` reach the client as the store gave them; every
/// other failure of the store reaches it as `Unavailable`.
pub proof fn law_outcome_survives_status(outcome: Result<(), StoreError>)
    ensures
        outcome is Ok ==> add_outcome_of(add_status_of(outcome)) is Ok,
        outcome is Err ==> add_outcome_of(add_status_of(outcome)) == Err::<(), StoreError>(
            StoreError::Unavailable,
        ),
        outcome is Ok ==> remove_outcome_of(remove_status_of(outcome)) is Ok,
        outcome == Err::<(), StoreError>(StoreError::NotFound) ==> remove_outcome_of(
            remove_status_of(outcome),
        ) == outcome,
        outcome is Err && outcome != Err::<(), StoreError>(StoreError::NotFound)
            ==> remove_outcome_of(remove_status_of(outcome)) == Err::<(), StoreError>(
            StoreError::Unavailable,
        ),
{
}

} // verus!
