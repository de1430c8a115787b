//! Failures of the overlay store and the words shown for them.

use vstd::prelude::*;
use vstd::string::*;

verus! {

/// Why an operation on the overlay store did not succeed.
#[derive(Clone, Copy, Debug, PartialEq, Eq, Structural)]
pub enum StoreError {
    /// The name is not an indicator of the catalog.
    InvalidIndicator,
    /// An action was asked for while no indicator was selected.
    NotSelected,
    /// The indicator to remove has no overlay record.
    NotFound,
    /// The store could not be reached or could not persist.
    Unavailable,
    /// A response did not have the expected shape.
    Malformed,
}

/// Shown when an action is asked for without a selection.
pub const NO_SELECTION: &'static str = "No indicator selected";

/// Shown when the store is unavailable or its answer malformed.
pub const API_FAILURE: &'static str = "Error with API, please try again later.";

/// Shown when a name outside the catalog reaches the store.
pub const UNKNOWN_INDICATOR: &'static str = "Not an indicator of the catalog";

/// Written to the log for a malformed answer.
pub const UNDEFINED_RESPONSE: &'static str = "Undefined response from API";

/// Opening words of the message for a removal that found no record.
pub const CANNOT_REMOVE: &'static str = "Cannot remove ";

/// Closing words of the message for a removal that found no record.
pub const NOT_RECENT: &'static str = ": not a recently updated indicator.";

/// Shown after a successful add.
pub const ADDED: &'static str = "Indicator added";

/// Shown after a successful remove.
pub const REMOVED: &'static str = "Indicator removed";

/// The message shown to the user for `error`, met while acting on the
/// indicator `indicator`. A malformed answer is shown as an unavailable
/// store.
pub open spec fn message_for(error: StoreError, indicator: Seq<char>) -> Seq<char> {
    match error {
        StoreError::InvalidIndicator => UNKNOWN_INDICATOR@,
        StoreError::NotSelected => NO_SELECTION@,
        StoreError::NotFound => CANNOT_REMOVE@ + indicator + NOT_RECENT@,
        StoreError::Unavailable => API_FAILURE@,
        StoreError::Malformed => API_FAILURE@,
    }
}

/// The line written to the log for `error`, met while acting on the
/// indicator `indicator`. Unlike the message shown, it tells a malformed
/// answer from an unavailable store.
pub open spec fn log_line_for(error: StoreError, indicator: Seq<char>) -> Seq<char> {
    match error {
        StoreError::Malformed => UNDEFINED_RESPONSE@,
        _ => message_for(error, indicator),
    }
}

impl StoreError {
    /// The message shown to the user for this error, met while acting on
    /// `indicator`.
    pub fn message(&self, indicator: &str) -> (text: String)
        ensures
            text@ == message_for(*self, indicator@),
    {
        match self {
            StoreError::InvalidIndicator => UNKNOWN_INDICATOR.to_owned(),
            StoreError::NotSelected => NO_SELECTION.to_owned(),
            StoreError::NotFound => {
                let mut text = CANNOT_REMOVE.to_owned();
                text.append(indicator);
                text.append(NOT_RECENT);
                text
            },
            StoreError::Unavailable => API_FAILURE.to_owned(),
            StoreError::Malformed => API_FAILURE.to_owned(),
        }
    }

    /// The line written to the log for this error, met while acting on
    /// `indicator`.
    pub fn log_line(&self, indicator: &str) -> (text: String)
        ensures
            text@ == log_line_for(*self, indicator@),
    {
        match self {
            StoreError::Malformed => UNDEFINED_RESPONSE.to_owned(),
            _ => self.message(indicator),
        }
    }
}

} // verus!
