//! What the library decides about the store of answers: what a lookup
//! that finds nothing gives, and which failure of an insert is none.

use vstd::prelude::*;
use crate::response::{Response, ResponseView};

verus! {

/// A failure of the store, as far as the library reads it.
#[derive(Debug)]
pub enum StoreError {
    /// The store refused a write that conflicts with what it holds; `code`
    /// is the store's word for the conflict.
    DataConflict { code: String },
    /// Any other failure.
    Other,
}

impl StoreError {
    /// The failure says that the key is already in the store.
    pub open spec fn already_exists(&self) -> bool {
        self matches StoreError::DataConflict { code } && code@ == "AlreadyExists"@
    }
}

/// Tells whether a failure of an insert is one to report. That the key is
/// already there is none: the answer under a key is always the same.
pub fn is_error(err: &StoreError) -> (r: bool)
    ensures
        r == !err.already_exists(),
{
    match err {
        StoreError::DataConflict { code } => {
            let known: String = "AlreadyExists".to_owned();
            !(*code == known)
        },
        StoreError::Other => true,
    }
}

/// What becomes of a fresh answer once the store has been asked to keep it:
/// the answer, unless the store failed in a way to report.
pub fn after_insert(response: Response, outcome: Result<(), StoreError>) -> (kept: Result<Response, StoreError>)
    ensures
        match outcome {
            Ok(_) => kept == Ok::<Response, StoreError>(response),
            Err(e) => if e.already_exists() {
                kept == Ok::<Response, StoreError>(response)
            } else {
                kept == Err::<Response, StoreError>(e)
            },
        },
{
    match outcome {
        Ok(_) => Ok(response),
        Err(e) => if is_error(&e) {
            Err(e)
        } else {
            Ok(response)
        },
    }
}

/// The answer to a request by key: what the store holds under the key, and
/// an empty answer without a location where it holds nothing.
pub fn response_from_hash(found: Option<Response>) -> (response: Response)
    ensures
        match found {
            Some(stored) => response == stored,
            None => response@ == ResponseView::empty(Seq::empty()),
        },
{
    match found {
        Some(stored) => stored,
        None => Response::with_capacity(0, String::new()),
    }
}

} // verus!
