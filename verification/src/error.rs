use vstd::prelude::*;

verus! {

/// Errors of the database.
#[derive(Debug)]
pub enum BustubxError {
    Internal(String),
}

} // verus!
