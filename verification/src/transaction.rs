//! Lock bookkeeping of transactions. Granting and releasing locks is not
//! implemented; the types record what a lock request is.
use vstd::prelude::*;

use std::collections::HashMap;

use crate::buffer::PageId;
use crate::common::TableReference;

verus! {

pub type TransactionId = u64;

/// A row: the page it is on and its slot there.
pub struct RecordId {
    pub page_id: PageId,
    pub slot_num: u32,
}

pub enum LockMode {
    Shared,
    Exclusive,
    IntentionShared,
    IntentionExclusive,
    SharedIntentionExclusive,
}

#[allow(dead_code)]
pub struct LockRequest {
    txn_id: TransactionId,
    lock_mod: LockMode,
    table_ref: TableReference,
    rid: Option<RecordId>,
    granted: bool,
}

#[allow(dead_code)]
pub struct LockManager {
    table_lock_map: HashMap<TableReference, Vec<LockRequest>>,
    row_lock_map: HashMap<RecordId, Vec<LockRequest>>,
}

} // verus!
