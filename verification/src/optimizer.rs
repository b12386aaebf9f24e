use vstd::prelude::*;

use crate::catalog::{Column, Schema};

verus! {

/// Inserts rows into a table.
pub struct PhysicalInsertOperator {
    pub table_name: String,
    pub columns: Vec<Column>,
}

impl PhysicalInsertOperator {
    pub fn new(table_name: String, columns: Vec<Column>) -> (r: Self)
        ensures
            r.table_name == table_name,
            r.columns == columns,
    {
        Self { table_name, columns }
    }

    /// The schema of the rows the operator takes: its columns.
    pub fn output_schema(&self) -> (r: Schema)
        ensures
            r.columns@ == self.columns@,
    {
        let columns = self.columns.clone();
        proof {
            assert forall|i: int| 0 <= i < columns@.len() implies columns@[i] == self.columns@[i] by {
                assert(vstd::pervasive::cloned(self.columns@[i], columns@[i]));
            }
            assert(columns@ =~= self.columns@);
        }
        Schema::new(columns)
    }
}

} // verus!
