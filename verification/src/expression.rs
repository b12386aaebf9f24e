use vstd::prelude::*;

use crate::catalog::{first_column_named, DataType, Schema};
use crate::common::TableReference;
use crate::error::BustubxError;

verus! {

/// A named reference to a qualified field in a schema.
pub struct ColumnExpr {
    /// relation/table reference.
    pub relation: Option<TableReference>,
    /// field/column name.
    pub name: String,
}

impl ColumnExpr {
    /// The type of the first column of `input_schema` with this name.
    pub fn data_type(&self, input_schema: &Schema) -> (r: Result<DataType, BustubxError>)
        ensures
            match first_column_named(input_schema.columns@, self.name@) {
                Some(i) => r == Ok::<DataType, BustubxError>(input_schema.columns@[i].data_type),
                None => r matches Err(BustubxError::Internal(msg)) && msg@
                    == "Failed to get column"@,
            },
    {
        match input_schema.get_col_by_name(&self.name) {
            Some(col) => Ok(col.data_type),
            None => Err(BustubxError::Internal("Failed to get column".to_owned())),
        }
    }
}

} // verus!
