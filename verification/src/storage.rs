use vstd::prelude::*;

use crate::catalog::SchemaRef;
use crate::common::ScalarValue;

verus! {

/// `<Arc<Schema> as Clone>::clone`: another handle to the same schema, so
/// the copy equals the original.
#[verifier::external_body]
fn share_schema(schema: &SchemaRef) -> (r: SchemaRef)
    ensures
        r == *schema,
{
    schema.clone()
}

/// A row: its schema and one value per column.
pub struct Tuple {
    pub schema: SchemaRef,
    pub data: Vec<ScalarValue>,
}

impl View for Tuple {
    type V = (SchemaRef, Seq<ScalarValue>);

    open spec fn view(&self) -> (SchemaRef, Seq<ScalarValue>) {
        (self.schema, self.data@)
    }
}

impl Tuple {
    pub fn new(schema: SchemaRef, data: Vec<ScalarValue>) -> (r: Tuple)
        ensures
            r.schema == schema,
            r.data == data,
    {
        Tuple { schema, data }
    }

    /// A copy of the row.
    pub fn duplicate(&self) -> (r: Tuple)
        ensures
            r@ == self@,
    {
        let mut data: Vec<ScalarValue> = Vec::new();
        let mut i: usize = 0;
        while i < self.data.len()
            invariant
                i <= self.data@.len(),
                data@ == self.data@.take(i as int),
            decreases self.data@.len() - i,
        {
            data.push(self.data[i]);
            i = i + 1;
            assert(data@ =~= self.data@.take(i as int));
        }
        assert(data@ =~= self.data@);
        Tuple { schema: share_schema(&self.schema), data }
    }
}

} // verus!
