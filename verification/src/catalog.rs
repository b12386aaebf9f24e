//! Column types, columns and schemas.
use vstd::prelude::*;

use std::sync::Arc;

verus! {

#[derive(Clone, Copy, PartialEq, Eq, Structural)]
pub enum DataType {
    Boolean,
    Int8,
    Int16,
    Int32,
    Int64,
}

pub struct Column {
    pub name: String,
    pub data_type: DataType,
    pub nullable: bool,
}

impl Clone for Column {
    fn clone(&self) -> (r: Self)
        ensures
            r == *self,
    {
        Column { name: self.name.clone(), data_type: self.data_type, nullable: self.nullable }
    }
}

impl Column {
    pub fn new(name: String, data_type: DataType, nullable: bool) -> (r: Column)
        ensures
            r == (Column { name, data_type, nullable }),
    {
        Column { name, data_type, nullable }
    }
}

/// The position of the first column named `name`, if any.
pub open spec fn first_column_named(columns: Seq<Column>, name: Seq<char>) -> Option<int> {
    if exists|i: int| 0 <= i < columns.len() && columns[i].name@ == name {
        Some(
            choose|i: int|
                0 <= i < columns.len() && columns[i].name@ == name && forall|j: int|
                    0 <= j < i ==> columns[j].name@ != name,
        )
    } else {
        None
    }
}

/// Of the columns named `name`, some comes first.
pub proof fn lemma_first_column_named(columns: Seq<Column>, name: Seq<char>, i: int)
    requires
        0 <= i < columns.len(),
        columns[i].name@ == name,
        forall|j: int| 0 <= j < i ==> columns[j].name@ != name,
    ensures
        first_column_named(columns, name) == Some(i),
{
    let c = choose|c: int|
        0 <= c < columns.len() && columns[c].name@ == name && forall|j: int|
            0 <= j < c ==> columns[j].name@ != name;
    assert(0 <= c < columns.len() && columns[c].name@ == name);
    if c < i {
        assert(columns[c].name@ != name);
    }
    if i < c {
        assert(columns[i].name@ != name);
    }
}

/// The columns of a table or of an executor's output.
pub struct Schema {
    pub columns: Vec<Column>,
}

pub type SchemaRef = Arc<Schema>;

impl Schema {
    pub fn new(columns: Vec<Column>) -> (r: Schema)
        ensures
            r.columns == columns,
    {
        Schema { columns }
    }

    /// A schema with no columns.
    pub fn empty() -> (r: Schema)
        ensures
            r.columns@ == Seq::<Column>::empty(),
    {
        Schema { columns: Vec::new() }
    }

    /// The first column named `name`.
    pub fn get_col_by_name(&self, name: &String) -> (r: Option<&Column>)
        ensures
            match first_column_named(self.columns@, name@) {
                Some(i) => r == Some(&self.columns@[i]),
                None => r is None,
            },
    {
        let mut i: usize = 0;
        while i < self.columns.len()
            invariant
                i <= self.columns@.len(),
                forall|j: int| 0 <= j < i ==> self.columns@[j].name@ != name@,
            decreases self.columns@.len() - i,
        {
            if self.columns[i].name == *name {
                proof {
                    lemma_first_column_named(self.columns@, name@, i as int);
                }
                return Some(&self.columns[i]);
            }
            i = i + 1;
        }
        None
    }
}

} // verus!
