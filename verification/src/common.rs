//! Values and names shared by the catalog, the planner and the executors.
use vstd::prelude::*;

verus! {

/// A possibly qualified table name.
pub enum TableReference {
    Bare { table: String },
    Partial { schema: String, table: String },
    Full { catalog: String, schema: String, table: String },
}

/// A value of a column; `None` is SQL NULL.
#[derive(Clone, Copy)]
pub enum ScalarValue {
    Boolean(Option<bool>),
    Int8(Option<i8>),
    Int16(Option<i16>),
    Int32(Option<i32>),
    Int64(Option<i64>),
}

/// The result of comparing two values.
#[derive(Clone, Copy, PartialEq, Eq, Structural)]
pub enum Comparison {
    Less,
    Equal,
    Greater,
}

impl Comparison {
    /// The comparison as -1, 0 or 1.
    pub open spec fn sign(self) -> int {
        match self {
            Comparison::Less => -1,
            Comparison::Equal => 0,
            Comparison::Greater => 1,
        }
    }
}

impl ScalarValue {
    /// Which variant the value is; values of different variants do not compare.
    pub open spec fn kind(self) -> nat {
        match self {
            ScalarValue::Boolean(_) => 0,
            ScalarValue::Int8(_) => 1,
            ScalarValue::Int16(_) => 2,
            ScalarValue::Int32(_) => 3,
            ScalarValue::Int64(_) => 4,
        }
    }

    /// The position of the value in its variant's order: NULL first, then
    /// `false` before `true`, and integers by value.
    pub open spec fn rank(self) -> int {
        match self {
            ScalarValue::Boolean(v) => match v {
                None => i64::MIN - 1,
                Some(b) => if b { 1 } else { 0 },
            },
            ScalarValue::Int8(v) => match v {
                None => i64::MIN - 1,
                Some(x) => x as int,
            },
            ScalarValue::Int16(v) => match v {
                None => i64::MIN - 1,
                Some(x) => x as int,
            },
            ScalarValue::Int32(v) => match v {
                None => i64::MIN - 1,
                Some(x) => x as int,
            },
            ScalarValue::Int64(v) => match v {
                None => i64::MIN - 1,
                Some(x) => x as int,
            },
        }
    }
}

/// -1, 0 or 1 as `x` is below, at or above zero.
pub open spec fn sgn(x: int) -> int {
    if x < 0 {
        -1
    } else if x == 0 {
        0
    } else {
        1
    }
}

impl ScalarValue {
    /// The variant and the value widened to `i64`.
    fn widen(&self) -> (r: (u8, Option<i64>))
        ensures
            r.0 == self.kind(),
            r.1 is None ==> self.rank() == i64::MIN - 1,
            r.1 matches Some(x) ==> self.rank() == x,
    {
        match *self {
            ScalarValue::Boolean(v) => (0, match v {
                None => None,
                Some(b) => Some(if b { 1i64 } else { 0i64 }),
            }),
            ScalarValue::Int8(v) => (1, match v {
                None => None,
                Some(x) => Some(x as i64),
            }),
            ScalarValue::Int16(v) => (2, match v {
                None => None,
                Some(x) => Some(x as i64),
            }),
            ScalarValue::Int32(v) => (3, match v {
                None => None,
                Some(x) => Some(x as i64),
            }),
            ScalarValue::Int64(v) => (4, v),
        }
    }

    /// Compares two values of the same variant; values of different variants
    /// do not compare.
    pub fn partial_compare(&self, other: &ScalarValue) -> (r: Option<Comparison>)
        ensures
            r is Some <==> self.kind() == other.kind(),
            r matches Some(c) ==> c.sign() == sgn(self.rank() - other.rank()),
    {
        let (ka, va) = self.widen();
        let (kb, vb) = other.widen();
        if ka != kb {
            return None;
        }
        Some(
            match (va, vb) {
                (None, None) => Comparison::Equal,
                (None, Some(_)) => Comparison::Less,
                (Some(_), None) => Comparison::Greater,
                (Some(x), Some(y)) => if x < y {
                    Comparison::Less
                } else if x == y {
                    Comparison::Equal
                } else {
                    Comparison::Greater
                },
            },
        )
    }
}

} // verus!
