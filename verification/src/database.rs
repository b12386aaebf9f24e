//! What the database does with a line of input.
use vstd::prelude::*;

verus! {

/// How a line of input is handled.
#[derive(Clone, Copy, PartialEq, Eq, Structural)]
pub enum StatementKind {
    /// `\dt`: list the tables.
    ListTables,
    /// `\di`: list the indexes.
    ListIndexes,
    /// Anything else is planned and executed as SQL.
    Sql,
}

/// The kind of a line of input: the two listing commands by their exact
/// text, and SQL otherwise.
pub fn classify_statement(sql: &str) -> (r: StatementKind)
    ensures
        r == (if sql@ == "\\dt"@ {
            StatementKind::ListTables
        } else if sql@ == "\\di"@ {
            StatementKind::ListIndexes
        } else {
            StatementKind::Sql
        }),
{
    let line = sql.to_owned();
    if line == "\\dt".to_owned() {
        StatementKind::ListTables
    } else if line == "\\di".to_owned() {
        StatementKind::ListIndexes
    } else {
        StatementKind::Sql
    }
}

} // verus!
