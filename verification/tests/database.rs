use bustubx::database::{classify_statement, StatementKind};

#[test]
fn listing_commands_and_sql() {
    assert!(classify_statement("\\dt") == StatementKind::ListTables);
    assert!(classify_statement("\\di") == StatementKind::ListIndexes);
    assert!(classify_statement("select * from t") == StatementKind::Sql);
    assert!(classify_statement("\\dt ") == StatementKind::Sql);
    assert!(classify_statement("") == StatementKind::Sql);
}
