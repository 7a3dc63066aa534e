use dms_name_matching::db::{
    connection_database, output_database_statement, qident, qtable, same_server, schema_statements,
    validate_identifier, BASE_TABLE, JOBS_TABLE,
};
use dms_name_matching::model::DbConfig;

#[test]
fn quotes_identifiers() {
    assert_eq!(qident("nm_jobs"), "`nm_jobs`");
    assert_eq!(qident("a`b"), "`a``b`");
    assert_eq!(qident(""), "``");
    assert_eq!(qtable("db", "t`x"), "`db`.`t``x`");
    assert_eq!(qident(BASE_TABLE), "`nm_base_index`");
    assert_ne!(qident("a``"), qident("a`"));
}

#[test]
fn validates_identifiers() {
    assert_eq!(validate_identifier("people", "Table"), Ok(()));
    assert_eq!(validate_identifier("  \t", "Database"), Err("Database is required".to_string()));
    assert_eq!(validate_identifier(&"x".repeat(128), "Table"), Ok(()));
    assert_eq!(validate_identifier(&"x".repeat(129), "Table"), Err("Table is too long".to_string()));
    assert_eq!(validate_identifier(&"é".repeat(65), "Table"), Err("Table is too long".to_string()));
    assert_eq!(
        validate_identifier("a\0b", "Table"),
        Err("Table contains an invalid null character".to_string())
    );
}

#[test]
fn same_server_ignores_host_case() {
    let a = DbConfig { host: "DB.Example".into(), ..DbConfig::default() };
    let b = DbConfig { host: "db.example".into(), ..DbConfig::default() };
    assert!(same_server(&a, &b));
    assert!(same_server(&b, &a));
    let c = DbConfig { port: 3307, ..b.clone() };
    assert!(!same_server(&a, &c));
    let d = DbConfig { host: "db.exampl".into(), ..DbConfig::default() };
    assert!(!same_server(&a, &d));
}

#[test]
fn schema_has_every_table() {
    let s = schema_statements();
    assert_eq!(s.len(), 8);
    assert!(s[0].contains("CREATE TABLE IF NOT EXISTS nm_base_registry"));
    assert!(s[2].contains(&format!("CREATE TABLE IF NOT EXISTS {}", JOBS_TABLE)));
    assert!(s[7].contains("nm_metrics"));
}

#[test]
fn output_database_statement_quotes_the_name() {
    let cfg = DbConfig { database: "name`matching".into(), ..DbConfig::default() };
    assert_eq!(
        output_database_statement(&cfg),
        Ok("CREATE DATABASE IF NOT EXISTS `name``matching` CHARACTER SET utf8mb4 COLLATE utf8mb4_0900_ai_ci".to_string())
    );
    let blank = DbConfig::default();
    assert_eq!(output_database_statement(&blank), Err("Destination database is required".to_string()));
}

#[test]
fn connection_database_skips_blank_names() {
    let cfg = DbConfig { database: "people".into(), ..DbConfig::default() };
    assert_eq!(connection_database(&cfg, true), Some("people".to_string()));
    assert_eq!(connection_database(&cfg, false), None);
    assert_eq!(connection_database(&DbConfig { database: "  ".into(), ..DbConfig::default() }, true), None);
}

#[test]
fn quoted_identifier_reads_back() {
    for name in ["people", "a`b", "``", "`x``y`", "", "naïve name"] {
        let q = qident(name);
        assert!(q.len() >= 2 && q.starts_with('`') && q.ends_with('`'));
        let inner = &q[1..q.len() - 1];
        assert_eq!(inner.replace("``", "`"), name);
        for run in inner.split(|c| c != '`') {
            assert_eq!(run.len() % 2, 0, "{q}");
        }
    }
    assert_eq!(qident("a`b"), "`a``b`");
}
