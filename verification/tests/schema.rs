use nexo::schema::BASELINE;
use nexo::tunnels::{check_generation, GENERATION};
use nexo::{accounts, domains, enrollment, identity};
use rusqlite::Connection;

fn has_column(connection: &Connection, table: &str, column: &str) -> bool {
    connection
        .query_row(
            "SELECT EXISTS(SELECT 1 FROM pragma_table_info(?1) WHERE name=?2)",
            [table, column],
            |row| row.get(0),
        )
        .unwrap()
}

fn initialize_database(connection: &Connection, is_new: bool) -> Result<(), &'static str> {
    connection.pragma_update(None, "foreign_keys", "ON").unwrap();
    if is_new {
        check_generation(true, None)?;
        connection.execute_batch(BASELINE).unwrap();
        connection
            .execute("INSERT INTO product_metadata VALUES ('generation',?1)", [GENERATION])
            .unwrap();
    } else {
        let generation: Option<String> = connection
            .query_row(
                "SELECT value FROM product_metadata WHERE key='generation'",
                [],
                |row| row.get(0),
            )
            .ok();
        check_generation(false, generation.as_deref())?;
    }
    let kind = has_column(connection, "pending_enrollments", "kind");
    let mut statements = enrollment::initialize_schema(kind);
    statements.extend(identity::initialize_schema());
    let enabled = has_column(connection, "tenants", "enabled");
    statements.extend(accounts::initialize_schema(enabled));
    statements.extend(domains::initialize_schema());
    for statement in statements {
        connection.execute_batch(&statement).unwrap();
    }
    Ok(())
}

#[test]
fn fresh_database_uses_tunnel_only_baseline() {
    let connection = Connection::open_in_memory().expect("应创建内存数据库");
    initialize_database(&connection, true).expect("新数据库应初始化");
    let generation: String = connection
        .query_row(
            "SELECT value FROM product_metadata WHERE key='generation'",
            [],
            |row| row.get(0),
        )
        .expect("应写入产品代际标记");
    assert_eq!(generation, "tunnel-only-v1");
    let old_tables: i64 = connection
        .query_row(
            "SELECT COUNT(*) FROM sqlite_master WHERE type='table' AND name IN ('legacy_devices','legacy_routes','legacy_policies')",
            [],
            |row| row.get(0),
        )
        .expect("应能检查旧表");
    assert_eq!(old_tables, 0);
}

#[test]
fn reopened_database_enforces_foreign_keys_and_keeps_recovery_schema() {
    let connection = Connection::open_in_memory().unwrap();
    initialize_database(&connection, true).unwrap();
    connection
        .pragma_update(None, "foreign_keys", "OFF")
        .unwrap();
    initialize_database(&connection, false).unwrap();
    assert_eq!(
        connection
            .query_row("PRAGMA foreign_keys", [], |r| r.get::<_, i64>(0))
            .unwrap(),
        1
    );
    assert_eq!(
        connection
            .query_row(
                "SELECT COUNT(*) FROM pragma_table_info('pending_enrollments') WHERE name='kind'",
                [],
                |r| r.get::<_, i64>(0)
            )
            .unwrap(),
        1
    );
}
