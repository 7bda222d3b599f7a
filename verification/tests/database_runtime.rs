use luna_mux::database_calls::SqlCall;
use luna_mux::database_runtime::{
    check_script, column_info, connect_plan, csv_text, export_csv, export_json, import_value,
    index_info, network_endpoint, postgres_script, script_error, sqlite_value, table_names,
    test_connection, write_query_sql_file, write_query_sql_file_with_progress, ConnectPlan,
    DatabaseConnectionConfig, DatabaseHandle, DatabaseQueryResult, DatabaseRuntimeManager,
    DatabaseRuntimeStatus, ImportParam, PostgresMessage, PostgresReader, RowBuffer,
};
use luna_mux::dump_run::DumpRun;
use luna_mux::dump_plan::{sqlite_dump_objects_sql, 
    mysql_export_plan, postgres_export_plan, write_sql_dump, DumpPlan, DumpStep, NetworkObject,
    SqliteObject,
};
use luna_mux::json::{same_json, Json, JsonNumber};
use luna_mux::mysql_text::{
    mysql_datetime_text, mysql_dump_objects_sql, mysql_dump_value, mysql_object_ddl_sql,
    mysql_object_text, mysql_row, mysql_time_text, mysql_value, mysql_value_kind, MysqlDate,
    MysqlTime, MysqlValue, MysqlValueKind, MYSQL_BINARY_CHARSET,
};
use luna_mux::postgres_text::{
    postgres_dump_objects, postgres_dump_objects_sql, postgres_dump_value, postgres_row,
    postgres_sequence_text, postgres_serial_type, postgres_table_columns,
    postgres_table_columns_sql, postgres_table_constraints, postgres_table_constraints_sql,
    postgres_table_indexes, postgres_table_indexes_sql, postgres_table_text,
    postgres_view_definition_sql, postgres_view_text, PostgresColumn, TextRow,
};
use luna_mux::sql_dump::{sqlite_row, write_sql_value, write_table_rows, SqlReal, SqlValue};
use luna_mux::sql_query::{bounded_query_sql, clamp_rows, has_more, prepare_page, prepare_query};
use luna_mux::sql_text::{
    add_column_sql, create_index_sql, describe_table_sql, drop_column_sql, drop_index_sql,
    import_rows_sql, list_tables_sql, sql_dump_identifier, sql_identifier, DatabaseDriver,
};
use mysql_async::consts::ColumnType;
use rusqlite::types::{Value, ValueRef};
use rusqlite::Connection;

fn network_config(driver: DatabaseDriver, port: u16) -> DatabaseConnectionConfig {
    DatabaseConnectionConfig {
        profile_id: None,
        driver,
        host: Some("127.0.0.1".to_string()),
        port: Some(port),
        database: None,
        username: Some("fixture".to_string()),
        password: None,
        read_only: true,
        ssl_enabled: false,
        sqlite_path: None,
    }
}

fn sqlite_config() -> DatabaseConnectionConfig {
    DatabaseConnectionConfig {
        sqlite_path: Some(":memory:".to_string()),
        read_only: false,
        ..network_config(DatabaseDriver::Sqlite, 0)
    }
}

/// A runtime with the SQLite database that stands behind it.
struct Fixture {
    manager: DatabaseRuntimeManager,
    id: String,
    connection: Connection,
}

fn cell(value: ValueRef<'_>) -> SqlValue {
    match value {
        ValueRef::Null => SqlValue::Null,
        ValueRef::Integer(n) => SqlValue::Integer(n),
        ValueRef::Real(n) => SqlValue::Real(SqlReal {
            bits: n.to_bits(),
            text: format!("{n:?}"),
        }),
        ValueRef::Text(bytes) => SqlValue::Text(bytes.to_vec()),
        ValueRef::Blob(bytes) => SqlValue::Blob(bytes.to_vec()),
    }
}

impl Fixture {
    fn new() -> Self {
        let config = sqlite_config();
        assert!(matches!(
            connect_plan(&config),
            Ok(ConnectPlan::OpenSqlite { read_only: false, .. })
        ));
        let mut manager = DatabaseRuntimeManager::new();
        let summary = manager.connect(&config);
        Fixture {
            manager,
            id: summary.id,
            connection: Connection::open_in_memory().unwrap(),
        }
    }

    fn read(&self, sql: &str, limit: usize) -> Result<DatabaseQueryResult, String> {
        let mut statement = self.connection.prepare(sql).map_err(|e| e.to_string())?;
        let columns: Vec<String> = statement
            .column_names()
            .map(|name| name.to_string())
            .collect();
        if columns.is_empty() {
            let affected = statement.execute([]).map_err(|e| e.to_string())?;
            return Ok(RowBuffer::new(limit).finish(columns, affected as u64));
        }
        let mut buffer = RowBuffer::new(limit);
        let mut cursor = statement.query([]).map_err(|e| e.to_string())?;
        while let Some(row) = cursor.next().map_err(|e| e.to_string())? {
            let values = (0..columns.len())
                .map(|index| sqlite_value(&cell(row.get_ref(index).unwrap())))
                .collect();
            if !buffer.offer(values) {
                break;
            }
        }
        Ok(buffer.finish(columns, 0))
    }

    fn execute(&self, sql: &str, max_rows: usize) -> Result<DatabaseQueryResult, String> {
        let (call, limit) = self.manager.execute(&self.id, sql, max_rows)?;
        self.read(&call.sql, limit)
    }

    fn execute_page(
        &self,
        sql: &str,
        offset: usize,
        size: usize,
    ) -> Result<DatabaseQueryResult, String> {
        let page = self.manager.execute_page(&self.id, sql, offset, size)?;
        let mut result = self.read(&page.sql, page.page_size)?;
        result.has_more = Some(has_more(page.pageable, result.rows.len(), page.page_size));
        Ok(result)
    }

    fn import_sql(&mut self, script: &str) -> Result<(), String> {
        let call = self.manager.import_sql(&self.id, script)?;
        let transaction = self.connection.transaction().map_err(|e| e.to_string())?;
        transaction
            .execute_batch(&call.sql)
            .map_err(|e| script_error(&e.to_string()))?;
        transaction.commit().map_err(|e| e.to_string())
    }

    fn import_rows(
        &mut self,
        table: &str,
        columns: &[&str],
        rows: &[Vec<Json>],
    ) -> Result<u64, String> {
        let names: Vec<String> = columns.iter().map(|name| name.to_string()).collect();
        let sql = self.manager.import_rows(&self.id, table, &names)?;
        let transaction = self.connection.transaction().map_err(|e| e.to_string())?;
        let mut count: u64 = 0;
        for row in rows {
            let params = row.iter().map(|value| match (import_value(value), value) {
                (ImportParam::Null, _) => Value::Null,
                (ImportParam::Integer(n), _) => Value::Integer(n),
                (ImportParam::Real(bits), _) => Value::Real(f64::from_bits(bits)),
                (ImportParam::RealOf(n), _) => Value::Real(n as f64),
                (_, Json::Text(text)) => Value::Text(text.clone()),
                (_, other) => Value::Text(format!("{other:?}")),
            });
            transaction
                .execute(&sql, rusqlite::params_from_iter(params))
                .map_err(|e| e.to_string())?;
            count += 1;
        }
        transaction.commit().map_err(|e| e.to_string())?;
        Ok(count)
    }

    fn objects(&self, table: Option<&str>) -> Vec<SqliteObject> {
        let mut statement = self
            .connection
            .prepare(&sqlite_dump_objects_sql(table.is_some()))
            .unwrap();
        let named: Vec<&str> = table.into_iter().collect();
        let rows = statement
            .query_map(rusqlite::params_from_iter(named), |row| {
                Ok(SqliteObject {
                    kind: row.get(0)?,
                    name: row.get(1)?,
                    sql: row.get(2)?,
                })
            })
            .unwrap();
        rows.map(|row| row.unwrap()).collect()
    }

    fn dump(&self, table: Option<&str>, schema_only: bool) -> Result<Dump, String> {
        self.manager.export_sql(&self.id)?;
        let plan = write_sql_dump(&self.objects(table), table, schema_only)?;
        let mut dump = Dump::of(&plan);
        let mut run = DumpRun::start(plan);
        while let Some(step) = run.step() {
            let mut written = 0;
            match step {
                DumpStep::Data(name) => {
                    let table = sql_dump_identifier(name);
                    let mut statement = self
                        .connection
                        .prepare(&format!("SELECT * FROM {table}"))
                        .unwrap();
                    let columns: Vec<String> = statement
                        .column_names()
                        .map(|column| sql_dump_identifier(column))
                        .collect();
                    let mut rows: Vec<String> = Vec::new();
                    let mut cursor = statement.query([]).unwrap();
                    while let Some(row) = cursor.next().unwrap() {
                        let values: Vec<SqlValue> = (0..columns.len())
                            .map(|index| cell(row.get_ref(index).unwrap()))
                            .collect();
                        rows.push(sqlite_row(&values));
                    }
                    written = write_table_rows(&mut dump.text, &table, &columns, &rows);
                }
                other => dump.take(other),
            }
            assert!(run.done(written));
        }
        let export = run.export(dump.text.len() as u64);
        dump.tables = export.tables;
        dump.rows = export.rows;
        Ok(dump)
    }
}

/// What a plan wrote and reported.
struct Dump {
    text: String,
    tables: usize,
    rows: u64,
    reports: Vec<(usize, usize, Option<String>)>,
    queries: Vec<String>,
}

impl Dump {
    fn of(plan: &DumpPlan) -> Self {
        Dump {
            text: String::new(),
            tables: plan.tables,
            rows: 0,
            reports: Vec::new(),
            queries: Vec::new(),
        }
    }

    fn take(&mut self, step: &DumpStep) {
        match step {
            DumpStep::Write(text) => self.text.push_str(text),
            DumpStep::Report {
                current,
                total,
                done,
            } => self.reports.push((*current, *total, done.clone())),
            other => panic!("{other:?}"),
        }
    }
}

fn text(value: &Json) -> &str {
    match value {
        Json::Text(text) => text,
        other => panic!("{other:?}"),
    }
}

fn same_rows(a: &DatabaseQueryResult, b: &DatabaseQueryResult) -> bool {
    a.rows.len() == b.rows.len()
        && a.rows.iter().zip(&b.rows).all(|(left, right)| {
            left.len() == right.len() && left.iter().zip(right).all(|(x, y)| same_json(x, y))
        })
}

const DRIVERS: [DatabaseDriver; 4] = [
    DatabaseDriver::Sqlite,
    DatabaseDriver::Mysql,
    DatabaseDriver::Mariadb,
    DatabaseDriver::Postgres,
];

#[test]
fn query_budget_preserves_write_batches_and_existing_limits() {
    for driver in DRIVERS {
        assert!(bounded_query_sql("SELECT * FROM users; -- trailing", driver, 500)
            .ends_with("LIMIT 500"));
        assert!(bounded_query_sql(
            "WITH x AS (SELECT * FROM users) SELECT * FROM x",
            driver,
            500
        )
        .ends_with("LIMIT 500"));
        assert!(
            bounded_query_sql("SELECT * FROM users LIMIT 900 OFFSET 12", driver, 500)
                .ends_with("LIMIT 500 OFFSET 12")
        );
        for sql in [
            "SELECT * FROM users LIMIT 10",
            "UPDATE users SET id=2",
            "SELECT 1; SELECT 1/0",
            "not valid sql",
            "SELECT * FROM users FOR UPDATE",
        ] {
            assert_eq!(bounded_query_sql(sql, driver, 500), sql);
        }
    }
    for sql in [
        "SELECT * INTO copied FROM users",
        "WITH d AS (DELETE FROM users RETURNING *) SELECT * FROM d",
        "INSERT INTO users SELECT * FROM archive RETURNING *",
        "SELECT * FROM users LIMIT $1",
    ] {
        assert_eq!(bounded_query_sql(sql, DatabaseDriver::Postgres, 500), sql);
    }
    assert!(
        bounded_query_sql("SELECT * FROM users LIMIT 20, 900", DatabaseDriver::Mysql, 500)
            .ends_with("LIMIT 20, 500")
    );
    assert!(
        bounded_query_sql("SELECT * FROM users LIMIT -1", DatabaseDriver::Sqlite, 500)
            .ends_with("LIMIT 500")
    );
    assert!(bounded_query_sql(
        "SELECT * FROM users FETCH FIRST 900 ROWS ONLY",
        DatabaseDriver::Postgres,
        500
    )
    .ends_with("FETCH FIRST 500 ROWS ONLY"));
}

#[test]
fn mysql_and_postgres_pages_use_dialect_limits_and_preserve_explicit_budget() {
    let page = |sql: &str, driver: DatabaseDriver, cap: usize, offset: usize| {
        prepare_query(sql, driver, cap, Some(offset))
    };
    let expected = |sql: &str, pageable: bool| (sql.to_string(), pageable);
    assert_eq!(
        page("select * from users", DatabaseDriver::Mysql, 50, 0),
        expected("SELECT * FROM users LIMIT 0, 50", true)
    );
    assert_eq!(
        page("select * from users", DatabaseDriver::Postgres, 100, 200),
        expected("SELECT * FROM users LIMIT 100 OFFSET 200", true)
    );
    assert_eq!(
        page("select * from users", DatabaseDriver::Mysql, 500, 0),
        expected("SELECT * FROM users LIMIT 0, 500", true)
    );
    assert_eq!(
        page("select * from users", DatabaseDriver::Mysql, 500, 500),
        expected("SELECT * FROM users LIMIT 500, 500", true)
    );
    assert_eq!(
        page("select * from users", DatabaseDriver::Postgres, 500, 500),
        expected("SELECT * FROM users LIMIT 500 OFFSET 500", true)
    );
    assert_eq!(
        page(
            "select * from users LIMIT 900 OFFSET 20",
            DatabaseDriver::Postgres,
            500,
            500
        ),
        expected("SELECT * FROM users LIMIT 400 OFFSET 520", false)
    );
    for sql in [
        "DELETE FROM users RETURNING *",
        "SELECT 1; UPDATE users SET id=2",
        "SELECT * INTO copied FROM users",
    ] {
        assert_eq!(
            page(sql, DatabaseDriver::Postgres, 500, 0),
            expected(sql, false)
        );
    }
}

#[test]
fn sqlite_page_budgets_and_optional_column_comments() {
    let mut fixture = Fixture::new();
    fixture
        .execute("CREATE TABLE items(id INTEGER, name TEXT)", 500)
        .unwrap();
    fixture.import_sql("WITH RECURSIVE n(x) AS (SELECT 1 UNION ALL SELECT x+1 FROM n WHERE x<1500) INSERT INTO items SELECT x,'value' FROM n").unwrap();
    let result = fixture.execute("SELECT * FROM items", 500).unwrap();
    assert_eq!(result.rows.len(), 500);
    assert!(result.truncated);
    let result = fixture
        .execute("SELECT * FROM items LIMIT 500", 500)
        .unwrap();
    assert_eq!(result.rows.len(), 500);
    for sql in ["VALUES (1), (2)", "SELECT 1 UNION ALL VALUES (2)"] {
        assert_eq!(
            prepare_query(sql, DatabaseDriver::Sqlite, 500, Some(0)),
            (sql.to_string(), false)
        );
        let values = fixture.execute_page(sql, 0, 50).unwrap();
        assert_eq!(values.rows.len(), 2);
        assert_eq!(values.has_more, Some(false));
    }
    let ordered = "SELECT * FROM items ORDER BY id";
    let compact = fixture.execute_page(ordered, 0, 50).unwrap();
    assert_eq!(compact.rows.len(), 50);
    assert_eq!(compact.has_more, Some(true));
    let compact_second = fixture.execute_page(ordered, 50, 50).unwrap();
    assert_eq!(compact_second.rows.len(), 50);
    assert_eq!(text(&compact_second.rows[0][0]), "51");
    let first = fixture.execute_page(ordered, 0, 500).unwrap();
    let second = fixture.execute_page(ordered, 500, 500).unwrap();
    assert_eq!(first.rows.len(), 500);
    assert_eq!(second.rows.len(), 500);
    assert_eq!(text(&second.rows[0][0]), "501");
    assert_eq!(second.has_more, Some(true));
    let end = fixture.execute_page(ordered, 1500, 500).unwrap();
    assert!(end.rows.is_empty());
    assert_eq!(end.has_more, Some(false));
    assert!(fixture
        .execute_page("INSERT INTO items VALUES(9999,'bad')", 500, 500)
        .is_err());
    let count = fixture.execute("SELECT COUNT(*) FROM items", 500).unwrap();
    assert_eq!(text(&count.rows[0][0]), "1500");
    let call: SqlCall = fixture
        .manager
        .describe_table(&fixture.id, "items")
        .unwrap();
    let described = fixture.read(&call.sql, 500).unwrap();
    assert_eq!(described.rows.len(), 2);
    assert_eq!(text(&described.rows[0][1]), "id");
}

#[test]
fn sqlite_query_is_bounded_and_import_rolls_back() {
    let mut fixture = Fixture::new();
    fixture
        .execute("create table items(id integer primary key, name text)", 10)
        .unwrap();
    fixture
        .import_sql(
            "insert into items(name) values ('a'); insert into missing(name) values ('b');",
        )
        .unwrap_err();
    let result = fixture.execute("select * from items", 1).unwrap();
    assert!(result.rows.is_empty());
    fixture
        .import_sql("insert into items(name) values ('a'); insert into items(name) values ('b');")
        .unwrap();
    let result = fixture.execute("select * from items", 1).unwrap();
    assert_eq!(result.rows.len(), 1);
    assert!(result.truncated);
    fixture.manager.disconnect(&fixture.id).unwrap();
}

#[test]
fn sqlite_row_import_is_transactional() {
    let mut fixture = Fixture::new();
    fixture
        .execute("create table items(id integer, name text)", 10)
        .unwrap();
    let row = |id: u64, name: &str| {
        vec![
            Json::Number(JsonNumber::Whole(id)),
            Json::Text(name.to_string()),
        ]
    };
    let count = fixture
        .import_rows("items", &["id", "name"], &[row(1, "a")])
        .unwrap();
    assert_eq!(count, 1);
    assert!(fixture
        .import_rows("items", &["id", "bad-name"], &[row(2, "b")])
        .is_err());
    let result = fixture.execute("select count(*) from items", 10).unwrap();
    assert_eq!(text(&result.rows[0][0]), "1");
}

#[test]
fn query_sql_file_reports_rows_and_actual_bytes() {
    let sql = "INSERT INTO \"items\" (\"id\") VALUES\n  (1);";
    let file = write_query_sql_file(sql, 1).unwrap();
    assert_eq!(file.export.tables, 1);
    assert_eq!(file.export.rows, 1);
    match &file.steps[..] {
        [DumpStep::Write(text)] => {
            assert_eq!(text, &format!("{sql}\n"));
            assert_eq!(file.export.bytes, text.len() as u64);
        }
        other => panic!("{other:?}"),
    }
    assert!(write_query_sql_file("  \n", 0).is_err());
}

#[test]
fn exports_report_table_progress_and_query_progress() {
    let fixture = Fixture::new();
    fixture
        .execute("create table first(id integer)", 10)
        .unwrap();
    fixture
        .execute("create table second(id integer)", 10)
        .unwrap();
    let dump = fixture.dump(None, true).unwrap();
    assert_eq!(
        dump.reports,
        [
            (0, 2, None),
            (1, 2, Some("first".to_string())),
            (2, 2, Some("second".to_string()))
        ]
    );
    let file =
        write_query_sql_file_with_progress("INSERT INTO first(id) VALUES (1);", 1).unwrap();
    let reports: Vec<(usize, usize, Option<String>)> = file
        .steps
        .iter()
        .filter_map(|step| match step {
            DumpStep::Report {
                current,
                total,
                done,
            } => Some((*current, *total, done.clone())),
            _ => None,
        })
        .collect();
    assert_eq!(reports, [(0, 1, None), (1, 1, None)]);
}

#[test]
fn sqlite_dump_round_trips_schema_and_values_into_a_new_database() {
    let source = Fixture::new();
    for sql in [
        "create table items(id integer primary key, name text, ratio real, payload blob, note text)",
        "create table other(id integer)",
        "create index items_name on items(name)",
        "insert into items values (1, 'quote''s\nline', 0.1, X'00FF41', NULL)",
        "insert into items values (2, CAST(X'FF41' AS TEXT), -2.5, NULL, 'ok')",
        "insert into other values (7)",
    ] {
        source.execute(sql, 10).unwrap();
    }
    let dump = source.dump(None, false).unwrap();
    assert_eq!((dump.tables, dump.rows), (2, 3));
    assert!(dump.text.contains(
        "INSERT INTO \"items\" (\"id\", \"name\", \"ratio\", \"payload\", \"note\") VALUES"
    ));
    assert!(dump.text.contains("INSERT INTO \"other\" (\"id\") VALUES"));
    assert!(dump.text.contains("CAST(X'FF41' AS TEXT)"));
    assert!(dump.text.contains("X'00FF41'"));
    assert!(dump.text.contains("CREATE INDEX items_name"));
    let mut target = Fixture::new();
    target.import_sql(&dump.text).unwrap();
    let projection =
        "select id, name, ratio, hex(payload), note, typeof(name) from items order by id";
    let source_rows = source.execute(projection, 10).unwrap();
    let target_rows = target.execute(projection, 10).unwrap();
    assert_eq!(source_rows.rows.len(), 2);
    assert!(same_rows(&source_rows, &target_rows));
    let call = target.manager.list_tables(&target.id).unwrap();
    let tables = target.read(&call.sql, 100).unwrap();
    assert_eq!(table_names(&tables.rows).len(), 2);
}

#[test]
fn sqlite_table_dump_keeps_only_the_requested_table_and_its_indexes() {
    let fixture = Fixture::new();
    for sql in [
        "create table items(id integer primary key, name text)",
        "create table other(id integer)",
        "create index items_name on items(name)",
        "insert into items values (1, 'a')",
        "insert into other values (2)",
    ] {
        fixture.execute(sql, 10).unwrap();
    }
    let dump = fixture.dump(Some("items"), false).unwrap();
    assert_eq!((dump.tables, dump.rows), (1, 1));
    assert!(dump.text.starts_with("-- Luna Mux dump: items"));
    assert!(dump.text.contains("CREATE TABLE items"));
    assert!(dump.text.contains("CREATE INDEX items_name"));
    assert!(dump.text.contains("INSERT INTO \"items\""));
    assert!(!dump.text.contains("other"));
    match fixture.dump(Some("missing"), false) {
        Err(error) => assert!(error.contains("找不到")),
        Ok(dump) => panic!("{}", dump.text),
    }
}

#[test]
fn sqlite_schema_only_dump_omits_rows_for_database_and_table_exports() {
    let fixture = Fixture::new();
    for sql in [
        "create table items(id integer primary key, name text)",
        "create table other(id integer)",
        "create index items_name on items(name)",
        "insert into items values (1, 'a')",
        "insert into other values (2)",
    ] {
        fixture.execute(sql, 10).unwrap();
    }
    let whole = fixture.dump(None, true).unwrap();
    assert_eq!((whole.tables, whole.rows), (2, 0));
    assert!(whole.text.contains("CREATE TABLE items"));
    assert!(whole.text.contains("CREATE TABLE other"));
    assert!(whole.text.contains("CREATE INDEX items_name"));
    assert!(!whole.text.contains("INSERT INTO"));

    let one = fixture.dump(Some("items"), true).unwrap();
    assert_eq!((one.tables, one.rows), (1, 0));
    assert!(one.text.contains("CREATE TABLE items"));
    assert!(one.text.contains("CREATE INDEX items_name"));
    assert!(!one.text.contains("INSERT INTO"));
    assert!(!one.text.contains("other"));
}

#[test]
fn a_whole_dump_restores_every_table_row_index_trigger_and_view() {
    let source = Fixture::new();
    for sql in [
        "create table \"odd \"\" name\"(id integer primary key, \"a;b\" text)",
        "create table log(entry text)",
        "create trigger note after insert on \"odd \"\" name\" begin insert into log values (';'); insert into log values ('end'); end",
        "create view both as select id from \"odd \"\" name\" union all select entry from log",
        "create index by_text on \"odd \"\" name\"(\"a;b\")",
        "insert into \"odd \"\" name\" with recursive n(i) as (select 1 union all select i + 1 from n where i < 401) select i, 'it''s; ' || i from n",
    ] {
        source.execute(sql, 10).unwrap();
    }
    let dump = source.dump(None, false).unwrap();
    assert_eq!((dump.tables, dump.rows), (2, 401 + 802));
    let inserts: Vec<usize> = dump
        .text
        .match_indices("INSERT INTO \"odd \"\" name\" (\"id\", \"a;b\") VALUES")
        .map(|(at, _)| at)
        .collect();
    assert_eq!(inserts.len(), 3);
    let last_table = dump.text.rfind("CREATE TABLE").unwrap();
    assert!(last_table < inserts[0]);
    let last_insert = dump.text.rfind("INSERT INTO \"").unwrap();
    for other in ["CREATE INDEX", "CREATE TRIGGER", "CREATE VIEW"] {
        assert!(dump.text.find(other).unwrap() > last_insert);
    }
    let mut target = Fixture::new();
    target.import_sql(&dump.text).unwrap();
    for projection in [
        "select * from \"odd \"\" name\" order by id",
        "select * from log order by rowid",
        "select type, name, sql from sqlite_master order by name",
    ] {
        let source_rows = source.execute(projection, 2000).unwrap();
        let target_rows = target.execute(projection, 2000).unwrap();
        assert!(!source_rows.rows.is_empty());
        assert!(same_rows(&source_rows, &target_rows));
    }
}

#[test]
fn sqlite_dump_of_an_empty_database_restores_without_error() {
    let fixture = Fixture::new();
    let dump = fixture.dump(None, false).unwrap();
    assert_eq!((dump.tables, dump.rows), (0, 0));
    assert!(dump.text.starts_with("-- Luna Mux database dump"));
    let mut target = Fixture::new();
    target.import_sql(&dump.text).unwrap();
}

#[test]
fn sqlite_import_from_file_is_all_or_nothing() {
    let mut fixture = Fixture::new();
    fixture
        .execute("create table items(id integer)", 10)
        .unwrap();
    assert!(fixture
        .import_sql("insert into items values (1);\ninsert into items values (2);\ninsert into missing values (3);\n")
        .is_err());
    let count = fixture.execute("select count(*) from items", 10).unwrap();
    assert_eq!(text(&count.rows[0][0]), "0");
    assert!(fixture
        .import_sql("BEGIN;\ninsert into items values (9);\nCOMMIT;\n")
        .unwrap_err()
        .contains("BEGIN/COMMIT"));
}

#[test]
fn mysql_dump_values_follow_the_column_kind() {
    let kind = |column: ColumnType, charset: u16| mysql_value_kind(column as u8, charset);
    assert_eq!(
        kind(ColumnType::MYSQL_TYPE_LONG, MYSQL_BINARY_CHARSET),
        MysqlValueKind::Number
    );
    assert_eq!(
        kind(ColumnType::MYSQL_TYPE_DATETIME, MYSQL_BINARY_CHARSET),
        MysqlValueKind::Text
    );
    assert_eq!(
        kind(ColumnType::MYSQL_TYPE_BLOB, MYSQL_BINARY_CHARSET),
        MysqlValueKind::Binary
    );
    assert_eq!(
        kind(ColumnType::MYSQL_TYPE_VAR_STRING, 45),
        MysqlValueKind::Text
    );

    let mut out = String::new();
    for (value, kind) in [
        (MysqlValue::Null, MysqlValueKind::Text),
        (
            MysqlValue::Bytes(b"-17.5".to_vec()),
            MysqlValueKind::Number,
        ),
        (MysqlValue::Bytes(b"it's".to_vec()), MysqlValueKind::Text),
        (
            MysqlValue::Bytes(vec![0x00, 0xff]),
            MysqlValueKind::Binary,
        ),
        (MysqlValue::Bytes(b"a\\b".to_vec()), MysqlValueKind::Text),
        (
            MysqlValue::Bytes(b"line\nfeed".to_vec()),
            MysqlValueKind::Text,
        ),
    ] {
        out.push_str(&mysql_dump_value(&value, kind));
    }
    assert_eq!(
        out,
        "NULL-17.5'it''s'X'00FF'X'615C62'X'6C696E650A66656564'"
    );
}

fn date(micros: u32) -> MysqlDate {
    MysqlDate {
        year: 2024,
        month: 1,
        day: 2,
        hour: 3,
        minute: 4,
        second: 5,
        micros,
    }
}

#[test]
fn mysql_temporal_values_keep_their_text_form() {
    assert_eq!(mysql_datetime_text(date(0)), "2024-01-02 03:04:05");
    assert_eq!(
        mysql_datetime_text(date(120_000)),
        "2024-01-02 03:04:05.120000"
    );
    assert_eq!(
        mysql_time_text(MysqlTime {
            negative: false,
            days: 1,
            hours: 2,
            minutes: 3,
            seconds: 4,
            micros: 0
        }),
        "26:03:04"
    );
    assert_eq!(
        mysql_time_text(MysqlTime {
            negative: true,
            days: 0,
            hours: 0,
            minutes: 0,
            seconds: 1,
            micros: 500_000
        }),
        "-00:00:01.500000"
    );
}

#[test]
fn postgres_dump_values_quote_text_and_hex_bytea() {
    let mut out = String::new();
    out.push_str(&postgres_dump_value(None, false));
    out.push_str(&postgres_dump_value(Some("it's"), false));
    out.push_str(&postgres_dump_value(Some("back\\slash"), false));
    out.push_str(&postgres_dump_value(Some("\\x616263"), true));
    assert_eq!(out, r"NULL'it''s'E'back\\slash'E'\\x616263'");
}

#[test]
fn postgres_column_definitions_keep_serial_identity_and_defaults() {
    let column = |name: &str, type_sql: &str, default: Option<&str>| PostgresColumn {
        name: name.to_string(),
        type_sql: type_sql.to_string(),
        not_null: false,
        default: default.map(str::to_string),
        serial: postgres_serial_type(type_sql, default),
        identity: false,
    };
    let serial = column("id", "integer", Some("nextval('posts_id_seq'::regclass)"));
    assert_eq!(serial.definition(), "  \"id\" serial");
    assert!(serial.needs_sequence_reset());
    assert_eq!(
        column("title", "text", Some("'draft'::text")).definition(),
        "  \"title\" text DEFAULT 'draft'::text"
    );
    assert!(!column("title", "text", None).needs_sequence_reset());
    assert_eq!(
        postgres_serial_type("numeric", Some("nextval('x'::regclass)")),
        None
    );
    let identity = PostgresColumn {
        identity: true,
        not_null: true,
        ..column("id", "bigint", None)
    };
    assert_eq!(
        identity.definition(),
        "  \"id\" bigint GENERATED BY DEFAULT AS IDENTITY NOT NULL"
    );
    assert!(identity.needs_sequence_reset());
}

/// One schema with one table, as a MySQL server shows it.
fn mysql_dump(table: Option<&str>, schema_only: bool) -> Result<Dump, String> {
    let listing = mysql_dump_objects_sql(table);
    let requested = listing
        .split("AND table_name = '")
        .nth(1)
        .and_then(|rest| rest.split('\'').next());
    let objects = if requested.is_some_and(|name| name != "posts") {
        Vec::new()
    } else {
        vec![NetworkObject {
            name: "posts".to_string(),
            is_view: false,
        }]
    };
    let plan = mysql_export_plan(&objects, table, schema_only)?;
    let mut dump = Dump::of(&plan);
    dump.queries.push(listing);
    for step in &plan.steps {
        match step {
            DumpStep::Define { name, is_view } => {
                dump.queries.push(mysql_object_ddl_sql(name, *is_view));
                let ddl = "CREATE TABLE `posts` (\n  `id` int NOT NULL,\n  `title` varchar(50) DEFAULT NULL\n) ENGINE=InnoDB";
                dump.text
                    .push_str(&mysql_object_text(name, *is_view, Some(ddl))?);
            }
            DumpStep::Data(name) => {
                let quoted = sql_identifier('`', name);
                dump.queries.push(format!("SELECT * FROM {quoted}"));
                let kinds: Vec<MysqlValueKind> = [(3, 63), (253, 45), (252, 63), (12, 63)]
                    .iter()
                    .map(|(code, charset)| mysql_value_kind(*code, *charset))
                    .collect();
                let columns: Vec<String> = ["id", "title", "payload", "created_at"]
                    .iter()
                    .map(|column| sql_identifier('`', column))
                    .collect();
                let bytes = |value: &[u8]| MysqlValue::Bytes(value.to_vec());
                let rows = [
                    mysql_row(
                        &[
                            bytes(b"1"),
                            bytes(b"hello"),
                            bytes(&[0x00, 0xff]),
                            bytes(b"2024-01-02 03:04:05"),
                        ],
                        &kinds,
                    ),
                    mysql_row(
                        &[
                            bytes(b"2"),
                            bytes(b"quote's"),
                            MysqlValue::Null,
                            bytes(b"2024-05-06 07:08:09"),
                        ],
                        &kinds,
                    ),
                ];
                dump.rows += write_table_rows(&mut dump.text, &quoted, &columns, &rows);
            }
            other => dump.take(other),
        }
    }
    Ok(dump)
}

#[test]
fn mysql_dump_writes_schema_and_batched_rows() {
    let dump = mysql_dump(None, false).unwrap();
    assert_eq!((dump.tables, dump.rows), (1, 2));
    assert!(dump.text.starts_with("-- Luna Mux database dump"));
    assert!(dump.text.contains("DROP TABLE IF EXISTS `posts`;"));
    assert!(dump.text.contains("CREATE TABLE `posts` ("));
    assert!(dump.text.contains("INSERT INTO `posts` (`id`, `title`, `payload`, `created_at`) VALUES\n  (1, 'hello', X'00FF', '2024-01-02 03:04:05'),\n  (2, 'quote''s', NULL, '2024-05-06 07:08:09');"));
    assert!(dump
        .queries
        .iter()
        .any(|sql| sql.starts_with("SELECT table_name, table_type FROM information_schema.tables")));
    assert!(dump
        .queries
        .iter()
        .any(|sql| sql == "SHOW CREATE TABLE `posts`"));
    assert!(dump.queries.iter().any(|sql| sql == "SELECT * FROM `posts`"));
}

#[test]
fn mysql_schema_only_dump_skips_data_queries_and_inserts() {
    let dump = mysql_dump(None, true).unwrap();
    assert_eq!((dump.tables, dump.rows), (1, 0));
    assert!(dump.text.contains("CREATE TABLE `posts` ("));
    assert!(!dump.text.contains("INSERT INTO"));
    assert!(!dump
        .queries
        .iter()
        .any(|sql| sql.starts_with("SELECT * FROM")));
}

#[test]
fn mysql_dump_of_one_table_filters_the_query_and_reports_missing_tables() {
    let dump = mysql_dump(Some("posts"), false).unwrap();
    assert_eq!((dump.tables, dump.rows), (1, 2));
    assert!(dump.text.starts_with("-- Luna Mux dump: posts"));
    assert!(dump
        .queries
        .first()
        .unwrap()
        .contains("AND table_name = 'posts'"));
    match mysql_dump(Some("missing"), false) {
        Err(error) => assert!(error.contains("找不到该表或视图")),
        Ok(dump) => panic!("{}", dump.text),
    }
}

#[test]
fn network_import_sends_the_script_as_a_single_request() {
    let mut manager = DatabaseRuntimeManager::new();
    let runtime = manager.connect(&network_config(DatabaseDriver::Mysql, 3306));
    let script = "DROP TABLE IF EXISTS `posts`;\nCREATE TABLE `posts` (`id` int);\nINSERT INTO `posts` VALUES (1);\n";
    let call = manager.import_sql(&runtime.id, script).unwrap();
    assert_eq!(call.sql, script);
    assert!(matches!(call.handle, DatabaseHandle::Network(_)));
}

fn text_row(cells: &[Option<&str>]) -> TextRow {
    cells.iter().map(|cell| cell.map(str::to_string)).collect()
}

/// One schema with one table, as a PostgreSQL server shows it.
fn postgres_dump(schema_only: bool) -> Dump {
    let objects = postgres_dump_objects(&[text_row(&[Some("posts"), Some("BASE TABLE")])]);
    let plan = postgres_export_plan(&objects, None, schema_only).unwrap();
    let columns = postgres_table_columns(&[
        text_row(&[
            Some("id"),
            Some("integer"),
            Some("t"),
            Some(""),
            Some("nextval('posts_id_seq'::regclass)"),
        ]),
        text_row(&[
            Some("title"),
            Some("character varying(50)"),
            Some("f"),
            Some(""),
            None,
        ]),
        text_row(&[Some("payload"), Some("bytea"), Some("f"), Some(""), None]),
    ]);
    let constraints = [
        text_row(&[Some("posts_pkey"), Some("p"), Some("PRIMARY KEY (id)")]),
        text_row(&[
            Some("posts_user_fk"),
            Some("f"),
            Some("FOREIGN KEY (user_id) REFERENCES users(id)"),
        ]),
    ];
    let mut dump = Dump::of(&plan);
    dump.queries.push(postgres_dump_objects_sql(None));
    for step in &plan.steps {
        match step {
            DumpStep::Define { name, .. } => {
                dump.queries.push(postgres_table_columns_sql(name));
                dump.text.push_str(&postgres_table_text(name, &columns));
            }
            DumpStep::Data(name) => {
                let quoted = sql_identifier('"', name);
                dump.queries.push(format!("SELECT * FROM {quoted}"));
                let names: Vec<String> = ["id", "title", "payload"]
                    .iter()
                    .map(|column| column.to_string())
                    .collect();
                let shown: Vec<String> =
                    names.iter().map(|column| sql_identifier('"', column)).collect();
                let row = text_row(&[Some("1"), Some("hello"), Some("\\x616263")]);
                let rows = [postgres_row(&row, &names, &columns)];
                dump.rows += write_table_rows(&mut dump.text, &quoted, &shown, &rows);
            }
            DumpStep::Indexes(name) => {
                dump.queries.push(postgres_table_indexes_sql(name));
                let found = postgres_table_indexes(&[text_row(&[Some(
                    "CREATE INDEX posts_title_idx ON public.posts USING btree (title)",
                )])]);
                for definition in found {
                    dump.text.push_str(&format!("{definition};\n"));
                }
            }
            DumpStep::Constraints { table, foreign } => {
                dump.queries.push(postgres_table_constraints_sql(table));
                dump.text
                    .push_str(&postgres_table_constraints(table, &constraints, *foreign));
            }
            DumpStep::Sequences(name) => {
                dump.text.push_str(&postgres_sequence_text(name, &columns));
            }
            other => dump.take(other),
        }
    }
    dump
}

#[test]
fn postgres_dump_writes_tables_data_constraints_and_sequences() {
    let dump = postgres_dump(false);
    assert_eq!((dump.tables, dump.rows), (1, 1));
    assert!(dump.text.contains("CREATE TABLE \"posts\" (\n  \"id\" serial NOT NULL,\n  \"title\" character varying(50),\n  \"payload\" bytea\n);"));
    assert!(dump.text.contains("INSERT INTO \"posts\" (\"id\", \"title\", \"payload\") VALUES\n  ('1', 'hello', E'\\\\x616263');"));
    assert!(dump.text.contains("CREATE INDEX posts_title_idx"));
    assert!(dump
        .text
        .contains("ALTER TABLE \"posts\" ADD CONSTRAINT \"posts_pkey\" PRIMARY KEY (id);"));
    assert!(dump.text.contains("SELECT setval(pg_get_serial_sequence('\"posts\"', 'id'), COALESCE(MAX(\"id\"), 1), COUNT(\"id\") > 0) FROM \"posts\";"));
    assert!(dump
        .text
        .contains("ADD CONSTRAINT \"posts_user_fk\" FOREIGN KEY"));
    let data = dump.text.find("INSERT INTO").unwrap();
    let foreign = dump.text.find("posts_user_fk").unwrap();
    assert!(data < foreign);
}

#[test]
fn postgres_schema_only_dump_skips_data_queries_inserts_and_sequence_resets() {
    let dump = postgres_dump(true);
    assert_eq!((dump.tables, dump.rows), (1, 0));
    assert!(dump.text.contains("CREATE TABLE \"posts\" ("));
    assert!(!dump.text.contains("INSERT INTO"));
    assert!(!dump.text.contains("SELECT setval"));
    assert!(!dump
        .queries
        .iter()
        .any(|sql| sql.starts_with("SELECT * FROM")));
}

#[test]
fn postgres_import_sends_the_script_as_one_batch() {
    let sent = postgres_script(
        "CREATE TABLE posts (id serial);\nINSERT INTO posts (id) VALUES (1);\n",
    );
    assert!(sent.starts_with("SET client_encoding = 'UTF8';\n"));
    assert!(sent.contains("INSERT INTO posts (id) VALUES (1);"));
}

#[test]
fn mysql_row_budget_is_applied_on_server_and_completed() {
    for driver in [DatabaseDriver::Mysql, DatabaseDriver::Mariadb] {
        let mut manager = DatabaseRuntimeManager::new();
        let runtime = manager.connect(&network_config(driver, 3306));
        let (call, limit) = manager.execute(&runtime.id, "SELECT 1", 500).unwrap();
        assert!(call.sql.contains("LIMIT 500"));
        let mut buffer = RowBuffer::new(limit);
        for _ in 0..500 {
            assert!(buffer.offer(vec![mysql_value(&MysqlValue::Bytes(b"1".to_vec()))]));
        }
        let result = buffer.finish(vec!["1".to_string()], 0);
        assert_eq!(result.rows.len(), 500);
        assert!(result.truncated);
    }
}

#[test]
fn mysql_column_comments_survive_native_metadata_path() {
    for driver in [DatabaseDriver::Mysql, DatabaseDriver::Mariadb] {
        let mut manager = DatabaseRuntimeManager::new();
        let runtime = manager.connect(&network_config(driver, 3306));
        let call = manager.describe_table(&runtime.id, "users").unwrap();
        assert!(call.sql.contains("column_comment"));
        let row: Vec<Json> = ["id", "int", "NO", "0", "用户编号"]
            .iter()
            .map(|cell| Json::Text(cell.to_string()))
            .collect();
        let column = column_info(&row);
        assert_eq!(column.comment.as_deref(), Some("用户编号"));
        assert!(column.not_null);
    }
}

#[test]
fn postgres_row_budget_is_applied_on_server_and_completed() {
    let mut manager = DatabaseRuntimeManager::new();
    let runtime = manager.connect(&network_config(DatabaseDriver::Postgres, 5432));
    let (call, limit) = manager.execute(&runtime.id, "SELECT 1", 500).unwrap();
    assert!(call.sql.contains("LIMIT 500"));
    let mut reader = PostgresReader::new(limit);
    reader.take(PostgresMessage::Columns(vec!["col0".to_string()]));
    for _ in 0..500 {
        reader.take(PostgresMessage::Row(text_row(&[Some("1")])));
    }
    reader.take(PostgresMessage::Complete(500));
    let result = reader.finish();
    assert_eq!(result.rows.len(), 500);
    assert!(result.truncated);
    assert_eq!(result.columns, ["col0"]);
}

#[test]
fn postgres_column_comment_survives_native_metadata_path() {
    let mut manager = DatabaseRuntimeManager::new();
    let runtime = manager.connect(&network_config(DatabaseDriver::Postgres, 5432));
    let call = manager.describe_table(&runtime.id, "users").unwrap();
    assert!(call.sql.contains("col_description"));
    assert!(call.sql.contains("attr.attnum"));
    let row: Vec<Json> = ["id", "integer", "NO", "0", "用户编号"]
        .iter()
        .map(|cell| Json::Text(cell.to_string()))
        .collect();
    let column = column_info(&row);
    assert_eq!(column.comment.as_deref(), Some("用户编号"));
    assert!(column.not_null);
}

#[test]
fn write_batches_are_read_to_their_end() {
    let sql = "BEGIN; UPDATE users SET id=1; SELECT id FROM users; COMMIT";
    assert_eq!(bounded_query_sql(sql, DatabaseDriver::Postgres, 500), sql);
    let mut reader = PostgresReader::new(500);
    reader.take(PostgresMessage::Columns(vec!["id".to_string()]));
    reader.take(PostgresMessage::Columns(vec!["later".to_string()]));
    for _ in 0..700 {
        reader.take(PostgresMessage::Row(text_row(&[Some("1"), None])));
    }
    reader.take(PostgresMessage::Other);
    reader.take(PostgresMessage::Complete(700));
    let result = reader.finish();
    assert_eq!(result.rows.len(), 500);
    assert!(matches!(result.rows[0][1], Json::Null));
    assert!(result.truncated);
    assert_eq!(result.columns, ["id"]);
    assert_eq!(result.affected_rows, 700);
}

#[test]
fn pages_follow_each_other() {
    let first = prepare_page("select * from t", DatabaseDriver::Sqlite, 0, 20).unwrap();
    assert_eq!(first.sql, "SELECT * FROM t LIMIT 20 OFFSET 0");
    assert!(first.pageable);
    let second = prepare_page("select * from t", DatabaseDriver::Sqlite, 20, 20).unwrap();
    assert_eq!(second.sql, "SELECT * FROM t LIMIT 20 OFFSET 20");
    assert_eq!(
        prepare_page("UPDATE t SET a=1", DatabaseDriver::Sqlite, 20, 20).unwrap_err(),
        "此 SQL 不支持自动翻页，请修改 SQL 后执行"
    );
    assert!(has_more(true, 20, 20));
    assert!(!has_more(true, 19, 20));
    assert!(!has_more(false, 20, 20));
    assert_eq!(clamp_rows(0), 1);
    assert_eq!(clamp_rows(10001), 10000);
}

#[test]
fn servers_are_found_by_their_configuration() {
    let mut config = network_config(DatabaseDriver::Mysql, 1);
    config.port = None;
    config.database = Some(String::new());
    let endpoint = network_endpoint(&config).unwrap();
    assert_eq!(endpoint.port, 3306);
    assert_eq!(endpoint.host, "127.0.0.1");
    assert_eq!(endpoint.user, "fixture");
    assert_eq!(endpoint.database, None);
    config.driver = DatabaseDriver::Postgres;
    assert_eq!(network_endpoint(&config).unwrap().port, 5432);
    config.host = None;
    assert!(network_endpoint(&config).is_err());
    let mut sqlite = sqlite_config();
    sqlite.sqlite_path = None;
    assert_eq!(
        connect_plan(&sqlite).unwrap_err(),
        "SQLite connection requires sqlitePath"
    );
    assert!(matches!(
        test_connection(&sqlite_config()),
        Ok(ConnectPlan::OpenSqlite { read_only: true, .. })
    ));
    assert!(matches!(connect_plan(&network_config(DatabaseDriver::Mysql, 1)), Ok(ConnectPlan::AskServer)));
}

#[test]
fn disconnected_runtimes_stay_listed() {
    let mut manager = DatabaseRuntimeManager::new();
    let one = manager.connect(&sqlite_config());
    let two = manager.connect(&network_config(DatabaseDriver::Mysql, 1));
    assert_ne!(one.id, two.id);
    assert_eq!(manager.list().len(), 2);
    assert!(manager.network_config(&one.id).unwrap().is_none());
    assert!(manager.network_config(&two.id).unwrap().is_some());
    assert_eq!(manager.driver(&two.id), Ok(DatabaseDriver::Mysql));
    manager.disconnect(&one.id).unwrap();
    assert_eq!(manager.list()[0].status, DatabaseRuntimeStatus::Disconnected);
    assert_eq!(
        manager.execute(&one.id, "SELECT 1", 1).unwrap_err(),
        "database is disconnected"
    );
    assert_eq!(
        manager.disconnect("missing").unwrap_err(),
        "database runtime not found"
    );
    manager.disconnect_all();
    assert!(manager
        .list()
        .iter()
        .all(|runtime| runtime.status == DatabaseRuntimeStatus::Disconnected));
    assert!(manager.handle(&two.id).is_err());
}

#[test]
fn statements_are_built_from_checked_names() {
    assert_eq!(
        import_rows_sql("items", &["id".to_string(), "name".to_string()]).unwrap(),
        "INSERT INTO \"items\" (\"id\",\"name\") VALUES (?,?)"
    );
    assert_eq!(
        import_rows_sql("items", &[]).unwrap_err(),
        "非法表名或字段名"
    );
    assert!(add_column_sql("items", "note", "TEXT").unwrap().contains("ADD COLUMN"));
    assert!(add_column_sql("items", "no-te", "TEXT").is_err());
    assert!(drop_column_sql("items", "note").unwrap().contains("DROP COLUMN"));
    assert_eq!(
        create_index_sql("items", "by_name", "name", true).unwrap(),
        "CREATE UNIQUE INDEX \"by_name\" ON \"items\" (\"name\")"
    );
    assert_eq!(
        create_index_sql("items", "by name", "name", true).unwrap_err(),
        "非法索引名称"
    );
    assert_eq!(drop_index_sql("by_name").unwrap(), "DROP INDEX \"by_name\"");
    assert!(list_tables_sql(DatabaseDriver::Sqlite).contains("sqlite_master"));
    assert!(describe_table_sql(DatabaseDriver::Sqlite, "a;b").is_err());
    assert_eq!(sql_identifier('`', "a`b"), "`a``b`");
    assert_eq!(sql_dump_identifier("a\"b"), "\"a\"\"b\"");
    assert!(check_script(" \n").is_err());
    assert_eq!(script_error("plain"), "plain");
    let index = index_info(&[Json::Text("i".to_string()), Json::Text("1".to_string())]).unwrap();
    assert!(index.unique);
    assert!(index_info(&[Json::Null]).is_none());
}

#[test]
fn values_are_written_as_literals() {
    let real = |n: f64| {
        SqlValue::Real(SqlReal {
            bits: n.to_bits(),
            text: format!("{n:?}"),
        })
    };
    assert_eq!(write_sql_value(&real(0.1)), "0.1");
    assert_eq!(write_sql_value(&real(f64::INFINITY)), "NULL");
    assert_eq!(write_sql_value(&real(f64::NAN)), "NULL");
    assert_eq!(write_sql_value(&SqlValue::Integer(i64::MIN)), "-9223372036854775808");
    assert_eq!(write_sql_value(&SqlValue::Text(b"a'b".to_vec())), "'a''b'");
    assert_eq!(
        write_sql_value(&SqlValue::Text(vec![0xff])),
        "CAST(X'FF' AS TEXT)"
    );
    let rows: Vec<String> = (0..201).map(|n| format!("({n})")).collect();
    let mut out = String::new();
    assert_eq!(
        write_table_rows(&mut out, "\"t\"", &["\"a\"".to_string()], &rows),
        201
    );
    assert_eq!(out.matches("INSERT INTO").count(), 2);
    assert!(out.ends_with("(199);\nINSERT INTO \"t\" (\"a\") VALUES\n  (200);\n"));
    assert!(matches!(sqlite_value(&real(f64::NAN)), Json::Null));
    match sqlite_value(&SqlValue::Text(vec![b'a'; 65537])) {
        Json::Text(shown) => assert_eq!(shown.len(), 65536),
        other => panic!("{other:?}"),
    }
    match sqlite_value(&SqlValue::Blob(vec![1, 2, 3])) {
        Json::Object(fields) => assert_eq!(fields[0].0, "bytes"),
        other => panic!("{other:?}"),
    }
}

#[test]
fn mysql_values_are_shown_as_json() {
    assert_eq!(text(&mysql_value(&MysqlValue::Date(date(7)))), "2024-01-02 03:04:05.007");
    let time = MysqlTime {
        negative: false,
        days: 1,
        hours: 2,
        minutes: 3,
        seconds: 4,
        micros: 5,
    };
    let shown = mysql_value(&MysqlValue::Time(time));
    assert_eq!(
        text(&shown),
        format!("{:?}", mysql_async::Value::Time(false, 1, 2, 3, 4, 5))
    );
    assert!(matches!(
        mysql_value(&MysqlValue::Int(-1)),
        Json::Number(JsonNumber::Negative(-1))
    ));
    assert!(matches!(mysql_value(&MysqlValue::Null), Json::Null));
    assert_eq!(text(&mysql_value(&MysqlValue::Bytes(vec![b'a', 0xff]))), "a\u{fffd}");
    assert!(mysql_object_text("v", true, None).is_err());
    assert_eq!(
        mysql_object_text("v", true, Some("CREATE VIEW `v` AS SELECT 1;")).unwrap(),
        "DROP VIEW IF EXISTS `v`;\nCREATE VIEW `v` AS SELECT 1;\n"
    );
}

#[test]
fn postgres_views_are_defined_last() {
    assert!(postgres_view_definition_sql("v").contains("'\"v\"'::regclass"));
    assert_eq!(
        postgres_view_text("v", &[text_row(&[Some(" SELECT 1;")])]).unwrap(),
        "DROP VIEW IF EXISTS \"v\";\nCREATE VIEW \"v\" AS  SELECT 1;\n"
    );
    assert_eq!(
        postgres_view_text("v", &[]).unwrap_err(),
        "无法读取视图 v 的定义"
    );
}

#[test]
fn results_are_exported() {
    let columns = ["a".to_string(), "b\"c".to_string()];
    let rows = [vec!["1".to_string(), "x,\"y\"".to_string()]];
    assert_eq!(
        export_csv(&columns, &rows),
        "\"a\",\"b\"\"c\"\n\"1\",\"x,\"\"y\"\"\"\n"
    );
    assert_eq!(csv_text(&Json::Null, "null"), "");
    assert_eq!(csv_text(&Json::Bool(true), "true"), "true");
    assert_eq!(csv_text(&Json::Text("t".to_string()), "\"t\""), "t");
    let exported = export_json(
        &columns,
        &[vec![Json::Null, Json::Bool(true), Json::Bool(false)]],
    );
    match exported {
        Json::List(items) => match &items[0] {
            Json::Object(fields) => assert_eq!(fields.len(), 2),
            other => panic!("{other:?}"),
        },
        other => panic!("{other:?}"),
    }
    assert_eq!(import_value(&Json::Bool(true)), ImportParam::Integer(1));
    assert_eq!(
        import_value(&Json::Number(JsonNumber::Whole(u64::MAX))),
        ImportParam::RealOf(u64::MAX)
    );
    assert_eq!(import_value(&Json::List(Vec::new())), ImportParam::Written);
}
