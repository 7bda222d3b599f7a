//! What is sent to the database behind a runtime.
use vstd::prelude::*;
use vstd::string::*;

use crate::database_runtime::{
    check_script, copy_config, disconnected, handle_view, postgres_script, runtime_named,
    ConfigView, DatabaseHandle, DatabaseRuntimeManager, HandleView,
};
use crate::sql_query::{
    bounded_query_sql, clamp_rows, plan_of, planned_sql, prepare_page, row_budget, QueryPage,
};
use crate::sql_text::{
    add_column_sql, all_names, create_index_sql, describe_statement, describe_table_sql,
    drop_column_sql, drop_index_sql, import_rows_sql, indexes_statement, insert_statement, is_name,
    is_name_text, is_type_text, list_foreign_keys_sql, list_indexes_sql, list_tables_sql, name_text,
    tables_statement, unique_word, DatabaseDriver,
};
use crate::text::{trim, views};

verus! {

/// What a runtime stands for.
pub open spec fn behind(manager: DatabaseRuntimeManager, id: Seq<char>) -> Result<
    HandleView,
    Seq<char>,
> {
    match runtime_named(manager.view(), id) {
        Some(i) => match manager.view()[i].handle {
            Some(handle) => Ok(handle),
            None => Err("database is disconnected"@),
        },
        None => Err("database runtime not found"@),
    }
}

/// The driver that a statement is written for.
pub open spec fn driver_of(handle: HandleView) -> DatabaseDriver {
    match handle {
        HandleView::Sqlite => DatabaseDriver::Sqlite,
        HandleView::Network(config) => config.driver,
    }
}

/// A statement and the database that it goes to.
#[derive(Debug)]
pub struct SqlCall {
    pub handle: DatabaseHandle,
    pub sql: String,
}

/// The statement goes to the database.
pub open spec fn is_call(call: SqlCall, handle: HandleView, sql: Seq<char>) -> bool {
    handle_view(call.handle) == handle && call.sql@ == sql
}

/// A statement goes to SQLite, unless something is wrong: first its names, then the runtime.
pub open spec fn is_sqlite_statement(
    r: Result<String, String>,
    manager: DatabaseRuntimeManager,
    id: Seq<char>,
    named_well: bool,
    fault: Seq<char>,
    sql: Seq<char>,
) -> bool {
    if !named_well {
        r is Err && r->Err_0@ == fault
    } else {
        match behind(manager, id) {
            Ok(HandleView::Sqlite) => r is Ok && r->Ok_0@ == sql,
            Ok(HandleView::Network(_)) => r is Err && r->Err_0@ == "database is disconnected"@,
            Err(reason) => r is Err && r->Err_0@ == reason,
        }
    }
}

impl DatabaseRuntimeManager {
    /// The database behind a runtime.
    pub fn handle(&self, id: &str) -> (r: Result<DatabaseHandle, String>)
        requires
            self.wf(),
        ensures
            match behind(*self, id@) {
                Ok(handle) => r is Ok && handle_view(r->Ok_0) == handle,
                Err(reason) => r is Err && r->Err_0@ == reason,
            },
    {
        match self.place(id) {
            Some(i) => match &self.runtimes[i].handle {
                Some(DatabaseHandle::Sqlite) => Ok(DatabaseHandle::Sqlite),
                Some(DatabaseHandle::Network(config)) => Ok(
                    DatabaseHandle::Network(copy_config(config)),
                ),
                None => Err("database is disconnected".to_owned()),
            },
            None => Err("database runtime not found".to_owned()),
        }
    }

    fn for_sqlite(&self, id: &str, sql: String) -> (r: Result<String, String>)
        requires
            self.wf(),
        ensures
            is_sqlite_statement(r, *self, id@, true, ""@, sql@),
    {
        match self.handle(id) {
            Ok(DatabaseHandle::Sqlite) => Ok(sql),
            Ok(DatabaseHandle::Network(_)) => Err("database is disconnected".to_owned()),
            Err(reason) => Err(reason),
        }
    }

    /// The statement that puts one row into a table.
    pub fn import_rows(&self, id: &str, table: &str, columns: &[String]) -> (r: Result<
        String,
        String,
    >)
        requires
            self.wf(),
        ensures
            is_sqlite_statement(
                r,
                *self,
                id@,
                is_name(table@) && columns@.len() > 0 && all_names(views(columns@)),
                "非法表名或字段名"@,
                insert_statement(table@, views(columns@)),
            ),
    {
        match import_rows_sql(table, columns) {
            Ok(sql) => self.for_sqlite(id, sql),
            Err(fault) => Err(fault),
        }
    }

    /// The statement that adds a column.
    pub fn add_column(&self, id: &str, table: &str, column: &str, data_type: &str) -> (r: Result<
        String,
        String,
    >)
        requires
            self.wf(),
        ensures
            is_sqlite_statement(
                r,
                *self,
                id@,
                is_type_text(table@) && is_type_text(column@) && is_type_text(data_type@),
                "非法结构名称或类型"@,
                "ALTER TABLE \""@ + table@ + "\" ADD COLUMN \""@ + column@ + "\" "@ + data_type@,
            ),
    {
        match add_column_sql(table, column, data_type) {
            Ok(sql) => self.for_sqlite(id, sql),
            Err(fault) => Err(fault),
        }
    }

    /// The statement that drops a column.
    pub fn drop_column(&self, id: &str, table: &str, column: &str) -> (r: Result<String, String>)
        requires
            self.wf(),
        ensures
            is_sqlite_statement(
                r,
                *self,
                id@,
                is_name(table@) && is_name(column@),
                "非法表名或字段名"@,
                "ALTER TABLE \""@ + table@ + "\" DROP COLUMN \""@ + column@ + "\""@,
            ),
    {
        match drop_column_sql(table, column) {
            Ok(sql) => self.for_sqlite(id, sql),
            Err(fault) => Err(fault),
        }
    }

    /// The statement that makes an index.
    pub fn create_index(
        &self,
        id: &str,
        table: &str,
        index: &str,
        column: &str,
        unique: bool,
    ) -> (r: Result<String, String>)
        requires
            self.wf(),
        ensures
            is_sqlite_statement(
                r,
                *self,
                id@,
                is_name(table@) && is_name(index@) && is_name(column@),
                "非法索引名称"@,
                "CREATE "@ + unique_word(unique) + " INDEX \""@ + index@ + "\" ON \""@ + table@
                    + "\" (\""@ + column@ + "\")"@,
            ),
    {
        match create_index_sql(table, index, column, unique) {
            Ok(sql) => self.for_sqlite(id, sql),
            Err(fault) => Err(fault),
        }
    }

    /// The statement that drops an index.
    pub fn drop_index(&self, id: &str, index: &str) -> (r: Result<String, String>)
        requires
            self.wf(),
        ensures
            is_sqlite_statement(
                r,
                *self,
                id@,
                is_name(index@),
                "非法索引名称"@,
                "DROP INDEX \""@ + index@ + "\""@,
            ),
    {
        match drop_index_sql(index) {
            Ok(sql) => self.for_sqlite(id, sql),
            Err(fault) => Err(fault),
        }
    }

    /// The statement that lists the foreign keys of a table.
    pub fn list_foreign_keys(&self, id: &str, table: &str) -> (r: Result<String, String>)
        requires
            self.wf(),
        ensures
            is_sqlite_statement(
                r,
                *self,
                id@,
                is_name_text(table@),
                "非法表名"@,
                "PRAGMA foreign_key_list(\""@ + table@ + "\")"@,
            ),
    {
        match list_foreign_keys_sql(table) {
            Ok(sql) => self.for_sqlite(id, sql),
            Err(fault) => Err(fault),
        }
    }

    /// The statement that lists the tables.
    pub fn list_tables(&self, id: &str) -> (r: Result<SqlCall, String>)
        requires
            self.wf(),
        ensures
            match behind(*self, id@) {
                Ok(handle) => r is Ok && is_call(
                    r->Ok_0,
                    handle,
                    tables_statement(driver_of(handle)),
                ),
                Err(reason) => r is Err && r->Err_0@ == reason,
            },
    {
        let handle = match self.handle(id) {
            Ok(handle) => handle,
            Err(reason) => {
                return Err(reason);
            },
        };
        let sql = list_tables_sql(driver_behind(&handle));
        Ok(SqlCall { handle, sql })
    }

    /// The statement that lists the indexes of a table.
    pub fn list_indexes(&self, id: &str, table: &str) -> (r: Result<SqlCall, String>)
        requires
            self.wf(),
        ensures
            if !is_name_text(table@) {
                r is Err && r->Err_0@ == "非法表名"@
            } else {
                match behind(*self, id@) {
                    Ok(handle) => r is Ok && is_call(
                        r->Ok_0,
                        handle,
                        indexes_statement(driver_of(handle), table@),
                    ),
                    Err(reason) => r is Err && r->Err_0@ == reason,
                }
            },
    {
        if !name_text(table) {
            return Err("非法表名".to_owned());
        }
        let handle = match self.handle(id) {
            Ok(handle) => handle,
            Err(reason) => {
                return Err(reason);
            },
        };
        match list_indexes_sql(driver_behind(&handle), table) {
            Ok(sql) => Ok(SqlCall { handle, sql }),
            Err(fault) => Err(fault),
        }
    }

    /// The statement that describes the columns of a table.
    pub fn describe_table(&self, id: &str, table: &str) -> (r: Result<SqlCall, String>)
        requires
            self.wf(),
        ensures
            if !is_name_text(table@) {
                r is Err && r->Err_0@ == "非法表名"@
            } else {
                match behind(*self, id@) {
                    Ok(handle) => r is Ok && is_call(
                        r->Ok_0,
                        handle,
                        describe_statement(driver_of(handle), table@),
                    ),
                    Err(reason) => r is Err && r->Err_0@ == reason,
                }
            },
    {
        if !name_text(table) {
            return Err("非法表名".to_owned());
        }
        let handle = match self.handle(id) {
            Ok(handle) => handle,
            Err(reason) => {
                return Err(reason);
            },
        };
        match describe_table_sql(driver_behind(&handle), table) {
            Ok(sql) => Ok(SqlCall { handle, sql }),
            Err(fault) => Err(fault),
        }
    }

    /// A script as it is sent as a whole.
    pub fn import_sql(&self, id: &str, script: &str) -> (r: Result<SqlCall, String>)
        requires
            self.wf(),
        ensures
            if trim(script@).len() == 0 {
                r is Err && r->Err_0@ == "SQL 脚本不能为空"@
            } else {
                match behind(*self, id@) {
                    Ok(handle) => r is Ok && is_call(
                        r->Ok_0,
                        handle,
                        if driver_of(handle) == DatabaseDriver::Postgres {
                            "SET client_encoding = 'UTF8';\n"@ + script@
                        } else {
                            script@
                        },
                    ),
                    Err(reason) => r is Err && r->Err_0@ == reason,
                }
            },
    {
        match check_script(script) {
            Ok(()) => {},
            Err(fault) => {
                return Err(fault);
            },
        }
        let handle = match self.handle(id) {
            Ok(handle) => handle,
            Err(reason) => {
                return Err(reason);
            },
        };
        let sql = if driver_behind(&handle) == DatabaseDriver::Postgres {
            postgres_script(script)
        } else {
            script.to_owned()
        };
        Ok(SqlCall { handle, sql })
    }

    /// The database that is exported.
    pub fn export_sql(&self, id: &str) -> (r: Result<DatabaseHandle, String>)
        requires
            self.wf(),
        ensures
            match behind(*self, id@) {
                Ok(handle) => r is Ok && handle_view(r->Ok_0) == handle,
                Err(reason) => r is Err && r->Err_0@ == reason,
            },
    {
        self.handle(id)
    }

    /// A statement with its rows bounded, and how many of them are kept.
    pub fn execute(&self, id: &str, sql: &str, max_rows: usize) -> (r: Result<
        (SqlCall, usize),
        String,
    >)
        requires
            self.wf(),
        ensures
            match behind(*self, id@) {
                Ok(handle) => {
                    let driver = driver_of(handle);
                    let limit = row_budget(max_rows);
                    &&& r is Ok
                    &&& is_call(
                        r->Ok_0.0,
                        handle,
                        planned_sql(sql@, driver, plan_of(sql@, driver, limit, None)),
                    )
                    &&& r->Ok_0.1 == limit
                },
                Err(reason) => r is Err && r->Err_0@ == reason,
            },
    {
        let handle = match self.handle(id) {
            Ok(handle) => handle,
            Err(reason) => {
                return Err(reason);
            },
        };
        let limit: usize = clamp_rows(max_rows);
        let bounded = bounded_query_sql(sql, driver_behind(&handle), limit);
        Ok((SqlCall { handle, sql: bounded }, limit))
    }

    /// One page of a query, written for the driver of the runtime.
    pub fn execute_page(&self, id: &str, sql: &str, page_offset: usize, page_size: usize) -> (r:
        Result<QueryPage, String>)
        requires
            self.wf(),
        ensures
            match runtime_named(self.view(), id@) {
                None => r is Err && r->Err_0@ == "database runtime not found"@,
                Some(i) => {
                    let driver = self.view()[i].driver;
                    let size = row_budget(page_size);
                    let plan = plan_of(sql@, driver, size, Some(page_offset));
                    let text = planned_sql(sql@, driver, plan);
                    if page_offset > 0 && text == sql@ && !plan.pageable {
                        r is Err && r->Err_0@ == "此 SQL 不支持自动翻页，请修改 SQL 后执行"@
                    } else {
                        &&& r is Ok
                        &&& r->Ok_0.sql@ == text
                        &&& r->Ok_0.pageable == plan.pageable
                        &&& r->Ok_0.page_size == size
                    }
                },
            },
    {
        match self.driver(id) {
            Ok(driver) => prepare_page(sql, driver, page_offset, page_size),
            Err(reason) => Err(reason),
        }
    }
}

fn driver_behind(handle: &DatabaseHandle) -> (r: DatabaseDriver)
    ensures
        r == driver_of(handle_view(*handle)),
{
    match handle {
        DatabaseHandle::Sqlite => DatabaseDriver::Sqlite,
        DatabaseHandle::Network(config) => config.driver,
    }
}

/// A runtime that was disconnected takes no statement, whatever it is.
pub proof fn law_disconnected_runtimes_take_nothing(
    before: DatabaseRuntimeManager,
    after: DatabaseRuntimeManager,
    id: Seq<char>,
)
    requires
        before.wf(),
        after.wf(),
        runtime_named(before.view(), id) is Some,
        after.view() == before.view().update(
            runtime_named(before.view(), id)->0,
            disconnected(
                before.view()[runtime_named(before.view(), id)->0],
            ),
        ),
    ensures
        behind(after, id) == Err::<HandleView, _>("database is disconnected"@),
{
    let i = runtime_named(before.view(), id)->0;
    assert(after.view()[i].id == id);
    let k = runtime_named(after.view(), id)->0;
    assert(after.view()[k].id == id);
    if k < i {
        assert(after.view()[k].id != after.view()[i].id);
    } else if i < k {
        assert(after.view()[i].id != after.view()[k].id);
    }
}

/// A statement for SQLite is given exactly where its names may stand in it and the connection is one of
/// SQLite that has not been cut.
pub proof fn law_sqlite_statements_need_sqlite(
    r: Result<String, String>,
    manager: DatabaseRuntimeManager,
    id: Seq<char>,
    named_well: bool,
    fault: Seq<char>,
    sql: Seq<char>,
)
    requires
        is_sqlite_statement(r, manager, id, named_well, fault, sql),
    ensures
        r is Ok <==> named_well && behind(manager, id) == Ok::<HandleView, Seq<char>>(
            HandleView::Sqlite,
        ),
        r matches Ok(text) ==> text@ == sql,
        !named_well ==> r->Err_0@ == fault,
{
}

/// What is behind a connection is what it was made with, as long as it is not cut.
pub proof fn law_connections_lead_to_what_they_were_made_with(
    manager: DatabaseRuntimeManager,
    id: Seq<char>,
    i: int,
)
    requires
        manager.wf(),
        0 <= i < manager.view().len(),
        manager.view()[i].id == id,
    ensures
        manager.view()[i].handle matches Some(handle) ==> behind(manager, id) == Ok::<
            HandleView,
            Seq<char>,
        >(handle),
        manager.view()[i].handle is None ==> behind(manager, id) is Err,
        driver_of(HandleView::Sqlite) == DatabaseDriver::Sqlite,
        forall|config: ConfigView|
            (#[trigger] driver_of(HandleView::Network(config))) == config.driver,
{
    let all = manager.view();
    let k = runtime_named(all, id)->0;
    assert(all[i].id == id);
    if k < i {
        assert(all[k].id != all[i].id);
    } else if i < k {
        assert(all[i].id != all[k].id);
    }
}

} // verus!
