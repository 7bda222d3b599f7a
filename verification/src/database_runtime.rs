//! The database runtimes of the panes: which are connected, what a result holds, and what is
//! exported and imported.
use vstd::prelude::*;
use vstd::slice::slice_subrange;
use vstd::string::*;
use vstd::utf8::*;

use crate::dump_plan::{step_views, DumpStep, StepView};
use crate::dump_reading::lemma_join_front;
use crate::ids::{is_uuid_text, new_id};
use crate::json::{
    copy_json, fields_view, law_put_changes_one_field, lemma_list_view, lemma_put_is_found,
    list_view, names_in_order, push_field, put, put_field, whole_value, Json, JsonNumber, JsonView,
};
use crate::mysql_text::{real_json, real_value};
use crate::number_text::{signed_decimal, signed_decimal_text};
use crate::sql_dump::{SqlValue, SqlValueView};
use crate::sql_query::{clamp_rows, row_budget};
use crate::sql_text::{
    identifier, law_quoted_names_read_back, law_quoted_names_show_their_end, unquoted,
    DatabaseDriver,
};
use crate::text::{
    contains, copy_opt, has_part, is_blank, join, joined, lossy_text, lossy_utf8, opt_view,
    push_text, replace_char, replaced, same, to_chars, trim, views,
};

verus! {

/// How a database is reached.
#[derive(Debug)]
pub struct DatabaseConnectionConfig {
    pub profile_id: Option<String>,
    pub driver: DatabaseDriver,
    pub host: Option<String>,
    pub port: Option<u16>,
    pub database: Option<String>,
    pub username: Option<String>,
    pub password: Option<String>,
    pub read_only: bool,
    pub ssl_enabled: bool,
    pub sqlite_path: Option<String>,
}

/// What a connection configuration says.
pub ghost struct ConfigView {
    pub profile_id: Option<Seq<char>>,
    pub driver: DatabaseDriver,
    pub host: Option<Seq<char>>,
    pub port: Option<u16>,
    pub database: Option<Seq<char>>,
    pub username: Option<Seq<char>>,
    pub password: Option<Seq<char>>,
    pub read_only: bool,
    pub ssl_enabled: bool,
    pub sqlite_path: Option<Seq<char>>,
}

impl View for DatabaseConnectionConfig {
    type V = ConfigView;

    open spec fn view(&self) -> ConfigView {
        ConfigView {
            profile_id: opt_view(self.profile_id),
            driver: self.driver,
            host: opt_view(self.host),
            port: self.port,
            database: opt_view(self.database),
            username: opt_view(self.username),
            password: opt_view(self.password),
            read_only: self.read_only,
            ssl_enabled: self.ssl_enabled,
            sqlite_path: opt_view(self.sqlite_path),
        }
    }
}

/// A copy of a configuration.
pub fn copy_config(config: &DatabaseConnectionConfig) -> (r: DatabaseConnectionConfig)
    ensures
        r@ == config@,
{
    DatabaseConnectionConfig {
        profile_id: copy_opt(&config.profile_id),
        driver: config.driver,
        host: copy_opt(&config.host),
        port: config.port,
        database: copy_opt(&config.database),
        username: copy_opt(&config.username),
        password: copy_opt(&config.password),
        read_only: config.read_only,
        ssl_enabled: config.ssl_enabled,
        sqlite_path: copy_opt(&config.sqlite_path),
    }
}

/// Where a database server is, and as whom it is entered.
#[derive(Debug)]
pub struct NetworkEndpoint {
    pub host: String,
    pub port: u16,
    pub user: String,
    pub password: Option<String>,
    pub database: Option<String>,
    pub ssl_enabled: bool,
}

/// The port of a server where none is given.
pub open spec fn default_port(driver: DatabaseDriver) -> u16 {
    if driver == DatabaseDriver::Postgres {
        5432
    } else {
        3306
    }
}

/// The endpoint is the one of the configuration: a missing port is the usual one of the driver, a
/// missing user is empty, and an empty database is none.
pub open spec fn is_endpoint_of(endpoint: NetworkEndpoint, config: ConfigView) -> bool {
    &&& Some(endpoint.host@) == config.host
    &&& endpoint.port == (match config.port {
        Some(port) => port,
        None => default_port(config.driver),
    })
    &&& endpoint.user@ == (match config.username {
        Some(user) => user,
        None => Seq::empty(),
    })
    &&& opt_view(endpoint.password) == config.password
    &&& opt_view(endpoint.database) == (match config.database {
        Some(name) => if name.len() > 0 {
            Some(name)
        } else {
            None
        },
        None => None,
    })
    &&& endpoint.ssl_enabled == config.ssl_enabled
}

/// Where the server of a configuration is.
pub fn network_endpoint(config: &DatabaseConnectionConfig) -> (r: Result<NetworkEndpoint, String>)
    ensures
        if config.host is None {
            r is Err && r->Err_0@ == "数据库主机不能为空"@
        } else if config.driver == DatabaseDriver::Sqlite {
            r is Err && r->Err_0@ == "SQLite 使用本地连接"@
        } else {
            r is Ok && is_endpoint_of(r->Ok_0, config@)
        },
{
    let host = match &config.host {
        Some(host) => host.clone(),
        None => {
            return Err("数据库主机不能为空".to_owned());
        },
    };
    let usual: u16 = match config.driver {
        DatabaseDriver::Sqlite => {
            return Err("SQLite 使用本地连接".to_owned());
        },
        DatabaseDriver::Postgres => 5432,
        DatabaseDriver::Mysql | DatabaseDriver::Mariadb => 3306,
    };
    let port: u16 = match config.port {
        Some(port) => port,
        None => usual,
    };
    let user = match &config.username {
        Some(user) => user.clone(),
        None => String::new(),
    };
    let database = match &config.database {
        Some(name) => if to_chars(name.as_str()).len() > 0 {
            Some(name.clone())
        } else {
            None
        },
        None => None,
    };
    Ok(
        NetworkEndpoint {
            host,
            port,
            user,
            password: copy_opt(&config.password),
            database,
            ssl_enabled: config.ssl_enabled,
        },
    )
}

/// How a database is opened.
#[derive(Debug)]
pub enum ConnectPlan {
    /// A SQLite file is opened; one that is not read only may be created.
    OpenSqlite { path: String, read_only: bool },
    /// A server is asked for one row.
    AskServer,
}

/// The way to open a database: a SQLite database needs a path.
pub open spec fn is_connect_plan(
    plan: Result<ConnectPlan, String>,
    config: ConfigView,
    read_only: bool,
) -> bool {
    if config.driver != DatabaseDriver::Sqlite {
        plan is Ok && plan->Ok_0 is AskServer
    } else {
        match config.sqlite_path {
            None => plan is Err && plan->Err_0@ == "SQLite connection requires sqlitePath"@,
            Some(path) => plan is Ok && (plan->Ok_0 matches ConnectPlan::OpenSqlite {
                path: p,
                read_only: o,
            } && p@ == path && o == read_only),
        }
    }
}

fn plan_open(config: &DatabaseConnectionConfig, read_only: bool) -> (r: Result<ConnectPlan, String>)
    ensures
        is_connect_plan(r, config@, read_only),
{
    if config.driver == DatabaseDriver::Sqlite {
        match &config.sqlite_path {
            Some(path) => Ok(ConnectPlan::OpenSqlite { path: path.clone(), read_only }),
            None => Err("SQLite connection requires sqlitePath".to_owned()),
        }
    } else {
        Ok(ConnectPlan::AskServer)
    }
}

/// How the database of a configuration is opened.
pub fn connect_plan(config: &DatabaseConnectionConfig) -> (r: Result<ConnectPlan, String>)
    ensures
        is_connect_plan(r, config@, config.read_only),
{
    plan_open(config, config.read_only)
}

/// How the database of a configuration is tried: nothing is saved, and no file is made.
pub fn test_connection(config: &DatabaseConnectionConfig) -> (r: Result<ConnectPlan, String>)
    ensures
        is_connect_plan(r, config@, true),
{
    plan_open(config, true)
}

/// How a runtime is doing.
#[derive(Clone, Copy, Debug, PartialEq, Eq, Structural)]
pub enum DatabaseRuntimeStatus {
    Connecting,
    Ready,
    Disconnected,
    Error,
}

/// A runtime as its users see it.
#[derive(Debug)]
pub struct DatabaseRuntimeSummary {
    pub id: String,
    pub driver: DatabaseDriver,
    pub status: DatabaseRuntimeStatus,
    pub error: Option<String>,
}

/// What stands behind a runtime: an open SQLite database, or the way to a server.
#[derive(Debug)]
pub enum DatabaseHandle {
    Sqlite,
    Network(DatabaseConnectionConfig),
}

/// A runtime and what stands behind it; nothing once it was disconnected.
#[derive(Debug)]
pub struct RuntimeRecord {
    pub summary: DatabaseRuntimeSummary,
    pub handle: Option<DatabaseHandle>,
}

/// What stands behind a runtime.
pub ghost enum HandleView {
    Sqlite,
    Network(ConfigView),
}

/// A runtime.
pub ghost struct RuntimeView {
    pub id: Seq<char>,
    pub driver: DatabaseDriver,
    pub status: DatabaseRuntimeStatus,
    pub error: Option<Seq<char>>,
    pub handle: Option<HandleView>,
}

/// What a handle is.
pub open spec fn handle_view(handle: DatabaseHandle) -> HandleView {
    match handle {
        DatabaseHandle::Sqlite => HandleView::Sqlite,
        DatabaseHandle::Network(config) => HandleView::Network(config@),
    }
}

impl View for RuntimeRecord {
    type V = RuntimeView;

    open spec fn view(&self) -> RuntimeView {
        RuntimeView {
            id: self.summary.id@,
            driver: self.summary.driver,
            status: self.summary.status,
            error: opt_view(self.summary.error),
            handle: match self.handle {
                Some(handle) => Some(handle_view(handle)),
                None => None,
            },
        }
    }
}

/// The summary shows the runtime.
pub open spec fn shows(summary: DatabaseRuntimeSummary, runtime: RuntimeView) -> bool {
    &&& summary.id@ == runtime.id
    &&& summary.driver == runtime.driver
    &&& summary.status == runtime.status
    &&& opt_view(summary.error) == runtime.error
}

/// The runtimes that were connected.
#[derive(Debug)]
pub struct DatabaseRuntimeManager {
    pub runtimes: Vec<RuntimeRecord>,
}

/// The first runtime with this id.
pub open spec fn runtime_named(runtimes: Seq<RuntimeView>, id: Seq<char>) -> Option<int> {
    if exists|i: int| 0 <= i < runtimes.len() && #[trigger] runtimes[i].id == id {
        Some(choose|i: int| 0 <= i < runtimes.len() && #[trigger] runtimes[i].id == id)
    } else {
        None
    }
}

/// No two runtimes have the same id.
pub open spec fn distinct_runtimes(runtimes: Seq<RuntimeView>) -> bool {
    forall|i: int, j: int|
        0 <= i < j < runtimes.len() ==> #[trigger] runtimes[i].id != #[trigger] runtimes[j].id
}

/// The runtime without what stood behind it.
pub open spec fn disconnected(runtime: RuntimeView) -> RuntimeView {
    RuntimeView { handle: None, status: DatabaseRuntimeStatus::Disconnected, ..runtime }
}

/// A runtime that was just connected.
pub open spec fn connected(id: Seq<char>, config: ConfigView) -> RuntimeView {
    RuntimeView {
        id,
        driver: config.driver,
        status: DatabaseRuntimeStatus::Ready,
        error: None,
        handle: Some(
            if config.driver == DatabaseDriver::Sqlite {
                HandleView::Sqlite
            } else {
                HandleView::Network(config)
            },
        ),
    }
}

/// The runtimes with one more; it takes the place of one with the same id.
pub open spec fn with_runtime(runtimes: Seq<RuntimeView>, runtime: RuntimeView) -> Seq<RuntimeView> {
    match runtime_named(runtimes, runtime.id) {
        Some(i) => runtimes.update(i, runtime),
        None => runtimes.push(runtime),
    }
}

impl DatabaseRuntimeManager {
    /// The runtimes in the order in which they came.
    pub open spec fn view(&self) -> Seq<RuntimeView> {
        self.runtimes@.map_values(|r: RuntimeRecord| r@)
    }

    /// Each id names one runtime.
    pub open spec fn wf(&self) -> bool {
        distinct_runtimes(self.view())
    }

    /// No runtime.
    pub fn new() -> (r: Self)
        ensures
            r.wf(),
            r.view() == Seq::<RuntimeView>::empty(),
    {
        let r = DatabaseRuntimeManager { runtimes: Vec::new() };
        assert(r.view() =~= Seq::<RuntimeView>::empty());
        r
    }

    /// The place of a runtime.
    pub fn place(&self, id: &str) -> (r: Option<usize>)
        requires
            self.wf(),
        ensures
            match r {
                Some(i) => i < self.view().len() && self.view()[i as int].id == id@ && runtime_named(
                    self.view(),
                    id@,
                ) == Some(i as int),
                None => runtime_named(self.view(), id@) is None,
            },
    {
        let mut i: usize = 0;
        while i < self.runtimes.len()
            invariant
                self.wf(),
                i <= self.runtimes@.len(),
                forall|j: int| 0 <= j < i ==> #[trigger] self.view()[j].id != id@,
            decreases self.runtimes@.len() - i,
        {
            if same(self.runtimes[i].summary.id.as_str(), id) {
                assert(self.view()[i as int].id == id@);
                return Some(i);
            }
            i = i + 1;
        }
        None
    }

    /// Adds the runtime that was just connected, under the given id.
    pub fn connect_as(&mut self, id: String, config: &DatabaseConnectionConfig) -> (r:
        DatabaseRuntimeSummary)
        requires
            old(self).wf(),
        ensures
            final(self).wf(),
            final(self).view() == with_runtime(old(self).view(), connected(id@, config@)),
            shows(r, connected(id@, config@)),
    {
        let handle = if config.driver == DatabaseDriver::Sqlite {
            DatabaseHandle::Sqlite
        } else {
            DatabaseHandle::Network(copy_config(config))
        };
        let summary = DatabaseRuntimeSummary {
            id: id.clone(),
            driver: config.driver,
            status: DatabaseRuntimeStatus::Ready,
            error: None,
        };
        let place = self.place(id.as_str());
        let result = DatabaseRuntimeSummary {
            id,
            driver: config.driver,
            status: DatabaseRuntimeStatus::Ready,
            error: None,
        };
        let record = RuntimeRecord { summary, handle: Some(handle) };
        let ghost added = record@;
        assert(added == connected(id@, config@));
        match place {
            Some(i) => {
                self.runtimes.set(i, record);
                assert(self.view() =~= old(self).view().update(i as int, added));
                assert forall|a: int, b: int|
                    0 <= a < b < self.view().len() implies #[trigger] self.view()[a].id
                    != #[trigger] self.view()[b].id by {
                    assert(self.view()[a].id == old(self).view()[a].id);
                    assert(self.view()[b].id == old(self).view()[b].id);
                }
            },
            None => {
                self.runtimes.push(record);
                assert(self.view() =~= old(self).view().push(added));
                assert forall|a: int, b: int|
                    0 <= a < b < self.view().len() implies #[trigger] self.view()[a].id
                    != #[trigger] self.view()[b].id by {
                    assert(self.view()[a].id == old(self).view()[a].id);
                }
            },
        }
        result
    }

    /// Adds the runtime that was just connected, under a fresh id.
    pub fn connect(&mut self, config: &DatabaseConnectionConfig) -> (r: DatabaseRuntimeSummary)
        requires
            old(self).wf(),
        ensures
            final(self).wf(),
            is_uuid_text(r.id@),
            shows(r, connected(r.id@, config@)),
            final(self).view() == with_runtime(old(self).view(), connected(r.id@, config@)),
    {
        let id = new_id();
        self.connect_as(id, config)
    }

    /// All runtimes.
    pub fn list(&self) -> (r: Vec<DatabaseRuntimeSummary>)
        ensures
            r@.len() == self.view().len(),
            forall|i: int| 0 <= i < r@.len() ==> shows(#[trigger] r@[i], self.view()[i]),
    {
        let mut r: Vec<DatabaseRuntimeSummary> = Vec::new();
        let mut i: usize = 0;
        while i < self.runtimes.len()
            invariant
                i <= self.runtimes@.len(),
                r@.len() == i,
                forall|j: int| 0 <= j < i ==> shows(#[trigger] r@[j], self.view()[j]),
            decreases self.runtimes@.len() - i,
        {
            let summary = &self.runtimes[i].summary;
            r.push(
                DatabaseRuntimeSummary {
                    id: summary.id.clone(),
                    driver: summary.driver,
                    status: summary.status,
                    error: copy_opt(&summary.error),
                },
            );
            i = i + 1;
        }
        r
    }

    /// The driver of a runtime.
    pub fn driver(&self, id: &str) -> (r: Result<DatabaseDriver, String>)
        requires
            self.wf(),
        ensures
            match runtime_named(self.view(), id@) {
                Some(i) => r is Ok && r->Ok_0 == self.view()[i].driver,
                None => r is Err && r->Err_0@ == "database runtime not found"@,
            },
    {
        match self.place(id) {
            Some(i) => Ok(self.runtimes[i].summary.driver),
            None => Err("database runtime not found".to_owned()),
        }
    }

    /// The way to the server behind a runtime; nothing where no server stands behind it.
    pub fn network_config(&self, id: &str) -> (r: Result<Option<DatabaseConnectionConfig>, String>)
        requires
            self.wf(),
        ensures
            match runtime_named(self.view(), id@) {
                Some(i) => r is Ok && match self.view()[i].handle {
                    Some(HandleView::Network(config)) => r->Ok_0 is Some && (r->Ok_0->0)@ == config,
                    _ => r->Ok_0 is None,
                },
                None => r is Err && r->Err_0@ == "database runtime not found"@,
            },
    {
        match self.place(id) {
            Some(i) => match &self.runtimes[i].handle {
                Some(DatabaseHandle::Network(config)) => Ok(Some(copy_config(config))),
                _ => Ok(None),
            },
            None => Err("database runtime not found".to_owned()),
        }
    }

    /// Lets go of what stands behind a runtime.
    pub fn disconnect(&mut self, id: &str) -> (r: Result<(), String>)
        requires
            old(self).wf(),
        ensures
            final(self).wf(),
            match runtime_named(old(self).view(), id@) {
                Some(i) => r is Ok && final(self).view() == old(self).view().update(
                    i,
                    disconnected(old(self).view()[i]),
                ),
                None => {
                    &&& r is Err
                    &&& r->Err_0@ == "database runtime not found"@
                    &&& final(self).view() == old(self).view()
                },
            },
            final(self).view() == after_cut(old(self).view(), id@),
            r is Ok == runtime_named(old(self).view(), id@) is Some,
    {
        match self.place(id) {
            Some(i) => {
                self.let_go(i);
                Ok(())
            },
            None => Err("database runtime not found".to_owned()),
        }
    }

    fn let_go(&mut self, i: usize)
        requires
            i < old(self).view().len(),
            old(self).wf(),
        ensures
            final(self).view() == old(self).view().update(
                i as int,
                disconnected(old(self).view()[i as int]),
            ),
            final(self).wf(),
    {
        let summary = &self.runtimes[i].summary;
        let record = RuntimeRecord {
            summary: DatabaseRuntimeSummary {
                id: summary.id.clone(),
                driver: summary.driver,
                status: DatabaseRuntimeStatus::Disconnected,
                error: copy_opt(&summary.error),
            },
            handle: None,
        };
        let ghost put = record@;
        assert(put == disconnected(self.view()[i as int]));
        self.runtimes.set(i, record);
        assert(self.view() =~= old(self).view().update(i as int, put));
        assert forall|a: int, b: int| 0 <= a < b < self.view().len() implies #[trigger] self.view()[a].id
            != #[trigger] self.view()[b].id by {
            assert(self.view()[a].id == old(self).view()[a].id);
            assert(self.view()[b].id == old(self).view()[b].id);
        }
    }

    /// Lets go of what stands behind every runtime.
    pub fn disconnect_all(&mut self)
        requires
            old(self).wf(),
        ensures
            final(self).wf(),
            final(self).view() == old(self).view().map_values(
                |r: RuntimeView| disconnected(r),
            ),
    {
        let mut i: usize = 0;
        let ghost all = self.view();
        while i < self.runtimes.len()
            invariant
                self.wf(),
                all == old(self).view(),
                self.view().len() == all.len(),
                i <= all.len(),
                forall|j: int| 0 <= j < i ==> #[trigger] self.view()[j] == disconnected(all[j]),
                forall|j: int| i <= j < all.len() ==> #[trigger] self.view()[j] == all[j],
            decreases all.len() - i,
        {
            let ghost before = self.view();
            self.let_go(i);
            assert forall|j: int| 0 <= j < i + 1 implies #[trigger] self.view()[j] == disconnected(
                all[j],
            ) by {
                assert(before[j] == before[j]);
            }
            i = i + 1;
        }
        assert(self.view() =~= all.map_values(|r: RuntimeView| disconnected(r)));
    }
}

impl Default for DatabaseRuntimeManager {
    fn default() -> (r: Self)
        ensures
            r.wf(),
            r.view() == Seq::<RuntimeView>::empty(),
    {
        DatabaseRuntimeManager::new()
    }
}

/// A runtime that was disconnected stays listed, under its id, and nothing is behind it any more.
pub proof fn law_disconnected_runtimes_stay_listed(runtimes: Seq<RuntimeView>, i: int)
    requires
        0 <= i < runtimes.len(),
        distinct_runtimes(runtimes),
    ensures
        ({
            let after = runtimes.update(i, disconnected(runtimes[i]));
            &&& runtime_named(after, runtimes[i].id) == Some(i)
            &&& after[i].handle is None
            &&& after[i].status == DatabaseRuntimeStatus::Disconnected
            &&& forall|id: Seq<char>|
                id != runtimes[i].id ==> #[trigger] runtime_named(after, id) == runtime_named(
                    runtimes,
                    id,
                )
        }),
{
    let after = runtimes.update(i, disconnected(runtimes[i]));
    assert forall|k: int| 0 <= k < runtimes.len() implies (#[trigger] after[k]).id
        == runtimes[k].id by {}
    assert(after[i].id == runtimes[i].id);
    let found = runtime_named(after, runtimes[i].id)->0;
    assert(after[found].id == runtimes[found].id);
    if found < i {
        assert(runtimes[found].id != runtimes[i].id);
    } else if i < found {
        assert(runtimes[i].id != runtimes[found].id);
    }
    assert forall|id: Seq<char>| id != runtimes[i].id implies #[trigger] runtime_named(after, id)
        == runtime_named(runtimes, id) by {
        if runtime_named(after, id) is Some {
            let a = runtime_named(after, id)->0;
            assert(after[a].id == id);
            assert(runtimes[a].id == id);
            let b = runtime_named(runtimes, id)->0;
            assert(runtimes[b].id == id);
            if a < b {
                assert(runtimes[a].id != runtimes[b].id);
            } else if b < a {
                assert(runtimes[b].id != runtimes[a].id);
            }
        } else if runtime_named(runtimes, id) is Some {
            let b = runtime_named(runtimes, id)->0;
            assert(runtimes[b].id == id);
            assert(after[b].id == id);
        }
    }
}

/// The result of a query.
#[derive(Debug)]
pub struct DatabaseQueryResult {
    pub columns: Vec<String>,
    pub rows: Vec<Vec<Json>>,
    pub affected_rows: u64,
    pub truncated: bool,
    pub has_more: Option<bool>,
}

/// The view of each row.
pub open spec fn row_views(rows: Seq<Vec<Json>>) -> Seq<Seq<JsonView>> {
    rows.map_values(|row: Vec<Json>| list_view(row@))
}

/// The first rows of a result, up to a budget.
#[derive(Debug)]
pub struct RowBuffer {
    pub rows: Vec<Vec<Json>>,
    pub limit: usize,
    pub truncated: bool,
}

impl RowBuffer {
    /// No more rows than the budget.
    pub open spec fn wf(&self) -> bool {
        self.rows@.len() <= self.limit
    }

    /// An empty buffer for at most this many rows, within 1 and 10000.
    pub fn new(max_rows: usize) -> (r: Self)
        ensures
            r.wf(),
            r.rows@.len() == 0,
            r.limit == row_budget(max_rows),
            !r.truncated,
    {
        RowBuffer { rows: Vec::new(), limit: clamp_rows(max_rows), truncated: false }
    }

    /// Takes a row while the budget lasts; says whether it did.
    pub fn offer(&mut self, row: Vec<Json>) -> (r: bool)
        requires
            old(self).wf(),
        ensures
            final(self).wf(),
            final(self).limit == old(self).limit,
            r == (old(self).rows@.len() < old(self).limit),
            if r {
                row_views(final(self).rows@) == row_views(old(self).rows@).push(list_view(row@))
                    && final(self).truncated == old(self).truncated
            } else {
                final(self).rows@ == old(self).rows@ && final(self).truncated
            },
            takes_row(*old(self), *final(self), list_view(row@)),
    {
        if self.rows.len() < self.limit {
            let ghost added = list_view(row@);
            self.rows.push(row);
            assert(row_views(self.rows@) =~= row_views(old(self).rows@).push(added));
            true
        } else {
            self.truncated = true;
            false
        }
    }

    /// The result with the rows of the buffer; it counts as truncated once the budget is used up.
    pub fn finish(self, columns: Vec<String>, affected_rows: u64) -> (r: DatabaseQueryResult)
        ensures
            r.columns@ == columns@,
            r.rows@ == self.rows@,
            r.affected_rows == affected_rows,
            r.truncated == (self.truncated || self.rows@.len() == self.limit),
            r.has_more is None,
    {
        let truncated = self.truncated || self.rows.len() == self.limit;
        DatabaseQueryResult { columns, rows: self.rows, affected_rows, truncated, has_more: None }
    }
}

/// A message of the PostgreSQL text protocol.
#[derive(Debug)]
pub enum PostgresMessage {
    Columns(Vec<String>),
    Row(Vec<Option<String>>),
    Complete(u64),
    Other,
}

/// A text cell as JSON.
pub open spec fn cell_json(cell: Option<String>) -> JsonView {
    match cell {
        Some(text) => JsonView::Text(text@),
        None => JsonView::Null,
    }
}

/// The cells of a row as JSON.
pub open spec fn cells_json(row: Seq<Option<String>>) -> Seq<JsonView> {
    row.map_values(|cell: Option<String>| cell_json(cell))
}

fn cell_values(row: &Vec<Option<String>>) -> (r: Vec<Json>)
    ensures
        list_view(r@) == cells_json(row@),
{
    let mut r: Vec<Json> = Vec::new();
    let mut i: usize = 0;
    assert(list_view(r@) =~= cells_json(row@.take(0)));
    while i < row.len()
        invariant
            i <= row@.len(),
            list_view(r@) == cells_json(row@.take(i as int)),
        decreases row@.len() - i,
    {
        let value = match &row[i] {
            Some(text) => Json::Text(text.clone()),
            None => Json::Null,
        };
        let ghost before = r@;
        let ghost added = value.view();
        r.push(value);
        proof {
            assert(r@.drop_last() =~= before);
            assert(list_view(r@) == list_view(before).push(added));
            assert(cells_json(row@.take(i + 1)) =~= cells_json(row@.take(i as int)).push(added));
        }
        i = i + 1;
    }
    assert(row@.take(i as int) =~= row@);
    r
}

/// A PostgreSQL result that is being read: rows behind the budget are let go, but the reading goes
/// on to the end.
#[derive(Debug)]
pub struct PostgresReader {
    pub columns: Vec<String>,
    pub buffer: RowBuffer,
    pub affected_rows: u64,
}

impl PostgresReader {
    pub open spec fn wf(&self) -> bool {
        self.buffer.wf()
    }

    /// Nothing was read yet.
    pub fn new(max_rows: usize) -> (r: Self)
        ensures
            r.wf(),
            r.columns@.len() == 0,
            r.buffer.rows@.len() == 0,
            r.buffer.limit == row_budget(max_rows),
            !r.buffer.truncated,
            r.affected_rows == 0,
    {
        PostgresReader { columns: Vec::new(), buffer: RowBuffer::new(max_rows), affected_rows: 0 }
    }

    /// Takes a message: the first names of columns count, rows while the budget lasts, and the
    /// last count of affected rows.
    pub fn take(&mut self, message: PostgresMessage)
        requires
            old(self).wf(),
        ensures
            final(self).wf(),
            final(self).buffer.limit == old(self).buffer.limit,
            match message {
                PostgresMessage::Columns(names) => {
                    &&& final(self).columns@ == (if old(self).columns@.len() == 0 {
                        names@
                    } else {
                        old(self).columns@
                    })
                    &&& final(self).buffer == old(self).buffer
                    &&& final(self).affected_rows == old(self).affected_rows
                },
                PostgresMessage::Row(row) => {
                    &&& final(self).columns@ == old(self).columns@
                    &&& final(self).affected_rows == old(self).affected_rows
                    &&& if old(self).buffer.rows@.len() < old(self).buffer.limit {
                        &&& row_views(final(self).buffer.rows@) == row_views(
                            old(self).buffer.rows@,
                        ).push(cells_json(row@))
                        &&& final(self).buffer.truncated == old(self).buffer.truncated
                    } else {
                        &&& final(self).buffer.rows@ == old(self).buffer.rows@
                        &&& final(self).buffer.truncated
                    }
                },
                PostgresMessage::Complete(count) => {
                    &&& final(self).columns@ == old(self).columns@
                    &&& final(self).buffer == old(self).buffer
                    &&& final(self).affected_rows == count
                },
                PostgresMessage::Other => *final(self) == *old(self),
            },
            takes_message(*old(self), *final(self), message),
    {
        match message {
            PostgresMessage::Columns(names) => {
                if self.columns.len() == 0 {
                    self.columns = names;
                }
            },
            PostgresMessage::Row(row) => {
                let values = cell_values(&row);
                let _ = self.buffer.offer(values);
            },
            PostgresMessage::Complete(count) => {
                self.affected_rows = count;
            },
            PostgresMessage::Other => {},
        }
    }

    /// The result that was read.
    pub fn finish(self) -> (r: DatabaseQueryResult)
        ensures
            r.columns@ == self.columns@,
            r.rows@ == self.buffer.rows@,
            r.affected_rows == self.affected_rows,
            r.truncated == (self.buffer.truncated || self.buffer.rows@.len() == self.buffer.limit),
            r.has_more is None,
    {
        self.buffer.finish(self.columns, self.affected_rows)
    }
}

/// How many bytes of a text a result shows.
pub const SHOWN_TEXT_BYTES: usize = 65536;

/// The bytes of a text that a result shows.
pub open spec fn shown_bytes(bytes: Seq<u8>) -> Seq<u8> {
    if bytes.len() > SHOWN_TEXT_BYTES {
        bytes.take(SHOWN_TEXT_BYTES as int)
    } else {
        bytes
    }
}

/// A SQLite value in the result of a query: whole numbers as text, texts up to their first bytes,
/// and of blobs only the size.
pub open spec fn sqlite_json(value: SqlValueView) -> JsonView {
    match value {
        SqlValueView::Null => JsonView::Null,
        SqlValueView::Integer(n) => JsonView::Text(signed_decimal(n)),
        SqlValueView::Real { bits, .. } => real_json(bits),
        SqlValueView::Text(bytes) => JsonView::Text(lossy_utf8(shown_bytes(bytes))),
        SqlValueView::Blob(bytes) => JsonView::Object(
            seq![("bytes"@, JsonView::Number(JsonNumber::Whole(bytes.len() as u64)))],
        ),
    }
}

/// A SQLite value in the result of a query.
pub fn sqlite_value(value: &SqlValue) -> (r: Json)
    ensures
        r.view() == sqlite_json(value.view()),
{
    match value {
        SqlValue::Null => Json::Null,
        SqlValue::Integer(n) => Json::Text(signed_decimal_text(*n)),
        SqlValue::Real(number) => real_value(number.bits),
        SqlValue::Text(bytes) => {
            if bytes.len() > SHOWN_TEXT_BYTES {
                let shown = slice_subrange(bytes.as_slice(), 0, SHOWN_TEXT_BYTES);
                assert(shown@ =~= bytes@.take(SHOWN_TEXT_BYTES as int));
                Json::Text(lossy_text(shown))
            } else {
                Json::Text(lossy_text(bytes.as_slice()))
            }
        },
        SqlValue::Blob(bytes) => {
            let mut fields: Vec<(String, Json)> = Vec::new();
            push_field(&mut fields, "bytes", whole_value(bytes.len() as u64));
            assert(fields_view(fields@) =~= seq![
                ("bytes"@, JsonView::Number(JsonNumber::Whole(bytes@.len() as u64))),
            ]);
            Json::Object(fields)
        },
    }
}

/// A value that is put into a SQLite table.
#[derive(Clone, Copy, Debug, PartialEq, Eq, Structural)]
pub enum ImportParam {
    Null,
    Integer(i64),
    /// The double with these bits.
    Real(u64),
    /// The double nearest to this number.
    RealOf(u64),
    /// The text of the value.
    Text,
    /// The value written as JSON.
    Written,
}

/// How a JSON value is put into a SQLite table.
pub open spec fn import_param(value: JsonView) -> ImportParam {
    match value {
        JsonView::Null => ImportParam::Null,
        JsonView::Bool(b) => ImportParam::Integer(
            if b {
                1
            } else {
                0
            },
        ),
        JsonView::Number(JsonNumber::Whole(n)) => if n <= i64::MAX {
            ImportParam::Integer(n as i64)
        } else {
            ImportParam::RealOf(n)
        },
        JsonView::Number(JsonNumber::Negative(n)) => ImportParam::Integer(n),
        JsonView::Number(JsonNumber::Real(bits)) => ImportParam::Real(bits),
        JsonView::Text(_) => ImportParam::Text,
        JsonView::List(_) | JsonView::Object(_) => ImportParam::Written,
    }
}

/// How a JSON value is put into a SQLite table.
pub fn import_value(value: &Json) -> (r: ImportParam)
    ensures
        r == import_param(value.view()),
{
    match value {
        Json::Null => ImportParam::Null,
        Json::Bool(b) => if *b {
            ImportParam::Integer(1)
        } else {
            ImportParam::Integer(0)
        },
        Json::Number(JsonNumber::Whole(n)) => if *n <= i64::MAX as u64 {
            ImportParam::Integer(*n as i64)
        } else {
            ImportParam::RealOf(*n)
        },
        Json::Number(JsonNumber::Negative(n)) => ImportParam::Integer(*n),
        Json::Number(JsonNumber::Real(bits)) => ImportParam::Real(*bits),
        Json::Text(_) => ImportParam::Text,
        Json::List(_) => ImportParam::Written,
        Json::Object(_) => ImportParam::Written,
    }
}

/// Refuses an empty script.
pub fn check_script(script: &str) -> (r: Result<(), String>)
    ensures
        if trim(script@).len() == 0 {
            r is Err && r->Err_0@ == "SQL 脚本不能为空"@
        } else {
            r is Ok
        },
{
    if is_blank(script) {
        Err("SQL 脚本不能为空".to_owned())
    } else {
        Ok(())
    }
}

/// What is told of an error while a script ran: a script that opens its own transaction cannot be
/// taken back as a whole.
pub fn script_error(message: &str) -> (r: String)
    ensures
        r@ == (if contains(message@, "transaction within a transaction"@) {
            "脚本自带 BEGIN/COMMIT，无法整体执行：请移除脚本里的事务语句后重试"@
        } else {
            message@
        }),
{
    if has_part(message, "transaction within a transaction") {
        "脚本自带 BEGIN/COMMIT，无法整体执行：请移除脚本里的事务语句后重试".to_owned()
    } else {
        message.to_owned()
    }
}

/// A script as it is sent to a PostgreSQL server.
pub fn postgres_script(script: &str) -> (r: String)
    ensures
        r@ == "SET client_encoding = 'UTF8';\n"@ + script@,
{
    let mut r: String = "SET client_encoding = 'UTF8';\n".to_owned();
    r.append(script);
    r
}

/// The size of an export.
#[derive(Clone, Copy, Debug, PartialEq, Eq, Structural)]
pub struct DatabaseSqlExport {
    pub tables: usize,
    pub rows: u64,
    pub bytes: u64,
}

/// How far an export has come.
#[derive(Debug)]
pub struct DatabaseSqlExportProgress {
    pub operation_id: String,
    pub current: usize,
    pub total: usize,
    pub table: Option<String>,
}

/// The text of a file for a script: it ends with a line break.
pub open spec fn file_text(sql: Seq<char>) -> Seq<char> {
    if sql.len() > 0 && sql.last() == '\n' {
        sql
    } else {
        sql + "\n"@
    }
}

/// The size of the file for a script and the rows in it.
pub open spec fn file_export(sql: Seq<char>, rows: u64) -> DatabaseSqlExport {
    DatabaseSqlExport {
        tables: if rows > 0 {
            1
        } else {
            0
        },
        rows,
        bytes: encode_utf8(file_text(sql)).len() as u64,
    }
}

/// A file that is ready to be written.
#[derive(Debug)]
pub struct SqlFile {
    pub steps: Vec<DumpStep>,
    pub export: DatabaseSqlExport,
}

fn query_file(sql: &str, rows: u64) -> (r: Result<(String, DatabaseSqlExport), String>)
    ensures
        if trim(sql@).len() == 0 {
            r is Err && r->Err_0@ == "查询结果为空，无法导出 SQL 文件"@
        } else {
            &&& r is Ok
            &&& (r->Ok_0).0@ == file_text(sql@)
            &&& (r->Ok_0).1 == file_export(sql@, rows)
        },
{
    if is_blank(sql) {
        return Err("查询结果为空，无法导出 SQL 文件".to_owned());
    }
    let chars = to_chars(sql);
    let mut text: String = sql.to_owned();
    if !(chars.len() > 0 && chars[chars.len() - 1] == '\n') {
        text.append("\n");
    }
    let bytes: u64 = text.as_str().as_bytes().len() as u64;
    let export = DatabaseSqlExport {
        tables: if rows > 0 {
            1
        } else {
            0
        },
        rows,
        bytes,
    };
    Ok((text, export))
}

/// The file for the script of a query result.
pub fn write_query_sql_file(sql: &str, rows: u64) -> (r: Result<SqlFile, String>)
    ensures
        if trim(sql@).len() == 0 {
            r is Err && r->Err_0@ == "查询结果为空，无法导出 SQL 文件"@
        } else {
            &&& r is Ok
            &&& step_views(r->Ok_0.steps@) == seq![StepView::Write(file_text(sql@))]
            &&& r->Ok_0.export == file_export(sql@, rows)
        },
{
    match query_file(sql, rows) {
        Err(message) => Err(message),
        Ok((text, export)) => {
            let mut steps: Vec<DumpStep> = Vec::new();
            steps.push(DumpStep::Write(text));
            assert(step_views(steps@) =~= seq![StepView::Write(file_text(sql@))]);
            Ok(SqlFile { steps, export })
        },
    }
}

/// The file for the script of a query result, with a report before and behind it.
pub fn write_query_sql_file_with_progress(sql: &str, rows: u64) -> (r: Result<SqlFile, String>)
    ensures
        if trim(sql@).len() == 0 {
            r is Err && r->Err_0@ == "查询结果为空，无法导出 SQL 文件"@
        } else {
            &&& r is Ok
            &&& step_views(r->Ok_0.steps@) == seq![
                StepView::Report { current: 0, total: 1, done: None },
                StepView::Write(file_text(sql@)),
                StepView::Report { current: 1, total: 1, done: None },
            ]
            &&& r->Ok_0.export == file_export(sql@, rows)
        },
{
    match query_file(sql, rows) {
        Err(message) => Err(message),
        Ok((text, export)) => {
            let mut steps: Vec<DumpStep> = Vec::new();
            steps.push(DumpStep::Report { current: 0, total: 1, done: None });
            steps.push(DumpStep::Write(text));
            steps.push(DumpStep::Report { current: 1, total: 1, done: None });
            assert(step_views(steps@) =~= seq![
                StepView::Report { current: 0, total: 1, done: None },
                StepView::Write(file_text(sql@)),
                StepView::Report { current: 1, total: 1, done: None },
            ]);
            Ok(SqlFile { steps, export })
        },
    }
}

/// A cell of a CSV file, given the text that JSON has for its value.
pub open spec fn csv_cell(value: JsonView, written: Seq<char>) -> Seq<char> {
    match value {
        JsonView::Null => Seq::empty(),
        JsonView::Text(text) => text,
        _ => written,
    }
}

/// A cell of a CSV file, given the text that JSON has for its value.
pub fn csv_text(value: &Json, written: &str) -> (r: String)
    ensures
        r@ == csv_cell(value.view(), written@),
{
    match value {
        Json::Null => String::new(),
        Json::Text(text) => text.clone(),
        _ => written.to_owned(),
    }
}

/// A cell between quotes.
pub open spec fn csv_quoted(cell: Seq<char>) -> Seq<char> {
    "\""@ + replace_char(cell, '"', "\"\""@) + "\""@
}

/// The cells between quotes.
pub open spec fn csv_cells(cells: Seq<Seq<char>>) -> Seq<Seq<char>> {
    cells.map_values(|cell: Seq<char>| csv_quoted(cell))
}

/// A line of a CSV file.
pub open spec fn csv_line(cells: Seq<Seq<char>>) -> Seq<char> {
    join(csv_cells(cells), ","@) + "\n"@
}

fn push_csv_line(out: &mut String, cells: &[String])
    ensures
        final(out)@ == old(out)@ + csv_line(views(cells@)),
{
    let ghost all = csv_cells(views(cells@));
    let mut quoted: Vec<String> = Vec::new();
    let mut i: usize = 0;
    assert(views(quoted@) =~= all.take(0));
    while i < cells.len()
        invariant
            i <= cells@.len(),
            all == csv_cells(views(cells@)),
            views(quoted@) == all.take(i as int),
        decreases cells@.len() - i,
    {
        let mut cell: String = "\"".to_owned();
        cell.append(replaced(cells[i].as_str(), '"', "\"\"").as_str());
        cell.append("\"");
        push_text(&mut quoted, cell);
        assert(views(quoted@) =~= all.take(i + 1));
        i = i + 1;
    }
    assert(all.take(i as int) =~= all);
    out.append(joined(quoted.as_slice(), ",").as_str());
    out.append("\n");
    assert(out@ =~= old(out)@ + csv_line(views(cells@)));
}

/// The cells of each row.
pub open spec fn cell_rows(rows: Seq<Vec<String>>) -> Seq<Seq<Seq<char>>> {
    rows.map_values(|row: Vec<String>| views(row@))
}

/// The lines of a CSV file.
pub open spec fn csv_lines(rows: Seq<Seq<Seq<char>>>) -> Seq<char>
    decreases rows.len(),
{
    if rows.len() == 0 {
        Seq::empty()
    } else {
        csv_lines(rows.drop_last()) + csv_line(rows.last())
    }
}

/// A result as a CSV file: the names of the columns, then the rows.
pub fn export_csv(columns: &[String], rows: &[Vec<String>]) -> (r: String)
    ensures
        r@ == csv_line(views(columns@)) + csv_lines(cell_rows(rows@)),
{
    let mut out: String = String::new();
    push_csv_line(&mut out, columns);
    let ghost all = cell_rows(rows@);
    let ghost head = csv_line(views(columns@));
    assert(out@ =~= head + csv_lines(all.take(0)));
    let mut i: usize = 0;
    while i < rows.len()
        invariant
            i <= rows@.len(),
            all == cell_rows(rows@),
            out@ == head + csv_lines(all.take(i as int)),
        decreases rows@.len() - i,
    {
        push_csv_line(&mut out, rows[i].as_slice());
        proof {
            assert(all.take(i + 1).drop_last() =~= all.take(i as int));
            assert(out@ =~= head + csv_lines(all.take(i + 1)));
        }
        i = i + 1;
    }
    assert(all.take(i as int) =~= all);
    out
}

/// A column of a table as its users see it.
#[derive(Debug)]
pub struct DatabaseColumnInfo {
    pub name: String,
    pub data_type: String,
    pub not_null: bool,
    pub primary_key: bool,
    pub default_value: Option<String>,
    pub comment: Option<String>,
}

/// An index of a table as its users see it.
#[derive(Debug)]
pub struct DatabaseIndexInfo {
    pub name: String,
    pub unique: bool,
}

/// A foreign key of a table as its users see it.
#[derive(Debug)]
pub struct DatabaseForeignKeyInfo {
    pub column: String,
    pub references_table: String,
    pub references_column: String,
    pub on_update: String,
    pub on_delete: String,
}

/// The text at a place of a row.
pub open spec fn item_text(row: Seq<JsonView>, place: int) -> Option<Seq<char>> {
    if 0 <= place < row.len() {
        match row[place] {
            JsonView::Text(text) => Some(text),
            _ => None,
        }
    } else {
        None
    }
}

fn text_item(row: &[Json], place: usize) -> (r: Option<String>)
    ensures
        opt_view(r) == item_text(list_view(row@), place as int),
{
    proof {
        lemma_list_view(row@);
    }
    if place < row.len() {
        assert(list_view(row@)[place as int] == row@[place as int].view());
        match &row[place] {
            Json::Text(text) => Some(text.clone()),
            _ => None,
        }
    } else {
        None
    }
}

/// The column that a row of a server describes.
pub open spec fn is_column_info(column: DatabaseColumnInfo, row: Seq<JsonView>) -> bool {
    &&& column.name@ == (match item_text(row, 0) {
        Some(text) => text,
        None => Seq::empty(),
    })
    &&& column.data_type@ == (match item_text(row, 1) {
        Some(text) => text,
        None => Seq::empty(),
    })
    &&& column.not_null == (item_text(row, 2) == Some("NO"@))
    &&& !column.primary_key
    &&& opt_view(column.default_value) == item_text(row, 3)
    &&& opt_view(column.comment) == (match item_text(row, 4) {
        Some(text) => if text.len() > 0 {
            Some(text)
        } else {
            None
        },
        None => None,
    })
}

/// The column that a row of a server describes.
pub fn column_info(row: &[Json]) -> (r: DatabaseColumnInfo)
    ensures
        is_column_info(r, list_view(row@)),
{
    let name = match text_item(row, 0) {
        Some(text) => text,
        None => String::new(),
    };
    let data_type = match text_item(row, 1) {
        Some(text) => text,
        None => String::new(),
    };
    let not_null = match text_item(row, 2) {
        Some(text) => same(text.as_str(), "NO"),
        None => false,
    };
    let comment = match text_item(row, 4) {
        Some(text) => if to_chars(text.as_str()).len() > 0 {
            Some(text)
        } else {
            None
        },
        None => None,
    };
    DatabaseColumnInfo {
        name,
        data_type,
        not_null,
        primary_key: false,
        default_value: text_item(row, 3),
        comment,
    }
}

/// The index that a row of a server describes; nothing where the row has no name.
pub fn index_info(row: &[Json]) -> (r: Option<DatabaseIndexInfo>)
    ensures
        match item_text(list_view(row@), 0) {
            Some(name) => r is Some && r->0.name@ == name && r->0.unique == (item_text(
                list_view(row@),
                1,
            ) == Some("1"@)),
            None => r is None,
        },
{
    match text_item(row, 0) {
        Some(name) => {
            let unique = match text_item(row, 1) {
                Some(text) => same(text.as_str(), "1"),
                None => false,
            };
            Some(DatabaseIndexInfo { name, unique })
        },
        None => None,
    }
}

/// The texts in the first place of the rows that have one.
pub open spec fn first_items(rows: Seq<Seq<JsonView>>) -> Seq<Seq<char>>
    decreases rows.len(),
{
    if rows.len() == 0 {
        Seq::empty()
    } else {
        let rest = first_items(rows.drop_last());
        match item_text(rows.last(), 0) {
            Some(text) => rest.push(text),
            None => rest,
        }
    }
}

/// The names of the tables that the rows of a server list.
pub fn table_names(rows: &[Vec<Json>]) -> (r: Vec<String>)
    ensures
        views(r@) == first_items(row_views(rows@)),
{
    let ghost all = row_views(rows@);
    let mut r: Vec<String> = Vec::new();
    let mut i: usize = 0;
    assert(views(r@) =~= first_items(all.take(0)));
    while i < rows.len()
        invariant
            i <= rows@.len(),
            all == row_views(rows@),
            views(r@) == first_items(all.take(i as int)),
        decreases rows@.len() - i,
    {
        proof {
            assert(all.take(i + 1).drop_last() =~= all.take(i as int));
        }
        match text_item(rows[i].as_slice(), 0) {
            Some(text) => push_text(&mut r, text),
            None => {},
        }
        i = i + 1;
    }
    assert(all.take(i as int) =~= all);
    r
}

/// The fields of a row: each value under the name of its column. Of columns with the same name the
/// last one counts, and values without a column are left out.
pub open spec fn row_fields(columns: Seq<Seq<char>>, row: Seq<JsonView>) -> Seq<
    (Seq<char>, JsonView),
>
    decreases row.len(),
{
    if row.len() == 0 {
        Seq::empty()
    } else {
        let rest = row_fields(columns, row.drop_last());
        let place = row.len() - 1;
        if place < columns.len() {
            put(rest, columns[place], row.last())
        } else {
            rest
        }
    }
}

/// A row as an object.
pub fn row_object(columns: &[String], row: &[Json]) -> (r: Json)
    ensures
        r.view() == JsonView::Object(row_fields(views(columns@), list_view(row@))),
{
    let ghost names = views(columns@);
    let ghost all = list_view(row@);
    proof {
        lemma_list_view(row@);
    }
    let mut fields: Vec<(String, Json)> = Vec::new();
    let mut i: usize = 0;
    while i < row.len()
        invariant
            i <= row@.len(),
            names == views(columns@),
            all == list_view(row@),
            all.len() == row@.len(),
            forall|k: int| 0 <= k < row@.len() ==> all[k] == #[trigger] row@[k].view(),
            fields_view(fields@) == row_fields(names, all.take(i as int)),
        decreases row@.len() - i,
    {
        proof {
            assert(all.take(i + 1).drop_last() =~= all.take(i as int));
            assert(all.take(i + 1).last() == row@[i as int].view());
        }
        if i < columns.len() {
            put_field(&mut fields, columns[i].as_str(), copy_json(&row[i]));
        }
        i = i + 1;
    }
    assert(all.take(i as int) =~= all);
    Json::Object(fields)
}

/// The rows of a result as objects.
pub fn export_json(columns: &[String], rows: &[Vec<Json>]) -> (r: Json)
    ensures
        r.view() is List,
        r.view()->List_0.len() == rows@.len(),
        forall|i: int|
            0 <= i < rows@.len() ==> #[trigger] r.view()->List_0[i] == JsonView::Object(
                row_fields(views(columns@), list_view(rows@[i]@)),
            ),
{
    let mut list: Vec<Json> = Vec::new();
    let mut i: usize = 0;
    while i < rows.len()
        invariant
            i <= rows@.len(),
            list@.len() == i,
            forall|j: int|
                0 <= j < i ==> (#[trigger] list@[j]).view() == JsonView::Object(
                    row_fields(views(columns@), list_view(rows@[j]@)),
                ),
        decreases rows@.len() - i,
    {
        list.push(row_object(columns, rows[i].as_slice()));
        i = i + 1;
    }
    proof {
        lemma_list_view(list@);
        assert forall|i: int| 0 <= i < rows@.len() implies #[trigger] list_view(list@)[i]
            == JsonView::Object(row_fields(views(columns@), list_view(rows@[i]@))) by {
            assert(list@[i].view() == list_view(list@)[i]);
        }
    }
    Json::List(list)
}

/// A server is reached under the port that was given, else under the usual one of its kind, with the
/// given user and password; a database is named only where one was.
pub proof fn law_servers_are_reached_as_configured(endpoint: NetworkEndpoint, config: ConfigView)
    requires
        is_endpoint_of(endpoint, config),
    ensures
        config.host == Some(endpoint.host@),
        config.port matches Some(port) ==> endpoint.port == port,
        config.port is None && config.driver == DatabaseDriver::Postgres ==> endpoint.port == 5432,
        config.port is None && (config.driver == DatabaseDriver::Mysql || config.driver
            == DatabaseDriver::Mariadb) ==> endpoint.port == 3306,
        config.username matches Some(user) ==> endpoint.user@ == user,
        config.username is None ==> endpoint.user@.len() == 0,
        opt_view(endpoint.password) == config.password,
        config.database is None || config.database->0.len() == 0 ==> endpoint.database is None,
        config.database is Some && config.database->0.len() > 0 ==> opt_view(endpoint.database)
            == config.database,
        endpoint.ssl_enabled == config.ssl_enabled,
{
}

/// A file is opened for SQLite and a server is asked for every other driver. Nothing is opened for
/// writing unless that was asked for.
pub proof fn law_files_are_opened_as_asked(
    plan: Result<ConnectPlan, String>,
    config: ConfigView,
    read_only: bool,
)
    requires
        is_connect_plan(plan, config, read_only),
    ensures
        config.driver != DatabaseDriver::Sqlite ==> plan == Ok::<ConnectPlan, String>(
            ConnectPlan::AskServer,
        ),
        config.driver == DatabaseDriver::Sqlite ==> (plan is Ok <==> config.sqlite_path is Some),
        plan matches Ok(ConnectPlan::OpenSqlite { path, read_only: only }) ==> Some(path@)
            == config.sqlite_path && only == read_only,
{
}

/// A connection that was made is found under its id, ready, with what it needs to be used; the
/// others stay as they were, and no id is used twice.
pub proof fn law_connections_are_found_by_their_id(
    runtimes: Seq<RuntimeView>,
    id: Seq<char>,
    config: ConfigView,
    k: int,
)
    requires
        distinct_runtimes(runtimes),
        0 <= k < runtimes.len(),
        runtimes[k].id != id,
    ensures
        ({
            let after = with_runtime(runtimes, connected(id, config));
            let made = connected(id, config);
            &&& distinct_runtimes(after)
            &&& after.contains(made)
            &&& after[k] == runtimes[k]
            &&& made.id == id && made.driver == config.driver && made.error is None
            &&& made.status == DatabaseRuntimeStatus::Ready
            &&& config.driver == DatabaseDriver::Sqlite ==> made.handle == Some(HandleView::Sqlite)
            &&& config.driver != DatabaseDriver::Sqlite ==> made.handle == Some(
                HandleView::Network(config),
            )
        }),
{
    let made = connected(id, config);
    let after = with_runtime(runtimes, made);
    match runtime_named(runtimes, id) {
        Some(i) => {
            assert(after[i] == made);
            assert forall|a: int, b: int| 0 <= a < b < after.len() implies #[trigger] after[a].id
                != #[trigger] after[b].id by {
                assert(runtimes[a].id != runtimes[b].id);
            }
        },
        None => {
            assert(after[runtimes.len() as int] == made);
            assert forall|a: int, b: int| 0 <= a < b < after.len() implies #[trigger] after[a].id
                != #[trigger] after[b].id by {
                assert(runtimes[a].id != id);
                if b < runtimes.len() {
                    assert(runtimes[a].id != runtimes[b].id);
                }
            }
        },
    }
}

/// A connection that was cut has no way to be used any more; what it was stays known.
pub proof fn law_cut_connections_are_of_no_use(runtime: RuntimeView)
    ensures
        ({
            let cut = disconnected(runtime);
            &&& cut.handle is None
            &&& cut.status == DatabaseRuntimeStatus::Disconnected
            &&& cut.id == runtime.id && cut.driver == runtime.driver && cut.error == runtime.error
            &&& disconnected(cut) == cut
        }),
{
}

/// A value of a SQLite database is shown without loss where it can be: nothing as nothing, whole
/// numbers in full as text, texts up to 65536 bytes; of bytes only the number is shown.
pub proof fn law_sqlite_values_are_shown(n: int, bits: u64, bytes: Seq<u8>)
    ensures
        sqlite_json(SqlValueView::Null) == JsonView::Null,
        forall|text: Seq<char>|
            (#[trigger] sqlite_json(SqlValueView::Real { bits, text })) == real_json(bits),
        sqlite_json(SqlValueView::Integer(n)) == JsonView::Text(signed_decimal(n)),
        bytes.len() <= 65536 ==> sqlite_json(SqlValueView::Text(bytes)) == JsonView::Text(
            lossy_utf8(bytes),
        ),
        bytes.len() > 65536 ==> sqlite_json(SqlValueView::Text(bytes)) == JsonView::Text(
            lossy_utf8(bytes.take(65536)),
        ),
        sqlite_json(SqlValueView::Blob(bytes)) == JsonView::Object(
            seq![("bytes"@, JsonView::Number(JsonNumber::Whole(bytes.len() as u64)))],
        ),
{
}

/// An imported value keeps what it is: nothing stays nothing, yes and no become one and zero, whole
/// numbers stay whole as far as they fit, and lists and objects are written out.
pub proof fn law_imported_values_keep_what_they_are(
    n: u64,
    m: i64,
    bits: u64,
    text: Seq<char>,
    items: Seq<JsonView>,
    fields: Seq<(Seq<char>, JsonView)>,
)
    ensures
        import_param(JsonView::Null) == ImportParam::Null,
        import_param(JsonView::Bool(true)) == ImportParam::Integer(1),
        import_param(JsonView::Bool(false)) == ImportParam::Integer(0),
        n <= i64::MAX ==> import_param(JsonView::Number(JsonNumber::Whole(n)))
            == ImportParam::Integer(n as i64),
        n > i64::MAX ==> import_param(JsonView::Number(JsonNumber::Whole(n)))
            == ImportParam::RealOf(n),
        import_param(JsonView::Number(JsonNumber::Negative(m))) == ImportParam::Integer(m),
        import_param(JsonView::Number(JsonNumber::Real(bits))) == ImportParam::Real(bits),
        import_param(JsonView::Text(text)) == ImportParam::Text,
        import_param(JsonView::List(items)) == ImportParam::Written,
        import_param(JsonView::Object(fields)) == ImportParam::Written,
{
}

/// A file of statements ends in a line feed: one is added where there is none, and nothing else
/// changes. The export tells how many bytes the file has, and one table where rows came.
pub proof fn law_files_end_in_a_line_feed(sql: Seq<char>, rows: u64)
    ensures
        ({
            let text = file_text(sql);
            &&& text.len() > 0 && text.last() == '\n'
            &&& sql.len() > 0 && sql.last() == '\n' ==> text == sql
            &&& sql.len() == 0 || sql.last() != '\n' ==> text == sql.push('\n')
            &&& file_export(sql, rows).rows == rows
            &&& file_export(sql, rows).bytes == encode_utf8(text).len() as u64
            &&& rows > 0 ==> file_export(sql, rows).tables == 1
            &&& rows == 0 ==> file_export(sql, rows).tables == 0
        }),
{
    reveal_strlit("\n");
    assert(sql + "\n"@ =~= sql.push('\n'));
}

proof fn lemma_csv_quoted(cell: Seq<char>)
    ensures
        csv_quoted(cell) == identifier('"', cell),
{
    reveal_strlit("\"");
    reveal_strlit("\"\"");
    assert("\""@ =~= seq!['"']);
    assert("\"\""@ =~= seq!['"', '"']);
}

/// A cell of a table of values reads back: between its marks stands the cell itself, once each
/// doubled mark is read as one.
pub proof fn law_cells_read_back(cell: Seq<char>)
    ensures
        ({
            let text = csv_quoted(cell);
            &&& text.len() >= 2 && text[0] == '"' && text.last() == '"'
            &&& unquoted(text.subrange(1, text.len() - 1), '"') == Some(cell)
        }),
{
    lemma_csv_quoted(cell);
    law_quoted_names_read_back(cell, '"');
}

/// A line of a table of values reads back: two rows with cells that are written as the same line are
/// the same.
pub proof fn law_lines_of_cells_read_back(one: Seq<Seq<char>>, other: Seq<Seq<char>>)
    requires
        one.len() > 0,
        other.len() > 0,
        csv_line(one) == csv_line(other),
    ensures
        one == other,
    decreases one.len(),
{
    let a = csv_cells(one);
    let b = csv_cells(other);
    reveal_strlit(",");
    reveal_strlit("\n");
    lemma_csv_quoted(one[0]);
    lemma_csv_quoted(other[0]);
    let behind = lemma_line_front(one);
    let other_behind = lemma_line_front(other);
    law_quoted_names_show_their_end(one[0], other[0], '"', behind, other_behind);
    if one.len() == 1 {
        assert(behind.len() == 1 && behind[0] == '\n');
        if other.len() > 1 {
            assert(other_behind[0] == ',');
        }
        assert(one =~= other);
    } else {
        assert(behind[0] == ',');
        if other.len() == 1 {
            assert(other_behind[0] == '\n');
        }
        assert(behind.skip(1) =~= csv_line(one.skip(1)));
        assert(other_behind.skip(1) =~= csv_line(other.skip(1)));
        law_lines_of_cells_read_back(one.skip(1), other.skip(1));
        assert forall|i: int| 0 <= i < one.len() implies one[i] == other[i] by {
            if i > 0 {
                assert(one.skip(1)[i - 1] == other.skip(1)[i - 1]);
            }
        }
        assert(one.skip(1).len() == other.skip(1).len());
        assert(one =~= other);
    }
}

proof fn lemma_line_front(cells: Seq<Seq<char>>) -> (behind: Seq<char>)
    requires
        cells.len() > 0,
    ensures
        csv_line(cells) == csv_quoted(cells[0]) + behind,
        behind == (if cells.len() == 1 {
            "\n"@
        } else {
            ","@ + csv_line(cells.skip(1))
        }),
{
    let quoted = csv_cells(cells);
    if cells.len() == 1 {
        assert(join(quoted, ","@) == quoted[0]);
        "\n"@
    } else {
        lemma_join_front(quoted, ","@);
        assert(quoted.skip(1) =~= csv_cells(cells.skip(1)));
        let behind = ","@ + csv_line(cells.skip(1));
        assert(csv_line(cells) =~= csv_quoted(cells[0]) + behind);
        behind
    }
}

/// A cell shows a text as it is, and nothing as nothing.
pub proof fn law_cells_show_their_value(text: Seq<char>, value: JsonView, written: Seq<char>)
    ensures
        csv_cell(JsonView::Text(text), written) == text,
        csv_cell(JsonView::Null, written).len() == 0,
        !(value is Text) && !(value is Null) ==> csv_cell(value, written) == written,
{
}

/// A column is described as the server says: `NO` means that it takes no `NULL`, and an empty comment
/// is none.
pub proof fn law_columns_are_described(column: DatabaseColumnInfo, row: Seq<JsonView>)
    requires
        row.len() >= 5,
        is_column_info(column, row),
    ensures
        row[0] matches JsonView::Text(name) ==> column.name@ == name,
        row[1] matches JsonView::Text(data_type) ==> column.data_type@ == data_type,
        column.not_null <==> row[2] == JsonView::Text("NO"@),
        row[3] matches JsonView::Text(default) ==> opt_view(column.default_value) == Some(default),
        !(row[3] is Text) ==> column.default_value is None,
        row[4] matches JsonView::Text(comment) ==> (comment.len() > 0 ==> opt_view(column.comment)
            == Some(comment)) && (comment.len() == 0 ==> column.comment is None),
        !(row[4] is Text) ==> column.comment is None,
{
}

/// The tables that are listed are the texts in the first place of the rows, in their order; a row
/// without one is left out.
pub proof fn law_tables_are_listed_by_their_name(rows: Seq<Seq<JsonView>>, row: Seq<JsonView>)
    ensures
        row.len() > 0 && row[0] is Text ==> first_items(rows.push(row)) == first_items(rows).push(
            row[0]->Text_0,
        ),
        row.len() == 0 || !(row[0] is Text) ==> first_items(rows.push(row)) == first_items(rows),
        first_items(Seq::empty()).len() == 0,
{
    assert(rows.push(row).drop_last() =~= rows);
}

/// A row as an object holds the last value of each column under its name.
pub proof fn law_rows_are_objects_by_column(columns: Seq<Seq<char>>, row: Seq<JsonView>, i: int)
    requires
        0 <= i < row.len() <= columns.len(),
        forall|k: int| i < k < row.len() ==> (#[trigger] columns[k]) != columns[i],
    ensures
        JsonView::Object(row_fields(columns, row)).get(columns[i]) == Some(row[i]),
    decreases row.len(),
{
    let front = row.drop_last();
    let place = row.len() - 1;
    if i == place {
        lemma_put_is_found(row_fields(columns, front), columns[place], row.last());
    } else {
        assert(front[i] == row[i]);
        law_rows_are_objects_by_column(columns, front, i);
        assert(columns[place] != columns[i]);
        lemma_row_fields_in_order(columns, front);
        law_put_changes_one_field(row_fields(columns, front), columns[place], row.last());
    }
}

proof fn lemma_row_fields_in_order(columns: Seq<Seq<char>>, row: Seq<JsonView>)
    ensures
        names_in_order(row_fields(columns, row)),
    decreases row.len(),
{
    if row.len() > 0 {
        lemma_row_fields_in_order(columns, row.drop_last());
        if row.len() - 1 < columns.len() {
            law_put_changes_one_field(
                row_fields(columns, row.drop_last()),
                columns[row.len() - 1],
                row.last(),
            );
        }
    }
}

/// A server is reached exactly where a host is given and the driver is one of a server.
pub proof fn law_only_servers_have_an_endpoint(
    config: &DatabaseConnectionConfig,
    r: Result<NetworkEndpoint, String>,
)
    requires
        network_endpoint.ensures((config,), r),
    ensures
        r is Ok <==> config.host is Some && config.driver != DatabaseDriver::Sqlite,
        r matches Ok(endpoint) ==> is_endpoint_of(endpoint, config@),
{
}

/// Trying a connection never writes: a file is opened for reading alone, whatever the configuration
/// says; using it opens the file as configured.
pub proof fn law_trying_a_connection_never_writes(
    config: &DatabaseConnectionConfig,
    tried: Result<ConnectPlan, String>,
    used: Result<ConnectPlan, String>,
)
    requires
        test_connection.ensures((config,), tried),
        connect_plan.ensures((config,), used),
    ensures
        tried matches Ok(ConnectPlan::OpenSqlite { read_only, .. }) ==> read_only,
        used matches Ok(ConnectPlan::OpenSqlite { read_only, .. }) ==> read_only
            == config.read_only,
        tried is Ok <==> used is Ok,
{
}

/// A script is taken unless it is blank; for PostgreSQL its encoding is set first.
pub proof fn law_scripts_are_run_as_they_are(
    script: &str,
    checked: Result<(), String>,
    sent: String,
)
    requires
        check_script.ensures((script,), checked),
        postgres_script.ensures((script,), sent),
    ensures
        checked is Ok <==> trim(script@).len() > 0,
        sent@ == "SET client_encoding = 'UTF8';\n"@ + script@,
{
}

/// The rows of a query are written to a file unless there is nothing to write.
pub proof fn law_query_files_hold_the_query(sql: &str, rows: u64, r: Result<SqlFile, String>)
    requires
        write_query_sql_file.ensures((sql, rows), r),
    ensures
        r is Ok <==> trim(sql@).len() > 0,
        r matches Ok(file) ==> file.export.rows == rows && file.steps@.len() == 1
            && file.steps@[0].view() == StepView::Write(file_text(sql@)),
{
    if r is Ok {
        let steps = r->Ok_0.steps@;
        assert(step_views(steps).len() == steps.len());
        assert(step_views(steps)[0] == steps[0].view());
    }
}

/// A row is added to the buffer where there is room, else it is noted that rows are missing.
pub open spec fn takes_row(before: RowBuffer, after: RowBuffer, row: Seq<JsonView>) -> bool {
    &&& after.limit == before.limit
    &&& if before.rows@.len() < before.limit {
        row_views(after.rows@) == row_views(before.rows@).push(row) && after.truncated
            == before.truncated
    } else {
        after.rows@ == before.rows@ && after.truncated
    }
}

/// A buffer never holds more rows than its limit, loses none that it took, and knows when one was
/// turned away.
pub proof fn law_buffers_know_what_they_turned_away(
    before: RowBuffer,
    after: RowBuffer,
    row: Seq<JsonView>,
)
    requires
        before.wf(),
        takes_row(before, after, row),
    ensures
        after.rows@.len() <= after.limit,
        after.limit == before.limit,
        row_views(after.rows@).take(before.rows@.len() as int) == row_views(before.rows@),
        before.rows@.len() < before.limit ==> after.rows@.len() == before.rows@.len() + 1
            && row_views(after.rows@).last() == row,
        before.rows@.len() == before.limit ==> after.truncated && after.rows@.len()
            == before.limit,
        before.truncated ==> after.truncated,
{
    let a = row_views(before.rows@);
    let b = row_views(after.rows@);
    assert(a.len() == before.rows@.len() && b.len() == after.rows@.len());
    assert(b.take(a.len() as int) =~= a);
}

/// What a message of the server changes.
pub open spec fn takes_message(
    before: PostgresReader,
    after: PostgresReader,
    message: PostgresMessage,
) -> bool {
    match message {
        PostgresMessage::Columns(names) => {
            &&& before.columns@.len() == 0 ==> after.columns@ == names@
            &&& before.columns@.len() > 0 ==> after.columns@ == before.columns@
            &&& after.buffer == before.buffer && after.affected_rows == before.affected_rows
        },
        PostgresMessage::Row(row) => {
            &&& takes_row(before.buffer, after.buffer, cells_json(row@))
            &&& after.columns@ == before.columns@ && after.affected_rows == before.affected_rows
        },
        PostgresMessage::Complete(count) => after.affected_rows == count && after.columns@
            == before.columns@ && after.buffer == before.buffer,
        PostgresMessage::Other => after == before,
    }
}

/// The columns are those of the first description, the rows come in their order, and how many rows
/// were affected is told by the last completion; nothing else of a reader changes.
pub proof fn law_messages_change_their_own_part(
    before: PostgresReader,
    after: PostgresReader,
    message: PostgresMessage,
)
    requires
        before.wf(),
        takes_message(before, after, message),
    ensures
        !(message is Columns) ==> after.columns@ == before.columns@,
        message matches PostgresMessage::Columns(names) ==> after.columns@ == (
        if before.columns@.len() == 0 {
            names@
        } else {
            before.columns@
        }),
        !(message is Complete) ==> after.affected_rows == before.affected_rows,
        message matches PostgresMessage::Complete(count) ==> after.affected_rows == count,
        !(message is Row) ==> after.buffer == before.buffer,
        message matches PostgresMessage::Row(row) ==> (before.buffer.rows@.len()
            < before.buffer.limit ==> row_views(after.buffer.rows@) == row_views(
            before.buffer.rows@,
        ).push(cells_json(row@))) && (before.buffer.rows@.len() == before.buffer.limit
            ==> after.buffer.truncated && after.buffer.rows@ == before.buffer.rows@),
{
}

/// A result counts as cut off where a row was turned away or the limit was reached; it holds the rows
/// that were taken.
pub proof fn law_results_tell_that_they_are_cut_off(
    buffer: RowBuffer,
    columns: Vec<String>,
    affected_rows: u64,
    r: DatabaseQueryResult,
)
    requires
        RowBuffer::finish.ensures((buffer, columns, affected_rows), r),
    ensures
        r.rows@ == buffer.rows@ && r.columns@ == columns@ && r.affected_rows == affected_rows,
        buffer.truncated ==> r.truncated,
        buffer.rows@.len() == buffer.limit ==> r.truncated,
        !buffer.truncated && buffer.rows@.len() < buffer.limit ==> !r.truncated,
        r.has_more is None,
{
}

/// Cells are shown as texts, and `NULL` as nothing.
pub proof fn law_cells_are_texts_or_nothing(row: Seq<Option<String>>, i: int)
    requires
        0 <= i < row.len(),
    ensures
        cells_json(row).len() == row.len(),
        row[i] matches Some(text) ==> cells_json(row)[i] == JsonView::Text(text@),
        row[i] is None ==> cells_json(row)[i] == JsonView::Null,
{
}

/// The connections once one of them was cut.
pub open spec fn after_cut(runtimes: Seq<RuntimeView>, id: Seq<char>) -> Seq<RuntimeView> {
    match runtime_named(runtimes, id) {
        Some(i) => runtimes.update(i, disconnected(runtimes[i])),
        None => runtimes,
    }
}

/// Cutting a connection leaves it in the list, without a way to use it, and leaves the others as they
/// are; cutting it again changes nothing.
pub proof fn law_cutting_leaves_the_others(runtimes: Seq<RuntimeView>, id: Seq<char>, k: int)
    requires
        distinct_runtimes(runtimes),
        0 <= k < runtimes.len(),
    ensures
        after_cut(runtimes, id).len() == runtimes.len(),
        runtimes[k].id != id ==> after_cut(runtimes, id)[k] == runtimes[k],
        runtimes[k].id == id ==> {
            let cut = after_cut(runtimes, id)[k];
            cut.handle is None && cut.status == DatabaseRuntimeStatus::Disconnected && cut.id == id
                && cut.driver == runtimes[k].driver
        },
{
    match runtime_named(runtimes, id) {
        Some(i) => {
            if runtimes[k].id == id && k != i {
                if k < i {
                    assert(runtimes[k].id != runtimes[i].id);
                } else {
                    assert(runtimes[i].id != runtimes[k].id);
                }
            }
        },
        None => {},
    }
}

/// A table of values is its head and its rows, each on its line, in their order.
pub proof fn law_rows_are_written_line_by_line(rows: Seq<Seq<Seq<char>>>, row: Seq<Seq<char>>)
    ensures
        csv_lines(rows.push(row)) == csv_lines(rows) + csv_line(row),
        csv_lines(Seq::empty()).len() == 0,
{
    assert(rows.push(row).drop_last() =~= rows);
}

/// A buffer begins empty, with room for as many rows as were asked for, held within 1 and 10000.
pub proof fn law_buffers_begin_empty(max_rows: usize, r: RowBuffer)
    requires
        RowBuffer::new.ensures((max_rows,), r),
    ensures
        r.rows@.len() == 0 && !r.truncated,
        1 <= r.limit <= 10000,
        1 <= max_rows <= 10000 ==> r.limit == max_rows,
{
}

} // verus!
