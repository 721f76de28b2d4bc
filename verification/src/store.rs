//! The trusted boundary to the sqlite store.
//!
//! The two tables are modelled as maps keyed by the `id` primary key:
//! `versions_of` gives each version row's name, `configs_of` gives each
//! config row's raw column values.  Every wrapper below runs exactly one
//! SQL statement through rusqlite, with all values bound as parameters,
//! and states over those two maps what the statement does.  Everything
//! above this module is verified against these contracts.
//!
//! The model assumes what the tool as a whole assumes: a single process
//! with a single open connection per invocation.  A second connection
//! onto the same store file could change a table behind this one's back,
//! which nothing here accounts for.

use vstd::prelude::*;

use crate::entities::Version;
use crate::error::Error;
use rusqlite::Connection;

verus! {

#[verifier::external_type_specification]
#[verifier::external_body]
pub struct ExConnection(Connection);

/// The raw column values of one row of the `configs` table.  `data` is the
/// stored text blob; decoding it into lines is the entities' verified job.
pub struct ConfigRow {
    pub id: i32,
    pub path: String,
    pub data: String,
    pub version_id: i32,
}

/// What one row of the `configs` table holds, at the specification level.
pub ghost struct StoredConfig {
    pub path: Seq<char>,
    pub data: Seq<char>,
    pub version_id: int,
}

/// The rows of the `versions` table reachable through a connection, keyed
/// by primary key; a connection whose store has no such table holds the
/// empty map.
pub uninterp spec fn versions_of(c: Connection) -> Map<int, Seq<char>>;

/// The rows of the `configs` table reachable through a connection, keyed
/// by primary key; a connection whose store has no such table holds the
/// empty map.
pub uninterp spec fn configs_of(c: Connection) -> Map<int, StoredConfig>;

/// The stored form of a raw config row.
pub open spec fn row_stored(r: ConfigRow) -> StoredConfig {
    StoredConfig { path: r.path@, data: r.data@, version_id: r.version_id as int }
}

/// `rows` lists exactly the entries of `m`, in some order: ids are
/// pairwise distinct, every row is an entry of `m`, and every entry of `m`
/// appears.
pub open spec fn version_rows_match(rows: Seq<Version>, m: Map<int, Seq<char>>) -> bool {
    &&& forall|i: int|
        0 <= i < rows.len() ==> m.contains_pair((#[trigger] rows[i]).id as int, rows[i].name@)
    &&& forall|i: int, j: int|
        0 <= i < rows.len() && 0 <= j < rows.len() && i != j ==> (#[trigger] rows[i]).id != (
        #[trigger] rows[j]).id
    &&& forall|k: int|
        #[trigger] m.dom().contains(k) ==> exists|i: int|
            0 <= i < rows.len() && (#[trigger] rows[i]).id as int == k
}

/// `rows` lists exactly the entries of `m`, in some order.
pub open spec fn config_rows_match(rows: Seq<ConfigRow>, m: Map<int, StoredConfig>) -> bool {
    &&& forall|i: int|
        0 <= i < rows.len() ==> m.contains_pair(
            (#[trigger] rows[i]).id as int,
            row_stored(rows[i]),
        )
    &&& forall|i: int, j: int|
        0 <= i < rows.len() && 0 <= j < rows.len() && i != j ==> (#[trigger] rows[i]).id != (
        #[trigger] rows[j]).id
    &&& forall|k: int|
        #[trigger] m.dom().contains(k) ==> exists|i: int|
            0 <= i < rows.len() && (#[trigger] rows[i]).id as int == k
}

/// `m` without the entries whose value is `name`.
pub open spec fn versions_without_name(m: Map<int, Seq<char>>, name: Seq<char>) -> Map<
    int,
    Seq<char>,
> {
    Map::new(|k: int| m.dom().contains(k) && m[k] != name, |k: int| m[k])
}

/// `m` without the entries whose path is `path`.
pub open spec fn configs_without_path(m: Map<int, StoredConfig>, path: Seq<char>) -> Map<
    int,
    StoredConfig,
> {
    Map::new(|k: int| m.dom().contains(k) && m[k].path != path, |k: int| m[k])
}

/// Relies on rusqlite's `Connection::execute` running one `CREATE TABLE IF
/// NOT EXISTS` statement: it never touches rows, and succeeds when the
/// table already exists.
#[verifier::external_body]
pub(crate) fn create_versions_table(c: &mut Connection) -> (r: Result<(), Error>)
    ensures
        versions_of(*final(c)) == versions_of(*old(c)),
        configs_of(*final(c)) == configs_of(*old(c)),
        r matches Err(e) ==> e == Error::Storage,
{
    let sql = "CREATE TABLE IF NOT EXISTS versions (id INTEGER PRIMARY KEY, name TEXT NOT NULL)";
    match c.execute(sql, ()) {
        Ok(_) => Ok(()),
        Err(_) => Err(Error::Storage),
    }
}

/// Relies on rusqlite's `Connection::execute` running one `CREATE TABLE IF
/// NOT EXISTS` statement: it never touches rows, and succeeds when the
/// table already exists.  `version_id` references a version's id but is
/// deliberately not declared as an enforced foreign key: deleting a
/// version leaves its configs behind with a dangling reference, and the
/// bundled sqlite would otherwise reject both that and a config created
/// before its version.
#[verifier::external_body]
pub(crate) fn create_configs_table(c: &mut Connection) -> (r: Result<(), Error>)
    ensures
        versions_of(*final(c)) == versions_of(*old(c)),
        configs_of(*final(c)) == configs_of(*old(c)),
        r matches Err(e) ==> e == Error::Storage,
{
    let sql = "CREATE TABLE IF NOT EXISTS configs (id INTEGER PRIMARY KEY, path TEXT NOT NULL, \
               data TEXT NOT NULL, version_id INTEGER NOT NULL)";
    match c.execute(sql, ()) {
        Ok(_) => Ok(()),
        Err(_) => Err(Error::Storage),
    }
}

/// Relies on rusqlite's `Connection::execute` running one parameterized
/// `INSERT`: on success exactly the given row is appended; a duplicate
/// primary key is a constraint error, and a failed statement changes
/// nothing.
#[verifier::external_body]
pub(crate) fn insert_version_row(c: &mut Connection, id: i32, name: &str) -> (r: Result<
    (),
    Error,
>)
    ensures
        match r {
            Ok(_) => !versions_of(*old(c)).dom().contains(id as int) && versions_of(*final(c))
                == versions_of(*old(c)).insert(id as int, name@) && configs_of(*final(c))
                == configs_of(*old(c)),
            Err(e) => e == Error::Storage && versions_of(*final(c)) == versions_of(*old(c))
                && configs_of(*final(c)) == configs_of(*old(c)),
        },
{
    match c.execute("INSERT INTO versions (id, name) VALUES (?1, ?2)", (id, name)) {
        Ok(_) => Ok(()),
        Err(_) => Err(Error::Storage),
    }
}

/// Relies on rusqlite's `Connection::execute` running one parameterized
/// `INSERT`: on success exactly the given row is appended; a duplicate
/// primary key is a constraint error, and a failed statement changes
/// nothing.
#[verifier::external_body]
pub(crate) fn insert_config_row(
    c: &mut Connection,
    id: i32,
    path: &str,
    data: &str,
    version_id: i32,
) -> (r: Result<(), Error>)
    ensures
        match r {
            Ok(_) => !configs_of(*old(c)).dom().contains(id as int) && configs_of(*final(c))
                == configs_of(*old(c)).insert(
                id as int,
                StoredConfig { path: path@, data: data@, version_id: version_id as int },
            ) && versions_of(*final(c)) == versions_of(*old(c)),
            Err(e) => e == Error::Storage && versions_of(*final(c)) == versions_of(*old(c))
                && configs_of(*final(c)) == configs_of(*old(c)),
        },
{
    let sql = "INSERT INTO configs (id, path, data, version_id) VALUES (?1, ?2, ?3, ?4)";
    match c.execute(sql, (id, path, data, version_id)) {
        Ok(_) => Ok(()),
        Err(_) => Err(Error::Storage),
    }
}

/// Relies on rusqlite's `Statement::query_map` over one `SELECT` without a
/// `WHERE` clause: it yields every row of the table exactly once, in an
/// order sqlite does not promise.
#[verifier::external_body]
pub(crate) fn select_version_rows(c: &Connection) -> (r: Result<Vec<Version>, Error>)
    ensures
        match r {
            Ok(rows) => version_rows_match(rows@, versions_of(*c)),
            Err(e) => e == Error::Storage,
        },
{
    let mut stmt = match c.prepare("SELECT id, name FROM versions") {
        Ok(s) => s,
        Err(_) => return Err(Error::Storage),
    };
    let rows = match stmt.query_map((), |r| Ok(Version { id: r.get(0)?, name: r.get(1)? })) {
        Ok(rows) => rows,
        Err(_) => return Err(Error::Storage),
    };
    rows.collect::<rusqlite::Result<Vec<Version>>>().map_err(|_| Error::Storage)
}

/// Relies on rusqlite's `Statement::query_map` over one `SELECT` without a
/// `WHERE` clause: it yields every row of the table exactly once, in an
/// order sqlite does not promise.
#[verifier::external_body]
pub(crate) fn select_config_rows(c: &Connection) -> (r: Result<Vec<ConfigRow>, Error>)
    ensures
        match r {
            Ok(rows) => config_rows_match(rows@, configs_of(*c)),
            Err(e) => e == Error::Storage,
        },
{
    let mut stmt = match c.prepare("SELECT id, path, data, version_id FROM configs") {
        Ok(s) => s,
        Err(_) => return Err(Error::Storage),
    };
    let rows = match stmt.query_map(
        (),
        |r| Ok(ConfigRow { id: r.get(0)?, path: r.get(1)?, data: r.get(2)?, version_id: r.get(3)? }),
    ) {
        Ok(rows) => rows,
        Err(_) => return Err(Error::Storage),
    };
    rows.collect::<rusqlite::Result<Vec<ConfigRow>>>().map_err(|_| Error::Storage)
}

/// Relies on rusqlite's `Connection::query_row` over one parameterized
/// `SELECT` by primary key: it returns the single matching row, or
/// `QueryReturnedNoRows` when the id is absent.
#[verifier::external_body]
pub(crate) fn find_version_row(c: &Connection, id: i32) -> (r: Result<Option<Version>, Error>)
    ensures
        match r {
            Ok(Some(v)) => v.id == id && versions_of(*c).contains_pair(id as int, v.name@),
            Ok(None) => !versions_of(*c).dom().contains(id as int),
            Err(e) => e == Error::Storage,
        },
{
    let sql = "SELECT id, name FROM versions WHERE id = ?1";
    match c.query_row(sql, (id,), |r| Ok(Version { id: r.get(0)?, name: r.get(1)? })) {
        Ok(v) => Ok(Some(v)),
        Err(rusqlite::Error::QueryReturnedNoRows) => Ok(None),
        Err(_) => Err(Error::Storage),
    }
}

/// Relies on rusqlite's `Connection::query_row` over one parameterized
/// `SELECT` by primary key: it returns the single matching row, or
/// `QueryReturnedNoRows` when the id is absent.
#[verifier::external_body]
pub(crate) fn find_config_row(c: &Connection, id: i32) -> (r: Result<Option<ConfigRow>, Error>)
    ensures
        match r {
            Ok(Some(row)) => row.id == id && configs_of(*c).contains_pair(
                id as int,
                row_stored(row),
            ),
            Ok(None) => !configs_of(*c).dom().contains(id as int),
            Err(e) => e == Error::Storage,
        },
{
    let sql = "SELECT id, path, data, version_id FROM configs WHERE id = ?1";
    let f = |r: &rusqlite::Row| Ok(ConfigRow {
        id: r.get(0)?,
        path: r.get(1)?,
        data: r.get(2)?,
        version_id: r.get(3)?,
    });
    match c.query_row(sql, (id,), f) {
        Ok(row) => Ok(Some(row)),
        Err(rusqlite::Error::QueryReturnedNoRows) => Ok(None),
        Err(_) => Err(Error::Storage),
    }
}

/// Relies on rusqlite's `Connection::execute` running one parameterized
/// `UPDATE ... WHERE id = ?`: it rewrites the named column of the matching
/// row and is a no-op when the id is absent.
#[verifier::external_body]
pub(crate) fn update_version_name_row(c: &mut Connection, id: i32, name: &str) -> (r: Result<
    (),
    Error,
>)
    ensures
        match r {
            Ok(_) => versions_of(*final(c)) == (if versions_of(*old(c)).dom().contains(id as int) {
                versions_of(*old(c)).insert(id as int, name@)
            } else {
                versions_of(*old(c))
            }) && configs_of(*final(c)) == configs_of(*old(c)),
            Err(e) => e == Error::Storage && versions_of(*final(c)) == versions_of(*old(c))
                && configs_of(*final(c)) == configs_of(*old(c)),
        },
{
    match c.execute("UPDATE versions SET name = ?1 WHERE id = ?2", (name, id)) {
        Ok(_) => Ok(()),
        Err(_) => Err(Error::Storage),
    }
}

/// Relies on rusqlite's `Connection::execute` running one parameterized
/// `UPDATE ... WHERE id = ?`: it rewrites the named column of the matching
/// row and is a no-op when the id is absent.
#[verifier::external_body]
pub(crate) fn update_config_path_row(c: &mut Connection, id: i32, path: &str) -> (r: Result<
    (),
    Error,
>)
    ensures
        match r {
            Ok(_) => configs_of(*final(c)) == (if configs_of(*old(c)).dom().contains(id as int) {
                configs_of(*old(c)).insert(
                    id as int,
                    StoredConfig { path: path@, ..configs_of(*old(c))[id as int] },
                )
            } else {
                configs_of(*old(c))
            }) && versions_of(*final(c)) == versions_of(*old(c)),
            Err(e) => e == Error::Storage && versions_of(*final(c)) == versions_of(*old(c))
                && configs_of(*final(c)) == configs_of(*old(c)),
        },
{
    match c.execute("UPDATE configs SET path = ?1 WHERE id = ?2", (path, id)) {
        Ok(_) => Ok(()),
        Err(_) => Err(Error::Storage),
    }
}

/// Relies on rusqlite's `Connection::execute` running one parameterized
/// `UPDATE ... WHERE id = ?`: it rewrites the named column of the matching
/// row and is a no-op when the id is absent.
#[verifier::external_body]
pub(crate) fn update_config_data_row(c: &mut Connection, id: i32, data: &str) -> (r: Result<
    (),
    Error,
>)
    ensures
        match r {
            Ok(_) => configs_of(*final(c)) == (if configs_of(*old(c)).dom().contains(id as int) {
                configs_of(*old(c)).insert(
                    id as int,
                    StoredConfig { data: data@, ..configs_of(*old(c))[id as int] },
                )
            } else {
                configs_of(*old(c))
            }) && versions_of(*final(c)) == versions_of(*old(c)),
            Err(e) => e == Error::Storage && versions_of(*final(c)) == versions_of(*old(c))
                && configs_of(*final(c)) == configs_of(*old(c)),
        },
{
    match c.execute("UPDATE configs SET data = ?1 WHERE id = ?2", (data, id)) {
        Ok(_) => Ok(()),
        Err(_) => Err(Error::Storage),
    }
}

/// Relies on rusqlite's `Connection::execute` running one parameterized
/// `UPDATE ... WHERE id = ?`: it rewrites the named column of the matching
/// row and is a no-op when the id is absent.
#[verifier::external_body]
pub(crate) fn update_config_version_row(c: &mut Connection, id: i32, version_id: i32) -> (r:
    Result<(), Error>)
    ensures
        match r {
            Ok(_) => configs_of(*final(c)) == (if configs_of(*old(c)).dom().contains(id as int) {
                configs_of(*old(c)).insert(
                    id as int,
                    StoredConfig {
                        version_id: version_id as int,
                        ..configs_of(*old(c))[id as int]
                    },
                )
            } else {
                configs_of(*old(c))
            }) && versions_of(*final(c)) == versions_of(*old(c)),
            Err(e) => e == Error::Storage && versions_of(*final(c)) == versions_of(*old(c))
                && configs_of(*final(c)) == configs_of(*old(c)),
        },
{
    match c.execute("UPDATE configs SET version_id = ?1 WHERE id = ?2", (version_id, id)) {
        Ok(_) => Ok(()),
        Err(_) => Err(Error::Storage),
    }
}

/// Relies on rusqlite's `Connection::execute` running one parameterized
/// `DELETE ... WHERE name = ?`: sqlite's `=` on `TEXT` is exact binary
/// comparison, so exactly the rows with that name leave; zero matches is
/// not an error.
#[verifier::external_body]
pub(crate) fn delete_versions_named(c: &mut Connection, name: &str) -> (r: Result<(), Error>)
    ensures
        match r {
            Ok(_) => versions_of(*final(c)) == versions_without_name(versions_of(*old(c)), name@)
                && configs_of(*final(c)) == configs_of(*old(c)),
            Err(e) => e == Error::Storage && versions_of(*final(c)) == versions_of(*old(c))
                && configs_of(*final(c)) == configs_of(*old(c)),
        },
{
    match c.execute("DELETE FROM versions WHERE name = ?1", (name,)) {
        Ok(_) => Ok(()),
        Err(_) => Err(Error::Storage),
    }
}

/// Relies on rusqlite's `Connection::execute` running one parameterized
/// `DELETE ... WHERE id = ?`: at most the row with that primary key
/// leaves; zero matches is not an error.  The key is bound at the store's
/// full integer width, so every id a row could carry is reachable.
#[verifier::external_body]
pub(crate) fn delete_config_row(c: &mut Connection, id: i64) -> (r: Result<(), Error>)
    ensures
        match r {
            Ok(_) => configs_of(*final(c)) == configs_of(*old(c)).remove(id as int) && versions_of(
                *final(c),
            ) == versions_of(*old(c)),
            Err(e) => e == Error::Storage && versions_of(*final(c)) == versions_of(*old(c))
                && configs_of(*final(c)) == configs_of(*old(c)),
        },
{
    match c.execute("DELETE FROM configs WHERE id = ?1", (id,)) {
        Ok(_) => Ok(()),
        Err(_) => Err(Error::Storage),
    }
}

/// Relies on rusqlite's `Connection::execute` running one parameterized
/// `DELETE ... WHERE path = ?`: sqlite's `=` on `TEXT` is exact binary
/// comparison, so exactly the rows with that path leave; zero matches is
/// not an error.
#[verifier::external_body]
pub(crate) fn delete_configs_at_path(c: &mut Connection, path: &str) -> (r: Result<(), Error>)
    ensures
        match r {
            Ok(_) => configs_of(*final(c)) == configs_without_path(configs_of(*old(c)), path@)
                && versions_of(*final(c)) == versions_of(*old(c)),
            Err(e) => e == Error::Storage && versions_of(*final(c)) == versions_of(*old(c))
                && configs_of(*final(c)) == configs_of(*old(c)),
        },
{
    match c.execute("DELETE FROM configs WHERE path = ?1", (path,)) {
        Ok(_) => Ok(()),
        Err(_) => Err(Error::Storage),
    }
}

} // verus!
