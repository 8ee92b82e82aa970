//! The response cache: query text to reply, kept in an SQLite table.
use crate::errors::AnidbError;
use crate::protocol::ServerReply;
use rusqlite::OptionalExtension;
use vstd::prelude::*;

verus! {

#[verifier::external_type_specification]
#[verifier::external_body]
pub struct ExConnection(rusqlite::Connection);

/// The rows of the `apicall` table of a connection's database, by query
/// text: the stored code and answer.
pub uninterp spec fn table_of(c: rusqlite::Connection) -> Map<Seq<char>, (i32, Seq<char>)>;

/// Relies on `rusqlite::Connection::open`: opens, or creates, the database file.
#[verifier::external_body]
fn sql_open(path: &str) -> (r: Result<rusqlite::Connection, rusqlite::Error>) {
    rusqlite::Connection::open(path)
}

/// Relies on `rusqlite::Connection::open_in_memory`: a fresh, empty database
/// in memory, so the table has no rows.
#[verifier::external_body]
fn sql_open_in_memory() -> (r: Result<rusqlite::Connection, rusqlite::Error>)
    ensures
        r is Ok ==> table_of(r->Ok_0) =~= Map::empty(),
{
    rusqlite::Connection::open_in_memory()
}

/// Relies on `rusqlite::Connection::execute_batch`: sets the text encoding and
/// creates the table if it is missing; rows already there stay as they are.
#[verifier::external_body]
fn sql_create_table(conn: &mut rusqlite::Connection) -> (r: Result<(), rusqlite::Error>)
    ensures
        r is Ok ==> table_of(*final(conn)) == table_of(*old(conn)),
        r is Err ==> table_of(*final(conn)) == table_of(*old(conn)),
{
    conn.execute_batch(
        "PRAGMA encoding=\"UTF-8\";
         CREATE TABLE IF NOT EXISTS apicall (
             query TEXT PRIMARY KEY,
             code INTEGER NOT NULL,
             answer TEXT NOT NULL,
             time_created INTEGER NOT NULL
         );",
    )
}

/// Relies on `rusqlite::Connection::execute` with an `INSERT OR REPLACE` of one
/// row: on success the row for `query` holds `code` and `answer`, the other
/// rows are untouched; a failed statement changes nothing.
#[verifier::external_body]
fn sql_store(
    conn: &mut rusqlite::Connection,
    query: &str,
    code: i32,
    answer: &str,
    time: i64,
) -> (r: Result<usize, rusqlite::Error>)
    ensures
        r is Ok ==> table_of(*final(conn)) == table_of(*old(conn)).insert(
            query@,
            (code, answer@),
        ),
        r is Err ==> table_of(*final(conn)) == table_of(*old(conn)),
{
    conn.execute(
        "INSERT OR REPLACE INTO apicall (query, code, answer, time_created) VALUES (?1, ?2, ?3, ?4)",
        (query, code, answer, time),
    )
}

/// Relies on `rusqlite::Connection::query_row` with `OptionalExtension::optional`
/// on a `SELECT` by primary key: the code and answer of the row for `query`,
/// or `None` when there is no such row.
#[verifier::external_body]
fn sql_lookup(conn: &rusqlite::Connection, query: &str) -> (r: Result<
    Option<(i32, String)>,
    rusqlite::Error,
>)
    ensures
        r matches Ok(Some(p)) ==> table_of(*conn).contains_key(query@) && table_of(*conn)[query@]
            == (p.0, p.1@),
        r matches Ok(None) ==> !table_of(*conn).contains_key(query@),
{
    conn.query_row(
        "SELECT code, answer FROM apicall WHERE query = ?1",
        (query,),
        |row| Ok((row.get(0)?, row.get(1)?)),
    ).optional()
}

/// Relies on `std::time::SystemTime::now`: whole seconds since the Unix
/// epoch; nothing is assumed of the value.
#[verifier::external_body]
fn now() -> (r: i64) {
    match std::time::SystemTime::now().duration_since(std::time::UNIX_EPOCH) {
        Ok(d) => d.as_secs() as i64,
        Err(_) => 0,
    }
}

pub struct Cache {
    conn: rusqlite::Connection,
}

impl Cache {
    /// The stored replies: query text to code and answer.
    pub closed spec fn entries(&self) -> Map<Seq<char>, (i32, Seq<char>)> {
        table_of(self.conn)
    }

    /// Opens (or creates) the cache database at `db_file` and makes sure its
    /// table exists. What it holds then is whatever the file held.
    pub fn new(db_file: &str) -> (r: Result<Cache, AnidbError>)
        ensures
            r matches Err(e) ==> e is SqliteError,
    {
        match sql_open(db_file) {
            Ok(conn) => Cache::with_schema(conn),
            Err(e) => Err(AnidbError::SqliteError(e)),
        }
    }

    /// An empty cache that lives in memory only, for one process.
    pub fn in_memory() -> (r: Result<Cache, AnidbError>)
        ensures
            r matches Err(e) ==> e is SqliteError,
            r matches Ok(c) ==> c.entries() == Map::<Seq<char>, (i32, Seq<char>)>::empty(),
    {
        match sql_open_in_memory() {
            Ok(conn) => Cache::with_schema(conn),
            Err(e) => Err(AnidbError::SqliteError(e)),
        }
    }

    fn with_schema(conn: rusqlite::Connection) -> (r: Result<Cache, AnidbError>)
        ensures
            r matches Err(e) ==> e is SqliteError,
            r matches Ok(c) ==> c.entries() == table_of(conn),
    {
        let mut conn = conn;
        match sql_create_table(&mut conn) {
            Ok(()) => Ok(Cache { conn }),
            Err(e) => Err(AnidbError::SqliteError(e)),
        }
    }

    /// The stored reply for `query`; `Ok(None)` when there is none.
    pub fn get(&self, query: &str) -> (r: Result<Option<ServerReply>, AnidbError>)
        ensures
            r matches Err(e) ==> e is SqliteError,
            r matches Ok(Some(rep)) ==> self.entries().contains_key(query@) && self.entries()[query@]
                == (rep.code, rep.data@),
            r matches Ok(None) ==> !self.entries().contains_key(query@),
    {
        match sql_lookup(&self.conn, query) {
            Ok(Some((code, data))) => Ok(Some(ServerReply { code, data })),
            Ok(None) => Ok(None),
            Err(e) => Err(AnidbError::SqliteError(e)),
        }
    }

    /// Stores `reply` under `query`, replacing an earlier entry, with the
    /// current time as its creation time. On failure nothing changes.
    pub fn put(&mut self, query: &str, reply: &ServerReply) -> (r: Result<(), AnidbError>)
        ensures
            r matches Err(e) ==> e is SqliteError,
            r is Ok ==> final(self).entries() == old(self).entries().insert(
                query@,
                (reply.code, reply.data@),
            ),
            r is Err ==> final(self).entries() == old(self).entries(),
    {
        let time = now();
        match sql_store(&mut self.conn, query, reply.code, reply.data.as_str(), time) {
            Ok(_) => Ok(()),
            Err(e) => Err(AnidbError::SqliteError(e)),
        }
    }
}

/// The cache writes through: right after a successful `put(k, v)`, the
/// entries hold `v` under `k`, so `get(k)` can only return `v` (or fail).
pub proof fn lemma_write_through(
    m: Map<Seq<char>, (i32, Seq<char>)>,
    k: Seq<char>,
    v: (i32, Seq<char>),
)
    ensures
        m.insert(k, v).contains_key(k),
        m.insert(k, v)[k] == v,
{
}

} // verus!
