use vstd::prelude::*;
use rusqlite::Connection;
use crate::query::{
    descending, lemma_filter_exact, lemma_top_n_ordered, run_query, sort_by_score, take_up_to, with_version, Query};
use crate::record::{
    records_from_rows, records_of, row_fits, row_from_record, rows_fit, Highscore, StoreError,
    StoredRow,
};

verus! {

#[verifier::external_type_specification]
#[verifier::external_body]
pub struct ExConnection(rusqlite::Connection);

#[verifier::external_type_specification]
#[verifier::external_body]
pub struct ExSqlError(rusqlite::Error);

/// The table and its three required columns; creating it is a no-op when it
/// already exists.
const CREATE_TABLE: &'static str = "CREATE TABLE IF NOT EXISTS highscores (
    version TEXT NOT NULL,
    score   INTEGER NOT NULL,
    name    TEXT NOT NULL
)";

const INSERT_ROW: &'static str = "INSERT INTO highscores (score, version, name) VALUES (?1, ?2, ?3)";

const SELECT_ROWS: &'static str = "SELECT version, score, name FROM highscores";

/// How many records the leaderboard of a version shows.
pub const TOP_COUNT: usize = 10;

/// Relies on `rusqlite::Connection::open`: opens the database file at `path`,
/// creating it when missing. Whether it succeeds depends on the file system.
#[verifier::external_body]
fn open_connection(path: &str) -> (r: Result<Connection, rusqlite::Error>) {
    Connection::open(path)
}

/// Relies on `rusqlite::Connection::execute_batch`: runs the statements of
/// `sql` in turn. Whether it succeeds depends on the database.
#[verifier::external_body]
fn execute_batch(conn: &Connection, sql: &str) -> (r: Result<(), rusqlite::Error>) {
    conn.execute_batch(sql)
}

/// Relies on `rusqlite::Connection::execute`: runs the one statement of `sql`
/// with `score`, `version` and `name` bound to `?1`, `?2` and `?3`.
#[verifier::external_body]
fn execute_with(conn: &Connection, sql: &str, score: i64, version: &str, name: &str) -> (r: Result<
    usize,
    rusqlite::Error,
>) {
    conn.execute(sql, (score, version, name))
}

/// Relies on `rusqlite::Connection::prepare`, `Statement::query_map` and
/// `Row::get`: runs the query of `sql` and reads its first three columns of
/// each row as text, integer and text. What comes back is whatever the table
/// holds; any failure, on any row, fails the whole read.
#[verifier::external_body]
fn select_rows(conn: &Connection, sql: &str) -> (r: Result<Vec<StoredRow>, rusqlite::Error>) {
    let mut stmt = conn.prepare(sql)?;
    let rows = stmt.query_map((), |row| Ok((row.get(0)?, row.get(1)?, row.get(2)?)))?;
    let all: Result<Vec<StoredRow>, rusqlite::Error> = rows.collect();
    all
}

/// Decodes the rows a read brought back and answers the query on them. The
/// answer fails exactly when some row cannot be read back, and then names the
/// first such row.
pub fn answer_query(rows: &Vec<StoredRow>, q: &Query) -> (r: Result<Vec<Highscore>, StoreError>)
    ensures
        r is Ok <==> rows_fit(rows@),
        r matches Ok(v) ==> v@ == q.result(records_of(rows@)),
        r matches Err(e) ==> exists|i: int|
            0 <= i < rows@.len() && !row_fits(rows@[i]) && e == StoreError::BadRow(i as usize)
                && forall|j: int| 0 <= j < i ==> row_fits(#[trigger] rows@[j]),
{
    match records_from_rows(rows) {
        Ok(records) => Ok(run_query(&records, q)),
        Err(e) => Err(e),
    }
}

/// The highscore store: one connection to the table, used for each operation
/// in turn. Every read goes to the table; nothing is cached.
pub struct AppState {
    conn: Connection,
}

impl AppState {
    /// Opens the database at `path` and makes sure the table exists.
    pub fn load(path: &str) -> (r: Result<AppState, StoreError>)
        ensures
            r matches Err(e) ==> e == StoreError::Unavailable,
    {
        match open_connection(path) {
            Ok(conn) => {
                let state = AppState { conn };
                match state.init() {
                    Ok(()) => Ok(state),
                    Err(e) => Err(e),
                }
            },
            Err(_) => Err(StoreError::Unavailable),
        }
    }

    /// Creates the table unless it is there already; existing rows are kept.
    pub fn init(&self) -> (r: Result<(), StoreError>)
        ensures
            r matches Err(e) ==> e == StoreError::Unavailable,
    {
        match execute_batch(&self.conn, CREATE_TABLE) {
            Ok(()) => Ok(()),
            Err(_) => Err(StoreError::Unavailable),
        }
    }

    /// Appends one row holding `record`, with no check against stored rows.
    pub fn insert(&self, record: &Highscore) -> (r: Result<(), StoreError>)
        ensures
            r matches Err(e) ==> e == StoreError::Io,
    {
        let row = row_from_record(record);
        match execute_with(&self.conn, INSERT_ROW, row.1, row.0.as_str(), row.2.as_str()) {
            Ok(_) => Ok(()),
            Err(_) => Err(StoreError::Io),
        }
    }

    /// Reads the whole table and answers `q` on it. This reads every row, which
    /// suits the small tables this store is meant for.
    pub fn fetch(&self, q: &Query) -> (r: Result<Vec<Highscore>, StoreError>)
        ensures
            r matches Ok(v) ==> exists|rows: Seq<StoredRow>|
                rows_fit(rows) && v@ == q.result(#[trigger] records_of(rows)),
            r matches Err(e) ==> e == StoreError::Io || e is BadRow,
    {
        match select_rows(&self.conn, SELECT_ROWS) {
            Ok(rows) => {
                let r = answer_query(&rows, q);
                proof {
                    if r is Ok {
                        assert(rows_fit(rows@) && r->Ok_0@ == q.result(records_of(rows@)));
                    }
                }
                r
            },
            Err(_) => Err(StoreError::Io),
        }
    }

    /// Every stored record, in stored order.
    pub fn get_scores(&self) -> (r: Result<Vec<Highscore>, StoreError>)
        ensures
            r matches Ok(v) ==> exists|rows: Seq<StoredRow>|
                rows_fit(rows) && v@ == #[trigger] records_of(rows),
            r matches Err(e) ==> e == StoreError::Io || e is BadRow,
    {
        self.fetch(&Query::all())
    }

    /// Every stored record whose version is exactly `search_version`, in
    /// stored order; an unknown version gives an empty list.
    pub fn get_versioned_scores(&self, search_version: String) -> (r: Result<
        Vec<Highscore>,
        StoreError,
    >)
        ensures
            r matches Ok(v) ==> exists|rows: Seq<StoredRow>|
                rows_fit(rows) && v@ == with_version(#[trigger] records_of(rows), search_version@),
            r matches Ok(v) ==> forall|i: int| 0 <= i < v@.len() ==> (#[trigger] v@[i]).version@ == search_version@,
            r matches Err(e) ==> e == StoreError::Io || e is BadRow,
    {
        let q = Query::of_version(search_version);
        let r = self.fetch(&q);
        proof {
            if r is Ok {
                let rows = choose|rows: Seq<StoredRow>|
                    rows_fit(rows) && r->Ok_0@ == q.result(#[trigger] records_of(rows));
                lemma_filter_exact(records_of(rows), q.version->Some_0@);
            }
        }
        r
    }

    /// The best records of `search_version`, highest score first, at most
    /// `TOP_COUNT` of them; fewer when fewer are stored.
    pub fn get_top_ten(&self, search_version: String) -> (r: Result<Vec<Highscore>, StoreError>)
        ensures
            r matches Ok(v) ==> exists|rows: Seq<StoredRow>|
                rows_fit(rows) && v@ == take_up_to(
                    sort_by_score(with_version(#[trigger] records_of(rows), search_version@)),
                    TOP_COUNT as nat,
                ),
            r matches Ok(v) ==> descending(v@) && v@.len() <= TOP_COUNT,
            r matches Ok(v) ==> forall|i: int| 0 <= i < v@.len() ==> (#[trigger] v@[i]).version@ == search_version@,
            r matches Err(e) ==> e == StoreError::Io || e is BadRow,
    {
        let q = Query::top(search_version, TOP_COUNT);
        let r = self.fetch(&q);
        proof {
            if r is Ok {
                let rows = choose|rows: Seq<StoredRow>|
                    rows_fit(rows) && r->Ok_0@ == q.result(#[trigger] records_of(rows));
                lemma_top_n_ordered(records_of(rows), q.version->Some_0, TOP_COUNT);
            }
        }
        r
    }
}

} // verus!
