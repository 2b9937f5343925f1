use vstd::prelude::*;

verus! {

/// Failure of the durable store.
#[derive(Debug)]
pub enum StoreError {
    /// The underlying database engine failed; the payload is its message.
    Backend(String),
    /// A stored row was present but was not the encoding of a block record.
    Corrupt,
}

/// The handle on the durable blocks table.  The connection inside is the
/// external engine's; everything the library knows of it is said through
/// `store_rows` and the trusted accessors below.
#[verifier::external_body]
pub struct Conn {
    inner: rusqlite::Connection,
}

/// The rows of the blocks table: block number to the stored record text.
pub uninterp spec fn store_rows(c: Conn) -> Map<u32, Seq<char>>;

/// Relies on rusqlite's `Connection::open` and `execute` of
/// `CREATE TABLE IF NOT EXISTS` / `CREATE INDEX IF NOT EXISTS`: opening is
/// idempotent and leaves the rows already in the file in place.
#[verifier::external_body]
pub(crate) fn conn_open(path: &str) -> (r: Result<Conn, StoreError>)
    ensures
        r matches Err(e) ==> e is Backend,
{
    let run = || -> Result<rusqlite::Connection, rusqlite::Error> {
        let conn = rusqlite::Connection::open(path)?;
        conn.execute("CREATE TABLE IF NOT EXISTS blocks (block_number INTEGER PRIMARY KEY, block_hash TEXT NOT NULL, block_data TEXT NOT NULL, timestamp INTEGER NOT NULL)", [])?;
        conn.execute("CREATE INDEX IF NOT EXISTS idx_timestamp ON blocks(timestamp)", [])?;
        Ok(conn)
    };
    match run() {
        Ok(conn) => Ok(Conn { inner: conn }),
        Err(e) => Err(StoreError::Backend(e.to_string())),
    }
}

/// Relies on rusqlite `execute` of a single `INSERT OR REPLACE` statement on
/// the primary key: on success the row for `number` holds `data`, every
/// other row is untouched; the single statement is atomic, so on failure
/// nothing changed.
#[verifier::external_body]
pub(crate) fn conn_upsert(c: &mut Conn, number: u32, hash: &str, data: &str, timestamp: i64) -> (r:
    Result<(), StoreError>)
    ensures
        r is Ok ==> store_rows(*final(c)) == store_rows(*old(c)).insert(number, data@),
        r matches Err(e) ==> store_rows(*final(c)) == store_rows(*old(c)) && e is Backend,
{
    let res = c.inner.execute("INSERT OR REPLACE INTO blocks (block_number, block_hash, block_data, timestamp) VALUES (?1, ?2, ?3, ?4)", (number, hash, data, timestamp));
    match res {
        Ok(_) => Ok(()),
        Err(e) => Err(StoreError::Backend(e.to_string())),
    }
}

/// Relies on rusqlite's prepared `SELECT` by primary key: the stored text
/// for `number`, or `None` when no row has that key.
#[verifier::external_body]
pub(crate) fn conn_get(c: &Conn, number: u32) -> (r: Result<Option<String>, StoreError>)
    ensures
        r matches Ok(Some(s)) ==> store_rows(*c).dom().contains(number) && s@ == store_rows(
            *c,
        )[number],
        r matches Ok(None) ==> !store_rows(*c).dom().contains(number),
        r matches Err(e) ==> e is Backend,
{
    let run = || -> Result<Option<String>, rusqlite::Error> {
        let mut stmt = c.inner.prepare("SELECT block_data FROM blocks WHERE block_number = ?1")?;
        let mut rows = stmt.query((number,))?;
        match rows.next()? {
            Some(row) => Ok(Some(row.get(0)?)),
            None => Ok(None),
        }
    };
    run().map_err(|e| StoreError::Backend(e.to_string()))
}

/// Relies on SQL `MAX` over the integer primary key: the greatest key, or
/// `None` on an empty table.
#[verifier::external_body]
pub(crate) fn conn_latest(c: &Conn) -> (r: Result<Option<u32>, StoreError>)
    ensures
        r matches Ok(Some(n)) ==> store_rows(*c).dom().contains(n) && (forall|m: u32|
            #[trigger] store_rows(*c).dom().contains(m) ==> m <= n),
        r matches Ok(None) ==> store_rows(*c).dom() =~= Set::<u32>::empty(),
        r matches Err(e) ==> e is Backend,
{
    let run = || -> Result<Option<u32>, rusqlite::Error> {
        let mut stmt = c.inner.prepare("SELECT MAX(block_number) FROM blocks")?;
        let mut rows = stmt.query([])?;
        match rows.next()? {
            Some(row) => Ok(row.get(0)?),
            None => Ok(None),
        }
    };
    run().map_err(|e| StoreError::Backend(e.to_string()))
}

/// Relies on SQL `WHERE`, `ORDER BY block_number DESC` and `LIMIT`: the rows
/// whose key lies in `[low, high]`, greatest key first, cut off after
/// `limit` rows; each row comes with its key and its stored text.
#[verifier::external_body]
pub(crate) fn conn_range(c: &Conn, low: u32, high: u32, limit: u32) -> (r: Result<
    Vec<(u32, String)>,
    StoreError,
>)
    ensures
        r matches Ok(v) ==> {
            &&& v@.len() <= limit
            &&& forall|i: int|
                0 <= i < v@.len() ==> low <= (#[trigger] v@[i]).0 <= high && store_rows(
                    *c,
                ).dom().contains(v@[i].0) && v@[i].1@ == store_rows(*c)[v@[i].0]
            &&& forall|i: int, j: int| 0 <= i < j < v@.len() ==> v@[i].0 > v@[j].0
            &&& (v@.len() < limit ==> forall|k: u32|
                low <= k <= high && #[trigger] store_rows(*c).dom().contains(k) ==> exists|i: int|
                    0 <= i < v@.len() && v@[i].0 == k)
            &&& (v@.len() > 0 ==> forall|k: u32|
                low <= k <= high && #[trigger] store_rows(*c).dom().contains(k) && k > v@[v@.len()
                    - 1].0 ==> exists|i: int| 0 <= i < v@.len() && v@[i].0 == k)
        },
        r matches Err(e) ==> e is Backend,
{
    let run = || -> Result<Vec<(u32, String)>, rusqlite::Error> {
        let mut stmt = c.inner.prepare("SELECT block_number, block_data FROM blocks WHERE block_number >= ?1 AND block_number <= ?2 ORDER BY block_number DESC LIMIT ?3")?;
        let rows = stmt.query_map((low, high, limit), |row| Ok((row.get(0)?, row.get(1)?)))?;
        rows.collect()
    };
    run().map_err(|e| StoreError::Backend(e.to_string()))
}

/// Relies on chrono's `Utc::now` for the ingestion timestamp; nothing is
/// assumed of the value.  `Utc::now` panics when the system clock is set
/// before the Unix epoch, and this call inherits that.
#[verifier::external_body]
pub(crate) fn now_unix() -> i64 {
    chrono::Utc::now().timestamp()
}

} // verus!
