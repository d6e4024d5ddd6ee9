//! The relational index, held behind one SQLite connection. Verus sees the
//! connection as an opaque value; what it holds is named by spec functions
//! over that value, and each statement the store runs is wrapped in one
//! trusted function whose contract says what that statement does to the
//! named contents.
//!
//! The index has three relations: `entries` (primary key `name`, unique
//! optional `number`, two optional date texts), `tags` (primary key
//! `name`), and `entry_tags` (composite key `(entry, tag)`, each half
//! referencing its table, removals and renames cascading).
//!
//! The model types the sequence number as `u32`: this store writes only
//! such numbers, and a read of a row holding anything larger fails rather
//! than misreport it.

use vstd::prelude::*;

verus! {

#[verifier::external_type_specification]
#[verifier::external_body]
pub struct ExConnection(rusqlite::Connection);

#[verifier::external_type_specification]
#[verifier::external_body]
pub struct ExSqlError(rusqlite::Error);

/// The rows of the `entries` relation: by name, the optional sequence
/// number and the two date texts (empty text where no date is stored).
pub uninterp spec fn index_entries(c: rusqlite::Connection) -> Map<
    Seq<char>,
    (Option<u32>, Seq<char>, Seq<char>),
>;

/// The rows of the `tags` relation: the tag names.
pub uninterp spec fn index_tags(c: rusqlite::Connection) -> Set<Seq<char>>;

/// The rows of the `entry_tags` relation: the `(entry, tag)` pairs.
pub uninterp spec fn index_assocs(c: rusqlite::Connection) -> Set<(Seq<char>, Seq<char>)>;

/// Whether the three relations exist on this connection.
pub uninterp spec fn index_ready(c: rusqlite::Connection) -> bool;

/// Nothing stored through `a` differs in `b`.
pub open spec fn same_contents(a: rusqlite::Connection, b: rusqlite::Connection) -> bool {
    &&& index_entries(b) == index_entries(a)
    &&& index_tags(b) == index_tags(a)
    &&& index_assocs(b) == index_assocs(a)
}

/// As `same_contents`, and the relations exist in `b` iff they did in `a`.
pub open spec fn same_state(a: rusqlite::Connection, b: rusqlite::Connection) -> bool {
    &&& same_contents(a, b)
    &&& index_ready(b) == index_ready(a)
}

/// Relies on rusqlite's `Connection::open`: opens (creating it if absent)
/// the database file at `path`, and turns on SQLite's foreign-key
/// enforcement for this connection, so that removing or renaming an entry
/// row cascades to its tag associations. Nothing is assumed about the
/// contents found on disk.
#[verifier::external_body]
pub(crate) fn open_connection(path: &str) -> (r: Result<rusqlite::Connection, rusqlite::Error>) {
    let conn = rusqlite::Connection::open(path)?;
    conn.pragma_update(None, "foreign_keys", true)?;
    Ok(conn)
}

/// Relies on rusqlite's `Connection::open_in_memory`: a fresh in-memory
/// database holds no tables and so no rows of any kind. Foreign-key
/// enforcement is turned on, as for a file-backed connection.
#[verifier::external_body]
pub(crate) fn open_memory_connection() -> (r: Result<rusqlite::Connection, rusqlite::Error>)
    ensures
        match r {
            Ok(c) => {
                &&& !index_ready(c)
                &&& index_entries(c) == Map::<Seq<char>, (Option<u32>, Seq<char>, Seq<char>)>::empty()
                &&& index_tags(c) == Set::<Seq<char>>::empty()
                &&& index_assocs(c) == Set::<(Seq<char>, Seq<char>)>::empty()
            },
            Err(_) => true,
        },
{
    let conn = rusqlite::Connection::open_in_memory()?;
    conn.pragma_update(None, "foreign_keys", true)?;
    Ok(conn)
}

/// Relies on rusqlite's `Connection::execute` running three `CREATE TABLE
/// IF NOT EXISTS` statements: on success the three relations exist and
/// whatever rows they held are untouched, so the call is idempotent; a
/// failed statement changes nothing that was stored.
#[verifier::external_body]
pub(crate) fn exec_create_tables(conn: &mut rusqlite::Connection) -> (r: Result<
    (),
    rusqlite::Error,
>)
    ensures
        match r {
            Ok(_) => index_ready(*final(conn)) && same_contents(*old(conn), *final(conn)),
            Err(_) => same_state(*old(conn), *final(conn)),
        },
{
    conn.execute(
        "CREATE TABLE IF NOT EXISTS entries (number INTEGER UNIQUE, name TEXT PRIMARY KEY NOT NULL, entry_date TEXT, access_date TEXT)",
        (),
    )?;
    conn.execute("CREATE TABLE IF NOT EXISTS tags (name TEXT PRIMARY KEY)", ())?;
    conn.execute(
        "CREATE TABLE IF NOT EXISTS entry_tags (tag TEXT, entry TEXT, PRIMARY KEY (entry, tag), FOREIGN KEY (tag) REFERENCES tags (name) ON DELETE CASCADE ON UPDATE CASCADE, FOREIGN KEY (entry) REFERENCES entries (name) ON DELETE CASCADE ON UPDATE CASCADE)",
        (),
    )?;
    Ok(())
}

/// Relies on rusqlite's `Connection::execute` running `INSERT INTO
/// entries`: on success a row keyed by `name` is added, exactly as given;
/// the statement fails, changing nothing, when the relations are missing,
/// when `name` is already a key (primary-key constraint), or when `number`
/// is present and already taken (unique constraint; absent numbers are
/// stored as NULL and never collide).
#[verifier::external_body]
pub(crate) fn exec_insert_entry(
    conn: &mut rusqlite::Connection,
    number: Option<u32>,
    name: &str,
    entry_date: &str,
    access_date: &str,
) -> (r: Result<(), rusqlite::Error>)
    ensures
        match r {
            Ok(_) => {
                &&& index_ready(*old(conn))
                &&& index_ready(*final(conn))
                &&& !index_entries(*old(conn)).dom().contains(name@)
                &&& match number {
                    Some(n) => forall|k: Seq<char>|
                        index_entries(*old(conn)).dom().contains(k) ==> index_entries(
                            *old(conn),
                        )[k].0 != Some(n),
                    None => true,
                }
                &&& index_entries(*final(conn)) == index_entries(*old(conn)).insert(
                    name@,
                    (number, entry_date@, access_date@),
                )
                &&& index_tags(*final(conn)) == index_tags(*old(conn))
                &&& index_assocs(*final(conn)) == index_assocs(*old(conn))
            },
            Err(_) => same_state(*old(conn), *final(conn)),
        },
        !index_ready(*old(conn)) ==> r is Err,
        index_entries(*old(conn)).dom().contains(name@) ==> r is Err,
{
    conn.execute(
        "INSERT INTO entries (number, name, entry_date, access_date) VALUES (?1, ?2, ?3, ?4)",
        (number, name, entry_date, access_date),
    )?;
    Ok(())
}

/// Relies on rusqlite's `Connection::execute` running `DELETE FROM
/// entries`: on success the row keyed by `name`, if any, is gone, and with
/// it — foreign keys are enforced on this connection — every association
/// of that entry; the returned count says whether a row was there.
#[verifier::external_body]
pub(crate) fn exec_delete_entry(conn: &mut rusqlite::Connection, name: &str) -> (r: Result<
    usize,
    rusqlite::Error,
>)
    ensures
        match r {
            Ok(n) => {
                &&& index_ready(*old(conn))
                &&& index_ready(*final(conn))
                &&& n == if index_entries(*old(conn)).dom().contains(name@) {
                    1int
                } else {
                    0int
                }
                &&& index_entries(*final(conn)) == index_entries(*old(conn)).remove(name@)
                &&& index_tags(*final(conn)) == index_tags(*old(conn))
                &&& index_assocs(*final(conn)) == index_assocs(*old(conn)).filter(
                    |p: (Seq<char>, Seq<char>)| p.0 != name@,
                )
                &&& !index_entries(*old(conn)).dom().contains(name@) ==> index_assocs(
                    *final(conn),
                ) == index_assocs(*old(conn))
            },
            Err(_) => same_state(*old(conn), *final(conn)),
        },
        !index_ready(*old(conn)) ==> r is Err,
{
    conn.execute("DELETE FROM entries WHERE name = ?1", (name,))
}

/// Relies on rusqlite's `Connection::execute` running `UPDATE entries SET
/// access_date`: on success the row keyed by `name`, if any, carries the
/// new access text, everything else standing; the count says whether a row
/// was there.
#[verifier::external_body]
pub(crate) fn exec_update_access(
    conn: &mut rusqlite::Connection,
    access_date: &str,
    name: &str,
) -> (r: Result<usize, rusqlite::Error>)
    ensures
        match r {
            Ok(n) => {
                &&& index_ready(*old(conn))
                &&& index_ready(*final(conn))
                &&& index_tags(*final(conn)) == index_tags(*old(conn))
                &&& index_assocs(*final(conn)) == index_assocs(*old(conn))
                &&& if index_entries(*old(conn)).dom().contains(name@) {
                    n == 1 && index_entries(*final(conn)) == index_entries(*old(conn)).insert(
                        name@,
                        (
                            index_entries(*old(conn))[name@].0,
                            index_entries(*old(conn))[name@].1,
                            access_date@,
                        ),
                    )
                } else {
                    n == 0 && index_entries(*final(conn)) == index_entries(*old(conn))
                }
            },
            Err(_) => same_state(*old(conn), *final(conn)),
        },
        !index_ready(*old(conn)) ==> r is Err,
{
    conn.execute("UPDATE entries SET access_date = ?1 WHERE name = ?2", (access_date, name))
}

/// Relies on rusqlite's `Connection::execute` running `UPDATE entries SET
/// name`, with the rename cascading to the associations (the schema says
/// `ON UPDATE CASCADE`). Only called when `new_name` is not already
/// another row's key, so the primary key cannot collide: on success the
/// row keyed by `old_name`, if any, is re-keyed to `new_name`, and every
/// association follows; the count says whether a row was there.
#[verifier::external_body]
pub(crate) fn exec_update_name(
    conn: &mut rusqlite::Connection,
    new_name: &str,
    old_name: &str,
) -> (r: Result<usize, rusqlite::Error>)
    requires
        !index_entries(*old(conn)).dom().contains(new_name@) || new_name@ == old_name@,
    ensures
        match r {
            Ok(n) => {
                &&& index_ready(*old(conn))
                &&& index_ready(*final(conn))
                &&& index_tags(*final(conn)) == index_tags(*old(conn))
                &&& if index_entries(*old(conn)).dom().contains(old_name@) {
                    n == 1 && index_entries(*final(conn)) == index_entries(*old(conn)).remove(
                        old_name@,
                    ).insert(new_name@, index_entries(*old(conn))[old_name@]) && index_assocs(
                        *final(conn),
                    ) == index_assocs(*old(conn)).map(
                        (|p: (Seq<char>, Seq<char>)|
                            if p.0 == old_name@ {
                                (new_name@, p.1)
                            } else {
                                p
                            }),
                    )
                } else {
                    n == 0 && index_entries(*final(conn)) == index_entries(*old(conn))
                        && index_assocs(*final(conn)) == index_assocs(*old(conn))
                }
            },
            Err(_) => same_state(*old(conn), *final(conn)),
        },
        !index_ready(*old(conn)) ==> r is Err,
{
    conn.execute("UPDATE entries SET name = ?1 WHERE name = ?2", (new_name, old_name))
}

/// Relies on rusqlite's `Connection::execute` running `INSERT INTO tags`:
/// on success `tag` was new and is now present; the statement fails,
/// changing nothing, on a duplicate (primary-key constraint) or missing
/// relations.
#[verifier::external_body]
pub(crate) fn exec_insert_tag(conn: &mut rusqlite::Connection, tag: &str) -> (r: Result<
    (),
    rusqlite::Error,
>)
    ensures
        match r {
            Ok(_) => {
                &&& index_ready(*old(conn))
                &&& index_ready(*final(conn))
                &&& !index_tags(*old(conn)).contains(tag@)
                &&& index_tags(*final(conn)) == index_tags(*old(conn)).insert(tag@)
                &&& index_entries(*final(conn)) == index_entries(*old(conn))
                &&& index_assocs(*final(conn)) == index_assocs(*old(conn))
            },
            Err(_) => same_state(*old(conn), *final(conn)),
        },
        !index_ready(*old(conn)) ==> r is Err,
        index_tags(*old(conn)).contains(tag@) ==> r is Err,
{
    conn.execute("INSERT INTO tags (name) VALUES (?1)", (tag,))?;
    Ok(())
}

/// Relies on rusqlite's `Connection::execute` running `INSERT INTO
/// entry_tags`: on success the pair was absent and both referenced rows
/// exist (foreign keys are enforced), and the pair is now present; the
/// statement fails, changing nothing, on a duplicate pair, a dangling
/// reference, or missing relations.
#[verifier::external_body]
pub(crate) fn exec_insert_assoc(
    conn: &mut rusqlite::Connection,
    tag: &str,
    entry: &str,
) -> (r: Result<(), rusqlite::Error>)
    ensures
        match r {
            Ok(_) => {
                &&& index_ready(*old(conn))
                &&& index_ready(*final(conn))
                &&& !index_assocs(*old(conn)).contains((entry@, tag@))
                &&& index_entries(*old(conn)).dom().contains(entry@)
                &&& index_tags(*old(conn)).contains(tag@)
                &&& index_assocs(*final(conn)) == index_assocs(*old(conn)).insert((entry@, tag@))
                &&& index_entries(*final(conn)) == index_entries(*old(conn))
                &&& index_tags(*final(conn)) == index_tags(*old(conn))
            },
            Err(_) => same_state(*old(conn), *final(conn)),
        },
        !index_ready(*old(conn)) ==> r is Err,
        index_assocs(*old(conn)).contains((entry@, tag@)) ==> r is Err,
        !index_entries(*old(conn)).dom().contains(entry@) ==> r is Err,
        !index_tags(*old(conn)).contains(tag@) ==> r is Err,
{
    conn.execute("INSERT INTO entry_tags (tag, entry) VALUES (?1, ?2)", (tag, entry))?;
    Ok(())
}

/// Relies on rusqlite's `Connection::query_row` running `SELECT 1 FROM
/// entries WHERE name = ?1`: whether the index has a row keyed by `name`;
/// a query that returns no row is the negative answer, not a failure.
#[verifier::external_body]
pub(crate) fn exec_entry_exists(conn: &rusqlite::Connection, name: &str) -> (r: Result<
    bool,
    rusqlite::Error,
>)
    ensures
        match r {
            Ok(b) => index_ready(*conn) && b == index_entries(*conn).dom().contains(name@),
            Err(_) => true,
        },
        !index_ready(*conn) ==> r is Err,
{
    match conn.query_row("SELECT 1 FROM entries WHERE name = ?1", (name,), |_row| Ok(0i64)) {
        Ok(_) => Ok(true),
        Err(rusqlite::Error::QueryReturnedNoRows) => Ok(false),
        Err(e) => Err(e),
    }
}

/// Relies on rusqlite's `Connection::query_row` running `SELECT 1 FROM
/// entries WHERE number = ?1`: whether some row carries this sequence
/// number.
#[verifier::external_body]
pub(crate) fn exec_number_exists(conn: &rusqlite::Connection, number: u32) -> (r: Result<
    bool,
    rusqlite::Error,
>)
    ensures
        match r {
            Ok(b) => index_ready(*conn) && b == exists|k: Seq<char>|
                #[trigger] index_entries(*conn).dom().contains(k) && index_entries(*conn)[k].0
                    == Some(number),
            Err(_) => true,
        },
        !index_ready(*conn) ==> r is Err,
{
    match conn.query_row("SELECT 1 FROM entries WHERE number = ?1", (number,), |_row| Ok(0i64)) {
        Ok(_) => Ok(true),
        Err(rusqlite::Error::QueryReturnedNoRows) => Ok(false),
        Err(e) => Err(e),
    }
}

/// Relies on rusqlite's `Connection::query_row` running `SELECT 1 FROM
/// tags WHERE name = ?1`: whether the tag is present.
#[verifier::external_body]
pub(crate) fn exec_tag_exists(conn: &rusqlite::Connection, tag: &str) -> (r: Result<
    bool,
    rusqlite::Error,
>)
    ensures
        match r {
            Ok(b) => index_ready(*conn) && b == index_tags(*conn).contains(tag@),
            Err(_) => true,
        },
        !index_ready(*conn) ==> r is Err,
{
    match conn.query_row("SELECT 1 FROM tags WHERE name = ?1", (tag,), |_row| Ok(0i64)) {
        Ok(_) => Ok(true),
        Err(rusqlite::Error::QueryReturnedNoRows) => Ok(false),
        Err(e) => Err(e),
    }
}

/// Relies on rusqlite's `Connection::query_row` running `SELECT 1 FROM
/// entry_tags WHERE entry = ?1 AND tag = ?2`: whether the pair is present.
#[verifier::external_body]
pub(crate) fn exec_assoc_exists(conn: &rusqlite::Connection, entry: &str, tag: &str) -> (r: Result<
    bool,
    rusqlite::Error,
>)
    ensures
        match r {
            Ok(b) => index_ready(*conn) && b == index_assocs(*conn).contains((entry@, tag@)),
            Err(_) => true,
        },
        !index_ready(*conn) ==> r is Err,
{
    match conn.query_row(
        "SELECT 1 FROM entry_tags WHERE entry = ?1 AND tag = ?2",
        (entry, tag),
        |_row| Ok(0i64),
    ) {
        Ok(_) => Ok(true),
        Err(rusqlite::Error::QueryReturnedNoRows) => Ok(false),
        Err(e) => Err(e),
    }
}

/// Relies on rusqlite's `Connection::query_row` running `SELECT
/// MAX(number) FROM entries`: the largest sequence number, or `None` when
/// no row carries one (SQL `MAX` ignores NULLs and is NULL over nothing).
#[verifier::external_body]
pub(crate) fn exec_max_number(conn: &rusqlite::Connection) -> (r: Result<
    Option<u32>,
    rusqlite::Error,
>)
    ensures
        match r {
            Ok(m) => index_ready(*conn) && match m {
                Some(mx) => (exists|k: Seq<char>|
                    #[trigger] index_entries(*conn).dom().contains(k) && index_entries(*conn)[k].0
                        == Some(mx)) && forall|k: Seq<char>|
                    #[trigger] index_entries(*conn).dom().contains(k) ==> match index_entries(
                        *conn,
                    )[k].0 {
                        Some(v) => v <= mx,
                        None => true,
                    },
                None => forall|k: Seq<char>|
                    #[trigger] index_entries(*conn).dom().contains(k) ==> index_entries(
                        *conn,
                    )[k].0 is None,
            },
            Err(_) => true,
        },
        !index_ready(*conn) ==> r is Err,
{
    conn.query_row("SELECT MAX(number) FROM entries", [], |row| row.get::<_, Option<u32>>(0))
}

/// How a listing corresponds to the `entries` relation: each listed row is
/// stored under its name, no name is listed twice, and every stored name
/// is listed; the listing's order promises nothing.
pub open spec fn rows_match(
    v: Seq<(Option<u32>, String, String, String)>,
    m: Map<Seq<char>, (Option<u32>, Seq<char>, Seq<char>)>,
) -> bool {
    &&& forall|i: int|
        0 <= i < v.len() ==> m.dom().contains((#[trigger] v[i]).1@) && m[v[i].1@] == (
        v[i].0,
        v[i].2@,
        v[i].3@,
        )
    &&& forall|i: int, j: int| 0 <= i < j < v.len() ==> (#[trigger] v[i]).1@ != (#[trigger] v[j]).1@
    &&& forall|k: Seq<char>|
        m.dom().contains(k) ==> exists|i: int| 0 <= i < v.len() && (#[trigger] v[i]).1@ == k
}

/// Relies on rusqlite's `Statement::query_map` running `SELECT number,
/// name, entry_date, access_date FROM entries`: every row as plain values,
/// in no promised order; a NULL date text is read as empty.
#[verifier::external_body]
pub(crate) fn exec_select_entries(conn: &rusqlite::Connection) -> (r: Result<
    Vec<(Option<u32>, String, String, String)>,
    rusqlite::Error,
>)
    ensures
        match r {
            Ok(v) => index_ready(*conn) && rows_match(v@, index_entries(*conn)),
            Err(_) => true,
        },
        !index_ready(*conn) ==> r is Err,
{
    let mut stmt = conn.prepare("SELECT number, name, entry_date, access_date FROM entries")?;
    let rows = stmt.query_map([], |row| {
        Ok((
            row.get::<_, Option<u32>>(0)?,
            row.get::<_, String>(1)?,
            row.get::<_, String>(2).unwrap_or_default(),
            row.get::<_, String>(3).unwrap_or_default(),
        ))
    })?;
    rows.collect()
}

} // verus!
