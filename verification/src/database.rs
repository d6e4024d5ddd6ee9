//! The journal's places on disk, as pure path arithmetic, and the entry
//! store that owns the index connection.

use vstd::prelude::*;
use vstd::string::StringExecFns;
use crate::dates::{DateStamp, now_stamp};
use crate::errors::StoreError;
use crate::file_operations::{
    Entry, stamp_matches, spec_extract_number, default_entry_name, num_le_f,
    sort_entries_by_number,
};
use crate::file_operations::file_exists;
use crate::index::{
    index_entries, index_tags, index_assocs, index_ready, same_contents, same_state, rows_match,
    open_connection, open_memory_connection, exec_create_tables, exec_insert_entry,
    exec_delete_entry, exec_update_access, exec_update_name, exec_insert_tag, exec_insert_assoc,
    exec_entry_exists, exec_number_exists, exec_tag_exists, exec_assoc_exists, exec_max_number,
    exec_select_entries,
};
use crate::sorting::stable_sort;

verus! {

/// Where a journal lives, derived from its root directory.
pub struct PathConfig {
    /// `<root>/db.sqlite`: the index file.
    pub db: String,
    /// `<root>/entries`: the directory of entry files.
    pub entry_dir: String,
    /// The root directory itself.
    pub main_dir: String,
}

impl PathConfig {
    /// Lays out a journal under `base_dir`.
    pub fn new(base_dir: &str) -> (r: PathConfig)
        ensures
            r.db@ == base_dir@ + "/db.sqlite"@,
            r.entry_dir@ == base_dir@ + "/entries"@,
            r.main_dir@ == base_dir@,
    {
        PathConfig {
            db: String::from_str(base_dir).concat("/db.sqlite"),
            entry_dir: String::from_str(base_dir).concat("/entries"),
            main_dir: String::from_str(base_dir),
        }
    }

    /// The path of the entry file called `entry_name`.
    pub fn get_entry_path(&self, entry_name: &str) -> (r: String)
        ensures
            r@ == self.entry_dir@ + "/"@ + entry_name@,
    {
        self.entry_dir.clone().concat("/").concat(entry_name)
    }
}

/// The stored text of an optional date: its line, or empty when absent.
pub open spec fn date_text(d: Option<DateStamp>) -> Seq<char> {
    match d {
        Some(s) => s.raw@,
        None => Seq::empty(),
    }
}

/// The index row that an in-memory entry occupies.
pub open spec fn row_of(e: Entry) -> (Option<u32>, Seq<char>, Seq<char>) {
    (e.number, date_text(e.entry_date), date_text(e.access_date))
}

/// `n` is one more than the largest stored sequence number, 1 when no row
/// carries one.
pub open spec fn is_next_number(
    m: Map<Seq<char>, (Option<u32>, Seq<char>, Seq<char>)>,
    n: u32,
) -> bool {
    &&& forall|k: Seq<char>| #[trigger] m.dom().contains(k) ==> match m[k].0 {
        Some(v) => v < n,
        None => true,
    }
    &&& (n == 1 || exists|k: Seq<char>| #[trigger] m.dom().contains(k) && m[k].0 == Some((n - 1) as u32))
}

/// How a listing corresponds to the index: every listed entry sits in the
/// relation under its name with its row and derived path, no name repeats,
/// and every stored name is listed; the order promises nothing.
pub open spec fn entries_match(
    v: Seq<Entry>,
    m: Map<Seq<char>, (Option<u32>, Seq<char>, Seq<char>)>,
    dir: Seq<char>,
) -> bool {
    &&& forall|i: int| 0 <= i < v.len() ==> {
        let e = #[trigger] v[i];
        &&& m.dom().contains(e.name@)
        &&& e.number == m[e.name@].0
        &&& e.path@ == dir + "/"@ + e.name@
        &&& stamp_matches(e.entry_date, m[e.name@].1)
        &&& stamp_matches(e.access_date, m[e.name@].2)
        &&& e.wf()
    }
    &&& forall|i: int, j: int|
        0 <= i < j < v.len() ==> (#[trigger] v[i]).name@ != (#[trigger] v[j]).name@
    &&& forall|k: Seq<char>|
        m.dom().contains(k) ==> exists|i: int| 0 <= i < v.len() && (#[trigger] v[i]).name@ == k
}

/// One file found by scanning the entries directory: its filename, and its
/// first line when it has one.
pub struct ScannedFile {
    /// The filename, relative to the entries directory.
    pub name: String,
    /// The file's first line; absent for an empty file.
    pub first_line: Option<String>,
}

/// Whether `e` is the entry that scanning `f` under `dir` yields.
pub open spec fn built_from(dir: Seq<char>, f: ScannedFile, e: Entry) -> bool {
    &&& e.name@ == f.name@
    &&& e.path@ == dir + "/"@ + f.name@
    &&& e.number == spec_extract_number(f.name@)
    &&& e.access_date is None
    &&& match f.first_line {
        Some(l) => stamp_matches(e.entry_date, l@),
        None => e.entry_date is None,
    }
    &&& e.wf()
}

/// Whether the row of `e` can join `m`: its name is not yet a key, and its
/// number, when present, is not yet taken.
pub open spec fn can_insert(m: Map<Seq<char>, (Option<u32>, Seq<char>, Seq<char>)>, e: Entry) -> bool {
    &&& !m.dom().contains(e.name@)
    &&& match e.number {
        Some(n) => forall|k: Seq<char>| #[trigger] m.dom().contains(k) ==> m[k].0 != Some(n),
        None => true,
    }
}

/// Folds rebuilt entries into the relation in order, skipping each row
/// that cannot join: the per-row conflict rule of the rebuild.
pub open spec fn rebuild_fold(
    m: Map<Seq<char>, (Option<u32>, Seq<char>, Seq<char>)>,
    es: Seq<Entry>,
) -> Map<Seq<char>, (Option<u32>, Seq<char>, Seq<char>)>
    decreases es.len(),
{
    if es.len() == 0 {
        m
    } else if can_insert(m, es[0]) {
        rebuild_fold(m.insert(es[0].name@, row_of(es[0])), es.drop_first())
    } else {
        rebuild_fold(m, es.drop_first())
    }
}

/// Folding one more entry steps the fold once at the end.
proof fn lemma_rebuild_fold_snoc(
    m: Map<Seq<char>, (Option<u32>, Seq<char>, Seq<char>)>,
    s: Seq<Entry>,
    e: Entry,
)
    ensures
        rebuild_fold(m, s.push(e)) == if can_insert(rebuild_fold(m, s), e) {
            rebuild_fold(m, s).insert(e.name@, row_of(e))
        } else {
            rebuild_fold(m, s)
        },
    decreases s.len(),
{
    if s.len() == 0 {
        assert(s.push(e)[0] == e);
        assert(s.push(e).drop_first() =~= Seq::<Entry>::empty());
        assert(rebuild_fold(m, s) == m);
        if can_insert(m, e) {
            assert(rebuild_fold(m, s.push(e)) == rebuild_fold(
                m.insert(e.name@, row_of(e)),
                s.push(e).drop_first(),
            ));
            assert(rebuild_fold(m.insert(e.name@, row_of(e)), Seq::<Entry>::empty()) == m.insert(
                e.name@,
                row_of(e),
            ));
        } else {
            assert(rebuild_fold(m, s.push(e)) == rebuild_fold(m, s.push(e).drop_first()));
            assert(rebuild_fold(m, Seq::<Entry>::empty()) == m);
        }
    } else {
        assert(s.push(e)[0] == s[0]);
        assert(s.push(e).drop_first() =~= s.drop_first().push(e));
        if can_insert(m, s[0]) {
            let m2 = m.insert(s[0].name@, row_of(s[0]));
            lemma_rebuild_fold_snoc(m2, s.drop_first(), e);
            assert(rebuild_fold(m, s.push(e)) == rebuild_fold(m2, s.drop_first().push(e)));
            assert(rebuild_fold(m, s) == rebuild_fold(m2, s.drop_first()));
        } else {
            lemma_rebuild_fold_snoc(m, s.drop_first(), e);
            assert(rebuild_fold(m, s.push(e)) == rebuild_fold(m, s.drop_first().push(e)));
            assert(rebuild_fold(m, s) == rebuild_fold(m, s.drop_first()));
        }
    }
}

/// The entry store: one index connection plus the journal's paths. Each
/// operation settles the index half and tells its caller, through its
/// result, which file action to perform after it; the contracts below pin
/// both halves.
pub struct EntryDB {
    /// The index connection.
    pub conn: rusqlite::Connection,
    /// The journal's paths.
    pub config: PathConfig,
}

impl EntryDB {
    /// The `entries` relation behind this store.
    pub open spec fn entries(self) -> Map<Seq<char>, (Option<u32>, Seq<char>, Seq<char>)> {
        index_entries(self.conn)
    }

    /// The `tags` relation behind this store.
    pub open spec fn tags(self) -> Set<Seq<char>> {
        index_tags(self.conn)
    }

    /// The `entry_tags` relation behind this store.
    pub open spec fn assocs(self) -> Set<(Seq<char>, Seq<char>)> {
        index_assocs(self.conn)
    }

    /// Whether the three relations exist.
    pub open spec fn ready(self) -> bool {
        index_ready(self.conn)
    }

    /// Opens the index at the configured path, creating the file if it is
    /// absent. Nothing is known of what the file already holds.
    pub fn new(config: PathConfig) -> (r: Result<EntryDB, StoreError>)
        ensures
            match r {
                Ok(db) => db.config == config,
                Err(e) => e == StoreError::IndexUnavailable,
            },
    {
        match open_connection(config.db.as_str()) {
            Ok(conn) => Ok(EntryDB { conn, config }),
            Err(_) => Err(StoreError::IndexUnavailable),
        }
    }

    /// A store over a fresh, empty in-memory index.
    pub fn new_in_memory(config: PathConfig) -> (r: Result<EntryDB, StoreError>)
        ensures
            match r {
                Ok(db) => {
                    &&& db.config == config
                    &&& !db.ready()
                    &&& db.entries() == Map::<Seq<char>, (Option<u32>, Seq<char>, Seq<char>)>::empty()
                    &&& db.tags() == Set::<Seq<char>>::empty()
                    &&& db.assocs() == Set::<(Seq<char>, Seq<char>)>::empty()
                },
                Err(e) => e == StoreError::IndexUnavailable,
            },
    {
        match open_memory_connection() {
            Ok(conn) => Ok(EntryDB { conn, config }),
            Err(_) => Err(StoreError::IndexUnavailable),
        }
    }

    /// Idempotently ensures the three relations exist; stored rows are
    /// untouched. Safe to call on every startup.
    pub fn init_tables(&mut self) -> (r: Result<(), StoreError>)
        ensures
            final(self).config == old(self).config,
            same_contents(old(self).conn, final(self).conn),
            match r {
                Ok(_) => final(self).ready(),
                Err(e) => e == StoreError::IndexUnavailable && final(self).ready() == old(
                    self,
                ).ready(),
            },
    {
        match exec_create_tables(&mut self.conn) {
            Ok(_) => Ok(()),
            Err(_) => Err(StoreError::IndexUnavailable),
        }
    }

    /// One more than the largest sequence number in the index, 1 when no
    /// row carries one. Computed from the index alone, never from the
    /// filesystem.
    pub fn next_number(&self) -> (r: Result<u32, StoreError>)
        requires
            forall|k: Seq<char>|
                #[trigger] index_entries(self.conn).dom().contains(k) ==> match index_entries(
                    self.conn,
                )[k].0 {
                    Some(v) => v < u32::MAX,
                    None => true,
                },
        ensures
            match r {
                Ok(n) => self.ready() && is_next_number(self.entries(), n),
                Err(e) => e == StoreError::IndexUnavailable,
            },
            !self.ready() ==> r is Err,
    {
        match exec_max_number(&self.conn) {
            Ok(Some(mx)) => Ok(mx + 1),
            Ok(None) => Ok(1),
            Err(_) => Err(StoreError::IndexUnavailable),
        }
    }

    /// Inserts the row for `entry`. Fails with `NameCollision`, inserting
    /// nothing, when the index already has a row by that name.
    pub fn add_entry_to_db(&mut self, entry: &Entry) -> (r: Result<(), StoreError>)
        ensures
            final(self).config == old(self).config,
            final(self).tags() == old(self).tags(),
            final(self).assocs() == old(self).assocs(),
            match r {
                Ok(_) => {
                    &&& old(self).ready() && final(self).ready()
                    &&& !old(self).entries().dom().contains(entry.name@)
                    &&& match entry.number {
                        Some(n) => forall|k: Seq<char>|
                            #[trigger] old(self).entries().dom().contains(k) ==> old(
                                self,
                            ).entries()[k].0 != Some(n),
                        None => true,
                    }
                    &&& final(self).entries() == old(self).entries().insert(
                        entry.name@,
                        row_of(*entry),
                    )
                },
                Err(e) => {
                    &&& same_state(old(self).conn, final(self).conn)
                    &&& (e == StoreError::NameCollision || e == StoreError::IndexUnavailable)
                    &&& e == StoreError::NameCollision ==> old(self).ready() && old(
                        self,
                    ).entries().dom().contains(entry.name@)
                },
            },
    {
        match exec_entry_exists(&self.conn, entry.name.as_str()) {
            Ok(true) => {
                return Err(StoreError::NameCollision);
            },
            Ok(false) => {},
            Err(_) => {
                return Err(StoreError::IndexUnavailable);
            },
        }
        let ed = entry.entry_string();
        let ad = entry.access_string();
        match exec_insert_entry(
            &mut self.conn,
            entry.number,
            entry.name.as_str(),
            ed.as_str(),
            ad.as_str(),
        ) {
            Ok(_) => Ok(()),
            Err(_) => Err(StoreError::IndexUnavailable),
        }
    }

    /// Creates the next auto-numbered entry: computes the next free
    /// number, names it `Entry_<n>.txt`, dates it now, and inserts its
    /// row. Fails with `NameCollision` when that name already keys a row
    /// (nothing changes) or already names a file (the file is preserved;
    /// the fresh row, inserted while absent, stays). On success the caller
    /// writes the initial file text at the entry's path.
    pub fn create_default_entry(&mut self) -> (r: Result<Entry, StoreError>)
        requires
            forall|k: Seq<char>|
                #[trigger] index_entries(old(self).conn).dom().contains(k) ==> match index_entries(
                    old(self).conn,
                )[k].0 {
                    Some(v) => v < u32::MAX,
                    None => true,
                },
        ensures
            final(self).config == old(self).config,
            final(self).tags() == old(self).tags(),
            final(self).assocs() == old(self).assocs(),
            match r {
                Ok(e) => {
                    &&& old(self).ready() && final(self).ready()
                    &&& match e.number {
                        Some(n) => is_next_number(old(self).entries(), n) && e.name@
                            == default_entry_name(n),
                        None => false,
                    }
                    &&& e.path@ == old(self).config.entry_dir@ + "/"@ + e.name@
                    &&& e.entry_date is Some && e.access_date is Some && e.wf()
                    &&& !old(self).entries().dom().contains(e.name@)
                    &&& final(self).entries() == old(self).entries().insert(e.name@, row_of(e))
                },
                Err(e) => {
                    &&& (e == StoreError::NameCollision || e == StoreError::IndexUnavailable)
                    &&& (e == StoreError::IndexUnavailable ==> same_state(
                        old(self).conn,
                        final(self).conn,
                    ))
                    &&& (e == StoreError::NameCollision ==> old(self).ready() && (final(self).entries() == old(self).entries() || exists|n: u32|
                        {
                            &&& #[trigger] is_next_number(old(self).entries(), n)
                            &&& !old(self).entries().dom().contains(default_entry_name(n))
                            &&& exists|row: (Option<u32>, Seq<char>, Seq<char>)|
                                row.0 == Some(n) && final(self).entries() == old(
                                    self,
                                ).entries().insert(default_entry_name(n), row)
                        }))
                },
            },
    {
        let n = match self.next_number() {
            Ok(n) => n,
            Err(e) => {
                return Err(e);
            },
        };
        let entry = Entry::create_default(n, &self.config);
        match exec_entry_exists(&self.conn, entry.name.as_str()) {
            Ok(true) => {
                return Err(StoreError::NameCollision);
            },
            Ok(false) => {},
            Err(_) => {
                return Err(StoreError::IndexUnavailable);
            },
        }
        let ed = entry.entry_string();
        let ad = entry.access_string();
        match exec_insert_entry(
            &mut self.conn,
            entry.number,
            entry.name.as_str(),
            ed.as_str(),
            ad.as_str(),
        ) {
            Ok(_) => {},
            Err(_) => {
                return Err(StoreError::IndexUnavailable);
            },
        }
        if file_exists(entry.path.as_str()) {
            return Err(StoreError::NameCollision);
        }
        Ok(entry)
    }

    /// Creates an entry under the caller's name, with no number, dated
    /// now, and inserts its row. Fails with `NameCollision` when the name
    /// already keys a row (nothing changes) or already names a file (the
    /// file is preserved; the fresh row, inserted while absent, stays). On
    /// success the caller writes the initial file text at the entry's
    /// path.
    pub fn create_custom_entry(&mut self, entry_name: &str) -> (r: Result<Entry, StoreError>)
        ensures
            final(self).config == old(self).config,
            final(self).tags() == old(self).tags(),
            final(self).assocs() == old(self).assocs(),
            match r {
                Ok(e) => {
                    &&& old(self).ready() && final(self).ready()
                    &&& e.name@ == entry_name@ && e.number is None
                    &&& e.path@ == old(self).config.entry_dir@ + "/"@ + entry_name@
                    &&& e.entry_date is Some && e.access_date is Some && e.wf()
                    &&& !old(self).entries().dom().contains(entry_name@)
                    &&& final(self).entries() == old(self).entries().insert(entry_name@, row_of(e))
                },
                Err(e) => {
                    &&& (e == StoreError::NameCollision || e == StoreError::IndexUnavailable)
                    &&& (e == StoreError::IndexUnavailable ==> same_state(
                        old(self).conn,
                        final(self).conn,
                    ))
                    &&& (e == StoreError::NameCollision ==> old(self).ready() && (final(self).entries() == old(self).entries() || exists|
                        row: (Option<u32>, Seq<char>, Seq<char>),
                    |
                        row.0 is None && !old(self).entries().dom().contains(entry_name@)
                            && final(self).entries() == old(self).entries().insert(
                            entry_name@,
                            row,
                        )))
                },
            },
    {
        let entry = Entry::create_custom(&self.config, entry_name);
        match exec_entry_exists(&self.conn, entry.name.as_str()) {
            Ok(true) => {
                return Err(StoreError::NameCollision);
            },
            Ok(false) => {},
            Err(_) => {
                return Err(StoreError::IndexUnavailable);
            },
        }
        let ed = entry.entry_string();
        let ad = entry.access_string();
        match exec_insert_entry(
            &mut self.conn,
            entry.number,
            entry.name.as_str(),
            ed.as_str(),
            ad.as_str(),
        ) {
            Ok(_) => {},
            Err(_) => {
                return Err(StoreError::IndexUnavailable);
            },
        }
        if file_exists(entry.path.as_str()) {
            return Err(StoreError::NameCollision);
        }
        Ok(entry)
    }

    /// Every entry of the index, joined to its derived path, in no implied
    /// order; callers sort with the comparator they need.
    pub fn get_entries(&self) -> (r: Result<Vec<Entry>, StoreError>)
        ensures
            match r {
                Ok(v) => self.ready() && entries_match(
                    v@,
                    self.entries(),
                    self.config.entry_dir@,
                ),
                Err(e) => e == StoreError::IndexUnavailable,
            },
            !self.ready() ==> r is Err,
    {
        let rows = match exec_select_entries(&self.conn) {
            Ok(v) => v,
            Err(_) => {
                return Err(StoreError::IndexUnavailable);
            },
        };
        let ghost rseq = rows@;
        let ghost m = index_entries(self.conn);
        let ghost dir = self.config.entry_dir@;
        let mut rest = rows;
        let mut out: Vec<Entry> = Vec::new();
        while rest.len() > 0
            invariant
                out@.len() + rest@.len() == rseq.len(),
                rest@ == rseq.subrange(out@.len() as int, rseq.len() as int),
                dir == self.config.entry_dir@,
                forall|j: int| 0 <= j < out@.len() ==> (#[trigger] out@[j]).name@ == rseq[j].1@,
                forall|j: int| 0 <= j < out@.len() ==> {
                    let e = #[trigger] out@[j];
                    &&& e.number == rseq[j].0
                    &&& e.path@ == dir + "/"@ + e.name@
                    &&& stamp_matches(e.entry_date, rseq[j].2@)
                    &&& stamp_matches(e.access_date, rseq[j].3@)
                    &&& e.wf()
                },
            decreases rest@.len(),
        {
            let row = rest.remove(0);
            proof {
                assert(row == rseq[out@.len() as int]);
                assert(rest@ =~= rseq.subrange(out@.len() as int + 1, rseq.len() as int));
            }
            let (num, nm, ed, ad) = row;
            let e = Entry::build_from_row(
                self.config.entry_dir.as_str(),
                num,
                nm,
                ed.as_str(),
                ad.as_str(),
            );
            out.push(e);
        }
        proof {
            assert(rows_match(rseq, m));
            assert(out@.len() == rseq.len());
            assert forall|i: int, j: int|
                0 <= i < j < out@.len() implies (#[trigger] out@[i]).name@ != (
            #[trigger] out@[j]).name@ by {
                assert(rseq[i].1@ != rseq[j].1@);
            }
            assert forall|k: Seq<char>| m.dom().contains(k) implies exists|i: int|
                0 <= i < out@.len() && (#[trigger] out@[i]).name@ == k by {
                let i = choose|i: int| 0 <= i < rseq.len() && (#[trigger] rseq[i]).1@ == k;
                assert(out@[i].name@ == k);
            }
            assert forall|i: int| 0 <= i < out@.len() implies {
                let e = #[trigger] out@[i];
                &&& m.dom().contains(e.name@)
                &&& e.number == m[e.name@].0
                &&& e.path@ == dir + "/"@ + e.name@
                &&& stamp_matches(e.entry_date, m[e.name@].1)
                &&& stamp_matches(e.access_date, m[e.name@].2)
                &&& e.wf()
            } by {
                assert(m.dom().contains(rseq[i].1@) && m[rseq[i].1@] == (
                    rseq[i].0,
                    rseq[i].2@,
                    rseq[i].3@,
                ));
            }
        }
        Ok(out)
    }

    /// Stamps `entry` as accessed now and persists the new access text
    /// under its name. Idempotent; when the row is gone the index is left
    /// as it is.
    pub fn update_entry_access_date(&mut self, entry: &mut Entry) -> (r: Result<(), StoreError>)
        ensures
            final(self).config == old(self).config,
            final(self).tags() == old(self).tags(),
            final(self).assocs() == old(self).assocs(),
            final(self).ready() == old(self).ready(),
            match r {
                Ok(_) => {
                    &&& old(self).ready()
                    &&& final(entry).name == old(entry).name
                    &&& final(entry).path == old(entry).path
                    &&& final(entry).number == old(entry).number
                    &&& final(entry).entry_date == old(entry).entry_date
                    &&& match final(entry).access_date {
                        Some(d) => {
                            &&& d.wf()
                            &&& if old(self).entries().dom().contains(old(entry).name@) {
                                final(self).entries() == old(self).entries().insert(
                                    old(entry).name@,
                                    (
                                        old(self).entries()[old(entry).name@].0,
                                        old(self).entries()[old(entry).name@].1,
                                        d.raw@,
                                    ),
                                )
                            } else {
                                final(self).entries() == old(self).entries()
                            }
                        },
                        None => false,
                    }
                },
                Err(e) => {
                    &&& e == StoreError::IndexUnavailable
                    &&& same_state(old(self).conn, final(self).conn)
                    &&& *final(entry) == *old(entry)
                },
            },
    {
        let stamp = now_stamp();
        match exec_update_access(&mut self.conn, stamp.raw.as_str(), entry.name.as_str()) {
            Ok(_) => {
                entry.access_date = Some(stamp);
                Ok(())
            },
            Err(_) => Err(StoreError::IndexUnavailable),
        }
    }

    /// Removes the entry's row — its tag associations cascade away — and
    /// only then is the caller to remove the file at the entry's path, so
    /// a crash between the two leaves at worst an orphan file, never a row
    /// without a file. Deleting a name with no row fails cleanly with
    /// `MissingEntry`.
    pub fn delete_entry(&mut self, entry: &Entry) -> (r: Result<(), StoreError>)
        ensures
            final(self).config == old(self).config,
            final(self).tags() == old(self).tags(),
            final(self).ready() == old(self).ready(),
            match r {
                Ok(_) => {
                    &&& old(self).ready()
                    &&& old(self).entries().dom().contains(entry.name@)
                    &&& final(self).entries() == old(self).entries().remove(entry.name@)
                    &&& final(self).assocs() == old(self).assocs().filter(
                        |p: (Seq<char>, Seq<char>)| p.0 != entry.name@,
                    )
                },
                Err(e) => {
                    &&& same_state(old(self).conn, final(self).conn)
                    &&& (e == StoreError::MissingEntry || e == StoreError::IndexUnavailable)
                    &&& e == StoreError::MissingEntry ==> old(self).ready() && !old(
                        self,
                    ).entries().dom().contains(entry.name@)
                },
            },
    {
        match exec_delete_entry(&mut self.conn, entry.name.as_str()) {
            Ok(n) => {
                if n == 0 {
                    proof {
                        assert(index_entries(old(self).conn).remove(entry.name@)
                            =~= index_entries(old(self).conn));
                    }
                    Err(StoreError::MissingEntry)
                } else {
                    Ok(())
                }
            },
            Err(_) => Err(StoreError::IndexUnavailable),
        }
    }

    /// Re-keys the entry's row to `new_name` — its associations follow —
    /// and renames the entry in memory; the caller is then to rename the
    /// file from the old path to the new one, reporting `PartialRename`
    /// when that second half fails, since the two sides have then
    /// diverged. Fails with `RenameConflict`, changing nothing, when
    /// `new_name` already keys a row; with `MissingEntry` when the entry's
    /// own row is gone.
    pub fn change_name(&mut self, entry: &mut Entry, new_name: &str) -> (r: Result<(), StoreError>)
        ensures
            final(self).config == old(self).config,
            final(self).tags() == old(self).tags(),
            final(self).ready() == old(self).ready(),
            match r {
                Ok(_) => {
                    &&& old(self).ready()
                    &&& !old(self).entries().dom().contains(new_name@)
                    &&& old(self).entries().dom().contains(old(entry).name@)
                    &&& final(self).entries() == old(self).entries().remove(
                        old(entry).name@,
                    ).insert(new_name@, old(self).entries()[old(entry).name@])
                    &&& final(self).assocs() == old(self).assocs().map(
                        (|p: (Seq<char>, Seq<char>)|
                            if p.0 == old(entry).name@ {
                                (new_name@, p.1)
                            } else {
                                p
                            }),
                    )
                    &&& final(entry).name@ == new_name@
                    &&& final(entry).path@ == old(self).config.entry_dir@ + "/"@ + new_name@
                    &&& final(entry).number == old(entry).number
                    &&& final(entry).entry_date == old(entry).entry_date
                    &&& final(entry).access_date == old(entry).access_date
                },
                Err(e) => {
                    &&& same_state(old(self).conn, final(self).conn)
                    &&& *final(entry) == *old(entry)
                    &&& (e == StoreError::RenameConflict || e == StoreError::MissingEntry || e
                        == StoreError::IndexUnavailable)
                    &&& e == StoreError::RenameConflict ==> old(self).ready() && old(
                        self,
                    ).entries().dom().contains(new_name@)
                    &&& e == StoreError::MissingEntry ==> old(self).ready() && !old(
                        self,
                    ).entries().dom().contains(old(entry).name@)
                },
            },
    {
        match exec_entry_exists(&self.conn, new_name) {
            Ok(true) => {
                return Err(StoreError::RenameConflict);
            },
            Ok(false) => {},
            Err(_) => {
                return Err(StoreError::IndexUnavailable);
            },
        }
        match exec_update_name(&mut self.conn, new_name, entry.name.as_str()) {
            Ok(n) => {
                if n == 0 {
                    return Err(StoreError::MissingEntry);
                }
            },
            Err(_) => {
                return Err(StoreError::IndexUnavailable);
            },
        }
        entry.name = String::from_str(new_name);
        entry.path = self.config.get_entry_path(new_name);
        Ok(())
    }

    /// Records a tag name. Fails with `NameCollision`, changing nothing,
    /// when the tag is already recorded.
    pub fn add_tag(&mut self, tag_name: &str) -> (r: Result<(), StoreError>)
        ensures
            final(self).config == old(self).config,
            final(self).entries() == old(self).entries(),
            final(self).assocs() == old(self).assocs(),
            final(self).ready() == old(self).ready(),
            match r {
                Ok(_) => {
                    &&& old(self).ready()
                    &&& !old(self).tags().contains(tag_name@)
                    &&& final(self).tags() == old(self).tags().insert(tag_name@)
                },
                Err(e) => {
                    &&& final(self).tags() == old(self).tags()
                    &&& (e == StoreError::NameCollision || e == StoreError::IndexUnavailable)
                    &&& e == StoreError::NameCollision ==> old(self).ready() && old(
                        self,
                    ).tags().contains(tag_name@)
                },
            },
    {
        match exec_tag_exists(&self.conn, tag_name) {
            Ok(true) => {
                return Err(StoreError::NameCollision);
            },
            Ok(false) => {},
            Err(_) => {
                return Err(StoreError::IndexUnavailable);
            },
        }
        match exec_insert_tag(&mut self.conn, tag_name) {
            Ok(_) => Ok(()),
            Err(_) => Err(StoreError::IndexUnavailable),
        }
    }

    /// Assigns `tag` to `entry`: records the tag if it is new — another
    /// path having already recorded it is tolerated — then records the
    /// association. Fails with `DuplicateAssociation`, changing nothing,
    /// when the pair is already recorded; with `MissingEntry` when the
    /// entry has no row. Either failure leaves every other row standing.
    pub fn assign_tag(&mut self, entry: &Entry, tag: &str) -> (r: Result<(), StoreError>)
        ensures
            final(self).config == old(self).config,
            final(self).entries() == old(self).entries(),
            final(self).ready() == old(self).ready(),
            match r {
                Ok(_) => {
                    &&& old(self).ready()
                    &&& old(self).entries().dom().contains(entry.name@)
                    &&& !old(self).assocs().contains((entry.name@, tag@))
                    &&& final(self).assocs() == old(self).assocs().insert((entry.name@, tag@))
                    &&& final(self).tags() == old(self).tags().insert(tag@)
                },
                Err(e) => {
                    &&& final(self).assocs() == old(self).assocs()
                    &&& (final(self).tags() == old(self).tags() || final(self).tags() == old(
                        self,
                    ).tags().insert(tag@))
                    &&& (e == StoreError::DuplicateAssociation || e == StoreError::MissingEntry
                        || e == StoreError::IndexUnavailable)
                    &&& e == StoreError::DuplicateAssociation ==> old(self).ready() && old(
                        self,
                    ).assocs().contains((entry.name@, tag@))
                    &&& e == StoreError::MissingEntry ==> old(self).ready() && !old(
                        self,
                    ).entries().dom().contains(entry.name@)
                },
            },
    {
        match exec_assoc_exists(&self.conn, entry.name.as_str(), tag) {
            Ok(true) => {
                return Err(StoreError::DuplicateAssociation);
            },
            Ok(false) => {},
            Err(_) => {
                return Err(StoreError::IndexUnavailable);
            },
        }
        match exec_entry_exists(&self.conn, entry.name.as_str()) {
            Ok(true) => {},
            Ok(false) => {
                return Err(StoreError::MissingEntry);
            },
            Err(_) => {
                return Err(StoreError::IndexUnavailable);
            },
        }
        match exec_tag_exists(&self.conn, tag) {
            Ok(true) => {
                proof {
                    assert(index_tags(self.conn).insert(tag@) =~= index_tags(self.conn));
                }
            },
            Ok(false) => {
                match exec_insert_tag(&mut self.conn, tag) {
                    Ok(_) => {},
                    Err(_) => {
                        return Err(StoreError::IndexUnavailable);
                    },
                }
            },
            Err(_) => {
                return Err(StoreError::IndexUnavailable);
            },
        }
        match exec_insert_assoc(&mut self.conn, tag, entry.name.as_str()) {
            Ok(_) => Ok(()),
            Err(_) => Err(StoreError::IndexUnavailable),
        }
    }

    /// Re-derives the index from the filesystem's ground truth: each
    /// scanned file becomes an entry (number extracted from the filename,
    /// creation date read from the first line), the entries are sorted by
    /// number, and each row is inserted in that order. The rebuild is
    /// additive: a row whose name or number is already taken is reported
    /// as a conflict — `false` beside it — and skipped, and the rest are
    /// still processed. The relations are created first if missing.
    pub fn rebuild_database(&mut self, files: &Vec<ScannedFile>) -> (r: Result<
        Vec<(Entry, bool)>,
        StoreError,
    >)
        ensures
            final(self).config == old(self).config,
            final(self).tags() == old(self).tags(),
            final(self).assocs() == old(self).assocs(),
            match r {
                Ok(v) => {
                    &&& final(self).ready()
                    &&& exists|built: Seq<Entry>|
                        {
                            &&& #[trigger] built.len() == files@.len()
                            &&& (forall|i: int|
                                0 <= i < built.len() ==> built_from(
                                    old(self).config.entry_dir@,
                                    files@[i],
                                    #[trigger] built[i],
                                ))
                            &&& v@.len() == stable_sort(num_le_f(), built).len()
                            &&& (forall|i: int|
                                0 <= i < v@.len() ==> (#[trigger] v@[i]).0 == stable_sort(
                                    num_le_f(),
                                    built,
                                )[i])
                            &&& (forall|i: int|
                                0 <= i < v@.len() ==> (#[trigger] v@[i]).1 == can_insert(
                                    rebuild_fold(
                                        old(self).entries(),
                                        stable_sort(num_le_f(), built).take(i),
                                    ),
                                    stable_sort(num_le_f(), built)[i],
                                ))
                            &&& final(self).entries() == rebuild_fold(
                                old(self).entries(),
                                stable_sort(num_le_f(), built),
                            )
                        }
                },
                Err(e) => e == StoreError::IndexUnavailable,
            },
    {
        match self.init_tables() {
            Ok(_) => {},
            Err(_) => {
                return Err(StoreError::IndexUnavailable);
            },
        }
        let ghost dir = self.config.entry_dir@;
        let mut built: Vec<Entry> = Vec::new();
        let mut fi: usize = 0;
        while fi < files.len()
            invariant
                fi <= files@.len(),
                built@.len() == fi,
                dir == self.config.entry_dir@,
                forall|i: int|
                    0 <= i < fi ==> built_from(dir, files@[i], #[trigger] built@[i]),
            decreases files@.len() - fi,
        {
            let f = &files[fi];
            let first_line: Option<&str> = match &f.first_line {
                Some(l) => Some(l.as_str()),
                None => None,
            };
            let e = Entry::from_file(self.config.entry_dir.as_str(), f.name.as_str(), first_line);
            built.push(e);
            fi += 1;
        }
        let ghost built_seq = built@;
        sort_entries_by_number(&mut built);
        let ghost sorted_seq = built@;
        let ghost m0 = index_entries(self.conn);
        let mut out: Vec<(Entry, bool)> = Vec::new();
        let mut rest = built;
        while rest.len() > 0
            invariant
                out@.len() + rest@.len() == sorted_seq.len(),
                rest@ == sorted_seq.subrange(out@.len() as int, sorted_seq.len() as int),
                index_ready(self.conn),
                index_entries(self.conn) == rebuild_fold(m0, sorted_seq.take(out@.len() as int)),
                index_tags(self.conn) == index_tags(old(self).conn),
                index_assocs(self.conn) == index_assocs(old(self).conn),
                self.config == old(self).config,
                forall|j: int|
                    0 <= j < out@.len() ==> (#[trigger] out@[j]).0 == sorted_seq[j] && out@[j].1
                        == can_insert(rebuild_fold(m0, sorted_seq.take(j)), sorted_seq[j]),
            decreases rest@.len(),
        {
            let ghost i = out@.len() as int;
            let ghost m_here = rebuild_fold(m0, sorted_seq.take(i));
            let e = rest.remove(0);
            proof {
                assert(e == sorted_seq[i]);
                assert(rest@ =~= sorted_seq.subrange(i + 1, sorted_seq.len() as int));
                assert(sorted_seq.take(i + 1).drop_last() =~= sorted_seq.take(i));
                assert(sorted_seq.take(i + 1) =~= sorted_seq.take(i).push(sorted_seq[i]));
            }
            let name_taken = match exec_entry_exists(&self.conn, e.name.as_str()) {
                Ok(b) => b,
                Err(_) => {
                    return Err(StoreError::IndexUnavailable);
                },
            };
            let num_taken = match e.number {
                Some(n) => match exec_number_exists(&self.conn, n) {
                    Ok(b) => b,
                    Err(_) => {
                        return Err(StoreError::IndexUnavailable);
                    },
                },
                None => false,
            };
            if name_taken || num_taken {
                proof {
                    assert(!can_insert(m_here, e));
                    lemma_rebuild_fold_snoc(m0, sorted_seq.take(i), e);
                    assert(rebuild_fold(m0, sorted_seq.take(i + 1)) == m_here);
                }
                out.push((e, false));
            } else {
                proof {
                    assert(can_insert(m_here, e));
                }
                let ed = e.entry_string();
                let ad = e.access_string();
                match exec_insert_entry(
                    &mut self.conn,
                    e.number,
                    e.name.as_str(),
                    ed.as_str(),
                    ad.as_str(),
                ) {
                    Ok(_) => {},
                    Err(_) => {
                        return Err(StoreError::IndexUnavailable);
                    },
                }
                proof {
                    lemma_rebuild_fold_snoc(m0, sorted_seq.take(i), e);
                    assert(index_entries(self.conn) == m_here.insert(e.name@, row_of(e)));
                    assert(rebuild_fold(m0, sorted_seq.take(i + 1)) == m_here.insert(
                        e.name@,
                        row_of(e),
                    ));
                }
                out.push((e, true));
            }
        }
        proof {
            assert(sorted_seq.take(sorted_seq.len() as int) =~= sorted_seq);
            assert(built_seq.len() == files@.len());
            assert(sorted_seq == stable_sort(num_le_f(), built_seq));
        }
        Ok(out)
    }
}

} // verus!
