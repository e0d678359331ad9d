//! Durable document store and index-task queue.
//!
//! The store is a SQLite database holding the authoritative document table
//! and the task queue that drives secondary-index catch-up. Its contents are
//! modeled as two maps keyed by document id; every SQL statement sits behind
//! a trusted wrapper whose contract states its effect on those maps.

use vstd::prelude::*;
use rusqlite::OptionalExtension;

verus! {

/// State of an index task. `Failed` rows stay eligible for retry: the sync
/// worker selects every row whose status is not `Done`.
#[derive(Clone, Copy, Debug, PartialEq, Eq, Structural)]
pub enum TaskStatus {
    Pending,
    Failed,
    Done,
}

/// Model of one document row.
pub struct DocRow {
    pub collection: Seq<char>,
    pub path: Seq<char>,
    pub content: Seq<char>,
    pub updated_at: i64,
    pub indexed_at: Option<i64>,
    pub embedding_json: Option<Seq<char>>,
}

/// Model of one task row.
pub struct TaskRow {
    pub need_text: bool,
    pub need_vector: bool,
    pub status: TaskStatus,
    pub retries: u64,
    pub last_error: Option<Seq<char>>,
    pub updated_at: i64,
}

#[verifier::external_type_specification]
#[verifier::external_body]
pub struct ExConnection(rusqlite::Connection);

/// The document table of a connection's database, keyed by document id.
pub uninterp spec fn db_docs(c: rusqlite::Connection) -> Map<u64, DocRow>;

/// The task table of a connection's database, keyed by document id.
pub uninterp spec fn db_tasks(c: rusqlite::Connection) -> Map<u64, TaskRow>;

/// `(collection, path)` is unique across rows: no two ids carry the same key.
pub open spec fn docs_unique(m: Map<u64, DocRow>) -> bool {
    forall|i: u64, j: u64|
        m.contains_key(i) && m.contains_key(j) && i != j ==> !(#[trigger] m[i].collection
            == #[trigger] m[j].collection && m[i].path == m[j].path)
}

/// Row `id` exists and carries the key `(c, p)`.
pub open spec fn doc_key_at(m: Map<u64, DocRow>, id: u64, c: Seq<char>, p: Seq<char>) -> bool {
    m.contains_key(id) && m[id].collection == c && m[id].path == p
}

pub open spec fn has_doc_key(m: Map<u64, DocRow>, c: Seq<char>, p: Seq<char>) -> bool {
    exists|id: u64| doc_key_at(m, id, c, p)
}

/// Effect of one document upsert: the row for `(c, p)` is written whole with
/// a fresh `indexed_at` of `None`; the id is reused when the key existed and
/// fresh otherwise.
pub open spec fn doc_upsert_effect(
    pre: Map<u64, DocRow>,
    post: Map<u64, DocRow>,
    id: u64,
    c: Seq<char>,
    p: Seq<char>,
    ct: Seq<char>,
    ts: i64,
    ej: Option<Seq<char>>,
) -> bool {
    &&& post == pre.insert(
        id,
        DocRow {
            collection: c,
            path: p,
            content: ct,
            updated_at: ts,
            indexed_at: None,
            embedding_json: ej,
        },
    )
    &&& has_doc_key(pre, c, p) ==> doc_key_at(pre, id, c, p)
    &&& !has_doc_key(pre, c, p) ==> !pre.contains_key(id)
}

/// Effect of one task upsert: flags and status reset, timestamp rewritten,
/// `retries` and `last_error` kept on conflict and zeroed on a fresh row.
pub open spec fn task_upsert_effect(
    pre: Map<u64, TaskRow>,
    post: Map<u64, TaskRow>,
    id: u64,
    ts: i64,
) -> bool {
    post == pre.insert(
        id,
        TaskRow {
            need_text: true,
            need_vector: true,
            status: TaskStatus::Pending,
            retries: if pre.contains_key(id) { pre[id].retries } else { 0 },
            last_error: if pre.contains_key(id) { pre[id].last_error } else { None },
            updated_at: ts,
        },
    )
}

/// The view of an optional borrowed string.
pub open spec fn opt_str_view(o: Option<&str>) -> Option<Seq<char>> {
    match o {
        Some(s) => Some(s@),
        None => None,
    }
}


/// A valid pending-task selection: up to `limit` distinct not-done task
/// ids in ascending `updated_at` order — the oldest ones first, so that no
/// unselected stale task is older than a selected one — and exhaustive
/// whenever fewer than `limit` stale tasks exist.
pub open spec fn sel_ok(sel: Seq<u64>, tasks: Map<u64, TaskRow>, limit: usize) -> bool {
    &&& sel.len() <= limit
    &&& forall|i: int, j: int| 0 <= i < j < sel.len() ==> sel[i] != sel[j]
    &&& forall|i: int| 0 <= i < sel.len() ==> tasks.contains_key(#[trigger] sel[i])
        && tasks[sel[i]].status != TaskStatus::Done
    &&& forall|i: int, j: int| 0 <= i < j < sel.len() ==> tasks[#[trigger] sel[i]].updated_at
        <= tasks[#[trigger] sel[j]].updated_at
    &&& forall|id: u64, i: int|
        tasks.contains_key(id) && (#[trigger] tasks[id]).status != TaskStatus::Done
            && !sel.contains(id) && 0 <= i < sel.len()
            ==> tasks[#[trigger] sel[i]].updated_at <= tasks[id].updated_at
    &&& sel.len() < limit ==> forall|id: u64|
        tasks.contains_key(id) && (#[trigger] tasks[id]).status != TaskStatus::Done
            ==> sel.contains(id)
}

/// A document fetched back out of the store.
pub struct FetchedDoc {
    pub collection: String,
    pub path: String,
    pub content: String,
    pub embedding_json: Option<String>,
}

/// A task row read back for triage.
pub struct TaskView {
    pub status: TaskStatus,
    pub retries: u64,
    pub last_error: Option<String>,
    pub updated_at: i64,
}

/// The durable, single-writer document store.
pub struct Store {
    conn: rusqlite::Connection,
}

impl Store {
    pub closed spec fn docs(self) -> Map<u64, DocRow> {
        db_docs(self.conn)
    }

    pub closed spec fn tasks(self) -> Map<u64, TaskRow> {
        db_tasks(self.conn)
    }

    pub open spec fn wf(self) -> bool {
        docs_unique(self.docs())
    }

    /// Relies on rusqlite's `Connection::open`, `pragma_update` and
    /// `execute_batch`: opens (or creates) the database file under `dir`,
    /// switches it to write-ahead journaling, and creates the two tables if
    /// absent. The `UNIQUE(collection, path)` constraint is what upholds key
    /// uniqueness over whatever rows the file already held; a foreign file
    /// whose pre-existing documents table lacks that constraint is outside
    /// this model.
    #[verifier::external_body]
    fn open_connection(dir: &str, file: &str) -> (r: Result<Self, String>)
        ensures
            r matches Ok(s) ==> s.wf(),
    {
        let path = std::path::Path::new(dir).join(file);
        let conn = rusqlite::Connection::open(path).map_err(|e| e.to_string())?;
        conn.pragma_update(None, "journal_mode", "WAL").map_err(|e| e.to_string())?;
        conn.execute_batch(
            "CREATE TABLE IF NOT EXISTS documents (id INTEGER PRIMARY KEY AUTOINCREMENT, collection TEXT NOT NULL, path TEXT NOT NULL, content TEXT NOT NULL, updated_at_unix_ms INTEGER, indexed_at_unix_ms INTEGER, embedding_json TEXT, UNIQUE(collection, path));
             CREATE TABLE IF NOT EXISTS index_tasks (doc_id INTEGER PRIMARY KEY, need_text INTEGER NOT NULL, need_vector INTEGER NOT NULL, status TEXT NOT NULL, retries INTEGER NOT NULL DEFAULT 0, last_error TEXT, updated_at_unix_ms INTEGER NOT NULL);",
        ).map_err(|e| e.to_string())?;
        Ok(Store { conn })
    }

    /// Relies on rusqlite's `prepare` / `query_map` over
    /// `PRAGMA table_info(documents)`: the names of the document table's
    /// columns, in whatever state an older store file left them.
    #[verifier::external_body]
    fn document_columns(&self) -> (r: Result<Vec<String>, String>)
    {
        let mut stmt = self.conn.prepare("PRAGMA table_info(documents)").map_err(|e| e.to_string())?;
        let rows = stmt.query_map((), |row| row.get::<_, String>(1)).map_err(|e| e.to_string())?;
        let mut out = Vec::new();
        for r in rows {
            out.push(r.map_err(|e| e.to_string())?);
        }
        Ok(out)
    }

    /// Relies on rusqlite's `Connection::execute` running `ALTER TABLE
    /// documents ADD COLUMN indexed_at_unix_ms INTEGER`: it succeeds only
    /// when the column was absent, upon which every existing row reads NULL
    /// there; rows, keys and the other columns are untouched.
    #[verifier::external_body]
    fn add_indexed_at_column(&mut self) -> (r: Result<(), String>)
        ensures
            r matches Ok(_) ==> forall|id: u64| final(self).docs().contains_key(id)
                <==> old(self).docs().contains_key(id),
            r matches Ok(_) ==> forall|id: u64| old(self).docs().contains_key(id)
                ==> #[trigger] final(self).docs()[id] == (DocRow {
                    indexed_at: None,
                    ..old(self).docs()[id]
                }),
            r matches Err(_) ==> final(self).docs() == old(self).docs(),
            final(self).tasks() == old(self).tasks(),
    {
        self.conn.execute("ALTER TABLE documents ADD COLUMN indexed_at_unix_ms INTEGER", ())
            .map_err(|e| e.to_string())?;
        Ok(())
    }

    /// Relies on rusqlite's `Connection::execute` running `ALTER TABLE
    /// documents ADD COLUMN embedding_json TEXT`, as above: fresh column,
    /// NULL in every existing row, everything else untouched.
    #[verifier::external_body]
    fn add_embedding_column(&mut self) -> (r: Result<(), String>)
        ensures
            r matches Ok(_) ==> forall|id: u64| final(self).docs().contains_key(id)
                <==> old(self).docs().contains_key(id),
            r matches Ok(_) ==> forall|id: u64| old(self).docs().contains_key(id)
                ==> #[trigger] final(self).docs()[id] == (DocRow {
                    embedding_json: None,
                    ..old(self).docs()[id]
                }),
            r matches Err(_) ==> final(self).docs() == old(self).docs(),
            final(self).tasks() == old(self).tasks(),
    {
        self.conn.execute("ALTER TABLE documents ADD COLUMN embedding_json TEXT", ())
            .map_err(|e| e.to_string())?;
        Ok(())
    }

    /// Open or create the store file `memoscore.sqlite` under `dir`, adding
    /// the additive columns that an older store file may still lack.
    pub fn open(dir: &str) -> (r: Result<Self, String>)
        ensures
            r matches Ok(s) ==> s.wf(),
    {
        let mut store = Self::open_connection(dir, "memoscore.sqlite")?;
        let cols = store.document_columns()?;
        if !contains_str(&cols, "indexed_at_unix_ms") {
            let ghost d0 = store.docs();
            let r = store.add_indexed_at_column();
            proof {
                if r is Ok {
                    lemma_same_keys_unique(d0, store.docs());
                }
            }
            r?;
        }
        if !contains_str(&cols, "embedding_json") {
            let ghost d1 = store.docs();
            let r = store.add_embedding_column();
            proof {
                if r is Ok {
                    lemma_same_keys_unique(d1, store.docs());
                }
            }
            r?;
        }
        Ok(store)
    }

    /// Relies on rusqlite's `Connection::execute` running
    /// `INSERT .. ON CONFLICT(collection, path) DO UPDATE`: the row for the
    /// key is inserted or overwritten in place, `indexed_at_unix_ms` reset to
    /// NULL, and the id reused on conflict (SQLite updates the existing row)
    /// or freshly assigned by AUTOINCREMENT otherwise.
    #[verifier::external_body]
    fn upsert_doc_row(
        &mut self,
        collection: &str,
        path: &str,
        content: &str,
        updated_at: i64,
        embedding_json: Option<&str>,
    ) -> (r: Result<(), String>)
        ensures
            r matches Ok(_) ==> exists|id: u64|
                #[trigger] doc_upsert_effect(
                    db_docs(old(self).conn),
                    db_docs(final(self).conn),
                    id,
                    collection@,
                    path@,
                    content@,
                    updated_at,
                    opt_str_view(embedding_json),
                ),
            r matches Err(_) ==> final(self).docs() == old(self).docs(),
            final(self).tasks() == old(self).tasks(),
    {
        self.conn.execute(
            "INSERT INTO documents(collection, path, content, updated_at_unix_ms, indexed_at_unix_ms, embedding_json) VALUES (?1, ?2, ?3, ?4, NULL, ?5)
             ON CONFLICT(collection, path) DO UPDATE SET content=excluded.content, updated_at_unix_ms=excluded.updated_at_unix_ms, indexed_at_unix_ms=NULL, embedding_json=excluded.embedding_json",
            (collection, path, content, updated_at, embedding_json),
        ).map_err(|e| e.to_string())?;
        Ok(())
    }

    /// Relies on rusqlite's `Connection::query_row` over
    /// `SELECT id FROM documents WHERE collection=? AND path=?`.
    #[verifier::external_body]
    fn doc_id_for(&self, collection: &str, path: &str) -> (r: Result<Option<u64>, String>)
        ensures
            r matches Ok(Some(id)) ==> doc_key_at(self.docs(), id, collection@, path@),
            r matches Ok(None) ==> !has_doc_key(self.docs(), collection@, path@),
    {
        let got: Option<i64> = self.conn.query_row(
            "SELECT id FROM documents WHERE collection=?1 AND path=?2",
            (collection, path),
            |row| row.get(0),
        ).optional().map_err(|e| e.to_string())?;
        Ok(got.map(|v| v as u64))
    }

    /// Relies on rusqlite's `Connection::execute` running
    /// `INSERT .. ON CONFLICT(doc_id) DO UPDATE` on the task table: flags and
    /// status are reset whole; `retries` and `last_error` are left untouched
    /// by the conflict arm and start at 0 / NULL on a fresh row.
    #[verifier::external_body]
    fn upsert_task_row(&mut self, doc_id: u64, updated_at: i64) -> (r: Result<(), String>)
        ensures
            r matches Ok(_) ==> task_upsert_effect(
                db_tasks(old(self).conn),
                db_tasks(final(self).conn),
                doc_id,
                updated_at,
            ),
            r matches Err(_) ==> final(self).tasks() == old(self).tasks(),
            final(self).docs() == old(self).docs(),
    {
        self.conn.execute(
            "INSERT INTO index_tasks(doc_id, need_text, need_vector, status, retries, last_error, updated_at_unix_ms) VALUES (?1, 1, 1, 'pending', 0, NULL, ?2)
             ON CONFLICT(doc_id) DO UPDATE SET need_text=1, need_vector=1, status='pending', updated_at_unix_ms=excluded.updated_at_unix_ms",
            (doc_id as i64, updated_at),
        ).map_err(|e| e.to_string())?;
        Ok(())
    }

    /// Insert or overwrite the document at `(collection, path)` and reset its
    /// index task to pending, returning the stable document id.
    pub fn upsert(
        &mut self,
        collection: &str,
        path: &str,
        content: &str,
        updated_at: i64,
        embedding_json: Option<&str>,
    ) -> (r: Result<u64, String>)
        requires
            old(self).wf(),
        ensures
            final(self).wf(),
            r matches Ok(id) ==> doc_upsert_effect(
                old(self).docs(),
                final(self).docs(),
                id,
                collection@,
                path@,
                content@,
                updated_at,
                opt_str_view(embedding_json),
            ) && task_upsert_effect(old(self).tasks(), final(self).tasks(), id, updated_at),
            r matches Err(_) ==> final(self).tasks() == old(self).tasks() && (final(self).docs()
                == old(self).docs() || exists|id: u64|
                #[trigger] doc_upsert_effect(
                    old(self).docs(),
                    final(self).docs(),
                    id,
                    collection@,
                    path@,
                    content@,
                    updated_at,
                    opt_str_view(embedding_json),
                )),
    {
        let ghost pre_docs = self.docs();
        let ghost ej: Option<Seq<char>> = match embedding_json {
            Some(s) => Some(s@),
            None => None,
        };
        self.upsert_doc_row(collection, path, content, updated_at, embedding_json)?;
        proof {
            let id0 = choose|id0: u64|
                doc_upsert_effect(
                    pre_docs,
                    self.docs(),
                    id0,
                    collection@,
                    path@,
                    content@,
                    updated_at,
                    ej,
                );
            lemma_doc_upsert_unique(
                pre_docs,
                self.docs(),
                id0,
                collection@,
                path@,
                content@,
                updated_at,
                ej,
            );
        }
        let found = self.doc_id_for(collection, path)?;
        match found {
            Some(id) => {
                proof {
                    let id0 = choose|id0: u64|
                        doc_upsert_effect(
                            pre_docs,
                            self.docs(),
                            id0,
                            collection@,
                            path@,
                            content@,
                            updated_at,
                            ej,
                        );
                    assert(doc_key_at(self.docs(), id0, collection@, path@));
                    assert(id == id0);
                }
                self.upsert_task_row(id, updated_at)?;
                Ok(id)
            },
            None => {
                // unreachable: the row for this key was just written
                proof {
                    let id0 = choose|id0: u64|
                        doc_upsert_effect(
                            pre_docs,
                            self.docs(),
                            id0,
                            collection@,
                            path@,
                            content@,
                            updated_at,
                            ej,
                        );
                    assert(doc_key_at(self.docs(), id0, collection@, path@));
                }
                Err(String::new())
            },
        }
    }

    /// Relies on rusqlite's `Connection::query_row` over
    /// `SELECT collection, path, content, embedding_json FROM documents WHERE id=?`.
    #[verifier::external_body]
    fn fetch_row(&self, doc_id: u64) -> (r: Result<Option<FetchedDoc>, String>)
        ensures
            r matches Ok(Some(d)) ==> self.docs().contains_key(doc_id)
                && d.collection@ == self.docs()[doc_id].collection
                && d.path@ == self.docs()[doc_id].path
                && d.content@ == self.docs()[doc_id].content
                && (match d.embedding_json {
                    Some(s) => self.docs()[doc_id].embedding_json == Some(s@),
                    None => self.docs()[doc_id].embedding_json is None,
                }),
            r matches Ok(None) ==> !self.docs().contains_key(doc_id),
    {
        let got = self.conn.query_row(
            "SELECT collection, path, content, embedding_json FROM documents WHERE id=?1",
            (doc_id as i64,),
            |row| {
                Ok(FetchedDoc {
                    collection: row.get(0)?,
                    path: row.get(1)?,
                    content: row.get(2)?,
                    embedding_json: row.get(3)?,
                })
            },
        ).optional().map_err(|e| e.to_string())?;
        Ok(got)
    }

    /// Look a document up by id; `None` when no row carries that id.
    pub fn fetch(&self, doc_id: u64) -> (r: Result<Option<FetchedDoc>, String>)
        ensures
            r matches Ok(Some(d)) ==> self.docs().contains_key(doc_id)
                && d.collection@ == self.docs()[doc_id].collection
                && d.path@ == self.docs()[doc_id].path
                && d.content@ == self.docs()[doc_id].content
                && (match d.embedding_json {
                    Some(s) => self.docs()[doc_id].embedding_json == Some(s@),
                    None => self.docs()[doc_id].embedding_json is None,
                }),
            r matches Ok(None) ==> !self.docs().contains_key(doc_id),
    {
        self.fetch_row(doc_id)
    }

    /// Relies on rusqlite's `Connection::query_row` over
    /// `SELECT updated_at_unix_ms, indexed_at_unix_ms FROM documents WHERE id=?`.
    #[verifier::external_body]
    fn doc_times_row(&self, doc_id: u64) -> (r: Result<Option<(i64, Option<i64>)>, String>)
        ensures
            r matches Ok(Some(t)) ==> self.docs().contains_key(doc_id)
                && t.0 == self.docs()[doc_id].updated_at
                && t.1 == self.docs()[doc_id].indexed_at,
            r matches Ok(None) ==> !self.docs().contains_key(doc_id),
    {
        let got = self.conn.query_row(
            "SELECT updated_at_unix_ms, indexed_at_unix_ms FROM documents WHERE id=?1",
            (doc_id as i64,),
            |row| Ok((row.get(0)?, row.get(1)?)),
        ).optional().map_err(|e| e.to_string())?;
        Ok(got)
    }

    /// The `(updated_at, indexed_at)` timestamps of a document.
    pub fn doc_times(&self, doc_id: u64) -> (r: Result<Option<(i64, Option<i64>)>, String>)
        ensures
            r matches Ok(Some(t)) ==> self.docs().contains_key(doc_id)
                && t.0 == self.docs()[doc_id].updated_at
                && t.1 == self.docs()[doc_id].indexed_at,
            r matches Ok(None) ==> !self.docs().contains_key(doc_id),
    {
        self.doc_times_row(doc_id)
    }

    /// Relies on rusqlite's `Connection::prepare` / `query_map` over
    /// `SELECT doc_id FROM index_tasks WHERE status!='done' ORDER BY
    /// updated_at_unix_ms ASC LIMIT ?`: up to `limit` not-done task ids,
    /// oldest first — when it truncates, nothing unselected is older than a
    /// selected id — and all of them whenever fewer than `limit` exist.
    #[verifier::external_body]
    fn pending_rows(&self, limit: usize) -> (r: Result<Vec<u64>, String>)
        ensures
            r matches Ok(v) ==> sel_ok(v@, self.tasks(), limit),
    {
        let mut stmt = self.conn.prepare(
            "SELECT doc_id FROM index_tasks WHERE status!='done' ORDER BY updated_at_unix_ms ASC LIMIT ?1",
        ).map_err(|e| e.to_string())?;
        let rows = stmt.query_map((limit as i64,), |row| row.get::<_, i64>(0))
            .map_err(|e| e.to_string())?;
        let mut out: Vec<u64> = Vec::new();
        for r in rows {
            out.push(r.map_err(|e| e.to_string())? as u64);
        }
        Ok(out)
    }

    /// Up to `limit` ids of tasks not yet done, oldest first; exhaustive
    /// whenever fewer than `limit` such tasks exist.
    pub fn pending_tasks(&self, limit: usize) -> (r: Result<Vec<u64>, String>)
        ensures
            r matches Ok(v) ==> sel_ok(v@, self.tasks(), limit),
    {
        self.pending_rows(limit)
    }

    /// Relies on rusqlite's `Connection::execute` running
    /// `UPDATE index_tasks SET status='done', last_error=NULL WHERE doc_id=?`.
    #[verifier::external_body]
    fn task_done_row(&mut self, doc_id: u64) -> (r: Result<(), String>)
        ensures
            r matches Ok(_) ==> final(self).tasks() == (if old(self).tasks().contains_key(doc_id) {
                old(self).tasks().insert(
                    doc_id,
                    TaskRow {
                        status: TaskStatus::Done,
                        last_error: None,
                        ..old(self).tasks()[doc_id]
                    },
                )
            } else {
                old(self).tasks()
            }),
            r matches Err(_) ==> final(self).tasks() == old(self).tasks(),
            final(self).docs() == old(self).docs(),
    {
        self.conn.execute(
            "UPDATE index_tasks SET status='done', last_error=NULL WHERE doc_id=?1",
            (doc_id as i64,),
        ).map_err(|e| e.to_string())?;
        Ok(())
    }

    /// Retire the task for `doc_id`: status done, error cleared.
    pub fn mark_task_done(&mut self, doc_id: u64) -> (r: Result<(), String>)
        ensures
            r matches Ok(_) ==> final(self).tasks() == (if old(self).tasks().contains_key(doc_id) {
                old(self).tasks().insert(
                    doc_id,
                    TaskRow {
                        status: TaskStatus::Done,
                        last_error: None,
                        ..old(self).tasks()[doc_id]
                    },
                )
            } else {
                old(self).tasks()
            }),
            r matches Err(_) ==> final(self).tasks() == old(self).tasks(),
            final(self).docs() == old(self).docs(),
    {
        self.task_done_row(doc_id)
    }

    /// Relies on rusqlite's `Connection::execute` running
    /// `UPDATE documents SET indexed_at_unix_ms=? WHERE id=?`.
    #[verifier::external_body]
    fn doc_indexed_row(&mut self, doc_id: u64, indexed_at: i64) -> (r: Result<(), String>)
        ensures
            r matches Ok(_) ==> final(self).docs() == (if old(self).docs().contains_key(doc_id) {
                old(self).docs().insert(
                    doc_id,
                    DocRow { indexed_at: Some(indexed_at), ..old(self).docs()[doc_id] },
                )
            } else {
                old(self).docs()
            }),
            r matches Err(_) ==> final(self).docs() == old(self).docs(),
            final(self).tasks() == old(self).tasks(),
    {
        self.conn.execute(
            "UPDATE documents SET indexed_at_unix_ms=?2 WHERE id=?1",
            (doc_id as i64, indexed_at),
        ).map_err(|e| e.to_string())?;
        Ok(())
    }

    /// Record the moment `doc_id` was fully indexed.
    pub fn set_doc_indexed(&mut self, doc_id: u64, indexed_at: i64) -> (r: Result<(), String>)
        requires
            old(self).wf(),
        ensures
            final(self).wf(),
            r matches Ok(_) ==> final(self).docs() == (if old(self).docs().contains_key(doc_id) {
                old(self).docs().insert(
                    doc_id,
                    DocRow { indexed_at: Some(indexed_at), ..old(self).docs()[doc_id] },
                )
            } else {
                old(self).docs()
            }),
            r matches Err(_) ==> final(self).docs() == old(self).docs(),
            final(self).tasks() == old(self).tasks(),
    {
        let r = self.doc_indexed_row(doc_id, indexed_at);
        proof {
            if r is Ok && old(self).docs().contains_key(doc_id) {
                lemma_same_keys_unique(old(self).docs(), self.docs());
            }
        }
        r
    }

    /// Relies on rusqlite's `Connection::execute` running `UPDATE index_tasks
    /// SET status='failed', retries=retries+1, last_error=? WHERE doc_id=?`.
    #[verifier::external_body]
    fn task_failed_row(&mut self, doc_id: u64, error: &str) -> (r: Result<(), String>)
        ensures
            r matches Ok(_) ==> final(self).tasks() == (if old(self).tasks().contains_key(doc_id) {
                old(self).tasks().insert(
                    doc_id,
                    TaskRow {
                        status: TaskStatus::Failed,
                        retries: (old(self).tasks()[doc_id].retries + 1) as u64,
                        last_error: Some(error@),
                        ..old(self).tasks()[doc_id]
                    },
                )
            } else {
                old(self).tasks()
            }),
            r matches Err(_) ==> final(self).tasks() == old(self).tasks(),
            final(self).docs() == old(self).docs(),
    {
        self.conn.execute(
            "UPDATE index_tasks SET status='failed', retries=retries+1, last_error=?2 WHERE doc_id=?1",
            (doc_id as i64, error),
        ).map_err(|e| e.to_string())?;
        Ok(())
    }

    /// Record a task failure: status failed, retry count up, error kept.
    pub fn mark_task_failed(&mut self, doc_id: u64, error: &str) -> (r: Result<(), String>)
        ensures
            r matches Ok(_) ==> final(self).tasks() == (if old(self).tasks().contains_key(doc_id) {
                old(self).tasks().insert(
                    doc_id,
                    TaskRow {
                        status: TaskStatus::Failed,
                        retries: (old(self).tasks()[doc_id].retries + 1) as u64,
                        last_error: Some(error@),
                        ..old(self).tasks()[doc_id]
                    },
                )
            } else {
                old(self).tasks()
            }),
            r matches Err(_) ==> final(self).tasks() == old(self).tasks(),
            final(self).docs() == old(self).docs(),
    {
        self.task_failed_row(doc_id, error)
    }

    /// Relies on rusqlite's `Connection::query_row` over `SELECT need_text,
    /// need_vector, status, retries, last_error, updated_at_unix_ms FROM
    /// index_tasks WHERE doc_id=?`; the status strings are the three written
    /// by this store.
    #[verifier::external_body]
    fn task_row(&self, doc_id: u64) -> (r: Result<Option<TaskView>, String>)
        ensures
            r matches Ok(Some(t)) ==> self.tasks().contains_key(doc_id)
                && t.status == self.tasks()[doc_id].status
                && t.retries == self.tasks()[doc_id].retries
                && t.updated_at == self.tasks()[doc_id].updated_at
                && (match t.last_error {
                    Some(s) => self.tasks()[doc_id].last_error == Some(s@),
                    None => self.tasks()[doc_id].last_error is None,
                }),
            r matches Ok(None) ==> !self.tasks().contains_key(doc_id),
    {
        let q = "SELECT status, retries, last_error, updated_at_unix_ms FROM index_tasks WHERE doc_id=?1";
        let got = self.conn.query_row(q, (doc_id as i64,), |row| {
            let status = match row.get::<_, String>(0)?.as_str() {
                "done" => TaskStatus::Done,
                "failed" => TaskStatus::Failed,
                _ => TaskStatus::Pending,
            };
            let (retries, last_error, updated_at) = (row.get::<_, i64>(1)? as u64, row.get(2)?, row.get(3)?);
            Ok(TaskView { status, retries, last_error, updated_at })
        }).optional().map_err(|e| e.to_string())?;
        Ok(got)
    }

    /// The task row for `doc_id`, for operator triage.
    pub fn task_state(&self, doc_id: u64) -> (r: Result<Option<TaskView>, String>)
        ensures
            r matches Ok(Some(t)) ==> self.tasks().contains_key(doc_id)
                && t.status == self.tasks()[doc_id].status
                && t.retries == self.tasks()[doc_id].retries
                && t.updated_at == self.tasks()[doc_id].updated_at
                && (match t.last_error {
                    Some(s) => self.tasks()[doc_id].last_error == Some(s@),
                    None => self.tasks()[doc_id].last_error is None,
                }),
            r matches Ok(None) ==> !self.tasks().contains_key(doc_id),
    {
        self.task_row(doc_id)
    }
}


/// Whether some element of `v` equals `s`.
fn contains_str(v: &Vec<String>, s: &str) -> (r: bool)
    ensures
        r <==> exists|i: int| 0 <= i < v@.len() && (#[trigger] v@[i])@ == s@,
{
    let mut i: usize = 0;
    while i < v.len()
        invariant
            i <= v@.len(),
            forall|k: int| 0 <= k < i ==> (#[trigger] v@[k])@ != s@,
        decreases v@.len() - i,
    {
        if str_eq(v[i].as_str(), s) {
            return true;
        }
        i += 1;
    }
    false
}

/// Relies on str's `PartialEq`: equal exactly when the character sequences
/// are equal.
#[verifier::external_body]
pub(crate) fn str_eq(a: &str, b: &str) -> (r: bool)
    ensures
        r <==> a@ == b@,
{
    a == b
}

/// A write that keeps the key set and every row's `(collection, path)`
/// preserves key uniqueness.
proof fn lemma_same_keys_unique(pre: Map<u64, DocRow>, post: Map<u64, DocRow>)
    requires
        docs_unique(pre),
        forall|id: u64| post.contains_key(id) <==> pre.contains_key(id),
        forall|id: u64| post.contains_key(id) ==> #[trigger] post[id].collection
            == pre[id].collection && post[id].path == pre[id].path,
    ensures
        docs_unique(post),
{
}

/// One document upsert keeps `(collection, path)` unique across rows.
pub proof fn lemma_doc_upsert_unique(
    pre: Map<u64, DocRow>,
    post: Map<u64, DocRow>,
    id: u64,
    c: Seq<char>,
    p: Seq<char>,
    ct: Seq<char>,
    ts: i64,
    ej: Option<Seq<char>>,
)
    requires
        docs_unique(pre),
        doc_upsert_effect(pre, post, id, c, p, ct, ts, ej),
    ensures
        docs_unique(post),
        doc_key_at(post, id, c, p),
{
    assert forall|i: u64, j: u64|
        post.contains_key(i) && post.contains_key(j) && i != j implies !(#[trigger] post[i].collection
        == #[trigger] post[j].collection && post[i].path == post[j].path) by {
        if i != id && j != id {
            assert(post[i] == pre[i] && post[j] == pre[j]);
        } else {
            let other = if i == id { j } else { i };
            if post[other].collection == c && post[other].path == p {
                assert(doc_key_at(pre, other, c, p));
                assert(has_doc_key(pre, c, p));
                assert(doc_key_at(pre, id, c, p));
            }
        }
    }
}

/// Re-upserting the same `(collection, path)` reuses the same document id:
/// the id assigned on first insertion is stable across overwrites.
pub proof fn lemma_doc_id_stable(
    m0: Map<u64, DocRow>,
    m1: Map<u64, DocRow>,
    m2: Map<u64, DocRow>,
    id1: u64,
    id2: u64,
    c: Seq<char>,
    p: Seq<char>,
    ct1: Seq<char>,
    ct2: Seq<char>,
    ts1: i64,
    ts2: i64,
    ej1: Option<Seq<char>>,
    ej2: Option<Seq<char>>,
)
    requires
        docs_unique(m0),
        doc_upsert_effect(m0, m1, id1, c, p, ct1, ts1, ej1),
        doc_upsert_effect(m1, m2, id2, c, p, ct2, ts2, ej2),
    ensures
        id2 == id1,
{
    lemma_doc_upsert_unique(m0, m1, id1, c, p, ct1, ts1, ej1);
    assert(doc_key_at(m1, id1, c, p));
    assert(has_doc_key(m1, c, p));
    assert(doc_key_at(m1, id2, c, p));
}

/// After an upsert, the written row reads back verbatim: every field of the
/// document at the returned id equals what was handed in, and the row is
/// marked not yet indexed.
pub proof fn lemma_upsert_fetch_verbatim(
    pre: Map<u64, DocRow>,
    post: Map<u64, DocRow>,
    id: u64,
    c: Seq<char>,
    p: Seq<char>,
    ct: Seq<char>,
    ts: i64,
    ej: Option<Seq<char>>,
)
    requires
        doc_upsert_effect(pre, post, id, c, p, ct, ts, ej),
    ensures
        post.contains_key(id),
        post[id].collection == c,
        post[id].path == p,
        post[id].content == ct,
        post[id].updated_at == ts,
        post[id].embedding_json == ej,
        post[id].indexed_at is None,
{
}

/// Upserting the same key twice leaves a single row, holding the second
/// content, still marked not yet indexed.
pub proof fn lemma_reupsert_overwrites(
    m0: Map<u64, DocRow>,
    m1: Map<u64, DocRow>,
    m2: Map<u64, DocRow>,
    id1: u64,
    id2: u64,
    c: Seq<char>,
    p: Seq<char>,
    ct1: Seq<char>,
    ct2: Seq<char>,
    ts1: i64,
    ts2: i64,
    ej1: Option<Seq<char>>,
    ej2: Option<Seq<char>>,
)
    requires
        docs_unique(m0),
        doc_upsert_effect(m0, m1, id1, c, p, ct1, ts1, ej1),
        doc_upsert_effect(m1, m2, id2, c, p, ct2, ts2, ej2),
    ensures
        id2 == id1,
        m2.contains_key(id1),
        m2[id1].content == ct2,
        m2[id1].embedding_json == ej2,
        m2[id1].indexed_at is None,
        forall|other: u64|
            m2.contains_key(other) && #[trigger] m2[other].collection == c && m2[other].path == p
                ==> other == id1,
{
    lemma_doc_id_stable(m0, m1, m2, id1, id2, c, p, ct1, ct2, ts1, ts2, ej1, ej2);
    lemma_doc_upsert_unique(m0, m1, id1, c, p, ct1, ts1, ej1);
    lemma_doc_upsert_unique(m1, m2, id2, c, p, ct2, ts2, ej2);
    assert forall|other: u64|
        m2.contains_key(other) && #[trigger] m2[other].collection == c && m2[other].path == p
            implies other == id1 by {
        assert(doc_key_at(m2, id1, c, p));
    }
}

} // verus!
