//! Core engine: ingest, index catch-up, and hybrid search.
//!
//! The engine owns the document store, the full-text index and the vector
//! index. Upserts write the authoritative document row and enqueue an index
//! task; a sync pass drains tasks into the two secondary indices; queries
//! fan out to both indices, fuse the scores, and hydrate rows from the
//! store.

use vstd::prelude::*;
use crate::clock::now_unix_ms;
use crate::embedding::{embedding_from_json, embedding_json_of, embedding_to_json, parsed_embedding};
use crate::fuse::{fuse_hits, Source};
use crate::fuse;
use crate::score::{micro_from_bits, sim_from_dist};
use crate::store::{doc_key_at, doc_upsert_effect, sel_ok, str_eq, task_upsert_effect, DocRow,
    FetchedDoc, Store, TaskRow, TaskStatus, TaskView};
use crate::text_index::TextIndex;
use crate::vector_index::VectorStore;

verus! {

/// One document descriptor handed to `upsert_documents`. The embedding
/// carries its components as IEEE-754 single bit patterns.
#[derive(Clone, Debug)]
pub struct DocInput {
    pub path: String,
    pub content: String,
    pub embedding: Option<Vec<u32>>,
    pub updated_at_ms: Option<i64>,
}

/// One search result: fused score in millionths, tagged with its origin.
#[derive(Clone, Debug)]
pub struct SearchHit {
    pub id: u64,
    pub collection: String,
    pub path: String,
    pub content: String,
    pub score_micro: u64,
    pub source: Source,
}

/// Errors surfaced by the engine. Per-task indexing failures are not here:
/// they are recorded on the task row instead.
#[derive(Debug)]
pub enum CoreError {
    /// The collection name was empty.
    EmptyCollection,
    /// A descriptor's path was empty.
    EmptyPath,
    /// `query_vec` does not have the configured dimension.
    QueryDimMismatch,
    /// A result id had no document row to hydrate from.
    HydrationMiss(u64),
    /// The document store failed.
    StoreFailed(String),
    /// The text index failed (opening, committing, or querying).
    TextIndexFailed(String),
    /// The vector index failed (opening, persisting, or querying).
    VectorIndexFailed(String),
}

/// The stored embedding field a descriptor upserts: the JSON encoding of
/// its embedding, when it carries one.
pub open spec fn stored_embedding_of(d: DocInput) -> Option<Seq<char>> {
    match d.embedding {
        Some(e) => Some(embedding_json_of(e@)),
        None => None,
    }
}




/// The largest index `j < upto` whose descriptor carries path `p`, or -1:
/// within one batch the last write to a path wins.
pub open spec fn last_with_path(ds: Seq<DocInput>, p: Seq<char>, upto: int) -> int
    decreases upto,
{
    if upto <= 0 {
        -1
    } else if ds[upto - 1].path@ == p {
        upto - 1
    } else {
        last_with_path(ds, p, upto - 1)
    }
}

/// Some descriptor among the first `upto` carries path `p`.
pub open spec fn batch_has_path(ds: Seq<DocInput>, p: Seq<char>, upto: int) -> bool {
    exists|i: int| 0 <= i < upto && (#[trigger] ds[i]).path@ == p
}

/// After a batch upsert of `ds` under `c`, the row for each path holds the
/// fields of the last descriptor with that path, and its task is pending,
/// with `retries` and `last_error` carried over from the task table as it
/// stood before the batch (`tasks0`), or fresh at 0 / none.
pub open spec fn batch_row_ok(
    docs: Map<u64, DocRow>,
    tasks: Map<u64, TaskRow>,
    tasks0: Map<u64, TaskRow>,
    c: Seq<char>,
    ds: Seq<DocInput>,
    i: int,
    upto: int,
) -> bool {
    exists|id: u64|
        {
            let j = last_with_path(ds, ds[i].path@, upto);
            &&& #[trigger] doc_key_at(docs, id, c, ds[i].path@)
            &&& docs[id].content == ds[j].content@
            &&& docs[id].indexed_at is None
            &&& docs[id].embedding_json == stored_embedding_of(ds[j])
            &&& (ds[j].updated_at_ms matches Some(t) ==> docs[id].updated_at == t)
            &&& tasks.contains_key(id)
            &&& tasks[id].status == TaskStatus::Pending
            &&& tasks[id].need_text
            &&& tasks[id].need_vector
            &&& tasks[id].updated_at == docs[id].updated_at
            &&& tasks[id].retries == (if tasks0.contains_key(id) {
                tasks0[id].retries
            } else {
                0u64
            })
            &&& tasks[id].last_error == (if tasks0.contains_key(id) {
                tasks0[id].last_error
            } else {
                None::<Seq<char>>
            })
        }
}

/// Rows outside the batch keep their documents and tasks untouched.
pub open spec fn batch_frame(
    pre: MemosCore,
    cur: MemosCore,
    c: Seq<char>,
    ds: Seq<DocInput>,
    k: int,
) -> bool {
    forall|id: u64|
        pre.docs().contains_key(id) && !(pre.docs()[id].collection == c && batch_has_path(
            ds,
            pre.docs()[id].path,
            k,
        )) ==> #[trigger] cur.docs()[id] == pre.docs()[id] && (pre.tasks().contains_key(id)
            ==> cur.tasks()[id] == pre.tasks()[id])
}

/// Every row the batch created carries the batch collection and a batch
/// path; task rows only ever grow, and a task whose document is absent is
/// never touched.
pub open spec fn batch_new_rows(
    pre: MemosCore,
    cur: MemosCore,
    c: Seq<char>,
    ds: Seq<DocInput>,
    k: int,
) -> bool {
    &&& forall|id: u64|
        !pre.docs().contains_key(id) && cur.docs().contains_key(id)
            ==> (#[trigger] cur.docs()[id]).collection == c && batch_has_path(
            ds,
            cur.docs()[id].path,
            k,
        )
    &&& forall|id: u64| cur.tasks().contains_key(id) && !pre.tasks().contains_key(id)
        ==> cur.docs().contains_key(id) && (#[trigger] cur.tasks()[id]).updated_at
            == cur.docs()[id].updated_at && cur.docs()[id].collection == c && batch_has_path(
            ds,
            cur.docs()[id].path,
            k,
        )
    &&& forall|id: u64| pre.tasks().contains_key(id) ==> #[trigger] cur.tasks().contains_key(id)
    &&& forall|id: u64|
        pre.tasks().contains_key(id) && !cur.docs().contains_key(id)
            ==> #[trigger] cur.tasks()[id] == pre.tasks()[id]
}

/// The hybrid-search core: document store, text index, vector index, and
/// the clock behind them.
pub struct MemosCore {
    base: String,
    store: Store,
    text: TextIndex,
    vectors: VectorStore,
}

impl MemosCore {
    pub closed spec fn base_view(self) -> Seq<char> {
        self.base@
    }

    pub closed spec fn docs(self) -> Map<u64, DocRow> {
        self.store.docs()
    }

    pub closed spec fn tasks(self) -> Map<u64, TaskRow> {
        self.store.tasks()
    }

    pub closed spec fn staged(self) -> Map<u64, (Seq<char>, Seq<char>, Seq<char>)> {
        self.text.staged()
    }

    pub closed spec fn committed(self) -> Map<u64, (Seq<char>, Seq<char>, Seq<char>)> {
        self.text.committed()
    }

    pub closed spec fn visible(self) -> Map<u64, (Seq<char>, Seq<char>, Seq<char>)> {
        self.text.visible()
    }

    pub closed spec fn vec_map(self) -> Map<u64, Seq<u32>> {
        self.vectors.contents()
    }

    pub closed spec fn dim_spec(self) -> usize {
        self.vectors.dim_spec()
    }

    pub closed spec fn wf(self) -> bool {
        self.store.wf()
    }

    /// Open or create the three stores under `base_dir`, creating the
    /// text-index child directory if missing; `base_dir` itself must exist.
    pub fn open(base_dir: &str, embedding_dim: usize, capacity: usize) -> (r: Result<
        Self,
        CoreError,
    >)
        ensures
            r matches Ok(c) ==> c.wf() && c.dim_spec() == embedding_dim && c.base_view()
                == base_dir@ && c.staged() == c.committed() && c.visible() == c.committed(),
    {
        ensure_dir(base_dir, "tantivy_index");
        let store = match Store::open(base_dir) {
            Ok(s) => s,
            Err(e) => {
                return Err(CoreError::StoreFailed(e));
            },
        };
        let text = match TextIndex::open(base_dir, "tantivy_index") {
            Ok(t) => t,
            Err(e) => {
                return Err(CoreError::TextIndexFailed(e));
            },
        };
        let vectors = match VectorStore::open(base_dir, "usearch_index.bin", embedding_dim, capacity) {
            Ok(v) => v,
            Err(e) => {
                return Err(CoreError::VectorIndexFailed(e));
            },
        };
        Ok(MemosCore { base: base_dir.to_owned(), store, text, vectors })
    }

    /// The directory this core was opened under.
    pub fn base_dir(&self) -> (r: &str)
        ensures
            r@ == self.base_view(),
    {
        self.base.as_str()
    }

    /// The configured embedding dimension.
    pub fn dim(&self) -> (r: usize)
        ensures
            r == self.dim_spec(),
    {
        self.vectors.dim()
    }

    /// The `(updated_at, indexed_at)` timestamps of a document row.
    pub fn doc_times(&self, doc_id: u64) -> (r: Result<Option<(i64, Option<i64>)>, String>)
        ensures
            r matches Ok(Some(t)) ==> self.docs().contains_key(doc_id) && t.0
                == self.docs()[doc_id].updated_at && t.1 == self.docs()[doc_id].indexed_at,
            r matches Ok(None) ==> !self.docs().contains_key(doc_id),
    {
        self.store.doc_times(doc_id)
    }

    /// Look a document up by id.
    pub fn fetch(&self, doc_id: u64) -> (r: Result<Option<FetchedDoc>, String>)
        ensures
            r matches Ok(Some(d)) ==> self.docs().contains_key(doc_id) && d.collection@
                == self.docs()[doc_id].collection && d.path@ == self.docs()[doc_id].path
                && d.content@ == self.docs()[doc_id].content && (match d.embedding_json {
                Some(s) => self.docs()[doc_id].embedding_json == Some(s@),
                None => self.docs()[doc_id].embedding_json is None,
            }),
            r matches Ok(None) ==> !self.docs().contains_key(doc_id),
    {
        self.store.fetch(doc_id)
    }

    /// The task row for a document, for operator triage.
    pub fn task_state(&self, doc_id: u64) -> (r: Result<Option<TaskView>, String>)
        ensures
            r matches Ok(Some(t)) ==> self.tasks().contains_key(doc_id) && t.status
                == self.tasks()[doc_id].status && t.retries == self.tasks()[doc_id].retries
                && t.updated_at == self.tasks()[doc_id].updated_at && (match t.last_error {
                Some(s) => self.tasks()[doc_id].last_error == Some(s@),
                None => self.tasks()[doc_id].last_error is None,
            }),
            r matches Ok(None) ==> !self.tasks().contains_key(doc_id),
    {
        self.store.task_state(doc_id)
    }


    /// Drain up to `limit` index tasks, oldest first: for each task, replace
    /// the document in the text index, re-add its embedding to the vector
    /// index, and retire the task; failures are recorded on the task row and
    /// the pass moves on. When at least one task succeeded the text index is
    /// committed, its reader reloaded, and the vector index persisted, in
    /// that order. Returns how many tasks reached done.
    pub fn sync_index_tasks(&mut self, limit: usize) -> (r: Result<u64, CoreError>)
        requires
            old(self).wf(),
        ensures
            final(self).wf(),
            final(self).dim_spec() == old(self).dim_spec(),
            final(self).base_view() == old(self).base_view(),
            r matches Ok(n) ==> sync_post(*old(self), *final(self), limit, n),
            (r matches Err(e) && (e is TextIndexFailed || e is VectorIndexFailed))
                ==> sync_tasks_settled(*old(self), *final(self), limit),
            r matches Err(_) ==> sync_store_partial(*old(self), *final(self)),
            (forall|id: u64|
                old(self).tasks().contains_key(id) ==> (#[trigger] old(self).tasks()[id]).status
                    == TaskStatus::Done) && (r matches Ok(n)) ==> (r matches Ok(n) && n == 0)
                && final(self).docs() == old(self).docs() && final(self).tasks() == old(self).tasks() && final(self).staged() == old(self).staged() && final(self).committed()
                == old(self).committed() && final(self).visible() == old(self).visible() && final(self).vec_map() == old(self).vec_map(),
    {
        let ids = match self.store.pending_tasks(limit) {
            Ok(v) => v,
            Err(e) => {
                proof {
                    assert forall|idq: u64| !Seq::<u64>::empty().contains(idq)
                        implies #[trigger] store_untouched_at(*old(self), *self, idq) by {}
                    assert(sync_store_prefix(*old(self), *self, Seq::<u64>::empty(), 0, 0));
                }
                return Err(CoreError::StoreFailed(e));
            },
        };
        let ghost sel = ids@;
        if ids.len() == 0 {
            proof {
                assert(sel.take(0int) =~= sel);
                assert forall|id: u64| !sel.contains(id) implies #[trigger] untouched_at(
                    *old(self),
                    *self,
                    id,
                ) by {}
                assert(sync_effect(*old(self), *self, sel, 0, limit, 0));
                assert(sync_post(*old(self), *self, limit, 0));
            }
            return Ok(0);
        }
        proof {
            // with a task not yet done, not every task is done
            assert(old(self).tasks().contains_key(sel[0]) && old(self).tasks()[sel[0]].status
                != TaskStatus::Done);
        }
        let now: i64 = now_unix_ms();
        let mut changed: u64 = 0;
        let mut k: usize = 0;
        while k < ids.len()
            invariant
                sel == ids@,
                k <= sel.len(),
                sel.len() >= 1,
                sel_ok(sel, old(self).tasks(), limit),
                now >= 0,
                self.wf(),
                self.dim_spec() == old(self).dim_spec(),
                self.base_view() == old(self).base_view(),
                self.committed() == old(self).committed(),
                self.visible() == old(self).visible(),
                forall|id: u64| self.docs().contains_key(id) <==> old(self).docs().contains_key(
                    id,
                ),
                forall|i: int| 0 <= i < k ==> #[trigger] task_outcome(
                    *old(self),
                    *self,
                    sel[i],
                    now,
                ),
                forall|id: u64| !sel.take(k as int).contains(id) ==> #[trigger] untouched_at(
                    *old(self),
                    *self,
                    id,
                ),
                changed <= k,
                changed == count_done_in(sel, k as int, self.tasks(), old(self).docs()),
            decreases sel.len() - k,
        {
            let id = ids[k];
            proof {
                assert(!sel.take(k as int).contains(id)) by {
                    if sel.take(k as int).contains(id) {
                        let w = choose|w: int| 0 <= w < k && sel.take(k as int)[w] == id;
                        assert(sel[w] == id && sel[k as int] == id);
                    }
                }
                assert(untouched_at(*old(self), *self, id));
            }
            let ghost prev = *self;
            let fetched = match self.store.fetch(id) {
                Ok(f) => f,
                Err(e) => {
                    proof {
                        lemma_partial_from_iteration(
                            *old(self),
                            prev,
                            *self,
                            sel,
                            now,
                            limit,
                            k as int,
                        );
                    }
                    return Err(CoreError::StoreFailed(e));
                },
            };
            let mut done_now: bool = false;
            match fetched {
                None => {
                    if let Err(e) = self.store.mark_task_done(id) {
                        proof {
                            lemma_partial_from_iteration(
                                *old(self),
                                prev,
                                *self,
                                sel,
                                now,
                                limit,
                                k as int,
                            );
                        }
                        return Err(CoreError::StoreFailed(e));
                    }
                    proof {
                        assert(task_outcome(*old(self), *self, id, now));
                    }
                },
                Some(doc) => {
                    let text_r = self.text.replace(
                        id,
                        doc.collection.as_str(),
                        doc.path.as_str(),
                        doc.content.as_str(),
                    );
                    let remove_r = self.vectors.remove_vector(id);
                    let mut err: Option<String> = match text_r {
                        Ok(_) => match remove_r {
                            Ok(_) => None,
                            Err(e) => Some(e),
                        },
                        Err(e) => Some(e),
                    };
                    let mut dim_err: bool = false;
                    if err.is_none() {
                        match &doc.embedding_json {
                            None => {},
                            Some(s) => {
                                match embedding_from_json(s.as_str()) {
                                    None => {
                                        err = Some("embedding_json parse".to_owned());
                                    },
                                    Some(bits) => {
                                        if bits.len() != self.vectors.dim() {
                                            err = Some("embedding dim mismatch".to_owned());
                                            dim_err = true;
                                        } else {
                                            if let Err(e) = self.vectors.insert_vector(id, &bits)
                                            {
                                                err = Some(e);
                                            }
                                        }
                                    },
                                }
                            },
                        }
                    }
                    match err {
                        Some(msg) => {
                            if dim_err {
                                if let Err(e) = self.store.mark_task_failed(
                                    id,
                                    "embedding dim mismatch",
                                ) {
                                    proof {
                                        lemma_partial_from_iteration(
                                            *old(self),
                                            prev,
                                            *self,
                                            sel,
                                            now,
                                            limit,
                                            k as int,
                                        );
                                    }
                                    return Err(CoreError::StoreFailed(e));
                                }
                            } else {
                                if let Err(e) = self.store.mark_task_failed(id, msg.as_str()) {
                                    proof {
                                        lemma_partial_from_iteration(
                                            *old(self),
                                            prev,
                                            *self,
                                            sel,
                                            now,
                                            limit,
                                            k as int,
                                        );
                                    }
                                    return Err(CoreError::StoreFailed(e));
                                }
                            }
                            proof {
                                if dim_err {
                                    assert(task_dim_failed_outcome(*old(self), *self, id));
                                } else {
                                    assert(task_failed_outcome(*old(self), *self, id));
                                }
                            }
                        },
                        None => {
                            if let Err(e) = self.store.mark_task_done(id) {
                                proof {
                                    lemma_partial_from_iteration(
                                        *old(self),
                                        prev,
                                        *self,
                                        sel,
                                        now,
                                        limit,
                                        k as int,
                                    );
                                }
                                return Err(CoreError::StoreFailed(e));
                            }
                            if let Err(e) = self.store.set_doc_indexed(id, now) {
                                proof {
                                    lemma_partial_from_iteration(
                                        *old(self),
                                        prev,
                                        *self,
                                        sel,
                                        now,
                                        limit,
                                        k as int,
                                    );
                                }
                                return Err(CoreError::StoreFailed(e));
                            }
                            done_now = true;
                            proof {
                                assert(task_done_outcome(*old(self), *self, id, now));
                            }
                        },
                    }
                },
            }
            if done_now {
                changed = changed + 1;
            }
            k = k + 1;
            proof {
                assert forall|idq: u64| idq != id implies #[trigger] untouched_at(
                    prev,
                    *self,
                    idq,
                ) by {}
                lemma_sync_step(
                    *old(self),
                    prev,
                    *self,
                    sel,
                    k as int - 1,
                    now,
                    (changed - (if done_now { 1u64 } else { 0u64 })) as nat,
                );
                assert(changed == count_done_in(sel, k as int, self.tasks(), old(self).docs()));
            }
        }
        proof {
            assert(sel.take(sel.len() as int) =~= sel);
        }
        let ghost after_loop = *self;
        if changed > 0 {
            if let Err(e) = self.text.commit() {
                proof {
                    lemma_settled_from_loop(*old(self), after_loop, *self, sel, now, limit);
                }
                return Err(CoreError::TextIndexFailed(e));
            }
            if let Err(e) = self.text.reload() {
                proof {
                    lemma_settled_from_loop(*old(self), after_loop, *self, sel, now, limit);
                }
                return Err(CoreError::TextIndexFailed(e));
            }
            if let Err(e) = self.vectors.persist(self.base.as_str(), "usearch_index.bin") {
                proof {
                    lemma_settled_from_loop(*old(self), after_loop, *self, sel, now, limit);
                }
                return Err(CoreError::VectorIndexFailed(e));
            }
        }
        proof {
            assert(self.staged() == after_loop.staged());
            assert(self.tasks() == after_loop.tasks());
            assert(self.docs() == after_loop.docs());
            assert(self.vec_map() == after_loop.vec_map());
            assert(self.dim_spec() == after_loop.dim_spec());
            assert forall|i: int| 0 <= i < sel.len() implies #[trigger] task_outcome(
                *old(self),
                *self,
                sel[i],
                now,
            ) by {
                assert(task_outcome(*old(self), after_loop, sel[i], now));
            }
            assert forall|id: u64| !sel.contains(id) implies #[trigger] untouched_at(
                *old(self),
                *self,
                id,
            ) by {
                assert(untouched_at(*old(self), after_loop, id));
            }
            lemma_count_stable(
                sel,
                sel.len() as int,
                after_loop.tasks(),
                self.tasks(),
                old(self).docs(),
            );
            assert(sync_effect(*old(self), *self, sel, now, limit, changed));
            assert(sync_post(*old(self), *self, limit, changed));
        }
        Ok(changed)
    }


    /// Hybrid query: fan out to the text and vector indices, normalize and
    /// fuse the scores with the fixed 0.55 / 0.45 weights, rank, truncate to
    /// `top_k`, and hydrate each surviving id from the document store. A
    /// collection filter drops non-matching results after fusion. With no
    /// query at all, or `top_k == 0`, the result is empty.
    pub fn search(
        &self,
        collection: Option<&str>,
        query_text: Option<&str>,
        query_vec: Option<&Vec<u32>>,
        top_k: usize,
    ) -> (r: Result<Vec<SearchHit>, CoreError>)
        ensures
            (query_vec matches Some(v) && v@.len() != self.dim_spec()) <==> (r matches Err(
                CoreError::QueryDimMismatch,
            )),
            query_text is None && query_vec is None ==> (r matches Ok(hits) && hits@.len()
                == 0),
            top_k == 0 && !(query_vec matches Some(v) && v@.len() != self.dim_spec()) ==> (
            r matches Ok(hits) && hits@.len() == 0),
            r matches Ok(hits) ==> {
                &&& hits@.len() <= top_k
                &&& forall|a: int, b: int| 0 <= a < b < hits@.len()
                    ==> (#[trigger] hits@[a]).score_micro >= (#[trigger] hits@[b]).score_micro
                &&& forall|a: int, b: int| 0 <= a < b < hits@.len() ==> (#[trigger] hits@[a]).id
                    != (#[trigger] hits@[b]).id
                &&& forall|a: int| 0 <= a < hits@.len() ==> self.docs().contains_key(
                    (#[trigger] hits@[a]).id,
                ) && hits@[a].collection@ == self.docs()[hits@[a].id].collection
                    && hits@[a].path@ == self.docs()[hits@[a].id].path && hits@[a].content@
                    == self.docs()[hits@[a].id].content
                &&& forall|a: int| 0 <= a < hits@.len() ==> (collection matches Some(c)
                    ==> (#[trigger] hits@[a]).collection@ == c@)
                &&& forall|a: int| 0 <= a < hits@.len() ==> self.visible().contains_key(
                    (#[trigger] hits@[a]).id,
                ) || self.vec_map().contains_key(hits@[a].id)
            },
    {
        if let Some(v) = query_vec {
            if v.len() != self.vectors.dim() {
                return Err(CoreError::QueryDimMismatch);
            }
        }
        let mut t_hits: Vec<(u64, u64)> = Vec::new();
        let mut v_hits: Vec<(u64, u64)> = Vec::new();
        if top_k > 0 {
            let k2: usize = if top_k > usize::MAX / 4 {
                usize::MAX
            } else {
                4 * top_k
            };
            if let Some(q) = query_text {
                let raw = match self.text.search(q, k2) {
                    Ok(h) => h,
                    Err(e) => {
                        return Err(CoreError::TextIndexFailed(e));
                    },
                };
                let mut x: usize = 0;
                while x < raw.len()
                    invariant
                        x <= raw@.len(),
                        t_hits@.len() == x,
                        forall|a: int| 0 <= a < x ==> (#[trigger] t_hits@[a]).0 == raw@[a].0,
                        forall|a: int, b: int| 0 <= a < b < raw@.len() ==> (#[trigger] raw@[a]).0
                            != (#[trigger] raw@[b]).0,
                        forall|a: int| 0 <= a < raw@.len() ==> self.visible().contains_key(
                            (#[trigger] raw@[a]).0,
                        ),
                    decreases raw@.len() - x,
                {
                    let m = micro_from_bits(raw[x].1);
                    t_hits.push((raw[x].0, m));
                    x = x + 1;
                }
            }
            if let Some(v) = query_vec {
                let raw = match self.vectors.search_vectors(v, k2) {
                    Ok(h) => h,
                    Err(e) => {
                        return Err(CoreError::VectorIndexFailed(e));
                    },
                };
                let mut x: usize = 0;
                while x < raw.len()
                    invariant
                        x <= raw@.len(),
                        v_hits@.len() == x,
                        forall|a: int| 0 <= a < x ==> (#[trigger] v_hits@[a]).0 == raw@[a].0,
                        forall|a: int, b: int| 0 <= a < b < raw@.len() ==> (#[trigger] raw@[a]).0
                            != (#[trigger] raw@[b]).0,
                        forall|a: int| 0 <= a < raw@.len() ==> self.vec_map().contains_key(
                            (#[trigger] raw@[a]).0,
                        ),
                    decreases raw@.len() - x,
                {
                    let d = micro_from_bits(raw[x].1);
                    let sim = sim_from_dist(d);
                    v_hits.push((raw[x].0, sim));
                    x = x + 1;
                }
            }
        }
        proof {
            assert(fuse::distinct_ids(t_hits@));
            assert(fuse::distinct_ids(v_hits@));
        }
        let ranked = fuse_hits(&t_hits, &v_hits, top_k);
        proof {
            if query_text is None && query_vec is None && ranked@.len() > 0 {
                assert(fuse::has_id(t_hits@, ranked@[0].id) || fuse::has_id(
                    v_hits@,
                    ranked@[0].id,
                ));
            }
        }
        let mut out: Vec<SearchHit> = Vec::new();
        let mut i: usize = 0;
        while i < ranked.len()
            invariant
                query_vec matches Some(v) ==> v@.len() == self.dim_spec(),
                query_text is None && query_vec is None ==> ranked@.len() == 0,
                i <= ranked@.len(),
                out@.len() <= i,
                fuse::sorted_desc(ranked@),
                fuse::distinct_ranked_ids(ranked@),
                ranked@.len() <= top_k,
                forall|a: int| 0 <= a < ranked@.len() ==> fuse::has_id(
                    t_hits@,
                    (#[trigger] ranked@[a]).id,
                ) || fuse::has_id(v_hits@, ranked@[a].id),
                forall|a: int| 0 <= a < t_hits@.len() ==> self.visible().contains_key(
                    (#[trigger] t_hits@[a]).0,
                ),
                forall|a: int| 0 <= a < v_hits@.len() ==> self.vec_map().contains_key(
                    (#[trigger] v_hits@[a]).0,
                ),
                forall|a: int, b: int| 0 <= a < b < out@.len()
                    ==> (#[trigger] out@[a]).score_micro >= (#[trigger] out@[b]).score_micro,
                forall|a: int, b: int| 0 <= a < b < out@.len() ==> (#[trigger] out@[a]).id
                    != (#[trigger] out@[b]).id,
                out@.len() > 0 ==> forall|j: int| i <= j < ranked@.len()
                    ==> out@.last().score_micro >= (#[trigger] ranked@[j]).score_micro,
                forall|a: int, j: int| 0 <= a < out@.len() && i <= j < ranked@.len()
                    ==> (#[trigger] out@[a]).id != (#[trigger] ranked@[j]).id,
                forall|a: int| 0 <= a < out@.len() ==> self.docs().contains_key(
                    (#[trigger] out@[a]).id,
                ) && out@[a].collection@ == self.docs()[out@[a].id].collection && out@[a].path@
                    == self.docs()[out@[a].id].path && out@[a].content@
                    == self.docs()[out@[a].id].content,
                forall|a: int| 0 <= a < out@.len() ==> (collection matches Some(c)
                    ==> (#[trigger] out@[a]).collection@ == c@),
                forall|a: int| 0 <= a < out@.len() ==> self.visible().contains_key(
                    (#[trigger] out@[a]).id,
                ) || self.vec_map().contains_key(out@[a].id),
            decreases ranked@.len() - i,
        {
            let rk_id = ranked[i].id;
            let rk_score = ranked[i].score_micro;
            let rk_source = ranked[i].source;
            let fetched = match self.store.fetch(rk_id) {
                Ok(f) => f,
                Err(e) => {
                    return Err(CoreError::StoreFailed(e));
                },
            };
            let f = match fetched {
                Some(f) => f,
                None => {
                    return Err(CoreError::HydrationMiss(rk_id));
                },
            };
            let keep: bool = match collection {
                Some(c) => str_eq(f.collection.as_str(), c),
                None => true,
            };
            if keep {
                proof {
                    if fuse::has_id(t_hits@, rk_id) {
                        let w = choose|w: int| 0 <= w < t_hits@.len() && t_hits@[w].0 == rk_id;
                        assert(self.visible().contains_key(rk_id));
                    } else {
                        assert(fuse::has_id(v_hits@, rk_id));
                        let w = choose|w: int| 0 <= w < v_hits@.len() && v_hits@[w].0 == rk_id;
                        assert(self.vec_map().contains_key(rk_id));
                    }
                }
                out.push(SearchHit {
                    id: rk_id,
                    collection: f.collection,
                    path: f.path,
                    content: f.content,
                    score_micro: rk_score,
                    source: rk_source,
                });
            }
            i = i + 1;
        }
        Ok(out)
    }

    /// Ingest a batch of descriptors into `collection`, in order: each one
    /// overwrites the row for `(collection, path)` (the last descriptor with
    /// a path wins within the batch), resets `indexed_at`, and re-arms the
    /// document's index task. Returns the count processed. The batch aborts
    /// at the first failing descriptor; earlier writes stay.
    #[verifier::rlimit(50)]
    pub fn upsert_documents(&mut self, collection: &str, docs: &Vec<DocInput>) -> (r: Result<
        u64,
        CoreError,
    >)
        requires
            old(self).wf(),
        ensures
            final(self).wf(),
            final(self).dim_spec() == old(self).dim_spec(),
            final(self).staged() == old(self).staged(),
            final(self).committed() == old(self).committed(),
            final(self).visible() == old(self).visible(),
            final(self).vec_map() == old(self).vec_map(),
            r matches Err(CoreError::EmptyCollection) <==> collection@.len() == 0,
            // an empty batch makes no outside call and cannot fail otherwise
            docs@.len() == 0 && collection@.len() > 0 ==> (r matches Ok(n) && n == 0)
                && final(self).docs() == old(self).docs() && final(self).tasks() == old(
                self,
            ).tasks(),
            r matches Err(CoreError::EmptyPath) <==> (collection@.len() > 0 && exists|i: int|
                0 <= i < docs@.len() && (#[trigger] docs@[i]).path@.len() == 0),
            // input validation mutates nothing
            (r matches Err(CoreError::EmptyCollection) || r matches Err(CoreError::EmptyPath))
                ==> final(self).docs() == old(self).docs() && final(self).tasks() == old(
                self,
            ).tasks(),
            r matches Ok(n) ==> {
                &&& n == docs@.len()
                &&& forall|i: int| 0 <= i < docs@.len() ==> (#[trigger] docs@[i]).path@.len() > 0
                &&& forall|i: int| 0 <= i < docs@.len() ==> #[trigger] batch_row_ok(
                    final(self).docs(),
                    final(self).tasks(),
                    old(self).tasks(),
                    collection@,
                    docs@,
                    i,
                    docs@.len() as int,
                )
                &&& forall|id: u64| old(self).docs().contains_key(id) ==> final(self).docs().contains_key(id) && (#[trigger] final(self).docs()[id]).collection == old(self).docs()[id].collection && final(self).docs()[id].path == old(self).docs()[id].path
                &&& batch_frame(*old(self), *final(self), collection@, docs@, docs@.len() as int)
                &&& batch_new_rows(*old(self), *final(self), collection@, docs@, docs@.len() as int)
            },
    {
        if collection.unicode_len() == 0 {
            return Err(CoreError::EmptyCollection);
        }
        // validate every descriptor before the first write
        let mut j: usize = 0;
        while j < docs.len()
            invariant
                j <= docs@.len(),
                0 < collection@.len(),
                *self == *old(self),
                self.wf(),
                forall|k: int| 0 <= k < j ==> (#[trigger] docs@[k]).path@.len() > 0,
            decreases docs@.len() - j,
        {
            if docs[j].path.unicode_len() == 0 {
                proof {
                    assert(docs@[j as int].path@.len() == 0);
                }
                return Err(CoreError::EmptyPath);
            }
            j += 1;
        }
        if docs.len() == 0 {
            return Ok(0);
        }
        let mut i: usize = 0;
        let mut n: u64 = 0;
        while i < docs.len()
            invariant
                0 < collection@.len(),
                i <= docs@.len(),
                n == i,
                self.wf(),
                self.dim_spec() == old(self).dim_spec(),
                self.staged() == old(self).staged(),
                self.committed() == old(self).committed(),
                self.visible() == old(self).visible(),
                self.vec_map() == old(self).vec_map(),
                forall|k: int| 0 <= k < docs@.len() ==> (#[trigger] docs@[k]).path@.len() > 0,
                forall|k: int| 0 <= k < i ==> #[trigger] batch_row_ok(
                    self.docs(),
                    self.tasks(),
                    old(self).tasks(),
                    collection@,
                    docs@,
                    k,
                    i as int,
                ),
                forall|id: u64| old(self).docs().contains_key(id) ==> self.docs().contains_key(id) && (
                #[trigger] self.docs()[id]).collection == old(self).docs()[id].collection
                    && self.docs()[id].path == old(self).docs()[id].path,
                batch_frame(*old(self), *self, collection@, docs@, i as int),
                batch_new_rows(*old(self), *self, collection@, docs@, i as int),
            decreases docs@.len() - i,
        {
            let d = &docs[i];
            let ts: i64 = match d.updated_at_ms {
                Some(t) => t,
                None => now_unix_ms(),
            };
            let ej: Option<String> = match &d.embedding {
                Some(e) => Some(embedding_to_json(e)),
                None => None,
            };
            let ej_ref: Option<&str> = match &ej {
                Some(s) => Some(s.as_str()),
                None => None,
            };
            let ghost before = *self;
            let up = self.store.upsert(collection, d.path.as_str(), d.content.as_str(), ts, ej_ref);
            let id = match up {
                Ok(id) => id,
                Err(e) => {
                    return Err(CoreError::StoreFailed(e));
                },
            };
            n = n + 1;
            i = i + 1;
            proof {
                lemma_batch_step(
                    *old(self),
                    before,
                    *self,
                    collection@,
                    docs@,
                    i as int - 1,
                    id,
                    ts,
                );
            }
        }
        Ok(n)
    }
}

/// One store upsert extends a batch's invariants from prefix `i` to `i + 1`.
proof fn lemma_batch_step(
    pre: MemosCore,
    before: MemosCore,
    now_c: MemosCore,
    c: Seq<char>,
    ds: Seq<DocInput>,
    i: int,
    id: u64,
    ts: i64,
)
    requires
        0 <= i < ds.len(),
        before.wf(),
        doc_upsert_effect(
            before.docs(),
            now_c.docs(),
            id,
            c,
            ds[i].path@,
            ds[i].content@,
            ts,
            stored_embedding_of(ds[i]),
        ),
        task_upsert_effect(before.tasks(), now_c.tasks(), id, ts),
        ds[i].updated_at_ms matches Some(t) ==> ts == t,
        // prefix facts
        forall|k: int| 0 <= k < i ==> #[trigger] batch_row_ok(
            before.docs(),
            before.tasks(),
            pre.tasks(),
            c,
            ds,
            k,
            i,
        ),
        forall|idq: u64| pre.docs().contains_key(idq) ==> before.docs().contains_key(idq) && (
        #[trigger] before.docs()[idq]).collection == pre.docs()[idq].collection
            && before.docs()[idq].path == pre.docs()[idq].path,
        batch_frame(pre, before, c, ds, i),
        batch_new_rows(pre, before, c, ds, i),
    ensures
        forall|k: int| 0 <= k <= i ==> #[trigger] batch_row_ok(
            now_c.docs(),
            now_c.tasks(),
            pre.tasks(),
            c,
            ds,
            k,
            i + 1,
        ),
        forall|idq: u64| pre.docs().contains_key(idq) ==> now_c.docs().contains_key(idq) && (
        #[trigger] now_c.docs()[idq]).collection == pre.docs()[idq].collection
            && now_c.docs()[idq].path == pre.docs()[idq].path,
        batch_frame(pre, now_c, c, ds, i + 1),
        batch_new_rows(pre, now_c, c, ds, i + 1),
{
    let p = ds[i].path@;
    crate::store::lemma_doc_upsert_unique(
        before.docs(),
        now_c.docs(),
        id,
        c,
        p,
        ds[i].content@,
        ts,
        stored_embedding_of(ds[i]),
    );
    assert(ds[i].path@ == p);
    assert(batch_has_path(ds, p, i + 1));
    // the freshly written row satisfies its own clause
    assert forall|k: int| 0 <= k <= i implies #[trigger] batch_row_ok(
        now_c.docs(),
        now_c.tasks(),
        pre.tasks(),
        c,
        ds,
        k,
        i + 1,
    ) by {
        if ds[k].path@ == p {
            assert(last_with_path(ds, ds[k].path@, i + 1) == i);
            assert(doc_key_at(now_c.docs(), id, c, p));
            assert(now_c.docs()[id].content == ds[i].content@);
            // retries and last_error chain back to the pre-batch task table
            if batch_has_path(ds, p, i) {
                let kp = choose|kp: int| 0 <= kp < i && (#[trigger] ds[kp]).path@ == p;
                assert(batch_row_ok(before.docs(), before.tasks(), pre.tasks(), c, ds, kp, i));
                let idp = choose|idp: u64|
                    {
                        let j = last_with_path(ds, ds[kp].path@, i);
                        &&& #[trigger] doc_key_at(before.docs(), idp, c, ds[kp].path@)
                        &&& before.docs()[idp].content == ds[j].content@
                        &&& before.docs()[idp].indexed_at is None
                        &&& before.docs()[idp].embedding_json == stored_embedding_of(ds[j])
                        &&& (ds[j].updated_at_ms matches Some(t)
                            ==> before.docs()[idp].updated_at == t)
                        &&& before.tasks().contains_key(idp)
                        &&& before.tasks()[idp].status == TaskStatus::Pending
                        &&& before.tasks()[idp].need_text
                        &&& before.tasks()[idp].need_vector
                        &&& before.tasks()[idp].updated_at == before.docs()[idp].updated_at
                        &&& before.tasks()[idp].retries == (if pre.tasks().contains_key(idp) {
                            pre.tasks()[idp].retries
                        } else {
                            0u64
                        })
                        &&& before.tasks()[idp].last_error == (if pre.tasks().contains_key(
                            idp,
                        ) {
                            pre.tasks()[idp].last_error
                        } else {
                            None::<Seq<char>>
                        })
                    };
                assert(doc_key_at(before.docs(), idp, c, p));
                assert(crate::store::has_doc_key(before.docs(), c, p));
                assert(doc_key_at(before.docs(), id, c, p));
                assert(idp == id);
            } else {
                if crate::store::has_doc_key(before.docs(), c, p) {
                    assert(doc_key_at(before.docs(), id, c, p));
                    assert(pre.docs().contains_key(id)) by {
                        if !pre.docs().contains_key(id) {
                            assert(batch_has_path(ds, before.docs()[id].path, i));
                        }
                    }
                    assert(before.docs()[id] == pre.docs()[id] && (pre.tasks().contains_key(id)
                        ==> before.tasks()[id] == pre.tasks()[id])) by {
                        assert(pre.docs()[id].collection == before.docs()[id].collection
                            && pre.docs()[id].path == before.docs()[id].path);
                    }
                    if !pre.tasks().contains_key(id) {
                        assert(!before.tasks().contains_key(id)) by {
                            if before.tasks().contains_key(id) {
                                assert(batch_has_path(ds, before.docs()[id].path, i));
                            }
                        }
                    }
                } else {
                    assert(!before.docs().contains_key(id));
                    if pre.tasks().contains_key(id) {
                        assert(before.tasks()[id] == pre.tasks()[id]
                            && before.tasks().contains_key(id));
                    } else {
                        assert(!before.tasks().contains_key(id)) by {
                            if before.tasks().contains_key(id) {
                                assert(before.docs().contains_key(id));
                            }
                        }
                    }
                }
            }
            assert(now_c.tasks() == before.tasks().insert(
                id,
                TaskRow {
                    need_text: true,
                    need_vector: true,
                    status: TaskStatus::Pending,
                    retries: if before.tasks().contains_key(id) {
                        before.tasks()[id].retries
                    } else {
                        0
                    },
                    last_error: if before.tasks().contains_key(id) {
                        before.tasks()[id].last_error
                    } else {
                        None
                    },
                    updated_at: ts,
                },
            ));
        } else {
            assert(k < i);
            assert(last_with_path(ds, ds[k].path@, i + 1) == last_with_path(ds, ds[k].path@, i));
            assert(batch_row_ok(before.docs(), before.tasks(), pre.tasks(), c, ds, k, i));
            let idk = choose|idk: u64|
                {
                    let j = last_with_path(ds, ds[k].path@, i);
                    &&& #[trigger] doc_key_at(before.docs(), idk, c, ds[k].path@)
                    &&& before.docs()[idk].content == ds[j].content@
                    &&& before.docs()[idk].indexed_at is None
                    &&& before.docs()[idk].embedding_json == stored_embedding_of(ds[j])
                    &&& (ds[j].updated_at_ms matches Some(t) ==> before.docs()[idk].updated_at
                        == t)
                    &&& before.tasks().contains_key(idk)
                    &&& before.tasks()[idk].status == TaskStatus::Pending
                    &&& before.tasks()[idk].need_text
                    &&& before.tasks()[idk].need_vector
                    &&& before.tasks()[idk].updated_at == before.docs()[idk].updated_at
                    &&& before.tasks()[idk].retries == (if pre.tasks().contains_key(idk) {
                        pre.tasks()[idk].retries
                    } else {
                        0u64
                    })
                    &&& before.tasks()[idk].last_error == (if pre.tasks().contains_key(idk) {
                        pre.tasks()[idk].last_error
                    } else {
                        None::<Seq<char>>
                    })
                };
            // a row with a different path keeps a different id
            assert(idk != id) by {
                if idk == id {
                    assert(now_c.docs()[id].path == p);
                    assert(before.docs()[idk].path == ds[k].path@);
                    if crate::store::has_doc_key(before.docs(), c, p) {
                        assert(before.docs()[id].path == p);
                    } else {
                        assert(!before.docs().contains_key(id));
                    }
                }
            }
            assert(now_c.docs()[idk] == before.docs()[idk]);
            assert(now_c.tasks()[idk] == before.tasks()[idk]);
            assert(doc_key_at(now_c.docs(), idk, c, ds[k].path@));
        }
    }
}



/// The document-store rows for `id` read the same in `a` and `b`.
pub open spec fn store_untouched_at(a: MemosCore, b: MemosCore, id: u64) -> bool {
    &&& (b.docs().contains_key(id) <==> a.docs().contains_key(id))
    &&& (a.docs().contains_key(id) ==> b.docs()[id] == a.docs()[id])
    &&& (b.tasks().contains_key(id) <==> a.tasks().contains_key(id))
    &&& (a.tasks().contains_key(id) ==> b.tasks()[id] == a.tasks()[id])
}

/// The store-side projection of a task's fate: done with the document
/// stamped, failed with the error recorded, or swept as stale.
pub open spec fn task_record_outcome(pre: MemosCore, post: MemosCore, id: u64, t: i64) -> bool {
    if pre.docs().contains_key(id) {
        ||| (post.tasks().contains_key(id) && post.tasks()[id] == (TaskRow {
            status: TaskStatus::Done,
            last_error: None,
            ..pre.tasks()[id]
        }) && post.docs().contains_key(id) && post.docs()[id] == (DocRow {
            indexed_at: Some(t),
            ..pre.docs()[id]
        }))
        ||| (post.tasks().contains_key(id) && post.tasks()[id].status == TaskStatus::Failed
            && post.tasks()[id].retries == (pre.tasks()[id].retries + 1) as u64
            && post.tasks()[id].last_error is Some && post.docs().contains_key(id)
            && post.docs()[id] == pre.docs()[id])
    } else {
        &&& post.tasks().contains_key(id)
        &&& post.tasks()[id] == (TaskRow {
            status: TaskStatus::Done,
            last_error: None,
            ..pre.tasks()[id]
        })
        &&& !post.docs().contains_key(id)
    }
}

/// Some valid selection of stale tasks was drained, each task settled on
/// its row; task rows and document rows outside the selection are
/// untouched. This holds even when the end-of-pass commit or persist then
/// fails: per-task indexing failures are recorded, never surfaced.
pub open spec fn tasks_drained(
    pre: MemosCore,
    post: MemosCore,
    sel: Seq<u64>,
    t: i64,
    limit: usize,
) -> bool {
    &&& sel_ok(sel, pre.tasks(), limit)
    &&& t >= 0
    &&& forall|i: int| 0 <= i < sel.len() ==> #[trigger] task_record_outcome(pre, post, sel[i], t)
    &&& forall|id: u64| !sel.contains(id) ==> #[trigger] store_untouched_at(pre, post, id)
}

pub open spec fn sync_tasks_settled(pre: MemosCore, post: MemosCore, limit: usize) -> bool {
    exists|sel: Seq<u64>, t: i64| #[trigger] tasks_drained(pre, post, sel, t, limit)
}


/// A prefix of a drain pass, as far as the document store records it: the
/// first `settled` of the touched task ids reached their store-side
/// outcome at time `t`; every id outside the touched ones is untouched in
/// both store tables. (The one id past the settled prefix may hold a torn
/// intermediate state; nothing is claimed of it.)
pub open spec fn sync_store_prefix(
    pre: MemosCore,
    post: MemosCore,
    ids: Seq<u64>,
    t: i64,
    settled: int,
) -> bool {
    &&& 0 <= settled <= ids.len()
    &&& t >= 0
    &&& forall|i: int, j: int| 0 <= i < j < ids.len() ==> ids[i] != ids[j]
    &&& forall|i: int| 0 <= i < ids.len() ==> pre.tasks().contains_key(#[trigger] ids[i])
        && pre.tasks()[ids[i]].status != TaskStatus::Done
    &&& forall|i: int| 0 <= i < settled ==> #[trigger] task_record_outcome(pre, post, ids[i], t)
    &&& forall|id: u64| !ids.contains(id) ==> #[trigger] store_untouched_at(pre, post, id)
}

/// However a sync pass fails, its store writes amount to a prefix of a
/// drain: settled tasks, at most one torn id, everything else untouched.
pub open spec fn sync_store_partial(pre: MemosCore, post: MemosCore) -> bool {
    exists|ids: Seq<u64>, t: i64, settled: int|
        #[trigger] sync_store_prefix(pre, post, ids, t, settled)
}

/// A failure in the middle of one drained task leaves a settled prefix.
proof fn lemma_partial_from_iteration(
    pre: MemosCore,
    prev: MemosCore,
    cur: MemosCore,
    sel: Seq<u64>,
    t: i64,
    limit: usize,
    k: int,
)
    requires
        sel_ok(sel, pre.tasks(), limit),
        0 <= k < sel.len(),
        t >= 0,
        forall|i: int| 0 <= i < k ==> #[trigger] task_outcome(pre, prev, sel[i], t),
        forall|id: u64| !sel.take(k).contains(id) ==> #[trigger] untouched_at(pre, prev, id),
        forall|idq: u64| idq != sel[k] ==> #[trigger] store_untouched_at(prev, cur, idq),
    ensures
        sync_store_partial(pre, cur),
{
    let ids = sel.take(k + 1);
    assert(forall|i: int| 0 <= i < k + 1 ==> #[trigger] ids[i] == sel[i]);
    assert forall|i: int| 0 <= i < k implies #[trigger] task_record_outcome(
        pre,
        cur,
        ids[i],
        t,
    ) by {
        assert(task_outcome(pre, prev, sel[i], t));
        assert(sel[i] != sel[k]);
        assert(store_untouched_at(prev, cur, sel[i]));
    }
    assert forall|id: u64| !ids.contains(id) implies #[trigger] store_untouched_at(
        pre,
        cur,
        id,
    ) by {
        assert(!sel.take(k).contains(id)) by {
            if sel.take(k).contains(id) {
                let w = choose|w: int| 0 <= w < k && sel.take(k)[w] == id;
                assert(ids[w] == id);
            }
        }
        assert(id != sel[k]) by {
            if id == sel[k] {
                assert(ids[k] == id);
            }
        }
        assert(untouched_at(pre, prev, id));
        assert(store_untouched_at(prev, cur, id));
    }
    assert(sync_store_prefix(pre, cur, ids, t, k));
}

/// A finished drain loop settles the tasks, whatever the end-of-pass
/// barrier then does to the indices.
proof fn lemma_settled_from_loop(
    pre: MemosCore,
    af: MemosCore,
    cur: MemosCore,
    sel: Seq<u64>,
    t: i64,
    limit: usize,
)
    requires
        sel_ok(sel, pre.tasks(), limit),
        t >= 0,
        forall|i: int| 0 <= i < sel.len() ==> #[trigger] task_outcome(pre, af, sel[i], t),
        forall|id: u64| !sel.contains(id) ==> #[trigger] untouched_at(pre, af, id),
        cur.docs() == af.docs(),
        cur.tasks() == af.tasks(),
    ensures
        sync_tasks_settled(pre, cur, limit),
        sync_store_partial(pre, cur),
{
    assert forall|i: int| 0 <= i < sel.len() implies #[trigger] task_record_outcome(
        pre,
        cur,
        sel[i],
        t,
    ) by {
        assert(task_outcome(pre, af, sel[i], t));
    }
    assert forall|id: u64| !sel.contains(id) implies #[trigger] store_untouched_at(
        pre,
        cur,
        id,
    ) by {
        assert(untouched_at(pre, af, id));
    }
    assert(tasks_drained(pre, cur, sel, t, limit));
    assert(sel.take(sel.len() as int) =~= sel);
    assert(sync_store_prefix(pre, cur, sel, t, sel.len() as int));
}

/// A sync pass returning `n` drained some selection of stale tasks.
pub open spec fn sync_post(pre: MemosCore, post: MemosCore, limit: usize, n: u64) -> bool {
    exists|sel: Seq<u64>, t: i64| #[trigger] sync_effect(pre, post, sel, t, limit, n)
}

/// The whole effect of one sync pass returning `n`: some selection `sel` of
/// stale tasks was drained at time `t`, each to its outcome; everything else
/// is untouched; and the pass committed, reloaded and persisted exactly when
/// some task reached done.
pub open spec fn sync_effect(
    pre: MemosCore,
    post: MemosCore,
    sel: Seq<u64>,
    t: i64,
    limit: usize,
    n: u64,
) -> bool {
    &&& sel_ok(sel, pre.tasks(), limit)
    &&& t >= 0
    &&& forall|i: int| 0 <= i < sel.len() ==> #[trigger] task_outcome(pre, post, sel[i], t)
    &&& forall|id: u64| !sel.contains(id) ==> #[trigger] untouched_at(pre, post, id)
    &&& n == count_done_in(sel, sel.len() as int, post.tasks(), pre.docs())
    &&& n > 0 ==> post.committed() == post.staged() && post.visible() == post.committed()
    &&& n == 0 ==> post.committed() == pre.committed() && post.visible() == pre.visible()
}

/// Rows for `id` read the same in `a` and `b`, across all four stores.
pub open spec fn untouched_at(a: MemosCore, b: MemosCore, id: u64) -> bool {
    &&& (b.docs().contains_key(id) <==> a.docs().contains_key(id))
    &&& (a.docs().contains_key(id) ==> b.docs()[id] == a.docs()[id])
    &&& (b.tasks().contains_key(id) <==> a.tasks().contains_key(id))
    &&& (a.tasks().contains_key(id) ==> b.tasks()[id] == a.tasks()[id])
    &&& (b.staged().contains_key(id) <==> a.staged().contains_key(id))
    &&& (a.staged().contains_key(id) ==> b.staged()[id] == a.staged()[id])
    &&& (b.vec_map().contains_key(id) <==> a.vec_map().contains_key(id))
    &&& (a.vec_map().contains_key(id) ==> b.vec_map()[id] == a.vec_map()[id])
}

/// The fate of one drained task, judged between the state `pre` at the start
/// of the pass and the state `post` after it: swept when its document is
/// gone, retired to done with both indices holding the document, or failed
/// with the error recorded and the document row untouched.
pub open spec fn task_outcome(pre: MemosCore, post: MemosCore, id: u64, t: i64) -> bool {
    if pre.docs().contains_key(id) {
        ||| task_done_outcome(pre, post, id, t)
        ||| task_failed_outcome(pre, post, id)
        ||| task_dim_failed_outcome(pre, post, id)
    } else {
        &&& post.tasks().contains_key(id)
        &&& post.tasks()[id] == TaskRow {
            status: TaskStatus::Done,
            last_error: None,
            ..pre.tasks()[id]
        }
        &&& !post.docs().contains_key(id)
        // the sweep writes to neither index
        &&& (post.staged().contains_key(id) <==> pre.staged().contains_key(id))
        &&& (pre.staged().contains_key(id) ==> post.staged()[id] == pre.staged()[id])
        &&& (post.vec_map().contains_key(id) <==> pre.vec_map().contains_key(id))
        &&& (pre.vec_map().contains_key(id) ==> post.vec_map()[id] == pre.vec_map()[id])
    }
}

/// The task reached done: error cleared, the text index stages the current
/// document, the vector index holds exactly the decoded embedding (or
/// nothing when the document has none), and the document is stamped indexed.
pub open spec fn task_done_outcome(pre: MemosCore, post: MemosCore, id: u64, t: i64) -> bool {
    &&& post.tasks().contains_key(id)
    &&& post.tasks()[id] == TaskRow {
        status: TaskStatus::Done,
        last_error: None,
        ..pre.tasks()[id]
    }
    &&& post.staged().contains_key(id)
    &&& post.staged()[id] == (
        pre.docs()[id].collection,
        pre.docs()[id].path,
        pre.docs()[id].content,
    )
    &&& post.docs().contains_key(id)
    &&& post.docs()[id] == DocRow { indexed_at: Some(t), ..pre.docs()[id] }
    &&& match pre.docs()[id].embedding_json {
        Some(s) => {
            &&& parsed_embedding(s) matches Some(e)
            &&& parsed_embedding(s)->0.len() == pre.dim_spec()
            &&& post.vec_map().contains_key(id)
            &&& post.vec_map()[id] == parsed_embedding(s)->0
        },
        None => !post.vec_map().contains_key(id),
    }
}

/// The task failed: retries up, the error recorded, the document row
/// untouched.
pub open spec fn task_failed_outcome(pre: MemosCore, post: MemosCore, id: u64) -> bool {
    &&& post.tasks().contains_key(id)
    &&& post.tasks()[id].status == TaskStatus::Failed
    &&& post.tasks()[id].retries == (pre.tasks()[id].retries + 1) as u64
    &&& post.tasks()[id].last_error is Some
    &&& post.docs().contains_key(id)
    &&& post.docs()[id] == pre.docs()[id]
}

/// The task failed on a dimension mismatch: the stored embedding decodes to
/// the wrong length, the error says so, and the text row had already been
/// staged.
pub open spec fn task_dim_failed_outcome(pre: MemosCore, post: MemosCore, id: u64) -> bool {
    &&& task_failed_outcome(pre, post, id)
    &&& post.tasks()[id].last_error == Some("embedding dim mismatch"@)
    &&& pre.docs()[id].embedding_json matches Some(s)
    &&& parsed_embedding(pre.docs()[id].embedding_json->0) matches Some(e)
    &&& parsed_embedding(pre.docs()[id].embedding_json->0)->0.len() != pre.dim_spec()
    &&& post.staged().contains_key(id)
    &&& post.staged()[id] == (
        pre.docs()[id].collection,
        pre.docs()[id].path,
        pre.docs()[id].content,
    )
}

/// How many of the first `k` drained tasks ended done with their document
/// present: the count a sync pass returns.
pub open spec fn count_done_in(
    sel: Seq<u64>,
    k: int,
    tasks: Map<u64, TaskRow>,
    docs: Map<u64, DocRow>,
) -> nat
    decreases k,
{
    if k <= 0 {
        0
    } else {
        count_done_in(sel, k - 1, tasks, docs) + (if docs.contains_key(sel[k - 1])
            && tasks.contains_key(sel[k - 1]) && tasks[sel[k - 1]].status == TaskStatus::Done {
            1nat
        } else {
            0nat
        })
    }
}

proof fn lemma_count_stable(
    sel: Seq<u64>,
    k: int,
    t1: Map<u64, TaskRow>,
    t2: Map<u64, TaskRow>,
    d: Map<u64, DocRow>,
)
    requires
        k <= sel.len(),
        forall|i: int| 0 <= i < k ==> (t2.contains_key(#[trigger] sel[i]) <==> t1.contains_key(
            sel[i],
        )) && (t1.contains_key(sel[i]) ==> t2[sel[i]] == t1[sel[i]]),
    ensures
        count_done_in(sel, k, t2, d) == count_done_in(sel, k, t1, d),
    decreases k,
{
    if k > 0 {
        lemma_count_stable(sel, k - 1, t1, t2, d);
    }
}

/// One drained task extends the sync invariants from prefix `k` to `k + 1`.
proof fn lemma_sync_step(
    pre: MemosCore,
    prev: MemosCore,
    cur: MemosCore,
    sel: Seq<u64>,
    k: int,
    t: i64,
    changed0: nat,
)
    requires
        0 <= k < sel.len(),
        forall|i: int, j: int| 0 <= i < j < sel.len() ==> sel[i] != sel[j],
        forall|i: int| 0 <= i < k ==> #[trigger] task_outcome(pre, prev, sel[i], t),
        forall|id: u64| !sel.take(k).contains(id) ==> #[trigger] untouched_at(pre, prev, id),
        changed0 == count_done_in(sel, k, prev.tasks(), pre.docs()),
        forall|id: u64| id != sel[k] ==> #[trigger] untouched_at(prev, cur, id),
        task_outcome(pre, cur, sel[k], t),
        pre.dim_spec() == prev.dim_spec() && prev.dim_spec() == cur.dim_spec(),
    ensures
        forall|i: int| 0 <= i < k + 1 ==> #[trigger] task_outcome(pre, cur, sel[i], t),
        forall|id: u64| !sel.take(k + 1).contains(id) ==> #[trigger] untouched_at(pre, cur, id),
        count_done_in(sel, k + 1, cur.tasks(), pre.docs()) == changed0 + (
        if pre.docs().contains_key(sel[k]) && cur.tasks().contains_key(sel[k])
            && cur.tasks()[sel[k]].status == TaskStatus::Done {
            1nat
        } else {
            0nat
        }),
{
    assert forall|i: int| 0 <= i < k + 1 implies #[trigger] task_outcome(pre, cur, sel[i], t) by {
        if i < k {
            assert(task_outcome(pre, prev, sel[i], t));
            assert(sel[i] != sel[k]);
            assert(untouched_at(prev, cur, sel[i]));
        }
    }
    assert forall|id: u64| !sel.take(k + 1).contains(id) implies #[trigger] untouched_at(
        pre,
        cur,
        id,
    ) by {
        assert(forall|i: int| 0 <= i < k ==> sel.take(k)[i] == sel[i]);
        assert(forall|i: int| 0 <= i < k + 1 ==> sel.take(k + 1)[i] == sel[i]);
        if sel.take(k).contains(id) {
            let w = choose|w: int| 0 <= w < k && sel.take(k)[w] == id;
            assert(sel.take(k + 1)[w] == id);
            assert(false);
        }
        assert(id != sel[k]) by {
            if id == sel[k] {
                assert(sel.take(k + 1)[k] == id);
            }
        }
        assert(untouched_at(pre, prev, id));
        assert(untouched_at(prev, cur, id));
    }
    assert forall|i: int| 0 <= i < k implies (cur.tasks().contains_key(#[trigger] sel[i]) <==>
        prev.tasks().contains_key(sel[i])) && (prev.tasks().contains_key(sel[i])
        ==> cur.tasks()[sel[i]] == prev.tasks()[sel[i]]) by {
        assert(sel[i] != sel[k]);
        assert(untouched_at(prev, cur, sel[i]));
    }
    lemma_count_stable(sel, k, prev.tasks(), cur.tasks(), pre.docs());
}

/// After a sync pass, every drained task that ended done with its document
/// still present has the text index staging exactly one record for its id,
/// holding the document's fields, and — when the document carries an
/// embedding — the vector index holding exactly one vector for that id, of
/// the configured dimension. (Each index is a map keyed by id, so one entry
/// per id is structural; this law pins the entries' contents.)
pub proof fn lemma_done_task_in_indices(
    pre: MemosCore,
    post: MemosCore,
    sel: Seq<u64>,
    t: i64,
    limit: usize,
    n: u64,
    i: int,
)
    requires
        sync_effect(pre, post, sel, t, limit, n),
        0 <= i < sel.len(),
        pre.docs().contains_key(sel[i]),
        post.tasks().contains_key(sel[i]),
        post.tasks()[sel[i]].status == TaskStatus::Done,
    ensures
        task_done_outcome(pre, post, sel[i], t),
        post.staged().contains_key(sel[i]),
        post.staged()[sel[i]] == (
            pre.docs()[sel[i]].collection,
            pre.docs()[sel[i]].path,
            pre.docs()[sel[i]].content,
        ),
        pre.docs()[sel[i]].embedding_json is Some ==> post.vec_map().contains_key(sel[i])
            && post.vec_map()[sel[i]].len() == pre.dim_spec(),
        pre.docs()[sel[i]].embedding_json is None ==> !post.vec_map().contains_key(sel[i]),
{
    assert(task_outcome(pre, post, sel[i], t));
}

/// A well-formed core keeps `(collection, path)` unique across document
/// rows; stated here because `wf` is opaque outside this module.
pub proof fn lemma_wf_unique(c: MemosCore)
    requires
        c.wf(),
    ensures
        crate::store::docs_unique(c.docs()),
{
}

/// Relies on tempfile's `Builder::tempdir_in` with a fixed prefix and no
/// random bytes: creates `dir/name` when absent and keeps it. When the
/// directory already exists the attempt fails and is ignored; any real
/// problem surfaces when the store under it is opened.
#[verifier::external_body]
fn ensure_dir(dir: &str, name: &str) {
    let made = tempfile::Builder::new().prefix(name).rand_bytes(0).tempdir_in(dir);
    if let Ok(d) = made {
        let _ = d.keep();
    }
}

} // verus!
