//! Full-text index adapter.
//!
//! An inverted index keyed by document id, held behind trusted wrappers. Its
//! logical contents are modeled as three maps from id to the stored
//! `(collection, path, content)` triple: what the writer has staged, what has
//! been durably committed, and what the query reader currently sees.

use vstd::prelude::*;
use tantivy::schema::Value;
use tantivy::schema::{Schema, INDEXED, STORED, TEXT};
use tantivy::collector::TopDocs;
use tantivy::query::QueryParser;
use tantivy::{Index, TantivyDocument, Term};
use std::path::Path;

verus! {

/// Inverted full-text index over `(id, collection, path, content)` records.
#[verifier::external_body]
pub struct TextIndex {
    index: tantivy::Index,
    reader: tantivy::IndexReader,
    writer: tantivy::IndexWriter,
    f_id: tantivy::schema::Field,
    f_collection: tantivy::schema::Field,
    f_path: tantivy::schema::Field,
    f_content: tantivy::schema::Field,
}

/// Records the writer holds, committed or not: the delete-then-add `replace`
/// keeps at most one record per id.
pub uninterp spec fn text_staged(t: TextIndex) -> Map<u64, (Seq<char>, Seq<char>, Seq<char>)>;

/// Records durably committed to the index directory.
pub uninterp spec fn text_committed(t: TextIndex) -> Map<u64, (Seq<char>, Seq<char>, Seq<char>)>;

/// Records visible to the query reader; lags `text_committed` until the
/// reader is reloaded.
pub uninterp spec fn text_visible(t: TextIndex) -> Map<u64, (Seq<char>, Seq<char>, Seq<char>)>;

/// What a given index value returns for a query at a limit: querying is
/// deterministic in the reader snapshot it runs against, so two searches of
/// the same index value with the same arguments return the same hits.
pub uninterp spec fn text_search_result(t: TextIndex, q: Seq<char>, limit: int) -> Seq<
    (u64, u32),
>;

impl TextIndex {
    pub open spec fn staged(self) -> Map<u64, (Seq<char>, Seq<char>, Seq<char>)> {
        text_staged(self)
    }

    pub open spec fn committed(self) -> Map<u64, (Seq<char>, Seq<char>, Seq<char>)> {
        text_committed(self)
    }

    pub open spec fn visible(self) -> Map<u64, (Seq<char>, Seq<char>, Seq<char>)> {
        text_visible(self)
    }

    /// Relies on tantivy's `Index::open_in_dir` / `Index::create_in_dir`,
    /// `Index::reader_builder` and `Index::writer`: opens the index under
    /// `dir/name`, creating it with the `{id, collection, path, content}`
    /// schema when absent. The reader is built with the manual reload
    /// policy, so its view changes only through `reload` — no background
    /// watcher moves `text_visible` behind the model's back. A fresh writer
    /// has nothing staged beyond what is committed, and a fresh reader sees
    /// the committed records.
    #[verifier::external_body]
    pub(crate) fn open(dir: &str, name: &str) -> (r: Result<Self, String>)
        ensures
            r matches Ok(t) ==> text_staged(t) == text_committed(t) && text_visible(t)
                == text_committed(t),
    {
        let mut b = Schema::builder();
        let f_id = b.add_u64_field("id", INDEXED | STORED);
        let f_collection = b.add_text_field("collection", TEXT | STORED);
        let f_path = b.add_text_field("path", TEXT | STORED);
        let f_content = b.add_text_field("content", TEXT);
        let p = Path::new(dir).join(name);
        let index = Index::open_in_dir(&p).or_else(|_| Index::create_in_dir(&p, b.build())).map_err(|e| e.to_string())?;
        let reader = index.reader_builder().reload_policy(tantivy::ReloadPolicy::Manual).try_into().map_err(|e: tantivy::TantivyError| e.to_string())?;
        let writer = index.writer(50_000_000).map_err(|e| e.to_string())?;
        Ok(TextIndex { index, reader, writer, f_id, f_collection, f_path, f_content })
    }

    /// Relies on tantivy's `IndexWriter::delete_term` followed by
    /// `IndexWriter::add_document` in the same uncommitted batch: any record
    /// with this id is replaced. On failure the staged record for this id is
    /// either untouched or deleted; other ids are untouched either way.
    #[verifier::external_body]
    pub(crate) fn replace(&mut self, id: u64, collection: &str, path: &str, content: &str) -> (r: Result<
        (),
        String,
    >)
        ensures
            r matches Ok(_) ==> text_staged(*final(self)) == text_staged(*old(self)).insert(
                id,
                (collection@, path@, content@),
            ),
            r matches Err(_) ==> text_staged(*final(self)) == text_staged(*old(self))
                || text_staged(*final(self)) == text_staged(*old(self)).remove(id),
            text_committed(*final(self)) == text_committed(*old(self)),
            text_visible(*final(self)) == text_visible(*old(self)),
    {
        self.writer.delete_term(Term::from_field_u64(self.f_id, id));
        let mut d = TantivyDocument::new();
        d.add_u64(self.f_id, id);
        d.add_text(self.f_collection, collection);
        d.add_text(self.f_path, path);
        d.add_text(self.f_content, content);
        self.writer.add_document(d).map_err(|e| e.to_string())?;
        Ok(())
    }

    /// Relies on tantivy's `IndexWriter::commit`: on success it durably
    /// flushes the staged records, leaving them staged as well; readers keep
    /// their old snapshot until reloaded. On failure the pending operations
    /// may be lost, so nothing is claimed of the staged or committed records
    /// then.
    #[verifier::external_body]
    pub(crate) fn commit(&mut self) -> (r: Result<(), String>)
        ensures
            r matches Ok(_) ==> text_committed(*final(self)) == text_staged(*old(self))
                && text_staged(*final(self)) == text_staged(*old(self)),
            text_visible(*final(self)) == text_visible(*old(self)),
    {
        self.writer.commit().map_err(|e| e.to_string())?;
        Ok(())
    }

    /// Relies on tantivy's `IndexReader::reload`: the query view catches up
    /// with the committed records.
    #[verifier::external_body]
    pub(crate) fn reload(&mut self) -> (r: Result<(), String>)
        ensures
            r matches Ok(_) ==> text_visible(*final(self)) == text_committed(*old(self)),
            text_staged(*final(self)) == text_staged(*old(self)),
            text_committed(*final(self)) == text_committed(*old(self)),
    {
        self.reader.reload().map_err(|e| e.to_string())?;
        Ok(())
    }

    /// Relies on tantivy's `QueryParser::parse_query` over the `content` and
    /// `path` fields, `Searcher::search` under a `TopDocs` collector, and
    /// `Searcher::doc`: up to `limit` visible records, each id at most once,
    /// paired with its raw relevance score as an IEEE-754 single bit pattern.
    /// Errors come from parsing the query or reading a hit back.
    #[verifier::external_body]
    pub(crate) fn search(&self, query: &str, limit: usize) -> (r: Result<Vec<(u64, u32)>, String>)
        requires
            limit >= 1,
        ensures
            r matches Ok(v) ==> {
                &&& v@ == text_search_result(*self, query@, limit as int)
                &&& v@.len() <= limit
                &&& forall|i: int, j: int| 0 <= i < j < v@.len() ==> (#[trigger] v@[i]).0
                    != (#[trigger] v@[j]).0
                &&& forall|i: int| 0 <= i < v@.len() ==> text_visible(*self).contains_key(
                    (#[trigger] v@[i]).0,
                )
            },
    {
        let searcher = self.reader.searcher();
        let parser = QueryParser::for_index(&self.index, vec![self.f_content, self.f_path]);
        let q = parser.parse_query(query).map_err(|e| e.to_string())?;
        let hits = searcher.search(&q, &TopDocs::with_limit(limit).order_by_score()).map_err(|e| e.to_string())?;
        let mut out = Vec::new();
        for (score, addr) in hits {
            let doc: TantivyDocument = searcher.doc(addr).map_err(|e| e.to_string())?;
            let id = doc.get_first(self.f_id).and_then(|v| v.as_u64());
            out.push((id.ok_or("text hit without id".to_string())?, score.to_bits()));
        }
        Ok(out)
    }
}

} // verus!
