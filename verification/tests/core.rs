use memoscore::engine::{CoreError, DocInput, MemosCore};
use memoscore::fuse::Source;
use memoscore::score::{micro_from_bits, sim_from_dist, MICRO_SAT, SCORE_ONE};
use memoscore::fuse::fuse_hits;
use memoscore::store::TaskStatus;

fn open_in(dir: &tempfile::TempDir, dim: usize, cap: usize) -> MemosCore {
    MemosCore::open(dir.path().to_str().unwrap(), dim, cap).unwrap()
}

fn bits_of(v: Vec<f32>) -> Vec<u32> {
    v.iter().map(|x| x.to_bits()).collect()
}

fn doc(path: &str, content: &str, emb: Option<Vec<f32>>) -> DocInput {
    DocInput {
        path: path.to_string(),
        content: content.to_string(),
        embedding: emb.map(bits_of),
        updated_at_ms: None,
    }
}

#[test]
fn text_only_search_finds_document() {
    let dir = tempfile::tempdir().unwrap();
    let mut core = open_in(&dir, 3, 16);
    let n = core
        .upsert_documents("notes", &vec![doc("a", "hello world", Some(vec![1.0, 0.0, 0.0]))])
        .unwrap();
    assert_eq!(n, 1);
    assert_eq!(core.sync_index_tasks(200).unwrap(), 1);
    let hits = core.search(None, Some("hello"), None, 4).unwrap();
    assert_eq!(hits.len(), 1);
    assert_eq!(hits[0].path, "a");
    assert_eq!(hits[0].collection, "notes");
    assert_eq!(hits[0].source, Source::Bm25);
    assert!(hits[0].score_micro > 0);
    assert_eq!(hits[0].score_micro, 550_000);
}

#[test]
fn vector_only_search_scores_by_vector_weight() {
    let dir = tempfile::tempdir().unwrap();
    let mut core = open_in(&dir, 3, 16);
    core.upsert_documents("notes", &vec![doc("a", "hello world", Some(vec![1.0, 0.0, 0.0]))])
        .unwrap();
    core.sync_index_tasks(200).unwrap();
    let hits = core.search(None, None, Some(&bits_of(vec![1.0, 0.0, 0.0])), 4).unwrap();
    assert_eq!(hits.len(), 1);
    assert_eq!(hits[0].source, Source::Ann);
    // the only candidate normalizes to the maximum; the fused score is the
    // vector weight alone
    assert_eq!(hits[0].score_micro, 450_000);
}

#[test]
fn hybrid_search_scores_full_unit() {
    let dir = tempfile::tempdir().unwrap();
    let mut core = open_in(&dir, 3, 16);
    core.upsert_documents("notes", &vec![doc("a", "hello world", Some(vec![1.0, 0.0, 0.0]))])
        .unwrap();
    core.sync_index_tasks(200).unwrap();
    let hits = core
        .search(None, Some("hello"), Some(&bits_of(vec![1.0, 0.0, 0.0])), 4)
        .unwrap();
    assert_eq!(hits.len(), 1);
    assert_eq!(hits[0].source, Source::Hybrid);
    assert_eq!(hits[0].score_micro, 1_000_000);
}

#[test]
fn hybrid_ranking_prefers_closer_vector() {
    let dir = tempfile::tempdir().unwrap();
    let mut core = open_in(&dir, 3, 16);
    core.upsert_documents(
        "notes",
        &vec![
            doc("a", "alpha beta", Some(vec![1.0, 0.0, 0.0])),
            doc("b", "alpha gamma", Some(vec![0.0, 1.0, 0.0])),
        ],
    )
    .unwrap();
    assert_eq!(core.sync_index_tasks(200).unwrap(), 2);
    let hits = core
        .search(None, Some("alpha"), Some(&bits_of(vec![1.0, 0.0, 0.0])), 2)
        .unwrap();
    assert_eq!(hits.len(), 2);
    assert_eq!(hits[0].path, "a");
    assert_eq!(hits[1].path, "b");
    assert!(hits[0].score_micro > hits[1].score_micro);
}

#[test]
fn fetch_returns_fields_verbatim() {
    let dir = tempfile::tempdir().unwrap();
    let mut core = open_in(&dir, 3, 16);
    let content = "h\u{e9}llo w\u{f6}rld \u{2713} unicode";
    let mut d = doc("p\u{e4}th", content, Some(vec![0.5, -1.25, 3.0]));
    d.updated_at_ms = Some(12345);
    core.upsert_documents("c\u{f6}llection", &vec![d]).unwrap();
    let f = core.fetch(1).unwrap().unwrap();
    assert_eq!(f.collection, "c\u{f6}llection");
    assert_eq!(f.path, "p\u{e4}th");
    assert_eq!(f.content, content);
    let parsed: Vec<f32> = serde_json::from_str(f.embedding_json.as_deref().unwrap()).unwrap();
    assert_eq!(parsed, vec![0.5, -1.25, 3.0]);
    let (updated, indexed) = core.doc_times(1).unwrap().unwrap();
    assert_eq!(updated, 12345);
    assert_eq!(indexed, None);
}

#[test]
fn reupsert_overwrites_single_row() {
    let dir = tempfile::tempdir().unwrap();
    let mut core = open_in(&dir, 3, 16);
    core.upsert_documents("notes", &vec![doc("a", "first", None)]).unwrap();
    assert_eq!(core.sync_index_tasks(200).unwrap(), 1);
    let (_, indexed) = core.doc_times(1).unwrap().unwrap();
    assert!(indexed.is_some());
    core.upsert_documents("notes", &vec![doc("a", "second", None)]).unwrap();
    let f = core.fetch(1).unwrap().unwrap();
    assert_eq!(f.content, "second");
    let (_, indexed2) = core.doc_times(1).unwrap().unwrap();
    assert_eq!(indexed2, None);
    // still a single row: no second id was assigned
    assert!(core.fetch(2).unwrap().is_none());
}

#[test]
fn empty_batch_is_a_no_op() {
    let dir = tempfile::tempdir().unwrap();
    let mut core = open_in(&dir, 3, 16);
    assert_eq!(core.upsert_documents("notes", &vec![]).unwrap(), 0);
    assert_eq!(core.sync_index_tasks(200).unwrap(), 0);
    assert!(core.task_state(1).unwrap().is_none());
}

#[test]
fn empty_collection_name_is_rejected() {
    let dir = tempfile::tempdir().unwrap();
    let mut core = open_in(&dir, 3, 16);
    let r = core.upsert_documents("", &vec![doc("a", "x", None)]);
    assert!(matches!(r, Err(CoreError::EmptyCollection)));
    let r2 = core.upsert_documents("notes", &vec![doc("", "x", None)]);
    assert!(matches!(r2, Err(CoreError::EmptyPath)));
}

#[test]
fn wrong_dimension_embedding_fails_task() {
    let dir = tempfile::tempdir().unwrap();
    let mut core = open_in(&dir, 4, 16);
    core.upsert_documents("notes", &vec![doc("a", "hello world", Some(vec![1.0, 0.0, 0.0]))])
        .unwrap();
    assert_eq!(core.sync_index_tasks(200).unwrap(), 0);
    let t = core.task_state(1).unwrap().unwrap();
    assert_eq!(t.status, TaskStatus::Failed);
    assert_eq!(t.retries, 1);
    assert!(t.last_error.unwrap().contains("dim mismatch"));
    // retried whole on the next pass, still failing
    assert_eq!(core.sync_index_tasks(200).unwrap(), 0);
    assert_eq!(core.task_state(1).unwrap().unwrap().retries, 2);
    // after a corrected embedding the document catches up and is searchable
    core.upsert_documents("notes", &vec![doc("a", "hello world", Some(vec![1.0, 0.0, 0.0, 0.0]))])
        .unwrap();
    assert_eq!(core.sync_index_tasks(200).unwrap(), 1);
    let hits = core.search(None, Some("hello"), None, 4).unwrap();
    assert_eq!(hits.len(), 1);
}

#[test]
fn query_vector_dimension_is_checked_first() {
    let dir = tempfile::tempdir().unwrap();
    let core = open_in(&dir, 3, 16);
    let r = core.search(None, Some("hello"), Some(&bits_of(vec![1.0, 0.0])), 4);
    assert!(matches!(r, Err(CoreError::QueryDimMismatch)));
}

#[test]
fn zero_top_k_returns_nothing() {
    let dir = tempfile::tempdir().unwrap();
    let mut core = open_in(&dir, 3, 16);
    core.upsert_documents("notes", &vec![doc("a", "hello", Some(vec![1.0, 0.0, 0.0]))])
        .unwrap();
    core.sync_index_tasks(200).unwrap();
    let hits = core
        .search(None, Some("hello"), Some(&bits_of(vec![1.0, 0.0, 0.0])), 0)
        .unwrap();
    assert!(hits.is_empty());
}

#[test]
fn absent_queries_return_nothing() {
    let dir = tempfile::tempdir().unwrap();
    let mut core = open_in(&dir, 3, 16);
    core.upsert_documents("notes", &vec![doc("a", "hello", None)]).unwrap();
    core.sync_index_tasks(200).unwrap();
    let hits = core.search(None, None, None, 8).unwrap();
    assert!(hits.is_empty());
}

#[test]
fn sync_counts_and_stamps_each_done_task() {
    let dir = tempfile::tempdir().unwrap();
    let mut core = open_in(&dir, 3, 16);
    core.upsert_documents(
        "notes",
        &vec![doc("a", "one", Some(vec![1.0, 0.0, 0.0])), doc("b", "two", None)],
    )
    .unwrap();
    assert_eq!(core.sync_index_tasks(200).unwrap(), 2);
    for id in [1u64, 2u64] {
        let t = core.task_state(id).unwrap().unwrap();
        assert_eq!(t.status, TaskStatus::Done);
        assert!(t.last_error.is_none());
        let (_, indexed) = core.doc_times(id).unwrap().unwrap();
        assert!(indexed.is_some());
    }
}

#[test]
fn rerunning_sync_is_a_no_op() {
    let dir = tempfile::tempdir().unwrap();
    let mut core = open_in(&dir, 3, 16);
    core.upsert_documents("notes", &vec![doc("a", "hello", Some(vec![1.0, 0.0, 0.0]))])
        .unwrap();
    assert_eq!(core.sync_index_tasks(200).unwrap(), 1);
    assert_eq!(core.sync_index_tasks(200).unwrap(), 0);
    assert_eq!(core.sync_index_tasks(200).unwrap(), 0);
}

#[test]
fn document_id_is_stable_across_reupserts() {
    let dir = tempfile::tempdir().unwrap();
    let mut core = open_in(&dir, 3, 16);
    core.upsert_documents("notes", &vec![doc("a", "hello world", None)]).unwrap();
    core.sync_index_tasks(200).unwrap();
    let first = core.search(None, Some("hello"), None, 4).unwrap();
    assert_eq!(first.len(), 1);
    let id = first[0].id;
    core.upsert_documents("notes", &vec![doc("a", "hello again", None)]).unwrap();
    core.sync_index_tasks(200).unwrap();
    let second = core.search(None, Some("hello"), None, 4).unwrap();
    assert_eq!(second.len(), 1);
    assert_eq!(second[0].id, id);
    assert_eq!(second[0].content, "hello again");
}

#[test]
fn reopen_recovers_pending_tasks() {
    let dir = tempfile::tempdir().unwrap();
    {
        let mut core = open_in(&dir, 3, 16);
        core.upsert_documents("notes", &vec![doc("a", "hello world", Some(vec![1.0, 0.0, 0.0]))])
            .unwrap();
        // dropped before any sync pass ran
    }
    let mut core = MemosCore::open(dir.path().to_str().unwrap(), 3, 16).unwrap();
    assert_eq!(core.sync_index_tasks(200).unwrap(), 1);
    assert_eq!(core.task_state(1).unwrap().unwrap().status, TaskStatus::Done);
    let hits = core
        .search(None, Some("hello"), Some(&bits_of(vec![1.0, 0.0, 0.0])), 4)
        .unwrap();
    assert_eq!(hits.len(), 1);
    assert_eq!(hits[0].source, Source::Hybrid);
}

#[test]
fn collection_filter_drops_results_after_fusion() {
    let dir = tempfile::tempdir().unwrap();
    let mut core = open_in(&dir, 3, 16);
    core.upsert_documents("notes", &vec![doc("a", "hello world", None)]).unwrap();
    core.upsert_documents("other", &vec![doc("b", "hello there", None)]).unwrap();
    core.sync_index_tasks(200).unwrap();
    let hits = core.search(Some("notes"), Some("hello"), None, 8).unwrap();
    assert_eq!(hits.len(), 1);
    assert_eq!(hits[0].collection, "notes");
    let all = core.search(None, Some("hello"), None, 8).unwrap();
    assert_eq!(all.len(), 2);
}

#[test]
fn closest_vector_ranks_first_among_neighbors() {
    let dir = tempfile::tempdir().unwrap();
    let mut core = open_in(&dir, 3, 16);
    core.upsert_documents(
        "notes",
        &vec![
            doc("a", "one", Some(vec![1.0, 0.0, 0.0])),
            doc("b", "two", Some(vec![0.9, 0.1, 0.0])),
            doc("c", "three", Some(vec![0.0, 0.0, 1.0])),
        ],
    )
    .unwrap();
    assert_eq!(core.sync_index_tasks(200).unwrap(), 3);
    let hits = core.search(None, None, Some(&bits_of(vec![0.95, 0.05, 0.0])), 2).unwrap();
    assert_eq!(hits.len(), 2);
    assert_eq!(hits[0].path, "b");
    assert_eq!(hits[1].path, "a");
    assert!(hits[0].score_micro >= hits[1].score_micro);
}

#[test]
fn micro_conversion_is_exact() {
    assert_eq!(micro_from_bits(1.5f32.to_bits()), 1_500_000);
    assert_eq!(micro_from_bits(0.25f32.to_bits()), 250_000);
    assert_eq!(micro_from_bits(0.0f32.to_bits()), 0);
    assert_eq!(micro_from_bits((-3.5f32).to_bits()), 0);
    assert_eq!(micro_from_bits(f32::NAN.to_bits()), 0);
    assert_eq!(micro_from_bits(f32::INFINITY.to_bits()), 0);
    assert_eq!(micro_from_bits(f32::MAX.to_bits()), MICRO_SAT);
    // tiny values round down to zero millionths
    assert_eq!(micro_from_bits(1.0e-9f32.to_bits()), 0);
    assert_eq!(micro_from_bits(2.0f32.to_bits()), 2_000_000);
}

#[test]
fn similarity_transform_is_exact() {
    assert_eq!(sim_from_dist(0), SCORE_ONE);
    assert_eq!(sim_from_dist(1_000_000), 500_000);
    assert_eq!(sim_from_dist(3_000_000), 250_000);
}

#[test]
fn fusion_normalizes_and_ranks() {
    // raw text relevance in millionths, similarity in millionths
    let text = vec![(1u64, 800u64), (2u64, 400u64)];
    let vecs = vec![(2u64, 1_000_000u64)];
    let ranked = fuse_hits(&text, &vecs, 2);
    assert_eq!(ranked.len(), 2);
    assert_eq!(ranked[0].id, 2);
    assert_eq!(ranked[0].score_micro, 725_000);
    assert_eq!(ranked[0].source, Source::Hybrid);
    assert_eq!(ranked[1].id, 1);
    assert_eq!(ranked[1].score_micro, 550_000);
    assert_eq!(ranked[1].source, Source::Bm25);
    let top1 = fuse_hits(&text, &vecs, 1);
    assert_eq!(top1.len(), 1);
    assert_eq!(top1[0].id, 2);
}

#[test]
fn stale_embedding_json_parse_failure_is_recorded() {
    let dir = tempfile::tempdir().unwrap();
    let mut core = open_in(&dir, 3, 16);
    // a NaN component serializes as null and no longer parses as a number
    core.upsert_documents("notes", &vec![doc("a", "hello", Some(vec![f32::NAN, 0.0, 0.0]))])
        .unwrap();
    assert_eq!(core.sync_index_tasks(200).unwrap(), 0);
    let t = core.task_state(1).unwrap().unwrap();
    assert_eq!(t.status, TaskStatus::Failed);
    assert!(t.last_error.unwrap().contains("parse"));
}

#[test]
fn open_migrates_older_document_table() {
    let dir = tempfile::tempdir().unwrap();
    {
        let conn = rusqlite::Connection::open(dir.path().join("memoscore.sqlite")).unwrap();
        conn.execute_batch(
            "CREATE TABLE documents (id INTEGER PRIMARY KEY AUTOINCREMENT, collection TEXT NOT NULL, path TEXT NOT NULL, content TEXT NOT NULL, updated_at_unix_ms INTEGER, UNIQUE(collection, path));",
        )
        .unwrap();
        conn.execute(
            "INSERT INTO documents(collection, path, content, updated_at_unix_ms) VALUES ('notes','old','legacy',7)",
            (),
        )
        .unwrap();
    }
    let mut core = open_in(&dir, 3, 16);
    let f = core.fetch(1).unwrap().unwrap();
    assert_eq!(f.content, "legacy");
    assert!(f.embedding_json.is_none());
    let (updated, indexed) = core.doc_times(1).unwrap().unwrap();
    assert_eq!(updated, 7);
    assert_eq!(indexed, None);
    // the legacy row can be re-upserted and indexed like any other
    core.upsert_documents("notes", &vec![doc("old", "fresh", None)]).unwrap();
    assert_eq!(core.sync_index_tasks(200).unwrap(), 1);
}
