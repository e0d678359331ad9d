//! Approximate-nearest-neighbor vector index adapter.
//!
//! Fixed-dimension dense vectors keyed by document id, held in memory by
//! usearch and snapshotted atomically on persist. Contents are modeled as a
//! map from id to the vector's components, carried as IEEE-754 single bit
//! patterns.

use vstd::prelude::*;
use tantivy::Score;

verus! {

#[verifier::external_type_specification]
#[verifier::external_body]
pub struct ExUsearchIndex(usearch::Index);

/// The vectors held by an index, keyed by id; one vector per key.
pub uninterp spec fn vec_contents(i: usearch::Index) -> Map<u64, Seq<u32>>;

/// What a given index value returns for a query at a limit: the graph
/// traversal uses no randomness at query time, so two searches of the same
/// index value with the same arguments return the same neighbors.
pub uninterp spec fn vec_search_result(i: usearch::Index, q: Seq<u32>, limit: int) -> Seq<
    (u64, u32),
>;

/// In-memory vector index with its configured dimension.
pub struct VectorStore {
    idx: usearch::Index,
    dim: usize,
}

impl VectorStore {
    pub closed spec fn contents(self) -> Map<u64, Seq<u32>> {
        vec_contents(self.idx)
    }

    pub closed spec fn dim_spec(self) -> usize {
        self.dim
    }

    /// The neighbors this index value returns for a query at a limit.
    pub closed spec fn query_result(self, q: Seq<u32>, limit: int) -> Seq<(u64, u32)> {
        vec_search_result(self.idx, q, limit)
    }

    /// The configured vector dimension.
    pub fn dim(&self) -> (r: usize)
        ensures
            r == self.dim_spec(),
    {
        self.dim
    }

    /// Relies on usearch's `Index::new` (squared-L2 metric, f32 scalars, one
    /// vector per key), `Index::load` when a snapshot file exists under
    /// `dir/name`, and `Index::reserve` otherwise.
    #[verifier::external_body]
    pub(crate) fn open(dir: &str, name: &str, dim: usize, capacity: usize) -> (r: Result<Self, String>)
        ensures
            r matches Ok(v) ==> v.dim_spec() == dim,
    {
        let opts = usearch::IndexOptions {
            dimensions: dim, metric: usearch::MetricKind::L2sq,
            quantization: usearch::ScalarKind::F32, connectivity: 16,
            expansion_add: 128, expansion_search: 64, multi: false,
        };
        let idx = usearch::Index::new(&opts).map_err(|e| e.to_string())?;
        let path = std::path::Path::new(dir).join(name);
        if path.exists() {
            idx.load(path.to_string_lossy().as_ref()).map_err(|e| e.to_string())?;
        } else {
            idx.reserve(capacity).map_err(|e| e.to_string())?;
        }
        Ok(VectorStore { idx, dim })
    }

    /// Drop any vector stored under `id`; absent ids drop nothing.
    pub fn remove_vector(&mut self, id: u64) -> (r: Result<(), String>)
        ensures
            r matches Ok(_) ==> final(self).contents() == old(self).contents().remove(id),
            r matches Err(_) ==> final(self).contents() == old(self).contents(),
            final(self).dim_spec() == old(self).dim_spec(),
    {
        usearch_remove(&mut self.idx, id)
    }

    /// Associate `id` with the vector; fails without a write on a dimension
    /// mismatch or exhausted capacity.
    pub fn insert_vector(&mut self, id: u64, bits: &Vec<u32>) -> (r: Result<(), String>)
        ensures
            r matches Ok(_) ==> final(self).contents() == old(self).contents().insert(id, bits@),
            r matches Err(_) ==> final(self).contents() == old(self).contents(),
            final(self).dim_spec() == old(self).dim_spec(),
    {
        usearch_add(&mut self.idx, id, bits)
    }

    /// Approximate nearest neighbors of the query: up to `limit` stored
    /// keys, each at most once, paired with the squared-L2 distance as an
    /// IEEE-754 single bit pattern.
    pub fn search_vectors(&self, query_bits: &Vec<u32>, limit: usize) -> (r: Result<
        Vec<(u64, u32)>,
        String,
    >)
        ensures
            r matches Ok(v) ==> {
                &&& v@ == self.query_result(query_bits@, limit as int)
                &&& v@.len() <= limit
                &&& forall|i: int, j: int| 0 <= i < j < v@.len() ==> (#[trigger] v@[i]).0
                    != (#[trigger] v@[j]).0
                &&& forall|i: int| 0 <= i < v@.len() ==> self.contents().contains_key(
                    (#[trigger] v@[i]).0,
                )
            },
    {
        usearch_search(&self.idx, query_bits, limit)
    }

    /// Relies on usearch's `Index::save` into a fresh temporary file under
    /// `dir` (made by tempfile's `NamedTempFile::new_in`) and on tempfile's
    /// `NamedTempFile::persist` renaming it over `dir/name`: a crash mid-save
    /// never truncates the live snapshot.
    #[verifier::external_body]
    pub(crate) fn persist(&self, dir: &str, name: &str) -> (r: Result<(), String>)
    {
        let tmp = tempfile::NamedTempFile::new_in(dir).map_err(|e| e.to_string())?;
        let tmp_path = tmp.path().to_string_lossy().to_string();
        self.idx.save(tmp_path.as_ref()).map_err(|e| e.to_string())?;
        tmp.persist(std::path::Path::new(dir).join(name)).map_err(|e| e.to_string())?;
        Ok(())
    }
}

/// Relies on usearch's `Index::remove`: drops any vector under this key;
/// removing an absent key succeeds and removes nothing.
#[verifier::external_body]
fn usearch_remove(idx: &mut usearch::Index, id: u64) -> (r: Result<(), String>)
    ensures
        r matches Ok(_) ==> vec_contents(*final(idx)) == vec_contents(*old(idx)).remove(id),
        r matches Err(_) ==> vec_contents(*final(idx)) == vec_contents(*old(idx)),
{
    idx.remove(id).map_err(|e| e.to_string())?;
    Ok(())
}

/// Relies on usearch's `Index::add`: associates the key with the vector,
/// failing (without a write) on a dimension mismatch or when capacity is
/// exhausted.
#[verifier::external_body]
fn usearch_add(idx: &mut usearch::Index, id: u64, bits: &Vec<u32>) -> (r: Result<(), String>)
    ensures
        r matches Ok(_) ==> vec_contents(*final(idx)) == vec_contents(*old(idx)).insert(
            id,
            bits@,
        ),
        r matches Err(_) ==> vec_contents(*final(idx)) == vec_contents(*old(idx)),
{
    let v: Vec<Score> = bits.iter().map(|b| Score::from_bits(*b)).collect();
    idx.add(id, &v).map_err(|e| e.to_string())?;
    Ok(())
}

/// Relies on usearch's `Index::search`: up to `limit` stored keys, each at
/// most once (the index holds one vector per key), paired with the
/// squared-L2 distance to the query as an IEEE-754 single bit pattern.
#[verifier::external_body]
fn usearch_search(idx: &usearch::Index, query_bits: &Vec<u32>, limit: usize) -> (r: Result<
    Vec<(u64, u32)>,
    String,
>)
    ensures
        r matches Ok(v) ==> {
            &&& v@ == vec_search_result(*idx, query_bits@, limit as int)
            &&& v@.len() <= limit
            &&& forall|i: int, j: int| 0 <= i < j < v@.len() ==> (#[trigger] v@[i]).0
                != (#[trigger] v@[j]).0
            &&& forall|i: int| 0 <= i < v@.len() ==> vec_contents(*idx).contains_key(
                (#[trigger] v@[i]).0,
            )
        },
{
    let q: Vec<Score> = query_bits.iter().map(|b| Score::from_bits(*b)).collect();
    let m = idx.search(&q, limit).map_err(|e| e.to_string())?;
    let mut out: Vec<(u64, u32)> = Vec::with_capacity(m.keys.len());
    for (k, d) in m.keys.iter().zip(m.distances.iter()) {
        out.push((*k, d.to_bits()));
    }
    Ok(out)
}

} // verus!
