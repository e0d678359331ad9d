//! Embedding codec.
//!
//! Embeddings are dense vectors of IEEE-754 singles, carried through the
//! library as their bit patterns and stored in the document table as a JSON
//! array. Encoding and decoding go through serde_json; what a given JSON
//! string decodes to is named by `parsed_embedding`, and the decoded vector
//! is checked against the configured dimension in verified code.

use vstd::prelude::*;
use tantivy::Score;
use crate::score::f32_finite;

verus! {

/// What a JSON string decodes to as a vector of IEEE-754 single bit
/// patterns, or `None` when it does not parse as such a vector.
pub uninterp spec fn parsed_embedding(s: Seq<char>) -> Option<Seq<u32>>;

/// The JSON encoding of a vector of IEEE-754 single bit patterns.
pub uninterp spec fn embedding_json_of(bits: Seq<u32>) -> Seq<char>;

/// Every component is a finite IEEE-754 single.
pub open spec fn all_finite(bits: Seq<u32>) -> bool {
    forall|i: int| 0 <= i < bits.len() ==> f32_finite(#[trigger] bits[i])
}

/// Relies on serde_json's `to_string` for `Vec<f32>`: a JSON array of the
/// components in shortest round-tripping form. With the `float_roundtrip`
/// feature enabled (it is, in Cargo.toml), the deserializer parses each
/// component at single precision, so every all-finite vector reads back
/// bit for bit; non-finite components are written as `null` and no longer
/// parse as numbers.
#[verifier::external_body]
pub fn embedding_to_json(bits: &Vec<u32>) -> (r: String)
    ensures
        r@ == embedding_json_of(bits@),
        all_finite(bits@) ==> parsed_embedding(r@) == Some(bits@),
{
    let v: Vec<Score> = bits.iter().map(|b| Score::from_bits(*b)).collect();
    serde_json::to_string(&v).unwrap_or_default()
}

/// Relies on serde_json's `from_str` for `Vec<f32>`: `Some` exactly when the
/// string is a JSON array of numbers, with the parsed components.
#[verifier::external_body]
pub fn embedding_from_json(s: &str) -> (r: Option<Vec<u32>>)
    ensures
        match r {
            Some(v) => parsed_embedding(s@) == Some(v@),
            None => parsed_embedding(s@) is None,
        },
{
    match serde_json::from_str::<Vec<Score>>(s) {
        Ok(v) => Some(v.iter().map(|x| x.to_bits()).collect()),
        Err(_) => None,
    }
}

} // verus!
