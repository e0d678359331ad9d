//! Hybrid score fusion.
//!
//! Each modality contributes up to `4 * top_k` candidates as `(id, micro)`
//! pairs. Text candidates carry raw relevance in millionths; vector
//! candidates carry similarities in millionths. Both sides are normalized by
//! their per-query maximum, combined with the fixed 0.55 / 0.45 weights, and
//! ranked by descending fused score.

use vstd::prelude::*;
use vstd::arithmetic::div_mod::*;
use vstd::seq_lib::*;
use crate::score::{SCORE_ONE, TEXT_WEIGHT, VEC_WEIGHT};

verus! {

/// Which modalities produced a hit.
#[derive(Clone, Copy, Debug, PartialEq, Eq, Structural)]
pub enum Source {
    Bm25,
    Ann,
    Hybrid,
}

/// A ranked candidate: fused score in millionths, tagged with its origin.
#[derive(Clone, Copy, Debug, PartialEq, Eq, Structural)]
pub struct Ranked {
    pub id: u64,
    pub score_micro: u64,
    pub source: Source,
}

pub open spec fn has_id(s: Seq<(u64, u64)>, id: u64) -> bool {
    exists|i: int| 0 <= i < s.len() && s[i].0 == id
}

/// The score carried for `id`: the first entry wins; absent ids score zero.
pub open spec fn micro_at(s: Seq<(u64, u64)>, id: u64) -> nat
    decreases s.len(),
{
    if s.len() == 0 {
        0
    } else if s[0].0 == id {
        s[0].1 as nat
    } else {
        micro_at(s.drop_first(), id)
    }
}

pub open spec fn distinct_ids(s: Seq<(u64, u64)>) -> bool {
    forall|i: int, j: int| 0 <= i < j < s.len() ==> s[i].0 != s[j].0
}

/// Largest score among the candidates.
pub open spec fn max_micro(s: Seq<(u64, u64)>) -> nat
    decreases s.len(),
{
    if s.len() == 0 {
        0
    } else {
        let rest = max_micro(s.drop_last());
        if s.last().1 as nat > rest {
            s.last().1 as nat
        } else {
            rest
        }
    }
}

/// Normalization divisor: the per-query maximum, or one unit if no candidate
/// scored above zero.
pub open spec fn denom_of(s: Seq<(u64, u64)>) -> nat {
    if max_micro(s) == 0 {
        SCORE_ONE as nat
    } else {
        max_micro(s)
    }
}

/// Normalized per-id modality score in millionths: `micro(id) / max`, zero
/// for ids the modality did not return.
pub open spec fn norm_of(s: Seq<(u64, u64)>, id: u64) -> nat {
    if has_id(s, id) {
        micro_at(s, id) * 1_000_000 / denom_of(s)
    } else {
        0
    }
}

/// The fused score: `0.55 * t + 0.45 * v` in millionths.
pub open spec fn fused_of(t: nat, v: nat) -> nat {
    ((t * TEXT_WEIGHT + v * VEC_WEIGHT) / 1_000_000) as nat
}

/// Hybrid when both modalities scored above zero, else the one that did;
/// a candidate with two zero scores is tagged by the vector side.
pub open spec fn source_of(t: nat, v: nat) -> Source {
    if t > 0 && v > 0 {
        Source::Hybrid
    } else if t > 0 {
        Source::Bm25
    } else {
        Source::Ann
    }
}

/// The fused score of `id` given both raw candidate lists.
pub open spec fn fused_score_of(text: Seq<(u64, u64)>, vecs: Seq<(u64, u64)>, id: u64) -> nat {
    fused_of(norm_of(text, id), norm_of(vecs, id))
}

pub open spec fn fused_source_of(text: Seq<(u64, u64)>, vecs: Seq<(u64, u64)>, id: u64) -> Source {
    source_of(norm_of(text, id), norm_of(vecs, id))
}

pub open spec fn sorted_desc(s: Seq<Ranked>) -> bool {
    forall|i: int, j: int| 0 <= i < j < s.len() ==> s[i].score_micro >= s[j].score_micro
}

pub open spec fn distinct_ranked_ids(s: Seq<Ranked>) -> bool {
    forall|i: int, j: int| 0 <= i < j < s.len() ==> s[i].id != s[j].id
}

proof fn lemma_micro_at_index(s: Seq<(u64, u64)>, i: int)
    requires
        distinct_ids(s),
        0 <= i < s.len(),
    ensures
        micro_at(s, s[i].0) == s[i].1 as nat,
    decreases s.len(),
{
    if i > 0 {
        assert(s.drop_first()[i - 1] == s[i]);
        assert(distinct_ids(s.drop_first())) by {
            assert(forall|x: int, y: int|
                0 <= x < y < s.drop_first().len() ==> s.drop_first()[x] == s[x + 1]
                    && s.drop_first()[y] == s[y + 1]);
        }
        lemma_micro_at_index(s.drop_first(), i - 1);
    }
}

proof fn lemma_max_micro_ge(s: Seq<(u64, u64)>, i: int)
    requires
        0 <= i < s.len(),
    ensures
        max_micro(s) >= s[i].1 as nat,
    decreases s.len(),
{
    if i < s.len() - 1 {
        assert(s.drop_last()[i] == s[i]);
        lemma_max_micro_ge(s.drop_last(), i);
    }
}

/// Largest score among the candidates, computed.
fn max_of(hits: &Vec<(u64, u64)>) -> (r: u64)
    ensures
        r as nat == max_micro(hits@),
{
    let mut r: u64 = 0;
    let mut i: usize = 0;
    while i < hits.len()
        invariant
            0 <= i <= hits@.len(),
            r as nat == max_micro(hits@.take(i as int)),
        decreases hits@.len() - i,
    {
        proof {
            assert(hits@.take(i + 1).drop_last() =~= hits@.take(i as int));
            assert(hits@.take(i + 1).last() == hits@[i as int]);
        }
        if hits[i].1 > r {
            r = hits[i].1;
        }
        i += 1;
    }
    proof {
        assert(hits@.take(hits@.len() as int) =~= hits@);
    }
    r
}

/// `raw * 1_000_000 / denom`, exact, with the quotient known to stay within
/// one unit whenever `raw <= denom`.
fn norm_div(raw: u64, denom: u64) -> (r: u64)
    requires
        denom > 0,
        raw <= denom,
    ensures
        r as nat == raw as nat * 1_000_000 / denom as nat,
        r <= SCORE_ONE,
{
    let prod: u128 = raw as u128 * 1_000_000;
    let q: u128 = prod / denom as u128;
    proof {
        assert(raw as nat * 1_000_000 <= denom as nat * 1_000_000) by (nonlinear_arith)
            requires raw <= denom;
        lemma_div_is_ordered(raw as int * 1_000_000, denom as int * 1_000_000, denom as int);
        lemma_div_multiples_vanish(1_000_000int, denom as int);
    }
    q as u64
}

/// One merged candidate with both normalized modality scores.
struct Merged {
    id: u64,
    t_norm: u64,
    v_norm: u64,
}

spec fn merged_ok(m: Seq<Merged>, text: Seq<(u64, u64)>, vecs: Seq<(u64, u64)>) -> bool {
    &&& forall|i: int, j: int| 0 <= i < j < m.len() ==> m[i].id != m[j].id
    &&& forall|i: int| 0 <= i < m.len() ==> #[trigger] m[i].t_norm as nat == norm_of(text, m[i].id)
    &&& forall|i: int| 0 <= i < m.len() ==> #[trigger] m[i].v_norm as nat == norm_of(vecs, m[i].id)
    &&& forall|i: int| 0 <= i < m.len() ==> has_id(text, #[trigger] m[i].id) || has_id(vecs, m[i].id)
    &&& forall|id: u64| has_id(text, id) || has_id(vecs, id)
        ==> exists|i: int| 0 <= i < m.len() && #[trigger] m[i].id == id
}

/// Merge both candidate lists, normalizing each side by its maximum.
fn merge_normalized(text: &Vec<(u64, u64)>, vecs: &Vec<(u64, u64)>) -> (m: Vec<Merged>)
    requires
        distinct_ids(text@),
        distinct_ids(vecs@),
    ensures
        merged_ok(m@, text@, vecs@),
        m@.len() <= text@.len() + vecs@.len(),
{
    let t_max: u64 = max_of(text);
    let t_den: u64 = if t_max == 0 { SCORE_ONE } else { t_max };
    let v_max: u64 = max_of(vecs);
    let v_den: u64 = if v_max == 0 { SCORE_ONE } else { v_max };
    let mut m: Vec<Merged> = Vec::new();
    let mut i: usize = 0;
    while i < text.len()
        invariant
            0 <= i <= text@.len(),
            distinct_ids(text@),
            distinct_ids(vecs@),
            t_den as nat == denom_of(text@),
            t_den > 0,
            m@.len() == i,
            forall|k: int| 0 <= k < i ==> #[trigger] m@[k].id == text@[k].0,
            forall|k: int| 0 <= k < i
                ==> #[trigger] m@[k].t_norm as nat == norm_of(text@, m@[k].id),
            forall|k: int| 0 <= k < i ==> #[trigger] m@[k].v_norm == 0,
        decreases text@.len() - i,
    {
        let (id, raw) = (text[i].0, text[i].1);
        proof {
            lemma_micro_at_index(text@, i as int);
            lemma_max_micro_ge(text@, i as int);
        }
        let t_norm = norm_div(raw, t_den);
        m.push(Merged { id, t_norm, v_norm: 0 });
        i += 1;
    }
    proof {
        assert(forall|k: int, l: int| 0 <= k < l < m@.len()
            ==> #[trigger] m@[k].id != #[trigger] m@[l].id);
        assert forall|id: u64| has_id(text@, id) implies exists|k: int|
            0 <= k < m@.len() && #[trigger] m@[k].id == id by {
            let x = choose|x: int| 0 <= x < text@.len() && text@[x].0 == id;
            assert(m@[x].id == id);
        }
    }
    let text_count: usize = m.len();
    let mut j: usize = 0;
    while j < vecs.len()
        invariant
            0 <= j <= vecs@.len(),
            distinct_ids(text@),
            distinct_ids(vecs@),
            v_den as nat == denom_of(vecs@),
            v_den > 0,
            text_count <= m@.len(),
            m@.len() <= text@.len() + j,
            forall|k: int, l: int| 0 <= k < l < m@.len()
                ==> #[trigger] m@[k].id != #[trigger] m@[l].id,
            forall|k: int| 0 <= k < m@.len()
                ==> #[trigger] m@[k].t_norm as nat == norm_of(text@, m@[k].id),
            forall|k: int| 0 <= k < m@.len()
                ==> has_id(text@, #[trigger] m@[k].id) || has_id(vecs@, m@[k].id),
            forall|id: u64| has_id(text@, id)
                ==> exists|k: int| 0 <= k < m@.len() && #[trigger] m@[k].id == id,
            forall|x: int| 0 <= x < j
                ==> exists|k: int| 0 <= k < m@.len() && #[trigger] m@[k].id == #[trigger] vecs@[x].0,
            forall|k: int| 0 <= k < m@.len()
                ==> #[trigger] m@[k].v_norm as nat == (
                    if exists|x: int| 0 <= x < j && vecs@[x].0 == m@[k].id {
                        norm_of(vecs@, m@[k].id)
                    } else {
                        0nat
                    }),
        decreases vecs@.len() - j,
    {
        let (id, sim) = (vecs[j].0, vecs[j].1);
        proof {
            lemma_micro_at_index(vecs@, j as int);
            lemma_max_micro_ge(vecs@, j as int);
        }
        let v_norm = norm_div(sim, v_den);
        let mut k: usize = 0;
        let mut found: bool = false;
        while k < m.len() && !found
            invariant
                0 <= k <= m@.len(),
                !found ==> forall|x: int| 0 <= x < k ==> #[trigger] m@[x].id != id,
                found ==> k < m@.len() && m@[k as int].id == id,
            decreases m@.len() - k + (if found { 0int } else { 1int }),
        {
            if m[k].id == id {
                found = true;
            } else {
                k += 1;
            }
        }
        let ghost m0 = m@;
        if found {
            let old_entry_id = m[k].id;
            let t_keep = m[k].t_norm;
            m.set(k, Merged { id: old_entry_id, t_norm: t_keep, v_norm });
        } else {
            m.push(Merged { id, t_norm: 0, v_norm });
        }
        proof {
            assert(forall|k2: int| 0 <= k2 < m0.len() ==> #[trigger] m@[k2].id == m0[k2].id);
            assert forall|id2: u64| has_id(text@, id2) implies exists|k2: int|
                0 <= k2 < m@.len() && #[trigger] m@[k2].id == id2 by {
                let w = choose|w: int| 0 <= w < m0.len() && m0[w].id == id2;
                assert(m@[w].id == id2);
            }
            assert forall|x: int| 0 <= x <= j implies exists|k2: int|
                0 <= k2 < m@.len() && #[trigger] m@[k2].id == #[trigger] vecs@[x].0 by {
                if x < j {
                    let w = choose|w: int| 0 <= w < m0.len() && m0[w].id == vecs@[x].0;
                    assert(m@[w].id == vecs@[x].0);
                } else {
                    if found {
                        assert(m@[k as int].id == id);
                    } else {
                        assert(m@[m@.len() - 1].id == id);
                    }
                }
            }
        }
        j += 1;
    }
    proof {
        assert(forall|id: u64| has_id(vecs@, id)
            ==> exists|x: int| 0 <= x < vecs@.len() && vecs@[x].0 == id);
    }
    m
}

proof fn lemma_sorted_push(s: Seq<Ranked>, x: Ranked)
    requires
        sorted_desc(s),
        s.len() > 0 ==> s.last().score_micro >= x.score_micro,
    ensures
        sorted_desc(s.push(x)),
{
    assert(forall|i: int| 0 <= i < s.len() ==> #[trigger] s.push(x)[i] == s[i]);
    assert(s.push(x)[s.len() as int] == x);
}

/// Pick candidates by descending fused score, repeatedly extracting the
/// largest remaining one, stopping at `top_k` results.
fn rank(m: Vec<Merged>, top_k: usize, Ghost(text): Ghost<Seq<(u64, u64)>>, Ghost(vecs): Ghost<Seq<(u64, u64)>>) -> (r: Vec<Ranked>)
    requires
        merged_ok(m@, text, vecs),
        forall|i: int| 0 <= i < m@.len() ==> #[trigger] m@[i].t_norm <= SCORE_ONE,
        forall|i: int| 0 <= i < m@.len() ==> #[trigger] m@[i].v_norm <= SCORE_ONE,
    ensures
        sorted_desc(r@),
        distinct_ranked_ids(r@),
        r@.len() <= top_k,
        r@.len() == top_k || r@.len() == m@.len(),
        forall|i: int| 0 <= i < r@.len() ==> (#[trigger] r@[i]).score_micro <= SCORE_ONE,
        forall|i: int| 0 <= i < r@.len() ==> has_id(text, #[trigger] r@[i].id) || has_id(
            vecs,
            r@[i].id,
        ),
        forall|i: int| 0 <= i < r@.len() ==> #[trigger] r@[i].score_micro as nat
            == fused_score_of(text, vecs, r@[i].id),
        forall|i: int| 0 <= i < r@.len() ==> #[trigger] r@[i].source == fused_source_of(
            text,
            vecs,
            r@[i].id,
        ),
        forall|id: u64| (has_id(text, id) || has_id(vecs, id)) && (forall|i: int|
            0 <= i < r@.len() ==> #[trigger] r@[i].id != id) && r@.len() > 0
            ==> fused_score_of(text, vecs, id) <= r@.last().score_micro as nat,
        forall|id: u64| (has_id(text, id) || has_id(vecs, id)) && r@.len() < top_k
            ==> exists|i: int| 0 <= i < r@.len() && #[trigger] r@[i].id == id,
{
    let mut rest: Vec<Merged> = m;
    let mut out: Vec<Ranked> = Vec::new();
    let ghost all = rest@;
    while out.len() < top_k && rest.len() > 0
        invariant
            forall|i: int, j: int| 0 <= i < j < rest@.len()
                ==> #[trigger] rest@[i].id != #[trigger] rest@[j].id,
            forall|i: int| 0 <= i < rest@.len()
                ==> #[trigger] rest@[i].t_norm as nat == norm_of(text, rest@[i].id)
                    && rest@[i].v_norm as nat == norm_of(vecs, rest@[i].id)
                    && (has_id(text, rest@[i].id) || has_id(vecs, rest@[i].id)),
            forall|i: int| 0 <= i < rest@.len() ==> #[trigger] rest@[i].t_norm <= SCORE_ONE
                && rest@[i].v_norm <= SCORE_ONE,
            sorted_desc(out@),
            distinct_ranked_ids(out@),
            forall|i: int| 0 <= i < out@.len() ==> (#[trigger] out@[i]).score_micro <= SCORE_ONE,
            out@.len() <= top_k,
            out@.len() + rest@.len() == all.len(),
            forall|i: int| 0 <= i < out@.len() ==> has_id(text, #[trigger] out@[i].id)
                || has_id(vecs, out@[i].id),
            forall|i: int| 0 <= i < out@.len() ==> #[trigger] out@[i].score_micro as nat
                == fused_score_of(text, vecs, out@[i].id),
            forall|i: int| 0 <= i < out@.len() ==> #[trigger] out@[i].source
                == fused_source_of(text, vecs, out@[i].id),
            // every id of the input sits in exactly one of out / rest
            forall|id: u64| (has_id(text, id) || has_id(vecs, id)) ==> (exists|i: int|
                0 <= i < out@.len() && #[trigger] out@[i].id == id) || (exists|i: int|
                0 <= i < rest@.len() && #[trigger] rest@[i].id == id),
            forall|i: int, j: int| 0 <= i < out@.len() && 0 <= j < rest@.len()
                ==> #[trigger] out@[i].id != #[trigger] rest@[j].id,
            // everything still waiting scores no more than what is out already
            forall|j: int| 0 <= j < rest@.len() && out@.len() > 0
                ==> fused_score_of(text, vecs, #[trigger] rest@[j].id)
                    <= out@.last().score_micro as nat,
        decreases rest@.len(),
    {
        // find the largest remaining fused score
        let mut best: usize = 0;
        let mut best_score: u64 = {
            let t = rest[0].t_norm;
            let v = rest[0].v_norm;
            (t * TEXT_WEIGHT + v * VEC_WEIGHT) / 1_000_000
        };
        assert(best_score as nat == fused_score_of(text, vecs, rest@[0].id));
        let mut k: usize = 1;
        while k < rest.len()
            invariant
                0 < rest@.len(),
                1 <= k <= rest@.len(),
                0 <= best < k,
                forall|i: int| 0 <= i < rest@.len()
                    ==> #[trigger] rest@[i].t_norm as nat == norm_of(text, rest@[i].id)
                        && rest@[i].v_norm as nat == norm_of(vecs, rest@[i].id),
                forall|i: int| 0 <= i < rest@.len() ==> #[trigger] rest@[i].t_norm <= SCORE_ONE
                    && rest@[i].v_norm <= SCORE_ONE,
                best_score as nat == fused_score_of(text, vecs, rest@[best as int].id),
                forall|i: int| 0 <= i < k
                    ==> fused_score_of(text, vecs, #[trigger] rest@[i].id)
                        <= best_score as nat,
            decreases rest@.len() - k,
        {
            let t = rest[k].t_norm;
            let v = rest[k].v_norm;
            let s: u64 = (t * TEXT_WEIGHT + v * VEC_WEIGHT) / 1_000_000;
            assert(s as nat == fused_score_of(text, vecs, rest@[k as int].id));
            if s > best_score {
                best = k;
                best_score = s;
            }
            k += 1;
        }
        let ghost rest0 = rest@;
        let chosen = rest.remove(best);
        let t = chosen.t_norm;
        let v = chosen.v_norm;
        let source = if t > 0 && v > 0 {
            Source::Hybrid
        } else if t > 0 {
            Source::Bm25
        } else {
            Source::Ann
        };
        let ghost out0 = out@;
        proof {
            lemma_sorted_push(out@, Ranked { id: chosen.id, score_micro: best_score, source });
        }
        out.push(Ranked { id: chosen.id, score_micro: best_score, source });
        proof {
            assert(rest@ == rest0.remove(best as int));
            assert(forall|x: int| 0 <= x < best ==> #[trigger] rest@[x] == rest0[x]);
            assert(forall|x: int| best <= x < rest@.len() ==> #[trigger] rest@[x] == rest0[x + 1]);
            assert(forall|x: int| 0 <= x < out0.len() ==> #[trigger] out@[x] == out0[x]);
            assert(out@[out0.len() as int].id == chosen.id);
            assert forall|id: u64| has_id(text, id) || has_id(vecs, id) implies (exists|i: int|
                0 <= i < out@.len() && #[trigger] out@[i].id == id) || (exists|i: int|
                0 <= i < rest@.len() && #[trigger] rest@[i].id == id) by {
                if exists|w: int| 0 <= w < out0.len() && #[trigger] out0[w].id == id {
                    let w = choose|w: int| 0 <= w < out0.len() && #[trigger] out0[w].id == id;
                    assert(out@[w].id == id);
                } else {
                    assert(exists|w: int| 0 <= w < rest0.len() && #[trigger] rest0[w].id == id);
                    let w = choose|w: int| 0 <= w < rest0.len() && #[trigger] rest0[w].id == id;
                    if w < best {
                        assert(rest@[w].id == id);
                    } else if w == best {
                        assert(out@[out0.len() as int].id == id);
                    } else {
                        assert(rest@[w - 1].id == id);
                    }
                }
            }
        }
    }
    out
}

/// Fuse the candidates of both modalities into a ranked result list.
///
/// `text` carries raw text relevance in millionths, `vecs` similarity in
/// millionths; ids must be unique within each list. The result is ranked by
/// descending fused score, truncated to `top_k`; whenever it is shorter than
/// `top_k` it holds every candidate id, and nothing left out scores above the
/// last entry kept.
pub fn fuse_hits(text: &Vec<(u64, u64)>, vecs: &Vec<(u64, u64)>, top_k: usize) -> (r: Vec<
    Ranked,
>)
    requires
        distinct_ids(text@),
        distinct_ids(vecs@),
    ensures
        sorted_desc(r@),
        distinct_ranked_ids(r@),
        r@.len() <= top_k,
        forall|i: int| 0 <= i < r@.len() ==> (#[trigger] r@[i]).score_micro <= SCORE_ONE,
        forall|i: int| 0 <= i < r@.len() ==> has_id(text@, #[trigger] r@[i].id) || has_id(
            vecs@,
            r@[i].id,
        ),
        forall|i: int| 0 <= i < r@.len() ==> #[trigger] r@[i].score_micro as nat
            == fused_score_of(text@, vecs@, r@[i].id),
        forall|i: int| 0 <= i < r@.len() ==> #[trigger] r@[i].source == fused_source_of(
            text@,
            vecs@,
            r@[i].id,
        ),
        forall|id: u64| (has_id(text@, id) || has_id(vecs@, id)) && r@.len() < top_k
            ==> exists|i: int| 0 <= i < r@.len() && #[trigger] r@[i].id == id,
        forall|id: u64| (has_id(text@, id) || has_id(vecs@, id)) && (forall|i: int|
            0 <= i < r@.len() ==> #[trigger] r@[i].id != id) && r@.len() > 0
            ==> fused_score_of(text@, vecs@, id) <= r@.last().score_micro as nat,
{
    let m = merge_normalized(text, vecs);
    proof {
        assert(forall|i: int| 0 <= i < m@.len() ==> #[trigger] m@[i].t_norm <= SCORE_ONE) by {
            assert(forall|i: int| 0 <= i < m@.len()
                ==> #[trigger] m@[i].t_norm as nat == norm_of(text@, m@[i].id));
            lemma_norm_bounded(text@);
        }
        assert(forall|i: int| 0 <= i < m@.len() ==> #[trigger] m@[i].v_norm <= SCORE_ONE) by {
            lemma_norm_bounded(vecs@);
        }
    }
    rank(m, top_k, Ghost(text@), Ghost(vecs@))
}

proof fn lemma_norm_bounded(s: Seq<(u64, u64)>)
    ensures
        forall|id: u64| norm_of(s, id) <= SCORE_ONE as nat,
{
    assert forall|id: u64| norm_of(s, id) <= SCORE_ONE as nat by {
        if has_id(s, id) {
            lemma_micro_at_le_max(s, id);
            let raw = micro_at(s, id);
            let den = denom_of(s);
            assert(raw <= den);
            assert(raw * 1_000_000 <= den * 1_000_000) by (nonlinear_arith)
                requires raw <= den;
            lemma_div_is_ordered((raw * 1_000_000) as int, (den * 1_000_000) as int, den as int);
            lemma_div_multiples_vanish(1_000_000int, den as int);
        }
    }
}

proof fn lemma_micro_at_le_max(s: Seq<(u64, u64)>, id: u64)
    requires
        has_id(s, id),
    ensures
        micro_at(s, id) <= max_micro(s),
    decreases s.len(),
{
    let i = choose|i: int| 0 <= i < s.len() && s[i].0 == id;
    if s[0].0 == id {
        lemma_max_micro_ge(s, 0);
        assert(micro_at(s, id) == s[0].1 as nat);
    } else {
        assert(s.drop_first()[i - 1] == s[i]);
        assert(has_id(s.drop_first(), id));
        lemma_micro_at_le_max(s.drop_first(), id);
        lemma_max_micro_mono(s);
    }
}

proof fn lemma_max_micro_mono(s: Seq<(u64, u64)>)
    requires
        s.len() > 0,
    ensures
        max_micro(s.drop_first()) <= max_micro(s),
{
    let d = s.drop_first();
    if d.len() == 0 {
    } else {
        assert forall|i: int| 0 <= i < d.len() implies max_micro(s) >= d[i].1 as nat by {
            assert(d[i] == s[i + 1]);
            lemma_max_micro_ge(s, i + 1);
        }
        lemma_max_attained(d);
    }
}

proof fn lemma_max_attained(s: Seq<(u64, u64)>)
    requires
        s.len() > 0,
    ensures
        exists|i: int| 0 <= i < s.len() && s[i].1 as nat == max_micro(s),
    decreases s.len(),
{
    if s.len() == 1 {
        assert(s.drop_last().len() == 0);
        assert(s[0] == s.last());
    } else {
        if s.last().1 as nat >= max_micro(s.drop_last()) {
            assert(s[s.len() - 1] == s.last());
        } else {
            lemma_max_attained(s.drop_last());
            let i = choose|i: int|
                0 <= i < s.drop_last().len() && s.drop_last()[i].1 as nat == max_micro(
                    s.drop_last(),
                );
            assert(s.drop_last()[i] == s[i]);
        }
    }
}

} // verus!
