//! The ranker: lexical results, semantic results and their fusion.
//!
//! The ranker works on rows that already carry their numbers: a raw lexical
//! score or a similarity, and the recency of the row. All of them are
//! scores in billionths.

use vstd::prelude::*;
use crate::rank::{is_descending, rank_top, sort_desc, top, Ranked};
use crate::score::{
    apply_temporal_decay, decayed, hybrid_raw, hybrid_score, magnitude_of, normalize_bm25,
    normalized, real_magnitude, round_four_places, rounded, MIN_SIMILARITY, SCORE_ONE,
};
use crate::embedding::{bytes_to_f32, decode};
use crate::fts::match_query;
use crate::fts::or_query;
use crate::sql::{
    blob_at, blob_cell, real_at, real_cell, run_query, statement_0, statement_2, ParamView,
    SqlParam, SqlRow, Statement,
};
use crate::text::tokens;
use crate::storage::{memory_record, record_cells, MemoryRecord, MemoryRecordView};

verus! {

/// How a result was found.
#[derive(Clone, Copy, PartialEq, Eq, Structural, Debug)]
pub enum Method {
    /// By the lexical index.
    Fts,
    /// By the vector of the memory itself.
    Embedding,
    /// By the vector of one of its chunks.
    EmbeddingChunk,
    /// By both the lexical index and a vector.
    Hybrid,
}

/// A memory that a search found.
pub struct SearchResult {
    pub id: String,
    pub mem_type: String,
    pub content: String,
    pub tags: String,
    pub created_at: String,
    /// How well the memory answers the query, in billionths.
    pub relevance: u64,
    pub method: Method,
    /// The recency of the memory when it was found, in billionths.
    pub recency: u64,
}

/// A row with the number that the index or the comparison gave it.
pub struct ScoredRow {
    pub row: MemoryRecord,
    /// The magnitude of the raw lexical score, or the cosine similarity.
    pub score: u64,
    /// The recency of the row, in billionths.
    pub recency: u64,
}

/// The stored vectors that were compared with the query.
pub struct SemanticHits {
    /// One row for each memory that has a vector.
    pub memories: Vec<ScoredRow>,
    /// One row for each chunk that has a vector, with the memory it
    /// belongs to.
    pub chunks: Vec<ScoredRow>,
}

impl Ranked for SearchResult {
    open spec fn rank(self) -> u64 {
        self.relevance
    }

    fn relevance_of(&self) -> (r: u64) {
        self.relevance
    }
}

impl Method {
    /// The name under which clients see the method.
    pub fn as_str(&self) -> (name: &'static str)
        ensures
            name@ == match *self {
                Method::Fts => "fts"@,
                Method::Embedding => "embedding"@,
                Method::EmbeddingChunk => "embedding-chunk"@,
                Method::Hybrid => "hybrid"@,
            },
    {
        match self {
            Method::Fts => "fts",
            Method::Embedding => "embedding",
            Method::EmbeddingChunk => "embedding-chunk",
            Method::Hybrid => "hybrid",
        }
    }
}

/// The result that shows `row` with the given relevance and method.
pub open spec fn result_of(row: MemoryRecord, relevance: u64, method: Method, recency: u64)
    -> SearchResult {
    SearchResult {
        id: row.id,
        mem_type: row.mem_type,
        content: row.content,
        tags: row.tags,
        created_at: row.created_at,
        relevance,
        method,
        recency,
    }
}

/// A copy of `r` with another relevance and method.
pub open spec fn rescored(r: SearchResult, relevance: u64, method: Method) -> SearchResult {
    SearchResult {
        id: r.id,
        mem_type: r.mem_type,
        content: r.content,
        tags: r.tags,
        created_at: r.created_at,
        relevance,
        method,
        recency: r.recency,
    }
}

/// The lexical result of a row: its raw score normalized and aged.
pub open spec fn lexical_result(hit: ScoredRow) -> SearchResult {
    result_of(
        hit.row,
        decayed(normalized(hit.score) as u64, hit.recency) as u64,
        Method::Fts,
        hit.recency,
    )
}

/// A similarity above 1.0 counts as 1.0.
pub open spec fn similarity_of(hit: ScoredRow) -> u64 {
    if hit.score <= SCORE_ONE {
        hit.score
    } else {
        SCORE_ONE
    }
}

/// The semantic result of a row: its similarity aged.
pub open spec fn semantic_result(hit: ScoredRow, method: Method) -> SearchResult {
    result_of(hit.row, decayed(similarity_of(hit), hit.recency) as u64, method, hit.recency)
}

/// Builds the result that shows `row`.
fn make_result(row: &MemoryRecord, relevance: u64, method: Method, recency: u64) -> (r:
    SearchResult)
    ensures
        r == result_of(*row, relevance, method, recency),
{
    SearchResult {
        id: row.id.clone(),
        mem_type: row.mem_type.clone(),
        content: row.content.clone(),
        tags: row.tags.clone(),
        created_at: row.created_at.clone(),
        relevance,
        method,
        recency,
    }
}

/// Copies `r` with another relevance and method.
fn rescore(r: &SearchResult, relevance: u64, method: Method) -> (c: SearchResult)
    ensures
        c == rescored(*r, relevance, method),
{
    SearchResult {
        id: r.id.clone(),
        mem_type: r.mem_type.clone(),
        content: r.content.clone(),
        tags: r.tags.clone(),
        created_at: r.created_at.clone(),
        relevance,
        method,
        recency: r.recency,
    }
}

/// The lexical results of the rows that the index matched, in the order of
/// the index: each raw score is normalized to `b / (b + 1)` and aged by the
/// recency of its row.
pub fn search_fts(hits: &Vec<ScoredRow>) -> (results: Vec<SearchResult>)
    ensures
        results@ == hits@.map_values(|h: ScoredRow| lexical_result(h)),
        forall|i: int| 0 <= i < results.len() ==> (#[trigger] results[i]).relevance < SCORE_ONE,
{
    let mut results: Vec<SearchResult> = Vec::new();
    let mut i: usize = 0;
    while i < hits.len()
        invariant
            i <= hits.len(),
            results@ == hits@.take(i as int).map_values(|h: ScoredRow| lexical_result(h)),
            forall|k: int| 0 <= k < results.len() ==> (#[trigger] results[k]).relevance < SCORE_ONE,
        decreases hits.len() - i,
    {
        let hit = &hits[i];
        let relevance = apply_temporal_decay(normalize_bm25(hit.score), hit.recency);
        let r = make_result(&hit.row, relevance, Method::Fts, hit.recency);
        results.push(r);
        assert(results@ =~= hits@.take(i + 1).map_values(|h: ScoredRow| lexical_result(h)));
        i += 1;
    }
    assert(hits@.take(hits.len() as int) =~= hits@);
    results
}

/// Index of the first result in `acc` that shows the memory `id`, or the
/// length of `acc` where none does.
pub open spec fn position(acc: Seq<SearchResult>, id: Seq<char>) -> int
    decreases acc.len(),
{
    if acc.len() == 0 || acc[0].id@ == id {
        0
    } else {
        1 + position(acc.drop_first(), id)
    }
}

/// `position` is the least index at which the id occurs.
pub proof fn lemma_position(acc: Seq<SearchResult>, id: Seq<char>)
    ensures
        0 <= position(acc, id) <= acc.len(),
        position(acc, id) < acc.len() ==> acc[position(acc, id)].id@ == id,
        forall|j: int| 0 <= j < position(acc, id) ==> (#[trigger] acc[j]).id@ != id,
    decreases acc.len(),
{
    if acc.len() == 0 || acc[0].id@ == id {
    } else {
        let rest = acc.drop_first();
        lemma_position(rest, id);
        assert forall|j: int| 0 <= j < position(acc, id) implies (#[trigger] acc[j]).id@ != id by {
            if j > 0 {
                assert(acc[j] == rest[j - 1]);
            }
        }
    }
}

/// An index with the properties of `position` is `position`.
pub proof fn lemma_position_unique(acc: Seq<SearchResult>, id: Seq<char>, p: int)
    requires
        0 <= p <= acc.len(),
        p < acc.len() ==> acc[p].id@ == id,
        forall|j: int| 0 <= j < p ==> (#[trigger] acc[j]).id@ != id,
    ensures
        p == position(acc, id),
{
    lemma_position(acc, id);
    let q = position(acc, id);
    if p < q {
        assert(acc[p].id@ != id);
    } else if q < p {
        assert(acc[q].id@ != id);
    }
}

/// The results `acc` after a further result `r`: a memory that is not yet
/// shown is added at the end; one that is shown keeps its row, and where
/// `r` has the higher relevance it takes that relevance and the method of
/// `r` with it.
pub open spec fn absorb(acc: Seq<SearchResult>, r: SearchResult) -> Seq<SearchResult> {
    let p = position(acc, r.id@);
    if p < acc.len() {
        if r.relevance > acc[p].relevance {
            acc.update(p, rescored(acc[p], r.relevance, r.method))
        } else {
            acc
        }
    } else {
        acc.push(r)
    }
}

/// The results `acc` after the rows `hits`, of which only those with a
/// similarity above `MIN_SIMILARITY` count.
pub open spec fn absorb_hits(acc: Seq<SearchResult>, hits: Seq<ScoredRow>, method: Method) -> Seq<
    SearchResult,
>
    decreases hits.len(),
{
    if hits.len() == 0 {
        acc
    } else {
        let before = absorb_hits(acc, hits.drop_last(), method);
        if hits.last().score > MIN_SIMILARITY {
            absorb(before, semantic_result(hits.last(), method))
        } else {
            before
        }
    }
}

/// One result for each memory that a vector found, before ranking: the
/// vectors of the memories first, then those of the chunks.
pub open spec fn semantic_candidates(memories: Seq<ScoredRow>, chunks: Seq<ScoredRow>) -> Seq<
    SearchResult,
> {
    absorb_hits(
        absorb_hits(Seq::empty(), memories, Method::Embedding),
        chunks,
        Method::EmbeddingChunk,
    )
}

/// No relevance in `acc` is above 1.0.
pub open spec fn all_bounded(acc: Seq<SearchResult>) -> bool {
    forall|i: int| 0 <= i < acc.len() ==> (#[trigger] acc[i]).relevance <= SCORE_ONE
}

/// Finds the result that shows the memory `id`.
fn find_result(acc: &Vec<SearchResult>, id: &String) -> (p: usize)
    ensures
        p == position(acc@, id@),
        p <= acc.len(),
{
    let mut p: usize = 0;
    while p < acc.len()
        invariant
            p <= acc.len(),
            forall|j: int| 0 <= j < p ==> (#[trigger] acc@[j]).id@ != id@,
        decreases acc.len() - p,
    {
        if acc[p].id == *id {
            proof {
                lemma_position_unique(acc@, id@, p as int);
            }
            return p;
        }
        p += 1;
    }
    proof {
        lemma_position_unique(acc@, id@, p as int);
    }
    p
}

/// Takes a further result into `acc`.
fn absorb_result(acc: &mut Vec<SearchResult>, r: SearchResult)
    requires
        all_bounded(old(acc)@),
        r.relevance <= SCORE_ONE,
    ensures
        final(acc)@ == absorb(old(acc)@, r),
        all_bounded(final(acc)@),
{
    let p = find_result(acc, &r.id);
    if p < acc.len() {
        if r.relevance > acc[p].relevance {
            let raised = rescore(&acc[p], r.relevance, r.method);
            acc.set(p, raised);
        }
    } else {
        acc.push(r);
    }
}

/// Takes the rows `hits` into `acc`.
fn absorb_rows(acc: &mut Vec<SearchResult>, hits: &Vec<ScoredRow>, method: Method)
    requires
        all_bounded(old(acc)@),
    ensures
        final(acc)@ == absorb_hits(old(acc)@, hits@, method),
        all_bounded(final(acc)@),
{
    let ghost start = acc@;
    let mut i: usize = 0;
    while i < hits.len()
        invariant
            i <= hits.len(),
            all_bounded(acc@),
            acc@ == absorb_hits(start, hits@.take(i as int), method),
        decreases hits.len() - i,
    {
        let hit = &hits[i];
        proof {
            assert(hits@.take(i + 1).drop_last() =~= hits@.take(i as int));
            assert(hits@.take(i + 1).last() == hits@[i as int]);
        }
        if hit.score > MIN_SIMILARITY {
            let similarity = if hit.score <= SCORE_ONE {
                hit.score
            } else {
                SCORE_ONE
            };
            let relevance = apply_temporal_decay(similarity, hit.recency);
            let r = make_result(&hit.row, relevance, method, hit.recency);
            absorb_result(acc, r);
        }
        i += 1;
    }
    assert(hits@.take(hits.len() as int) =~= hits@);
}

/// The semantic results: every memory that has a vector, its own or one of
/// a chunk, with a similarity above `MIN_SIMILARITY` to the query, once,
/// with the highest aged similarity among its vectors; the best `limit`
/// in descending order of relevance.
pub fn search_embedding(memories: &Vec<ScoredRow>, chunks: &Vec<ScoredRow>, limit: usize)
    -> (results: Vec<SearchResult>)
    ensures
        results@ == top(sort_desc(semantic_candidates(memories@, chunks@)), limit as int),
        results.len() <= limit,
        is_descending(results@),
        all_bounded(results@),
{
    let mut acc: Vec<SearchResult> = Vec::new();
    absorb_rows(&mut acc, memories, Method::Embedding);
    absorb_rows(&mut acc, chunks, Method::EmbeddingChunk);
    let ghost candidates = acc@;
    let results = rank_top(acc, limit);
    proof {
        assert forall|i: int| 0 <= i < results.len() implies (#[trigger] results@[i]).relevance
            <= SCORE_ONE by {
            assert(candidates.contains(results@[i]));
        }
    }
    results
}

/// No two results show the same memory.
pub open spec fn distinct_ids(acc: Seq<SearchResult>) -> bool {
    forall|i: int, j: int|
        0 <= i < j < acc.len() ==> (#[trigger] acc[i]).id@ != (#[trigger] acc[j]).id@
}

/// `out` shows every memory of `acc` at the same place, with a relevance
/// that is not lower.
pub open spec fn grows_from(acc: Seq<SearchResult>, out: Seq<SearchResult>) -> bool {
    &&& acc.len() <= out.len()
    &&& forall|i: int|
        0 <= i < acc.len() ==> (#[trigger] out[i]).id@ == acc[i].id@ && out[i].relevance
            >= acc[i].relevance
}

/// The relevance that a row with a vector has by itself.
pub open spec fn hit_relevance(hit: ScoredRow) -> u64 {
    decayed(similarity_of(hit), hit.recency) as u64
}

/// Whether `acc` shows the memory of `hit` with at least its relevance.
pub open spec fn covers(acc: Seq<SearchResult>, hit: ScoredRow) -> bool {
    exists|i: int|
        0 <= i < acc.len() && (#[trigger] acc[i]).id@ == hit.row.id@ && acc[i].relevance
            >= hit_relevance(hit)
}

/// Whether `r` has the method `method` and the relevance of one of the
/// rows of its memory that count.
pub open spec fn attained_by(r: SearchResult, hits: Seq<ScoredRow>, method: Method) -> bool {
    r.method == method && exists|k: int|
        0 <= k < hits.len() && (#[trigger] hits[k]).score > MIN_SIMILARITY && hits[k].row.id@
            == r.id@ && r.relevance == hit_relevance(hits[k])
}

/// Taking one result in keeps the memories distinct and in place, never
/// lowers a relevance, and leaves the memory of the result shown with at
/// least its relevance.
pub proof fn lemma_absorb(acc: Seq<SearchResult>, r: SearchResult)
    requires
        distinct_ids(acc),
    ensures
        distinct_ids(absorb(acc, r)),
        grows_from(acc, absorb(acc, r)),
        absorb(acc, r).len() <= acc.len() + 1,
        exists|i: int|
            0 <= i < absorb(acc, r).len() && (#[trigger] absorb(acc, r)[i]).id@ == r.id@ && absorb(
                acc,
                r,
            )[i].relevance >= r.relevance,
        forall|i: int|
            0 <= i < absorb(acc, r).len() ==> (i < acc.len() && #[trigger] absorb(acc, r)[i]
                == acc[i]) || (absorb(acc, r)[i].id@ == r.id@ && absorb(acc, r)[i].relevance
                == r.relevance && absorb(acc, r)[i].method == r.method),
{
    lemma_position(acc, r.id@);
    let p = position(acc, r.id@);
    let out = absorb(acc, r);
    if p < acc.len() {
        assert(out[p].id@ == r.id@ && out[p].relevance >= r.relevance);
    } else {
        assert(out[acc.len() as int] == r);
        assert forall|i: int, j: int| 0 <= i < j < out.len() implies (#[trigger] out[i]).id@ != (
        #[trigger] out[j]).id@ by {
            if j < acc.len() {
                assert(out[i] == acc[i] && out[j] == acc[j]);
            } else {
                assert(out[i] == acc[i]);
            }
        }
    }
}

/// Taking rows in keeps the memories distinct and in place and never
/// lowers a relevance. Every row that counts leaves its memory shown with
/// at least the relevance of the row, and every result that changed or was
/// added has the relevance of a row of the memory and the method of the
/// rows.
pub proof fn lemma_absorb_hits(acc: Seq<SearchResult>, hits: Seq<ScoredRow>, method: Method)
    requires
        distinct_ids(acc),
    ensures
        distinct_ids(absorb_hits(acc, hits, method)),
        grows_from(acc, absorb_hits(acc, hits, method)),
        forall|k: int|
            0 <= k < hits.len() && (#[trigger] hits[k]).score > MIN_SIMILARITY ==> covers(
                absorb_hits(acc, hits, method),
                hits[k],
            ),
        forall|i: int|
            0 <= i < absorb_hits(acc, hits, method).len() ==> (i < acc.len()
                && #[trigger] absorb_hits(acc, hits, method)[i] == acc[i]) || attained_by(
                absorb_hits(acc, hits, method)[i],
                hits,
                method,
            ),
    decreases hits.len(),
{
    if hits.len() > 0 {
        let init = hits.drop_last();
        let hit = hits.last();
        let before = absorb_hits(acc, init, method);
        let out = absorb_hits(acc, hits, method);
        lemma_absorb_hits(acc, init, method);
        if hit.score > MIN_SIMILARITY {
            let r = semantic_result(hit, method);
            lemma_absorb(before, r);
            assert(r.id@ == hit.row.id@ && r.relevance == hit_relevance(hit));
        }
        assert(grows_from(before, out));
        assert forall|i: int| 0 <= i < acc.len() implies (#[trigger] out[i]).id@ == acc[i].id@
            && out[i].relevance >= acc[i].relevance by {
            assert(before[i].id@ == acc[i].id@);
        }
        assert forall|k: int|
            0 <= k < hits.len() && (#[trigger] hits[k]).score > MIN_SIMILARITY implies covers(
            out,
            hits[k],
        ) by {
            if k < init.len() {
                assert(init[k] == hits[k]);
                assert(covers(before, init[k]));
                let i = choose|i: int|
                    0 <= i < before.len() && (#[trigger] before[i]).id@ == hits[k].row.id@
                        && before[i].relevance >= hit_relevance(hits[k]);
                assert(out[i].id@ == before[i].id@ && out[i].relevance >= before[i].relevance);
            } else {
                let r = semantic_result(hit, method);
                let i = choose|i: int|
                    0 <= i < out.len() && (#[trigger] out[i]).id@ == r.id@ && out[i].relevance
                        >= r.relevance;
                assert(out[i].id@ == hits[k].row.id@);
            }
        }
        assert forall|i: int| 0 <= i < out.len() implies (i < acc.len() && #[trigger] out[i]
            == acc[i]) || attained_by(out[i], hits, method) by {
            let last = hits.len() - 1;
            if i < before.len() && out[i] == before[i] {
                if !(i < acc.len() && before[i] == acc[i]) {
                    assert(attained_by(before[i], init, method));
                    let k = choose|k: int|
                        0 <= k < init.len() && (#[trigger] init[k]).score > MIN_SIMILARITY
                            && init[k].row.id@ == before[i].id@ && before[i].relevance
                            == hit_relevance(init[k]);
                    assert(hits[k] == init[k]);
                }
            } else {
                assert(hits[last] == hit);
                assert(hit.score > MIN_SIMILARITY);
                assert(out[i].method == method);
            }
        }
    }
}

/// The semantic candidates show every memory once; a memory is shown with
/// the highest relevance among its rows that count, and each row that
/// counts has its memory shown. A candidate carries `Embedding` with the
/// relevance of the vector of the memory, or `EmbeddingChunk` with the
/// relevance of the vector of a chunk.
pub proof fn lemma_semantic_candidates(memories: Seq<ScoredRow>, chunks: Seq<ScoredRow>)
    ensures
        distinct_ids(semantic_candidates(memories, chunks)),
        forall|k: int|
            0 <= k < memories.len() && (#[trigger] memories[k]).score > MIN_SIMILARITY ==> covers(
                semantic_candidates(memories, chunks),
                memories[k],
            ),
        forall|k: int|
            0 <= k < chunks.len() && (#[trigger] chunks[k]).score > MIN_SIMILARITY ==> covers(
                semantic_candidates(memories, chunks),
                chunks[k],
            ),
        forall|i: int|
            0 <= i < semantic_candidates(memories, chunks).len() ==> attained_by(
                #[trigger] semantic_candidates(memories, chunks)[i],
                memories,
                Method::Embedding,
            ) || attained_by(
                semantic_candidates(memories, chunks)[i],
                chunks,
                Method::EmbeddingChunk,
            ),
{
    let first = absorb_hits(Seq::empty(), memories, Method::Embedding);
    let out = semantic_candidates(memories, chunks);
    lemma_absorb_hits(Seq::empty(), memories, Method::Embedding);
    lemma_absorb_hits(first, chunks, Method::EmbeddingChunk);
    assert forall|k: int|
        0 <= k < memories.len() && (#[trigger] memories[k]).score > MIN_SIMILARITY implies covers(
        out,
        memories[k],
    ) by {
        assert(covers(first, memories[k]));
        let i = choose|i: int|
            0 <= i < first.len() && (#[trigger] first[i]).id@ == memories[k].row.id@
                && first[i].relevance >= hit_relevance(memories[k]);
        assert(out[i].id@ == first[i].id@ && out[i].relevance >= first[i].relevance);
    }
    assert forall|i: int| 0 <= i < out.len() implies attained_by(
        #[trigger] out[i],
        memories,
        Method::Embedding,
    ) || attained_by(out[i], chunks, Method::EmbeddingChunk) by {
        if i < first.len() && out[i] == first[i] {
            assert(attained_by(first[i], memories, Method::Embedding));
        }
    }
}

/// What the fusion knows of one memory: the best lexical and the best
/// semantic relevance, and the row under which it is shown.
pub struct Merged {
    pub fts_score: u64,
    pub emb_score: u64,
    pub display: SearchResult,
}

/// The rows under which the merged memories are shown.
pub open spec fn displays(acc: Seq<Merged>) -> Seq<SearchResult> {
    acc.map_values(|m: Merged| m.display)
}

/// The higher of two scores.
pub open spec fn higher(a: u64, b: u64) -> u64 {
    if a >= b {
        a
    } else {
        b
    }
}

/// The fusion after a lexical result: its relevance raises the lexical
/// score of its memory; a memory not yet known is shown by this result.
pub open spec fn merge_lexical(acc: Seq<Merged>, r: SearchResult) -> Seq<Merged> {
    let p = position(displays(acc), r.id@);
    if p < acc.len() {
        acc.update(
            p,
            Merged {
                fts_score: higher(acc[p].fts_score, r.relevance),
                emb_score: acc[p].emb_score,
                display: acc[p].display,
            },
        )
    } else {
        acc.push(Merged { fts_score: r.relevance, emb_score: 0, display: r })
    }
}

/// The fusion after a semantic result: its relevance raises the semantic
/// score of its memory, which is from now on shown by this result.
pub open spec fn merge_semantic(acc: Seq<Merged>, r: SearchResult) -> Seq<Merged> {
    let p = position(displays(acc), r.id@);
    if p < acc.len() {
        acc.update(
            p,
            Merged {
                fts_score: acc[p].fts_score,
                emb_score: higher(acc[p].emb_score, r.relevance),
                display: r,
            },
        )
    } else {
        acc.push(Merged { fts_score: 0, emb_score: r.relevance, display: r })
    }
}

/// The fusion after the lexical results `rs`, in order.
pub open spec fn merge_all_lexical(acc: Seq<Merged>, rs: Seq<SearchResult>) -> Seq<Merged>
    decreases rs.len(),
{
    if rs.len() == 0 {
        acc
    } else {
        merge_lexical(merge_all_lexical(acc, rs.drop_last()), rs.last())
    }
}

/// The fusion after the semantic results `rs`, in order.
pub open spec fn merge_all_semantic(acc: Seq<Merged>, rs: Seq<SearchResult>) -> Seq<Merged>
    decreases rs.len(),
{
    if rs.len() == 0 {
        acc
    } else {
        merge_semantic(merge_all_semantic(acc, rs.drop_last()), rs.last())
    }
}

/// The final relevance of a merged memory: 0.7 of its semantic plus 0.3 of
/// its lexical score, aged by the recency of the row that shows it and
/// rounded to four decimal places.
pub open spec fn hybrid_relevance(m: Merged) -> u64 {
    rounded(decayed(hybrid_raw(m.emb_score, m.fts_score) as u64, m.display.recency) as u64) as u64
}

/// The result of a merged memory. Its method is `Hybrid` where both sides
/// found it with a score above 0, else that of the row that shows it.
pub open spec fn hybrid_result(m: Merged) -> SearchResult {
    rescored(
        m.display,
        hybrid_relevance(m),
        if m.emb_score > 0 && m.fts_score > 0 {
            Method::Hybrid
        } else {
            m.display.method
        },
    )
}

/// The merged memories of lexical and semantic results, before ranking.
pub open spec fn hybrid_candidates(fts: Seq<SearchResult>, emb: Seq<SearchResult>) -> Seq<
    SearchResult,
> {
    merge_all_semantic(merge_all_lexical(Seq::empty(), fts), emb).map_values(
        |m: Merged| hybrid_result(m),
    )
}

/// The semantic results that the fusion takes in: none without vectors.
pub open spec fn semantic_side(semantic: Option<&SemanticHits>, limit: int) -> Seq<SearchResult> {
    match semantic {
        Some(hits) => top(sort_desc(semantic_candidates(hits.memories@, hits.chunks@)), limit),
        None => Seq::empty(),
    }
}

/// No score in `acc` is above 1.0.
pub open spec fn merged_bounded(acc: Seq<Merged>) -> bool {
    forall|i: int|
        0 <= i < acc.len() ==> (#[trigger] acc[i]).fts_score <= SCORE_ONE && acc[i].emb_score
            <= SCORE_ONE
}

/// Finds the merged memory `id`.
fn find_merged(acc: &Vec<Merged>, id: &String) -> (p: usize)
    ensures
        p == position(displays(acc@), id@),
        p <= acc.len(),
{
    let mut p: usize = 0;
    while p < acc.len()
        invariant
            p <= acc.len(),
            forall|j: int| 0 <= j < p ==> (#[trigger] displays(acc@)[j]).id@ != id@,
        decreases acc.len() - p,
    {
        assert(displays(acc@)[p as int] == acc@[p as int].display);
        if acc[p].display.id == *id {
            proof {
                lemma_position_unique(displays(acc@), id@, p as int);
            }
            return p;
        }
        p += 1;
    }
    proof {
        lemma_position_unique(displays(acc@), id@, p as int);
    }
    p
}

/// A copy of `r`.
pub fn copy_result(r: &SearchResult) -> (c: SearchResult)
    ensures
        c == *r,
{
    rescore(r, r.relevance, r.method)
}

/// Takes the lexical results `rs` into the fusion.
fn merge_lexical_results(acc: &mut Vec<Merged>, rs: &Vec<SearchResult>)
    requires
        merged_bounded(old(acc)@),
        all_bounded(rs@),
    ensures
        final(acc)@ == merge_all_lexical(old(acc)@, rs@),
        merged_bounded(final(acc)@),
{
    let ghost start = acc@;
    let mut i: usize = 0;
    while i < rs.len()
        invariant
            i <= rs.len(),
            all_bounded(rs@),
            merged_bounded(acc@),
            acc@ == merge_all_lexical(start, rs@.take(i as int)),
        decreases rs.len() - i,
    {
        let r = &rs[i];
        proof {
            assert(rs@.take(i + 1).drop_last() =~= rs@.take(i as int));
            assert(rs@.take(i + 1).last() == rs@[i as int]);
        }
        let p = find_merged(acc, &r.id);
        if p < acc.len() {
            let fts_score = if acc[p].fts_score >= r.relevance {
                acc[p].fts_score
            } else {
                r.relevance
            };
            let entry = Merged {
                fts_score,
                emb_score: acc[p].emb_score,
                display: copy_result(&acc[p].display),
            };
            acc.set(p, entry);
        } else {
            acc.push(Merged { fts_score: r.relevance, emb_score: 0, display: copy_result(r) });
        }
        i += 1;
    }
    assert(rs@.take(rs.len() as int) =~= rs@);
}

/// Takes the semantic results `rs` into the fusion.
fn merge_semantic_results(acc: &mut Vec<Merged>, rs: &Vec<SearchResult>)
    requires
        merged_bounded(old(acc)@),
        all_bounded(rs@),
    ensures
        final(acc)@ == merge_all_semantic(old(acc)@, rs@),
        merged_bounded(final(acc)@),
{
    let ghost start = acc@;
    let mut i: usize = 0;
    while i < rs.len()
        invariant
            i <= rs.len(),
            all_bounded(rs@),
            merged_bounded(acc@),
            acc@ == merge_all_semantic(start, rs@.take(i as int)),
        decreases rs.len() - i,
    {
        let r = &rs[i];
        proof {
            assert(rs@.take(i + 1).drop_last() =~= rs@.take(i as int));
            assert(rs@.take(i + 1).last() == rs@[i as int]);
        }
        let p = find_merged(acc, &r.id);
        if p < acc.len() {
            let emb_score = if acc[p].emb_score >= r.relevance {
                acc[p].emb_score
            } else {
                r.relevance
            };
            let entry = Merged { fts_score: acc[p].fts_score, emb_score, display: copy_result(r) };
            acc.set(p, entry);
        } else {
            acc.push(Merged { fts_score: 0, emb_score: r.relevance, display: copy_result(r) });
        }
        i += 1;
    }
    assert(rs@.take(rs.len() as int) =~= rs@);
}

/// The result of a merged memory.
fn fuse(m: &Merged) -> (r: SearchResult)
    requires
        m.fts_score <= SCORE_ONE,
        m.emb_score <= SCORE_ONE,
    ensures
        r == hybrid_result(*m),
        r.relevance <= SCORE_ONE,
{
    let raw = hybrid_score(m.emb_score, m.fts_score);
    let aged = apply_temporal_decay(raw, m.display.recency);
    let relevance = round_four_places(aged);
    let method = if m.emb_score > 0 && m.fts_score > 0 {
        Method::Hybrid
    } else {
        m.display.method
    };
    rescore(&m.display, relevance, method)
}

/// Hybrid search over the rows that the lexical index matched and, where
/// the query has a vector, the stored vectors that were compared with it.
/// The lexical and the semantic results are merged by memory, each merged
/// memory gets its hybrid relevance, and the best `limit` come back in
/// descending order of relevance.
pub fn search_hybrid(lexical: &Vec<ScoredRow>, semantic: Option<&SemanticHits>, limit: usize)
    -> (results: Vec<SearchResult>)
    ensures
        results@ == top(
            sort_desc(
                hybrid_candidates(
                    lexical@.map_values(|h: ScoredRow| lexical_result(h)),
                    semantic_side(semantic, limit as int),
                ),
            ),
            limit as int,
        ),
        results.len() <= limit,
        is_descending(results@),
        all_bounded(results@),
{
    let fts_results = search_fts(lexical);
    let emb_results = match semantic {
        Some(hits) => search_embedding(&hits.memories, &hits.chunks, limit),
        None => Vec::new(),
    };
    let mut merged: Vec<Merged> = Vec::new();
    merge_lexical_results(&mut merged, &fts_results);
    merge_semantic_results(&mut merged, &emb_results);
    let mut candidates: Vec<SearchResult> = Vec::new();
    let mut i: usize = 0;
    while i < merged.len()
        invariant
            i <= merged.len(),
            merged_bounded(merged@),
            all_bounded(candidates@),
            candidates@ == merged@.take(i as int).map_values(|m: Merged| hybrid_result(m)),
        decreases merged.len() - i,
    {
        let r = fuse(&merged[i]);
        candidates.push(r);
        assert(candidates@ =~= merged@.take(i + 1).map_values(|m: Merged| hybrid_result(m)));
        i += 1;
    }
    assert(merged@.take(merged.len() as int) =~= merged@);
    let ghost all = candidates@;
    let results = rank_top(candidates, limit);
    proof {
        assert forall|i: int| 0 <= i < results.len() implies (#[trigger] results@[i]).relevance
            <= SCORE_ONE by {
            assert(all.contains(results@[i]));
        }
    }
    results
}

/// Taking a lexical or a semantic result into the fusion keeps every
/// memory in it once.
pub proof fn lemma_merge_keeps_distinct(acc: Seq<Merged>, r: SearchResult)
    requires
        distinct_ids(displays(acc)),
    ensures
        distinct_ids(displays(merge_lexical(acc, r))),
        distinct_ids(displays(merge_semantic(acc, r))),
{
    lemma_position(displays(acc), r.id@);
    let p = position(displays(acc), r.id@);
    let lex = displays(merge_lexical(acc, r));
    let sem = displays(merge_semantic(acc, r));
    assert forall|i: int, j: int| 0 <= i < j < lex.len() implies (#[trigger] lex[i]).id@ != (
    #[trigger] lex[j]).id@ by {
        if j < acc.len() {
            assert(lex[i].id@ == displays(acc)[i].id@ && lex[j].id@ == displays(acc)[j].id@);
        } else {
            assert(lex[i].id@ == displays(acc)[i].id@);
        }
    }
    assert forall|i: int, j: int| 0 <= i < j < sem.len() implies (#[trigger] sem[i]).id@ != (
    #[trigger] sem[j]).id@ by {
        if j < acc.len() {
            assert(sem[i].id@ == displays(acc)[i].id@ && sem[j].id@ == displays(acc)[j].id@);
        } else {
            assert(sem[i].id@ == displays(acc)[i].id@);
        }
    }
}

/// The fusion holds every memory once.
pub proof fn lemma_hybrid_candidates_distinct(fts: Seq<SearchResult>, emb: Seq<SearchResult>)
    ensures
        distinct_ids(hybrid_candidates(fts, emb)),
{
    lemma_merge_all_distinct(Seq::empty(), fts, emb);
    let merged = merge_all_semantic(merge_all_lexical(Seq::empty(), fts), emb);
    let out = hybrid_candidates(fts, emb);
    assert forall|i: int, j: int| 0 <= i < j < out.len() implies (#[trigger] out[i]).id@ != (
    #[trigger] out[j]).id@ by {
        assert(out[i].id@ == displays(merged)[i].id@ && out[j].id@ == displays(merged)[j].id@);
    }
}

/// Lexical results and then semantic results taken into a fusion that
/// holds every memory once leave a fusion that holds every memory once.
pub proof fn lemma_merge_all_distinct(
    acc: Seq<Merged>,
    fts: Seq<SearchResult>,
    emb: Seq<SearchResult>,
)
    requires
        distinct_ids(displays(acc)),
    ensures
        distinct_ids(displays(merge_all_lexical(acc, fts))),
        distinct_ids(displays(merge_all_semantic(merge_all_lexical(acc, fts), emb))),
    decreases emb.len(), fts.len(),
{
    if emb.len() > 0 {
        lemma_merge_all_distinct(acc, fts, emb.drop_last());
        lemma_merge_keeps_distinct(
            merge_all_semantic(merge_all_lexical(acc, fts), emb.drop_last()),
            emb.last(),
        );
    } else if fts.len() > 0 {
        lemma_merge_all_distinct(acc, fts.drop_last(), emb);
        lemma_merge_keeps_distinct(merge_all_lexical(acc, fts.drop_last()), fts.last());
    }
}

/// What holds of the fusion of lexical results alone: no memory has a
/// semantic score, every memory is shown by one of the results, and its
/// lexical score is the relevance of one of the results of that memory.
pub open spec fn lexical_only(acc: Seq<Merged>, rs: Seq<SearchResult>) -> bool {
    &&& acc.len() <= rs.len()
    &&& forall|k: int|
        0 <= k < acc.len() ==> (#[trigger] acc[k]).emb_score == 0 && rs.contains(acc[k].display)
    &&& forall|k: int|
        0 <= k < acc.len() ==> exists|i: int|
            0 <= i < rs.len() && (#[trigger] rs[i]).id@ == acc[k].display.id@ && rs[i].relevance
                == (#[trigger] acc[k]).fts_score
    &&& forall|i: int|
        0 <= i < rs.len() ==> position(displays(acc), (#[trigger] rs[i]).id@) < acc.len()
}

/// The fusion of lexical results alone is `lexical_only`.
pub proof fn lemma_merge_lexical_only(rs: Seq<SearchResult>)
    ensures
        lexical_only(merge_all_lexical(Seq::empty(), rs), rs),
    decreases rs.len(),
{
    if rs.len() > 0 {
        let init = rs.drop_last();
        let r = rs.last();
        let before = merge_all_lexical(Seq::empty(), init);
        let after = merge_lexical(before, r);
        lemma_merge_lexical_only(init);
        lemma_position(displays(before), r.id@);
        let p = position(displays(before), r.id@);
        assert forall|i: int| 0 <= i < init.len() implies rs.contains(#[trigger] init[i]) by {
            assert(init[i] == rs[i]);
        }
        assert(rs.contains(r));
        assert forall|k: int| 0 <= k < after.len() implies (#[trigger] after[k]).emb_score == 0
            && rs.contains(after[k].display) by {
            if k < before.len() {
                assert(init.contains(before[k].display));
                let j = choose|j: int| 0 <= j < init.len() && init[j] == before[k].display;
                assert(init[j] == rs[j]);
            }
        }
        assert forall|k: int| 0 <= k < after.len() implies exists|i: int|
            0 <= i < rs.len() && (#[trigger] rs[i]).id@ == after[k].display.id@ && rs[i].relevance
                == (#[trigger] after[k]).fts_score by {
            if k < before.len() {
                let i = choose|i: int|
                    0 <= i < init.len() && (#[trigger] init[i]).id@ == before[k].display.id@
                        && init[i].relevance == before[k].fts_score;
                assert(init[i] == rs[i]);
                if k == p && after[k].fts_score != before[k].fts_score {
                    assert(displays(before)[p] == before[p].display);
                    assert(rs[rs.len() - 1] == r);
                }
            } else {
                assert(rs[rs.len() - 1] == r);
            }
        }
        assert(displays(after).len() == after.len());
        assert forall|k: int| 0 <= k < before.len() implies (#[trigger] displays(after)[k]).id@
            == displays(before)[k].id@ by {
            assert(displays(before)[k] == before[k].display);
            assert(displays(after)[k] == after[k].display);
        }
        assert forall|i: int| 0 <= i < rs.len() implies position(
            displays(after),
            (#[trigger] rs[i]).id@,
        ) < after.len() by {
            let id = rs[i].id@;
            let q = if i < init.len() {
                assert(init[i] == rs[i]);
                lemma_position(displays(before), id);
                position(displays(before), id)
            } else {
                p
            };
            if q < before.len() {
                lemma_position(displays(after), id);
                if position(displays(after), id) >= after.len() {
                    assert(displays(after)[q].id@ != id);
                }
            } else {
                lemma_position(displays(after), id);
                assert(displays(after)[before.len() as int] == after[before.len() as int].display);
                if position(displays(after), id) >= after.len() {
                    assert(displays(after)[before.len() as int].id@ != id);
                }
            }
        }
    }
}

/// A search without vectors falls back on the lexical results: the
/// candidates of the fusion are the memories that the lexical index
/// matched, each once and shown by one of its lexical results, with the
/// method of that result and the relevance that 0.3 of its lexical score
/// gives.
pub proof fn lemma_lexical_fallback(fts: Seq<SearchResult>)
    ensures
        hybrid_candidates(fts, Seq::empty()).len() <= fts.len(),
        forall|k: int|
            0 <= k < hybrid_candidates(fts, Seq::empty()).len() ==> exists|i: int|
                0 <= i < fts.len() && #[trigger] hybrid_candidates(fts, Seq::empty())[k]
                    == rescored(
                    #[trigger] fts[i],
                    hybrid_candidates(fts, Seq::empty())[k].relevance,
                    fts[i].method,
                ),
        forall|i: int|
            0 <= i < fts.len() ==> exists|k: int|
                0 <= k < hybrid_candidates(fts, Seq::empty()).len() && (#[trigger] hybrid_candidates(
                    fts,
                    Seq::empty(),
                )[k]).id@ == (#[trigger] fts[i]).id@,
{
    let merged = merge_all_lexical(Seq::empty(), fts);
    let out = hybrid_candidates(fts, Seq::empty());
    lemma_merge_lexical_only(fts);
    assert(out == merged.map_values(|m: Merged| hybrid_result(m)));
    assert forall|k: int| 0 <= k < out.len() implies exists|i: int|
        0 <= i < fts.len() && #[trigger] out[k] == rescored(
            #[trigger] fts[i],
            out[k].relevance,
            fts[i].method,
        ) by {
        assert(merged[k].emb_score == 0 && fts.contains(merged[k].display));
        let i = choose|i: int| 0 <= i < fts.len() && fts[i] == merged[k].display;
        assert(out[k] == rescored(fts[i], out[k].relevance, fts[i].method));
    }
    assert forall|i: int| 0 <= i < fts.len() implies exists|k: int|
        0 <= k < out.len() && (#[trigger] out[k]).id@ == (#[trigger] fts[i]).id@ by {
        let k = position(displays(merged), fts[i].id@);
        lemma_position(displays(merged), fts[i].id@);
        assert(displays(merged)[k] == merged[k].display);
        assert(out[k].id@ == fts[i].id@);
    }
}

/// A memory that the lexical index matched, with the bit pattern of the
/// raw score that the index gave it.
pub struct LexicalRow {
    pub row: MemoryRecord,
    pub bm25_bits: u64,
}

/// A memory with a stored vector: its own or that of one of its chunks.
pub struct EmbeddedRow {
    pub row: MemoryRecord,
    pub embedding: Vec<u32>,
}

/// A lexical row as the ranker takes it: with the magnitude of its raw
/// score, and the recency that the caller found for it.
pub fn lexical_hit(found: LexicalRow, recency: u64) -> (hit: ScoredRow)
    ensures
        hit.row == found.row,
        hit.score == magnitude_of(found.bm25_bits),
        hit.recency == recency,
{
    let score = real_magnitude(found.bm25_bits);
    ScoredRow { row: found.row, score, recency }
}

/// A row with a vector as the ranker takes it: with the similarity and the
/// recency that the caller found for it.
pub fn semantic_hit(found: EmbeddedRow, similarity: u64, recency: u64) -> (hit: ScoredRow)
    ensures
        hit.row == found.row,
        hit.score == similarity,
        hit.recency == recency,
{
    ScoredRow { row: found.row, score: similarity, recency }
}

/// How many rows a lexical search for `limit` results fetches: three times
/// as many, as far as the engine can count.
pub open spec fn fetch_count(limit: usize) -> i64 {
    if 3 * limit <= i64::MAX {
        (3 * limit) as i64
    } else {
        i64::MAX
    }
}

/// The memory and the raw score that a row of six columns holds.
pub open spec fn lexical_row() -> spec_fn(SqlRow) -> Option<(MemoryRecordView, u64)> {
    |row: SqlRow|
        match row {
            Some(cells) => match (record_cells(cells@), real_cell(cells@, 5)) {
                (Some(rec), Some(bits)) => Some((rec, bits)),
                _ => None,
            },
            None => None,
        }
}

/// The memory and the vector that a row of six columns holds.
pub open spec fn embedded_row() -> spec_fn(SqlRow) -> Option<(MemoryRecordView, Seq<u32>)> {
    |row: SqlRow|
        match row {
            Some(cells) => match (record_cells(cells@), blob_cell(cells@, 5)) {
                (Some(rec), Some(blob)) => Some((rec, decode(blob))),
                _ => None,
            },
            None => None,
        }
}

/// Lexical rows as plain values.
pub open spec fn lexical_views(rows: Seq<LexicalRow>) -> Seq<(MemoryRecordView, u64)> {
    rows.map_values(|r: LexicalRow| (r.row@, r.bm25_bits))
}

/// Embedded rows as plain values.
pub open spec fn embedded_views(rows: Seq<EmbeddedRow>) -> Seq<(MemoryRecordView, Seq<u32>)> {
    rows.map_values(|r: EmbeddedRow| (r.row@, r.embedding@))
}

/// The number of rows to fetch for `limit` results.
pub fn fetch_limit(limit: usize) -> (n: i64)
    ensures
        n == fetch_count(limit),
{
    let wide: u128 = 3 * (limit as u128);
    if wide <= 0x7fff_ffff_ffff_ffff {
        wide as i64
    } else {
        i64::MAX
    }
}

/// Reads the rows of a lexical answer, leaving out those that hold no
/// memory with a score.
pub fn lexical_rows(rows: &Vec<SqlRow>) -> (found: Vec<LexicalRow>)
    ensures
        lexical_views(found@) == rows@.filter_map(lexical_row()),
{
    let mut found: Vec<LexicalRow> = Vec::new();
    let mut i: usize = 0;
    while i < rows.len()
        invariant
            i <= rows.len(),
            lexical_views(found@) == rows@.take(i as int).filter_map(lexical_row()),
        decreases rows.len() - i,
    {
        let ghost kept = lexical_views(found@);
        assert(rows@.take(i + 1).drop_last() =~= rows@.take(i as int));
        assert(rows@.take(i + 1).last() == rows@[i as int]);
        if let Some(cells) = &rows[i] {
            if let Some(row) = memory_record(cells) {
                if let Some(bm25_bits) = real_at(cells, 5) {
                    let ghost entry = (row@, bm25_bits);
                    found.push(LexicalRow { row, bm25_bits });
                    assert(lexical_views(found@) =~= kept + seq![entry]);
                }
            }
        }
        i += 1;
    }
    assert(rows@.take(rows.len() as int) =~= rows@);
    found
}

/// Reads the rows of an answer with vectors, leaving out those that hold no
/// memory with a blob.
pub fn embedded_rows(rows: &Vec<SqlRow>) -> (found: Vec<EmbeddedRow>)
    ensures
        embedded_views(found@) == rows@.filter_map(embedded_row()),
{
    let mut found: Vec<EmbeddedRow> = Vec::new();
    let mut i: usize = 0;
    while i < rows.len()
        invariant
            i <= rows.len(),
            embedded_views(found@) == rows@.take(i as int).filter_map(embedded_row()),
        decreases rows.len() - i,
    {
        let ghost kept = embedded_views(found@);
        assert(rows@.take(i + 1).drop_last() =~= rows@.take(i as int));
        assert(rows@.take(i + 1).last() == rows@[i as int]);
        if let Some(cells) = &rows[i] {
            if let Some(row) = memory_record(cells) {
                if let Some(blob) = blob_at(cells, 5) {
                    let embedding = bytes_to_f32(blob.as_slice());
                    let ghost entry = (row@, embedding@);
                    found.push(EmbeddedRow { row, embedding });
                    assert(embedded_views(found@) =~= kept + seq![entry]);
                }
            }
        }
        i += 1;
    }
    assert(rows@.take(rows.len() as int) =~= rows@);
    found
}

/// The lexical search: the memories that the index matches, best first.
pub const LEXICAL_SQL: &'static str =
    "SELECT m.id, m.type, m.content, m.tags, m.created_at, \
     bm25(memories_fts) as bm25_score \
     FROM memories_fts f \
     JOIN memories m ON f.rowid = m.rowid \
     WHERE memories_fts MATCH ?1 \
     ORDER BY bm25_score \
     LIMIT ?2";

/// Every memory that has a vector.
pub const MEMORY_VECTORS_SQL: &'static str =
    "SELECT id, type, content, tags, created_at, embedding \
     FROM memories WHERE embedding IS NOT NULL";

/// Every chunk that has a vector, with the memory that it belongs to.
pub const CHUNK_VECTORS_SQL: &'static str =
    "SELECT c.memory_id, m.type, m.content, m.tags, m.created_at, c.embedding \
     FROM memory_chunks c JOIN memories m ON c.memory_id = m.id \
     WHERE c.embedding IS NOT NULL";

/// The statement that asks the lexical index for the memories that hold
/// any word of `query`, three times `limit` of them at most; none where
/// `query` has no words.
pub fn lexical_lookup(query: &str, limit: usize) -> (st: Option<Statement>)
    ensures
        st is None <==> tokens(query@).len() == 0,
        st matches Some(s) ==> s.sql == LEXICAL_SQL && s.bound() == seq![
            ParamView::Text(or_query(tokens(query@))),
            ParamView::Integer(fetch_count(limit)),
        ],
{
    match match_query(query) {
        Some(expr) => Some(
            statement_2(LEXICAL_SQL, SqlParam::Text(expr), SqlParam::Integer(fetch_limit(limit))),
        ),
        None => None,
    }
}

/// The first `most` rows of `rows`, or all of them where there are fewer.
pub fn first_rows(rows: Vec<LexicalRow>, most: usize) -> (kept: Vec<LexicalRow>)
    ensures
        kept@ == top(rows@, most as int),
        kept.len() <= most,
{
    let mut kept = rows;
    if most < kept.len() {
        kept.truncate(most);
    }
    kept
}

/// The rows that the answer of the lexical index holds for a search for
/// `limit` results: the rows that hold a memory with a score, in the order
/// of the answer, and no more than three times `limit` of them. An answer
/// that failed holds none.
pub fn lexical_answer(answer: Result<Vec<SqlRow>, rusqlite::Error>, limit: usize) -> (found: Vec<
    LexicalRow,
>)
    ensures
        lexical_views(found@) == match answer {
            Ok(rows) => top(rows@.filter_map(lexical_row()), 3 * limit),
            Err(_) => Seq::empty(),
        },
        found.len() <= 3 * limit,
{
    match answer {
        Ok(rows) => {
            let all = lexical_rows(&rows);
            let most = if limit <= usize::MAX / 3 {
                3 * limit
            } else {
                usize::MAX
            };
            let ghost count = all.len();
            let found = first_rows(all, most);
            proof {
                assert(lexical_views(all@).len() == all@.len());
                assert(all@.len() == count && count <= usize::MAX);
                if most < all@.len() {
                    assert(most == 3 * limit);
                    assert(lexical_views(all@.take(most as int)) =~= lexical_views(all@).take(
                        most as int,
                    ));
                } else {
                    assert(found@ == all@);
                }
            }
            found
        },
        Err(_) => {
            let none: Vec<LexicalRow> = Vec::new();
            assert(lexical_views(none@) =~= Seq::empty());
            none
        },
    }
}

/// The rows that an answer with vectors holds: those that hold a memory
/// with a blob, in the order of the answer. An answer that failed holds
/// none.
pub fn embedded_answer(answer: Result<Vec<SqlRow>, rusqlite::Error>) -> (found: Vec<EmbeddedRow>)
    ensures
        embedded_views(found@) == match answer {
            Ok(rows) => rows@.filter_map(embedded_row()),
            Err(_) => Seq::empty(),
        },
{
    match answer {
        Ok(rows) => embedded_rows(&rows),
        Err(_) => {
            let none: Vec<EmbeddedRow> = Vec::new();
            assert(embedded_views(none@) =~= Seq::empty());
            none
        },
    }
}

/// Asks the lexical index for the memories that hold any word of `query`,
/// best first, three times `limit` of them at most. A query without words,
/// or an engine that fails, gives no rows.
pub fn fetch_lexical_rows(conn: &rusqlite::Connection, query: &str, limit: usize) -> (found: Vec<
    LexicalRow,
>)
    ensures
        tokens(query@).len() == 0 ==> found.len() == 0,
        found.len() <= 3 * limit,
{
    match lexical_lookup(query, limit) {
        Some(st) => lexical_answer(run_query(conn, st.sql, &st.params), limit),
        None => Vec::new(),
    }
}

/// The statement that asks for every memory that has a vector.
pub fn memory_vectors() -> (st: Statement)
    ensures
        st.sql == MEMORY_VECTORS_SQL,
        st.bound() == Seq::<ParamView>::empty(),
{
    statement_0(MEMORY_VECTORS_SQL)
}

/// The statement that asks for every chunk that has a vector, with the
/// memory that it belongs to.
pub fn chunk_vectors() -> (st: Statement)
    ensures
        st.sql == CHUNK_VECTORS_SQL,
        st.bound() == Seq::<ParamView>::empty(),
{
    statement_0(CHUNK_VECTORS_SQL)
}

/// Every memory that has a vector, with that vector. An engine that fails
/// gives no rows.
pub fn fetch_embedded_memories(conn: &rusqlite::Connection) -> (found: Vec<EmbeddedRow>) {
    let st = memory_vectors();
    embedded_answer(run_query(conn, st.sql, &st.params))
}

/// Every chunk that has a vector, with that vector and the memory that the
/// chunk belongs to. An engine that fails gives no rows.
pub fn fetch_embedded_chunks(conn: &rusqlite::Connection) -> (found: Vec<EmbeddedRow>) {
    let st = chunk_vectors();
    embedded_answer(run_query(conn, st.sql, &st.params))
}

} // verus!
