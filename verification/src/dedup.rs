//! Near-duplicate detection: an exact match first, then candidates from the
//! lexical index that are held against the content by Jaccard similarity.
//!
//! Similarities are counted in billionths: the value 1.0 is `SCORE_ONE`.

use vstd::prelude::*;
use vstd::set_lib::{lemma_len_subset, lemma_set_intersect_union_lens};
use vstd::seq_lib::seq_to_set_is_finite;
use crate::fts::{build_or_query, dedup_terms, narrowing_terms, or_query};
use crate::score::SCORE_ONE;
use crate::sql::{
    run_query, statement_2, statement_3, text_at, text_cell, text_param, text_view, ParamView,
    SqlParam, SqlRow, Statement,
};
use crate::text::{lowercase, split_whitespace, tokens};

verus! {

/// The set of the words of `text`, in lowercase.
pub open spec fn word_set(text: Seq<char>) -> Set<Seq<char>> {
    tokens(lowercase(text)).to_set()
}

/// Jaccard similarity of two texts in billionths, rounded down: the share
/// of the words of either text that both have. It is 0 where a text has no
/// words.
pub open spec fn jaccard(a: Seq<char>, b: Seq<char>) -> nat {
    if word_set(a).len() == 0 || word_set(b).len() == 0 {
        0
    } else {
        (word_set(a).intersect(word_set(b)).len() * 1_000_000_000) / word_set(a).union(
            word_set(b),
        ).len()
    }
}

/// Whether `word` is among `words`.
pub fn contains_word(words: &Vec<String>, word: &String) -> (found: bool)
    ensures
        found == words.deep_view().contains(word@),
{
    let mut i: usize = 0;
    while i < words.len()
        invariant
            i <= words.len(),
            forall|k: int| 0 <= k < i ==> words.deep_view()[k] != word@,
        decreases words.len() - i,
    {
        if words[i] == *word {
            assert(words.deep_view()[i as int] == word@);
            return true;
        }
        i += 1;
    }
    false
}

/// The words of `words`, each once.
pub fn distinct_words(words: &Vec<String>) -> (once: Vec<String>)
    ensures
        once.deep_view().no_duplicates(),
        once.deep_view().to_set() == words.deep_view().to_set(),
{
    let mut once: Vec<String> = Vec::new();
    let mut i: usize = 0;
    while i < words.len()
        invariant
            i <= words.len(),
            once.deep_view().no_duplicates(),
            once.deep_view().to_set() == words.deep_view().take(i as int).to_set(),
        decreases words.len() - i,
    {
        let ghost seen = once.deep_view();
        let ghost read = words.deep_view().take(i as int);
        let ghost word = words.deep_view()[i as int];
        proof {
            assert(words.deep_view().take(i + 1) =~= read.push(word));
            read.lemma_push_to_set_commute(word);
            seen.lemma_push_to_set_commute(word);
        }
        if !contains_word(&once, &words[i]) {
            once.push(words[i].clone());
            assert(once.deep_view() =~= seen.push(word));
        } else {
            assert(seen.to_set().contains(word));
            assert(seen.to_set().insert(word) =~= seen.to_set());
        }
        i += 1;
    }
    assert(words.deep_view().take(words.len() as int) =~= words.deep_view());
    once
}

/// How many of the words of `a`, which holds each word once, are among `b`.
pub fn count_common(a: &Vec<String>, b: &Vec<String>) -> (common: usize)
    requires
        a.deep_view().no_duplicates(),
    ensures
        common == a.deep_view().to_set().intersect(b.deep_view().to_set()).len(),
        common <= a.len(),
{
    let mut common: usize = 0;
    let mut i: usize = 0;
    let ghost other = b.deep_view().to_set();
    proof {
        assert(a.deep_view().take(0).to_set().intersect(other) =~= Set::empty());
    }
    while i < a.len()
        invariant
            i <= a.len(),
            common <= i,
            a.deep_view().no_duplicates(),
            other == b.deep_view().to_set(),
            common == a.deep_view().take(i as int).to_set().intersect(other).len(),
        decreases a.len() - i,
    {
        let ghost read = a.deep_view().take(i as int);
        let ghost word = a.deep_view()[i as int];
        proof {
            assert(a.deep_view().take(i + 1) =~= read.push(word));
            read.lemma_push_to_set_commute(word);
            seq_to_set_is_finite(read);
            assert(!read.to_set().contains(word)) by {
                if read.contains(word) {
                    let k = choose|k: int| 0 <= k < read.len() && read[k] == word;
                    assert(a.deep_view()[k] == a.deep_view()[i as int]);
                }
            }
            let before = read.to_set().intersect(other);
            let after = read.to_set().insert(word).intersect(other);
            if other.contains(word) {
                assert(after =~= before.insert(word));
            } else {
                assert(after =~= before);
            }
        }
        if contains_word(b, &a[i]) {
            common += 1;
        }
        i += 1;
    }
    assert(a.deep_view().take(a.len() as int) =~= a.deep_view());
    common
}

/// Jaccard similarity of the two texts over their lowercase words.
pub fn jaccard_sim(text_a: &str, text_b: &str) -> (sim: u64)
    ensures
        sim == jaccard(text_a@, text_b@),
        sim <= SCORE_ONE,
{
    let a_lower = text_a.to_lowercase();
    let b_lower = text_b.to_lowercase();
    let all_a = split_whitespace(a_lower.as_str());
    let all_b = split_whitespace(b_lower.as_str());
    let words_a = distinct_words(&all_a);
    let words_b = distinct_words(&all_b);
    proof {
        words_a.deep_view().unique_seq_to_set();
        words_b.deep_view().unique_seq_to_set();
        seq_to_set_is_finite(words_a.deep_view());
        seq_to_set_is_finite(words_b.deep_view());
        lemma_set_intersect_union_lens(word_set(text_a@), word_set(text_b@));
        lemma_len_subset(word_set(text_a@).intersect(word_set(text_b@)), word_set(text_b@));
    }
    if words_a.len() == 0 || words_b.len() == 0 {
        return 0;
    }
    let common = count_common(&words_a, &words_b);
    let either: u128 = (words_a.len() - common) as u128 + words_b.len() as u128;
    let scaled: u128 = common as u128 * 1_000_000_000;
    assert(either == word_set(text_a@).union(word_set(text_b@)).len());
    assert(common <= either);
    assert(scaled / either <= 1_000_000_000) by (nonlinear_arith)
        requires
            scaled == common * 1_000_000_000,
            0 <= common <= either,
            either > 0,
    ;
    (scaled / either) as u64
}

/// Similarity from which the write path takes two contents for the same.
pub const DEDUP_THRESHOLD: u64 = 850_000_000;

/// Most candidates that are fetched from the lexical index.
pub const DEDUP_CANDIDATES: i64 = 10;

/// The id in the first row of an answer, where there is a row and its first
/// column is text.
pub open spec fn first_id(rows: Seq<SqlRow>) -> Option<Seq<char>> {
    if rows.len() > 0 {
        match rows[0] {
            Some(cells) => text_cell(cells@, 0),
            None => None,
        }
    } else {
        None
    }
}

/// The id and the content that a row holds in its first two columns, where
/// the row was read and both are text.
pub open spec fn id_and_content() -> spec_fn(SqlRow) -> Option<(Seq<char>, Seq<char>)> {
    |row: SqlRow|
        match row {
            Some(cells) => match (text_cell(cells@, 0), text_cell(cells@, 1)) {
                (Some(id), Some(content)) => Some((id, content)),
                _ => None,
            },
            None => None,
        }
}

/// Whether candidate `i` is similar enough to `content`.
pub open spec fn similar_at(
    candidates: Seq<(Seq<char>, Seq<char>)>,
    i: int,
    content: Seq<char>,
    threshold: u64,
) -> bool {
    jaccard(content, candidates[i].1) >= threshold
}

/// Reads the id of an exact match from the answer to the lookup by type and
/// content.
pub fn exact_match(rows: &Vec<SqlRow>) -> (id: Option<String>)
    ensures
        text_view(id) == first_id(rows@),
{
    if rows.len() > 0 {
        match &rows[0] {
            Some(cells) => text_at(cells, 0),
            None => None,
        }
    } else {
        None
    }
}

/// Reads the `(id, content)` pairs of an answer, leaving out the rows that
/// do not hold two texts.
pub fn id_content_pairs(rows: &Vec<SqlRow>) -> (pairs: Vec<(String, String)>)
    ensures
        pairs.deep_view() == rows@.filter_map(id_and_content()),
{
    let mut pairs: Vec<(String, String)> = Vec::new();
    let mut i: usize = 0;
    while i < rows.len()
        invariant
            i <= rows.len(),
            pairs.deep_view() == rows@.take(i as int).filter_map(id_and_content()),
        decreases rows.len() - i,
    {
        let ghost read = rows@.take(i as int);
        let ghost kept = pairs.deep_view();
        assert(rows@.take(i + 1).drop_last() =~= read);
        assert(rows@.take(i + 1).last() == rows@[i as int]);
        if let Some(cells) = &rows[i] {
            if let Some(id) = text_at(cells, 0) {
                if let Some(content) = text_at(cells, 1) {
                    let ghost pair = (id@, content@);
                    pairs.push((id, content));
                    assert(pairs.deep_view() =~= kept + seq![pair]);
                }
            }
        }
        i += 1;
    }
    assert(rows@.take(rows.len() as int) =~= rows@);
    pairs
}

/// Whether `id` is the id of the first candidate whose content is similar
/// enough to `content`, or `None` where no candidate is.
pub open spec fn first_similar_is(
    id: Option<Seq<char>>,
    candidates: Seq<(Seq<char>, Seq<char>)>,
    content: Seq<char>,
    threshold: u64,
) -> bool {
    match id {
        Some(found) => exists|i: int|
            0 <= i < candidates.len() && found == candidates[i].0 && #[trigger] similar_at(
                candidates,
                i,
                content,
                threshold,
            ) && forall|j: int|
                0 <= j < i ==> !#[trigger] similar_at(candidates, j, content, threshold),
        None => forall|i: int|
            0 <= i < candidates.len() ==> !#[trigger] similar_at(
                candidates,
                i,
                content,
                threshold,
            ),
    }
}

/// The id of the first candidate whose content is similar enough to
/// `content`, or `None` where no candidate is.
pub fn pick_similar(candidates: &Vec<(String, String)>, content: &str, threshold: u64) -> (id:
    Option<String>)
    ensures
        first_similar_is(text_view(id), candidates.deep_view(), content@, threshold),
{
    let mut i: usize = 0;
    while i < candidates.len()
        invariant
            i <= candidates.len(),
            forall|j: int|
                0 <= j < i ==> !#[trigger] similar_at(candidates.deep_view(), j, content@, threshold),
        decreases candidates.len() - i,
    {
        assert(candidates.deep_view()[i as int] == (candidates[i as int].0@, candidates[i as int].1@));
        if jaccard_sim(content, candidates[i].1.as_str()) >= threshold {
            assert(similar_at(candidates.deep_view(), i as int, content@, threshold));
            return Some(candidates[i].0.clone());
        }
        i += 1;
    }
    None
}

/// The lookup of a memory by type and content.
pub const EXACT_LOOKUP_SQL: &'static str = "SELECT id FROM memories WHERE type = ? AND content = ?";

/// The lookup of the memories of a type that the lexical index matches.
pub const CANDIDATES_SQL: &'static str =
    "SELECT m.id, m.content FROM memories_fts f \
     JOIN memories m ON f.rowid = m.rowid \
     WHERE m.type = ? AND memories_fts MATCH ? LIMIT ?";

/// The statement that asks for a memory of type `mem_type` with exactly
/// the content `content`.
pub fn exact_lookup(content: &str, mem_type: &str) -> (st: Statement)
    ensures
        st.sql == EXACT_LOOKUP_SQL,
        st.bound() == seq![ParamView::Text(mem_type@), ParamView::Text(content@)],
{
    statement_2(EXACT_LOOKUP_SQL, text_param(mem_type), text_param(content))
}

/// The statement that asks the lexical index for up to `DEDUP_CANDIDATES`
/// memories of type `mem_type` that hold any narrowing term of `content`;
/// none where `content` has no narrowing term.
pub fn candidate_lookup(content: &str, mem_type: &str) -> (st: Option<Statement>)
    ensures
        st is None <==> narrowing_terms(content@).len() == 0,
        st matches Some(s) ==> s.sql == CANDIDATES_SQL && s.bound() == seq![
            ParamView::Text(mem_type@),
            ParamView::Text(or_query(narrowing_terms(content@))),
            ParamView::Integer(DEDUP_CANDIDATES),
        ],
{
    let terms = dedup_terms(content);
    if terms.len() == 0 {
        return None;
    }
    let expr = build_or_query(&terms);
    Some(
        statement_3(
            CANDIDATES_SQL,
            text_param(mem_type),
            SqlParam::Text(expr),
            SqlParam::Integer(DEDUP_CANDIDATES),
        ),
    )
}

/// The duplicate that the answer of the lexical index holds: the first
/// memory of the answer whose content is similar enough to `content`. An
/// answer that failed holds none.
pub fn similar_among(
    answer: Result<Vec<SqlRow>, rusqlite::Error>,
    content: &str,
    threshold: u64,
) -> (id: Option<String>)
    ensures
        answer is Err ==> id is None,
        answer matches Ok(rows) ==> first_similar_is(
            text_view(id),
            rows@.filter_map(id_and_content()),
            content@,
            threshold,
        ),
{
    match answer {
        Ok(rows) => {
            let candidates = id_content_pairs(&rows);
            pick_similar(&candidates, content, threshold)
        },
        Err(_) => None,
    }
}

/// Where the lookup of a duplicate stands after the exact phase.
pub enum Lookup {
    /// A memory with the same content was found: this is its id.
    Found(String),
    /// The engine failed: there is no duplicate.
    GiveUp,
    /// No memory has the same content: the lexical candidates are next.
    Narrow,
}

/// What follows from the answer to the exact lookup: the id in its first
/// row is the duplicate, an answer without one leads on to the lexical
/// candidates, and an answer that failed ends the lookup.
pub fn after_exact(answer: Result<Vec<SqlRow>, rusqlite::Error>) -> (step: Lookup)
    ensures
        answer is Err ==> step is GiveUp,
        answer matches Ok(rows) ==> match first_id(rows@) {
            Some(id) => step matches Lookup::Found(f) && f@ == id,
            None => step is Narrow,
        },
{
    match answer {
        Ok(rows) => match exact_match(&rows) {
            Some(id) => Lookup::Found(id),
            None => Lookup::Narrow,
        },
        Err(_) => Lookup::GiveUp,
    }
}

/// Whether the id in the first row of `rows` is `id`.
pub open spec fn exact_in(rows: Seq<SqlRow>, id: Seq<char>) -> bool {
    first_id(rows) == Some(id)
}

/// Whether `id` is the first similar candidate of `rows`.
pub open spec fn similar_in(rows: Seq<SqlRow>, id: Seq<char>, content: Seq<char>, threshold: u64)
    -> bool {
    first_similar_is(Some(id), rows.filter_map(id_and_content()), content, threshold)
}

/// Whether `id` can be the duplicate of `content`: it is the exact match of
/// some answer, or, where `content` has narrowing terms, the first similar
/// candidate of some answer.
pub open spec fn may_duplicate(id: Seq<char>, content: Seq<char>, threshold: u64) -> bool {
    ||| exists|rows: Seq<SqlRow>| #[trigger] exact_in(rows, id)
    ||| narrowing_terms(content).len() > 0 && exists|rows: Seq<SqlRow>| #[trigger]
        similar_in(rows, id, content, threshold)
}

/// Looks for a memory of type `mem_type` that `content` would duplicate:
/// one with the same content, else the first of up to `DEDUP_CANDIDATES`
/// lexical matches of the narrowing terms whose similarity to `content`
/// reaches `threshold`. Where the engine fails there is no duplicate.
pub fn find_duplicate(
    conn: &rusqlite::Connection,
    content: &str,
    mem_type: &str,
    threshold: u64,
) -> (id: Option<String>)
    ensures
        id matches Some(found) ==> may_duplicate(found@, content@, threshold),
{
    let exact = exact_lookup(content, mem_type);
    let answer = run_query(conn, exact.sql, &exact.params);
    let ghost exact_answer = answer;
    match after_exact(answer) {
        Lookup::Found(id) => {
            assert(exact_in(exact_answer->Ok_0@, id@));
            Some(id)
        },
        Lookup::GiveUp => None,
        Lookup::Narrow => match candidate_lookup(content, mem_type) {
            Some(lookup) => {
                let candidates = run_query(conn, lookup.sql, &lookup.params);
                let ghost candidate_answer = candidates;
                let id = similar_among(candidates, content, threshold);
                proof {
                    if id is Some {
                        assert(similar_in(candidate_answer->Ok_0@, id->0@, content@, threshold));
                    }
                }
                id
            },
            None => None,
        },
    }
}

} // verus!
