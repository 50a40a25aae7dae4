//! Routing an operation to its corpora and bringing their answers together.

use vstd::prelude::*;
use vstd::string::StringExecFns;
use crate::embedding::EmbeddingJob;
use crate::rank::{is_descending, rank_top, sort_desc, top, Ranked};
use crate::search::{copy_result, SearchResult};
use crate::sql::{text_view, MemoryError};
use crate::storage::{
    project_db_of, project_db_option, resolve_scope_dbs, scope_dbs, MemoryPaths,
};
use crate::text::{prefix, str_eq, take_chars};
use vstd::utf8::encode_utf8;

verus! {

/// A result with the name of the corpus that it comes from.
pub struct ScopedResult {
    pub scope: String,
    pub result: SearchResult,
}

impl Ranked for ScopedResult {
    open spec fn rank(self) -> u64 {
        self.result.relevance
    }

    fn relevance_of(&self) -> (r: u64) {
        self.result.relevance
    }
}

/// The results of one corpus, each under the name of the corpus.
pub open spec fn labelled(scope: String, results: Seq<SearchResult>) -> Seq<ScopedResult> {
    results.map_values(|r: SearchResult| ScopedResult { scope, result: r })
}

/// The results of all corpora, corpus by corpus in the order in which the
/// corpora were asked.
pub open spec fn gathered(answers: Seq<(String, Vec<SearchResult>)>) -> Seq<ScopedResult>
    decreases answers.len(),
{
    if answers.len() == 0 {
        Seq::empty()
    } else {
        gathered(answers.drop_last()) + labelled(answers.last().0, answers.last().1@)
    }
}

/// Brings the results of the corpora together: every result under the name
/// of its corpus, all of them in descending order of relevance, and the
/// first `limit` of them kept.
pub fn merge_scoped(answers: &Vec<(String, Vec<SearchResult>)>, limit: usize) -> (merged: Vec<
    ScopedResult,
>)
    ensures
        merged@ == top(sort_desc(gathered(answers@)), limit as int),
        merged.len() <= limit,
        is_descending(merged@),
{
    let mut all: Vec<ScopedResult> = Vec::new();
    let mut i: usize = 0;
    while i < answers.len()
        invariant
            i <= answers.len(),
            all@ == gathered(answers@.take(i as int)),
        decreases answers.len() - i,
    {
        let scope = &answers[i].0;
        let results = &answers[i].1;
        let ghost done = all@;
        proof {
            assert(answers@.take(i + 1).drop_last() =~= answers@.take(i as int));
            assert(answers@.take(i + 1).last() == answers@[i as int]);
        }
        let mut k: usize = 0;
        while k < results.len()
            invariant
                k <= results.len(),
                all@ == done + labelled(*scope, results@.take(k as int)),
            decreases results.len() - k,
        {
            let ghost before = all@;
            all.push(ScopedResult { scope: scope.clone(), result: copy_result(&results[k]) });
            proof {
                let entry = ScopedResult { scope: *scope, result: results@[k as int] };
                assert(all@ =~= before.push(entry));
                assert(labelled(*scope, results@.take(k + 1)) =~= labelled(
                    *scope,
                    results@.take(k as int),
                ).push(entry));
                assert(all@ =~= done + labelled(*scope, results@.take(k + 1)));
            }
            k += 1;
        }
        assert(results@.take(results.len() as int) =~= results@);
        i += 1;
    }
    assert(answers@.take(answers.len() as int) =~= answers@);
    rank_top(all, limit)
}

/// Whether a corpus is passed over in a fan-out: only the project corpus
/// is, where its database does not exist.
pub fn skips_corpus(name: &str, exists: bool) -> (skip: bool)
    ensures
        skip == (!exists && name@ == "project"@),
{
    !exists && str_eq(name, "project")
}

/// Whether `scope` names a single corpus, as a write needs it: `global`,
/// `personality` or `project`.
pub open spec fn names_corpus(scope: Seq<char>) -> bool {
    scope == "global"@ || scope == "personality"@ || scope == "project"@
}

/// Whether `scope` is one that a read knows: a single corpus, `both` or
/// `all`.
pub open spec fn names_scope(scope: Seq<char>) -> bool {
    names_corpus(scope) || scope == "both"@ || scope == "all"@
}

/// The database that a write with `scope` goes to. The outer `None` is for
/// a scope that names no single corpus, which is refused; the inner `None`
/// is for `project` where no project directory is known.
pub open spec fn save_db(
    scope: Seq<char>,
    global_db: Seq<char>,
    personality_db: Seq<char>,
    project_dir: Option<&str>,
) -> Option<Option<Seq<char>>> {
    if scope == "global"@ {
        Some(Some(global_db))
    } else if scope == "personality"@ {
        Some(Some(personality_db))
    } else if scope == "project"@ {
        match project_dir {
            Some(dir) => Some(Some(project_db_of(dir@))),
            None => Some(None),
        }
    } else {
        None
    }
}

/// A resolved database as plain values.
pub open spec fn resolved_view(db: Result<Option<String>, MemoryError>) -> Option<
    Option<Seq<char>>,
> {
    match db {
        Ok(path) => Some(text_view(path)),
        Err(_) => None,
    }
}

/// Whether a write can name `scope`.
pub fn known_save_scope(scope: &str) -> (known: bool)
    ensures
        known == names_corpus(scope@),
{
    str_eq(scope, "global") || str_eq(scope, "personality") || str_eq(scope, "project")
}

/// Whether a read can name `scope`.
pub fn known_scope(scope: &str) -> (known: bool)
    ensures
        known == names_scope(scope@),
{
    known_save_scope(scope) || str_eq(scope, "both") || str_eq(scope, "all")
}

/// The database that a write with `scope` goes to. A scope that names no
/// single corpus is refused as invalid input. `Ok(None)` says that the
/// scope is `project` and no project directory is known.
pub fn resolve_save_db(scope: &str, paths: &MemoryPaths, project_dir: Option<&str>) -> (db: Result<
    Option<String>,
    MemoryError,
>)
    ensures
        resolved_view(db) == save_db(
            scope@,
            paths.global_db@,
            paths.personality_db@,
            project_dir,
        ),
        db is Err <==> !names_corpus(scope@),
        db is Err ==> db->Err_0 is InvalidInput,
{
    if str_eq(scope, "global") {
        Ok(Some(paths.global_db.clone()))
    } else if str_eq(scope, "personality") {
        Ok(Some(paths.personality_db.clone()))
    } else if str_eq(scope, "project") {
        Ok(MemoryPaths::project_db_path(project_dir))
    } else {
        Err(MemoryError::InvalidInput)
    }
}

/// The corpora that a read with `scope` asks, in order. A scope that a
/// read does not know is refused as invalid input.
pub fn read_scope_dbs(scope: &str, paths: &MemoryPaths, project_dir: Option<&str>) -> (dbs: Result<
    Vec<(String, String)>,
    MemoryError,
>)
    ensures
        dbs is Err <==> !names_scope(scope@),
        dbs is Err ==> dbs->Err_0 is InvalidInput,
        dbs matches Ok(list) ==> list.deep_view() == scope_dbs(
            scope@,
            paths.global_db@,
            paths.personality_db@,
            project_db_option(project_dir),
        ),
{
    if known_scope(scope) {
        Ok(resolve_scope_dbs(scope, paths, project_dir))
    } else {
        Err(MemoryError::InvalidInput)
    }
}

/// Whether `needle` occurs in `haystack` as a run of characters.
pub open spec fn occurs_in(needle: Seq<char>, haystack: Seq<char>) -> bool {
    exists|i: int|
        0 <= i && i + needle.len() <= haystack.len() && #[trigger] haystack.subrange(
            i,
            i + needle.len(),
        ) == needle
}

/// `str::contains` with a text as the pattern: whether the pattern occurs
/// in the text.
#[verifier::external_body]
pub(crate) fn contains_text(haystack: &str, needle: &str) -> (found: bool)
    ensures
        found == occurs_in(needle@, haystack@),
{
    haystack.contains(needle)
}

/// The tags under which a memory is saved: in the personality corpus the
/// name of the project is added behind a comma, unless it is empty or
/// occurs in the tags already; elsewhere the tags stay as they are.
pub open spec fn tags_to_save(scope: Seq<char>, tags: Seq<char>, project_name: Seq<char>) -> Seq<
    char,
> {
    if scope != "personality"@ || project_name.len() == 0 || occurs_in(project_name, tags) {
        tags
    } else if tags.len() == 0 {
        project_name
    } else {
        tags + seq![','] + project_name
    }
}

/// The tags under which a memory is saved.
pub fn save_tags(scope: &str, tags: &str, project_name: &str) -> (saved: String)
    ensures
        saved@ == tags_to_save(scope@, tags@, project_name@),
{
    if !str_eq(scope, "personality") || project_name.is_empty() || contains_text(
        tags,
        project_name,
    ) {
        tags.to_owned()
    } else if tags.is_empty() {
        project_name.to_owned()
    } else {
        let mut saved = String::new();
        saved.append(tags);
        saved.push(',');
        saved.append(project_name);
        assert(saved@ =~= tags@ + seq![','] + project_name@);
        saved
    }
}

/// The job that gives the memory `id` of the corpus at `db_path` its
/// vectors.
pub fn embedding_job(db_path: &str, id: &str, content: &str) -> (job: EmbeddingJob)
    ensures
        job.db_path@ == db_path@,
        job.record_id@ == id@,
        job.content@ == content@,
{
    EmbeddingJob {
        db_path: db_path.to_owned(),
        record_id: id.to_owned(),
        content: content.to_owned(),
    }
}

/// The jobs of a reindex: one for every memory without a vector, in order.
pub fn reindex_jobs(db_path: &str, pending: &Vec<(String, String)>) -> (jobs: Vec<EmbeddingJob>)
    ensures
        jobs.len() == pending.len(),
        forall|i: int|
            0 <= i < jobs.len() ==> (#[trigger] jobs[i]).db_path@ == db_path@ && jobs[i].record_id@
                == pending[i].0@ && jobs[i].content@ == pending[i].1@,
{
    let mut jobs: Vec<EmbeddingJob> = Vec::new();
    let mut i: usize = 0;
    while i < pending.len()
        invariant
            i <= pending.len(),
            jobs.len() == i,
            forall|k: int|
                0 <= k < i ==> (#[trigger] jobs[k]).db_path@ == db_path@ && jobs[k].record_id@
                    == pending[k].0@ && jobs[k].content@ == pending[k].1@,
        decreases pending.len() - i,
    {
        jobs.push(embedding_job(db_path, pending[i].0.as_str(), pending[i].1.as_str()));
        i += 1;
    }
    jobs
}

/// Most characters of a content that a listing shows.
pub const PREVIEW_CHARS: usize = 80;

/// A content as a listing shows it: its first `PREVIEW_CHARS` characters,
/// and three dots behind them where the content is longer than that many
/// bytes.
pub open spec fn preview_of(content: Seq<char>) -> Seq<char> {
    if encode_utf8(content).len() > PREVIEW_CHARS {
        prefix(content, PREVIEW_CHARS as int) + "..."@
    } else {
        prefix(content, PREVIEW_CHARS as int)
    }
}

/// A content as a listing shows it.
pub fn preview(content: &str) -> (shown: String)
    ensures
        shown@ == preview_of(content@),
{
    let mut shown = take_chars(content, PREVIEW_CHARS);
    if content.as_bytes().len() > PREVIEW_CHARS {
        shown.append("...");
    }
    shown
}

} // verus!
