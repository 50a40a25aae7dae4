//! The arguments of the operations that clients call, with the values that
//! stand in for the ones a client leaves out.

use vstd::prelude::*;

verus! {

/// Arguments of `save`.
pub struct SaveParams {
    /// What to save.
    pub content: String,
    /// The tag that classifies the memory: decision, pattern, preference,
    /// architecture, implementation, solution, todo, note.
    pub mem_type: String,
    /// The corpus to save into: global, project, personality.
    pub scope: String,
    /// Comma-separated tags.
    pub tags: String,
    /// Name of the project, where the client knows it.
    pub project_name: String,
}

/// Arguments of `search`.
pub struct SearchParams {
    pub query: String,
    /// global, project, personality, both, all.
    pub scope: String,
    /// Largest number of results.
    pub limit: usize,
}

/// Arguments of `context`.
pub struct ContextParams {
    pub query: String,
}

/// Arguments of `list`.
pub struct ListParams {
    /// Only memories of this type, where given.
    pub mem_type: Option<String>,
    /// global, project, personality, both, all.
    pub scope: String,
    /// Largest number of results.
    pub limit: usize,
}

/// Arguments of `stats`: none.
pub struct StatsParams {}

/// Arguments of `delete`.
pub struct DeleteParams {
    pub id: String,
    /// global, project, personality.
    pub scope: String,
}

/// Arguments of `reindex`.
pub struct ReindexParams {
    /// global, project, personality, all.
    pub scope: String,
}

/// Arguments of `compact`.
pub struct CompactParams {
    /// personality, project, global.
    pub scope: String,
}

/// Largest number of results of `context`.
pub const CONTEXT_LIMIT: usize = 8;

/// The scope in which `context` searches.
pub fn context_scope() -> (s: String)
    ensures
        s@ == "all"@,
{
    "all".to_owned()
}

/// Type of a saved memory where the client names none.
pub fn default_type() -> (s: String)
    ensures
        s@ == "note"@,
{
    "note".to_owned()
}

/// Scope of `save` and `delete` where the client names none.
pub fn default_scope_project() -> (s: String)
    ensures
        s@ == "project"@,
{
    "project".to_owned()
}

/// Scope of `search` and `list` where the client names none.
pub fn default_scope_both() -> (s: String)
    ensures
        s@ == "both"@,
{
    "both".to_owned()
}

/// Scope of `reindex` where the client names none.
pub fn default_scope_all() -> (s: String)
    ensures
        s@ == "all"@,
{
    "all".to_owned()
}

/// Scope of `compact` where the client names none.
pub fn default_scope_personality() -> (s: String)
    ensures
        s@ == "personality"@,
{
    "personality".to_owned()
}

/// Limit of `search` where the client names none.
pub fn default_limit_5() -> (n: usize)
    ensures
        n == 5,
{
    5
}

/// Limit of `list` where the client names none.
pub fn default_limit_10() -> (n: usize)
    ensures
        n == 10,
{
    10
}

impl SaveParams {
    /// A request to save `content` with every other argument left out.
    pub fn new(content: String) -> (p: SaveParams)
        ensures
            p.content == content,
            p.mem_type@ == "note"@,
            p.scope@ == "project"@,
            p.tags@ == Seq::<char>::empty(),
            p.project_name@ == Seq::<char>::empty(),
    {
        SaveParams {
            content,
            mem_type: default_type(),
            scope: default_scope_project(),
            tags: String::new(),
            project_name: String::new(),
        }
    }
}

impl SearchParams {
    /// A request to search for `query` with scope and limit left out.
    pub fn new(query: String) -> (p: SearchParams)
        ensures
            p.query == query,
            p.scope@ == "both"@,
            p.limit == 5,
    {
        SearchParams { query, scope: default_scope_both(), limit: default_limit_5() }
    }
}

impl ListParams {
    /// A request to list with every argument left out.
    pub fn new() -> (p: ListParams)
        ensures
            p.mem_type is None,
            p.scope@ == "both"@,
            p.limit == 10,
    {
        ListParams { mem_type: None, scope: default_scope_both(), limit: default_limit_10() }
    }
}

impl DeleteParams {
    /// A request to delete `id` with the scope left out.
    pub fn new(id: String) -> (p: DeleteParams)
        ensures
            p.id == id,
            p.scope@ == "project"@,
    {
        DeleteParams { id, scope: default_scope_project() }
    }
}

impl ReindexParams {
    /// A request to reindex with the scope left out.
    pub fn new() -> (p: ReindexParams)
        ensures
            p.scope@ == "all"@,
    {
        ReindexParams { scope: default_scope_all() }
    }
}

impl CompactParams {
    /// A request to compact with the scope left out.
    pub fn new() -> (p: CompactParams)
        ensures
            p.scope@ == "personality"@,
    {
        CompactParams { scope: default_scope_personality() }
    }
}

} // verus!
