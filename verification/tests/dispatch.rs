use mcp_memoria::dispatch::{
    embedding_job, known_save_scope, known_scope, merge_scoped, preview, read_scope_dbs,
    reindex_jobs, resolve_save_db, save_tags, skips_corpus,
};
use mcp_memoria::sql::MemoryError;
use mcp_memoria::params::{
    context_scope, default_limit_10, default_limit_5, default_scope_all, default_scope_both,
    default_scope_personality, default_scope_project, default_type, CompactParams, DeleteParams,
    ListParams, ReindexParams, SaveParams, SearchParams,
};
use mcp_memoria::search::{
    fetch_lexical_rows, lexical_hit, search_hybrid, Method, ScoredRow, SearchResult,
};
use mcp_memoria::storage::{init_db, resolve_scope_dbs, save_memory, MemoryPaths};

fn result(id: &str, relevance: u64) -> SearchResult {
    SearchResult {
        id: id.to_string(),
        mem_type: "note".to_string(),
        content: String::new(),
        tags: String::new(),
        created_at: String::new(),
        relevance,
        method: Method::Fts,
        recency: 1_000_000_000,
    }
}

#[test]
fn test_merge_scoped_sorts_across_corpora() {
    let answers = vec![
        ("global".to_string(), vec![result("g1", 500_000), result("g2", 100_000)]),
        ("personality".to_string(), vec![]),
        ("project".to_string(), vec![result("j1", 700_000), result("j2", 500_000)]),
    ];
    let merged = merge_scoped(&answers, 3);
    let got: Vec<(String, String, u64)> = merged
        .iter()
        .map(|s| (s.scope.clone(), s.result.id.clone(), s.result.relevance))
        .collect();
    assert_eq!(
        got,
        vec![
            ("project".to_string(), "j1".to_string(), 700_000),
            ("global".to_string(), "g1".to_string(), 500_000),
            ("project".to_string(), "j2".to_string(), 500_000),
        ]
    );
    assert_eq!(merge_scoped(&answers, 10).len(), 4);
    assert!(merge_scoped(&answers, 0).is_empty());
    assert!(merge_scoped(&Vec::new(), 5).is_empty());
}

#[test]
fn test_scope_fan_out_with_missing_project() {
    let conn = init_db(":memory:").ok().unwrap();
    save_memory(&conn, "note", "X marks the spot", "").ok().unwrap();
    let paths = MemoryPaths::new("/home/u");
    let dbs = resolve_scope_dbs("both", &paths, Some("/work/proj"));
    assert_eq!(dbs.len(), 2);
    let mut answers = Vec::new();
    let mut skipped = Vec::new();
    for (name, _path) in &dbs {
        let exists = name == "global";
        if skips_corpus(name, exists) {
            skipped.push(name.clone());
            continue;
        }
        let rows = fetch_lexical_rows(&conn, "X", 5);
        let hits: Vec<ScoredRow> = rows.into_iter().map(|r| lexical_hit(r, 1_000_000_000)).collect();
        answers.push((name.clone(), search_hybrid(&hits, None, 5)));
    }
    let merged = merge_scoped(&answers, 5);
    assert_eq!(skipped, vec!["project"]);
    assert_eq!(merged.len(), 1);
    assert_eq!(merged[0].scope, "global");
    assert_eq!(merged[0].result.content, "X marks the spot");
    assert_eq!(merged[0].result.method.as_str(), "fts");
}

#[test]
fn test_skips_only_a_missing_project() {
    assert!(skips_corpus("project", false));
    assert!(!skips_corpus("project", true));
    assert!(!skips_corpus("global", false));
    assert!(!skips_corpus("personality", false));
}

#[test]
fn test_resolve_save_db() {
    let paths = MemoryPaths::new("/h");
    assert_eq!(resolve_save_db("global", &paths, None).ok(), Some(Some(paths.global_db.clone())));
    assert_eq!(
        resolve_save_db("personality", &paths, None).ok(),
        Some(Some(paths.personality_db.clone()))
    );
    assert_eq!(resolve_save_db("project", &paths, None).ok(), Some(None));
    assert_eq!(
        resolve_save_db("project", &paths, Some("/w")).ok(),
        Some(Some("/w/.mcp-memoria/project.db".to_string()))
    );
    for unknown in ["bogus", "both", "all", "", "Global"] {
        assert!(matches!(
            resolve_save_db(unknown, &paths, Some("/w")),
            Err(MemoryError::InvalidInput)
        ));
    }
}

#[test]
fn test_unknown_scopes_are_refused() {
    let paths = MemoryPaths::new("/h");
    for scope in ["global", "personality", "project"] {
        assert!(known_save_scope(scope));
        assert!(known_scope(scope));
    }
    for scope in ["both", "all"] {
        assert!(!known_save_scope(scope));
        assert!(known_scope(scope));
    }
    for scope in ["bogus", "", "ALL"] {
        assert!(!known_save_scope(scope));
        assert!(!known_scope(scope));
        assert!(matches!(read_scope_dbs(scope, &paths, None), Err(MemoryError::InvalidInput)));
    }
    let all = read_scope_dbs("all", &paths, Some("/w")).ok().unwrap();
    assert_eq!(all.len(), 3);
    assert_eq!(all[2].1, "/w/.mcp-memoria/project.db");
    assert_eq!(read_scope_dbs("project", &paths, None).ok().unwrap().len(), 0);
}

#[test]
fn test_save_tags_add_the_project_in_personality() {
    assert_eq!(save_tags("personality", "", "proj"), "proj");
    assert_eq!(save_tags("personality", "rust,db", "proj"), "rust,db,proj");
    assert_eq!(save_tags("personality", "rust,proj", "proj"), "rust,proj");
    assert_eq!(save_tags("personality", "rust", ""), "rust");
    assert_eq!(save_tags("global", "rust", "proj"), "rust");
    assert_eq!(save_tags("project", "", "proj"), "");
}

#[test]
fn test_jobs_for_reindex() {
    let pending = vec![
        ("id1".to_string(), "first".to_string()),
        ("id2".to_string(), "second".to_string()),
    ];
    let jobs = reindex_jobs("/db", &pending);
    assert_eq!(jobs.len(), 2);
    assert_eq!(jobs[0].db_path, "/db");
    assert_eq!(jobs[0].record_id, "id1");
    assert_eq!(jobs[1].content, "second");
    let one = embedding_job("/db", "x", "y");
    assert_eq!((one.db_path.as_str(), one.record_id.as_str(), one.content.as_str()), ("/db", "x", "y"));
}

#[test]
fn test_defaults_of_requests() {
    assert_eq!(default_type(), "note");
    assert_eq!(default_scope_project(), "project");
    assert_eq!(default_scope_both(), "both");
    assert_eq!(default_scope_all(), "all");
    assert_eq!(default_scope_personality(), "personality");
    assert_eq!(default_limit_5(), 5);
    assert_eq!(default_limit_10(), 10);
    let save = SaveParams::new("c".to_string());
    assert_eq!((save.mem_type.as_str(), save.scope.as_str()), ("note", "project"));
    assert_eq!((save.tags.as_str(), save.project_name.as_str()), ("", ""));
    let search = SearchParams::new("q".to_string());
    assert_eq!((search.scope.as_str(), search.limit), ("both", 5));
    let list = ListParams::new();
    assert_eq!((list.mem_type, list.scope.as_str(), list.limit), (None, "both", 10));
    assert_eq!(DeleteParams::new("i".to_string()).scope, "project");
    assert_eq!(ReindexParams::new().scope, "all");
    assert_eq!(CompactParams::new().scope, "personality");
    assert_eq!(context_scope(), "all");
    assert_eq!(mcp_memoria::params::CONTEXT_LIMIT, 8);
}

#[test]
fn test_preview_cuts_long_content() {
    assert_eq!(preview("short"), "short");
    let exact = "x".repeat(80);
    assert_eq!(preview(&exact), exact);
    let long = "y".repeat(81);
    assert_eq!(preview(&long), format!("{}...", "y".repeat(80)));
    let wide = "é".repeat(50);
    assert_eq!(preview(&wide), format!("{}...", wide));
}
