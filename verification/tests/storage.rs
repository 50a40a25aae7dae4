use mcp_memoria::dedup::find_duplicate;
use mcp_memoria::storage::{
    compact_db, delete_memory, get_stats, get_unindexed_memories, init_db, list_memories,
    resolve_scope_dbs, save_memory, MemoryPaths,
};
use mcp_memoria::sql::MemoryError;

fn count(conn: &rusqlite::Connection, sql: &str, id: &str) -> i64 {
    conn.query_row(sql, [id], |r| r.get(0)).unwrap()
}

#[test]
fn test_save_new_then_list() {
    let conn = init_db(":memory:").ok().unwrap();
    let saved = save_memory(&conn, "note", "remember the milk", "home").ok().unwrap();
    assert_eq!(saved.dedup, "new");
    assert_eq!(saved.id.len(), 16);
    assert!(saved.id.chars().all(|c| c.is_ascii_hexdigit() && !c.is_ascii_uppercase()));
    let listed = list_memories(&conn, None, 10).ok().unwrap();
    assert_eq!(listed.len(), 1);
    assert_eq!(listed[0].id, saved.id);
    assert_eq!(listed[0].mem_type, "note");
    assert_eq!(listed[0].content, "remember the milk");
    assert_eq!(listed[0].tags, "home");
    assert!(!listed[0].created_at.is_empty());
}

#[test]
fn test_save_rejects_empty_content() {
    let conn = init_db(":memory:").ok().unwrap();
    let saved = save_memory(&conn, "note", "", "");
    assert!(matches!(saved, Err(MemoryError::InvalidInput)));
    assert_eq!(get_stats(&conn).total, 0);
}

#[test]
fn test_dedup_update_keeps_row_count() {
    let conn = init_db(":memory:").ok().unwrap();
    let first = save_memory(&conn, "decision", "Use SQLite for persistence", "").ok().unwrap();
    conn.execute("UPDATE memories SET embedding = x'0000803f' WHERE id = ?", [&first.id]).unwrap();
    assert_eq!(get_stats(&conn).indexed, 1);
    let second = save_memory(&conn, "decision", "Use SQLite for persistence", "db").ok().unwrap();
    assert_eq!(second.dedup, "updated");
    assert_eq!(second.id, first.id);
    let stats = get_stats(&conn);
    assert_eq!(stats.total, 1);
    assert_eq!(stats.indexed, 0);
    let pending = get_unindexed_memories(&conn).ok().unwrap();
    assert_eq!(pending, vec![(first.id.clone(), "Use SQLite for persistence".to_string())]);
    let listed = list_memories(&conn, Some("decision"), 10).ok().unwrap();
    assert_eq!(listed[0].tags, "db");
}

#[test]
fn test_save_twice_is_idempotent() {
    let conn = init_db(":memory:").ok().unwrap();
    let a = save_memory(&conn, "pattern", "prefer small functions", "").ok().unwrap();
    let b = save_memory(&conn, "pattern", "prefer small functions", "").ok().unwrap();
    assert_eq!(a.dedup, "new");
    assert_eq!(b.dedup, "updated");
    assert_eq!(get_stats(&conn).total, 1);
}

#[test]
fn test_conversation_bypasses_dedup() {
    let conn = init_db(":memory:").ok().unwrap();
    let a = save_memory(&conn, "conversation", "we talked about lifetimes", "").ok().unwrap();
    assert_eq!(get_stats(&conn).total, 1);
    let b = save_memory(&conn, "conversation", "we talked about lifetimes", "").ok().unwrap();
    assert_eq!(a.dedup, "new");
    assert_eq!(b.dedup, "new");
    assert_ne!(a.id, b.id);
    assert_eq!(get_stats(&conn).total, 2);
}

#[test]
fn test_near_duplicate_is_updated() {
    let conn = init_db(":memory:").ok().unwrap();
    let text = "alpha beta gamma delta epsilon zeta eta theta iota kappa";
    let a = save_memory(&conn, "note", text, "").ok().unwrap();
    let near = "alpha beta gamma delta epsilon zeta eta theta iota kappa lambda";
    let found = find_duplicate(&conn, near, "note", 850_000_000);
    assert_eq!(found, Some(a.id.clone()));
    let other_type = find_duplicate(&conn, near, "todo", 850_000_000);
    assert_eq!(other_type, None);
    let far = "alpha beta gamma one two three four five six seven";
    assert_eq!(find_duplicate(&conn, far, "note", 850_000_000), None);
}

#[test]
fn test_short_tokens_give_no_candidates() {
    let conn = init_db(":memory:").ok().unwrap();
    save_memory(&conn, "note", "a b c d", "").ok().unwrap();
    assert_eq!(find_duplicate(&conn, "a b c", "note", 1), None);
}

#[test]
fn test_delete_removes_every_trace() {
    let conn = init_db(":memory:").ok().unwrap();
    let saved = save_memory(&conn, "note", "ephemeral unicorn", "").ok().unwrap();
    conn.execute(
        "INSERT INTO memory_chunks (id, memory_id, chunk_index, chunk_text) VALUES (?1 || '_c0', ?1, 0, 'ephemeral')",
        [&saved.id],
    )
    .unwrap();
    assert_eq!(get_stats(&conn).chunks, 1);
    assert_eq!(delete_memory(&conn, &saved.id).ok(), Some(true));
    assert_eq!(count(&conn, "SELECT COUNT(*) FROM memories WHERE id = ?", &saved.id), 0);
    assert_eq!(count(&conn, "SELECT COUNT(*) FROM memory_chunks WHERE memory_id = ?", &saved.id), 0);
    assert_eq!(count(&conn, "SELECT COUNT(*) FROM memories_fts WHERE memories_fts MATCH ?", "unicorn"), 0);
    assert_eq!(delete_memory(&conn, &saved.id).ok(), Some(false));
    assert!(matches!(delete_memory(&conn, ""), Err(MemoryError::InvalidInput)));
}

#[test]
fn test_stats_histogram_and_compact() {
    let conn = init_db(":memory:").ok().unwrap();
    save_memory(&conn, "note", "first entirely distinct thing", "").ok().unwrap();
    save_memory(&conn, "note", "second wholly unrelated matter", "").ok().unwrap();
    save_memory(&conn, "todo", "water the plants tomorrow", "").ok().unwrap();
    let stats = get_stats(&conn);
    assert_eq!(stats.total, 3);
    assert_eq!(stats.indexed, 0);
    assert_eq!(stats.chunks, 0);
    assert_eq!(stats.cache_entries, 0);
    let mut by_type = stats.by_type.clone();
    by_type.sort();
    assert_eq!(by_type, vec![("note".to_string(), 2), ("todo".to_string(), 1)]);
    assert!(compact_db(&conn).is_ok());
    assert_eq!(get_stats(&conn).total, 3);
    let only = list_memories(&conn, Some("todo"), 10).ok().unwrap();
    assert_eq!(only.len(), 1);
    assert_eq!(list_memories(&conn, None, 2).ok().unwrap().len(), 2);
}

#[test]
fn test_scope_resolution() {
    let paths = MemoryPaths::new("/home/u");
    assert_eq!(paths.data_dir, "/home/u/.mcp-memoria/data");
    assert_eq!(paths.global_db, "/home/u/.mcp-memoria/data/global.db");
    assert_eq!(paths.personality_db, "/home/u/.mcp-memoria/data/personality.db");
    let names = |scope: &str, dir: Option<&str>| -> Vec<String> {
        resolve_scope_dbs(scope, &paths, dir).into_iter().map(|(n, _)| n).collect()
    };
    assert_eq!(names("global", Some("/p")), vec!["global"]);
    assert_eq!(names("personality", Some("/p")), vec!["personality"]);
    assert_eq!(names("project", Some("/p")), vec!["project"]);
    assert_eq!(names("project", None), Vec::<String>::new());
    assert_eq!(names("both", Some("/p")), vec!["global", "project"]);
    assert_eq!(names("both", None), vec!["global"]);
    assert_eq!(names("all", Some("/p")), vec!["global", "personality", "project"]);
    assert_eq!(names("all", None), vec!["global", "personality"]);
    assert_eq!(names("everything", Some("/p")), Vec::<String>::new());
    let both = resolve_scope_dbs("both", &paths, Some("/p"));
    assert_eq!(both[1].1, "/p/.mcp-memoria/project.db");
    assert_eq!(MemoryPaths::project_db_path(None), None);
}
