use mcp_memoria::dedup::{after_exact, find_duplicate, Lookup};
use mcp_memoria::embedding::{
    begin_write, commit_write, f32_to_bytes, job_statements, job_tasks, store_job_vectors,
    store_task_vector, task_statements, undo_write, EmbeddingJob, EmbeddingTask, Target,
    BEGIN_SQL, CHUNK_ROW_SQL, COMMIT_SQL, DROP_CHUNKS_SQL, MEMORY_VECTOR_SQL, ROLLBACK_SQL,
};
use mcp_memoria::search::{chunk_vectors, memory_vectors, CHUNK_VECTORS_SQL, MEMORY_VECTORS_SQL};
use mcp_memoria::sql::{
    run_all, statement_0, statement_4, MemoryError, SqlParam, SqlRow, SqlValue, Statement,
};
use mcp_memoria::storage::{
    count_cache, count_chunks, count_indexed, count_memories, delete_memory, delete_statement,
    deleted_answer, get_stats, histogram, index_batch, init_db, insert_statement, pragmas_batch,
    rebuild, save_memory, save_outcome, save_statement, stats_of, tables_batch, unindexed,
    update_statement, vacuum, SaveAction, COUNT_CACHE_SQL, COUNT_CHUNKS_SQL, COUNT_INDEXED_SQL,
    COUNT_MEMORIES_SQL, DELETE_SQL, HISTOGRAM_SQL, INDEX_SQL, INSERT_SQL, PRAGMAS_SQL,
    REBUILD_SQL, TABLES_SQL, UNINDEXED_SQL, UPDATE_SQL, VACUUM_SQL,
};
use mcp_memoria::text::split_whitespace;

fn text(s: &str) -> SqlValue {
    SqlValue::Text(s.to_string())
}

fn bound(st: &Statement) -> Vec<String> {
    st.params
        .iter()
        .map(|p| match p {
            SqlParam::Integer(n) => format!("i:{}", n),
            SqlParam::Text(t) => format!("t:{}", t),
            SqlParam::Blob(b) => format!("b:{:?}", b),
        })
        .collect()
}

fn failed() -> rusqlite::Error {
    rusqlite::Error::QueryReturnedNoRows
}

fn job(id: &str, content: &str) -> EmbeddingJob {
    EmbeddingJob { db_path: ":memory:".to_string(), record_id: id.to_string(), content: content.to_string() }
}

fn count(conn: &rusqlite::Connection, sql: &str) -> i64 {
    conn.query_row(sql, [], |r| r.get(0)).unwrap()
}

#[test]
fn test_steps_after_the_exact_lookup() {
    match after_exact(Ok(vec![Some(vec![text("id1")]), Some(vec![text("id2")])])) {
        Lookup::Found(id) => assert_eq!(id, "id1"),
        _ => panic!("the first row holds the duplicate"),
    }
    assert!(matches!(after_exact(Ok(Vec::new())), Lookup::Narrow));
    assert!(matches!(after_exact(Ok(vec![None])), Lookup::Narrow));
    assert!(matches!(after_exact(Ok(vec![Some(vec![SqlValue::Null])])), Lookup::Narrow));
    assert!(matches!(after_exact(Err(failed())), Lookup::GiveUp));
}

#[test]
fn test_exact_match_wins_over_similar() {
    let conn = init_db(":memory:").ok().unwrap();
    let near = save_memory(&conn, "note", "alpha beta gamma delta epsilon zeta eta", "").ok().unwrap();
    let found = find_duplicate(&conn, "alpha beta gamma delta epsilon zeta eta theta", "note", 850_000_000);
    assert_eq!(found, Some(near.id.clone()));
    conn.execute(
        "INSERT INTO memories (id, type, content) VALUES ('exact', 'note', 'alpha beta gamma delta epsilon zeta eta theta')",
        [],
    )
    .unwrap();
    let found = find_duplicate(&conn, "alpha beta gamma delta epsilon zeta eta theta", "note", 850_000_000);
    assert_eq!(found, Some("exact".to_string()));
    assert_eq!(find_duplicate(&conn, "alpha beta gamma delta epsilon zeta eta theta", "todo", 850_000_000), None);
    let bare = rusqlite::Connection::open_in_memory().unwrap();
    assert_eq!(find_duplicate(&bare, "alpha beta gamma", "note", 0), None);
}

#[test]
fn test_statements_of_a_save() {
    let update = update_statement("id1", "content", "tags");
    assert_eq!(update.sql, UPDATE_SQL);
    assert_eq!(bound(&update), vec!["t:content", "t:tags", "t:id1"]);
    let insert = insert_statement("id2", "note", "content", "tags");
    assert_eq!(insert.sql, INSERT_SQL);
    assert_eq!(bound(&insert), vec!["t:id2", "t:note", "t:content", "t:tags"]);
    let chosen = save_statement(&SaveAction::Update("dup".to_string()), "fresh", "note", "c", "t");
    assert_eq!(chosen.sql, UPDATE_SQL);
    assert_eq!(bound(&chosen), vec!["t:c", "t:t", "t:dup"]);
    let chosen = save_statement(&SaveAction::Insert, "fresh", "note", "c", "t");
    assert_eq!(chosen.sql, INSERT_SQL);
    assert_eq!(bound(&chosen), vec!["t:fresh", "t:note", "t:c", "t:t"]);
    assert!(UPDATE_SQL.contains("embedding = NULL"));
    assert!(UPDATE_SQL.contains("updated_at = datetime('now')"));
}

#[test]
fn test_outcome_of_a_save() {
    let updated = save_outcome(SaveAction::Update("dup".to_string()), "fresh".to_string(), Ok(1))
        .ok()
        .unwrap();
    assert_eq!((updated.id.as_str(), updated.dedup.as_str()), ("dup", "updated"));
    let new = save_outcome(SaveAction::Insert, "fresh".to_string(), Ok(1)).ok().unwrap();
    assert_eq!((new.id.as_str(), new.dedup.as_str()), ("fresh", "new"));
    assert!(matches!(
        save_outcome(SaveAction::Insert, "fresh".to_string(), Err(failed())),
        Err(MemoryError::Store(_))
    ));
    assert!(matches!(
        save_outcome(SaveAction::Update("dup".to_string()), String::new(), Err(failed())),
        Err(MemoryError::Store(_))
    ));
}

#[test]
fn test_update_keeps_id_and_creation_time() {
    let conn = init_db(":memory:").ok().unwrap();
    let first = save_memory(&conn, "decision", "Use SQLite for persistence", "old").ok().unwrap();
    let created: String = conn
        .query_row("SELECT created_at FROM memories WHERE id = ?", [&first.id], |r| r.get(0))
        .unwrap();
    let second = save_memory(&conn, "decision", "Use SQLite for persistence", "new-tags").ok().unwrap();
    assert_eq!((second.id.as_str(), second.dedup.as_str()), (first.id.as_str(), "updated"));
    let (tags, created_after, updated): (String, String, String) = conn
        .query_row(
            "SELECT tags, created_at, updated_at FROM memories WHERE id = ?",
            [&first.id],
            |r| Ok((r.get(0)?, r.get(1)?, r.get(2)?)),
        )
        .unwrap();
    assert_eq!(tags, "new-tags");
    assert_eq!(created_after, created);
    assert!(updated >= created);
    assert_eq!(count(&conn, "SELECT COUNT(*) FROM memories"), 1);
    assert_eq!(count(&conn, "SELECT COUNT(*) FROM memories_fts WHERE memories_fts MATCH 'sqlite'"), 1);
}

#[test]
fn test_delete_statement_and_answer() {
    let st = delete_statement("id9");
    assert_eq!(st.sql, DELETE_SQL);
    assert_eq!(bound(&st), vec!["t:id9"]);
    assert_eq!(deleted_answer(Ok(1)).ok(), Some(true));
    assert_eq!(deleted_answer(Ok(3)).ok(), Some(true));
    assert_eq!(deleted_answer(Ok(0)).ok(), Some(false));
    assert!(matches!(deleted_answer(Err(failed())), Err(MemoryError::Store(_))));
    let bare = rusqlite::Connection::open_in_memory().unwrap();
    assert!(matches!(delete_memory(&bare, "id9"), Err(MemoryError::Store(_))));
    assert!(matches!(delete_memory(&bare, ""), Err(MemoryError::InvalidInput)));
}

#[test]
fn test_stats_of_five_answers() {
    let one = |n: i64| -> Result<Vec<SqlRow>, rusqlite::Error> { Ok(vec![Some(vec![SqlValue::Integer(n)])]) };
    let types: Result<Vec<SqlRow>, rusqlite::Error> =
        Ok(vec![Some(vec![text("note"), SqlValue::Integer(4)]), Some(vec![text("todo"), SqlValue::Integer(1)])]);
    let stats = stats_of(&one(5), &one(3), &one(7), &Err(failed()), types);
    assert_eq!((stats.total, stats.indexed, stats.chunks, stats.cache_entries), (5, 3, 7, 0));
    assert_eq!(stats.by_type, vec![("note".to_string(), 4), ("todo".to_string(), 1)]);
    let none = stats_of(&Err(failed()), &Ok(Vec::new()), &one(0), &one(2), Err(failed()));
    assert_eq!((none.total, none.indexed, none.chunks, none.cache_entries), (0, 0, 0, 2));
    assert!(none.by_type.is_empty());
    let conn = init_db(":memory:").ok().unwrap();
    save_memory(&conn, "note", "a memory to count", "").ok().unwrap();
    let live = get_stats(&conn);
    assert_eq!((live.total, live.indexed, live.chunks, live.cache_entries), (1, 0, 0, 0));
    assert_eq!(live.by_type, vec![("note".to_string(), 1)]);
}

#[test]
fn test_statements_without_values() {
    let all: Vec<(Statement, &str)> = vec![
        (count_memories(), COUNT_MEMORIES_SQL),
        (count_indexed(), COUNT_INDEXED_SQL),
        (count_chunks(), COUNT_CHUNKS_SQL),
        (count_cache(), COUNT_CACHE_SQL),
        (histogram(), HISTOGRAM_SQL),
        (unindexed(), UNINDEXED_SQL),
        (rebuild(), REBUILD_SQL),
        (vacuum(), VACUUM_SQL),
        (pragmas_batch(), PRAGMAS_SQL),
        (tables_batch(), TABLES_SQL),
        (index_batch(), INDEX_SQL),
        (memory_vectors(), MEMORY_VECTORS_SQL),
        (chunk_vectors(), CHUNK_VECTORS_SQL),
        (begin_write(), BEGIN_SQL),
        (commit_write(), COMMIT_SQL),
        (undo_write(), ROLLBACK_SQL),
    ];
    for (st, sql) in &all {
        assert_eq!(st.sql, *sql);
        assert!(st.params.is_empty());
    }
    assert!(PRAGMAS_SQL.contains("foreign_keys=ON"));
    assert!(TABLES_SQL.contains("ON DELETE CASCADE"));
    assert!(INDEX_SQL.contains("AFTER DELETE ON memories"));
    assert_eq!(statement_0("X").sql, "X");
    let four = statement_4(
        "Y",
        SqlParam::Integer(1),
        SqlParam::Text("b".to_string()),
        SqlParam::Blob(vec![3]),
        SqlParam::Integer(4),
    );
    assert_eq!(bound(&four), vec!["i:1", "t:b", "b:[3]", "i:4"]);
}

#[test]
fn test_statements_of_a_task() {
    let j = job("abc", "content");
    let vector = vec![1.0f32.to_bits()];
    let blob = format!("b:{:?}", f32_to_bytes(&vector));
    let plain = EmbeddingTask { text: "content".to_string(), target: Target::Memory { chunked: false } };
    let sts = task_statements(&j, &plain, &vector);
    assert_eq!(sts.len(), 1);
    assert_eq!(sts[0].sql, MEMORY_VECTOR_SQL);
    assert_eq!(bound(&sts[0]), vec![blob.clone(), "t:abc".to_string()]);
    let chunked = EmbeddingTask { text: "content".to_string(), target: Target::Memory { chunked: true } };
    let sts = task_statements(&j, &chunked, &vector);
    assert_eq!(sts.len(), 2);
    assert_eq!(sts[0].sql, MEMORY_VECTOR_SQL);
    assert_eq!(sts[1].sql, DROP_CHUNKS_SQL);
    assert_eq!(bound(&sts[1]), vec!["t:abc"]);
    let chunk = EmbeddingTask { text: "part".to_string(), target: Target::Chunk(3) };
    let sts = task_statements(&j, &chunk, &vector);
    assert_eq!(sts.len(), 1);
    assert_eq!(sts[0].sql, CHUNK_ROW_SQL);
    assert_eq!(
        bound(&sts[0]),
        vec!["t:abc_c3".to_string(), "t:abc".to_string(), "i:3".to_string(), "t:part".to_string(), blob]
    );
}

#[test]
fn test_job_is_one_logical_write() {
    let conn = init_db(":memory:").ok().unwrap();
    let words: Vec<String> = (0..500).map(|i| format!("w{}", i)).collect();
    let content = words.join(" ");
    let saved = save_memory(&conn, "note", &content, "").ok().unwrap();
    let j = job(&saved.id, &content);
    let tasks = job_tasks(&j);
    assert_eq!(tasks.len(), 3);
    let vectors: Vec<Vec<u32>> = (0..3).map(|i| vec![(i as f32).to_bits()]).collect();
    let sts = job_statements(&j, &tasks, &vectors);
    let texts: Vec<&str> = sts.iter().map(|s| s.sql).collect();
    assert_eq!(texts, vec![MEMORY_VECTOR_SQL, DROP_CHUNKS_SQL, CHUNK_ROW_SQL, CHUNK_ROW_SQL]);
    conn.execute(
        "INSERT INTO memory_chunks (id, memory_id, chunk_index, chunk_text) VALUES ('old', ?1, 9, 'stale')",
        [&saved.id],
    )
    .unwrap();
    assert!(store_job_vectors(&conn, &j, &tasks, &vectors).is_ok());
    assert_eq!(count(&conn, "SELECT COUNT(*) FROM memory_chunks"), 2);
    assert_eq!(count(&conn, "SELECT COUNT(*) FROM memory_chunks WHERE id = 'old'"), 0);
    assert_eq!(count(&conn, "SELECT COUNT(*) FROM memories WHERE embedding IS NOT NULL"), 1);
    assert!(matches!(
        store_job_vectors(&conn, &j, &tasks, &vectors[..2].to_vec()),
        Err(MemoryError::InvalidInput)
    ));
}

#[test]
fn test_failed_job_leaves_nothing_behind() {
    let conn = init_db(":memory:").ok().unwrap();
    let words: Vec<String> = (0..500).map(|i| format!("w{}", i)).collect();
    let content = words.join(" ");
    let saved = save_memory(&conn, "note", &content, "").ok().unwrap();
    conn.execute(
        "INSERT INTO memory_chunks (id, memory_id, chunk_index, chunk_text) VALUES ('old', ?1, 0, 'kept')",
        [&saved.id],
    )
    .unwrap();
    conn.execute_batch(
        "CREATE TRIGGER refuse_chunks BEFORE INSERT ON memory_chunks BEGIN SELECT RAISE(ABORT, 'refused'); END;",
    )
    .unwrap();
    let j = job(&saved.id, &content);
    let tasks = job_tasks(&j);
    let vectors: Vec<Vec<u32>> = (0..3).map(|i| vec![(i as f32).to_bits()]).collect();
    assert!(matches!(store_job_vectors(&conn, &j, &tasks, &vectors), Err(MemoryError::Store(_))));
    assert_eq!(count(&conn, "SELECT COUNT(*) FROM memories WHERE embedding IS NOT NULL"), 0);
    assert_eq!(count(&conn, "SELECT COUNT(*) FROM memory_chunks WHERE id = 'old'"), 1);
    assert!(store_task_vector(&conn, &j, &tasks[0], &vectors[0]).is_ok());
    assert_eq!(count(&conn, "SELECT COUNT(*) FROM memory_chunks"), 0);
    assert!(matches!(store_task_vector(&conn, &j, &tasks[1], &vectors[1]), Err(MemoryError::Store(_))));
}

#[test]
fn test_run_all_stops_at_the_first_failure() {
    let conn = init_db(":memory:").ok().unwrap();
    assert!(run_all(&conn, &Vec::new()).is_ok());
    let good = || insert_statement("a", "note", "content", "");
    let bad = || statement_0("INSERT INTO nowhere VALUES (1)");
    let later = || insert_statement("b", "note", "more content", "");
    assert!(matches!(run_all(&conn, &vec![good(), bad(), later()]), Err(MemoryError::Store(_))));
    assert_eq!(count(&conn, "SELECT COUNT(*) FROM memories"), 1);
    assert!(run_all(&conn, &vec![later()]).is_ok());
    assert_eq!(count(&conn, "SELECT COUNT(*) FROM memories"), 2);
}

#[test]
fn test_whitespace_is_the_unicode_property() {
    let spaces = [
        '\u{0009}', '\u{000A}', '\u{000B}', '\u{000C}', '\u{000D}', '\u{0020}', '\u{0085}',
        '\u{00A0}', '\u{1680}', '\u{2000}', '\u{2001}', '\u{2002}', '\u{2003}', '\u{2004}',
        '\u{2005}', '\u{2006}', '\u{2007}', '\u{2008}', '\u{2009}', '\u{200A}', '\u{2028}',
        '\u{2029}', '\u{202F}', '\u{205F}', '\u{3000}',
    ];
    assert_eq!(spaces.len(), 25);
    let mut found = 0;
    for n in 0..=0x10FFFFu32 {
        if let Some(c) = char::from_u32(n) {
            if c.is_whitespace() {
                found += 1;
                assert!(spaces.contains(&c), "U+{:04X}", n);
            }
        }
    }
    assert_eq!(found, 25);
    for c in spaces {
        assert_eq!(split_whitespace(&format!("a{}b", c)), vec!["a", "b"]);
    }
    for c in ['a', '\u{200B}', '\u{180E}', '\u{FEFF}', '_'] {
        assert_eq!(split_whitespace(&format!("a{}b", c)).len(), 1);
    }
}
