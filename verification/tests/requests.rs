use mcp_memoria::dedup::{
    candidate_lookup, exact_lookup, similar_among, CANDIDATES_SQL, DEDUP_CANDIDATES,
    EXACT_LOOKUP_SQL,
};
use mcp_memoria::embedding::{
    cache_entry, cache_lookup, cached_answer, chunk_row, drop_chunks, f32_to_bytes, memory_vector,
    EmbeddingJob, CACHE_LOOKUP_SQL, CACHE_STORE_SQL, CHUNK_ROW_SQL, DROP_CHUNKS_SQL,
    MEMORY_VECTOR_SQL,
};
use mcp_memoria::ident::{compute_text_hash, session_memory_id};
use mcp_memoria::search::{
    embedded_answer, first_rows, lexical_answer, lexical_lookup, LexicalRow, LEXICAL_SQL,
};
use mcp_memoria::session::{
    build_session_content, row_found, session_lookup, session_tags, session_write, written_id,
    SessionData, SESSION_INSERT_SQL, SESSION_LOOKUP_SQL, SESSION_UPDATE_SQL,
};
use mcp_memoria::sql::{settled, MemoryError, SqlParam, SqlRow, SqlValue, Statement};
use mcp_memoria::storage::{
    copy_record, histogram_answer, init_db, list_memories, listed_answer, listing, opened,
    pending_answer, save_memory, select_listed, MemoryRecord, LIST_BY_TYPE_SQL, LIST_SQL,
};

fn text(s: &str) -> SqlValue {
    SqlValue::Text(s.to_string())
}

fn cells(id: &str, mem_type: &str) -> Vec<SqlValue> {
    vec![text(id), text(mem_type), text("content"), SqlValue::Null, SqlValue::Null]
}

fn record(id: &str, mem_type: &str) -> MemoryRecord {
    MemoryRecord {
        id: id.to_string(),
        mem_type: mem_type.to_string(),
        content: String::new(),
        tags: String::new(),
        created_at: String::new(),
    }
}

fn bound(st: &Statement) -> Vec<String> {
    st.params
        .iter()
        .map(|p| match p {
            SqlParam::Integer(n) => format!("i:{}", n),
            SqlParam::Text(t) => format!("t:{}", t),
            SqlParam::Blob(b) => format!("b:{:?}", b),
        })
        .collect()
}

fn failed() -> rusqlite::Error {
    rusqlite::Error::QueryReturnedNoRows
}

#[test]
fn test_statements_of_the_duplicate_lookup() {
    let exact = exact_lookup("some content", "note");
    assert_eq!(exact.sql, EXACT_LOOKUP_SQL);
    assert_eq!(bound(&exact), vec!["t:note", "t:some content"]);
    let candidates = candidate_lookup("the quick brown fox", "todo").unwrap();
    assert_eq!(candidates.sql, CANDIDATES_SQL);
    assert_eq!(
        bound(&candidates),
        vec![
            "t:todo".to_string(),
            "t:\"the\" OR \"quick\" OR \"brown\" OR \"fox\"".to_string(),
            format!("i:{}", DEDUP_CANDIDATES),
        ]
    );
    assert_eq!(DEDUP_CANDIDATES, 10);
    assert!(candidate_lookup("a bb c", "todo").is_none());
    assert!(candidate_lookup("", "todo").is_none());
}

#[test]
fn test_similar_among_reads_the_answer() {
    let rows: Vec<SqlRow> = vec![
        None,
        Some(vec![text("far"), text("nothing alike at all")]),
        Some(vec![text("near"), text("alpha beta gamma delta")]),
    ];
    let answer = || -> Result<Vec<SqlRow>, rusqlite::Error> {
        Ok(vec![
            None,
            Some(vec![text("far"), text("nothing alike at all")]),
            Some(vec![text("near"), text("alpha beta gamma delta")]),
        ])
    };
    assert_eq!(rows.len(), 3);
    assert_eq!(similar_among(answer(), "alpha beta gamma delta", 850_000_000), Some("near".to_string()));
    assert_eq!(similar_among(answer(), "unrelated words only", 850_000_000), None);
    assert_eq!(similar_among(Ok(Vec::new()), "alpha", 0), None);
    assert_eq!(similar_among(Err(failed()), "alpha beta gamma delta", 0), None);
}

#[test]
fn test_statement_of_the_lexical_search() {
    let st = lexical_lookup("  auth   flow ", 5).unwrap();
    assert_eq!(st.sql, LEXICAL_SQL);
    assert_eq!(bound(&st), vec!["t:\"auth\" OR \"flow\"", "i:15"]);
    assert!(lexical_lookup(" \t ", 5).is_none());
    let huge = lexical_lookup("x", usize::MAX).unwrap();
    assert_eq!(bound(&huge)[1], format!("i:{}", i64::MAX));
}

#[test]
fn test_lexical_answer_is_capped() {
    let row = |id: &str| -> SqlRow {
        let mut c = cells(id, "note");
        c.push(SqlValue::Real((-1.0f64).to_bits()));
        Some(c)
    };
    let rows: Vec<SqlRow> =
        vec![row("a"), None, row("b"), Some(cells("no-score", "note")), row("c"), row("d")];
    let found = lexical_answer(Ok(rows), 1);
    let ids: Vec<&str> = found.iter().map(|r| r.row.id.as_str()).collect();
    assert_eq!(ids, vec!["a", "b", "c"]);
    assert!(lexical_answer(Ok(vec![row("a")]), 0).is_empty());
    assert_eq!(lexical_answer(Ok(vec![row("a")]), usize::MAX).len(), 1);
    assert!(lexical_answer(Err(failed()), 5).is_empty());
    let two = vec![
        LexicalRow { row: record("x", "note"), bm25_bits: 0 },
        LexicalRow { row: record("y", "note"), bm25_bits: 0 },
    ];
    assert_eq!(first_rows(two, 1).len(), 1);
}

#[test]
fn test_embedded_and_cached_answers() {
    let mut with_vector = cells("m", "note");
    with_vector.push(SqlValue::Blob(vec![0, 0, 0x80, 0x3f]));
    let found = embedded_answer(Ok(vec![Some(cells("plain", "note")), Some(with_vector)]));
    assert_eq!(found.len(), 1);
    assert_eq!(found[0].embedding, vec![1.0f32.to_bits()]);
    assert!(embedded_answer(Err(failed())).is_empty());
    assert_eq!(
        cached_answer(Ok(vec![Some(vec![SqlValue::Blob(vec![0, 0, 0, 0x40])])])),
        Some(vec![2.0f32.to_bits()])
    );
    assert_eq!(cached_answer(Ok(Vec::new())), None);
    assert_eq!(cached_answer(Err(failed())), None);
}

#[test]
fn test_statements_of_the_cache_and_the_worker() {
    let job = EmbeddingJob {
        db_path: "/db".to_string(),
        record_id: "abc".to_string(),
        content: "content".to_string(),
    };
    let vector = vec![1.0f32.to_bits(), 2.0f32.to_bits()];
    let blob = format!("b:{:?}", f32_to_bytes(&vector));
    let key = format!("t:{}", compute_text_hash("hello", "m"));
    let lookup = cache_lookup("hello", "m");
    assert_eq!(lookup.sql, CACHE_LOOKUP_SQL);
    assert_eq!(bound(&lookup), vec![key.clone(), "t:m".to_string()]);
    let entry = cache_entry("hello", "m", &vector);
    assert_eq!(entry.sql, CACHE_STORE_SQL);
    assert_eq!(bound(&entry), vec![key, "t:m".to_string(), blob.clone()]);
    let write = memory_vector(&job, &vector);
    assert_eq!(write.sql, MEMORY_VECTOR_SQL);
    assert_eq!(bound(&write), vec![blob.clone(), "t:abc".to_string()]);
    let clear = drop_chunks(&job);
    assert_eq!(clear.sql, DROP_CHUNKS_SQL);
    assert_eq!(bound(&clear), vec!["t:abc"]);
    let chunk = chunk_row(&job, 12, "chunk text", &vector);
    assert_eq!(chunk.sql, CHUNK_ROW_SQL);
    assert_eq!(
        bound(&chunk),
        vec!["t:abc_c12".to_string(), "t:abc".to_string(), "i:12".to_string(), "t:chunk text".to_string(), blob]
    );
}

#[test]
fn test_listing_statement_and_selection() {
    let all = listing(None, 7);
    assert_eq!(all.sql, LIST_SQL);
    assert_eq!(bound(&all), vec!["i:7"]);
    let typed = listing(Some("todo"), -1);
    assert_eq!(typed.sql, LIST_BY_TYPE_SQL);
    assert_eq!(bound(&typed), vec!["t:todo", "i:-1"]);
    let recs = vec![record("a", "note"), record("b", "todo"), record("c", "note"), record("d", "note")];
    let ids = |v: Vec<MemoryRecord>| -> Vec<String> { v.into_iter().map(|r| r.id).collect() };
    assert_eq!(ids(select_listed(&recs, None, 10)), vec!["a", "b", "c", "d"]);
    assert_eq!(ids(select_listed(&recs, Some("note"), 10)), vec!["a", "c", "d"]);
    assert_eq!(ids(select_listed(&recs, Some("note"), 2)), vec!["a", "c"]);
    assert_eq!(ids(select_listed(&recs, None, 0)), Vec::<String>::new());
    assert_eq!(ids(select_listed(&recs, None, -5)), vec!["a", "b", "c", "d"]);
    assert_eq!(ids(select_listed(&recs, Some("none"), 10)), Vec::<String>::new());
    assert_eq!(copy_record(&recs[1]).mem_type, "todo");
}

#[test]
fn test_listed_answer_and_list_memories() {
    let rows: Vec<SqlRow> = vec![Some(cells("a", "note")), Some(cells("b", "todo"))];
    let listed = listed_answer(Ok(rows), Some("todo"), 5).ok().unwrap();
    assert_eq!(listed.len(), 1);
    assert_eq!(listed[0].id, "b");
    assert!(matches!(listed_answer(Ok(vec![None]), None, 5), Err(MemoryError::Store(_))));
    assert!(matches!(listed_answer(Err(failed()), None, 5), Err(MemoryError::Store(_))));
    let conn = init_db(":memory:").ok().unwrap();
    for i in 0..5 {
        save_memory(&conn, "note", &format!("entry number {} is unlike the rest {}", i, i * 7919), "")
            .ok()
            .unwrap();
    }
    save_memory(&conn, "todo", "water the plants", "").ok().unwrap();
    let notes = list_memories(&conn, Some("note"), 3).ok().unwrap();
    assert_eq!(notes.len(), 3);
    assert!(notes.iter().all(|m| m.mem_type == "note"));
    assert_eq!(list_memories(&conn, None, 100).ok().unwrap().len(), 6);
    assert_eq!(list_memories(&conn, None, -1).ok().unwrap().len(), 6);
    assert_eq!(list_memories(&conn, Some("todo"), 100).ok().unwrap().len(), 1);
}

#[test]
fn test_answers_of_stats_and_reindex() {
    let histogram: Vec<SqlRow> = vec![Some(vec![text("note"), SqlValue::Integer(2)]), None];
    assert_eq!(histogram_answer(Ok(histogram)), vec![("note".to_string(), 2)]);
    assert!(histogram_answer(Err(failed())).is_empty());
    let rows: Vec<SqlRow> = vec![Some(vec![text("id"), text("content")]), Some(vec![text("x")])];
    assert_eq!(
        pending_answer(Ok(rows)).ok().unwrap(),
        vec![("id".to_string(), "content".to_string())]
    );
    assert!(matches!(pending_answer(Err(failed())), Err(MemoryError::Store(_))));
}

#[test]
fn test_settled_and_opened() {
    assert!(settled(Ok::<usize, rusqlite::Error>(3)).is_ok());
    assert!(matches!(settled(Err::<usize, rusqlite::Error>(failed())), Err(MemoryError::Store(_))));
    let conn = || rusqlite::Connection::open_in_memory().unwrap();
    let bad = |m: &str| -> Result<(), MemoryError> { Err(MemoryError::Store(m.to_string())) };
    assert!(opened(conn(), Ok(()), Ok(()), Ok(())).is_ok());
    match opened(conn(), Ok(()), bad("tables"), bad("index")) {
        Err(MemoryError::Store(m)) => assert_eq!(m, "tables"),
        _ => panic!("the first failure is reported"),
    }
    match opened(conn(), bad("pragmas"), Ok(()), Ok(())) {
        Err(MemoryError::Store(m)) => assert_eq!(m, "pragmas"),
        _ => panic!("the first failure is reported"),
    }
    match opened(conn(), Ok(()), Ok(()), bad("index")) {
        Err(MemoryError::Store(m)) => assert_eq!(m, "index"),
        _ => panic!("the first failure is reported"),
    }
    assert!(matches!(init_db("/nonexistent-dir/sub/x.db"), Err(MemoryError::Store(_))));
}

#[test]
fn test_statements_of_the_session_memory() {
    let session = SessionData {
        turns: Vec::new(),
        session_id: "s".to_string(),
        project: "proj".to_string(),
        tools: Vec::new(),
        files: Vec::new(),
    };
    let id = session_memory_id("s");
    let lookup = session_lookup(&id);
    assert_eq!(lookup.sql, SESSION_LOOKUP_SQL);
    assert_eq!(bound(&lookup), vec![format!("t:{}", id)]);
    let content = format!("t:{}", build_session_content(&session));
    let tags = format!("t:{}", session_tags("cli", "proj"));
    let update = session_write(&session, "cli", &id, true);
    assert_eq!(update.sql, SESSION_UPDATE_SQL);
    assert_eq!(bound(&update), vec![content.clone(), tags.clone(), format!("t:{}", id)]);
    let insert = session_write(&session, "cli", &id, false);
    assert_eq!(insert.sql, SESSION_INSERT_SQL);
    assert_eq!(bound(&insert), vec![format!("t:{}", id), content, tags]);
    assert!(row_found(&Ok(vec![None])));
    assert!(!row_found(&Ok(Vec::new())));
    assert!(!row_found(&Err(failed())));
    assert_eq!(written_id(Ok(1), "x".to_string()), Some("x".to_string()));
    assert_eq!(written_id(Err(failed()), "x".to_string()), None);
}
