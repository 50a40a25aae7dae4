use mcp_memoria::embedding::{
    bytes_to_f32, f32_to_bytes, get_cached_embedding, job_tasks, model_name,
    store_cached_embedding, store_task_vector, EmbeddingJob, Target, CHUNK_OVERLAP, CHUNK_SIZE,
    QUEUE_CAPACITY,
};
use mcp_memoria::ident::compute_text_hash;
use mcp_memoria::storage::{get_stats, get_unindexed_memories, init_db, save_memory};

fn job(id: &str, content: &str) -> EmbeddingJob {
    EmbeddingJob { db_path: ":memory:".to_string(), record_id: id.to_string(), content: content.to_string() }
}

fn stub_embed(text: &str) -> Vec<u32> {
    let n = text.len() as f32;
    vec![n.to_bits(), (n / 2.0).to_bits(), (-n).to_bits()]
}

#[test]
fn test_worker_constants() {
    assert_eq!(CHUNK_SIZE, 400);
    assert_eq!(CHUNK_OVERLAP, 80);
    assert_eq!(QUEUE_CAPACITY, 256);
    assert_eq!(model_name(), "all-MiniLM-L6-v2");
}

#[test]
fn test_short_job_has_one_task() {
    let tasks = job_tasks(&job("m1", "a short memory"));
    assert_eq!(tasks.len(), 1);
    assert_eq!(tasks[0].text, "a short memory");
    assert_eq!(tasks[0].target, Target::Memory { chunked: false });
}

#[test]
fn test_long_job_has_a_task_per_chunk() {
    let words: Vec<String> = (0..900).map(|i| format!("w{}", i)).collect();
    let content = words.join(" ");
    let tasks = job_tasks(&job("m1", &content));
    assert_eq!(tasks.len(), 4);
    assert_eq!(tasks[0].text, content);
    assert_eq!(tasks[0].target, Target::Memory { chunked: true });
    assert_eq!(tasks[1].target, Target::Chunk(0));
    assert_eq!(tasks[2].target, Target::Chunk(1));
    assert_eq!(tasks[3].target, Target::Chunk(2));
    assert!(tasks[1].text.starts_with("w0 w1 "));
    assert!(tasks[2].text.starts_with("w320 "));
    assert!(tasks[3].text.starts_with("w640 "));
    assert!(tasks[3].text.ends_with(" w899"));
}

#[test]
fn test_cache_round_trip() {
    let conn = init_db(":memory:").ok().unwrap();
    assert_eq!(get_cached_embedding(&conn, "hello", "m"), None);
    let v = stub_embed("hello");
    assert!(store_cached_embedding(&conn, "hello", "m", &v));
    assert_eq!(get_cached_embedding(&conn, "hello", "m"), Some(v.clone()));
    assert_eq!(get_cached_embedding(&conn, "hello", "other-model"), None);
    assert_eq!(get_cached_embedding(&conn, "hullo", "m"), None);
    let replaced = stub_embed("something longer");
    assert!(store_cached_embedding(&conn, "hello", "m", &replaced));
    assert_eq!(get_cached_embedding(&conn, "hello", "m"), Some(replaced));
    assert_eq!(get_stats(&conn).cache_entries, 1);
    let key: String = conn
        .query_row("SELECT text_hash FROM embedding_cache", [], |r| r.get(0))
        .unwrap();
    assert_eq!(key, compute_text_hash("hello", "m"));
}

#[test]
fn test_cache_failure_is_not_an_error() {
    let conn = rusqlite::Connection::open_in_memory().unwrap();
    assert!(!store_cached_embedding(&conn, "hello", "m", &stub_embed("hello")));
    assert_eq!(get_cached_embedding(&conn, "hello", "m"), None);
}

fn run_job(conn: &rusqlite::Connection, job: &EmbeddingJob) {
    for task in job_tasks(job) {
        let vector = match get_cached_embedding(conn, &task.text, model_name()) {
            Some(v) => v,
            None => {
                let v = stub_embed(&task.text);
                store_cached_embedding(conn, &task.text, model_name(), &v);
                v
            }
        };
        assert!(store_task_vector(conn, job, &task, &vector).is_ok());
    }
}

#[test]
fn test_job_fills_memory_and_chunks() {
    let conn = init_db(":memory:").ok().unwrap();
    let words: Vec<String> = (0..500).map(|i| format!("w{}", i)).collect();
    let content = words.join(" ");
    let saved = save_memory(&conn, "note", &content, "").ok().unwrap();
    assert_eq!(get_unindexed_memories(&conn).ok().unwrap().len(), 1);
    let the_job = job(&saved.id, &content);
    run_job(&conn, &the_job);
    let stats = get_stats(&conn);
    assert_eq!(stats.indexed, 1);
    assert_eq!(stats.chunks, 2);
    assert_eq!(stats.cache_entries, 3);
    assert!(get_unindexed_memories(&conn).ok().unwrap().is_empty());
    let ids: Vec<String> = {
        let mut stmt = conn.prepare("SELECT id FROM memory_chunks ORDER BY chunk_index").unwrap();
        let rows = stmt.query_map([], |r| r.get(0)).unwrap();
        rows.map(|r| r.unwrap()).collect()
    };
    assert_eq!(ids, vec![format!("{}_c0", saved.id), format!("{}_c1", saved.id)]);
    run_job(&conn, &the_job);
    assert_eq!(get_stats(&conn).chunks, 2);
}

#[test]
fn test_wiping_the_cache_gives_the_same_blob() {
    let conn = init_db(":memory:").ok().unwrap();
    let saved = save_memory(&conn, "note", "cache transparency", "").ok().unwrap();
    let the_job = job(&saved.id, "cache transparency");
    let blob_of = |conn: &rusqlite::Connection| -> Vec<u8> {
        conn.query_row("SELECT embedding FROM memories WHERE id = ?", [&saved.id], |r| r.get(0))
            .unwrap()
    };
    run_job(&conn, &the_job);
    let first = blob_of(&conn);
    run_job(&conn, &the_job);
    let from_cache = blob_of(&conn);
    conn.execute("DELETE FROM embedding_cache", []).unwrap();
    run_job(&conn, &the_job);
    let recomputed = blob_of(&conn);
    assert_eq!(first, from_cache);
    assert_eq!(first, recomputed);
    assert_eq!(bytes_to_f32(&first), stub_embed("cache transparency"));
    assert_eq!(f32_to_bytes(&stub_embed("cache transparency")), first);
}
