//! Embedding vectors as stored blobs, and the jobs that produce them.
//!
//! A vector is held as the sequence of the IEEE-754 bit patterns of its
//! 32-bit components. A blob is those patterns in little-endian byte order,
//! one after the other, with no header.

use vstd::prelude::*;
use crate::chunking::{chunk_text, chunks};
use vstd::utf8::encode_utf8;
use crate::ident::{cache_key_text, chunk_id, chunk_id_of, compute_text_hash, hex, sha256};
use crate::sql::{
    blob_at, blob_cell, run_all, run_batch, run_query, run_statement, settled, statement_0,
    statement_1, statement_2, statement_3, text_param, MemoryError, ParamView, SqlParam, SqlRow,
    Statement,
};

verus! {

/// Byte `k` (0 to 3, least significant first) of the pattern `x`.
pub open spec fn le_byte(x: u32, k: int) -> u8 {
    if k == 0 {
        (x % 256) as u8
    } else if k == 1 {
        (x / 256 % 256) as u8
    } else if k == 2 {
        (x / 65536 % 256) as u8
    } else {
        (x / 16777216) as u8
    }
}

/// The pattern whose little-endian bytes are `b0`, `b1`, `b2`, `b3`.
pub open spec fn le_word(b0: u8, b1: u8, b2: u8, b3: u8) -> u32 {
    (b0 + 256 * b1 + 65536 * b2 + 16777216 * b3) as u32
}

/// The blob of a vector: four bytes for each component, in order.
pub open spec fn encode(v: Seq<u32>) -> Seq<u8> {
    Seq::new(4 * v.len(), |i: int| le_byte(v[i / 4], i % 4))
}

/// The vector of a blob: one component for every four whole bytes. Up to
/// three bytes left over at the end are dropped.
pub open spec fn decode(bytes: Seq<u8>) -> Seq<u32> {
    Seq::new(
        bytes.len() / 4,
        |i: int| le_word(bytes[4 * i], bytes[4 * i + 1], bytes[4 * i + 2], bytes[4 * i + 3]),
    )
}

/// Decoding the blob of a vector gives the vector back, bit for bit.
pub proof fn lemma_decode_encode(v: Seq<u32>)
    ensures
        decode(encode(v)) == v,
{
    let bytes = encode(v);
    assert forall|i: int| 0 <= i < v.len() implies decode(bytes)[i] == v[i] by {
        let x = v[i];
        assert(bytes[4 * i] == le_byte(x, 0));
        assert(bytes[4 * i + 1] == le_byte(x, 1));
        assert(bytes[4 * i + 2] == le_byte(x, 2));
        assert(bytes[4 * i + 3] == le_byte(x, 3));
    }
    assert(decode(bytes) =~= v);
}

/// The bytes of a pattern put together from four bytes are those bytes.
proof fn lemma_bytes_of_word(b0: u8, b1: u8, b2: u8, b3: u8)
    ensures
        le_byte(le_word(b0, b1, b2, b3), 0) == b0,
        le_byte(le_word(b0, b1, b2, b3), 1) == b1,
        le_byte(le_word(b0, b1, b2, b3), 2) == b2,
        le_byte(le_word(b0, b1, b2, b3), 3) == b3,
{
    let w: int = b0 + 256 * b1 + 65536 * b2 + 16777216 * b3;
    let w1: int = b1 + 256 * b2 + 65536 * b3;
    let w2: int = b2 + 256 * b3;
    assert(w == le_word(b0, b1, b2, b3));
    vstd::arithmetic::div_mod::lemma_fundamental_div_mod_converse(w, 256, w1, b0 as int);
    vstd::arithmetic::div_mod::lemma_fundamental_div_mod_converse(w1, 256, w2, b1 as int);
    vstd::arithmetic::div_mod::lemma_fundamental_div_mod_converse(w, 65536, w2, b0 + 256 * b1);
    vstd::arithmetic::div_mod::lemma_fundamental_div_mod_converse(w2, 256, b3 as int, b2 as int);
    vstd::arithmetic::div_mod::lemma_fundamental_div_mod_converse(
        w,
        16777216,
        b3 as int,
        b0 + 256 * b1 + 65536 * b2,
    );
}

/// Encoding the vector of a blob gives back the whole four-byte groups of
/// the blob: only a partial group at the end is lost.
pub proof fn lemma_encode_decode(bytes: Seq<u8>)
    ensures
        encode(decode(bytes)) == bytes.take(4 * (bytes.len() as int / 4)),
        bytes.len() % 4 == 0 ==> encode(decode(bytes)) == bytes,
{
    let v = decode(bytes);
    let whole = bytes.take(4 * (bytes.len() as int / 4));
    assert forall|j: int| 0 <= j < whole.len() implies encode(v)[j] == whole[j] by {
        let i = j / 4;
        let k = j % 4;
        lemma_bytes_of_word(bytes[4 * i], bytes[4 * i + 1], bytes[4 * i + 2], bytes[4 * i + 3]);
        assert(v[i] == le_word(bytes[4 * i], bytes[4 * i + 1], bytes[4 * i + 2], bytes[4 * i + 3]));
        assert(encode(v)[j] == le_byte(v[i], k));
        assert(whole[j] == bytes[4 * i + k]);
    }
    assert(encode(v) =~= whole);
    if bytes.len() % 4 == 0 {
        assert(whole =~= bytes);
    }
}

/// A vector read back from its stored blob gives the same blob when it is
/// stored again: it does not matter whether a vector was computed or read
/// from a cache.
pub proof fn lemma_cached_vector_same_blob(v: Seq<u32>)
    ensures
        encode(decode(encode(v))) == encode(v),
{
    lemma_decode_encode(v);
}

/// The blob of the vector `v`.
pub fn f32_to_bytes(v: &[u32]) -> (bytes: Vec<u8>)
    ensures
        bytes@ == encode(v@),
{
    let mut bytes: Vec<u8> = Vec::new();
    let mut i: usize = 0;
    while i < v.len()
        invariant
            i <= v.len(),
            bytes@ == encode(v@.take(i as int)),
        decreases v.len() - i,
    {
        let x: u32 = v[i];
        let ghost before = bytes@;
        bytes.push((x % 256) as u8);
        bytes.push((x / 256 % 256) as u8);
        bytes.push((x / 65536 % 256) as u8);
        bytes.push((x / 16777216) as u8);
        proof {
            let grown = encode(v@.take(i + 1));
            assert forall|j: int| 0 <= j < grown.len() implies bytes@[j] == grown[j] by {
                if j < 4 * i {
                    assert(before[j] == le_byte(v@.take(i as int)[j / 4], j % 4));
                }
            }
            assert(bytes@ =~= grown);
        }
        i += 1;
    }
    assert(v@.take(v.len() as int) =~= v@);
    bytes
}

/// The vector of the blob `bytes`.
pub fn bytes_to_f32(bytes: &[u8]) -> (v: Vec<u32>)
    ensures
        v@ == decode(bytes@),
{
    let mut v: Vec<u32> = Vec::new();
    let count: usize = bytes.len() / 4;
    let mut i: usize = 0;
    while i < count
        invariant
            i <= count,
            count == bytes.len() / 4,
            v.len() == i,
            forall|k: int| 0 <= k < i ==> v[k] == #[trigger] decode(bytes@)[k],
        decreases count - i,
    {
        let b0: u32 = bytes[4 * i] as u32;
        let b1: u32 = bytes[4 * i + 1] as u32;
        let b2: u32 = bytes[4 * i + 2] as u32;
        let b3: u32 = bytes[4 * i + 3] as u32;
        v.push(b0 + 256 * b1 + 65536 * b2 + 16777216 * b3);
        i += 1;
    }
    assert(v@ =~= decode(bytes@));
    v
}

/// Whether two vectors can be compared: they have the same number of
/// components, and at least one.
pub fn comparable(a: &[u32], b: &[u32]) -> (ok: bool)
    ensures
        ok == (a@.len() == b@.len() && a@.len() > 0),
{
    a.len() == b.len() && a.len() > 0
}

/// Words in a chunk of a long memory.
pub const CHUNK_SIZE: usize = 400;

/// Words that a chunk shares with the chunk before it.
pub const CHUNK_OVERLAP: usize = 80;

/// Jobs that may wait for the worker; a job that finds the queue full is
/// dropped.
pub const QUEUE_CAPACITY: usize = 256;

/// The request to give the memory `record_id` of the corpus at `db_path`
/// its vector, and its chunks theirs.
pub struct EmbeddingJob {
    pub db_path: String,
    pub record_id: String,
    pub content: String,
}

/// What a vector is for.
#[derive(Clone, Copy, PartialEq, Eq, Structural, Debug)]
pub enum Target {
    /// The memory itself; `chunked` says whether chunks follow.
    Memory { chunked: bool },
    /// The chunk of this index.
    Chunk(usize),
}

/// One text of a job that needs a vector.
pub struct EmbeddingTask {
    pub text: String,
    pub target: Target,
}

/// The name of the model whose vectors are stored and cached.
pub fn model_name() -> (name: &'static str)
    ensures
        name@ == "all-MiniLM-L6-v2"@,
{
    "all-MiniLM-L6-v2"
}

/// The chunks that get vectors of their own: those of a content that has
/// more than one, and none for a content that is a single chunk.
pub open spec fn chunk_texts(content: Seq<char>) -> Seq<Seq<char>> {
    let all = chunks(content, CHUNK_SIZE as int, CHUNK_OVERLAP as int);
    if all.len() > 1 {
        all
    } else {
        Seq::empty()
    }
}

/// The tasks as plain values.
pub open spec fn task_views(tasks: Seq<EmbeddingTask>) -> Seq<(Seq<char>, Target)> {
    tasks.map_values(|t: EmbeddingTask| (t.text@, t.target))
}

/// The tasks of a content: the content itself, then its chunks in order.
pub open spec fn tasks_of(content: Seq<char>) -> Seq<(Seq<char>, Target)> {
    seq![(content, Target::Memory { chunked: chunk_texts(content).len() > 0 })] + Seq::new(
        chunk_texts(content).len(),
        |k: int| (chunk_texts(content)[k], Target::Chunk(k as usize)),
    )
}

/// The texts of `job` that need a vector, in the order in which the worker
/// takes them.
pub fn job_tasks(job: &EmbeddingJob) -> (tasks: Vec<EmbeddingTask>)
    ensures
        task_views(tasks@) == tasks_of(job.content@),
        tasks.len() >= 1,
{
    let pieces = chunk_text(job.content.as_str(), CHUNK_SIZE, CHUNK_OVERLAP);
    let chunked = pieces.len() > 1;
    let mut tasks: Vec<EmbeddingTask> = Vec::new();
    tasks.push(EmbeddingTask { text: job.content.clone(), target: Target::Memory { chunked } });
    if chunked {
        let mut k: usize = 0;
        while k < pieces.len()
            invariant
                k <= pieces.len(),
                pieces.deep_view() == chunk_texts(job.content@),
                tasks.len() == k + 1,
                task_views(tasks@)[0] == tasks_of(job.content@)[0],
                forall|j: int|
                    1 <= j < tasks.len() ==> #[trigger] task_views(tasks@)[j] == tasks_of(
                        job.content@,
                    )[j],
            decreases pieces.len() - k,
        {
            assert(pieces.deep_view()[k as int] == pieces[k as int]@);
            let ghost before = task_views(tasks@);
            tasks.push(EmbeddingTask { text: pieces[k].clone(), target: Target::Chunk(k) });
            proof {
                let entry = (pieces[k as int]@, Target::Chunk(k));
                assert(task_views(tasks@) =~= before.push(entry));
                assert(tasks_of(job.content@)[k + 1] == entry);
            }
            k += 1;
        }
    }
    assert(task_views(tasks@) =~= tasks_of(job.content@));
    tasks
}

/// The vector that an answer from the cache holds: that of the blob in the
/// first column of its first row.
pub open spec fn cached_vector(rows: Seq<SqlRow>) -> Option<Seq<u32>> {
    if rows.len() > 0 {
        match rows[0] {
            Some(cells) => match blob_cell(cells@, 0) {
                Some(blob) => Some(decode(blob)),
                None => None,
            },
            None => None,
        }
    } else {
        None
    }
}

/// The components of an optional vector.
pub open spec fn vector_view(v: Option<Vec<u32>>) -> Option<Seq<u32>> {
    match v {
        Some(x) => Some(x@),
        None => None,
    }
}

/// Reads the vector of an answer from the cache.
pub fn read_cached_vector(rows: &Vec<SqlRow>) -> (v: Option<Vec<u32>>)
    ensures
        vector_view(v) == cached_vector(rows@),
{
    if rows.len() > 0 {
        match &rows[0] {
            Some(cells) => match blob_at(cells, 0) {
                Some(blob) => Some(bytes_to_f32(blob.as_slice())),
                None => None,
            },
            None => None,
        }
    } else {
        None
    }
}

/// The lookup of a cached vector by its key and its model.
pub const CACHE_LOOKUP_SQL: &'static str =
    "SELECT embedding FROM embedding_cache WHERE text_hash = ? AND model = ?";

/// The write of a cached vector, in place of an older one.
pub const CACHE_STORE_SQL: &'static str =
    "INSERT OR REPLACE INTO embedding_cache (text_hash, model, embedding, created_at) \
     VALUES (?, ?, ?, datetime('now'))";

/// The write of the vector of a memory.
pub const MEMORY_VECTOR_SQL: &'static str = "UPDATE memories SET embedding = ? WHERE id = ?";

/// The removal of the chunks of a memory.
pub const DROP_CHUNKS_SQL: &'static str = "DELETE FROM memory_chunks WHERE memory_id = ?";

/// The write of a chunk with its vector, in place of an older one.
pub const CHUNK_ROW_SQL: &'static str =
    "INSERT OR REPLACE INTO memory_chunks \
     (id, memory_id, chunk_index, chunk_text, embedding) \
     VALUES (?, ?, ?, ?, ?)";

/// The key of `text` under `model` in the cache.
pub open spec fn cache_key(text: Seq<char>, model: Seq<char>) -> Seq<char> {
    hex(sha256(encode_utf8(cache_key_text(text, model))))
}

/// The index of a chunk as the engine stores it.
pub open spec fn chunk_position(index: usize) -> i64 {
    if index <= i64::MAX {
        index as i64
    } else {
        i64::MAX
    }
}

/// The statement that looks the vector of `text` under `model` up.
pub fn cache_lookup(text: &str, model: &str) -> (st: Statement)
    ensures
        st.sql == CACHE_LOOKUP_SQL,
        st.bound() == seq![ParamView::Text(cache_key(text@, model@)), ParamView::Text(model@)],
{
    statement_2(
        CACHE_LOOKUP_SQL,
        SqlParam::Text(compute_text_hash(text, model)),
        text_param(model),
    )
}

/// The statement that writes the vector of `text` under `model` into the
/// cache.
pub fn cache_entry(text: &str, model: &str, embedding: &[u32]) -> (st: Statement)
    ensures
        st.sql == CACHE_STORE_SQL,
        st.bound() == seq![
            ParamView::Text(cache_key(text@, model@)),
            ParamView::Text(model@),
            ParamView::Blob(encode(embedding@)),
        ],
{
    statement_3(
        CACHE_STORE_SQL,
        SqlParam::Text(compute_text_hash(text, model)),
        text_param(model),
        SqlParam::Blob(f32_to_bytes(embedding)),
    )
}

/// The statement that writes `vector` into the row of the memory of `job`.
pub fn memory_vector(job: &EmbeddingJob, vector: &[u32]) -> (st: Statement)
    ensures
        st.sql == MEMORY_VECTOR_SQL,
        st.bound() == seq![ParamView::Blob(encode(vector@)), ParamView::Text(job.record_id@)],
{
    statement_2(
        MEMORY_VECTOR_SQL,
        SqlParam::Blob(f32_to_bytes(vector)),
        text_param(job.record_id.as_str()),
    )
}

/// The statement that removes the chunks of the memory of `job`.
pub fn drop_chunks(job: &EmbeddingJob) -> (st: Statement)
    ensures
        st.sql == DROP_CHUNKS_SQL,
        st.bound() == seq![ParamView::Text(job.record_id@)],
{
    statement_1(DROP_CHUNKS_SQL, text_param(job.record_id.as_str()))
}

/// The statement that writes chunk `index` of the memory of `job`, with
/// its text and its vector, under the id of the chunk.
pub fn chunk_row(job: &EmbeddingJob, index: usize, text: &str, vector: &[u32]) -> (st: Statement)
    ensures
        st.sql == CHUNK_ROW_SQL,
        st.bound() == seq![
            ParamView::Text(chunk_id_of(job.record_id@, index as nat)),
            ParamView::Text(job.record_id@),
            ParamView::Integer(chunk_position(index)),
            ParamView::Text(text@),
            ParamView::Blob(encode(vector@)),
        ],
{
    let position: i64 = if index as u64 <= 0x7fff_ffff_ffff_ffff {
        index as i64
    } else {
        i64::MAX
    };
    let mut params: Vec<SqlParam> = Vec::new();
    params.push(SqlParam::Text(chunk_id(job.record_id.as_str(), index)));
    params.push(text_param(job.record_id.as_str()));
    params.push(SqlParam::Integer(position));
    params.push(text_param(text));
    params.push(SqlParam::Blob(f32_to_bytes(vector)));
    let st = Statement { sql: CHUNK_ROW_SQL, params };
    assert(st.bound() =~= seq![
        ParamView::Text(chunk_id_of(job.record_id@, index as nat)),
        ParamView::Text(job.record_id@),
        ParamView::Integer(chunk_position(index)),
        ParamView::Text(text@),
        ParamView::Blob(encode(vector@)),
    ]);
    st
}

/// The vector that the answer of the cache holds; an answer that failed
/// holds none.
pub fn cached_answer(answer: Result<Vec<SqlRow>, rusqlite::Error>) -> (v: Option<Vec<u32>>)
    ensures
        vector_view(v) == match answer {
            Ok(rows) => cached_vector(rows@),
            Err(_) => None,
        },
{
    match answer {
        Ok(rows) => read_cached_vector(&rows),
        Err(_) => None,
    }
}

/// Looks the vector of `text` under `model` up in the cache of the corpus.
/// A miss and an engine that fails both give `None`.
pub fn get_cached_embedding(conn: &rusqlite::Connection, text: &str, model: &str) -> (v: Option<
    Vec<u32>,
>) {
    let st = cache_lookup(text, model);
    cached_answer(run_query(conn, st.sql, &st.params))
}

/// Writes the vector of `text` under `model` into the cache of the corpus,
/// in place of an older one. The cache only saves work: a write that fails
/// is not reported, and `stored` merely says so.
pub fn store_cached_embedding(
    conn: &rusqlite::Connection,
    text: &str,
    model: &str,
    embedding: &[u32],
) -> (stored: bool) {
    let st = cache_entry(text, model, embedding);
    settled(run_statement(conn, st.sql, &st.params)).is_ok()
}

/// Statements as plain values: the text of each with its bound values.
pub open spec fn statement_views(sts: Seq<Statement>) -> Seq<(Seq<char>, Seq<ParamView>)> {
    sts.map_values(|st: Statement| (st.sql@, st.bound()))
}

/// The statements that write the vector of one task. The vector of the
/// memory goes into its row, and where chunks follow, the old chunks of the
/// memory are removed behind it. The vector of chunk `i` goes into a row of
/// its own under the id of the chunk.
pub open spec fn task_writes(
    record_id: Seq<char>,
    target: Target,
    text: Seq<char>,
    vector: Seq<u32>,
) -> Seq<(Seq<char>, Seq<ParamView>)> {
    match target {
        Target::Memory { chunked } => {
            let write = (
                MEMORY_VECTOR_SQL@,
                seq![ParamView::Blob(encode(vector)), ParamView::Text(record_id)],
            );
            if chunked {
                seq![write, (DROP_CHUNKS_SQL@, seq![ParamView::Text(record_id)])]
            } else {
                seq![write]
            }
        },
        Target::Chunk(index) => seq![
            (
                CHUNK_ROW_SQL@,
                seq![
                    ParamView::Text(chunk_id_of(record_id, index as nat)),
                    ParamView::Text(record_id),
                    ParamView::Integer(chunk_position(index)),
                    ParamView::Text(text),
                    ParamView::Blob(encode(vector)),
                ],
            ),
        ],
    }
}

/// The statements that write the vector of one task of `job`.
pub fn task_statements(job: &EmbeddingJob, task: &EmbeddingTask, vector: &[u32]) -> (sts: Vec<
    Statement,
>)
    ensures
        statement_views(sts@) == task_writes(job.record_id@, task.target, task.text@, vector@),
        sts.len() >= 1,
{
    let mut sts: Vec<Statement> = Vec::new();
    match task.target {
        Target::Memory { chunked } => {
            sts.push(memory_vector(job, vector));
            if chunked {
                sts.push(drop_chunks(job));
            }
        },
        Target::Chunk(index) => {
            sts.push(chunk_row(job, index, task.text.as_str(), vector));
        },
    }
    assert(statement_views(sts@) =~= task_writes(
        job.record_id@,
        task.target,
        task.text@,
        vector@,
    ));
    sts
}

/// Writes the vector of one task of `job` into the corpus: the statements
/// of the task are handed to the engine in order, up to the first that it
/// does not carry out.
pub fn store_task_vector(
    conn: &rusqlite::Connection,
    job: &EmbeddingJob,
    task: &EmbeddingTask,
    vector: &[u32],
) -> (done: Result<(), MemoryError>)
    ensures
        done is Err ==> done->Err_0 is Store,
{
    let sts = task_statements(job, task, vector);
    run_all(conn, &sts)
}

/// The start of one logical write.
pub const BEGIN_SQL: &'static str = "BEGIN;";

/// The end of one logical write: all of it takes effect.
pub const COMMIT_SQL: &'static str = "COMMIT;";

/// The end of one logical write that failed: none of it takes effect.
pub const ROLLBACK_SQL: &'static str = "ROLLBACK;";

/// The statement that starts one logical write.
pub fn begin_write() -> (st: Statement)
    ensures
        st.sql == BEGIN_SQL,
        st.bound() == Seq::<ParamView>::empty(),
{
    statement_0(BEGIN_SQL)
}

/// The statement that lets one logical write take effect.
pub fn commit_write() -> (st: Statement)
    ensures
        st.sql == COMMIT_SQL,
        st.bound() == Seq::<ParamView>::empty(),
{
    statement_0(COMMIT_SQL)
}

/// The statement that undoes one logical write.
pub fn undo_write() -> (st: Statement)
    ensures
        st.sql == ROLLBACK_SQL,
        st.bound() == Seq::<ParamView>::empty(),
{
    statement_0(ROLLBACK_SQL)
}

/// The vectors as plain values.
pub open spec fn vector_views(vectors: Seq<Vec<u32>>) -> Seq<Seq<u32>> {
    vectors.map_values(|v: Vec<u32>| v@)
}

/// The statements that write the vectors of the tasks of a job, task by
/// task in order: vector `i` is that of task `i`.
pub open spec fn job_writes(
    record_id: Seq<char>,
    tasks: Seq<(Seq<char>, Target)>,
    vectors: Seq<Seq<u32>>,
) -> Seq<(Seq<char>, Seq<ParamView>)>
    decreases tasks.len(),
{
    if tasks.len() == 0 {
        Seq::empty()
    } else {
        job_writes(record_id, tasks.drop_last(), vectors) + task_writes(
            record_id,
            tasks.last().1,
            tasks.last().0,
            vectors[tasks.len() - 1],
        )
    }
}

/// The statements that write the vectors of all tasks of `job`.
pub fn job_statements(job: &EmbeddingJob, tasks: &Vec<EmbeddingTask>, vectors: &Vec<Vec<u32>>) -> (sts:
    Vec<Statement>)
    requires
        tasks.len() == vectors.len(),
    ensures
        statement_views(sts@) == job_writes(
            job.record_id@,
            task_views(tasks@),
            vector_views(vectors@),
        ),
{
    let mut sts: Vec<Statement> = Vec::new();
    let mut i: usize = 0;
    while i < tasks.len()
        invariant
            i <= tasks.len(),
            tasks.len() == vectors.len(),
            statement_views(sts@) == job_writes(
                job.record_id@,
                task_views(tasks@).take(i as int),
                vector_views(vectors@),
            ),
        decreases tasks.len() - i,
    {
        let ghost before = statement_views(sts@);
        let mut more = task_statements(job, &tasks[i], vectors[i].as_slice());
        let ghost added = statement_views(more@);
        proof {
            assert(task_views(tasks@).take(i + 1).drop_last() =~= task_views(tasks@).take(i as int));
            assert(task_views(tasks@).take(i + 1).last() == (tasks@[i as int].text@, tasks@[i as int].target));
            assert(vector_views(vectors@)[i as int] == vectors@[i as int]@);
        }
        sts.append(&mut more);
        assert(statement_views(sts@) =~= before + added);
        i += 1;
    }
    assert(task_views(tasks@).take(tasks.len() as int) =~= task_views(tasks@));
    sts
}

/// What is left of one logical write: it took effect where the engine
/// began it, carried out all of it and ended it; else the first error.
pub fn committed(
    begun: Result<(), MemoryError>,
    written: Result<(), MemoryError>,
    ended: Result<(), MemoryError>,
) -> (done: Result<(), MemoryError>)
    ensures
        done is Ok <==> begun is Ok && written is Ok && ended is Ok,
        done matches Err(e) ==> (if begun is Err {
            begun == Err::<(), MemoryError>(e)
        } else if written is Err {
            written == Err::<(), MemoryError>(e)
        } else {
            ended == Err::<(), MemoryError>(e)
        }),
{
    match begun {
        Err(e) => Err(e),
        Ok(_) => match written {
            Err(e) => Err(e),
            Ok(_) => ended,
        },
    }
}

/// Writes the vectors of all tasks of `job` into the corpus as one logical
/// write: either the vector of the memory and the whole new set of chunks
/// take effect, or nothing does. A list of vectors that does not match the
/// tasks is refused as invalid input.
pub fn store_job_vectors(
    conn: &rusqlite::Connection,
    job: &EmbeddingJob,
    tasks: &Vec<EmbeddingTask>,
    vectors: &Vec<Vec<u32>>,
) -> (done: Result<(), MemoryError>)
    ensures
        tasks.len() != vectors.len() ==> done is Err && done->Err_0 is InvalidInput,
        tasks.len() == vectors.len() && done is Err ==> done->Err_0 is Store,
{
    if tasks.len() != vectors.len() {
        return Err(MemoryError::InvalidInput);
    }
    let sts = job_statements(job, tasks, vectors);
    let begun = settled(run_batch(conn, begin_write().sql));
    let written = if begun.is_ok() {
        run_all(conn, &sts)
    } else {
        Ok(())
    };
    let ended = if begun.is_ok() && written.is_ok() {
        settled(run_batch(conn, commit_write().sql))
    } else {
        if begun.is_ok() {
            let _ = run_batch(conn, undo_write().sql);
        }
        Ok(())
    };
    committed(begun, written, ended)
}

} // verus!
