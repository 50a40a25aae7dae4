//! The three corpora, and the rows of a corpus.

use vstd::prelude::*;
use vstd::string::StringExecFns;
use crate::dedup::{
    find_duplicate, first_id, id_and_content, id_content_pairs, may_duplicate, DEDUP_THRESHOLD,
};
use crate::ident::{generate_id, id_text, short_hash};
use crate::sql::{
    integer_at, integer_cell, open_connection, optional_text_at, optional_text_cell, run_batch,
    run_query, run_statement, settled, statement_0, statement_1, statement_2, statement_3,
    statement_4, store_error, text_at, text_cell, text_param, text_view, MemoryError, ParamView,
    SqlParam, SqlRow, SqlValue, Statement,
};
use crate::text::str_eq;

verus! {

/// Where the databases of the two corpora that always exist lie.
pub struct MemoryPaths {
    pub global_db: String,
    pub personality_db: String,
    pub data_dir: String,
}

/// The outcome of a save: the id of the memory, and `"new"` or `"updated"`.
pub struct SaveResult {
    pub id: String,
    pub dedup: String,
}

/// A memory as `list` shows it.
pub struct MemoryRecord {
    pub id: String,
    pub mem_type: String,
    pub content: String,
    pub tags: String,
    pub created_at: String,
}

/// The totals of a corpus.
pub struct DbStats {
    pub total: i64,
    pub indexed: i64,
    pub chunks: i64,
    pub cache_entries: i64,
    pub by_type: Vec<(String, i64)>,
}

/// A memory record as plain text.
pub struct MemoryRecordView {
    pub id: Seq<char>,
    pub mem_type: Seq<char>,
    pub content: Seq<char>,
    pub tags: Seq<char>,
    pub created_at: Seq<char>,
}

impl View for MemoryRecord {
    type V = MemoryRecordView;

    open spec fn view(&self) -> MemoryRecordView {
        MemoryRecordView {
            id: self.id@,
            mem_type: self.mem_type@,
            content: self.content@,
            tags: self.tags@,
            created_at: self.created_at@,
        }
    }
}

/// Directory of the databases below the home directory `home`.
pub open spec fn data_dir_of(home: Seq<char>) -> Seq<char> {
    home + "/.mcp-memoria/data"@
}

/// Database of the project that lives in `project_dir`.
pub open spec fn project_db_of(project_dir: Seq<char>) -> Seq<char> {
    project_dir + "/.mcp-memoria/project.db"@
}

impl MemoryPaths {
    /// The paths below the home directory `home`.
    pub fn new(home: &str) -> (paths: MemoryPaths)
        ensures
            paths.data_dir@ == data_dir_of(home@),
            paths.global_db@ == data_dir_of(home@) + "/global.db"@,
            paths.personality_db@ == data_dir_of(home@) + "/personality.db"@,
    {
        let mut data_dir = String::new();
        data_dir.append(home);
        data_dir.append("/.mcp-memoria/data");
        let mut global_db = data_dir.clone();
        global_db.append("/global.db");
        let mut personality_db = data_dir.clone();
        personality_db.append("/personality.db");
        assert(data_dir@ =~= data_dir_of(home@));
        MemoryPaths { global_db, personality_db, data_dir }
    }

    /// The database of the project in `project_dir`, where a project
    /// directory is known.
    pub fn project_db_path(project_dir: Option<&str>) -> (path: Option<String>)
        ensures
            path is Some == project_dir is Some,
            project_dir matches Some(dir) ==> path->0@ == project_db_of(dir@),
    {
        match project_dir {
            Some(dir) => {
                let mut path = String::new();
                path.append(dir);
                path.append("/.mcp-memoria/project.db");
                assert(path@ =~= project_db_of(dir@));
                Some(path)
            },
            None => None,
        }
    }
}

/// The corpora that `scope` names, in the order in which they are asked,
/// each with the path of its database: `global` and `personality` name
/// themselves, `project` names the project where there is one, `both` is
/// global and project, `all` is global, personality and project, and any
/// other scope names nothing.
pub open spec fn scope_dbs(
    scope: Seq<char>,
    global_db: Seq<char>,
    personality_db: Seq<char>,
    project_db: Option<Seq<char>>,
) -> Seq<(Seq<char>, Seq<char>)> {
    let global = seq![("global"@, global_db)];
    let personality = seq![("personality"@, personality_db)];
    let project = match project_db {
        Some(path) => seq![("project"@, path)],
        None => Seq::empty(),
    };
    if scope == "global"@ {
        global
    } else if scope == "project"@ {
        project
    } else if scope == "personality"@ {
        personality
    } else if scope == "both"@ {
        global + project
    } else if scope == "all"@ {
        global + personality + project
    } else {
        Seq::empty()
    }
}

/// The project database as `scope_dbs` takes it.
pub open spec fn project_db_option(project_dir: Option<&str>) -> Option<Seq<char>> {
    match project_dir {
        Some(dir) => Some(project_db_of(dir@)),
        None => None,
    }
}

/// Resolves `scope` to the list of `(name, database path)` to ask.
pub fn resolve_scope_dbs(scope: &str, paths: &MemoryPaths, project_dir: Option<&str>) -> (dbs:
    Vec<(String, String)>)
    ensures
        dbs.deep_view() == scope_dbs(
            scope@,
            paths.global_db@,
            paths.personality_db@,
            project_db_option(project_dir),
        ),
{
    let mut dbs: Vec<(String, String)> = Vec::new();
    let with_global = str_eq(scope, "global") || str_eq(scope, "both") || str_eq(scope, "all");
    let with_personality = str_eq(scope, "personality") || str_eq(scope, "all");
    let with_project = str_eq(scope, "project") || str_eq(scope, "both") || str_eq(scope, "all");
    proof {
        lemma_scope_names_differ();
    }
    if with_global {
        dbs.push(("global".to_owned(), paths.global_db.clone()));
    }
    if with_personality {
        dbs.push(("personality".to_owned(), paths.personality_db.clone()));
    }
    if with_project {
        if let Some(path) = MemoryPaths::project_db_path(project_dir) {
            dbs.push(("project".to_owned(), path));
        }
    }
    assert(dbs.deep_view() =~= scope_dbs(
        scope@,
        paths.global_db@,
        paths.personality_db@,
        project_db_option(project_dir),
    ));
    dbs
}

/// The five scope names are five different texts.
pub proof fn lemma_scope_names_differ()
    ensures
        "global"@ != "project"@,
        "global"@ != "personality"@,
        "global"@ != "both"@,
        "global"@ != "all"@,
        "project"@ != "personality"@,
        "project"@ != "both"@,
        "project"@ != "all"@,
        "personality"@ != "both"@,
        "personality"@ != "all"@,
        "both"@ != "all"@,
{
    reveal_strlit("global");
    reveal_strlit("project");
    reveal_strlit("personality");
    reveal_strlit("both");
    reveal_strlit("all");
    assert("global"@.len() == 6);
    assert("project"@.len() == 7);
    assert("personality"@.len() == 11);
    assert("both"@.len() == 4);
    assert("all"@.len() == 3);
    assert("global"@[0] == 'g' && "both"@[0] == 'b');
}

/// The memory that a row of five columns holds: id, type and content are
/// texts, tags and creation time are texts or missing. Any other row holds
/// none.
pub open spec fn record_cells(cells: Seq<SqlValue>) -> Option<MemoryRecordView> {
    match (
        text_cell(cells, 0),
        text_cell(cells, 1),
        text_cell(cells, 2),
        optional_text_cell(cells, 3),
        optional_text_cell(cells, 4),
    ) {
        (Some(id), Some(mem_type), Some(content), Some(tags), Some(created_at)) => Some(
            MemoryRecordView { id, mem_type, content, tags, created_at },
        ),
        _ => None,
    }
}

/// The memory that a row of an answer holds.
pub open spec fn record_row() -> spec_fn(SqlRow) -> Option<MemoryRecordView> {
    |row: SqlRow|
        match row {
            Some(cells) => record_cells(cells@),
            None => None,
        }
}

/// The view of an optional record.
pub open spec fn record_view(rec: Option<MemoryRecord>) -> Option<MemoryRecordView> {
    match rec {
        Some(r) => Some(r@),
        None => None,
    }
}

/// Reads the memory that a row holds.
pub fn memory_record(cells: &Vec<SqlValue>) -> (rec: Option<MemoryRecord>)
    ensures
        record_view(rec) == record_cells(cells@),
{
    let id = match text_at(cells, 0) {
        Some(t) => t,
        None => {
            return None;
        },
    };
    let mem_type = match text_at(cells, 1) {
        Some(t) => t,
        None => {
            return None;
        },
    };
    let content = match text_at(cells, 2) {
        Some(t) => t,
        None => {
            return None;
        },
    };
    let tags = match optional_text_at(cells, 3) {
        Some(t) => t,
        None => {
            return None;
        },
    };
    let created_at = match optional_text_at(cells, 4) {
        Some(t) => t,
        None => {
            return None;
        },
    };
    Some(MemoryRecord { id, mem_type, content, tags, created_at })
}

/// Reads the memories of an answer. One row that holds no memory spoils the
/// whole answer.
pub fn memory_records(rows: &Vec<SqlRow>) -> (recs: Result<Vec<MemoryRecord>, MemoryError>)
    ensures
        match recs {
            Ok(list) => list.len() == rows.len() && forall|i: int|
                0 <= i < rows.len() ==> record_row()(#[trigger] rows@[i]) == Some(list@[i]@),
            Err(e) => e is Store && exists|i: int|
                0 <= i < rows.len() && record_row()(#[trigger] rows@[i]) is None,
        },
{
    let mut list: Vec<MemoryRecord> = Vec::new();
    let mut i: usize = 0;
    while i < rows.len()
        invariant
            i <= rows.len(),
            list.len() == i,
            forall|k: int| 0 <= k < i ==> record_row()(#[trigger] rows@[k]) == Some(list@[k]@),
        decreases rows.len() - i,
    {
        let rec = match &rows[i] {
            Some(cells) => memory_record(cells),
            None => None,
        };
        match rec {
            Some(r) => {
                list.push(r);
            },
            None => {
                assert(record_row()(rows@[i as int]) is None);
                return Err(MemoryError::Store("a row holds no memory".to_owned()));
            },
        }
        i += 1;
    }
    Ok(list)
}

/// The count that an answer to `SELECT COUNT(*)` holds: the integer in the
/// first column of its first row, or 0 where there is none.
pub open spec fn count_of(rows: Seq<SqlRow>) -> i64 {
    if rows.len() > 0 {
        match rows[0] {
            Some(cells) => match integer_cell(cells@, 0) {
                Some(n) => n,
                None => 0,
            },
            None => 0,
        }
    } else {
        0
    }
}

/// Reads the count of an answer; an answer that failed counts as 0.
pub fn read_count(answer: &Result<Vec<SqlRow>, rusqlite::Error>) -> (n: i64)
    ensures
        n == match answer {
            Ok(rows) => count_of(rows@),
            Err(_) => 0,
        },
{
    match answer {
        Ok(rows) => {
            if rows.len() > 0 {
                match &rows[0] {
                    Some(cells) => match integer_at(cells, 0) {
                        Some(n) => n,
                        None => 0,
                    },
                    None => 0,
                }
            } else {
                0
            }
        },
        Err(_) => 0,
    }
}

/// The type and the count that a row of the histogram holds.
pub open spec fn type_and_count() -> spec_fn(SqlRow) -> Option<(Seq<char>, i64)> {
    |row: SqlRow|
        match row {
            Some(cells) => match (text_cell(cells@, 0), integer_cell(cells@, 1)) {
                (Some(t), Some(n)) => Some((t, n)),
                _ => None,
            },
            None => None,
        }
}

/// The histogram as plain values.
pub open spec fn histogram_view(h: Seq<(String, i64)>) -> Seq<(Seq<char>, i64)> {
    h.map_values(|e: (String, i64)| (e.0@, e.1))
}

/// Reads the histogram of types, leaving out the rows that hold none.
pub fn type_counts(rows: &Vec<SqlRow>) -> (counts: Vec<(String, i64)>)
    ensures
        histogram_view(counts@) == rows@.filter_map(type_and_count()),
{
    let mut counts: Vec<(String, i64)> = Vec::new();
    let mut i: usize = 0;
    while i < rows.len()
        invariant
            i <= rows.len(),
            histogram_view(counts@) == rows@.take(i as int).filter_map(type_and_count()),
        decreases rows.len() - i,
    {
        let ghost kept = histogram_view(counts@);
        assert(rows@.take(i + 1).drop_last() =~= rows@.take(i as int));
        assert(rows@.take(i + 1).last() == rows@[i as int]);
        if let Some(cells) = &rows[i] {
            if let Some(t) = text_at(cells, 0) {
                if let Some(n) = integer_at(cells, 1) {
                    let ghost entry = (t@, n);
                    counts.push((t, n));
                    assert(histogram_view(counts@) =~= kept + seq![entry]);
                }
            }
        }
        i += 1;
    }
    assert(rows@.take(rows.len() as int) =~= rows@);
    counts
}

/// What a save does to the corpus.
pub enum SaveAction {
    /// Overwrite the memory with this id, which the content duplicates.
    Update(String),
    /// Add a memory under a fresh id.
    Insert,
}

/// The decision of a save as plain values: `None` for a refusal, else the
/// id to overwrite or `None` for a new memory.
pub open spec fn save_decision(
    mem_type: Seq<char>,
    content: Seq<char>,
    duplicate: Option<Seq<char>>,
) -> Option<Option<Seq<char>>> {
    if content.len() == 0 {
        None
    } else if mem_type != "conversation"@ {
        Some(duplicate)
    } else {
        Some(None)
    }
}

/// The decision that an action stands for.
pub open spec fn action_view(action: Result<SaveAction, MemoryError>) -> Option<Option<Seq<char>>> {
    match action {
        Ok(SaveAction::Update(id)) => Some(Some(id@)),
        Ok(SaveAction::Insert) => Some(None),
        Err(_) => None,
    }
}

/// Whether a save of this type looks for a duplicate first: every type
/// does but `conversation`, whose memories are keyed by their session.
pub fn dedup_applies(mem_type: &str) -> (applies: bool)
    ensures
        applies == (mem_type@ != "conversation"@),
{
    !str_eq(mem_type, "conversation")
}

/// Decides what a save does, given the duplicate that was found. Empty
/// content is refused; a duplicate of a type that takes part in dedup is
/// overwritten; anything else is added.
pub fn save_action(content: &str, mem_type: &str, duplicate: Option<String>) -> (action: Result<
    SaveAction,
    MemoryError,
>)
    ensures
        action_view(action) == save_decision(mem_type@, content@, text_view(duplicate)),
        action is Err ==> action->Err_0 is InvalidInput,
        action matches Ok(SaveAction::Update(id)) ==> duplicate == Some(id),
{
    if content.is_empty() {
        return Err(MemoryError::InvalidInput);
    }
    if dedup_applies(mem_type) {
        match duplicate {
            Some(id) => Ok(SaveAction::Update(id)),
            None => Ok(SaveAction::Insert),
        }
    } else {
        Ok(SaveAction::Insert)
    }
}

/// Where the lookup by type and content answers with the id of a memory,
/// the type takes part in dedup and the content is not empty, the decision
/// of the save is to overwrite that memory, not to add one.
pub proof fn lemma_exact_match_is_updated(
    rows: Seq<SqlRow>,
    id: Seq<char>,
    mem_type: Seq<char>,
    content: Seq<char>,
)
    requires
        first_id(rows) == Some(id),
        mem_type != "conversation"@,
        content.len() > 0,
    ensures
        save_decision(mem_type, content, first_id(rows)) == Some(Some(id)),
{
}

/// Write-ahead journaling and cascading foreign keys.
pub const PRAGMAS_SQL: &'static str = "PRAGMA journal_mode=WAL; PRAGMA foreign_keys=ON;";

/// The tables of a corpus and their indexes.
pub const TABLES_SQL: &'static str =
    "CREATE TABLE IF NOT EXISTS memories (
            id TEXT PRIMARY KEY,
            type TEXT NOT NULL,
            content TEXT NOT NULL,
            tags TEXT,
            created_at DATETIME DEFAULT CURRENT_TIMESTAMP,
            updated_at DATETIME DEFAULT CURRENT_TIMESTAMP,
            embedding BLOB
        );

        CREATE TABLE IF NOT EXISTS memory_chunks (
            id TEXT PRIMARY KEY,
            memory_id TEXT NOT NULL,
            chunk_index INTEGER NOT NULL,
            chunk_text TEXT NOT NULL,
            embedding BLOB,
            FOREIGN KEY (memory_id) REFERENCES memories(id) ON DELETE CASCADE
        );

        CREATE TABLE IF NOT EXISTS embedding_cache (
            text_hash TEXT NOT NULL,
            model TEXT NOT NULL,
            embedding BLOB NOT NULL,
            created_at DATETIME DEFAULT CURRENT_TIMESTAMP,
            PRIMARY KEY (text_hash, model)
        );

        CREATE INDEX IF NOT EXISTS idx_type ON memories(type);
        CREATE INDEX IF NOT EXISTS idx_created ON memories(created_at);
        CREATE INDEX IF NOT EXISTS idx_chunks_memory ON memory_chunks(memory_id);";

/// The lexical index and the triggers that keep it equal to the memories.
pub const INDEX_SQL: &'static str =
    "CREATE VIRTUAL TABLE IF NOT EXISTS memories_fts USING fts5(
            content, tags, content='memories', content_rowid='rowid'
        );

        CREATE TRIGGER IF NOT EXISTS memories_ai AFTER INSERT ON memories BEGIN
            INSERT INTO memories_fts(rowid, content, tags)
            VALUES (NEW.rowid, NEW.content, NEW.tags);
        END;

        CREATE TRIGGER IF NOT EXISTS memories_ad AFTER DELETE ON memories BEGIN
            INSERT INTO memories_fts(memories_fts, rowid, content, tags)
            VALUES('delete', OLD.rowid, OLD.content, OLD.tags);
        END;

        CREATE TRIGGER IF NOT EXISTS memories_au AFTER UPDATE ON memories BEGIN
            INSERT INTO memories_fts(memories_fts, rowid, content, tags)
            VALUES('delete', OLD.rowid, OLD.content, OLD.tags);
            INSERT INTO memories_fts(rowid, content, tags)
            VALUES (NEW.rowid, NEW.content, NEW.tags);
        END;";

/// The rebuild of the lexical index from the memories.
pub const REBUILD_SQL: &'static str = "INSERT INTO memories_fts(memories_fts) VALUES('rebuild');";

/// The reclaiming of storage.
pub const VACUUM_SQL: &'static str = "VACUUM;";

/// The statements that switch on write-ahead journaling and cascading
/// foreign keys.
pub fn pragmas_batch() -> (st: Statement)
    ensures
        st.sql == PRAGMAS_SQL,
        st.bound() == Seq::<ParamView>::empty(),
{
    statement_0(PRAGMAS_SQL)
}

/// The statements that create the tables of a corpus where they are
/// missing: the memories, their chunks, which go with their memory, and the
/// cache of vectors.
pub fn tables_batch() -> (st: Statement)
    ensures
        st.sql == TABLES_SQL,
        st.bound() == Seq::<ParamView>::empty(),
{
    statement_0(TABLES_SQL)
}

/// The statements that create the lexical index where it is missing, with
/// the triggers that repeat every insert, update and delete of a memory in
/// the index.
pub fn index_batch() -> (st: Statement)
    ensures
        st.sql == INDEX_SQL,
        st.bound() == Seq::<ParamView>::empty(),
{
    statement_0(INDEX_SQL)
}

/// The handle on a corpus whose schema was asked for: the handle where the
/// engine carried out all three steps, else the error of the first step
/// that it did not carry out.
pub fn opened(
    conn: rusqlite::Connection,
    pragmas: Result<(), MemoryError>,
    tables: Result<(), MemoryError>,
    index: Result<(), MemoryError>,
) -> (ready: Result<rusqlite::Connection, MemoryError>)
    ensures
        ready is Ok <==> pragmas is Ok && tables is Ok && index is Ok,
        ready matches Ok(c) ==> c == conn,
        ready matches Err(e) ==> (if pragmas is Err {
            pragmas == Err::<(), MemoryError>(e)
        } else if tables is Err {
            tables == Err::<(), MemoryError>(e)
        } else {
            index == Err::<(), MemoryError>(e)
        }),
{
    match pragmas {
        Err(e) => Err(e),
        Ok(_) => match tables {
            Err(e) => Err(e),
            Ok(_) => match index {
                Err(e) => Err(e),
                Ok(_) => Ok(conn),
            },
        },
    }
}

/// Opens the corpus at `db_path` and makes sure that its schema is there:
/// write-ahead journaling and cascading foreign keys are switched on, and
/// the tables, the lexical index and the triggers that keep the index equal
/// to the memories are created where they are missing.
pub fn init_db(db_path: &str) -> (conn: Result<rusqlite::Connection, MemoryError>)
    ensures
        conn is Err ==> conn->Err_0 is Store,
{
    let conn = match open_connection(db_path) {
        Ok(c) => c,
        Err(e) => {
            return Err(store_error(&e));
        },
    };
    let pragmas = settled(run_batch(&conn, pragmas_batch().sql));
    let tables = if pragmas.is_ok() {
        settled(run_batch(&conn, tables_batch().sql))
    } else {
        Ok(())
    };
    let index = if pragmas.is_ok() && tables.is_ok() {
        settled(run_batch(&conn, index_batch().sql))
    } else {
        Ok(())
    };
    opened(conn, pragmas, tables, index)
}

/// The two outcomes of a save are two different texts.
pub proof fn lemma_outcomes_differ()
    ensures
        "updated"@ != "new"@,
{
    reveal_strlit("updated");
    reveal_strlit("new");
    assert("updated"@.len() == 7);
    assert("new"@.len() == 3);
}

/// The overwrite of a memory: new content and tags, the update time
/// refreshed, the vector cleared.
pub const UPDATE_SQL: &'static str =
    "UPDATE memories SET content = ?, tags = ?, updated_at = datetime('now'), \
     embedding = NULL WHERE id = ?";

/// The write of a memory under its id.
pub const INSERT_SQL: &'static str =
    "INSERT OR REPLACE INTO memories (id, type, content, tags, updated_at) \
     VALUES (?, ?, ?, ?, datetime('now'))";

/// The removal of a memory by its id.
pub const DELETE_SQL: &'static str = "DELETE FROM memories WHERE id = ?";

/// The statement that overwrites the memory `id` with `content` and
/// `tags`.
pub fn update_statement(id: &str, content: &str, tags: &str) -> (st: Statement)
    ensures
        st.sql == UPDATE_SQL,
        st.bound() == seq![
            ParamView::Text(content@),
            ParamView::Text(tags@),
            ParamView::Text(id@),
        ],
{
    statement_3(UPDATE_SQL, text_param(content), text_param(tags), text_param(id))
}

/// The statement that writes a memory under `id`.
pub fn insert_statement(id: &str, mem_type: &str, content: &str, tags: &str) -> (st: Statement)
    ensures
        st.sql == INSERT_SQL,
        st.bound() == seq![
            ParamView::Text(id@),
            ParamView::Text(mem_type@),
            ParamView::Text(content@),
            ParamView::Text(tags@),
        ],
{
    statement_4(
        INSERT_SQL,
        text_param(id),
        text_param(mem_type),
        text_param(content),
        text_param(tags),
    )
}

/// The statement that carries out `action`: the overwrite of the
/// duplicate, or the write under `fresh_id`.
pub fn save_statement(
    action: &SaveAction,
    fresh_id: &str,
    mem_type: &str,
    content: &str,
    tags: &str,
) -> (st: Statement)
    ensures
        match *action {
            SaveAction::Update(id) => st.sql == UPDATE_SQL && st.bound() == seq![
                ParamView::Text(content@),
                ParamView::Text(tags@),
                ParamView::Text(id@),
            ],
            SaveAction::Insert => st.sql == INSERT_SQL && st.bound() == seq![
                ParamView::Text(fresh_id@),
                ParamView::Text(mem_type@),
                ParamView::Text(content@),
                ParamView::Text(tags@),
            ],
        },
{
    match action {
        SaveAction::Update(id) => update_statement(id.as_str(), content, tags),
        SaveAction::Insert => insert_statement(fresh_id, mem_type, content, tags),
    }
}

/// The outcome of a save whose statement the engine answered: an overwrite
/// reports `"updated"` under the id of the duplicate, a write `"new"`
/// under the fresh id, and an engine that failed its error.
pub fn save_outcome(action: SaveAction, fresh_id: String, answer: Result<usize, rusqlite::Error>)
    -> (saved: Result<SaveResult, MemoryError>)
    ensures
        saved is Ok <==> answer is Ok,
        saved is Err ==> saved->Err_0 is Store,
        saved matches Ok(res) ==> match action {
            SaveAction::Update(id) => res.id == id && res.dedup@ == "updated"@,
            SaveAction::Insert => res.id == fresh_id && res.dedup@ == "new"@,
        },
{
    match answer {
        Ok(_) => match action {
            SaveAction::Update(id) => Ok(SaveResult { id, dedup: "updated".to_owned() }),
            SaveAction::Insert => Ok(SaveResult { id: fresh_id, dedup: "new".to_owned() }),
        },
        Err(e) => Err(store_error(&e)),
    }
}

/// Saves a memory. Empty content is refused. For every type but
/// `conversation` a duplicate is looked for first; where there is one, its
/// content and tags are overwritten, its update time is refreshed, its
/// vector is cleared, and the outcome is `"updated"` under its id. Else the
/// memory is written under a fresh id and the outcome is `"new"`.
pub fn save_memory(conn: &rusqlite::Connection, mem_type: &str, content: &str, tags: &str) -> (saved:
    Result<SaveResult, MemoryError>)
    ensures
        content@.len() == 0 ==> saved is Err && saved->Err_0 is InvalidInput,
        content@.len() > 0 && saved is Err ==> saved->Err_0 is Store,
        saved matches Ok(res) ==> content@.len() > 0 && (res.dedup@ == "updated"@ || res.dedup@
            == "new"@),
        saved matches Ok(res) ==> (res.dedup@ == "updated"@ ==> mem_type@ != "conversation"@
            && may_duplicate(res.id@, content@, DEDUP_THRESHOLD)),
        saved matches Ok(res) ==> (res.dedup@ == "new"@ ==> exists|stamp: Seq<char>|
            res.id@ == short_hash(id_text(mem_type@, content@, stamp))),
{
    proof {
        lemma_outcomes_differ();
    }
    if content.is_empty() {
        return Err(MemoryError::InvalidInput);
    }
    let duplicate = if dedup_applies(mem_type) {
        find_duplicate(conn, content, mem_type, DEDUP_THRESHOLD)
    } else {
        None
    };
    let action = match save_action(content, mem_type, duplicate) {
        Ok(a) => a,
        Err(e) => {
            return Err(e);
        },
    };
    let fresh_id = match &action {
        SaveAction::Update(_) => String::new(),
        SaveAction::Insert => generate_id(content, mem_type),
    };
    let st = save_statement(&action, fresh_id.as_str(), mem_type, content, tags);
    save_outcome(action, fresh_id, run_statement(conn, st.sql, &st.params))
}

/// The statement that removes the memory `id`.
pub fn delete_statement(id: &str) -> (st: Statement)
    ensures
        st.sql == DELETE_SQL,
        st.bound() == seq![ParamView::Text(id@)],
{
    statement_1(DELETE_SQL, text_param(id))
}

/// Whether the answer to a removal says that a memory was removed: it was
/// where the engine changed a row. An engine that failed gives its error.
pub fn deleted_answer(answer: Result<usize, rusqlite::Error>) -> (deleted: Result<
    bool,
    MemoryError,
>)
    ensures
        deleted is Ok <==> answer is Ok,
        deleted is Err ==> deleted->Err_0 is Store,
        answer matches Ok(changed) ==> deleted == Ok::<bool, MemoryError>(changed > 0),
{
    match answer {
        Ok(changed) => Ok(changed > 0),
        Err(e) => Err(store_error(&e)),
    }
}

/// Deletes the memory `id`; its chunks and its entry in the lexical index
/// go with it. The answer says whether a memory was deleted: no error is
/// made of a memory that is not there. An empty id is refused, and an
/// engine that fails gives its error.
pub fn delete_memory(conn: &rusqlite::Connection, id: &str) -> (deleted: Result<bool, MemoryError>)
    ensures
        id@.len() == 0 ==> deleted is Err && deleted->Err_0 is InvalidInput,
        id@.len() > 0 && deleted is Err ==> deleted->Err_0 is Store,
{
    if id.is_empty() {
        return Err(MemoryError::InvalidInput);
    }
    let st = delete_statement(id);
    deleted_answer(run_statement(conn, st.sql, &st.params))
}

/// The listing of the memories that were updated last.
pub const LIST_SQL: &'static str =
    "SELECT id, type, content, tags, created_at FROM memories \
     ORDER BY updated_at DESC LIMIT ?";

/// The listing of the memories of one type that were updated last.
pub const LIST_BY_TYPE_SQL: &'static str =
    "SELECT id, type, content, tags, created_at FROM memories \
     WHERE type = ? ORDER BY updated_at DESC LIMIT ?";

/// The count of the memories.
pub const COUNT_MEMORIES_SQL: &'static str = "SELECT COUNT(*) FROM memories";

/// The count of the memories that have a vector.
pub const COUNT_INDEXED_SQL: &'static str =
    "SELECT COUNT(*) FROM memories WHERE embedding IS NOT NULL";

/// The count of the chunks.
pub const COUNT_CHUNKS_SQL: &'static str = "SELECT COUNT(*) FROM memory_chunks";

/// The count of the cached vectors.
pub const COUNT_CACHE_SQL: &'static str = "SELECT COUNT(*) FROM embedding_cache";

/// The count of the memories of each type.
pub const HISTOGRAM_SQL: &'static str = "SELECT type, COUNT(*) FROM memories GROUP BY type";

/// The memories that have no vector yet.
pub const UNINDEXED_SQL: &'static str = "SELECT id, content FROM memories WHERE embedding IS NULL";

/// The views of records.
pub open spec fn record_views(recs: Seq<MemoryRecord>) -> Seq<MemoryRecordView> {
    recs.map_values(|r: MemoryRecord| r@)
}

/// The type that a listing asks for, as plain text.
pub open spec fn type_view(mem_type: Option<&str>) -> Option<Seq<char>> {
    match mem_type {
        Some(t) => Some(t@),
        None => None,
    }
}

/// Whether a record belongs into a listing of the type `mem_type`: every
/// record does where no type is given.
pub open spec fn of_type(mem_type: Option<Seq<char>>) -> spec_fn(MemoryRecordView) -> bool {
    |r: MemoryRecordView|
        match mem_type {
            Some(t) => r.mem_type == t,
            None => true,
        }
}

/// The listing that is made of the records `recs`: those of the type
/// `mem_type`, in their order, and no more than `limit` of them where
/// `limit` is not negative.
pub open spec fn listed_of(recs: Seq<MemoryRecordView>, mem_type: Option<Seq<char>>, limit: i64)
    -> Seq<MemoryRecordView> {
    let kept = recs.filter(of_type(mem_type));
    if 0 <= limit < kept.len() {
        kept.take(limit as int)
    } else {
        kept
    }
}

/// The statement that asks for the memories that were updated last, newest
/// first and `limit` at most; only for those of type `mem_type` where one
/// is given.
pub fn listing(mem_type: Option<&str>, limit: i64) -> (st: Statement)
    ensures
        match mem_type {
            Some(t) => st.sql == LIST_BY_TYPE_SQL && st.bound() == seq![
                ParamView::Text(t@),
                ParamView::Integer(limit),
            ],
            None => st.sql == LIST_SQL && st.bound() == seq![ParamView::Integer(limit)],
        },
{
    match mem_type {
        Some(t) => statement_2(LIST_BY_TYPE_SQL, text_param(t), SqlParam::Integer(limit)),
        None => statement_1(LIST_SQL, SqlParam::Integer(limit)),
    }
}

/// A copy of `r`.
pub fn copy_record(r: &MemoryRecord) -> (c: MemoryRecord)
    ensures
        c == *r,
{
    MemoryRecord {
        id: r.id.clone(),
        mem_type: r.mem_type.clone(),
        content: r.content.clone(),
        tags: r.tags.clone(),
        created_at: r.created_at.clone(),
    }
}

/// Makes the listing of the records `recs`.
pub fn select_listed(recs: &Vec<MemoryRecord>, mem_type: Option<&str>, limit: i64) -> (listed: Vec<
    MemoryRecord,
>)
    ensures
        record_views(listed@) == listed_of(record_views(recs@), type_view(mem_type), limit),
        0 <= limit ==> listed.len() <= limit,
        mem_type matches Some(t) ==> forall|i: int|
            0 <= i < listed.len() ==> (#[trigger] listed@[i]).mem_type@ == t@,
{
    let ghost wanted = of_type(type_view(mem_type));
    let ghost all = record_views(recs@);
    let mut listed: Vec<MemoryRecord> = Vec::new();
    let mut i: usize = 0;
    proof {
        reveal(Seq::filter);
        assert(all.take(0).filter(wanted) =~= Seq::<MemoryRecordView>::empty());
        assert(record_views(listed@) =~= Seq::<MemoryRecordView>::empty());
    }
    while i < recs.len()
        invariant
            i <= recs.len(),
            wanted == of_type(type_view(mem_type)),
            all == record_views(recs@),
            record_views(listed@) == all.take(i as int).filter(wanted),
            mem_type matches Some(t) ==> forall|k: int|
                0 <= k < listed.len() ==> (#[trigger] listed@[k]).mem_type@ == t@,
        decreases recs.len() - i,
    {
        let ghost before = record_views(listed@);
        let keep = match mem_type {
            Some(t) => str_eq(recs[i].mem_type.as_str(), t),
            None => true,
        };
        proof {
            assert(all.take(i + 1) =~= all.take(i as int).push(recs@[i as int]@));
            all.take(i as int).lemma_filter_push(recs@[i as int]@, wanted);
            assert(keep == wanted(recs@[i as int]@));
        }
        if keep {
            listed.push(copy_record(&recs[i]));
            assert(record_views(listed@) =~= before.push(recs@[i as int]@));
        }
        i += 1;
    }
    assert(all.take(recs.len() as int) =~= all);
    let ghost kept = record_views(listed@);
    if limit >= 0 && (limit as u64) < listed.len() as u64 {
        listed.truncate(limit as usize);
        assert(record_views(listed@) =~= kept.take(limit as int));
    }
    listed
}

/// The memories that the rows of an answer hold, row by row.
pub open spec fn records_of(rows: Seq<SqlRow>) -> Seq<MemoryRecordView> {
    rows.map_values(|r: SqlRow| record_row()(r)->0)
}

/// Whether `list` is the listing that is made of the rows `rows`.
pub open spec fn is_listing_of(
    list: Seq<MemoryRecord>,
    rows: Seq<SqlRow>,
    mem_type: Option<Seq<char>>,
    limit: i64,
) -> bool {
    record_views(list) == listed_of(records_of(rows), mem_type, limit)
}

/// The listing that the answer of the engine holds: the memories of its
/// rows, those of the asked type, up to `limit`. One row that holds no
/// memory spoils the answer, as does an engine that failed.
pub fn listed_answer(
    answer: Result<Vec<SqlRow>, rusqlite::Error>,
    mem_type: Option<&str>,
    limit: i64,
) -> (listed: Result<Vec<MemoryRecord>, MemoryError>)
    ensures
        listed is Err ==> listed->Err_0 is Store,
        listed is Ok <==> (answer matches Ok(rows) && forall|i: int|
            0 <= i < rows.len() ==> record_row()(#[trigger] rows@[i]) is Some),
        listed matches Ok(list) ==> answer matches Ok(rows) && is_listing_of(
            list@,
            rows@,
            type_view(mem_type),
            limit,
        ),
        listed matches Ok(list) ==> (0 <= limit ==> list.len() <= limit) && (mem_type matches Some(
            t,
        ) ==> forall|i: int| 0 <= i < list.len() ==> (#[trigger] list@[i]).mem_type@ == t@),
{
    match answer {
        Ok(rows) => match memory_records(&rows) {
            Ok(recs) => {
                assert(record_views(recs@) =~= records_of(rows@));
                Ok(select_listed(&recs, mem_type, limit))
            },
            Err(e) => Err(e),
        },
        Err(e) => Err(store_error(&e)),
    }
}

/// The memories that were updated last, newest first, at most `limit` of
/// them; only those of type `mem_type` where one is given.
pub fn list_memories(conn: &rusqlite::Connection, mem_type: Option<&str>, limit: i64) -> (listed:
    Result<Vec<MemoryRecord>, MemoryError>)
    ensures
        listed is Err ==> listed->Err_0 is Store,
        listed matches Ok(list) ==> exists|rows: Seq<SqlRow>| #[trigger]
            is_listing_of(list@, rows, type_view(mem_type), limit),
        listed matches Ok(list) ==> (0 <= limit ==> list.len() <= limit),
        listed matches Ok(list) ==> (mem_type matches Some(t) ==> forall|i: int|
            0 <= i < list.len() ==> (#[trigger] list@[i]).mem_type@ == t@),
{
    let st = listing(mem_type, limit);
    let answer = run_query(conn, st.sql, &st.params);
    let ghost asked = answer;
    let listed = listed_answer(answer, mem_type, limit);
    proof {
        if listed is Ok {
            assert(is_listing_of(listed->Ok_0@, asked->Ok_0@, type_view(mem_type), limit));
        }
    }
    listed
}

/// The histogram that an answer holds; an answer that failed holds none.
pub fn histogram_answer(answer: Result<Vec<SqlRow>, rusqlite::Error>) -> (counts: Vec<
    (String, i64),
>)
    ensures
        histogram_view(counts@) == match answer {
            Ok(rows) => rows@.filter_map(type_and_count()),
            Err(_) => Seq::empty(),
        },
{
    match answer {
        Ok(rows) => type_counts(&rows),
        Err(_) => {
            let none: Vec<(String, i64)> = Vec::new();
            assert(histogram_view(none@) =~= Seq::empty());
            none
        },
    }
}

/// The statement that counts the memories.
pub fn count_memories() -> (st: Statement)
    ensures
        st.sql == COUNT_MEMORIES_SQL,
        st.bound() == Seq::<ParamView>::empty(),
{
    statement_0(COUNT_MEMORIES_SQL)
}

/// The statement that counts the memories that have a vector.
pub fn count_indexed() -> (st: Statement)
    ensures
        st.sql == COUNT_INDEXED_SQL,
        st.bound() == Seq::<ParamView>::empty(),
{
    statement_0(COUNT_INDEXED_SQL)
}

/// The statement that counts the chunks.
pub fn count_chunks() -> (st: Statement)
    ensures
        st.sql == COUNT_CHUNKS_SQL,
        st.bound() == Seq::<ParamView>::empty(),
{
    statement_0(COUNT_CHUNKS_SQL)
}

/// The statement that counts the cached vectors.
pub fn count_cache() -> (st: Statement)
    ensures
        st.sql == COUNT_CACHE_SQL,
        st.bound() == Seq::<ParamView>::empty(),
{
    statement_0(COUNT_CACHE_SQL)
}

/// The statement that counts the memories of each type.
pub fn histogram() -> (st: Statement)
    ensures
        st.sql == HISTOGRAM_SQL,
        st.bound() == Seq::<ParamView>::empty(),
{
    statement_0(HISTOGRAM_SQL)
}

/// The statement that asks for the memories that have no vector yet.
pub fn unindexed() -> (st: Statement)
    ensures
        st.sql == UNINDEXED_SQL,
        st.bound() == Seq::<ParamView>::empty(),
{
    statement_0(UNINDEXED_SQL)
}

/// The count that an answer holds; an answer that failed holds 0.
pub open spec fn count_answer(answer: Result<Vec<SqlRow>, rusqlite::Error>) -> i64 {
    match answer {
        Ok(rows) => count_of(rows@),
        Err(_) => 0,
    }
}

/// The histogram that an answer holds; an answer that failed holds none.
pub open spec fn histogram_of(answer: Result<Vec<SqlRow>, rusqlite::Error>) -> Seq<
    (Seq<char>, i64),
> {
    match answer {
        Ok(rows) => rows@.filter_map(type_and_count()),
        Err(_) => Seq::empty(),
    }
}

/// Whether `stats` are the totals that the five answers hold: the count of
/// the memories, of the memories with a vector, of the chunks and of the
/// cached vectors, and the histogram of types.
pub open spec fn is_stats_of(
    stats: DbStats,
    total: Result<Vec<SqlRow>, rusqlite::Error>,
    indexed: Result<Vec<SqlRow>, rusqlite::Error>,
    chunks: Result<Vec<SqlRow>, rusqlite::Error>,
    cache: Result<Vec<SqlRow>, rusqlite::Error>,
    by_type: Result<Vec<SqlRow>, rusqlite::Error>,
) -> bool {
    &&& stats.total == count_answer(total)
    &&& stats.indexed == count_answer(indexed)
    &&& stats.chunks == count_answer(chunks)
    &&& stats.cache_entries == count_answer(cache)
    &&& histogram_view(stats.by_type@) == histogram_of(by_type)
}

/// The totals that the five answers hold.
pub fn stats_of(
    total: &Result<Vec<SqlRow>, rusqlite::Error>,
    indexed: &Result<Vec<SqlRow>, rusqlite::Error>,
    chunks: &Result<Vec<SqlRow>, rusqlite::Error>,
    cache: &Result<Vec<SqlRow>, rusqlite::Error>,
    by_type: Result<Vec<SqlRow>, rusqlite::Error>,
) -> (stats: DbStats)
    ensures
        is_stats_of(stats, *total, *indexed, *chunks, *cache, by_type),
{
    DbStats {
        total: read_count(total),
        indexed: read_count(indexed),
        chunks: read_count(chunks),
        cache_entries: read_count(cache),
        by_type: histogram_answer(by_type),
    }
}

/// The totals of the corpus: what the engine answers to the five counts. A
/// count that cannot be read is 0.
pub fn get_stats(conn: &rusqlite::Connection) -> (stats: DbStats)
    ensures
        exists|
            total: Result<Vec<SqlRow>, rusqlite::Error>,
            indexed: Result<Vec<SqlRow>, rusqlite::Error>,
            chunks: Result<Vec<SqlRow>, rusqlite::Error>,
            cache: Result<Vec<SqlRow>, rusqlite::Error>,
            by_type: Result<Vec<SqlRow>, rusqlite::Error>,
        | #[trigger] is_stats_of(stats, total, indexed, chunks, cache, by_type),
{
    let ask_total = count_memories();
    let ask_indexed = count_indexed();
    let ask_chunks = count_chunks();
    let ask_cache = count_cache();
    let ask_types = histogram();
    let total = run_query(conn, ask_total.sql, &ask_total.params);
    let indexed = run_query(conn, ask_indexed.sql, &ask_indexed.params);
    let chunks = run_query(conn, ask_chunks.sql, &ask_chunks.params);
    let cache = run_query(conn, ask_cache.sql, &ask_cache.params);
    let by_type = run_query(conn, ask_types.sql, &ask_types.params);
    let ghost answered = by_type;
    let stats = stats_of(&total, &indexed, &chunks, &cache, by_type);
    assert(is_stats_of(stats, total, indexed, chunks, cache, answered));
    stats
}

/// The memories without a vector that an answer holds: the id and the
/// content of every row that holds two texts. An engine that failed gives
/// its error.
pub fn pending_answer(answer: Result<Vec<SqlRow>, rusqlite::Error>) -> (pending: Result<
    Vec<(String, String)>,
    MemoryError,
>)
    ensures
        pending is Ok <==> answer is Ok,
        pending is Err ==> pending->Err_0 is Store,
        pending matches Ok(pairs) ==> answer matches Ok(rows) && pairs.deep_view()
            == rows@.filter_map(id_and_content()),
{
    match answer {
        Ok(rows) => Ok(id_content_pairs(&rows)),
        Err(e) => Err(store_error(&e)),
    }
}

/// The id and the content of every memory that has no vector yet.
pub fn get_unindexed_memories(conn: &rusqlite::Connection) -> (pending: Result<
    Vec<(String, String)>,
    MemoryError,
>)
    ensures
        pending is Err ==> pending->Err_0 is Store,
{
    let st = unindexed();
    pending_answer(run_query(conn, st.sql, &st.params))
}

/// The statement that rebuilds the lexical index from the memories.
pub fn rebuild() -> (st: Statement)
    ensures
        st.sql == REBUILD_SQL,
        st.bound() == Seq::<ParamView>::empty(),
{
    statement_0(REBUILD_SQL)
}

/// The statement that reclaims storage.
pub fn vacuum() -> (st: Statement)
    ensures
        st.sql == VACUUM_SQL,
        st.bound() == Seq::<ParamView>::empty(),
{
    statement_0(VACUUM_SQL)
}

/// Rebuilds the lexical index from the memories and reclaims storage. A
/// rebuild that fails does not stop the reclaiming.
pub fn compact_db(conn: &rusqlite::Connection) -> (done: Result<(), MemoryError>)
    ensures
        done is Err ==> done->Err_0 is Store,
{
    let _ = run_batch(conn, rebuild().sql);
    settled(run_batch(conn, vacuum().sql))
}

} // verus!
