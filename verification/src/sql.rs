//! The SQLite engine behind a corpus, reached through `rusqlite`.
//!
//! What a statement finds or changes depends on the database file, which
//! other handles may write at any time, so nothing is promised here about
//! the answers: the callers decide on whatever comes back.

use vstd::prelude::*;

verus! {

/// `rusqlite::Connection`: a handle on one database. Nothing is known of
/// what is inside.
#[verifier::external_type_specification]
#[verifier::external_body]
pub struct ExConnection(rusqlite::Connection);

/// `rusqlite::Error`: what the engine reports when it fails. Nothing is
/// known of what is inside.
#[verifier::external_type_specification]
#[verifier::external_body]
pub struct ExSqlError(rusqlite::Error);

/// `rusqlite::types::Value`: a value as the engine holds it. It is only
/// built from a `SqlParam` and taken apart into a `SqlValue`.
#[verifier::external_type_specification]
#[verifier::external_body]
pub struct ExValue(rusqlite::types::Value);

/// A value bound to a placeholder of a statement.
pub enum SqlParam {
    Integer(i64),
    Text(String),
    Blob(Vec<u8>),
}

/// A bound value as plain data.
pub enum ParamView {
    Integer(i64),
    Text(Seq<char>),
    Blob(Seq<u8>),
}

impl View for SqlParam {
    type V = ParamView;

    open spec fn view(&self) -> ParamView {
        match *self {
            SqlParam::Integer(n) => ParamView::Integer(n),
            SqlParam::Text(s) => ParamView::Text(s@),
            SqlParam::Blob(b) => ParamView::Blob(b@),
        }
    }
}

/// A statement for the engine: its text, and the values that are bound to
/// its placeholders, in order.
pub struct Statement {
    pub sql: &'static str,
    pub params: Vec<SqlParam>,
}

impl Statement {
    /// The values that are bound to the placeholders, as plain data.
    pub open spec fn bound(self) -> Seq<ParamView> {
        self.params@.map_values(|p: SqlParam| p@)
    }
}

/// A value read from a column. A real number is held as its IEEE-754 bit
/// pattern.
pub enum SqlValue {
    Null,
    Integer(i64),
    Real(u64),
    Text(String),
    Blob(Vec<u8>),
}

/// A row of a result, or `None` where the row could not be read.
pub type SqlRow = Option<Vec<SqlValue>>;

/// What went wrong in an operation on a corpus.
pub enum MemoryError {
    /// The request itself is unusable: empty content, a missing id.
    InvalidInput,
    /// The engine refused or failed; the text is its message.
    Store(String),
}

/// Builds the `rusqlite::types::Value` that is bound for `p`: the variant
/// of the same name with the same content. Nothing is claimed of it.
#[verifier::external_body]
fn bound_value(p: &SqlParam) -> rusqlite::types::Value {
    match p {
        SqlParam::Integer(n) => rusqlite::types::Value::Integer(*n),
        SqlParam::Text(s) => rusqlite::types::Value::Text(s.clone()),
        SqlParam::Blob(b) => rusqlite::types::Value::Blob(b.clone()),
    }
}

/// Takes a `rusqlite::types::Value` apart, variant by variant; a real
/// number is read by `f64::to_bits`. Nothing is claimed of the result.
#[verifier::external_body]
fn column_value(v: rusqlite::types::Value) -> SqlValue {
    match v {
        rusqlite::types::Value::Null => SqlValue::Null,
        rusqlite::types::Value::Integer(n) => SqlValue::Integer(n),
        rusqlite::types::Value::Real(x) => SqlValue::Real(x.to_bits()),
        rusqlite::types::Value::Text(s) => SqlValue::Text(s),
        rusqlite::types::Value::Blob(b) => SqlValue::Blob(b),
    }
}

/// `rusqlite::Connection::open`: a handle on the database at `path`, which
/// SQLite creates where there is none. Nothing is claimed of the result.
#[verifier::external_body]
pub(crate) fn open_connection(path: &str) -> Result<rusqlite::Connection, rusqlite::Error> {
    rusqlite::Connection::open(path)
}

/// `rusqlite::Connection::execute_batch`: runs the statements of `sql` in
/// order and stops at the first that fails. Nothing is claimed of the
/// result.
#[verifier::external_body]
pub(crate) fn run_batch(conn: &rusqlite::Connection, sql: &str) -> Result<(), rusqlite::Error> {
    conn.execute_batch(sql)
}

/// `rusqlite::Connection::execute`: runs one statement with `params` bound
/// in order and gives the number of rows it changed. Nothing is claimed of
/// the result.
#[verifier::external_body]
pub(crate) fn run_statement(
    conn: &rusqlite::Connection,
    sql: &str,
    params: &Vec<SqlParam>,
) -> Result<usize, rusqlite::Error> {
    conn.execute(sql, rusqlite::params_from_iter(params.iter().map(bound_value)))
}

/// `rusqlite::Statement::query_map` on the statement that
/// `rusqlite::Connection::prepare` makes of `sql`, with `params` bound in
/// order: the rows of the result in the order in which SQLite yields them,
/// every column of the `rusqlite::Statement::column_count` columns read
/// with `rusqlite::Row::get`. A row that cannot be read is `None`. Nothing
/// is claimed of the result.
#[verifier::external_body]
pub(crate) fn run_query(
    conn: &rusqlite::Connection,
    sql: &str,
    params: &Vec<SqlParam>,
) -> Result<Vec<SqlRow>, rusqlite::Error> {
    let mut stmt = conn.prepare(sql)?;
    let width = stmt.column_count();
    let rows = stmt.query_map(
        rusqlite::params_from_iter(params.iter().map(bound_value)),
        |row| (0..width).map(|i| row.get(i).map(column_value)).collect(),
    )?;
    Ok(rows.map(|row| row.ok()).collect())
}

/// The message of a `rusqlite::Error`, as its `Display` writes it. Nothing
/// is claimed of the text.
#[verifier::external_body]
pub(crate) fn error_message(e: &rusqlite::Error) -> String {
    format!("{}", e)
}

/// The library's error for an engine error.
pub fn store_error(e: &rusqlite::Error) -> (err: MemoryError)
    ensures
        err is Store,
{
    MemoryError::Store(error_message(e))
}

/// What is left of the answer to a statement that only writes: that it was
/// carried out, or the error of the engine.
pub fn settled<T>(answer: Result<T, rusqlite::Error>) -> (done: Result<(), MemoryError>)
    ensures
        done is Ok <==> answer is Ok,
        done is Err ==> done->Err_0 is Store,
{
    match answer {
        Ok(_) => Ok(()),
        Err(e) => Err(store_error(&e)),
    }
}

/// A text as a bound value.
pub fn text_param(text: &str) -> (p: SqlParam)
    ensures
        p@ == ParamView::Text(text@),
{
    SqlParam::Text(text.to_owned())
}

/// The statement `sql` without bound values.
pub fn statement_0(sql: &'static str) -> (st: Statement)
    ensures
        st.sql == sql,
        st.bound() == Seq::<ParamView>::empty(),
{
    let st = Statement { sql, params: Vec::new() };
    assert(st.bound() =~= Seq::<ParamView>::empty());
    st
}

/// The statement `sql` with one bound value.
pub fn statement_1(sql: &'static str, a: SqlParam) -> (st: Statement)
    ensures
        st.sql == sql,
        st.bound() == seq![a@],
{
    let mut params: Vec<SqlParam> = Vec::new();
    params.push(a);
    let st = Statement { sql, params };
    assert(st.bound() =~= seq![a@]);
    st
}

/// The statement `sql` with two bound values.
pub fn statement_2(sql: &'static str, a: SqlParam, b: SqlParam) -> (st: Statement)
    ensures
        st.sql == sql,
        st.bound() == seq![a@, b@],
{
    let mut params: Vec<SqlParam> = Vec::new();
    params.push(a);
    params.push(b);
    let st = Statement { sql, params };
    assert(st.bound() =~= seq![a@, b@]);
    st
}

/// The statement `sql` with three bound values.
pub fn statement_3(sql: &'static str, a: SqlParam, b: SqlParam, c: SqlParam) -> (st: Statement)
    ensures
        st.sql == sql,
        st.bound() == seq![a@, b@, c@],
{
    let mut params: Vec<SqlParam> = Vec::new();
    params.push(a);
    params.push(b);
    params.push(c);
    let st = Statement { sql, params };
    assert(st.bound() =~= seq![a@, b@, c@]);
    st
}

/// The statement `sql` with four bound values.
pub fn statement_4(sql: &'static str, a: SqlParam, b: SqlParam, c: SqlParam, d: SqlParam) -> (st:
    Statement)
    ensures
        st.sql == sql,
        st.bound() == seq![a@, b@, c@, d@],
{
    let mut params: Vec<SqlParam> = Vec::new();
    params.push(a);
    params.push(b);
    params.push(c);
    params.push(d);
    let st = Statement { sql, params };
    assert(st.bound() =~= seq![a@, b@, c@, d@]);
    st
}

/// Hands the statements to the engine one after the other and stops at the
/// first that the engine does not carry out. No statements are carried out
/// at once.
pub fn run_all(conn: &rusqlite::Connection, statements: &Vec<Statement>) -> (done: Result<
    (),
    MemoryError,
>)
    ensures
        statements.len() == 0 ==> done is Ok,
        done is Err ==> done->Err_0 is Store,
{
    let mut i: usize = 0;
    while i < statements.len()
        invariant
            i <= statements.len(),
        decreases statements.len() - i,
    {
        let st = &statements[i];
        if let Err(e) = settled(run_statement(conn, st.sql, &st.params)) {
            return Err(e);
        }
        i += 1;
    }
    Ok(())
}

/// The text in column `i` of a row: only a text value counts.
pub open spec fn text_cell(cells: Seq<SqlValue>, i: int) -> Option<Seq<char>> {
    if 0 <= i < cells.len() {
        match cells[i] {
            SqlValue::Text(s) => Some(s@),
            _ => None,
        }
    } else {
        None
    }
}

/// The text in column `i` of a row where the column may be empty: `NULL`
/// counts as the empty text.
pub open spec fn optional_text_cell(cells: Seq<SqlValue>, i: int) -> Option<Seq<char>> {
    if 0 <= i < cells.len() {
        match cells[i] {
            SqlValue::Null => Some(Seq::empty()),
            SqlValue::Text(s) => Some(s@),
            _ => None,
        }
    } else {
        None
    }
}

/// The integer in column `i` of a row: only an integer value counts.
pub open spec fn integer_cell(cells: Seq<SqlValue>, i: int) -> Option<i64> {
    if 0 <= i < cells.len() {
        match cells[i] {
            SqlValue::Integer(n) => Some(n),
            _ => None,
        }
    } else {
        None
    }
}

/// The bytes in column `i` of a row: only a blob counts.
pub open spec fn blob_cell(cells: Seq<SqlValue>, i: int) -> Option<Seq<u8>> {
    if 0 <= i < cells.len() {
        match cells[i] {
            SqlValue::Blob(b) => Some(b@),
            _ => None,
        }
    } else {
        None
    }
}

/// The bit pattern of the real number in column `i` of a row.
pub open spec fn real_cell(cells: Seq<SqlValue>, i: int) -> Option<u64> {
    if 0 <= i < cells.len() {
        match cells[i] {
            SqlValue::Real(bits) => Some(bits),
            _ => None,
        }
    } else {
        None
    }
}

/// The characters of an optional text.
pub open spec fn text_view(t: Option<String>) -> Option<Seq<char>> {
    match t {
        Some(s) => Some(s@),
        None => None,
    }
}

/// The bytes of an optional blob.
pub open spec fn bytes_view(b: Option<Vec<u8>>) -> Option<Seq<u8>> {
    match b {
        Some(v) => Some(v@),
        None => None,
    }
}

/// Reads column `i` as text.
pub fn text_at(cells: &Vec<SqlValue>, i: usize) -> (t: Option<String>)
    ensures
        text_view(t) == text_cell(cells@, i as int),
{
    if i < cells.len() {
        match &cells[i] {
            SqlValue::Text(s) => Some(s.clone()),
            _ => None,
        }
    } else {
        None
    }
}

/// Reads column `i` as text that may be missing.
pub fn optional_text_at(cells: &Vec<SqlValue>, i: usize) -> (t: Option<String>)
    ensures
        text_view(t) == optional_text_cell(cells@, i as int),
{
    if i < cells.len() {
        match &cells[i] {
            SqlValue::Null => Some(String::new()),
            SqlValue::Text(s) => Some(s.clone()),
            _ => None,
        }
    } else {
        None
    }
}

/// Reads column `i` as an integer.
pub fn integer_at(cells: &Vec<SqlValue>, i: usize) -> (n: Option<i64>)
    ensures
        n == integer_cell(cells@, i as int),
{
    if i < cells.len() {
        match &cells[i] {
            SqlValue::Integer(n) => Some(*n),
            _ => None,
        }
    } else {
        None
    }
}

/// Reads column `i` as a blob.
pub fn blob_at(cells: &Vec<SqlValue>, i: usize) -> (b: Option<Vec<u8>>)
    ensures
        bytes_view(b) == blob_cell(cells@, i as int),
{
    if i < cells.len() {
        match &cells[i] {
            SqlValue::Blob(bytes) => Some(bytes.clone()),
            _ => None,
        }
    } else {
        None
    }
}

/// Reads column `i` as the bit pattern of a real number.
pub fn real_at(cells: &Vec<SqlValue>, i: usize) -> (bits: Option<u64>)
    ensures
        bits == real_cell(cells@, i as int),
{
    if i < cells.len() {
        match &cells[i] {
            SqlValue::Real(bits) => Some(*bits),
            _ => None,
        }
    } else {
        None
    }
}

} // verus!
