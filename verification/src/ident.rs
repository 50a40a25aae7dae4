//! Identifiers and cache keys: SHA-256 digests written in lowercase hex.

use sha2::Digest;
use vstd::prelude::*;
use crate::clock::now_rfc3339;
use vstd::string::StringExecFns;
use vstd::utf8::encode_utf8;

verus! {

/// The SHA-256 digest of `data`.
pub uninterp spec fn sha256(data: Seq<u8>) -> Seq<u8>;

/// `sha2::Sha256::digest`: the SHA-256 digest of `data`. The claim is that
/// it depends on `data` alone and has 32 bytes.
#[verifier::external_body]
pub(crate) fn sha256_digest(data: &[u8]) -> (digest: Vec<u8>)
    ensures
        digest@ == sha256(data@),
        digest@.len() == 32,
{
    sha2::Sha256::digest(data).to_vec()
}

/// The sixteen lowercase hex digits, by value.
pub open spec fn hex_digits() -> Seq<char> {
    seq!['0', '1', '2', '3', '4', '5', '6', '7', '8', '9', 'a', 'b', 'c', 'd', 'e', 'f']
}

/// `bytes` in lowercase hex: two digits for each byte, the high half first.
pub open spec fn hex(bytes: Seq<u8>) -> Seq<char> {
    Seq::new(
        2 * bytes.len(),
        |i: int|
            if i % 2 == 0 {
                hex_digits()[bytes[i / 2] as int / 16]
            } else {
                hex_digits()[bytes[i / 2] as int % 16]
            },
    )
}

/// The first sixteen hex digits of the SHA-256 digest of the UTF-8 bytes of
/// `text`.
pub open spec fn short_hash(text: Seq<char>) -> Seq<char> {
    hex(sha256(encode_utf8(text))).take(16)
}

/// The text that is hashed for the cache key of `text` under `model`.
pub open spec fn cache_key_text(text: Seq<char>, model: Seq<char>) -> Seq<char> {
    model + seq![':'] + text
}

/// The text that is hashed for the id of a memory saved at `stamp`.
pub open spec fn id_text(mem_type: Seq<char>, content: Seq<char>, stamp: Seq<char>) -> Seq<
    char,
> {
    mem_type + seq![':'] + content + seq![':'] + stamp
}

/// The text that is hashed for the id of the memory of a session.
pub open spec fn session_text(session_id: Seq<char>) -> Seq<char> {
    "session:"@ + session_id
}

/// The hex digit of `n`.
pub(crate) fn hex_char(n: u8) -> (c: char)
    requires
        n < 16,
    ensures
        c == hex_digits()[n as int],
{
    match n {
        0 => '0',
        1 => '1',
        2 => '2',
        3 => '3',
        4 => '4',
        5 => '5',
        6 => '6',
        7 => '7',
        8 => '8',
        9 => '9',
        10 => 'a',
        11 => 'b',
        12 => 'c',
        13 => 'd',
        14 => 'e',
        _ => 'f',
    }
}

/// The first `count` bytes of `bytes` in lowercase hex.
pub fn hex_prefix(bytes: &[u8], count: usize) -> (text: String)
    requires
        count <= bytes.len(),
    ensures
        text@ == hex(bytes@).take(2 * count),
{
    let mut text = String::new();
    let mut i: usize = 0;
    while i < count
        invariant
            i <= count <= bytes.len(),
            text@ == hex(bytes@).take(2 * i),
        decreases count - i,
    {
        let b: u8 = bytes[i];
        text.push(hex_char(b / 16));
        text.push(hex_char(b % 16));
        assert(text@ =~= hex(bytes@).take(2 * (i + 1)));
        i += 1;
    }
    text
}

/// The key under which the vector of `text` is cached for `model`: the
/// SHA-256 digest of `"{model}:{text}"` in lowercase hex.
pub fn compute_text_hash(text: &str, model: &str) -> (key: String)
    ensures
        key@ == hex(sha256(encode_utf8(cache_key_text(text@, model@)))),
        key@.len() == 64,
{
    let mut input = String::new();
    input.append(model);
    input.push(':');
    input.append(text);
    assert(input@ =~= cache_key_text(text@, model@));
    let digest = sha256_digest(input.as_str().as_bytes());
    let key = hex_prefix(digest.as_slice(), 32);
    assert(hex(digest@).take(64) =~= hex(digest@));
    key
}

/// The id of a memory of type `mem_type` and content `content` that is
/// saved at the moment written as `stamp`: the first sixteen hex digits of
/// the SHA-256 digest of `"{type}:{content}:{stamp}"`.
pub fn memory_id(content: &str, mem_type: &str, stamp: &str) -> (id: String)
    ensures
        id@ == short_hash(id_text(mem_type@, content@, stamp@)),
        id@.len() == 16,
{
    let mut input = String::new();
    input.append(mem_type);
    input.push(':');
    input.append(content);
    input.push(':');
    input.append(stamp);
    assert(input@ =~= id_text(mem_type@, content@, stamp@));
    let digest = sha256_digest(input.as_str().as_bytes());
    hex_prefix(digest.as_slice(), 8)
}

/// A fresh id for a memory: `memory_id` at the present moment, so that the
/// same content saved at two moments gets two ids.
pub fn generate_id(content: &str, mem_type: &str) -> (id: String)
    ensures
        exists|stamp: Seq<char>| id@ == short_hash(id_text(mem_type@, content@, stamp)),
        id@.len() == 16,
{
    let stamp = now_rfc3339();
    let id = memory_id(content, mem_type, stamp.as_str());
    assert(id@ == short_hash(id_text(mem_type@, content@, stamp@)));
    id
}

/// The id of the one memory that belongs to the session `session_id`: the
/// first sixteen hex digits of the SHA-256 digest of `"session:{id}"`.
pub fn session_memory_id(session_id: &str) -> (id: String)
    ensures
        id@ == short_hash(session_text(session_id@)),
        id@.len() == 16,
{
    let mut input = String::new();
    input.append("session:");
    input.append(session_id);
    assert(input@ =~= session_text(session_id@));
    let digest = sha256_digest(input.as_str().as_bytes());
    hex_prefix(digest.as_slice(), 8)
}

/// `n` written in decimal, without leading zeros.
pub open spec fn decimal(n: nat) -> Seq<char>
    decreases n,
{
    if n < 10 {
        seq![hex_digits()[n as int]]
    } else {
        decimal(n / 10).push(hex_digits()[(n % 10) as int])
    }
}

/// Appends `n` in decimal to `text`.
pub fn push_decimal(text: &mut String, n: usize)
    ensures
        final(text)@ == old(text)@ + decimal(n as nat),
    decreases n,
{
    if n < 10 {
        text.push(hex_char(n as u8));
        assert(text@ =~= old(text)@ + decimal(n as nat));
    } else {
        push_decimal(text, n / 10);
        text.push(hex_char((n % 10) as u8));
        assert(text@ =~= old(text)@ + decimal(n as nat));
    }
}

/// The id of chunk `index` of the memory `memory_id`.
pub open spec fn chunk_id_of(memory_id: Seq<char>, index: nat) -> Seq<char> {
    memory_id + "_c"@ + decimal(index)
}

/// The id of chunk `index` of the memory `memory_id`: `"{memory_id}_c{index}"`.
pub fn chunk_id(memory_id: &str, index: usize) -> (id: String)
    ensures
        id@ == chunk_id_of(memory_id@, index as nat),
{
    let mut id = String::new();
    id.append(memory_id);
    id.append("_c");
    push_decimal(&mut id, index);
    assert(id@ =~= chunk_id_of(memory_id@, index as nat));
    id
}

} // verus!
