use mcp_memoria::ident::{
    chunk_id, compute_text_hash, generate_id, hex_prefix, memory_id, session_memory_id,
};
use sha2::{Digest, Sha256};

fn sha_hex(input: &str) -> String {
    let digest = Sha256::digest(input.as_bytes());
    digest.iter().map(|b| format!("{:02x}", b)).collect()
}

#[test]
fn test_text_hash_is_sha256_of_model_and_text() {
    assert_eq!(compute_text_hash("hello", "m"), sha_hex("m:hello"));
    assert_eq!(
        compute_text_hash("", ""),
        "e7ac0786668e0ff0f02b62bd04f45ff636fd82db63b1104601c975dc005f3a67"
    );
    assert_ne!(compute_text_hash("hello", "m"), compute_text_hash("m", "hello"));
}

#[test]
fn test_memory_id_is_first_sixteen_hex_digits() {
    let id = memory_id("content", "note", "2024-05-01T10:00:00+00:00");
    assert_eq!(id, sha_hex("note:content:2024-05-01T10:00:00+00:00")[..16]);
    assert_eq!(id.len(), 16);
    assert_ne!(id, memory_id("content", "note", "2024-05-01T10:00:01+00:00"));
}

#[test]
fn test_generated_id_has_the_shape_of_an_id() {
    let id = generate_id("content", "note");
    assert_eq!(id.len(), 16);
    assert!(id.chars().all(|c| matches!(c, '0'..='9' | 'a'..='f')));
}

#[test]
fn test_session_id_is_stable() {
    assert_eq!(session_memory_id("abc"), sha_hex("session:abc")[..16]);
    assert_eq!(session_memory_id("abc"), session_memory_id("abc"));
    assert_ne!(session_memory_id("abc"), session_memory_id("abd"));
}

#[test]
fn test_hex_and_chunk_ids() {
    assert_eq!(hex_prefix(&[0x00, 0x0f, 0xa5, 0xff], 4), "000fa5ff");
    assert_eq!(hex_prefix(&[0xde, 0xad, 0xbe, 0xef], 2), "dead");
    assert_eq!(hex_prefix(&[0xde], 0), "");
    assert_eq!(chunk_id("abc", 0), "abc_c0");
    assert_eq!(chunk_id("abc", 7), "abc_c7");
    assert_eq!(chunk_id("abc", 10), "abc_c10");
    assert_eq!(chunk_id("0123456789abcdef", 1234567890), "0123456789abcdef_c1234567890");
}
