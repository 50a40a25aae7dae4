use mcp_memoria::chunking::chunk_text;

#[test]
fn test_short_text_no_chunking() {
    let text = "hello world foo bar";
    let chunks = chunk_text(text, 400, 80);
    assert_eq!(chunks.len(), 1);
    assert_eq!(chunks[0], text);
}

#[test]
fn test_chunking_with_overlap() {
    let text = "a b c d e f g h i j";
    let chunks = chunk_text(text, 4, 2);
    assert_eq!(chunks[0], "a b c d");
    assert_eq!(chunks[1], "c d e f");
    assert_eq!(chunks[2], "e f g h");
    assert_eq!(chunks[3], "g h i j");
}

#[test]
fn test_exact_chunk_size() {
    let text = "a b c d";
    let chunks = chunk_text(text, 4, 2);
    assert_eq!(chunks.len(), 1);
}
