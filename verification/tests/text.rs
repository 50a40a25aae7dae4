use mcp_memoria::chunking::chunk_text;
use mcp_memoria::text::{join_words, split_whitespace};

#[test]
fn test_split_whitespace_matches_std() {
    for text in [
        "",
        " ",
        "one",
        "  leading and trailing  ",
        "tabs\tand\nnewlines\r\nmixed",
        "unicode\u{00a0}no-break\u{2003}em\u{3000}ideographic",
        "a  b   c",
    ] {
        let expected: Vec<String> = text.split_whitespace().map(|w| w.to_string()).collect();
        assert_eq!(split_whitespace(text), expected, "for {:?}", text);
    }
}

#[test]
fn test_join_words_ranges() {
    let words: Vec<String> = "a b c d".split(' ').map(|w| w.to_string()).collect();
    assert_eq!(join_words(&words, 0, 4), "a b c d");
    assert_eq!(join_words(&words, 1, 3), "b c");
    assert_eq!(join_words(&words, 2, 2), "");
    assert_eq!(join_words(&words, 3, 4), "d");
}

#[test]
fn test_chunk_last_window_ends_at_last_word() {
    let chunks = chunk_text("a b c d e f g", 4, 1);
    assert_eq!(chunks, vec!["a b c d", "d e f g"]);
    let chunks = chunk_text("a b c d e f g h", 4, 1);
    assert_eq!(chunks, vec!["a b c d", "d e f g", "g h"]);
    let chunks = chunk_text("a b c d e", 4, 0);
    assert_eq!(chunks, vec!["a b c d", "e"]);
}

#[test]
fn test_chunk_short_text_is_verbatim() {
    assert_eq!(chunk_text("  keep   my  spaces ", 3, 1), vec!["  keep   my  spaces "]);
    assert_eq!(chunk_text("", 3, 1), vec![""]);
}

#[test]
fn test_chunk_windows_overlap_and_bound() {
    let words: Vec<String> = (0..1000).map(|i| format!("w{}", i)).collect();
    let text = words.join("  ");
    let chunks = chunk_text(&text, 400, 80);
    assert_eq!(chunks.len(), 3);
    for (k, chunk) in chunks.iter().enumerate() {
        let got: Vec<&str> = chunk.split(' ').collect();
        assert!(got.len() <= 400);
        assert_eq!(got[0], format!("w{}", k * 320));
    }
    let first: Vec<&str> = chunks[0].split(' ').collect();
    let second: Vec<&str> = chunks[1].split(' ').collect();
    assert_eq!(first[320..], second[..80]);
    assert!(chunks[2].ends_with("w999"));
}
