use mcp_memoria::dedup::{
    contains_word, count_common, distinct_words, jaccard_sim, pick_similar, DEDUP_THRESHOLD,
};
use mcp_memoria::fts::{build_or_query, dedup_terms, match_query};
use mcp_memoria::score::SCORE_ONE;

fn sim(a: &str, b: &str) -> f64 {
    jaccard_sim(a, b) as f64 / SCORE_ONE as f64
}

fn words(v: &[&str]) -> Vec<String> {
    v.iter().map(|s| s.to_string()).collect()
}

#[test]
fn test_jaccard_identical() {
    assert!((sim("hello world", "hello world") - 1.0).abs() < 0.001);
}

#[test]
fn test_jaccard_different() {
    assert!(sim("hello world", "foo bar") < 0.01);
}

#[test]
fn test_jaccard_partial() {
    let s = sim("hello world foo", "hello world bar");
    assert!((s - 0.5).abs() < 0.01);
    assert_eq!(jaccard_sim("hello world foo", "hello world bar"), 500_000_000);
}

#[test]
fn test_jaccard_empty() {
    assert_eq!(sim("", "hello"), 0.0);
    assert_eq!(sim("hello", ""), 0.0);
    assert_eq!(jaccard_sim("   ", "hello"), 0);
}

#[test]
fn test_jaccard_ignores_case_and_repeats() {
    assert_eq!(jaccard_sim("Hello HELLO hello", "hello"), 1_000_000_000);
    assert_eq!(jaccard_sim("a b c", "A\tB\nC   c"), 1_000_000_000);
    assert_eq!(jaccard_sim("a b c", "a"), 333_333_333);
    assert_eq!(jaccard_sim("a b", "b c"), 333_333_333);
    assert_eq!(jaccard_sim("a b c d", "a b c"), 750_000_000);
}

#[test]
fn test_threshold_boundary_is_inclusive() {
    let a = "w1 w2 w3 w4 w5 w6 w7 w8 w9 w10 w11 w12 w13 w14 w15 w16 w17 x1 x2 x3";
    let b = "w1 w2 w3 w4 w5 w6 w7 w8 w9 w10 w11 w12 w13 w14 w15 w16 w17";
    assert_eq!(jaccard_sim(a, b), 850_000_000);
    let candidates = vec![("id-1".to_string(), b.to_string())];
    assert_eq!(pick_similar(&candidates, a, DEDUP_THRESHOLD), Some("id-1".to_string()));
    assert_eq!(pick_similar(&candidates, a, DEDUP_THRESHOLD + 1), None);
}

#[test]
fn test_pick_similar_takes_first_match() {
    let candidates = vec![
        ("far".to_string(), "nothing in common here".to_string()),
        ("near".to_string(), "alpha beta gamma".to_string()),
        ("same".to_string(), "alpha beta gamma delta".to_string()),
    ];
    assert_eq!(
        pick_similar(&candidates, "alpha beta gamma delta", 700_000_000),
        Some("near".to_string())
    );
    assert_eq!(
        pick_similar(&candidates, "alpha beta gamma delta", 800_000_000),
        Some("same".to_string())
    );
    assert_eq!(pick_similar(&Vec::new(), "alpha", 0), None);
}

#[test]
fn test_word_helpers() {
    let all = words(&["b", "a", "b", "c", "a"]);
    assert_eq!(distinct_words(&all), words(&["b", "a", "c"]));
    assert!(contains_word(&all, &"c".to_string()));
    assert!(!contains_word(&all, &"d".to_string()));
    assert_eq!(count_common(&words(&["a", "b", "c"]), &words(&["c", "c", "a", "x"])), 2);
}

#[test]
fn test_dedup_terms_drop_short_and_late_words() {
    assert_eq!(dedup_terms("it is a big red fox"), words(&["big", "red", "fox"]));
    assert_eq!(dedup_terms("a bb cc"), Vec::<String>::new());
    assert_eq!(dedup_terms("é éé"), words(&["éé"]));
    let long: Vec<String> = (0..30).map(|i| format!("word{}", i)).collect();
    let terms = dedup_terms(&long.join(" "));
    assert_eq!(terms.len(), 20);
    assert_eq!(terms[19], "word19");
}

#[test]
fn test_or_query_quotes_each_term() {
    assert_eq!(build_or_query(&words(&["auth", "token"])), "\"auth\" OR \"token\"");
    assert_eq!(build_or_query(&words(&["one"])), "\"one\"");
    assert_eq!(build_or_query(&Vec::new()), "");
    assert_eq!(match_query("  auth   flow "), Some("\"auth\" OR \"flow\"".to_string()));
    assert_eq!(match_query(" \t\n"), None);
    assert_eq!(match_query(""), None);
}
