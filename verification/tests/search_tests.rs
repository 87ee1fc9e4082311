use yaad::commands::{
    bulk_memory_query, confident_matches, finalize_suggestions, merge_search_results, Memory,
    SearchResult, SUGGESTION_LIMIT, TEXT_MATCH_MIN_KEY, VISUAL_MATCH_MIN_KEY,
};
use yaad::embeddings::{prepare_batch_texts, rank_matches, search_limit};
use yaad::ranking::sort_by_score_desc;

fn memory(id: &str) -> Memory {
    Memory {
        id: id.to_string(),
        content: format!("content of {}", id),
        screenshot_path: None,
        duration_sec: Some(5),
        context_url: None,
        context_note: None,
        created_at: "2025-01-01 00:00:00".to_string(),
    }
}

fn key(x: f32) -> u32 {
    let b = x.to_bits();
    if b & 0x8000_0000 != 0 { !b } else { b | 0x8000_0000 }
}

#[test]
fn threshold_keys_are_the_keys_of_the_similarity_thresholds() {
    assert_eq!(VISUAL_MATCH_MIN_KEY, key(0.7));
    assert_eq!(TEXT_MATCH_MIN_KEY, key(0.75));
    assert!(key(0.71) > VISUAL_MATCH_MIN_KEY);
    assert!(key(0.7) <= VISUAL_MATCH_MIN_KEY);
    assert!(key(-0.5) < key(0.0));
}

#[test]
fn search_limit_doubles_with_a_floor_of_twenty() {
    assert_eq!(search_limit(5), 20);
    assert_eq!(search_limit(10), 20);
    assert_eq!(search_limit(11), 22);
    assert_eq!(search_limit(-3), 20);
}

#[test]
fn sort_is_descending_and_stable() {
    let v = vec![(1i64, 5u32), (2, 9), (3, 5), (4, 7), (5, 9)];
    assert_eq!(sort_by_score_desc(v), vec![(2, 9), (5, 9), (4, 7), (1, 5), (3, 5)]);
    assert_eq!(sort_by_score_desc(Vec::<(i64, u32)>::new()), vec![]);
}

#[test]
fn rank_matches_truncates_to_the_limit() {
    let v = vec![(1i64, 1u32), (2, 3), (3, 2)];
    assert_eq!(rank_matches(v.clone(), 2), vec![(2, 3), (3, 2)]);
    assert_eq!(rank_matches(v.clone(), 0), vec![]);
    assert_eq!(rank_matches(v.clone(), 10), vec![(2, 3), (3, 2), (1, 1)]);
    assert_eq!(rank_matches(v, -1), vec![(2, 3), (3, 2), (1, 1)]);
}

#[test]
fn batch_texts_are_trimmed_and_blank_ones_dropped() {
    assert_eq!(prepare_batch_texts(&vec![]), Err("No texts provided".to_string()));
    assert_eq!(
        prepare_batch_texts(&vec!["  ".to_string(), "\n".to_string()]),
        Err("All texts are empty".to_string())
    );
    assert_eq!(
        prepare_batch_texts(&vec![" a ".to_string(), "".to_string(), "b".to_string()]),
        Ok(vec!["a".to_string(), "b".to_string()])
    );
}

#[test]
fn merged_results_keep_matched_rows_best_first() {
    let matches = vec![(10i64, 100u32), (11, 300), (12, 200), (10, 150)];
    let rows = vec![(12i64, memory("c")), (99, memory("x")), (10, memory("a")), (11, memory("b"))];
    let out = merge_search_results(&matches, rows);
    let ids: Vec<(&str, u32)> = out.iter().map(|r| (r.memory.id.as_str(), r.similarity_key)).collect();
    // row 10 takes the score of its last match
    assert_eq!(ids, vec![("b", 300), ("c", 200), ("a", 150)]);
}

#[test]
fn bulk_query_lists_the_rowids() {
    let q = bulk_memory_query(&vec![(3i64, 1u32), (-7, 2), (12, 3)]);
    let expected = format!(
        "SELECT rowid, id, content, screenshot_path, duration_sec, context_url, context_note, created_at \n         FROM memories \n         WHERE rowid IN ({}) AND is_deleted = 0",
        "3,-7,12"
    );
    assert_eq!(q, expected);
    assert!(bulk_memory_query(&vec![]).contains("IN ()"));
}

#[test]
fn confident_matches_keep_order_and_strict_threshold() {
    let m = vec![(1i64, 5u32), (2, 10), (3, 6), (4, 20)];
    assert_eq!(confident_matches(&m, 6), vec![(2, 10), (4, 20)]);
    assert_eq!(confident_matches(&m, 100), vec![]);
}

#[test]
fn suggestions_are_sorted_deduplicated_and_at_most_five() {
    let r = |id: &str, k: u32| SearchResult { memory: memory(id), similarity_key: k };
    let results = vec![
        r("a", 50),
        r("b", 90),
        r("a", 50),
        r("c", 70),
        r("d", 60),
        r("e", 40),
        r("f", 30),
        r("b", 10),
    ];
    let out = finalize_suggestions(results);
    let ids: Vec<&str> = out.iter().map(|r| r.memory.id.as_str()).collect();
    assert_eq!(ids, vec!["b", "c", "d", "a", "e"]);
    assert!(out.len() <= SUGGESTION_LIMIT);
    // duplicates that are not neighbours after sorting stay
    let out = finalize_suggestions(vec![r("x", 9), r("y", 8), r("x", 7)]);
    let ids: Vec<&str> = out.iter().map(|r| r.memory.id.as_str()).collect();
    assert_eq!(ids, vec!["x", "y", "x"]);
}
