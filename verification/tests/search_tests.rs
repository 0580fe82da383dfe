use blazingjj::search::SearchState;
use blazingjj::search::first_match_index_at_or_after;
use blazingjj::search::match_indices;
use blazingjj::search::next_match_index;

#[test]
fn match_indices_finds_case_insensitive_substrings() {
    let items = vec!["alpha", "Beta apple", "gamma", "zeta APPLE"];
    let matches = match_indices(&items, "apple", |s| s.to_string());
    assert_eq!(matches, vec![1, 3]);
}

#[test]
fn match_indices_empty_query_is_empty() {
    let items = vec!["a", "b"];
    assert!(match_indices(&items, "", |s| s.to_string()).is_empty());
}

#[test]
fn next_match_index_wraps_forward_and_back() {
    let matches = vec![1, 3, 5];
    // On a match: step off it.
    assert_eq!(next_match_index(&matches, 1, true), Some(3));
    assert_eq!(next_match_index(&matches, 5, true), Some(1)); // wrap
    assert_eq!(next_match_index(&matches, 3, false), Some(1));
    assert_eq!(next_match_index(&matches, 1, false), Some(5)); // wrap
}

#[test]
fn next_match_index_from_non_match_picks_nearest_in_direction() {
    let matches = vec![1, 3, 5];
    // Selection at 2 (not a match): forward -> first match > 2 = 3.
    assert_eq!(next_match_index(&matches, 2, true), Some(3));
    // backward -> last match < 2 = 1.
    assert_eq!(next_match_index(&matches, 2, false), Some(1));
    // Past the end forward wraps to first.
    assert_eq!(next_match_index(&matches, 9, true), Some(1));
    // Before the start backward wraps to last.
    assert_eq!(next_match_index(&matches, 0, false), Some(5));
}

#[test]
fn first_match_at_or_after_prefers_current_then_wraps() {
    let matches = vec![2, 4, 6];
    assert_eq!(first_match_index_at_or_after(&matches, 0), Some(2));
    assert_eq!(first_match_index_at_or_after(&matches, 4), Some(4)); // inclusive
    assert_eq!(first_match_index_at_or_after(&matches, 5), Some(6));
    assert_eq!(first_match_index_at_or_after(&matches, 9), Some(2)); // wrap
}

#[test]
fn empty_matches_yield_none() {
    assert_eq!(next_match_index(&[], 0, true), None);
    assert_eq!(first_match_index_at_or_after(&[], 0), None);
}

#[test]
fn next_then_previous_returns_to_the_match() {
    let matches = vec![0, 4, 7, 9];
    for &m in &matches {
        let n = next_match_index(&matches, m, true).unwrap();
        assert_eq!(next_match_index(&matches, n, false), Some(m));
        let p = next_match_index(&matches, m, false).unwrap();
        assert_eq!(next_match_index(&matches, p, true), Some(m));
    }
}

#[test]
fn search_state_trims_and_lowercases() {
    let mut search = SearchState::new();
    assert!(!search.is_active());
    search.set_query("  ApPle ");
    assert!(search.is_active());
    assert_eq!(search.query(), Some("apple"));
    search.set_query("   ");
    assert!(!search.is_active());
    assert_eq!(search.query(), None);
    search.set_query("x");
    search.clear();
    assert_eq!(search.query(), None);
}

#[test]
fn first_match_at_or_after_is_the_least_and_agrees_with_next() {
    let matches = vec![2usize, 4, 6];
    for current in 0..9usize {
        let first = first_match_index_at_or_after(&matches, current);
        let least = matches.iter().copied().filter(|m| *m >= current).min().or(Some(2));
        assert_eq!(first, least, "current {current}");
        if !matches.contains(&current) {
            assert_eq!(first, next_match_index(&matches, current, true), "current {current}");
        }
    }
}
