use history_store::error::Feature;
use history_store::error::HistoryError;
use history_store::history::FileBackedHistory;
use history_store::ident::HistoryItemId;
use history_store::item::HistoryItem;
use history_store::query::CommandLineSearch;
use history_store::query::SearchDirection;
use history_store::query::SearchFilter;
use history_store::query::SearchQuery;
use history_store::search::find_unsupported;
use history_store::search::most_of;

fn shell_history() -> FileBackedHistory {
    let mut h = FileBackedHistory::new(10).unwrap();
    for (id, text) in [(1, "git status"), (2, "go build"), (3, "ls")] {
        h.save(&FileBackedHistory::construct_entry(HistoryItemId(id), text.to_string())).unwrap();
    }
    h
}

fn letters() -> FileBackedHistory {
    let mut h = FileBackedHistory::new(10).unwrap();
    for (id, text) in [(10, "a"), (20, "b"), (30, "c"), (40, "d"), (50, "e")] {
        h.save(&FileBackedHistory::construct_entry(HistoryItemId(id), text.to_string())).unwrap();
    }
    h
}

fn prefix(p: &str, direction: SearchDirection) -> SearchQuery {
    SearchQuery::filtered_by(
        SearchFilter::from_text_search(CommandLineSearch::Prefix(p.to_string())),
        direction,
    )
}

fn found(h: &FileBackedHistory, query: SearchQuery) -> Vec<String> {
    assert!(h.bounds_in_order(&query));
    h.search(query).unwrap().into_iter().map(|i| i.command_line).collect()
}

fn between(
    direction: SearchDirection,
    start_id: Option<i64>,
    end_id: Option<i64>,
) -> SearchQuery {
    let mut query = SearchQuery::everything(direction);
    query.start_id = start_id.map(HistoryItemId);
    query.end_id = end_id.map(HistoryItemId);
    query
}

#[test]
fn prefix_search_forward() {
    let h = shell_history();
    assert_eq!(found(&h, prefix("g", SearchDirection::Forward)), vec!["git status", "go build"]);
}

#[test]
fn prefix_search_forward_with_limit_one() {
    let h = shell_history();
    let mut query = prefix("g", SearchDirection::Forward);
    query.limit = Some(1);
    assert_eq!(found(&h, query), vec!["git status"]);
}

#[test]
fn prefix_search_backward() {
    let h = shell_history();
    assert_eq!(found(&h, prefix("g", SearchDirection::Backward)), vec!["go build", "git status"]);
}

#[test]
fn prefix_search_backward_with_limit_one() {
    let h = shell_history();
    let mut query = prefix("g", SearchDirection::Backward);
    query.limit = Some(1);
    assert_eq!(found(&h, query), vec!["go build"]);
}

#[test]
fn search_hands_out_bare_records() {
    let h = shell_history();
    let mut query = SearchQuery::everything(SearchDirection::Forward);
    query.limit = Some(1);
    let items: Vec<HistoryItem> = h.search(query).unwrap();
    assert_eq!(
        items,
        vec![FileBackedHistory::construct_entry(HistoryItemId(1), "git status".to_string())]
    );
}

#[test]
fn everything_in_both_directions() {
    let h = shell_history();
    assert_eq!(
        found(&h, SearchQuery::everything(SearchDirection::Forward)),
        vec!["git status", "go build", "ls"]
    );
    assert_eq!(
        found(&h, SearchQuery::everything(SearchDirection::Backward)),
        vec!["ls", "go build", "git status"]
    );
}

#[test]
fn empty_prefix_matches_all() {
    let h = shell_history();
    assert_eq!(found(&h, prefix("", SearchDirection::Forward)).len(), 3);
}

#[test]
fn prefix_longer_than_text_matches_nothing() {
    let h = shell_history();
    assert_eq!(found(&h, prefix("ls -la", SearchDirection::Forward)), Vec::<String>::new());
    assert_eq!(found(&h, prefix("ls", SearchDirection::Forward)), vec!["ls"]);
}

#[test]
fn substring_search() {
    let h = shell_history();
    let query = SearchQuery::filtered_by(
        SearchFilter::from_text_search(CommandLineSearch::Substring("t s".to_string())),
        SearchDirection::Forward,
    );
    assert_eq!(found(&h, query), vec!["git status"]);
    let query = SearchQuery::filtered_by(
        SearchFilter::from_text_search(CommandLineSearch::Substring("s".to_string())),
        SearchDirection::Backward,
    );
    assert_eq!(found(&h, query), vec!["ls", "git status"]);
    let query = SearchQuery::filtered_by(
        SearchFilter::from_text_search(CommandLineSearch::Substring("build".to_string())),
        SearchDirection::Forward,
    );
    assert_eq!(found(&h, query), vec!["go build"]);
    let query = SearchQuery::filtered_by(
        SearchFilter::from_text_search(CommandLineSearch::Substring("".to_string())),
        SearchDirection::Forward,
    );
    assert_eq!(found(&h, query).len(), 3);
    let query = SearchQuery::filtered_by(
        SearchFilter::from_text_search(CommandLineSearch::Substring("lsx".to_string())),
        SearchDirection::Forward,
    );
    assert_eq!(found(&h, query).len(), 0);
}

#[test]
fn exact_search() {
    let h = shell_history();
    let query = SearchQuery::filtered_by(
        SearchFilter::from_text_search(CommandLineSearch::Exact("ls".to_string())),
        SearchDirection::Forward,
    );
    assert_eq!(found(&h, query), vec!["ls"]);
    let query = SearchQuery::filtered_by(
        SearchFilter::from_text_search(CommandLineSearch::Exact("l".to_string())),
        SearchDirection::Forward,
    );
    assert_eq!(found(&h, query), Vec::<String>::new());
}

#[test]
fn excluded_text_is_left_out() {
    let h = shell_history();
    let mut query = prefix("g", SearchDirection::Forward);
    query.filter.not_command_line = Some("git status".to_string());
    assert_eq!(found(&h, query), vec!["go build"]);
    let mut query = SearchQuery::everything(SearchDirection::Backward);
    query.filter.not_command_line = Some("go".to_string());
    assert_eq!(found(&h, query), vec!["ls", "go build", "git status"]);
}

#[test]
fn limit_caps_the_result() {
    let h = letters();
    for (limit, expected) in [(0, 0), (1, 1), (4, 4), (5, 5), (6, 5), (i64::MAX, 5)] {
        let mut query = SearchQuery::everything(SearchDirection::Forward);
        query.limit = Some(limit);
        assert_eq!(found(&h, query).len(), expected);
    }
    let mut query = SearchQuery::everything(SearchDirection::Backward);
    query.limit = Some(2);
    assert_eq!(found(&h, query), vec!["e", "d"]);
}

#[test]
fn negative_limit_sets_no_bound() {
    let h = letters();
    let mut query = SearchQuery::everything(SearchDirection::Forward);
    query.limit = Some(-1);
    assert_eq!(found(&h, query).len(), 5);
    assert_eq!(most_of(Some(-1)), usize::MAX);
    assert_eq!(most_of(None), usize::MAX);
    assert_eq!(most_of(Some(3)), 3);
    assert_eq!(most_of(Some(0)), 0);
}

#[test]
fn forward_bounds_are_inclusive() {
    let h = letters();
    assert_eq!(
        found(&h, between(SearchDirection::Forward, Some(20), Some(40))),
        vec!["b", "c", "d"]
    );
    assert_eq!(found(&h, between(SearchDirection::Forward, Some(30), None)), vec!["c", "d", "e"]);
    assert_eq!(found(&h, between(SearchDirection::Forward, None, Some(20))), vec!["a", "b"]);
    assert_eq!(found(&h, between(SearchDirection::Forward, Some(30), Some(30))), vec!["c"]);
}

#[test]
fn backward_bounds_swap_their_roles() {
    let h = letters();
    assert_eq!(
        found(&h, between(SearchDirection::Backward, Some(40), Some(20))),
        vec!["d", "c", "b"]
    );
    assert_eq!(found(&h, between(SearchDirection::Backward, Some(20), None)), vec!["b", "a"]);
    assert_eq!(
        found(&h, between(SearchDirection::Backward, None, Some(30))),
        vec!["e", "d", "c"]
    );
}

#[test]
fn bounds_out_of_order_are_told() {
    let h = letters();
    assert!(!h.bounds_in_order(&between(SearchDirection::Forward, Some(40), Some(20))));
    assert!(!h.bounds_in_order(&between(SearchDirection::Backward, Some(20), Some(40))));
    assert!(h.bounds_in_order(&between(SearchDirection::Forward, Some(20), Some(40))));
    assert!(h.bounds_in_order(&between(SearchDirection::Forward, Some(20), Some(99))));
    let mut timed = between(SearchDirection::Forward, Some(40), Some(20));
    timed.start_time = Some(0);
    assert!(h.bounds_in_order(&timed));
}

#[test]
fn resolve_bounds_gives_positions() {
    let h = letters();
    assert_eq!(h.resolve_bounds(&between(SearchDirection::Forward, Some(20), Some(40))), Ok((1, 3)));
    assert_eq!(h.resolve_bounds(&between(SearchDirection::Backward, Some(40), Some(20))), Ok((1, 3)));
    assert_eq!(h.resolve_bounds(&between(SearchDirection::Forward, None, None)), Ok((0, 4)));
    assert_eq!(h.resolve_bounds(&between(SearchDirection::Forward, Some(40), Some(20))), Ok((3, 1)));
    let empty = FileBackedHistory::new(3).unwrap();
    assert_eq!(empty.resolve_bounds(&between(SearchDirection::Forward, None, None)), Ok((0, 0)));
}

#[test]
fn unknown_start_id_fails() {
    let h = letters();
    assert_eq!(
        h.search(between(SearchDirection::Forward, Some(99), None)),
        Err(HistoryError::StartIdNotFound)
    );
    assert_eq!(
        h.search(between(SearchDirection::Forward, Some(99), Some(98))),
        Err(HistoryError::StartIdNotFound)
    );
    // A backward search ends at its `end_id`: that is its lower bound.
    assert_eq!(
        h.search(between(SearchDirection::Backward, None, Some(99))),
        Err(HistoryError::StartIdNotFound)
    );
}

#[test]
fn unknown_end_id_fails() {
    let h = letters();
    assert_eq!(
        h.search(between(SearchDirection::Forward, None, Some(99))),
        Err(HistoryError::EndIdNotFound)
    );
    assert_eq!(
        h.search(between(SearchDirection::Forward, Some(10), Some(99))),
        Err(HistoryError::EndIdNotFound)
    );
    assert_eq!(
        h.search(between(SearchDirection::Backward, Some(99), None)),
        Err(HistoryError::EndIdNotFound)
    );
    assert_eq!(
        h.count(between(SearchDirection::Forward, None, Some(99))),
        Err(HistoryError::EndIdNotFound)
    );
}

#[test]
fn time_filters_are_unsupported() {
    let h = letters();
    let mut query = SearchQuery::everything(SearchDirection::Forward);
    query.start_time = Some(5);
    assert_eq!(
        h.search(query.clone()),
        Err(HistoryError::FeatureUnsupported(Feature::FilterByTime))
    );
    assert_eq!(h.count(query), Err(HistoryError::FeatureUnsupported(Feature::FilterByTime)));
    let mut query = SearchQuery::everything(SearchDirection::Backward);
    query.end_time = Some(5);
    assert_eq!(h.search(query), Err(HistoryError::FeatureUnsupported(Feature::FilterByTime)));
}

#[test]
fn extra_info_filters_are_unsupported() {
    let h = letters();
    let expected = Err(HistoryError::FeatureUnsupported(Feature::FilterByExtraInfo));
    let mut query = SearchQuery::everything(SearchDirection::Forward);
    query.filter.hostname = Some("box".to_string());
    assert_eq!(h.search(query), expected);
    let mut query = SearchQuery::everything(SearchDirection::Forward);
    query.filter.cwd_exact = Some("/home".to_string());
    assert_eq!(h.search(query), expected);
    let mut query = SearchQuery::everything(SearchDirection::Forward);
    query.filter.cwd_prefix = Some("/".to_string());
    assert_eq!(h.search(query), expected);
    let mut query = SearchQuery::everything(SearchDirection::Forward);
    query.filter.exit_successful = Some(true);
    assert_eq!(h.search(query), expected);
}

#[test]
fn unsupported_filters_come_before_unknown_bounds() {
    let h = letters();
    let mut query = between(SearchDirection::Forward, Some(99), Some(98));
    query.filter.hostname = Some("box".to_string());
    assert_eq!(find_unsupported(&query), Some(Feature::FilterByExtraInfo));
    assert_eq!(
        h.search(query.clone()),
        Err(HistoryError::FeatureUnsupported(Feature::FilterByExtraInfo))
    );
    query.end_time = Some(1);
    assert_eq!(find_unsupported(&query), Some(Feature::FilterByTime));
    assert_eq!(h.search(query), Err(HistoryError::FeatureUnsupported(Feature::FilterByTime)));
    assert_eq!(find_unsupported(&SearchQuery::everything(SearchDirection::Forward)), None);
}

#[test]
fn search_of_empty_history_finds_nothing() {
    let h = FileBackedHistory::new(3).unwrap();
    assert_eq!(found(&h, SearchQuery::everything(SearchDirection::Forward)), Vec::<String>::new());
    assert_eq!(found(&h, SearchQuery::everything(SearchDirection::Backward)), Vec::<String>::new());
    assert_eq!(h.count(SearchQuery::everything(SearchDirection::Forward)), Ok(0));
}

#[test]
fn count_is_the_number_found() {
    let h = shell_history();
    assert_eq!(h.count(SearchQuery::everything(SearchDirection::Forward)), Ok(3));
    assert_eq!(h.count(prefix("g", SearchDirection::Backward)), Ok(2));
    let mut query = prefix("g", SearchDirection::Forward);
    query.limit = Some(1);
    assert_eq!(h.count(query), Ok(1));
    assert_eq!(h.count(prefix("x", SearchDirection::Forward)), Ok(0));
}

#[test]
fn search_tells_characters_apart_beyond_ascii() {
    let mut h = FileBackedHistory::new(10).unwrap();
    for (id, text) in [(1, "größe"), (2, "grösse"), (3, "echo →")] {
        h.save(&FileBackedHistory::construct_entry(HistoryItemId(id), text.to_string())).unwrap();
    }
    assert_eq!(found(&h, prefix("grö", SearchDirection::Forward)), vec!["größe", "grösse"]);
    assert_eq!(found(&h, prefix("größ", SearchDirection::Forward)), vec!["größe"]);
    let query = SearchQuery::filtered_by(
        SearchFilter::from_text_search(CommandLineSearch::Substring("→".to_string())),
        SearchDirection::Forward,
    );
    assert_eq!(found(&h, query), vec!["echo →"]);
}
