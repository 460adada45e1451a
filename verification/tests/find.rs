use axiomd::find::{Counter, Query, Search, Showing, Wrapped, FIND, FIND_CLOSE, FIND_NEXT, FIND_PREVIOUS};
use axiomd::window::bare;

fn found(text: &str, cased: bool, haystack: &str) -> Vec<String> {
    let haystack: Vec<char> = haystack.chars().collect();
    Query { text: text.to_owned(), cased }
        .matches(&haystack)
        .into_iter()
        .map(|(from, to)| haystack[from..to].iter().collect())
        .collect()
}

#[test]
fn a_search_finds_every_occurrence_in_order_and_none_of_them_twice() {
    assert_eq!(found("needle", false, "The needle is here: needle."), ["needle", "needle"]);
    assert_eq!(found("aa", false, "aaa"), ["aa"], "overlapping occurrences were counted twice");
    assert_eq!(found("needle", false, "no such word"), Vec::<String>::new());
    assert_eq!(
        found("", false, "anything at all"),
        Vec::<String>::new(),
        "an empty query matched something",
    );
    assert_eq!(found("longer than the haystack", false, "short"), Vec::<String>::new());
}

#[test]
fn case_is_ignored_until_the_reader_asks_for_it() {
    assert_eq!(found("needle", false, "Needle needle NEEDLE"), ["Needle", "needle", "NEEDLE"]);
    assert_eq!(found("needle", true, "Needle needle NEEDLE"), ["needle"]);
    assert_eq!(found("straße", false, "STRASSE Straße"), ["Straße"]);
}

#[test]
fn a_letter_whose_lowercase_is_longer_than_it_is_still_found_where_it_stands() {
    assert_eq!(found("İ", false, "aİb"), ["İ"]);
    assert_eq!(found("i̇", false, "aİb"), Vec::<String>::new());
}

#[test]
fn every_search_action_is_registered_under_the_name_its_shortcut_uses() {
    for action in [FIND, FIND_NEXT, FIND_PREVIOUS, FIND_CLOSE] {
        assert!(action.starts_with("win."), "{action} is not a window action");
        assert_eq!(bare(action), &action["win.".len()..]);
    }
}

#[test]
fn matches_are_reported_where_they_stand_in_characters() {
    let haystack: Vec<char> = "ab needle, needle".chars().collect();
    let spans = Query::new("NEEDLE", false).matches(&haystack);
    assert_eq!(spans, vec![(3, 9), (11, 17)]);
}

#[test]
fn a_new_search_starts_at_nothing() {
    let search = Search::new();
    assert_eq!(search.at(), 0);
}

#[test]
fn stepping_past_the_last_match_wraps_to_the_first_and_says_so() {
    let mut search = Search::new();
    assert_eq!(search.run(Query::new("needle", false)), Showing::Matches { nth: 0 });
    search.counted(&Query::new("needle", false), 3);
    assert_eq!(search.retell(), Counter::At { position: 1, total: 3 });
    assert_eq!(search.step(true), Some(1));
    assert_eq!(search.step(true), Some(2));
    assert_eq!(search.wrapped(), Wrapped::No);
    assert_eq!(search.step(true), Some(0));
    assert_eq!(search.wrapped(), Wrapped::ToTheTop);
    assert_eq!(search.step(false), Some(2));
    assert_eq!(search.wrapped(), Wrapped::ToTheBottom);
    // A count for a search the reader has left behind changes nothing.
    search.counted(&Query::new("other", false), 9);
    assert_eq!(search.retell(), Counter::At { position: 3, total: 3 });
    search.put_away();
    assert_eq!(search.retell(), Counter::Blank);
}

#[test]
fn a_search_with_no_matches_says_so() {
    let mut search = Search::new();
    search.run(Query::new("absent", true));
    search.counted(&Query::new("absent", true), 0);
    assert_eq!(search.step(true), None);
    assert_eq!(search.retell(), Counter::NothingFound);
}

#[test]
fn no_place_the_query_matches_is_left_uncovered() {
    let haystack: Vec<char> = "aaaa".chars().collect();
    assert_eq!(Query { text: "aa".to_owned(), cased: false }.matches(&haystack), vec![(0, 2), (2, 4)]);

    let haystack: Vec<char> = "abababa".chars().collect();
    let spans = Query { text: "aba".to_owned(), cased: true }.matches(&haystack);
    assert_eq!(spans, vec![(0, 3), (4, 7)]);
    for start in [0usize, 2, 4] {
        assert!(spans.iter().any(|(from, to)| *from <= start && start < *to));
    }
}
