use clipper::clipper::{ClipboardImage, Clipper, Key, Message};
use clipper::search::rank_matches;
use clipper::storage::LoadedState;
use fuzzy_matcher::skim::SkimMatcherV2;
use fuzzy_matcher::FuzzyMatcher;

fn with_texts(texts: &[&str]) -> Clipper {
    let mut c = Clipper::new(None, LoadedState::default());
    for t in texts {
        c.poll_clipboard(Some(t.to_string()), None);
    }
    c
}

fn search(c: &mut Clipper, query: &str) {
    if !c.search_active {
        c.update(Message::Key { key: Key::Character("f".to_string()), control: true });
    }
    c.update(Message::SearchChanged(query.to_string()));
}

fn listed(c: &Clipper) -> Vec<u64> {
    assert!(c.can_search());
    c.filtered_clips().iter().map(|clip| clip.id).collect()
}

#[test]
fn matches_come_from_the_best_score_down() {
    let scores = vec![Some(3), None, Some(7), Some(3), Some(-1)];
    assert_eq!(rank_matches(&scores), vec![2, 0, 3, 4]);
    assert_eq!(rank_matches(&vec![]), Vec::<usize>::new());
    assert_eq!(rank_matches(&vec![None, None]), Vec::<usize>::new());
    assert_eq!(rank_matches(&vec![Some(i64::MIN), Some(i64::MAX)]), vec![1, 0]);
}

#[test]
fn without_a_search_everything_is_listed() {
    let mut c = with_texts(&["one", "two", "three"]);
    assert_eq!(listed(&c), vec![2, 1, 0]);
    search(&mut c, "  \t ");
    assert_eq!(listed(&c), vec![2, 1, 0]);
}

#[test]
fn a_search_lists_the_matches_by_score() {
    let texts = ["hxexlxlxo", "world", "say hello", "hello"];
    let mut c = with_texts(&texts);
    search(&mut c, " hello ");
    let matcher = SkimMatcherV2::default();
    let mut expected: Vec<(i64, u64)> = Vec::new();
    for id in (0..texts.len()).rev() {
        if let Some(score) = matcher.fuzzy_match(texts[id], "hello") {
            expected.push((score, id as u64));
        }
    }
    expected.sort_by(|a, b| b.0.cmp(&a.0));
    let expected: Vec<u64> = expected.into_iter().map(|(_, id)| id).collect();
    assert_eq!(expected.len(), 3);
    assert_eq!(listed(&c), expected);
    assert!(!listed(&c).contains(&1));
}

#[test]
fn equal_scores_keep_the_order_of_the_history() {
    let mut c = with_texts(&["abc 1", "abc 2", "abc 3"]);
    search(&mut c, "abc");
    assert_eq!(listed(&c), vec![2, 1, 0]);
}

#[test]
fn an_image_is_found_by_its_size() {
    let mut c = with_texts(&["text"]);
    c.poll_clipboard(
        None,
        Some(ClipboardImage { width: 12, height: 34, bytes: vec![1, 2, 3, 4] }),
    );
    search(&mut c, "12x34");
    assert_eq!(listed(&c), vec![1]);
    search(&mut c, "image");
    assert_eq!(listed(&c), vec![1]);
    search(&mut c, "zzz");
    assert_eq!(listed(&c), Vec::<u64>::new());
}

#[test]
fn putting_a_search_away_brings_the_list_back() {
    let mut c = with_texts(&["one", "two"]);
    search(&mut c, "one");
    assert_eq!(listed(&c), vec![0]);
    c.toggle_search();
    assert_eq!(listed(&c), vec![1, 0]);
    c.toggle_search();
    assert_eq!(c.search_query, "");
    c.close_search();
    assert!(!c.search_active);
}

#[test]
fn one_matcher_compares_the_whole_list() {
    // Newest first: what is left of a match with "aabxx" adds to the one with "aab".
    let mut c = with_texts(&["aab", "aabxx"]);
    search(&mut c, "aab");
    let matcher = SkimMatcherV2::default();
    assert_eq!(matcher.fuzzy_match("aabxx", "aab"), Some(71));
    assert_eq!(matcher.fuzzy_match("aab", "aab"), Some(83));
    assert_eq!(listed(&c), vec![0, 1]);

    let mut c = with_texts(&["aac", "aa c", "aaxxc"]);
    search(&mut c, "aac");
    assert_eq!(listed(&c), vec![0, 1, 2]);
}

#[test]
fn a_pattern_longer_than_every_text_matches_nothing() {
    let mut c = with_texts(&["a", "aaa"]);
    search(&mut c, &"a".repeat(0x400_0000));
    assert!(c.can_search());
    assert!(c.rows().unwrap().is_empty());
}
