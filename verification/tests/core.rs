use wordle_filter::dict::ValidWords;
use wordle_filter::grid::CellColor;
use wordle_filter::grid::Filter;
use wordle_filter::grid::GridCell;

fn w(s: &str) -> Vec<char> {
    s.chars().collect()
}

fn dict(words: &[&str]) -> ValidWords {
    ValidWords::new(words.iter().map(|s| w(s)).collect()).expect("dictionary must be valid")
}

#[test]
fn empty_grid_matches_every_word() {
    let filter = Filter::new();
    for word in ["crane", "abase", "zzzzz", "aaaaa"] {
        assert!(filter.matches(&w(word)));
    }
}

#[test]
fn confirmed_letter_must_match_position() {
    let mut filter = Filter::new();
    filter.set(0, 0, 'a', CellColor::Green);
    assert!(filter.matches(&w("abbey")));
    assert!(!filter.matches(&w("bread")));
    assert!(!filter.matches(&w("crane")));
}

#[test]
fn confirmed_letter_last_row_wins() {
    let mut filter = Filter::new();
    filter.set(0, 0, 'a', CellColor::Green);
    filter.set(3, 0, 'b', CellColor::Green);
    assert!(filter.matches(&w("bread")));
    assert!(!filter.matches(&w("abbey")));
}

#[test]
fn set_overwrites_cell_last_write_wins() {
    let mut filter = Filter::new();
    filter.set(2, 3, 'q', CellColor::Green);
    filter.set(2, 3, 'r', CellColor::Gray);
    let cell = filter.get(2, 3);
    assert_eq!(cell.character, Some('r'));
    assert!(matches!(cell.color, CellColor::Gray));
    // The overwritten green at column 3 imposes no constraint any more.
    assert!(filter.matches(&w("maize")));
}

#[test]
fn misplaced_letter_forbidden_at_its_position() {
    let mut filter = Filter::new();
    filter.set(0, 1, 'a', CellColor::Yellow);
    assert!(!filter.matches(&w("baker")));
}

#[test]
fn misplaced_letter_required_somewhere() {
    let mut filter = Filter::new();
    filter.set(0, 1, 'a', CellColor::Yellow);
    assert!(!filter.matches(&w("field")));
    assert!(filter.matches(&w("extra")));
}

#[test]
fn duplicate_letter_absent_and_misplaced() {
    // 'a' is misplaced at column 0 and marked absent at column 2. Since 'a'
    // is known to be used (the misplaced mark), the absent mark only forbids
    // 'a' at column 2, not everywhere.
    let mut filter = Filter::new();
    filter.set(0, 0, 'a', CellColor::Yellow);
    filter.set(1, 2, 'a', CellColor::Gray);
    // Two 'a's, neither at column 0 nor at column 2: no blanket rejection.
    assert!(filter.matches(&w("banal")));
    // 'a' at column 0 repeats the misplaced mistake; 'a' at column 2 hits
    // the absent cell.
    assert!(!filter.matches(&w("abase")));
    // 'a' at column 2 alone is still rejected by the positional check.
    assert!(!filter.matches(&w("blast")));
}

#[test]
fn pure_absent_letter_rejected_everywhere() {
    let mut filter = Filter::new();
    filter.set(0, 1, 'z', CellColor::Gray);
    assert!(!filter.matches(&w("zebra")));
    assert!(!filter.matches(&w("fuzzy")));
    assert!(!filter.matches(&w("blitz")));
    assert!(filter.matches(&w("crane")));
    assert!(filter.matches(&w("aabba")));
}

#[test]
fn absent_beside_confirmed_only_positional() {
    // 'e' confirmed at column 4 and marked absent at column 0: "no
    // additional occurrence", not "no occurrence".
    let mut filter = Filter::new();
    filter.set(0, 4, 'e', CellColor::Green);
    filter.set(1, 0, 'e', CellColor::Gray);
    assert!(filter.matches(&w("crane")));
    assert!(!filter.matches(&w("elope")));
}

#[test]
fn filter_returns_matches_in_dictionary_order() {
    let words = dict(&["apple", "bread", "crane", "amble", "azure"]);
    let mut filter = Filter::new();
    filter.set(0, 0, 'a', CellColor::Green);
    let found = words.filter(&filter, usize::MAX);
    assert_eq!(
        found,
        vec!["apple".to_string(), "amble".to_string(), "azure".to_string()]
    );
}

#[test]
fn filter_limit_truncates_and_is_prefix() {
    let words = dict(&["apple", "bread", "crane", "amble", "azure", "about"]);
    let mut filter = Filter::new();
    filter.set(0, 0, 'a', CellColor::Green);
    let limited = words.filter(&filter, 3);
    let all = words.filter(&filter, usize::MAX);
    assert_eq!(limited.len(), 3);
    for word in &limited {
        assert!(filter.matches(&w(word)));
    }
    assert_eq!(limited[..], all[..3]);
    assert_eq!(all, vec!["apple", "amble", "azure", "about"]);
}

#[test]
fn filter_with_zero_limit_is_empty() {
    let words = dict(&["apple", "bread"]);
    let filter = Filter::new();
    assert!(words.filter(&filter, 0).is_empty());
}

#[test]
fn filter_can_eliminate_everything() {
    let words = dict(&["apple", "bread", "crane"]);
    let mut filter = Filter::new();
    filter.set(0, 0, 'z', CellColor::Green);
    assert!(words.filter(&filter, usize::MAX).is_empty());
}

#[test]
fn reset_restores_empty_grid_behavior() {
    let words = dict(&["apple", "bread", "crane"]);
    let mut filter = Filter::new();
    filter.set(0, 0, 'z', CellColor::Green);
    filter.set(1, 1, 'q', CellColor::Yellow);
    assert!(words.filter(&filter, usize::MAX).is_empty());
    filter.reset();
    for word in ["apple", "bread", "crane", "zzzzz"] {
        assert!(filter.matches(&w(word)));
    }
    assert_eq!(words.filter(&filter, usize::MAX).len(), 3);
    let cell = filter.get(0, 0);
    assert_eq!(cell.character, None);
    assert!(matches!(cell.color, CellColor::Gray));
}

#[test]
fn dictionary_rejects_invalid_entries() {
    assert!(ValidWords::new(vec![w("apple"), w("tree")]).is_none());
    assert!(ValidWords::new(vec![w("toolong")]).is_none());
    assert!(ValidWords::new(vec![w("Apple")]).is_none());
    assert!(ValidWords::new(vec![w("app1e")]).is_none());
    assert!(ValidWords::new(vec![w("")]).is_none());
}

#[test]
fn dictionary_accepts_valid_entries() {
    let words = dict(&["apple", "zzzzz", "aaaaa"]);
    assert_eq!(words.len(), 3);
}

#[test]
fn cell_color_cycles() {
    assert_eq!(CellColor::Gray.next(), CellColor::Yellow);
    assert_eq!(CellColor::Yellow.next(), CellColor::Green);
    assert_eq!(CellColor::Green.next(), CellColor::Gray);
    assert_eq!(CellColor::Gray.next().next().next(), CellColor::Gray);
}

#[test]
fn grid_cell_default_is_empty_gray() {
    let cell = GridCell::default();
    assert_eq!(cell.character, None);
    assert!(matches!(cell.color, CellColor::Gray));
}

#[test]
fn get_reads_back_what_set_wrote() {
    let mut filter = Filter::new();
    filter.set(5, 4, 'k', CellColor::Green);
    let cell = filter.get(5, 4);
    assert_eq!(cell.character, Some('k'));
    assert!(matches!(cell.color, CellColor::Green));
    let other = filter.get(0, 0);
    assert_eq!(other.character, None);
}
