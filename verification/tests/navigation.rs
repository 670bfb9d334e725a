use dhammapada::chapters::{chapters_data, CHAPTER_COUNT};
use dhammapada::navigation::{Navigator, ScrollAction, ScrollDirection, DEBOUNCE_NS};

fn ids() -> Vec<String> {
    chapters_data().into_iter().map(|c| c.0).collect()
}

const T0: u64 = 1_000_000_000;

#[test]
fn new_navigator_starts_at_saved_chapter() {
    let n = Navigator::new(ids(), Some("chap3".to_string()), T0);
    assert_eq!(n.start_index(), Some(2));
    assert_eq!(n.selected(), None);
    assert_eq!(n.chapter_count(), CHAPTER_COUNT);
    assert_eq!(n.current_chapter(), Some("chap3".to_string()));
    let fresh = Navigator::new(ids(), None, T0);
    assert_eq!(fresh.start_index(), Some(0));
    assert_eq!(fresh.current_chapter(), None);
}

#[test]
fn select_highlights_and_remembers() {
    let mut n = Navigator::new(ids(), None, T0);
    assert!(!n.select(4));
    assert_eq!(n.selected(), Some(4));
    assert!(n.is_selected(4));
    assert!(!n.is_selected(3));
    assert_eq!(n.current_chapter(), Some("chap5".to_string()));
}

#[test]
fn scroll_is_ignored_right_after_a_change() {
    let mut n = Navigator::new(ids(), None, T0);
    n.select(0);
    assert_eq!(n.on_scroll(T0 + DEBOUNCE_NS - 1, ScrollDirection::Down, false, true), ScrollAction::Ignore);
    assert_eq!(n.on_scroll(T0 - 5, ScrollDirection::Down, false, true), ScrollAction::Ignore);
    assert_eq!(n.selected(), Some(0));
}

#[test]
fn scroll_passes_without_selection_or_edge() {
    let mut n = Navigator::new(ids(), None, T0);
    let t = T0 + DEBOUNCE_NS;
    assert_eq!(n.on_scroll(t, ScrollDirection::Down, false, true), ScrollAction::Pass);
    n.select(3);
    assert_eq!(n.on_scroll(t, ScrollDirection::Down, false, false), ScrollAction::Pass);
    assert_eq!(n.on_scroll(t, ScrollDirection::Up, false, true), ScrollAction::Pass);
    assert_eq!(n.on_scroll(t, ScrollDirection::Still, true, true), ScrollAction::Pass);
}

#[test]
fn scroll_stops_at_the_ends_of_the_book() {
    let mut n = Navigator::new(ids(), None, T0);
    let t = T0 + DEBOUNCE_NS;
    n.select(0);
    assert_eq!(n.on_scroll(t, ScrollDirection::Up, true, false), ScrollAction::Pass);
    n.select(CHAPTER_COUNT - 1);
    assert_eq!(n.on_scroll(t, ScrollDirection::Down, false, true), ScrollAction::Pass);
}

#[test]
fn page_forward_then_back() {
    let mut n = Navigator::new(ids(), None, T0);
    assert!(!n.select(7));
    let t1 = T0 + DEBOUNCE_NS;
    assert_eq!(n.on_scroll(t1, ScrollDirection::Down, false, true), ScrollAction::Open(8));
    assert!(!n.select(8));
    assert_eq!(n.on_scroll(t1 + 10, ScrollDirection::Up, true, false), ScrollAction::Ignore);
    let t2 = t1 + DEBOUNCE_NS;
    assert_eq!(n.on_scroll(t2, ScrollDirection::Up, true, false), ScrollAction::Open(7));
    assert!(n.select(7));
    assert_eq!(n.selected(), Some(7));
    assert_eq!(n.current_chapter(), Some("chap8".to_string()));
    assert!(!n.select(7));
}
