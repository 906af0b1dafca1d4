use statusbar::action::{classify, Action, Direction};
use statusbar::group::{aggregate, chord_text, KeyBinding};
use statusbar::layout::key_text;
use statusbar::mode::Mode;
use statusbar::text::text_less;

fn bind(chord: &str, actions: Vec<Action>) -> KeyBinding {
    KeyBinding { chord: chord.to_string(), actions }
}

#[test]
fn two_chords_of_one_action_make_one_group() {
    let table = vec![
        bind("Ctrl+n", vec![Action::NewPane(None)]),
        bind("Ctrl+p", vec![Action::NewPane(None)]),
    ];
    let groups = aggregate(&table);
    assert_eq!(groups.len(), 1);
    assert_eq!(groups[0].record.label, "New");
    assert_eq!(groups[0].keys, vec!["Ctrl+n/".to_string(), "Ctrl+p/".to_string()]);
    assert_eq!(key_text(&groups[0].keys), "Ctrl+n/Ctrl+p");
}

#[test]
fn keys_sorted_within_group_and_short_keys_unseparated() {
    let table = vec![
        bind("\u{2193}", vec![Action::MoveFocus(Direction::Down)]),
        bind("\u{2190}", vec![Action::MoveFocus(Direction::Left)]),
        bind("\u{2192}", vec![Action::MoveFocus(Direction::Right)]),
        bind("\u{2191}", vec![Action::MoveFocus(Direction::Up)]),
    ];
    let groups = aggregate(&table);
    assert_eq!(groups.len(), 1);
    assert_eq!(key_text(&groups[0].keys), "\u{2190}\u{2191}\u{2192}\u{2193}");
}

#[test]
fn groups_ordered_by_rank() {
    let table = vec![
        bind("q", vec![Action::Quit]),
        bind("x", vec![Action::CloseFocus]),
        bind("n", vec![Action::NewPane(None)]),
        bind("Ctrl+g", vec![Action::SwitchToMode(Mode::Locked)]),
        bind("z", vec![Action::Other]),
    ];
    let groups = aggregate(&table);
    let labels: Vec<&str> = groups.iter().map(|g| g.record.label.as_str()).collect();
    assert_eq!(labels, vec!["New", "Locked", "Close", "Quit", "None"]);
}

#[test]
fn equal_ranks_keep_table_order() {
    // Normal (100) and New (100) share a rank; the one met first leads
    let table = vec![
        bind("Esc", vec![Action::SwitchToMode(Mode::Normal)]),
        bind("n", vec![Action::NewPane(None)]),
        bind("Enter", vec![Action::SwitchToMode(Mode::Normal)]),
    ];
    let groups = aggregate(&table);
    assert_eq!(groups.len(), 2);
    assert_eq!(groups[0].record.label, "Normal");
    assert_eq!(groups[0].keys, vec!["Enter/".to_string(), "Esc/".to_string()]);
    assert_eq!(groups[1].record.label, "New");
    let table2 = vec![table[1].clone(), table[0].clone(), table[2].clone()];
    let groups2 = aggregate(&table2);
    assert_eq!(groups2[0].record.label, "New");
    assert_eq!(groups2[1].record.label, "Normal");
}

#[test]
fn only_first_action_counts_and_empty_bindings_are_skipped() {
    let table = vec![
        bind("a", vec![Action::ScrollUp, Action::Quit]),
        bind("b", vec![]),
    ];
    let groups = aggregate(&table);
    assert_eq!(groups.len(), 1);
    assert_eq!(groups[0].record, classify(&Action::ScrollUp));
    assert_eq!(groups[0].keys, vec!["a".to_string()]);
}

#[test]
fn aggregating_twice_gives_same_groups() {
    let table = vec![
        bind("Ctrl+p", vec![Action::NewPane(None)]),
        bind("x", vec![Action::CloseFocus]),
        bind("Ctrl+n", vec![Action::NewPane(None)]),
        bind("Alt+h", vec![Action::MoveFocus(Direction::Left)]),
        bind("q", vec![Action::Quit]),
    ];
    assert_eq!(aggregate(&table), aggregate(&table));
}

#[test]
fn empty_table_has_no_groups() {
    assert!(aggregate(&Vec::new()).is_empty());
}

#[test]
fn chord_text_separates_long_chords() {
    assert_eq!(chord_text(&"PageDown".to_string()), "PageDown/");
    assert_eq!(chord_text(&"x".to_string()), "x");
    assert_eq!(chord_text(&"".to_string()), "");
}

#[test]
fn key_text_drops_only_a_separator() {
    assert_eq!(key_text(&vec!["/".to_string()]), "/");
    assert_eq!(key_text(&vec!["Ctrl+a/".to_string(), "b".to_string()]), "Ctrl+a/b");
    assert_eq!(key_text(&Vec::new()), "");
}

#[test]
fn text_order_is_code_point_order() {
    assert!(text_less("Ctrl+n/", "Ctrl+p/"));
    assert!(!text_less("b", "a"));
    assert!(text_less("a", "ab"));
    assert!(!text_less("ab", "ab"));
    assert!(text_less("Z", "a"));
    assert!(text_less("z", "\u{2190}"));
}
