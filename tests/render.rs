use statusbar::action::Action;
use statusbar::bar::{Event, ModeInfo, Palette, StatusBar};
use statusbar::group::KeyBinding;
use statusbar::layout::{rotate_tabs, Segment, Tab};
use statusbar::mode::Mode;
use statusbar::style::{decimal_text, fill_sequence, Color};

fn tab(name: &str, active: bool) -> Tab {
    Tab { name: name.to_string(), active }
}

fn bind(chord: &str, actions: Vec<Action>) -> KeyBinding {
    KeyBinding { chord: chord.to_string(), actions }
}

fn mode_info(mode: Mode, keybinds: Vec<KeyBinding>, arrow_fonts: bool) -> ModeInfo {
    ModeInfo { mode, keybinds, palette: Palette { background: Color::Indexed(0) }, arrow_fonts }
}

fn bar(mode: Mode, keybinds: Vec<KeyBinding>, tabs: Vec<Tab>) -> StatusBar {
    let mut b = StatusBar::new();
    b.update(Event::ModeUpdate(mode_info(mode, keybinds, false)));
    b.update(Event::TabUpdate(tabs));
    b
}

fn width(segs: &[Segment]) -> usize {
    segs.iter()
        .map(|s| match s {
            Segment::Raw(_) => 0,
            Segment::Ribbon { text, .. } => text.chars().count() + 4,
            Segment::Keys { text, .. } => text.chars().count(),
            Segment::Label(t) => t.chars().count(),
            Segment::Trailer { text, .. } => text.chars().count() + 4,
        })
        .sum()
}

fn count_tabs(segs: &[Segment]) -> usize {
    segs.iter().filter(|s| matches!(s, Segment::Ribbon { .. })).count()
}

fn count_groups(segs: &[Segment]) -> usize {
    segs.iter().filter(|s| matches!(s, Segment::Keys { .. })).count()
}

fn sample_bar() -> StatusBar {
    bar(
        Mode::Normal,
        vec![
            bind("Ctrl+p", vec![Action::SwitchToMode(Mode::Pane)]),
            bind("Ctrl+t", vec![Action::SwitchToMode(Mode::Tab)]),
            bind("Ctrl+q", vec![Action::Quit]),
            bind("Ctrl+o", vec![Action::SwitchToMode(Mode::Session)]),
        ],
        vec![tab("one", false), tab("two", true), tab("three", false)],
    )
}

#[test]
fn rotation_puts_active_tab_first() {
    let tabs = vec![tab("a", false), tab("b", true), tab("c", false)];
    let r = rotate_tabs(&tabs);
    assert_eq!(r, vec![tab("b", true), tab("c", false), tab("a", false)]);
}

#[test]
fn rotation_without_active_tab_keeps_order() {
    let tabs = vec![tab("a", false), tab("b", false)];
    assert_eq!(rotate_tabs(&tabs), tabs);
    assert!(rotate_tabs(&Vec::new()).is_empty());
}

#[test]
fn narrow_budget_drops_the_wrapped_tab() {
    let b = bar(Mode::Normal, Vec::new(), vec![tab("a", false), tab("b", true), tab("c", false)]);
    let out = b.render(12);
    assert_eq!(
        out[1..].to_vec(),
        vec![
            Segment::Ribbon { text: "b".to_string(), selected: true },
            Segment::Ribbon { text: "c".to_string(), selected: false },
        ]
    );
    assert_eq!(out.len(), 3);
}

#[test]
fn zero_columns_render_nothing() {
    assert!(sample_bar().render(0).is_empty());
    assert!(StatusBar::new().render(0).is_empty());
}

#[test]
fn render_never_exceeds_budget() {
    let b = sample_bar();
    for cols in 0..120usize {
        let out = b.render(cols);
        assert!(width(&out) <= cols, "cols {}", cols);
    }
}

#[test]
fn shrinking_budget_never_adds_tabs_or_groups() {
    let b = sample_bar();
    let mut prev_tabs = usize::MAX;
    let mut prev_groups = usize::MAX;
    for cols in (0..120usize).rev() {
        let out = b.render(cols);
        let t = count_tabs(&out);
        let g = count_groups(&out);
        assert!(t <= prev_tabs);
        if t == prev_tabs {
            assert!(g <= prev_groups);
        }
        prev_tabs = t;
        prev_groups = g;
    }
}

#[test]
fn dropping_a_tab_can_let_a_group_in() {
    let b = bar(
        Mode::Normal,
        vec![bind("a", vec![Action::Other])],
        vec![tab("abcdef", true)],
    );
    let wide = b.render(10);
    assert_eq!(count_tabs(&wide), 1);
    assert_eq!(count_groups(&wide), 0);
    // " <a>" and "None" take eight columns
    let narrow = b.render(9);
    assert_eq!(count_tabs(&narrow), 0);
    assert_eq!(count_groups(&narrow), 1);
}

#[test]
fn full_render_layout() {
    let b = bar(
        Mode::Tab,
        vec![
            bind("Ctrl+n", vec![Action::NewPane(None)]),
            bind("Ctrl+p", vec![Action::NewPane(None)]),
            bind("q", vec![Action::Quit]),
        ],
        vec![tab("main", true)],
    );
    let out = b.render(42);
    assert_eq!(
        out,
        vec![
            Segment::Raw("\u{1b}[0;0H\u{1b}[48;5;0m\u{1b}[0K".to_string()),
            Segment::Ribbon { text: "main".to_string(), selected: true },
            Segment::Keys { text: " <Ctrl+n/Ctrl+p>".to_string(), start: 2, end: 15 },
            Segment::Label("New".to_string()),
            Segment::Keys { text: " <q>".to_string(), start: 2, end: 3 },
            Segment::Label("Quit".to_string()),
            Segment::Trailer { text: "Tab".to_string(), column: 35 },
        ]
    );
}

#[test]
fn tabs_hidden_outside_tab_modes() {
    let b = bar(Mode::Locked, Vec::new(), vec![tab("main", true)]);
    let out = b.render(40);
    assert_eq!(count_tabs(&out), 0);
    assert_eq!(out[1], Segment::Trailer { text: "Locked".to_string(), column: 30 });
}

#[test]
fn trailer_dropped_when_it_does_not_fit() {
    let b = bar(Mode::Locked, Vec::new(), Vec::new());
    assert_eq!(b.render(10).len(), 2);
    assert_eq!(b.render(9).len(), 1);
}

#[test]
fn icons_replace_labels() {
    let mut b = StatusBar::new();
    b.update(Event::ModeUpdate(mode_info(
        Mode::Pane,
        vec![bind("n", vec![Action::NewPane(None)])],
        true,
    )));
    let out = b.render(40);
    assert_eq!(out[2], Segment::Label("\u{f0704}".to_string()));
}

#[test]
fn multibyte_keys_highlight_by_characters() {
    let b = bar(Mode::Pane, vec![bind("\u{2190}", vec![Action::MoveFocus(statusbar::action::Direction::Left)])], Vec::new());
    let out = b.render(40);
    assert_eq!(out[1], Segment::Keys { text: " <\u{2190}>".to_string(), start: 2, end: 3 });
}

#[test]
fn update_reports_changes_only() {
    let mut b = StatusBar::new();
    assert!(!b.update(Event::ModeUpdate(ModeInfo::new())));
    assert!(b.update(Event::ModeUpdate(mode_info(Mode::Pane, Vec::new(), false))));
    assert!(!b.update(Event::ModeUpdate(mode_info(Mode::Pane, Vec::new(), false))));
    assert!(b.update(Event::ModeUpdate(mode_info(Mode::Pane, vec![bind("x", vec![Action::Quit])], false))));
    assert!(!b.update(Event::TabUpdate(Vec::new())));
    assert!(b.update(Event::TabUpdate(vec![tab("a", true)])));
    assert!(!b.update(Event::TabUpdate(vec![tab("a", true)])));
    assert!(b.update(Event::TabUpdate(vec![tab("a", false)])));
    assert!(!b.update(Event::Other));
    assert_eq!(b.mode_info.mode, Mode::Pane);
    assert_eq!(b.tabs, vec![tab("a", false)]);
}

#[test]
fn fill_keeps_color_domain() {
    assert_eq!(fill_sequence(Color::Rgb(1, 22, 255)), "\u{1b}[0;0H\u{1b}[48;2;1;22;255m\u{1b}[0K");
    assert_eq!(fill_sequence(Color::Indexed(7)), "\u{1b}[0;0H\u{1b}[48;5;7m\u{1b}[0K");
}

#[test]
fn decimal_text_of_bytes() {
    assert_eq!(decimal_text(0), "0");
    assert_eq!(decimal_text(9), "9");
    assert_eq!(decimal_text(10), "10");
    assert_eq!(decimal_text(99), "99");
    assert_eq!(decimal_text(100), "100");
    assert_eq!(decimal_text(205), "205");
    assert_eq!(decimal_text(255), "255");
}
