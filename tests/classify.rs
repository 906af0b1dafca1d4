use statusbar::action::{classify, Action, Direction, ResizeKind, SearchDirection, FALLBACK_RANK};
use statusbar::mode::{mode_name, mode_shows_tabs, Mode};

#[test]
fn classify_twice_gives_identical_records() {
    let actions = vec![
        Action::Quit,
        Action::SwitchToMode(Mode::Pane),
        Action::NewPane(Some(Direction::Left)),
        Action::Resize(ResizeKind::Decrease, None),
        Action::GoToTab(3),
        Action::Search(SearchDirection::Up),
        Action::Other,
    ];
    for a in actions.iter() {
        assert_eq!(classify(a), classify(a));
    }
}

#[test]
fn classify_quit_and_detach_rank_last_among_known() {
    let q = classify(&Action::Quit);
    assert_eq!(q.label, "Quit");
    assert_eq!(q.sort, 1000);
    let d = classify(&Action::Detach);
    assert_eq!(d.label, "Detach");
    assert_eq!(d.sort, 990);
}

#[test]
fn classify_unknown_action_gets_fallback() {
    let r = classify(&Action::Other);
    assert_eq!(r.label, "None");
    assert_eq!(r.icon, "\u{f1940}");
    assert_eq!(r.sort, FALLBACK_RANK);
    assert!(r.sort > classify(&Action::Quit).sort);
}

#[test]
fn classify_mode_switch_uses_mode_name() {
    let r = classify(&Action::SwitchToMode(Mode::RenamePane));
    assert_eq!(r.label, "Rename");
    assert_eq!(r.icon, "\u{f03ed}");
    assert_eq!(r.sort, 135);
    let r = classify(&Action::SwitchToMode(Mode::Normal));
    assert_eq!(r.label, "Normal");
    assert_eq!(r.sort, 100);
}

#[test]
fn classify_tells_directed_variants_apart() {
    let plain = classify(&Action::NewPane(None));
    let directed = classify(&Action::NewPane(Some(Direction::Down)));
    assert_eq!(plain.label, "New");
    assert_eq!(plain.sort, 100);
    assert_eq!(directed.label, "NewDirection");
    assert_eq!(directed.sort, 105);
    assert_ne!(plain, directed);
    let inc = classify(&Action::Resize(ResizeKind::Increase, Some(Direction::Up)));
    assert_eq!(inc.label, "IncreaseDirection");
    assert_eq!(inc.sort, 320);
    // a directed move focus is one record whatever the direction
    assert_eq!(
        classify(&Action::MoveFocus(Direction::Left)),
        classify(&Action::MoveFocus(Direction::Right))
    );
}

#[test]
fn mode_names() {
    assert_eq!(mode_name(Mode::EnterSearch), "EnterSearch");
    assert_eq!(mode_name(Mode::RenameTab), "Rename");
    assert_eq!(mode_name(Mode::Tmux), "Tmux");
    assert!(mode_shows_tabs(Mode::Normal));
    assert!(mode_shows_tabs(Mode::Tab));
    assert!(mode_shows_tabs(Mode::RenameTab));
    assert!(!mode_shows_tabs(Mode::Pane));
}

#[test]
fn every_icon_is_one_glyph_and_mode_icons_differ() {
    let modes = [
        Mode::Normal,
        Mode::Locked,
        Mode::Resize,
        Mode::Pane,
        Mode::Tab,
        Mode::Scroll,
        Mode::EnterSearch,
        Mode::Search,
        Mode::RenameTab,
        Mode::RenamePane,
        Mode::Session,
        Mode::Move,
        Mode::Prompt,
        Mode::Tmux,
    ];
    let mut icons: Vec<String> = Vec::new();
    for m in modes.iter() {
        let r = classify(&Action::SwitchToMode(*m));
        assert_eq!(r.icon.chars().count(), 1, "{:?}", m);
        assert!(!icons.contains(&r.icon), "{:?}", m);
        icons.push(r.icon);
    }
    let others = vec![
        Action::Quit,
        Action::Detach,
        Action::ToggleFloatingPanes,
        Action::NewPane(None),
        Action::NewPane(Some(Direction::Up)),
        Action::MovePane(None),
        Action::Resize(ResizeKind::Decrease, Some(Direction::Left)),
        Action::GoToTab(1),
        Action::NewTab,
        Action::PageScrollUp,
        Action::Search(SearchDirection::Down),
        Action::UndoRenamePane,
        Action::Other,
    ];
    for a in others.iter() {
        assert_eq!(classify(a).icon.chars().count(), 1, "{:?}", a);
    }
    assert_eq!(classify(&Action::SwitchToMode(Mode::Session)).label, "Session");
}
