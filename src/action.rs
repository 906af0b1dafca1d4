//! The classifier: what a keybinding's action is called on screen, its glyph,
//! and where its group stands among the others.
use vstd::prelude::*;

use crate::mode::{Mode, mode_label, mode_name};

verus! {

/// A direction on the screen.
#[derive(Clone, Copy, Debug, PartialEq, Eq, Structural)]
pub enum Direction {
    Left,
    Right,
    Up,
    Down,
}

/// Whether a resize grows or shrinks the pane.
#[derive(Clone, Copy, Debug, PartialEq, Eq, Structural)]
pub enum ResizeKind {
    Increase,
    Decrease,
}

/// Which way a search steps through matches.
#[derive(Clone, Copy, Debug, PartialEq, Eq, Structural)]
pub enum SearchDirection {
    Down,
    Up,
}

/// A search setting that can be switched on and off.
#[derive(Clone, Copy, Debug, PartialEq, Eq, Structural)]
pub enum SearchOption {
    CaseSensitivity,
    WholeWord,
    Wrap,
}

/// What a key does in the current mode, as far as the bar tells actions apart.
/// Every action the bar has no label for is `Other`.
#[derive(Clone, Copy, Debug, PartialEq, Eq, Structural)]
pub enum Action {
    Quit,
    Detach,
    SwitchToMode(Mode),
    ToggleFloatingPanes,
    ToggleFocusFullscreen,
    NewPane(Option<Direction>),
    MoveFocus(Direction),
    SwitchFocus,
    TogglePaneFrames,
    TogglePaneEmbedOrFloating,
    CloseFocus,
    MovePane(Option<Direction>),
    MovePaneBackwards,
    Resize(ResizeKind, Option<Direction>),
    ToggleTab,
    GoToPreviousTab,
    GoToNextTab,
    GoToTab(u32),
    NewTab,
    ToggleActiveSyncTab,
    CloseTab,
    EditScrollback,
    ScrollDown,
    ScrollUp,
    HalfPageScrollDown,
    HalfPageScrollUp,
    PageScrollDown,
    PageScrollUp,
    Search(SearchDirection),
    SearchToggleOption(SearchOption),
    UndoRenameTab,
    UndoRenamePane,
    Other,
}

/// How an action is shown: a word, a one-glyph icon, and a rank that orders
/// groups from left to right.
#[derive(Clone, Debug, PartialEq, Eq)]
pub struct ActionRecord {
    pub label: String,
    pub icon: String,
    pub sort: u64,
}

/// The mathematical value of an [`ActionRecord`].
pub ghost struct RecordView {
    pub label: Seq<char>,
    pub icon: Seq<char>,
    pub sort: u64,
}

impl View for ActionRecord {
    type V = RecordView;

    open spec fn view(&self) -> RecordView {
        RecordView { label: self.label@, icon: self.icon@, sort: self.sort }
    }
}

/// The rank given to an action that the bar has no label for: above every
/// known action, so that it sorts last.
pub const FALLBACK_RANK: u64 = 1010;

/// The icon of a keybinding that switches to mode `m`.
pub open spec fn switch_icon(m: Mode) -> Seq<char> {
    match m {
        Mode::Normal => "󰆍"@,
        Mode::Locked => "󰍁"@,
        Mode::Resize => "󰁌"@,
        Mode::Pane => "󰄱"@,
        Mode::Tab => "󰉖"@,
        Mode::Scroll => "󰒺"@,
        Mode::EnterSearch => "󱎸"@,
        Mode::Search => "󰍉"@,
        Mode::RenameTab => "󰷎"@,
        Mode::RenamePane => "󰏭"@,
        Mode::Session => "󰍹"@,
        Mode::Move => "󰁁"@,
        Mode::Prompt => "󰆅"@,
        Mode::Tmux => "󰰤"@,
    }
}

/// The rank of a keybinding that switches to mode `m`.
pub open spec fn switch_rank(m: Mode) -> u64 {
    match m {
        Mode::Normal => 100,
        Mode::Locked => 110,
        Mode::Resize => 125,
        Mode::Pane => 120,
        Mode::Tab => 170,
        Mode::Scroll => 140,
        Mode::EnterSearch => 150,
        Mode::Search => 145,
        Mode::RenameTab => 175,
        Mode::RenamePane => 135,
        Mode::Session => 180,
        Mode::Move => 130,
        Mode::Prompt => 185,
        Mode::Tmux => 190,
    }
}

/// The display record of an action: a pure function of the action alone.
pub open spec fn record_of(a: Action) -> RecordView {
    match a {
        Action::SwitchToMode(m) => RecordView {
            label: mode_label(m),
            icon: switch_icon(m),
            sort: switch_rank(m),
        },
        Action::Quit => RecordView { label: "Quit"@, icon: "󰩈"@, sort: 1000 },
        Action::Detach => RecordView { label: "Detach"@, icon: "󱘖"@, sort: 990 },
        Action::ToggleFloatingPanes => RecordView { label: "Floating"@, icon: "󱣵"@, sort: 150 },
        Action::ToggleFocusFullscreen => RecordView { label: "Fullscreen"@, icon: "󰊓"@, sort: 160 },
        Action::NewPane(None) => RecordView { label: "New"@, icon: "󰜄"@, sort: 100 },
        Action::NewPane(Some(_)) => RecordView { label: "NewDirection"@, icon: "󰜶"@, sort: 105 },
        Action::MoveFocus(_) => RecordView { label: "MoveFocus"@, icon: "󰋱"@, sort: 110 },
        Action::SwitchFocus => RecordView { label: "Panes"@, icon: "󰽐"@, sort: 120 },
        Action::TogglePaneFrames => RecordView { label: "Frames"@, icon: "󰃐"@, sort: 140 },
        Action::TogglePaneEmbedOrFloating => RecordView { label: "Embed"@, icon: "󱥧"@, sort: 170 },
        Action::CloseFocus => RecordView { label: "Close"@, icon: "󰅘"@, sort: 190 },
        Action::MovePane(Some(_)) => RecordView { label: "MoveDirection"@, icon: "󰁁"@, sort: 200 },
        Action::MovePane(None) => RecordView { label: "Move"@, icon: "󰑐"@, sort: 200 },
        Action::MovePaneBackwards => RecordView { label: "Backwards"@, icon: "󰕍"@, sort: 210 },
        Action::Resize(ResizeKind::Increase, None) => RecordView { label: "Increase"@, icon: "󰁌"@, sort: 300 },
        Action::Resize(ResizeKind::Decrease, None) => RecordView { label: "Decrease"@, icon: "󰁄"@, sort: 310 },
        Action::Resize(ResizeKind::Increase, Some(_)) => RecordView { label: "IncreaseDirection"@, icon: "󰹷"@, sort: 320 },
        Action::Resize(ResizeKind::Decrease, Some(_)) => RecordView { label: "DecreaseDirection"@, icon: "󰘕"@, sort: 330 },
        Action::ToggleTab => RecordView { label: "Tabs"@, icon: "󰾷"@, sort: 410 },
        Action::GoToPreviousTab => RecordView { label: "Previous"@, icon: "󱃭"@, sort: 420 },
        Action::GoToNextTab => RecordView { label: "Next"@, icon: "󱃩"@, sort: 430 },
        Action::GoToTab(_) => RecordView { label: "Go#"@, icon: "󰴊"@, sort: 440 },
        Action::NewTab => RecordView { label: "New"@, icon: "󰮝"@, sort: 400 },
        Action::ToggleActiveSyncTab => RecordView { label: "Sync"@, icon: "󰌹"@, sort: 450 },
        Action::CloseTab => RecordView { label: "Close"@, icon: "󰮞"@, sort: 490 },
        Action::EditScrollback => RecordView { label: "Scrollback"@, icon: "󰕍"@, sort: 500 },
        Action::ScrollDown => RecordView { label: "Down"@, icon: "󰒺"@, sort: 510 },
        Action::ScrollUp => RecordView { label: "Up"@, icon: "󰒽"@, sort: 520 },
        Action::HalfPageScrollDown => RecordView { label: "HalfPageDown"@, icon: "󰄼"@, sort: 530 },
        Action::HalfPageScrollUp => RecordView { label: "HalfPageUp"@, icon: "󰄿"@, sort: 540 },
        Action::PageScrollDown => RecordView { label: "PageDown"@, icon: "󰶹"@, sort: 550 },
        Action::PageScrollUp => RecordView { label: "PageUp"@, icon: "󰶼"@, sort: 560 },
        Action::Search(_) => RecordView { label: "Search"@, icon: "󰍉"@, sort: 700 },
        Action::SearchToggleOption(_) => RecordView { label: "Option"@, icon: "󱡴"@, sort: 710 },
        Action::UndoRenameTab => RecordView { label: "UndoRename"@, icon: "󰕍"@, sort: 480 },
        Action::UndoRenamePane => RecordView { label: "UndoRename"@, icon: "󰕍"@, sort: 180 },
        Action::Other => RecordView { label: "None"@, icon: "󱥀"@, sort: FALLBACK_RANK },
    }
}

/// The icon and rank of a keybinding that switches to mode `m`.
fn switch_glyph(m: Mode) -> (r: (&'static str, u64))
    ensures
        r.0@ == switch_icon(m),
        r.1 == switch_rank(m),
{
    match m {
        Mode::Normal => ("󰆍", 100),
        Mode::Locked => ("󰍁", 110),
        Mode::Resize => ("󰁌", 125),
        Mode::Pane => ("󰄱", 120),
        Mode::Tab => ("󰉖", 170),
        Mode::Scroll => ("󰒺", 140),
        Mode::EnterSearch => ("󱎸", 150),
        Mode::Search => ("󰍉", 145),
        Mode::RenameTab => ("󰷎", 175),
        Mode::RenamePane => ("󰏭", 135),
        Mode::Session => ("󰍹", 180),
        Mode::Move => ("󰁁", 130),
        Mode::Prompt => ("󰆅", 185),
        Mode::Tmux => ("󰰤", 190),
    }
}

/// The label, icon and rank of an action that does not switch modes.
fn fixed_record(a: &Action) -> (r: (&'static str, &'static str, u64))
    requires
        !(a is SwitchToMode),
    ensures
        r.0@ == record_of(*a).label,
        r.1@ == record_of(*a).icon,
        r.2 == record_of(*a).sort,
{
    match a {
        Action::SwitchToMode(_) => ("None", "󱥀", FALLBACK_RANK),
        Action::Quit => ("Quit", "󰩈", 1000),
        Action::Detach => ("Detach", "󱘖", 990),
        Action::ToggleFloatingPanes => ("Floating", "󱣵", 150),
        Action::ToggleFocusFullscreen => ("Fullscreen", "󰊓", 160),
        Action::NewPane(None) => ("New", "󰜄", 100),
        Action::NewPane(Some(_)) => ("NewDirection", "󰜶", 105),
        Action::MoveFocus(_) => ("MoveFocus", "󰋱", 110),
        Action::SwitchFocus => ("Panes", "󰽐", 120),
        Action::TogglePaneFrames => ("Frames", "󰃐", 140),
        Action::TogglePaneEmbedOrFloating => ("Embed", "󱥧", 170),
        Action::CloseFocus => ("Close", "󰅘", 190),
        Action::MovePane(Some(_)) => ("MoveDirection", "󰁁", 200),
        Action::MovePane(None) => ("Move", "󰑐", 200),
        Action::MovePaneBackwards => ("Backwards", "󰕍", 210),
        Action::Resize(ResizeKind::Increase, None) => ("Increase", "󰁌", 300),
        Action::Resize(ResizeKind::Decrease, None) => ("Decrease", "󰁄", 310),
        Action::Resize(ResizeKind::Increase, Some(_)) => ("IncreaseDirection", "󰹷", 320),
        Action::Resize(ResizeKind::Decrease, Some(_)) => ("DecreaseDirection", "󰘕", 330),
        Action::ToggleTab => ("Tabs", "󰾷", 410),
        Action::GoToPreviousTab => ("Previous", "󱃭", 420),
        Action::GoToNextTab => ("Next", "󱃩", 430),
        Action::GoToTab(_) => ("Go#", "󰴊", 440),
        Action::NewTab => ("New", "󰮝", 400),
        Action::ToggleActiveSyncTab => ("Sync", "󰌹", 450),
        Action::CloseTab => ("Close", "󰮞", 490),
        Action::EditScrollback => ("Scrollback", "󰕍", 500),
        Action::ScrollDown => ("Down", "󰒺", 510),
        Action::ScrollUp => ("Up", "󰒽", 520),
        Action::HalfPageScrollDown => ("HalfPageDown", "󰄼", 530),
        Action::HalfPageScrollUp => ("HalfPageUp", "󰄿", 540),
        Action::PageScrollDown => ("PageDown", "󰶹", 550),
        Action::PageScrollUp => ("PageUp", "󰶼", 560),
        Action::Search(_) => ("Search", "󰍉", 700),
        Action::SearchToggleOption(_) => ("Option", "󱡴", 710),
        Action::UndoRenameTab => ("UndoRename", "󰕍", 480),
        Action::UndoRenamePane => ("UndoRename", "󰕍", 180),
        Action::Other => ("None", "󱥀", FALLBACK_RANK),
    }
}

/// Maps an action to its display record. Total: every action has one, and an
/// action the bar has no label for gets the fallback record, which sorts last.
pub fn classify(a: &Action) -> (r: ActionRecord)
    ensures
        r@ == record_of(*a),
{
    match a {
        Action::SwitchToMode(m) => {
            let (icon, sort) = switch_glyph(*m);
            ActionRecord { label: mode_name(*m), icon: String::from_str(icon), sort }
        },
        _ => {
            let (label, icon, sort) = fixed_record(a);
            ActionRecord { label: String::from_str(label), icon: String::from_str(icon), sort }
        },
    }
}

/// Classification is deterministic: equal actions get equal records, so two
/// calls of `classify` on one action agree field for field.
pub proof fn lemma_classify_deterministic(a: Action, b: Action)
    requires
        a == b,
    ensures
        record_of(a) == record_of(b),
        record_of(a).label == record_of(b).label,
        record_of(a).icon == record_of(b).icon,
        record_of(a).sort == record_of(b).sort,
{
}

/// Every action that the bar has no label for sorts after every action it has
/// one for.
pub proof fn lemma_fallback_sorts_last(a: Action)
    ensures
        a != Action::Other ==> record_of(a).sort < record_of(Action::Other).sort,
{
}

/// Every record's icon is a single glyph.
pub proof fn lemma_icon_is_one_glyph(a: Action)
    ensures
        record_of(a).icon.len() == 1,
{
    match a {
        Action::SwitchToMode(m) => {
            lemma_switch_icon_is_one_glyph(m);
        },
        _ => {
        reveal_strlit("󰁁");
        reveal_strlit("󰁄");
        reveal_strlit("󰁌");
        reveal_strlit("󰃐");
        reveal_strlit("󰄱");
        reveal_strlit("󰄼");
        reveal_strlit("󰄿");
        reveal_strlit("󰅘");
        reveal_strlit("󰆅");
        reveal_strlit("󰆍");
        reveal_strlit("󰉖");
        reveal_strlit("󰊓");
        reveal_strlit("󰋱");
        reveal_strlit("󰌹");
        reveal_strlit("󰍁");
        reveal_strlit("󰍉");
        reveal_strlit("󰍹");
        reveal_strlit("󰏭");
        reveal_strlit("󰑐");
        reveal_strlit("󰒺");
        reveal_strlit("󰒽");
        reveal_strlit("󰕍");
        reveal_strlit("󰘕");
        reveal_strlit("󰜄");
        reveal_strlit("󰜶");
        reveal_strlit("󰩈");
        reveal_strlit("󰮝");
        reveal_strlit("󰮞");
        reveal_strlit("󰰤");
        reveal_strlit("󰴊");
        reveal_strlit("󰶹");
        reveal_strlit("󰶼");
        reveal_strlit("󰷎");
        reveal_strlit("󰹷");
        reveal_strlit("󰽐");
        reveal_strlit("󰾷");
        reveal_strlit("󱃩");
        reveal_strlit("󱃭");
        reveal_strlit("󱎸");
        reveal_strlit("󱘖");
        reveal_strlit("󱡴");
        reveal_strlit("󱣵");
        reveal_strlit("󱥀");
        reveal_strlit("󱥧");
        },
    }
}

/// The icon of a mode switch is a single glyph.
pub proof fn lemma_switch_icon_is_one_glyph(m: Mode)
    ensures
        switch_icon(m).len() == 1,
{
    reveal_strlit("󰆍");
    reveal_strlit("󰍁");
    reveal_strlit("󰁌");
    reveal_strlit("󰄱");
    reveal_strlit("󰉖");
    reveal_strlit("󰒺");
    reveal_strlit("󱎸");
    reveal_strlit("󰍉");
    reveal_strlit("󰷎");
    reveal_strlit("󰏭");
    reveal_strlit("󰍹");
    reveal_strlit("󰁁");
    reveal_strlit("󰆅");
    reveal_strlit("󰰤");
}

/// Each mode has an icon of its own.
pub proof fn lemma_switch_icons_distinct(m1: Mode, m2: Mode)
    requires
        m1 != m2,
    ensures
        switch_icon(m1) != switch_icon(m2),
{
    reveal_strlit("󰆍");
    reveal_strlit("󰍁");
    reveal_strlit("󰁌");
    reveal_strlit("󰄱");
    reveal_strlit("󰉖");
    reveal_strlit("󰒺");
    reveal_strlit("󱎸");
    reveal_strlit("󰍉");
    reveal_strlit("󰷎");
    reveal_strlit("󰏭");
    reveal_strlit("󰍹");
    reveal_strlit("󰁁");
    reveal_strlit("󰆅");
    reveal_strlit("󰰤");
    assert(switch_icon(m1)[0] != switch_icon(m2)[0]);
}

} // verus!
