//! Input modes of the multiplexer and their display names.
use vstd::prelude::*;

verus! {

/// The input mode the multiplexer is in; it decides which keybindings are live.
#[derive(Clone, Copy, Debug, PartialEq, Eq, Structural)]
pub enum Mode {
    Normal,
    Locked,
    Resize,
    Pane,
    Tab,
    Scroll,
    EnterSearch,
    Search,
    RenameTab,
    RenamePane,
    Session,
    Move,
    Prompt,
    Tmux,
}

/// The name shown for a mode, both in the trailer chip and as the label of a
/// keybinding that switches to it.
pub open spec fn mode_label(m: Mode) -> Seq<char> {
    match m {
        Mode::Normal => "Normal"@,
        Mode::Locked => "Locked"@,
        Mode::Resize => "Resize"@,
        Mode::Pane => "Pane"@,
        Mode::Tab => "Tab"@,
        Mode::Scroll => "Scroll"@,
        Mode::EnterSearch => "EnterSearch"@,
        Mode::Search => "Search"@,
        Mode::RenameTab => "Rename"@,
        Mode::RenamePane => "Rename"@,
        Mode::Session => "Session"@,
        Mode::Move => "Move"@,
        Mode::Prompt => "Prompt"@,
        Mode::Tmux => "Tmux"@,
    }
}

/// Whether the tab strip is drawn in this mode: only in the default mode and
/// the two tab-management modes. (Showing tabs in every mode, as a window that
/// always keeps the active tab in view, is the other policy a bar could take;
/// this one does not.)
pub open spec fn shows_tabs(m: Mode) -> bool {
    m == Mode::Normal || m == Mode::Tab || m == Mode::RenameTab
}

/// The display name of a mode.
pub fn mode_name(m: Mode) -> (r: String)
    ensures
        r@ == mode_label(m),
{
    let s = match m {
        Mode::Normal => "Normal",
        Mode::Locked => "Locked",
        Mode::Resize => "Resize",
        Mode::Pane => "Pane",
        Mode::Tab => "Tab",
        Mode::Scroll => "Scroll",
        Mode::EnterSearch => "EnterSearch",
        Mode::Search => "Search",
        Mode::RenameTab => "Rename",
        Mode::RenamePane => "Rename",
        Mode::Session => "Session",
        Mode::Move => "Move",
        Mode::Prompt => "Prompt",
        Mode::Tmux => "Tmux",
    };
    String::from_str(s)
}

/// Whether the tab strip is drawn in this mode: the default mode and the two
/// tab-management modes.
pub fn mode_shows_tabs(m: Mode) -> (r: bool)
    ensures
        r == shows_tabs(m),
{
    match m {
        Mode::Normal | Mode::Tab | Mode::RenameTab => true,
        _ => false,
    }
}

} // verus!
