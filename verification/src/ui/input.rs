//! Input of the browser window: which command a key press gives for the
//! window's focus and mode, and what a click on a row does. Running the
//! command is the front end's part.
use vstd::prelude::*;

use crate::lantern::chooser::FileChooserMode;
use crate::lantern::config::ViewMode;

verus! {

/// A key, as far as the shortcuts tell keys apart. Any other key code is
/// `Char` of its low byte.
#[derive(Debug, Clone, Copy, PartialEq, Eq, Structural)]
pub enum Key {
    Escape,
    Return,
    Tab,
    Left,
    Right,
    Up,
    Down,
    Backspace,
    Delete,
    Space,
    Char(char),
}

/// Modifier keys held during a press.
#[derive(Debug, Clone, Copy, PartialEq, Eq, Structural)]
pub struct Mods {
    pub ctrl: bool,
    pub alt: bool,
    pub shift: bool,
}

/// The chooser dialog's part of the focus.
#[derive(Debug, Clone, Copy, PartialEq, Eq, Structural)]
pub struct ChooserKeys {
    /// The overwrite confirmation is shown.
    pub overwrite_pending: bool,
    pub filter_menu_open: bool,
    pub save_name_focused: bool,
}

/// What the shortcuts read of the window.
#[derive(Debug, Clone, Copy, PartialEq, Eq, Structural)]
pub struct KeyContext {
    pub location_focused: bool,
    pub filter_focused: bool,
    pub rename_focused: bool,
    /// `Some` while the window serves a file-chooser request.
    pub chooser: Option<ChooserKeys>,
    pub view_mode: ViewMode,
    pub has_selection: bool,
    /// Columns of the grid view (at least one).
    pub grid_columns: u32,
}

/// The command a key press asks for.
#[derive(Debug, Clone, Copy, PartialEq, Eq, Structural)]
pub enum KeyCommand {
    Ignore,
    DismissOverwrite,
    CloseFilterMenu,
    CancelChooser,
    CommitRename,
    SubmitLocation,
    AcceptChooser,
    CompleteLocation,
    CycleTab { backward: bool },
    GoBack,
    GoForward,
    GoUp,
    MoveSelection(i64),
    OpenSelected,
    TrashSelected,
    TogglePreview,
    Refresh,
    ToggleHidden,
    FocusLocation,
    FocusFilter,
    NewTab,
    CloseTab,
    NewFolder,
    RenameSelected,
    Yank { cut: bool },
    Paste,
    SwitchTab(u32),
}

/// Ctrl with a character key.
pub open spec fn ctrl_command(c: char, shift: bool, chooser: bool) -> KeyCommand {
    if c == 'r' && !shift {
        KeyCommand::Refresh
    } else if c == 'h' && !shift {
        KeyCommand::ToggleHidden
    } else if c == 'l' && !shift {
        KeyCommand::FocusLocation
    } else if c == 'f' && !shift {
        KeyCommand::FocusFilter
    } else if c == 't' && !shift && !chooser {
        KeyCommand::NewTab
    } else if c == 'w' && !shift && !chooser {
        KeyCommand::CloseTab
    } else if c == 'n' && shift {
        KeyCommand::NewFolder
    } else if c == 'e' && !shift {
        KeyCommand::RenameSelected
    } else if c == 'c' && !shift {
        KeyCommand::Yank { cut: false }
    } else if c == 'x' && !shift {
        KeyCommand::Yank { cut: true }
    } else if c == 'v' && !shift {
        KeyCommand::Paste
    } else if '1' <= c <= '9' && !shift && !chooser {
        KeyCommand::SwitchTab((c as u32 - '1' as u32) as u32)
    } else {
        KeyCommand::Ignore
    }
}

pub open spec fn save_name_focused(ctx: KeyContext) -> bool {
    match ctx.chooser {
        Some(c) => c.save_name_focused,
        None => false,
    }
}

/// A press while a text field has the focus.
pub open spec fn editing_command(key: Key, ctx: KeyContext) -> (KeyCommand, bool) {
    if key == Key::Return {
        (
            if ctx.rename_focused {
                KeyCommand::CommitRename
            } else if ctx.location_focused {
                KeyCommand::SubmitLocation
            } else if save_name_focused(ctx) {
                KeyCommand::AcceptChooser
            } else {
                KeyCommand::Ignore
            },
            true,
        )
    } else if key == Key::Tab && ctx.location_focused {
        (KeyCommand::CompleteLocation, true)
    } else {
        (KeyCommand::Ignore, false)
    }
}

/// A press while the listing has the focus.
pub open spec fn browse_command(key: Key, m: Mods, ctx: KeyContext) -> (KeyCommand, bool) {
    let plain = !m.ctrl && !m.alt;
    let grid = ctx.view_mode == ViewMode::Grid;
    let miller = ctx.view_mode == ViewMode::Miller;
    let cols = ctx.grid_columns as i64;
    if key == Key::Tab && m.ctrl {
        (KeyCommand::CycleTab { backward: m.shift }, true)
    } else if key == Key::Left && m.alt {
        (KeyCommand::GoBack, false)
    } else if key == Key::Right && m.alt {
        (KeyCommand::GoForward, false)
    } else if key == Key::Up && m.alt {
        (KeyCommand::GoUp, false)
    } else if key == Key::Backspace && plain {
        (KeyCommand::GoUp, false)
    } else if key == Key::Left && plain && grid {
        (KeyCommand::MoveSelection(-1i64), false)
    } else if key == Key::Right && plain && grid {
        (KeyCommand::MoveSelection(1), false)
    } else if key == Key::Left && plain && miller {
        (KeyCommand::GoUp, false)
    } else if key == Key::Right && plain && miller {
        (KeyCommand::OpenSelected, false)
    } else if key == Key::Up && plain {
        (KeyCommand::MoveSelection(if grid { (-cols) as i64 } else { -1i64 }), false)
    } else if key == Key::Down && plain {
        (
            KeyCommand::MoveSelection(
                if grid && ctx.has_selection {
                    cols
                } else {
                    1
                },
            ),
            false,
        )
    } else if key == Key::Return && plain {
        (
            if ctx.chooser is Some {
                KeyCommand::AcceptChooser
            } else {
                KeyCommand::OpenSelected
            },
            false,
        )
    } else if key == Key::Delete && plain {
        (KeyCommand::TrashSelected, false)
    } else if key == Key::Space && plain {
        (KeyCommand::TogglePreview, false)
    } else if m.ctrl {
        (
            match key {
                Key::Char(c) => ctrl_command(c, m.shift, ctx.chooser is Some),
                _ => KeyCommand::Ignore,
            },
            false,
        )
    } else {
        (KeyCommand::Ignore, false)
    }
}

/// The command of one key press, and whether the press is consumed (kept
/// from the focused widget).
pub open spec fn key_command_spec(key: Key, m: Mods, ctx: KeyContext) -> (KeyCommand, bool) {
    let editing = ctx.location_focused || ctx.filter_focused || ctx.rename_focused
        || save_name_focused(ctx);
    if key == Key::Escape && ctx.chooser is Some {
        let c = ctx.chooser->0;
        (
            if c.overwrite_pending {
                KeyCommand::DismissOverwrite
            } else if c.filter_menu_open {
                KeyCommand::CloseFilterMenu
            } else {
                KeyCommand::CancelChooser
            },
            true,
        )
    } else if editing {
        editing_command(key, ctx)
    } else {
        browse_command(key, m, ctx)
    }
}

fn ctrl_command_exec(c: char, shift: bool, chooser: bool) -> (r: KeyCommand)
    ensures
        r == ctrl_command(c, shift, chooser),
{
    if c == 'r' && !shift {
        KeyCommand::Refresh
    } else if c == 'h' && !shift {
        KeyCommand::ToggleHidden
    } else if c == 'l' && !shift {
        KeyCommand::FocusLocation
    } else if c == 'f' && !shift {
        KeyCommand::FocusFilter
    } else if c == 't' && !shift && !chooser {
        KeyCommand::NewTab
    } else if c == 'w' && !shift && !chooser {
        KeyCommand::CloseTab
    } else if c == 'n' && shift {
        KeyCommand::NewFolder
    } else if c == 'e' && !shift {
        KeyCommand::RenameSelected
    } else if c == 'c' && !shift {
        KeyCommand::Yank { cut: false }
    } else if c == 'x' && !shift {
        KeyCommand::Yank { cut: true }
    } else if c == 'v' && !shift {
        KeyCommand::Paste
    } else if '1' <= c && c <= '9' && !shift && !chooser {
        KeyCommand::SwitchTab(c as u32 - '1' as u32)
    } else {
        KeyCommand::Ignore
    }
}

fn editing_command_exec(key: Key, ctx: KeyContext) -> (r: (KeyCommand, bool))
    ensures
        r == editing_command(key, ctx),
{
    let save_focused = match ctx.chooser {
        Some(c) => c.save_name_focused,
        None => false,
    };
    match key {
        Key::Return => {
            let cmd = if ctx.rename_focused {
                KeyCommand::CommitRename
            } else if ctx.location_focused {
                KeyCommand::SubmitLocation
            } else if save_focused {
                KeyCommand::AcceptChooser
            } else {
                KeyCommand::Ignore
            };
            (cmd, true)
        },
        Key::Tab => if ctx.location_focused {
            (KeyCommand::CompleteLocation, true)
        } else {
            (KeyCommand::Ignore, false)
        },
        _ => (KeyCommand::Ignore, false),
    }
}

fn browse_command_exec(key: Key, m: Mods, ctx: KeyContext) -> (r: (KeyCommand, bool))
    ensures
        r == browse_command(key, m, ctx),
{
    let plain = !m.ctrl && !m.alt;
    let grid = match ctx.view_mode {
        ViewMode::Grid => true,
        _ => false,
    };
    let miller = match ctx.view_mode {
        ViewMode::Miller => true,
        _ => false,
    };
    let cols = ctx.grid_columns as i64;
    let has_chooser = ctx.chooser.is_some();
    match key {
        Key::Tab if m.ctrl => (KeyCommand::CycleTab { backward: m.shift }, true),
        Key::Left if m.alt => (KeyCommand::GoBack, false),
        Key::Right if m.alt => (KeyCommand::GoForward, false),
        Key::Up if m.alt => (KeyCommand::GoUp, false),
        Key::Backspace if plain => (KeyCommand::GoUp, false),
        Key::Left if plain && grid => (KeyCommand::MoveSelection(-1), false),
        Key::Right if plain && grid => (KeyCommand::MoveSelection(1), false),
        Key::Left if plain && miller => (KeyCommand::GoUp, false),
        Key::Right if plain && miller => (KeyCommand::OpenSelected, false),
        Key::Up if plain => {
            let step: i64 = if grid {
                -cols
            } else {
                -1
            };
            (KeyCommand::MoveSelection(step), false)
        },
        Key::Down if plain => {
            let step: i64 = if grid && ctx.has_selection {
                cols
            } else {
                1
            };
            (KeyCommand::MoveSelection(step), false)
        },
        Key::Return if plain => if has_chooser {
            (KeyCommand::AcceptChooser, false)
        } else {
            (KeyCommand::OpenSelected, false)
        },
        Key::Delete if plain => (KeyCommand::TrashSelected, false),
        Key::Space if plain => (KeyCommand::TogglePreview, false),
        Key::Char(c) if m.ctrl => (ctrl_command_exec(c, m.shift, has_chooser), false),
        _ => (KeyCommand::Ignore, false),
    }
}

/// The command of one key press and whether it is consumed, by the
/// shortcut table of the browser window: Escape first steps back in a
/// chooser dialog; while a text field is focused only Return (and Tab in
/// the location bar) act; otherwise navigation, selection and Ctrl
/// shortcuts apply (tab shortcuts not in a chooser dialog).
pub fn key_command(key: Key, m: Mods, ctx: KeyContext) -> (r: (KeyCommand, bool))
    ensures
        r == key_command_spec(key, m, ctx),
{
    let save_focused = match ctx.chooser {
        Some(c) => c.save_name_focused,
        None => false,
    };
    let editing = ctx.location_focused || ctx.filter_focused || ctx.rename_focused
        || save_focused;
    match (key, ctx.chooser) {
        (Key::Escape, Some(c)) => {
            let cmd = if c.overwrite_pending {
                KeyCommand::DismissOverwrite
            } else if c.filter_menu_open {
                KeyCommand::CloseFilterMenu
            } else {
                KeyCommand::CancelChooser
            };
            (cmd, true)
        },
        _ => if editing {
            editing_command_exec(key, ctx)
        } else {
            browse_command_exec(key, m, ctx)
        },
    }
}

/// Two clicks on the same row closer than this many milliseconds are a
/// double click.
pub const DOUBLE_CLICK_MS: u64 = 400;

/// What a click on a listing row does.
#[derive(Debug, Clone, Copy, PartialEq, Eq, Structural)]
pub enum ClickAction {
    /// Select the row; in a save-file dialog a clicked file also fills the
    /// save name.
    Select { fill_save_name: bool },
    /// Open the clicked entry.
    OpenChild,
    /// Answer an open-file dialog with the clicked file and close.
    AcceptFile,
    /// Fill the save name with the clicked file and accept.
    SaveAs,
}

/// Milliseconds from `at` to `now`, zero when `now` is earlier.
pub open spec fn elapsed(at: u64, now: u64) -> int {
    if now >= at {
        now - at
    } else {
        0
    }
}

/// What a click on row `idx` at `now` does, after the last click `last`
/// (row and time), in a dialog of `mode` (if any), on an entry that is
/// `navigable` (`None` when no entry has the clicked name); and the last
/// click to remember.
pub open spec fn click_spec(
    last: Option<(usize, u64)>,
    idx: usize,
    now: u64,
    mode: Option<FileChooserMode>,
    navigable: Option<bool>,
) -> (ClickAction, Option<(usize, u64)>) {
    let double = last matches Some((i, at)) && i == idx && elapsed(at, now) < DOUBLE_CLICK_MS;
    if double {
        (
            match (mode, navigable) {
                (Some(FileChooserMode::OpenFile), Some(false)) => ClickAction::AcceptFile,
                (Some(FileChooserMode::SaveFile), Some(false)) => ClickAction::SaveAs,
                _ => ClickAction::OpenChild,
            },
            None,
        )
    } else {
        (
            ClickAction::Select {
                fill_save_name: mode == Some(FileChooserMode::SaveFile) && navigable == Some(false),
            },
            Some((idx, now)),
        )
    }
}

/// What a click on a row does (see [`click_spec`]): a second click on the
/// same row within [`DOUBLE_CLICK_MS`] opens it (or, in a chooser dialog,
/// accepts or saves as the clicked file); any other click selects.
pub fn click(
    last: Option<(usize, u64)>,
    idx: usize,
    now: u64,
    mode: Option<FileChooserMode>,
    navigable: Option<bool>,
) -> (r: (ClickAction, Option<(usize, u64)>))
    ensures
        r == click_spec(last, idx, now, mode, navigable),
{
    let double = match last {
        Some((i, at)) => {
            let gap: u64 = if now >= at {
                now - at
            } else {
                0
            };
            i == idx && gap < DOUBLE_CLICK_MS
        },
        None => false,
    };
    let is_file = match navigable {
        Some(n) => !n,
        None => false,
    };
    if double {
        let action = match mode {
            Some(FileChooserMode::OpenFile) => if is_file {
                ClickAction::AcceptFile
            } else {
                ClickAction::OpenChild
            },
            Some(FileChooserMode::SaveFile) => if is_file {
                ClickAction::SaveAs
            } else {
                ClickAction::OpenChild
            },
            _ => ClickAction::OpenChild,
        };
        (action, None)
    } else {
        let save_mode = match mode {
            Some(FileChooserMode::SaveFile) => true,
            _ => false,
        };
        (ClickAction::Select { fill_save_name: save_mode && is_file }, Some((idx, now)))
    }
}

} // verus!
