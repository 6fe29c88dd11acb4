//! The keyboard shortcuts: which key, with which modifiers, gives which
//! command.
use vstd::prelude::*;
use crate::editor::Tool;

verus! {

/// The keys that have shortcuts.
#[derive(Clone, Copy, PartialEq, Eq, Structural, Debug)]
pub enum Key {
    A,
    B,
    D,
    E,
    F,
    G,
    H,
    I,
    L,
    M,
    P,
    R,
    S,
    W,
    Y,
    Z,
    Tab,
    Delete,
    Enter,
    Escape,
}

/// What a shortcut asks for.
#[derive(Clone, Copy, PartialEq, Eq, Structural, Debug)]
pub enum Command {
    Undo,
    Redo,
    OpenExport,
    OpenResize,
    TogglePanels,
    ToggleSettings,
    OpenBrushDialog,
    OpenScale,
    LoadImage,
    NextTab,
    Deselect,
    SelectTool(Tool),
    ToggleGrid,
    Copy,
    Paste,
    Darker,
    Brighter,
    LessOpaque,
    MoreOpaque,
    DeleteSelection,
    Crop,
    Escape,
}

/// The shortcut table. With Ctrl: Z undoes (redoes when Shift is held too),
/// S export, R resize, W panels, H settings, B brush size, I scale, L load,
/// Tab next tab, D deselect. Without Ctrl: Delete, Enter (crop) and Escape
/// always work; the tool and color keys (B, E, F, R, M, G, Y, P, W, S, A, D)
/// work only when Alt is up and no text field has the focus. Other extra
/// Shift or Alt presses do not matter.
pub open spec fn command_spec(key: Key, ctrl: bool, shift: bool, alt: bool, text_focused: bool) -> Option<Command> {
    if ctrl {
        match key {
            Key::Z => Some(if shift { Command::Redo } else { Command::Undo }),
            Key::S => Some(Command::OpenExport),
            Key::R => Some(Command::OpenResize),
            Key::W => Some(Command::TogglePanels),
            Key::H => Some(Command::ToggleSettings),
            Key::B => Some(Command::OpenBrushDialog),
            Key::I => Some(Command::OpenScale),
            Key::L => Some(Command::LoadImage),
            Key::Tab => Some(Command::NextTab),
            Key::D => Some(Command::Deselect),
            _ => None,
        }
    } else {
        match key {
            Key::Delete => Some(Command::DeleteSelection),
            Key::Enter => Some(Command::Crop),
            Key::Escape => Some(Command::Escape),
            _ => if alt || text_focused {
                None
            } else {
                match key {
                    Key::B => Some(Command::SelectTool(Tool::Brush)),
                    Key::E => Some(Command::SelectTool(Tool::Eraser)),
                    Key::F => Some(Command::SelectTool(Tool::Fill)),
                    Key::R => Some(Command::SelectTool(Tool::Select)),
                    Key::M => Some(Command::SelectTool(Tool::Move)),
                    Key::G => Some(Command::ToggleGrid),
                    Key::Y => Some(Command::Copy),
                    Key::P => Some(Command::Paste),
                    Key::W => Some(Command::Darker),
                    Key::S => Some(Command::Brighter),
                    Key::A => Some(Command::LessOpaque),
                    Key::D => Some(Command::MoreOpaque),
                    _ => None,
                }
            },
        }
    }
}

/// The command for `key` pressed with the given modifiers (see
/// `command_spec`).
pub fn command_for(key: Key, ctrl: bool, shift: bool, alt: bool, text_focused: bool) -> (c: Option<Command>)
    ensures
        c == command_spec(key, ctrl, shift, alt, text_focused),
{
    if ctrl {
        match key {
            Key::Z => Some(if shift { Command::Redo } else { Command::Undo }),
            Key::S => Some(Command::OpenExport),
            Key::R => Some(Command::OpenResize),
            Key::W => Some(Command::TogglePanels),
            Key::H => Some(Command::ToggleSettings),
            Key::B => Some(Command::OpenBrushDialog),
            Key::I => Some(Command::OpenScale),
            Key::L => Some(Command::LoadImage),
            Key::Tab => Some(Command::NextTab),
            Key::D => Some(Command::Deselect),
            _ => None,
        }
    } else {
        match key {
            Key::Delete => Some(Command::DeleteSelection),
            Key::Enter => Some(Command::Crop),
            Key::Escape => Some(Command::Escape),
            _ => if alt || text_focused {
                None
            } else {
                match key {
                    Key::B => Some(Command::SelectTool(Tool::Brush)),
                    Key::E => Some(Command::SelectTool(Tool::Eraser)),
                    Key::F => Some(Command::SelectTool(Tool::Fill)),
                    Key::R => Some(Command::SelectTool(Tool::Select)),
                    Key::M => Some(Command::SelectTool(Tool::Move)),
                    Key::G => Some(Command::ToggleGrid),
                    Key::Y => Some(Command::Copy),
                    Key::P => Some(Command::Paste),
                    Key::W => Some(Command::Darker),
                    Key::S => Some(Command::Brighter),
                    Key::A => Some(Command::LessOpaque),
                    Key::D => Some(Command::MoreOpaque),
                    _ => None,
                }
            },
        }
    }
}

/// Which presses give each command: with Ctrl, Z undoes (Shift+Z redoes),
/// S exports, R resizes, W toggles the panels, H the settings, B opens the
/// brush size, I the scale dialog, L loads, Tab goes to the next tab and D
/// deselects. Without Ctrl, Delete, Enter and Escape delete, crop and
/// escape; and, with Alt up and no text field focused, B, E, F, R and M pick
/// the brush, eraser, fill, select and move tools, G toggles the grid, Y
/// copies, P pastes, W darkens, S brightens, A makes the color less opaque
/// and D more. Nothing else gives a command.
pub proof fn law_shortcut_table(key: Key, ctrl: bool, shift: bool, alt: bool, tf: bool)
    ensures
        ({
            let c = command_spec(key, ctrl, shift, alt, tf);
            let plain = !ctrl && !alt && !tf;
            &&& (c == Some(Command::Undo)) <==> (ctrl && key == Key::Z && !shift)
            &&& (c == Some(Command::Redo)) <==> (ctrl && key == Key::Z && shift)
            &&& (c == Some(Command::OpenExport)) <==> (ctrl && key == Key::S)
            &&& (c == Some(Command::OpenResize)) <==> (ctrl && key == Key::R)
            &&& (c == Some(Command::TogglePanels)) <==> (ctrl && key == Key::W)
            &&& (c == Some(Command::ToggleSettings)) <==> (ctrl && key == Key::H)
            &&& (c == Some(Command::OpenBrushDialog)) <==> (ctrl && key == Key::B)
            &&& (c == Some(Command::OpenScale)) <==> (ctrl && key == Key::I)
            &&& (c == Some(Command::LoadImage)) <==> (ctrl && key == Key::L)
            &&& (c == Some(Command::NextTab)) <==> (ctrl && key == Key::Tab)
            &&& (c == Some(Command::Deselect)) <==> (ctrl && key == Key::D)
            &&& (c == Some(Command::DeleteSelection)) <==> (!ctrl && key == Key::Delete)
            &&& (c == Some(Command::Crop)) <==> (!ctrl && key == Key::Enter)
            &&& (c == Some(Command::Escape)) <==> (!ctrl && key == Key::Escape)
            &&& (c == Some(Command::SelectTool(Tool::Brush))) <==> (plain && key == Key::B)
            &&& (c == Some(Command::SelectTool(Tool::Eraser))) <==> (plain && key == Key::E)
            &&& (c == Some(Command::SelectTool(Tool::Fill))) <==> (plain && key == Key::F)
            &&& (c == Some(Command::SelectTool(Tool::Select))) <==> (plain && key == Key::R)
            &&& (c == Some(Command::SelectTool(Tool::Move))) <==> (plain && key == Key::M)
            &&& (c == Some(Command::SelectTool(Tool::Eyedropper))) == false
            &&& (c == Some(Command::SelectTool(Tool::Text))) == false
            &&& (c == Some(Command::ToggleGrid)) <==> (plain && key == Key::G)
            &&& (c == Some(Command::Copy)) <==> (plain && key == Key::Y)
            &&& (c == Some(Command::Paste)) <==> (plain && key == Key::P)
            &&& (c == Some(Command::Darker)) <==> (plain && key == Key::W)
            &&& (c == Some(Command::Brighter)) <==> (plain && key == Key::S)
            &&& (c == Some(Command::LessOpaque)) <==> (plain && key == Key::A)
            &&& (c == Some(Command::MoreOpaque)) <==> (plain && key == Key::D)
        }),
{
}

} // verus!
