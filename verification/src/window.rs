//! Decisions of the tray program's windows: which command a menu item or a
//! hotkey stands for, the entries of the language menu, and the drag state of
//! the selection overlay.
use vstd::prelude::*;

use crate::geometry::{loword, PointI, RectI};
use crate::languages::{LanguageSelection, LanguageView};
use crate::text::{chars_of, push_chars, string_from_str};

verus! {

broadcast use vstd::string::group_string_axioms;

/// Id of the capture hotkey registration.
pub const HOTKEY_CAPTURE: i32 = 1;

/// Id of the language-cycle hotkey registration.
pub const HOTKEY_CYCLE_LANGUAGE: i32 = 2;

pub const IDM_CAPTURE: usize = 100;

pub const IDM_CYCLE_LANGUAGE: usize = 101;

pub const IDM_TOGGLE_STARTUP: usize = 102;

pub const IDM_LIST_LANGUAGES: usize = 103;

pub const IDM_EXIT: usize = 199;

/// Menu id of automatic language choice; language `k` has this id plus `k`.
pub const IDM_LANGUAGE_BASE: usize = 300;

/// What a tray menu item asks for.
#[derive(Debug, Clone, Copy, PartialEq, Eq, Structural)]
pub enum MenuCommand {
    Capture,
    CycleLanguage,
    ListLanguages,
    ToggleStartup,
    Exit,
    /// Select choice `k` (0 automatic, `k` the `k`-th language).
    SelectLanguage(usize),
    Ignored,
}

/// The command of a menu item id.
pub open spec fn command_of_id(id: int) -> MenuCommand {
    if id == IDM_CAPTURE {
        MenuCommand::Capture
    } else if id == IDM_CYCLE_LANGUAGE {
        MenuCommand::CycleLanguage
    } else if id == IDM_LIST_LANGUAGES {
        MenuCommand::ListLanguages
    } else if id == IDM_TOGGLE_STARTUP {
        MenuCommand::ToggleStartup
    } else if id == IDM_EXIT {
        MenuCommand::Exit
    } else if IDM_LANGUAGE_BASE <= id < IDM_LANGUAGE_BASE + 100 {
        MenuCommand::SelectLanguage((id - IDM_LANGUAGE_BASE) as usize)
    } else {
        MenuCommand::Ignored
    }
}

/// The command of a menu message: its item id is in the low 16 bits.
pub fn menu_command(wparam: usize) -> (r: MenuCommand)
    ensures
        r == command_of_id(wparam as int % 0x10000),
{
    let id = loword(wparam) as usize;
    if id == IDM_CAPTURE {
        MenuCommand::Capture
    } else if id == IDM_CYCLE_LANGUAGE {
        MenuCommand::CycleLanguage
    } else if id == IDM_LIST_LANGUAGES {
        MenuCommand::ListLanguages
    } else if id == IDM_TOGGLE_STARTUP {
        MenuCommand::ToggleStartup
    } else if id == IDM_EXIT {
        MenuCommand::Exit
    } else if id >= IDM_LANGUAGE_BASE && id < IDM_LANGUAGE_BASE + 100 {
        MenuCommand::SelectLanguage(id - IDM_LANGUAGE_BASE)
    } else {
        MenuCommand::Ignored
    }
}

/// The id of language-menu entry `k` reads back as selecting choice `k`, for
/// the first hundred entries of the menu.
pub proof fn lemma_language_entry_id_selects(k: int)
    requires
        0 <= k < 100,
    ensures
        command_of_id((IDM_LANGUAGE_BASE + k) % 0x10000) == MenuCommand::SelectLanguage(k as usize),
{
}

/// What a hotkey message asks for.
#[derive(Debug, Clone, Copy, PartialEq, Eq, Structural)]
pub enum HotkeyCommand {
    Capture,
    CycleLanguage,
    Ignored,
}

/// The command of a hotkey message: its registration id is the parameter
/// read as an `i32`.
pub fn hotkey_command(wparam: usize) -> (r: HotkeyCommand)
    ensures
        r == if wparam as int % 0x1_0000_0000 == HOTKEY_CAPTURE {
            HotkeyCommand::Capture
        } else if wparam as int % 0x1_0000_0000 == HOTKEY_CYCLE_LANGUAGE {
            HotkeyCommand::CycleLanguage
        } else {
            HotkeyCommand::Ignored
        },
{
    let id = wparam as i32;
    assert((wparam as i32 == 1i32) == (wparam as int % 0x1_0000_0000 == 1)) by (bit_vector);
    assert((wparam as i32 == 2i32) == (wparam as int % 0x1_0000_0000 == 2)) by (bit_vector);
    if id == HOTKEY_CAPTURE {
        HotkeyCommand::Capture
    } else if id == HOTKEY_CYCLE_LANGUAGE {
        HotkeyCommand::CycleLanguage
    } else {
        HotkeyCommand::Ignored
    }
}

/// One entry of the language menu.
#[derive(Debug)]
pub struct MenuEntry {
    pub id: usize,
    pub label: String,
    pub checked: bool,
}

pub open spec fn check_mark(checked: bool) -> Seq<char> {
    if checked {
        " \u{2713}"@
    } else {
        Seq::empty()
    }
}

/// The label of language-menu entry `k`: automatic for 0, else "Name (tag)",
/// with a check mark on the selected entry.
pub open spec fn language_entry_label(s: Seq<LanguageView>, k: int, selected: int) -> Seq<char> {
    if k == 0 {
        "OCR: Auto"@ + check_mark(selected == 0)
    } else {
        "OCR: "@ + s[k - 1].1 + " ("@ + s[k - 1].0 + ")"@ + check_mark(selected == k)
    }
}

/// The language menu: automatic, then each installed language in order.
pub fn language_menu_entries(selection: &LanguageSelection) -> (r: Vec<MenuEntry>)
    requires
        selection.installed.len() + IDM_LANGUAGE_BASE + 1 <= usize::MAX,
    ensures
        r.len() == selection.installed.len() + 1,
        forall|k: int|
            0 <= k < r.len() ==> {
                &&& #[trigger] r[k].id == IDM_LANGUAGE_BASE + k
                &&& r[k].checked == (selection.current_index == k)
                &&& r[k].label@ == language_entry_label(
                    selection.entries(),
                    k,
                    selection.current_index as int,
                )
            },
{
    let selected = selection.current_index;
    let mut out: Vec<MenuEntry> = Vec::new();
    let mut auto_label = string_from_str("OCR: Auto");
    if selected == 0 {
        push_chars(&mut auto_label, &chars_of(" \u{2713}"));
    }
    out.push(MenuEntry { id: IDM_LANGUAGE_BASE, label: auto_label, checked: selected == 0 });
    let n = selection.installed.len();
    let mut i: usize = 0;
    while i < n
        invariant
            n == selection.installed.len(),
            n + IDM_LANGUAGE_BASE + 1 <= usize::MAX,
            selected == selection.current_index,
            i <= n,
            out.len() == i + 1,
            forall|k: int|
                0 <= k < out.len() ==> {
                    &&& #[trigger] out[k].id == IDM_LANGUAGE_BASE + k
                    &&& out[k].checked == (selected == k)
                    &&& out[k].label@ == language_entry_label(
                        selection.entries(),
                        k,
                        selected as int,
                    )
                },
        decreases n - i,
    {
        let e = &selection.installed[i];
        let checked = selected == i + 1;
        let mut label = string_from_str("OCR: ");
        push_chars(&mut label, &chars_of(e.display_name.as_str()));
        push_chars(&mut label, &chars_of(" ("));
        push_chars(&mut label, &chars_of(e.tag.as_str()));
        push_chars(&mut label, &chars_of(")"));
        if checked {
            push_chars(&mut label, &chars_of(" \u{2713}"));
        }
        assert(selection.entries()[i as int] == e@);
        assert(label@ =~= language_entry_label(selection.entries(), i + 1, selected as int));
        out.push(MenuEntry { id: IDM_LANGUAGE_BASE + i + 1, label, checked });
        i = i + 1;
    }
    out
}

/// The drag state of the selection overlay.
#[derive(Debug, Clone, Copy, PartialEq, Eq, Structural)]
pub struct OverlaySelection {
    pub dragging: bool,
    pub start: PointI,
    pub current: PointI,
}

impl OverlaySelection {
    /// No drag yet.
    pub fn new() -> (r: OverlaySelection)
        ensures
            !r.dragging,
            r.start == (PointI { x: 0, y: 0 }),
            r.current == (PointI { x: 0, y: 0 }),
    {
        OverlaySelection {
            dragging: false,
            start: PointI { x: 0, y: 0 },
            current: PointI { x: 0, y: 0 },
        }
    }

    /// The left button went down at `point`: a drag starts there.
    pub fn press(&mut self, point: PointI)
        ensures
            final(self).dragging,
            final(self).start == point,
            final(self).current == point,
    {
        self.dragging = true;
        self.start = point;
        self.current = point;
    }

    /// The mouse moved to `point`; during a drag the selection follows it and
    /// the overlay is painted again.
    pub fn drag_to(&mut self, point: PointI) -> (repaint: bool)
        ensures
            repaint == old(self).dragging,
            final(self).dragging == old(self).dragging,
            final(self).start == old(self).start,
            final(self).current == if old(self).dragging {
                point
            } else {
                old(self).current
            },
    {
        if self.dragging {
            self.current = point;
            true
        } else {
            false
        }
    }

    /// The rectangle between the drag's start and its current point, clamped
    /// to the overlay, while dragging.
    pub fn selection_rect(&self, width: i32, height: i32) -> (r: Option<RectI>)
        requires
            0 <= width,
            0 <= height,
        ensures
            match r {
                Some(rect) => self.dragging && rect == RectI::between(
                    self.start,
                    self.current,
                ).clamped(width as int, height as int),
                None => !self.dragging,
            },
            r matches Some(rect) ==> rect.normalized() && rect.within(width as int, height as int),
    {
        if self.dragging {
            let rect = RectI::new(self.start.x, self.start.y, self.current.x, self.current.y);
            Some(rect.clamp(width, height))
        } else {
            None
        }
    }

    /// The left button went up at `point`: a drag ends there and gives its
    /// rectangle, clamped to the overlay.
    pub fn release(&mut self, point: PointI, width: i32, height: i32) -> (r: Option<RectI>)
        requires
            0 <= width,
            0 <= height,
        ensures
            !final(self).dragging,
            final(self).start == old(self).start,
            final(self).current == if old(self).dragging {
                point
            } else {
                old(self).current
            },
            match r {
                Some(rect) => old(self).dragging && rect == RectI::between(
                    old(self).start,
                    point,
                ).clamped(width as int, height as int),
                None => !old(self).dragging,
            },
            r matches Some(rect) ==> rect.normalized() && rect.within(width as int, height as int),
    {
        if self.dragging {
            self.dragging = false;
            self.current = point;
            let rect = RectI::new(self.start.x, self.start.y, self.current.x, self.current.y);
            Some(rect.clamp(width, height))
        } else {
            None
        }
    }
}

} // verus!
