//! The multiplexer: the prefix-key commands (Ctrl+A followed by a key), the
//! tree of panes inside each tab, and the status bar.

use vstd::prelude::*;

use crate::terminal::engine::{decimal, push_decimal};
use crate::terminal::{default_attribute, space_cell, Cell, Color, GraphicAttribute};
use crate::view::Viewport;
use crate::window::{Key, Modifiers};

verus! {

/// What the multiplexer is asked to do.
#[derive(Debug, Clone, Copy, PartialEq, Eq, Structural)]
pub enum Command {
    Nop,
    FocusUp,
    FocusDown,
    FocusLeft,
    FocusRight,
    FocusNextTab,
    FocusPrevTab,
    SplitVertical,
    SplitHorizontal,
    AddNewTab,
    SetMaximize,
    ResetMaximize,
    SaveLayout,
    RestoreLayout,
}

/// Reads the keys typed into the multiplexer: after the prefix Ctrl+A
/// (`\x01`) the next key is a command.
pub struct Controller {
    pub modifiers: Modifiers,
    consume: bool,
    maximized: bool,
}

/// The state of the reader: the modifiers held, whether the prefix was just
/// typed, and whether the focused pane is maximized.
pub struct ControllerView {
    pub modifiers: Modifiers,
    pub consume: bool,
    pub maximized: bool,
}

/// Typing `ch`: the prefix (when no prefix is pending) is taken and waits
/// for the next key; after the prefix, a second prefix is passed on, ESC
/// and unknown keys are taken doing nothing, `c` adds a tab, `n` and `p`
/// focus the next and previous tab, `%` and `"` split the pane vertically
/// and horizontally, `s` and `r` save and restore the layout, and `z`
/// maximizes the pane or restores it.  `None`: the character is not taken.
pub open spec fn character_step(v: ControllerView, ch: char) -> (ControllerView, Option<Command>) {
    if !v.consume {
        if ch == '\x01' {
            (ControllerView { consume: true, ..v }, Some(Command::Nop))
        } else {
            (v, None)
        }
    } else {
        let v1 = ControllerView { consume: false, ..v };
        if ch == '\x01' {
            (v1, None)
        } else if ch == '\x1b' {
            (v1, Some(Command::Nop))
        } else if ch == 'c' {
            (v1, Some(Command::AddNewTab))
        } else if ch == 'n' {
            (v1, Some(Command::FocusNextTab))
        } else if ch == 'p' {
            (v1, Some(Command::FocusPrevTab))
        } else if ch == '%' {
            (v1, Some(Command::SplitVertical))
        } else if ch == '"' {
            (v1, Some(Command::SplitHorizontal))
        } else if ch == 's' {
            (v1, Some(Command::SaveLayout))
        } else if ch == 'r' {
            (v1, Some(Command::RestoreLayout))
        } else if ch == 'z' {
            let m = !v.maximized;
            (
                ControllerView { maximized: m, ..v1 },
                Some(if m { Command::SetMaximize } else { Command::ResetMaximize }),
            )
        } else {
            (v1, Some(Command::Nop))
        }
    }
}

/// Pressing `key` after the prefix, with no modifier held: the arrows move
/// the focus to the pane in their direction.  Any other key, or any key
/// without the prefix, is not taken.
pub open spec fn key_step(v: ControllerView, key: Key) -> (ControllerView, Option<Command>) {
    let none = !v.modifiers.shift && !v.modifiers.ctrl && !v.modifiers.alt && !v.modifiers.logo;
    let cmd = if !none {
        None
    } else if key == Key::Up {
        Some(Command::FocusUp)
    } else if key == Key::Down {
        Some(Command::FocusDown)
    } else if key == Key::Left {
        Some(Command::FocusLeft)
    } else if key == Key::Right {
        Some(Command::FocusRight)
    } else {
        None
    };
    if v.consume && cmd is Some {
        (ControllerView { consume: false, ..v }, cmd)
    } else {
        (v, None)
    }
}

impl View for Controller {
    type V = ControllerView;

    closed spec fn view(&self) -> ControllerView {
        ControllerView { modifiers: self.modifiers, consume: self.consume, maximized: self.maximized }
    }
}

impl Default for Controller {
    /// No modifier held, no prefix pending, nothing maximized.
    fn default() -> (c: Self)
        ensures
            c@ == (ControllerView { modifiers: Modifiers { shift: false, ctrl: false, alt: false, logo: false }, consume: false, maximized: false }),
    {
        Controller {
            modifiers: Modifiers { shift: false, ctrl: false, alt: false, logo: false },
            consume: false,
            maximized: false,
        }
    }
}

impl Controller {
    /// The modifiers held changed to `m`.
    pub fn set_modifiers(&mut self, m: Modifiers)
        ensures
            final(self)@ == (ControllerView { modifiers: m, ..old(self)@ }),
    {
        self.modifiers = m;
    }

    /// A character was typed; see `character_step`.
    pub fn on_character(&mut self, ch: char) -> (r: Option<Command>)
        ensures
            (final(self)@, r) == character_step(old(self)@, ch),
    {
        if !self.consume {
            if ch == '\x01' {
                self.consume = true;
                Some(Command::Nop)
            } else {
                None
            }
        } else {
            self.consume = false;
            match ch {
                '\x01' => None,
                '\x1b' => Some(Command::Nop),
                'c' => Some(Command::AddNewTab),
                'n' => Some(Command::FocusNextTab),
                'p' => Some(Command::FocusPrevTab),
                '%' => Some(Command::SplitVertical),
                '"' => Some(Command::SplitHorizontal),
                's' => Some(Command::SaveLayout),
                'r' => Some(Command::RestoreLayout),
                'z' => {
                    self.maximized = !self.maximized;
                    if self.maximized {
                        Some(Command::SetMaximize)
                    } else {
                        Some(Command::ResetMaximize)
                    }
                },
                _ => Some(Command::Nop),
            }
        }
    }

    /// A key was pressed; see `key_step`.
    pub fn on_key_press(&mut self, key: Key) -> (r: Option<Command>)
        ensures
            (final(self)@, r) == key_step(old(self)@, key),
    {
        if self.consume {
            let m = self.modifiers;
            if m.shift || m.ctrl || m.alt || m.logo {
                return None;
            }
            let cmd = match key {
                Key::Up => Command::FocusUp,
                Key::Down => Command::FocusDown,
                Key::Left => Command::FocusLeft,
                Key::Right => Command::FocusRight,
                _ => return None,
            };
            self.consume = false;
            Some(cmd)
        } else {
            None
        }
    }
}

/// How a pane is divided: one half above the other, or side by side.
#[derive(Debug, Clone, Copy, PartialEq, Eq, Structural)]
pub enum Partition {
    Horizontal,
    Vertical,
}

/// A pane: a terminal window (by its number), or a pane divided in two.
#[derive(Debug)]
pub enum Pane {
    Single(u64),
    Binary(BinaryLayout),
}

/// A pane divided in two halves `x` (top or left) and `y`, one of them
/// focused, possibly maximized over the whole pane.
#[derive(Debug)]
pub struct BinaryLayout {
    pub partition: Partition,
    pub focus_x: bool,
    pub maximized: bool,
    pub x: Box<Pane>,
    pub y: Box<Pane>,
}

/// `b` with its focused half replaced by `f`.
pub open spec fn with_focused_half(b: BinaryLayout, f: Pane) -> BinaryLayout {
    if b.focus_x {
        BinaryLayout { x: Box::new(f), ..b }
    } else {
        BinaryLayout { y: Box::new(f), ..b }
    }
}

/// The window that has the focus in pane `p`.
pub open spec fn focused_window(p: Pane) -> u64
    decreases p,
{
    match p {
        Pane::Single(w) => w,
        Pane::Binary(b) => if b.focus_x {
            focused_window(*b.x)
        } else {
            focused_window(*b.y)
        },
    }
}

/// A pane of window `w` split by `partition`, the new window `new_id`
/// taking the second half and the focus.
pub open spec fn split(w: u64, partition: Partition, new_id: u64) -> Pane {
    Pane::Binary(
        BinaryLayout {
            partition,
            focus_x: false,
            maximized: false,
            x: Box::new(Pane::Single(w)),
            y: Box::new(Pane::Single(new_id)),
        },
    )
}

/// Carrying out `cmd` in pane `p` (`new_id` numbers a window that a split
/// opens): the pane after it, and whether the command was taken.  A window
/// splits, and takes saving and restoring.  A divided pane hands the command
/// to its focused half; a focus move that the half does not take moves the
/// focus to the other half where that is in the move's direction; maximizing
/// is recorded in the divided pane as well; saving and restoring go to both
/// halves.
pub open spec fn pane_command(p: Pane, cmd: Command, new_id: u64) -> (Pane, bool)
    decreases p,
{
    match p {
        Pane::Single(w) => match cmd {
            Command::SplitVertical => (split(w, Partition::Vertical, new_id), true),
            Command::SplitHorizontal => (split(w, Partition::Horizontal, new_id), true),
            Command::SaveLayout | Command::RestoreLayout => (p, true),
            _ => (p, false),
        },
        Pane::Binary(b) => {
            let (f, taken) = if b.focus_x {
                pane_command(*b.x, cmd, new_id)
            } else {
                pane_command(*b.y, cmd, new_id)
            };
            let b1 = with_focused_half(b, f);
            match cmd {
                Command::FocusUp | Command::FocusDown | Command::FocusLeft | Command::FocusRight => {
                    let changeable = match cmd {
                        Command::FocusDown => b.partition == Partition::Horizontal && b.focus_x,
                        Command::FocusUp => b.partition == Partition::Horizontal && !b.focus_x,
                        Command::FocusRight => b.partition == Partition::Vertical && b.focus_x,
                        _ => b.partition == Partition::Vertical && !b.focus_x,
                    };
                    if !taken && changeable {
                        (Pane::Binary(BinaryLayout { focus_x: !b.focus_x, ..b1 }), true)
                    } else {
                        (Pane::Binary(b1), taken)
                    }
                },
                Command::SetMaximize => (Pane::Binary(BinaryLayout { maximized: true, ..b1 }), true),
                Command::ResetMaximize => (Pane::Binary(BinaryLayout { maximized: false, ..b1 }), true),
                Command::SaveLayout | Command::RestoreLayout => (
                    Pane::Binary(
                        BinaryLayout {
                            x: Box::new(pane_command(*b.x, cmd, new_id).0),
                            y: Box::new(pane_command(*b.y, cmd, new_id).0),
                            ..b
                        },
                    ),
                    true,
                ),
                _ => (Pane::Binary(b1), taken),
            }
        },
    }
}

/// The pane that stands in place of the divided pane `p` once its focused
/// window is closed: the other half where the focused half is a window,
/// else `p` with the focused window closed inside its focused half.
pub open spec fn pane_closed(p: Pane) -> Pane
    decreases p,
{
    match p {
        Pane::Single(_) => p,
        Pane::Binary(b) => {
            if b.focus_x {
                if (*b.x) is Single {
                    *b.y
                } else {
                    Pane::Binary(BinaryLayout { x: Box::new(pane_closed(*b.x)), ..b })
                }
            } else {
                if (*b.y) is Single {
                    *b.x
                } else {
                    Pane::Binary(BinaryLayout { y: Box::new(pane_closed(*b.y)), ..b })
                }
            }
        },
    }
}

impl Pane {
    /// The window that has the focus; see `focused_window`.
    pub fn focused_window(&self) -> (w: u64)
        ensures
            w == focused_window(*self),
        decreases self,
    {
        match self {
            Pane::Single(w) => *w,
            Pane::Binary(b) => if b.focus_x {
                b.x.focused_window()
            } else {
                b.y.focused_window()
            },
        }
    }

    /// This pane is a window.
    pub fn is_single(&self) -> (b: bool)
        ensures
            b == self is Single,
    {
        match self {
            Pane::Single(_) => true,
            Pane::Binary(_) => false,
        }
    }

    /// Carries out `cmd`; see `pane_command`.
    pub fn process_command(self, cmd: Command, new_id: u64) -> (r: (Pane, bool))
        ensures
            r == pane_command(self, cmd, new_id),
        decreases self,
    {
        match self {
            Pane::Single(w) => match cmd {
                Command::SplitVertical => (
                    Pane::Binary(
                        BinaryLayout {
                            partition: Partition::Vertical,
                            focus_x: false,
                            maximized: false,
                            x: Box::new(Pane::Single(w)),
                            y: Box::new(Pane::Single(new_id)),
                        },
                    ),
                    true,
                ),
                Command::SplitHorizontal => (
                    Pane::Binary(
                        BinaryLayout {
                            partition: Partition::Horizontal,
                            focus_x: false,
                            maximized: false,
                            x: Box::new(Pane::Single(w)),
                            y: Box::new(Pane::Single(new_id)),
                        },
                    ),
                    true,
                ),
                Command::SaveLayout | Command::RestoreLayout => (Pane::Single(w), true),
                _ => (Pane::Single(w), false),
            },
            Pane::Binary(b) => {
                let BinaryLayout { partition, focus_x, maximized, x, y } = b;
                match cmd {
                    Command::SaveLayout | Command::RestoreLayout => {
                        let (x2, _) = (*x).process_command(cmd, new_id);
                        let (y2, _) = (*y).process_command(cmd, new_id);
                        (
                            Pane::Binary(
                                BinaryLayout { partition, focus_x, maximized, x: Box::new(x2), y: Box::new(y2) },
                            ),
                            true,
                        )
                    },
                    _ => {
                        let (x2, y2, taken) = if focus_x {
                            let (f, taken) = (*x).process_command(cmd, new_id);
                            (Box::new(f), y, taken)
                        } else {
                            let (f, taken) = (*y).process_command(cmd, new_id);
                            (x, Box::new(f), taken)
                        };
                        match cmd {
                            Command::FocusUp | Command::FocusDown | Command::FocusLeft | Command::FocusRight => {
                                let changeable = match cmd {
                                    Command::FocusDown => partition == Partition::Horizontal && focus_x,
                                    Command::FocusUp => partition == Partition::Horizontal && !focus_x,
                                    Command::FocusRight => partition == Partition::Vertical && focus_x,
                                    _ => partition == Partition::Vertical && !focus_x,
                                };
                                if !taken && changeable {
                                    (
                                        Pane::Binary(
                                            BinaryLayout { partition, focus_x: !focus_x, maximized, x: x2, y: y2 },
                                        ),
                                        true,
                                    )
                                } else {
                                    (Pane::Binary(BinaryLayout { partition, focus_x, maximized, x: x2, y: y2 }), taken)
                                }
                            },
                            Command::SetMaximize => (
                                Pane::Binary(BinaryLayout { partition, focus_x, maximized: true, x: x2, y: y2 }),
                                true,
                            ),
                            Command::ResetMaximize => (
                                Pane::Binary(BinaryLayout { partition, focus_x, maximized: false, x: x2, y: y2 }),
                                true,
                            ),
                            _ => (Pane::Binary(BinaryLayout { partition, focus_x, maximized, x: x2, y: y2 }), taken),
                        }
                    },
                }
            },
        }
    }

    /// The pane after closing its focused window; see `pane_closed`.
    pub fn close(self) -> (r: Pane)
        requires
            self is Binary,
        ensures
            r == pane_closed(self),
        decreases self,
    {
        match self {
            Pane::Single(w) => Pane::Single(w),
            Pane::Binary(b) => {
                let BinaryLayout { partition, focus_x, maximized, x, y } = b;
                if focus_x {
                    if x.is_single() {
                        *y
                    } else {
                        let x2 = (*x).close();
                        Pane::Binary(BinaryLayout { partition, focus_x, maximized, x: Box::new(x2), y })
                    }
                } else {
                    if y.is_single() {
                        *x
                    } else {
                        let y2 = (*y).close();
                        Pane::Binary(BinaryLayout { partition, focus_x, maximized, x, y: Box::new(y2) })
                    }
                }
            },
        }
    }
}

/// The windows of pane `p`, in order from the top left, each with whether
/// it has the focus when the pane has it (`focus`).
pub open spec fn focus_flags(p: Pane, focus: bool) -> Seq<(u64, bool)>
    decreases p,
{
    match p {
        Pane::Single(w) => seq![(w, focus)],
        Pane::Binary(b) => focus_flags(*b.x, focus && b.focus_x) + focus_flags(*b.y, focus && !b.focus_x),
    }
}

/// Which halves of a divided pane an event goes to: a maximized pane sends
/// every event to its focused half; otherwise the events that concern the
/// whole window (`shared`: modifier changes, mouse moves and buttons, and
/// the end of a round of events) go to both halves and the others to the
/// focused one.
pub open spec fn event_targets(b: BinaryLayout, shared: bool) -> (bool, bool) {
    if b.maximized || !shared {
        (b.focus_x, !b.focus_x)
    } else {
        (true, true)
    }
}

/// Pixels left empty on each side of the line between two halves.
pub const PARTITION_GAP: u32 = 2;

/// The viewports of the two halves of a pane over `vp` whose dividing line
/// lies `mid` pixels below its top edge (right of its left edge): the first
/// half ends `PARTITION_GAP` pixels before the line and the second starts as
/// far after it; a maximized pane gives the whole viewport to its focused
/// half and an empty one to the other.
pub open spec fn split_viewport_spec(
    partition: Partition,
    maximized: bool,
    focus_x: bool,
    vp: Viewport,
    mid: int,
) -> (Viewport, Viewport) {
    let gap = PARTITION_GAP as int;
    let empty = Viewport { x: 0, y: 0, w: 0, h: 0 };
    if maximized {
        if focus_x {
            (vp, empty)
        } else {
            (empty, vp)
        }
    } else {
        match partition {
            Partition::Horizontal => (
                Viewport { x: vp.x, y: vp.y, w: vp.w, h: (mid - gap) as u32 },
                Viewport { x: vp.x, y: (vp.y + mid + gap) as u32, w: vp.w, h: (vp.h - mid - gap) as u32 },
            ),
            Partition::Vertical => (
                Viewport { x: vp.x, y: vp.y, w: (mid - gap) as u32, h: vp.h },
                Viewport { x: (vp.x + mid + gap) as u32, y: vp.y, w: (vp.w - mid - gap) as u32, h: vp.h },
            ),
        }
    }
}

/// The two halves of a divided pane and the gap between them cover the pane
/// exactly: the first half starts where the pane starts, the second ends
/// where it ends, and `2 * PARTITION_GAP` pixels lie between them.
pub proof fn lemma_halves_tile_the_pane(partition: Partition, focus_x: bool, vp: Viewport, mid: int)
    requires
        PARTITION_GAP <= mid,
        partition == Partition::Horizontal ==> mid + PARTITION_GAP <= vp.h && vp.y + mid + PARTITION_GAP <= u32::MAX,
        partition == Partition::Vertical ==> mid + PARTITION_GAP <= vp.w && vp.x + mid + PARTITION_GAP <= u32::MAX,
    ensures
        ({
            let (a, b) = split_viewport_spec(partition, false, focus_x, vp, mid);
            match partition {
                Partition::Horizontal => {
                    &&& a.x == vp.x && b.x == vp.x && a.w == vp.w && b.w == vp.w
                    &&& a.y == vp.y
                    &&& b.y == a.y + a.h + 2 * PARTITION_GAP
                    &&& b.y + b.h == vp.y + vp.h
                },
                Partition::Vertical => {
                    &&& a.y == vp.y && b.y == vp.y && a.h == vp.h && b.h == vp.h
                    &&& a.x == vp.x
                    &&& b.x == a.x + a.w + 2 * PARTITION_GAP
                    &&& b.x + b.w == vp.x + vp.w
                },
            }
        }),
{
}

/// Where the dividing line of a pane over `vp`, `mid` pixels from its top
/// (left) edge, can be grabbed: within `PARTITION_GAP` pixels of the line,
/// along the pane and twice that gap beyond its ends.
pub open spec fn on_partition_spec(partition: Partition, vp: Viewport, mid: int, x: int, y: int) -> bool {
    let gap = PARTITION_GAP as int;
    match partition {
        Partition::Horizontal => {
            let line = vp.y + mid;
            &&& line - gap <= y < line + gap
            &&& vp.x - 2 * gap <= x < vp.x + vp.w + 2 * gap
        },
        Partition::Vertical => {
            let line = vp.x + mid;
            &&& line - gap <= x < line + gap
            &&& vp.y - 2 * gap <= y < vp.y + vp.h + 2 * gap
        },
    }
}

/// The windows drawn for pane `p`, in drawing order: both halves, or only the
/// focused one where the pane is maximized.
pub open spec fn drawn_windows(p: Pane) -> Seq<u64>
    decreases p,
{
    match p {
        Pane::Single(w) => seq![w],
        Pane::Binary(b) => {
            if b.maximized {
                if b.focus_x {
                    drawn_windows(*b.x)
                } else {
                    drawn_windows(*b.y)
                }
            } else {
                drawn_windows(*b.x) + drawn_windows(*b.y)
            }
        },
    }
}

impl BinaryLayout {
    /// The viewports of the two halves over `vp`, with the dividing line
    /// `mid` pixels from the top (left) edge; see `split_viewport_spec`.
    pub fn split_viewport(&self, vp: Viewport, mid: u32) -> (r: (Viewport, Viewport))
        requires
            !self.maximized && self.partition == Partition::Horizontal ==> PARTITION_GAP <= mid
                && mid + PARTITION_GAP <= vp.h && vp.y + mid + PARTITION_GAP <= u32::MAX,
            !self.maximized && self.partition == Partition::Vertical ==> PARTITION_GAP <= mid
                && mid + PARTITION_GAP <= vp.w && vp.x + mid + PARTITION_GAP <= u32::MAX,
        ensures
            r == split_viewport_spec(self.partition, self.maximized, self.focus_x, vp, mid as int),
    {
        if self.maximized {
            let empty = Viewport { x: 0, y: 0, w: 0, h: 0 };
            return if self.focus_x {
                (vp, empty)
            } else {
                (empty, vp)
            };
        }
        match self.partition {
            Partition::Horizontal => {
                let up = Viewport { x: vp.x, y: vp.y, w: vp.w, h: mid - PARTITION_GAP };
                let down = Viewport {
                    x: vp.x,
                    y: vp.y + mid + PARTITION_GAP,
                    w: vp.w,
                    h: vp.h - mid - PARTITION_GAP,
                };
                (up, down)
            },
            Partition::Vertical => {
                let left = Viewport { x: vp.x, y: vp.y, w: mid - PARTITION_GAP, h: vp.h };
                let right = Viewport {
                    x: vp.x + mid + PARTITION_GAP,
                    y: vp.y,
                    w: vp.w - mid - PARTITION_GAP,
                    h: vp.h,
                };
                (left, right)
            },
        }
    }

    /// Whether the mouse at pixel (`x`, `y`) is on the dividing line of the
    /// pane over `vp`, `mid` pixels from its top (left) edge; see
    /// `on_partition_spec`.
    pub fn cursor_on_partition(&self, vp: Viewport, mid: i32, x: i32, y: i32) -> (hit: bool)
        requires
            vp.x + vp.w + 2 * PARTITION_GAP <= i32::MAX,
            vp.y + vp.h + 2 * PARTITION_GAP <= i32::MAX,
            self.partition == Partition::Horizontal ==> i32::MIN + PARTITION_GAP <= vp.y + mid
                && vp.y + mid + PARTITION_GAP <= i32::MAX,
            self.partition == Partition::Vertical ==> i32::MIN + PARTITION_GAP <= vp.x + mid
                && vp.x + mid + PARTITION_GAP <= i32::MAX,
        ensures
            hit == on_partition_spec(self.partition, vp, mid as int, x as int, y as int),
    {
        let gap = PARTITION_GAP as i32;
        let (vx, vy, vw, vh) = (vp.x as i32, vp.y as i32, vp.w as i32, vp.h as i32);
        match self.partition {
            Partition::Horizontal => {
                let line = vy + mid;
                let hit_y = line - gap <= y && y < line + gap;
                let hit_x = vx - gap * 2 <= x && x < vx + vw + gap * 2;
                hit_x && hit_y
            },
            Partition::Vertical => {
                let line = vx + mid;
                let hit_x = line - gap <= x && x < line + gap;
                let hit_y = vy - gap * 2 <= y && y < vy + vh + gap * 2;
                hit_x && hit_y
            },
        }
    }

    /// Which halves an event goes to; see `event_targets`.
    pub fn split_event(&self, shared: bool) -> (r: (bool, bool))
        ensures
            r == event_targets(*self, shared),
    {
        if self.maximized || !shared {
            (self.focus_x, !self.focus_x)
        } else {
            (true, true)
        }
    }
}

impl Pane {
    /// Appends the windows drawn for this pane; see `drawn_windows`.
    pub fn draw_order(&self, out: &mut Vec<u64>)
        ensures
            final(out)@ == old(out)@ + drawn_windows(*self),
        decreases self,
    {
        match self {
            Pane::Single(w) => {
                out.push(*w);
                assert(final(out)@ =~= old(out)@ + seq![*w]);
            },
            Pane::Binary(b) => {
                if b.maximized {
                    if b.focus_x {
                        b.x.draw_order(out);
                    } else {
                        b.y.draw_order(out);
                    }
                } else {
                    b.x.draw_order(out);
                    b.y.draw_order(out);
                    assert(final(out)@ =~= old(out)@ + drawn_windows(*self));
                }
            },
        }
    }

    /// Appends the windows of this pane with their focus; see `focus_flags`.
    pub fn update_focus(&self, focus: bool, out: &mut Vec<(u64, bool)>)
        ensures
            final(out)@ == old(out)@ + focus_flags(*self, focus),
        decreases self,
    {
        match self {
            Pane::Single(w) => {
                out.push((*w, focus));
                assert(final(out)@ =~= old(out)@ + seq![(*w, focus)]);
            },
            Pane::Binary(b) => {
                b.x.update_focus(focus && b.focus_x, out);
                b.y.update_focus(focus && !b.focus_x, out);
                assert(final(out)@ =~= old(out)@ + focus_flags(*self, focus));
            },
        }
    }
}

/// The tabs as a value: the focused one, and the pane of each.
pub struct TabsView {
    pub focus: usize,
    pub tabs: Seq<Pane>,
}

/// The windows of the first `k` tabs, each with whether it has the focus
/// when the multiplexer has it (`focus`).
pub open spec fn tabs_focus_flags(t: TabsView, focus: bool, k: int) -> Seq<(u64, bool)>
    decreases k,
{
    if k <= 0 {
        seq![]
    } else {
        tabs_focus_flags(t, focus, k - 1) + focus_flags(t.tabs[k - 1], focus && k - 1 == t.focus)
    }
}

/// The focused tab exists.
pub open spec fn tabs_wf(t: TabsView) -> bool {
    t.focus < t.tabs.len()
}

/// Carrying out `cmd` on the tabs `t`: adding a tab of window `new_id`
/// focuses it; the next and previous tabs wrap around; saving and restoring
/// are taken; any other command goes to the pane of the focused tab.
pub open spec fn tabs_command(t: TabsView, cmd: Command, new_id: u64) -> (TabsView, bool) {
    let n = t.tabs.len() as int;
    match cmd {
        Command::AddNewTab => (TabsView { focus: n as usize, tabs: t.tabs.push(Pane::Single(new_id)) }, true),
        Command::FocusNextTab => (TabsView { focus: ((t.focus + 1) % n) as usize, ..t }, true),
        Command::FocusPrevTab => (TabsView { focus: ((n + t.focus - 1) % n) as usize, ..t }, true),
        Command::SaveLayout | Command::RestoreLayout => (t, true),
        _ => {
            let (p, taken) = pane_command(t.tabs[t.focus as int], cmd, new_id);
            (TabsView { tabs: t.tabs.update(t.focus as int, p), ..t }, taken)
        },
    }
}

/// The tabs after their focused window is closed: a tab that is a single
/// window goes away (the focus moving to the first tab when it was the
/// last one); otherwise the window is closed inside the tab's pane.
pub open spec fn tabs_closed(t: TabsView) -> TabsView {
    let f = t.tabs[t.focus as int];
    if f is Single {
        let rest = t.tabs.remove(t.focus as int);
        TabsView { focus: if t.focus >= rest.len() { 0 } else { t.focus }, tabs: rest }
    } else {
        TabsView { tabs: t.tabs.update(t.focus as int, pane_closed(f)), ..t }
    }
}

/// What the multiplexer does on command `cmd` with the prefix-key reader
/// `m`: focus moves and splits first end a maximization; maximizing,
/// adding and switching tabs, and saving go to the tabs.  Restoring reads a
/// file and is left to the caller.
pub open spec fn mux_command(t: TabsView, m: ControllerView, cmd: Command, new_id: u64) -> (TabsView, ControllerView) {
    match cmd {
        Command::FocusUp | Command::FocusDown | Command::FocusLeft | Command::FocusRight
        | Command::SplitVertical | Command::SplitHorizontal => {
            let t1 = if m.maximized { tabs_command(t, Command::ResetMaximize, new_id).0 } else { t };
            (tabs_command(t1, cmd, new_id).0, ControllerView { maximized: false, ..m })
        },
        Command::Nop | Command::RestoreLayout => (t, m),
        _ => (tabs_command(t, cmd, new_id).0, m),
    }
}

/// Splitting the focused window and closing the new one gives back the pane
/// as it was.
pub proof fn lemma_split_then_close(p: Pane, vertical: bool, new_id: u64)
    ensures
        ({
            let cmd = if vertical { Command::SplitVertical } else { Command::SplitHorizontal };
            pane_closed(pane_command(p, cmd, new_id).0) == p
        }),
    decreases p,
{
    let cmd = if vertical { Command::SplitVertical } else { Command::SplitHorizontal };
    match p {
        Pane::Single(w) => {},
        Pane::Binary(b) => {
            if b.focus_x {
                lemma_split_then_close(*b.x, vertical, new_id);
                let q = pane_command(*b.x, cmd, new_id).0;
                assert(q is Binary) by {
                    lemma_split_gives_binary(*b.x, vertical, new_id);
                }
            } else {
                lemma_split_then_close(*b.y, vertical, new_id);
                let q = pane_command(*b.y, cmd, new_id).0;
                assert(q is Binary) by {
                    lemma_split_gives_binary(*b.y, vertical, new_id);
                }
            }
        },
    }
}

/// A split always leaves a divided pane.
proof fn lemma_split_gives_binary(p: Pane, vertical: bool, new_id: u64)
    ensures
        pane_command(p, if vertical { Command::SplitVertical } else { Command::SplitHorizontal }, new_id).0 is Binary,
{
}

/// Moving to the next tab and back to the previous one returns to the tab
/// where it started, and changes nothing else.
pub proof fn lemma_next_then_prev_tab(t: TabsView, id: u64)
    requires
        tabs_wf(t),
        t.tabs.len() <= usize::MAX,
    ensures
        tabs_command(tabs_command(t, Command::FocusNextTab, id).0, Command::FocusPrevTab, id).0 == t,
{
    let n = t.tabs.len() as int;
    let f = t.focus as int;
    let g = (f + 1) % n;
    assert(0 <= g < n) by (nonlinear_arith)
        requires
            n >= 1,
            g == (f + 1) % n,
    ;
    assert((n + g - 1) % n == f) by (nonlinear_arith)
        requires
            n >= 1,
            0 <= f < n,
            g == (f + 1) % n,
    ;
    let t1 = tabs_command(t, Command::FocusNextTab, id).0;
    assert(t1.focus as int == g);
    assert(t1.tabs.len() as int == n);
    let t2 = tabs_command(t1, Command::FocusPrevTab, id).0;
    assert(t2.focus as int == f);
    assert(t2.tabs == t.tabs);
}

/// The tabs of the multiplexer.
pub struct TabbedLayout {
    focus: usize,
    tabs: Vec<Pane>,
}

impl View for TabbedLayout {
    type V = TabsView;

    closed spec fn view(&self) -> TabsView {
        TabsView { focus: self.focus, tabs: self.tabs@ }
    }
}

impl TabbedLayout {
    /// One tab, holding window `first`.
    pub fn new(first: u64) -> (t: Self)
        ensures
            t@ == (TabsView { focus: 0, tabs: seq![Pane::Single(first)] }),
    {
        let mut tabs: Vec<Pane> = Vec::new();
        tabs.push(Pane::Single(first));
        let t = TabbedLayout { focus: 0, tabs };
        assert(t@.tabs =~= seq![Pane::Single(first)]);
        t
    }

    /// The number of tabs.
    pub fn tab_count(&self) -> (n: usize)
        ensures
            n == self@.tabs.len(),
    {
        self.tabs.len()
    }

    /// The focused tab.
    pub fn focus(&self) -> (i: usize)
        ensures
            i == self@.focus,
    {
        self.focus
    }

    /// The window that has the focus.
    pub fn focused_window(&self) -> (w: u64)
        requires
            tabs_wf(self@),
        ensures
            w == focused_window(self@.tabs[self@.focus as int]),
    {
        self.tabs[self.focus].focused_window()
    }

    /// The window that has the focus in tab `i`.
    pub fn window_of_tab(&self, i: usize) -> (w: u64)
        requires
            i < self@.tabs.len(),
        ensures
            w == focused_window(self@.tabs[i as int]),
    {
        self.tabs[i].focused_window()
    }

    /// The windows drawn: those of the focused tab; see `drawn_windows`.
    pub fn draw_order(&self) -> (r: Vec<u64>)
        requires
            tabs_wf(self@),
        ensures
            r@ == drawn_windows(self@.tabs[self@.focus as int]),
    {
        let mut r: Vec<u64> = Vec::new();
        self.tabs[self.focus].draw_order(&mut r);
        assert(r@ =~= drawn_windows(self@.tabs[self@.focus as int]));
        r
    }

    /// Every window with whether it has the focus; see `tabs_focus_flags`.
    pub fn update_focus(&self, focus: bool) -> (r: Vec<(u64, bool)>)
        ensures
            r@ == tabs_focus_flags(self@, focus, self@.tabs.len() as int),
    {
        let mut r: Vec<(u64, bool)> = Vec::new();
        let mut i: usize = 0;
        while i < self.tabs.len()
            invariant
                i <= self@.tabs.len(),
                r@ == tabs_focus_flags(self@, focus, i as int),
            decreases self@.tabs.len() - i,
        {
            self.tabs[i].update_focus(focus && i == self.focus, &mut r);
            i += 1;
        }
        r
    }

    /// Carries out `cmd`; see `tabs_command`.
    pub fn process_command(&mut self, cmd: Command, new_id: u64) -> (taken: bool)
        requires
            tabs_wf(old(self)@),
        ensures
            tabs_wf(final(self)@),
            (final(self)@, taken) == tabs_command(old(self)@, cmd, new_id),
    {
        let n = self.tabs.len();
        match cmd {
            Command::AddNewTab => {
                self.tabs.push(Pane::Single(new_id));
                self.focus = n;
                true
            },
            Command::FocusNextTab => {
                self.focus = (self.focus + 1) % n;
                true
            },
            Command::FocusPrevTab => {
                let ghost f0 = old(self)@.focus as int;
                self.focus = if self.focus == 0 {
                    n - 1
                } else {
                    self.focus - 1
                };
                assert(self.focus == ((n + f0 - 1) % (n as int)) as usize) by {
                    if f0 == 0 {
                        assert((n + 0 - 1) % (n as int) == n - 1) by (nonlinear_arith)
                            requires
                                n >= 1,
                        ;
                    } else {
                        assert((n + f0 - 1) % (n as int) == f0 - 1) by (nonlinear_arith)
                            requires
                                n >= 1,
                                1 <= f0 < n,
                        ;
                    }
                }
                true
            },
            Command::SaveLayout | Command::RestoreLayout => true,
            _ => {
                let f = self.tabs.remove(self.focus);
                let (p, taken) = f.process_command(cmd, new_id);
                self.tabs.insert(self.focus, p);
                assert(self@.tabs =~= old(self)@.tabs.update(old(self)@.focus as int, p));
                taken
            },
        }
    }

    /// Closes the focused window; see `tabs_closed`.
    pub fn close(&mut self)
        requires
            tabs_wf(old(self)@),
        ensures
            final(self)@ == tabs_closed(old(self)@),
            final(self)@.tabs.len() == 0 || tabs_wf(final(self)@),
    {
        let f = self.tabs.remove(self.focus);
        if f.is_single() {
            if self.focus >= self.tabs.len() {
                self.focus = 0;
            }
        } else {
            let p = f.close();
            self.tabs.insert(self.focus, p);
            assert(self@.tabs =~= old(self)@.tabs.update(old(self)@.focus as int, p));
        }
    }

    /// Carries out the command `cmd` read by `controller`; see `mux_command`.
    pub fn apply(&mut self, controller: &mut Controller, cmd: Command, new_id: u64)
        requires
            tabs_wf(old(self)@),
        ensures
            tabs_wf(final(self)@),
            (final(self)@, final(controller)@) == mux_command(old(self)@, old(controller)@, cmd, new_id),
    {
        match cmd {
            Command::FocusUp | Command::FocusDown | Command::FocusLeft | Command::FocusRight
            | Command::SplitVertical | Command::SplitHorizontal => {
                if controller.maximized {
                    controller.maximized = false;
                    self.process_command(Command::ResetMaximize, new_id);
                }
                self.process_command(cmd, new_id);
            },
            Command::Nop | Command::RestoreLayout => {},
            _ => {
                self.process_command(cmd, new_id);
            },
        }
    }

    /// Closes the focused window when it ended; returns whether no tab is
    /// left.  Otherwise the maximization ends.
    pub fn close_focused(&mut self, controller: &mut Controller) -> (finished: bool)
        requires
            tabs_wf(old(self)@),
        ensures
            finished == (tabs_closed(old(self)@).tabs.len() == 0),
            finished ==> final(self)@ == tabs_closed(old(self)@) && final(controller)@ == old(controller)@,
            !finished ==> final(self)@ == tabs_command(tabs_closed(old(self)@), Command::ResetMaximize, 0).0
                && final(controller)@ == (ControllerView { maximized: false, ..old(controller)@ }),
            !finished ==> tabs_wf(final(self)@),
    {
        self.close();
        if self.tabs.len() == 0 {
            true
        } else {
            controller.maximized = false;
            self.process_command(Command::ResetMaximize, 0);
            false
        }
    }
}

/// The text after the last `/` of `name` (all of it when there is none).
pub open spec fn last_part(name: Seq<char>) -> Seq<char>
    decreases name.len(),
{
    if name.len() == 0 {
        name
    } else if name.last() == '/' {
        seq![]
    } else {
        last_part(name.drop_last()).push(name.last())
    }
}

/// The label of tab `i` whose focused window runs the program `name`: the
/// number, a colon, the last part of the name and a space.
pub open spec fn tab_label(i: nat, name: Seq<char>) -> Seq<char> {
    decimal(i).map_values(|b: u8| b as char) + seq![':'] + last_part(name) + seq![' ']
}

/// A cell of the status bar: `ch` in `fg` on bright green.
pub open spec fn bar_cell(ch: char, fg: Color) -> Cell {
    Cell { ch, attr: GraphicAttribute { fg, bg: Color::BrightGreen, ..default_attribute() }, ..space_cell() }
}

/// The labels of the first `k` tabs, the focused one in yellow and the
/// others in bright blue.
pub open spec fn tabs_text(names: Seq<Seq<char>>, focus: int, k: int) -> Seq<Cell>
    decreases k,
{
    if k <= 0 {
        seq![]
    } else {
        tabs_text(names, focus, k - 1) + tab_label((k - 1) as nat, names[k - 1]).map_values(
            |ch: char| bar_cell(ch, if k - 1 == focus { Color::Yellow } else { Color::BrightBlue }),
        )
    }
}

/// Cell `i` of the status bar; see `status_spec`.
pub open spec fn status_at(names: Seq<Seq<char>>, focus: int, cols: int, clock: Seq<char>, i: int) -> Cell {
    let text = tabs_text(names, focus, names.len() as int);
    let start = if cols >= clock.len() { cols - clock.len() } else { 0 };
    let base = if i < text.len() { text[i] } else { bar_cell(' ', Color::BrightBlue) };
    if start <= i < start + clock.len() {
        Cell { ch: clock[i - start], attr: GraphicAttribute { fg: Color::BrightBlue, ..base.attr }, ..base }
    } else {
        base
    }
}

/// The status bar, `cols` cells wide: the labels of the tabs (cut at the
/// width, and filled up with blanks), with the clock text over its right end.
pub open spec fn status_spec(names: Seq<Seq<char>>, focus: int, cols: nat, clock: Seq<char>) -> Seq<Cell> {
    Seq::new(cols, |i: int| status_at(names, focus, cols as int, clock, i))
}

/// The text after the last `/` of `name`; see `last_part`.
pub fn last_path_part(name: &Vec<char>) -> (r: Vec<char>)
    ensures
        r@ == last_part(name@),
{
    let n = name.len();
    let mut i = n;
    assert(name@.subrange(0, n as int) =~= name@);
    assert(name@.subrange(n as int, n as int) =~= Seq::<char>::empty());
    assert(last_part(name@) =~= last_part(name@.subrange(0, n as int)) + name@.subrange(n as int, n as int));
    while i > 0 && name[i - 1] != '/'
        invariant
            i <= n,
            n == name@.len(),
            last_part(name@) == last_part(name@.subrange(0, i as int)) + name@.subrange(i as int, n as int),
        decreases i,
    {
        proof {
            let pre = name@.subrange(0, i as int);
            assert(pre.drop_last() =~= name@.subrange(0, i - 1));
            assert(pre.last() == name@[i - 1]);
            assert(name@.subrange(i - 1, n as int) =~= seq![name@[i - 1]] + name@.subrange(i as int, n as int));
            assert(last_part(pre) == last_part(name@.subrange(0, i - 1)).push(name@[i - 1]));
            assert(last_part(name@.subrange(0, i - 1)).push(name@[i - 1]) + name@.subrange(i as int, n as int)
                =~= last_part(name@.subrange(0, i - 1)) + name@.subrange(i - 1, n as int));
        }
        i -= 1;
    }
    proof {
        let pre = name@.subrange(0, i as int);
        if i == 0 {
            assert(pre =~= Seq::<char>::empty());
        } else {
            assert(pre.last() == name@[i - 1]);
        }
        assert(last_part(pre) =~= Seq::<char>::empty());
        assert(last_part(name@) =~= name@.subrange(i as int, n as int));
    }
    let mut r: Vec<char> = Vec::new();
    let mut k = i;
    while k < n
        invariant
            i <= k <= n,
            n == name@.len(),
            r@ == name@.subrange(i as int, k as int),
        decreases n - k,
    {
        r.push(name[k]);
        k += 1;
        assert(r@ =~= name@.subrange(i as int, k as int));
    }
    r
}

/// A cell of the status bar; see `bar_cell`.
fn status_cell(ch: char, fg: Color) -> (c: Cell)
    ensures
        c == bar_cell(ch, fg),
{
    let mut c = Cell::new_ascii(ch);
    c.attr.fg = fg;
    c.attr.bg = Color::BrightGreen;
    c
}

/// The status bar of the multiplexer; see `status_spec`.  `names` are the
/// programs that the focused windows of the tabs run, `focus` the focused
/// tab, and `clock` the date and time to show.
pub fn status_bar_cells(names: &Vec<Vec<char>>, focus: usize, cols: usize, clock: &Vec<char>) -> (r: Vec<Cell>)
    ensures
        r@ == status_spec(names@.map_values(|v: Vec<char>| v@), focus as int, cols as nat, clock@),
{
    let ghost ns = names@.map_values(|v: Vec<char>| v@);
    let mut text: Vec<Cell> = Vec::new();
    let mut t: usize = 0;
    while t < names.len()
        invariant
            t <= names@.len(),
            ns == names@.map_values(|v: Vec<char>| v@),
            text@ == tabs_text(ns, focus as int, t as int),
        decreases names@.len() - t,
    {
        let fg = if t == focus { Color::Yellow } else { Color::BrightBlue };
        let mut digits: Vec<u8> = Vec::new();
        push_decimal(&mut digits, t);
        let mut label: Vec<char> = Vec::new();
        let mut d: usize = 0;
        while d < digits.len()
            invariant
                d <= digits@.len(),
                label@ == digits@.subrange(0, d as int).map_values(|b: u8| b as char),
            decreases digits@.len() - d,
        {
            label.push(digits[d] as char);
            d += 1;
            assert(label@ =~= digits@.subrange(0, d as int).map_values(|b: u8| b as char));
        }
        assert(digits@.subrange(0, digits@.len() as int) =~= digits@);
        label.push(':');
        let last = last_path_part(&names[t]);
        let mut k: usize = 0;
        let ghost before = label@;
        while k < last.len()
            invariant
                k <= last@.len(),
                label@ == before + last@.subrange(0, k as int),
            decreases last@.len() - k,
        {
            label.push(last[k]);
            k += 1;
            assert(label@ =~= before + last@.subrange(0, k as int));
        }
        label.push(' ');
        proof {
            assert(last@.subrange(0, last@.len() as int) =~= last@);
            assert(ns[t as int] == names@[t as int]@);
            assert(label@ =~= tab_label(t as nat, ns[t as int]));
        }
        let ghost start = text@;
        let mut j: usize = 0;
        while j < label.len()
            invariant
                j <= label@.len(),
                text@ == start + label@.subrange(0, j as int).map_values(|ch: char| bar_cell(ch, fg)),
            decreases label@.len() - j,
        {
            text.push(status_cell(label[j], fg));
            j += 1;
            assert(text@ =~= start + label@.subrange(0, j as int).map_values(|ch: char| bar_cell(ch, fg)));
        }
        proof {
            assert(label@.subrange(0, label@.len() as int) =~= label@);
            let lbl = tab_label(t as nat, ns[t as int]);
            assert(lbl.map_values(|ch: char| bar_cell(ch, fg)) =~= lbl.map_values(
                |ch: char| bar_cell(ch, if t == focus { Color::Yellow } else { Color::BrightBlue }),
            ));
        }
        t += 1;
    }
    let ghost full = text@;
    let mut r: Vec<Cell> = Vec::new();
    let start: usize = if cols >= clock.len() { cols - clock.len() } else { 0 };
    let mut i: usize = 0;
    assert(status_spec(ns, focus as int, cols as nat, clock@).len() == cols);
    while i < cols
        invariant
            i <= cols,
            full == tabs_text(ns, focus as int, ns.len() as int),
            ns.len() == names@.len(),
            text@ == full,
            start == (if cols >= clock@.len() { cols - clock@.len() } else { 0 }),
            status_spec(ns, focus as int, cols as nat, clock@).len() == cols,
            r@ == status_spec(ns, focus as int, cols as nat, clock@).subrange(0, i as int),
        decreases cols - i,
    {
        let base = if i < text.len() { text[i] } else { status_cell(' ', Color::BrightBlue) };
        let cell = if start <= i && i - start < clock.len() {
            let mut c = base;
            c.ch = clock[i - start];
            c.attr.fg = Color::BrightBlue;
            c
        } else {
            base
        };
        assert(cell == status_spec(ns, focus as int, cols as nat, clock@)[i as int]);
        r.push(cell);
        i += 1;
        assert(r@ =~= status_spec(ns, focus as int, cols as nat, clock@).subrange(0, i as int));
    }
    assert(status_spec(ns, focus as int, cols as nat, clock@).subrange(0, cols as int) =~= status_spec(
        ns,
        focus as int,
        cols as nat,
        clock@,
    ));
    r
}

} // verus!
