//! What the terminal window decides from the user's input: the text of a
//! selection, the bytes of a paste and of mouse reports, and what a key does.

use vstd::prelude::*;

use crate::terminal::engine::{decimal, push_decimal};
use crate::terminal::line::{head, Line, LineView};
use crate::terminal::screen::{image_views, range_lines, views, State};
use crate::terminal::{CursorStyle, ImageView, PositionedImage};
use crate::terminal::{Cell, CellSize, TerminalSize};
use crate::view::Viewport;

verus! {

/// Cell `c` at `offset` (its column counted over all rows) is selected by
/// `sel`: its middle column lies within the selection.
pub open spec fn cell_selected(sel: Option<(usize, usize)>, offset: int, c: Cell) -> bool {
    match sel {
        Some((left, right)) => left <= offset + c.width / 2 <= right,
        None => false,
    }
}

/// The selected characters of row `i` from cell `j` on, rows being `cols`
/// cells wide, and whether the row ended at an end-of-line cell.
pub open spec fn row_selection(
    cells: Seq<Cell>,
    i: int,
    cols: int,
    sel: Option<(usize, usize)>,
    j: int,
) -> (Seq<char>, bool)
    decreases cells.len() - j,
{
    if j < 0 || j >= cells.len() {
        (seq![], false)
    } else {
        let c = cells[j];
        if c.width == 0 {
            row_selection(cells, i, cols, sel, j + 1)
        } else {
            let here: Seq<char> = if cell_selected(sel, i * cols + j, c) { seq![c.ch] } else { seq![] };
            if c.ch == '\n' {
                (here, true)
            } else {
                let (rest, ended) = row_selection(cells, i, cols, sel, j + 1);
                (here + rest, ended)
            }
        }
    }
}

/// The selected text of the rows `lines` (each with its cells and wrap
/// mark) from row `i` on: the selected characters of each row and, after a
/// row that neither ends at an end-of-line cell nor wraps, a line break if
/// the selection reaches past it.
pub open spec fn selection_text(
    lines: Seq<(Seq<Cell>, bool)>,
    sel: Option<(usize, usize)>,
    i: int,
) -> Seq<char>
    decreases lines.len() - i,
{
    if i < 0 || i >= lines.len() {
        seq![]
    } else {
        let cells = lines[i].0;
        let cols = cells.len() as int;
        let (text, ended) = row_selection(cells, i, cols, sel, 0);
        let brk: Seq<char> = if !ended && !lines[i].1 && (match sel {
            Some((left, right)) => left < (i + 1) * cols <= right,
            None => false,
        }) {
            seq!['\n']
        } else {
            seq![]
        };
        text + brk + selection_text(lines, sel, i + 1)
    }
}

/// The rows of `lines` as cells and wrap marks.
pub open spec fn rows_of(lines: Seq<Line>) -> Seq<(Seq<Cell>, bool)> {
    lines.map_values(|l: Line| (l.cells(), l.wraps()))
}

/// The text that the selection `sel` (first and last selected columns,
/// counted over all rows) covers on `lines`.
pub fn selected_text(lines: &Vec<Line>, sel: Option<(usize, usize)>) -> (text: Vec<char>)
    ensures
        text@ == selection_text(rows_of(lines@), sel, 0),
{
    let mut text: Vec<char> = Vec::new();
    let n = lines.len();
    let mut i: usize = 0;
    while i < n
        invariant
            i <= n,
            n == lines@.len(),
            selection_text(rows_of(lines@), sel, 0) == text@ + selection_text(rows_of(lines@), sel, i as int),
        decreases n - i,
    {
        let row = &lines[i];
        let cols = row.columns();
        let cells = row.iter();
        let ghost start = text@;
        let mut j: usize = 0;
        let mut ended = false;
        while j < cells.len()
            invariant_except_break
                !ended,
                row_selection(cells@, i as int, cols as int, sel, 0) == ({
                    let (rest, e) = row_selection(cells@, i as int, cols as int, sel, j as int);
                    (text@.subrange(start.len() as int, text@.len() as int) + rest, e)
                }),
            invariant
                j <= cells@.len(),
                i < n,
                n == lines@.len(),
                cells@ == lines@[i as int].cells(),
                cols == cells@.len(),
                text@.subrange(0, start.len() as int) == start,
                start.len() <= text@.len(),
            ensures
                row_selection(cells@, i as int, cols as int, sel, 0) == (
                    text@.subrange(start.len() as int, text@.len() as int),
                    ended,
                ),
            decreases cells@.len() - j,
        {
            let c = cells[j];
            if c.width != 0 {
                let selected = match sel {
                    Some((left, right)) => {
                        assert(i as int * cols as int <= 0xFFFF_FFFF_FFFF_FFFFint * 0xFFFF_FFFF_FFFF_FFFFint)
                            by (nonlinear_arith)
                            requires
                                0 <= i <= 0xFFFF_FFFF_FFFF_FFFFint,
                                0 <= cols <= 0xFFFF_FFFF_FFFF_FFFFint,
                        ;
                        let offset: u128 = i as u128 * cols as u128 + j as u128;
                        let center = offset + (c.width / 2) as u128;
                        (left as u128) <= center && center <= (right as u128)
                    },
                    None => false,
                };
                let ghost before = text@;
                if selected {
                    text.push(c.ch);
                }
                proof {
                    let here: Seq<char> = if selected { seq![c.ch] } else { seq![] };
                    assert(text@ =~= before + here);
                    assert(text@.subrange(0, start.len() as int) =~= start);
                    let (rest, e) = row_selection(cells@, i as int, cols as int, sel, j + 1);
                    assert(text@.subrange(start.len() as int, text@.len() as int) + rest
                        =~= before.subrange(start.len() as int, before.len() as int) + (here + rest));
                    if c.ch == '\n' {
                        assert(text@.subrange(start.len() as int, text@.len() as int)
                            =~= before.subrange(start.len() as int, before.len() as int) + here);
                    }
                }
                if c.ch == '\n' {
                    ended = true;
                    break;
                }
            }
            j += 1;
        }
        let ghost row_text = text@.subrange(start.len() as int, text@.len() as int);
        proof {
            assert(text@ =~= start + row_text);
        }
        if !ended && !row.linewrap() {
            let is_selected = match sel {
                Some((left, right)) => {
                    assert((i as int + 1) * cols as int <= 0x1_0000_0000_0000_0000int * 0xFFFF_FFFF_FFFF_FFFFint)
                        by (nonlinear_arith)
                        requires
                            0 <= i + 1 <= 0x1_0000_0000_0000_0000int,
                            0 <= cols <= 0xFFFF_FFFF_FFFF_FFFFint,
                    ;
                    let offset: u128 = (i as u128 + 1) * cols as u128;
                    (left as u128) < offset && offset <= (right as u128)
                },
                None => false,
            };
            if is_selected {
                text.push('\n');
            }
        }
        proof {
            let rows = rows_of(lines@);
            assert(rows[i as int] == (lines@[i as int].cells(), lines@[i as int].wraps()));
            let (t, e) = row_selection(cells@, i as int, cols as int, sel, 0);
            assert(t == row_text && e == ended);
            let brk: Seq<char> = if !ended && !lines@[i as int].wraps() && (match sel {
                Some((left, right)) => left < (i + 1) * cols <= right,
                None => false,
            }) {
                seq!['\n']
            } else {
                seq![]
            };
            assert(text@ =~= start + t + brk);
            assert(start + selection_text(rows, sel, i as int) =~= (start + t + brk) + selection_text(rows, sel, i + 1));
        }
        i += 1;
    }
    text
}

/// The bytes of a paste: the text, wrapped in `ESC [ 200 ~` and `ESC [ 201 ~`
/// in bracketed paste mode.
pub open spec fn paste_spec(text: Seq<u8>, bracketed: bool) -> Seq<u8> {
    if bracketed {
        seq![0x1Bu8, 0x5Bu8, 0x32u8, 0x30u8, 0x30u8, 0x7Eu8] + text + seq![
            0x1Bu8,
            0x5Bu8,
            0x32u8,
            0x30u8,
            0x31u8,
            0x7Eu8,
        ]
    } else {
        text
    }
}

/// The bytes to send to the program for pasting `text`.
pub fn paste_bytes(text: &[u8], bracketed: bool) -> (out: Vec<u8>)
    ensures
        out@ == paste_spec(text@, bracketed),
{
    let mut out: Vec<u8> = Vec::new();
    if bracketed {
        out.push(0x1B);
        out.push(0x5B);
        out.push(0x32);
        out.push(0x30);
        out.push(0x30);
        out.push(0x7E);
    }
    let ghost head = out@;
    let mut i: usize = 0;
    while i < text.len()
        invariant
            i <= text@.len(),
            out@ == head + text@.subrange(0, i as int),
        decreases text@.len() - i,
    {
        out.push(text[i]);
        i += 1;
        assert(out@ =~= head + text@.subrange(0, i as int));
    }
    assert(text@.subrange(0, text@.len() as int) =~= text@);
    if bracketed {
        out.push(0x1B);
        out.push(0x5B);
        out.push(0x32);
        out.push(0x30);
        out.push(0x31);
        out.push(0x7E);
    }
    assert(out@ =~= paste_spec(text@, bracketed));
    out
}

/// A coordinate of a normal mouse report: 32 added, 0 when out of range.
pub open spec fn report_coord(v: u32) -> u8 {
    if 0 < v && v < 224 {
        (v + 32) as u8
    } else {
        0
    }
}

/// A normal mouse report (`ESC [ M`, button, column, row, each offset by 32).
pub fn normal_mouse_report(button: u8, col: u32, row: u32) -> (msg: [u8; 6])
    requires
        button <= 223,
    ensures
        msg@ == seq![0x1Bu8, 0x5Bu8, 0x4Du8, (32 + button) as u8, report_coord(col), report_coord(row)],
{
    let c = if 0 < col && col < 224 {
        (col + 32) as u8
    } else {
        0
    };
    let r = if 0 < row && row < 224 {
        (row + 32) as u8
    } else {
        0
    };
    let msg = [0x1Bu8, 0x5Bu8, 0x4Du8, 32 + button, c, r];
    assert(msg@ =~= seq![0x1Bu8, 0x5Bu8, 0x4Du8, (32 + button) as u8, report_coord(col), report_coord(row)]);
    msg
}

/// An SGR-extended mouse report: `ESC [ <` button `;` column `;` row, then
/// `M` for a press or `m` for a release, in decimal.
pub open spec fn sgr_report_spec(button: u8, col: u32, row: u32, pressed: bool) -> Seq<u8> {
    seq![0x1Bu8, 0x5Bu8, 0x3Cu8] + decimal(button as nat) + seq![0x3Bu8] + decimal(col as nat) + seq![0x3Bu8]
        + decimal(row as nat) + seq![if pressed { 0x4Du8 } else { 0x6Du8 }]
}

/// The bytes of an SGR-extended mouse report.
pub fn sgr_ext_mouse_report(button: u8, col: u32, row: u32, pressed: bool) -> (msg: Vec<u8>)
    ensures
        msg@ == sgr_report_spec(button, col, row, pressed),
{
    let mut msg: Vec<u8> = Vec::new();
    msg.push(0x1B);
    msg.push(0x5B);
    msg.push(0x3C);
    push_decimal(&mut msg, button as usize);
    msg.push(0x3B);
    push_decimal(&mut msg, col as usize);
    msg.push(0x3B);
    push_decimal(&mut msg, row as usize);
    msg.push(if pressed {
        0x4D
    } else {
        0x6D
    });
    assert(msg@ =~= sgr_report_spec(button, col, row, pressed));
    msg
}

/// The modifier keys held.
#[derive(Debug, Clone, Copy, PartialEq, Eq, Default, Structural)]
pub struct Modifiers {
    pub shift: bool,
    pub ctrl: bool,
    pub alt: bool,
    pub logo: bool,
}

/// The keys the window reacts to.
#[derive(Debug, Clone, Copy, PartialEq, Eq, Structural)]
pub enum Key {
    Escape,
    Minus,
    Equals,
    Back,
    Delete,
    Up,
    Down,
    Right,
    Left,
    PageUp,
    PageDown,
    C,
    V,
    L,
    LControl,
    RControl,
    LShift,
    RShift,
    /// Any other key.
    Other,
}

/// What pressing a key does.
#[derive(Debug, Clone, PartialEq, Eq)]
pub enum KeyAction {
    /// Send these bytes to the program.
    Write(Vec<u8>),
    /// Change the font size by this many steps.
    FontSize(i32),
    /// Copy the selection to the clipboard.
    Copy,
    /// Paste the clipboard.
    Paste,
    /// Forget the scroll-back history.
    ClearHistory,
    /// Nothing.
    Nothing,
}

/// What pressing a key does, as a value.
pub enum KeyEffect {
    Write(Seq<u8>),
    FontSize(i32),
    Copy,
    Paste,
    ClearHistory,
    Nothing,
}

/// `a` is the action `e` describes.
pub open spec fn describes(e: KeyEffect, a: KeyAction) -> bool {
    match e {
        KeyEffect::Write(bytes) => a matches KeyAction::Write(v) && v@ == bytes,
        KeyEffect::FontSize(n) => a == KeyAction::FontSize(n),
        KeyEffect::Copy => a == KeyAction::Copy,
        KeyEffect::Paste => a == KeyAction::Paste,
        KeyEffect::ClearHistory => a == KeyAction::ClearHistory,
        KeyEffect::Nothing => a == KeyAction::Nothing,
    }
}

/// What pressing `k` with the modifiers `m` does, and whether it clears the
/// selection (and scrolls the history back to the bottom): keys send their
/// sequences without modifiers (an arrow key ESC `[` `[` and one of `A` to
/// `D`); Ctrl with `-` and `=` changes the font size,
/// with C, V and L sends the control characters; Ctrl and Shift with C
/// copies (keeping the selection), with V pastes, with L clears the
/// history.  A modifier key alone keeps the selection.
pub open spec fn key_effect(m: Modifiers, k: Key) -> (KeyEffect, bool) {
    let none = !m.shift && !m.ctrl && !m.alt && !m.logo;
    let ctrl = !m.shift && m.ctrl && !m.alt && !m.logo;
    let ctrl_shift = m.shift && m.ctrl && !m.alt && !m.logo;
    if none && k == Key::Escape {
        (KeyEffect::Write(seq![0x1Bu8]), true)
    } else if ctrl && k == Key::Minus {
        (KeyEffect::FontSize(-1i32), true)
    } else if ctrl && k == Key::Equals {
        (KeyEffect::FontSize(1i32), true)
    } else if none && k == Key::Back {
        (KeyEffect::Write(seq![0x7Fu8]), true)
    } else if none && k == Key::Delete {
        (KeyEffect::Write(seq![0x1Bu8, 0x5Bu8, 0x33u8, 0x7Eu8]), true)
    } else if none && k == Key::Up {
        (KeyEffect::Write(seq![0x1Bu8, 0x5Bu8, 0x5Bu8, 0x41u8]), true)
    } else if none && k == Key::Down {
        (KeyEffect::Write(seq![0x1Bu8, 0x5Bu8, 0x5Bu8, 0x42u8]), true)
    } else if none && k == Key::Right {
        (KeyEffect::Write(seq![0x1Bu8, 0x5Bu8, 0x5Bu8, 0x43u8]), true)
    } else if none && k == Key::Left {
        (KeyEffect::Write(seq![0x1Bu8, 0x5Bu8, 0x5Bu8, 0x44u8]), true)
    } else if none && k == Key::PageUp {
        (KeyEffect::Write(seq![0x1Bu8, 0x5Bu8, 0x35u8, 0x7Eu8]), true)
    } else if none && k == Key::PageDown {
        (KeyEffect::Write(seq![0x1Bu8, 0x5Bu8, 0x36u8, 0x7Eu8]), true)
    } else if none && k == Key::Minus {
        (KeyEffect::Write(seq![0x2Du8]), true)
    } else if none && k == Key::Equals {
        (KeyEffect::Write(seq![0x3Du8]), true)
    } else if ctrl && k == Key::C {
        (KeyEffect::Write(seq![0x03u8]), true)
    } else if ctrl_shift && k == Key::C {
        (KeyEffect::Copy, false)
    } else if ctrl && k == Key::V {
        (KeyEffect::Write(seq![0x16u8]), true)
    } else if ctrl_shift && k == Key::V {
        (KeyEffect::Paste, true)
    } else if ctrl && k == Key::L {
        (KeyEffect::Write(seq![0x0Cu8]), true)
    } else if ctrl_shift && k == Key::L {
        (KeyEffect::ClearHistory, true)
    } else {
        (
            KeyEffect::Nothing,
            !(k == Key::LControl || k == Key::RControl || k == Key::LShift || k == Key::RShift),
        )
    }
}

/// The VT220 code that an editing key sends as `ESC [ code ~`: Delete 3,
/// Page Up 5, Page Down 6.
pub open spec fn vt220_code(k: Key) -> Option<u8> {
    match k {
        Key::Delete => Some(3u8),
        Key::PageUp => Some(5u8),
        Key::PageDown => Some(6u8),
        _ => None,
    }
}

/// Without modifiers, an editing key sends `ESC [`, the decimal digit of its
/// VT220 code, and `~`, and clears the selection; distinct keys send
/// distinct sequences.
pub proof fn lemma_editing_keys_send_vt220_codes(m: Modifiers, k: Key)
    requires
        !m.shift && !m.ctrl && !m.alt && !m.logo,
        vt220_code(k) is Some,
    ensures
        key_effect(m, k) == (KeyEffect::Write(seq![0x1Bu8, 0x5Bu8, (0x30u8 + vt220_code(k)->0) as u8, 0x7Eu8]), true),
{
}

/// The letter that names an arrow key's direction: Up `A`, Down `B`,
/// Right `C`, Left `D`.
pub open spec fn arrow_letter(k: Key) -> Option<u8> {
    match k {
        Key::Up => Some(0x41u8),
        Key::Down => Some(0x42u8),
        Key::Right => Some(0x43u8),
        Key::Left => Some(0x44u8),
        _ => None,
    }
}

/// Without modifiers, an arrow key sends `ESC [ [` and the letter of its
/// direction, Backspace sends DEL and Escape sends ESC; each clears the
/// selection.
pub proof fn lemma_plain_keys_send_their_codes(m: Modifiers, k: Key)
    requires
        !m.shift && !m.ctrl && !m.alt && !m.logo,
    ensures
        arrow_letter(k) is Some ==> key_effect(m, k) == (
            KeyEffect::Write(seq![0x1Bu8, 0x5Bu8, 0x5Bu8, arrow_letter(k)->0]),
            true,
        ),
        k == Key::Back ==> key_effect(m, k) == (KeyEffect::Write(seq![0x7Fu8]), true),
        k == Key::Escape ==> key_effect(m, k) == (KeyEffect::Write(seq![0x1Bu8]), true),
{
}

/// What pressing `k` with the modifiers `m` does; see `key_effect`.
pub fn key_action(m: Modifiers, k: Key) -> (r: (KeyAction, bool))
    ensures
        describes(key_effect(m, k).0, r.0),
        r.1 == key_effect(m, k).1,
{
    let none = !m.shift && !m.ctrl && !m.alt && !m.logo;
    let ctrl = !m.shift && m.ctrl && !m.alt && !m.logo;
    let ctrl_shift = m.shift && m.ctrl && !m.alt && !m.logo;
    if none && k == Key::Escape {
        let v = vec![0x1Bu8];
        assert(v@ =~= seq![0x1Bu8]);
        (KeyAction::Write(v), true)
    } else if ctrl && k == Key::Minus {
        (KeyAction::FontSize(-1), true)
    } else if ctrl && k == Key::Equals {
        (KeyAction::FontSize(1), true)
    } else if none && k == Key::Back {
        let v = vec![0x7Fu8];
        assert(v@ =~= seq![0x7Fu8]);
        (KeyAction::Write(v), true)
    } else if none && k == Key::Delete {
        let v = vec![0x1Bu8, 0x5B, 0x33, 0x7E];
        assert(v@ =~= seq![0x1Bu8, 0x5Bu8, 0x33u8, 0x7Eu8]);
        (KeyAction::Write(v), true)
    } else if none && k == Key::Up {
        let v = vec![0x1Bu8, 0x5B, 0x5B, 0x41];
        assert(v@ =~= seq![0x1Bu8, 0x5Bu8, 0x5Bu8, 0x41u8]);
        (KeyAction::Write(v), true)
    } else if none && k == Key::Down {
        let v = vec![0x1Bu8, 0x5B, 0x5B, 0x42];
        assert(v@ =~= seq![0x1Bu8, 0x5Bu8, 0x5Bu8, 0x42u8]);
        (KeyAction::Write(v), true)
    } else if none && k == Key::Right {
        let v = vec![0x1Bu8, 0x5B, 0x5B, 0x43];
        assert(v@ =~= seq![0x1Bu8, 0x5Bu8, 0x5Bu8, 0x43u8]);
        (KeyAction::Write(v), true)
    } else if none && k == Key::Left {
        let v = vec![0x1Bu8, 0x5B, 0x5B, 0x44];
        assert(v@ =~= seq![0x1Bu8, 0x5Bu8, 0x5Bu8, 0x44u8]);
        (KeyAction::Write(v), true)
    } else if none && k == Key::PageUp {
        let v = vec![0x1Bu8, 0x5B, 0x35, 0x7E];
        assert(v@ =~= seq![0x1Bu8, 0x5Bu8, 0x35u8, 0x7Eu8]);
        (KeyAction::Write(v), true)
    } else if none && k == Key::PageDown {
        let v = vec![0x1Bu8, 0x5B, 0x36, 0x7E];
        assert(v@ =~= seq![0x1Bu8, 0x5Bu8, 0x36u8, 0x7Eu8]);
        (KeyAction::Write(v), true)
    } else if none && k == Key::Minus {
        let v = vec![0x2Du8];
        assert(v@ =~= seq![0x2Du8]);
        (KeyAction::Write(v), true)
    } else if none && k == Key::Equals {
        let v = vec![0x3Du8];
        assert(v@ =~= seq![0x3Du8]);
        (KeyAction::Write(v), true)
    } else if ctrl && k == Key::C {
        let v = vec![0x03u8];
        assert(v@ =~= seq![0x03u8]);
        (KeyAction::Write(v), true)
    } else if ctrl_shift && k == Key::C {
        (KeyAction::Copy, false)
    } else if ctrl && k == Key::V {
        let v = vec![0x16u8];
        assert(v@ =~= seq![0x16u8]);
        (KeyAction::Write(v), true)
    } else if ctrl_shift && k == Key::V {
        (KeyAction::Paste, true)
    } else if ctrl && k == Key::L {
        let v = vec![0x0Cu8];
        assert(v@ =~= seq![0x0Cu8]);
        (KeyAction::Write(v), true)
    } else if ctrl_shift && k == Key::L {
        (KeyAction::ClearHistory, true)
    } else {
        (
            KeyAction::Nothing,
            !(k == Key::LControl || k == Key::RControl || k == Key::LShift || k == Key::RShift),
        )
    }
}

/// An ASCII punctuation character or ASCII white space: a word ends there.
pub open spec fn delimiter(ch: char) -> bool {
    let c = ch as u32;
    ||| (0x21 <= c <= 0x2F) || (0x3A <= c <= 0x40) || (0x5B <= c <= 0x60) || (0x7B <= c <= 0x7E)
    ||| c == 0x20 || c == 0x09 || c == 0x0A || c == 0x0C || c == 0x0D
}

/// The character shown at column `col` of a line with cells `cells`.
pub open spec fn shown(cells: Seq<Cell>, col: int) -> char {
    cells[head(cells, col)].ch
}

/// Columns `a` and `b` hold different words: either holds a delimiter.
pub open spec fn different_words(cells: Seq<Cell>, a: int, b: int) -> bool {
    delimiter(shown(cells, a)) || delimiter(shown(cells, b))
}

/// The first column of the word at `col`.
pub open spec fn word_start(cells: Seq<Cell>, col: int) -> int
    decreases col,
{
    if 0 < col < cells.len() && !different_words(cells, col - 1, col) {
        word_start(cells, col - 1)
    } else {
        col
    }
}

/// The last column of the word at `col`.
pub open spec fn word_end(cells: Seq<Cell>, col: int) -> int
    decreases cells.len() - col,
{
    if 0 <= col < cells.len() - 1 && !different_words(cells, col, col + 1) {
        word_end(cells, col + 1)
    } else {
        col
    }
}

/// The selection (first and last columns, counted over the rows of `cols`
/// columns) between the cells `s` and `e` (row, column; `e` exclusive in its
/// row) of `lines`: `clicks` of 2 widen it to whole words, 3 or more (or 0)
/// to whole rows; `None` when it is empty.
pub open spec fn selection_spec(
    lines: Seq<Line>,
    cols: int,
    s: (usize, usize),
    e: (usize, usize),
    clicks: u32,
) -> Option<(int, int)> {
    let (s2, e2) = if (e.0 < s.0) || (e.0 == s.0 && e.1 < s.1) { (e, s) } else { (s, e) };
    let s_row = s2.0 as int;
    let e_row = e2.0 as int;
    let e_col0 = if e2.1 > 0 { e2.1 - 1 } else { 0 };
    let (s_col, e_col) = if clicks == 1 {
        (s2.1 as int, e_col0)
    } else if clicks == 2 {
        (word_start(lines[s_row].cells(), s2.1 as int), word_end(lines[e_row].cells(), e_col0))
    } else {
        (0, cols - 1)
    };
    let l = s_row * cols + s_col;
    let r = e_row * cols + e_col;
    if l <= r {
        Some((l, r))
    } else {
        None
    }
}

/// Whether `ch` ends a word.
fn is_delimiter(ch: char) -> (b: bool)
    ensures
        b == delimiter(ch),
{
    let c = ch as u32;
    (0x21 <= c && c <= 0x2F) || (0x3A <= c && c <= 0x40) || (0x5B <= c && c <= 0x60) || (0x7B <= c
        && c <= 0x7E) || c == 0x20 || c == 0x09 || c == 0x0A || c == 0x0C || c == 0x0D
}

/// The selection between the cells `s` and `e` of `lines`; see `selection_spec`.
pub fn selection_range(
    lines: &Vec<Line>,
    cols: usize,
    s: (usize, usize),
    e: (usize, usize),
    clicks: u32,
) -> (r: Option<(usize, usize)>)
    requires
        cols >= 1,
        s.0 < lines@.len(),
        e.0 < lines@.len(),
        s.1 <= cols,
        e.1 <= cols,
        lines@.len() * cols <= usize::MAX,
        forall|i: int| 0 <= i < lines@.len() ==> (#[trigger] lines@[i]).wf() && lines@[i].cells().len() == cols,
    ensures
        match selection_spec(lines@, cols as int, s, e, clicks) {
            Some((l, r2)) => r == Some((l as usize, r2 as usize)),
            None => r is None,
        },
{
    let (mut s_row, mut s_col) = s;
    let (mut e_row, mut e_col) = e;
    if e_row < s_row || (e_row == s_row && e_col < s_col) {
        let t = s_row;
        s_row = e_row;
        e_row = t;
        let t = s_col;
        s_col = e_col;
        e_col = t;
    }
    e_col = if e_col > 0 {
        e_col - 1
    } else {
        0
    };
    if clicks == 1 {
    } else if clicks == 2 {
        let sl = &lines[s_row];
        let ghost sc = sl.cells();
        let ghost s0 = s_col as int;
        while 0 < s_col && s_col < cols
            invariant
                s_col <= cols,
                sl.wf(),
                sl.cells() == sc,
                sc.len() == cols,
                word_start(sc, s_col as int) == word_start(sc, s0),
            ensures
                s_col <= cols,
                word_start(sc, s0) == s_col as int,
            decreases s_col,
        {
            let prev = sl.get(s_col - 1).unwrap().ch;
            let curr = sl.get(s_col).unwrap().ch;
            if is_delimiter(prev) || is_delimiter(curr) {
                break;
            }
            s_col -= 1;
        }
        let el = &lines[e_row];
        let ghost ec = el.cells();
        let ghost e0 = e_col as int;
        while e_col < cols - 1
            invariant
                e_col <= cols - 1,
                el.wf(),
                el.cells() == ec,
                ec.len() == cols,
                word_end(ec, e_col as int) == word_end(ec, e0),
            ensures
                e_col <= cols - 1,
                word_end(ec, e0) == e_col as int,
            decreases cols - e_col,
        {
            let prev = el.get(e_col).unwrap().ch;
            let curr = el.get(e_col + 1).unwrap().ch;
            if is_delimiter(prev) || is_delimiter(curr) {
                break;
            }
            e_col += 1;
        }
    } else {
        s_col = 0;
        e_col = cols - 1;
    }
    assert(s_row * cols + s_col <= lines@.len() * cols && e_row * cols + e_col <= lines@.len() * cols) by (nonlinear_arith)
        requires
            s_row < lines@.len(),
            e_row < lines@.len(),
            s_col <= cols,
            e_col <= cols,
    ;
    let l = s_row * cols + s_col;
    let r = e_row * cols + e_col;
    if l <= r {
        Some((l, r))
    } else {
        None
    }
}

/// A mouse button.
#[derive(Debug, Clone, Copy, PartialEq, Eq, Structural)]
pub enum MouseButton {
    Left,
    Middle,
    Right,
    Other(u16),
}

/// The button code of a mouse report: 3 for a release in the normal
/// encoding, else 0, 1 and 2 for the left, middle and right buttons (0 for
/// any other), plus 4 for Shift, 8 for Alt and 16 for Ctrl.
pub open spec fn button_code_spec(released: bool, sgr: bool, button: MouseButton, m: Modifiers) -> int {
    let b: int = if released && !sgr {
        3
    } else {
        match button {
            MouseButton::Middle => 1,
            MouseButton::Right => 2,
            _ => 0,
        }
    };
    b + (if m.shift { 4int } else { 0 }) + (if m.alt { 8int } else { 0 }) + (if m.ctrl { 16int } else { 0 })
}

/// The button code of a mouse report; see `button_code_spec`.
pub fn mouse_button_code(released: bool, sgr: bool, button: MouseButton, m: Modifiers) -> (c: u8)
    ensures
        c == button_code_spec(released, sgr, button, m),
{
    let b: u8 = if released && !sgr {
        3
    } else {
        match button {
            MouseButton::Left => 0,
            MouseButton::Middle => 1,
            MouseButton::Right => 2,
            MouseButton::Other(_) => 0,
        }
    };
    let mods: u8 = (if m.shift { 4u8 } else { 0 }) + (if m.alt { 8u8 } else { 0 }) + (if m.ctrl {
        16u8
    } else {
        0
    });
    b + mods
}

/// `s` repeated `n` times.
pub open spec fn repeated(s: Seq<u8>, n: nat) -> Seq<u8>
    decreases n,
{
    if n == 0 {
        seq![]
    } else {
        repeated(s, (n - 1) as nat) + s
    }
}

/// `|v|` as a natural number.
pub open spec fn magnitude(v: int) -> nat {
    if v < 0 { (-v) as nat } else { v as nat }
}

/// What turning the mouse wheel `vertical` steps up and `horizontal` steps
/// right does: with Shift the view of the history moves up by `vertical`
/// rows, kept between the oldest row of the history (`-history_size`) and
/// the bottom (0); without it each vertical step sends what the Up (or Down)
/// key sends.  Each horizontal step sends what Right (or Left) sends.
pub open spec fn wheel_spec(
    vertical: int,
    horizontal: int,
    shift: bool,
    history_head: int,
    history_size: int,
) -> (int, Seq<u8>) {
    let up: Seq<u8> = seq![0x1Bu8, 0x5Bu8, 0x5Bu8, 0x41u8];
    let down: Seq<u8> = seq![0x1Bu8, 0x5Bu8, 0x5Bu8, 0x42u8];
    let right: Seq<u8> = seq![0x1Bu8, 0x5Bu8, 0x5Bu8, 0x43u8];
    let left: Seq<u8> = seq![0x1Bu8, 0x5Bu8, 0x5Bu8, 0x44u8];
    let side = repeated(if horizontal > 0 { right } else { left }, magnitude(horizontal));
    if shift {
        let h = history_head - vertical;
        (if h < -history_size { -history_size } else if h > 0 { 0 } else { h }, side)
    } else {
        (history_head, repeated(if vertical > 0 { up } else { down }, magnitude(vertical)) + side)
    }
}

/// Appends `s` to `out` `n` times.
fn push_repeated(out: &mut Vec<u8>, s: &[u8], n: usize)
    ensures
        final(out)@ == old(out)@ + repeated(s@, n as nat),
{
    let mut i: usize = 0;
    while i < n
        invariant
            i <= n,
            out@ == old(out)@ + repeated(s@, i as nat),
        decreases n - i,
    {
        let ghost before = out@;
        let mut k: usize = 0;
        while k < s.len()
            invariant
                k <= s@.len(),
                out@ == before + s@.subrange(0, k as int),
            decreases s@.len() - k,
        {
            out.push(s[k]);
            proof {
                assert(s@.subrange(0, k + 1) =~= s@.subrange(0, k as int).push(s@[k as int]));
            }
            k += 1;
        }
        proof {
            assert(s@.subrange(0, s@.len() as int) =~= s@);
            assert(out@ =~= old(out)@ + repeated(s@, (i + 1) as nat));
        }
        i += 1;
    }
}

/// The new position of the view of the history and the bytes to send after
/// the mouse wheel turned; see `wheel_spec`.
pub fn wheel_action(
    vertical: isize,
    horizontal: isize,
    shift: bool,
    history_head: isize,
    history_size: usize,
) -> (r: (isize, Vec<u8>))
    requires
        vertical != isize::MIN,
        horizontal != isize::MIN,
        history_size <= isize::MAX,
        shift ==> isize::MIN <= history_head - vertical <= isize::MAX,
    ensures
        (r.0 as int, r.1@) == wheel_spec(
            vertical as int,
            horizontal as int,
            shift,
            history_head as int,
            history_size as int,
        ),
{
    let mut out: Vec<u8> = Vec::new();
    let mut head = history_head;
    if shift {
        let min: isize = -(history_size as isize);
        let h = history_head - vertical;
        head = if h < min {
            min
        } else if h > 0 {
            0
        } else {
            h
        };
    } else if vertical > 0 {
        push_repeated(&mut out, &[0x1Bu8, 0x5Bu8, 0x5Bu8, 0x41u8], vertical as usize);
    } else {
        push_repeated(&mut out, &[0x1Bu8, 0x5Bu8, 0x5Bu8, 0x42u8], (-vertical) as usize);
    }
    if horizontal > 0 {
        push_repeated(&mut out, &[0x1Bu8, 0x5Bu8, 0x5Bu8, 0x43u8], horizontal as usize);
    } else {
        push_repeated(&mut out, &[0x1Bu8, 0x5Bu8, 0x5Bu8, 0x44u8], (-horizontal) as usize);
    }
    proof {
        assert(seq![0x1Bu8, 0x5Bu8, 0x5Bu8, 0x41u8] =~= [0x1Bu8, 0x5Bu8, 0x5Bu8, 0x41u8]@);
        assert(seq![0x1Bu8, 0x5Bu8, 0x5Bu8, 0x42u8] =~= [0x1Bu8, 0x5Bu8, 0x5Bu8, 0x42u8]@);
        assert(seq![0x1Bu8, 0x5Bu8, 0x5Bu8, 0x43u8] =~= [0x1Bu8, 0x5Bu8, 0x5Bu8, 0x43u8]@);
        assert(seq![0x1Bu8, 0x5Bu8, 0x5Bu8, 0x44u8] =~= [0x1Bu8, 0x5Bu8, 0x5Bu8, 0x44u8]@);
        assert(out@ =~= wheel_spec(
            vertical as int,
            horizontal as int,
            shift,
            history_head as int,
            history_size as int,
        ).1);
    }
    (head, out)
}

/// The characters that the key handler deals with when they are typed.
pub open spec fn handled_as_key(ch: char) -> bool {
    ch == '-' || ch == '=' || ch == '\x7F' || ch == '\x03' || ch == '\x08' || ch == '\x0C' || ch
        == '\x16' || ch == '\x1B'
}

/// What typing `ch` sends: nothing for the characters the key handler deals
/// with, else its UTF-8 encoding.
pub open spec fn typed_char_spec(ch: char) -> Option<Seq<u8>> {
    if handled_as_key(ch) {
        None
    } else {
        Some(vstd::utf8::encode_scalar(ch as u32))
    }
}

/// What typing `ch` sends; see `typed_char_spec`.
pub fn typed_char_bytes(ch: char) -> (r: Option<Vec<u8>>)
    ensures
        match typed_char_spec(ch) {
            Some(bytes) => r matches Some(v) && v@ == bytes,
            None => r is None,
        },
{
    if ch == '-' || ch == '=' || ch == '\x7F' || ch == '\x03' || ch == '\x08' || ch == '\x0C' || ch
        == '\x16' || ch == '\x1B' {
        return None;
    }
    let c = ch as u32;
    let v: Vec<u8> = if c <= 0x7F {
        vec![(c & 0x7F) as u8]
    } else if c <= 0x7FF {
        vec![0xC0 | ((c >> 6) & 0x1F) as u8, 0x80 | (c & 0x3F) as u8]
    } else if c <= 0xFFFF {
        vec![0xE0 | ((c >> 12) & 0x0F) as u8, 0x80 | ((c >> 6) & 0x3F) as u8, 0x80 | (c & 0x3F) as u8]
    } else {
        vec![
            0xF0 | ((c >> 18) & 0x07) as u8,
            0x80 | ((c >> 12) & 0x3F) as u8,
            0x80 | ((c >> 6) & 0x3F) as u8,
            0x80 | (c & 0x3F) as u8,
        ]
    };
    proof {
        assert(v@ =~= vstd::utf8::encode_scalar(c));
    }
    Some(v)
}

/// The size of the screen that fits in `viewport` beside a scroll bar
/// `scroll_bar_width` pixels wide: whole cells, at least one row and one column.
pub fn buffer_size(viewport: Viewport, scroll_bar_width: u32, cell_size: CellSize) -> (r: TerminalSize)
    requires
        cell_size.w > 0,
        cell_size.h > 0,
    ensures
        r.rows == (if viewport.h / cell_size.h >= 1 { viewport.h / cell_size.h } else { 1 }),
        r.cols == ({
            let width: int = if viewport.w >= scroll_bar_width { viewport.w - scroll_bar_width } else { 0 };
            if width / (cell_size.w as int) >= 1 { width / (cell_size.w as int) } else { 1 }
        }),
{
    let width = viewport.w.saturating_sub(scroll_bar_width);
    let rows = (viewport.h / cell_size.h) as usize;
    let cols = (width / cell_size.w) as usize;
    TerminalSize { rows: if rows >= 1 { rows } else { 1 }, cols: if cols >= 1 { cols } else { 1 } }
}

/// The image `i` as seen from a view of the history that starts at row
/// `history_head`.
pub open spec fn image_seen_from(i: ImageView, history_head: int) -> ImageView {
    ImageView { row: (i.row - history_head) as i64, ..i }
}

/// What the window shows of the terminal `state` when its view starts at
/// row `history_head` (rows of the history are negative): the lines of the
/// view, the images moved with it, and the cursor (row, column of the
/// character under it, style) when the view is at the bottom and the cursor
/// is visible.
pub fn shown_contents(state: &State, history_head: isize) -> (r: (
    Vec<Line>,
    Vec<PositionedImage>,
    Option<(usize, usize, CursorStyle)>,
))
    requires
        state.wf(),
        -(state@.history_size as int) <= history_head <= 0,
        forall|k: int|
            0 <= k < state@.images.len() ==> i64::MIN <= #[trigger] state@.images[k].row - history_head <= i64::MAX,
    ensures
        views(r.0@) == range_lines(state@, history_head as int, history_head + state@.size.rows),
        image_views(r.1@) == state@.images.map_values(|i: ImageView| image_seen_from(i, history_head as int)),
        r.2 == if history_head >= 0 && state@.mode.cursor_visible {
            Some(
                (
                    state@.cursor.row,
                    head(state@.lines[state@.cursor.row as int].cells, state@.cursor.col as int) as usize,
                    state@.cursor.style,
                ),
            )
        } else {
            None
        },
{
    let rows = state.get_size().rows;
    let top = history_head;
    let bot = top + rows as isize;
    let src = state.range(top, bot);
    let ghost want = range_lines(state@, history_head as int, history_head + state@.size.rows);
    let mut lines: Vec<Line> = Vec::new();
    let mut i: usize = 0;
    while i < src.len()
        invariant
            i <= src@.len(),
            ref_views_eq(src@, want),
            views(lines@) == want.subrange(0, i as int),
        decreases src@.len() - i,
    {
        let mut l = Line::new(0);
        l.copy_from(src[i]);
        let ghost before = lines@;
        proof {
            assert(src@[i as int]@ == want[i as int]);
            assert(l@.cells == want[i as int].cells);
            assert(l@.wraps == want[i as int].wraps);
            assert(l@ == want[i as int]);
        }
        lines.push(l);
        proof {
            assert(lines@ == before.push(l));
            assert(views(lines@) =~= views(before).push(l@));
            assert(views(lines@) =~= want.subrange(0, i + 1));
        }
        i += 1;
    }
    assert(want.subrange(0, src@.len() as int) =~= want);
    let imgs = state.images();
    let ghost iv = state@.images;
    let mut images: Vec<PositionedImage> = Vec::new();
    let mut k: usize = 0;
    while k < imgs.len()
        invariant
            k <= imgs@.len(),
            image_views(imgs@) == iv,
            forall|j: int| 0 <= j < iv.len() ==> i64::MIN <= #[trigger] iv[j].row - history_head <= i64::MAX,
            image_views(images@) == iv.subrange(0, k as int).map_values(|i: ImageView| image_seen_from(i, history_head as int)),
        decreases imgs@.len() - k,
    {
        let img = &imgs[k];
        assert(image_views(imgs@)[k as int] == img@);
        assert(iv[k as int] == img@);
        assert(i64::MIN <= iv[k as int].row - history_head <= i64::MAX);
        let ghost before = images@;
        let moved = PositionedImage {
            row: img.row - history_head as i64,
            col: img.col,
            height: img.height,
            width: img.width,
            data: img.data.clone(),
        };
        assert(moved.data@ =~= img.data@);
        assert(moved@ == image_seen_from(iv[k as int], history_head as int));
        images.push(moved);
        assert(images@ == before.push(moved));
        assert(image_views(images@) =~= image_views(before).push(moved@));
        assert(image_views(images@) =~= iv.subrange(0, k + 1).map_values(|i: ImageView| image_seen_from(i, history_head as int)));
        k += 1;
    }
    assert(iv.subrange(0, iv.len() as int) =~= iv);
    let cursor = if history_head >= 0 && state.get_mode().cursor_visible {
        Some(state.cursor())
    } else {
        None
    };
    (lines, images, cursor)
}

/// `ls` refers to lines whose views are `want`.
pub open spec fn ref_views_eq(ls: Seq<&Line>, want: Seq<LineView>) -> bool {
    &&& ls.len() == want.len()
    &&& forall|i: int| 0 <= i < ls.len() ==> (#[trigger] ls[i])@ == want[i]
}

} // verus!
