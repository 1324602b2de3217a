//! The engine: carries out the control functions that the program running in
//! the terminal writes, on the screen state.

use vstd::prelude::*;

use unicode_width::UnicodeWidthChar;

use super::cursor::Cursor;
use super::line::{blank_line, lemma_head, put_cells, LineView};
use super::screen::{
    blank_between, buffer_scroll_up_if_needed, color_from, images_wf, line_copied, line_erased,
    lines_copied, parse_color, scrolled, scrolled_if_needed, state_wf, with_line, Keep, State,
    StateView,
};
use super::{
    default_attribute, space_cell, void_cell, Cell, CellSize, Color, CursorStyle, GraphicAttribute, ImageView,
    PositionedImage, TerminalSize,
};
use crate::control_function::{self, Function, Out, ParserView};
use crate::sixel;
use crate::stream::chars_of;

verus! {

/// The columns that `ch` takes by `UnicodeWidthChar::width` (ambiguous
/// characters one column wide).
pub uninterp spec fn display_width(ch: char) -> Option<usize>;

/// The columns that `ch` takes by `UnicodeWidthChar::width_cjk` (ambiguous
/// characters two columns wide).
pub uninterp spec fn display_width_cjk(ch: char) -> Option<usize>;

/// What both width functions of unicode-width give for every character: no
/// width for the C0 and C1 control characters and DEL, one column for the other
/// ASCII characters, and at most three columns for the rest.
pub open spec fn width_facts(ch: char, w: Option<usize>) -> bool {
    if (ch as u32) < 0x20 || (0x7F <= (ch as u32) && (ch as u32) < 0xA0) {
        w is None
    } else if (ch as u32) < 0x7F {
        w == Some(1usize)
    } else {
        w matches Some(n) && n <= 3
    }
}

/// `UnicodeWidthChar::width` of unicode-width: the displayed width of `ch`,
/// `None` for a control character.  Trusted to be a function of `ch` alone and
/// to give what `width_facts` says.
#[verifier::external_body]
fn char_width(ch: char) -> (w: Option<usize>)
    ensures
        w == display_width(ch),
        width_facts(ch, w),
{
    ch.width()
}

/// `UnicodeWidthChar::width_cjk` of unicode-width: as `char_width`, but
/// ambiguous characters are two columns wide.  Trusted as `char_width` is.
#[verifier::external_body]
fn char_width_cjk(ch: char) -> (w: Option<usize>)
    ensures
        w == display_width_cjk(ch),
        width_facts(ch, w),
{
    ch.width_cjk()
}

/// The width of `ch` on a terminal that draws ambiguous characters wide or not.
pub open spec fn width_of(ambiguous_wide: bool, ch: char) -> Option<usize> {
    if ambiguous_wide {
        display_width_cjk(ch)
    } else {
        display_width(ch)
    }
}

/// The engine as a value.
pub struct EngineView {
    pub state: StateView,
    pub cell_sz: CellSize,
    pub parser: ParserView,
    pub attr: GraphicAttribute,
    pub saved_cursor: Cursor,
    pub saved_attr: GraphicAttribute,
    pub ambiguous_wide: bool,
}

/// The tabulation stops of a screen `cols` wide: every eighth column.
pub open spec fn stops(cols: int) -> Seq<usize> {
    Seq::new(((cols + 7) / 8) as nat, |i: int| (8 * i) as usize)
}

/// The engine is consistent: the state is well formed, no image is too far
/// above the screen, cells are at least a pixel wide and high, and the saved
/// cursor lies on the screen.
pub open spec fn engine_wf(v: EngineView) -> bool {
    &&& state_wf(v.state)
    &&& images_wf(v.state.images)
    &&& images_wf(v.state.alt_images)
    &&& v.cell_sz.w >= 1
    &&& v.cell_sz.h >= 1
    &&& v.saved_cursor.wf()
    &&& v.saved_cursor.sz == v.state.size
}

/// `a` or `b`, whichever is smaller.
pub open spec fn smaller(a: int, b: int) -> int {
    if a < b {
        a
    } else {
        b
    }
}

/// A count parameter: 0 means 1.
pub open spec fn at_least_one(pn: u16) -> int {
    if pn == 0 {
        1
    } else {
        pn as int
    }
}

/// A 1-based position parameter made 0-based (0 stays 0).
pub open spec fn less_one(pn: u16) -> usize {
    if pn > 0 {
        (pn - 1) as usize
    } else {
        0
    }
}

/// The cursor `pn` rows up (CUU), stopping at the first row.
pub open spec fn cursor_up(c: Cursor, pn: u16) -> Cursor {
    let up = smaller(at_least_one(pn), c.row as int);
    if up == 0 {
        c
    } else {
        Cursor { row: (c.row - up) as usize, end: false, ..c }
    }
}

/// The cursor `pn` rows down (CUD), stopping at the last row.
pub open spec fn cursor_down(c: Cursor, pn: u16) -> Cursor {
    let down = smaller(at_least_one(pn), c.sz.rows - 1 - c.row);
    if down == 0 {
        c
    } else {
        Cursor { row: (c.row + down) as usize, end: false, ..c }
    }
}

/// The cursor `pn` columns right (CUF), stopping at the last column.
pub open spec fn cursor_forward(c: Cursor, pn: u16) -> Cursor {
    let right = smaller(at_least_one(pn), c.sz.cols - 1 - c.col);
    if right == 0 {
        c
    } else {
        Cursor { col: (c.col + right) as usize, ..c }
    }
}

/// The cursor `pn` columns left (CUB), stopping at the first column; from
/// past the last column, the first step goes back onto it.
pub open spec fn cursor_back(c: Cursor, pn: u16) -> Cursor {
    let left = smaller(at_least_one(pn), c.col as int);
    if left == 0 {
        c
    } else if c.end {
        Cursor { col: (c.col - (left - 1)) as usize, end: false, ..c }
    } else {
        Cursor { col: (c.col - left) as usize, ..c }
    }
}

/// The cursor moved `k` columns right one at a time: past the last column
/// if it reaches it.
pub open spec fn advanced(c: Cursor, k: int) -> Cursor {
    if k <= 0 {
        c
    } else if c.col + k < c.sz.cols {
        Cursor { col: (c.col + k) as usize, ..c }
    } else {
        Cursor { col: (c.sz.cols - 1) as usize, end: true, ..c }
    }
}

/// The next tabulation stop after column `col`, or the last column.
pub open spec fn next_tab(col: int, cols: int) -> int {
    let t = (col / 8 + 1) * 8;
    if t < cols {
        t
    } else {
        cols - 1
    }
}

/// `v` with the state `st`.
pub open spec fn with_state(v: EngineView, st: StateView) -> EngineView {
    EngineView { state: st, ..v }
}

/// `st` with the cursor `c`.
pub open spec fn with_cursor(st: StateView, c: Cursor) -> StateView {
    StateView { cursor: c, ..st }
}

/// A line feed: scroll if on the last row, then one row down.
pub open spec fn line_feed(st: StateView, cell_h: u32) -> StateView {
    let s = scrolled_if_needed(st, cell_h);
    with_cursor(s, s.cursor.next_row_spec())
}

/// `k` line feeds.
pub open spec fn line_feeds(st: StateView, cell_h: u32, k: nat) -> StateView
    decreases k,
{
    if k == 0 {
        st
    } else {
        line_feed(line_feeds(st, cell_h, (k - 1) as nat), cell_h)
    }
}

/// The attribute after the SGR parameters of `ps` from index `i` on.
pub open spec fn sgr_from(a: GraphicAttribute, ps: Seq<u16>, i: int) -> GraphicAttribute
    decreases ps.len() - i,
{
    if i < 0 || i >= ps.len() {
        a
    } else {
        let p = ps[i];
        if (30 <= p <= 38) || (90 <= p <= 97) {
            let (c, j) = color_from((p - 30) as u16, ps, i + 1);
            let a1 = match c {
                Some(c) => GraphicAttribute { fg: c, ..a },
                None => a,
            };
            if j > i {
                sgr_from(a1, ps, j)
            } else {
                a1
            }
        } else if (40 <= p <= 48) || (100 <= p <= 107) {
            let (c, j) = color_from((p - 40) as u16, ps, i + 1);
            let a1 = match c {
                Some(c) => GraphicAttribute { bg: c, ..a },
                None => a,
            };
            if j > i {
                sgr_from(a1, ps, j)
            } else {
                a1
            }
        } else {
            let a1 = match p {
                0 => default_attribute(),
                1 => GraphicAttribute { bold: 1, ..a },
                2 => GraphicAttribute { bold: -1i8, ..a },
                22 => GraphicAttribute { bold: 0, ..a },
                5 => GraphicAttribute { blinking: 1, ..a },
                6 => GraphicAttribute { blinking: 2, ..a },
                25 => GraphicAttribute { blinking: 0, ..a },
                7 => GraphicAttribute { inversed: true, ..a },
                27 => GraphicAttribute { inversed: false, ..a },
                8 => GraphicAttribute { concealed: true, ..a },
                28 => GraphicAttribute { concealed: false, ..a },
                70 => GraphicAttribute { fg: Color::Special, ..a },
                39 => GraphicAttribute { fg: Color::White, ..a },
                80 => GraphicAttribute { bg: Color::Special, ..a },
                49 => GraphicAttribute { bg: Color::Black, ..a },
                _ => a,
            };
            sgr_from(a1, ps, i + 1)
        }
    }
}

/// The decimal digits of `n`, in ASCII.
pub open spec fn decimal(n: nat) -> Seq<u8>
    decreases n,
{
    if n < 10 {
        seq![(0x30 + n) as u8]
    } else {
        decimal(n / 10).push((0x30 + n % 10) as u8)
    }
}

/// The report of the cursor position (CPR) for 0-based `row` and `col`.
pub open spec fn position_report(row: nat, col: nat) -> Seq<u8> {
    seq![0x1Bu8, 0x5Bu8] + decimal(row + 1) + seq![0x3Bu8] + decimal(col + 1) + seq![0x52u8]
}

/// The cursor-movement functions on cursor `c`, or nothing for other functions.
pub open spec fn moved_cursor(c: Cursor, f: Function) -> Option<Cursor> {
    match f {
        Function::CR => Some(c.first_col_spec()),
        Function::BS => Some(c.prev_col_spec()),
        Function::CUU(pn) => Some(cursor_up(c, pn)),
        Function::CUD(pn) => Some(cursor_down(c, pn)),
        Function::CUF(pn) => Some(cursor_forward(c, pn)),
        Function::CUB(pn) => Some(cursor_back(c, pn)),
        Function::CUP(pn1, pn2) | Function::HVP(pn1, pn2) => Some(c.exact_spec(less_one(pn1), less_one(pn2))),
        Function::CHA(pn) => Some(c.exact_spec(c.row, less_one(pn))),
        Function::VPA(pn) => Some(
            c.exact_spec(smaller(less_one(pn) as int, c.sz.rows - 1) as usize, c.col),
        ),
        _ => None,
    }
}

/// The erasing functions (ED, EL, ECH) on state `st` with cells `cell_h`
/// pixels high, or nothing for other functions.
pub open spec fn erased_state(st: StateView, cell_h: u32, f: Function) -> Option<StateView> {
    let c = st.cursor;
    let row = c.row as int;
    let col = c.col as int;
    let cols = st.size.cols as int;
    let rows = st.size.rows as int;
    match f {
        Function::ECH(pn) => Some(
            with_line(st, row, line_erased(st.lines[row], col, col + at_least_one(pn))),
        ),
        Function::EL(0) => Some(with_line(st, row, line_erased(st.lines[row], col, cols))),
        Function::EL(1) => Some(with_line(st, row, line_erased(st.lines[row], 0, col + 1))),
        Function::EL(2) => Some(with_line(st, row, blank_line(cols as nat))),
        Function::ED(0) => {
            let s1 = with_line(st, row, line_erased(st.lines[row], col, cols));
            Some(
                StateView {
                    lines: blank_between(s1.lines, row + 1, rows),
                    images: s1.images.filter(
                        |img: ImageView| super::screen::keeps(Keep::EndAbove(row as i64, cell_h), img),
                    ),
                    ..s1
                },
            )
        },
        Function::ED(1) => {
            let s1 = StateView { lines: blank_between(st.lines, 0, row), ..st };
            let s2 = with_line(s1, row, line_erased(s1.lines[row], 0, col + 1));
            Some(
                StateView {
                    images: s2.images.filter(
                        |img: ImageView| super::screen::keeps(Keep::StartFrom(row as i64), img),
                    ),
                    ..s2
                },
            )
        },
        Function::ED(2) => Some(
            StateView { lines: blank_between(st.lines, 0, rows), images: Seq::empty(), ..st },
        ),
        _ => None,
    }
}

/// Inserting `pn` blank characters at the cursor (ICH).
pub open spec fn chars_inserted(st: StateView, pn: u16) -> StateView {
    let row = st.cursor.row as int;
    let col = st.cursor.col as int;
    let cols = st.size.cols as int;
    let dst = smaller(col + at_least_one(pn), cols);
    let count = cols - dst;
    let l1 = line_copied(st.lines[row], col, col + count, dst);
    with_line(st, row, line_erased(l1, col, dst))
}

/// Deleting `pn` characters at the cursor (DCH).
pub open spec fn chars_deleted(st: StateView, pn: u16) -> StateView {
    let row = st.cursor.row as int;
    let col = st.cursor.col as int;
    let cols = st.size.cols as int;
    let src = smaller(col + at_least_one(pn), cols);
    let count = cols - src;
    let l1 = line_copied(st.lines[row], src, src + count, col);
    with_line(st, row, line_erased(l1, col + count, cols))
}

/// Inserting `pn` blank lines at the cursor's row (IL).
pub open spec fn lines_inserted(st: StateView, pn: u16) -> StateView {
    let row = st.cursor.row as int;
    let rows = st.size.rows as int;
    let dst = smaller(row + at_least_one(pn), rows);
    let count = rows - dst;
    let ls = if count > 0 {
        lines_copied(st.lines, row, row + count - 1, dst)
    } else {
        st.lines
    };
    StateView { lines: blank_between(ls, row, dst), ..st }
}

/// Deleting `pn` lines at the cursor's row (DL).
pub open spec fn lines_deleted(st: StateView, pn: u16) -> StateView {
    let row = st.cursor.row as int;
    let rows = st.size.rows as int;
    let src = smaller(row + at_least_one(pn), rows);
    let count = rows - src;
    let ls = if count > 0 {
        lines_copied(st.lines, src, src + count - 1, row)
    } else {
        st.lines
    };
    StateView { lines: blank_between(ls, row + count, rows), ..st }
}

/// The editing functions (ICH, DCH, IL, DL) on state `st`, or nothing for
/// other functions.
pub open spec fn edited_state(st: StateView, f: Function) -> Option<StateView> {
    match f {
        Function::ICH(pn) => Some(chars_inserted(st, pn)),
        Function::DCH(pn) => Some(chars_deleted(st, pn)),
        Function::IL(pn) => Some(lines_inserted(st, pn)),
        Function::DL(pn) => Some(lines_deleted(st, pn)),
        _ => None,
    }
}

/// The state with the screen and the alternative screen exchanged.
pub open spec fn swapped(st: StateView) -> StateView {
    StateView {
        lines: st.alt_lines,
        alt_lines: st.lines,
        images: st.alt_images,
        alt_images: st.images,
        ..st
    }
}

/// The modes after setting (`on`) or resetting the private mode `ps`.
pub open spec fn flag_set(m: super::Mode, ps: u16, on: bool) -> super::Mode {
    match ps {
        25 => super::Mode { cursor_visible: on, ..m },
        80 => super::Mode { sixel_scrolling: on, ..m },
        1000 | 1002 => super::Mode { mouse_track: on, ..m },
        1006 => super::Mode { sgr_ext_mouse_track: on, ..m },
        2004 => super::Mode { bracketed_paste: on, ..m },
        _ => m,
    }
}

/// Switching to the alternative screen (`on`: the cursor and attribute are
/// saved and the alternative screen is blanked first) or back (the cursor and
/// attribute are restored).
pub open spec fn screen_switched(v: EngineView, on: bool) -> EngineView {
    let st = v.state;
    if on {
        let s1 = StateView {
            alt_lines: blank_between(st.alt_lines, 0, st.size.rows as int),
            alt_images: Seq::empty(),
            ..st
        };
        EngineView { saved_cursor: st.cursor, saved_attr: v.attr, state: swapped(s1), ..v }
    } else {
        EngineView { attr: v.saved_attr, state: swapped(with_cursor(st, v.saved_cursor)), ..v }
    }
}

/// Switching to the alternative screen and back restores the screen, its
/// images, the cursor and the attribute as they were before.
pub proof fn lemma_alternative_screen_round_trip(v: EngineView)
    ensures
        ({
            let w = screen_switched(screen_switched(v, true), false);
            &&& w.state.lines == v.state.lines
            &&& w.state.images == v.state.images
            &&& w.state.cursor == v.state.cursor
            &&& w.attr == v.attr
            &&& w.state.history == v.state.history
        }),
{
}

/// Where a printed character lands: at the cursor if it fits in what is
/// left of the row; otherwise at the start of the next row (the screen
/// scrolling up on the last row), the row it could not fit in being marked
/// as wrapping.  Its first cell holds it, the cells it covers link back to
/// it, and the cursor moves past it.
pub proof fn lemma_printed_char_lands(v: EngineView, ch: char, w: int)
    requires
        engine_wf(v),
        1 <= w <= v.state.size.cols,
        w <= u16::MAX,
    ensures
        ({
            let c = v.state.cursor;
            let rows = v.state.size.rows as int;
            let s = char_written(v, ch, w);
            let fits = w <= right_space(c);
            let at = if fits {
                c
            } else {
                Cursor { row: if c.row + 1 < rows { (c.row + 1) as usize } else { c.row }, col: 0, end: false, ..c }
            };
            &&& s.lines[at.row as int].cells[at.col as int] == (Cell { ch, width: w as u16, backlink: 0, attr: v.attr })
            &&& forall|k: int| 0 < k < w ==> #[trigger] s.lines[at.row as int].cells[at.col + k] == void_cell(k as u16)
            &&& s.cursor == advanced(at, w)
            &&& (!fits && c.row + 1 < rows ==> s.lines[c.row as int].wraps)
            &&& (!fits && c.row + 1 == rows && rows >= 2 ==> s.lines[rows - 2].wraps)
            &&& (!fits && rows == 1 ==> s.history.last().wraps)
        }),
{
    let st = v.state;
    let c = st.cursor;
    let row = c.row as int;
    let s1 = wrapped_for(st, v.cell_sz.h, w);
    if right_space(c) < w {
        let sa = if !c.end {
            with_line(st, row, line_erased(st.lines[row], c.col as int, st.size.cols as int))
        } else {
            st
        };
        let sb = with_line(sa, row, LineView { wraps: true, ..sa.lines[row] });
        assert(sb.lines[row].wraps);
        if c.row + 1 == c.sz.rows {
            let sc = scrolled(sb, v.cell_sz.h);
            assert(sc.lines.len() == st.size.rows);
            assert(sc.lines[sc.lines.len() - 1].cells.len() == st.size.cols);
            if st.size.rows >= 2 {
                assert(sc.lines[st.size.rows - 2] == sb.lines[row]);
            }
        } else {
            assert(s1.lines[row + 1] == st.lines[row + 1]);
            assert(st.lines[row + 1].cells.len() == st.size.cols);
        }
    } else {
        assert(st.lines[row].cells.len() == st.size.cols);
    }
}

/// Setting (`on`) or resetting a private mode (`CSI ? ps h` / `CSI ? ps l`).
pub open spec fn private_mode(v: EngineView, ps: u16, on: bool) -> EngineView {
    if ps == 1049 {
        screen_switched(v, on)
    } else {
        with_state(v, StateView { mode: flag_set(v.state.mode, ps, on), ..v.state })
    }
}

/// Columns left for a character after cursor `c`.
pub open spec fn right_space(c: Cursor) -> int {
    if c.end {
        0
    } else {
        c.sz.cols - c.col
    }
}

/// The state made ready for a character `w` columns wide: if it does not fit
/// after the cursor, the rest of the line is blanked (unless the cursor is
/// past the last column), the line marked as wrapping, and the cursor moved
/// to the start of the next line, scrolling if needed.
pub open spec fn wrapped_for(st: StateView, cell_h: u32, w: int) -> StateView {
    let c = st.cursor;
    let row = c.row as int;
    if right_space(c) < w {
        let sa = if !c.end {
            with_line(st, row, line_erased(st.lines[row], c.col as int, st.size.cols as int))
        } else {
            st
        };
        let sb = with_line(sa, row, LineView { wraps: true, ..sa.lines[row] });
        let sc = scrolled_if_needed(sb, cell_h);
        with_cursor(sc, sc.cursor.next_row_spec().first_col_spec())
    } else {
        st
    }
}

/// The state after writing `ch`, `w` columns wide, at the cursor.
pub open spec fn char_written(v: EngineView, ch: char, w: int) -> StateView {
    let s1 = wrapped_for(v.state, v.cell_sz.h, w);
    let c = s1.cursor;
    let row = c.row as int;
    let cell = Cell { ch, width: w as u16, backlink: 0, attr: v.attr };
    let s2 = with_line(
        s1,
        row,
        LineView { cells: put_cells(s1.lines[row].cells, c.col as int, cell), wraps: s1.lines[row].wraps },
    );
    with_cursor(s2, advanced(c, w))
}

/// The state after a horizontal tab from a cursor before the last column:
/// a tab character fills the columns up to the next stop.
pub open spec fn tabbed(v: EngineView) -> StateView {
    let st = v.state;
    let c = st.cursor;
    let row = c.row as int;
    let adv = next_tab(c.col as int, st.size.cols as int) - c.col;
    let cell = Cell { ch: '\t', width: adv as u16, backlink: 0, attr: v.attr };
    let s1 = with_line(
        st,
        row,
        LineView { cells: put_cells(st.lines[row].cells, c.col as int, cell), wraps: st.lines[row].wraps },
    );
    with_cursor(s1, advanced(c, adv))
}

/// The state after placing the decoded sixel image `fin` at the cursor (or at
/// the top left corner without sixel scrolling); images it covers are
/// dropped, and with sixel scrolling the cursor moves past it.
pub open spec fn sixel_placed(v: EngineView, fin: sixel::DecodeState) -> StateView {
    let st = v.state;
    let c = st.cursor;
    let scrolling = st.mode.sixel_scrolling;
    let row: i64 = if scrolling { c.row as i64 } else { 0 };
    let col: i64 = if scrolling { c.col as i64 } else { 0 };
    let img = ImageView { row, col, height: fin.height, width: fin.width, data: fin.data };
    let s1 = StateView {
        images: st.images.filter(
            |i: ImageView| super::screen::keeps(Keep::Uncovered(row, col, fin.height, fin.width), i),
        ).push(img),
        ..st
    };
    if scrolling {
        let adv_h = (fin.width + v.cell_sz.w - 1) / (v.cell_sz.w as int);
        let adv_v = (fin.height + v.cell_sz.h - 1) / (v.cell_sz.h as int) - 1;
        line_feeds(with_cursor(s1, advanced(c, adv_h)), v.cell_sz.h, adv_v as nat)
    } else {
        s1
    }
}

/// The image that decoding `chars` with the color registers `colors` gives.
pub open spec fn decoded(chars: Seq<char>, colors: Seq<sixel::Color>) -> sixel::DecodeState {
    sixel::run(chars, 0, sixel::initial_state(colors)).0
}

/// Carrying out what the parser yielded, `o`, with the sixel color registers
/// `colors` as they were before: the engine after it, the bytes to write back
/// to the program.  A horizontal tab at the last column changes nothing;
/// saving the cursor (DECSC) keeps the cursor and attribute in the slot that
/// switching to the alternative screen uses, and restoring it (DECRC) brings
/// them back.
#[verifier::opaque]
pub open spec fn act(v: EngineView, o: Out, colors: Seq<sixel::Color>) -> (EngineView, Seq<u8>) {
    let st = v.state;
    let c = st.cursor;
    match o {
        Out::Nothing => (v, seq![]),
        Out::Sgr(ps) => (EngineView { attr: sgr_from(v.attr, ps, 0), ..v }, seq![]),
        Out::Sixel(chars) => (with_state(v, sixel_placed(v, decoded(chars, colors))), seq![]),
        Out::Func(f) => match f {
            Function::LF | Function::VT | Function::FF => (
                with_state(v, line_feed(st, v.cell_sz.h)),
                seq![],
            ),
            Function::HT => if c.col == st.size.cols - 1 {
                (v, seq![])
            } else {
                (with_state(v, tabbed(v)), seq![])
            },
            Function::DECSC => (EngineView { saved_cursor: c, saved_attr: v.attr, ..v }, seq![]),
            Function::DECRC => (
                EngineView { attr: v.saved_attr, state: with_cursor(st, v.saved_cursor), ..v },
                seq![],
            ),
            Function::DSR(5) => (v, seq![0x1Bu8, 0x5Bu8, 0x30u8, 0x6Eu8]),
            Function::DSR(6) => (v, position_report(c.row as nat, c.col as nat)),
            Function::GraphicChar(ch) => match width_of(v.ambiguous_wide, ch) {
                Some(w) => if w >= 1 {
                    (with_state(v, char_written(v, ch, w as int)), seq![])
                } else {
                    (v, seq![])
                },
                None => (v, seq![]),
            },
            Function::SelectCursorStyle(ps) => {
                let style = if ps == 2 {
                    CursorStyle::Block
                } else if ps == 4 {
                    CursorStyle::Underline
                } else if ps == 6 {
                    CursorStyle::Bar
                } else {
                    c.style
                };
                (with_state(v, with_cursor(st, Cursor { style, ..c })), seq![])
            },
            Function::SM(p, ps) => (if p == 0x3F { private_mode(v, ps, true) } else { v }, seq![]),
            Function::RM(p, ps) => (if p == 0x3F { private_mode(v, ps, false) } else { v }, seq![]),
            _ => {
                if let Some(c2) = moved_cursor(c, f) {
                    (with_state(v, with_cursor(st, c2)), seq![])
                } else if let Some(s2) = erased_state(st, v.cell_sz.h, f) {
                    (with_state(v, s2), seq![])
                } else if let Some(s2) = edited_state(st, f) {
                    (with_state(v, s2), seq![])
                } else {
                    (v, seq![])
                }
            },
        },
    }
}

/// What the parser yields can be carried out: no ESC, ED and EL with a
/// parameter of 0 to 2, DSR with 5 or 6, and SGR and sixel images only with
/// their own outcomes.
pub open spec fn out_ok(o: Out) -> bool {
    match o {
        Out::Func(f) => match f {
            Function::ESC => false,
            Function::SGR(_) => false,
            Function::SixelImage(_) => false,
            Function::ED(p) => p <= 2,
            Function::EL(p) => p <= 2,
            Function::DSR(p) => p == 5 || p == 6,
            _ => true,
        },
        _ => true,
    }
}

/// Carrying out `o` overflows no integer: a sixel image placed with sixel
/// scrolling is at least a pixel high and its size plus a cell fits in `u64`.
pub open spec fn act_ok(v: EngineView, o: Out, colors: Seq<sixel::Color>) -> bool {
    match o {
        Out::Sixel(chars) => {
            let fin = decoded(chars, colors);
            v.state.mode.sixel_scrolling ==> {
                &&& fin.height >= 1
                &&& fin.width + v.cell_sz.w - 1 <= u64::MAX
                &&& fin.height + v.cell_sz.h - 1 <= u64::MAX
            }
        },
        _ => true,
    }
}

/// A graphic character that is wider than the screen.
pub open spec fn too_wide(v: EngineView, o: Out) -> bool {
    o matches Out::Func(Function::GraphicChar(ch)) && width_of(v.ambiguous_wide, ch) matches Some(
        w,
    ) && w > v.state.size.cols
}

/// The engine with its screen marked as changed.
pub open spec fn touched(v: EngineView) -> EngineView {
    with_state(v, StateView { updated: true, ..v.state })
}

/// Feeding the characters `chars` to the engine `v`: the engine after them,
/// the bytes to write back, and the character wider than the screen that
/// stopped it, if one did.
pub open spec fn run(v: EngineView, chars: Seq<char>) -> (EngineView, Seq<u8>, Option<char>)
    decreases chars.len(),
{
    if chars.len() == 0 {
        (v, seq![], None)
    } else {
        let ch = chars[0];
        let (p2, o) = control_function::step(v.parser, ch);
        let v1 = EngineView { parser: p2, ..v };
        if too_wide(v1, o) {
            (v1, seq![], Some(ch))
        } else {
            let (v2, out) = act(v1, o, v.parser.colors);
            let (v3, out3, r) = run(v2, chars.drop_first());
            (v3, out + out3, r)
        }
    }
}

/// Feeding `chars` to `v` as `run` does overflows no integer.
pub open spec fn run_ok(v: EngineView, chars: Seq<char>) -> bool
    decreases chars.len(),
{
    if chars.len() == 0 {
        true
    } else {
        let ch = chars[0];
        let (p2, o) = control_function::step(v.parser, ch);
        let v1 = EngineView { parser: p2, ..v };
        &&& control_function::step_ok(v.parser, ch)
        &&& (!too_wide(v1, o) ==> {
            let (v2, out) = act(v1, o, v.parser.colors);
            &&& act_ok(v1, o, v.parser.colors)
            &&& run_ok(v2, chars.drop_first())
        })
    }
}

/// Carrying out `o` leaves the saved cursor and attribute, and the screen
/// not shown, alone: `o` neither saves the cursor (DECSC) nor switches
/// screens.
pub open spec fn keeps_saved(o: Out) -> bool {
    match o {
        Out::Func(Function::DECSC) => false,
        Out::Func(Function::SM(p, ps)) => !(p == 0x3F && ps == 1049),
        Out::Func(Function::RM(p, ps)) => !(p == 0x3F && ps == 1049),
        _ => true,
    }
}

/// Feeding `chars` to `v` yields, until it stops, only functions that
/// keep the saved cursor and the screen not shown (see `keeps_saved`).
pub open spec fn run_keeps_saved(v: EngineView, chars: Seq<char>) -> bool
    decreases chars.len(),
{
    if chars.len() == 0 {
        true
    } else {
        let (p2, o) = control_function::step(v.parser, chars[0]);
        let v1 = EngineView { parser: p2, ..v };
        too_wide(v1, o) || (keeps_saved(o) && run_keeps_saved(act(v1, o, v.parser.colors).0, chars.drop_first()))
    }
}

/// Line feeds leave the screen not shown alone.
proof fn lemma_line_feeds_keep_hidden(st: StateView, cell_h: u32, k: nat)
    ensures
        line_feeds(st, cell_h, k).alt_lines == st.alt_lines,
        line_feeds(st, cell_h, k).alt_images == st.alt_images,
    decreases k,
{
    if k > 0 {
        lemma_line_feeds_keep_hidden(st, cell_h, (k - 1) as nat);
    }
}

/// Carrying out a function that keeps the saved cursor (see `keeps_saved`)
/// keeps the saved cursor and attribute and the screen not shown.
proof fn lemma_act_keeps_saved(v: EngineView, o: Out, colors: Seq<sixel::Color>)
    requires
        keeps_saved(o),
    ensures
        act(v, o, colors).0.saved_cursor == v.saved_cursor,
        act(v, o, colors).0.saved_attr == v.saved_attr,
        act(v, o, colors).0.state.alt_lines == v.state.alt_lines,
        act(v, o, colors).0.state.alt_images == v.state.alt_images,
{
    reveal(act);
    if let Out::Sixel(chars) = o {
        let fin = decoded(chars, colors);
        let st = v.state;
        let c = st.cursor;
        let row: i64 = if st.mode.sixel_scrolling { c.row as i64 } else { 0 };
        let col: i64 = if st.mode.sixel_scrolling { c.col as i64 } else { 0 };
        let img = ImageView { row, col, height: fin.height, width: fin.width, data: fin.data };
        let s1 = StateView {
            images: st.images.filter(
                |i: ImageView| super::screen::keeps(Keep::Uncovered(row, col, fin.height, fin.width), i),
            ).push(img),
            ..st
        };
        let adv_h = (fin.width + v.cell_sz.w - 1) / (v.cell_sz.w as int);
        let adv_v = (fin.height + v.cell_sz.h - 1) / (v.cell_sz.h as int) - 1;
        lemma_line_feeds_keep_hidden(with_cursor(s1, advanced(c, adv_h)), v.cell_sz.h, adv_v as nat);
    }
}

/// Feeding characters that keep the saved cursor keeps the saved cursor and
/// attribute and the screen not shown.
proof fn lemma_run_keeps_saved(v: EngineView, chars: Seq<char>)
    requires
        run_keeps_saved(v, chars),
    ensures
        run(v, chars).0.saved_cursor == v.saved_cursor,
        run(v, chars).0.saved_attr == v.saved_attr,
        run(v, chars).0.state.alt_lines == v.state.alt_lines,
        run(v, chars).0.state.alt_images == v.state.alt_images,
    decreases chars.len(),
{
    if chars.len() > 0 {
        let (p2, o) = control_function::step(v.parser, chars[0]);
        let v1 = EngineView { parser: p2, ..v };
        if !too_wide(v1, o) {
            lemma_act_keeps_saved(v1, o, v.parser.colors);
            lemma_run_keeps_saved(act(v1, o, v.parser.colors).0, chars.drop_first());
        }
    }
}

/// Whatever the program writes while on the alternative screen, as long as
/// it neither switches screens again nor saves the cursor, switching back
/// restores the screen, its images, the cursor and the attribute as they
/// were before switching.
pub proof fn lemma_alternative_screen_round_trip_after_output(v: EngineView, w: Seq<char>)
    requires
        run_keeps_saved(screen_switched(v, true), w),
    ensures
        ({
            let back = screen_switched(run(screen_switched(v, true), w).0, false);
            &&& back.state.lines == v.state.lines
            &&& back.state.images == v.state.images
            &&& back.state.cursor == v.state.cursor
            &&& back.attr == v.attr
        }),
{
    lemma_run_keeps_saved(screen_switched(v, true), w);
}

/// Whatever the program writes between saving the cursor (DECSC) and
/// restoring it (DECRC), as long as it neither saves the cursor again nor
/// switches screens, restoring brings back the cursor and the attribute as
/// they were saved.
pub proof fn lemma_restore_cursor_after_output(v: EngineView, w: Seq<char>, colors: Seq<sixel::Color>)
    requires
        run_keeps_saved(act(v, Out::Func(Function::DECSC), colors).0, w),
    ensures
        ({
            let v1 = run(act(v, Out::Func(Function::DECSC), colors).0, w).0;
            let back = act(v1, Out::Func(Function::DECRC), colors).0;
            &&& back.state.cursor == v.state.cursor
            &&& back.attr == v.attr
        }),
{
    reveal(act);
    lemma_run_keeps_saved(act(v, Out::Func(Function::DECSC), colors).0, w);
}

/// The engine `after` is consistent (`engine_wf`), shows a screen of the
/// same size with cells of the same size as `before`, and is marked as
/// changed: the screen, both screens' lines, the history (at most
/// `HISTORY_CAPACITY` lines in use) and the cursor keep their shape.
pub open spec fn kept_valid(before: EngineView, after: EngineView) -> bool {
    &&& engine_wf(after)
    &&& after.state.size == before.state.size
    &&& after.cell_sz == before.cell_sz
    &&& after.state.updated
}

/// Line feeds keep the screen's size and its changed mark.
proof fn lemma_line_feeds_keep_frame(st: StateView, cell_h: u32, k: nat)
    ensures
        line_feeds(st, cell_h, k).size == st.size,
        line_feeds(st, cell_h, k).updated == st.updated,
        line_feeds(st, cell_h, k).mode == st.mode,
    decreases k,
{
    if k > 0 {
        lemma_line_feeds_keep_frame(st, cell_h, (k - 1) as nat);
    }
}

/// Carrying out a function keeps the screen's size, the cells' size and the
/// changed mark.
proof fn lemma_act_keeps_frame(v: EngineView, o: Out, colors: Seq<sixel::Color>)
    ensures
        act(v, o, colors).0.state.size == v.state.size,
        act(v, o, colors).0.state.updated == v.state.updated,
        act(v, o, colors).0.cell_sz == v.cell_sz,
        act(v, o, colors).0.ambiguous_wide == v.ambiguous_wide,
        act(v, o, colors).0.parser == v.parser,
        act(v, o, colors).0.state.mode.sixel_scrolling == scrolling_after(v.state.mode.sixel_scrolling, o),
{
    reveal(act);
    if let Out::Sixel(chars) = o {
        let fin = decoded(chars, colors);
        let st = v.state;
        let c = st.cursor;
        let row: i64 = if st.mode.sixel_scrolling { c.row as i64 } else { 0 };
        let col: i64 = if st.mode.sixel_scrolling { c.col as i64 } else { 0 };
        let img = ImageView { row, col, height: fin.height, width: fin.width, data: fin.data };
        let s1 = StateView {
            images: st.images.filter(
                |i: ImageView| super::screen::keeps(Keep::Uncovered(row, col, fin.height, fin.width), i),
            ).push(img),
            ..st
        };
        let adv_h = (fin.width + v.cell_sz.w - 1) / (v.cell_sz.w as int);
        let adv_v = (fin.height + v.cell_sz.h - 1) / (v.cell_sz.h as int) - 1;
        lemma_line_feeds_keep_frame(with_cursor(s1, advanced(c, adv_h)), v.cell_sz.h, adv_v as nat);
    }
}

/// Whether sixel scrolling is on after `o`, where it was `on` before: only
/// setting or resetting the private mode 80 changes it.
pub open spec fn scrolling_after(on: bool, o: Out) -> bool {
    match o {
        Out::Func(Function::SM(p, ps)) => if p == 0x3F && ps == 80 { true } else { on },
        Out::Func(Function::RM(p, ps)) => if p == 0x3F && ps == 80 { false } else { on },
        _ => on,
    }
}

/// Feeding characters keeps the screen's size, the cells' size and the
/// changed mark.
pub proof fn lemma_run_keeps_frame(v: EngineView, chars: Seq<char>)
    ensures
        run(v, chars).0.state.size == v.state.size,
        run(v, chars).0.state.updated == v.state.updated,
        run(v, chars).0.cell_sz == v.cell_sz,
    decreases chars.len(),
{
    if chars.len() > 0 {
        let (p2, o) = control_function::step(v.parser, chars[0]);
        let v1 = EngineView { parser: p2, ..v };
        if !too_wide(v1, o) {
            lemma_act_keeps_frame(v1, o, v.parser.colors);
            lemma_run_keeps_frame(act(v1, o, v.parser.colors).0, chars.drop_first());
        }
    }
}

/// Erasing in the display from the cursor (ED 0): every line strictly below
/// the cursor's row becomes a blank line, the cursor's line holds spaces from
/// the cursor's column to its end, and the lines above it stay as they were.
pub proof fn lemma_erase_below_cursor(v: EngineView, colors: Seq<sixel::Color>, r: int, j: int)
    requires
        engine_wf(v),
        0 <= r < v.state.size.rows,
    ensures
        ({
            let w = act(v, Out::Func(Function::ED(0)), colors).0.state;
            let c = v.state.cursor;
            &&& w.lines.len() == v.state.lines.len()
            &&& (r > c.row ==> w.lines[r] == blank_line(v.state.size.cols as nat))
            &&& (r < c.row ==> w.lines[r] == v.state.lines[r])
            &&& (r == c.row && c.col <= j < v.state.size.cols ==> w.lines[r].cells[j] == space_cell())
        }),
{
    reveal(act);
    let st = v.state;
    let c = st.cursor;
    let cols = st.size.cols as int;
    assert(super::line::cells_wf(st.lines[r].cells) && st.lines[r].cells.len() == cols);
    if r == c.row && c.col <= j < cols {
        lemma_head(st.lines[r].cells, j);
    }
}

/// Erasing in the display before the cursor (ED 1) and all of it (ED 2):
/// with ED 1 every line above the cursor's row becomes blank, the cursor's
/// line holds spaces up to and including the cursor's column, and the lines
/// below stay; with ED 2 every line becomes blank.
pub proof fn lemma_erase_above_and_all(v: EngineView, colors: Seq<sixel::Color>, r: int, j: int)
    requires
        engine_wf(v),
        0 <= r < v.state.size.rows,
    ensures
        ({
            let w1 = act(v, Out::Func(Function::ED(1)), colors).0.state;
            let w2 = act(v, Out::Func(Function::ED(2)), colors).0.state;
            let c = v.state.cursor;
            &&& (r < c.row ==> w1.lines[r] == blank_line(v.state.size.cols as nat))
            &&& (r > c.row ==> w1.lines[r] == v.state.lines[r])
            &&& (r == c.row && 0 <= j <= c.col ==> w1.lines[r].cells[j] == space_cell())
            &&& w2.lines[r] == blank_line(v.state.size.cols as nat)
        }),
{
    reveal(act);
    let st = v.state;
    let c = st.cursor;
    let cols = st.size.cols as int;
    assert(super::line::cells_wf(st.lines[r].cells) && st.lines[r].cells.len() == cols);
    if r == c.row && 0 <= j <= c.col {
        lemma_head(st.lines[r].cells, j);
    }
}

/// Erasing in the cursor's line (EL): from the cursor to the end (EL 0), from
/// the start to the cursor included (EL 1), or all of it (EL 2) becomes
/// spaces or a blank line; the other lines stay.
pub proof fn lemma_erase_in_line(v: EngineView, colors: Seq<sixel::Color>, r: int, j: int)
    requires
        engine_wf(v),
        0 <= r < v.state.size.rows,
    ensures
        ({
            let e0 = act(v, Out::Func(Function::EL(0)), colors).0.state;
            let e1 = act(v, Out::Func(Function::EL(1)), colors).0.state;
            let e2 = act(v, Out::Func(Function::EL(2)), colors).0.state;
            let c = v.state.cursor;
            &&& (r != c.row ==> e0.lines[r] == v.state.lines[r] && e1.lines[r] == v.state.lines[r]
                && e2.lines[r] == v.state.lines[r])
            &&& (r == c.row && c.col <= j < v.state.size.cols ==> e0.lines[r].cells[j] == space_cell())
            &&& (r == c.row && 0 <= j <= c.col ==> e1.lines[r].cells[j] == space_cell())
            &&& (r == c.row ==> e2.lines[r] == blank_line(v.state.size.cols as nat))
        }),
{
    reveal(act);
    let st = v.state;
    let c = st.cursor;
    let cols = st.size.cols as int;
    assert(super::line::cells_wf(st.lines[r].cells) && st.lines[r].cells.len() == cols);
    if r == c.row && 0 <= j < cols {
        lemma_head(st.lines[r].cells, j);
    }
}

/// Where the cursor-movement functions put the cursor, counting rows and
/// columns from 1 in the parameters (0 counts as 1) and stopping at the
/// screen's edges: CUP and HVP go to row `r`, column `c`; CHA to column `n`
/// of the same row; VPA to row `n` of the same column; CUU, CUD and CUF `n`
/// rows up, rows down, columns right.  The screen's lines do not change.
#[verifier::spinoff_prover]
pub proof fn lemma_cursor_moves_to(v: EngineView, colors: Seq<sixel::Color>, r: u16, c: u16, n: u16)
    requires
        engine_wf(v),
    ensures
        ({
            let cur = v.state.cursor;
            let rows = v.state.size.rows as int;
            let cols = v.state.size.cols as int;
            let at = |f: Function| act(v, Out::Func(f), colors).0.state.cursor;
            let lines = |f: Function| act(v, Out::Func(f), colors).0.state.lines;
            let pos = |p: u16| (if p == 0 { 1 } else { p as int }) - 1;
            let count = |p: u16| if p == 0 { 1 } else { p as int };
            &&& at(Function::CUP(r, c)).row == smaller(pos(r), rows - 1)
            &&& at(Function::CUP(r, c)).col == smaller(pos(c), cols - 1)
            &&& at(Function::HVP(r, c)).row == smaller(pos(r), rows - 1)
            &&& at(Function::HVP(r, c)).col == smaller(pos(c), cols - 1)
            &&& at(Function::CHA(n)).row == cur.row
            &&& at(Function::CHA(n)).col == smaller(pos(n), cols - 1)
            &&& at(Function::VPA(n)).row == smaller(pos(n), rows - 1)
            &&& at(Function::VPA(n)).col == cur.col
            &&& at(Function::CUU(n)).row == (if cur.row - count(n) < 0 { 0 } else { cur.row - count(n) })
            &&& at(Function::CUU(n)).col == cur.col
            &&& at(Function::CUD(n)).row == smaller(cur.row + count(n), rows - 1)
            &&& at(Function::CUD(n)).col == cur.col
            &&& at(Function::CUF(n)).col == smaller(cur.col + count(n), cols - 1)
            &&& at(Function::CUF(n)).row == cur.row
            &&& lines(Function::CUP(r, c)) == v.state.lines
            &&& lines(Function::CHA(n)) == v.state.lines
            &&& lines(Function::VPA(n)) == v.state.lines
        }),
{
    lemma_act_moves(v, colors, Function::CUP(r, c));
    lemma_act_moves(v, colors, Function::HVP(r, c));
    lemma_act_moves(v, colors, Function::CHA(n));
    lemma_act_moves(v, colors, Function::VPA(n));
    lemma_act_moves(v, colors, Function::CUU(n));
    lemma_act_moves(v, colors, Function::CUD(n));
    lemma_act_moves(v, colors, Function::CUF(n));
}

/// A cursor-movement function only moves the cursor.
proof fn lemma_act_moves(v: EngineView, colors: Seq<sixel::Color>, f: Function)
    requires
        f is CUP || f is HVP || f is CHA || f is VPA || f is CUU || f is CUD || f is CUF,
    ensures
        act(v, Out::Func(f), colors).0 == with_state(v, with_cursor(v.state, moved_cursor(v.state.cursor, f)->0)),
{
    reveal(act);
}

/// Whatever the parser yields can be carried out.
pub proof fn lemma_step_out_ok(v: ParserView, ch: char)
    ensures
        out_ok(control_function::step(v, ch).1),
{
}

/// The state of the terminal and what carries out the functions on it.
pub struct Engine {
    cell_sz: CellSize,
    state: State,
    parser: control_function::Parser,
    tabstops: Vec<usize>,
    attr: GraphicAttribute,
    saved_cursor: Cursor,
    saved_attr: GraphicAttribute,
    ambiguous_wide: bool,
}

impl View for Engine {
    type V = EngineView;

    closed spec fn view(&self) -> EngineView {
        EngineView {
            state: self.state@,
            cell_sz: self.cell_sz,
            parser: self.parser.view(),
            attr: self.attr,
            saved_cursor: self.saved_cursor,
            saved_attr: self.saved_attr,
            ambiguous_wide: self.ambiguous_wide,
        }
    }
}

/// The tabulation stops of a screen `cols` wide.
fn build_tabstops(cols: usize) -> (v: Vec<usize>)
    ensures
        v@ == stops(cols as int),
{
    let mut v: Vec<usize> = Vec::new();
    let mut i: usize = 0;
    while i < cols
        invariant
            i <= cols,
            v@ == stops(i as int),
        decreases cols - i,
    {
        if i % 8 == 0 {
            v.push(i);
            assert(v@ =~= stops(i + 1));
        } else {
            assert(v@ =~= stops(i + 1));
        }
        i += 1;
    }
    v
}

/// Appends the decimal digits of `n`.
pub fn push_decimal(out: &mut Vec<u8>, n: usize)
    ensures
        final(out)@ == old(out)@ + decimal(n as nat),
    decreases n,
{
    if n >= 10 {
        push_decimal(out, n / 10);
    }
    out.push(0x30u8 + (n % 10) as u8);
    proof {
        if n < 10 {
            assert(decimal(n as nat) == seq![(0x30 + n) as u8]);
        }
    }
    assert(out@ =~= old(out)@ + decimal(n as nat));
}

impl Engine {
    /// The engine is consistent (`engine_wf`), its parser well formed and its
    /// tabulation stops those of the screen's width.
    pub closed spec fn wf(self) -> bool {
        &&& engine_wf(self@)
        &&& self.parser.wf()
        &&& self.tabstops@ == stops(self.state@.size.cols as int)
    }

    /// An engine for a blank screen of `sz` cells of `cell_sz` pixels;
    /// `ambiguous_wide` draws characters of ambiguous width two columns wide.
    pub fn new(sz: TerminalSize, cell_sz: CellSize, ambiguous_wide: bool) -> (e: Self)
        requires
            1 <= sz.rows <= isize::MAX,
            1 <= sz.cols <= isize::MAX,
            cell_sz.w >= 1,
            cell_sz.h >= 1,
        ensures
            e.wf(),
            e@.state == (StateView {
                history: Seq::new(super::screen::HISTORY_CAPACITY as nat, |i: int| blank_line(sz.cols as nat)),
                lines: Seq::new(sz.rows as nat, |i: int| blank_line(sz.cols as nat)),
                alt_lines: Seq::new(sz.rows as nat, |i: int| blank_line(sz.cols as nat)),
                images: Seq::empty(),
                alt_images: Seq::empty(),
                cursor: super::cursor::origin(sz),
                size: sz,
                history_size: 0,
                mode: super::default_mode(),
                updated: true,
                closed: false,
            }),
            e@.parser == (ParserView {
                state: control_function::State::Normal,
                params: seq![0u16],
                intermediate: 0,
                private: None,
                string: Seq::empty(),
                colors: Seq::new(256, |i: int| sixel::Color { r: 0, g: 0, b: 0 }),
            }),
            e@.cell_sz == cell_sz,
            e@.attr == default_attribute(),
            e@.saved_attr == default_attribute(),
            e@.saved_cursor == super::cursor::origin(sz),
            e@.ambiguous_wide == ambiguous_wide,
    {
        let state = State::new(sz);
        let tabstops = build_tabstops(sz.cols);
        let parser = control_function::Parser::default();
        Engine {
            cell_sz,
            state,
            parser,
            tabstops,
            attr: GraphicAttribute::default(),
            saved_cursor: Cursor::new(sz),
            saved_attr: GraphicAttribute::default(),
            ambiguous_wide,
        }
    }

    /// The state of the terminal.
    pub fn state(&self) -> (s: &State)
        ensures
            s@ == self@.state,
    {
        &self.state
    }

    /// Changes the size of the screen to `sz` cells of `cell_sz` pixels.
    pub fn resize(&mut self, sz: TerminalSize, cell_sz: CellSize)
        requires
            old(self).wf(),
            1 <= sz.rows <= isize::MAX,
            1 <= sz.cols <= isize::MAX,
            cell_sz.w >= 1,
            cell_sz.h >= 1,
        ensures
            final(self).wf(),
            final(self)@ == (EngineView {
                cell_sz,
                saved_cursor: (Cursor { sz, ..old(self)@.saved_cursor }).exact_spec(
                    old(self)@.saved_cursor.row,
                    old(self)@.saved_cursor.col,
                ),
                state: StateView {
                    size: sz,
                    cursor: (Cursor { sz, ..old(self)@.state.cursor }).exact_spec(
                        old(self)@.state.cursor.row,
                        old(self)@.state.cursor.col,
                    ),
                    history: super::screen::resized_lines(old(self)@.state.history, sz.cols as int),
                    lines: super::screen::refit_lines(old(self)@.state.lines, sz.rows as int, sz.cols as int),
                    alt_lines: super::screen::refit_lines(
                        old(self)@.state.alt_lines,
                        sz.rows as int,
                        sz.cols as int,
                    ),
                    ..old(self)@.state
                },
                ..old(self)@
            }),
    {
        self.cell_sz = cell_sz;
        self.tabstops = build_tabstops(sz.cols);
        let (row, col) = self.saved_cursor.pos();
        self.saved_cursor.sz = sz;
        self.saved_cursor = self.saved_cursor.exact(row, col);
        self.state.resize(sz);
    }
}

/// `c` moved `k` rows up one at a time.
fn prev_rows(c: Cursor, k: usize) -> (r: Cursor)
    requires
        c.wf(),
        k <= c.row,
    ensures
        r == if k == 0 { c } else { Cursor { row: (c.row - k) as usize, end: false, ..c } },
        r.wf(),
{
    let mut r = c;
    let mut i: usize = 0;
    while i < k
        invariant
            i <= k,
            k <= c.row,
            c.wf(),
            r == if i == 0 { c } else { Cursor { row: (c.row - i) as usize, end: false, ..c } },
            r.wf(),
        decreases k - i,
    {
        r = r.prev_row();
        i += 1;
    }
    r
}

/// `c` moved `k` rows down one at a time.
fn next_rows(c: Cursor, k: usize) -> (r: Cursor)
    requires
        c.wf(),
        c.row + k < c.sz.rows,
    ensures
        r == if k == 0 { c } else { Cursor { row: (c.row + k) as usize, end: false, ..c } },
        r.wf(),
{
    let mut r = c;
    let mut i: usize = 0;
    while i < k
        invariant
            i <= k,
            c.row + k < c.sz.rows,
            c.wf(),
            r == if i == 0 { c } else { Cursor { row: (c.row + i) as usize, end: false, ..c } },
            r.wf(),
        decreases k - i,
    {
        r = r.next_row();
        i += 1;
    }
    r
}

/// `c` moved `k` columns right one at a time.
fn next_cols(c: Cursor, k: u64) -> (r: Cursor)
    requires
        c.wf(),
    ensures
        r == advanced(c, k as int),
        r.wf(),
{
    let mut r = c;
    let mut i: u64 = 0;
    while i < k
        invariant
            i <= k,
            c.wf(),
            r == advanced(c, i as int),
            r.wf(),
        decreases k - i,
    {
        r = r.next_col();
        i += 1;
    }
    r
}

/// `c` moved `k` columns left one at a time.
fn prev_cols(c: Cursor, k: usize) -> (r: Cursor)
    requires
        c.wf(),
        k <= c.col,
    ensures
        r == if k == 0 {
            c
        } else if c.end {
            Cursor { col: (c.col - (k - 1)) as usize, end: false, ..c }
        } else {
            Cursor { col: (c.col - k) as usize, ..c }
        },
        r.wf(),
{
    let mut r = c;
    let mut i: usize = 0;
    while i < k
        invariant
            i <= k,
            k <= c.col,
            c.wf(),
            r == if i == 0 {
                c
            } else if c.end {
                Cursor { col: (c.col - (i - 1)) as usize, end: false, ..c }
            } else {
                Cursor { col: (c.col - i) as usize, ..c }
            },
            r.wf(),
        decreases k - i,
    {
        r = r.prev_col();
        i += 1;
    }
    r
}

/// A count parameter: 0 means 1.
fn count_param(pn: u16) -> (n: usize)
    ensures
        n == at_least_one(pn),
{
    if pn == 0 {
        1
    } else {
        pn as usize
    }
}

/// A 1-based position parameter made 0-based.
fn position_param(pn: u16) -> (n: usize)
    ensures
        n == less_one(pn),
{
    if pn > 0 {
        (pn - 1) as usize
    } else {
        0
    }
}

impl Engine {
    /// A line feed.
    fn line_feed(&mut self)
        requires
            old(self).wf(),
        ensures
            final(self).wf(),
            final(self)@ == with_state(old(self)@, line_feed(old(self)@.state, old(self)@.cell_sz.h)),
    {
        buffer_scroll_up_if_needed(&mut self.state, self.cell_sz);
        let c = self.state.get_cursor();
        self.state.set_cursor(c.next_row());
    }

    /// Moves the cursor for a cursor-movement function.
    fn move_cursor(&mut self, f: &Function)
        requires
            old(self).wf(),
            moved_cursor(old(self)@.state.cursor, *f) is Some,
        ensures
            final(self).wf(),
            final(self)@ == with_state(
                old(self)@,
                with_cursor(old(self)@.state, moved_cursor(old(self)@.state.cursor, *f).unwrap()),
            ),
    {
        let c = self.state.get_cursor();
        let sz = self.state.get_size();
        let (row, col) = c.pos();
        let c2 = match f {
            Function::CR => c.first_col(),
            Function::BS => c.prev_col(),
            Function::CUU(pn) => {
                let n = count_param(*pn);
                let up = if n < row { n } else { row };
                prev_rows(c, up)
            },
            Function::CUD(pn) => {
                let n = count_param(*pn);
                let room = sz.rows - 1 - row;
                let down = if n < room { n } else { room };
                next_rows(c, down)
            },
            Function::CUF(pn) => {
                let n = count_param(*pn);
                let room = sz.cols - 1 - col;
                let right = if n < room { n } else { room };
                let r = next_cols(c, right as u64);
                assert(right == 0 || c.col + right < c.sz.cols);
                r
            },
            Function::CUB(pn) => {
                let n = count_param(*pn);
                let left = if n < col { n } else { col };
                prev_cols(c, left)
            },
            Function::CUP(pn1, pn2) | Function::HVP(pn1, pn2) => c.exact(position_param(*pn1), position_param(*pn2)),
            Function::CHA(pn) => c.exact(row, position_param(*pn)),
            _ => {
                let pn = match f {
                    Function::VPA(pn) => *pn,
                    _ => 0,
                };
                let p = position_param(pn);
                let r = if p < sz.rows - 1 { p } else { sz.rows - 1 };
                c.exact(r, col)
            },
        };
        self.state.set_cursor(c2);
    }

    /// Carries out SGR with the parameters `ps`.
    fn select_graphic_rendition(&mut self, ps: &Vec<u16>)
        requires
            old(self).wf(),
        ensures
            final(self).wf(),
            final(self)@ == (EngineView { attr: sgr_from(old(self)@.attr, ps@, 0), ..old(self)@ }),
    {
        let ghost a0 = self.attr;
        let mut i: usize = 0;
        while i < ps.len()
            invariant
                i <= ps@.len(),
                sgr_from(a0, ps@, 0) == sgr_from(self.attr, ps@, i as int),
                self@ == (EngineView { attr: self.attr, ..old(self)@ }),
                self.wf() == old(self).wf(),
                old(self).wf(),
            decreases ps@.len() - i,
        {
            let p = ps[i];
            i += 1;
            if (30 <= p && p <= 38) || (90 <= p && p <= 97) {
                if let Some(color) = parse_color(p - 30, ps, &mut i) {
                    self.attr.fg = color;
                }
            } else if (40 <= p && p <= 48) || (100 <= p && p <= 107) {
                if let Some(color) = parse_color(p - 40, ps, &mut i) {
                    self.attr.bg = color;
                }
            } else {
                match p {
                    0 => self.attr = GraphicAttribute::default(),
                    1 => self.attr.bold = 1,
                    2 => self.attr.bold = -1,
                    22 => self.attr.bold = 0,
                    5 => self.attr.blinking = 1,
                    6 => self.attr.blinking = 2,
                    25 => self.attr.blinking = 0,
                    7 => self.attr.inversed = true,
                    27 => self.attr.inversed = false,
                    8 => self.attr.concealed = true,
                    28 => self.attr.concealed = false,
                    70 => self.attr.fg = Color::Special,
                    39 => self.attr.fg = Color::White,
                    80 => self.attr.bg = Color::Special,
                    49 => self.attr.bg = Color::Black,
                    _ => {},
                }
            }
        }
    }

    /// Carries out an erasing function (ED, EL, ECH).
    fn erase(&mut self, f: &Function)
        requires
            old(self).wf(),
            erased_state(old(self)@.state, old(self)@.cell_sz.h, *f) is Some,
        ensures
            final(self).wf(),
            final(self)@ == with_state(
                old(self)@,
                erased_state(old(self)@.state, old(self)@.cell_sz.h, *f).unwrap(),
            ),
    {
        let c = self.state.get_cursor();
        let sz = self.state.get_size();
        let (row, col) = c.pos();
        match f {
            Function::ECH(pn) => {
                let n = count_param(*pn);
                self.state.line_erase(row, col, col + n);
            },
            Function::EL(ps) => {
                if *ps == 0 {
                    self.state.line_erase(row, col, sz.cols);
                } else if *ps == 1 {
                    self.state.line_erase(row, 0, col + 1);
                } else {
                    self.state.line_erase_all(row);
                }
            },
            Function::ED(ps) => {
                if *ps == 0 {
                    self.state.line_erase(row, col, sz.cols);
                    self.state.erase_screen_lines(row + 1, sz.rows);
                    self.state.retain_images(&Keep::EndAbove(row as i64, self.cell_sz.h));
                } else if *ps == 1 {
                    self.state.erase_screen_lines(0, row);
                    self.state.line_erase(row, 0, col + 1);
                    self.state.retain_images(&Keep::StartFrom(row as i64));
                } else {
                    self.state.erase_screen_lines(0, sz.rows);
                    self.state.clear_images();
                }
            },
            _ => {},
        }
    }

    /// ICH: inserts `pn` blank characters at the cursor.
    fn insert_chars(&mut self, pn: u16)
        requires
            old(self).wf(),
        ensures
            final(self).wf(),
            final(self)@ == with_state(old(self)@, chars_inserted(old(self)@.state, pn)),
    {
        let c = self.state.get_cursor();
        let sz = self.state.get_size();
        let (row, col) = c.pos();
        let n = count_param(pn);
        let src = col;
        let dst = if src + n < sz.cols {
            src + n
        } else {
            sz.cols
        };
        let count = sz.cols - dst;
        let ghost st0 = self.state@;
        self.state.line_copy_within(row, src, src + count, dst);
        let ghost l1 = line_copied(st0.lines[row as int], src as int, src + count, dst as int);
        assert(self.state@.lines[row as int] == l1);
        self.state.line_erase(row, src, dst);
        assert(self.state@.lines =~= st0.lines.update(row as int, line_erased(l1, src as int, dst as int)));
    }

    /// DCH: deletes `pn` characters at the cursor.
    fn delete_chars(&mut self, pn: u16)
        requires
            old(self).wf(),
        ensures
            final(self).wf(),
            final(self)@ == with_state(old(self)@, chars_deleted(old(self)@.state, pn)),
    {
        let c = self.state.get_cursor();
        let sz = self.state.get_size();
        let (row, col) = c.pos();
        let n = count_param(pn);
        let src = if col + n < sz.cols {
            col + n
        } else {
            sz.cols
        };
        let dst = col;
        let count = sz.cols - src;
        let ghost st0 = self.state@;
        self.state.line_copy_within(row, src, src + count, dst);
        let ghost l1 = line_copied(st0.lines[row as int], src as int, src + count, dst as int);
        assert(self.state@.lines[row as int] == l1);
        self.state.line_erase(row, dst + count, sz.cols);
        assert(self.state@.lines =~= st0.lines.update(row as int, line_erased(l1, dst + count, sz.cols as int)));
    }

    /// IL: inserts `pn` blank lines at the cursor's row.
    fn insert_lines(&mut self, pn: u16)
        requires
            old(self).wf(),
        ensures
            final(self).wf(),
            final(self)@ == with_state(old(self)@, lines_inserted(old(self)@.state, pn)),
    {
        let c = self.state.get_cursor();
        let sz = self.state.get_size();
        let (row, _) = c.pos();
        let n = count_param(pn);
        let src = row;
        let dst = if row + n < sz.rows {
            row + n
        } else {
            sz.rows
        };
        let count = sz.rows - dst;
        if count > 0 {
            self.state.copy_lines(src, src + count - 1, dst);
        }
        self.state.erase_screen_lines(src, dst);
    }

    /// DL: deletes `pn` lines at the cursor's row.
    fn delete_lines(&mut self, pn: u16)
        requires
            old(self).wf(),
        ensures
            final(self).wf(),
            final(self)@ == with_state(old(self)@, lines_deleted(old(self)@.state, pn)),
    {
        let c = self.state.get_cursor();
        let sz = self.state.get_size();
        let (row, _) = c.pos();
        let n = count_param(pn);
        let src = if row + n < sz.rows {
            row + n
        } else {
            sz.rows
        };
        let dst = row;
        let count = sz.rows - src;
        if count > 0 {
            self.state.copy_lines(src, src + count - 1, dst);
        }
        self.state.erase_screen_lines(dst + count, sz.rows);
    }

    /// The first tabulation stop after column `col`, or the last column.
    fn next_tabstop(&self, col: usize) -> (t: usize)
        requires
            self.wf(),
            col < self@.state.size.cols,
        ensures
            t == next_tab(col as int, self@.state.size.cols as int),
    {
        let cols = self.state.get_size().cols;
        let n = self.tabstops.len();
        let mut i: usize = 0;
        while i < n && self.tabstops[i] < col + 1
            invariant
                i <= n,
                n == self.tabstops@.len(),
                self.tabstops@ == stops(cols as int),
                col < cols,
                i <= col / 8 + 1,
            decreases n - i,
        {
            i += 1;
        }
        if i < n {
            self.tabstops[i]
        } else {
            cols - 1
        }
    }

    /// HT: moves the cursor to the next tabulation stop, filling the columns
    /// passed with a tab character; at the last column, does nothing.
    fn tab(&mut self)
        requires
            old(self).wf(),
        ensures
            final(self).wf(),
            final(self)@ == if old(self)@.state.cursor.col != old(self)@.state.size.cols - 1 {
                with_state(old(self)@, tabbed(old(self)@))
            } else {
                old(self)@
            },
    {
        let c = self.state.get_cursor();
        let sz = self.state.get_size();
        let (row, col) = c.pos();
        if col == sz.cols - 1 {
            return;
        }
        let next = self.next_tabstop(col);
        let advance = next - col;
        let tab = Cell::new('\t', advance as u16, self.attr);
        self.state.line_put(row, col, tab);
        let c2 = next_cols(c, advance as u64);
        self.state.set_cursor(c2);
    }

    /// Writes `ch`, `w` columns wide, at the cursor, wrapping to the next line
    /// first if it does not fit.
    fn put_char(&mut self, ch: char, w: usize)
        requires
            old(self).wf(),
            1 <= w <= old(self)@.state.size.cols,
            w <= 3,
        ensures
            final(self).wf(),
            final(self)@ == with_state(old(self)@, char_written(old(self)@, ch, w as int)),
    {
        let c = self.state.get_cursor();
        let sz = self.state.get_size();
        if c.right_space() < w {
            let (row, col) = c.pos();
            if !c.end {
                self.state.line_erase(row, col, sz.cols);
            }
            self.state.line_set_wrap(row, true);
            buffer_scroll_up_if_needed(&mut self.state, self.cell_sz);
            let c1 = self.state.get_cursor();
            self.state.set_cursor(c1.next_row().first_col());
        }
        let c = self.state.get_cursor();
        let (row, col) = c.pos();
        let cell = Cell::new(ch, w as u16, self.attr);
        self.state.line_put(row, col, cell);
        let c2 = next_cols(c, w as u64);
        self.state.set_cursor(c2);
    }

    /// Places a decoded sixel image (`fin` in the model) at the cursor.
    fn place_image(&mut self, image: sixel::Image, Ghost(fin): Ghost<sixel::DecodeState>)
        requires
            old(self).wf(),
            image.width == fin.width,
            image.height == fin.height,
            image.data@ == fin.data,
            old(self)@.state.mode.sixel_scrolling ==> {
                &&& fin.height >= 1
                &&& fin.width + old(self)@.cell_sz.w - 1 <= u64::MAX
                &&& fin.height + old(self)@.cell_sz.h - 1 <= u64::MAX
            },
        ensures
            final(self).wf(),
            final(self)@ == with_state(old(self)@, sixel_placed(old(self)@, fin)),
    {
        let c = self.state.get_cursor();
        let (cursor_row, cursor_col) = c.pos();
        let cell_w = self.cell_sz.w as u64;
        let cell_h = self.cell_sz.h as u64;
        let scrolling = self.state.get_mode().sixel_scrolling;
        let (row, col): (i64, i64) = if scrolling {
            (cursor_row as i64, cursor_col as i64)
        } else {
            (0, 0)
        };
        let width = image.width;
        let height = image.height;
        assert(scrolling == old(self)@.state.mode.sixel_scrolling);
        assert(cell_w == old(self)@.cell_sz.w && cell_h == old(self)@.cell_sz.h);
        let new_image = PositionedImage { row, col, width, height, data: image.data };
        self.state.retain_images(&Keep::Uncovered(row, col, height, width));
        self.state.push_image(new_image);
        if scrolling {
            let advance_h = (width + (cell_w - 1)) / cell_w;
            assert((height + (cell_h - 1)) as int / (cell_h as int) >= 1) by (nonlinear_arith)
                requires
                    height >= 1,
                    cell_h >= 1,
            ;
            let advance_v = (height + (cell_h - 1)) / cell_h - 1;
            let c1 = self.state.get_cursor();
            self.state.set_cursor(next_cols(c1, advance_h));
            let ghost st1 = self.state@;
            let ghost v0 = self@;
            let mut i: u64 = 0;
            while i < advance_v
                invariant
                    i <= advance_v,
                    self.wf(),
                    self@ == with_state(v0, line_feeds(st1, self.cell_sz.h, i as nat)),
                    v0.cell_sz == self.cell_sz,
                decreases advance_v - i,
            {
                self.line_feed();
                i += 1;
            }
        }
    }

    /// Switches to the alternative screen (`on`) or back.
    fn switch_screen(&mut self, on: bool)
        requires
            old(self).wf(),
        ensures
            final(self).wf(),
            final(self)@ == screen_switched(old(self)@, on),
    {
        if on {
            self.saved_cursor = self.state.get_cursor();
            self.saved_attr = self.attr;
            self.state.clear_alt_screen();
            self.state.swap_screen_buffers();
        } else {
            self.state.set_cursor(self.saved_cursor);
            self.attr = self.saved_attr;
            self.state.swap_screen_buffers();
        }
    }

    /// Sets (`on`) or resets a private mode.
    fn set_private_mode(&mut self, ps: u16, on: bool)
        requires
            old(self).wf(),
        ensures
            final(self).wf(),
            final(self)@ == private_mode(old(self)@, ps, on),
    {
        if ps == 1049 {
            self.switch_screen(on);
        } else {
            let mut m = self.state.get_mode();
            match ps {
                25 => m.cursor_visible = on,
                80 => m.sixel_scrolling = on,
                1000 | 1002 => m.mouse_track = on,
                1006 => m.sgr_ext_mouse_track = on,
                2004 => m.bracketed_paste = on,
                _ => {},
            }
            self.state.set_mode(m);
        }
    }

    /// Carries out `f`, which the parser yielded as the outcome `o` with the
    /// sixel color registers `colors`; appends the reply to the program, if
    /// any, to `replies`.
    fn apply(
        &mut self,
        f: Function,
        Ghost(o): Ghost<Out>,
        Ghost(colors): Ghost<Seq<sixel::Color>>,
        replies: &mut Vec<u8>,
    )
        requires
            old(self).wf(),
            control_function::yields(Some(f), o, colors),
            out_ok(o),
            act_ok(old(self)@, o, colors),
            !too_wide(old(self)@, o),
        ensures
            final(self).wf(),
            final(self)@ == act(old(self)@, o, colors).0,
            final(replies)@ == old(replies)@ + act(old(self)@, o, colors).1,
    {
        reveal(act);
        match f {
            Function::LF | Function::VT | Function::FF => {
                self.line_feed();
                assert(replies@ =~= old(replies)@ + Seq::<u8>::empty());
            },
            Function::HT => {
                self.tab();
                assert(replies@ =~= old(replies)@ + Seq::<u8>::empty());
            },
            Function::DECSC => {
                self.saved_cursor = self.state.get_cursor();
                self.saved_attr = self.attr;
                assert(replies@ =~= old(replies)@ + Seq::<u8>::empty());
            },
            Function::DECRC => {
                self.state.set_cursor(self.saved_cursor);
                self.attr = self.saved_attr;
                assert(replies@ =~= old(replies)@ + Seq::<u8>::empty());
            },
            Function::DSR(ps) => {
                if ps == 5 {
                    replies.push(0x1Bu8);
                    replies.push(0x5Bu8);
                    replies.push(0x30u8);
                    replies.push(0x6Eu8);
                    assert(replies@ =~= old(replies)@ + seq![0x1Bu8, 0x5Bu8, 0x30u8, 0x6Eu8]);
                } else {
                    let (row, col) = self.state.get_cursor().pos();
                    replies.push(0x1Bu8);
                    replies.push(0x5Bu8);
                    push_decimal(replies, row + 1);
                    replies.push(0x3Bu8);
                    push_decimal(replies, col + 1);
                    replies.push(0x52u8);
                    assert(replies@ =~= old(replies)@ + position_report(row as nat, col as nat));
                }
            },
            Function::GraphicChar(ch) => {
                let w = if self.ambiguous_wide {
                    char_width_cjk(ch)
                } else {
                    char_width(ch)
                };
                match w {
                    Some(w) => {
                        if w >= 1 {
                            self.put_char(ch, w);
                        }
                    },
                    None => {},
                }
                assert(replies@ =~= old(replies)@ + Seq::<u8>::empty());
            },
            Function::SGR(ps) => {
                self.select_graphic_rendition(&ps);
                assert(replies@ =~= old(replies)@ + Seq::<u8>::empty());
            },
            Function::SixelImage(image) => {
                let ghost chars = o->Sixel_0;
                self.place_image(image, Ghost(decoded(chars, colors)));
                assert(replies@ =~= old(replies)@ + Seq::<u8>::empty());
            },
            Function::SelectCursorStyle(ps) => {
                let mut c = self.state.get_cursor();
                if ps == 2 {
                    c.style = CursorStyle::Block;
                } else if ps == 4 {
                    c.style = CursorStyle::Underline;
                } else if ps == 6 {
                    c.style = CursorStyle::Bar;
                }
                self.state.set_cursor(c);
                assert(replies@ =~= old(replies)@ + Seq::<u8>::empty());
            },
            Function::SM(p, ps) => {
                if p == 0x3F {
                    self.set_private_mode(ps, true);
                }
                assert(replies@ =~= old(replies)@ + Seq::<u8>::empty());
            },
            Function::RM(p, ps) => {
                if p == 0x3F {
                    self.set_private_mode(ps, false);
                }
                assert(replies@ =~= old(replies)@ + Seq::<u8>::empty());
            },
            Function::CR | Function::BS | Function::CUU(_) | Function::CUD(_) | Function::CUF(_)
            | Function::CUB(_) | Function::CUP(_, _) | Function::HVP(_, _) | Function::CHA(_) | Function::VPA(_) => {
                self.move_cursor(&f);
                assert(replies@ =~= old(replies)@ + Seq::<u8>::empty());
            },
            Function::ECH(_) | Function::EL(_) | Function::ED(_) => {
                self.erase(&f);
                assert(replies@ =~= old(replies)@ + Seq::<u8>::empty());
            },
            Function::ICH(pn) => {
                self.insert_chars(pn);
                assert(replies@ =~= old(replies)@ + Seq::<u8>::empty());
            },
            Function::DCH(pn) => {
                self.delete_chars(pn);
                assert(replies@ =~= old(replies)@ + Seq::<u8>::empty());
            },
            Function::IL(pn) => {
                self.insert_lines(pn);
                assert(replies@ =~= old(replies)@ + Seq::<u8>::empty());
            },
            Function::DL(pn) => {
                self.delete_lines(pn);
                assert(replies@ =~= old(replies)@ + Seq::<u8>::empty());
            },
            _ => {
                assert(replies@ =~= old(replies)@ + Seq::<u8>::empty());
            },
        }
    }

    /// Whether `process` may be called on `input` (`run_ok`): no sixel image
    /// in it fails to decode (a color in the HLS system, or a size that
    /// overflows) or, with sixel scrolling, is too large or empty.  It feeds
    /// a copy of the parser; the engine does not change.
    pub fn process_ok(&self, input: &str) -> (b: bool)
        requires
            self.wf(),
        ensures
            b == run_ok(touched(self@), input@),
    {
        let chars = chars_of(input);
        let n = chars.len();
        let mut parser = self.parser.duplicate();
        let mut scrolling = self.state.get_mode().sixel_scrolling;
        let cols = self.state.get_size().cols;
        let cell_w = self.cell_sz.w;
        let cell_h = self.cell_sz.h;
        let ghost mut g = touched(self@);
        let mut i: usize = 0;
        assert(input@.subrange(0, n as int) =~= input@);
        while i < n
            invariant
                i <= n,
                chars@ == input@,
                n == chars@.len(),
                parser.view() == g.parser,
                parser.wf(),
                scrolling == g.state.mode.sixel_scrolling,
                g.state.size == self@.state.size,
                g.cell_sz == self@.cell_sz,
                g.ambiguous_wide == self@.ambiguous_wide,
                cols == self@.state.size.cols,
                cell_w == self@.cell_sz.w,
                cell_h == self@.cell_sz.h,
                cell_w >= 1,
                cell_h >= 1,
                self.ambiguous_wide == self@.ambiguous_wide,
                run_ok(touched(self@), input@) == run_ok(g, input@.subrange(i as int, n as int)),
            decreases n - i,
        {
            let ch = chars[i];
            let ghost rest = input@.subrange(i as int, n as int);
            assert(rest[0] == ch);
            assert(rest.drop_first() =~= input@.subrange(i + 1, n as int));
            if !parser.can_feed(ch) {
                return false;
            }
            let ghost colors = g.parser.colors;
            let ghost o = control_function::step(g.parser, ch).1;
            let ghost v1 = EngineView { parser: control_function::step(g.parser, ch).0, ..g };
            let f = parser.feed(ch);
            match f {
                None => {
                    proof {
                        reveal(act);
                        lemma_act_keeps_frame(v1, o, colors);
                        g = act(v1, o, colors).0;
                    }
                },
                Some(f) => {
                    if let Function::GraphicChar(c) = f {
                        let w = if self.ambiguous_wide {
                            char_width_cjk(c)
                        } else {
                            char_width(c)
                        };
                        if let Some(w) = w {
                            if w > cols {
                                assert(too_wide(v1, o));
                                return true;
                            }
                        }
                    }
                    assert(!too_wide(v1, o));
                    if let Function::SixelImage(img) = &f {
                        if scrolling {
                            if !(img.height >= 1 && img.width as u128 + cell_w as u128 - 1 <= u64::MAX as u128
                                && img.height as u128 + cell_h as u128 - 1 <= u64::MAX as u128) {
                                assert(!act_ok(v1, o, colors));
                                return false;
                            }
                        }
                    }
                    match f {
                        Function::SM(p, ps) => {
                            if p == 0x3F && ps == 80 {
                                scrolling = true;
                            }
                        },
                        Function::RM(p, ps) => {
                            if p == 0x3F && ps == 80 {
                                scrolling = false;
                            }
                        },
                        _ => {},
                    }
                    proof {
                        lemma_act_keeps_frame(v1, o, colors);
                        g = act(v1, o, colors).0;
                    }
                },
            }
            i += 1;
        }
        true
    }

    /// Feeds the output `input` of the program to the terminal: marks the
    /// screen as changed, then parses the characters and carries out each
    /// function they complete.  Returns the bytes to write back to the
    /// program (reports it asked for), and the character that stopped the
    /// input because it is wider than the screen, if one did.
    pub fn process(&mut self, input: &str) -> (r: (Vec<u8>, Option<char>))
        requires
            old(self).wf(),
            run_ok(touched(old(self)@), input@),
        ensures
            final(self).wf(),
            kept_valid(old(self)@, final(self)@),
            (final(self)@, r.0@, r.1) == run(touched(old(self)@), input@),
    {
        self.state.set_updated();
        assert(self@ == touched(old(self)@));
        proof {
            lemma_run_keeps_frame(touched(old(self)@), input@);
        }
        let chars = chars_of(input);
        let ghost all = chars@;
        let n = chars.len();
        let mut replies: Vec<u8> = Vec::new();
        let mut i: usize = 0;
        assert(all.subrange(0, n as int) =~= all);
        assert(run(touched(old(self)@), all).1 =~= replies@ + run(touched(old(self)@), all).1);
        while i < n
            invariant
                i <= n,
                n == all.len(),
                chars@ == all,
                all == input@,
                self.wf(),
                run_ok(self@, all.subrange(i as int, n as int)),
                run(touched(old(self)@), all) == ({
                    let (vf, of, rf) = run(self@, all.subrange(i as int, n as int));
                    (vf, replies@ + of, rf)
                }),
            decreases n - i,
        {
            let ch = chars[i];
            let ghost rest = all.subrange(i as int, n as int);
            assert(rest[0] == ch);
            assert(rest.drop_first() =~= all.subrange(i + 1, n as int));
            let ghost v = self@;
            let ghost colors = v.parser.colors;
            let ghost o = control_function::step(v.parser, ch).1;
            proof {
                lemma_step_out_ok(v.parser, ch);
            }
            let ghost before = replies@;
            let f = self.parser.feed(ch);
            let ghost v1 = self@;
            assert(v1 == EngineView { parser: control_function::step(v.parser, ch).0, ..v });
            i += 1;
            match f {
                None => {
                    proof {
                        reveal(act);
                        assert(o is Nothing);
                        assert(act(v1, o, colors) == (v1, Seq::<u8>::empty()));
                        let (v3, out3, r3) = run(v1, all.subrange(i as int, n as int));
                        assert(replies@ + (Seq::<u8>::empty() + out3) =~= replies@ + out3);
                    }
                },
                Some(f) => {
                    if let Function::GraphicChar(c) = f {
                        let w = if self.ambiguous_wide {
                            char_width_cjk(c)
                        } else {
                            char_width(c)
                        };
                        if let Some(w) = w {
                            if w > self.state.get_size().cols {
                                assert(too_wide(self@, o));
                                proof {
                                    lemma_run_keeps_frame(touched(old(self)@), input@);
                                }
                                return (replies, Some(ch));
                            }
                        }
                    }
                    self.apply(f, Ghost(o), Ghost(colors), &mut replies);
                    proof {
                        let (v2, out) = act(v1, o, colors);
                        let (v3, out3, r3) = run(v2, all.subrange(i as int, n as int));
                        assert(before + (out + out3) =~= (before + out) + out3);
                    }
                },
            }
        }
        (replies, None)
    }
}

} // verus!
