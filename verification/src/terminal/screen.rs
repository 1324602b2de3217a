//! The screen: the visible lines, the alternative screen, the scroll-back
//! history, the images and the cursor.

use vstd::prelude::*;

use std::collections::VecDeque;

use super::cursor::{origin, Cursor};
use super::line::{blank_line, cells_wf, copied_cells, erased, head, put_cells, resized_cells, Line, LineView};
use super::{default_mode, Cell, CellSize, Color, CursorStyle, ImageView, Mode, PositionedImage, TerminalSize};
use crate::utils::extension::{deque_elem_mut, GetMutPair};

verus! {

/// Number of lines kept in the scroll-back history.
pub const HISTORY_CAPACITY: usize = 10000;

/// The views of `ls`, in order.
pub open spec fn views(ls: Seq<Line>) -> Seq<LineView> {
    ls.map_values(|l: Line| l@)
}

/// The views of the images `is`, in order.
pub open spec fn image_views(is: Seq<PositionedImage>) -> Seq<ImageView> {
    is.map_values(|i: PositionedImage| i@)
}

/// The views of the lines `ls` refers to, in order.
pub open spec fn ref_views(ls: Seq<&Line>) -> Seq<LineView> {
    ls.map_values(|l: &Line| l@)
}

/// Every line is well formed and `cols` cells long.
pub open spec fn lines_wf(ls: Seq<LineView>, cols: int) -> bool {
    forall|i: int| 0 <= i < ls.len() ==> cells_wf(#[trigger] ls[i].cells) && ls[i].cells.len() == cols
}

/// The line `l` resized to `cols` cells.
pub open spec fn resized_line(l: LineView, cols: int) -> LineView {
    LineView { cells: resized_cells(l.cells, cols), wraps: l.wraps }
}

/// Every line of `ls` resized to `cols` cells.
pub open spec fn resized_lines(ls: Seq<LineView>, cols: int) -> Seq<LineView> {
    ls.map_values(|l: LineView| resized_line(l, cols))
}

/// `ls` cut or extended with blank lines to `rows` lines, each resized to `cols` cells.
pub open spec fn refit_lines(ls: Seq<LineView>, rows: int, cols: int) -> Seq<LineView> {
    Seq::new(
        rows as nat,
        |i: int|
            if i < ls.len() {
                resized_line(ls[i], cols)
            } else {
                blank_line(cols as nat)
            },
    )
}

/// The contents of the terminal.
#[derive(Debug, Clone)]
pub struct State {
    history: VecDeque<Line>,
    lines: VecDeque<Line>,
    alt_lines: VecDeque<Line>,
    images: Vec<PositionedImage>,
    alt_images: Vec<PositionedImage>,
    cursor: Cursor,
    pub size: TerminalSize,
    pub history_size: usize,
    pub mode: Mode,
    pub updated: bool,
    pub closed: bool,
}

/// The terminal as a value.
pub struct StateView {
    pub history: Seq<LineView>,
    pub lines: Seq<LineView>,
    pub alt_lines: Seq<LineView>,
    pub images: Seq<ImageView>,
    pub alt_images: Seq<ImageView>,
    pub cursor: Cursor,
    pub size: TerminalSize,
    pub history_size: usize,
    pub mode: Mode,
    pub updated: bool,
    pub closed: bool,
}

/// The screen has a row and a column; every line, in the history and on
/// both screens, is well formed and as long as the screen is wide; both
/// screens have as many lines as the screen is high; the history holds
/// `HISTORY_CAPACITY` lines of which `history_size` are in use; the cursor
/// lies on the screen.
pub open spec fn state_wf(v: StateView) -> bool {
    &&& v.size.rows >= 1
    &&& v.size.cols >= 1
    &&& v.size.rows <= isize::MAX
    &&& v.size.cols <= isize::MAX
    &&& v.lines.len() == v.size.rows
    &&& v.alt_lines.len() == v.size.rows
    &&& v.history.len() == HISTORY_CAPACITY
    &&& v.history_size <= HISTORY_CAPACITY
    &&& lines_wf(v.lines, v.size.cols as int)
    &&& lines_wf(v.alt_lines, v.size.cols as int)
    &&& lines_wf(v.history, v.size.cols as int)
    &&& v.cursor.wf()
    &&& v.cursor.sz == v.size
}

impl View for State {
    type V = StateView;

    closed spec fn view(&self) -> StateView {
        StateView {
            history: views(self.history@),
            lines: views(self.lines@),
            alt_lines: views(self.alt_lines@),
            images: image_views(self.images@),
            alt_images: image_views(self.alt_images@),
            cursor: self.cursor,
            size: self.size,
            history_size: self.history_size,
            mode: self.mode,
            updated: self.updated,
            closed: self.closed,
        }
    }
}

impl State {
    /// See `state_wf`.
    pub open spec fn wf(self) -> bool {
        state_wf(self@)
    }
}

/// `n` blank lines of `cols` cells.
fn blank_lines(n: usize, cols: usize) -> (d: VecDeque<Line>)
    ensures
        views(d@) == Seq::new(n as nat, |i: int| blank_line(cols as nat)),
        lines_wf(views(d@), cols as int),
{
    let mut d: VecDeque<Line> = VecDeque::new();
    let mut i: usize = 0;
    while i < n
        invariant
            i <= n,
            d@.len() == i,
            views(d@) == Seq::new(i as nat, |k: int| blank_line(cols as nat)),
            lines_wf(views(d@), cols as int),
        decreases n - i,
    {
        let l = Line::new(cols);
        assert(l@ == blank_line(cols as nat));
        let ghost before = d@;
        d.push_back(l);
        i += 1;
        assert(d@ == before.push(l));
        assert forall|k: int| 0 <= k < i implies #[trigger] views(d@)[k] == blank_line(cols as nat) by {
            if k < i - 1 {
                assert(d@[k] == before[k]);
                assert(views(before)[k] == before[k]@);
            }
        }
        assert(views(d@) =~= Seq::new(i as nat, |k: int| blank_line(cols as nat)));
    }
    d
}

impl State {
    /// A terminal of `sz` cells, blank, with an empty history, the cursor
    /// at the top left corner.
    pub fn new(sz: TerminalSize) -> (s: Self)
        requires
            sz.rows > 0,
            sz.cols > 0,
            sz.rows <= isize::MAX,
            sz.cols <= isize::MAX,
        ensures
            s.wf(),
            s@ == (StateView {
                history: Seq::new(HISTORY_CAPACITY as nat, |i: int| blank_line(sz.cols as nat)),
                lines: Seq::new(sz.rows as nat, |i: int| blank_line(sz.cols as nat)),
                alt_lines: Seq::new(sz.rows as nat, |i: int| blank_line(sz.cols as nat)),
                images: Seq::empty(),
                alt_images: Seq::empty(),
                cursor: origin(sz),
                size: sz,
                history_size: 0,
                mode: default_mode(),
                updated: true,
                closed: false,
            }),
    {
        let history = blank_lines(HISTORY_CAPACITY, sz.cols);
        let lines = blank_lines(sz.rows, sz.cols);
        let alt_lines = blank_lines(sz.rows, sz.cols);
        let images: Vec<PositionedImage> = Vec::new();
        let alt_images: Vec<PositionedImage> = Vec::new();
        assert(image_views(images@) =~= Seq::<ImageView>::empty());
        assert(image_views(alt_images@) =~= Seq::<ImageView>::empty());
        State {
            history,
            lines,
            alt_lines,
            images,
            alt_images,
            cursor: Cursor::new(sz),
            size: sz,
            history_size: 0,
            mode: Mode::default(),
            updated: true,
            closed: false,
        }
    }
}

/// Lines `[top, bot)` of the history followed by the screen, where row 0 is
/// the top of the screen and row -1 the newest history line; the range is cut
/// to the lines there are.
pub open spec fn range_lines(v: StateView, top: int, bot: int) -> Seq<LineView> {
    let h = v.history.len() as int;
    let l = v.lines.len() as int;
    let t = if top > -h { top } else { -h };
    let b = if bot < l { bot } else { l };
    (v.history + v.lines).subrange(h + t, h + b)
}

/// `ls` with the lines `src_first..=src_last` copied to the lines from
/// `dst_first` on, as many as fit.
pub open spec fn lines_copied(ls: Seq<LineView>, src_first: int, src_last: int, dst_first: int) -> Seq<LineView> {
    let n = src_last - src_first + 1;
    let room = ls.len() - dst_first;
    let copies = if n < room { n } else { room };
    Seq::new(
        ls.len(),
        |i: int| if dst_first <= i < dst_first + copies { ls[src_first + (i - dst_first)] } else { ls[i] },
    )
}

/// `ls` with the lines in `[from, to)` blanked.
pub open spec fn blank_between(ls: Seq<LineView>, from: int, to: int) -> Seq<LineView> {
    Seq::new(
        ls.len(),
        |i: int| if from <= i < to { blank_line(ls[i].cells.len()) } else { ls[i] },
    )
}

/// Blanks every line of `d` in `[from, to)`.
fn erase_lines(d: &mut VecDeque<Line>, from: usize, to: usize)
    requires
        from <= to <= old(d)@.len(),
    ensures
        views(final(d)@) == blank_between(views(old(d)@), from as int, to as int),
        final(d)@.len() == old(d)@.len(),
        forall|cols: int| lines_wf(views(old(d)@), cols) ==> lines_wf(views(final(d)@), cols),
{
    let ghost orig = views(d@);
    let mut i = from;
    while i < to
        invariant
            from <= i <= to,
            to <= d@.len(),
            d@.len() == orig.len(),
            views(d@) == blank_between(orig, from as int, i as int),
        decreases to - i,
    {
        let ghost before = d@;
        let l = deque_elem_mut(d, i);
        l.erase_all();
        proof {
            assert(views(d@) =~= blank_between(orig, from as int, i + 1)) by {
                assert forall|k: int| 0 <= k < orig.len() implies #[trigger] views(d@)[k]
                    == blank_between(orig, from as int, i + 1)[k] by {
                    assert(views(before)[k] == before[k]@);
                }
            }
        }
        i += 1;
    }
    proof {
        assert forall|cols: int| lines_wf(orig, cols) implies lines_wf(views(d@), cols) by {
            assert forall|k: int| 0 <= k < views(d@).len() implies cells_wf(#[trigger] views(d@)[k].cells)
                && views(d@)[k].cells.len() == cols by {
                if from <= k < to {
                    assert(orig[k].cells.len() == cols);
                    lemma_blank_wf(cols as nat);
                }
            }
        }
    }
}

/// A blank line is well formed.
pub proof fn lemma_blank_wf(n: nat)
    ensures
        cells_wf(blank_line(n).cells),
{
    reveal(cells_wf);
}

/// Resizes every line of `d` to `cols` cells.
fn resize_lines(d: &mut VecDeque<Line>, cols: usize)
    requires
        cols >= 1,
        forall|i: int| 0 <= i < old(d)@.len() ==> cells_wf(#[trigger] views(old(d)@)[i].cells),
    ensures
        views(final(d)@) == resized_lines(views(old(d)@), cols as int),
        lines_wf(views(final(d)@), cols as int),
{
    let ghost orig = views(d@);
    let n = d.len();
    let mut i: usize = 0;
    while i < n
        invariant
            i <= n,
            n == d@.len(),
            d@.len() == orig.len(),
            cols >= 1,
            forall|k: int| 0 <= k < orig.len() ==> cells_wf(#[trigger] orig[k].cells),
            forall|k: int|
                0 <= k < orig.len() ==> #[trigger] views(d@)[k] == if k < i {
                    resized_line(orig[k], cols as int)
                } else {
                    orig[k]
                },
        decreases n - i,
    {
        let ghost before = d@;
        assert(views(before)[i as int] == before[i as int]@);
        let l = deque_elem_mut(d, i);
        l.resize(cols);
        proof {
            assert forall|k: int| 0 <= k < orig.len() implies #[trigger] views(d@)[k] == if k < i + 1 {
                resized_line(orig[k], cols as int)
            } else {
                orig[k]
            } by {
                assert(views(before)[k] == before[k]@);
            }
        }
        i += 1;
    }
    proof {
        assert(views(d@) =~= resized_lines(orig, cols as int));
        assert forall|k: int| 0 <= k < views(d@).len() implies cells_wf(#[trigger] views(d@)[k].cells)
            && views(d@)[k].cells.len() == cols by {
            super::line::lemma_resized_wf(orig[k].cells, cols as int);
        }
    }
}

/// Cuts `d` to `rows` lines or extends it with blank lines of `cols` cells.
fn refit(d: &mut VecDeque<Line>, rows: usize, cols: usize)
    requires
        cols >= 1,
        forall|i: int| 0 <= i < old(d)@.len() ==> cells_wf(#[trigger] views(old(d)@)[i].cells),
    ensures
        views(final(d)@) == refit_lines(views(old(d)@), rows as int, cols as int),
        lines_wf(views(final(d)@), cols as int),
        final(d)@.len() == rows,
{
    let ghost orig = views(d@);
    if rows <= d.len() {
        d.truncate(rows);
    } else {
        while d.len() < rows
            invariant
                orig.len() <= d@.len() <= rows,
                forall|k: int|
                    0 <= k < d@.len() ==> #[trigger] views(d@)[k] == if k < orig.len() {
                        orig[k]
                    } else {
                        blank_line(cols as nat)
                    },
            decreases rows - d@.len(),
        {
            let ghost before = d@;
            d.push_back(Line::new(cols));
            proof {
                assert forall|k: int| 0 <= k < d@.len() implies #[trigger] views(d@)[k] == if k < orig.len() {
                    orig[k]
                } else {
                    blank_line(cols as nat)
                } by {
                    if k < before.len() {
                        assert(views(before)[k] == before[k]@);
                    }
                }
            }
        }
    }
    let ghost mid = views(d@);
    proof {
        assert forall|k: int| 0 <= k < mid.len() implies cells_wf(#[trigger] mid[k].cells) by {
            if k < orig.len() {
                assert(mid[k] == orig[k]);
            } else {
                lemma_blank_wf(cols as nat);
            }
        }
    }
    resize_lines(d, cols);
    proof {
        assert forall|k: int| 0 <= k < rows implies #[trigger] views(d@)[k] == refit_lines(orig, rows as int, cols as int)[k] by {
            if k >= orig.len() {
                lemma_resized_blank(cols as nat);
            }
        }
        assert(views(d@) =~= refit_lines(orig, rows as int, cols as int));
    }
}

/// Resizing a blank line to its own length changes nothing.
proof fn lemma_resized_blank(n: nat)
    ensures
        resized_line(blank_line(n), n as int) == blank_line(n),
{
    assert(resized_cells(blank_line(n).cells, n as int) =~= blank_line(n).cells);
}

impl State {
    /// The cursor's row, the column of the head of the character under it,
    /// and its style.
    pub fn cursor(&self) -> (r: (usize, usize, CursorStyle))
        requires
            self.wf(),
        ensures
            r.0 == self@.cursor.row,
            r.1 == head(self@.lines[self@.cursor.row as int].cells, self@.cursor.col as int),
            r.2 == self@.cursor.style,
    {
        let (row, col) = self.cursor.pos();
        assert(self.lines@[row as int]@ == self@.lines[row as int]);
        let col = self.lines[row].get_head_pos(col);
        (row, col, self.cursor.style)
    }

    /// Forgets the scroll-back history.
    pub fn clear_history(&mut self)
        requires
            old(self).wf(),
        ensures
            final(self).wf(),
            final(self)@ == (StateView {
                history_size: 0,
                history: Seq::new(HISTORY_CAPACITY as nat, |i: int| blank_line(old(self)@.size.cols as nat)),
                ..old(self)@
            }),
    {
        self.history_size = 0;
        let n = self.history.len();
        let ghost cols = self.size.cols as int;
        erase_lines(&mut self.history, 0, n);
        proof {
            assert(self@.history =~= Seq::new(HISTORY_CAPACITY as nat, |i: int| blank_line(cols as nat)));
        }
    }

    /// The lines from row `top` to row `bot` (excluded); see `range_lines`.
    pub fn range(&self, top: isize, bot: isize) -> (r: Vec<&Line>)
        requires
            self.wf(),
            ({
                let h = self@.history.len() as int;
                let l = self@.lines.len() as int;
                (if top > -h { top as int } else { -h }) <= (if bot < l { bot as int } else { l })
            }),
        ensures
            ref_views(r@) == range_lines(self@, top as int, bot as int),
    {
        let buff_len = self.lines.len() as isize;
        let hist_len = self.history.len() as isize;
        let ghost all = self@.history + self@.lines;
        let ghost want = range_lines(self@, top as int, bot as int);
        let mut r: Vec<&Line> = Vec::new();
        let (hist_from, hist_to, lines_from, lines_to): (usize, usize, usize, usize) = if top >= 0 {
            let b = if bot < buff_len { bot } else { buff_len };
            (0, 0, top as usize, b as usize)
        } else if bot < 0 {
            let t = if hist_len + top > 0 { hist_len + top } else { 0 };
            (t as usize, (hist_len + bot) as usize, 0, 0)
        } else {
            let t = if hist_len + top > 0 { hist_len + top } else { 0 };
            let b = if bot < buff_len { bot } else { buff_len };
            (t as usize, hist_len as usize, 0, b as usize)
        };
        let mut i = hist_from;
        while i < hist_to
            invariant
                hist_from <= i <= hist_to <= self.history@.len(),
                r@.len() == i - hist_from,
                forall|k: int| 0 <= k < r@.len() ==> (#[trigger] r@[k])@ == self.history@[hist_from + k]@,
            decreases hist_to - i,
        {
            let l = &self.history[i];
            assert(*l == self.history@[i as int]);
            r.push(l);
            i += 1;
        }
        let mut j = lines_from;
        while j < lines_to
            invariant
                lines_from <= j <= lines_to <= self.lines@.len(),
                hist_from <= hist_to <= self.history@.len(),
                r@.len() == (hist_to - hist_from) + (j - lines_from),
                forall|k: int| 0 <= k < hist_to - hist_from ==> (#[trigger] r@[k])@ == self.history@[hist_from + k]@,
                forall|k: int|
                    hist_to - hist_from <= k < r@.len() ==> (#[trigger] r@[k])@ == self.lines@[lines_from + k - (hist_to - hist_from)]@,
            decreases lines_to - j,
        {
            let l = &self.lines[j];
            assert(*l == self.lines@[j as int]);
            r.push(l);
            j += 1;
        }
        proof {
            assert(ref_views(r@) =~= want) by {
                assert forall|k: int| 0 <= k < want.len() implies #[trigger] ref_views(r@)[k] == want[k] by {
                    if k < hist_to - hist_from {
                        assert(views(self.history@)[hist_from + k] == self.history@[hist_from + k]@);
                    } else {
                        assert(views(self.lines@)[lines_from + k - (hist_to - hist_from)] == self.lines@[lines_from + k - (hist_to - hist_from)]@);
                    }
                }
            }
        }
        r
    }

    /// The images on the screen.
    pub fn images(&self) -> (r: &Vec<PositionedImage>)
        ensures
            image_views(r@) == self@.images,
    {
        &self.images
    }

    /// Swaps the screen with the alternative screen, images included.
    pub(crate) fn swap_screen_buffers(&mut self)
        requires
            old(self).wf(),
        ensures
            final(self).wf(),
            final(self)@ == (StateView {
                lines: old(self)@.alt_lines,
                alt_lines: old(self)@.lines,
                images: old(self)@.alt_images,
                alt_images: old(self)@.images,
                ..old(self)@
            }),
    {
        std::mem::swap(&mut self.lines, &mut self.alt_lines);
        std::mem::swap(&mut self.images, &mut self.alt_images);
    }

    /// Changes the size of the screen to `sz`: the cursor is cut to the new
    /// screen, every line is resized, and the screens gain blank lines or
    /// lose their last ones.
    pub(crate) fn resize(&mut self, sz: TerminalSize)
        requires
            old(self).wf(),
            sz.rows >= 1,
            sz.cols >= 1,
            sz.rows <= isize::MAX,
            sz.cols <= isize::MAX,
        ensures
            final(self).wf(),
            final(self)@ == (StateView {
                size: sz,
                cursor: (Cursor { sz, ..old(self)@.cursor }).exact_spec(old(self)@.cursor.row, old(self)@.cursor.col),
                history: resized_lines(old(self)@.history, sz.cols as int),
                lines: refit_lines(old(self)@.lines, sz.rows as int, sz.cols as int),
                alt_lines: refit_lines(old(self)@.alt_lines, sz.rows as int, sz.cols as int),
                ..old(self)@
            }),
    {
        self.size = sz;
        let (row, col) = self.cursor.pos();
        self.cursor.sz = sz;
        self.cursor = self.cursor.exact(row, col);
        resize_lines(&mut self.history, sz.cols);
        refit(&mut self.lines, sz.rows, sz.cols);
        refit(&mut self.alt_lines, sz.rows, sz.cols);
    }

    /// Scrolls the screen up by one line: its top line becomes the newest
    /// history line, the oldest history line is dropped, and a blank line
    /// appears at the bottom.
    pub(crate) fn scroll_up(&mut self)
        requires
            old(self).wf(),
        ensures
            final(self).wf(),
            final(self)@ == (StateView {
                history: old(self)@.history.subrange(1, HISTORY_CAPACITY as int).push(old(self)@.lines[0]),
                lines: old(self)@.lines.subrange(1, old(self)@.lines.len() as int).push(
                    blank_line(old(self)@.size.cols as nat),
                ),
                history_size: if old(self)@.history_size + 1 < HISTORY_CAPACITY {
                    (old(self)@.history_size + 1) as usize
                } else {
                    HISTORY_CAPACITY
                },
                ..old(self)@
            }),
    {
        let ghost h0 = self.history@;
        let ghost l0 = self.lines@;
        let line = self.lines.pop_front().unwrap();
        self.history.push_back(line);
        self.history_size = if self.history_size + 1 < HISTORY_CAPACITY {
            self.history_size + 1
        } else {
            HISTORY_CAPACITY
        };
        let mut line = self.history.pop_front().unwrap();
        assert(views(h0)[0] == h0[0]@);
        line.erase_all();
        self.lines.push_back(line);
        proof {
            let cols = self.size.cols;
            assert(self@.history =~= views(h0).subrange(1, HISTORY_CAPACITY as int).push(views(l0)[0]));
            assert(self@.lines =~= views(l0).subrange(1, l0.len() as int).push(blank_line(cols as nat)));
            lemma_blank_wf(cols as nat);
        }
    }

    /// Copies the lines `src_first..=src_last` to the lines from `dst_first`
    /// on, as many as fit on the screen.
    pub(crate) fn copy_lines(&mut self, src_first: usize, src_last: usize, dst_first: usize)
        requires
            old(self).wf(),
            src_first <= src_last < old(self)@.size.rows,
            dst_first <= old(self)@.size.rows,
            src_first != dst_first,
        ensures
            final(self).wf(),
            final(self)@ == (StateView {
                lines: lines_copied(old(self)@.lines, src_first as int, src_last as int, dst_first as int),
                ..old(self)@
            }),
    {
        let ghost orig = self@.lines;
        let rows = self.size.rows;
        let src_count = src_last - src_first + 1;
        let room = self.size.rows - dst_first;
        let copies = if src_count < room {
            src_count
        } else {
            room
        };
        let ghost want = Seq::new(
            orig.len(),
            |i: int|
                if dst_first <= i < dst_first + copies {
                    orig[src_first + (i - dst_first)]
                } else {
                    orig[i]
                },
        );
        if dst_first < src_first {
            let mut i: usize = 0;
            while i < copies
                invariant
                    i <= copies,
                    dst_first < src_first,
                    orig.len() == rows,
                    self.history == old(self).history,
                    self.alt_lines == old(self).alt_lines,
                    self.images == old(self).images,
                    self.alt_images == old(self).alt_images,
                    self.cursor == old(self).cursor,
                    self.size == old(self).size,
                    self.history_size == old(self).history_size,
                    self.mode == old(self).mode,
                    self.updated == old(self).updated,
                    self.closed == old(self).closed,
                    src_first + copies <= orig.len(),
                    dst_first + copies <= orig.len(),
                    self.lines@.len() == orig.len(),
                    forall|k: int|
                        0 <= k < orig.len() ==> #[trigger] views(self.lines@)[k] == if dst_first <= k
                            < dst_first + i {
                            orig[src_first + (k - dst_first)]
                        } else {
                            orig[k]
                        },
                decreases copies - i,
            {
                let ghost before = self.lines@;
                assert(views(before)[(src_first + i) as int] == before[(src_first + i) as int]@);
                let (src, dst) = self.lines.get_mut_pair(src_first + i, dst_first + i);
                dst.copy_from(src);
                proof {
                    assert forall|k: int| 0 <= k < orig.len() implies #[trigger] views(self.lines@)[k]
                        == if dst_first <= k < dst_first + i + 1 {
                        orig[src_first + (k - dst_first)]
                    } else {
                        orig[k]
                    } by {
                        assert(views(before)[k] == before[k]@);
                    }
                }
                i += 1;
            }
        } else {
            let mut i: usize = copies;
            while i > 0
                invariant
                    i <= copies,
                    dst_first > src_first,
                    orig.len() == rows,
                    self.history == old(self).history,
                    self.alt_lines == old(self).alt_lines,
                    self.images == old(self).images,
                    self.alt_images == old(self).alt_images,
                    self.cursor == old(self).cursor,
                    self.size == old(self).size,
                    self.history_size == old(self).history_size,
                    self.mode == old(self).mode,
                    self.updated == old(self).updated,
                    self.closed == old(self).closed,
                    src_first + copies <= orig.len(),
                    dst_first + copies <= orig.len(),
                    self.lines@.len() == orig.len(),
                    forall|k: int|
                        0 <= k < orig.len() ==> #[trigger] views(self.lines@)[k] == if dst_first + i <= k
                            < dst_first + copies {
                            orig[src_first + (k - dst_first)]
                        } else {
                            orig[k]
                        },
                decreases i,
            {
                i -= 1;
                let ghost before = self.lines@;
                assert(views(before)[(src_first + i) as int] == before[(src_first + i) as int]@);
                let (src, dst) = self.lines.get_mut_pair(src_first + i, dst_first + i);
                dst.copy_from(src);
                proof {
                    assert forall|k: int| 0 <= k < orig.len() implies #[trigger] views(self.lines@)[k]
                        == if dst_first + i <= k < dst_first + copies {
                        orig[src_first + (k - dst_first)]
                    } else {
                        orig[k]
                    } by {
                        assert(views(before)[k] == before[k]@);
                    }
                }
            }
        }
        proof {
            assert(self@.lines =~= want);
            assert forall|k: int| 0 <= k < want.len() implies cells_wf(#[trigger] want[k].cells)
                && want[k].cells.len() == self.size.cols by {
                if dst_first <= k < dst_first + copies {
                    assert(orig[src_first + (k - dst_first)] == orig[src_first + (k - dst_first)]);
                }
            }
        }
    }
}

/// The parameter at `i` of `ps` and the index after it; past the end,
/// nothing and `i` itself.
pub open spec fn next_param(ps: Seq<u16>, i: int) -> (Option<u16>, int) {
    if 0 <= i < ps.len() {
        (Some(ps[i]), i + 1)
    } else {
        (None, i)
    }
}

/// An opaque color from its red, green and blue components, packed as
/// `0xRRGGBBFF` (components wider than a byte are cut by the shifts).
pub open spec fn rgba(r: u32, g: u32, b: u32) -> u32 {
    (r << 24u32) | (g << 16u32) | (b << 8u32) | 0xFFu32
}

/// The basic color with SGR offset `p` (0 to 7, bright 60 to 67).
pub open spec fn basic_color(p: u16) -> Option<Color> {
    match p {
        0 => Some(Color::Black),
        1 => Some(Color::Red),
        2 => Some(Color::Green),
        3 => Some(Color::Yellow),
        4 => Some(Color::Blue),
        5 => Some(Color::Magenta),
        6 => Some(Color::Cyan),
        7 => Some(Color::White),
        60 => Some(Color::BrightBlack),
        61 => Some(Color::BrightRed),
        62 => Some(Color::BrightGreen),
        63 => Some(Color::BrightYellow),
        64 => Some(Color::BrightBlue),
        65 => Some(Color::BrightMagenta),
        66 => Some(Color::BrightCyan),
        67 => Some(Color::BrightWhite),
        _ => None,
    }
}

/// Entry `idx` of the 256-color palette: the 16 basic colors, a 6x6x6 color
/// cube, then 24 grays.
pub open spec fn palette_color(idx: u16) -> Color {
    if idx < 8 {
        basic_color(idx).unwrap()
    } else if idx < 16 {
        basic_color((idx + 52) as u16).unwrap()
    } else if idx < 232 {
        let x = (idx - 16) as u32;
        Color::Rgb {
            rgba: rgba(((x / 36) % 6 * 51) as u32, ((x / 6) % 6 * 51) as u32, (x % 6 * 51) as u32),
        }
    } else {
        let v = ((idx - 232) * 11) as u32;
        Color::Rgb { rgba: rgba(v, v, v) }
    }
}

/// The color selected by SGR offset `prefix` whose further parameters start
/// at `i` of `ps`, and the index after the parameters it reads: `8;2;r;g;b`
/// is a direct color, `8;5;n` a palette entry.
pub open spec fn color_from(prefix: u16, ps: Seq<u16>, i: int) -> (Option<Color>, int) {
    if prefix != 8 {
        (basic_color(prefix), i)
    } else {
        let (kind, i1) = next_param(ps, i);
        match kind {
            Some(2) => {
                let (r, i2) = next_param(ps, i1);
                let (g, i3) = next_param(ps, i2);
                let (b, i4) = next_param(ps, i3);
                if r is Some && g is Some && b is Some {
                    (
                        Some(
                            Color::Rgb {
                                rgba: rgba(r.unwrap() as u32, g.unwrap() as u32, b.unwrap() as u32),
                            },
                        ),
                        i4,
                    )
                } else {
                    (None, i4)
                }
            },
            Some(5) => {
                let (n, i2) = next_param(ps, i1);
                if n is Some && n.unwrap() <= 255 {
                    (Some(palette_color(n.unwrap())), i2)
                } else {
                    (None, i2)
                }
            },
            _ => (None, i1),
        }
    }
}

/// The next parameter, moving `i` past it.
fn next_param_exec(ps: &Vec<u16>, i: &mut usize) -> (r: Option<u16>)
    requires
        *old(i) <= ps@.len(),
    ensures
        (r, *final(i) as int) == next_param(ps@, *old(i) as int),
        *final(i) <= ps@.len(),
{
    if *i < ps.len() {
        let v = ps[*i];
        *i = *i + 1;
        Some(v)
    } else {
        None
    }
}

/// Reads a color after an SGR parameter (`prefix` is the parameter minus 30
/// or 40) from the parameters at `*i` of `ps`.
pub fn parse_color(prefix: u16, ps: &Vec<u16>, i: &mut usize) -> (c: Option<Color>)
    requires
        prefix <= 8 || 60 <= prefix <= 67,
        *old(i) <= ps@.len(),
    ensures
        (c, *final(i) as int) == color_from(prefix, ps@, *old(i) as int),
        *final(i) <= ps@.len(),
{
    match prefix {
        0 => Some(Color::Black),
        1 => Some(Color::Red),
        2 => Some(Color::Green),
        3 => Some(Color::Yellow),
        4 => Some(Color::Blue),
        5 => Some(Color::Magenta),
        6 => Some(Color::Cyan),
        7 => Some(Color::White),
        60 => Some(Color::BrightBlack),
        61 => Some(Color::BrightRed),
        62 => Some(Color::BrightGreen),
        63 => Some(Color::BrightYellow),
        64 => Some(Color::BrightBlue),
        65 => Some(Color::BrightMagenta),
        66 => Some(Color::BrightCyan),
        67 => Some(Color::BrightWhite),
        _ => {
            match next_param_exec(ps, i) {
                Some(2) => {
                    let r = next_param_exec(ps, i);
                    let g = next_param_exec(ps, i);
                    let b = next_param_exec(ps, i);
                    if let (Some(r), Some(g), Some(b)) = (r, g, b) {
                        let (r, g, b) = (r as u32, g as u32, b as u32);
                        Some(Color::Rgb { rgba: (r << 24u32) | (g << 16u32) | (b << 8u32) | 0xFF })
                    } else {
                        None
                    }
                },
                Some(5) => {
                    match next_param_exec(ps, i) {
                        Some(idx) => {
                            if idx <= 255 {
                                Some(palette(idx))
                            } else {
                                None
                            }
                        },
                        None => None,
                    }
                },
                _ => None,
            }
        },
    }
}

/// Entry `idx` of the 256-color palette.
fn palette(idx: u16) -> (c: Color)
    requires
        idx <= 255,
    ensures
        c == palette_color(idx),
{
    match idx {
        0 => Color::Black,
        1 => Color::Red,
        2 => Color::Green,
        3 => Color::Yellow,
        4 => Color::Blue,
        5 => Color::Magenta,
        6 => Color::Cyan,
        7 => Color::White,
        8 => Color::BrightBlack,
        9 => Color::BrightRed,
        10 => Color::BrightGreen,
        11 => Color::BrightYellow,
        12 => Color::BrightBlue,
        13 => Color::BrightMagenta,
        14 => Color::BrightCyan,
        15 => Color::BrightWhite,
        _ => {
            if idx < 232 {
                let mut x = (idx - 16) as u32;
                let b = (x % 6) * 51;
                x /= 6;
                let g = (x % 6) * 51;
                x /= 6;
                let r = (x % 6) * 51;
                proof {
                    let x0 = (idx - 16) as u32;
                    assert(x0 / 6 / 6 == x0 / 36) by (nonlinear_arith);
                }
                Color::Rgb { rgba: (r << 24u32) | (g << 16u32) | (b << 8u32) | 0xFF }
            } else {
                let x = (idx - 232) as u32;
                let v = x * 11;
                Color::Rgb { rgba: (v << 24u32) | (v << 16u32) | (v << 8u32) | 0xFF }
            }
        },
    }
}

/// The rows of cells that `img` spans, counted from its top row.
pub open spec fn rows_spanned(img: ImageView, cell_h: u32) -> int {
    ((img.height as u32) as int + cell_h - 1) / (cell_h as int)
}

/// The rows `img` spans, computed as `rows_spanned` says.
fn spanned(img: &PositionedImage, cell_h: u32) -> (n: i128)
    requires
        cell_h >= 1,
    ensures
        n == rows_spanned(img@, cell_h),
{
    let h = (img.height as u32) as u64 + cell_h as u64 - 1;
    (h / cell_h as u64) as i128
}

/// Which images to keep.
pub enum Keep {
    /// Those not yet scrolled off the top of the screen whole, for cells
    /// this many pixels high.
    OnScreen(u32),
    /// Those that end above this row, for cells `.1` pixels high.
    EndAbove(i64, u32),
    /// Those that start at this row or below.
    StartFrom(i64),
    /// Those that do not lie within the rectangle of this image
    /// (row, col, height, width).
    Uncovered(i64, i64, u64, u64),
}

/// `img` is kept by `k`.
pub open spec fn keeps(k: Keep, img: ImageView) -> bool {
    match k {
        Keep::OnScreen(cell_h) => -rows_spanned(img, cell_h) < img.row,
        Keep::EndAbove(row, cell_h) => img.row + rows_spanned(img, cell_h) <= row,
        Keep::StartFrom(row) => img.row >= row,
        Keep::Uncovered(row, col, height, width) => !super::covers(
            ImageView { row, col, height, width, data: img.data },
            img,
        ),
    }
}

/// `k` can be checked on every image that `images_wf` allows.
pub open spec fn keep_ok(k: Keep) -> bool {
    match k {
        Keep::OnScreen(cell_h) => cell_h >= 1,
        Keep::EndAbove(_, cell_h) => cell_h >= 1,
        Keep::StartFrom(_) => true,
        Keep::Uncovered(..) => true,
    }
}

/// Whether `k` keeps `img`.
fn keeps_exec(k: &Keep, img: &PositionedImage) -> (b: bool)
    requires
        keep_ok(*k),
    ensures
        b == keeps(*k, img@),
{
    match k {
        Keep::OnScreen(cell_h) => -spanned(img, *cell_h) < img.row as i128,
        Keep::EndAbove(row, cell_h) => img.row as i128 + spanned(img, *cell_h) <= *row as i128,
        Keep::StartFrom(row) => img.row >= *row,
        Keep::Uncovered(row, col, height, width) => {
            let (row, col, height, width) = (*row as i128, *col as i128, *height as i128, *width as i128);
            !(row <= img.row as i128 && col <= img.col as i128
                && img.row as i128 + img.height as i128 <= row + height
                && img.col as i128 + img.width as i128 <= col + width)
        },
    }
}

/// Keeps the images of `v` that `k` keeps, in order.
fn filter_images(v: &mut Vec<PositionedImage>, k: &Keep)
    requires
        keep_ok(*k),
    ensures
        image_views(final(v)@) == image_views(old(v)@).filter(|img: ImageView| keeps(*k, img)),
        images_wf(image_views(old(v)@)) ==> images_wf(image_views(final(v)@)),
{
    let ghost orig = image_views(v@);
    let ghost p = |img: ImageView| keeps(*k, img);
    let mut rest: Vec<PositionedImage> = Vec::new();
    std::mem::swap(v, &mut rest);
    let mut i: usize = 0;
    let n = rest.len();
    assert(orig.subrange(0, 0).filter(p) =~= Seq::<ImageView>::empty()) by {
        reveal(Seq::filter);
    }
    assert(image_views(v@) =~= Seq::<ImageView>::empty());
    while i < n
        invariant
            i <= n,
            n == orig.len(),
            keep_ok(*k),
            rest@.len() == n - i,
            forall|j: int| 0 <= j < n - i ==> (#[trigger] rest@[j])@ == orig[i + j],
            image_views(v@) == orig.subrange(0, i as int).filter(p),
            p == (|img: ImageView| keeps(*k, img)),
        decreases n - i,
    {
        let ghost before = v@;
        let img = rest.remove(0);
        assert(img@ == orig[i as int]);
        let b = keeps_exec(k, &img);
        proof {
            assert(orig.subrange(0, i + 1) =~= orig.subrange(0, i as int).push(img@));
            orig.subrange(0, i as int).lemma_filter_push(img@, p);
        }
        if b {
            v.push(img);
            assert(image_views(v@) =~= image_views(before).push(img@));
        }
        i += 1;
    }
    assert(orig.subrange(0, n as int) =~= orig);
    proof {
        if images_wf(orig) {
            let w = image_views(v@);
            assert forall|j: int| 0 <= j < w.len() implies -0x100_0000_0000 <= (#[trigger] w[j]).row by {
                assert(orig.filter(p).contains(w[j]));
                orig.lemma_filter_contains_rev(p, w[j]);
            }
        }
    }
}

/// The terminal after the screen scrolled one line up: the images move up one
/// row and those that left the screen whole are dropped.
pub open spec fn scrolled(v: StateView, cell_h: u32) -> StateView {
    StateView {
        history: v.history.subrange(1, HISTORY_CAPACITY as int).push(v.lines[0]),
        lines: v.lines.subrange(1, v.lines.len() as int).push(blank_line(v.size.cols as nat)),
        history_size: if v.history_size + 1 < HISTORY_CAPACITY {
            (v.history_size + 1) as usize
        } else {
            HISTORY_CAPACITY
        },
        images: v.images.map_values(|img: ImageView| ImageView { row: (img.row - 1) as i64, ..img }).filter(
            |img: ImageView| keeps(Keep::OnScreen(cell_h), img),
        ),
        ..v
    }
}

/// The terminal after a line feed at the cursor: scrolled if the cursor is on
/// the last row, unchanged otherwise.
pub open spec fn scrolled_if_needed(v: StateView, cell_h: u32) -> StateView {
    if v.cursor.row + 1 == v.cursor.sz.rows {
        scrolled(v, cell_h)
    } else {
        v
    }
}

/// No image lies `2^40` rows or more above the screen.
pub open spec fn images_wf(imgs: Seq<ImageView>) -> bool {
    forall|i: int| 0 <= i < imgs.len() ==> -0x100_0000_0000 <= (#[trigger] imgs[i]).row
}

/// Scrolls the screen up if the cursor is on its last row.
pub fn buffer_scroll_up_if_needed(state: &mut State, cell_sz: CellSize)
    requires
        old(state).wf(),
        cell_sz.h >= 1,
        images_wf(old(state)@.images),
    ensures
        final(state).wf(),
        final(state)@ == scrolled_if_needed(old(state)@, cell_sz.h),
        images_wf(final(state)@.images),
{
    if state.cursor.row + 1 == state.cursor.sz.rows {
        state.scroll_up();
        let ghost mid = state@;
        let ghost before = image_views(state.images@);
        let n = state.images.len();
        let mut i: usize = 0;
        while i < n
            invariant
                i <= n,
                n == before.len(),
                state.images@.len() == n,
                images_wf(before),
                forall|k: int|
                    0 <= k < n ==> #[trigger] state.images@[k]@ == if k < i {
                        ImageView { row: (before[k].row - 1) as i64, ..before[k] }
                    } else {
                        before[k]
                    },
                state@ == (StateView { images: state@.images, ..mid }),
            decreases n - i,
        {
            let r = state.images[i].row;
            assert(before[i as int] == before[i as int]);
            assert(state.images@[i as int]@ == before[i as int]);
            state.images[i].row = r - 1;
            assert(state@.images =~= image_views(state.images@));
            i += 1;
        }
        let ghost moved = image_views(state.images@);
        assert(moved =~= before.map_values(|img: ImageView| ImageView { row: (img.row - 1) as i64, ..img }));
        let cell_h = cell_sz.h;
        filter_images(&mut state.images, &Keep::OnScreen(cell_h));
        proof {
            let p = |img: ImageView| keeps(Keep::OnScreen(cell_h), img);
            let w = image_views(state.images@);
            assert(w =~= scrolled_if_needed(old(state)@, cell_sz.h).images);
            assert forall|k: int| 0 <= k < w.len() implies -0x100_0000_0000 <= (#[trigger] w[k]).row by {
                let img = w[k];
                moved.lemma_filter_pred(p, k);
                assert(rows_spanned(img, cell_h) <= 0x2_0000_0000) by {
                    let hh: u32 = #[verifier::truncate] (img.height as u32);
                    let x = hh as int + cell_h - 1;
                    assert(rows_spanned(img, cell_h) == x / (cell_h as int));
                    assert(x / (cell_h as int) <= x) by (nonlinear_arith)
                        requires
                            x >= 0,
                            cell_h >= 1,
                    ;
                }
            }
        }
    }
}

/// The cells `[s, e)` cut to a line of `n` cells.
pub open spec fn cut(x: int, n: int) -> int {
    if x < n { x } else { n }
}

/// The line `row` of the screen after blanking the characters met by `[s, e)`.
pub open spec fn line_erased(l: LineView, s: int, e: int) -> LineView {
    LineView { cells: erased(l.cells, cut(s, l.cells.len() as int), cut(e, l.cells.len() as int)), wraps: l.wraps }
}

/// The number of cells that `copy_within(src_start, src_end, dst)` copies on
/// a line of `len` cells.
pub open spec fn copy_count(len: int, src_start: int, src_end: int, dst: int) -> int {
    let s = cut(src_start, len);
    let e = cut(src_end, len);
    let n = if e > s { e - s } else { 0 };
    if n < len - dst { n } else { len - dst }
}

/// The line after `copy_within(src_start, src_end, dst)`.
pub open spec fn line_copied(l: LineView, src_start: int, src_end: int, dst: int) -> LineView {
    let len = l.cells.len() as int;
    let count = copy_count(len, src_start, src_end, dst);
    LineView {
        cells: if count == 0 { l.cells } else { copied_cells(l.cells, cut(src_start, len), count, dst) },
        wraps: l.wraps,
    }
}

/// The terminal with line `row` of the screen replaced by `l`.
pub open spec fn with_line(v: StateView, row: int, l: LineView) -> StateView {
    StateView { lines: v.lines.update(row, l), ..v }
}

impl State {
    /// The cursor.
    pub(crate) fn get_cursor(&self) -> (c: Cursor)
        ensures
            c == self@.cursor,
    {
        self.cursor
    }

    /// Moves the cursor.
    pub(crate) fn set_cursor(&mut self, c: Cursor)
        requires
            old(self).wf(),
            c.wf(),
            c.sz == old(self)@.size,
        ensures
            final(self).wf(),
            final(self)@ == (StateView { cursor: c, ..old(self)@ }),
    {
        self.cursor = c;
    }

    /// The modes.
    pub(crate) fn get_mode(&self) -> (m: Mode)
        ensures
            m == self@.mode,
    {
        self.mode
    }

    /// Changes the modes.
    pub(crate) fn set_mode(&mut self, m: Mode)
        requires
            old(self).wf(),
        ensures
            final(self).wf(),
            final(self)@ == (StateView { mode: m, ..old(self)@ }),
    {
        self.mode = m;
    }

    /// Marks the contents as changed.
    pub(crate) fn set_updated(&mut self)
        requires
            old(self).wf(),
        ensures
            final(self).wf(),
            final(self)@ == (StateView { updated: true, ..old(self)@ }),
    {
        self.updated = true;
    }

    /// The size of the screen.
    pub(crate) fn get_size(&self) -> (sz: TerminalSize)
        ensures
            sz == self@.size,
    {
        self.size
    }

    /// Blanks the characters of line `row` met by the cells `[s, e)`.
    pub(crate) fn line_erase(&mut self, row: usize, s: usize, e: usize)
        requires
            old(self).wf(),
            row < old(self)@.size.rows,
        ensures
            final(self).wf(),
            final(self)@ == with_line(old(self)@, row as int, line_erased(old(self)@.lines[row as int], s as int, e as int)),
    {
        let ghost before = self.lines@;
        assert(views(before)[row as int] == before[row as int]@);
        let l = deque_elem_mut(&mut self.lines, row);
        l.erase(s, e);
        proof {
            assert(self@.lines =~= views(before).update(row as int, line_erased(views(before)[row as int], s as int, e as int)));
        }
    }

    /// Blanks line `row` whole and clears its wrap mark.
    pub(crate) fn line_erase_all(&mut self, row: usize)
        requires
            old(self).wf(),
            row < old(self)@.size.rows,
        ensures
            final(self).wf(),
            final(self)@ == with_line(old(self)@, row as int, blank_line(old(self)@.size.cols as nat)),
    {
        let ghost before = self.lines@;
        assert(views(before)[row as int] == before[row as int]@);
        let l = deque_elem_mut(&mut self.lines, row);
        l.erase_all();
        proof {
            assert(self@.lines =~= views(before).update(row as int, blank_line(self.size.cols as nat)));
            lemma_blank_wf(self.size.cols as nat);
        }
    }

    /// Writes `cell` at column `at` of line `row`.
    pub(crate) fn line_put(&mut self, row: usize, at: usize, cell: Cell)
        requires
            old(self).wf(),
            row < old(self)@.size.rows,
            cell.backlink == 0,
            1 <= cell.width,
            at + cell.width <= old(self)@.size.cols,
        ensures
            final(self).wf(),
            final(self)@ == with_line(
                old(self)@,
                row as int,
                LineView {
                    cells: put_cells(old(self)@.lines[row as int].cells, at as int, cell),
                    wraps: old(self)@.lines[row as int].wraps,
                },
            ),
    {
        let ghost before = self.lines@;
        assert(views(before)[row as int] == before[row as int]@);
        let l = deque_elem_mut(&mut self.lines, row);
        l.put(at, cell);
        proof {
            assert(self@.lines =~= views(before).update(
                row as int,
                LineView { cells: put_cells(views(before)[row as int].cells, at as int, cell), wraps: views(before)[row as int].wraps },
            ));
        }
    }

    /// Copies cells within line `row`; see `Line::copy_within`.
    pub(crate) fn line_copy_within(&mut self, row: usize, src_start: usize, src_end: usize, dst: usize)
        requires
            old(self).wf(),
            row < old(self)@.size.rows,
            dst <= old(self)@.size.cols,
        ensures
            final(self).wf(),
            final(self)@ == with_line(
                old(self)@,
                row as int,
                line_copied(old(self)@.lines[row as int], src_start as int, src_end as int, dst as int),
            ),
    {
        let ghost before = self.lines@;
        assert(views(before)[row as int] == before[row as int]@);
        let l = deque_elem_mut(&mut self.lines, row);
        l.copy_within(src_start, src_end, dst);
        proof {
            assert(self@.lines =~= views(before).update(
                row as int,
                line_copied(views(before)[row as int], src_start as int, src_end as int, dst as int),
            ));
        }
    }

    /// Marks whether the text of line `row` goes on in the next line.
    pub(crate) fn line_set_wrap(&mut self, row: usize, b: bool)
        requires
            old(self).wf(),
            row < old(self)@.size.rows,
        ensures
            final(self).wf(),
            final(self)@ == with_line(
                old(self)@,
                row as int,
                LineView { wraps: b, ..old(self)@.lines[row as int] },
            ),
    {
        let ghost before = self.lines@;
        assert(views(before)[row as int] == before[row as int]@);
        let l = deque_elem_mut(&mut self.lines, row);
        l.set_linewrap(b);
        proof {
            assert(self@.lines =~= views(before).update(row as int, LineView { wraps: b, ..views(before)[row as int] }));
        }
    }

    /// Blanks the lines `[from, to)` of the screen.
    pub(crate) fn erase_screen_lines(&mut self, from: usize, to: usize)
        requires
            old(self).wf(),
            from <= to <= old(self)@.size.rows,
        ensures
            final(self).wf(),
            final(self)@ == (StateView { lines: blank_between(old(self)@.lines, from as int, to as int), ..old(self)@ }),
    {
        erase_lines(&mut self.lines, from, to);
    }

    /// Blanks the alternative screen and drops its images.
    pub(crate) fn clear_alt_screen(&mut self)
        requires
            old(self).wf(),
        ensures
            final(self).wf(),
            final(self)@ == (StateView {
                alt_lines: blank_between(old(self)@.alt_lines, 0, old(self)@.size.rows as int),
                alt_images: Seq::empty(),
                ..old(self)@
            }),
    {
        let n = self.alt_lines.len();
        erase_lines(&mut self.alt_lines, 0, n);
        self.alt_images.clear();
        assert(image_views(self.alt_images@) =~= Seq::<ImageView>::empty());
    }

    /// Keeps the images that `k` keeps.
    pub(crate) fn retain_images(&mut self, k: &Keep)
        requires
            old(self).wf(),
            keep_ok(*k),
        ensures
            final(self).wf(),
            final(self)@ == (StateView {
                images: old(self)@.images.filter(|img: ImageView| keeps(*k, img)),
                ..old(self)@
            }),
            images_wf(old(self)@.images) ==> images_wf(final(self)@.images),
    {
        filter_images(&mut self.images, k);
    }

    /// Drops every image of the screen.
    pub(crate) fn clear_images(&mut self)
        requires
            old(self).wf(),
        ensures
            final(self).wf(),
            final(self)@ == (StateView { images: Seq::empty(), ..old(self)@ }),
    {
        self.images.clear();
        assert(image_views(self.images@) =~= Seq::<ImageView>::empty());
    }

    /// Places `img` on the screen, above the others.
    pub(crate) fn push_image(&mut self, img: PositionedImage)
        requires
            old(self).wf(),
        ensures
            final(self).wf(),
            final(self)@ == (StateView { images: old(self)@.images.push(img@), ..old(self)@ }),
    {
        let ghost before = self.images@;
        self.images.push(img);
        assert(image_views(self.images@) =~= image_views(before).push(img@));
    }
}

} // verus!
