//! A line of the screen: a row of cells that always holds whole characters.

use vstd::prelude::*;

use super::{space_cell, term_cell, void_cell, Cell};

verus! {

/// Index of the head cell of the character that covers cell `i`.
pub open spec fn head(cs: Seq<Cell>, i: int) -> int {
    i - cs[i].backlink
}

/// The cells hold whole characters: every head cell (backlink 0) is at least
/// one column wide and fits in the line, the cells it covers are of width 0
/// and link back to it, and every other cell links back to a head that covers it.
#[verifier::opaque]
pub open spec fn cells_wf(cs: Seq<Cell>) -> bool {
    &&& forall|h: int|
        0 <= h < cs.len() && (#[trigger] cs[h]).backlink == 0 ==> 1 <= cs[h].width && h
            + cs[h].width <= cs.len()
    &&& forall|h: int, j: int|
        0 <= h < j < cs.len() && (#[trigger] cs[h]).backlink == 0 && j < h + cs[h].width ==> (
        #[trigger] cs[j]).backlink == j - h && cs[j].width == 0
    &&& forall|i: int|
        0 <= i < cs.len() && (#[trigger] cs[i]).backlink > 0 ==> cs[i].backlink <= i && cs[i
            - cs[i].backlink].backlink == 0 && cs[i - cs[i].backlink].width > cs[i].backlink
}

/// Cell `j`'s character has a cell in `[s, e)`.
pub open spec fn meets(cs: Seq<Cell>, j: int, s: int, e: int) -> bool {
    let h = head(cs, j);
    s < e && h < e && h + cs[h].width > s
}

/// The cells with every character that has a cell in `[s, e)` replaced by blanks.
pub open spec fn erased(cs: Seq<Cell>, s: int, e: int) -> Seq<Cell> {
    Seq::new(cs.len(), |j: int| if meets(cs, j, s, e) { space_cell() } else { cs[j] })
}

/// The cells with `c` written at `at`, the cells it covers marked as covered,
/// and every character it overlapped blanked.
pub open spec fn put_cells(cs: Seq<Cell>, at: int, c: Cell) -> Seq<Cell> {
    Seq::new(
        cs.len(),
        |j: int|
            if j == at {
                c
            } else if at < j < at + c.width {
                void_cell((j - at) as u16)
            } else {
                erased(cs, at, at + c.width)[j]
            },
    )
}

/// Facts about the character that covers cell `j`.
pub proof fn lemma_head(cs: Seq<Cell>, j: int)
    requires
        cells_wf(cs),
        0 <= j < cs.len(),
    ensures
        0 <= head(cs, j) <= j,
        cs[head(cs, j)].backlink == 0,
        1 <= cs[head(cs, j)].width,
        head(cs, j) + cs[head(cs, j)].width <= cs.len(),
        j < head(cs, j) + cs[head(cs, j)].width,
        forall|k: int|
            head(cs, j) <= k < head(cs, j) + cs[head(cs, j)].width ==> #[trigger] head(cs, k)
                == head(cs, j),
{
    reveal(cells_wf);
    let h = head(cs, j);
    assert(cs[j] == cs[j]);
    assert(cs[h] == cs[h]);
    assert forall|k: int| h <= k < h + cs[h].width implies #[trigger] head(cs, k) == h by {
        assert(cs[k] == cs[k]);
    }
}

/// Blanking whole characters keeps the cells well formed.
pub proof fn lemma_erased_wf(cs: Seq<Cell>, s: int, e: int)
    requires
        cells_wf(cs),
    ensures
        cells_wf(erased(cs, s, e)),
        erased(cs, s, e).len() == cs.len(),
{
    reveal(cells_wf);
    let r = erased(cs, s, e);
    assert forall|h: int|
        0 <= h < r.len() && (#[trigger] r[h]).backlink == 0 implies 1 <= r[h].width && h
            + r[h].width <= r.len() by {
        lemma_head(cs, h);
    }
    assert forall|h: int, j: int|
        0 <= h < j < r.len() && (#[trigger] r[h]).backlink == 0 && j < h
            + r[h].width implies (#[trigger] r[j]).backlink == j - h && r[j].width == 0 by {
        lemma_head(cs, h);
        lemma_head(cs, j);
    }
    assert forall|i: int|
        0 <= i < r.len() && (#[trigger] r[i]).backlink > 0 implies r[i].backlink <= i && r[i
            - r[i].backlink].backlink == 0 && r[i - r[i].backlink].width > r[i].backlink by {
        lemma_head(cs, i);
        lemma_head(cs, head(cs, i));
    }
}

/// Blanking the characters met by `[s, i)` and then the one at `i` is
/// blanking those met by `[s, i + 1)`.
proof fn lemma_erase_step(cs: Seq<Cell>, s: int, i: int)
    requires
        cells_wf(cs),
        0 <= s <= i < cs.len(),
    ensures
        erased(erased(cs, s, i), i, i + 1) =~= erased(cs, s, i + 1),
{
    let c1 = erased(cs, s, i);
    assert forall|j: int| 0 <= j < cs.len() implies #[trigger] erased(c1, i, i + 1)[j] == erased(
        cs,
        s,
        i + 1,
    )[j] by {
        lemma_head(cs, j);
        lemma_head(cs, head(cs, j));
    }
}

/// Blanking the character at `at` blanks exactly its cells.
proof fn lemma_erase_at_result(cs: Seq<Cell>, at: int)
    requires
        cells_wf(cs),
        0 <= at < cs.len(),
    ensures
        erased(cs, at, at + 1) =~= Seq::new(
            cs.len(),
            |j: int|
                if head(cs, at) <= j < head(cs, at) + cs[head(cs, at)].width {
                    space_cell()
                } else {
                    cs[j]
                },
        ),
{
    lemma_head(cs, at);
    assert forall|j: int| 0 <= j < cs.len() implies #[trigger] erased(cs, at, at + 1)[j] == (
    if head(cs, at) <= j < head(cs, at) + cs[head(cs, at)].width {
        space_cell()
    } else {
        cs[j]
    }) by {
        lemma_head(cs, j);
    }
}

/// The cells of a line resized to `n` cells: cut, or extended with
/// end-of-line cells, and a character cut in two blanked.
pub open spec fn resized_cells(cs: Seq<Cell>, n: int) -> Seq<Cell> {
    Seq::new(
        n as nat,
        |j: int|
            if j >= cs.len() {
                term_cell()
            } else if head(cs, j) + cs[head(cs, j)].width > n {
                space_cell()
            } else {
                cs[j]
            },
    )
}

/// Resizing a line to its own width changes nothing, and widening it then
/// narrowing it back gives it back as it was.
pub proof fn lemma_resize_round_trip(cs: Seq<Cell>, m: int)
    requires
        cells_wf(cs),
        m >= cs.len(),
    ensures
        resized_cells(cs, cs.len() as int) == cs,
        resized_cells(resized_cells(cs, m), cs.len() as int) == cs,
{
    let n = cs.len() as int;
    let wide = resized_cells(cs, m);
    assert forall|j: int| 0 <= j < n implies #[trigger] resized_cells(cs, n)[j] == cs[j] && wide[j] == cs[j] by {
        lemma_head(cs, j);
    }
    assert(resized_cells(cs, n) =~= cs);
    assert forall|j: int| 0 <= j < n implies #[trigger] resized_cells(wide, n)[j] == cs[j] by {
        lemma_head(cs, j);
        let h = head(cs, j);
        assert(wide[j] == cs[j]);
        assert(wide[h] == cs[h]);
        assert(head(wide, j) == h);
    }
    assert(resized_cells(wide, n) =~= cs);
}

/// Resizing keeps the cells well formed.
pub proof fn lemma_resized_wf(cs: Seq<Cell>, n: int)
    requires
        cells_wf(cs),
        n >= 0,
    ensures
        cells_wf(resized_cells(cs, n)),
{
    reveal(cells_wf);
    let r = resized_cells(cs, n);
    assert forall|h: int|
        0 <= h < r.len() && (#[trigger] r[h]).backlink == 0 implies 1 <= r[h].width && h
            + r[h].width <= r.len() by {
        if h < cs.len() {
            lemma_head(cs, h);
        }
    }
    assert forall|h: int, j: int|
        0 <= h < j < r.len() && (#[trigger] r[h]).backlink == 0 && j < h
            + r[h].width implies (#[trigger] r[j]).backlink == j - h && r[j].width == 0 by {
        if h < cs.len() {
            lemma_head(cs, h);
            if j < cs.len() {
                lemma_head(cs, j);
            }
        }
    }
    assert forall|i: int|
        0 <= i < r.len() && (#[trigger] r[i]).backlink > 0 implies r[i].backlink <= i && r[i
            - r[i].backlink].backlink == 0 && r[i - r[i].backlink].width > r[i].backlink by {
        if i < cs.len() {
            lemma_head(cs, i);
            lemma_head(cs, head(cs, i));
        }
    }
}

/// Writing a character keeps the cells well formed.
pub proof fn lemma_put_wf(cs: Seq<Cell>, at: int, c: Cell)
    requires
        cells_wf(cs),
        c.backlink == 0,
        1 <= c.width,
        0 <= at,
        at + c.width <= cs.len(),
    ensures
        cells_wf(put_cells(cs, at, c)),
{
    reveal(cells_wf);
    let e = erased(cs, at, at + c.width);
    let r = put_cells(cs, at, c);
    lemma_erased_wf(cs, at, at + c.width);
    assert forall|h: int|
        0 <= h < r.len() && (#[trigger] r[h]).backlink == 0 implies 1 <= r[h].width && h
            + r[h].width <= r.len() by {
        assert(e[h] == e[h]);
    }
    assert forall|h: int, j: int|
        0 <= h < j < r.len() && (#[trigger] r[h]).backlink == 0 && j < h
            + r[h].width implies (#[trigger] r[j]).backlink == j - h && r[j].width == 0 by {
        if h != at {
            lemma_head(cs, h);
            lemma_head(cs, j);
            assert(e[h] == e[h] && e[j] == e[j]);
        }
    }
    assert forall|i: int|
        0 <= i < r.len() && (#[trigger] r[i]).backlink > 0 implies r[i].backlink <= i && r[i
            - r[i].backlink].backlink == 0 && r[i - r[i].backlink].width > r[i].backlink by {
        if !(at < i < at + c.width) && i != at {
            lemma_head(cs, i);
            lemma_head(cs, head(cs, i));
            assert(e[i] == e[i]);
            assert(e[head(cs, i)] == e[head(cs, i)]);
        }
    }
}

/// The cells after copying the `count` cells at `src` to `dst` (overlapping
/// allowed), `count > 0`: a character cut by either edge of the copied
/// range, at its source or its destination, is blanked.
///
/// Before `dst`, a character that reached into the destination is blanked;
/// in `[dst, dst + count)`, a copied character that did not lie whole in the
/// source range is blanked; after it, a character that began before its end
/// is blanked.
pub open spec fn copied_cells(cs: Seq<Cell>, src: int, count: int, dst: int) -> Seq<Cell> {
    let de = dst + count;
    Seq::new(
        cs.len(),
        |j: int|
            if j < dst {
                if head(cs, j) + cs[head(cs, j)].width > dst {
                    space_cell()
                } else {
                    cs[j]
                }
            } else if j < de {
                let s = src + (j - dst);
                if head(cs, s) < src || head(cs, s) + cs[head(cs, s)].width > src + count {
                    space_cell()
                } else {
                    cs[s]
                }
            } else {
                if head(cs, j) < de {
                    space_cell()
                } else {
                    cs[j]
                }
            },
    )
}

/// Copying `count` cells from `src` to `dst`, cell by cell: each cell of the
/// destination range holds the copied cell or a blank (where a wide
/// character was cut); every other cell keeps its contents or becomes a
/// blank, and only where a wide character straddles an end of the
/// destination range.
pub proof fn lemma_copied_cell_by_cell(cs: Seq<Cell>, src: int, count: int, dst: int, j: int)
    requires
        0 <= j < cs.len(),
        0 <= count,
    ensures
        copied_cells(cs, src, count, dst).len() == cs.len(),
        dst <= j < dst + count ==> copied_cells(cs, src, count, dst)[j] == cs[src + (j - dst)]
            || copied_cells(cs, src, count, dst)[j] == space_cell(),
        j < dst && head(cs, j) + cs[head(cs, j)].width <= dst ==> copied_cells(cs, src, count, dst)[j] == cs[j],
        j >= dst + count && head(cs, j) >= dst + count ==> copied_cells(cs, src, count, dst)[j] == cs[j],
        !(dst <= j < dst + count) ==> copied_cells(cs, src, count, dst)[j] == cs[j]
            || copied_cells(cs, src, count, dst)[j] == space_cell(),
{
}

/// Copying a range keeps the cells well formed.
#[verifier::spinoff_prover]
#[verifier::rlimit(40)]
pub proof fn lemma_copied_wf(cs: Seq<Cell>, src: int, count: int, dst: int)
    requires
        cells_wf(cs),
        0 <= src,
        0 <= dst,
        0 < count,
        src + count <= cs.len(),
        dst + count <= cs.len(),
    ensures
        cells_wf(copied_cells(cs, src, count, dst)),
{
    reveal(cells_wf);
    let r = copied_cells(cs, src, count, dst);
    let de = dst + count;
    assert forall|h: int|
        0 <= h < r.len() && (#[trigger] r[h]).backlink == 0 implies 1 <= r[h].width && h
            + r[h].width <= r.len() by {
        if h < dst {
            lemma_head(cs, h);
        } else if h < de {
            lemma_head(cs, src + (h - dst));
        } else {
            lemma_head(cs, h);
        }
    }
    assert forall|h: int, j: int|
        0 <= h < j < r.len() && (#[trigger] r[h]).backlink == 0 && j < h
            + r[h].width implies (#[trigger] r[j]).backlink == j - h && r[j].width == 0 by {
        if h < dst {
            lemma_head(cs, h);
            lemma_head(cs, j);
        } else if h < de {
            lemma_head(cs, src + (h - dst));
            lemma_head(cs, src + (j - dst));
        } else {
            lemma_head(cs, h);
            lemma_head(cs, j);
        }
    }
    assert forall|i: int|
        0 <= i < r.len() && (#[trigger] r[i]).backlink > 0 implies r[i].backlink <= i && r[i
            - r[i].backlink].backlink == 0 && r[i - r[i].backlink].width > r[i].backlink by {
        if i < dst {
            lemma_head(cs, i);
            lemma_head(cs, head(cs, i));
        } else if i < de {
            let s = src + (i - dst);
            lemma_head(cs, s);
            lemma_head(cs, head(cs, s));
        } else {
            lemma_head(cs, i);
            lemma_head(cs, head(cs, i));
        }
    }
}

/// Reading back a written character: after `c` is written at `at`, every
/// cell it covers belongs to it, so that reading any of its columns gives `c`.
pub proof fn lemma_get_after_put(cs: Seq<Cell>, at: int, c: Cell, k: int)
    requires
        cells_wf(cs),
        c.backlink == 0,
        1 <= c.width,
        0 <= at,
        at + c.width <= cs.len(),
        at <= k < at + c.width,
    ensures
        put_cells(cs, at, c)[head(put_cells(cs, at, c), k)] == c,
{
}

/// Erasing blanks every column of the range: each cell in `[s, e)` is a
/// one-column blank afterwards.
pub proof fn lemma_erased_range_is_blank(cs: Seq<Cell>, s: int, e: int, k: int)
    requires
        cells_wf(cs),
        0 <= s <= k < e <= cs.len(),
    ensures
        erased(cs, s, e)[k] == space_cell(),
{
    lemma_head(cs, k);
}

/// Erasing leaves the characters that do not touch the range as they were.
pub proof fn lemma_erased_keeps_others(cs: Seq<Cell>, s: int, e: int, k: int)
    requires
        cells_wf(cs),
        0 <= k < cs.len(),
        head(cs, k) + cs[head(cs, k)].width <= s || e <= head(cs, k),
    ensures
        erased(cs, s, e)[k] == cs[k],
{
    lemma_head(cs, k);
}

/// A line as a value: its cells and whether its text goes on in the next line.
pub struct LineView {
    pub cells: Seq<Cell>,
    pub wraps: bool,
}

/// A line of `n` end-of-line cells that does not wrap.
pub open spec fn blank_line(n: nat) -> LineView {
    LineView { cells: Seq::new(n, |i: int| term_cell()), wraps: false }
}

/// A row of cells; see `cells_wf` for how characters wider than one column
/// are held.
#[derive(Debug, Clone)]
pub struct Line {
    cells: Vec<Cell>,
    linewrap: bool,
}

impl View for Line {
    type V = LineView;

    closed spec fn view(&self) -> LineView {
        LineView { cells: self.cells@, wraps: self.linewrap }
    }
}

impl Line {
    /// The cells.
    pub open spec fn cells(self) -> Seq<Cell> {
        self@.cells
    }

    /// The text of this line goes on in the next one.
    pub open spec fn wraps(self) -> bool {
        self@.wraps
    }

    /// The cells hold whole characters.
    pub open spec fn wf(self) -> bool {
        cells_wf(self.cells())
    }

    /// A line of `len` end-of-line cells.
    pub fn new(len: usize) -> (l: Self)
        ensures
            l.cells() == Seq::new(len as nat, |i: int| term_cell()),
            !l.wraps(),
            l.wf(),
    {
        let cells = vec![Cell::term(); len];
        proof {
            reveal(cells_wf);
            assert(cells@ =~= Seq::new(len as nat, |i: int| term_cell()));
        }
        Line { cells, linewrap: false }
    }

    /// Index of the head cell of the character at `at`.
    pub(crate) fn get_head_pos(&self, at: usize) -> (h: usize)
        requires
            self.wf(),
            at < self.cells().len(),
        ensures
            h == head(self.cells(), at as int),
    {
        proof {
            lemma_head(self.cells@, at as int);
        }
        at - self.cells[at].backlink as usize
    }

    /// Blanks the character that covers cell `at`.
    pub(crate) fn erase_at(&mut self, at: usize)
        requires
            old(self).wf(),
            at < old(self).cells().len(),
        ensures
            final(self).cells() == erased(old(self).cells(), at as int, at + 1),
            final(self).wraps() == old(self).wraps(),
            final(self).wf(),
    {
        let ghost cs = self.cells@;
        proof {
            lemma_head(cs, at as int);
            lemma_erased_wf(cs, at as int, at + 1);
        }
        let len = self.cells.len();
        let h = self.get_head_pos(at);
        let width = self.cells[h].width as usize;
        assert(width == cs[h as int].width && h + width <= len);
        let end = if h + width < len {
            h + width
        } else {
            len
        };
        let mut k = h;
        while k < end
            invariant
                h <= k <= end,
                end == h + width,
                end <= cs.len(),
                self.cells@.len() == cs.len(),
                self.linewrap == old(self).linewrap,
                forall|j: int|
                    0 <= j < cs.len() ==> #[trigger] self.cells@[j] == if h <= j < k {
                        space_cell()
                    } else {
                        cs[j]
                    },
            decreases end - k,
        {
            self.cells.set(k, Cell::space());
            k += 1;
        }
        proof {
            lemma_erase_at_result(cs, at as int);
            assert(self.cells@ =~= Seq::new(
                cs.len(),
                |j: int|
                    if head(cs, at as int) <= j < head(cs, at as int) + cs[head(cs, at as int)].width {
                        space_cell()
                    } else {
                        cs[j]
                    },
            ));
        }
    }

    /// `start` and `end` cut to the length of the line.
    fn saturating_range(&self, start: usize, end: usize) -> (r: (usize, usize))
        ensures
            r.0 == if start < self.cells().len() { start as int } else { self.cells().len() as int },
            r.1 == if end < self.cells().len() { end as int } else { self.cells().len() as int },
    {
        let len = self.cells.len();
        let s = if start < len { start } else { len };
        let e = if end < len { end } else { len };
        (s, e)
    }

    /// Blanks every character that has a cell in `[start, end)`, the range cut
    /// to the line.
    pub(crate) fn erase(&mut self, start: usize, end: usize)
        requires
            old(self).wf(),
        ensures
            final(self).cells() == erased(
                old(self).cells(),
                if start < old(self).cells().len() { start as int } else { old(self).cells().len() as int },
                if end < old(self).cells().len() { end as int } else { old(self).cells().len() as int },
            ),
            final(self).wraps() == old(self).wraps(),
            final(self).wf(),
    {
        let ghost cs = self.cells@;
        let (s, e) = self.saturating_range(start, end);
        if s >= e {
            assert(erased(cs, s as int, e as int) =~= cs);
            return;
        }
        let mut i = s;
        assert(erased(cs, s as int, s as int) =~= cs);
        while i < e
            invariant
                s <= i <= e,
                e <= cs.len(),
                cells_wf(cs),
                self.wf(),
                self.cells() == erased(cs, s as int, i as int),
                self.wraps() == old(self).wraps(),
            decreases e - i,
        {
            proof {
                lemma_erase_step(cs, s as int, i as int);
            }
            self.erase_at(i);
            i += 1;
        }
    }

    /// Blanks the whole line with end-of-line cells and clears the wrap mark.
    pub(crate) fn erase_all(&mut self)
        ensures
            final(self).cells() == Seq::new(old(self).cells().len(), |i: int| term_cell()),
            !final(self).wraps(),
            final(self).wf(),
    {
        let len = self.cells.len();
        let mut i: usize = 0;
        while i < len
            invariant
                i <= len,
                len == self.cells@.len(),
                forall|j: int| 0 <= j < i ==> #[trigger] self.cells@[j] == term_cell(),
            decreases len - i,
        {
            self.cells.set(i, Cell::term());
            i += 1;
        }
        self.linewrap = false;
        proof {
            reveal(cells_wf);
            assert(self.cells@ =~= Seq::new(len as nat, |i: int| term_cell()));
        }
    }

    /// Changes the length of the line to `new_len` cells.
    pub(crate) fn resize(&mut self, new_len: usize)
        requires
            old(self).wf(),
            new_len >= 1,
        ensures
            final(self).cells() == resized_cells(old(self).cells(), new_len as int),
            final(self).wraps() == old(self).wraps(),
            final(self).wf(),
    {
        let ghost cs = self.cells@;
        let old_len = self.cells.len();
        if new_len <= old_len {
            self.cells.truncate(new_len);
        } else {
            while self.cells.len() < new_len
                invariant
                    old_len <= self.cells@.len() <= new_len,
                    self.cells@.subrange(0, old_len as int) == cs,
                    forall|j: int| old_len <= j < self.cells@.len() ==> #[trigger] self.cells@[j] == term_cell(),
                    self.linewrap == old(self).linewrap,
                decreases new_len - self.cells@.len(),
            {
                self.cells.push(Cell::term());
                assert(self.cells@.subrange(0, old_len as int) =~= cs);
            }
        }
        proof {
            lemma_resized_wf(cs, new_len as int);
        }
        let last = new_len - 1;
        if last < old_len {
            proof {
                lemma_head(cs, last as int);
            }
            let h = last - self.cells[last].backlink as usize;
            let width = self.cells[h].width as usize;
            if h + width > new_len {
                let mut k = h;
                while k < new_len
                    invariant
                        h <= k <= new_len,
                        self.cells@.len() == new_len,
                        h == head(cs, last as int),
                        h + cs[h as int].width > new_len,
                        new_len <= cs.len(),
                        forall|j: int|
                            0 <= j < new_len ==> #[trigger] self.cells@[j] == if h <= j < k {
                                space_cell()
                            } else {
                                cs[j]
                            },
                        self.linewrap == old(self).linewrap,
                    decreases new_len - k,
                {
                    self.cells.set(k, Cell::space());
                    k += 1;
                }
                proof {
                    assert forall|j: int| 0 <= j < new_len implies #[trigger] self.cells@[j]
                        == resized_cells(cs, new_len as int)[j] by {
                        lemma_head(cs, j);
                    }
                    assert(self.cells@ =~= resized_cells(cs, new_len as int));
                }
            } else {
                proof {
                    assert forall|j: int| 0 <= j < new_len implies #[trigger] self.cells@[j]
                        == resized_cells(cs, new_len as int)[j] by {
                        lemma_head(cs, j);
                    }
                    assert(self.cells@ =~= resized_cells(cs, new_len as int));
                }
            }
        } else {
            proof {
                assert forall|j: int| 0 <= j < new_len implies #[trigger] self.cells@[j]
                    == resized_cells(cs, new_len as int)[j] by {
                    if j < old_len {
                        lemma_head(cs, j);
                        assert(self.cells@.subrange(0, old_len as int)[j] == cs[j]);
                    }
                }
                assert(self.cells@ =~= resized_cells(cs, new_len as int));
            }
        }
    }

    /// A line of the cells `cells`, not marked as wrapping.
    pub fn from_cells(cells: Vec<Cell>) -> (l: Self)
        requires
            cells_wf(cells@),
        ensures
            l.cells() == cells@,
            !l.wraps(),
            l.wf(),
    {
        Line { cells, linewrap: false }
    }

    /// The number of cells.
    pub fn columns(&self) -> (n: usize)
        ensures
            n == self.cells().len(),
    {
        self.cells.len()
    }

    /// Writes `cell` at `at`, blanking every character it overlaps.
    pub(crate) fn put(&mut self, at: usize, cell: Cell)
        requires
            old(self).wf(),
            cell.backlink == 0,
            1 <= cell.width,
            at + cell.width <= old(self).cells().len(),
        ensures
            final(self).cells() == put_cells(old(self).cells(), at as int, cell),
            final(self).wraps() == old(self).wraps(),
            final(self).wf(),
    {
        let ghost cs = self.cells@;
        let len = self.cells.len();
        let width = cell.width as usize;
        self.erase(at, at + width);
        let ghost e = self.cells@;
        assert(e == erased(cs, at as int, at + width));
        self.cells.set(at, cell);
        let mut d: usize = 1;
        while d < width
            invariant
                1 <= d <= width,
                width == cell.width,
                at + width <= cs.len(),
                cs.len() == len,
                self.cells@.len() == cs.len(),
                self.linewrap == old(self).linewrap,
                forall|j: int|
                    0 <= j < cs.len() ==> #[trigger] self.cells@[j] == if j == at {
                        cell
                    } else if at < j < at + d {
                        void_cell((j - at) as u16)
                    } else {
                        e[j]
                    },
            decreases width - d,
        {
            self.cells.set(at + d, Cell::void(d as u16));
            d += 1;
        }
        proof {
            assert(self.cells@ =~= put_cells(cs, at as int, cell));
            lemma_put_wf(cs, at as int, cell);
        }
    }

    /// The cell of the character that covers column `at`, if the line has one.
    pub fn get(&self, at: usize) -> (c: Option<Cell>)
        requires
            self.wf(),
        ensures
            c == if at < self.cells().len() {
                Some(self.cells()[head(self.cells(), at as int)])
            } else {
                None
            },
    {
        if at < self.cells.len() {
            let h = self.get_head_pos(at);
            proof {
                lemma_head(self.cells@, at as int);
            }
            Some(self.cells[h])
        } else {
            None
        }
    }

    /// The cells, in order.
    pub fn iter(&self) -> (v: Vec<Cell>)
        ensures
            v@ == self.cells(),
    {
        let mut v: Vec<Cell> = Vec::new();
        let mut i: usize = 0;
        while i < self.cells.len()
            invariant
                i <= self.cells@.len(),
                v@ == self.cells@.subrange(0, i as int),
            decreases self.cells@.len() - i,
        {
            v.push(self.cells[i]);
            i += 1;
            assert(v@ =~= self.cells@.subrange(0, i as int));
        }
        assert(v@ =~= self.cells@);
        v
    }

    /// The text of this line goes on in the next one.
    pub fn linewrap(&self) -> (b: bool)
        ensures
            b == self.wraps(),
    {
        self.linewrap
    }

    /// Marks whether the text of this line goes on in the next one.
    pub(crate) fn set_linewrap(&mut self, b: bool)
        ensures
            final(self).cells() == old(self).cells(),
            final(self).wraps() == b,
    {
        self.linewrap = b;
    }

    /// Makes this line a copy of `src`.
    pub fn copy_from(&mut self, src: &Self)
        ensures
            final(self).cells() == src.cells(),
            final(self).wraps() == src.wraps(),
    {
        let n = src.cells.len();
        if self.cells.len() == n {
            let mut i: usize = 0;
            while i < n
                invariant
                    i <= n,
                    n == src.cells@.len(),
                    self.cells@.len() == n,
                    forall|j: int| 0 <= j < i ==> #[trigger] self.cells@[j] == src.cells@[j],
                decreases n - i,
            {
                self.cells.set(i, src.cells[i]);
                i += 1;
            }
        } else {
            self.cells.clear();
            let mut i: usize = 0;
            while i < n
                invariant
                    i <= n,
                    n == src.cells@.len(),
                    self.cells@.len() == i,
                    forall|j: int| 0 <= j < i ==> #[trigger] self.cells@[j] == src.cells@[j],
                decreases n - i,
            {
                self.cells.push(src.cells[i]);
                i += 1;
            }
        }
        assert(self.cells@ =~= src.cells@);
        self.linewrap = src.linewrap;
    }

    /// Copies the cells in `[src_start, src_end)` (cut to the line) to the
    /// cells from `dst` on, as many as fit, then blanks every character that
    /// the copy cut in two.
    pub(crate) fn copy_within(&mut self, src_start: usize, src_end: usize, dst: usize)
        requires
            old(self).wf(),
            dst <= old(self).cells().len(),
        ensures
            ({
                let cs = old(self).cells();
                let len = cs.len() as int;
                let s = if src_start < len { src_start as int } else { len };
                let e = if src_end < len { src_end as int } else { len };
                let n = if e > s { e - s } else { 0 };
                let count = if n < len - dst { n } else { len - dst };
                final(self).cells() == if count == 0 {
                    cs
                } else {
                    copied_cells(cs, s, count, dst as int)
                }
            }),
            final(self).wraps() == old(self).wraps(),
            final(self).wf(),
    {
        let ghost cs = self.cells@;
        let len = self.cells.len();
        let (s, e) = self.saturating_range(src_start, src_end);
        let n = if e > s {
            e - s
        } else {
            0
        };
        let count = if n < len - dst {
            n
        } else {
            len - dst
        };
        if count == 0 {
            return;
        }
        let de = dst + count;
        let mut v: Vec<Cell> = Vec::new();
        let mut j: usize = 0;
        while j < len
            invariant
                j <= len,
                len == cs.len(),
                self.cells@ == cs,
                self.wf(),
                s + count <= len,
                de == dst + count,
                de <= len,
                0 < count,
                v@ == copied_cells(cs, s as int, count as int, dst as int).subrange(0, j as int),
            decreases len - j,
        {
            proof {
                lemma_head(cs, j as int);
            }
            let c = if j < dst {
                let h = self.get_head_pos(j);
                if h + self.cells[h].width as usize > dst {
                    Cell::space()
                } else {
                    self.cells[j]
                }
            } else if j < de {
                let k = s + (j - dst);
                proof {
                    lemma_head(cs, k as int);
                }
                let h = self.get_head_pos(k);
                if h < s || h + self.cells[h].width as usize > s + count {
                    Cell::space()
                } else {
                    self.cells[k]
                }
            } else {
                let h = self.get_head_pos(j);
                if h < de {
                    Cell::space()
                } else {
                    self.cells[j]
                }
            };
            v.push(c);
            j += 1;
            assert(v@ =~= copied_cells(cs, s as int, count as int, dst as int).subrange(0, j as int));
        }
        proof {
            lemma_copied_wf(cs, s as int, count as int, dst as int);
            assert(v@ =~= copied_cells(cs, s as int, count as int, dst as int));
        }
        self.cells = v;
    }
}

} // verus!
