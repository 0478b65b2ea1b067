//! The character grid of one pane: visual rows over a growing scrollback,
//! a cursor, a scrollback viewport and an optional scroll region.

use vstd::prelude::*;
use crate::character::{TerminalCharacter, blank_spec};

verus! {

/// Visual rows, oldest first. The last `rows` of them are the screen; the
/// ones before are scrollback. A row whose `continued` flag is set carries on
/// the canonical line of the row before it (it was opened by wrapping), so
/// resizing can join and rewrap canonical lines.
pub struct Scroll {
    pub lines: Vec<Vec<TerminalCharacter>>,
    pub continued: Vec<bool>,
    pub cols: usize,
    pub rows: usize,
    /// Index in `lines` of the cursor's row (always on screen).
    pub cursor_line: usize,
    /// Column of the cursor; `cols` means a wrap is pending.
    pub cursor_col: usize,
    /// How many rows the viewport is scrolled back from the screen.
    pub viewport_offset: usize,
    /// Inclusive screen rows, 1-indexed, confining scrolling.
    pub scroll_region: Option<(usize, usize)>,
}

/// `row` cut or padded with blanks to exactly `cols` cells.
pub open spec fn padded(row: Seq<TerminalCharacter>, cols: nat) -> Seq<TerminalCharacter> {
    Seq::new(cols, |j: int| if j < row.len() { row[j] } else { blank_spec() })
}

/// The characters of the first `n` rows, in order.
pub open spec fn flat(rows: Seq<Vec<TerminalCharacter>>, n: int) -> Seq<TerminalCharacter>
    decreases n,
{
    if n <= 0 { Seq::empty() } else { flat(rows, n - 1) + rows[n - 1]@ }
}

/// Every character of the grid, in order, whatever rows they sit on.
pub open spec fn all_text(rows: Seq<Vec<TerminalCharacter>>) -> Seq<TerminalCharacter> {
    flat(rows, rows.len() as int)
}

proof fn lemma_flat_prefix(rows: Seq<Vec<TerminalCharacter>>, x: Vec<TerminalCharacter>, n: int)
    requires
        0 <= n <= rows.len(),
    ensures
        flat(rows.push(x), n) == flat(rows, n),
    decreases n,
{
    if n > 0 {
        lemma_flat_prefix(rows, x, n - 1);
        assert(rows.push(x)[n - 1] == rows[n - 1]);
    }
}

proof fn lemma_flat_push(rows: Seq<Vec<TerminalCharacter>>, x: Vec<TerminalCharacter>)
    ensures
        all_text(rows.push(x)) == all_text(rows) + x@,
{
    lemma_flat_prefix(rows, x, rows.len() as int);
    assert(rows.push(x)[rows.len() as int] == x);
}

proof fn lemma_flat_drop_empty(rows: Seq<Vec<TerminalCharacter>>)
    requires
        rows.len() > 0,
        rows.last()@.len() == 0,
    ensures
        all_text(rows.drop_last()) == all_text(rows),
{
    lemma_flat_push(rows.drop_last(), rows.last());
    assert(rows.drop_last().push(rows.last()) =~= rows);
    assert(all_text(rows.drop_last()) + rows.last()@ =~= all_text(rows.drop_last()));
}

pub open spec fn min(a: int, b: int) -> int {
    if a < b { a } else { b }
}

impl Scroll {
    /// Index in `lines` of the first screen row.
    pub open spec fn screen_top(&self) -> int {
        self.lines@.len() - self.rows
    }

    /// Index in `lines` of the first row that the viewport shows.
    pub open spec fn view_top(&self) -> int {
        self.screen_top() - self.viewport_offset
    }

    pub open spec fn wf(&self) -> bool {
        &&& self.cols >= 1
        &&& self.rows >= 1
        &&& self.lines@.len() == self.continued@.len()
        &&& self.lines@.len() >= self.rows
        &&& forall|i: int| 0 <= i < self.lines@.len() ==> (#[trigger] self.lines@[i])@.len() <= self.cols
        &&& self.screen_top() <= self.cursor_line < self.lines@.len()
        &&& self.cursor_col <= self.cols
        &&& self.viewport_offset <= self.screen_top()
        &&& match self.scroll_region {
            Some((t, b)) => 1 <= t < b <= self.rows,
            None => true,
        }
    }

    /// Row `k` of what the viewport shows, `cols` cells wide.
    pub open spec fn visible_row(&self, k: int) -> Seq<TerminalCharacter> {
        padded(self.lines@[self.view_top() + k]@, self.cols as nat)
    }

    /// The cursor's screen position `(x, y)` while the viewport is not scrolled back.
    pub open spec fn cursor_on_screen(&self) -> (int, int) {
        (min(self.cursor_col as int, self.cols - 1), self.cursor_line - self.screen_top())
    }

    /// An empty screen of `cols` by `rows` with the cursor at the top left.
    pub fn new(cols: usize, rows: usize) -> (r: Scroll)
        requires
            cols >= 1,
            rows >= 1,
        ensures
            r.wf(),
            r.cols == cols,
            r.rows == rows,
            r.lines@.len() == rows,
            forall|i: int| 0 <= i < rows ==> (#[trigger] r.lines@[i])@.len() == 0,
            r.cursor_line == 0,
            r.cursor_col == 0,
            r.viewport_offset == 0,
            r.scroll_region.is_none(),
    {
        let mut lines: Vec<Vec<TerminalCharacter>> = Vec::new();
        let mut continued: Vec<bool> = Vec::new();
        let mut i: usize = 0;
        while i < rows
            invariant
                i <= rows,
                lines@.len() == i,
                continued@.len() == i,
                forall|k: int| 0 <= k < i ==> (#[trigger] lines@[k])@.len() == 0,
            decreases rows - i,
        {
            lines.push(Vec::new());
            continued.push(false);
            i = i + 1;
        }
        Scroll {
            lines,
            continued,
            cols,
            rows,
            cursor_line: 0,
            cursor_col: 0,
            viewport_offset: 0,
            scroll_region: None,
        }
    }

    fn screen_top_exec(&self) -> (r: usize)
        requires
            self.wf(),
        ensures
            r == self.screen_top(),
    {
        self.lines.len() - self.rows
    }

    /// Writes `ch` at the cursor and advances it; at the right edge the
    /// character goes to the start of the next row, which then continues the
    /// current canonical line.
    pub fn add_character(&mut self, ch: TerminalCharacter)
        requires
            old(self).wf(),
        ensures
            final(self).wf(),
            final(self).cols == old(self).cols,
            final(self).rows == old(self).rows,
            final(self).scroll_region == old(self).scroll_region,
            old(self).cursor_col < old(self).cols ==> {
                &&& final(self).cursor_line == old(self).cursor_line
                &&& final(self).cursor_col == old(self).cursor_col + 1
            },
            old(self).cursor_col == old(self).cols ==> {
                &&& final(self).cursor_line == old(self).cursor_line + 1
                &&& final(self).cursor_col == 1
                &&& final(self).continued@[final(self).cursor_line as int]
            },
            final(self).lines@[final(self).cursor_line as int]@[final(self).cursor_col - 1] == ch,
    {
        if self.cursor_col >= self.cols {
            if self.cursor_line == self.lines.len() - 1 {
                self.lines.push(Vec::new());
                self.continued.push(true);
            } else {
                let next = self.cursor_line + 1;
                self.continued.set(next, true);
            }
            self.cursor_line = self.cursor_line + 1;
            self.cursor_col = 0;
        }
        let line = self.cursor_line;
        let col = self.cursor_col;
        let mut row: Vec<TerminalCharacter> = Vec::new();
        std::mem::swap(&mut row, &mut self.lines[line]);
        if col < row.len() {
            row.set(col, ch);
        } else {
            while row.len() < col
                invariant
                    row@.len() <= col,
                decreases col - row@.len(),
            {
                row.push(TerminalCharacter::blank());
            }
            row.push(ch);
        }
        self.lines[line] = row;
        self.cursor_col = col + 1;
    }

    /// Whether the cursor sits on the bottom row of the scroll region.
    pub open spec fn at_region_bottom(&self) -> bool {
        match self.scroll_region {
            Some((t, b)) => self.cursor_line == self.screen_top() + b - 1,
            None => false,
        }
    }

    /// Ends the current canonical line: the cursor goes to column 0 of the
    /// next row, opening one at the bottom (the screen scrolls). With a scroll
    /// region and the cursor on its bottom row, only the region scrolls.
    pub fn add_canonical_line(&mut self)
        requires
            old(self).wf(),
        ensures
            final(self).wf(),
            final(self).cols == old(self).cols,
            final(self).rows == old(self).rows,
            final(self).scroll_region == old(self).scroll_region,
            final(self).cursor_col == 0,
            !final(self).continued@[final(self).cursor_line as int],
            old(self).at_region_bottom() ==> final(self).cursor_on_screen().1 == old(self).cursor_on_screen().1,
            old(self).at_region_bottom() ==> ({
                let top = old(self).region_top();
                let bottom = old(self).region_bottom();
                forall|i: int| 0 <= i < old(self).lines@.len() ==> {
                    &&& (i < top || i > bottom) ==> #[trigger] final(self).lines@[i] == old(self).lines@[i]
                    &&& (top <= i < bottom) ==> final(self).lines@[i] == old(self).lines@[i + 1]
                    &&& i == bottom ==> final(self).lines@[i]@.len() == 0
                }
            }),
            !old(self).at_region_bottom() ==> final(self).cursor_on_screen().1 == min(
                old(self).cursor_on_screen().1 + 1,
                old(self).rows - 1,
            ),
    {
        let st = self.screen_top_exec();
        let n = self.lines.len();
        if let Some((t, b)) = self.scroll_region {
            if self.cursor_line == st + b - 1 {
                self.scroll_rows(st + t - 1, st + b - 1);
                self.cursor_col = 0;
                return;
            }
        }
        if self.cursor_line == self.lines.len() - 1 {
            self.lines.push(Vec::new());
            self.continued.push(false);
        } else {
            let next = self.cursor_line + 1;
            self.continued.set(next, false);
        }
        self.cursor_line = self.cursor_line + 1;
        self.cursor_col = 0;
    }

    /// Removes row `from` and opens an empty row at index `to`; the rows
    /// between them shift by one towards `from`.
    fn scroll_rows(&mut self, from: usize, to: usize)
        requires
            old(self).wf(),
            from < old(self).lines@.len(),
            to < old(self).lines@.len(),
        ensures
            final(self).wf(),
            final(self).cols == old(self).cols,
            final(self).rows == old(self).rows,
            final(self).cursor_line == old(self).cursor_line,
            final(self).cursor_col == old(self).cursor_col,
            final(self).viewport_offset == old(self).viewport_offset,
            final(self).scroll_region == old(self).scroll_region,
            final(self).lines@.len() == old(self).lines@.len(),
            final(self).lines@[to as int]@.len() == 0,
            !final(self).continued@[to as int],
            forall|i: int| 0 <= i < old(self).lines@.len() ==> #[trigger] final(self).lines@[i] == if from <= to {
                if i < from || i > to { old(self).lines@[i] } else if i < to { old(self).lines@[i + 1] } else { final(self).lines@[i] }
            } else {
                if i < to || i > from { old(self).lines@[i] } else if i > to { old(self).lines@[i - 1] } else { final(self).lines@[i] }
            },
    {
        let ghost removed = self.lines@.remove(from as int);
        self.lines.remove(from);
        self.continued.remove(from);
        assert forall|i: int| 0 <= i < removed.len() implies (#[trigger] removed[i])@.len() <= self.cols by {
            if i < from {
                assert(removed[i] == old(self).lines@[i]);
            } else {
                assert(removed[i] == old(self).lines@[i + 1]);
            }
        }
        self.lines.insert(to, Vec::new());
        self.continued.insert(to, false);
        assert forall|i: int| 0 <= i < self.lines@.len() implies (#[trigger] self.lines@[i])@.len() <= self.cols by {
            if i < to {
                assert(self.lines@[i] == removed[i]);
            } else if i > to {
                assert(self.lines@[i] == removed[i - 1]);
            }
        }
        assert forall|i: int| 0 <= i < old(self).lines@.len() && i != to implies #[trigger] self.lines@[i] == if i < to {
            removed[i]
        } else {
            removed[i - 1]
        } by {}
    }

    /// Puts the cursor on screen row `row`, column `col`, each clamped to the screen.
    pub fn move_cursor_to(&mut self, row: usize, col: usize)
        requires
            old(self).wf(),
        ensures
            final(self).wf(),
            final(self).lines == old(self).lines,
            final(self).continued == old(self).continued,
            final(self).cols == old(self).cols,
            final(self).rows == old(self).rows,
            final(self).viewport_offset == old(self).viewport_offset,
            final(self).scroll_region == old(self).scroll_region,
            final(self).cursor_on_screen() == (min(col as int, old(self).cols - 1), min(row as int, old(self).rows - 1)),
            final(self).cursor_col == min(col as int, old(self).cols - 1),
    {
        let st = self.screen_top_exec();
        let n = self.lines.len();
        let r = if row < self.rows { row } else { self.rows - 1 };
        self.cursor_line = st + r;
        self.cursor_col = if col < self.cols { col } else { self.cols - 1 };
    }

    /// Moves the cursor `count` rows up, stopping at the top of the screen.
    pub fn move_cursor_up(&mut self, count: usize)
        requires
            old(self).wf(),
        ensures
            final(self).wf(),
            final(self).lines == old(self).lines,
            final(self).continued == old(self).continued,
            final(self).cols == old(self).cols,
            final(self).rows == old(self).rows,
            final(self).viewport_offset == old(self).viewport_offset,
            final(self).scroll_region == old(self).scroll_region,
            final(self).cursor_col == old(self).cursor_col,
            final(self).cursor_on_screen().1 == if count > old(self).cursor_on_screen().1 {
                0
            } else {
                old(self).cursor_on_screen().1 - count
            },
    {
        let st = self.screen_top_exec();
        let y = self.cursor_line - st;
        self.cursor_line = if count > y { st } else { self.cursor_line - count };
    }

    /// Moves the cursor `count` columns left, stopping at column 0.
    pub fn move_cursor_back(&mut self, count: usize)
        requires
            old(self).wf(),
        ensures
            final(self).wf(),
            final(self).lines == old(self).lines,
            final(self).continued == old(self).continued,
            final(self).cols == old(self).cols,
            final(self).rows == old(self).rows,
            final(self).viewport_offset == old(self).viewport_offset,
            final(self).scroll_region == old(self).scroll_region,
            final(self).cursor_line == old(self).cursor_line,
            final(self).cursor_col == if count > old(self).cursor_col { 0 } else { old(self).cursor_col - count },
    {
        self.cursor_col = if count > self.cursor_col { 0 } else { self.cursor_col - count };
    }

    /// Moves the cursor `count` columns right, stopping at the last column.
    pub fn move_cursor_forward(&mut self, count: usize)
        requires
            old(self).wf(),
        ensures
            final(self).wf(),
            final(self).lines == old(self).lines,
            final(self).continued == old(self).continued,
            final(self).cols == old(self).cols,
            final(self).rows == old(self).rows,
            final(self).viewport_offset == old(self).viewport_offset,
            final(self).scroll_region == old(self).scroll_region,
            final(self).cursor_line == old(self).cursor_line,
            final(self).cursor_col == min(old(self).cursor_col + count, old(self).cols - 1),
    {
        let room = self.cols - 1;
        self.cursor_col = if self.cursor_col >= room || count >= room - self.cursor_col {
            room
        } else {
            self.cursor_col + count
        };
    }

    /// Moves the cursor to column 0 of the first on-screen row of its
    /// canonical line.
    pub fn move_cursor_to_beginning_of_canonical_line(&mut self)
        requires
            old(self).wf(),
        ensures
            final(self).wf(),
            final(self).lines == old(self).lines,
            final(self).continued == old(self).continued,
            final(self).cols == old(self).cols,
            final(self).rows == old(self).rows,
            final(self).viewport_offset == old(self).viewport_offset,
            final(self).scroll_region == old(self).scroll_region,
            final(self).cursor_col == 0,
            final(self).cursor_line <= old(self).cursor_line,
            final(self).cursor_line == final(self).screen_top()
                || !final(self).continued@[final(self).cursor_line as int],
            forall|i: int| final(self).cursor_line < i <= old(self).cursor_line ==> #[trigger] final(self).continued@[i],
    {
        let st = self.screen_top_exec();
        while self.cursor_line > st && self.continued[self.cursor_line]
            invariant
                self.wf(),
                st == self.screen_top(),
                self.lines == old(self).lines,
                self.continued == old(self).continued,
                self.cols == old(self).cols,
                self.rows == old(self).rows,
                self.viewport_offset == old(self).viewport_offset,
                self.scroll_region == old(self).scroll_region,
                self.cursor_line <= old(self).cursor_line,
                forall|i: int| self.cursor_line < i <= old(self).cursor_line ==> #[trigger] self.continued@[i],
            decreases self.cursor_line,
        {
            self.cursor_line = self.cursor_line - 1;
        }
        self.cursor_col = 0;
    }

    /// Blanks the cursor's row from the cursor to its end.
    pub fn clear_canonical_line_right_of_cursor(&mut self)
        requires
            old(self).wf(),
        ensures
            final(self).wf(),
            final(self).continued == old(self).continued,
            final(self).cols == old(self).cols,
            final(self).rows == old(self).rows,
            final(self).cursor_line == old(self).cursor_line,
            final(self).cursor_col == old(self).cursor_col,
            final(self).viewport_offset == old(self).viewport_offset,
            final(self).scroll_region == old(self).scroll_region,
            final(self).lines@.len() == old(self).lines@.len(),
            forall|i: int| 0 <= i < final(self).lines@.len() && i != old(self).cursor_line
                ==> #[trigger] final(self).lines@[i] == old(self).lines@[i],
            final(self).lines@[old(self).cursor_line as int]@ == old(self).lines@[old(self).cursor_line as int]@.subrange(
                0,
                min(old(self).cursor_col as int, old(self).lines@[old(self).cursor_line as int]@.len() as int),
            ),
    {
        let line = self.cursor_line;
        let col = self.cursor_col;
        let mut row: Vec<TerminalCharacter> = Vec::new();
        std::mem::swap(&mut row, &mut self.lines[line]);
        row.truncate(col);
        self.lines[line] = row;
    }

    /// Blanks everything from the cursor to the end of the screen.
    pub fn clear_all_after_cursor(&mut self)
        requires
            old(self).wf(),
        ensures
            final(self).wf(),
            final(self).cols == old(self).cols,
            final(self).rows == old(self).rows,
            final(self).cursor_line == old(self).cursor_line,
            final(self).cursor_col == old(self).cursor_col,
            final(self).viewport_offset == old(self).viewport_offset,
            final(self).scroll_region == old(self).scroll_region,
            final(self).lines@.len() == old(self).lines@.len(),
            forall|i: int| 0 <= i < old(self).cursor_line ==> #[trigger] final(self).lines@[i] == old(self).lines@[i],
            forall|i: int| old(self).cursor_line < i < final(self).lines@.len() ==> (#[trigger] final(self).lines@[i])@.len() == 0,
            final(self).lines@[old(self).cursor_line as int]@ == old(self).lines@[old(self).cursor_line as int]@.subrange(
                0,
                min(old(self).cursor_col as int, old(self).lines@[old(self).cursor_line as int]@.len() as int),
            ),
    {
        self.clear_canonical_line_right_of_cursor();
        let n = self.lines.len();
        let mut i: usize = self.cursor_line + 1;
        while i < self.lines.len()
            invariant
                self.wf(),
                self.cols == old(self).cols,
                self.rows == old(self).rows,
                self.cursor_line == old(self).cursor_line,
                self.cursor_col == old(self).cursor_col,
                self.viewport_offset == old(self).viewport_offset,
                self.scroll_region == old(self).scroll_region,
                self.lines@.len() == old(self).lines@.len(),
                old(self).cursor_line < i <= self.lines@.len(),
                forall|k: int| 0 <= k < old(self).cursor_line ==> #[trigger] self.lines@[k] == old(self).lines@[k],
                forall|k: int| old(self).cursor_line < k < i ==> (#[trigger] self.lines@[k])@.len() == 0,
                self.lines@[old(self).cursor_line as int]@ == old(self).lines@[old(self).cursor_line as int]@.subrange(
                    0,
                    min(old(self).cursor_col as int, old(self).lines@[old(self).cursor_line as int]@.len() as int),
                ),
            decreases self.lines@.len() - i,
        {
            self.lines[i] = Vec::new();
            self.continued.set(i, false);
            i = i + 1;
        }
    }

    /// Blanks every screen row; the cursor stays.
    pub fn clear_all(&mut self)
        requires
            old(self).wf(),
        ensures
            final(self).wf(),
            final(self).cols == old(self).cols,
            final(self).rows == old(self).rows,
            final(self).cursor_line == old(self).cursor_line,
            final(self).cursor_col == old(self).cursor_col,
            final(self).viewport_offset == old(self).viewport_offset,
            final(self).scroll_region == old(self).scroll_region,
            final(self).lines@.len() == old(self).lines@.len(),
            forall|i: int| 0 <= i < old(self).screen_top() ==> #[trigger] final(self).lines@[i] == old(self).lines@[i],
            forall|i: int| old(self).screen_top() <= i < final(self).lines@.len() ==> (#[trigger] final(self).lines@[i])@.len() == 0,
    {
        let mut i: usize = self.screen_top_exec();
        while i < self.lines.len()
            invariant
                self.wf(),
                self.cols == old(self).cols,
                self.rows == old(self).rows,
                self.cursor_line == old(self).cursor_line,
                self.cursor_col == old(self).cursor_col,
                self.viewport_offset == old(self).viewport_offset,
                self.scroll_region == old(self).scroll_region,
                self.lines@.len() == old(self).lines@.len(),
                old(self).screen_top() <= i <= self.lines@.len(),
                forall|k: int| 0 <= k < old(self).screen_top() ==> #[trigger] self.lines@[k] == old(self).lines@[k],
                forall|k: int| old(self).screen_top() <= k < i ==> (#[trigger] self.lines@[k])@.len() == 0,
            decreases self.lines@.len() - i,
        {
            self.lines[i] = Vec::new();
            self.continued.set(i, false);
            i = i + 1;
        }
    }

    /// Scrolls the viewport `count` rows back into the scrollback, as far as it goes.
    pub fn move_viewport_up(&mut self, count: usize)
        requires
            old(self).wf(),
        ensures
            final(self).wf(),
            final(self).lines == old(self).lines,
            final(self).continued == old(self).continued,
            final(self).cols == old(self).cols,
            final(self).rows == old(self).rows,
            final(self).cursor_line == old(self).cursor_line,
            final(self).cursor_col == old(self).cursor_col,
            final(self).scroll_region == old(self).scroll_region,
            final(self).viewport_offset == min(old(self).viewport_offset + count, old(self).screen_top()),
    {
        let st = self.screen_top_exec();
        self.viewport_offset = if count >= st - self.viewport_offset { st } else { self.viewport_offset + count };
    }

    /// Scrolls the viewport `count` rows towards the screen, as far as it goes.
    pub fn move_viewport_down(&mut self, count: usize)
        requires
            old(self).wf(),
        ensures
            final(self).wf(),
            final(self).lines == old(self).lines,
            final(self).continued == old(self).continued,
            final(self).cols == old(self).cols,
            final(self).rows == old(self).rows,
            final(self).cursor_line == old(self).cursor_line,
            final(self).cursor_col == old(self).cursor_col,
            final(self).scroll_region == old(self).scroll_region,
            final(self).viewport_offset == if count > old(self).viewport_offset { 0 } else { old(self).viewport_offset - count },
    {
        self.viewport_offset = if count > self.viewport_offset { 0 } else { self.viewport_offset - count };
    }

    /// Shows the screen again.
    pub fn reset_viewport(&mut self)
        requires
            old(self).wf(),
        ensures
            final(self).wf(),
            final(self).lines == old(self).lines,
            final(self).continued == old(self).continued,
            final(self).cols == old(self).cols,
            final(self).rows == old(self).rows,
            final(self).cursor_line == old(self).cursor_line,
            final(self).cursor_col == old(self).cursor_col,
            final(self).scroll_region == old(self).scroll_region,
            final(self).viewport_offset == 0,
    {
        self.viewport_offset = 0;
    }

    /// Confines scrolling to screen rows `top..=bottom` (1-indexed); a region
    /// that is not inside the screen, or not at least two rows, clears it.
    pub fn set_scroll_region(&mut self, top: usize, bottom: usize)
        requires
            old(self).wf(),
        ensures
            final(self).wf(),
            final(self).lines == old(self).lines,
            final(self).continued == old(self).continued,
            final(self).cols == old(self).cols,
            final(self).rows == old(self).rows,
            final(self).cursor_line == old(self).cursor_line,
            final(self).cursor_col == old(self).cursor_col,
            final(self).viewport_offset == old(self).viewport_offset,
            final(self).scroll_region == if 1 <= top < bottom <= old(self).rows {
                Some((top, bottom))
            } else {
                None
            },
    {
        if 1 <= top && top < bottom && bottom <= self.rows {
            self.scroll_region = Some((top, bottom));
        } else {
            self.scroll_region = None;
        }
    }

    pub fn clear_scroll_region(&mut self)
        requires
            old(self).wf(),
        ensures
            final(self).wf(),
            final(self).lines == old(self).lines,
            final(self).continued == old(self).continued,
            final(self).cols == old(self).cols,
            final(self).rows == old(self).rows,
            final(self).cursor_line == old(self).cursor_line,
            final(self).cursor_col == old(self).cursor_col,
            final(self).viewport_offset == old(self).viewport_offset,
            final(self).scroll_region.is_none(),
    {
        self.scroll_region = None;
    }

    /// Index in `lines` of the scroll region's top row.
    pub open spec fn region_top(&self) -> int {
        match self.scroll_region {
            Some((t, b)) => self.screen_top() + t - 1,
            None => self.screen_top(),
        }
    }

    /// Index in `lines` of the scroll region's bottom row.
    pub open spec fn region_bottom(&self) -> int {
        match self.scroll_region {
            Some((t, b)) => self.screen_top() + b - 1,
            None => self.screen_top() + self.rows - 1,
        }
    }

    /// Whether a scroll region is set and the cursor is on one of its rows.
    pub open spec fn cursor_in_region(&self) -> bool {
        match self.scroll_region {
            Some((t, b)) => self.screen_top() + t - 1 <= self.cursor_line <= self.screen_top() + b - 1,
            None => false,
        }
    }

    /// Deletes `count` rows at the cursor (at least one, at most to the
    /// region's bottom); the rows below move up and blank rows enter at the
    /// region's bottom. Nothing happens outside the scroll region.
    pub fn delete_lines_in_scroll_region(&mut self, count: usize)
        requires
            old(self).wf(),
        ensures
            final(self).wf(),
            final(self).cols == old(self).cols,
            final(self).rows == old(self).rows,
            final(self).cursor_line == old(self).cursor_line,
            final(self).cursor_col == old(self).cursor_col,
            final(self).viewport_offset == old(self).viewport_offset,
            final(self).scroll_region == old(self).scroll_region,
            final(self).lines@.len() == old(self).lines@.len(),
            !old(self).cursor_in_region() ==> *final(self) == *old(self),
            old(self).cursor_in_region() ==> ({
                let at = old(self).cursor_line as int;
                let bottom = old(self).region_bottom();
                let m = min(count as int, bottom - at + 1);
                forall|i: int| 0 <= i < old(self).lines@.len() ==> {
                    &&& (i < at || i > bottom) ==> #[trigger] final(self).lines@[i] == old(self).lines@[i]
                    &&& (at <= i <= bottom - m) ==> final(self).lines@[i] == old(self).lines@[i + m]
                    &&& (bottom - m < i <= bottom) ==> final(self).lines@[i]@.len() == 0
                }
            }),
    {
        let st = self.screen_top_exec();
        let n = self.lines.len();
        if let Some((t, b)) = self.scroll_region {
            if st + t - 1 <= self.cursor_line && self.cursor_line <= st + b - 1 {
                let bottom = st + b - 1;
                let at = self.cursor_line;
                let mut k: usize = 0;
                while k < count && k <= bottom - at
                    invariant
                        self.wf(),
                        self.cols == old(self).cols,
                        self.rows == old(self).rows,
                        self.cursor_line == old(self).cursor_line,
                        self.cursor_col == old(self).cursor_col,
                        self.viewport_offset == old(self).viewport_offset,
                        self.scroll_region == old(self).scroll_region,
                        self.lines@.len() == old(self).lines@.len(),
                        at == self.cursor_line,
                        at <= bottom < self.lines@.len(),
                        bottom == old(self).region_bottom(),
                        k <= count,
                        k <= bottom - at + 1,
                        forall|i: int| 0 <= i < old(self).lines@.len() ==> {
                            &&& (i < at || i > bottom) ==> #[trigger] self.lines@[i] == old(self).lines@[i]
                            &&& (at <= i <= bottom - k) ==> self.lines@[i] == old(self).lines@[i + k]
                            &&& (bottom - k < i <= bottom) ==> self.lines@[i]@.len() == 0
                        },
                    decreases count - k,
                {
                    let ghost prev = self.lines@;
                    self.scroll_rows(at, bottom);
                    assert forall|i: int| 0 <= i < old(self).lines@.len() implies {
                        &&& (i < at || i > bottom) ==> #[trigger] self.lines@[i] == old(self).lines@[i]
                        &&& (at <= i <= bottom - (k + 1)) ==> self.lines@[i] == old(self).lines@[i + k + 1]
                        &&& (bottom - (k + 1) < i <= bottom) ==> self.lines@[i]@.len() == 0
                    } by {
                        if at <= i < bottom {
                            assert(self.lines@[i] == prev[i + 1]);
                        }
                    }
                    k = k + 1;
                }
            }
        }
    }

    /// Inserts `count` blank rows at the cursor (at least one, at most to the
    /// region's bottom); the rows below move down and those pushed past the
    /// region's bottom are dropped. Nothing happens outside the scroll region.
    pub fn add_empty_lines_in_scroll_region(&mut self, count: usize)
        requires
            old(self).wf(),
        ensures
            final(self).wf(),
            final(self).cols == old(self).cols,
            final(self).rows == old(self).rows,
            final(self).cursor_line == old(self).cursor_line,
            final(self).cursor_col == old(self).cursor_col,
            final(self).viewport_offset == old(self).viewport_offset,
            final(self).scroll_region == old(self).scroll_region,
            final(self).lines@.len() == old(self).lines@.len(),
            !old(self).cursor_in_region() ==> *final(self) == *old(self),
            old(self).cursor_in_region() ==> ({
                let at = old(self).cursor_line as int;
                let bottom = old(self).region_bottom();
                let m = min(count as int, bottom - at + 1);
                forall|i: int| 0 <= i < old(self).lines@.len() ==> {
                    &&& (i < at || i > bottom) ==> #[trigger] final(self).lines@[i] == old(self).lines@[i]
                    &&& (at <= i < at + m) ==> final(self).lines@[i]@.len() == 0
                    &&& (at + m <= i <= bottom) ==> final(self).lines@[i] == old(self).lines@[i - m]
                }
            }),
    {
        let st = self.screen_top_exec();
        let n = self.lines.len();
        if let Some((t, b)) = self.scroll_region {
            if st + t - 1 <= self.cursor_line && self.cursor_line <= st + b - 1 {
                let bottom = st + b - 1;
                let at = self.cursor_line;
                let mut k: usize = 0;
                while k < count && k <= bottom - at
                    invariant
                        self.wf(),
                        self.cols == old(self).cols,
                        self.rows == old(self).rows,
                        self.cursor_line == old(self).cursor_line,
                        self.cursor_col == old(self).cursor_col,
                        self.viewport_offset == old(self).viewport_offset,
                        self.scroll_region == old(self).scroll_region,
                        self.lines@.len() == old(self).lines@.len(),
                        at == self.cursor_line,
                        at <= bottom < self.lines@.len(),
                        bottom == old(self).region_bottom(),
                        k <= count,
                        k <= bottom - at + 1,
                        forall|i: int| 0 <= i < old(self).lines@.len() ==> {
                            &&& (i < at || i > bottom) ==> #[trigger] self.lines@[i] == old(self).lines@[i]
                            &&& (at <= i < at + k) ==> self.lines@[i]@.len() == 0
                            &&& (at + k <= i <= bottom) ==> self.lines@[i] == old(self).lines@[i - k]
                        },
                    decreases count - k,
                {
                    let ghost prev = self.lines@;
                    self.scroll_rows(bottom, at);
                    assert forall|i: int| 0 <= i < old(self).lines@.len() implies {
                        &&& (i < at || i > bottom) ==> #[trigger] self.lines@[i] == old(self).lines@[i]
                        &&& (at <= i < at + k + 1) ==> self.lines@[i]@.len() == 0
                        &&& (at + k + 1 <= i <= bottom) ==> self.lines@[i] == old(self).lines@[i - k - 1]
                    } by {
                        if at < i <= bottom {
                            assert(self.lines@[i] == prev[i - 1]);
                        }
                    }
                    k = k + 1;
                }
            }
        }
    }

    /// The rows that the viewport shows, each exactly `cols` cells wide.
    pub fn as_character_lines(&self) -> (r: Vec<Vec<TerminalCharacter>>)
        requires
            self.wf(),
        ensures
            r@.len() == self.rows,
            forall|k: int| 0 <= k < self.rows ==> (#[trigger] r@[k])@ == self.visible_row(k),
    {
        let top = self.screen_top_exec() - self.viewport_offset;
        let n = self.lines.len();
        let mut out: Vec<Vec<TerminalCharacter>> = Vec::new();
        let mut k: usize = 0;
        while k < self.rows
            invariant
                self.wf(),
                top == self.view_top(),
                n == self.lines@.len(),
                k <= self.rows,
                out@.len() == k,
                forall|i: int| 0 <= i < k ==> (#[trigger] out@[i])@ == self.visible_row(i),
            decreases self.rows - k,
        {
            let source = &self.lines[top + k];
            let mut row: Vec<TerminalCharacter> = Vec::new();
            let mut j: usize = 0;
            while j < self.cols
                invariant
                    self.wf(),
                    top == self.view_top(),
                    k < self.rows,
                    *source == self.lines@[top + k],
                    j <= self.cols,
                    row@.len() == j,
                    forall|i: int| 0 <= i < j ==> #[trigger] row@[i] == self.visible_row(k as int)[i],
                decreases self.cols - j,
            {
                if j < source.len() {
                    row.push(source[j]);
                } else {
                    row.push(TerminalCharacter::blank());
                }
                j = j + 1;
            }
            assert(row@ =~= self.visible_row(k as int));
            out.push(row);
            k = k + 1;
        }
        out
    }

    /// The cursor's position on the screen, `(x, y)`.
    pub fn cursor_coordinates_on_screen(&self) -> (r: (usize, usize))
        requires
            self.wf(),
        ensures
            r.0 == self.cursor_on_screen().0,
            r.1 == self.cursor_on_screen().1,
    {
        let x = if self.cursor_col < self.cols { self.cursor_col } else { self.cols - 1 };
        (x, self.cursor_line - self.screen_top_exec())
    }

    /// Resizes the screen to `cols` by `rows`. Every canonical line is joined
    /// from its rows and wrapped again at the new width; the cursor keeps its
    /// place in its canonical line, blank rows below it are dropped, the
    /// screen is padded with blank rows to the new height, and the viewport
    /// returns to the screen. A scroll region
    /// that no longer fits is cleared.
    pub fn change_size(&mut self, cols: usize, rows: usize)
        requires
            old(self).wf(),
            cols >= 1,
            rows >= 1,
        ensures
            final(self).wf(),
            final(self).cols == cols,
            final(self).rows == rows,
            final(self).viewport_offset == 0,
            all_text(final(self).lines@) == all_text(old(self).lines@),
            forall|i: int| 0 < i < final(self).lines@.len() && #[trigger] final(self).continued@[i]
                ==> final(self).lines@[i - 1]@.len() == cols,
            final(self).scroll_region == match old(self).scroll_region {
                Some((t, b)) => if b <= rows { Some((t, b)) } else { None },
                None => None,
            },
    {
        let n = self.lines.len();
        let mut new_lines: Vec<Vec<TerminalCharacter>> = Vec::new();
        let mut new_continued: Vec<bool> = Vec::new();
        let mut cur_line: usize = 0;
        let mut cur_col: usize = 0;
        let mut i: usize = 0;
        while i < n
            invariant
                self.wf(),
                n == self.lines@.len(),
                cols >= 1,
                i <= n,
                new_lines@.len() == new_continued@.len(),
                forall|k: int| 0 <= k < new_lines@.len() ==> (#[trigger] new_lines@[k])@.len() <= cols,
                cur_line < new_lines@.len() || cur_line == 0,
                cur_col <= cols,
                all_text(new_lines@) == flat(self.lines@, i as int),
                forall|m: int| 0 < m < new_lines@.len() && #[trigger] new_continued@[m] ==> new_lines@[m - 1]@.len() == cols,
            decreases n - i,
        {
            let start = new_lines.len();
            let ghost done = all_text(new_lines@);
            let mut canonical: Vec<TerminalCharacter> = Vec::new();
            let mut cursor_at: Option<usize> = None;
            let mut j: usize = i;
            while j < n && (j == i || self.continued[j])
                invariant
                    self.wf(),
                    n == self.lines@.len(),
                    i <= j <= n,
                    flat(self.lines@, i as int) + canonical@ == flat(self.lines@, j as int),
                decreases n - j,
            {
                if j == self.cursor_line {
                    cursor_at = if canonical.len() <= usize::MAX - self.cursor_col {
                        Some(canonical.len() + self.cursor_col)
                    } else {
                        Some(usize::MAX)
                    };
                }
                let source = &self.lines[j];
                let ghost before = canonical@;
                let mut k: usize = 0;
                while k < source.len()
                    invariant
                        k <= source@.len(),
                        canonical@ == before + source@.subrange(0, k as int),
                    decreases source@.len() - k,
                {
                    canonical.push(source[k]);
                    k = k + 1;
                    assert(canonical@ =~= before + source@.subrange(0, k as int));
                }
                assert(source@.subrange(0, k as int) =~= source@);
                assert(flat(self.lines@, j + 1) == flat(self.lines@, j as int) + self.lines@[j as int]@);
                assert(flat(self.lines@, i as int) + canonical@ =~= flat(self.lines@, j + 1));
                j = j + 1;
            }
            let mut row: Vec<TerminalCharacter> = Vec::new();
            let mut first = true;
            let mut k: usize = 0;
            while k < canonical.len()
                invariant
                    cols >= 1,
                    start <= new_lines@.len(),
                    new_lines@.len() == new_continued@.len(),
                    forall|m: int| 0 <= m < new_lines@.len() ==> (#[trigger] new_lines@[m])@.len() <= cols,
                    row@.len() < cols,
                    first ==> new_lines@.len() == start,
                    !first ==> new_lines@.len() > start,
                    cur_line < new_lines@.len() || cur_line == 0,
                    k <= canonical@.len(),
                    all_text(new_lines@) + row@ == done + canonical@.subrange(0, k as int),
                    forall|m: int| 0 < m < new_lines@.len() && #[trigger] new_continued@[m] ==> new_lines@[m - 1]@.len() == cols,
                    !first ==> new_lines@[new_lines@.len() - 1]@.len() == cols,
                decreases canonical@.len() - k,
            {
                let ghost prev_row = row@;
                let ghost prev_k = k as int;
                row.push(canonical[k]);
                k = k + 1;
                assert(canonical@.subrange(0, k as int) =~= canonical@.subrange(0, prev_k).push(canonical@[prev_k]));
                assert(row@ == prev_row.push(canonical@[prev_k]));
                assert(all_text(new_lines@) + row@ =~= (all_text(new_lines@) + prev_row).push(canonical@[prev_k]));
                if row.len() == cols {
                    proof {
                        lemma_flat_push(new_lines@, row);
                    }
                    new_lines.push(row);
                    new_continued.push(!first);
                    first = false;
                    row = Vec::new();
                    assert(all_text(new_lines@) + row@ =~= done + canonical@.subrange(0, k as int));
                }
            }
            assert(canonical@.subrange(0, k as int) =~= canonical@);
            if row.len() > 0 || first {
                proof {
                    lemma_flat_push(new_lines@, row);
                }
                new_lines.push(row);
                new_continued.push(!first);
            } else {
                assert(row@ =~= Seq::<TerminalCharacter>::empty());
                assert(all_text(new_lines@) =~= all_text(new_lines@) + row@);
            }
            if let Some(offset) = cursor_at {
                let emitted = new_lines.len() - start;
                let q = offset / cols;
                if q < emitted {
                    cur_line = start + q;
                    cur_col = offset % cols;
                } else {
                    cur_line = new_lines.len() - 1;
                    cur_col = cols;
                }
            }
            i = j;
        }
        // blank rows below the cursor carry nothing: drop them before padding
        while new_lines.len() > cur_line + 1 && new_lines[new_lines.len() - 1].len() == 0
            invariant
                all_text(new_lines@) == all_text(old(self).lines@),
                forall|m: int| 0 < m < new_lines@.len() && #[trigger] new_continued@[m] ==> new_lines@[m - 1]@.len() == cols,
                new_lines@.len() == new_continued@.len(),
                forall|k: int| 0 <= k < new_lines@.len() ==> (#[trigger] new_lines@[k])@.len() <= cols,
                cur_line < new_lines@.len() || cur_line == 0,
            decreases new_lines@.len(),
        {
            proof {
                lemma_flat_drop_empty(new_lines@);
            }
            new_lines.pop();
            new_continued.pop();
        }
        while new_lines.len() < rows
            invariant
                all_text(new_lines@) == all_text(old(self).lines@),
                forall|m: int| 0 < m < new_lines@.len() && #[trigger] new_continued@[m] ==> new_lines@[m - 1]@.len() == cols,
                new_lines@.len() == new_continued@.len(),
                forall|k: int| 0 <= k < new_lines@.len() ==> (#[trigger] new_lines@[k])@.len() <= cols,
                cur_line < new_lines@.len() || cur_line == 0,
            decreases rows - new_lines@.len(),
        {
            let blank: Vec<TerminalCharacter> = Vec::new();
            proof {
                lemma_flat_push(new_lines@, blank);
                assert(all_text(new_lines@) + blank@ =~= all_text(new_lines@));
            }
            new_lines.push(blank);
            new_continued.push(false);
        }
        let top = new_lines.len() - rows;
        if cur_line < top {
            cur_line = top;
        }
        self.scroll_region = match self.scroll_region {
            Some((t, b)) => if b <= rows { Some((t, b)) } else { None },
            None => None,
        };
        self.lines = new_lines;
        self.continued = new_continued;
        self.cols = cols;
        self.rows = rows;
        self.cursor_line = cur_line;
        self.cursor_col = cur_col;
        self.viewport_offset = 0;
    }
}

}
