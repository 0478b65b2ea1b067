//! The layout engine: panes keyed by id, tiling the viewport, with splits,
//! resizes, closes, focus and the compositor.

use vstd::prelude::*;
use crate::error::ScreenError;
use crate::layout::{
    Frame, Rect, absorb_from_left, framed, bounded, fields_within, from_frame, frame_height, inside,
    lemma_frame_bounds, move_right_border, resized, kept_or_absorbed, lemma_close_candidate, absorbs, absorbed, unframed, first_side,
    closed_layout, last_in_strip, side_frame_spec, lemma_first_side, lemma_last_in_strip,
    lemma_empty_strip_leaves_gap, last_in_left_strip, reframe, tiles, tiles_exec,
    to_frame,
};
use crate::character::{ESC, decimal, push_decimal};
use crate::pane::{
    Size, TerminalPane, VteEvent, chars_to_string, goto_reset, pane_frame, push_goto_reset,
    same_geometry,
};

verus! {

/// How far one resize step moves a border sideways.
pub const RESIZE_COLUMNS: i64 = 10;

/// How far one resize step moves a border up or down.
pub const RESIZE_ROWS: i64 = 2;

/// Weight of a row against a column when picking the pane to split, as a
/// cell is about that much taller than wide.
pub const CELL_HEIGHT_TO_WIDTH: u64 = 4;

/// What the host must do for the screen.
#[derive(Clone, Copy, Debug, PartialEq, Eq, Structural)]
pub enum Action {
    /// Tell the pane's terminal its new size: `(pane, cols, rows)`.
    SetTerminalSize(i32, u16, u16),
    /// The pane was evicted: stop its terminal.
    ClosePane(i32),
    /// Send a byte of user input to the pane's terminal.
    WriteToTty(i32, u8),
}

/// An instruction for the screen, as the host delivers them.
#[derive(Debug)]
pub enum ScreenInstruction {
    Pty(i32, VteEvent),
    Render,
    NewPane(i32),
    HorizontalSplit(i32),
    VerticalSplit(i32),
    WriteCharacter(u8),
    ResizeLeft,
    ResizeRight,
    ResizeDown,
    ResizeUp,
    MoveFocus,
    Quit,
    ScrollUp,
    ScrollDown,
    ClearScroll,
    CloseFocusedPane,
    ClosePane(i32),
}

pub struct Screen {
    pub max_panes: Option<usize>,
    pub full_screen_ws: Size,
    /// Panes in ascending order of id.
    pub terminals: Vec<TerminalPane>,
    pub active_terminal: Option<i32>,
    /// Requests for the host, oldest first.
    pub actions: Vec<Action>,
}

pub open spec fn rect_of(p: TerminalPane) -> Rect {
    Rect { x: p.x_coords as i64, y: p.y_coords as i64, cols: p.display_cols as i64, rows: p.display_rows as i64 }
}

/// Interior halves of a length split with a one-cell border between them.
pub open spec fn first_half(n: int) -> int {
    (n - 1) / 2 + if n % 2 == 0 { 1int } else { 0int }
}

pub open spec fn second_half(n: int) -> int {
    (n - 1) / 2
}

/// The two panes that a split of `r` gives: side by side when `vertical`,
/// one above the other otherwise.
pub open spec fn split_rect(r: Rect, vertical: bool) -> (Rect, Rect) {
    if vertical {
        (
            Rect { cols: first_half(r.cols as int) as i64, ..r },
            Rect { x: (r.x + first_half(r.cols as int) + 1) as i64, cols: second_half(r.cols as int) as i64, ..r },
        )
    } else {
        (
            Rect { rows: first_half(r.rows as int) as i64, ..r },
            Rect { y: (r.y + first_half(r.rows as int) + 1) as i64, rows: second_half(r.rows as int) as i64, ..r },
        )
    }
}

/// Where `id` goes among the ascending `ids`.
pub open spec fn insertion_index(ids: Seq<i32>, id: i32) -> int
    decreases ids.len(),
{
    if ids.len() == 0 {
        0
    } else if ids.last() < id {
        ids.len() as int
    } else {
        insertion_index(ids.drop_last(), id)
    }
}

/// The weight by which the largest pane is chosen.
pub open spec fn weight(r: Rect) -> int {
    r.rows * CELL_HEIGHT_TO_WIDTH * r.cols
}

/// Index of the first heaviest of the first `n` rectangles.
pub open spec fn heaviest(rs: Seq<Rect>, n: int) -> int
    decreases n,
{
    if n <= 1 {
        0
    } else {
        let b = heaviest(rs, n - 1);
        if weight(rs[n - 1]) > weight(rs[b]) { n - 1 } else { b }
    }
}

/// A split of `r` is along its long side: one above the other when its
/// weighted height exceeds its width.
pub open spec fn splits_vertically(r: Rect) -> bool {
    !(r.rows * CELL_HEIGHT_TO_WIDTH > r.cols)
}

/// `new` keeps every request that `old` had queued, in order, and may add more.
pub open spec fn actions_kept(old: Screen, new: Screen) -> bool {
    &&& new.actions@.len() >= old.actions@.len()
    &&& forall|i: int| 0 <= i < old.actions@.len() ==> #[trigger] new.actions@[i] == old.actions@[i]
}

/// What opening pane `pid` leaves: in `new`, with result `r`, after `old`.
/// With `target_focused` the focused pane is split (side by side when
/// `vertical`), otherwise the heaviest pane along its long side.
pub open spec fn open_outcome(old: Screen, new: Screen, r: Result<(), ScreenError>, pid: i32, target_focused: bool, vertical: bool) -> bool {
    &&& (new.wf())
    &&& (new.full_screen_ws == old.full_screen_ws)
    &&& (new.max_panes == old.max_panes)
    &&& (old.ids().contains(pid) ==> r == Err::<(), ScreenError>(ScreenError::DuplicatePane(pid))
            && new.terminals == old.terminals
            && new.active_terminal == old.active_terminal)
    &&& (!old.ids().contains(pid) && old.under_cap() && old.terminals@.len() == 0 ==> {
            &&& r is Ok
            &&& new.ids() == seq![pid]
            &&& new.geometry() == seq![Rect { x: 0, y: 0, cols: old.vc() as i64, rows: old.vr() as i64 }]
            &&& new.actions@ == old.actions@.push(
                Action::SetTerminalSize(pid, old.full_screen_ws.cols, old.full_screen_ws.rows))
        })
    &&& (!old.ids().contains(pid) && old.under_cap() && old.terminals@.len() > 0 ==> {
            let target = if target_focused { old.active_index() } else {
                heaviest(old.geometry(), old.terminals@.len() as int)
            };
            let v = if target_focused { vertical } else { splits_vertically(old.geometry()[target]) };
            split_outcome(old, new, r, pid, target, v)
        })
    &&& (r is Ok ==> new.active_terminal == Some(pid))
    &&& (!old.ids().contains(pid) && !old.under_cap() && old.terminals@.len() > 0 ==> {
            &&& new.actions@.len() > old.actions@.len()
            &&& new.actions@[old.actions@.len() as int] == Action::ClosePane(old.ids()[0])
        })
}

/// `open_outcome` once there is room: no pane is closed first.
pub open spec fn place_outcome(old: Screen, new: Screen, r: Result<(), ScreenError>, pid: i32, target_focused: bool, vertical: bool) -> bool {
    &&& (new.wf())
    &&& (new.full_screen_ws == old.full_screen_ws)
    &&& (new.max_panes == old.max_panes)
    &&& (old.ids().contains(pid) ==> r == Err::<(), ScreenError>(ScreenError::DuplicatePane(pid))
            && new.terminals == old.terminals
            && new.active_terminal == old.active_terminal)
    &&& (!old.ids().contains(pid) && old.terminals@.len() == 0 ==> {
            &&& r is Ok
            &&& new.ids() == seq![pid]
            &&& new.geometry() == seq![Rect { x: 0, y: 0, cols: old.vc() as i64, rows: old.vr() as i64 }]
            &&& new.actions@ == old.actions@.push(
                Action::SetTerminalSize(pid, old.full_screen_ws.cols, old.full_screen_ws.rows))
        })
    &&& (!old.ids().contains(pid) && old.terminals@.len() > 0 ==> {
            let target = if target_focused { old.active_index() } else {
                heaviest(old.geometry(), old.terminals@.len() as int)
            };
            let v = if target_focused { vertical } else { splits_vertically(old.geometry()[target]) };
            split_outcome(old, new, r, pid, target, v)
        })
    &&& (r is Ok ==> new.active_terminal == Some(pid))
    &&& actions_kept(old, new)
}

/// What `resize_right` leaves in `new`, with result `r`, after `old`.
pub open spec fn resize_right_outcome(old: Screen, new: Screen, r: Result<(), ScreenError>) -> bool {
    &&& (new.wf())
    &&& (new.full_screen_ws == old.full_screen_ws)
    &&& (new.max_panes == old.max_panes)
    &&& (new.active_terminal == old.active_terminal)
    &&& (new.ids() == old.ids())
    &&& (r is Err ==> r == Err::<(), ScreenError>(ScreenError::ResizeInfeasible)
            && new.terminals == old.terminals)
    &&& (old.active_terminal.is_none() ==> r is Ok && new.terminals == old.terminals)
    &&& (old.active_terminal.is_some() ==> ({
            let g = old.focused_rect();
            if g.x + g.cols < old.vc() {
                &&& resize_outcome(old, new, r, Frame::Identity, (RESIZE_COLUMNS) as int)
                &&& r is Ok ==> new.focused_rect() == (Rect { cols: (g.cols + RESIZE_COLUMNS) as i64, ..g })
            } else if g.x > 0 {
                &&& resize_outcome(old, new, r, Frame::Mirror, (-RESIZE_COLUMNS) as int)
                &&& r is Ok ==> new.focused_rect() == (Rect { x: (g.x + RESIZE_COLUMNS) as i64, cols: (g.cols - RESIZE_COLUMNS) as i64, ..g })
            } else {
                r is Ok && new.terminals == old.terminals
            }
        }))
}

/// What `resize_left` leaves in `new`, with result `r`, after `old`.
pub open spec fn resize_left_outcome(old: Screen, new: Screen, r: Result<(), ScreenError>) -> bool {
    &&& (new.wf())
    &&& (new.full_screen_ws == old.full_screen_ws)
    &&& (new.max_panes == old.max_panes)
    &&& (new.active_terminal == old.active_terminal)
    &&& (new.ids() == old.ids())
    &&& (r is Err ==> r == Err::<(), ScreenError>(ScreenError::ResizeInfeasible)
            && new.terminals == old.terminals)
    &&& (old.active_terminal.is_none() ==> r is Ok && new.terminals == old.terminals)
    &&& (old.active_terminal.is_some() ==> ({
            let g = old.focused_rect();
            if g.x > 0 {
                &&& resize_outcome(old, new, r, Frame::Mirror, (RESIZE_COLUMNS) as int)
                &&& r is Ok ==> new.focused_rect() == (Rect { x: (g.x - RESIZE_COLUMNS) as i64, cols: (g.cols + RESIZE_COLUMNS) as i64, ..g })
            } else if g.x + g.cols < old.vc() {
                &&& resize_outcome(old, new, r, Frame::Identity, (-RESIZE_COLUMNS) as int)
                &&& r is Ok ==> new.focused_rect() == (Rect { cols: (g.cols - RESIZE_COLUMNS) as i64, ..g })
            } else {
                r is Ok && new.terminals == old.terminals
            }
        }))
}

/// What `resize_down` leaves in `new`, with result `r`, after `old`.
pub open spec fn resize_down_outcome(old: Screen, new: Screen, r: Result<(), ScreenError>) -> bool {
    &&& (new.wf())
    &&& (new.full_screen_ws == old.full_screen_ws)
    &&& (new.max_panes == old.max_panes)
    &&& (new.active_terminal == old.active_terminal)
    &&& (new.ids() == old.ids())
    &&& (r is Err ==> r == Err::<(), ScreenError>(ScreenError::ResizeInfeasible)
            && new.terminals == old.terminals)
    &&& (old.active_terminal.is_none() ==> r is Ok && new.terminals == old.terminals)
    &&& (old.active_terminal.is_some() ==> ({
            let g = old.focused_rect();
            if g.y + g.rows < old.vr() {
                &&& resize_outcome(old, new, r, Frame::Transpose, (RESIZE_ROWS) as int)
                &&& r is Ok ==> new.focused_rect() == (Rect { rows: (g.rows + RESIZE_ROWS) as i64, ..g })
            } else if g.y > 0 {
                &&& resize_outcome(old, new, r, Frame::TransposeMirror, (-RESIZE_ROWS) as int)
                &&& r is Ok ==> new.focused_rect() == (Rect { y: (g.y + RESIZE_ROWS) as i64, rows: (g.rows - RESIZE_ROWS) as i64, ..g })
            } else {
                r is Ok && new.terminals == old.terminals
            }
        }))
}

/// What `resize_up` leaves in `new`, with result `r`, after `old`.
pub open spec fn resize_up_outcome(old: Screen, new: Screen, r: Result<(), ScreenError>) -> bool {
    &&& (new.wf())
    &&& (new.full_screen_ws == old.full_screen_ws)
    &&& (new.max_panes == old.max_panes)
    &&& (new.active_terminal == old.active_terminal)
    &&& (new.ids() == old.ids())
    &&& (r is Err ==> r == Err::<(), ScreenError>(ScreenError::ResizeInfeasible)
            && new.terminals == old.terminals)
    &&& (old.active_terminal.is_none() ==> r is Ok && new.terminals == old.terminals)
    &&& (old.active_terminal.is_some() ==> ({
            let g = old.focused_rect();
            if g.y > 0 {
                &&& resize_outcome(old, new, r, Frame::TransposeMirror, (RESIZE_ROWS) as int)
                &&& r is Ok ==> new.focused_rect() == (Rect { y: (g.y - RESIZE_ROWS) as i64, rows: (g.rows + RESIZE_ROWS) as i64, ..g })
            } else if g.y + g.rows < old.vr() {
                &&& resize_outcome(old, new, r, Frame::Transpose, (-RESIZE_ROWS) as int)
                &&& r is Ok ==> new.focused_rect() == (Rect { rows: (g.rows - RESIZE_ROWS) as i64, ..g })
            } else {
                r is Ok && new.terminals == old.terminals
            }
        }))
}

/// `r` without its success value.
pub open spec fn unit_result(r: Result<bool, ScreenError>) -> Result<(), ScreenError> {
    match r {
        Ok(_) => Ok(()),
        Err(e) => Err(e),
    }
}

/// The pane with the lowest id of `s` can be closed.
pub open spec fn can_close_first(s: Screen) -> bool {
    let g = s.geometry();
    let side = first_side(g, 0, s.vc(), s.vr(), 0);
    side < 4 && tiles(closed_layout(g, 0, side, s.vc(), s.vr()), s.vc(), s.vr())
}

/// Making room under `max_panes = Some(m)` for one more pane: the panes
/// with the lowest ids are closed one by one, each first announced with a
/// `ClosePane` request, until `m - 1` are left, unless the lowest pane
/// cannot be closed, which stops it.
pub open spec fn eviction_outcome(old: Screen, new: Screen) -> bool {
    let n0 = old.terminals@.len() as int;
    let n = new.terminals@.len() as int;
    !old.under_cap() && n0 > 0 ==> {
        let m = old.max_panes.unwrap() as int;
        &&& n <= n0
        &&& new.ids() == old.ids().subrange(n0 - n, n0)
        &&& new.actions@.len() > old.actions@.len()
        &&& new.actions@[old.actions@.len() as int] == Action::ClosePane(old.ids()[0])
        &&& actions_kept(old, new)
        &&& n == m - 1 || (n >= m && !can_close_first(new))
    }
}

/// What closing pane `id` of `old` leaves in `new` with result `r`. The
/// sides are tried left, right, above, below; the first whose neighbours'
/// borders meet the pane's edges takes it over, each neighbour within its
/// span growing over it and the border before it. That happens, and the
/// result is `Ok(true)`, exactly when the layout it gives tiles the
/// viewport; otherwise nothing changes and the result is `Ok(false)` (so
/// for the last pane). Focus on the closed pane moves to the last pane
/// that grew.
pub open spec fn close_outcome(old: Screen, new: Screen, id: i32, r: Result<bool, ScreenError>) -> bool {
    let g = old.geometry();
    let k = old.ids().index_of(id);
    let side = first_side(g, k, old.vc(), old.vr(), 0);
    let t = framed(g, side_frame_spec(side), old.vc(), old.vr());
    let last = last_in_strip(t, k, g.len() as int);
    &&& new.wf()
    &&& new.full_screen_ws == old.full_screen_ws
    &&& new.max_panes == old.max_panes
    &&& actions_kept(old, new)
    &&& (!old.ids().contains(id) <==> r == Err::<bool, ScreenError>(ScreenError::UnknownPane(id)))
    &&& (old.ids().contains(id) <==> r is Ok)
    &&& old.ids().contains(id) ==> (r == Ok::<bool, ScreenError>(true) <==> side < 4
        && tiles(closed_layout(g, k, side, old.vc(), old.vr()), old.vc(), old.vr()))
    &&& !(r == Ok::<bool, ScreenError>(true)) ==> {
        &&& new.terminals == old.terminals
        &&& new.active_terminal == old.active_terminal
    }
    &&& r == Ok::<bool, ScreenError>(true) ==> {
        &&& new.geometry() == closed_layout(g, k, side, old.vc(), old.vr())
        &&& new.ids() == old.ids().remove(k)
        &&& new.terminals@.len() > 0
        &&& 0 <= last < g.len()
        &&& old.active_terminal == Some(id) ==> new.active_terminal == Some(old.ids()[last])
        &&& old.active_terminal != Some(id) ==> new.active_terminal == old.active_terminal
        &&& forall|m: int| 0 <= m < new.terminals@.len() ==> kept_or_absorbed(
            g[if m < k { m } else { m + 1 }],
            #[trigger] new.geometry()[m],
            g[k],
        )
    }
}

/// The layout after the right border of pane `k`, seen in frame `f`, moved
/// by `delta`, brought back to the viewport.
pub open spec fn resize_layout(g: Seq<Rect>, k: int, f: Frame, delta: int, vc: int, vr: int) -> Seq<Rect> {
    unframed(resized(framed(g, f, vc, vr), k, delta, frame_height(f, vc, vr)), f, vc, vr)
}

/// What moving the focused pane's border in frame `f` by `delta` leaves:
/// the move happens, with `Ok`, exactly when its layout tiles the viewport.
pub open spec fn resize_outcome(old: Screen, new: Screen, r: Result<(), ScreenError>, f: Frame, delta: int) -> bool {
    let l = resize_layout(old.geometry(), old.active_index(), f, delta, old.vc(), old.vr());
    &&& (r is Ok <==> tiles(l, old.vc(), old.vr()))
    &&& r is Ok ==> new.geometry() == l
}

/// A pane can be split in two when the side it is split along has room for
/// two interiors and the border between them.
pub open spec fn splittable(r: Rect, vertical: bool) -> bool {
    if vertical { r.cols >= 3 } else { r.rows >= 3 }
}

/// What a split of pane `target` of `old` leaves in `new` with result `r`.
pub open spec fn split_outcome(old: Screen, new: Screen, r: Result<(), ScreenError>, pid: i32, target: int, vertical: bool) -> bool {
    let halves = split_rect(old.geometry()[target], vertical);
    let pos = insertion_index(old.ids(), pid);
    let cand = old.geometry().update(target, halves.0).insert(pos, halves.1);
    &&& (r is Ok <==> tiles(cand, old.vc(), old.vr()))
    &&& (r is Ok <==> splittable(old.geometry()[target], vertical))
    &&& r is Ok ==> {
        &&& new.geometry() == cand
        &&& new.ids() == old.ids().insert(pos, pid)
        &&& new.active_terminal == Some(pid)
        &&& new.actions@ == old.actions@ + seq![
            Action::SetTerminalSize(old.ids()[target], halves.0.cols as u16, halves.0.rows as u16),
            Action::SetTerminalSize(pid, halves.1.cols as u16, halves.1.rows as u16),
        ]
        &&& forall|j: int| 0 <= j < old.terminals@.len() && j != target
            ==> new.terminals@[if j < pos { j } else { j + 1 }] == #[trigger] old.terminals@[j]
    }
    &&& r is Err ==> {
        &&& r == Err::<(), ScreenError>(ScreenError::ResizeInfeasible)
        &&& new.terminals == old.terminals
        &&& new.active_terminal == old.active_terminal
        &&& new.actions == old.actions
    }
}


/// The text drawing the panes among the first `n` of `ps` that changed.
pub open spec fn bodies_text(ps: Seq<TerminalPane>, n: int) -> Seq<char>
    decreases n,
{
    if n <= 0 {
        Seq::empty()
    } else {
        bodies_text(ps, n - 1) + if ps[n - 1].should_render { pane_frame(ps[n - 1]) } else { Seq::empty() }
    }
}

/// `ESC [ row+1 ; col+1 H` followed by `ch`: one border cell.
pub open spec fn cell_text(row: int, col: int, ch: char) -> Seq<char> {
    seq![ESC, '['] + decimal((row + 1) as nat) + seq![';'] + decimal((col + 1) as nat) + seq!['H', ch]
}

/// The border cells at column `col`, rows `top..top+n`.
pub open spec fn column_cells(col: int, top: int, n: int) -> Seq<char>
    decreases n,
{
    if n <= 0 { Seq::empty() } else { column_cells(col, top, n - 1) + cell_text(top + n - 1, col, '\u{2502}') }
}

/// The border cells at row `row`, columns `left..left+n`.
pub open spec fn row_cells(row: int, left: int, n: int) -> Seq<char>
    decreases n,
{
    if n <= 0 { Seq::empty() } else { row_cells(row, left, n - 1) + cell_text(row, left + n - 1, '\u{2500}') }
}

/// The border a pane owns: the column right of it, the row below it and
/// the corner between them, where they lie inside the viewport.
pub open spec fn rect_border(r: Rect, vc: int, vr: int) -> Seq<char> {
    let right = r.x + r.cols;
    let below = r.y + r.rows;
    (if right < vc { column_cells(right, r.y as int, r.rows as int) } else { Seq::empty() })
        + (if below < vr { row_cells(below, r.x as int, r.cols as int) } else { Seq::empty() })
        + (if right < vc && below < vr { cell_text(below, right, '\u{253c}') } else { Seq::empty() })
}

/// The borders of the first `n` rectangles.
pub open spec fn border_text(rs: Seq<Rect>, vc: int, vr: int, n: int) -> Seq<char>
    decreases n,
{
    if n <= 0 { Seq::empty() } else { border_text(rs, vc, vr, n - 1) + rect_border(rs[n - 1], vc, vr) }
}

/// Appends one border cell.
fn push_cell(out: &mut Vec<char>, row: u64, col: u64, ch: char)
    requires
        row < 0x10000,
        col < 0x10000,
    ensures
        final(out)@ == old(out)@ + cell_text(row as int, col as int, ch),
{
    out.push(ESC);
    out.push('[');
    push_decimal(out, row + 1);
    out.push(';');
    push_decimal(out, col + 1);
    out.push('H');
    out.push(ch);
    assert(final(out)@ =~= old(out)@ + cell_text(row as int, col as int, ch));
}

/// Appends the border that rectangle `r` owns.
fn push_rect_border(out: &mut Vec<char>, r: Rect, vc: i64, vr: i64)
    requires
        inside(r, vc as int, vr as int),
        vc <= 65535,
        vr <= 65535,
    ensures
        final(out)@ == old(out)@ + rect_border(r, vc as int, vr as int),
{
    let ghost start = out@;
    let right = r.x + r.cols;
    let below = r.y + r.rows;
    if right < vc {
        let mut k: i64 = 0;
        while k < r.rows
            invariant
                inside(r, vc as int, vr as int),
                vc <= 65535,
                vr <= 65535,
                right == r.x + r.cols,
                0 <= k <= r.rows,
                out@ == start + column_cells(right as int, r.y as int, k as int),
            decreases r.rows - k,
        {
            push_cell(out, (r.y + k) as u64, right as u64, '\u{2502}');
            k = k + 1;
        }
    }
    let ghost mid = out@;
    if below < vr {
        let mut k: i64 = 0;
        while k < r.cols
            invariant
                inside(r, vc as int, vr as int),
                vc <= 65535,
                vr <= 65535,
                below == r.y + r.rows,
                0 <= k <= r.cols,
                out@ == mid + row_cells(below as int, r.x as int, k as int),
            decreases r.cols - k,
        {
            push_cell(out, below as u64, (r.x + k) as u64, '\u{2500}');
            k = k + 1;
        }
    }
    let ghost mid2 = out@;
    if right < vc && below < vr {
        push_cell(out, below as u64, right as u64, '\u{253c}');
    }
    assert(final(out)@ =~= old(out)@ + rect_border(r, vc as int, vr as int));
}

impl Screen {
    pub open spec fn vc(&self) -> int {
        self.full_screen_ws.cols as int
    }

    pub open spec fn vr(&self) -> int {
        self.full_screen_ws.rows as int
    }

    pub open spec fn geometry(&self) -> Seq<Rect> {
        Seq::new(self.terminals@.len(), |k: int| rect_of(self.terminals@[k]))
    }

    pub open spec fn ids(&self) -> Seq<i32> {
        Seq::new(self.terminals@.len(), |k: int| self.terminals@[k].pid)
    }

    /// Everything but the tiling: sound panes in ascending id order, and a
    /// focus that names one of them, absent only when there is none.
    pub open spec fn wf_base(&self) -> bool {
        &&& 1 <= self.full_screen_ws.cols
        &&& 1 <= self.full_screen_ws.rows
        &&& forall|k: int| 0 <= k < self.terminals@.len() ==> (#[trigger] self.terminals@[k]).wf()
        &&& forall|a: int, b: int| 0 <= a < b < self.terminals@.len()
            ==> (#[trigger] self.terminals@[a]).pid < (#[trigger] self.terminals@[b]).pid
        &&& match self.active_terminal {
            None => self.terminals@.len() == 0,
            Some(id) => self.ids().contains(id),
        }
    }

    /// The screen invariant: panes tile the viewport whenever there are any.
    pub open spec fn wf(&self) -> bool {
        &&& self.wf_base()
        &&& self.terminals@.len() > 0 ==> tiles(self.geometry(), self.vc(), self.vr())
    }

    /// Index of the focused pane.
    pub open spec fn active_index(&self) -> int {
        self.ids().index_of(self.active_terminal.unwrap())
    }

    /// An empty screen of `full_screen_ws`, holding at most `max_panes` panes
    /// when that is given.
    pub fn new(full_screen_ws: Size, max_panes: Option<usize>) -> (r: Screen)
        requires
            full_screen_ws.cols >= 1,
            full_screen_ws.rows >= 1,
        ensures
            r.wf(),
            r.terminals@.len() == 0,
            r.active_terminal.is_none(),
            r.full_screen_ws == full_screen_ws,
            r.max_panes == max_panes,
            r.actions@.len() == 0,
    {
        Screen {
            max_panes,
            full_screen_ws,
            terminals: Vec::new(),
            active_terminal: None,
            actions: Vec::new(),
        }
    }

    /// Hands over the requests gathered so far.
    pub fn take_actions(&mut self) -> (r: Vec<Action>)
        ensures
            r@ == old(self).actions@,
            final(self).actions@.len() == 0,
            final(self).terminals == old(self).terminals,
            final(self).active_terminal == old(self).active_terminal,
            final(self).full_screen_ws == old(self).full_screen_ws,
            final(self).max_panes == old(self).max_panes,
    {
        let mut r: Vec<Action> = Vec::new();
        std::mem::swap(&mut r, &mut self.actions);
        r
    }

    /// Index of the pane `id`, if there is one.
    fn index_of(&self, id: i32) -> (r: Option<usize>)
        requires
            self.wf_base(),
        ensures
            match r {
                Some(k) => k < self.terminals@.len() && self.terminals@[k as int].pid == id
                    && self.ids().index_of(id) == k,
                None => !self.ids().contains(id),
            },
    {
        let mut k: usize = 0;
        while k < self.terminals.len()
            invariant
                self.wf_base(),
                k <= self.terminals@.len(),
                forall|m: int| 0 <= m < k ==> self.terminals@[m].pid != id,
            decreases self.terminals@.len() - k,
        {
            if self.terminals[k].pid == id {
                proof {
                    assert(self.ids()[k as int] == id);
                    self.lemma_index_of(k as int);
                }
                return Some(k);
            }
            k = k + 1;
        }
        proof {
            if self.ids().contains(id) {
                let m = choose|m: int| 0 <= m < self.ids().len() && self.ids()[m] == id;
                assert(self.terminals@[m].pid == id);
            }
        }
        None
    }

    /// Ids are unique, so a pane's id finds its index.
    pub proof fn lemma_index_of(&self, k: int)
        requires
            self.wf_base(),
            0 <= k < self.terminals@.len(),
        ensures
            self.ids().index_of(self.terminals@[k].pid) == k,
    {
        let id = self.terminals@[k].pid;
        assert(self.ids()[k] == id);
        let j = self.ids().index_of(id);
        assert(self.ids().contains(id));
        if j != k {
            if j < k {
                assert(self.terminals@[j].pid < self.terminals@[k].pid);
            } else {
                assert(self.terminals@[k].pid < self.terminals@[j].pid);
            }
        }
    }

    /// The focused pane's index.
    fn active_index_exec(&self) -> (r: Option<usize>)
        requires
            self.wf_base(),
        ensures
            match r {
                Some(k) => self.active_terminal.is_some() && k == self.active_index()
                    && k < self.terminals@.len() && self.terminals@[k as int].pid == self.active_terminal.unwrap(),
                None => self.active_terminal.is_none(),
            },
    {
        match self.active_terminal {
            Some(id) => self.index_of(id),
            None => None,
        }
    }

    /// The rectangles of all panes, in order.
    fn geometry_exec(&self) -> (r: Vec<Rect>)
        requires
            self.wf_base(),
        ensures
            r@ == self.geometry(),
    {
        let mut r: Vec<Rect> = Vec::new();
        let mut k: usize = 0;
        while k < self.terminals.len()
            invariant
                k <= self.terminals@.len(),
                r@.len() == k,
                forall|m: int| 0 <= m < k ==> #[trigger] r@[m] == rect_of(self.terminals@[m]),
            decreases self.terminals@.len() - k,
        {
            let p = &self.terminals[k];
            r.push(Rect { x: p.x_coords as i64, y: p.y_coords as i64, cols: p.display_cols as i64, rows: p.display_rows as i64 });
            k = k + 1;
        }
        assert(r@ =~= self.geometry());
        r
    }

    /// Moves every pane to its rectangle in `rs`; each pane that changes is
    /// redrawn and its terminal is told its new size.
    fn apply_geometry(&mut self, rs: &Vec<Rect>)
        requires
            old(self).wf_base(),
            rs@.len() == old(self).terminals@.len(),
            forall|k: int| 0 <= k < rs@.len() ==> inside(#[trigger] rs@[k], old(self).vc(), old(self).vr()),
        ensures
            final(self).wf_base(),
            final(self).geometry() == rs@,
            final(self).ids() == old(self).ids(),
            final(self).active_terminal == old(self).active_terminal,
            final(self).full_screen_ws == old(self).full_screen_ws,
            final(self).max_panes == old(self).max_panes,
            actions_kept(*old(self), *final(self)),
            forall|k: int| 0 <= k < rs@.len() && rs@[k] == old(self).geometry()[k]
                ==> #[trigger] final(self).terminals@[k] == old(self).terminals@[k],
    {
        let n = self.terminals.len();
        let mut k: usize = 0;
        while k < n
            invariant
                n == self.terminals@.len(),
                n == rs@.len(),
                n == old(self).terminals@.len(),
                k <= n,
                old(self).wf_base(),
                self.wf_base(),
                self.full_screen_ws == old(self).full_screen_ws,
                self.max_panes == old(self).max_panes,
                self.active_terminal == old(self).active_terminal,
                actions_kept(*old(self), *self),
                forall|m: int| 0 <= m < rs@.len() ==> inside(#[trigger] rs@[m], old(self).vc(), old(self).vr()),
                forall|m: int| 0 <= m < n ==> (#[trigger] self.terminals@[m]).pid == old(self).terminals@[m].pid,
                forall|m: int| 0 <= m < k ==> rect_of(#[trigger] self.terminals@[m]) == rs@[m],
                forall|m: int| k <= m < n ==> #[trigger] self.terminals@[m] == old(self).terminals@[m],
                forall|m: int| 0 <= m < k && rs@[m] == old(self).geometry()[m]
                    ==> #[trigger] self.terminals@[m] == old(self).terminals@[m],
            decreases n - k,
        {
            let r = rs[k];
            assert(inside(rs@[k as int], old(self).vc(), old(self).vr()));
            let p = &self.terminals[k];
            let unchanged = p.x_coords as i64 == r.x && p.y_coords as i64 == r.y
                && p.display_cols as i64 == r.cols && p.display_rows as i64 == r.rows;
            if !unchanged {
                let ghost before = self.terminals@;
                let mut pane = self.terminals.remove(k);
                assert(pane == before[k as int]);
                let ghost pid = pane.pid;
                pane.x_coords = r.x as u16;
                pane.y_coords = r.y as u16;
                pane.change_size(Size { cols: r.cols as u16, rows: r.rows as u16 });
                self.actions.push(Action::SetTerminalSize(pane.pid, pane.display_cols, pane.display_rows));
                self.terminals.insert(k, pane);
                assert(pane.pid == pid);
                assert(self.terminals@ =~= before.update(k as int, pane));
                assert forall|m: int| 0 <= m < n implies (#[trigger] self.terminals@[m]).pid == old(self).terminals@[m].pid by {
                    if m == k {
                        assert(self.terminals@[m] == pane);
                    } else {
                        assert(self.terminals@[m] == before[m]);
                    }
                }
                assert forall|m: int| 0 <= m < n implies self.ids()[m] == old(self).ids()[m] by {
                    assert(self.terminals@[m].pid == old(self).terminals@[m].pid);
                }
                assert(self.ids() =~= old(self).ids());
                proof {
                    match self.active_terminal {
                        Some(id) => {
                            let j = choose|j: int| 0 <= j < old(self).ids().len() && old(self).ids()[j] == id;
                            assert(self.ids()[j] == id);
                        },
                        None => {},
                    }
                }
            }
            k = k + 1;
        }
        assert(self.geometry() =~= rs@);
        assert(self.ids() =~= old(self).ids());
    }
}


/// In ascending `ids`, the index of the first id above `id` is where `id` goes.
pub proof fn lemma_insertion_index(ids: Seq<i32>, id: i32, k: int)
    requires
        0 <= k <= ids.len(),
        forall|m: int| 0 <= m < k ==> ids[m] < id,
        forall|m: int| k <= m < ids.len() ==> ids[m] > id,
    ensures
        insertion_index(ids, id) == k,
    decreases ids.len(),
{
    if ids.len() > 0 {
        if ids.last() < id {
            assert(!(k <= ids.len() - 1));
        } else {
            lemma_insertion_index(ids.drop_last(), id, k);
        }
    }
}

impl Screen {
    /// Where a pane with the new id `pid` goes.
    fn insertion_index_exec(&self, pid: i32) -> (r: usize)
        requires
            self.wf_base(),
            !self.ids().contains(pid),
        ensures
            r <= self.terminals@.len(),
            r == insertion_index(self.ids(), pid),
            forall|m: int| 0 <= m < r ==> self.terminals@[m].pid < pid,
            forall|m: int| r <= m < self.terminals@.len() ==> self.terminals@[m].pid > pid,
    {
        let mut k: usize = 0;
        while k < self.terminals.len() && self.terminals[k].pid < pid
            invariant
                self.wf_base(),
                k <= self.terminals@.len(),
                forall|m: int| 0 <= m < k ==> self.terminals@[m].pid < pid,
            decreases self.terminals@.len() - k,
        {
            k = k + 1;
        }
        proof {
            assert forall|m: int| k <= m < self.terminals@.len() implies self.terminals@[m].pid > pid by {
                assert(self.ids()[m] == self.terminals@[m].pid);
                if self.terminals@[m].pid == pid {
                    assert(self.ids().contains(pid));
                }
                if m > k {
                    assert(self.terminals@[k as int].pid < self.terminals@[m].pid);
                }
            }
            lemma_insertion_index(self.ids(), pid, k as int);
        }
        k
    }

    /// The first pane fills the viewport.
    fn first_pane(&mut self, pid: i32)
        requires
            old(self).wf(),
            old(self).terminals@.len() == 0,
        ensures
            final(self).wf(),
            final(self).ids() == seq![pid],
            final(self).geometry() == seq![Rect { x: 0, y: 0, cols: old(self).vc() as i64, rows: old(self).vr() as i64 }],
            final(self).active_terminal == Some(pid),
            final(self).full_screen_ws == old(self).full_screen_ws,
            final(self).max_panes == old(self).max_panes,
            final(self).actions@ == old(self).actions@.push(
                Action::SetTerminalSize(pid, old(self).full_screen_ws.cols, old(self).full_screen_ws.rows)),
    {
        let pane = TerminalPane::new(pid, self.full_screen_ws, 0, 0);
        self.actions.push(Action::SetTerminalSize(pid, pane.display_cols, pane.display_rows));
        self.terminals.push(pane);
        self.active_terminal = Some(pid);
        assert(self.ids() =~= seq![pid]);
        assert(self.ids()[0] == pid);
        let ghost whole = Rect { x: 0, y: 0, cols: self.vc() as i64, rows: self.vr() as i64 };
        assert(self.geometry() =~= seq![whole]);
        assert(crate::layout::area_sum(self.geometry(), 0) == 0);
        assert(self.geometry()[0] == whole);
        assert(crate::layout::area_sum(self.geometry(), 1) == crate::layout::ext_area(whole));
    }

    /// Splits pane `target` in two: it keeps the first half and a new pane
    /// `pid` takes the second half and the focus. Refused, with nothing
    /// changed, when the result would not tile the viewport.
    #[verifier::rlimit(100)]
    #[verifier::spinoff_prover]
    fn split_pane(&mut self, pid: i32, target: usize, vertical: bool) -> (r: Result<(), ScreenError>)
        requires
            old(self).wf(),
            target < old(self).terminals@.len(),
            !old(self).ids().contains(pid),
        ensures
            final(self).wf(),
            final(self).full_screen_ws == old(self).full_screen_ws,
            final(self).max_panes == old(self).max_panes,
            split_outcome(*old(self), *final(self), r, pid, target as int, vertical),
    {
        let ghost acts0 = self.actions@;
        let g = self.geometry_exec();
        let t = g[target];
        assert(inside(self.geometry()[target as int], self.vc(), self.vr()));
        let (a, b) = if vertical {
            let first = (t.cols - 1) / 2 + if t.cols % 2 == 0 { 1 } else { 0 };
            (Rect { cols: first, ..t }, Rect { x: t.x + first + 1, cols: (t.cols - 1) / 2, ..t })
        } else {
            let first = (t.rows - 1) / 2 + if t.rows % 2 == 0 { 1 } else { 0 };
            (Rect { rows: first, ..t }, Rect { y: t.y + first + 1, rows: (t.rows - 1) / 2, ..t })
        };
        assert((a, b) == split_rect(self.geometry()[target as int], vertical));
        let pos = self.insertion_index_exec(pid);
        let mut cand = g;
        cand.set(target, a);
        cand.insert(pos, b);
        proof {
            let tr = self.geometry()[target as int];
            assert(cand@ == self.geometry().update(target as int, a).insert(pos as int, b));
            if splittable(tr, vertical) {
                if vertical {
                    assert(a.cols + b.cols + 1 == tr.cols);
                    assert(crate::layout::ext_area(a) + crate::layout::ext_area(b) == crate::layout::ext_area(tr)) by (nonlinear_arith)
                        requires
                            a.cols + b.cols + 1 == tr.cols,
                            a.rows == tr.rows,
                            b.rows == tr.rows,
                    ;
                } else {
                    assert(a.rows + b.rows + 1 == tr.rows);
                    assert(crate::layout::ext_area(a) + crate::layout::ext_area(b) == crate::layout::ext_area(tr)) by (nonlinear_arith)
                        requires
                            a.rows + b.rows + 1 == tr.rows,
                            a.cols == tr.cols,
                            b.cols == tr.cols,
                    ;
                }
                crate::layout::lemma_replace_by_two(self.geometry(), target as int, a, b, pos as int, self.vc(), self.vr());
            } else {
                assert(!inside(cand@[pos as int], self.vc(), self.vr()));
            }
        }
        if !tiles_exec(&cand, self.full_screen_ws.cols as i64, self.full_screen_ws.rows as i64) {
            return Err(ScreenError::ResizeInfeasible);
        }
        let ghost cand_view = cand@;
        let ghost old_ids = self.ids();
        assert(inside(cand@[target as int], self.vc(), self.vr()));
        assert(inside(cand@[pos as int], self.vc(), self.vr()));
        let ghost before = self.terminals@;
        let mut pane = self.terminals.remove(target);
        assert(pane == before[target as int]);
        pane.change_size(Size { cols: a.cols as u16, rows: a.rows as u16 });
        self.actions.push(Action::SetTerminalSize(pane.pid, pane.display_cols, pane.display_rows));
        self.terminals.insert(target, pane);
        assert(self.terminals@ =~= before.update(target as int, pane));
        let new_pane = TerminalPane::new(pid, Size { cols: b.cols as u16, rows: b.rows as u16 }, b.x as u16, b.y as u16);
        self.actions.push(Action::SetTerminalSize(pid, new_pane.display_cols, new_pane.display_rows));
        assert(self.actions@ =~= acts0 + seq![
            Action::SetTerminalSize(old_ids[target as int], a.cols as u16, a.rows as u16),
            Action::SetTerminalSize(pid, b.cols as u16, b.rows as u16),
        ]) by {
            assert(old_ids[target as int] == before[target as int].pid);
        }
        let ghost mid = self.terminals@;
        self.terminals.insert(pos, new_pane);
        self.active_terminal = Some(pid);
        assert(self.terminals@ =~= mid.insert(pos as int, new_pane));
        assert(self.ids() =~= old_ids.insert(pos as int, pid));
        assert(self.geometry() =~= cand_view);
        assert(self.ids()[pos as int] == pid);
        assert forall|m: int, q: int| 0 <= m < q < self.terminals@.len()
            implies (#[trigger] self.terminals@[m]).pid < (#[trigger] self.terminals@[q]).pid by {
            assert(self.ids()[m] == self.terminals@[m].pid);
            assert(self.ids()[q] == self.terminals@[q].pid);
            if m < pos && q < pos {
                assert(before[m].pid < before[q].pid);
            } else if m < pos && q == pos {
            } else if m < pos {
                assert(before[m].pid < before[q - 1].pid);
            } else if m == pos {
            } else {
                assert(before[m - 1].pid < before[q - 1].pid);
            }
        }
        assert forall|m: int| 0 <= m < self.terminals@.len() implies (#[trigger] self.terminals@[m]).wf() by {
            if m < pos {
                assert(self.terminals@[m] == mid[m]);
            } else if m > pos {
                assert(self.terminals@[m] == mid[m - 1]);
            }
        }
        assert forall|j: int| 0 <= j < before.len() && j != target
            implies self.terminals@[if j < pos { j } else { j + 1 }] == #[trigger] before[j] by {
            assert(mid[j] == before[j]);
        }
        assert(old_ids[target as int] == pane.pid);
        Ok(())
    }
}


/// The frames in which the neighbours on the left, right, above and below
/// of a pane appear on its left.
fn side_frame(side: usize) -> (f: Frame)
    ensures
        f == side_frame_spec(side as int),
{
    if side == 0 {
        Frame::Identity
    } else if side == 1 {
        Frame::Mirror
    } else if side == 2 {
        Frame::Transpose
    } else {
        Frame::TransposeMirror
    }
}

impl Screen {
    /// The rectangles of a tiled screen are small enough to move between frames.
    proof fn lemma_geometry_bounded(&self)
        requires
            self.wf(),
        ensures
            bounded(self.geometry(), 65535),
            forall|f: Frame| bounded(#[trigger] framed(self.geometry(), f, self.vc(), self.vr()), 0x30000),
    {
        if self.terminals@.len() > 0 {
            assert forall|k: int| 0 <= k < self.geometry().len() implies fields_within(#[trigger] self.geometry()[k], 65535) by {
                assert(inside(self.geometry()[k], self.vc(), self.vr()));
            }
        }
        assert forall|f: Frame| bounded(#[trigger] framed(self.geometry(), f, self.vc(), self.vr()), 0x30000) by {
            assert forall|k: int| 0 <= k < self.geometry().len() implies
                fields_within(#[trigger] framed(self.geometry(), f, self.vc(), self.vr())[k], 0x30000) by {
                assert(fields_within(self.geometry()[k], 65535));
                lemma_frame_bounds(self.geometry()[k], f, self.vc(), self.vr(), 65535);
            }
        }
    }

    /// Closes pane `id`: the panes bordering it on one side, whose borders
    /// meet its top and bottom (or left and right) edges, grow over its area
    /// and the border before it. The sides are tried left, right, above,
    /// below. When no side can take the area (the last pane, for one) the
    /// pane stays and the result is `Ok(false)`. Focus on the closed pane
    /// moves to the last pane that grew.
    #[verifier::rlimit(80)]
    pub fn close_pane_without_rerender(&mut self, id: i32) -> (r: Result<bool, ScreenError>)
        requires
            old(self).wf(),
        ensures
            close_outcome(*old(self), *final(self), id, r),
    {
        let k = match self.index_of(id) {
            None => {
                return Err(ScreenError::UnknownPane(id));
            },
            Some(k) => k,
        };
        assert(self.ids()[k as int] == id);
        let vc = self.full_screen_ws.cols as i64;
        let vr = self.full_screen_ws.rows as i64;
        let g = self.geometry_exec();
        let n = g.len();
        proof {
            self.lemma_geometry_bounded();
        }
        let mut side: usize = 0;
        while side < 4
            invariant
                self.wf(),
                *self == *old(self),
                self.ids().contains(id),
                k < self.terminals@.len(),
                n == self.terminals@.len(),
                self.terminals@[k as int].pid == id,
                self.ids().index_of(id) == k,
                g@ == self.geometry(),
                vc == self.vc(),
                vr == self.vr(),
                side <= 4,
                bounded(self.geometry(), 65535),
                forall|f: Frame| bounded(#[trigger] framed(self.geometry(), f, self.vc(), self.vr()), 0x30000),
                forall|q: int| 0 <= q < side ==> !absorbs(#[trigger] framed(self.geometry(), side_frame_spec(q), self.vc(), self.vr()), k as int),
            decreases 4 - side,
        {
            let f = side_frame(side);
            let t = reframe(&g, f, vc, vr, false);
            assert(t@ =~= framed(self.geometry(), f, self.vc(), self.vr()));
            match absorb_from_left(&t, k) {
                None => {
                    side = side + 1;
                },
                Some(out) => {
                    proof {
                        lemma_first_side(self.geometry(), k as int, self.vc(), self.vr(), 0, side as int);
                    }
                    assert(out@ =~= absorbed(t@, k as int));
                    let mut cand = reframe(&out, f, vc, vr, true);
                    let ghost back = cand@;
                    cand.remove(k);
                    assert(back =~= unframed(out@, f, self.vc(), self.vr()));
                    assert(cand@ =~= closed_layout(self.geometry(), k as int, side as int, self.vc(), self.vr()));
                    if !tiles_exec(&cand, vc, vr) {
                        return Ok(false);
                    }
                    proof {
                        assert((self.vc() + 1) * (self.vr() + 1) > 0) by (nonlinear_arith)
                            requires
                                self.vc() >= 1,
                                self.vr() >= 1,
                        ;
                    }
                    let last = last_in_left_strip(&t, k);
                    proof {
                        lemma_last_in_strip(t@, k as int, n as int);
                        if last.is_none() {
                            lemma_empty_strip_leaves_gap(self.geometry(), k as int, side as int, self.vc(), self.vr());
                        }
                    }
                    let last = match last {
                        Some(l) => l,
                        None => {
                            return Ok(false);
                        },
                    };
                    proof {
                        lemma_close_candidate(self.geometry(), t@, out@, back, cand@, k as int, f, self.vc(), self.vr());
                        assert(inside(self.geometry()[k as int], self.vc(), self.vr()));
                        assert(last != k);
                    }
                    self.commit_close(k, &cand, last);
                    return Ok(true);
                },
            }
        }
        proof {
            lemma_first_side(self.geometry(), k as int, self.vc(), self.vr(), 0, 4);
        }
        Ok(false)
    }

    /// Removes pane `k` and moves the others to `cand`; focus on pane `k`
    /// moves to pane `last`.
    fn commit_close(&mut self, k: usize, cand: &Vec<Rect>, last: usize)
        requires
            old(self).wf(),
            k < old(self).terminals@.len(),
            last < old(self).terminals@.len(),
            last != k,
            cand@.len() + 1 == old(self).terminals@.len(),
            tiles(cand@, old(self).vc(), old(self).vr()),
        ensures
            final(self).wf(),
            final(self).full_screen_ws == old(self).full_screen_ws,
            final(self).max_panes == old(self).max_panes,
            final(self).geometry() == cand@,
            final(self).ids() == old(self).ids().remove(k as int),
            actions_kept(*old(self), *final(self)),
            old(self).active_terminal == Some(old(self).terminals@[k as int].pid)
                ==> final(self).active_terminal == Some(old(self).terminals@[last as int].pid),
            old(self).active_terminal != Some(old(self).terminals@[k as int].pid)
                ==> final(self).active_terminal == old(self).active_terminal,
    {
        let id = self.terminals[k].pid;
        if self.active_terminal == Some(id) {
            self.active_terminal = Some(self.terminals[last].pid);
        }
        let ghost focus = self.active_terminal.unwrap();
        let ghost before = self.terminals@;
        proof {
            assert(self.ids().contains(focus)) by {
                if old(self).active_terminal == Some(id) {
                    assert(self.ids()[last as int] == focus);
                }
            }
            let j = choose|j: int| 0 <= j < self.ids().len() && self.ids()[j] == focus;
            assert(self.terminals@[j].pid == focus);
            if j == k {
                if old(self).active_terminal == Some(id) {
                    if last < k {
                        assert(self.terminals@[last as int].pid < self.terminals@[k as int].pid);
                    } else {
                        assert(self.terminals@[k as int].pid < self.terminals@[last as int].pid);
                    }
                }
            }
            assert(j != k);
        }
        self.terminals.remove(k);
        assert(self.terminals@ =~= before.remove(k as int));
        assert(self.ids() =~= old(self).ids().remove(k as int));
        proof {
            let j = choose|j: int| 0 <= j < before.len() && before[j].pid == focus && j != k;
            let jj = if j < k { j } else { j - 1 };
            assert(self.ids()[jj] == focus);
            assert forall|a: int, b: int| 0 <= a < b < self.terminals@.len()
                implies (#[trigger] self.terminals@[a]).pid < (#[trigger] self.terminals@[b]).pid by {
                let a0 = if a < k { a } else { a + 1 };
                let b0 = if b < k { b } else { b + 1 };
                assert(before[a0].pid < before[b0].pid);
            }
            assert forall|m: int| 0 <= m < self.terminals@.len() implies (#[trigger] self.terminals@[m]).wf() by {
                let m0 = if m < k { m } else { m + 1 };
                assert(before[m0].wf());
            }
        }
        self.apply_geometry(cand);
    }
}


impl Screen {
    /// No pane has to go before one more is opened.
    pub open spec fn under_cap(&self) -> bool {
        match self.max_panes {
            None => true,
            Some(m) => self.terminals@.len() < m,
        }
    }

    /// The focused pane's rectangle.
    pub open spec fn focused_rect(&self) -> Rect {
        self.geometry()[self.active_index()]
    }

    /// Makes room under `max_panes` by closing the panes with the lowest ids,
    /// asking the host to stop each of them.
    fn close_down_to_max_terminals(&mut self)
        requires
            old(self).wf(),
        ensures
            final(self).wf(),
            final(self).full_screen_ws == old(self).full_screen_ws,
            final(self).max_panes == old(self).max_panes,
            old(self).under_cap() ==> final(self).terminals == old(self).terminals
                && final(self).active_terminal == old(self).active_terminal
                && final(self).actions == old(self).actions,
            eviction_outcome(*old(self), *final(self)),
            old(self).terminals@.len() == 0 ==> *final(self) == *old(self),
    {
        let ghost n0 = self.terminals@.len() as int;
        if let Some(m) = self.max_panes {
            if self.terminals.len() >= m && self.terminals.len() > 0 {
                let mut remaining: usize = self.terminals.len() - m;
                let mut more = true;
                let ghost mut done: int = 0;
                proof {
                    assert(self.ids().subrange(0, n0) =~= self.ids());
                }
                while more && self.terminals.len() > 0
                    invariant
                        self.wf(),
                        self.full_screen_ws == old(self).full_screen_ws,
                        self.max_panes == old(self).max_panes,
                        self.max_panes == Some(m),
                        n0 == old(self).terminals@.len(),
                        n0 >= m,
                        n0 > 0,
                        self.terminals@.len() > 0,
                        self.terminals@.len() <= n0,
                        self.ids() == old(self).ids().subrange(n0 - self.terminals@.len(), n0),
                        more ==> done == (n0 - m) - remaining,
                        !more ==> done == n0 - m + 1,
                        self.terminals@.len() + done >= n0,
                        self.terminals@.len() + done > n0 ==> !can_close_first(*self),
                        actions_kept(*old(self), *self),
                        done == 0 ==> *self == *old(self),
                        done >= 1 ==> self.actions@.len() > old(self).actions@.len()
                            && self.actions@[old(self).actions@.len() as int] == Action::ClosePane(old(self).ids()[0]),
                    decreases remaining + (if more { 1int } else { 0int }),
                {
                    let first = self.terminals[0].pid;
                    let ghost before = *self;
                    proof {
                        self.lemma_index_of(0);
                        assert(self.ids()[0] == first);
                        assert(old(self).ids()[n0 - self.terminals@.len()] == first);
                    }
                    self.actions.push(Action::ClosePane(first));
                    let r = self.close_pane_without_rerender(first);
                    proof {
                        assert(before.ids().contains(first)) by {
                            assert(before.ids()[0] == first);
                        }
                        if r == Ok::<bool, ScreenError>(true) {
                            assert(self.ids() =~= old(self).ids().subrange(n0 - self.terminals@.len(), n0));
                        } else {
                            assert(!can_close_first(before));
                            assert(self.geometry() =~= before.geometry());
                        }
                        done = done + 1;
                    }
                    if remaining == 0 {
                        more = false;
                    } else {
                        remaining = remaining - 1;
                    }
                }
            }
        }
    }

    /// Opens pane `pid`, after making room under `max_panes`: in an empty
    /// screen it fills the viewport, else the focused pane is split in two,
    /// side by side when `vertical`, and the new pane takes the focus.
    #[verifier::rlimit(100)]
    #[verifier::spinoff_prover]
    fn open_pane(&mut self, pid: i32, target_focused: bool, vertical: bool) -> (r: Result<(), ScreenError>)
        requires
            old(self).wf(),
        ensures
            open_outcome(*old(self), *final(self), r, pid, target_focused, vertical),
    {
        if let Some(k) = self.index_of(pid) {
            assert(self.ids()[k as int] == pid);
            return Err(ScreenError::DuplicatePane(pid));
        }
        self.close_down_to_max_terminals();
        let ghost mid = *self;
        let r = self.place_pane(pid, target_focused, vertical);
        proof {
            if old(self).under_cap() {
                assert(mid == *old(self));
            } else if old(self).terminals@.len() > 0 {
                let n0 = old(self).terminals@.len() as int;
                let a = n0 - mid.terminals@.len();
                assert(mid.ids() == old(self).ids().subrange(a, n0));
                if mid.ids().contains(pid) {
                    let q = choose|q: int| 0 <= q < mid.ids().len() && mid.ids()[q] == pid;
                    assert(old(self).ids()[a + q] == pid);
                }
                assert(final(self).actions@[old(self).actions@.len() as int] == mid.actions@[old(self).actions@.len() as int]);
            } else {
                assert(mid == *old(self));
            }
        }
        r
    }

    /// Opens pane `pid` when there is room (see `place_outcome`).
    #[verifier::rlimit(100)]
    #[verifier::spinoff_prover]
    fn place_pane(&mut self, pid: i32, target_focused: bool, vertical: bool) -> (r: Result<(), ScreenError>)
        requires
            old(self).wf(),
        ensures
            place_outcome(*old(self), *final(self), r, pid, target_focused, vertical),
    {
        let ghost mid = *self;
        if let Some(k) = self.index_of(pid) {
            assert(self.ids()[k as int] == pid);
            return Err(ScreenError::DuplicatePane(pid));
        }
        if self.terminals.len() == 0 {
            self.first_pane(pid);
            return Ok(());
        }
        if target_focused {
            let k = match self.active_index_exec() {
                Some(k) => k,
                None => 0,
            };
            let r = self.split_pane(pid, k, vertical);
            assert(r is Ok ==> self.actions@ == mid.actions@ + seq![
                Action::SetTerminalSize(mid.ids()[k as int], split_rect(mid.geometry()[k as int], vertical).0.cols as u16,
                    split_rect(mid.geometry()[k as int], vertical).0.rows as u16),
                Action::SetTerminalSize(pid, split_rect(mid.geometry()[k as int], vertical).1.cols as u16,
                    split_rect(mid.geometry()[k as int], vertical).1.rows as u16),
            ]);
            assert(self.actions@.len() >= mid.actions@.len());
            assert(forall|q: int| 0 <= q < mid.actions@.len() ==> #[trigger] self.actions@[q] == mid.actions@[q]);
            r
        } else {
            let g = self.geometry_exec();
            let k = self.heaviest_exec(&g);
            let t = g[k];
            let v = !(t.rows * 4 > t.cols);
            let r = self.split_pane(pid, k, v);
            assert(self.actions@.len() >= mid.actions@.len());
            assert(forall|q: int| 0 <= q < mid.actions@.len() ==> #[trigger] self.actions@[q] == mid.actions@[q]);
            r
        }
    }

    /// Index of the first heaviest rectangle.
    fn heaviest_exec(&self, g: &Vec<Rect>) -> (r: usize)
        requires
            self.wf(),
            g@ == self.geometry(),
            g@.len() > 0,
        ensures
            r == heaviest(g@, g@.len() as int),
            r < g@.len(),
    {
        proof {
            assert(tiles(self.geometry(), self.vc(), self.vr()));
        }
        let mut best: usize = 0;
        let mut best_weight: u64 = 0;
        let mut k: usize = 0;
        while k < g.len()
            invariant
                self.wf(),
                g@ == self.geometry(),
                g@.len() > 0,
                k <= g@.len(),
                best < g@.len(),
                k > 0 ==> best == heaviest(g@, k as int),
                k > 0 ==> best_weight == weight(g@[best as int]),
                k == 0 ==> best == 0 && best_weight == 0,
            decreases g@.len() - k,
        {
            let r = g[k];
            assert(inside(g@[k as int], self.vc(), self.vr()));
            assert(0 <= r.rows * 4 * r.cols <= 65535 * 4 * 65535) by (nonlinear_arith)
                requires
                    1 <= r.rows <= 65535,
                    1 <= r.cols <= 65535,
            ;
            let w = (r.rows * 4 * r.cols) as u64;
            if k == 0 || w > best_weight {
                if k == 0 {
                    assert(heaviest(g@, 1) == 0);
                }
                best = k;
                best_weight = w;
            }
            k = k + 1;
        }
        best
    }

    /// Opens pane `pid`: in an empty screen it fills the viewport; else the
    /// heaviest pane (by rows weighted four to one against columns, the first
    /// of equals) is split along its long side and `pid` takes the focus.
    /// Before that, when the screen holds `max_panes` or more, the panes with
    /// the lowest ids are closed. An id in use is refused, as is a split of a
    /// pane too small to halve.
    pub fn new_pane(&mut self, pid: i32) -> (r: Result<(), ScreenError>)
        requires
            old(self).wf(),
        ensures
            open_outcome(*old(self), *final(self), r, pid, false, false),
    {
        self.open_pane(pid, false, false)
    }

    /// Splits the focused pane into a top and a bottom half; the new pane
    /// `pid` takes the bottom half and the focus. In an empty screen it
    /// fills the viewport.
    pub fn horizontal_split(&mut self, pid: i32) -> (r: Result<(), ScreenError>)
        requires
            old(self).wf(),
        ensures
            open_outcome(*old(self), *final(self), r, pid, true, false),
    {
        self.open_pane(pid, true, false)
    }

    /// Splits the focused pane into a left and a right half; the new pane
    /// `pid` takes the right half and the focus. In an empty screen it fills
    /// the viewport.
    pub fn vertical_split(&mut self, pid: i32) -> (r: Result<(), ScreenError>)
        requires
            old(self).wf(),
        ensures
            open_outcome(*old(self), *final(self), r, pid, true, true),
    {
        self.open_pane(pid, true, true)
    }

    /// Closes pane `id` (see `close_pane_without_rerender`).
    pub fn close_pane(&mut self, id: i32) -> (r: Result<bool, ScreenError>)
        requires
            old(self).wf(),
        ensures
            close_outcome(*old(self), *final(self), id, r),
    {
        self.close_pane_without_rerender(id)
    }

    /// Asks the host to stop the focused pane's terminal and closes the pane.
    pub fn close_focused_pane(&mut self) -> (r: Result<bool, ScreenError>)
        requires
            old(self).wf(),
        ensures
            old(self).active_terminal.is_none() ==> r == Ok::<bool, ScreenError>(false)
                && final(self).terminals == old(self).terminals
                && final(self).actions == old(self).actions
                && final(self).full_screen_ws == old(self).full_screen_ws
                && final(self).wf(),
            old(self).active_terminal.is_some() ==> {
                let id = old(self).active_terminal.unwrap();
                &&& close_outcome(*old(self), *final(self), id, r)
                &&& final(self).actions@[old(self).actions@.len() as int] == Action::ClosePane(id)
            },
    {
        match self.active_terminal {
            None => Ok(false),
            Some(id) => {
                self.actions.push(Action::ClosePane(id));
                let ghost mid = *self;
                let r = self.close_pane_without_rerender(id);
                assert(self.actions@[old(self).actions@.len() as int] == mid.actions@[old(self).actions@.len() as int]);
                r
            },
        }
    }

    /// Moves focus to the pane after the focused one in id order, from the
    /// last back to the first.
    pub fn move_focus(&mut self)
        requires
            old(self).wf(),
        ensures
            final(self).wf(),
            final(self).terminals == old(self).terminals,
            final(self).full_screen_ws == old(self).full_screen_ws,
            final(self).max_panes == old(self).max_panes,
            old(self).terminals@.len() == 0 ==> final(self).active_terminal.is_none(),
            old(self).terminals@.len() > 0 ==> final(self).active_terminal == Some(
                old(self).ids()[(old(self).active_index() + 1) % (old(self).terminals@.len() as int)],
            ),
    {
        let n = self.terminals.len();
        if let Some(k) = self.active_index_exec() {
            let next = if k + 1 < n { k + 1 } else { 0 };
            proof {
                if k + 1 < n {
                    vstd::arithmetic::div_mod::lemma_small_mod((k + 1) as nat, n as nat);
                } else {
                    vstd::arithmetic::div_mod::lemma_mod_self_0(n as int);
                }
            }
            assert(next as int == (k + 1) % (n as int));
            self.active_terminal = Some(self.terminals[next].pid);
            assert(self.ids()[next as int] == self.terminals@[next as int].pid);
        }
    }

    /// Moves a border of the focused pane `k` by `delta` as seen in frame
    /// `f`, keeping the layout when the result would not tile.
    fn resize_in_frame(&mut self, k: usize, f: Frame, delta: i64) -> (r: Result<(), ScreenError>)
        requires
            old(self).wf(),
            k < old(self).terminals@.len(),
            -65536 <= delta <= 65536,
        ensures
            final(self).wf(),
            final(self).full_screen_ws == old(self).full_screen_ws,
            final(self).max_panes == old(self).max_panes,
            final(self).active_terminal == old(self).active_terminal,
            final(self).ids() == old(self).ids(),
            r is Err ==> r == Err::<(), ScreenError>(ScreenError::ResizeInfeasible)
                && final(self).terminals == old(self).terminals,
            r is Ok ==> ({
                let t = to_frame(old(self).geometry()[k as int], f, old(self).vc(), old(self).vr());
                final(self).geometry()[k as int] == from_frame(
                    Rect { cols: (t.cols + delta) as i64, ..t }, f, old(self).vc(), old(self).vr())
            }),
            r is Ok <==> tiles(resize_layout(old(self).geometry(), k as int, f, delta as int, old(self).vc(), old(self).vr()),
                old(self).vc(), old(self).vr()),
            r is Ok ==> final(self).geometry() == resize_layout(old(self).geometry(), k as int, f, delta as int, old(self).vc(), old(self).vr()),
    {
        let vc = self.full_screen_ws.cols as i64;
        let vr = self.full_screen_ws.rows as i64;
        let g = self.geometry_exec();
        proof {
            self.lemma_geometry_bounded();
        }
        let t = reframe(&g, f, vc, vr, false);
        assert(t@ =~= framed(self.geometry(), f, self.vc(), self.vr()));
        let height = if f == Frame::Transpose || f == Frame::TransposeMirror { vc } else { vr };
        assert(height == frame_height(f, self.vc(), self.vr()));
        let out = move_right_border(&t, k, delta, height);
        let back = reframe(&out, f, vc, vr, true);
        assert(back@ =~= resize_layout(self.geometry(), k as int, f, delta as int, self.vc(), self.vr()));
        if !tiles_exec(&back, vc, vr) {
            return Err(ScreenError::ResizeInfeasible);
        }
        self.apply_geometry(&back);
        Ok(())
    }


    /// Moves the focused pane's right border right by `RESIZE_COLUMNS` when there
    /// are panes to its right; else moves its left border right by as much.
    pub fn resize_right(&mut self) -> (r: Result<(), ScreenError>)
        requires
            old(self).wf(),
        ensures
            resize_right_outcome(*old(self), *final(self), r),
    {
        let k = match self.active_index_exec() {
            None => {
                return Ok(());
            },
            Some(k) => k,
        };
        proof {
            assert(inside(self.geometry()[k as int], self.vc(), self.vr()));
        }
        let p = &self.terminals[k];
        if (p.x_coords as u32 + p.display_cols as u32) < self.full_screen_ws.cols as u32 {
            self.resize_in_frame(k, Frame::Identity, RESIZE_COLUMNS)
        } else if p.x_coords > 0 {
            self.resize_in_frame(k, Frame::Mirror, -RESIZE_COLUMNS)
        } else {
            Ok(())
        }
    }

    /// Moves the focused pane's left border left by `RESIZE_COLUMNS` when there
    /// are panes to its left; else moves its right border left by as much.
    pub fn resize_left(&mut self) -> (r: Result<(), ScreenError>)
        requires
            old(self).wf(),
        ensures
            resize_left_outcome(*old(self), *final(self), r),
    {
        let k = match self.active_index_exec() {
            None => {
                return Ok(());
            },
            Some(k) => k,
        };
        proof {
            assert(inside(self.geometry()[k as int], self.vc(), self.vr()));
        }
        let p = &self.terminals[k];
        if p.x_coords > 0 {
            self.resize_in_frame(k, Frame::Mirror, RESIZE_COLUMNS)
        } else if (p.x_coords as u32 + p.display_cols as u32) < self.full_screen_ws.cols as u32 {
            self.resize_in_frame(k, Frame::Identity, -RESIZE_COLUMNS)
        } else {
            Ok(())
        }
    }

    /// Moves the focused pane's bottom border down by `RESIZE_ROWS` when there
    /// are panes below it; else moves its top border down by as much.
    pub fn resize_down(&mut self) -> (r: Result<(), ScreenError>)
        requires
            old(self).wf(),
        ensures
            resize_down_outcome(*old(self), *final(self), r),
    {
        let k = match self.active_index_exec() {
            None => {
                return Ok(());
            },
            Some(k) => k,
        };
        proof {
            assert(inside(self.geometry()[k as int], self.vc(), self.vr()));
        }
        let p = &self.terminals[k];
        if (p.y_coords as u32 + p.display_rows as u32) < self.full_screen_ws.rows as u32 {
            self.resize_in_frame(k, Frame::Transpose, RESIZE_ROWS)
        } else if p.y_coords > 0 {
            self.resize_in_frame(k, Frame::TransposeMirror, -RESIZE_ROWS)
        } else {
            Ok(())
        }
    }

    /// Moves the focused pane's top border up by `RESIZE_ROWS` when there are
    /// panes above it; else moves its bottom border up by as much.
    pub fn resize_up(&mut self) -> (r: Result<(), ScreenError>)
        requires
            old(self).wf(),
        ensures
            resize_up_outcome(*old(self), *final(self), r),
    {
        let k = match self.active_index_exec() {
            None => {
                return Ok(());
            },
            Some(k) => k,
        };
        proof {
            assert(inside(self.geometry()[k as int], self.vc(), self.vr()));
        }
        let p = &self.terminals[k];
        if p.y_coords > 0 {
            self.resize_in_frame(k, Frame::TransposeMirror, RESIZE_ROWS)
        } else if (p.y_coords as u32 + p.display_rows as u32) < self.full_screen_ws.rows as u32 {
            self.resize_in_frame(k, Frame::Transpose, -RESIZE_ROWS)
        } else {
            Ok(())
        }
    }

    /// A pane of `new` that replaced pane `k` of `old` in place keeps the
    /// screen invariant.
    proof fn lemma_replace_pane(old: Screen, new: Screen, k: int)
        requires
            old.wf(),
            0 <= k < old.terminals@.len(),
            new.terminals@ == old.terminals@.update(k, new.terminals@[k]),
            new.terminals@[k].wf(),
            same_geometry(new.terminals@[k], old.terminals@[k]),
            new.active_terminal == old.active_terminal,
            new.full_screen_ws == old.full_screen_ws,
        ensures
            new.wf(),
            new.geometry() == old.geometry(),
            new.ids() == old.ids(),
    {
        assert(new.geometry() =~= old.geometry());
        assert(new.ids() =~= old.ids());
        assert forall|a: int, b: int| 0 <= a < b < new.terminals@.len()
            implies (#[trigger] new.terminals@[a]).pid < (#[trigger] new.terminals@[b]).pid by {
            assert(old.terminals@[a].pid < old.terminals@[b].pid);
        }
        assert forall|m: int| 0 <= m < new.terminals@.len() implies (#[trigger] new.terminals@[m]).wf() by {
            if m != k {
                assert(new.terminals@[m] == old.terminals@[m]);
            }
        }
    }

    /// Routes a VT event to pane `pid`.
    pub fn handle_pty_event(&mut self, pid: i32, event: VteEvent) -> (r: Result<(), ScreenError>)
        requires
            old(self).wf(),
        ensures
            final(self).wf(),
            final(self).geometry() == old(self).geometry(),
            final(self).ids() == old(self).ids(),
            final(self).active_terminal == old(self).active_terminal,
            final(self).full_screen_ws == old(self).full_screen_ws,
            !old(self).ids().contains(pid) ==> r == Err::<(), ScreenError>(ScreenError::UnknownPane(pid))
                && final(self).terminals == old(self).terminals,
            old(self).ids().contains(pid) ==> {
                let k = old(self).ids().index_of(pid);
                &&& crate::pane::event_effect(old(self).terminals@[k], final(self).terminals@[k], event, r)
                &&& forall|m: int| 0 <= m < old(self).terminals@.len() && m != k
                    ==> #[trigger] final(self).terminals@[m] == old(self).terminals@[m]
                &&& final(self).actions == old(self).actions
            },
    {
        let k = match self.index_of(pid) {
            None => {
                return Err(ScreenError::UnknownPane(pid));
            },
            Some(k) => k,
        };
        assert(self.ids()[k as int] == pid);
        let ghost before = *self;
        let mut pane = self.terminals.remove(k);
        let r = pane.handle_event(event);
        self.terminals.insert(k, pane);
        proof {
            assert(self.terminals@ =~= before.terminals@.update(k as int, pane));
            Screen::lemma_replace_pane(before, *self, k as int);
        }
        r
    }

    /// Asks the host to send `byte` to the focused pane's terminal.
    pub fn write_to_active_terminal(&mut self, byte: u8)
        requires
            old(self).wf(),
        ensures
            final(self).wf(),
            final(self).terminals == old(self).terminals,
            final(self).active_terminal == old(self).active_terminal,
            final(self).full_screen_ws == old(self).full_screen_ws,
            final(self).max_panes == old(self).max_panes,
            final(self).actions@ == match old(self).active_terminal {
                Some(id) => old(self).actions@.push(Action::WriteToTty(id, byte)),
                None => old(self).actions@,
            },
    {
        if let Some(id) = self.active_terminal {
            self.actions.push(Action::WriteToTty(id, byte));
        }
    }

    /// Scrolls the focused pane one row back into its scrollback.
    pub fn scroll_active_terminal_up(&mut self)
        requires
            old(self).wf(),
        ensures
            final(self).wf(),
            final(self).geometry() == old(self).geometry(),
            final(self).ids() == old(self).ids(),
            final(self).active_terminal == old(self).active_terminal,
            final(self).full_screen_ws == old(self).full_screen_ws,
            final(self).actions == old(self).actions,
            old(self).active_terminal.is_some() ==> forall|m: int| 0 <= m < old(self).terminals@.len()
                && m != old(self).active_index() ==> #[trigger] final(self).terminals@[m] == old(self).terminals@[m],
            old(self).active_terminal.is_none() ==> final(self).terminals == old(self).terminals,
            old(self).active_terminal.is_some() ==> ({
                let p = old(self).terminals@[old(self).active_index()];
                final(self).terminals@[old(self).active_index()].scroll.viewport_offset
                    == crate::grid::min(p.scroll.viewport_offset + 1, p.scroll.screen_top())
            }),
    {
        if let Some(k) = self.active_index_exec() {
            let ghost before = *self;
            let mut pane = self.terminals.remove(k);
            pane.scroll_up(1);
            self.terminals.insert(k, pane);
            proof {
                assert(self.terminals@ =~= before.terminals@.update(k as int, pane));
                Screen::lemma_replace_pane(before, *self, k as int);
            }
        }
    }

    /// Scrolls the focused pane one row towards its screen.
    pub fn scroll_active_terminal_down(&mut self)
        requires
            old(self).wf(),
        ensures
            final(self).wf(),
            final(self).geometry() == old(self).geometry(),
            final(self).ids() == old(self).ids(),
            final(self).active_terminal == old(self).active_terminal,
            final(self).full_screen_ws == old(self).full_screen_ws,
            final(self).actions == old(self).actions,
            old(self).active_terminal.is_some() ==> forall|m: int| 0 <= m < old(self).terminals@.len()
                && m != old(self).active_index() ==> #[trigger] final(self).terminals@[m] == old(self).terminals@[m],
            old(self).active_terminal.is_none() ==> final(self).terminals == old(self).terminals,
            old(self).active_terminal.is_some() ==> ({
                let p = old(self).terminals@[old(self).active_index()];
                final(self).terminals@[old(self).active_index()].scroll.viewport_offset
                    == if p.scroll.viewport_offset == 0 { 0 } else { (p.scroll.viewport_offset - 1) as usize }
            }),
    {
        if let Some(k) = self.active_index_exec() {
            let ghost before = *self;
            let mut pane = self.terminals.remove(k);
            pane.scroll_down(1);
            self.terminals.insert(k, pane);
            proof {
                assert(self.terminals@ =~= before.terminals@.update(k as int, pane));
                Screen::lemma_replace_pane(before, *self, k as int);
            }
        }
    }

    /// Brings the focused pane back from its scrollback to its screen.
    pub fn clear_active_terminal_scroll(&mut self)
        requires
            old(self).wf(),
        ensures
            final(self).wf(),
            final(self).geometry() == old(self).geometry(),
            final(self).ids() == old(self).ids(),
            final(self).active_terminal == old(self).active_terminal,
            final(self).full_screen_ws == old(self).full_screen_ws,
            final(self).actions == old(self).actions,
            old(self).active_terminal.is_some() ==> forall|m: int| 0 <= m < old(self).terminals@.len()
                && m != old(self).active_index() ==> #[trigger] final(self).terminals@[m] == old(self).terminals@[m],
            old(self).active_terminal.is_none() ==> final(self).terminals == old(self).terminals,
            old(self).active_terminal.is_some()
                ==> final(self).terminals@[old(self).active_index()].scroll.viewport_offset == 0,
    {
        if let Some(k) = self.active_index_exec() {
            let ghost before = *self;
            let mut pane = self.terminals.remove(k);
            pane.clear_scroll();
            self.terminals.insert(k, pane);
            proof {
                assert(self.terminals@ =~= before.terminals@.update(k as int, pane));
                Screen::lemma_replace_pane(before, *self, k as int);
            }
        }
    }

    /// Where the hardware cursor goes: the focused pane's cursor, on the
    /// whole screen.
    pub open spec fn cursor_text(&self) -> Seq<char> {
        match self.active_terminal {
            Some(_) => {
                let p = self.terminals@[self.active_index()];
                goto_reset(
                    (p.y_coords + p.scroll.cursor_on_screen().1 + 1) as nat,
                    (p.x_coords + p.scroll.cursor_on_screen().0 + 1) as nat,
                )
            },
            None => Seq::empty(),
        }
    }

    /// One frame: each pane that changed draws itself (in id order), then
    /// the borders, then the cursor goes to the focused pane's cursor. The
    /// panes are then marked as drawn.
    pub fn render(&mut self) -> (r: String)
        requires
            old(self).wf(),
        ensures
            final(self).wf(),
            final(self).geometry() == old(self).geometry(),
            final(self).ids() == old(self).ids(),
            final(self).active_terminal == old(self).active_terminal,
            final(self).full_screen_ws == old(self).full_screen_ws,
            final(self).max_panes == old(self).max_panes,
            forall|k: int| 0 <= k < final(self).terminals@.len() ==> !(#[trigger] final(self).terminals@[k]).should_render,
            forall|k: int| 0 <= k < final(self).terminals@.len() ==> (#[trigger] final(self).terminals@[k]).scroll
                == old(self).terminals@[k].scroll,
            r@ == bodies_text(old(self).terminals@, old(self).terminals@.len() as int)
                + border_text(old(self).geometry(), old(self).vc(), old(self).vr(), old(self).terminals@.len() as int)
                + old(self).cursor_text(),
    {
        let n = self.terminals.len();
        let mut out: Vec<char> = Vec::new();
        let mut k: usize = 0;
        while k < n
            invariant
                n == self.terminals@.len(),
                n == old(self).terminals@.len(),
                k <= n,
                self.wf(),
                self.geometry() == old(self).geometry(),
                self.ids() == old(self).ids(),
                self.active_terminal == old(self).active_terminal,
                self.full_screen_ws == old(self).full_screen_ws,
                self.max_panes == old(self).max_panes,
                forall|m: int| 0 <= m < k ==> !(#[trigger] self.terminals@[m]).should_render,
                forall|m: int| k <= m < n ==> #[trigger] self.terminals@[m] == old(self).terminals@[m],
                forall|m: int| 0 <= m < n ==> (#[trigger] self.terminals@[m]).scroll == old(self).terminals@[m].scroll
                    && same_geometry(self.terminals@[m], old(self).terminals@[m]),
                out@ == bodies_text(old(self).terminals@, k as int),
            decreases n - k,
        {
            let ghost before = *self;
            let mut pane = self.terminals.remove(k);
            let drawn = pane.render_chars();
            self.terminals.insert(k, pane);
            proof {
                assert(self.terminals@ =~= before.terminals@.update(k as int, pane));
                Screen::lemma_replace_pane(before, *self, k as int);
            }
            if let Some(chars) = drawn {
                let mut chars = chars;
                out.append(&mut chars);
            }
            assert(out@ =~= bodies_text(old(self).terminals@, k + 1));
            k = k + 1;
        }
        let ghost after_bodies = out@;
        let vc = self.full_screen_ws.cols as i64;
        let vr = self.full_screen_ws.rows as i64;
        let mut k: usize = 0;
        while k < n
            invariant
                n == self.terminals@.len(),
                k <= n,
                self.wf(),
                self.geometry() == old(self).geometry(),
                self.full_screen_ws == old(self).full_screen_ws,
                self.active_terminal == old(self).active_terminal,
                forall|m: int| 0 <= m < n ==> (#[trigger] self.terminals@[m]).scroll == old(self).terminals@[m].scroll
                    && same_geometry(self.terminals@[m], old(self).terminals@[m]),
                vc == old(self).vc(),
                vr == old(self).vr(),
                out@ == after_bodies + border_text(old(self).geometry(), old(self).vc(), old(self).vr(), k as int),
            decreases n - k,
        {
            let p = &self.terminals[k];
            let r = Rect { x: p.x_coords as i64, y: p.y_coords as i64, cols: p.display_cols as i64, rows: p.display_rows as i64 };
            assert(r == self.geometry()[k as int]);
            assert(inside(self.geometry()[k as int], self.vc(), self.vr()));
            push_rect_border(&mut out, r, vc, vr);
            assert(out@ =~= after_bodies + border_text(old(self).geometry(), old(self).vc(), old(self).vr(), k + 1));
            k = k + 1;
        }
        let ghost after_borders = out@;
        if let Some(k) = self.active_index_exec() {
            let p = &self.terminals[k];
            let (cx, cy) = p.cursor_coordinates();
            push_goto_reset(&mut out, p.y_coords as u64 + cy as u64 + 1, p.x_coords as u64 + cx as u64 + 1);
            proof {
                assert(self.terminals@[k as int].scroll == old(self).terminals@[k as int].scroll);
                assert(same_geometry(self.terminals@[k as int], old(self).terminals@[k as int]));
                assert(self.active_index() == old(self).active_index());
            }
        }
        assert(out@ =~= after_borders + old(self).cursor_text());
        chars_to_string(&out)
    }

    /// Carries out one instruction with the method it names, and says so in
    /// its result: `Ok(false)` for `Quit`, after which no more instructions
    /// should come; the method's error, if it fails; `Ok(true)` otherwise.
    pub fn handle_instruction(&mut self, instruction: ScreenInstruction) -> (r: Result<bool, ScreenError>)
        requires
            old(self).wf(),
        ensures
            final(self).wf(),
            final(self).full_screen_ws == old(self).full_screen_ws,
            (instruction matches ScreenInstruction::Quit) <==> r == Ok::<bool, ScreenError>(false),
            match instruction {
                ScreenInstruction::Pty(pid, event) => {
                    &&& !old(self).ids().contains(pid) ==> r == Err::<bool, ScreenError>(ScreenError::UnknownPane(pid))
                        && final(self).terminals == old(self).terminals
                    &&& old(self).ids().contains(pid) ==> {
                        let k = old(self).ids().index_of(pid);
                        &&& crate::pane::event_effect(old(self).terminals@[k], final(self).terminals@[k], event, unit_result(r))
                        &&& forall|m: int| 0 <= m < old(self).terminals@.len() && m != k
                            ==> #[trigger] final(self).terminals@[m] == old(self).terminals@[m]
                    }
                },
                ScreenInstruction::Render => *final(self) == *old(self),
                ScreenInstruction::NewPane(pid) => open_outcome(*old(self), *final(self), unit_result(r), pid, false, false),
                ScreenInstruction::HorizontalSplit(pid) => open_outcome(*old(self), *final(self), unit_result(r), pid, true, false),
                ScreenInstruction::VerticalSplit(pid) => open_outcome(*old(self), *final(self), unit_result(r), pid, true, true),
                ScreenInstruction::WriteCharacter(byte) => {
                    &&& final(self).terminals == old(self).terminals
                    &&& final(self).actions@ == match old(self).active_terminal {
                        Some(id) => old(self).actions@.push(Action::WriteToTty(id, byte)),
                        None => old(self).actions@,
                    }
                },
                ScreenInstruction::ResizeLeft => resize_left_outcome(*old(self), *final(self), unit_result(r)),
                ScreenInstruction::ResizeRight => resize_right_outcome(*old(self), *final(self), unit_result(r)),
                ScreenInstruction::ResizeDown => resize_down_outcome(*old(self), *final(self), unit_result(r)),
                ScreenInstruction::ResizeUp => resize_up_outcome(*old(self), *final(self), unit_result(r)),
                ScreenInstruction::MoveFocus => {
                    &&& final(self).terminals == old(self).terminals
                    &&& old(self).terminals@.len() > 0 ==> final(self).active_terminal == Some(
                        old(self).ids()[(old(self).active_index() + 1) % (old(self).terminals@.len() as int)])
                },
                ScreenInstruction::Quit => *final(self) == *old(self),
                ScreenInstruction::ScrollUp | ScreenInstruction::ScrollDown | ScreenInstruction::ClearScroll => {
                    &&& final(self).geometry() == old(self).geometry()
                    &&& final(self).ids() == old(self).ids()
                    &&& final(self).active_terminal == old(self).active_terminal
                    &&& old(self).active_terminal.is_some() ==> forall|m: int| 0 <= m < old(self).terminals@.len()
                        && m != old(self).active_index() ==> #[trigger] final(self).terminals@[m] == old(self).terminals@[m]
                    &&& old(self).active_terminal.is_some() ==> ({
                        let p = old(self).terminals@[old(self).active_index()];
                        let offset = final(self).terminals@[old(self).active_index()].scroll.viewport_offset;
                        match instruction {
                            ScreenInstruction::ScrollUp => offset == crate::grid::min(p.scroll.viewport_offset + 1, p.scroll.screen_top()),
                            ScreenInstruction::ScrollDown => offset == if p.scroll.viewport_offset == 0 { 0 } else { (p.scroll.viewport_offset - 1) as usize },
                            _ => offset == 0,
                        }
                    })
                },
                ScreenInstruction::CloseFocusedPane => old(self).active_terminal.is_some() ==> {
                    let id = old(self).active_terminal.unwrap();
                    &&& close_outcome(*old(self), *final(self), id, Ok(true)) || close_outcome(*old(self), *final(self), id, Ok(false))
                    &&& final(self).actions@[old(self).actions@.len() as int] == Action::ClosePane(id)
                },
                ScreenInstruction::ClosePane(id) => {
                    &&& close_outcome(*old(self), *final(self), id, Ok(true)) || close_outcome(*old(self), *final(self), id, Ok(false))
                        || close_outcome(*old(self), *final(self), id, Err(ScreenError::UnknownPane(id)))
                    &&& (r is Err <==> !old(self).ids().contains(id))
                },
            },
    {
        match instruction {
            ScreenInstruction::Pty(pid, event) => {
                if let Err(e) = self.handle_pty_event(pid, event) {
                    return Err(e);
                }
            },
            ScreenInstruction::Render => {},
            ScreenInstruction::NewPane(pid) => {
                if let Err(e) = self.new_pane(pid) {
                    return Err(e);
                }
            },
            ScreenInstruction::HorizontalSplit(pid) => {
                if let Err(e) = self.horizontal_split(pid) {
                    return Err(e);
                }
            },
            ScreenInstruction::VerticalSplit(pid) => {
                if let Err(e) = self.vertical_split(pid) {
                    return Err(e);
                }
            },
            ScreenInstruction::WriteCharacter(byte) => self.write_to_active_terminal(byte),
            ScreenInstruction::ResizeLeft => {
                if let Err(e) = self.resize_left() {
                    return Err(e);
                }
            },
            ScreenInstruction::ResizeRight => {
                if let Err(e) = self.resize_right() {
                    return Err(e);
                }
            },
            ScreenInstruction::ResizeDown => {
                if let Err(e) = self.resize_down() {
                    return Err(e);
                }
            },
            ScreenInstruction::ResizeUp => {
                if let Err(e) = self.resize_up() {
                    return Err(e);
                }
            },
            ScreenInstruction::MoveFocus => self.move_focus(),
            ScreenInstruction::Quit => {
                return Ok(false);
            },
            ScreenInstruction::ScrollUp => self.scroll_active_terminal_up(),
            ScreenInstruction::ScrollDown => self.scroll_active_terminal_down(),
            ScreenInstruction::ClearScroll => self.clear_active_terminal_scroll(),
            ScreenInstruction::CloseFocusedPane => {
                if let Err(e) = self.close_focused_pane() {
                    return Err(e);
                }
            },
            ScreenInstruction::ClosePane(id) => {
                if let Err(e) = self.close_pane(id) {
                    return Err(e);
                }
            },
        }
        Ok(true)
    }
}

/// Rendering twice with nothing changed in between draws no pane the second
/// time: once `render` has marked every pane as drawn, the pane part of the
/// next frame is empty and only the borders and the cursor are emitted.
pub proof fn lemma_second_render_draws_no_pane(ps: Seq<TerminalPane>, n: int)
    requires
        0 <= n <= ps.len(),
        forall|k: int| 0 <= k < ps.len() ==> !(#[trigger] ps[k]).should_render,
    ensures
        bodies_text(ps, n) == Seq::<char>::empty(),
    decreases n,
{
    if n > 0 {
        lemma_second_render_draws_no_pane(ps, n - 1);
        assert(bodies_text(ps, n) =~= Seq::<char>::empty());
    }
}


/// On a sound screen the focus names a pane that exists, and there is no
/// focus only when there are no panes.
pub proof fn lemma_focus_names_a_pane(s: Screen)
    requires
        s.wf(),
    ensures
        s.active_terminal.is_none() <==> s.terminals@.len() == 0,
        s.active_terminal.is_some() ==> exists|k: int| 0 <= k < s.terminals@.len()
            && #[trigger] s.terminals@[k].pid == s.active_terminal.unwrap(),
{
    if let Some(id) = s.active_terminal {
        let k = choose|k: int| 0 <= k < s.ids().len() && s.ids()[k] == id;
        assert(s.terminals@[k].pid == id);
    }
}

}
