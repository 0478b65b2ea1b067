//! The terminal emulator of one pane: VT events in, grid mutations out, and
//! the escape text that draws the pane.

use vstd::prelude::*;
use crate::character::{
    AnsiCode, CharacterStyles, NamedColor, TerminalCharacter, ESC, all_reset_styles, decimal,
    no_styles, push_decimal, styles_diff,
};
use crate::error::ScreenError;
use crate::grid::{Scroll, all_text, min};

verus! {

/// An event of the VT parser.
#[derive(Debug)]
pub enum VteEvent {
    Print(char),
    Execute(u8),
    Hook(Vec<i64>, Vec<u8>, bool, char),
    Put(u8),
    Unhook,
    OscDispatch(Vec<Vec<u8>>, bool),
    CsiDispatch(Vec<i64>, Vec<u8>, bool, char),
    EscDispatch(Vec<u8>, bool, u8),
}

/// An interior size in cells.
#[derive(Clone, Copy, Debug, PartialEq, Eq, Structural)]
pub struct Size {
    pub cols: u16,
    pub rows: u16,
}

pub struct TerminalPane {
    pub pid: i32,
    pub scroll: Scroll,
    pub display_rows: u16,
    pub display_cols: u16,
    pub should_render: bool,
    pub x_coords: u16,
    pub y_coords: u16,
    pub pending_styles: CharacterStyles,
}

/// A CSI parameter as a count: negative values count as zero.
pub open spec fn param_count(p: i64) -> nat {
    if p < 0 { 0 } else { p as nat }
}

/// A CSI parameter as an SGR parameter: its low 16 bits.
pub open spec fn param_u16(p: i64) -> u16 {
    p as u16
}

/// The first parameter as a count, saturating at `usize::MAX`.
pub open spec fn first_count(params: Seq<i64>) -> int {
    let c = param_count(first_param(params));
    if c > usize::MAX { usize::MAX as int } else { c as int }
}

/// The first parameter as a count of at least one.
pub open spec fn first_count_min_one(params: Seq<i64>) -> int {
    if first_count(params) == 0 { 1 } else { first_count(params) }
}

/// The first parameter, zero when there is none.
pub open spec fn first_param(params: Seq<i64>) -> i64 {
    if params.len() > 0 { params[0] } else { 0 }
}

/// The extended value `Code` built from the parameters after the first.
pub open spec fn code_tail(params: Seq<i64>) -> AnsiCode {
    if params.len() >= 3 {
        AnsiCode::Code(Some(param_u16(params[1])), Some(param_u16(params[2])))
    } else if params.len() == 2 {
        AnsiCode::Code(Some(param_u16(params[1])), None)
    } else {
        AnsiCode::Code(None, None)
    }
}

pub open spec fn color_of(i: int) -> NamedColor {
    if i == 0 { NamedColor::Black }
    else if i == 1 { NamedColor::Red }
    else if i == 2 { NamedColor::Green }
    else if i == 3 { NamedColor::Yellow }
    else if i == 4 { NamedColor::Blue }
    else if i == 5 { NamedColor::Magenta }
    else if i == 6 { NamedColor::Cyan }
    else { NamedColor::White }
}

/// The pending styles after an SGR sequence with parameters `params`, which
/// acts by its first parameter; unknown parameters change nothing.
pub open spec fn apply_sgr(s: CharacterStyles, params: Seq<i64>) -> CharacterStyles {
    let p = first_param(params);
    let r = Some(AnsiCode::Reset);
    let code = Some(code_tail(params));
    if p == 0 { all_reset_styles() }
    else if p == 39 { CharacterStyles { foreground: r, ..s } }
    else if p == 49 { CharacterStyles { background: r, ..s } }
    else if p == 21 { CharacterStyles { bold: r, ..s } }
    else if p == 22 { CharacterStyles { bold: r, dim: r, ..s } }
    else if p == 23 { CharacterStyles { italic: r, ..s } }
    else if p == 24 { CharacterStyles { underline: r, ..s } }
    else if p == 25 { CharacterStyles { blink_slow: r, blink_fast: r, ..s } }
    else if p == 27 { CharacterStyles { reverse: r, ..s } }
    else if p == 28 { CharacterStyles { hidden: r, ..s } }
    else if p == 29 { CharacterStyles { strike: r, ..s } }
    else if p == 38 { CharacterStyles { foreground: code, ..s } }
    else if p == 48 { CharacterStyles { background: code, ..s } }
    else if p == 1 { CharacterStyles { bold: code, ..s } }
    else if p == 2 { CharacterStyles { dim: code, ..s } }
    else if p == 3 { CharacterStyles { italic: code, ..s } }
    else if p == 4 { CharacterStyles { underline: code, ..s } }
    else if p == 5 { CharacterStyles { blink_slow: code, ..s } }
    else if p == 6 { CharacterStyles { blink_fast: code, ..s } }
    else if p == 7 { CharacterStyles { reverse: code, ..s } }
    else if p == 8 { CharacterStyles { hidden: code, ..s } }
    else if p == 9 { CharacterStyles { strike: code, ..s } }
    else if 30 <= p <= 37 { CharacterStyles { foreground: Some(AnsiCode::NamedColor(color_of(p - 30))), ..s } }
    else if 40 <= p <= 47 { CharacterStyles { background: Some(AnsiCode::NamedColor(color_of(p - 40))), ..s } }
    else { s }
}

/// The CSI final characters that the emulator accepts.
pub open spec fn csi_accepted(c: char) -> bool {
    c == 'm' || c == 'C' || c == 'K' || c == 'J' || c == 'H' || c == 'A' || c == 'D'
        || c == 'r' || c == 'M' || c == 'L' || c == 'l' || c == 'h' || c == 't' || c == 'n'
        || c == 'c' || c == 'q' || c == 'd' || c == 'X' || c == 'G'
}

/// The screen row and column that CSI `H` moves to.
pub open spec fn goto_target(params: Seq<i64>) -> (nat, nat) {
    if params.len() == 0 {
        (0, 0)
    } else if params.len() == 1 {
        (param_count(params[0]), 0)
    } else {
        (
            if param_count(params[0]) == 0 { 0 } else { (param_count(params[0]) - 1) as nat },
            if param_count(params[1]) == 0 { 0 } else { (param_count(params[1]) - 1) as nat },
        )
    }
}

/// The CSI final characters that are accepted and change nothing.
pub open spec fn ignored_csi(c: char) -> bool {
    c == 'l' || c == 'h' || c == 't' || c == 'n' || c == 'c' || c == 'q' || c == 'd' || c == 'X' || c == 'G'
}

/// The second parameter as a count, saturating at `usize::MAX`.
pub open spec fn second_count(params: Seq<i64>) -> int {
    let c = param_count(params[1]);
    if c > usize::MAX { usize::MAX as int } else { c as int }
}

/// What CSI sequence `params`, `c` does to pane `old`, giving `new`.
pub open spec fn csi_effect(old: TerminalPane, new: TerminalPane, params: Seq<i64>, c: char) -> bool {
    let sc = old.scroll;
    if !csi_accepted(c) || ignored_csi(c) {
        new == old
    } else if c == 'm' {
        &&& new.pending_styles == apply_sgr(old.pending_styles, params)
        &&& new.scroll == old.scroll
    } else {
        &&& new.pending_styles == old.pending_styles
        &&& c == 'H' ==> new.scroll.cursor_on_screen() == (
            min(goto_target(params).1 as int, old.display_cols - 1),
            min(goto_target(params).0 as int, old.display_rows - 1),
        )
        &&& c == 'C' ==> new.scroll.cursor_line == sc.cursor_line
            && new.scroll.cursor_col == min(sc.cursor_col + first_count(params), old.display_cols - 1)
        &&& c == 'D' ==> new.scroll.cursor_line == sc.cursor_line
            && new.scroll.cursor_col == if first_count_min_one(params) > sc.cursor_col {
                0
            } else {
                sc.cursor_col - first_count_min_one(params)
            }
        &&& c == 'A' ==> new.scroll.cursor_col == sc.cursor_col
            && new.scroll.cursor_on_screen().1 == if first_count_min_one(params) > sc.cursor_on_screen().1 {
                0
            } else {
                sc.cursor_on_screen().1 - first_count_min_one(params)
            }
        &&& c == 'K' ==> if first_param(params) == 0 {
            &&& new.scroll.cursor_line == sc.cursor_line
            &&& new.scroll.cursor_col == sc.cursor_col
            &&& new.scroll.lines@.len() == sc.lines@.len()
            &&& forall|i: int| 0 <= i < sc.lines@.len() && i != sc.cursor_line
                ==> #[trigger] new.scroll.lines@[i] == sc.lines@[i]
            &&& new.scroll.lines@[sc.cursor_line as int]@ == sc.lines@[sc.cursor_line as int]@.subrange(
                0,
                min(sc.cursor_col as int, sc.lines@[sc.cursor_line as int]@.len() as int),
            )
        } else {
            new.scroll == sc
        }
        &&& (c == 'H' || c == 'C' || c == 'D' || c == 'A') ==> new.scroll.lines == sc.lines
        &&& c == 'J' ==> if first_param(params) == 0 {
            &&& new.scroll.lines@.len() == sc.lines@.len()
            &&& forall|i: int| 0 <= i < sc.cursor_line ==> #[trigger] new.scroll.lines@[i] == sc.lines@[i]
            &&& forall|i: int| sc.cursor_line < i < sc.lines@.len() ==> (#[trigger] new.scroll.lines@[i])@.len() == 0
            &&& new.scroll.lines@[sc.cursor_line as int]@ == sc.lines@[sc.cursor_line as int]@.subrange(
                0,
                min(sc.cursor_col as int, sc.lines@[sc.cursor_line as int]@.len() as int),
            )
        } else if first_param(params) == 2 {
            &&& new.scroll.lines@.len() == sc.lines@.len()
            &&& forall|i: int| 0 <= i < sc.screen_top() ==> #[trigger] new.scroll.lines@[i] == sc.lines@[i]
            &&& forall|i: int| sc.screen_top() <= i < sc.lines@.len() ==> (#[trigger] new.scroll.lines@[i])@.len() == 0
        } else {
            new.scroll == sc
        }
        &&& (c == 'M' || c == 'L') ==> (!sc.cursor_in_region() ==> new.scroll == sc)
        &&& c == 'M' && sc.cursor_in_region() ==> ({
            let at = sc.cursor_line as int;
            let bottom = sc.region_bottom();
            let m = min(first_count_min_one(params), bottom - at + 1);
            forall|i: int| 0 <= i < sc.lines@.len() ==> {
                &&& (i < at || i > bottom) ==> #[trigger] new.scroll.lines@[i] == sc.lines@[i]
                &&& (at <= i <= bottom - m) ==> new.scroll.lines@[i] == sc.lines@[i + m]
                &&& (bottom - m < i <= bottom) ==> new.scroll.lines@[i]@.len() == 0
            }
        })
        &&& c == 'L' && sc.cursor_in_region() ==> ({
            let at = sc.cursor_line as int;
            let bottom = sc.region_bottom();
            let m = min(first_count_min_one(params), bottom - at + 1);
            forall|i: int| 0 <= i < sc.lines@.len() ==> {
                &&& (i < at || i > bottom) ==> #[trigger] new.scroll.lines@[i] == sc.lines@[i]
                &&& (at <= i < at + m) ==> new.scroll.lines@[i]@.len() == 0
                &&& (at + m <= i <= bottom) ==> new.scroll.lines@[i] == sc.lines@[i - m]
            }
        })
        &&& c == 'r' ==> new.scroll.scroll_region == if params.len() > 1 && 1 <= first_count(params)
            < second_count(params) <= old.display_rows {
            Some((first_count(params) as usize, second_count(params) as usize))
        } else {
            None
        }
    }
}

/// What event `event` does to pane `old`, giving `new` and result `r`.
/// Printing writes a glyph with the pending styles and advances the cursor;
/// a line feed opens a new line and forgets the pending styles; a CSI
/// sequence with an unknown final character is refused and changes nothing.
pub open spec fn event_effect(old: TerminalPane, new: TerminalPane, event: VteEvent, r: Result<(), ScreenError>) -> bool {
    let sc = old.scroll;
    &&& match event {
        VteEvent::CsiDispatch(_, _, _, c) => if csi_accepted(c) {
            r is Ok
        } else {
            r == Err::<(), ScreenError>(ScreenError::UnhandledCsi(c))
        },
        _ => r is Ok,
    }
    &&& match event {
        VteEvent::Print(c) => {
            &&& new.should_render
            &&& new.pending_styles == old.pending_styles
            &&& new.scroll.lines@[new.scroll.cursor_line as int]@[new.scroll.cursor_col - 1]
                == (TerminalCharacter { character: c, styles: old.pending_styles })
            &&& sc.cursor_col < sc.cols ==> new.scroll.cursor_line == sc.cursor_line
                && new.scroll.cursor_col == sc.cursor_col + 1
            &&& sc.cursor_col == sc.cols ==> new.scroll.cursor_line == sc.cursor_line + 1
                && new.scroll.cursor_col == 1
        },
        VteEvent::Execute(b) => if b == 10 {
            &&& new.should_render
            &&& new.pending_styles == no_styles()
            &&& new.scroll.cursor_col == 0
            &&& sc.at_region_bottom() ==> new.scroll.cursor_on_screen().1 == sc.cursor_on_screen().1
            &&& sc.at_region_bottom() ==> forall|i: int| 0 <= i < sc.lines@.len() ==> {
                &&& (i < sc.region_top() || i > sc.region_bottom()) ==> #[trigger] new.scroll.lines@[i] == sc.lines@[i]
                &&& (sc.region_top() <= i < sc.region_bottom()) ==> new.scroll.lines@[i] == sc.lines@[i + 1]
                &&& i == sc.region_bottom() ==> new.scroll.lines@[i]@.len() == 0
            }
            &&& !sc.at_region_bottom() ==> new.scroll.cursor_on_screen().1 == min(
                sc.cursor_on_screen().1 + 1,
                old.display_rows - 1,
            )
        } else if b == 13 {
            &&& new.pending_styles == old.pending_styles
            &&& new.scroll.cursor_col == 0
            &&& new.scroll.lines == sc.lines
        } else if b == 8 {
            &&& new.pending_styles == old.pending_styles
            &&& new.scroll.lines == sc.lines
            &&& new.scroll.cursor_line == sc.cursor_line
            &&& new.scroll.cursor_col == if sc.cursor_col == 0 { 0 } else { sc.cursor_col - 1 }
        } else {
            new == old
        },
        VteEvent::CsiDispatch(params, _, _, c) => csi_effect(old, new, params@, c),
        _ => new == old,
    }
}

/// `ESC [ row ; col H ESC [ m`: go to a screen position and reset styles.
pub open spec fn goto_reset(row: nat, col: nat) -> Seq<char> {
    seq![ESC, '['] + decimal(row) + seq![';'] + decimal(col) + seq!['H', ESC, '[', 'm']
}

/// The styles in force before cell `j` of a row is drawn.
pub open spec fn styles_before(cells: Seq<TerminalCharacter>, j: int) -> CharacterStyles {
    if j <= 0 { no_styles() } else { cells[j - 1].styles }
}

/// The text that draws the first `j` cells of a row: each glyph, preceded by
/// the style change from the cell before it (from no style at the row start).
pub open spec fn row_text(cells: Seq<TerminalCharacter>, j: int) -> Seq<char>
    decreases j,
{
    if j <= 0 {
        Seq::empty()
    } else {
        let before = styles_before(cells, j - 1);
        let cell = cells[j - 1];
        let diff = if before == cell.styles { Seq::empty() } else { styles_diff(before, cell.styles) };
        row_text(cells, j - 1) + diff + seq![cell.character]
    }
}

/// The text that draws the first `k` of `lines` at screen position `(x, y)`.
pub open spec fn frame_text(lines: Seq<Seq<TerminalCharacter>>, x: nat, y: nat, k: int) -> Seq<char>
    decreases k,
{
    if k <= 0 {
        Seq::empty()
    } else {
        frame_text(lines, x, y, k - 1) + goto_reset(y + k as nat, x + 1) + row_text(lines[k - 1], lines[k - 1].len() as int)
    }
}

/// Relies on `FromIterator<char>` for `String`: collecting characters keeps them in order.
#[verifier::external_body]
pub(crate) fn chars_to_string(chars: &Vec<char>) -> (r: String)
    ensures
        r@ == chars@,
{
    chars.iter().collect()
}

fn param_count_exec(p: i64) -> (r: usize)
    ensures
        r == if param_count(p) > usize::MAX { usize::MAX as nat } else { param_count(p) },
{
    if p < 0 {
        0
    } else if p as u64 > usize::MAX as u64 {
        usize::MAX
    } else {
        p as usize
    }
}

fn param_u16_exec(p: i64) -> (r: u16)
    ensures
        r == param_u16(p),
{
    p as u16
}

fn code_tail_exec(params: &Vec<i64>) -> (r: AnsiCode)
    ensures
        r == code_tail(params@),
{
    if params.len() >= 3 {
        AnsiCode::Code(Some(param_u16_exec(params[1])), Some(param_u16_exec(params[2])))
    } else if params.len() == 2 {
        AnsiCode::Code(Some(param_u16_exec(params[1])), None)
    } else {
        AnsiCode::Code(None, None)
    }
}

fn color_of_exec(i: i64) -> (r: NamedColor)
    ensures
        r == color_of(i as int),
{
    if i == 0 { NamedColor::Black }
    else if i == 1 { NamedColor::Red }
    else if i == 2 { NamedColor::Green }
    else if i == 3 { NamedColor::Yellow }
    else if i == 4 { NamedColor::Blue }
    else if i == 5 { NamedColor::Magenta }
    else if i == 6 { NamedColor::Cyan }
    else { NamedColor::White }
}

/// Applies an SGR sequence to `s`.
pub fn sgr_update(s: &mut CharacterStyles, params: &Vec<i64>)
    ensures
        *final(s) == apply_sgr(*old(s), params@),
{
    let p = if params.len() > 0 { params[0] } else { 0 };
    let r = Some(AnsiCode::Reset);
    if p == 0 {
        s.reset_all();
    } else if p == 39 {
        s.foreground = r;
    } else if p == 49 {
        s.background = r;
    } else if p == 21 {
        s.bold = r;
    } else if p == 22 {
        s.bold = r;
        s.dim = r;
    } else if p == 23 {
        s.italic = r;
    } else if p == 24 {
        s.underline = r;
    } else if p == 25 {
        s.blink_slow = r;
        s.blink_fast = r;
    } else if p == 27 {
        s.reverse = r;
    } else if p == 28 {
        s.hidden = r;
    } else if p == 29 {
        s.strike = r;
    } else if p == 38 {
        s.foreground = Some(code_tail_exec(params));
    } else if p == 48 {
        s.background = Some(code_tail_exec(params));
    } else if p == 1 {
        s.bold = Some(code_tail_exec(params));
    } else if p == 2 {
        s.dim = Some(code_tail_exec(params));
    } else if p == 3 {
        s.italic = Some(code_tail_exec(params));
    } else if p == 4 {
        s.underline = Some(code_tail_exec(params));
    } else if p == 5 {
        s.blink_slow = Some(code_tail_exec(params));
    } else if p == 6 {
        s.blink_fast = Some(code_tail_exec(params));
    } else if p == 7 {
        s.reverse = Some(code_tail_exec(params));
    } else if p == 8 {
        s.hidden = Some(code_tail_exec(params));
    } else if p == 9 {
        s.strike = Some(code_tail_exec(params));
    } else if 30 <= p && p <= 37 {
        s.foreground = Some(AnsiCode::NamedColor(color_of_exec(p - 30)));
    } else if 40 <= p && p <= 47 {
        s.background = Some(AnsiCode::NamedColor(color_of_exec(p - 40)));
    }
}


/// What `buffer_as_vte_output` draws of a pane: its visible rows at its position.
pub open spec fn pane_frame(p: TerminalPane) -> Seq<char> {
    frame_text(
        Seq::new(p.scroll.rows as nat, |k: int| p.scroll.visible_row(k)),
        p.x_coords as nat,
        p.y_coords as nat,
        p.scroll.rows as int,
    )
}

/// `a` and `b` are the same pane at the same place, whatever their contents.
pub open spec fn same_geometry(a: TerminalPane, b: TerminalPane) -> bool {
    &&& a.pid == b.pid
    &&& a.x_coords == b.x_coords
    &&& a.y_coords == b.y_coords
    &&& a.display_cols == b.display_cols
    &&& a.display_rows == b.display_rows
}

/// Appends `ESC [ row ; col H ESC [ m`.
pub(crate) fn push_goto_reset(out: &mut Vec<char>, row: u64, col: u64)
    ensures
        final(out)@ == old(out)@ + goto_reset(row as nat, col as nat),
{
    out.push(ESC);
    out.push('[');
    push_decimal(out, row);
    out.push(';');
    push_decimal(out, col);
    out.push('H');
    out.push(ESC);
    out.push('[');
    out.push('m');
    assert(final(out)@ =~= old(out)@ + goto_reset(row as nat, col as nat));
}

/// Appends the text that draws the cells of `line`.
fn push_row(out: &mut Vec<char>, line: &Vec<TerminalCharacter>)
    ensures
        final(out)@ == old(out)@ + row_text(line@, line@.len() as int),
{
    let ghost head = out@;
    let mut comparator = CharacterStyles::new();
    let mut j: usize = 0;
    while j < line.len()
        invariant
            j <= line@.len(),
            out@ == head + row_text(line@, j as int),
            comparator == styles_before(line@, j as int),
        decreases line@.len() - j,
    {
        let cell = line[j];
        let d = comparator.update_and_return_diff(&cell.styles);
        if let Some(diff) = d {
            let mut diff = diff;
            out.append(&mut diff);
        }
        out.push(cell.character);
        assert(out@ =~= head + row_text(line@, j + 1));
        j = j + 1;
    }
}

impl TerminalPane {
    pub open spec fn wf(&self) -> bool {
        &&& self.scroll.wf()
        &&& self.display_cols >= 1
        &&& self.display_rows >= 1
        &&& self.scroll.cols == self.display_cols as usize
        &&& self.scroll.rows == self.display_rows as usize
    }

    /// A blank pane of `size` with its top-left cell at `(x_coords, y_coords)`.
    pub fn new(pid: i32, size: Size, x_coords: u16, y_coords: u16) -> (r: TerminalPane)
        requires
            size.cols >= 1,
            size.rows >= 1,
        ensures
            r.wf(),
            r.pid == pid,
            r.display_cols == size.cols,
            r.display_rows == size.rows,
            r.x_coords == x_coords,
            r.y_coords == y_coords,
            r.should_render,
            r.pending_styles == no_styles(),
            r.scroll.cursor_line == 0,
            r.scroll.cursor_col == 0,
            r.scroll.viewport_offset == 0,
            forall|i: int| 0 <= i < r.scroll.lines@.len() ==> (#[trigger] r.scroll.lines@[i])@.len() == 0,
    {
        TerminalPane {
            pid,
            scroll: Scroll::new(size.cols as usize, size.rows as usize),
            display_rows: size.rows,
            display_cols: size.cols,
            should_render: true,
            x_coords,
            y_coords,
            pending_styles: CharacterStyles::new(),
        }
    }

    /// Applies one VT event. Printing writes a glyph with the pending styles;
    /// a line feed opens a new line and forgets the pending styles; a CSI
    /// sequence with an unknown final character is refused and changes nothing.
    pub fn handle_event(&mut self, event: VteEvent) -> (r: Result<(), ScreenError>)
        requires
            old(self).wf(),
        ensures
            final(self).wf(),
            same_geometry(*final(self), *old(self)),
            event_effect(*old(self), *final(self), event, r),
    {
        match event {
            VteEvent::Print(c) => {
                let ch = TerminalCharacter { character: c, styles: self.pending_styles };
                self.scroll.add_character(ch);
                self.should_render = true;
                Ok(())
            },
            VteEvent::Execute(byte) => {
                if byte == 13 {
                    self.scroll.move_cursor_to_beginning_of_canonical_line();
                    self.should_render = true;
                } else if byte == 8 {
                    self.scroll.move_cursor_back(1);
                    self.should_render = true;
                } else if byte == 10 {
                    self.scroll.add_canonical_line();
                    self.pending_styles.clear();
                    self.should_render = true;
                }
                Ok(())
            },
            VteEvent::CsiDispatch(params, _intermediates, _ignore, c) => self.csi_dispatch(&params, c),
            _ => Ok(()),
        }
    }

    fn csi_dispatch(&mut self, params: &Vec<i64>, c: char) -> (r: Result<(), ScreenError>)
        requires
            old(self).wf(),
        ensures
            final(self).wf(),
            same_geometry(*final(self), *old(self)),
            csi_accepted(c) ==> r is Ok,
            !csi_accepted(c) ==> r == Err::<(), ScreenError>(ScreenError::UnhandledCsi(c)),
            csi_effect(*old(self), *final(self), params@, c),
    {
        let first: i64 = if params.len() > 0 { params[0] } else { 0 };
        let count = param_count_exec(first);
        let at_least_one = if count == 0 { 1 } else { count };
        if c == 'm' {
            sgr_update(&mut self.pending_styles, params);
        } else if c == 'C' {
            self.scroll.move_cursor_forward(count);
        } else if c == 'K' {
            if first == 0 {
                self.scroll.clear_canonical_line_right_of_cursor();
            }
        } else if c == 'J' {
            if first == 0 {
                self.scroll.clear_all_after_cursor();
            } else if first == 2 {
                self.scroll.clear_all();
            }
        } else if c == 'H' {
            let (row, col) = if params.len() == 0 {
                (0, 0)
            } else if params.len() == 1 {
                (count, 0)
            } else {
                let c1 = param_count_exec(params[1]);
                (if count == 0 { 0 } else { count - 1 }, if c1 == 0 { 0 } else { c1 - 1 })
            };
            self.scroll.move_cursor_to(row, col);
        } else if c == 'A' {
            self.scroll.move_cursor_up(at_least_one);
        } else if c == 'D' {
            self.scroll.move_cursor_back(at_least_one);
        } else if c == 'r' {
            if params.len() > 1 {
                let bottom = param_count_exec(params[1]);
                self.scroll.set_scroll_region(count, bottom);
            } else {
                self.scroll.clear_scroll_region();
            }
        } else if c == 'M' {
            self.scroll.delete_lines_in_scroll_region(at_least_one);
        } else if c == 'L' {
            self.scroll.add_empty_lines_in_scroll_region(at_least_one);
        } else if c == 'l' || c == 'h' || c == 't' || c == 'n' || c == 'c' || c == 'q' || c == 'd'
            || c == 'X' || c == 'G' {
            return Ok(());
        } else {
            return Err(ScreenError::UnhandledCsi(c));
        }
        self.should_render = true;
        Ok(())
    }

    /// Gives up `count` columns on the left: the left edge moves right.
    pub fn reduce_width_right(&mut self, count: u16)
        requires
            old(self).wf(),
            count < old(self).display_cols && old(self).x_coords + count <= u16::MAX,
        ensures
            final(self).wf(),
            final(self).pid == old(self).pid,
            final(self).should_render,
            all_text(final(self).scroll.lines@) == all_text(old(self).scroll.lines@),
            final(self).x_coords == old(self).x_coords + count,
            final(self).y_coords == old(self).y_coords,
            final(self).display_cols == old(self).display_cols - count,
            final(self).display_rows == old(self).display_rows,
    {
        self.x_coords = self.x_coords + count;
        self.display_cols = self.display_cols - count;
        self.reflow_lines();
    }

    /// Gives up `count` columns on the right: the right edge moves left.
    pub fn reduce_width_left(&mut self, count: u16)
        requires
            old(self).wf(),
            count < old(self).display_cols,
        ensures
            final(self).wf(),
            final(self).pid == old(self).pid,
            final(self).should_render,
            all_text(final(self).scroll.lines@) == all_text(old(self).scroll.lines@),
            final(self).x_coords == old(self).x_coords,
            final(self).y_coords == old(self).y_coords,
            final(self).display_cols == old(self).display_cols - count,
            final(self).display_rows == old(self).display_rows,
    {
        self.display_cols = self.display_cols - count;
        self.reflow_lines();
    }

    /// Takes `count` more columns on the left: the left edge moves left.
    pub fn increase_width_left(&mut self, count: u16)
        requires
            old(self).wf(),
            count <= old(self).x_coords && old(self).display_cols + count <= u16::MAX,
        ensures
            final(self).wf(),
            final(self).pid == old(self).pid,
            final(self).should_render,
            all_text(final(self).scroll.lines@) == all_text(old(self).scroll.lines@),
            final(self).x_coords == old(self).x_coords - count,
            final(self).y_coords == old(self).y_coords,
            final(self).display_cols == old(self).display_cols + count,
            final(self).display_rows == old(self).display_rows,
    {
        self.x_coords = self.x_coords - count;
        self.display_cols = self.display_cols + count;
        self.reflow_lines();
    }

    /// Takes `count` more columns on the right: the right edge moves right.
    pub fn increase_width_right(&mut self, count: u16)
        requires
            old(self).wf(),
            old(self).display_cols + count <= u16::MAX,
        ensures
            final(self).wf(),
            final(self).pid == old(self).pid,
            final(self).should_render,
            all_text(final(self).scroll.lines@) == all_text(old(self).scroll.lines@),
            final(self).x_coords == old(self).x_coords,
            final(self).y_coords == old(self).y_coords,
            final(self).display_cols == old(self).display_cols + count,
            final(self).display_rows == old(self).display_rows,
    {
        self.display_cols = self.display_cols + count;
        self.reflow_lines();
    }

    /// Gives up `count` rows at the top: the top edge moves down.
    pub fn reduce_height_down(&mut self, count: u16)
        requires
            old(self).wf(),
            count < old(self).display_rows && old(self).y_coords + count <= u16::MAX,
        ensures
            final(self).wf(),
            final(self).pid == old(self).pid,
            final(self).should_render,
            all_text(final(self).scroll.lines@) == all_text(old(self).scroll.lines@),
            final(self).x_coords == old(self).x_coords,
            final(self).y_coords == old(self).y_coords + count,
            final(self).display_cols == old(self).display_cols,
            final(self).display_rows == old(self).display_rows - count,
    {
        self.y_coords = self.y_coords + count;
        self.display_rows = self.display_rows - count;
        self.reflow_lines();
    }

    /// Takes `count` more rows at the bottom: the bottom edge moves down.
    pub fn increase_height_down(&mut self, count: u16)
        requires
            old(self).wf(),
            old(self).display_rows + count <= u16::MAX,
        ensures
            final(self).wf(),
            final(self).pid == old(self).pid,
            final(self).should_render,
            all_text(final(self).scroll.lines@) == all_text(old(self).scroll.lines@),
            final(self).x_coords == old(self).x_coords,
            final(self).y_coords == old(self).y_coords,
            final(self).display_cols == old(self).display_cols,
            final(self).display_rows == old(self).display_rows + count,
    {
        self.display_rows = self.display_rows + count;
        self.reflow_lines();
    }

    /// Takes `count` more rows at the top: the top edge moves up.
    pub fn increase_height_up(&mut self, count: u16)
        requires
            old(self).wf(),
            count <= old(self).y_coords && old(self).display_rows + count <= u16::MAX,
        ensures
            final(self).wf(),
            final(self).pid == old(self).pid,
            final(self).should_render,
            all_text(final(self).scroll.lines@) == all_text(old(self).scroll.lines@),
            final(self).x_coords == old(self).x_coords,
            final(self).y_coords == old(self).y_coords - count,
            final(self).display_cols == old(self).display_cols,
            final(self).display_rows == old(self).display_rows + count,
    {
        self.y_coords = self.y_coords - count;
        self.display_rows = self.display_rows + count;
        self.reflow_lines();
    }

    /// Gives up `count` rows at the bottom: the bottom edge moves up.
    pub fn reduce_height_up(&mut self, count: u16)
        requires
            old(self).wf(),
            count < old(self).display_rows,
        ensures
            final(self).wf(),
            final(self).pid == old(self).pid,
            final(self).should_render,
            all_text(final(self).scroll.lines@) == all_text(old(self).scroll.lines@),
            final(self).x_coords == old(self).x_coords,
            final(self).y_coords == old(self).y_coords,
            final(self).display_cols == old(self).display_cols,
            final(self).display_rows == old(self).display_rows - count,
    {
        self.display_rows = self.display_rows - count;
        self.reflow_lines();
    }

    /// Gives the pane the interior `size`, keeping its top-left corner.
    pub fn change_size(&mut self, size: Size)
        requires
            old(self).wf(),
            size.cols >= 1,
            size.rows >= 1,
        ensures
            final(self).wf(),
            final(self).pid == old(self).pid,
            final(self).should_render,
            all_text(final(self).scroll.lines@) == all_text(old(self).scroll.lines@),
            final(self).x_coords == old(self).x_coords,
            final(self).y_coords == old(self).y_coords,
            final(self).display_cols == size.cols,
            final(self).display_rows == size.rows,
    {
        self.display_cols = size.cols;
        self.display_rows = size.rows;
        self.reflow_lines();
    }

    /// Brings the grid to the pane's size and marks the pane for drawing.
    fn reflow_lines(&mut self)
        requires
            old(self).scroll.wf(),
            old(self).display_cols >= 1,
            old(self).display_rows >= 1,
        ensures
            final(self).wf(),
            final(self).pid == old(self).pid,
            final(self).should_render,
            all_text(final(self).scroll.lines@) == all_text(old(self).scroll.lines@),
            final(self).x_coords == old(self).x_coords,
            final(self).y_coords == old(self).y_coords,
            final(self).display_cols == old(self).display_cols,
            final(self).display_rows == old(self).display_rows,
    {
        self.scroll.change_size(self.display_cols as usize, self.display_rows as usize);
        self.should_render = true;
    }

    /// The escape text that draws the pane, if it changed since it was last
    /// drawn: for each visible row a move to its first cell and a style
    /// reset, then each glyph preceded by the style change from the glyph
    /// before it.
    pub fn buffer_as_vte_output(&mut self) -> (r: Option<String>)
        requires
            old(self).wf(),
        ensures
            final(self).wf(),
            same_geometry(*final(self), *old(self)),
            !final(self).should_render,
            final(self).scroll == old(self).scroll,
            final(self).pending_styles == old(self).pending_styles,
            !old(self).should_render ==> r.is_none(),
            old(self).should_render ==> r.is_some() && r.unwrap()@ == pane_frame(*old(self)),
    {
        match self.render_chars() {
            Some(chars) => Some(chars_to_string(&chars)),
            None => None,
        }
    }

    /// `buffer_as_vte_output` as characters.
    pub fn render_chars(&mut self) -> (r: Option<Vec<char>>)
        requires
            old(self).wf(),
        ensures
            final(self).wf(),
            same_geometry(*final(self), *old(self)),
            !final(self).should_render,
            final(self).scroll == old(self).scroll,
            final(self).pending_styles == old(self).pending_styles,
            !old(self).should_render ==> r.is_none(),
            old(self).should_render ==> r.is_some() && r.unwrap()@ == pane_frame(*old(self)),
    {
        if !self.should_render {
            return None;
        }
        let lines = self.scroll.as_character_lines();
        let ghost ls = Seq::new(self.scroll.rows as nat, |k: int| self.scroll.visible_row(k));
        let mut out: Vec<char> = Vec::new();
        let mut k: usize = 0;
        while k < lines.len()
            invariant
                self.wf(),
                lines@.len() == self.scroll.rows,
                forall|i: int| 0 <= i < self.scroll.rows ==> (#[trigger] lines@[i])@ == ls[i],
                ls.len() == self.scroll.rows,
                k <= lines@.len(),
                out@ == frame_text(ls, self.x_coords as nat, self.y_coords as nat, k as int),
            decreases lines@.len() - k,
        {
            push_goto_reset(&mut out, self.y_coords as u64 + k as u64 + 1, self.x_coords as u64 + 1);
            push_row(&mut out, &lines[k]);
            assert(out@ =~= frame_text(ls, self.x_coords as nat, self.y_coords as nat, k + 1));
            k = k + 1;
        }
        self.should_render = false;
        Some(out)
    }

    /// The visible rows of the pane.
    pub fn read_buffer_as_lines(&self) -> (r: Vec<Vec<TerminalCharacter>>)
        requires
            self.wf(),
        ensures
            r@.len() == self.display_rows,
            forall|k: int| 0 <= k < self.display_rows ==> (#[trigger] r@[k])@ == self.scroll.visible_row(k),
    {
        self.scroll.as_character_lines()
    }

    /// The cursor inside the pane, `(x, y)`.
    pub fn cursor_coordinates(&self) -> (r: (usize, usize))
        requires
            self.wf(),
        ensures
            r.0 == self.scroll.cursor_on_screen().0,
            r.1 == self.scroll.cursor_on_screen().1,
            r.0 < self.display_cols,
            r.1 < self.display_rows,
    {
        self.scroll.cursor_coordinates_on_screen()
    }

    /// Scrolls the view `count` rows back into the scrollback.
    pub fn scroll_up(&mut self, count: usize)
        requires
            old(self).wf(),
        ensures
            final(self).wf(),
            same_geometry(*final(self), *old(self)),
            final(self).should_render,
            final(self).scroll.viewport_offset == min(
                old(self).scroll.viewport_offset + count,
                old(self).scroll.screen_top(),
            ),
    {
        self.scroll.move_viewport_up(count);
        self.should_render = true;
    }

    /// Scrolls the view `count` rows towards the screen.
    pub fn scroll_down(&mut self, count: usize)
        requires
            old(self).wf(),
        ensures
            final(self).wf(),
            same_geometry(*final(self), *old(self)),
            final(self).should_render,
            final(self).scroll.viewport_offset == if count > old(self).scroll.viewport_offset {
                0
            } else {
                old(self).scroll.viewport_offset - count
            },
    {
        self.scroll.move_viewport_down(count);
        self.should_render = true;
    }

    /// Shows the screen again after scrolling back.
    pub fn clear_scroll(&mut self)
        requires
            old(self).wf(),
        ensures
            final(self).wf(),
            same_geometry(*final(self), *old(self)),
            final(self).should_render,
            final(self).scroll.viewport_offset == 0,
    {
        self.scroll.reset_viewport();
        self.should_render = true;
    }
}

}
