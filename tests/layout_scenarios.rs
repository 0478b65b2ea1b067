use mosaic::error::ScreenError;
use mosaic::pane::{Size, VteEvent};
use mosaic::screen::{Action, Screen, ScreenInstruction};

fn rect(s: &Screen, pid: i32) -> (u16, u16, u16, u16) {
    let p = s.terminals.iter().find(|p| p.pid == pid).expect("pane exists");
    (p.x_coords, p.y_coords, p.display_cols, p.display_rows)
}

fn screen_80x24() -> Screen {
    Screen::new(Size { cols: 80, rows: 24 }, None)
}

/// Pane interiors and one-cell borders cover the viewport exactly.
fn assert_tiles(s: &Screen) {
    let vc = s.full_screen_ws.cols as usize;
    let vr = s.full_screen_ws.rows as usize;
    let mut owner = vec![vec![0u32; vc + 1]; vr + 1];
    for p in &s.terminals {
        let (x, y, c, r) = (p.x_coords as usize, p.y_coords as usize, p.display_cols as usize, p.display_rows as usize);
        assert!(c >= 1 && r >= 1);
        assert!(x + c <= vc && y + r <= vr);
        for row in y..=y + r {
            for col in x..=x + c {
                owner[row][col] += 1;
            }
        }
    }
    for row in 0..=vr {
        for col in 0..=vc {
            assert_eq!(owner[row][col], 1, "cell ({}, {})", row, col);
        }
    }
    match s.active_terminal {
        Some(id) => assert!(s.terminals.iter().any(|p| p.pid == id)),
        None => assert!(s.terminals.is_empty()),
    }
}

/// Scenario 3: left-top 1, left-bottom 3, right 2, focus on 3.
fn three_panes() -> Screen {
    let mut s = screen_80x24();
    s.new_pane(1).unwrap();
    s.vertical_split(2).unwrap();
    s.move_focus();
    assert_eq!(s.active_terminal, Some(1));
    s.horizontal_split(3).unwrap();
    s
}

#[test]
fn empty_screen_new_pane_fills_viewport() {
    let mut s = screen_80x24();
    assert_eq!(s.new_pane(7), Ok(()));
    assert_eq!(s.terminals.len(), 1);
    assert_eq!(rect(&s, 7), (0, 0, 80, 24));
    assert_eq!(s.active_terminal, Some(7));
    assert_eq!(s.take_actions(), vec![Action::SetTerminalSize(7, 80, 24)]);
}

#[test]
fn vertical_split_of_full_pane() {
    let mut s = screen_80x24();
    s.new_pane(1).unwrap();
    assert_eq!(s.vertical_split(2), Ok(()));
    assert_eq!(rect(&s, 1), (0, 0, 40, 24));
    assert_eq!(rect(&s, 2), (41, 0, 39, 24));
    assert_eq!(s.active_terminal, Some(2));
    assert_tiles(&s);
}

#[test]
fn horizontal_split_of_left_pane() {
    let s = three_panes();
    assert_eq!(rect(&s, 1), (0, 0, 40, 12));
    assert_eq!(rect(&s, 3), (0, 13, 40, 11));
    assert_eq!(rect(&s, 2), (41, 0, 39, 24));
    assert_eq!(s.active_terminal, Some(3));
    assert_tiles(&s);
}

#[test]
fn resize_right_moves_the_aligned_strip() {
    let mut s = three_panes();
    s.move_focus();
    assert_eq!(s.active_terminal, Some(1));
    assert_eq!(s.resize_right(), Ok(()));
    assert_eq!(rect(&s, 1), (0, 0, 50, 12));
    assert_eq!(rect(&s, 3), (0, 13, 50, 11));
    assert_eq!(rect(&s, 2), (51, 0, 29, 24));
    assert_eq!(s.active_terminal, Some(1));
    assert_tiles(&s);
}

#[test]
fn close_right_pane_gives_its_area_to_the_left_strip() {
    let mut s = three_panes();
    s.move_focus();
    s.resize_right().unwrap();
    s.move_focus();
    assert_eq!(s.active_terminal, Some(2));
    assert_eq!(s.close_pane(2), Ok(true));
    assert_eq!(rect(&s, 1), (0, 0, 80, 12));
    assert_eq!(rect(&s, 3), (0, 13, 80, 11));
    assert_eq!(s.terminals.len(), 2);
    // focus was on the closed pane: it goes to the last pane that grew
    assert_eq!(s.active_terminal, Some(3));
    assert_tiles(&s);
}

#[test]
fn closing_an_unfocused_pane_keeps_focus() {
    let mut s = three_panes();
    s.move_focus();
    s.resize_right().unwrap();
    assert_eq!(s.close_pane(2), Ok(true));
    assert_eq!(rect(&s, 1), (0, 0, 80, 12));
    assert_eq!(s.active_terminal, Some(1));
}

#[test]
fn close_hands_over_exactly_the_closed_area() {
    let mut s = three_panes();
    let strip_before: u32 = [1, 3]
        .iter()
        .map(|id| { let (_, _, c, r) = rect(&s, *id); (c as u32 + 1) * (r as u32 + 1) })
        .sum();
    let (_, _, c, r) = rect(&s, 2);
    let closed = (c as u32 + 1) * (r as u32 + 1);
    s.close_pane(2).unwrap();
    let strip_after: u32 = [1, 3]
        .iter()
        .map(|id| { let (_, _, c, r) = rect(&s, *id); (c as u32 + 1) * (r as u32 + 1) })
        .sum();
    assert_eq!(strip_after, strip_before + closed);
}

#[test]
fn cells_are_accounted_for_after_many_operations() {
    let mut s = screen_80x24();
    for id in 1..=6 {
        s.new_pane(id).unwrap();
        assert_tiles(&s);
    }
    s.resize_left().unwrap_or(());
    assert_tiles(&s);
    s.resize_up().unwrap_or(());
    assert_tiles(&s);
    s.move_focus();
    s.resize_down().unwrap_or(());
    assert_tiles(&s);
    let _ = s.close_pane(3);
    assert_tiles(&s);
    let interior: u32 = s.terminals.iter().map(|p| p.display_cols as u32 * p.display_rows as u32).sum();
    let owned_border: u32 = s.terminals.iter().map(|p| p.display_cols as u32 + p.display_rows as u32 + 1).sum();
    assert_eq!(interior + owned_border - (80 + 24 + 1), 80 * 24);
}

#[test]
fn new_pane_splits_the_heaviest_pane_along_its_long_side() {
    let mut s = screen_80x24();
    s.new_pane(1).unwrap();
    s.new_pane(2).unwrap();
    // 24 rows weigh 96 against 80 columns: one above the other
    assert_eq!(rect(&s, 1), (0, 0, 80, 12));
    assert_eq!(rect(&s, 2), (0, 13, 80, 11));
    s.new_pane(3).unwrap();
    // pane 1 (12 * 4 = 48 < 80) is the heaviest and splits side by side
    assert_eq!(rect(&s, 1), (0, 0, 40, 12));
    assert_eq!(rect(&s, 3), (41, 0, 39, 12));
    assert_eq!(s.active_terminal, Some(3));
}

#[test]
fn new_pane_evicts_the_lowest_ids_at_the_cap() {
    let mut s = Screen::new(Size { cols: 80, rows: 24 }, Some(2));
    s.new_pane(1).unwrap();
    s.new_pane(2).unwrap();
    s.take_actions();
    s.new_pane(3).unwrap();
    let actions = s.take_actions();
    assert_eq!(actions[0], Action::ClosePane(1));
    assert!(s.terminals.iter().all(|p| p.pid != 1));
    assert_eq!(s.terminals.len(), 2);
    assert_tiles(&s);
}

#[test]
fn move_focus_cycles_in_id_order() {
    let mut s = three_panes();
    assert_eq!(s.active_terminal, Some(3));
    s.move_focus();
    assert_eq!(s.active_terminal, Some(1));
    s.move_focus();
    assert_eq!(s.active_terminal, Some(2));
    s.move_focus();
    assert_eq!(s.active_terminal, Some(3));
}

#[test]
fn move_focus_on_empty_screen_does_nothing() {
    let mut s = screen_80x24();
    s.move_focus();
    assert_eq!(s.active_terminal, None);
}

#[test]
fn resize_left_and_up_and_down() {
    let mut s = three_panes();
    s.move_focus();
    assert_eq!(s.resize_left(), Ok(()));
    assert_eq!(rect(&s, 1), (0, 0, 30, 12));
    assert_eq!(rect(&s, 3), (0, 13, 30, 11));
    assert_eq!(rect(&s, 2), (31, 0, 49, 24));
    // pane 1 has a pane below: its bottom border moves
    assert_eq!(s.resize_down(), Ok(()));
    assert_eq!(rect(&s, 1), (0, 0, 30, 14));
    assert_eq!(rect(&s, 3), (0, 15, 30, 9));
    assert_eq!(s.resize_up(), Ok(()));
    assert_eq!(rect(&s, 1), (0, 0, 30, 12));
    assert_eq!(rect(&s, 3), (0, 13, 30, 11));
    assert_tiles(&s);
}

#[test]
fn resize_of_the_right_pane_moves_its_left_border() {
    let mut s = screen_80x24();
    s.new_pane(1).unwrap();
    s.vertical_split(2).unwrap();
    assert_eq!(s.resize_right(), Ok(()));
    assert_eq!(rect(&s, 2), (51, 0, 29, 24));
    assert_eq!(rect(&s, 1), (0, 0, 50, 24));
    assert_eq!(s.resize_left(), Ok(()));
    assert_eq!(rect(&s, 2), (41, 0, 39, 24));
    assert_eq!(rect(&s, 1), (0, 0, 40, 24));
}

#[test]
fn infeasible_resize_keeps_the_layout() {
    let mut s = Screen::new(Size { cols: 20, rows: 10 }, None);
    s.new_pane(1).unwrap();
    s.vertical_split(2).unwrap();
    assert_eq!(rect(&s, 2), (11, 0, 9, 10));
    s.move_focus();
    assert_eq!(s.resize_right(), Err(ScreenError::ResizeInfeasible));
    assert_eq!(rect(&s, 1), (0, 0, 10, 10));
    assert_eq!(rect(&s, 2), (11, 0, 9, 10));
}

#[test]
fn split_of_a_pane_too_small_is_refused() {
    let mut s = Screen::new(Size { cols: 2, rows: 1 }, None);
    s.new_pane(1).unwrap();
    assert_eq!(s.vertical_split(2), Err(ScreenError::ResizeInfeasible));
    assert_eq!(s.terminals.len(), 1);
    assert_eq!(s.active_terminal, Some(1));
}

#[test]
fn duplicate_pane_id_is_refused() {
    let mut s = screen_80x24();
    s.new_pane(1).unwrap();
    assert_eq!(s.new_pane(1), Err(ScreenError::DuplicatePane(1)));
    assert_eq!(s.terminals.len(), 1);
}

#[test]
fn unknown_pane_is_reported() {
    let mut s = screen_80x24();
    s.new_pane(1).unwrap();
    assert_eq!(s.close_pane(9), Err(ScreenError::UnknownPane(9)));
    assert_eq!(s.handle_pty_event(9, VteEvent::Print('x')), Err(ScreenError::UnknownPane(9)));
}

#[test]
fn closing_the_last_pane_is_a_no_op() {
    let mut s = screen_80x24();
    s.new_pane(1).unwrap();
    assert_eq!(s.close_pane(1), Ok(false));
    assert_eq!(s.terminals.len(), 1);
    assert_eq!(s.active_terminal, Some(1));
}

#[test]
fn close_focused_pane_asks_the_host_to_stop_it() {
    let mut s = screen_80x24();
    s.new_pane(1).unwrap();
    s.vertical_split(2).unwrap();
    s.take_actions();
    assert_eq!(s.close_focused_pane(), Ok(true));
    assert_eq!(s.take_actions()[0], Action::ClosePane(2));
    assert_eq!(rect(&s, 1), (0, 0, 80, 24));
    assert_eq!(s.active_terminal, Some(1));
}

#[test]
fn close_above_and_below() {
    let mut s = screen_80x24();
    s.new_pane(1).unwrap();
    s.horizontal_split(2).unwrap();
    assert_eq!(rect(&s, 2), (0, 13, 80, 11));
    // the lower pane closes into the upper one
    assert_eq!(s.close_pane(2), Ok(true));
    assert_eq!(rect(&s, 1), (0, 0, 80, 24));
    s.horizontal_split(3).unwrap();
    // the upper pane closes into the lower one
    assert_eq!(s.close_pane(1), Ok(true));
    assert_eq!(rect(&s, 3), (0, 0, 80, 24));
}

#[test]
fn write_to_active_terminal_becomes_an_action() {
    let mut s = screen_80x24();
    s.write_to_active_terminal(b'a');
    assert!(s.take_actions().is_empty());
    s.new_pane(4).unwrap();
    s.take_actions();
    s.write_to_active_terminal(b'a');
    assert_eq!(s.take_actions(), vec![Action::WriteToTty(4, b'a')]);
}

#[test]
fn split_announces_both_new_sizes() {
    let mut s = screen_80x24();
    s.new_pane(1).unwrap();
    s.take_actions();
    s.vertical_split(2).unwrap();
    let actions = s.take_actions();
    assert!(actions.contains(&Action::SetTerminalSize(1, 40, 24)));
    assert!(actions.contains(&Action::SetTerminalSize(2, 39, 24)));
}

#[test]
fn instructions_are_dispatched() {
    let mut s = screen_80x24();
    assert_eq!(s.handle_instruction(ScreenInstruction::NewPane(1)), Ok(true));
    assert_eq!(s.handle_instruction(ScreenInstruction::VerticalSplit(2)), Ok(true));
    assert_eq!(rect(&s, 2), (41, 0, 39, 24));
    assert_eq!(s.handle_instruction(ScreenInstruction::MoveFocus), Ok(true));
    assert_eq!(s.active_terminal, Some(1));
    assert_eq!(
        s.handle_instruction(ScreenInstruction::Pty(9, VteEvent::Print('x'))),
        Err(ScreenError::UnknownPane(9))
    );
    assert_eq!(s.handle_instruction(ScreenInstruction::Quit), Ok(false));
}

#[test]
fn scrolling_the_focused_pane() {
    let mut s = Screen::new(Size { cols: 10, rows: 2 }, None);
    s.new_pane(1).unwrap();
    for _ in 0..4 {
        s.handle_pty_event(1, VteEvent::Execute(10)).unwrap();
    }
    s.scroll_active_terminal_up();
    assert_eq!(s.terminals[0].scroll.viewport_offset, 1);
    s.scroll_active_terminal_up();
    s.scroll_active_terminal_down();
    assert_eq!(s.terminals[0].scroll.viewport_offset, 1);
    s.clear_active_terminal_scroll();
    assert_eq!(s.terminals[0].scroll.viewport_offset, 0);
}

#[test]
fn resize_left_grows_towards_panes_on_the_left() {
    let mut s = screen_80x24();
    s.new_pane(1).unwrap();
    s.vertical_split(2).unwrap();
    s.vertical_split(3).unwrap();
    assert_eq!(rect(&s, 2), (41, 0, 19, 24));
    assert_eq!(rect(&s, 3), (61, 0, 19, 24));
    s.move_focus();
    s.move_focus();
    assert_eq!(s.active_terminal, Some(2));
    assert_eq!(s.resize_left(), Ok(()));
    assert_eq!(rect(&s, 1), (0, 0, 30, 24));
    assert_eq!(rect(&s, 2), (31, 0, 29, 24));
    assert_eq!(rect(&s, 3), (61, 0, 19, 24));
    assert_tiles(&s);
}

#[test]
fn resize_down_grows_towards_panes_below() {
    let mut s = screen_80x24();
    s.new_pane(1).unwrap();
    s.horizontal_split(2).unwrap();
    s.horizontal_split(3).unwrap();
    assert_eq!(rect(&s, 2), (0, 13, 80, 5));
    assert_eq!(rect(&s, 3), (0, 19, 80, 5));
    s.move_focus();
    s.move_focus();
    assert_eq!(s.active_terminal, Some(2));
    assert_eq!(s.resize_down(), Ok(()));
    assert_eq!(rect(&s, 2), (0, 13, 80, 7));
    assert_eq!(rect(&s, 3), (0, 21, 80, 3));
    assert_tiles(&s);
}
