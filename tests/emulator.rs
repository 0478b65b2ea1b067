use mosaic::character::{AnsiCode, CharacterStyles, NamedColor, TerminalCharacter, push_decimal};
use mosaic::error::ScreenError;
use mosaic::grid::Scroll;
use mosaic::pane::{Size, TerminalPane, VteEvent};
use mosaic::screen::Screen;

fn csi(params: Vec<i64>, c: char) -> VteEvent {
    VteEvent::CsiDispatch(params, vec![], false, c)
}

fn pane(cols: u16, rows: u16) -> TerminalPane {
    TerminalPane::new(1, Size { cols, rows }, 0, 0)
}

fn glyphs(p: &TerminalPane, row: usize) -> String {
    p.read_buffer_as_lines()[row].iter().map(|c| c.character).collect()
}

const ALL_RESETS: &str = "\u{1b}[39m\u{1b}[49m\u{1b}[22m\u{1b}[22m\u{1b}[23m\u{1b}[24m\u{1b}[25m\u{1b}[25m\u{1b}[27m\u{1b}[28m\u{1b}[29m";

#[test]
fn sgr_round_trip_through_render() {
    let mut p = pane(4, 1);
    p.handle_event(csi(vec![31], 'm')).unwrap();
    p.handle_event(VteEvent::Print('A')).unwrap();
    p.handle_event(csi(vec![0], 'm')).unwrap();
    p.handle_event(VteEvent::Print('B')).unwrap();
    let out = p.buffer_as_vte_output().unwrap();
    // A: red foreground; B: every attribute explicitly reset; then the
    // unstyled blanks switch every attribute off again
    let expected = format!("\u{1b}[1;1H\u{1b}[m\u{1b}[31mA{}B{}  ", ALL_RESETS, ALL_RESETS);
    assert_eq!(out, expected);
}

#[test]
fn styles_do_not_cross_a_newline() {
    let mut p = pane(3, 2);
    p.handle_event(csi(vec![31], 'm')).unwrap();
    p.handle_event(VteEvent::Print('A')).unwrap();
    p.handle_event(VteEvent::Execute(10)).unwrap();
    p.handle_event(VteEvent::Print('B')).unwrap();
    let lines = p.read_buffer_as_lines();
    assert_eq!(lines[0][0].styles.foreground, Some(AnsiCode::NamedColor(NamedColor::Red)));
    assert_eq!(lines[1][0].character, 'B');
    assert_eq!(lines[1][0].styles, CharacterStyles::new());
    let out = p.buffer_as_vte_output().unwrap();
    assert_eq!(out, "\u{1b}[1;1H\u{1b}[m\u{1b}[31mA\u{1b}[39m  \u{1b}[2;1H\u{1b}[mB  ");
}

#[test]
fn second_render_draws_no_pane() {
    let mut s = Screen::new(Size { cols: 3, rows: 1 }, None);
    s.new_pane(1).unwrap();
    let first = s.render();
    assert_eq!(first, "\u{1b}[1;1H\u{1b}[m   \u{1b}[1;1H\u{1b}[m");
    let second = s.render();
    assert_eq!(second, "\u{1b}[1;1H\u{1b}[m");
}

#[test]
fn render_draws_borders_between_panes() {
    let mut s = Screen::new(Size { cols: 3, rows: 1 }, None);
    s.new_pane(1).unwrap();
    s.vertical_split(2).unwrap();
    let out = s.render();
    let expected = "\u{1b}[1;1H\u{1b}[m \u{1b}[1;3H\u{1b}[m \u{1b}[1;2H\u{2502}\u{1b}[1;3H\u{1b}[m";
    assert_eq!(out, expected);
    assert_eq!(s.render(), "\u{1b}[1;2H\u{2502}\u{1b}[1;3H\u{1b}[m");
}

#[test]
fn render_places_the_cursor_at_the_focused_pane() {
    let mut s = Screen::new(Size { cols: 5, rows: 3 }, None);
    s.new_pane(1).unwrap();
    s.handle_pty_event(1, VteEvent::Print('a')).unwrap();
    s.handle_pty_event(1, VteEvent::Print('b')).unwrap();
    let out = s.render();
    assert!(out.ends_with("\u{1b}[1;3H\u{1b}[m"));
}

#[test]
fn no_output_when_nothing_changed() {
    let mut p = pane(2, 1);
    assert!(p.buffer_as_vte_output().is_some());
    assert_eq!(p.buffer_as_vte_output(), None);
    p.handle_event(VteEvent::Print('x')).unwrap();
    assert_eq!(p.buffer_as_vte_output(), Some("\u{1b}[1;1H\u{1b}[mx ".to_string()));
}

#[test]
fn output_is_placed_at_the_pane_position() {
    let mut p = TerminalPane::new(1, Size { cols: 1, rows: 2 }, 4, 6);
    assert_eq!(p.buffer_as_vte_output(), Some("\u{1b}[7;5H\u{1b}[m \u{1b}[8;5H\u{1b}[m ".to_string()));
}

#[test]
fn unhandled_csi_is_refused() {
    let mut p = pane(2, 1);
    assert_eq!(p.handle_event(csi(vec![1], 'z')), Err(ScreenError::UnhandledCsi('z')));
    assert_eq!(p.handle_event(csi(vec![1], 'q')), Ok(()));
    assert_eq!(p.handle_event(VteEvent::Unhook), Ok(()));
    assert_eq!(p.handle_event(VteEvent::EscDispatch(vec![], false, b'c')), Ok(()));
}

#[test]
fn sgr_table() {
    let mut p = pane(2, 1);
    p.handle_event(csi(vec![44], 'm')).unwrap();
    assert_eq!(p.pending_styles.background, Some(AnsiCode::NamedColor(NamedColor::Blue)));
    p.handle_event(csi(vec![38, 5, 200], 'm')).unwrap();
    assert_eq!(p.pending_styles.foreground, Some(AnsiCode::Code(Some(5), Some(200))));
    p.handle_event(csi(vec![1], 'm')).unwrap();
    assert_eq!(p.pending_styles.bold, Some(AnsiCode::Code(None, None)));
    p.handle_event(csi(vec![22], 'm')).unwrap();
    assert_eq!(p.pending_styles.bold, Some(AnsiCode::Reset));
    assert_eq!(p.pending_styles.dim, Some(AnsiCode::Reset));
    p.handle_event(csi(vec![99], 'm')).unwrap();
    assert_eq!(p.pending_styles.background, Some(AnsiCode::NamedColor(NamedColor::Blue)));
    p.handle_event(csi(vec![], 'm')).unwrap();
    assert_eq!(p.pending_styles.background, Some(AnsiCode::Reset));
    assert_eq!(p.pending_styles.strike, Some(AnsiCode::Reset));
}

#[test]
fn extended_colour_is_emitted_with_its_parameters() {
    let mut p = pane(1, 1);
    p.handle_event(csi(vec![48, 2, 7], 'm')).unwrap();
    p.handle_event(VteEvent::Print('x')).unwrap();
    assert_eq!(p.buffer_as_vte_output().unwrap(), "\u{1b}[1;1H\u{1b}[m\u{1b}[48;2;7mx");
}

#[test]
fn cursor_movement() {
    let mut p = pane(10, 5);
    p.handle_event(csi(vec![3, 4], 'H')).unwrap();
    assert_eq!(p.cursor_coordinates(), (3, 2));
    p.handle_event(csi(vec![2], 'C')).unwrap();
    assert_eq!(p.cursor_coordinates(), (5, 2));
    p.handle_event(csi(vec![0], 'D')).unwrap();
    assert_eq!(p.cursor_coordinates(), (4, 2));
    p.handle_event(csi(vec![9], 'A')).unwrap();
    assert_eq!(p.cursor_coordinates(), (4, 0));
    p.handle_event(csi(vec![2], 'H')).unwrap();
    assert_eq!(p.cursor_coordinates(), (0, 2));
    p.handle_event(csi(vec![99, 99], 'H')).unwrap();
    assert_eq!(p.cursor_coordinates(), (9, 4));
    p.handle_event(VteEvent::Execute(8)).unwrap();
    assert_eq!(p.cursor_coordinates(), (8, 4));
    p.handle_event(VteEvent::Execute(13)).unwrap();
    assert_eq!(p.cursor_coordinates(), (0, 4));
}

#[test]
fn clearing() {
    let mut p = pane(4, 2);
    for c in "abcdefgh".chars() {
        p.handle_event(VteEvent::Print(c)).unwrap();
    }
    assert_eq!(glyphs(&p, 0), "abcd");
    assert_eq!(glyphs(&p, 1), "efgh");
    p.handle_event(csi(vec![1, 2], 'H')).unwrap();
    p.handle_event(csi(vec![0], 'K')).unwrap();
    assert_eq!(glyphs(&p, 0), "a   ");
    assert_eq!(glyphs(&p, 1), "efgh");
    p.handle_event(csi(vec![0], 'J')).unwrap();
    assert_eq!(glyphs(&p, 1), "    ");
    p.handle_event(VteEvent::Print('z')).unwrap();
    p.handle_event(csi(vec![2], 'J')).unwrap();
    assert_eq!(glyphs(&p, 0), "    ");
}

#[test]
fn wrapping_continues_the_canonical_line() {
    let mut sc = Scroll::new(3, 2);
    for c in "abcde".chars() {
        sc.add_character(TerminalCharacter { character: c, styles: CharacterStyles::new() });
    }
    assert_eq!(sc.continued, vec![false, true]);
    sc.change_size(5, 2);
    let rows: Vec<String> = sc.as_character_lines().iter().map(|r| r.iter().map(|c| c.character).collect()).collect();
    assert_eq!(rows, vec!["abcde".to_string(), "     ".to_string()]);
    assert_eq!(sc.cursor_coordinates_on_screen(), (4, 0));
    sc.change_size(2, 3);
    let rows: Vec<String> = sc.as_character_lines().iter().map(|r| r.iter().map(|c| c.character).collect()).collect();
    assert_eq!(rows, vec!["ab".to_string(), "cd".to_string(), "e ".to_string()]);
    assert_eq!(sc.cursor_coordinates_on_screen(), (1, 2));
}

#[test]
fn pane_resize_reflows() {
    let mut p = pane(6, 2);
    for c in "abcdef".chars() {
        p.handle_event(VteEvent::Print(c)).unwrap();
    }
    p.reduce_width_left(3);
    assert_eq!((p.x_coords, p.display_cols), (0, 3));
    assert_eq!(glyphs(&p, 0), "abc");
    assert_eq!(glyphs(&p, 1), "def");
    p.increase_width_right(3);
    assert_eq!(glyphs(&p, 0), "abcdef");
    p.reduce_width_right(2);
    assert_eq!((p.x_coords, p.display_cols), (2, 4));
    p.increase_width_left(2);
    assert_eq!((p.x_coords, p.display_cols), (0, 6));
    p.increase_height_down(1);
    assert_eq!(p.display_rows, 3);
    p.reduce_height_down(1);
    assert_eq!((p.y_coords, p.display_rows), (1, 2));
    p.increase_height_up(1);
    assert_eq!((p.y_coords, p.display_rows), (0, 3));
    p.reduce_height_up(1);
    assert_eq!((p.y_coords, p.display_rows), (0, 2));
    p.change_size(Size { cols: 2, rows: 1 });
    assert_eq!((p.display_cols, p.display_rows), (2, 1));
    assert!(p.should_render);
}

#[test]
fn scroll_region_scrolls_only_its_rows() {
    let mut p = pane(1, 4);
    for c in ['a', 'b', 'c', 'd'] {
        p.handle_event(VteEvent::Print(c)).unwrap();
        if c != 'd' {
            p.handle_event(VteEvent::Execute(10)).unwrap();
        }
    }
    p.handle_event(csi(vec![2, 3], 'r')).unwrap();
    p.handle_event(csi(vec![3, 1], 'H')).unwrap();
    p.handle_event(VteEvent::Execute(10)).unwrap();
    let rows: Vec<String> = (0..4).map(|r| glyphs(&p, r)).collect();
    assert_eq!(rows, vec!["a", "c", " ", "d"]);
    p.handle_event(csi(vec![2, 1], 'H')).unwrap();
    p.handle_event(csi(vec![1], 'L')).unwrap();
    let rows: Vec<String> = (0..4).map(|r| glyphs(&p, r)).collect();
    assert_eq!(rows, vec!["a", " ", "c", "d"]);
    p.handle_event(csi(vec![0], 'M')).unwrap();
    let rows: Vec<String> = (0..4).map(|r| glyphs(&p, r)).collect();
    assert_eq!(rows, vec!["a", "c", " ", "d"]);
    p.handle_event(csi(vec![], 'r')).unwrap();
    assert_eq!(p.scroll.scroll_region, None);
}

#[test]
fn viewport_scrolls_through_history() {
    let mut p = pane(1, 1);
    p.handle_event(VteEvent::Print('a')).unwrap();
    p.handle_event(VteEvent::Execute(10)).unwrap();
    p.handle_event(VteEvent::Print('b')).unwrap();
    assert_eq!(glyphs(&p, 0), "b");
    p.scroll_up(5);
    assert_eq!(glyphs(&p, 0), "a");
    p.scroll_down(1);
    assert_eq!(glyphs(&p, 0), "b");
    p.scroll_up(1);
    p.clear_scroll();
    assert_eq!(glyphs(&p, 0), "b");
}

#[test]
fn style_diff_is_none_for_equal_styles() {
    let mut a = CharacterStyles::new();
    let b = CharacterStyles::new();
    assert_eq!(a.update_and_return_diff(&b), None);
    let mut red = CharacterStyles::new();
    red.foreground = Some(AnsiCode::NamedColor(NamedColor::Red));
    let diff: String = a.update_and_return_diff(&red).unwrap().into_iter().collect();
    assert_eq!(diff, "\u{1b}[31m");
    assert_eq!(a, red);
    a.clear();
    assert_eq!(a, CharacterStyles::new());
    a.reset_all();
    assert_eq!(a.italic, Some(AnsiCode::Reset));
}

#[test]
fn decimal_digits() {
    let mut v = vec![];
    push_decimal(&mut v, 0);
    push_decimal(&mut v, 407);
    assert_eq!(v.into_iter().collect::<String>(), "0407");
}
