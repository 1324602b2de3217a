use toyterm::view::Viewport;
use toyterm::multiplexer::{Command, Controller};
use toyterm::window::{Key, Modifiers};

fn after_prefix(c: &mut Controller, ch: char) -> Option<Command> {
    assert_eq!(c.on_character('\x01'), Some(Command::Nop));
    c.on_character(ch)
}

#[test]
fn prefix_commands_of_the_readme() {
    let mut c = Controller::default();
    assert_eq!(after_prefix(&mut c, 'c'), Some(Command::AddNewTab));
    assert_eq!(after_prefix(&mut c, 'n'), Some(Command::FocusNextTab));
    assert_eq!(after_prefix(&mut c, 'p'), Some(Command::FocusPrevTab));
    assert_eq!(after_prefix(&mut c, '%'), Some(Command::SplitVertical));
    assert_eq!(after_prefix(&mut c, '"'), Some(Command::SplitHorizontal));
    assert_eq!(after_prefix(&mut c, 's'), Some(Command::SaveLayout));
    assert_eq!(after_prefix(&mut c, 'r'), Some(Command::RestoreLayout));
    assert_eq!(after_prefix(&mut c, 'z'), Some(Command::SetMaximize));
    assert_eq!(after_prefix(&mut c, 'z'), Some(Command::ResetMaximize));
}

#[test]
fn characters_without_prefix_pass_through() {
    let mut c = Controller::default();
    assert_eq!(c.on_character('c'), None);
    assert_eq!(after_prefix(&mut c, '\x01'), None);
    assert_eq!(c.on_character('c'), None);
    assert_eq!(after_prefix(&mut c, 'q'), Some(Command::Nop));
    assert_eq!(after_prefix(&mut c, '\x1b'), Some(Command::Nop));
}

#[test]
fn prefix_arrows_move_the_focus() {
    let mut c = Controller::default();
    assert_eq!(c.on_key_press(Key::Up), None);
    c.on_character('\x01');
    assert_eq!(c.on_key_press(Key::Up), Some(Command::FocusUp));
    assert_eq!(c.on_key_press(Key::Down), None);
    c.on_character('\x01');
    c.set_modifiers(Modifiers { shift: true, ..Modifiers::default() });
    assert_eq!(c.on_key_press(Key::Left), None);
    c.set_modifiers(Modifiers::default());
    assert_eq!(c.on_key_press(Key::C), None);
    assert_eq!(c.on_key_press(Key::Right), Some(Command::FocusRight));
}

use toyterm::multiplexer::{last_path_part, status_bar_cells, BinaryLayout, Pane, Partition, TabbedLayout};
use toyterm::terminal::Color;

fn chars(s: &str) -> Vec<char> {
    s.chars().collect()
}

#[test]
fn split_focuses_the_new_window_and_close_gives_it_back() {
    let p = Pane::Single(1);
    let (p, taken) = p.process_command(Command::SplitVertical, 2);
    assert!(taken);
    assert_eq!(p.focused_window(), 2);
    let (p, taken) = p.process_command(Command::FocusLeft, 0);
    assert!(taken);
    assert_eq!(p.focused_window(), 1);
    let (p, taken) = p.process_command(Command::FocusUp, 0);
    assert!(!taken);
    assert_eq!(p.focused_window(), 1);
    let (p, _) = p.process_command(Command::SplitHorizontal, 3);
    assert_eq!(p.focused_window(), 3);
    let p = p.close();
    assert_eq!(p.focused_window(), 1);
    let p = p.close();
    assert!(p.is_single());
    assert_eq!(p.focused_window(), 2);
}

#[test]
fn tabs_are_added_switched_and_closed() {
    let mut tabs = TabbedLayout::new(10);
    assert!(tabs.process_command(Command::AddNewTab, 11));
    assert_eq!((tabs.tab_count(), tabs.focus()), (2, 1));
    assert!(tabs.process_command(Command::FocusNextTab, 0));
    assert_eq!(tabs.focused_window(), 10);
    assert!(tabs.process_command(Command::FocusPrevTab, 0));
    assert_eq!(tabs.focused_window(), 11);
    assert!(tabs.process_command(Command::SplitVertical, 12));
    assert_eq!(tabs.focused_window(), 12);
    tabs.close();
    assert_eq!(tabs.focused_window(), 11);
    tabs.close();
    assert_eq!(tabs.tab_count(), 1);
    assert_eq!(tabs.focused_window(), 10);
}

#[test]
fn focus_moves_end_a_maximization() {
    let mut tabs = TabbedLayout::new(1);
    let mut c = Controller::default();
    tabs.apply(&mut c, Command::SplitHorizontal, 2);
    c.on_character('\x01');
    assert_eq!(c.on_character('z'), Some(Command::SetMaximize));
    tabs.apply(&mut c, Command::SetMaximize, 0);
    tabs.apply(&mut c, Command::FocusUp, 0);
    assert_eq!(tabs.focused_window(), 1);
    c.on_character('\x01');
    assert_eq!(c.on_character('z'), Some(Command::SetMaximize));
    assert!(tabs.close_focused(&mut c) == false);
    assert_eq!(tabs.focused_window(), 2);
    assert!(tabs.close_focused(&mut c));
}

#[test]
fn last_part_of_a_program_path() {
    assert_eq!(last_path_part(&chars("/usr/bin/bash")), chars("bash"));
    assert_eq!(last_path_part(&chars("vim")), chars("vim"));
    assert_eq!(last_path_part(&chars("dir/")), chars(""));
}

#[test]
fn status_bar_shows_tabs_and_clock() {
    let names = vec![chars("/bin/bash"), chars("vim")];
    let cells = status_bar_cells(&names, 1, 20, &chars("12:34"));
    let text: String = cells.iter().map(|c| c.ch).collect();
    assert_eq!(text, "0:bash 1:vim   12:34");
    assert_eq!(cells[0].attr.fg, Color::BrightBlue);
    assert_eq!(cells[7].attr.fg, Color::Yellow);
    assert_eq!(cells[16].attr.fg, Color::BrightBlue);
    assert_eq!(cells[19].attr.bg, Color::BrightGreen);
    let narrow = status_bar_cells(&names, 0, 4, &chars("12:34"));
    let text: String = narrow.iter().map(|c| c.ch).collect();
    assert_eq!(text, "12:3");
}

#[test]
fn focus_follows_the_focused_pane_and_tab() {
    let mut tabs = TabbedLayout::new(1);
    tabs.process_command(Command::SplitVertical, 2);
    tabs.process_command(Command::AddNewTab, 3);
    assert_eq!(tabs.update_focus(true), vec![(1, false), (2, false), (3, true)]);
    tabs.process_command(Command::FocusNextTab, 0);
    assert_eq!(tabs.update_focus(true), vec![(1, false), (2, true), (3, false)]);
    assert_eq!(tabs.update_focus(false), vec![(1, false), (2, false), (3, false)]);
}

#[test]
fn events_go_to_the_focused_half() {
    let mut b = BinaryLayout {
        partition: Partition::Vertical,
        focus_x: true,
        maximized: false,
        x: Box::new(Pane::Single(1)),
        y: Box::new(Pane::Single(2)),
    };
    assert_eq!(b.split_event(false), (true, false));
    assert_eq!(b.split_event(true), (true, true));
    b.maximized = true;
    assert_eq!(b.split_event(true), (true, false));
    b.focus_x = false;
    assert_eq!(b.split_event(false), (false, true));
}

#[test]
fn status_bar_cells_make_a_line() {
    let names = vec![chars("sh")];
    let cells = status_bar_cells(&names, 0, 8, &chars("9"));
    let line = toyterm::terminal::line::Line::from_cells(cells);
    assert_eq!(line.columns(), 8);
    assert!(!line.linewrap());
    assert_eq!(line.get(0).unwrap().ch, '0');
    assert_eq!(line.get(7).unwrap().ch, '9');
}

#[test]
fn halves_leave_a_gap_around_the_dividing_line() {
    let mut b = BinaryLayout {
        partition: Partition::Horizontal,
        focus_x: true,
        maximized: false,
        x: Box::new(Pane::Single(1)),
        y: Box::new(Pane::Single(2)),
    };
    let vp = Viewport { x: 10, y: 20, w: 300, h: 200 };
    let (up, down) = b.split_viewport(vp, 100);
    assert_eq!(up, Viewport { x: 10, y: 20, w: 300, h: 98 });
    assert_eq!(down, Viewport { x: 10, y: 122, w: 300, h: 98 });
    b.partition = Partition::Vertical;
    let (left, right) = b.split_viewport(vp, 150);
    assert_eq!(left, Viewport { x: 10, y: 20, w: 148, h: 200 });
    assert_eq!(right, Viewport { x: 162, y: 20, w: 148, h: 200 });
    b.maximized = true;
    let empty = Viewport { x: 0, y: 0, w: 0, h: 0 };
    assert_eq!(b.split_viewport(vp, 150), (vp, empty));
    b.focus_x = false;
    assert_eq!(b.split_viewport(vp, 150), (empty, vp));
}

#[test]
fn dividing_line_is_grabbed_near_it() {
    let b = BinaryLayout {
        partition: Partition::Vertical,
        focus_x: true,
        maximized: false,
        x: Box::new(Pane::Single(1)),
        y: Box::new(Pane::Single(2)),
    };
    let vp = Viewport { x: 10, y: 20, w: 300, h: 200 };
    assert!(b.cursor_on_partition(vp, 150, 158, 100));
    assert!(b.cursor_on_partition(vp, 150, 161, 100));
    assert!(!b.cursor_on_partition(vp, 150, 162, 100));
    assert!(!b.cursor_on_partition(vp, 150, 157, 100));
    assert!(b.cursor_on_partition(vp, 150, 160, 16));
    assert!(!b.cursor_on_partition(vp, 150, 160, 15));
    assert!(b.cursor_on_partition(vp, 150, 160, 223));
    assert!(!b.cursor_on_partition(vp, 150, 160, 224));
}

#[test]
fn maximized_pane_draws_only_its_focused_half() {
    let mut tabs = TabbedLayout::new(1);
    tabs.process_command(Command::SplitVertical, 2);
    tabs.process_command(Command::SplitHorizontal, 3);
    assert_eq!(tabs.draw_order(), vec![1, 2, 3]);
    tabs.process_command(Command::SetMaximize, 0);
    assert_eq!(tabs.draw_order(), vec![3]);
    tabs.process_command(Command::AddNewTab, 4);
    assert_eq!(tabs.draw_order(), vec![4]);
}
