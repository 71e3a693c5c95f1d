use helix_picker::object::Direction;
use helix_picker::picker::{
    check_generation, command_for, matcher_column_count, Action, CloseMode, Column, Command,
    DynamicPicker, Generation, KeyCode, KeyPress, Picker,
};

fn picker() -> Picker {
    let columns = vec![
        Column::new("name".to_string()),
        Column::new("path".to_string()),
        Column::new("extra".to_string()).without_filtering(),
    ];
    Picker::new(columns, 0, Generation::new())
}

fn key(code: KeyCode) -> KeyPress {
    KeyPress { code, shift: false, ctrl: false, alt: false }
}

fn ctrl(c: char) -> KeyPress {
    KeyPress { code: KeyCode::Char(c), shift: false, ctrl: true, alt: false }
}

#[test]
fn new_picker_state() {
    let p = picker();
    assert_eq!(p.cursor, 0);
    assert_eq!(p.widths, vec![4, 4, 5]);
    assert!(p.show_preview);
    assert!(p.truncate_start);
    assert_eq!(p.header_height(), 1);
    assert_eq!(matcher_column_count(&p.columns), 2);
}

#[test]
fn move_by_wraps_both_ends() {
    let mut p = picker();
    p.move_by(1, Direction::Backward, 5);
    assert_eq!(p.cursor, 4);
    p.move_by(3, Direction::Forward, 5);
    assert_eq!(p.cursor, 2);
    p.move_by(12, Direction::Forward, 5);
    assert_eq!(p.cursor, 4);
    p.move_by(12, Direction::Backward, 5);
    assert_eq!(p.cursor, 2);
    p.move_by(3, Direction::Forward, 0);
    assert_eq!(p.cursor, 2);
}

#[test]
fn forward_then_backward_restores_cursor() {
    for start in 0..7u32 {
        for n in [0u32, 1, 3, 7, 20, u32::MAX] {
            let mut p = picker();
            p.move_by(start, Direction::Forward, 7);
            assert_eq!(p.cursor, start);
            p.move_by(n, Direction::Forward, 7);
            assert!(p.cursor < 7);
            p.move_by(n, Direction::Backward, 7);
            assert_eq!(p.cursor, start);
        }
    }
}

#[test]
fn paging_and_ends() {
    let mut p = picker();
    assert_eq!(p.required_size(80, 14), (80, 14));
    assert_eq!(p.completion_height, 9);
    p.page_down(20);
    assert_eq!(p.cursor, 9);
    p.page_up(20);
    assert_eq!(p.cursor, 0);
    p.page_up(20);
    assert_eq!(p.cursor, 11);
    p.to_end(20);
    assert_eq!(p.cursor, 19);
    p.to_start();
    assert_eq!(p.cursor, 0);
    p.to_end(0);
    assert_eq!(p.cursor, 0);
}

#[test]
fn tick_clamps_cursor_when_changed() {
    let mut p = picker();
    p.to_end(50);
    p.tick(false, 10);
    assert_eq!(p.cursor, 49);
    p.tick(true, 10);
    assert_eq!(p.cursor, 9);
    p.tick(true, 0);
    assert_eq!(p.cursor, 0);
}

#[test]
fn page_offset_of_cursor() {
    let mut p = picker();
    p.move_by(23, Direction::Forward, 100);
    assert_eq!(p.page_offset(10), 20);
    assert_eq!(p.page_offset(0), 23);
    assert_eq!(p.page_offset(1), 23);
}

#[test]
fn preview_visibility() {
    let mut p = picker();
    assert!(!p.preview_visible(100));
    p = p.with_preview();
    assert!(p.preview_visible(73));
    assert!(p.preview_visible(72));
    assert!(!p.preview_visible(71));
    p.toggle_preview();
    assert!(!p.preview_visible(100));
}

#[test]
fn prompt_change_gives_append_hints() {
    let mut p = picker();
    let u = p.handle_prompt_change("ab");
    assert_eq!(u.len(), 2);
    assert_eq!(u[0].pattern, "ab");
    assert!(u[0].append);
    assert_eq!(u[1].pattern, "");
    assert!(u[1].append);
    let u = p.handle_prompt_change("abc %pa:x");
    assert_eq!(u.len(), 2);
    assert_eq!(u[0].pattern, "abc");
    assert!(u[0].append);
    assert_eq!(u[1].pattern, "x");
    assert!(u[1].append);
    assert!(p.handle_prompt_change("abc %path:x").is_empty());
    let u = p.handle_prompt_change("ab %pa:x");
    assert!(!u[0].append);
    assert!(u[1].append);
    assert_eq!(p.primary_query(), "ab");
}

#[test]
fn key_bindings() {
    assert_eq!(command_for(&key(KeyCode::Up)), Command::MoveUp);
    assert_eq!(
        command_for(&KeyPress { code: KeyCode::Tab, shift: true, ctrl: false, alt: false }),
        Command::MoveUp
    );
    assert_eq!(command_for(&key(KeyCode::Tab)), Command::MoveDown);
    assert_eq!(command_for(&ctrl('n')), Command::MoveDown);
    assert_eq!(command_for(&ctrl('d')), Command::PageDown);
    assert_eq!(command_for(&ctrl('u')), Command::PageUp);
    assert_eq!(command_for(&key(KeyCode::Home)), Command::ToStart);
    assert_eq!(command_for(&key(KeyCode::End)), Command::ToEnd);
    assert_eq!(command_for(&ctrl('c')), Command::Close);
    assert_eq!(command_for(&key(KeyCode::Enter)), Command::Select(Action::Replace));
    assert_eq!(
        command_for(&KeyPress { code: KeyCode::Enter, shift: false, ctrl: false, alt: true }),
        Command::Select(Action::Load)
    );
    assert_eq!(command_for(&ctrl('s')), Command::Select(Action::HorizontalSplit));
    assert_eq!(command_for(&ctrl('v')), Command::Select(Action::VerticalSplit));
    assert_eq!(command_for(&ctrl('t')), Command::TogglePreview);
    assert_eq!(command_for(&key(KeyCode::Char('p'))), Command::Prompt);
}

#[test]
fn handle_key_select_and_close() {
    let mut p = picker();
    let injector = p.injector();
    let out = p.handle_key(ctrl('s'), 3, 3, true);
    assert_eq!(out.select, Some(Action::HorizontalSplit));
    assert_eq!(out.close, Some(CloseMode::KeepAsLast));
    assert!(injector.push().is_err());

    let out = p.handle_key(
        KeyPress { code: KeyCode::Enter, shift: false, ctrl: false, alt: true },
        3,
        3,
        false,
    );
    assert_eq!(out.select, None);
    assert_eq!(out.close, None);

    let out = p.handle_key(key(KeyCode::Down), 3, 3, true);
    assert_eq!(p.cursor, 1);
    assert!(!out.to_prompt);
    let out = p.handle_key(key(KeyCode::Char('x')), 3, 3, true);
    assert!(out.to_prompt);
}

#[test]
fn large_picker_is_discarded_on_close() {
    let p = picker();
    let injector = p.injector();
    assert_eq!(p.close(100_001), CloseMode::Discard);
    assert!(injector.push().is_ok());
    assert_eq!(p.close(100_000), CloseMode::KeepAsLast);
    assert!(injector.push().is_err());
}

#[test]
fn shutdown_stops_injectors() {
    let p = picker();
    let a = p.injector();
    let b = a.share();
    assert!(a.push().is_ok());
    p.shutdown();
    assert!(a.push().is_err());
    assert!(b.push().is_err());
    let c = p.injector();
    assert!(c.push().is_ok());
    assert!(check_generation(3, 4).is_err());
    assert!(check_generation(4, 4).is_ok());
    assert_eq!(
        check_generation(0, 1).unwrap_err().message(),
        "picker has been shut down"
    );
}

#[test]
fn dynamic_picker_dispatches_on_idle_change() {
    let mut p = picker();
    let mut d = DynamicPicker::new();
    p.handle_prompt_change("foo");
    assert_eq!(d.after_event(&p, false), None);
    assert_eq!(d.after_event(&p, true), Some("foo".to_string()));
    assert_eq!(d.after_event(&p, true), None);
    p.handle_prompt_change("foo %pa:x");
    assert_eq!(d.after_event(&p, true), None);
    p.handle_prompt_change("fo");
    assert_eq!(d.after_event(&p, true), Some("fo".to_string()));
}

#[test]
fn visible_window_and_widths() {
    let mut p = picker();
    p.move_by(23, Direction::Forward, 100);
    assert_eq!(p.visible_window(10, 100), (20, 30, 3));
    assert_eq!(p.visible_window(10, 25), (20, 25, 3));
    p.note_width(0, 9);
    p.note_width(0, 2);
    p.note_width(2, 65539);
    assert_eq!(p.widths, vec![9, 4, 5]);
}
