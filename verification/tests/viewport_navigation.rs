use rdiary::calendar::CalendarDate;
use rdiary::entry::{resolve, DiaryEntry, Presence};
use rdiary::viewport::{adjust, command_for, visible_rows, Command, Key, ViewportState};

fn state(selected_index: usize, start_index: usize) -> ViewportState {
    ViewportState { selected_index, start_index }
}

fn january(days: u32) -> Vec<DiaryEntry> {
    (0..days)
        .map(|i| {
            let date = CalendarDate::new(2023, 1, 31 - i).unwrap();
            resolve("/d", date, Presence { org: false, md: i % 2 == 1 })
        })
        .collect()
}

#[test]
fn window_is_unmoved_while_the_selection_is_visible() {
    assert_eq!(adjust(0, 0, 10, 100), 0);
    assert_eq!(adjust(9, 0, 10, 100), 0);
    assert_eq!(adjust(25, 20, 10, 100), 20);
    assert_eq!(adjust(20, 20, 10, 100), 20);
    assert_eq!(adjust(29, 20, 10, 100), 20);
}

#[test]
fn window_follows_down_by_the_overshoot() {
    assert_eq!(adjust(10, 0, 10, 100), 1);
    assert_eq!(adjust(30, 20, 10, 100), 21);
    assert_eq!(adjust(45, 20, 10, 100), 36);
    assert_eq!(adjust(99, 0, 10, 100), 90);
}

#[test]
fn window_follows_up_by_one_row() {
    assert_eq!(adjust(19, 20, 10, 100), 19);
    assert_eq!(adjust(0, 1, 10, 100), 0);
    assert_eq!(adjust(5, 20, 10, 100), 19);
}

#[test]
fn window_at_the_top_of_a_short_list_stays_there() {
    for selected in 0..5 {
        assert_eq!(adjust(selected, 0, 10, 5), 0);
        assert_eq!(adjust(selected, 0, 5, 5), 0);
    }
}

#[test]
fn window_of_one_row_sits_on_the_selection() {
    assert_eq!(adjust(7, 7, 1, 100), 7);
    assert_eq!(adjust(8, 7, 1, 100), 8);
    assert_eq!(adjust(50, 7, 1, 100), 50);
    assert_eq!(adjust(6, 7, 1, 100), 6);
}

#[test]
fn window_without_rows() {
    assert_eq!(adjust(3, 3, 0, 100), 4);
    assert_eq!(adjust(usize::MAX - 1, 0, 0, usize::MAX), usize::MAX);
    assert_eq!(adjust(2, 3, 0, 100), 2);
}

#[test]
fn adjust_near_the_largest_index() {
    assert_eq!(adjust(usize::MAX - 1, usize::MAX - 1, usize::MAX, usize::MAX), usize::MAX - 1);
    assert_eq!(adjust(usize::MAX - 1, 0, 10, usize::MAX), usize::MAX - 10);
    assert_eq!(adjust(usize::MAX - 1, 0, usize::MAX, usize::MAX), 0);
}

#[test]
fn moving_down_from_the_last_visible_row_scrolls_by_one() {
    let mut s = state(9, 0);
    s.step(Command::MoveDown, 10, 100);
    assert_eq!(s, state(10, 1));
    let mut s = state(57, 40);
    s.step(Command::MoveDown, 18, 100);
    assert_eq!(s, state(58, 41));
}

#[test]
fn jumping_to_the_end_scrolls_in_one_step() {
    let mut s = state(0, 0);
    s.step(Command::JumpToEnd, 10, 100);
    assert_eq!(s, state(99, 90));
    let mut s = state(42, 40);
    s.step(Command::JumpToEnd, 10, 100);
    assert_eq!(s, state(99, 90));
    let mut s = state(99, 90);
    s.step(Command::JumpToEnd, 10, 100);
    assert_eq!(s, state(99, 90));
}

#[test]
fn jumping_to_the_end_of_a_list_that_fits() {
    let mut s = state(0, 0);
    s.step(Command::JumpToEnd, 10, 5);
    assert_eq!(s, state(4, 0));
}

#[test]
fn jumping_to_the_start_resets_the_window() {
    let mut s = state(99, 90);
    s.step(Command::JumpToStart, 10, 100);
    assert_eq!(s, state(0, 0));
}

#[test]
fn moving_up_scrolls_one_row_at_the_top_of_the_window() {
    let mut s = state(90, 90);
    s.step(Command::MoveUp, 10, 100);
    assert_eq!(s, state(89, 89));
    s.step(Command::MoveUp, 10, 100);
    assert_eq!(s, state(88, 88));
    let mut s = state(95, 90);
    s.step(Command::MoveUp, 10, 100);
    assert_eq!(s, state(94, 90));
}

#[test]
fn moves_stop_at_the_ends_of_the_list() {
    let mut s = state(0, 0);
    s.step(Command::MoveUp, 10, 100);
    assert_eq!(s, state(0, 0));
    let mut s = state(99, 90);
    s.step(Command::MoveDown, 10, 100);
    assert_eq!(s, state(99, 90));
}

#[test]
fn single_commands_change_the_selection_only() {
    let mut s = state(5, 3);
    s.move_up();
    assert_eq!(s, state(4, 3));
    s.move_down(100);
    assert_eq!(s, state(5, 3));
    s.move_down(6);
    assert_eq!(s, state(5, 3));
    s.move_down(0);
    assert_eq!(s, state(5, 3));
    s.jump_to_end(100);
    assert_eq!(s, state(99, 3));
    s.jump_to_start();
    assert_eq!(s, state(0, 0));
    s.move_up();
    assert_eq!(s, state(0, 0));
}

#[test]
fn other_commands_leave_the_state_alone() {
    for command in [Command::Quit, Command::Edit, Command::Nothing] {
        let mut s = state(42, 40);
        s.apply(command, 100);
        assert_eq!(s, state(42, 40));
        s.step(command, 10, 100);
        assert_eq!(s, state(42, 40));
    }
}

#[test]
fn new_state_is_at_the_top() {
    assert_eq!(ViewportState::new(), state(0, 0));
}

#[test]
fn shrinking_the_window_keeps_the_selection_visible() {
    let mut s = state(29, 20);
    s.settle(5, 100);
    assert_eq!(s, state(29, 25));
    let mut s = state(29, 20);
    s.settle(40, 100);
    assert_eq!(s, state(29, 20));
}

#[test]
fn a_long_walk_keeps_the_cursor_inside_the_window() {
    let height = 7;
    let total = 120;
    let mut s = ViewportState::new();
    let script = [
        (Command::MoveDown, 30),
        (Command::MoveUp, 12),
        (Command::JumpToEnd, 1),
        (Command::MoveUp, 40),
        (Command::MoveDown, 200),
        (Command::JumpToStart, 1),
        (Command::MoveUp, 3),
    ];
    for (command, times) in script {
        for _ in 0..times {
            s.step(command, height, total);
            assert!(s.start_index <= s.selected_index);
            assert!(s.selected_index < s.start_index + height);
            assert!(s.selected_index < total);
            assert!(s.start_index + height <= total);
        }
    }
    assert_eq!(s, state(0, 0));
}

#[test]
fn key_bindings() {
    assert_eq!(command_for(Key::Char('q')), Command::Quit);
    assert_eq!(command_for(Key::Char('g')), Command::JumpToEnd);
    assert_eq!(command_for(Key::Char('G')), Command::JumpToStart);
    assert_eq!(command_for(Key::Char('x')), Command::Nothing);
    assert_eq!(command_for(Key::Char('Q')), Command::Nothing);
    assert_eq!(command_for(Key::Up), Command::MoveUp);
    assert_eq!(command_for(Key::Down), Command::MoveDown);
    assert_eq!(command_for(Key::Enter), Command::Edit);
    assert_eq!(command_for(Key::Other), Command::Nothing);
}

#[test]
fn visible_rows_are_the_window_over_the_list() {
    let entries = january(31);
    let rows = visible_rows(&entries, &state(4, 3), 5);
    assert_eq!(rows.len(), 5);
    let labels: Vec<&str> = rows.iter().map(|r| r.label.as_str()).collect();
    assert_eq!(
        labels,
        vec!["2023-01-28", "2023-01-27 <=", "2023-01-26", "2023-01-25", "2023-01-24"]
    );
    let selected: Vec<bool> = rows.iter().map(|r| r.selected).collect();
    assert_eq!(selected, vec![false, true, false, false, false]);
    let exists: Vec<bool> = rows.iter().map(|r| r.exists).collect();
    assert_eq!(exists, vec![true, false, true, false, true]);
}

#[test]
fn visible_rows_stop_at_the_end_of_the_list() {
    let entries = january(31);
    let rows = visible_rows(&entries, &state(30, 28), 10);
    assert_eq!(rows.len(), 3);
    assert_eq!(rows[2].label, "2023-01-01 <=");
    assert!(rows[2].selected);
    assert!(visible_rows(&entries, &state(30, 31), 10).is_empty());
    assert!(visible_rows(&entries, &state(30, 40), 10).is_empty());
    assert!(visible_rows(&entries, &state(0, 0), 0).is_empty());
    assert!(visible_rows(&january(0), &state(0, 0), 10).is_empty());
}

#[test]
fn visible_rows_without_the_selection_in_the_window() {
    let entries = january(31);
    let rows = visible_rows(&entries, &state(20, 0), 5);
    assert_eq!(rows.len(), 5);
    assert!(rows.iter().all(|r| !r.selected));
    assert_eq!(rows[0].label, "2023-01-31");
}

#[test]
fn commands_on_an_empty_list() {
    let mut s = state(0, 0);
    s.apply(Command::MoveDown, 0);
    assert_eq!(s, state(0, 0));
    s.apply(Command::MoveUp, 0);
    assert_eq!(s, state(0, 0));
    s.apply(Command::JumpToStart, 0);
    assert_eq!(s, state(0, 0));
}
