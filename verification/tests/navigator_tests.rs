use dotmanager::navigator::{
    diff_file_select, key_command, next_status_entry, select_status_entry, Action, Command,
    Direction, Key, Navigator, RowPaint,
};
use dotmanager::status::{get_status_info, ChangeKind, StatusEntry, StatusInfo};

fn three() -> StatusInfo {
    get_status_info("url", "A  .vimrc\nD  .config/nvim/init.lua\nM  .zshrc\n", "/home/u").unwrap()
}

fn started() -> Navigator {
    diff_file_select(".vimrc\n.config/nvim/init.lua\n.zshrc\n", &three()).unwrap()
}

fn entry(kind: ChangeKind, path: &str) -> StatusEntry {
    StatusEntry { kind, path: path.to_string() }
}

fn paint(up: u16, column: u16, text: &str, gap: u16, selected: bool) -> RowPaint {
    RowPaint { up, column, text: text.to_string(), gap, selected }
}

#[test]
fn the_navigation_begins_at_the_first_row() {
    let navigator = started();
    assert_eq!(navigator.selected(), 0);
    assert_eq!(navigator.len(), 3);
    assert!(navigator.raw_mode());
    assert!(navigator.cursor_hidden());
    assert_eq!(navigator.paint(true), paint(4, 13, "/.vimrc", 18, true));
}

#[test]
fn there_is_nothing_to_navigate_without_names_or_entries() {
    assert!(diff_file_select("", &three()).is_none());
    assert!(diff_file_select(".vimrc\n", &StatusInfo::default()).is_none());
    assert!(diff_file_select(".vimrc\n", &get_status_info("url", "", "/home/u").unwrap()).is_none());
}

#[test]
fn a_next_key_moves_from_the_first_row_to_the_second() {
    for key in [Key::Tab, Key::ArrowDown] {
        let mut navigator = started();
        let action = navigator.press(key);
        assert_eq!(navigator.selected(), 1);
        assert_eq!(
            action,
            Action::Repaint {
                from: paint(4, 13, "/.vimrc", 18, false),
                to: paint(3, 13, "/.config/nvim/init.lua", 3, true),
            }
        );
        assert!(navigator.raw_mode());
        assert!(navigator.cursor_hidden());
    }
}

#[test]
fn a_previous_key_wraps_from_the_first_row_to_the_last() {
    for key in [Key::BackTab, Key::ArrowUp] {
        let mut navigator = started();
        let action = navigator.press(key);
        assert_eq!(navigator.selected(), 2);
        assert_eq!(
            action,
            Action::Repaint {
                from: paint(4, 13, "/.vimrc", 18, false),
                to: paint(2, 13, "/.zshrc", 18, true),
            }
        );
    }
}

#[test]
fn a_next_key_wraps_from_the_last_row_to_the_first() {
    let mut navigator = started();
    navigator.press(Key::Tab);
    navigator.press(Key::Tab);
    assert_eq!(navigator.selected(), 2);
    navigator.press(Key::ArrowDown);
    assert_eq!(navigator.selected(), 0);
    navigator.press(Key::ArrowUp);
    assert_eq!(navigator.selected(), 2);
    navigator.press(Key::BackTab);
    assert_eq!(navigator.selected(), 1);
}

#[test]
fn enter_asks_for_the_diff_of_the_selected_path() {
    let mut navigator = started();
    navigator.press(Key::Tab);
    let action = navigator.press(Key::Enter);
    assert_eq!(action, Action::ShowDiff { path: ".config/nvim/init.lua".to_string() });
    assert_eq!(navigator.selected(), 1);
    assert!(navigator.raw_mode());
    assert!(navigator.cursor_hidden());
}

#[test]
fn any_other_key_gives_the_terminal_back() {
    for moves in 0..3 {
        let mut navigator = started();
        for _ in 0..moves {
            navigator.press(Key::Tab);
        }
        let row = navigator.paint(false);
        let action = navigator.press(Key::Other);
        assert_eq!(action, Action::Leave { row });
        assert!(!navigator.raw_mode());
        assert!(!navigator.cursor_hidden());
        assert_eq!(navigator.selected(), moves);
    }
}

#[test]
fn a_failure_gives_the_terminal_back() {
    let mut navigator = started();
    navigator.press(Key::ArrowUp);
    let action = navigator.fail();
    assert_eq!(action, Action::Leave { row: paint(2, 13, "/.zshrc", 18, false) });
    assert!(!navigator.raw_mode());
    assert!(!navigator.cursor_hidden());
}

#[test]
fn the_keys_have_their_commands() {
    assert_eq!(key_command(Key::Tab), Command::Move(Direction::Next));
    assert_eq!(key_command(Key::ArrowDown), Command::Move(Direction::Next));
    assert_eq!(key_command(Key::BackTab), Command::Move(Direction::Previous));
    assert_eq!(key_command(Key::ArrowUp), Command::Move(Direction::Previous));
    assert_eq!(key_command(Key::Enter), Command::Confirm);
    assert_eq!(key_command(Key::Other), Command::Cancel);
}

#[test]
fn the_selection_moves_in_a_round() {
    assert_eq!(next_status_entry(3, 0, Direction::Next), 1);
    assert_eq!(next_status_entry(3, 1, Direction::Next), 2);
    assert_eq!(next_status_entry(3, 2, Direction::Next), 0);
    assert_eq!(next_status_entry(3, 0, Direction::Previous), 2);
    assert_eq!(next_status_entry(3, 2, Direction::Previous), 1);
    assert_eq!(next_status_entry(1, 0, Direction::Next), 0);
    assert_eq!(next_status_entry(1, 0, Direction::Previous), 0);
}

#[test]
fn a_row_is_painted_where_the_table_has_it() {
    let entries = vec![entry(ChangeKind::Deleted, "a"), entry(ChangeKind::Deleted, "bcd")];
    assert_eq!(select_status_entry(&entries, 0, true), paint(3, 12, "/a", 5, true));
    assert_eq!(select_status_entry(&entries, 1, false), paint(2, 12, "/bcd", 3, false));
}

#[test]
fn the_gap_is_counted_in_bytes() {
    let entries = vec![entry(ChangeKind::Modified, "é"), entry(ChangeKind::Added, "x")];
    assert_eq!(select_status_entry(&entries, 0, false), paint(3, 13, "/é", 3, false));
    assert_eq!(select_status_entry(&entries, 1, false), paint(2, 13, "/x", 4, false));
}
