use dotmanager::status::{
    count_kind, get_status_counts, get_status_info, get_status_summary, get_status_summary_short,
    get_status_table, parse_status, status_summary_short, ChangeKind, StatusEntry, StatusInfo,
};

fn lines(texts: &[&str]) -> Vec<String> {
    texts.iter().map(|t| t.to_string()).collect()
}

fn entry(kind: ChangeKind, path: &str) -> StatusEntry {
    StatusEntry { kind, path: path.to_string() }
}

fn cell(table: &prettytable::Table, row: usize, column: usize) -> String {
    table.get_row(row).unwrap().get_cell(column).unwrap().get_content()
}

#[test]
fn parsing_three_lines_gives_three_entries_in_order() {
    let entries = parse_status(&lines(&["A  file1", "D  file2", "M  file3"]));
    assert_eq!(
        entries,
        vec![
            entry(ChangeKind::Added, "file1"),
            entry(ChangeKind::Deleted, "file2"),
            entry(ChangeKind::Modified, "file3"),
        ]
    );
}

#[test]
fn parsing_three_lines_gives_the_counts() {
    assert_eq!(get_status_counts(&lines(&["A  file1", "D  file2", "M  file3"])), vec![1, 1, 1]);
}

#[test]
fn parsing_three_lines_gives_the_short_summary() {
    let counts = get_status_counts(&lines(&["A  file1", "D  file2", "M  file3"]));
    assert_eq!(get_status_summary_short(&counts), "+1 -1 ~1 ");
}

#[test]
fn parsing_three_lines_gives_a_table_of_three_rows() {
    let mut info = StatusInfo::default();
    let table = get_status_table(&lines(&["A  file1", "D  file2", "M  file3"]), &mut info).unwrap();
    assert_eq!(table.len(), 3);
    assert_eq!(cell(&table, 0, 0), "new file");
    assert_eq!(cell(&table, 0, 1), "/file1");
    assert_eq!(cell(&table, 1, 0), "deleted");
    assert_eq!(cell(&table, 1, 1), "/file2");
    assert_eq!(cell(&table, 2, 0), "modified");
    assert_eq!(cell(&table, 2, 1), "/file3");
    assert_eq!(
        info.status_entries,
        vec![
            entry(ChangeKind::Added, "file1"),
            entry(ChangeKind::Deleted, "file2"),
            entry(ChangeKind::Modified, "file3"),
        ]
    );
}

#[test]
fn the_status_table_has_its_titles() {
    let mut info = StatusInfo::default();
    let table = get_status_table(&lines(&["M  a"]), &mut info).unwrap();
    let shown = table.to_string();
    let first = shown.lines().nth(1).unwrap();
    assert!(first.contains("status"));
    assert!(first.contains("path"));
}

#[test]
fn the_status_table_adds_to_the_entries_that_are_there() {
    let mut info = StatusInfo::default();
    info.status_entries.push(entry(ChangeKind::Deleted, "old"));
    let table = get_status_table(&lines(&["M  a"]), &mut info).unwrap();
    assert_eq!(table.len(), 1);
    assert_eq!(
        info.status_entries,
        vec![entry(ChangeKind::Deleted, "old"), entry(ChangeKind::Modified, "a")]
    );
}

#[test]
fn an_empty_status_text_is_up_to_date() {
    let info = get_status_info("git@host:u/dots.git\n", "", "/home/u").unwrap();
    assert_eq!(info.status, " Git status:\tUp to date");
    assert!(info.status_entries.is_empty());
    assert!(info.entry_type_counts.is_empty());
    assert!(info.status_lines.is_empty());
    assert!(info.table.is_empty());
    assert_eq!(info.summary, "");
    assert_eq!(info.summary_short, "");
    assert!(!info.has_changes());
    assert_eq!(info.work_tree, " Work-tree:\t/home/u/");
    assert_eq!(info.remote_url, " Remote-URL:\tgit@host:u/dots.git");
}

#[test]
fn a_status_text_gives_all_of_the_info() {
    let info = get_status_info("url", "A  file1\nD  file2\nM  file3\n", "/home/u").unwrap();
    assert_eq!(info.status, " Git status:");
    assert_eq!(info.status_lines, lines(&["A  file1", "D  file2", "M  file3"]));
    assert_eq!(info.entry_type_counts, vec![1, 1, 1]);
    assert_eq!(
        info.status_entries,
        vec![
            entry(ChangeKind::Added, "file1"),
            entry(ChangeKind::Deleted, "file2"),
            entry(ChangeKind::Modified, "file3"),
        ]
    );
    assert_eq!(info.table.len(), 3);
    assert_eq!(cell(&info.table, 2, 1), "/file3");
    assert_eq!(info.summary, "> new files: 1\n> deleted: 1\n> modified: 1");
    assert_eq!(info.summary_short, "+1 -1 ~1 ");
    assert!(info.has_changes());
}

#[test]
fn the_white_space_around_a_status_text_is_dropped() {
    let info = get_status_info("url", " M .vimrc\n M .zshrc\n", "/home/u").unwrap();
    assert_eq!(info.status_lines, lines(&["M .vimrc", " M .zshrc"]));
    assert_eq!(info.entry_type_counts, vec![0, 0, 2]);
}

#[test]
fn a_status_text_of_white_space_has_one_empty_line() {
    let info = get_status_info("url", "\n", "/home/u").unwrap();
    assert_eq!(info.status, " Git status:");
    assert_eq!(info.status_lines, lines(&[""]));
    assert_eq!(info.entry_type_counts, vec![0, 0, 0]);
    assert!(info.status_entries.is_empty());
    assert!(info.has_changes());
}

#[test]
fn a_code_is_searched_in_its_two_characters_only() {
    assert_eq!(
        parse_status(&lines(&[" M a", "M  b", "MM c", "?? Makefile", "R  Docs -> A"])),
        vec![
            entry(ChangeKind::Modified, "a"),
            entry(ChangeKind::Modified, "b"),
            entry(ChangeKind::Modified, "c"),
        ]
    );
}

#[test]
fn a_code_of_two_kinds_is_one_entry_and_counts_twice() {
    let status = lines(&["AM both", "AD gone"]);
    assert_eq!(
        parse_status(&status),
        vec![entry(ChangeKind::Added, "both"), entry(ChangeKind::Added, "gone")]
    );
    assert_eq!(get_status_counts(&status), vec![2, 1, 1]);
    let status = lines(&["DM x", "MD y"]);
    assert_eq!(
        parse_status(&status),
        vec![entry(ChangeKind::Deleted, "x"), entry(ChangeKind::Deleted, "y")]
    );
}

#[test]
fn a_line_of_fewer_than_two_characters_has_no_code() {
    let status = lines(&["", "A", "M", "AM"]);
    assert_eq!(parse_status(&status), vec![entry(ChangeKind::Added, "AM")]);
    assert_eq!(get_status_counts(&status), vec![1, 0, 1]);
}

#[test]
fn the_path_is_what_follows_the_last_space() {
    assert_eq!(
        parse_status(&lines(&["A  dir/with space/file", "D  "])),
        vec![entry(ChangeKind::Added, "space/file"), entry(ChangeKind::Deleted, "")]
    );
}

#[test]
fn count_kind_counts_one_kind() {
    let status = lines(&["A  a", "M  b", "A  c", "?? d"]);
    assert_eq!(count_kind(&status, ChangeKind::Added), 2);
    assert_eq!(count_kind(&status, ChangeKind::Deleted), 0);
    assert_eq!(count_kind(&status, ChangeKind::Modified), 1);
}

#[test]
fn the_counts_of_no_lines_are_zero() {
    assert_eq!(get_status_counts(&[]), vec![0, 0, 0]);
}

#[test]
fn the_short_summary_leaves_out_what_is_zero() {
    assert_eq!(get_status_summary_short(&[0, 0, 0]), "");
    assert_eq!(get_status_summary_short(&[3, 0, 12]), "+3 ~12 ");
    assert_eq!(get_status_summary_short(&[0, 7, 0]), "-7 ");
    assert_eq!(get_status_summary_short(&[2147483647, 0, 0]), "+2147483647 ");
}

#[test]
fn the_short_summary_reads_three_counts_at_most() {
    assert_eq!(get_status_summary_short(&[]), "");
    assert_eq!(get_status_summary_short(&[4]), "+4 ");
    assert_eq!(get_status_summary_short(&[1, 2, 3, 4]), "+1 -2 ~3 ");
    assert_eq!(get_status_summary_short(&[-1, 2, -3]), "-2 ");
}

#[test]
fn the_long_summary_has_one_line_for_each_kind_above_zero() {
    assert_eq!(get_status_summary(&[1, 1, 1]), "> new files: 1\n> deleted: 1\n> modified: 1");
    assert_eq!(get_status_summary(&[0, 20, 0]), "> deleted: 20");
    assert_eq!(get_status_summary(&[5, 0, 105]), "> new files: 5\n> modified: 105");
    assert_eq!(get_status_summary(&[0, 0, 0]), "");
    assert_eq!(get_status_summary(&[]), "");
}

#[test]
fn the_short_summary_of_a_status_text() {
    assert_eq!(status_summary_short(""), None);
    assert_eq!(
        status_summary_short("A  file1\nD  file2\nM  file3\n"),
        Some("+1 -1 ~1 ".to_string())
    );
    assert_eq!(status_summary_short("?? x\n"), Some(String::new()));
}

#[test]
fn the_kinds_have_their_texts() {
    assert_eq!(ChangeKind::Added.letter(), 'A');
    assert_eq!(ChangeKind::Deleted.letter(), 'D');
    assert_eq!(ChangeKind::Modified.letter(), 'M');
    assert_eq!(ChangeKind::Added.label(), "new file");
    assert_eq!(ChangeKind::Deleted.label(), "deleted");
    assert_eq!(ChangeKind::Modified.label(), "modified");
    assert_eq!(ChangeKind::Added.style(), "Fb");
    assert_eq!(ChangeKind::Deleted.style(), "Fr");
    assert_eq!(ChangeKind::Modified.style(), "Fg");
    assert_eq!(ChangeKind::Added.summary_label(), "new files");
    assert_eq!(ChangeKind::Added.symbol(), "+");
    assert_eq!(ChangeKind::Deleted.symbol(), "-");
    assert_eq!(ChangeKind::Modified.symbol(), "~");
}

#[test]
fn a_blank_info_is_empty() {
    let info = StatusInfo::default();
    assert_eq!(info.work_tree, "");
    assert_eq!(info.remote_url, "");
    assert_eq!(info.status, "");
    assert!(info.status_lines.is_empty());
    assert!(info.entry_type_counts.is_empty());
    assert!(info.status_entries.is_empty());
    assert!(info.table.is_empty());
    assert_eq!(info.summary, "");
    assert_eq!(info.summary_short, "");
}

#[test]
fn a_path_with_an_escape_sequence_has_no_table() {
    let mut info = StatusInfo::default();
    info.status_entries.push(entry(ChangeKind::Deleted, "old"));
    assert!(get_status_table(&lines(&["A  a", "M  odd\u{1b}[1mname"]), &mut info).is_none());
    assert_eq!(info.status_entries, vec![entry(ChangeKind::Deleted, "old")]);
    assert!(get_status_info("url", "A  a\nD  b\u{1b}[\n", "/home/u").is_none());
}

#[test]
fn a_path_with_a_lone_escape_character_is_shown() {
    let mut info = StatusInfo::default();
    let table = get_status_table(&lines(&["M  odd\u{1b}name", "D  e[\u{1b}"]), &mut info);
    let table = table.unwrap();
    assert_eq!(cell(&table, 0, 1), "/odd\u{1b}name");
    assert_eq!(cell(&table, 1, 1), "/e[\u{1b}");
    assert!(get_status_info("url", "?? dir\u{1b}[1m x\n", "/home/u").is_some());
    assert!(get_status_info("url", "M  dir\u{1b}[1m x\n", "/home/u").is_some());
}

#[test]
fn a_path_with_a_carriage_return_is_shown_as_it_is() {
    let mut info = StatusInfo::default();
    let table = get_status_table(&lines(&["M  a\r", "A  b\rc"]), &mut info).unwrap();
    assert_eq!(cell(&table, 0, 1), "/a\r");
    assert_eq!(cell(&table, 1, 1), "/b\rc");
}
