use dotmanager::report::{print_path_error, Error, Missing};

#[test]
fn an_error_line_has_a_red_label() {
    assert_eq!(
        print_path_error("error", "did not match any files or folders", &"/x".to_string()),
        "\u{1b}[31m\u{1b}[1merror\u{1b}[0m\u{1b}[1m:\u{1b}[0m '/x': did not match any files or folders"
    );
}

#[test]
fn any_other_line_has_a_yellow_label() {
    assert_eq!(
        print_path_error("warn", "is already in the tracking list", &"/x y".to_string()),
        "\u{1b}[33m\u{1b}[1mwarn\u{1b}[0m\u{1b}[1m:\u{1b}[0m '/x y': is already in the tracking list"
    );
    assert_eq!(
        print_path_error("Error", "m", &"".to_string()),
        "\u{1b}[33m\u{1b}[1mError\u{1b}[0m\u{1b}[1m:\u{1b}[0m '': m"
    );
}

#[test]
fn every_error_has_its_label_and_message() {
    let missing = Error::NotFound(Missing::OnDisk);
    assert_eq!(missing.label(), "error");
    assert_eq!(missing.message(), "did not match any files or folders");
    let untracked = Error::NotFound(Missing::InTrackingList);
    assert_eq!(untracked.label(), "error");
    assert_eq!(untracked.message(), "did not match any files or folders in the tracking list");
    let unchanged = Error::NotFound(Missing::AmongChanges);
    assert_eq!(unchanged.label(), "warn");
    assert_eq!(unchanged.message(), "did not find any changes");
    assert_eq!(Error::AlreadyTracked.label(), "warn");
    assert_eq!(Error::AlreadyTracked.message(), "is already in the tracking list");
    let conflict = Error::Conflict { ancestor: "/h/u/.config".to_string() };
    assert_eq!(conflict.label(), "warn");
    assert_eq!(conflict.message(), "entry exists at lower depth: '/h/u/.config'");
}

#[test]
fn an_error_is_reported_of_its_path() {
    let conflict = Error::Conflict { ancestor: "/a".to_string() };
    assert_eq!(
        conflict.report(&"/a/b".to_string()),
        "\u{1b}[33m\u{1b}[1mwarn\u{1b}[0m\u{1b}[1m:\u{1b}[0m '/a/b': entry exists at lower depth: '/a'"
    );
    assert_eq!(
        Error::NotFound(Missing::OnDisk).report(&"/x".to_string()),
        print_path_error("error", "did not match any files or folders", &"/x".to_string())
    );
}

#[test]
fn every_error_but_a_path_without_changes_is_a_failure() {
    assert_eq!(Error::NotFound(Missing::OnDisk).exit_code(), 2);
    assert_eq!(Error::NotFound(Missing::InTrackingList).exit_code(), 2);
    assert_eq!(Error::NotFound(Missing::AmongChanges).exit_code(), 0);
    assert_eq!(Error::AlreadyTracked.exit_code(), 2);
    assert_eq!(Error::Conflict { ancestor: String::new() }.exit_code(), 2);
}
