use dotmanager::args::{
    handle_input, names_option, read_input, sanitise_args, validate_args, Invocation,
};

fn words(texts: &[&str]) -> Vec<String> {
    texts.iter().map(|t| t.to_string()).collect()
}

fn valid_inputs() -> Vec<&'static str> {
    vec![
        "hslud;i:a:r:",
        "help, status, status-summary, list, update, diff;, init:, add:, remove:",
    ]
}

fn pair(name: &str, argument: &str) -> (String, String) {
    (name.to_string(), argument.to_string())
}

#[test]
fn a_short_option_loses_one_dash() {
    assert_eq!(sanitise_args(&words(&["dm", "-s"])), pair("s", ""));
    assert_eq!(sanitise_args(&words(&["dm", "-a", " /home/u/.vimrc "])), pair("a", "/home/u/.vimrc"));
    assert_eq!(sanitise_args(&words(&["dm", "--x"])), pair("-x", ""));
}

#[test]
fn a_long_option_loses_two_dashes() {
    assert_eq!(sanitise_args(&words(&["dm", "--status"])), pair("status", ""));
    assert_eq!(sanitise_args(&words(&["dm", " --add ", "/p"])), pair("add", "/p"));
    assert_eq!(sanitise_args(&words(&["dm", "-add"])), pair("dd", ""));
}

#[test]
fn the_argument_is_read_from_a_command_line_of_three_words_only() {
    assert_eq!(sanitise_args(&words(&["dm", "-d", "x", "y"])), pair("d", ""));
    assert_eq!(sanitise_args(&words(&["dm", "-d"])), pair("d", ""));
}

#[test]
fn the_dashes_are_counted_in_bytes() {
    assert_eq!(sanitise_args(&words(&["dm", "-é"])), pair("é", ""));
    assert_eq!(sanitise_args(&words(&["dm", "éab"])), pair("ab", ""));
    assert_eq!(sanitise_args(&words(&["dm", "--é"])), pair("é", ""));
}

#[test]
fn a_word_without_room_for_dashes_names_no_option() {
    assert!(names_option(&words(&["dm", "-s"])));
    assert!(names_option(&words(&["dm", "-"])));
    assert!(!names_option(&words(&["dm"])));
    assert!(!names_option(&words(&[])));
    assert!(!names_option(&words(&["dm", ""])));
    assert!(!names_option(&words(&["dm", "  "])));
    assert!(!names_option(&words(&["dm", "é"])));
    assert!(!names_option(&words(&["dm", "aéb"])));
    assert!(!names_option(&words(&["dm", "-éa"])));
}

#[test]
fn the_options_that_exist_are_valid() {
    let valid = valid_inputs();
    for name in ["h", "s", "l", "u", "d", "help", "status", "status-summary", "list", "update", "diff"] {
        assert!(validate_args(&pair(name, ""), &valid));
        assert!(validate_args(&pair(name, "x"), &valid));
    }
}

#[test]
fn an_option_that_takes_an_argument_needs_it() {
    let valid = valid_inputs();
    for name in ["i", "a", "r", "init", "add", "remove"] {
        assert!(!validate_args(&pair(name, ""), &valid));
        assert!(validate_args(&pair(name, "x"), &valid));
    }
}

#[test]
fn an_option_that_does_not_exist_is_not_valid() {
    let valid = valid_inputs();
    for name in ["x", "hs", "stat", "Help", ":", ";", "i:", "diff;"] {
        assert!(!validate_args(&pair(name, "x"), &valid));
    }
}

#[test]
fn the_empty_name_is_that_of_the_lone_semicolon() {
    assert!(validate_args(&pair("", ""), &valid_inputs()));
    assert!(!validate_args(&pair("", ""), &vec!["hs", "help"]));
}

#[test]
fn the_first_option_of_a_name_decides() {
    assert!(validate_args(&pair("a", ""), &vec!["aa:", ""]));
    assert!(!validate_args(&pair("a", ""), &vec!["a:a", ""]));
    assert!(validate_args(&pair("add", ""), &vec!["", "add;, add:"]));
    assert!(!validate_args(&pair("add", ""), &vec!["", " add: ,add"]));
}

#[test]
fn the_command_line_names_what_to_do() {
    let valid = valid_inputs();
    assert_eq!(handle_input(&words(&["dm", "-u"]), &valid), Invocation::Update);
    assert_eq!(handle_input(&words(&["dm", "--update"]), &valid), Invocation::Update);
    assert_eq!(handle_input(&words(&["dm", "-s"]), &valid), Invocation::Status);
    assert_eq!(handle_input(&words(&["dm", "--status"]), &valid), Invocation::Status);
    assert_eq!(handle_input(&words(&["dm", "--status-summary"]), &valid), Invocation::StatusSummary);
    assert_eq!(handle_input(&words(&["dm", "-l"]), &valid), Invocation::List);
    assert_eq!(handle_input(&words(&["dm", "--list"]), &valid), Invocation::List);
    assert_eq!(handle_input(&words(&["dm", "-d"]), &valid), Invocation::Diff(String::new()));
    assert_eq!(handle_input(&words(&["dm", "--diff", ".vimrc"]), &valid), Invocation::Diff(".vimrc".to_string()));
    assert_eq!(handle_input(&words(&["dm", "-i", "git@h:r.git"]), &valid), Invocation::Init("git@h:r.git".to_string()));
    assert_eq!(handle_input(&words(&["dm", "--add", "/p/"]), &valid), Invocation::Add("/p/".to_string()));
    assert_eq!(handle_input(&words(&["dm", "-r", "/p"]), &valid), Invocation::Remove("/p".to_string()));
    assert_eq!(handle_input(&words(&["dm", "-h"]), &valid), Invocation::Help);
    assert_eq!(handle_input(&words(&["dm", "--help"]), &valid), Invocation::Help);
}

#[test]
fn a_command_line_that_is_not_understood_is_a_usage_error() {
    let valid = valid_inputs();
    assert_eq!(handle_input(&words(&["dm"]), &valid), Invocation::Usage);
    assert_eq!(handle_input(&words(&[]), &valid), Invocation::Usage);
    assert_eq!(handle_input(&words(&["dm", "-a", "x", "y"]), &valid), Invocation::Usage);
    assert_eq!(handle_input(&words(&["dm", "-a"]), &valid), Invocation::Usage);
    assert_eq!(handle_input(&words(&["dm", "-x"]), &valid), Invocation::Usage);
    assert_eq!(handle_input(&words(&["dm", ""]), &valid), Invocation::Usage);
    assert_eq!(handle_input(&words(&["dm", "-"]), &valid), Invocation::Usage);
    assert_eq!(handle_input(&words(&["dm", "-status"]), &valid), Invocation::Usage);
}

#[test]
fn the_input_is_trimmed_and_put_in_lower_case() {
    assert_eq!(read_input("  Fix The VIMRC \n"), "fix the vimrc");
    assert_eq!(read_input("ÄÖ É"), "äö é");
    assert_eq!(read_input("\n"), "");
    assert_eq!(read_input("plain"), "plain");
}
