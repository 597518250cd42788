use dotmanager::command::{
    commit_and_push, git_command_args, init, select_next_step, split_cmd, user_paths, NextStep,
};

fn words(texts: &[&str]) -> Vec<String> {
    texts.iter().map(|t| t.to_string()).collect()
}

#[test]
fn a_command_is_split_at_its_spaces() {
    assert_eq!(split_cmd("status --porcelain".to_string()), words(&["status", "--porcelain"]));
    assert_eq!(split_cmd("push".to_string()), words(&["push"]));
    assert_eq!(split_cmd("".to_string()), words(&[""]));
    assert_eq!(split_cmd(" a  b ".to_string()), words(&["", "a", "", "b", ""]));
}

#[test]
fn a_space_between_quotes_splits_nothing_and_the_quotes_stay() {
    assert_eq!(
        split_cmd("commit -m \"fix the vimrc\"".to_string()),
        words(&["commit", "-m", "\"fix the vimrc\""])
    );
    assert_eq!(split_cmd("a \"b c".to_string()), words(&["a", "\"b c"]));
    assert_eq!(split_cmd("\"a b\" c \"d\"e f".to_string()), words(&["\"a b\"", "c", "\"d\"e", "f"]));
}

#[test]
fn the_places_lie_in_the_data_directory() {
    let paths = user_paths("/home/u", "/home/u/.local/share/dotmanager");
    assert_eq!(paths.home, "/home/u");
    assert_eq!(paths.data, "/home/u/.local/share/dotmanager");
    assert_eq!(paths.git, "/home/u/.local/share/dotmanager/git");
    assert_eq!(paths.list, "/home/u/.local/share/dotmanager/list");
}

#[test]
fn git_is_run_on_the_repository_and_the_work_tree() {
    let paths = user_paths("/home/u", "/d");
    assert_eq!(
        git_command_args(&paths, "diff --cached --name-only"),
        words(&["--git-dir=/d/git", "--work-tree=/home/u", "diff", "--cached", "--name-only"])
    );
    assert_eq!(
        git_command_args(&paths, "commit -m \"two words\""),
        words(&["--git-dir=/d/git", "--work-tree=/home/u", "commit", "-m", "\"two words\""])
    );
}

#[test]
fn a_commit_is_followed_by_a_push() {
    assert_eq!(
        commit_and_push("fix the vimrc"),
        words(&["commit -m \"fix the vimrc\"", "push"])
    );
    assert_eq!(commit_and_push(""), words(&["commit -m \"\"", "push"]));
}

#[test]
fn the_chosen_line_names_the_next_step() {
    assert_eq!(select_next_step(0), NextStep::CommitAndPush);
    assert_eq!(select_next_step(1), NextStep::Diff);
    assert_eq!(select_next_step(2), NextStep::Exit);
    assert_eq!(select_next_step(99), NextStep::Exit);
}

#[test]
fn the_repository_is_set_up_in_seven_steps() {
    let paths = user_paths("/home/u", "/d");
    let plan = init(&"git@host:u/dots.git".to_string(), &paths);
    assert_eq!(plan.git_dir, "/d/git");
    assert_eq!(plan.github_dir, "/home/u/.github");
    assert_eq!(plan.readme, "/home/u/.github/README.md");
    assert_eq!(
        plan.commands,
        words(&[
            "git init --bare /d/git",
            "config --local status.showUntrackedFiles no",
            "branch -M main",
            "remote add origin git@host:u/dots.git",
            "add /home/u/.github/README.md",
            "commit -m \"Initial commit\"",
            "push -u origin main",
        ])
    );
}
