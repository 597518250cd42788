//! The git subcommands that the program runs, and the words into which a
//! command is split.

use vstd::prelude::*;
use crate::text::{append, chars_of, rows, string_of, strings_of, texts};

verus! {

/// The places of the program: the work tree and the data directory, and
/// in the latter the repository and the record of the tracking list.
#[derive(Clone, Debug, PartialEq, Eq)]
pub struct UserPaths {
    pub home: String,
    pub data: String,
    pub git: String,
    pub list: String,
}

/// What to do after the changes were staged.
#[derive(Clone, Copy, Debug, PartialEq, Eq, Structural)]
pub enum NextStep {
    CommitAndPush,
    Diff,
    Exit,
}

/// What setting up the repository takes: the directories and the file to
/// create where they do not exist, and the git subcommands to run, in their
/// order.
#[derive(Clone, Debug, PartialEq, Eq)]
pub struct InitPlan {
    pub git_dir: String,
    pub github_dir: String,
    pub readme: String,
    pub commands: Vec<String>,
}

/// Whether the end of `cmd` lies between quotes: `cmd` holds an odd number
/// of them.
pub open spec fn in_quotes(cmd: Seq<char>) -> bool
    decreases cmd.len(),
{
    if cmd.len() == 0 {
        false
    } else {
        in_quotes(cmd.drop_last()) != (cmd.last() == '"')
    }
}

/// The words of `cmd`: a space outside quotes ends a word and begins the
/// next, every other character is part of the word it stands in, the quotes
/// too.
pub open spec fn words_of(cmd: Seq<char>) -> Seq<Seq<char>>
    decreases cmd.len(),
{
    if cmd.len() == 0 {
        seq![Seq::empty()]
    } else {
        let before = words_of(cmd.drop_last());
        if cmd.last() == ' ' && !in_quotes(cmd.drop_last()) {
            before.push(Seq::empty())
        } else {
            before.drop_last().push(before.last().push(cmd.last()))
        }
    }
}

/// The line of arguments that runs `cmd` on the repository at `git_dir`
/// with the work tree `work_tree`.
pub open spec fn git_line(git_dir: Seq<char>, work_tree: Seq<char>, cmd: Seq<char>) -> Seq<char> {
    "--git-dir="@ + git_dir + " --work-tree="@ + work_tree + " "@ + cmd
}

/// The git subcommands that record the staged changes under `message` and
/// send them to the remote.
pub open spec fn commit_commands(message: Seq<char>) -> Seq<Seq<char>> {
    seq!["commit -m \""@ + message + "\""@, "push"@]
}

/// The git subcommands that set up the repository at `git_dir` with the
/// remote `repo_url` and a first commit of the file `readme`.
pub open spec fn init_commands(git_dir: Seq<char>, repo_url: Seq<char>, readme: Seq<char>)
    -> Seq<Seq<char>> {
    seq![
        "git init --bare "@ + git_dir,
        "config --local status.showUntrackedFiles no"@,
        "branch -M main"@,
        "remote add origin "@ + repo_url,
        "add "@ + readme,
        "commit -m \"Initial commit\""@,
        "push -u origin main"@,
    ]
}

/// There is always at least one word.
pub proof fn lemma_words_of_len(cmd: Seq<char>)
    ensures
        words_of(cmd).len() >= 1,
    decreases cmd.len(),
{
    if cmd.len() > 0 {
        lemma_words_of_len(cmd.drop_last());
    }
}

/// The text made of `parts`, one behind the other.
fn concat(parts: &[&str]) -> (whole: String)
    ensures
        whole@ == flat(parts@),
{
    let mut whole: Vec<char> = Vec::new();
    let mut i: usize = 0;
    while i < parts.len()
        invariant
            i <= parts.len(),
            whole@ == flat(parts@.take(i as int)),
        decreases parts.len() - i,
    {
        assert(parts@.take(i + 1).drop_last() =~= parts@.take(i as int));
        append(&mut whole, chars_of(parts[i]).as_slice());
        i += 1;
    }
    assert(parts@.take(parts@.len() as int) =~= parts@);
    string_of(whole.as_slice())
}

/// The texts of `parts`, one behind the other.
pub open spec fn flat(parts: Seq<&str>) -> Seq<char>
    decreases parts.len(),
{
    if parts.len() == 0 {
        Seq::empty()
    } else {
        flat(parts.drop_last()) + parts.last()@
    }
}

/// The places of the program, from the work tree `home` and the data
/// directory `data`: the repository is `git` in the data directory, the
/// record of the tracking list `list`.
pub fn user_paths(home: &str, data: &str) -> (paths: UserPaths)
    ensures
        paths.home@ == home@,
        paths.data@ == data@,
        paths.git@ == data@ + "/git"@,
        paths.list@ == data@ + "/list"@,
{
    proof {
        reveal_with_fuel(flat, 3);
    }
    let git = concat(&[data, "/git"]);
    let list = concat(&[data, "/list"]);
    assert(git@ =~= data@ + "/git"@);
    assert(list@ =~= data@ + "/list"@);
    UserPaths { home: concat(&[home]), data: concat(&[data]), git, list }
}

/// The words of `cmd`.
pub fn split_cmd(cmd: String) -> (split: Vec<String>)
    ensures
        texts(split@) == words_of(cmd@),
{
    let cmd = chars_of(cmd.as_str());
    let mut words: Vec<Vec<char>> = Vec::new();
    words.push(Vec::new());
    let mut quoted = false;
    let mut i: usize = 0;
    assert(rows(words@) =~= seq![Seq::<char>::empty()]);
    while i < cmd.len()
        invariant
            i <= cmd.len(),
            quoted == in_quotes(cmd@.take(i as int)),
            rows(words@) == words_of(cmd@.take(i as int)),
            words@.len() >= 1,
        decreases cmd.len() - i,
    {
        let ghost before = rows(words@);
        assert(cmd@.take(i + 1).drop_last() =~= cmd@.take(i as int));
        let c = cmd[i];
        if c == ' ' && !quoted {
            words.push(Vec::new());
            assert(rows(words@) =~= before.push(Seq::empty()));
        } else {
            if c == '"' {
                quoted = !quoted;
            }
            let mut word = words.pop().unwrap();
            word.push(c);
            words.push(word);
            assert(rows(words@) =~= before.drop_last().push(before.last().push(c)));
        }
        i += 1;
    }
    assert(cmd@.take(cmd@.len() as int) =~= cmd@);
    strings_of(&words)
}

/// The arguments that run the git subcommand `cmd` on the repository and
/// the work tree of `paths`.
pub fn git_command_args(paths: &UserPaths, cmd: &str) -> (args: Vec<String>)
    ensures
        texts(args@) == words_of(git_line(paths.git@, paths.home@, cmd@)),
{
    proof {
        reveal_with_fuel(flat, 7);
    }
    let line = concat(
        &["--git-dir=", paths.git.as_str(), " --work-tree=", paths.home.as_str(), " ", cmd],
    );
    assert(line@ =~= git_line(paths.git@, paths.home@, cmd@));
    split_cmd(line)
}

/// The git subcommands that record the staged changes under `message` and
/// send them to the remote.
pub fn commit_and_push(message: &str) -> (commands: Vec<String>)
    ensures
        texts(commands@) == commit_commands(message@),
{
    proof {
        reveal_with_fuel(flat, 4);
    }
    let mut commands: Vec<String> = Vec::new();
    let commit = concat(&["commit -m \"", message, "\""]);
    assert(commit@ =~= "commit -m \""@ + message@ + "\""@);
    commands.push(commit);
    commands.push(concat(&["push"]));
    assert(texts(commands@) =~= commit_commands(message@));
    commands
}

/// The lines to choose the next step from, in the order in which
/// `select_next_step` numbers them.
pub fn next_step_labels() -> (labels: Vec<String>)
    ensures
        texts(labels@) == seq!["commit & push"@, "diff"@, "exit"@],
{
    let mut labels: Vec<String> = Vec::new();
    labels.push(concat(&["commit & push"]));
    labels.push(concat(&["diff"]));
    labels.push(concat(&["exit"]));
    proof {
        reveal_with_fuel(flat, 2);
        assert(texts(labels@) =~= seq!["commit & push"@, "diff"@, "exit"@]);
    }
    labels
}

/// What to do after the changes were staged, from the number of the line
/// that was chosen: the first records and sends them, the second shows
/// diffs, any other ends the program.
pub fn select_next_step(selection: usize) -> (step: NextStep)
    ensures
        step == if selection == 0 {
            NextStep::CommitAndPush
        } else if selection == 1 {
            NextStep::Diff
        } else {
            NextStep::Exit
        },
{
    if selection == 0 {
        NextStep::CommitAndPush
    } else if selection == 1 {
        NextStep::Diff
    } else {
        NextStep::Exit
    }
}

/// What setting up the repository with the remote `repo_url` takes.
pub fn init(repo_url: &String, paths: &UserPaths) -> (plan: InitPlan)
    ensures
        plan.git_dir@ == paths.git@,
        plan.github_dir@ == paths.home@ + "/.github"@,
        plan.readme@ == paths.home@ + "/.github/README.md"@,
        texts(plan.commands@) == init_commands(paths.git@, repo_url@, plan.readme@),
{
    proof {
        reveal_with_fuel(flat, 3);
    }
    let github_dir = concat(&[paths.home.as_str(), "/.github"]);
    let readme = concat(&[paths.home.as_str(), "/.github/README.md"]);
    assert(github_dir@ =~= paths.home@ + "/.github"@);
    assert(readme@ =~= paths.home@ + "/.github/README.md"@);
    let mut commands: Vec<String> = Vec::new();
    let first = concat(&["git init --bare ", paths.git.as_str()]);
    let fourth = concat(&["remote add origin ", repo_url.as_str()]);
    let fifth = concat(&["add ", readme.as_str()]);
    assert(first@ =~= "git init --bare "@ + paths.git@);
    assert(fourth@ =~= "remote add origin "@ + repo_url@);
    assert(fifth@ =~= "add "@ + readme@);
    commands.push(first);
    commands.push(concat(&["config --local status.showUntrackedFiles no"]));
    commands.push(concat(&["branch -M main"]));
    commands.push(fourth);
    commands.push(fifth);
    commands.push(concat(&["commit -m \"Initial commit\""]));
    commands.push(concat(&["push -u origin main"]));
    assert(texts(commands@) =~= init_commands(paths.git@, repo_url@, readme@));
    InitPlan { git_dir: concat(&[paths.git.as_str()]), github_dir, readme, commands }
}

} // verus!
