//! The command line: the option named on it, whether it is one of the
//! options that exist, and what it asks for.

use vstd::prelude::*;
use crate::text::{
    byte_count, chars_of, copy_range, count_bytes, drop_bytes, rows, same_text, skip_bytes, split,
    split_text, string_of, texts, trim, trim_text,
};

verus! {

/// `text` in lower case, as `str::to_lowercase` gives it.
pub uninterp spec fn lowercase(text: Seq<char>) -> Seq<char>;

/// `str::to_lowercase` returns the string in lower case; what that is for
/// each character Unicode says, and `lowercase` stands for it.
pub assume_specification[ str::to_lowercase ](text: &str) -> (lowered: String)
    ensures
        lowered@ == lowercase(text@),
;

/// What the program is asked to do.
#[derive(Clone, Debug, PartialEq, Eq)]
pub enum Invocation {
    Update,
    Status,
    StatusSummary,
    List,
    Diff(String),
    Init(String),
    Add(String),
    Remove(String),
    /// The help text was asked for.
    Help,
    /// The command line is not understood: the help text is shown, and the
    /// program fails.
    Usage,
}

/// An `Invocation` with the text of its argument.
pub enum InvocationView {
    Update,
    Status,
    StatusSummary,
    List,
    Diff(Seq<char>),
    Init(Seq<char>),
    Add(Seq<char>),
    Remove(Seq<char>),
    Help,
    Usage,
}

impl View for Invocation {
    type V = InvocationView;

    open spec fn view(&self) -> InvocationView {
        match *self {
            Invocation::Update => InvocationView::Update,
            Invocation::Status => InvocationView::Status,
            Invocation::StatusSummary => InvocationView::StatusSummary,
            Invocation::List => InvocationView::List,
            Invocation::Diff(file) => InvocationView::Diff(file@),
            Invocation::Init(url) => InvocationView::Init(url@),
            Invocation::Add(path) => InvocationView::Add(path@),
            Invocation::Remove(path) => InvocationView::Remove(path@),
            Invocation::Help => InvocationView::Help,
            Invocation::Usage => InvocationView::Usage,
        }
    }
}

/// The texts of a sequence of string slices.
pub open spec fn slices(strings: Seq<&str>) -> Seq<Seq<char>> {
    Seq::new(strings.len(), |i: int| strings[i]@)
}

/// The number of bytes in front of the name of an option: two where the
/// option has more than three bytes, else one.
pub open spec fn dashes(option: Seq<char>) -> nat {
    if byte_count(option) > 3 {
        2
    } else {
        1
    }
}

/// The name of the option that the word `word` of a command line spells:
/// the word without the white space around it and the bytes in front of the
/// name. None where the word has no such bytes.
pub open spec fn named(word: Seq<char>) -> Option<Seq<char>> {
    skip_bytes(trim(word), dashes(trim(word)))
}

/// The command line names an option.
pub open spec fn can_sanitise(args: Seq<Seq<char>>) -> bool {
    args.len() >= 2 && named(args[1]) is Some
}

/// The argument of the option: the third word of a command line of three,
/// without the white space around it; else the empty text.
pub open spec fn argument_of(args: Seq<Seq<char>>) -> Seq<char> {
    if args.len() == 3 {
        trim(args[2])
    } else {
        Seq::empty()
    }
}

/// The short options that `letters` spell: each character an option, and a
/// colon a part of the option before it.
pub open spec fn short_options(letters: Seq<char>) -> Seq<Seq<char>>
    decreases letters.len(),
{
    if letters.len() == 0 {
        Seq::empty()
    } else {
        let before = short_options(letters.drop_last());
        if letters.last() == ':' && before.len() > 0 {
            before.drop_last().push(before.last().push(':'))
        } else {
            before.push(seq![letters.last()])
        }
    }
}

/// The long options that `words` spell: its parts between commas, each
/// without the white space around it.
pub open spec fn long_options(words: Seq<char>) -> Seq<Seq<char>> {
    let parts = split(words, ","@);
    Seq::new(parts.len(), |i: int| trim(parts[i]))
}

/// The name of an option: the option without the mark at its end, a
/// semicolon or a colon.
pub open spec fn option_name(option: Seq<char>) -> Seq<char> {
    if option.len() > 0 && (option.last() == ';' || option.last() == ':') {
        option.drop_last()
    } else {
        option
    }
}

/// An option that ends in a colon takes an argument.
pub open spec fn takes_argument(option: Seq<char>) -> bool {
    option.len() > 0 && option.last() == ':'
}

/// The `i`-th of `options` is the first with the name `name`.
pub open spec fn is_first_named(options: Seq<Seq<char>>, name: Seq<char>, i: int) -> bool {
    &&& 0 <= i < options.len()
    &&& option_name(options[i]) == name
    &&& forall|j: int| 0 <= j < i ==> option_name(#[trigger] options[j]) != name
}

/// `name` is the name of one of `options`, and `argument` is not empty
/// where the first option of that name takes one.
pub open spec fn is_valid(options: Seq<Seq<char>>, name: Seq<char>, argument: Seq<char>)
    -> bool {
    exists|i: int|
        is_first_named(options, name, i) && !(takes_argument(#[trigger] options[i])
            && argument.len() == 0)
}

/// What the option `name` asks for, with `argument`.
pub open spec fn invocation_of(name: Seq<char>, argument: Seq<char>) -> InvocationView {
    if name == "u"@ || name == "update"@ {
        InvocationView::Update
    } else if name == "s"@ || name == "status"@ {
        InvocationView::Status
    } else if name == "status-summary"@ {
        InvocationView::StatusSummary
    } else if name == "l"@ || name == "list"@ {
        InvocationView::List
    } else if name == "d"@ || name == "diff"@ {
        InvocationView::Diff(argument)
    } else if name == "i"@ || name == "init"@ {
        InvocationView::Init(argument)
    } else if name == "a"@ || name == "add"@ {
        InvocationView::Add(argument)
    } else if name == "r"@ || name == "remove"@ {
        InvocationView::Remove(argument)
    } else if name == "h"@ || name == "help"@ {
        InvocationView::Help
    } else {
        InvocationView::Usage
    }
}

/// What the command line `args` asks for, `options` being the options
/// that exist: what the option it names asks for, where it has two or
/// three words, names an option, and that option is valid.
pub open spec fn invocation_for(args: Seq<Seq<char>>, options: Seq<Seq<char>>)
    -> InvocationView {
    if args.len() <= 1 || args.len() > 3 || !can_sanitise(args) {
        InvocationView::Usage
    } else if !is_valid(options, named(args[1])->0, argument_of(args)) {
        InvocationView::Usage
    } else {
        invocation_of(named(args[1])->0, argument_of(args))
    }
}

/// The line that was read, without the white space around it and in lower
/// case.
pub fn read_input(line: &str) -> (input: String)
    ensures
        input@ == lowercase(trim(line@)),
{
    let trimmed = string_of(trim_text(chars_of(line).as_slice()).as_slice());
    trimmed.as_str().to_lowercase()
}

/// The name of the option that `word` spells.
fn option_named(word: &str) -> (name: Option<Vec<char>>)
    ensures
        match name {
            Some(name) => named(word@) == Some(name@),
            None => named(word@) is None,
        },
{
    let trimmed = trim_text(chars_of(word).as_slice());
    let cut: u128 = if count_bytes(trimmed.as_slice()) > 3 {
        2
    } else {
        1
    };
    drop_bytes(trimmed.as_slice(), cut)
}

/// Whether the command line names an option.
pub fn names_option(args: &Vec<String>) -> (can: bool)
    ensures
        can == can_sanitise(texts(args@)),
{
    if args.len() < 2 {
        return false;
    }
    assert(texts(args@)[1] == args@[1]@);
    option_named(args[1].as_str()).is_some()
}

/// The name of the option on the command line, and its argument.
pub fn sanitise_args(args: &Vec<String>) -> (sargs: (String, String))
    requires
        can_sanitise(texts(args@)),
    ensures
        Some(sargs.0@) == named(texts(args@)[1]),
        sargs.1@ == argument_of(texts(args@)),
{
    assert(texts(args@)[1] == args@[1]@);
    let cmd = match option_named(args[1].as_str()) {
        Some(name) => string_of(name.as_slice()),
        None => String::new(),
    };
    let arg = if args.len() == 3 {
        assert(texts(args@)[2] == args@[2]@);
        string_of(trim_text(chars_of(args[2].as_str()).as_slice()).as_slice())
    } else {
        String::new()
    };
    (cmd, arg)
}

/// The options that `valid_inputs` spell: the short ones of its first
/// text, then the long ones of its second.
pub open spec fn options_of(valid_inputs: Seq<Seq<char>>) -> Seq<Seq<char>> {
    short_options(valid_inputs[0]) + long_options(valid_inputs[1])
}

/// `valid_inputs` spells options: it has the two texts, and the first does
/// not begin with a colon.
pub open spec fn spells_options(valid_inputs: Seq<Seq<char>>) -> bool {
    &&& valid_inputs.len() >= 2
    &&& valid_inputs[0].len() > 0 ==> valid_inputs[0][0] != ':'
}

/// Whether `valid_inputs` spells options.
pub fn options_are_spelled(valid_inputs: &Vec<&str>) -> (spelled: bool)
    ensures
        spelled == spells_options(slices(valid_inputs@)),
{
    if valid_inputs.len() < 2 {
        return false;
    }
    assert(slices(valid_inputs@)[0] == valid_inputs@[0]@);
    let letters = chars_of(valid_inputs[0]);
    letters.len() == 0 || letters[0] != ':'
}

/// The short options that `letters` spell.
fn read_short_options(letters: &[char]) -> (options: Vec<Vec<char>>)
    requires
        letters@.len() > 0 ==> letters@[0] != ':',
    ensures
        rows(options@) == short_options(letters@),
{
    let mut options: Vec<Vec<char>> = Vec::new();
    let mut i: usize = 0;
    while i < letters.len()
        invariant
            i <= letters.len(),
            letters@.len() > 0 ==> letters@[0] != ':',
            rows(options@) == short_options(letters@.take(i as int)),
            i > 0 ==> options@.len() > 0,
        decreases letters.len() - i,
    {
        let ghost before = rows(options@);
        assert(letters@.take(i + 1).drop_last() =~= letters@.take(i as int));
        if letters[i] == ':' {
            let mut last = options.pop().unwrap();
            last.push(':');
            options.push(last);
            assert(rows(options@) =~= before.drop_last().push(before.last().push(':')));
        } else {
            let mut option: Vec<char> = Vec::new();
            option.push(letters[i]);
            options.push(option);
            assert(rows(options@) =~= before.push(seq![letters@[i as int]]));
        }
        i += 1;
    }
    assert(letters@.take(letters@.len() as int) =~= letters@);
    options
}

/// Puts the long options that `words` spell at the end of `options`.
fn read_long_options(options: &mut Vec<Vec<char>>, words: &[char])
    ensures
        rows(final(options)@) == rows(old(options)@) + long_options(words@),
{
    let parts = split_text(words, chars_of(",").as_slice());
    let ghost before = rows(options@);
    let mut i: usize = 0;
    while i < parts.len()
        invariant
            i <= parts.len(),
            rows(parts@) == split(words@, ","@),
            rows(options@) == before + long_options(words@).take(i as int),
        decreases parts.len() - i,
    {
        let ghost so_far = rows(options@);
        assert(rows(parts@)[i as int] == parts@[i as int]@);
        options.push(trim_text(parts[i].as_slice()));
        assert(rows(options@) =~= so_far.push(trim(parts@[i as int]@)));
        i += 1;
        assert(rows(options@) =~= before + long_options(words@).take(i as int));
    }
    assert(long_options(words@).take(parts@.len() as int) =~= long_options(words@));
}

/// Whether the option `args.0` is one of those that `valid_inputs` spells,
/// and has its argument `args.1` where it takes one.
///
/// The first text of `valid_inputs` spells the short options, a character
/// each; the second the long ones, with commas between them. A colon behind
/// an option says that it takes an argument, a semicolon that it may.
pub fn validate_args(args: &(String, String), valid_inputs: &Vec<&str>) -> (valid: bool)
    requires
        spells_options(slices(valid_inputs@)),
    ensures
        valid == is_valid(options_of(slices(valid_inputs@)), args.0@, args.1@),
{
    let mut options = read_short_options(chars_of(valid_inputs[0]).as_slice());
    read_long_options(&mut options, chars_of(valid_inputs[1]).as_slice());
    let name = chars_of(args.0.as_str());
    let ghost all = rows(options@);
    assert(slices(valid_inputs@)[0] == valid_inputs@[0]@);
    assert(slices(valid_inputs@)[1] == valid_inputs@[1]@);
    let mut i: usize = 0;
    while i < options.len()
        invariant
            i <= options.len(),
            all == rows(options@),
            all == options_of(slices(valid_inputs@)),
            name@ == args.0@,
            forall|j: int| 0 <= j < i ==> option_name(#[trigger] all[j]) != name@,
        decreases options.len() - i,
    {
        let option = &options[i];
        assert(all[i as int] == option@);
        let marked = option.len() > 0 && (option[option.len() - 1] == ';' || option[option.len()
            - 1] == ':');
        let takes = option.len() > 0 && option[option.len() - 1] == ':';
        let matches = if marked {
            same_text(copy_range(option.as_slice(), 0, option.len() - 1).as_slice(), name.as_slice())
        } else {
            same_text(option.as_slice(), name.as_slice())
        };
        if matches {
            assert(is_first_named(all, name@, i as int));
            let valid = !(takes && args.1.as_str().is_empty());
            proof {
                if is_valid(all, name@, args.1@) {
                    let k = choose|k: int|
                        is_first_named(all, name@, k) && !(takes_argument(#[trigger] all[k])
                            && args.1@.len() == 0);
                    if k < i {
                        assert(option_name(all[k]) != name@);
                    }
                    if i < k {
                        assert(option_name(all[i as int]) != name@);
                    }
                }
            }
            return valid;
        }
        i += 1;
    }
    false
}

/// Whether `name` is the word `word`.
fn is_word(name: &[char], word: &str) -> (same: bool)
    ensures
        same == (name@ == word@),
{
    same_text(name, chars_of(word).as_slice())
}

/// What the command line `args` asks for: what the option it names asks
/// for, where it has two or three words, names an option, and that option
/// is one of those that `valid_inputs` spells and has its argument where it
/// takes one; else the help text, and failure.
pub fn handle_input(args: &Vec<String>, valid_inputs: &Vec<&str>) -> (invocation: Invocation)
    requires
        spells_options(slices(valid_inputs@)),
    ensures
        invocation@ == invocation_for(texts(args@), options_of(slices(valid_inputs@))),
{
    if args.len() <= 1 || args.len() > 3 || !names_option(args) {
        return Invocation::Usage;
    }
    let sargs = sanitise_args(args);
    if !validate_args(&sargs, valid_inputs) {
        return Invocation::Usage;
    }
    let name = chars_of(sargs.0.as_str());
    let name = name.as_slice();
    if is_word(name, "u") || is_word(name, "update") {
        Invocation::Update
    } else if is_word(name, "s") || is_word(name, "status") {
        Invocation::Status
    } else if is_word(name, "status-summary") {
        Invocation::StatusSummary
    } else if is_word(name, "l") || is_word(name, "list") {
        Invocation::List
    } else if is_word(name, "d") || is_word(name, "diff") {
        Invocation::Diff(sargs.1)
    } else if is_word(name, "i") || is_word(name, "init") {
        Invocation::Init(sargs.1)
    } else if is_word(name, "a") || is_word(name, "add") {
        Invocation::Add(sargs.1)
    } else if is_word(name, "r") || is_word(name, "remove") {
        Invocation::Remove(sargs.1)
    } else if is_word(name, "h") || is_word(name, "help") {
        Invocation::Help
    } else {
        Invocation::Usage
    }
}

} // verus!
