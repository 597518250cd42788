//! Diff extraction: the part of a combined diff that belongs to one path,
//! and the kind of each of its lines.

use vstd::prelude::*;
use crate::report::{exit_code_of, Error, ErrorView, Missing};
use crate::text::{
    append, chars_of, lemma_first_occurrence_is, lemma_split_len, matches_at, rows, same_text,
    split, split_text, starts_with, string_of, strip_prefixes, strip_prefixes_text,
};

verus! {

/// What a line of a file's diff is.
#[derive(Clone, Copy, Debug, PartialEq, Eq, Structural)]
pub enum LineKind {
    /// A line before the first hunk header.
    Preamble,
    /// A hunk header.
    HunkHeader,
    /// An added line.
    Addition,
    /// A removed line.
    Deletion,
    /// Any other line behind a hunk header.
    Context,
}

/// One line of a file's diff.
#[derive(Clone, Debug, PartialEq, Eq)]
pub struct DiffLine {
    pub kind: LineKind,
    /// The line; of a hunk header, the range between its two `@@` marks,
    /// marks included.
    pub text: String,
    /// What follows the range on a hunk header; empty on every other line.
    pub trailer: String,
}

/// A `DiffLine` with the texts of its strings.
pub struct DiffLineView {
    pub kind: LineKind,
    pub text: Seq<char>,
    pub trailer: Seq<char>,
}

impl View for DiffLine {
    type V = DiffLineView;

    open spec fn view(&self) -> DiffLineView {
        DiffLineView { kind: self.kind, text: self.text@, trailer: self.trailer@ }
    }
}

/// What to show when a diff is asked for.
#[derive(Clone, Debug, PartialEq, Eq)]
pub enum DiffRequest {
    /// No file was named: the changed files are offered for selection.
    Browse,
    /// The diff of the named file.
    Show(String),
}

/// The views of a sequence of lines.
pub open spec fn line_views(lines: Seq<DiffLine>) -> Seq<DiffLineView> {
    Seq::new(lines.len(), |i: int| lines[i]@)
}

/// The mark at which the part of each file begins in a combined diff.
pub open spec fn boundary() -> Seq<char> {
    "diff --git "@
}

/// The path as the list of changed files names it: `file` without the
/// tracked root and its separator in front.
pub open spec fn target_of(file: Seq<char>, home: Seq<char>) -> Seq<char> {
    strip_prefixes(file, home + "/"@)
}

/// The part of `cached_diff` that belongs to `target`: where `target` is the
/// `i`-th of the names in `diff_paths`, counted from 0, the part behind the
/// `i + 1`-th boundary mark.
pub open spec fn segment_of(target: Seq<char>, cached_diff: Seq<char>, diff_paths: Seq<char>)
    -> Option<Seq<char>> {
    let names = split(diff_paths, "\n"@);
    let segments = split(cached_diff, boundary());
    match names.index_of_first(target) {
        Some(i) => if i + 1 < segments.len() {
            Some(segments[i + 1])
        } else {
            None
        },
        None => None,
    }
}

/// A hunk header begins with `@@` and a space.
pub open spec fn is_hunk_header(line: Seq<char>) -> bool {
    starts_with(line, "@@ "@)
}

/// One of the lines before the `i`-th is a hunk header.
pub open spec fn header_before(lines: Seq<Seq<char>>, i: int) -> bool {
    exists|j: int| 0 <= j < i && is_hunk_header(#[trigger] lines[j])
}

/// What `line` is, given whether a hunk header came before it.
pub open spec fn classify(line: Seq<char>, seen_header: bool) -> DiffLineView {
    if is_hunk_header(line) {
        let parts = split(line, "@@"@);
        DiffLineView {
            kind: LineKind::HunkHeader,
            text: "@@"@ + parts[1] + "@@"@,
            trailer: if parts.len() > 2 {
                parts[2]
            } else {
                Seq::empty()
            },
        }
    } else if !seen_header {
        DiffLineView { kind: LineKind::Preamble, text: line, trailer: Seq::empty() }
    } else if starts_with(line, "+"@) {
        DiffLineView { kind: LineKind::Addition, text: line, trailer: Seq::empty() }
    } else if starts_with(line, "-"@) {
        DiffLineView { kind: LineKind::Deletion, text: line, trailer: Seq::empty() }
    } else {
        DiffLineView { kind: LineKind::Context, text: line, trailer: Seq::empty() }
    }
}

/// The lines of `segment`, each with its kind.
pub open spec fn classify_lines(segment: Seq<char>) -> Seq<DiffLineView> {
    let lines = split(segment, "\n"@);
    Seq::new(lines.len(), |i: int| classify(lines[i], header_before(lines, i)))
}

/// A line that begins with `@@` has at least two pieces between its `@@`
/// marks, the first of them empty.
pub proof fn lemma_hunk_header_parts(line: Seq<char>)
    requires
        is_hunk_header(line),
    ensures
        split(line, "@@"@).len() >= 2,
{
    reveal_strlit("@@ ");
    reveal_strlit("@@");
    let mark = "@@"@;
    assert(line.subrange(0, 3) == "@@ "@);
    assert(line.subrange(0, 2) =~= mark) by {
        assert(line.subrange(0, 2) =~= line.subrange(0, 3).subrange(0, 2));
    }
    lemma_first_occurrence_is(line, mark, 0);
    lemma_split_len(line.skip(2), mark);
}

/// What `line` is, given whether a hunk header came before it.
pub fn classify_line(line: &[char], seen_header: bool) -> (classified: DiffLine)
    ensures
        classified@ == classify(line@, seen_header),
{
    let header = chars_of("@@ ");
    if matches_at(line, header.as_slice(), 0) {
        let mark = chars_of("@@");
        let parts = split_text(line, mark.as_slice());
        proof {
            lemma_hunk_header_parts(line@);
            assert(rows(parts@).len() >= 2);
            assert(rows(parts@)[1] == parts@[1]@);
        }
        let mut text: Vec<char> = Vec::new();
        append(&mut text, mark.as_slice());
        append(&mut text, parts[1].as_slice());
        append(&mut text, mark.as_slice());
        let trailer = if parts.len() > 2 {
            assert(rows(parts@)[2] == parts@[2]@);
            string_of(parts[2].as_slice())
        } else {
            String::new()
        };
        assert(text@ =~= "@@"@ + split(line@, "@@"@)[1] + "@@"@);
        return DiffLine {
            kind: LineKind::HunkHeader,
            text: string_of(text.as_slice()),
            trailer,
        };
    }
    let kind = if !seen_header {
        LineKind::Preamble
    } else if matches_at(line, chars_of("+").as_slice(), 0) {
        LineKind::Addition
    } else if matches_at(line, chars_of("-").as_slice(), 0) {
        LineKind::Deletion
    } else {
        LineKind::Context
    };
    DiffLine { kind, text: string_of(line), trailer: String::new() }
}

/// The lines of `segment`, each with its kind.
pub fn classify_segment(segment: &[char]) -> (classified: Vec<DiffLine>)
    ensures
        line_views(classified@) == classify_lines(segment@),
{
    let lines = split_text(segment, chars_of("\n").as_slice());
    let header = chars_of("@@ ");
    let mut classified: Vec<DiffLine> = Vec::new();
    let mut seen_header = false;
    let mut i: usize = 0;
    while i < lines.len()
        invariant
            i <= lines.len(),
            rows(lines@) == split(segment@, "\n"@),
            header@ == "@@ "@,
            seen_header == header_before(rows(lines@), i as int),
            line_views(classified@) == classify_lines(segment@).take(i as int),
        decreases lines.len() - i,
    {
        let ghost before = line_views(classified@);
        let ghost all = rows(lines@);
        assert(all[i as int] == lines@[i as int]@);
        let line = classify_line(lines[i].as_slice(), seen_header);
        if matches_at(lines[i].as_slice(), header.as_slice(), 0) {
            seen_header = true;
        }
        classified.push(line);
        proof {
            assert(line_views(classified@) =~= before.push(line@));
            assert(line_views(classified@) =~= classify_lines(segment@).take(i + 1));
            if header_before(all, i + 1) {
                let j = choose|j: int| 0 <= j < i + 1 && is_hunk_header(#[trigger] all[j]);
                if j < i {
                    assert(header_before(all, i as int));
                }
            }
            if header_before(all, i as int) {
                let j = choose|j: int| 0 <= j < i && is_hunk_header(#[trigger] all[j]);
                assert(0 <= j < i + 1 && is_hunk_header(all[j]));
            }
        }
        i += 1;
    }
    assert(classify_lines(segment@).take(lines@.len() as int) =~= classify_lines(segment@));
    classified
}

/// The path as the list of changed files names it.
pub fn changed_name(file: &str, home: &str) -> (name: String)
    ensures
        name@ == target_of(file@, home@),
{
    let mut root = chars_of(home);
    append(&mut root, chars_of("/").as_slice());
    string_of(strip_prefixes_text(chars_of(file).as_slice(), root.as_slice()).as_slice())
}

/// The lines of the diff of `file`, each with its kind, from the combined
/// diff `cached_diff` and the names of the changed files `diff_paths`, one
/// to a line. `home` is the tracked root, which `file` may begin with.
///
/// Fails where no changed file has that name, or the combined diff has no
/// part for it.
pub fn diff_file(file: &str, home: &str, cached_diff: &str, diff_paths: &str) -> (result: Result<
    Vec<DiffLine>,
    Error,
>)
    ensures
        match segment_of(target_of(file@, home@), cached_diff@, diff_paths@) {
            Some(segment) => result is Ok && line_views(result->Ok_0@) == classify_lines(
                segment,
            ),
            None => result == Err::<Vec<DiffLine>, Error>(
                Error::NotFound(Missing::AmongChanges),
            ),
        },
{
    let target = chars_of(changed_name(file, home).as_str());
    let names = split_text(chars_of(diff_paths).as_slice(), chars_of("\n").as_slice());
    let segments = split_text(chars_of(cached_diff).as_slice(), chars_of("diff --git ").as_slice());
    let ghost all = rows(names@);
    let mut i: usize = 0;
    while i < names.len()
        invariant
            i <= names.len(),
            all == rows(names@),
            all == split(diff_paths@, "\n"@),
            rows(segments@) == split(cached_diff@, boundary()),
            target@ == target_of(file@, home@),
            forall|j: int| 0 <= j < i ==> all[j] != target@,
        decreases names.len() - i,
    {
        assert(all[i as int] == names@[i as int]@);
        if same_text(names[i].as_slice(), target.as_slice()) {
            proof {
                all.index_of_first_ensures(target@);
                assert(all.contains(target@));
            }
            if i + 1 < segments.len() {
                assert(rows(segments@)[i + 1] == segments@[i + 1]@);
                return Ok(classify_segment(segments[i + 1].as_slice()));
            }
            return Err(Error::NotFound(Missing::AmongChanges));
        }
        i += 1;
    }
    proof {
        all.index_of_first_ensures(target@);
        if all.contains(target@) {
            let j = choose|j: int| 0 <= j < all.len() && all[j] == target@;
            assert(false);
        }
    }
    Err(Error::NotFound(Missing::AmongChanges))
}

/// A path that is none of the changed files has no diff, and that is no
/// failure: the error for it ends the process with status 0.
pub proof fn lemma_absent_path_is_no_failure(
    file: Seq<char>,
    home: Seq<char>,
    cached_diff: Seq<char>,
    diff_paths: Seq<char>,
)
    requires
        !split(diff_paths, "\n"@).contains(target_of(file, home)),
    ensures
        segment_of(target_of(file, home), cached_diff, diff_paths) is None,
        exit_code_of(ErrorView::NotFound(Missing::AmongChanges)) == 0,
{
    split(diff_paths, "\n"@).index_of_first_ensures(target_of(file, home));
}

/// What a request for a diff asks for: the selection of a file where none
/// is named, else the diff of the one named.
pub fn diff(file: &str) -> (request: DiffRequest)
    ensures
        file@.len() == 0 ==> request == DiffRequest::Browse,
        file@.len() > 0 ==> (request matches DiffRequest::Show(name) && name@ == file@),
{
    if file.is_empty() {
        DiffRequest::Browse
    } else {
        DiffRequest::Show(string_of(chars_of(file).as_slice()))
    }
}

} // verus!
