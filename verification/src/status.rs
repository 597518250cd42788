//! Porcelain status output: its lines as change entries, their counts by
//! kind, and the views made of them.

use vstd::prelude::*;
use prettytable::{Cell, Table};
use crate::table::{
    fits_cell, kept_text, lemma_behind_plain_text_fits, lemma_plain_text_fits,
    lemma_single_line_is_kept, new_table, push_row, row_of_two, styled_cell, table_rows,
    table_titles, text_fits_cell,
};
use crate::text::{
    after_last, after_last_text, append, chars_of, decimal, join, join_text, push_decimal, rows,
    split, split_text, string_of, strings_of, texts, trim, trim_text,
};

verus! {

/// The kind of a change.
#[derive(Clone, Copy, Debug, PartialEq, Eq, Structural)]
pub enum ChangeKind {
    Added,
    Deleted,
    Modified,
}

/// One change: its kind and the path it is about.
#[derive(Clone, Debug, PartialEq, Eq)]
pub struct StatusEntry {
    pub kind: ChangeKind,
    pub path: String,
}

/// A `StatusEntry` with the text of its path.
pub struct StatusEntryView {
    pub kind: ChangeKind,
    pub path: Seq<char>,
}

impl View for StatusEntry {
    type V = StatusEntryView;

    open spec fn view(&self) -> StatusEntryView {
        StatusEntryView { kind: self.kind, path: self.path@ }
    }
}

/// The views of a sequence of entries.
pub open spec fn entry_views(entries: Seq<StatusEntry>) -> Seq<StatusEntryView> {
    Seq::new(entries.len(), |i: int| entries[i]@)
}

/// The letter that stands for `kind` in a status code.
pub open spec fn letter_of(kind: ChangeKind) -> char {
    match kind {
        ChangeKind::Added => 'A',
        ChangeKind::Deleted => 'D',
        ChangeKind::Modified => 'M',
    }
}

/// The label of `kind` in the table of changes.
pub open spec fn label_of(kind: ChangeKind) -> Seq<char> {
    match kind {
        ChangeKind::Added => "new file"@,
        ChangeKind::Deleted => "deleted"@,
        ChangeKind::Modified => "modified"@,
    }
}

/// The style of the label of `kind` in the table of changes.
pub open spec fn style_of(kind: ChangeKind) -> Seq<char> {
    match kind {
        ChangeKind::Added => "Fb"@,
        ChangeKind::Deleted => "Fr"@,
        ChangeKind::Modified => "Fg"@,
    }
}

/// The label of `kind` in the long summary.
pub open spec fn summary_label_of(kind: ChangeKind) -> Seq<char> {
    match kind {
        ChangeKind::Added => "new files"@,
        ChangeKind::Deleted => "deleted"@,
        ChangeKind::Modified => "modified"@,
    }
}

/// The symbol of `kind` in the short summary.
pub open spec fn symbol_of(kind: ChangeKind) -> Seq<char> {
    match kind {
        ChangeKind::Added => "+"@,
        ChangeKind::Deleted => "-"@,
        ChangeKind::Modified => "~"@,
    }
}

/// The status code of `line`, its first two characters, holds the letter
/// of `kind`. A line of fewer than two characters has no status code.
pub open spec fn has_kind(line: Seq<char>, kind: ChangeKind) -> bool {
    line.len() >= 2 && (line[0] == letter_of(kind) || line[1] == letter_of(kind))
}

/// The kind of the change that `line` reports: the first of added, deleted
/// and modified whose letter its status code holds.
pub open spec fn kind_of(line: Seq<char>) -> Option<ChangeKind> {
    if has_kind(line, ChangeKind::Added) {
        Some(ChangeKind::Added)
    } else if has_kind(line, ChangeKind::Deleted) {
        Some(ChangeKind::Deleted)
    } else if has_kind(line, ChangeKind::Modified) {
        Some(ChangeKind::Modified)
    } else {
        None
    }
}

/// The path that `line` reports: what follows its last space.
pub open spec fn path_of(line: Seq<char>) -> Seq<char> {
    after_last(line, ' ')
}

/// The entry that `line` gives, if its status code is of a known kind.
pub open spec fn entry_of() -> spec_fn(Seq<char>) -> Option<StatusEntryView> {
    |line: Seq<char>|
        match kind_of(line) {
            Some(kind) => Some(StatusEntryView { kind, path: path_of(line) }),
            None => None,
        }
}

/// The entries that `lines` give, in the order of the lines.
pub open spec fn parse(lines: Seq<Seq<char>>) -> Seq<StatusEntryView> {
    lines.filter_map(entry_of())
}

/// Whether a line counts for `kind`.
pub open spec fn counts_for(kind: ChangeKind) -> spec_fn(Seq<char>) -> bool {
    |line: Seq<char>| has_kind(line, kind)
}

/// The number of `lines` whose status code holds the letter of `kind`.
pub open spec fn count_of(lines: Seq<Seq<char>>, kind: ChangeKind) -> nat {
    lines.filter(counts_for(kind)).len()
}

/// The counts of `lines` for added, deleted and modified, in this order.
/// Each kind is counted by itself: a line whose status code holds the
/// letters of two kinds counts for both. A count is cut to its low 32
/// bits.
pub open spec fn counts_of(lines: Seq<Seq<char>>) -> Seq<i32> {
    seq![
        count_of(lines, ChangeKind::Added) as i32,
        count_of(lines, ChangeKind::Deleted) as i32,
        count_of(lines, ChangeKind::Modified) as i32,
    ]
}

/// The status code of `line` holds the letter of one kind, and of one
/// only.
pub open spec fn has_one_kind(line: Seq<char>) -> bool {
    let added: int = if has_kind(line, ChangeKind::Added) {
        1
    } else {
        0
    };
    let deleted: int = if has_kind(line, ChangeKind::Deleted) {
        1
    } else {
        0
    };
    let modified: int = if has_kind(line, ChangeKind::Modified) {
        1
    } else {
        0
    };
    added + deleted + modified == 1
}

/// Where every line is of one kind and one only, every line gives an
/// entry, and the three counts add up to the number of lines.
pub proof fn lemma_counts_add_up(lines: Seq<Seq<char>>)
    requires
        forall|i: int| 0 <= i < lines.len() ==> has_one_kind(#[trigger] lines[i]),
    ensures
        parse(lines).len() == lines.len(),
        count_of(lines, ChangeKind::Added) + count_of(lines, ChangeKind::Deleted) + count_of(
            lines,
            ChangeKind::Modified,
        ) == lines.len(),
    decreases lines.len(),
{
    reveal(Seq::filter);
    if lines.len() > 0 {
        let front = lines.drop_last();
        assert forall|i: int| 0 <= i < front.len() implies has_one_kind(#[trigger] front[i]) by {
            assert(front[i] == lines[i]);
        }
        lemma_counts_add_up(front);
        assert(has_one_kind(lines[lines.len() - 1]));
    }
}

/// The `k`-th of `counts`, 0 where there is none.
pub open spec fn count_at(counts: Seq<i32>, k: int) -> int {
    if 0 <= k < counts.len() {
        counts[k] as int
    } else {
        0
    }
}

/// What the short summary says of `kind`: its symbol, the count and a
/// space, or nothing where the count is not above 0.
pub open spec fn short_token(kind: ChangeKind, count: int) -> Seq<char> {
    if count > 0 {
        symbol_of(kind) + decimal(count as nat) + " "@
    } else {
        Seq::empty()
    }
}

/// The short summary of `counts`.
pub open spec fn summary_short_of(counts: Seq<i32>) -> Seq<char> {
    short_token(ChangeKind::Added, count_at(counts, 0)) + short_token(
        ChangeKind::Deleted,
        count_at(counts, 1),
    ) + short_token(ChangeKind::Modified, count_at(counts, 2))
}

/// What the long summary says of `kind`: one line, or none where the count
/// is not above 0.
pub open spec fn summary_lines_for(kind: ChangeKind, count: int) -> Seq<Seq<char>> {
    if count > 0 {
        seq!["> "@ + summary_label_of(kind) + ": "@ + decimal(count as nat)]
    } else {
        Seq::empty()
    }
}

/// The long summary of `counts`: the lines of the kinds, with a line end
/// between each two.
pub open spec fn summary_of(counts: Seq<i32>) -> Seq<char> {
    join(
        summary_lines_for(ChangeKind::Added, count_at(counts, 0)) + summary_lines_for(
            ChangeKind::Deleted,
            count_at(counts, 1),
        ) + summary_lines_for(ChangeKind::Modified, count_at(counts, 2)),
        "\n"@,
    )
}

impl ChangeKind {
    /// The letter that stands for this kind in a status code.
    pub fn letter(self) -> (letter: char)
        ensures
            letter == letter_of(self),
    {
        match self {
            ChangeKind::Added => 'A',
            ChangeKind::Deleted => 'D',
            ChangeKind::Modified => 'M',
        }
    }

    /// The label of this kind in the table of changes.
    pub fn label(self) -> (label: &'static str)
        ensures
            label@ == label_of(self),
    {
        match self {
            ChangeKind::Added => "new file",
            ChangeKind::Deleted => "deleted",
            ChangeKind::Modified => "modified",
        }
    }

    /// The style of the label of this kind in the table of changes.
    pub fn style(self) -> (style: &'static str)
        ensures
            style@ == style_of(self),
    {
        match self {
            ChangeKind::Added => "Fb",
            ChangeKind::Deleted => "Fr",
            ChangeKind::Modified => "Fg",
        }
    }

    /// The label of this kind in the long summary.
    pub fn summary_label(self) -> (label: &'static str)
        ensures
            label@ == summary_label_of(self),
    {
        match self {
            ChangeKind::Added => "new files",
            ChangeKind::Deleted => "deleted",
            ChangeKind::Modified => "modified",
        }
    }

    /// The symbol of this kind in the short summary.
    pub fn symbol(self) -> (symbol: &'static str)
        ensures
            symbol@ == symbol_of(self),
    {
        match self {
            ChangeKind::Added => "+",
            ChangeKind::Deleted => "-",
            ChangeKind::Modified => "~",
        }
    }
}

/// Whether the status code of `line` holds the letter of `kind`.
pub fn line_has_kind(line: &[char], kind: ChangeKind) -> (has: bool)
    ensures
        has == has_kind(line@, kind),
{
    line.len() >= 2 && (line[0] == kind.letter() || line[1] == kind.letter())
}

/// The entry that `line` gives, if its status code is of a known kind.
pub fn parse_line(line: &[char]) -> (entry: Option<StatusEntry>)
    ensures
        match entry {
            Some(entry) => entry_of()(line@) == Some(entry@),
            None => entry_of()(line@) is None,
        },
{
    let kind = if line_has_kind(line, ChangeKind::Added) {
        ChangeKind::Added
    } else if line_has_kind(line, ChangeKind::Deleted) {
        ChangeKind::Deleted
    } else if line_has_kind(line, ChangeKind::Modified) {
        ChangeKind::Modified
    } else {
        return None;
    };
    Some(StatusEntry { kind, path: string_of(after_last_text(line, ' ').as_slice()) })
}

/// The entries that `status_lines` give, in the order of the lines.
pub fn parse_status(status_lines: &[String]) -> (entries: Vec<StatusEntry>)
    ensures
        entry_views(entries@) == parse(texts(status_lines@)),
{
    let mut entries: Vec<StatusEntry> = Vec::new();
    let ghost lines = texts(status_lines@);
    let mut i: usize = 0;
    while i < status_lines.len()
        invariant
            i <= status_lines.len(),
            lines == texts(status_lines@),
            entry_views(entries@) == parse(lines.take(i as int)),
        decreases status_lines.len() - i,
    {
        let ghost so_far = entry_views(entries@);
        proof {
            lines.lemma_filter_map_take_succ(entry_of(), i as int);
            assert(lines[i as int] == status_lines@[i as int]@);
        }
        match parse_line(chars_of(status_lines[i].as_str()).as_slice()) {
            Some(entry) => {
                entries.push(entry);
                assert(entry_views(entries@) =~= so_far + seq![entry@]);
            },
            None => {
                assert(parse(lines.take(i + 1)) =~= so_far);
            },
        }
        i += 1;
    }
    assert(lines.take(status_lines@.len() as int) =~= lines);
    entries
}

/// The number of `lines` whose status code holds the letter of `kind`.
pub fn count_kind(status_lines: &[String], kind: ChangeKind) -> (count: usize)
    ensures
        count == count_of(texts(status_lines@), kind),
{
    let ghost lines = texts(status_lines@);
    let mut count: usize = 0;
    let mut i: usize = 0;
    while i < status_lines.len()
        invariant
            i <= status_lines.len(),
            lines == texts(status_lines@),
            count == count_of(lines.take(i as int), kind),
            count <= i,
        decreases status_lines.len() - i,
    {
        proof {
            assert(lines[i as int] == status_lines@[i as int]@);
            assert(lines.take(i + 1) =~= lines.take(i as int).push(lines[i as int]));
            lines.take(i as int).lemma_filter_push(lines[i as int], counts_for(kind));
        }
        if line_has_kind(chars_of(status_lines[i].as_str()).as_slice(), kind) {
            count += 1;
        }
        i += 1;
    }
    assert(lines.take(status_lines@.len() as int) =~= lines);
    count
}

/// The counts of `status_lines` for added, deleted and modified, in this
/// order.
pub fn get_status_counts(status_lines: &[String]) -> (counts: Vec<i32>)
    ensures
        counts@ == counts_of(texts(status_lines@)),
{
    let added = count_kind(status_lines, ChangeKind::Added);
    let deleted = count_kind(status_lines, ChangeKind::Deleted);
    let modified = count_kind(status_lines, ChangeKind::Modified);
    let mut counts: Vec<i32> = Vec::new();
    counts.push(#[verifier::truncate] (added as i32));
    counts.push(#[verifier::truncate] (deleted as i32));
    counts.push(#[verifier::truncate] (modified as i32));
    assert(counts@ =~= counts_of(texts(status_lines@)));
    counts
}

/// The `k`-th of `counts`, 0 where there is none.
pub fn nth_count(counts: &[i32], k: usize) -> (count: i32)
    ensures
        count == count_at(counts@, k as int),
{
    if k < counts.len() {
        counts[k]
    } else {
        0
    }
}

/// Puts what the short summary says of `kind` at the end of `out`.
fn push_short_token(out: &mut Vec<char>, kind: ChangeKind, count: i32)
    ensures
        final(out)@ == old(out)@ + short_token(kind, count as int),
{
    if count > 0 {
        append(out, chars_of(kind.symbol()).as_slice());
        push_decimal(out, count as u64);
        append(out, chars_of(" ").as_slice());
        assert(out@ =~= old(out)@ + short_token(kind, count as int));
    } else {
        assert(out@ =~= old(out)@ + short_token(kind, count as int));
    }
}

/// The short summary: for each of added, deleted and modified whose count
/// is above 0, in this order, its symbol, the count and a space.
pub fn get_status_summary_short(status_counts: &[i32]) -> (summary: String)
    ensures
        summary@ == summary_short_of(status_counts@),
{
    let mut out: Vec<char> = Vec::new();
    push_short_token(&mut out, ChangeKind::Added, nth_count(status_counts, 0));
    push_short_token(&mut out, ChangeKind::Deleted, nth_count(status_counts, 1));
    push_short_token(&mut out, ChangeKind::Modified, nth_count(status_counts, 2));
    assert(out@ =~= summary_short_of(status_counts@));
    string_of(out.as_slice())
}

/// Puts what the long summary says of `kind` at the end of `lines`.
fn push_summary_line(lines: &mut Vec<Vec<char>>, kind: ChangeKind, count: i32)
    ensures
        rows(final(lines)@) == rows(old(lines)@) + summary_lines_for(kind, count as int),
{
    if count > 0 {
        let mut line = chars_of("> ");
        append(&mut line, chars_of(kind.summary_label()).as_slice());
        append(&mut line, chars_of(": ").as_slice());
        push_decimal(&mut line, count as u64);
        lines.push(line);
        assert(rows(lines@) =~= rows(old(lines)@) + summary_lines_for(kind, count as int));
    } else {
        assert(rows(lines@) =~= rows(old(lines)@) + summary_lines_for(kind, count as int));
    }
}

/// The long summary: for each of added, deleted and modified whose count is
/// above 0, in this order, a line with its label and the count.
pub fn get_status_summary(status_counts: &[i32]) -> (summary: String)
    ensures
        summary@ == summary_of(status_counts@),
{
    let mut lines: Vec<Vec<char>> = Vec::new();
    push_summary_line(&mut lines, ChangeKind::Added, nth_count(status_counts, 0));
    push_summary_line(&mut lines, ChangeKind::Deleted, nth_count(status_counts, 1));
    push_summary_line(&mut lines, ChangeKind::Modified, nth_count(status_counts, 2));
    assert(rows(lines@) =~= summary_lines_for(ChangeKind::Added, count_at(status_counts@, 0))
        + summary_lines_for(ChangeKind::Deleted, count_at(status_counts@, 1))
        + summary_lines_for(ChangeKind::Modified, count_at(status_counts@, 2)));
    string_of(join_text(&lines, chars_of("\n").as_slice()).as_slice())
}

/// What is known of the repository's state, as text to show.
pub struct StatusInfo {
    /// The line that names the work tree.
    pub work_tree: String,
    /// The line that names the remote.
    pub remote_url: String,
    /// The line that heads the status.
    pub status: String,
    /// The lines of the status output.
    pub status_lines: Vec<String>,
    /// The counts of added, deleted and modified; empty where the status
    /// output was empty.
    pub entry_type_counts: Vec<i32>,
    /// The changes, in the order of the status output.
    pub status_entries: Vec<StatusEntry>,
    /// The table of the changes.
    pub table: Table,
    /// The long summary.
    pub summary: String,
    /// The short summary.
    pub summary_short: String,
}

impl StatusInfo {
    /// Nothing is known yet: every text and list is empty, and the table
    /// has neither titles nor rows.
    pub open spec fn is_blank(&self) -> bool {
        &&& self.work_tree@.len() == 0
        &&& self.remote_url@.len() == 0
        &&& self.status@.len() == 0
        &&& self.status_lines@.len() == 0
        &&& self.entry_type_counts@.len() == 0
        &&& self.status_entries@.len() == 0
        &&& table_rows(self.table).len() == 0
        &&& table_titles(self.table) is None
        &&& self.summary@.len() == 0
        &&& self.summary_short@.len() == 0
    }

    /// Whether there is a table of changes to show: there is unless the
    /// status output was empty.
    pub fn has_changes(&self) -> (has: bool)
        ensures
            has == (self.entry_type_counts@.len() > 0),
    {
        self.entry_type_counts.len() > 0
    }
}

impl Default for StatusInfo {
    fn default() -> (info: StatusInfo)
        ensures
            info.is_blank(),
    {
        StatusInfo {
            work_tree: String::new(),
            remote_url: String::new(),
            status: String::new(),
            status_lines: Vec::new(),
            entry_type_counts: Vec::new(),
            status_entries: Vec::new(),
            table: Table::new(),
            summary: String::new(),
            summary_short: String::new(),
        }
    }
}

/// The titles of the table of changes.
pub open spec fn status_titles() -> Seq<Seq<char>> {
    seq!["status"@, "path"@]
}

/// The row of the table of changes for `entry`: the label of its kind, and
/// what a cell holds of its path behind a `/`, which is all of it where the
/// path has no line feed.
pub open spec fn entry_row(entry: StatusEntryView) -> Seq<Seq<char>> {
    seq![label_of(entry.kind), kept_text("/"@ + entry.path)]
}

/// The rows of the table of changes for `entries`, one for each.
pub open spec fn entry_rows(entries: Seq<StatusEntryView>) -> Seq<Seq<Seq<char>>> {
    Seq::new(entries.len(), |i: int| entry_row(entries[i]))
}

/// The table can show `entries`: a cell can hold the path of each.
pub open spec fn showable(entries: Seq<StatusEntryView>) -> bool {
    forall|i: int| 0 <= i < entries.len() ==> fits_cell((#[trigger] entries[i]).path)
}

/// The table can show the entries of the status output `status_output`.
pub open spec fn can_show_status(status_output: Seq<char>) -> bool {
    showable(parse(split(trim(status_output), "\n"@)))
}

/// `now` is `before` with `added` at the end of its entries.
pub open spec fn with_entries(before: StatusInfo, added: Seq<StatusEntryView>, now: StatusInfo)
    -> bool {
    &&& entry_views(now.status_entries@) == entry_views(before.status_entries@) + added
    &&& now.work_tree == before.work_tree
    &&& now.remote_url == before.remote_url
    &&& now.status == before.status
    &&& now.status_lines == before.status_lines
    &&& now.entry_type_counts == before.entry_type_counts
    &&& now.table == before.table
    &&& now.summary == before.summary
    &&& now.summary_short == before.summary_short
}

/// None of the styles of this module asks for a span, and a cell can hold
/// each of its titles and labels, and holds it as it is.
proof fn lemma_styles()
    ensures
        !"bFgc"@.contains('H'),
        fits_cell("status"@) && kept_text("status"@) == "status"@,
        fits_cell("path"@) && kept_text("path"@) == "path"@,
        forall|kind: ChangeKind| !(#[trigger] style_of(kind)).contains('H'),
        forall|kind: ChangeKind|
            fits_cell(#[trigger] label_of(kind)) && kept_text(label_of(kind)) == label_of(kind),
{
    reveal_strlit("bFgc");
    reveal_strlit("Fb");
    reveal_strlit("Fr");
    reveal_strlit("Fg");
    reveal_strlit("status");
    reveal_strlit("path");
    reveal_strlit("new file");
    reveal_strlit("deleted");
    reveal_strlit("modified");
    lemma_plain_text_fits("status"@);
    lemma_single_line_is_kept("status"@);
    lemma_plain_text_fits("path"@);
    lemma_single_line_is_kept("path"@);
    lemma_plain_text_fits("new file"@);
    lemma_single_line_is_kept("new file"@);
    lemma_plain_text_fits("deleted"@);
    lemma_single_line_is_kept("deleted"@);
    lemma_plain_text_fits("modified"@);
    lemma_single_line_is_kept("modified"@);
}

/// The lines of `status_output`.
fn status_lines_of(status_output: &str) -> (lines: Vec<String>)
    ensures
        texts(lines@) == split(trim(status_output@), "\n"@),
{
    strings_of(
        &split_text(
            trim_text(chars_of(status_output).as_slice()).as_slice(),
            chars_of("\n").as_slice(),
        ),
    )
}

/// Whether the table can show `entries`.
fn entries_fit(entries: &Vec<StatusEntry>) -> (fit: bool)
    ensures
        fit == showable(entry_views(entries@)),
{
    let ghost views = entry_views(entries@);
    let mut i: usize = 0;
    while i < entries.len()
        invariant
            i <= entries.len(),
            views == entry_views(entries@),
            forall|j: int| 0 <= j < i ==> fits_cell((#[trigger] views[j]).path),
        decreases entries.len() - i,
    {
        assert(views[i as int] == entries@[i as int]@);
        if !text_fits_cell(chars_of(entries[i].path.as_str()).as_slice()) {
            assert(!fits_cell(views[i as int].path));
            return false;
        }
        i += 1;
    }
    true
}

/// The table of the changes that `status_lines` report, one row for each
/// entry, in the order of the lines; the entries are put at the end of
/// those of `status_info`.
///
/// There is no table where a cell cannot hold the path of an entry;
/// `status_info` then stays as it is.
pub fn get_status_table(status_lines: &[String], status_info: &mut StatusInfo) -> (table: Option<
    Table,
>)
    ensures
        table is Some <==> showable(parse(texts(status_lines@))),
        table is None ==> *final(status_info) == *old(status_info),
        table matches Some(table) ==> {
            &&& with_entries(*old(status_info), parse(texts(status_lines@)), *final(status_info))
            &&& table_titles(table) == Some(status_titles())
            &&& table_rows(table) == entry_rows(parse(texts(status_lines@)))
        },
{
    let entries = parse_status(status_lines);
    if !entries_fit(&entries) {
        return None;
    }
    proof {
        lemma_styles();
    }
    let mut table = new_table();
    table.set_titles(row_of_two(styled_cell("status", "bFgc"), styled_cell("path", "bFgc")));
    let ghost parsed = parse(texts(status_lines@));
    let ghost earlier = entry_views(status_info.status_entries@);
    assert(parsed.take(0) =~= Seq::<StatusEntryView>::empty());
    assert(earlier + parsed.take(0) =~= earlier);
    let mut i: usize = 0;
    while i < entries.len()
        invariant
            i <= entries.len(),
            entry_views(entries@) == parsed,
            with_entries(*old(status_info), parsed.take(i as int), *status_info),
            table_titles(table) == Some(status_titles()),
            table_rows(table) == entry_rows(parsed.take(i as int)),
            showable(parsed),
            forall|kind: ChangeKind| !(#[trigger] style_of(kind)).contains('H'),
            forall|kind: ChangeKind|
                fits_cell(#[trigger] label_of(kind)) && kept_text(label_of(kind)) == label_of(
                    kind,
                ),
        decreases entries.len() - i,
    {
        let ghost so_far = entry_views(status_info.status_entries@);
        let ghost rows_so_far = table_rows(table);
        let entry = &entries[i];
        assert(parsed[i as int] == entry@);
        let mut shown = chars_of("/");
        append(&mut shown, chars_of(entry.path.as_str()).as_slice());
        let shown = string_of(shown.as_slice());
        proof {
            reveal_strlit("/");
            assert(fits_cell(parsed[i as int].path));
            lemma_behind_plain_text_fits("/"@, entry.path@);
        }
        let row = row_of_two(
            styled_cell(entry.kind.label(), entry.kind.style()),
            Cell::new(shown.as_str()),
        );
        push_row(&mut table, row);
        status_info.status_entries.push(
            StatusEntry { kind: entry.kind, path: entry.path.clone() },
        );
        proof {
            assert(entry_views(status_info.status_entries@) =~= so_far.push(entry@));
            assert(entry_views(old(status_info).status_entries@) + parsed.take(i + 1)
                =~= so_far.push(entry@));
            assert(table_rows(table) =~= rows_so_far.push(entry_row(entry@)));
            assert(entry_rows(parsed.take(i + 1)) =~= rows_so_far.push(entry_row(entry@)));
        }
        i += 1;
    }
    assert(parsed.take(entries@.len() as int) =~= parsed);
    Some(table)
}

/// The short summary of the status output `status`; none where the output
/// is empty.
pub fn status_summary_short(status: &str) -> (summary: Option<String>)
    ensures
        status@.len() == 0 ==> summary is None,
        status@.len() > 0 ==> summary is Some && summary->0@ == summary_short_of(
            counts_of(split(trim(status@), "\n"@)),
        ),
{
    if status.is_empty() {
        return None;
    }
    let lines = status_lines_of(status);
    let counts = get_status_counts(lines.as_slice());
    Some(get_status_summary_short(counts.as_slice()))
}

/// What is known of the repository's state, from the text that names the
/// remote, the status output and the work tree.
///
/// An empty status output gives the line that says that all is up to date,
/// and neither counts, entries, table nor summaries.
///
/// There is none where a cell of the table cannot hold the path of an
/// entry.
pub fn get_status_info(url: &str, status_output: &str, home: &str) -> (info: Option<StatusInfo>)
    ensures
        info is Some <==> status_output@.len() == 0 || can_show_status(status_output@),
        info matches Some(info) ==> {
            &&& info.work_tree@ == " Work-tree:\t"@ + home@ + "/"@
            &&& info.remote_url@ == " Remote-URL:\t"@ + trim(url@)
            &&& status_output@.len() == 0 ==> {
                &&& info.status@ == " Git status:\tUp to date"@
                &&& info.status_lines@.len() == 0
                &&& info.entry_type_counts@.len() == 0
                &&& info.status_entries@.len() == 0
                &&& table_rows(info.table).len() == 0
                &&& table_titles(info.table) is None
                &&& info.summary@.len() == 0
                &&& info.summary_short@.len() == 0
            }
            &&& status_output@.len() > 0 ==> {
                let lines = split(trim(status_output@), "\n"@);
                &&& info.status@ == " Git status:"@
                &&& texts(info.status_lines@) == lines
                &&& info.entry_type_counts@ == counts_of(lines)
                &&& entry_views(info.status_entries@) == parse(lines)
                &&& table_titles(info.table) == Some(status_titles())
                &&& table_rows(info.table) == entry_rows(parse(lines))
                &&& info.summary@ == summary_of(counts_of(lines))
                &&& info.summary_short@ == summary_short_of(counts_of(lines))
            }
        },
{
    let mut info = StatusInfo::default();
    let mut work_tree = chars_of(" Work-tree:\t");
    append(&mut work_tree, chars_of(home).as_slice());
    append(&mut work_tree, chars_of("/").as_slice());
    info.work_tree = string_of(work_tree.as_slice());
    let mut remote_url = chars_of(" Remote-URL:\t");
    append(&mut remote_url, trim_text(chars_of(url).as_slice()).as_slice());
    info.remote_url = string_of(remote_url.as_slice());
    if status_output.is_empty() {
        info.status = string_of(chars_of(" Git status:\tUp to date").as_slice());
        return Some(info);
    }
    info.status = string_of(chars_of(" Git status:").as_slice());
    let lines = status_lines_of(status_output);
    info.entry_type_counts = get_status_counts(lines.as_slice());
    match get_status_table(lines.as_slice(), &mut info) {
        Some(table) => {
            info.table = table;
        },
        None => {
            return None;
        },
    }
    info.summary = get_status_summary(info.entry_type_counts.as_slice());
    info.summary_short = get_status_summary_short(info.entry_type_counts.as_slice());
    info.status_lines = lines;
    Some(info)
}

} // verus!
