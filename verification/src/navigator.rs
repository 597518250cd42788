//! The navigation of the table of changes: which row is selected, what each
//! key does to the selection, and where on the screen a row is repainted.

use vstd::prelude::*;
use crate::status::{
    entry_views, label_of, ChangeKind, StatusEntry, StatusEntryView, StatusInfo,
};
use crate::text::{append, byte_count, chars_of, count_bytes, string_of};

verus! {

/// The keys that the navigation tells apart.
#[derive(Clone, Copy, Debug, PartialEq, Eq, Structural)]
pub enum Key {
    Tab,
    ArrowDown,
    BackTab,
    ArrowUp,
    Enter,
    /// Any other key.
    Other,
}

/// The way in which the selection moves.
#[derive(Clone, Copy, Debug, PartialEq, Eq, Structural)]
pub enum Direction {
    Next,
    Previous,
}

/// What a key asks for.
#[derive(Clone, Copy, Debug, PartialEq, Eq, Structural)]
pub enum Command {
    Move(Direction),
    Confirm,
    Cancel,
}

/// How to repaint one row of the table: from the saved cursor position,
/// `up` lines up and to `column`, there `text`, highlighted where
/// `selected`; then `gap` columns to the right the marker of a selected row,
/// or a blank in its place.
#[derive(Clone, Debug, PartialEq, Eq)]
pub struct RowPaint {
    pub up: u16,
    pub column: u16,
    pub text: String,
    pub gap: u16,
    pub selected: bool,
}

/// A `RowPaint` with the text of its string.
pub struct RowPaintView {
    pub up: u16,
    pub column: u16,
    pub text: Seq<char>,
    pub gap: u16,
    pub selected: bool,
}

impl View for RowPaint {
    type V = RowPaintView;

    open spec fn view(&self) -> RowPaintView {
        RowPaintView {
            up: self.up,
            column: self.column,
            text: self.text@,
            gap: self.gap,
            selected: self.selected,
        }
    }
}

/// What is to be done after a key.
#[derive(Clone, Debug, PartialEq, Eq)]
pub enum Action {
    /// The selection moved: repaint the two rows.
    Repaint { from: RowPaint, to: RowPaint },
    /// Show the diff of the path, then go on.
    ShowDiff { path: String },
    /// Repaint the row, leave raw mode, show the cursor, and stop.
    Leave { row: RowPaint },
}

/// An `Action` with the views of its fields.
pub enum ActionView {
    Repaint { from: RowPaintView, to: RowPaintView },
    ShowDiff { path: Seq<char> },
    Leave { row: RowPaintView },
}

impl View for Action {
    type V = ActionView;

    open spec fn view(&self) -> ActionView {
        match *self {
            Action::Repaint { from, to } => ActionView::Repaint { from: from@, to: to@ },
            Action::ShowDiff { path } => ActionView::ShowDiff { path: path@ },
            Action::Leave { row } => ActionView::Leave { row: row@ },
        }
    }
}

/// What `key` asks for: tab and arrow down the next row, back tab and arrow
/// up the previous one, enter the diff of the selected row, and any other
/// key the end.
pub open spec fn command_of(key: Key) -> Command {
    match key {
        Key::Tab | Key::ArrowDown => Command::Move(Direction::Next),
        Key::BackTab | Key::ArrowUp => Command::Move(Direction::Previous),
        Key::Enter => Command::Confirm,
        Key::Other => Command::Cancel,
    }
}

/// The step by which `dir` moves the selection.
pub open spec fn step_of(dir: Direction) -> int {
    match dir {
        Direction::Next => 1,
        Direction::Previous => -1,
    }
}

/// The row selected after a move from `index` among `count` rows: one
/// further on, going round at either end.
pub open spec fn moved(index: int, count: int, dir: Direction) -> int {
    (index + step_of(dir)) % count
}

/// The length of the longest label among `entries`; 0 where there is none.
pub open spec fn widest_label(entries: Seq<StatusEntryView>) -> nat
    decreases entries.len(),
{
    if entries.len() == 0 {
        0
    } else {
        let rest = widest_label(entries.drop_last());
        let width = label_of(entries.last().kind).len();
        if width > rest {
            width
        } else {
            rest
        }
    }
}

/// The length in bytes of the longest path among `entries`; 0 where there
/// is none.
pub open spec fn longest_path(entries: Seq<StatusEntryView>) -> nat
    decreases entries.len(),
{
    if entries.len() == 0 {
        0
    } else {
        let rest = longest_path(entries.drop_last());
        let length = byte_count(entries.last().path);
        if length > rest {
            length
        } else {
            rest
        }
    }
}

/// How to repaint the row of the `index`-th of `entries`.
///
/// The rows stand above the cursor, the last of them two lines up. The path
/// begins five columns behind the widest label. The marker stands three
/// columns behind the longest path, the paths measured in bytes. Each of
/// the three numbers is cut to its low 16 bits, the width in which the
/// terminal takes it.
pub open spec fn paint_of(entries: Seq<StatusEntryView>, index: int, select: bool)
    -> RowPaintView {
    RowPaintView {
        up: (entries.len() - index + 1) as u16,
        column: (widest_label(entries) + 5) as u16,
        text: "/"@ + entries[index].path,
        gap: (longest_path(entries) - byte_count(entries[index].path) + 3) as u16,
        selected: select,
    }
}

/// What `key` asks for.
pub fn key_command(key: Key) -> (command: Command)
    ensures
        command == command_of(key),
{
    match key {
        Key::Tab | Key::ArrowDown => Command::Move(Direction::Next),
        Key::BackTab | Key::ArrowUp => Command::Move(Direction::Previous),
        Key::Enter => Command::Confirm,
        Key::Other => Command::Cancel,
    }
}

/// The row selected after a move from `index` among `count` rows.
pub fn next_status_entry(count: usize, index: usize, dir: Direction) -> (next: usize)
    requires
        index < count,
    ensures
        next == moved(index as int, count as int, dir),
        next < count,
{
    proof {
        lemma_moved_in_range(index as int, count as int, dir);
    }
    match dir {
        Direction::Next => {
            if index == count - 1 {
                0
            } else {
                index + 1
            }
        },
        Direction::Previous => {
            if index == 0 {
                count - 1
            } else {
                index - 1
            }
        },
    }
}

/// The length of the label of `kind`.
fn label_width(kind: ChangeKind) -> (width: usize)
    ensures
        width == label_of(kind).len(),
        width <= 8,
{
    proof {
        reveal_strlit("new file");
        reveal_strlit("deleted");
        reveal_strlit("modified");
    }
    match kind {
        ChangeKind::Added => 8,
        ChangeKind::Deleted => 7,
        ChangeKind::Modified => 8,
    }
}

/// How to repaint the row of the `index`-th of `entries`, highlighted where
/// `select`.
pub fn select_status_entry(entries: &[StatusEntry], index: usize, select: bool) -> (paint:
    RowPaint)
    requires
        index < entries.len(),
    ensures
        paint@ == paint_of(entry_views(entries@), index as int, select),
{
    let ghost views = entry_views(entries@);
    let mut widest: usize = 0;
    let mut longest: u128 = 0;
    let mut i: usize = 0;
    while i < entries.len()
        invariant
            i <= entries.len(),
            views == entry_views(entries@),
            widest == widest_label(views.take(i as int)),
            longest == longest_path(views.take(i as int)),
            widest <= 8,
            longest <= 4 * usize::MAX,
            i > index ==> longest >= byte_count(views[index as int].path),
        decreases entries.len() - i,
    {
        proof {
            assert(views.take(i + 1).drop_last() =~= views.take(i as int));
            assert(views.take(i + 1).last() == entries@[i as int]@);
        }
        let width = label_width(entries[i].kind);
        if width > widest {
            widest = width;
        }
        let length = count_bytes(chars_of(entries[i].path.as_str()).as_slice());
        if length > longest {
            longest = length;
        }
        i += 1;
    }
    assert(views.take(entries@.len() as int) =~= views);
    let path = chars_of(entries[index].path.as_str());
    let length = count_bytes(path.as_slice());
    let up: u128 = entries.len() as u128 - index as u128 + 1;
    let column: u128 = widest as u128 + 5;
    let gap: u128 = longest - length + 3;
    let mut text = chars_of("/");
    append(&mut text, path.as_slice());
    RowPaint {
        up: #[verifier::truncate] (up as u16),
        column: #[verifier::truncate] (column as u16),
        text: string_of(text.as_slice()),
        gap: #[verifier::truncate] (gap as u16),
        selected: select,
    }
}

/// The navigation of a table of changes: the entries, the one selected,
/// and the state that the terminal was put in for it. An entry is selected
/// at all times.
pub struct Navigator {
    entries: Vec<StatusEntry>,
    selected: usize,
    raw_mode: bool,
    cursor_hidden: bool,
}

/// What a `Navigator` holds.
pub struct NavigatorView {
    pub entries: Seq<StatusEntryView>,
    pub selected: int,
    pub raw_mode: bool,
    pub cursor_hidden: bool,
}

impl View for Navigator {
    type V = NavigatorView;

    closed spec fn view(&self) -> NavigatorView {
        NavigatorView {
            entries: entry_views(self.entries@),
            selected: self.selected as int,
            raw_mode: self.raw_mode,
            cursor_hidden: self.cursor_hidden,
        }
    }
}

/// The navigation as it begins on `entries`: the first row selected, the
/// terminal in raw mode, the cursor hidden.
pub open spec fn started(entries: Seq<StatusEntryView>) -> NavigatorView {
    NavigatorView { entries, selected: 0, raw_mode: true, cursor_hidden: true }
}

/// The navigation after `key`: a move selects the row next to the selected
/// one, in a round; enter changes nothing; any other key gives the terminal
/// back, out of raw mode and with the cursor shown.
pub open spec fn after_key(state: NavigatorView, key: Key) -> NavigatorView {
    match command_of(key) {
        Command::Move(dir) => NavigatorView {
            selected: moved(state.selected, state.entries.len() as int, dir),
            ..state
        },
        Command::Confirm => state,
        Command::Cancel => NavigatorView { raw_mode: false, cursor_hidden: false, ..state },
    }
}

/// What is to be done after `key`.
pub open spec fn action_of(state: NavigatorView, key: Key) -> ActionView {
    match command_of(key) {
        Command::Move(dir) => ActionView::Repaint {
            from: paint_of(state.entries, state.selected, false),
            to: paint_of(
                state.entries,
                moved(state.selected, state.entries.len() as int, dir),
                true,
            ),
        },
        Command::Confirm => ActionView::ShowDiff { path: state.entries[state.selected].path },
        Command::Cancel => ActionView::Leave {
            row: paint_of(state.entries, state.selected, false),
        },
    }
}

/// The navigation after a failure: as after a key that ends it.
pub open spec fn after_failure(state: NavigatorView) -> NavigatorView {
    after_key(state, Key::Other)
}

/// Whatever the state before it, a key that is none of tab, back tab, the
/// two arrows and enter leaves the terminal out of raw mode and the cursor
/// shown, and so does a failure; the action is to leave.
pub proof fn lemma_other_key_gives_terminal_back(state: NavigatorView, key: Key)
    requires
        key == Key::Other,
    ensures
        !after_key(state, key).raw_mode,
        !after_key(state, key).cursor_hidden,
        action_of(state, key) is Leave,
        after_key(state, key).entries == state.entries,
        after_key(state, key).selected == state.selected,
        !after_failure(state).raw_mode,
        !after_failure(state).cursor_hidden,
{
}

/// A move keeps the selection among the rows: one move on from the last
/// row is the first, and one move back from the first is the last.
pub proof fn lemma_moved_in_range(index: int, count: int, dir: Direction)
    requires
        0 <= index < count,
    ensures
        0 <= moved(index, count, dir) < count,
        dir == Direction::Next ==> moved(index, count, dir) == if index + 1 == count {
            0
        } else {
            index + 1
        },
        dir == Direction::Previous ==> moved(index, count, dir) == if index == 0 {
            count - 1
        } else {
            index - 1
        },
{
    if index + 1 < count {
        assert((index + 1) % count == index + 1) by (nonlinear_arith)
            requires
                0 <= index + 1 < count,
        ;
    } else {
        assert((index + 1) % count == 0) by (nonlinear_arith)
            requires
                index + 1 == count,
                count > 0,
        ;
    }
    if index >= 1 {
        assert((index - 1) % count == index - 1) by (nonlinear_arith)
            requires
                0 <= index - 1 < count,
        ;
    } else {
        assert((index - 1) % count == count - 1) by (nonlinear_arith)
            requires
                index == 0,
                count > 0,
        ;
    }
}

impl Navigator {
    /// One of the entries is selected.
    #[verifier::type_invariant]
    spec fn selects_an_entry(self) -> bool {
        self.selected < self.entries.len()
    }

    /// The number of the selected row, counted from 0.
    pub fn selected(&self) -> (index: usize)
        ensures
            index == self@.selected,
            index < self@.entries.len(),
    {
        proof {
            use_type_invariant(self);
        }
        self.selected
    }

    /// The number of rows.
    pub fn len(&self) -> (count: usize)
        ensures
            count == self@.entries.len(),
            count > 0,
    {
        proof {
            use_type_invariant(self);
        }
        self.entries.len()
    }

    /// Whether the terminal is in raw mode.
    pub fn raw_mode(&self) -> (raw: bool)
        ensures
            raw == self@.raw_mode,
    {
        self.raw_mode
    }

    /// Whether the cursor is hidden.
    pub fn cursor_hidden(&self) -> (hidden: bool)
        ensures
            hidden == self@.cursor_hidden,
    {
        self.cursor_hidden
    }

    /// How to repaint the selected row, highlighted where `select`.
    pub fn paint(&self, select: bool) -> (paint: RowPaint)
        ensures
            paint@ == paint_of(self@.entries, self@.selected, select),
    {
        proof {
            use_type_invariant(self);
        }
        select_status_entry(self.entries.as_slice(), self.selected, select)
    }

    /// Takes `key`: the navigation is then as `after_key` says, and the
    /// action returned is to be done.
    pub fn press(&mut self, key: Key) -> (action: Action)
        ensures
            final(self)@ == after_key(old(self)@, key),
            action@ == action_of(old(self)@, key),
    {
        proof {
            use_type_invariant(&*self);
        }
        match key_command(key) {
            Command::Move(dir) => {
                let from = select_status_entry(self.entries.as_slice(), self.selected, false);
                let next = next_status_entry(self.entries.len(), self.selected, dir);
                self.selected = next;
                let to = select_status_entry(self.entries.as_slice(), self.selected, true);
                Action::Repaint { from, to }
            },
            Command::Confirm => {
                let path = self.entries[self.selected].path.clone();
                Action::ShowDiff { path }
            },
            Command::Cancel => {
                let row = select_status_entry(self.entries.as_slice(), self.selected, false);
                self.raw_mode = false;
                self.cursor_hidden = false;
                Action::Leave { row }
            },
        }
    }

    /// Ends the navigation after a failure: the terminal is given back as
    /// after a key that ends it.
    pub fn fail(&mut self) -> (action: Action)
        ensures
            final(self)@ == after_failure(old(self)@),
            action@ == action_of(old(self)@, Key::Other),
    {
        self.press(Key::Other)
    }
}

/// Begins the navigation of the changes of `status_info`, given `names`,
/// the names of the files with staged changes as git prints them.
///
/// There is nothing to navigate where `names` is empty or `status_info`
/// has no entry. Else the first row is selected, and the terminal is to be
/// put in raw mode with the cursor hidden.
pub fn diff_file_select(names: &str, status_info: &StatusInfo) -> (start: Option<Navigator>)
    ensures
        start is None <==> names@.len() == 0 || status_info.status_entries@.len() == 0,
        start matches Some(navigator) ==> navigator@ == started(
            entry_views(status_info.status_entries@),
        ),
{
    if names.is_empty() || status_info.status_entries.len() == 0 {
        return None;
    }
    let mut entries: Vec<StatusEntry> = Vec::new();
    let mut i: usize = 0;
    while i < status_info.status_entries.len()
        invariant
            i <= status_info.status_entries.len(),
            entry_views(entries@) == entry_views(status_info.status_entries@).take(i as int),
        decreases status_info.status_entries.len() - i,
    {
        let ghost so_far = entry_views(entries@);
        let entry = &status_info.status_entries[i];
        entries.push(StatusEntry { kind: entry.kind, path: entry.path.clone() });
        assert(entry_views(entries@) =~= so_far.push(entry@));
        i += 1;
        assert(entry_views(entries@) =~= entry_views(status_info.status_entries@).take(i as int));
    }
    assert(entry_views(status_info.status_entries@).take(
        status_info.status_entries@.len() as int,
    ) =~= entry_views(status_info.status_entries@));
    Some(Navigator { entries, selected: 0, raw_mode: true, cursor_hidden: true })
}

} // verus!
