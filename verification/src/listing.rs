//! The table of the tracking list: folders and files side by side, each
//! column in the order of the texts.

use vstd::prelude::*;
use vstd::relations::{sorted_by, total_ordering};
use vstd::seq_lib::{lemma_sorted_unique, to_multiset_build, to_multiset_insert};
use prettytable::{Cell, Table};
use crate::table::{
    fits_cell, kept_text, lemma_behind_plain_text_fits, lemma_plain_text_fits,
    lemma_single_line_is_kept, new_table, push_row, row_of_three, styled_cell, table_rows,
    table_titles, text_fits_cell,
};
use crate::text::{
    append, byte_count, chars_of, copy_range, count_bytes, decimal, drop_bytes,
    lemma_decimal_digits, push_decimal, rows, skip_bytes, string_of,
};

verus! {

/// `a` stands before `b`, or is `b`, in the order of texts: that of the
/// first character in which they differ, and the shorter first where one
/// begins the other.
pub open spec fn comes_before(a: Seq<char>, b: Seq<char>) -> bool
    decreases a.len(),
{
    if a.len() == 0 {
        true
    } else if b.len() == 0 {
        false
    } else if a[0] != b[0] {
        (a[0] as int) < (b[0] as int)
    } else {
        comes_before(a.skip(1), b.skip(1))
    }
}

/// The order of texts, as a relation.
pub open spec fn by_text() -> spec_fn(Seq<char>, Seq<char>) -> bool {
    |a: Seq<char>, b: Seq<char>| comes_before(a, b)
}

/// Every text stands before itself.
pub proof fn lemma_comes_before_reflexive(a: Seq<char>)
    ensures
        comes_before(a, a),
    decreases a.len(),
{
    if a.len() > 0 {
        lemma_comes_before_reflexive(a.skip(1));
    }
}

/// Two texts that stand before each other are one.
pub proof fn lemma_comes_before_antisymmetric(a: Seq<char>, b: Seq<char>)
    requires
        comes_before(a, b),
        comes_before(b, a),
    ensures
        a == b,
    decreases a.len(),
{
    if a.len() > 0 && b.len() > 0 {
        lemma_comes_before_antisymmetric(a.skip(1), b.skip(1));
        assert(a =~= seq![a[0]] + a.skip(1));
        assert(b =~= seq![b[0]] + b.skip(1));
    } else {
        assert(a =~= b);
    }
}

/// What stands before a text that stands before a third stands before the
/// third.
pub proof fn lemma_comes_before_transitive(a: Seq<char>, b: Seq<char>, c: Seq<char>)
    requires
        comes_before(a, b),
        comes_before(b, c),
    ensures
        comes_before(a, c),
    decreases a.len(),
{
    if a.len() > 0 && b.len() > 0 && c.len() > 0 && a[0] == b[0] && b[0] == c[0] {
        lemma_comes_before_transitive(a.skip(1), b.skip(1), c.skip(1));
    }
}

/// Of two texts one stands before the other.
pub proof fn lemma_comes_before_connected(a: Seq<char>, b: Seq<char>)
    ensures
        comes_before(a, b) || comes_before(b, a),
    decreases a.len(),
{
    if a.len() > 0 && b.len() > 0 {
        if a[0] == b[0] {
            lemma_comes_before_connected(a.skip(1), b.skip(1));
        }
    }
}

/// The order of texts is a total order.
pub proof fn lemma_by_text_is_total()
    ensures
        total_ordering(by_text()),
{
    let le = by_text();
    assert forall|a: Seq<char>| #[trigger] le(a, a) by {
        lemma_comes_before_reflexive(a);
    }
    assert forall|a: Seq<char>, b: Seq<char>| #[trigger] le(a, b) && #[trigger] le(b, a) implies a
        == b by {
        lemma_comes_before_antisymmetric(a, b);
    }
    assert forall|a: Seq<char>, b: Seq<char>, c: Seq<char>| #[trigger]
        le(a, b) && #[trigger] le(b, c) implies le(a, c) by {
        lemma_comes_before_transitive(a, b, c);
    }
    assert forall|a: Seq<char>, b: Seq<char>| #[trigger] le(a, b) || #[trigger] le(b, a) by {
        lemma_comes_before_connected(a, b);
    }
}

/// Whether `x` stands before `y` in the order of characters, that of
/// their numbers.
fn char_lt(x: char, y: char) -> (lt: bool)
    ensures
        lt == ((x as int) < (y as int)),
{
    (x as u32) < (y as u32)
}

/// Whether `a` stands before `b`, or is `b`, in the order of texts.
pub fn text_le(a: &[char], b: &[char]) -> (le: bool)
    ensures
        le == comes_before(a@, b@),
{
    let mut i: usize = 0;
    assert(a@.skip(0) =~= a@ && b@.skip(0) =~= b@);
    while i < a.len() && i < b.len()
        invariant
            i <= a.len(),
            i <= b.len(),
            comes_before(a@, b@) == comes_before(a@.skip(i as int), b@.skip(i as int)),
        decreases a.len() - i,
    {
        if a[i] != b[i] {
            return char_lt(a[i], b[i]);
        }
        assert(a@.skip(i as int).skip(1) =~= a@.skip(i + 1));
        assert(b@.skip(i as int).skip(1) =~= b@.skip(i + 1));
        i += 1;
    }
    i == a.len()
}

/// The texts of `items` in the order of texts.
pub fn sort_texts(items: &Vec<Vec<char>>) -> (sorted: Vec<Vec<char>>)
    ensures
        rows(sorted@) == rows(items@).sort_by(by_text()),
        forall|text: Seq<char>|
            rows(sorted@).contains(text) ==> #[trigger] rows(items@).contains(text),
{
    let mut sorted: Vec<Vec<char>> = Vec::new();
    let mut i: usize = 0;
    let ghost all = rows(items@);
    proof {
        lemma_by_text_is_total();
        assert(rows(sorted@) =~= all.take(0));
    }
    while i < items.len()
        invariant
            i <= items.len(),
            all == rows(items@),
            total_ordering(by_text()),
            sorted_by(rows(sorted@), by_text()),
            rows(sorted@).to_multiset() == all.take(i as int).to_multiset(),
        decreases items.len() - i,
    {
        let item = copy_range(items[i].as_slice(), 0, items[i].len());
        assert(item@ == all[i as int]) by {
            assert(items@[i as int]@.subrange(0, items@[i as int]@.len() as int) =~= items@[i as int]@);
        }
        let ghost before = rows(sorted@);
        let mut j: usize = 0;
        while j < sorted.len() && text_le(sorted[j].as_slice(), item.as_slice())
            invariant
                j <= sorted.len(),
                before == rows(sorted@),
                forall|k: int| 0 <= k < j ==> comes_before(#[trigger] before[k], item@),
            decreases sorted.len() - j,
        {
            assert(before[j as int] == sorted@[j as int]@);
            j += 1;
        }
        proof {
            if j < sorted.len() {
                assert(before[j as int] == sorted@[j as int]@);
                lemma_comes_before_connected(before[j as int], item@);
            }
        }
        sorted.insert(j, item);
        proof {
            let after = rows(sorted@);
            assert(after =~= before.insert(j as int, item@));
            to_multiset_insert(before, j as int, item@);
            assert(all.take(i + 1) =~= all.take(i as int).push(all[i as int]));
            to_multiset_build(all.take(i as int), all[i as int]);
            let le = by_text();
            assert forall|x: int, y: int| 0 <= x < y < after.len() implies #[trigger] le(
                after[x],
                after[y],
            ) by {
                if y < j {
                    assert(le(before[x], before[y]));
                } else if y == j {
                    assert(comes_before(before[x], item@));
                } else if x == j {
                    assert(after[y] == before[y - 1]);
                    if y - 1 > j {
                        assert(le(before[j as int], before[y - 1]));
                        lemma_comes_before_transitive(item@, before[j as int], before[y - 1]);
                    }
                } else if x < j {
                    assert(after[y] == before[y - 1]);
                    assert(le(before[x], before[y - 1]));
                } else {
                    assert(after[x] == before[x - 1] && after[y] == before[y - 1]);
                    assert(le(before[x - 1], before[y - 1]));
                }
            }
        }
        i += 1;
    }
    proof {
        assert(all.take(items@.len() as int) =~= all);
        all.lemma_sort_by_ensures(by_text());
        lemma_sorted_unique(rows(sorted@), all.sort_by(by_text()), by_text());
        assert forall|text: Seq<char>| rows(sorted@).contains(text) implies #[trigger] all.contains(
            text,
        ) by {
            if !all.contains(text) {
                assert(!all.sort_by(by_text()).contains(text));
            }
        }
    }
    sorted
}

/// `path` as the table shows it: without the bytes of `home` and of the
/// separator behind it in front. None where `path` has no such bytes.
pub open spec fn relative_to(path: Seq<char>, home: Seq<char>) -> Option<Seq<char>> {
    skip_bytes(path, byte_count(home) + 1)
}

/// `path` can be shown: it can be cut, and a cell can hold what is left of
/// it.
pub open spec fn can_list(path: Seq<char>, home: Seq<char>) -> bool {
    relative_to(path, home) is Some && fits_cell(relative_to(path, home)->0)
}

/// Every path of `entries` can be shown.
pub open spec fn listable(entries: Seq<(String, bool)>, home: Seq<char>) -> bool {
    forall|i: int| 0 <= i < entries.len() ==> can_list((#[trigger] entries[i]).0@, home)
}

/// What the table shows of an entry in the column of the folders, where
/// `folders`, or in that of the files.
pub open spec fn shown_in(home: Seq<char>, folders: bool) -> spec_fn((String, bool)) -> Option<
    Seq<char>,
> {
    |entry: (String, bool)|
        if entry.1 == folders {
            Some(relative_to(entry.0@, home)->0)
        } else {
            None
        }
}

/// The column of the folders, where `folders`, or of the files: the paths
/// of `entries` that are of that kind, as the table shows them, in the
/// order of texts.
pub open spec fn column(entries: Seq<(String, bool)>, home: Seq<char>, folders: bool) -> Seq<
    Seq<char>,
> {
    entries.filter_map(shown_in(home, folders)).sort_by(by_text())
}

/// The `i`-th text of a column, after a space and a `/`; empty where the
/// column is shorter.
pub open spec fn shown(names: Seq<Seq<char>>, i: int) -> Seq<char> {
    if 0 <= i < names.len() {
        " /"@ + names[i]
    } else {
        Seq::empty()
    }
}

/// The titles of the table of the tracking list.
pub open spec fn listing_titles() -> Seq<Seq<char>> {
    seq!["#"@, "folders"@, "files"@]
}

/// The rows of the table of the tracking list: as many as the longer
/// column has texts, each with its number, counted from 1, a folder and a
/// file.
pub open spec fn listing_rows(folders: Seq<Seq<char>>, files: Seq<Seq<char>>) -> Seq<
    Seq<Seq<char>>,
> {
    Seq::new(
        if folders.len() > files.len() {
            folders.len()
        } else {
            files.len()
        },
        |i: int|
            seq![
                decimal((i + 1) as nat),
                kept_text(shown(folders, i)),
                kept_text(shown(files, i)),
            ],
    )
}

/// None of the styles of this module asks for a span, and a cell can hold
/// each of its titles, and holds it as it is.
proof fn lemma_styles()
    ensures
        !"bFgr"@.contains('H'),
        !"bFgc"@.contains('H'),
        !"Fb"@.contains('H'),
        fits_cell("#"@) && kept_text("#"@) == "#"@,
        fits_cell("folders"@) && kept_text("folders"@) == "folders"@,
        fits_cell("files"@) && kept_text("files"@) == "files"@,
{
    reveal_strlit("bFgr");
    reveal_strlit("bFgc");
    reveal_strlit("Fb");
    reveal_strlit("#");
    reveal_strlit("folders");
    reveal_strlit("files");
    lemma_plain_text_fits("#"@);
    lemma_single_line_is_kept("#"@);
    lemma_plain_text_fits("folders"@);
    lemma_single_line_is_kept("folders"@);
    lemma_plain_text_fits("files"@);
    lemma_single_line_is_kept("files"@);
}

/// A cell can hold every number, and holds it as it is.
proof fn lemma_number_fits_cell(n: nat)
    ensures
        fits_cell(decimal(n)),
        kept_text(decimal(n)) == decimal(n),
{
    assert forall|i: int| 0 <= i < decimal(n).len() implies '0' <= #[trigger] decimal(n)[i]
        <= '9' by {
        lemma_decimal_digits(n, i);
    }
    lemma_plain_text_fits(decimal(n));
    lemma_single_line_is_kept(decimal(n));
}

/// A cell can hold every text of `names`.
spec fn all_fit(names: Seq<Seq<char>>) -> bool {
    forall|i: int| 0 <= i < names.len() ==> fits_cell(#[trigger] names[i])
}

/// The `i`-th text of a column, after a space and a `/`.
fn shown_text(names: &Vec<Vec<char>>, i: usize) -> (text: String)
    requires
        all_fit(rows(names@)),
    ensures
        text@ == shown(rows(names@), i as int),
        fits_cell(text@),
{
    if i < names.len() {
        let mut text = chars_of(" /");
        append(&mut text, names[i].as_slice());
        proof {
            reveal_strlit(" /");
            assert(fits_cell(rows(names@)[i as int]));
            lemma_behind_plain_text_fits(" /"@, names@[i as int]@);
        }
        string_of(text.as_slice())
    } else {
        proof {
            lemma_plain_text_fits(Seq::empty());
        }
        String::new()
    }
}

/// The table of the tracking list. `entries` holds its paths, each with
/// whether it is a folder; `home` is the work tree, which the paths
/// lie in.
///
/// There is no table where a path has fewer bytes than `home` and a
/// separator, or would be cut inside a character, or has behind the cut
/// what no cell can hold.
pub fn tracking_list_table(entries: &Vec<(String, bool)>, home: &str) -> (table: Option<Table>)
    ensures
        table is Some <==> listable(entries@, home@),
        table matches Some(table) ==> {
            &&& table_titles(table) == Some(listing_titles())
            &&& table_rows(table) == listing_rows(
                column(entries@, home@, true),
                column(entries@, home@, false),
            )
        },
{
    let cut: u128 = count_bytes(chars_of(home).as_slice()) + 1;
    let mut folders: Vec<Vec<char>> = Vec::new();
    let mut files: Vec<Vec<char>> = Vec::new();
    let mut i: usize = 0;
    while i < entries.len()
        invariant
            i <= entries.len(),
            cut == byte_count(home@) + 1,
            forall|j: int| 0 <= j < i ==> can_list((#[trigger] entries@[j]).0@, home@),
            rows(folders@) == entries@.take(i as int).filter_map(shown_in(home@, true)),
            rows(files@) == entries@.take(i as int).filter_map(shown_in(home@, false)),
            all_fit(rows(folders@)),
            all_fit(rows(files@)),
        decreases entries.len() - i,
    {
        let ghost folders_so_far = rows(folders@);
        let ghost files_so_far = rows(files@);
        proof {
            entries@.lemma_filter_map_take_succ(shown_in(home@, true), i as int);
            entries@.lemma_filter_map_take_succ(shown_in(home@, false), i as int);
        }
        match drop_bytes(chars_of(entries[i].0.as_str()).as_slice(), cut) {
            Some(relative) => {
                if !text_fits_cell(relative.as_slice()) {
                    return None;
                }
                if entries[i].1 {
                    folders.push(relative);
                    assert(rows(folders@) =~= folders_so_far + seq![relative@]);
                    assert(rows(files@) =~= files_so_far + Seq::<Seq<char>>::empty());
                } else {
                    files.push(relative);
                    assert(rows(files@) =~= files_so_far + seq![relative@]);
                    assert(rows(folders@) =~= folders_so_far + Seq::<Seq<char>>::empty());
                }
            },
            None => {
                return None;
            },
        }
        i += 1;
    }
    assert(entries@.take(entries@.len() as int) =~= entries@);
    let ghost unsorted_folders = rows(folders@);
    let ghost unsorted_files = rows(files@);
    let folders = sort_texts(&folders);
    let files = sort_texts(&files);
    proof {
        lemma_styles();
        assert forall|j: int| 0 <= j < rows(folders@).len() implies fits_cell(
            #[trigger] rows(folders@)[j],
        ) by {
            assert(rows(folders@).contains(rows(folders@)[j]));
            assert(unsorted_folders.contains(rows(folders@)[j]));
        }
        assert forall|j: int| 0 <= j < rows(files@).len() implies fits_cell(
            #[trigger] rows(files@)[j],
        ) by {
            assert(rows(files@).contains(rows(files@)[j]));
            assert(unsorted_files.contains(rows(files@)[j]));
        }
    }
    let mut table = new_table();
    table.set_titles(
        row_of_three(
            styled_cell("#", "bFgr"),
            styled_cell("folders", "bFgc"),
            styled_cell("files", "bFgc"),
        ),
    );
    let count = if folders.len() > files.len() {
        folders.len()
    } else {
        files.len()
    };
    let ghost all = listing_rows(rows(folders@), rows(files@));
    let mut k: usize = 0;
    while k < count
        invariant
            k <= count,
            count == all.len(),
            all == listing_rows(rows(folders@), rows(files@)),
            table_titles(table) == Some(listing_titles()),
            table_rows(table) == all.take(k as int),
            all_fit(rows(folders@)),
            all_fit(rows(files@)),
            !"bFgr"@.contains('H'),
            !"Fb"@.contains('H'),
        decreases count - k,
    {
        let ghost so_far = table_rows(table);
        let mut number: Vec<char> = Vec::new();
        push_decimal(&mut number, (k + 1) as u64);
        assert(number@ =~= decimal((k + 1) as nat));
        proof {
            lemma_number_fits_cell((k + 1) as nat);
        }
        let number = string_of(number.as_slice());
        let folder = shown_text(&folders, k);
        let file = shown_text(&files, k);
        let row = row_of_three(
            styled_cell(number.as_str(), "bFgr"),
            styled_cell(folder.as_str(), "Fb"),
            Cell::new(file.as_str()),
        );
        push_row(&mut table, row);
        assert(table_rows(table) =~= so_far.push(all[k as int]));
        k += 1;
        assert(table_rows(table) =~= all.take(k as int));
    }
    assert(all.take(count as int) =~= all);
    Some(table)
}

} // verus!
