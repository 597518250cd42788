//! The tracking list: the paths whose changes are staged, kept so that no
//! entry lies under another, and the record that stores them, one path to a
//! line.

use vstd::prelude::*;
use crate::report::{Error, ErrorView, Missing};
use crate::text::{
    append, chars_of, contains, is_contained, is_whitespace, join, join_text, lemma_split_join,
    occurs_at, rows_of, same_text, split, split_text, string_of, strings_of, texts, trim,
    trim_end, trim_end_char, trim_end_char_text, trim_start, trim_text,
};

verus! {

/// The paths that `record` lists: its lines, white space at either end of
/// the record aside. A record of nothing but white space lists no path.
pub open spec fn load(record: Seq<char>) -> Seq<Seq<char>> {
    if trim(record).len() == 0 {
        Seq::empty()
    } else {
        split(trim(record), "\n"@)
    }
}

/// `path` as the list holds it: without the separators at its end.
pub open spec fn normal(path: Seq<char>) -> Seq<char> {
    trim_end_char(path, '/')
}

/// `path` ends in no separator.
pub open spec fn is_normal(path: Seq<char>) -> bool {
    path.len() == 0 || path.last() != '/'
}

/// Every entry of `paths` ends in no separator.
pub open spec fn all_normal(paths: Seq<Seq<char>>) -> bool {
    forall|i: int| 0 <= i < paths.len() ==> is_normal(#[trigger] paths[i])
}

/// A path as the list holds it ends in no separator, and a path that ends
/// in none is held as it is.
pub proof fn lemma_normal(path: Seq<char>)
    ensures
        is_normal(normal(path)),
        is_normal(path) ==> normal(path) == path,
    decreases path.len(),
{
    if path.len() > 0 && path.last() == '/' {
        lemma_normal(path.drop_last());
    }
}

/// The record that lists `paths`: one to a line, no line end behind the
/// last.
pub open spec fn record_of(paths: Seq<Seq<char>>) -> Seq<char> {
    join(paths, "\n"@)
}

/// No entry of `paths` stands in another: none is listed twice, and none
/// lies under another.
pub open spec fn no_overlap(paths: Seq<Seq<char>>) -> bool {
    forall|i: int, j: int|
        0 <= i < paths.len() && 0 <= j < paths.len() && i != j ==> !contains(
            #[trigger] paths[i],
            #[trigger] paths[j],
        )
}

/// `path` lies at or under some entry of `paths`.
pub open spec fn blocked(paths: Seq<Seq<char>>, path: Seq<char>) -> bool {
    exists|i: int| 0 <= i < paths.len() && contains(path, #[trigger] paths[i])
}

/// The `i`-th entry is the first that `path` lies at or under.
pub open spec fn is_blocker(paths: Seq<Seq<char>>, path: Seq<char>, i: int) -> bool {
    &&& 0 <= i < paths.len()
    &&& contains(path, paths[i])
    &&& forall|j: int| 0 <= j < i ==> !contains(path, #[trigger] paths[j])
}

/// The first entry that `path` lies at or under.
pub open spec fn blocker(paths: Seq<Seq<char>>, path: Seq<char>) -> Seq<char> {
    paths[choose|i: int| is_blocker(paths, path, i)]
}

/// Whether an entry stays when `path` comes in: it does unless it lies at
/// or under `path`.
pub open spec fn outside_of(path: Seq<char>) -> spec_fn(Seq<char>) -> bool {
    |entry: Seq<char>| !contains(entry, path)
}

/// Whether an entry stays when `path` goes: it does unless it is `path`.
pub open spec fn other_than(path: Seq<char>) -> spec_fn(Seq<char>) -> bool {
    |entry: Seq<char>| entry != path
}

/// What adding `path` to `paths` gives: the error where `path` lies at or
/// under an entry, going by the first such; else the list without the
/// entries under `path`, with `path` at its end.
pub open spec fn add_outcome(paths: Seq<Seq<char>>, path: Seq<char>) -> Result<
    Seq<Seq<char>>,
    ErrorView,
> {
    if blocked(paths, path) {
        if blocker(paths, path) == path {
            Err(ErrorView::AlreadyTracked)
        } else {
            Err(ErrorView::Conflict { ancestor: blocker(paths, path) })
        }
    } else {
        Ok(paths.filter(outside_of(path)).push(path))
    }
}

/// What removing `path` from `paths` gives: the list without it where it
/// is an entry, else the error.
pub open spec fn remove_outcome(paths: Seq<Seq<char>>, path: Seq<char>) -> Result<
    Seq<Seq<char>>,
    ErrorView,
> {
    if paths.contains(path) {
        Ok(paths.filter(other_than(path)))
    } else {
        Err(ErrorView::NotFound(Missing::InTrackingList))
    }
}

/// The first entry found to stand in `path` is the blocker.
pub proof fn lemma_blocker_is(paths: Seq<Seq<char>>, path: Seq<char>, i: int)
    requires
        is_blocker(paths, path, i),
    ensures
        blocked(paths, path),
        blocker(paths, path) == paths[i],
{
    let k = choose|k: int| is_blocker(paths, path, k);
    assert(is_blocker(paths, path, k));
    if k < i {
        assert(!contains(path, paths[k]));
    }
    if i < k {
        assert(!contains(path, paths[i]));
    }
}

/// Every text stands in itself.
pub proof fn lemma_contains_self(text: Seq<char>)
    ensures
        contains(text, text),
{
    assert(text.subrange(0, text.len() as int) =~= text);
    assert(occurs_at(text, text, 0));
}

/// What is kept of a list without overlap has none.
pub proof fn lemma_filter_no_overlap(paths: Seq<Seq<char>>, keep: spec_fn(Seq<char>) -> bool)
    requires
        no_overlap(paths),
    ensures
        no_overlap(paths.filter(keep)),
        forall|i: int|
            0 <= i < paths.filter(keep).len() ==> paths.contains(#[trigger] paths.filter(keep)[i]),
    decreases paths.len(),
{
    reveal(Seq::filter);
    let kept = paths.filter(keep);
    if paths.len() > 0 {
        let front = paths.drop_last();
        assert forall|i: int, j: int|
            0 <= i < front.len() && 0 <= j < front.len() && i != j implies !contains(
            #[trigger] front[i],
            #[trigger] front[j],
        ) by {
            assert(front[i] == paths[i] && front[j] == paths[j]);
        }
        lemma_filter_no_overlap(front, keep);
        let inner = front.filter(keep);
        assert forall|i: int| 0 <= i < inner.len() implies paths.contains(
            #[trigger] inner[i],
        ) && inner[i] != paths.last() && !contains(inner[i], paths.last()) && !contains(
            paths.last(),
            inner[i],
        ) by {
            assert(front.contains(inner[i]));
            let m = choose|m: int| 0 <= m < front.len() && front[m] == inner[i];
            assert(paths[m] == inner[i]);
            assert(!contains(paths[m], paths[paths.len() - 1]));
            assert(!contains(paths[paths.len() - 1], paths[m]));
            if inner[i] == paths.last() {
                lemma_contains_self(inner[i]);
            }
        }
        assert forall|i: int| 0 <= i < kept.len() implies paths.contains(#[trigger] kept[i]) by {
            if i < inner.len() {
                assert(kept[i] == inner[i]);
            } else {
                assert(kept[i] == paths[paths.len() - 1]);
            }
        }
        assert forall|i: int, j: int|
            0 <= i < kept.len() && 0 <= j < kept.len() && i != j implies !contains(
            #[trigger] kept[i],
            #[trigger] kept[j],
        ) by {
            if i < inner.len() && j < inner.len() {
                assert(kept[i] == inner[i] && kept[j] == inner[j]);
            } else if i < inner.len() {
                assert(kept[i] == inner[i]);
            } else {
                assert(kept[j] == inner[j]);
            }
        }
    }
}

/// Of two entries that stay, the one that stood first still stands first:
/// adding and removing leave the entries they do not touch in their order.
pub proof fn lemma_kept_in_order(
    paths: Seq<Seq<char>>,
    keep: spec_fn(Seq<char>) -> bool,
    i: int,
    j: int,
)
    requires
        0 <= i < j < paths.len(),
        keep(paths[i]),
        keep(paths[j]),
    ensures
        exists|a: int, b: int|
            0 <= a < b < paths.filter(keep).len() && #[trigger] paths.filter(keep)[a] == paths[i]
                && #[trigger] paths.filter(keep)[b] == paths[j],
    decreases paths.len(),
{
    reveal(Seq::filter);
    let kept = paths.filter(keep);
    let front = paths.drop_last();
    let inner = front.filter(keep);
    if j == paths.len() - 1 {
        assert(kept == inner.push(paths[j]));
        front.lemma_filter_contains(keep, i);
        let a = choose|a: int| 0 <= a < inner.len() && inner[a] == front[i];
        let b = inner.len() as int;
        assert(kept[a] == paths[i] && kept[b] == paths[j]);
    } else {
        assert(front[i] == paths[i] && front[j] == paths[j]);
        lemma_kept_in_order(front, keep, i, j);
        let (a, b) = choose|a: int, b: int|
            0 <= a < b < inner.len() && #[trigger] inner[a] == front[i] && #[trigger] inner[b]
                == front[j];
        assert(kept[a] == paths[i] && kept[b] == paths[j]);
    }
}

/// Adding a path keeps the list free of overlap.
pub proof fn lemma_add_keeps_no_overlap(paths: Seq<Seq<char>>, path: Seq<char>)
    requires
        no_overlap(paths),
        add_outcome(paths, path) is Ok,
    ensures
        no_overlap(add_outcome(paths, path)->Ok_0),
{
    let kept = paths.filter(outside_of(path));
    let after = kept.push(path);
    lemma_filter_no_overlap(paths, outside_of(path));
    assert forall|i: int, j: int|
        0 <= i < after.len() && 0 <= j < after.len() && i != j implies !contains(
        #[trigger] after[i],
        #[trigger] after[j],
    ) by {
        if i < kept.len() && j < kept.len() {
            assert(after[i] == kept[i] && after[j] == kept[j]);
        } else if i < kept.len() {
            paths.lemma_filter_pred(outside_of(path), i);
        } else {
            assert(after[j] == kept[j]);
            assert(paths.contains(kept[j]));
            let m = choose|m: int| 0 <= m < paths.len() && paths[m] == kept[j];
            assert(!contains(path, paths[m]));
        }
    }
}

/// Removing a path keeps the list free of overlap.
pub proof fn lemma_remove_keeps_no_overlap(paths: Seq<Seq<char>>, path: Seq<char>)
    requires
        no_overlap(paths),
    ensures
        no_overlap(paths.filter(other_than(path))),
{
    lemma_filter_no_overlap(paths, other_than(path));
}

/// `path` lies under `entry`: `entry` stands in it, and is not all of it.
pub open spec fn lies_under(path: Seq<char>, entry: Seq<char>) -> bool {
    path != entry && contains(path, entry)
}

/// A path is added if and only if it is no entry and lies under none. It
/// then stands at the end of the list, and of the old entries those stay, in
/// their order, that do not lie at or under it.
///
/// Of a path that no entry lies under this says: it is added if and only if
/// it is no entry, lies under none, and none lies under it.
pub proof fn lemma_add_succeeds_iff(paths: Seq<Seq<char>>, path: Seq<char>)
    ensures
        add_outcome(paths, path) is Ok <==> (forall|i: int|
            0 <= i < paths.len() ==> #[trigger] paths[i] != path && !lies_under(path, paths[i])),
        (forall|i: int| 0 <= i < paths.len() ==> !lies_under(#[trigger] paths[i], path)) ==> (
        add_outcome(paths, path) is Ok <==> (forall|i: int|
            0 <= i < paths.len() ==> #[trigger] paths[i] != path && !lies_under(path, paths[i])
                && !lies_under(paths[i], path))),
        add_outcome(paths, path) matches Ok(after) ==> {
            &&& after.len() >= 1
            &&& after.last() == path
            &&& after.drop_last() == paths.filter(outside_of(path))
            &&& forall|i: int|
                0 <= i < paths.len() ==> (after.drop_last().contains(#[trigger] paths[i])
                    <==> !contains(paths[i], path))
        },
{
    if blocked(paths, path) {
        let i = choose|i: int| 0 <= i < paths.len() && contains(path, #[trigger] paths[i]);
        assert(paths[i] == path || lies_under(path, paths[i]));
    } else {
        assert forall|i: int| 0 <= i < paths.len() implies #[trigger] paths[i] != path
            && !lies_under(path, paths[i]) by {
            assert(!contains(path, paths[i]));
            lemma_contains_self(path);
        }
        let kept = paths.filter(outside_of(path));
        let after = kept.push(path);
        assert(after.drop_last() =~= kept);
        assert forall|i: int| 0 <= i < paths.len() implies (kept.contains(#[trigger] paths[i])
            <==> !contains(paths[i], path)) by {
            if !contains(paths[i], path) {
                paths.lemma_filter_contains(outside_of(path), i);
            }
            if kept.contains(paths[i]) {
                let k = choose|k: int| 0 <= k < kept.len() && kept[k] == paths[i];
                paths.lemma_filter_pred(outside_of(path), k);
            }
        }
    }
}

/// A path is removed if and only if it is an entry; the entries that stay
/// are those that differ from it, in their order.
pub proof fn lemma_remove_succeeds_iff(paths: Seq<Seq<char>>, path: Seq<char>)
    ensures
        remove_outcome(paths, path) is Ok <==> paths.contains(path),
        remove_outcome(paths, path) matches Ok(after) ==> {
            &&& after == paths.filter(other_than(path))
            &&& !after.contains(path)
            &&& forall|i: int|
                0 <= i < paths.len() && #[trigger] paths[i] != path ==> after.contains(paths[i])
        },
{
    let after = paths.filter(other_than(path));
    if after.contains(path) {
        let k = choose|k: int| 0 <= k < after.len() && after[k] == path;
        paths.lemma_filter_pred(other_than(path), k);
    }
    assert forall|i: int| 0 <= i < paths.len() && #[trigger] paths[i] != path implies after.contains(
        paths[i],
    ) by {
        paths.lemma_filter_contains(other_than(path), i);
    }
}

/// The lists that a record gives back as they are: no path has a line end
/// in it, and the record of a list with a path in it is not empty and has
/// no white space at either end.
pub open spec fn storable(paths: Seq<Seq<char>>) -> bool {
    &&& forall|i: int| 0 <= i < paths.len() ==> !(#[trigger] paths[i]).contains('\n')
    &&& paths.len() > 0 ==> record_of(paths).len() > 0 && !is_whitespace(record_of(paths).first())
        && !is_whitespace(record_of(paths).last())
}

/// Loading the record of a storable list gives the list, every path in its
/// place.
pub proof fn lemma_load_record(paths: Seq<Seq<char>>)
    requires
        storable(paths),
    ensures
        load(record_of(paths)) == paths,
{
    let record = record_of(paths);
    if paths.len() > 0 {
        reveal_strlit("\n");
        assert("\n"@ =~= seq!['\n']);
        assert(trim_start(record) == record);
        assert(trim_end(record) == record);
        lemma_split_join(paths, '\n');
    } else {
        assert(record.len() == 0);
        assert(trim_start(record) == record);
        assert(trim_end(record) == record);
        assert(load(record) =~= paths);
    }
}

/// A path that a record can hold in any place: not empty, without a line
/// end in it, and without white space at either end.
pub open spec fn plain(path: Seq<char>) -> bool {
    &&& path.len() > 0
    &&& !path.contains('\n')
    &&& !is_whitespace(path.first())
    &&& !is_whitespace(path.last())
}

/// Every entry of `paths` is plain.
pub open spec fn all_plain(paths: Seq<Seq<char>>) -> bool {
    forall|i: int| 0 <= i < paths.len() ==> plain(#[trigger] paths[i])
}

/// The record of plain paths ends as the last of them ends.
proof fn lemma_record_end(paths: Seq<Seq<char>>)
    requires
        paths.len() >= 1,
        all_plain(paths),
    ensures
        record_of(paths).len() > 0,
        record_of(paths).last() == paths.last().last(),
    decreases paths.len(),
{
    if paths.len() > 1 {
        let rest = paths.skip(1);
        assert forall|i: int| 0 <= i < rest.len() implies plain(#[trigger] rest[i]) by {
            assert(rest[i] == paths[i + 1]);
        }
        lemma_record_end(rest);
        assert(rest.last() == paths.last());
    }
}

/// A list of plain paths is storable.
pub proof fn lemma_plain_paths_are_storable(paths: Seq<Seq<char>>)
    requires
        all_plain(paths),
    ensures
        storable(paths),
{
    if paths.len() > 0 {
        lemma_record_end(paths);
        assert(plain(paths[0]));
        assert(record_of(paths).first() == paths[0].first());
    }
}

/// After a plain path was added to a list of plain paths, loading the
/// record of the list gives the list.
pub proof fn lemma_load_after_add(paths: Seq<Seq<char>>, path: Seq<char>)
    requires
        all_plain(paths),
        plain(path),
        add_outcome(paths, path) is Ok,
    ensures
        all_plain(add_outcome(paths, path)->Ok_0),
        load(record_of(add_outcome(paths, path)->Ok_0)) == add_outcome(paths, path)->Ok_0,
{
    let kept = paths.filter(outside_of(path));
    let after = kept.push(path);
    lemma_kept_are_plain(paths, outside_of(path));
    assert forall|i: int| 0 <= i < after.len() implies plain(#[trigger] after[i]) by {
        if i < kept.len() {
            assert(after[i] == kept[i]);
        }
    }
    lemma_plain_paths_are_storable(after);
    lemma_load_record(after);
}

/// After a path was removed from a list of plain paths, loading the record
/// of the list gives the list; where no path is left, it gives none.
pub proof fn lemma_load_after_remove(paths: Seq<Seq<char>>, path: Seq<char>)
    requires
        all_plain(paths),
        remove_outcome(paths, path) is Ok,
    ensures
        all_plain(remove_outcome(paths, path)->Ok_0),
        load(record_of(remove_outcome(paths, path)->Ok_0)) == remove_outcome(paths, path)->Ok_0,
{
    let after = paths.filter(other_than(path));
    lemma_kept_are_plain(paths, other_than(path));
    lemma_plain_paths_are_storable(after);
    lemma_load_record(after);
}

/// The record of no path is empty, and the empty record lists no path.
pub proof fn lemma_load_empty()
    ensures
        record_of(Seq::empty()) == Seq::<char>::empty(),
        load(Seq::empty()) == Seq::<Seq<char>>::empty(),
{
    lemma_load_record(Seq::empty());
}

/// What is kept of a list of paths that end in no separator ends in none.
proof fn lemma_kept_are_normal(paths: Seq<Seq<char>>, keep: spec_fn(Seq<char>) -> bool)
    requires
        all_normal(paths),
    ensures
        all_normal(paths.filter(keep)),
{
    let kept = paths.filter(keep);
    assert forall|i: int| 0 <= i < kept.len() implies is_normal(#[trigger] kept[i]) by {
        paths.lemma_filter_contains_rev(keep, kept[i]);
        let m = choose|m: int| 0 <= m < paths.len() && paths[m] == kept[i];
        assert(is_normal(paths[m]));
    }
}

/// What is kept of a list of plain paths is plain.
proof fn lemma_kept_are_plain(paths: Seq<Seq<char>>, keep: spec_fn(Seq<char>) -> bool)
    requires
        all_plain(paths),
    ensures
        all_plain(paths.filter(keep)),
{
    let kept = paths.filter(keep);
    assert forall|i: int| 0 <= i < kept.len() implies plain(#[trigger] kept[i]) by {
        paths.lemma_filter_contains_rev(keep, kept[i]);
        let m = choose|m: int| 0 <= m < paths.len() && paths[m] == kept[i];
        assert(plain(paths[m]));
    }
}

/// The paths that `read`, the text of the record, lists.
pub fn file_to_vec(read: &str) -> (paths: Vec<String>)
    ensures
        texts(paths@) == load(read@),
{
    let trimmed = trim_text(chars_of(read).as_slice());
    if trimmed.len() == 0 {
        let paths: Vec<String> = Vec::new();
        assert(texts(paths@) =~= load(read@));
        return paths;
    }
    let lines = split_text(trimmed.as_slice(), chars_of("\n").as_slice());
    strings_of(&lines)
}

/// The text of the record that lists `paths`.
pub fn record_text(paths: &Vec<String>) -> (record: String)
    ensures
        record@ == record_of(texts(paths@)),
{
    let lines = rows_of(paths.as_slice());
    string_of(join_text(&lines, chars_of("\n").as_slice()).as_slice())
}

/// `path` as the list holds it, which is also the path whose existence
/// decides whether `path` can be tracked.
pub fn existence_probe(path: &String) -> (probe: String)
    ensures
        probe@ == normal(path@),
{
    string_of(trim_end_char_text(chars_of(path.as_str()).as_slice(), '/').as_slice())
}

/// Adds `path` to the list, without the separators at its end.
///
/// Where the path is an entry already, or lies under one, the list stays
/// as it is and the error says which; the ancestor named is the first entry
/// that the path lies under. Else the entries under the path leave the list
/// and the path is put at its end.
pub fn add_to_tracking_list(paths: &mut Vec<String>, path: &String) -> (result: Result<(), Error>)
    ensures
        match add_outcome(texts(old(paths)@), normal(path@)) {
            Ok(after) => result is Ok && texts(final(paths)@) == after,
            Err(error) => result is Err && result->Err_0@ == error && final(paths)@ == old(
                paths,
            )@,
        },
        no_overlap(texts(old(paths)@)) ==> no_overlap(texts(final(paths)@)),
        all_normal(texts(old(paths)@)) ==> all_normal(texts(final(paths)@)),
{
    let stored = existence_probe(path);
    let wanted = chars_of(stored.as_str());
    let ghost before = texts(paths@);
    let mut i: usize = 0;
    while i < paths.len()
        invariant
            i <= paths.len(),
            paths@ == old(paths)@,
            before == texts(paths@),
            wanted@ == normal(path@),
            forall|j: int| 0 <= j < i ==> !contains(wanted@, #[trigger] before[j]),
        decreases paths.len() - i,
    {
        let entry = chars_of(paths[i].as_str());
        assert(before[i as int] == entry@);
        if is_contained(wanted.as_slice(), entry.as_slice()) {
            proof {
                lemma_blocker_is(before, wanted@, i as int);
            }
            if same_text(wanted.as_slice(), entry.as_slice()) {
                return Err(Error::AlreadyTracked);
            }
            return Err(Error::Conflict { ancestor: paths[i].clone() });
        }
        i += 1;
    }
    assert(!blocked(before, wanted@));
    let mut kept: Vec<String> = Vec::new();
    let mut k: usize = 0;
    while k < paths.len()
        invariant
            k <= paths.len(),
            paths@ == old(paths)@,
            before == texts(paths@),
            wanted@ == normal(path@),
            texts(kept@) == before.take(k as int).filter(outside_of(wanted@)),
        decreases paths.len() - k,
    {
        let entry = chars_of(paths[k].as_str());
        let ghost so_far = texts(kept@);
        proof {
            assert(before[k as int] == entry@);
            assert(before.take(k + 1) =~= before.take(k as int).push(entry@));
            before.take(k as int).lemma_filter_push(entry@, outside_of(wanted@));
        }
        if !is_contained(entry.as_slice(), wanted.as_slice()) {
            kept.push(paths[k].clone());
            assert(texts(kept@) =~= so_far.push(entry@));
        }
        k += 1;
    }
    let ghost so_far = texts(kept@);
    kept.push(stored);
    proof {
        assert(before.take(paths@.len() as int) =~= before);
        assert(texts(kept@) =~= so_far.push(wanted@));
        if no_overlap(before) {
            lemma_add_keeps_no_overlap(before, wanted@);
        }
        if all_normal(before) {
            lemma_normal(path@);
            lemma_kept_are_normal(before, outside_of(wanted@));
            assert forall|j: int| 0 <= j < texts(kept@).len() implies is_normal(
                #[trigger] texts(kept@)[j],
            ) by {
                if j < so_far.len() {
                    assert(texts(kept@)[j] == so_far[j]);
                }
            }
        }
    }
    *paths = kept;
    Ok(())
}

/// Removes `path` from the list.
///
/// Only an entry that is `path`, character for character, is removed; where
/// there is none the list stays as it is and the error says so.
pub fn remove_from_tracking_list(paths: &mut Vec<String>, path: &String) -> (result: Result<
    (),
    Error,
>)
    ensures
        result is Ok <==> texts(old(paths)@).contains(path@),
        match remove_outcome(texts(old(paths)@), path@) {
            Ok(after) => result is Ok && texts(final(paths)@) == after,
            Err(error) => result is Err && result->Err_0@ == error && final(paths)@ == old(
                paths,
            )@,
        },
        no_overlap(texts(old(paths)@)) ==> no_overlap(texts(final(paths)@)),
{
    let ghost before = texts(paths@);
    let mut kept: Vec<String> = Vec::new();
    let mut k: usize = 0;
    while k < paths.len()
        invariant
            k <= paths.len(),
            paths@ == old(paths)@,
            before == texts(paths@),
            texts(kept@) == before.take(k as int).filter(other_than(path@)),
            kept@.len() == k <==> !before.take(k as int).contains(path@),
            kept@.len() <= k,
        decreases paths.len() - k,
    {
        let ghost so_far = texts(kept@);
        proof {
            assert(before[k as int] == paths@[k as int]@);
            assert(before.take(k + 1) =~= before.take(k as int).push(paths@[k as int]@));
            before.take(k as int).lemma_filter_push(paths@[k as int]@, other_than(path@));
            let shorter = before.take(k as int);
            let longer = before.take(k + 1);
            if longer.contains(path@) {
                let m = choose|m: int| 0 <= m < longer.len() && #[trigger] longer[m] == path@;
                if m < k {
                    assert(shorter[m] == path@);
                }
            }
            if shorter.contains(path@) {
                let m = choose|m: int| 0 <= m < shorter.len() && #[trigger] shorter[m] == path@;
                assert(longer[m] == path@);
            }
            if paths@[k as int]@ == path@ {
                assert(before.take(k + 1)[k as int] == path@);
            }
        }
        if paths[k] != *path {
            kept.push(paths[k].clone());
            assert(texts(kept@) =~= so_far.push(paths@[k as int]@));
        }
        k += 1;
    }
    proof {
        assert(before.take(paths@.len() as int) =~= before);
        if no_overlap(before) {
            lemma_remove_keeps_no_overlap(before, path@);
        }
    }
    if kept.len() == paths.len() {
        return Err(Error::NotFound(Missing::InTrackingList));
    }
    *paths = kept;
    Ok(())
}

/// What a change of the list leaves to be done: the record to write, and
/// the git subcommand that stages the change.
#[derive(Clone, Debug, PartialEq, Eq)]
pub struct Change {
    pub record: String,
    pub command: String,
}

/// What staging every tracked path takes: the paths that still exist, the
/// record to write where some no longer do, and one git subcommand for each
/// path that stays.
#[derive(Clone, Debug, PartialEq, Eq)]
pub struct Staging {
    pub paths: Vec<String>,
    pub record: Option<String>,
    pub commands: Vec<String>,
}

/// The text of an entry that was found to exist.
pub open spec fn if_present() -> spec_fn((String, bool)) -> Option<Seq<char>> {
    |entry: (String, bool)|
        if entry.1 {
            Some(entry.0@)
        } else {
            None
        }
}

/// The paths of `checked`, each with whether it was found to exist.
pub open spec fn listed(checked: Seq<(String, bool)>) -> Seq<Seq<char>> {
    Seq::new(checked.len(), |i: int| checked[i].0@)
}

/// The paths of `checked` that were found to exist, in their order.
pub open spec fn present(checked: Seq<(String, bool)>) -> Seq<Seq<char>> {
    checked.filter_map(if_present())
}

/// The git subcommands that stage `paths`, one for each.
pub open spec fn add_commands(paths: Seq<Seq<char>>) -> Seq<Seq<char>> {
    Seq::new(paths.len(), |i: int| "add "@ + paths[i])
}

/// The paths found to exist are among those listed, and where the listed
/// have no overlap, neither have they.
pub proof fn lemma_present(checked: Seq<(String, bool)>)
    ensures
        present(checked).len() <= checked.len(),
        forall|i: int|
            0 <= i < present(checked).len() ==> listed(checked).contains(
                #[trigger] present(checked)[i],
            ),
        no_overlap(listed(checked)) ==> no_overlap(present(checked)),
        present(checked).len() == checked.len() ==> present(checked) == listed(checked),
    decreases checked.len(),
{
    let all = listed(checked);
    let kept = present(checked);
    if checked.len() > 0 {
        let front = checked.drop_last();
        lemma_present(front);
        let inner = present(front);
        assert(listed(front) =~= all.drop_last());
        assert forall|i: int| 0 <= i < inner.len() implies all.contains(#[trigger] inner[i]) by {
            assert(listed(front).contains(inner[i]));
            let m = choose|m: int| 0 <= m < listed(front).len() && listed(front)[m] == inner[i];
            assert(all[m] == inner[i]);
        }
        assert forall|i: int| 0 <= i < kept.len() implies all.contains(#[trigger] kept[i]) by {
            if i < inner.len() {
                assert(kept[i] == inner[i]);
            } else {
                assert(kept[i] == all[all.len() - 1]);
            }
        }
        if kept.len() == checked.len() {
            assert(kept =~= all);
        }
        if no_overlap(all) {
            assert forall|i: int, j: int|
                0 <= i < listed(front).len() && 0 <= j < listed(front).len() && i != j implies !contains(
                #[trigger] listed(front)[i],
                #[trigger] listed(front)[j],
            ) by {
                assert(listed(front)[i] == all[i] && listed(front)[j] == all[j]);
            }
            assert forall|i: int| 0 <= i < inner.len() implies !contains(
                #[trigger] inner[i],
                all.last(),
            ) && !contains(all.last(), inner[i]) by {
                assert(listed(front).contains(inner[i]));
                let m = choose|m: int|
                    0 <= m < listed(front).len() && listed(front)[m] == inner[i];
                assert(all[m] == inner[i]);
                assert(!contains(all[m], all[all.len() - 1]));
                assert(!contains(all[all.len() - 1], all[m]));
            }
            assert forall|i: int, j: int|
                0 <= i < kept.len() && 0 <= j < kept.len() && i != j implies !contains(
                #[trigger] kept[i],
                #[trigger] kept[j],
            ) by {
                if i < inner.len() && j < inner.len() {
                    assert(kept[i] == inner[i] && kept[j] == inner[j]);
                } else if i < inner.len() {
                    assert(kept[i] == inner[i]);
                } else {
                    assert(kept[j] == inner[j]);
                }
            }
        }
    }
}

/// The git subcommand made of `verb`, a space and `path`.
pub fn command_for(verb: &str, path: &String) -> (command: String)
    ensures
        command@ == verb@ + " "@ + path@,
{
    let mut command = chars_of(verb);
    append(&mut command, chars_of(" ").as_slice());
    append(&mut command, chars_of(path.as_str()).as_slice());
    string_of(command.as_slice())
}

/// Tracks `path`, without the separators at its end: from `read`, the text
/// of the record, and `exists`, whether something exists at
/// `existence_probe(path)`, the record to write and the git subcommand that
/// stages the path.
///
/// Fails where nothing exists at the path, where the path is tracked
/// already, and where it lies under a tracked path.
pub fn add(read: &str, path: &String, exists: bool) -> (result: Result<Change, Error>)
    ensures
        !exists ==> result is Err && result->Err_0@ == ErrorView::NotFound(Missing::OnDisk),
        exists ==> match add_outcome(load(read@), normal(path@)) {
            Ok(after) => result is Ok && result->Ok_0.record@ == record_of(after)
                && result->Ok_0.command@ == "add "@ + normal(path@),
            Err(error) => result is Err && result->Err_0@ == error,
        },
{
    if !exists {
        return Err(Error::NotFound(Missing::OnDisk));
    }
    let mut paths = file_to_vec(read);
    proof {
        reveal_strlit("add");
        reveal_strlit(" ");
        reveal_strlit("add ");
        assert("add"@ + " "@ =~= "add "@);
    }
    match add_to_tracking_list(&mut paths, path) {
        Ok(()) => Ok(
            Change {
                record: record_text(&paths),
                command: command_for("add", &existence_probe(path)),
            },
        ),
        Err(error) => Err(error),
    }
}

/// Stops tracking `path`: from `read`, the text of the record, the record
/// to write and the git subcommand that stages the removal.
///
/// Fails where `path` is no entry of the list, and there only: whether
/// anything exists at the path does not count.
pub fn remove(read: &str, path: &String) -> (result: Result<Change, Error>)
    ensures
        result is Ok <==> load(read@).contains(path@),
        match remove_outcome(load(read@), path@) {
            Ok(after) => result is Ok && result->Ok_0.record@ == record_of(after)
                && result->Ok_0.command@ == "rm -rf "@ + path@,
            Err(error) => result is Err && result->Err_0@ == error,
        },
{
    let mut paths = file_to_vec(read);
    proof {
        reveal_strlit("rm -rf");
        reveal_strlit(" ");
        reveal_strlit("rm -rf ");
        assert("rm -rf"@ + " "@ =~= "rm -rf "@);
    }
    match remove_from_tracking_list(&mut paths, path) {
        Ok(()) => Ok(
            Change { record: record_text(&paths), command: command_for("rm -rf", path) },
        ),
        Err(error) => Err(error),
    }
}

/// Drops the tracked paths that no longer exist and stages the others.
///
/// `checked` holds the tracked paths, each with whether something exists at
/// it. The record is to be written only where a path was dropped.
pub fn git_add_all(checked: &Vec<(String, bool)>) -> (staging: Staging)
    ensures
        texts(staging.paths@) == present(checked@),
        staging.record is Some <==> present(checked@).len() != checked@.len(),
        staging.record matches Some(record) ==> record@ == record_of(present(checked@)),
        texts(staging.commands@) == add_commands(present(checked@)),
        no_overlap(listed(checked@)) ==> no_overlap(present(checked@)),
{
    let mut paths: Vec<String> = Vec::new();
    let mut commands: Vec<String> = Vec::new();
    let mut i: usize = 0;
    while i < checked.len()
        invariant
            i <= checked.len(),
            texts(paths@) == present(checked@.take(i as int)),
            texts(commands@) == add_commands(texts(paths@)),
            paths@.len() <= i,
        decreases checked.len() - i,
    {
        let ghost so_far = texts(paths@);
        let ghost commands_so_far = texts(commands@);
        proof {
            checked@.lemma_filter_map_take_succ(if_present(), i as int);
        }
        if checked[i].1 {
            paths.push(checked[i].0.clone());
            commands.push(command_for("add", &checked[i].0));
            proof {
                assert(texts(paths@) =~= so_far.push(checked@[i as int].0@));
                assert(texts(paths@) =~= so_far + seq![checked@[i as int].0@]);
                assert(texts(commands@) =~= commands_so_far.push(
                    "add"@ + " "@ + checked@[i as int].0@,
                ));
                reveal_strlit("add");
                reveal_strlit(" ");
                reveal_strlit("add ");
                assert("add"@ + " "@ =~= "add "@);
                assert(texts(commands@) =~= add_commands(texts(paths@)));
            }
        } else {
            assert(present(checked@.take(i + 1)) =~= so_far);
        }
        i += 1;
    }
    proof {
        assert(checked@.take(checked@.len() as int) =~= checked@);
        lemma_present(checked@);
    }
    let record = if paths.len() != checked.len() {
        Some(record_text(&paths))
    } else {
        None
    };
    Staging { paths, record, commands }
}

} // verus!
