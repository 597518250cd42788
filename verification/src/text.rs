//! Text as sequences of characters: the conversions between `String` and
//! `Vec<char>`, and the searching, splitting, joining and trimming that the
//! other modules build on.

use vstd::prelude::*;

verus! {

/// `String::push` appends one character to the string.
pub assume_specification[ String::push ](s: &mut String, c: char)
    ensures
        final(s)@ == old(s)@.push(c),
;

/// The texts of a sequence of strings.
pub open spec fn texts(strings: Seq<String>) -> Seq<Seq<char>> {
    Seq::new(strings.len(), |i: int| strings[i]@)
}

/// The texts of a sequence of character vectors.
pub open spec fn rows(vectors: Seq<Vec<char>>) -> Seq<Seq<char>> {
    Seq::new(vectors.len(), |i: int| vectors[i]@)
}

/// `needle` stands in `hay` at position `at`.
pub open spec fn occurs_at(hay: Seq<char>, needle: Seq<char>, at: int) -> bool {
    &&& 0 <= at
    &&& at + needle.len() <= hay.len()
    &&& hay.subrange(at, at + needle.len()) == needle
}

/// `needle` stands somewhere in `hay`.
pub open spec fn contains(hay: Seq<char>, needle: Seq<char>) -> bool {
    exists|at: int| occurs_at(hay, needle, at)
}

/// `hay` begins with `prefix`.
pub open spec fn starts_with(hay: Seq<char>, prefix: Seq<char>) -> bool {
    occurs_at(hay, prefix, 0)
}

/// `needle` stands in `hay` at `at` and nowhere before.
pub open spec fn is_first_occurrence(hay: Seq<char>, needle: Seq<char>, at: int) -> bool {
    &&& occurs_at(hay, needle, at)
    &&& forall|j: int| 0 <= j < at ==> !occurs_at(hay, needle, j)
}

/// The least position at which `needle` stands in `hay`.
pub open spec fn first_occurrence(hay: Seq<char>, needle: Seq<char>) -> Option<int> {
    if contains(hay, needle) {
        Some(choose|at: int| is_first_occurrence(hay, needle, at))
    } else {
        None
    }
}

/// Below any occurrence there is a first one.
pub proof fn lemma_first_occurrence_exists(hay: Seq<char>, needle: Seq<char>, at: int)
    requires
        occurs_at(hay, needle, at),
    ensures
        exists|k: int| 0 <= k <= at && is_first_occurrence(hay, needle, k),
    decreases at,
{
    if exists|j: int| 0 <= j < at && occurs_at(hay, needle, j) {
        let j = choose|j: int| 0 <= j < at && occurs_at(hay, needle, j);
        lemma_first_occurrence_exists(hay, needle, j);
        let k = choose|k: int| 0 <= k <= j && is_first_occurrence(hay, needle, k);
        assert(0 <= k <= at && is_first_occurrence(hay, needle, k));
    } else {
        assert(is_first_occurrence(hay, needle, at));
    }
}

/// A first occurrence is the first occurrence.
pub proof fn lemma_first_occurrence_is(hay: Seq<char>, needle: Seq<char>, at: int)
    requires
        is_first_occurrence(hay, needle, at),
    ensures
        first_occurrence(hay, needle) == Some(at),
{
    let k = choose|k: int| is_first_occurrence(hay, needle, k);
    assert(is_first_occurrence(hay, needle, k));
    if k < at {
        assert(!occurs_at(hay, needle, k));
    }
    if at < k {
        assert(!occurs_at(hay, needle, at));
    }
}

/// What `first_occurrence` returns, spelled out.
pub proof fn lemma_first_occurrence(hay: Seq<char>, needle: Seq<char>)
    ensures
        match first_occurrence(hay, needle) {
            Some(at) => is_first_occurrence(hay, needle, at),
            None => forall|j: int| !occurs_at(hay, needle, j),
        },
{
    if contains(hay, needle) {
        let at = choose|at: int| occurs_at(hay, needle, at);
        lemma_first_occurrence_exists(hay, needle, at);
    }
}

/// An occurrence in what is left after `from` characters is an occurrence
/// `from` places further on in the whole.
pub proof fn lemma_occurs_at_skip(hay: Seq<char>, needle: Seq<char>, from: int, at: int)
    requires
        0 <= from <= hay.len(),
        0 <= at,
    ensures
        occurs_at(hay.skip(from), needle, at) == occurs_at(hay, needle, from + at),
{
    if at + needle.len() <= hay.len() - from {
        assert(hay.skip(from).subrange(at, at + needle.len()) =~= hay.subrange(
            from + at,
            from + at + needle.len(),
        ));
    }
}

/// The characters of `s`, in order.
pub fn chars_of(s: &str) -> (v: Vec<char>)
    ensures
        v@ == s@,
{
    let mut v: Vec<char> = Vec::new();
    for c in it: s.chars()
        invariant
            v@ == it.seq().take(it.index() as int),
            it.seq() == s@,
    {
        v.push(c);
    }
    v
}

/// The string made of the characters of `v`, in order.
pub fn string_of(v: &[char]) -> (s: String)
    ensures
        s@ == v@,
{
    let mut s = String::new();
    let mut i: usize = 0;
    while i < v.len()
        invariant
            i <= v.len(),
            s@ == v@.take(i as int),
        decreases v.len() - i,
    {
        s.push(v[i]);
        i += 1;
    }
    s
}

/// The characters of `s` from position `from` up to, not including, `to`.
pub fn copy_range(s: &[char], from: usize, to: usize) -> (v: Vec<char>)
    requires
        from <= to <= s.len(),
    ensures
        v@ == s@.subrange(from as int, to as int),
{
    let mut v: Vec<char> = Vec::new();
    let mut i: usize = from;
    while i < to
        invariant
            from <= i <= to <= s.len(),
            v@ == s@.subrange(from as int, i as int),
        decreases to - i,
    {
        v.push(s[i]);
        i += 1;
    }
    v
}

/// Whether `needle` stands in `hay` at position `at`.
pub fn matches_at(hay: &[char], needle: &[char], at: usize) -> (b: bool)
    ensures
        b == occurs_at(hay@, needle@, at as int),
{
    if needle.len() > hay.len() || at > hay.len() - needle.len() {
        return false;
    }
    let mut k: usize = 0;
    while k < needle.len()
        invariant
            k <= needle.len(),
            at + needle.len() <= hay.len(),
            forall|j: int| 0 <= j < k ==> hay@[at + j] == needle@[j],
        decreases needle.len() - k,
    {
        if hay[at + k] != needle[k] {
            assert(hay@.subrange(at as int, at + needle.len())[k as int] == hay@[at + k]);
            return false;
        }
        k += 1;
    }
    assert(hay@.subrange(at as int, at + needle.len()) =~= needle@);
    true
}

/// The first position at or after `from` at which `needle` stands in `hay`.
pub fn find_from(hay: &[char], needle: &[char], from: usize) -> (found: Option<usize>)
    requires
        from <= hay.len(),
    ensures
        match found {
            Some(at) => from <= at && at + needle.len() <= hay.len() && first_occurrence(
                hay@.skip(from as int),
                needle@,
            ) == Some(at - from),
            None => first_occurrence(hay@.skip(from as int), needle@) is None,
        },
{
    let mut i: usize = from;
    loop
        invariant
            from <= i <= hay.len(),
            forall|j: int| from <= j < i ==> !occurs_at(hay@, needle@, j),
        decreases hay.len() - i,
    {
        if matches_at(hay, needle, i) {
            proof {
                let rest = hay@.skip(from as int);
                assert forall|j: int| 0 <= j < i - from implies !occurs_at(rest, needle@, j) by {
                    lemma_occurs_at_skip(hay@, needle@, from as int, j);
                }
                lemma_occurs_at_skip(hay@, needle@, from as int, i - from);
                lemma_first_occurrence_is(rest, needle@, i - from);
            }
            return Some(i);
        }
        if i == hay.len() {
            proof {
                let rest = hay@.skip(from as int);
                assert forall|j: int| !occurs_at(rest, needle@, j) by {
                    if 0 <= j {
                        lemma_occurs_at_skip(hay@, needle@, from as int, j);
                    }
                }
            }
            return None;
        }
        i += 1;
    }
}

/// Whether `needle` stands somewhere in `hay`.
pub fn is_contained(hay: &[char], needle: &[char]) -> (b: bool)
    ensures
        b == contains(hay@, needle@),
{
    let found = find_from(hay, needle, 0);
    proof {
        assert(hay@.skip(0) =~= hay@);
        lemma_first_occurrence(hay@, needle@);
    }
    found.is_some()
}

/// The pieces of `s` between the occurrences of `pat`, read from the left:
/// the text before the first occurrence, then the pieces of what follows
/// it. With an empty `pat`, or none in `s`, `s` is the one piece.
pub open spec fn split(s: Seq<char>, pat: Seq<char>) -> Seq<Seq<char>>
    decreases s.len(),
{
    if pat.len() > 0 && first_occurrence(s, pat) is Some {
        proof {
            lemma_first_occurrence(s, pat);
        }
        let at = first_occurrence(s, pat)->0;
        seq![s.take(at)] + split(s.skip(at + pat.len()), pat)
    } else {
        seq![s]
    }
}

/// The texts of `parts` in a row, with `sep` between each two of them.
pub open spec fn join(parts: Seq<Seq<char>>, sep: Seq<char>) -> Seq<char>
    decreases parts.len(),
{
    if parts.len() == 0 {
        Seq::empty()
    } else if parts.len() == 1 {
        parts[0]
    } else {
        parts[0] + sep + join(parts.skip(1), sep)
    }
}

/// Joining one more text onto the end.
pub proof fn lemma_join_push(parts: Seq<Seq<char>>, sep: Seq<char>, last: Seq<char>)
    ensures
        join(parts.push(last), sep) == if parts.len() == 0 {
            last
        } else {
            join(parts, sep) + sep + last
        },
    decreases parts.len(),
{
    let all = parts.push(last);
    if parts.len() == 0 {
    } else if parts.len() == 1 {
        assert(all.skip(1) =~= seq![last]);
        assert(join(all.skip(1), sep) == last);
        assert(join(parts, sep) == parts[0]);
    } else {
        assert(all.skip(1) =~= parts.skip(1).push(last));
        lemma_join_push(parts.skip(1), sep, last);
        assert(join(all, sep) == all[0] + sep + join(all.skip(1), sep));
        assert(join(parts, sep) == parts[0] + sep + join(parts.skip(1), sep));
        assert(join(all, sep) =~= join(parts, sep) + sep + last);
    }
}

/// Splitting always gives at least one piece.
pub proof fn lemma_split_len(s: Seq<char>, pat: Seq<char>)
    ensures
        split(s, pat).len() >= 1,
{
}

/// The pieces of a split, joined with the pattern again, are the text.
pub proof fn lemma_join_split(s: Seq<char>, pat: Seq<char>)
    ensures
        join(split(s, pat), pat) == s,
    decreases s.len(),
{
    if pat.len() > 0 && first_occurrence(s, pat) is Some {
        lemma_first_occurrence(s, pat);
        let at = first_occurrence(s, pat)->0;
        let rest = s.skip(at + pat.len());
        lemma_join_split(rest, pat);
        lemma_split_len(rest, pat);
        let pieces = split(s, pat);
        assert(pieces.skip(1) =~= split(rest, pat));
        assert(s =~= s.take(at) + pat + rest);
    }
}

/// No piece of a split holds the pattern.
pub proof fn lemma_split_pieces(s: Seq<char>, pat: Seq<char>, i: int)
    requires
        pat.len() > 0,
        0 <= i < split(s, pat).len(),
    ensures
        !contains(split(s, pat)[i], pat),
    decreases s.len(),
{
    lemma_first_occurrence(s, pat);
    if first_occurrence(s, pat) is Some {
        let at = first_occurrence(s, pat)->0;
        if i == 0 {
            assert forall|k: int| !occurs_at(s.take(at), pat, k) by {
                if occurs_at(s.take(at), pat, k) {
                    assert(s.take(at).subrange(k, k + pat.len()) =~= s.subrange(
                        k,
                        k + pat.len(),
                    ));
                    assert(occurs_at(s, pat, k));
                }
            }
        } else {
            lemma_split_pieces(s.skip(at + pat.len()), pat, i - 1);
        }
    }
}

/// Texts that do not hold the separating character come back from a split
/// of their join as they went in.
pub proof fn lemma_split_join(parts: Seq<Seq<char>>, sep: char)
    requires
        parts.len() >= 1,
        forall|i: int| 0 <= i < parts.len() ==> !parts[i].contains(sep),
    ensures
        split(join(parts, seq![sep]), seq![sep]) == parts,
    decreases parts.len(),
{
    let pat = seq![sep];
    let whole = join(parts, pat);
    let head = parts[0];
    assert forall|k: int| !occurs_at(head, pat, k) by {
        if occurs_at(head, pat, k) {
            assert(head.subrange(k, k + 1)[0] == sep);
            assert(head.contains(sep));
        }
    }
    if parts.len() == 1 {
        assert(split(whole, pat) =~= parts);
    } else {
        let tail = parts.skip(1);
        lemma_split_join(tail, sep);
        let at = head.len() as int;
        assert(whole.subrange(at, at + 1) =~= pat);
        assert forall|j: int| 0 <= j < at implies !occurs_at(whole, pat, j) by {
            if occurs_at(whole, pat, j) {
                assert(whole.subrange(j, j + 1)[0] == head[j]);
                assert(head.contains(sep));
            }
        }
        lemma_first_occurrence_is(whole, pat, at);
        assert(whole.take(at) =~= head);
        assert(whole.skip(at + 1) =~= join(tail, pat));
        assert(split(whole, pat) =~= parts);
    }
}

/// The pieces of `s` between the occurrences of `pat`.
pub fn split_text(s: &[char], pat: &[char]) -> (parts: Vec<Vec<char>>)
    ensures
        rows(parts@) == split(s@, pat@),
{
    let mut parts: Vec<Vec<char>> = Vec::new();
    let mut start: usize = 0;
    if pat.len() == 0 {
        parts.push(copy_range(s, 0, s.len()));
        assert(rows(parts@) =~= seq![s@]) by {
            assert(s@.subrange(0, s@.len() as int) =~= s@);
        }
        return parts;
    }
    assert(s@.skip(0) =~= s@);
    loop
        invariant
            start <= s.len(),
            pat.len() > 0,
            split(s@, pat@) == rows(parts@) + split(s@.skip(start as int), pat@),
        decreases s.len() - start,
    {
        let ghost before = rows(parts@);
        let ghost rest = s@.skip(start as int);
        match find_from(s, pat, start) {
            Some(at) => {
                parts.push(copy_range(s, start, at));
                proof {
                    assert(rest.take(at - start) =~= s@.subrange(start as int, at as int));
                    assert(rest.skip(at - start + pat.len()) =~= s@.skip(at + pat.len()));
                    assert(rows(parts@) =~= before.push(s@.subrange(start as int, at as int)));
                    assert(before + split(rest, pat@) =~= rows(parts@) + split(
                        s@.skip(at + pat.len()),
                        pat@,
                    ));
                }
                start = at + pat.len();
            },
            None => {
                parts.push(copy_range(s, start, s.len()));
                proof {
                    assert(rest =~= s@.subrange(start as int, s@.len() as int));
                    assert(rows(parts@) =~= before.push(rest));
                    assert(before + split(rest, pat@) =~= rows(parts@));
                }
                return parts;
            },
        }
    }
}

/// The texts of `parts` in a row, with `sep` between each two of them.
pub fn join_text(parts: &Vec<Vec<char>>, sep: &[char]) -> (whole: Vec<char>)
    ensures
        whole@ == join(rows(parts@), sep@),
{
    let mut whole: Vec<char> = Vec::new();
    let mut i: usize = 0;
    while i < parts.len()
        invariant
            i <= parts.len(),
            whole@ == join(rows(parts@).take(i as int), sep@),
        decreases parts.len() - i,
    {
        proof {
            lemma_join_push(rows(parts@).take(i as int), sep@, parts@[i as int]@);
            assert(rows(parts@).take(i + 1) =~= rows(parts@).take(i as int).push(
                parts@[i as int]@,
            ));
        }
        if i > 0 {
            append(&mut whole, sep);
        }
        append(&mut whole, parts[i].as_slice());
        i += 1;
    }
    assert(rows(parts@).take(parts@.len() as int) =~= rows(parts@));
    whole
}

/// Puts the characters of `more` at the end of `v`.
pub fn append(v: &mut Vec<char>, more: &[char])
    ensures
        final(v)@ == old(v)@ + more@,
{
    let mut i: usize = 0;
    while i < more.len()
        invariant
            i <= more.len(),
            v@ == old(v)@ + more@.take(i as int),
        decreases more.len() - i,
    {
        v.push(more[i]);
        i += 1;
        assert(v@ =~= old(v)@ + more@.take(i as int));
    }
    assert(more@.take(more@.len() as int) =~= more@);
}

/// White space: the characters with the Unicode property `White_Space`.
pub open spec fn is_whitespace(c: char) -> bool {
    let n = c as int;
    ||| 0x09 <= n <= 0x0D
    ||| n == 0x20
    ||| n == 0x85
    ||| n == 0xA0
    ||| n == 0x1680
    ||| 0x2000 <= n <= 0x200A
    ||| n == 0x2028
    ||| n == 0x2029
    ||| n == 0x202F
    ||| n == 0x205F
    ||| n == 0x3000
}

/// `s` without the white space it begins with.
pub open spec fn trim_start(s: Seq<char>) -> Seq<char>
    decreases s.len(),
{
    if s.len() > 0 && is_whitespace(s[0]) {
        trim_start(s.skip(1))
    } else {
        s
    }
}

/// `s` without the white space it ends with.
pub open spec fn trim_end(s: Seq<char>) -> Seq<char>
    decreases s.len(),
{
    if s.len() > 0 && is_whitespace(s.last()) {
        trim_end(s.drop_last())
    } else {
        s
    }
}

/// `s` without the white space at either end.
pub open spec fn trim(s: Seq<char>) -> Seq<char> {
    trim_end(trim_start(s))
}

/// `s` without the run of `c` it ends with.
pub open spec fn trim_end_char(s: Seq<char>, c: char) -> Seq<char>
    decreases s.len(),
{
    if s.len() > 0 && s.last() == c {
        trim_end_char(s.drop_last(), c)
    } else {
        s
    }
}

/// `s` without the copies of `prefix` it begins with.
pub open spec fn strip_prefixes(s: Seq<char>, prefix: Seq<char>) -> Seq<char>
    decreases s.len(),
{
    if prefix.len() > 0 && starts_with(s, prefix) {
        strip_prefixes(s.skip(prefix.len() as int), prefix)
    } else {
        s
    }
}

/// The position just behind the last `c` in `s`; 0 where `s` holds none.
pub open spec fn tail_start(s: Seq<char>, c: char) -> int
    decreases s.len(),
{
    if s.len() == 0 {
        0
    } else if s.last() == c {
        s.len() as int
    } else {
        tail_start(s.drop_last(), c)
    }
}

/// What follows the last `c` in `s`; all of `s` where it holds none.
pub open spec fn after_last(s: Seq<char>, c: char) -> Seq<char> {
    s.skip(tail_start(s, c))
}

/// The decimal digit for `d`.
pub open spec fn digit(d: int) -> char {
    if d == 0 {
        '0'
    } else if d == 1 {
        '1'
    } else if d == 2 {
        '2'
    } else if d == 3 {
        '3'
    } else if d == 4 {
        '4'
    } else if d == 5 {
        '5'
    } else if d == 6 {
        '6'
    } else if d == 7 {
        '7'
    } else if d == 8 {
        '8'
    } else {
        '9'
    }
}

/// `n` written in decimal digits.
pub open spec fn decimal(n: nat) -> Seq<char>
    decreases n,
{
    if n < 10 {
        seq![digit(n as int)]
    } else {
        decimal(n / 10).push(digit((n % 10) as int))
    }
}

/// Whether `c` is white space.
pub fn whitespace(c: char) -> (b: bool)
    ensures
        b == is_whitespace(c),
{
    let n: u32 = c as u32;
    (0x09 <= n && n <= 0x0D) || n == 0x20 || n == 0x85 || n == 0xA0 || n == 0x1680 || (0x2000 <= n
        && n <= 0x200A) || n == 0x2028 || n == 0x2029 || n == 0x202F || n == 0x205F || n == 0x3000
}

/// `s` without the white space at either end.
pub fn trim_text(s: &[char]) -> (trimmed: Vec<char>)
    ensures
        trimmed@ == trim(s@),
{
    let mut from: usize = 0;
    assert(s@.skip(0) =~= s@);
    while from < s.len() && whitespace(s[from])
        invariant
            from <= s.len(),
            trim_start(s@) == trim_start(s@.skip(from as int)),
        decreases s.len() - from,
    {
        assert(s@.skip(from as int).skip(1) =~= s@.skip(from + 1));
        from += 1;
    }
    let mut to: usize = s.len();
    assert(s@.skip(from as int) =~= s@.subrange(from as int, to as int));
    while to > from && whitespace(s[to - 1])
        invariant
            from <= to <= s.len(),
            trim(s@) == trim_end(s@.subrange(from as int, to as int)),
        decreases to - from,
    {
        assert(s@.subrange(from as int, to as int).drop_last() =~= s@.subrange(
            from as int,
            to - 1,
        ));
        to -= 1;
    }
    copy_range(s, from, to)
}

/// `s` without the white space it ends with.
pub fn trim_end_text(s: &[char]) -> (trimmed: Vec<char>)
    ensures
        trimmed@ == trim_end(s@),
{
    let mut to: usize = s.len();
    assert(s@ =~= s@.subrange(0, to as int));
    while to > 0 && whitespace(s[to - 1])
        invariant
            to <= s.len(),
            trim_end(s@) == trim_end(s@.subrange(0, to as int)),
        decreases to,
    {
        assert(s@.subrange(0, to as int).drop_last() =~= s@.subrange(0, to - 1));
        to -= 1;
    }
    copy_range(s, 0, to)
}

/// `s` without the run of `c` it ends with.
pub fn trim_end_char_text(s: &[char], c: char) -> (trimmed: Vec<char>)
    ensures
        trimmed@ == trim_end_char(s@, c),
{
    let mut to: usize = s.len();
    assert(s@ =~= s@.subrange(0, to as int));
    while to > 0 && s[to - 1] == c
        invariant
            to <= s.len(),
            trim_end_char(s@, c) == trim_end_char(s@.subrange(0, to as int), c),
        decreases to,
    {
        assert(s@.subrange(0, to as int).drop_last() =~= s@.subrange(0, to - 1));
        to -= 1;
    }
    copy_range(s, 0, to)
}

/// `s` without the copies of `prefix` it begins with.
pub fn strip_prefixes_text(s: &[char], prefix: &[char]) -> (stripped: Vec<char>)
    ensures
        stripped@ == strip_prefixes(s@, prefix@),
{
    let mut from: usize = 0;
    assert(s@.skip(0) =~= s@);
    if prefix.len() > 0 {
        while matches_at(s, prefix, from)
            invariant
                from <= s.len(),
                prefix.len() > 0,
                strip_prefixes(s@, prefix@) == strip_prefixes(s@.skip(from as int), prefix@),
            decreases s.len() - from,
        {
            proof {
                lemma_occurs_at_skip(s@, prefix@, from as int, 0);
                assert(s@.skip(from as int).skip(prefix@.len() as int) =~= s@.skip(
                    from + prefix@.len(),
                ));
            }
            from += prefix.len();
        }
        proof {
            lemma_occurs_at_skip(s@, prefix@, from as int, 0);
        }
    }
    assert(s@.skip(from as int) =~= s@.subrange(from as int, s@.len() as int));
    copy_range(s, from, s.len())
}

/// What follows the last `c` in `s`; all of `s` where it holds none.
pub fn after_last_text(s: &[char], c: char) -> (tail: Vec<char>)
    ensures
        tail@ == after_last(s@, c),
{
    let mut to: usize = s.len();
    assert(s@ =~= s@.subrange(0, to as int));
    while to > 0 && s[to - 1] != c
        invariant
            to <= s.len(),
            tail_start(s@, c) == tail_start(s@.subrange(0, to as int), c),
        decreases to,
    {
        assert(s@.subrange(0, to as int).drop_last() =~= s@.subrange(0, to - 1));
        to -= 1;
    }
    assert(s@.skip(to as int) =~= s@.subrange(to as int, s@.len() as int));
    copy_range(s, to, s.len())
}

/// The digits of a number are among `0` to `9`.
pub proof fn lemma_decimal_digits(n: nat, i: int)
    requires
        0 <= i < decimal(n).len(),
    ensures
        '0' <= decimal(n)[i] <= '9',
    decreases n,
{
    if n >= 10 && i < decimal(n / 10).len() {
        lemma_decimal_digits(n / 10, i);
    }
}

/// The decimal digit for `d`.
pub fn digit_char(d: u8) -> (c: char)
    requires
        d < 10,
    ensures
        c == digit(d as int),
{
    if d == 0 {
        '0'
    } else if d == 1 {
        '1'
    } else if d == 2 {
        '2'
    } else if d == 3 {
        '3'
    } else if d == 4 {
        '4'
    } else if d == 5 {
        '5'
    } else if d == 6 {
        '6'
    } else if d == 7 {
        '7'
    } else if d == 8 {
        '8'
    } else {
        '9'
    }
}

/// Puts `n`, written in decimal digits, at the end of `v`.
pub fn push_decimal(v: &mut Vec<char>, n: u64)
    ensures
        final(v)@ == old(v)@ + decimal(n as nat),
    decreases n,
{
    if n >= 10 {
        push_decimal(v, n / 10);
    }
    v.push(digit_char((n % 10) as u8));
    assert(v@ =~= old(v)@ + decimal(n as nat));
}

/// Whether `a` and `b` hold the same characters.
pub fn same_text(a: &[char], b: &[char]) -> (same: bool)
    ensures
        same == (a@ == b@),
{
    if a.len() != b.len() {
        return false;
    }
    assert(a@.subrange(0, a@.len() as int) =~= a@);
    matches_at(a, b, 0)
}

/// The strings with the characters of `parts`.
pub fn strings_of(parts: &Vec<Vec<char>>) -> (strings: Vec<String>)
    ensures
        texts(strings@) == rows(parts@),
{
    let mut strings: Vec<String> = Vec::new();
    let mut i: usize = 0;
    while i < parts.len()
        invariant
            i <= parts.len(),
            texts(strings@) == rows(parts@).take(i as int),
        decreases parts.len() - i,
    {
        let ghost before = texts(strings@);
        strings.push(string_of(parts[i].as_slice()));
        i += 1;
        assert(texts(strings@) =~= before.push(parts@[i - 1]@));
        assert(texts(strings@) =~= rows(parts@).take(i as int));
    }
    assert(rows(parts@).take(parts@.len() as int) =~= rows(parts@));
    strings
}

/// The characters of each of `strings`.
pub fn rows_of(strings: &[String]) -> (parts: Vec<Vec<char>>)
    ensures
        rows(parts@) == texts(strings@),
{
    let mut parts: Vec<Vec<char>> = Vec::new();
    let mut i: usize = 0;
    while i < strings.len()
        invariant
            i <= strings.len(),
            rows(parts@) == texts(strings@).take(i as int),
        decreases strings.len() - i,
    {
        let ghost before = rows(parts@);
        parts.push(chars_of(strings[i].as_str()));
        i += 1;
        assert(rows(parts@) =~= before.push(strings@[i - 1]@));
        assert(rows(parts@) =~= texts(strings@).take(i as int));
    }
    assert(texts(strings@).take(strings@.len() as int) =~= texts(strings@));
    parts
}

/// The number of bytes that `c` takes in UTF-8.
pub open spec fn utf8_len(c: char) -> nat {
    let n = c as int;
    if n < 0x80 {
        1
    } else if n < 0x800 {
        2
    } else if n < 0x10000 {
        3
    } else {
        4
    }
}

/// The number of bytes that `s` takes in UTF-8.
pub open spec fn byte_count(s: Seq<char>) -> nat
    decreases s.len(),
{
    if s.len() == 0 {
        0
    } else {
        byte_count(s.drop_last()) + utf8_len(s.last())
    }
}

/// `s` without the characters that make up its first `n` bytes in UTF-8;
/// none where `s` has fewer bytes, or the `n`-th of them ends no character.
pub open spec fn skip_bytes(s: Seq<char>, n: nat) -> Option<Seq<char>>
    decreases s.len(),
{
    if n == 0 {
        Some(s)
    } else if s.len() == 0 || utf8_len(s[0]) > n {
        None
    } else {
        skip_bytes(s.skip(1), (n - utf8_len(s[0])) as nat)
    }
}

/// The number of bytes that `c` takes in UTF-8.
pub fn char_bytes(c: char) -> (n: u8)
    ensures
        n == utf8_len(c),
        1 <= n <= 4,
{
    let code: u32 = c as u32;
    if code < 0x80 {
        1
    } else if code < 0x800 {
        2
    } else if code < 0x10000 {
        3
    } else {
        4
    }
}

/// The number of bytes that `s` takes in UTF-8.
pub fn count_bytes(s: &[char]) -> (n: u128)
    ensures
        n == byte_count(s@),
        n <= 4 * s@.len() <= 4 * usize::MAX,
{
    let mut n: u128 = 0;
    let mut i: usize = 0;
    while i < s.len()
        invariant
            i <= s.len(),
            n == byte_count(s@.take(i as int)),
            n <= 4 * i,
        decreases s.len() - i,
    {
        assert(s@.take(i + 1).drop_last() =~= s@.take(i as int));
        n += char_bytes(s[i]) as u128;
        i += 1;
    }
    assert(s@.take(s@.len() as int) =~= s@);
    n
}

/// `s` without the characters that make up its first `n` bytes in UTF-8.
pub fn drop_bytes(s: &[char], n: u128) -> (rest: Option<Vec<char>>)
    ensures
        match rest {
            Some(rest) => skip_bytes(s@, n as nat) == Some(rest@),
            None => skip_bytes(s@, n as nat) is None,
        },
{
    let mut left: u128 = n;
    let mut i: usize = 0;
    assert(s@.skip(0) =~= s@);
    while left > 0
        invariant
            i <= s.len(),
            skip_bytes(s@, n as nat) == skip_bytes(s@.skip(i as int), left as nat),
        decreases left,
    {
        if i == s.len() {
            return None;
        }
        let width = char_bytes(s[i]) as u128;
        if width > left {
            return None;
        }
        assert(s@.skip(i as int).skip(1) =~= s@.skip(i + 1));
        left -= width;
        i += 1;
    }
    assert(s@.skip(i as int) =~= s@.subrange(i as int, s@.len() as int));
    Some(copy_range(s, i, s.len()))
}

} // verus!
