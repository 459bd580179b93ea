//! Small verified helpers on text.

use vstd::prelude::*;

verus! {

/// The positions at which a character occurs.
pub open spec fn positions_of(s: Seq<char>, c: char) -> Set<int> {
    Set::new(|i: int| 0 <= i < s.len() && s[i] == c)
}

/// How often a character occurs in a line: never, once (and where), or more.
pub enum Occurrences {
    Never,
    Once(usize),
    Several,
}

/// Finds whether `c` occurs never, once or several times in `line`.
pub fn occurrences(line: &str, c: char) -> (r: Occurrences)
    ensures
        match r {
            Occurrences::Never => positions_of(line@, c).is_empty(),
            Occurrences::Once(k) => positions_of(line@, c) == set![k as int],
            Occurrences::Several => !positions_of(line@, c).is_empty() && forall|k: int|
                positions_of(line@, c) != set![k],
        },
{
    let ghost s = line@;
    let n = line.unicode_len();
    let mut count: usize = 0;
    let mut first: usize = 0;
    let mut second: usize = 0;
    let mut i: usize = 0;
    while i < n
        invariant
            n == s.len(),
            s == line@,
            i <= n,
            count <= 2,
            count == 0 ==> forall|j: int| 0 <= j < i ==> s[j] != c,
            count == 1 ==> first < i && s[first as int] == c && forall|j: int|
                0 <= j < i && j != first ==> s[j] != c,
            count == 2 ==> first < second < i && s[first as int] == c && s[second as int] == c,
        decreases n - i,
    {
        if count < 2 && line.get_char(i) == c {
            if count == 0 {
                first = i;
            } else {
                second = i;
            }
            count = count + 1;
        }
        i = i + 1;
    }
    if count == 0 {
        assert(positions_of(s, c) =~= Set::<int>::empty());
        Occurrences::Never
    } else if count == 1 {
        assert(positions_of(s, c) =~= set![first as int]);
        Occurrences::Once(first)
    } else {
        assert(positions_of(s, c).contains(first as int));
        assert(positions_of(s, c).contains(second as int));
        assert forall|k: int| positions_of(s, c) != set![k] by {
            if positions_of(s, c) == set![k] {
                assert(set![k].contains(first as int));
                assert(set![k].contains(second as int));
            }
        }
        Occurrences::Several
    }
}

/// The pieces of `s` between occurrences of `sep`, as `str::split` gives
/// them: an empty text is one empty piece, and a trailing separator ends
/// with an empty piece.
pub open spec fn split_on(s: Seq<char>, sep: char) -> Seq<Seq<char>>
    decreases s.len(),
{
    if s.len() == 0 {
        seq![Seq::<char>::empty()]
    } else {
        let r = split_on(s.drop_last(), sep);
        if s.last() == sep {
            r.push(Seq::<char>::empty())
        } else {
            r.update(r.len() - 1, r.last().push(s.last()))
        }
    }
}

/// Splits `text` at each `sep`.
pub fn split(text: &str, sep: char) -> (r: Vec<String>)
    ensures
        r.deep_view() == split_on(text@, sep),
{
    let ghost s = text@;
    let n = text.unicode_len();
    let mut rows: Vec<String> = Vec::new();
    let mut start: usize = 0;
    let mut i: usize = 0;
    assert(rows.deep_view() =~= Seq::<Seq<char>>::empty());
    assert(s.take(0) =~= Seq::<char>::empty());
    assert(s.subrange(0, 0) =~= Seq::<char>::empty());
    while i < n
        invariant
            n == s.len(),
            s == text@,
            start <= i <= n,
            rows.deep_view().push(s.subrange(start as int, i as int)) == split_on(
                s.take(i as int),
                sep,
            ),
        decreases n - i,
    {
        let ghost before = rows.deep_view();
        proof {
            assert(s.take(i + 1).drop_last() =~= s.take(i as int));
            assert(s.take(i + 1).last() == s[i as int]);
        }
        if text.get_char(i) == sep {
            let row = String::from_str(text.substring_char(start, i));
            rows.push(row);
            assert(rows.deep_view() =~= before.push(s.subrange(start as int, i as int)));
            start = i + 1;
            assert(s.subrange(start as int, i + 1) =~= Seq::<char>::empty());
            assert(rows.deep_view().push(s.subrange(start as int, i + 1)) =~= split_on(
                s.take(i + 1),
                sep,
            ));
        } else {
            assert(s.subrange(start as int, i + 1) =~= s.subrange(start as int, i as int).push(
                s[i as int],
            ));
            assert(before.push(s.subrange(start as int, i + 1)) =~= split_on(s.take(i + 1), sep));
        }
        i = i + 1;
    }
    let row = String::from_str(text.substring_char(start, n));
    let ghost before = rows.deep_view();
    rows.push(row);
    assert(s.take(n as int) =~= s);
    assert(rows.deep_view() =~= before.push(s.subrange(start as int, n as int)));
    rows
}

} // verus!
