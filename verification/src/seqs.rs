//! Sequences: rows of a table, splitting and joining.
use vstd::prelude::*;

verus! {

/// A table of vectors as a sequence of sequences.
pub open spec fn rows<T>(table: Seq<Vec<T>>) -> Seq<Seq<T>> {
    table.map_values(|row: Vec<T>| row@)
}

/// The pieces of `s` between its separators: one more than there are separators.
pub open spec fn split<T>(s: Seq<T>, separates: spec_fn(T) -> bool) -> Seq<Seq<T>>
    decreases s.len(),
{
    if s.len() == 0 {
        seq![Seq::empty()]
    } else {
        let before = split(s.drop_last(), separates);
        if separates(s.last()) {
            before.push(Seq::empty())
        } else {
            before.drop_last().push(before.last().push(s.last()))
        }
    }
}

/// What is left of `s` after its first `n` elements.
pub open spec fn after<T>(s: Seq<T>, n: nat) -> Seq<T> {
    if n <= s.len() {
        s.skip(n as int)
    } else {
        Seq::empty()
    }
}

/// The lines, with a line feed between each two.
pub open spec fn joined(lines: Seq<Seq<char>>) -> Seq<char>
    decreases lines.len(),
{
    if lines.len() == 0 {
        Seq::empty()
    } else if lines.len() == 1 {
        lines[0]
    } else {
        joined(lines.drop_last()).push('\n') + lines.last()
    }
}

/// There is always at least one piece.
pub proof fn lemma_split_nonempty<T>(s: Seq<T>, separates: spec_fn(T) -> bool)
    ensures
        split(s, separates).len() > 0,
    decreases s.len(),
{
    if s.len() > 0 {
        lemma_split_nonempty(s.drop_last(), separates);
    }
}

/// A separator cuts the sequence in two that are split each for itself.
pub proof fn lemma_split_at_separator<T>(a: Seq<T>, x: T, b: Seq<T>, separates: spec_fn(T) -> bool)
    requires
        separates(x),
    ensures
        split(a.push(x) + b, separates) == split(a, separates) + split(b, separates),
    decreases b.len(),
{
    let whole = a.push(x) + b;
    if b.len() == 0 {
        assert(whole.drop_last() == a);
        assert(split(whole, separates) == split(a, separates).push(Seq::empty()));
    } else {
        let shorter = b.drop_last();
        lemma_split_at_separator(a, x, shorter, separates);
        lemma_split_nonempty(shorter, separates);
        assert(whole.drop_last() == a.push(x) + shorter);
        assert(whole.last() == b.last());
        assert(split(whole, separates) == split(a, separates) + split(b, separates));
    }
}

/// What stands in the joined text is a line feed or stands in one of the lines.
pub proof fn lemma_joined_holds(lines: Seq<Seq<char>>, i: int)
    requires
        0 <= i < joined(lines).len(),
    ensures
        joined(lines)[i] == '\n' || exists|li: int, col: int|
            #![trigger lines[li][col]]
            0 <= li < lines.len() && 0 <= col < lines[li].len() && lines[li][col] == joined(
                lines,
            )[i],
    decreases lines.len(),
{
    if lines.len() == 1 {
        assert(lines[0][i] == joined(lines)[i]);
    } else if lines.len() > 1 {
        let fewer = lines.drop_last();
        let n = joined(fewer).len();
        if i < n {
            lemma_joined_holds(fewer, i);
            if joined(fewer)[i] != '\n' {
                let (li, col) = choose|li: int, col: int|
                    #![trigger fewer[li][col]]
                    0 <= li < fewer.len() && 0 <= col < fewer[li].len() && fewer[li][col]
                        == joined(fewer)[i];
                assert(lines[li][col] == joined(lines)[i]);
            }
        } else if i > n {
            assert(lines[lines.len() - 1][i - n - 1] == joined(lines)[i]);
        }
    }
}

// ---- laws ----
/// A table has a row for every vector, and it holds what the vector holds.
pub proof fn law_rows_hold_the_vectors<T>(table: Seq<Vec<T>>)
    ensures
        rows(table).len() == table.len(),
        forall|i: int| 0 <= i < table.len() ==> #[trigger] rows(table)[i] == table[i]@,
{
}

/// Without a separator there is one piece, the whole sequence.
pub proof fn law_without_separators_nothing_is_split<T>(s: Seq<T>, separates: spec_fn(T) -> bool)
    requires
        forall|i: int| 0 <= i < s.len() ==> !separates(#[trigger] s[i]),
    ensures
        split(s, separates) == seq![s],
    decreases s.len(),
{
    if s.len() > 0 {
        let fewer = s.drop_last();
        assert forall|i: int| 0 <= i < fewer.len() implies !separates(#[trigger] fewer[i]) by {
            assert(fewer[i] == s[i]);
        }
        law_without_separators_nothing_is_split(fewer, separates);
        assert(!separates(s[s.len() - 1]));
        assert(fewer.push(s.last()) == s);
        let before = split(fewer, separates);
        assert(before.drop_last().push(before.last().push(s.last())) == seq![s]);
    } else {
        assert(s == Seq::<T>::empty());
    }
}

/// What is joined comes apart again at its line feeds: lines that hold none are
/// given back, all of them and in their order.
pub proof fn law_joined_lines_come_apart_again(lines: Seq<Seq<char>>)
    requires
        lines.len() > 0,
        forall|i: int, j: int|
            #![trigger lines[i][j]]
            0 <= i < lines.len() && 0 <= j < lines[i].len() ==> lines[i][j] != '\n',
    ensures
        split(joined(lines), |c: char| c == '\n') == lines,
    decreases lines.len(),
{
    let feed = |c: char| c == '\n';
    let end = lines.last();
    assert forall|j: int| 0 <= j < end.len() implies !feed(#[trigger] end[j]) by {
        assert(lines[lines.len() - 1][j] != '\n');
    }
    law_without_separators_nothing_is_split(end, feed);
    if lines.len() == 1 {
        assert(joined(lines) == end);
        assert(seq![end] == lines);
    } else {
        let fewer = lines.drop_last();
        assert forall|i: int, j: int|
            #![trigger fewer[i][j]]
            0 <= i < fewer.len() && 0 <= j < fewer[i].len() implies fewer[i][j] != '\n' by {
            assert(lines[i][j] != '\n');
        }
        law_joined_lines_come_apart_again(fewer);
        lemma_split_at_separator(joined(fewer), '\n', end, feed);
        assert(fewer + seq![end] == lines);
    }
}

/// The elements of a sequence whose positions are wanted, in their order.
pub open spec fn picked<T>(s: Seq<T>, wanted: spec_fn(int) -> bool) -> Seq<T>
    decreases s.len(),
{
    if s.len() == 0 {
        s
    } else {
        let before = picked(s.drop_last(), wanted);
        if wanted(s.len() - 1) {
            before.push(s.last())
        } else {
            before
        }
    }
}

/// Where the wanted positions are those of one range, that range is picked.
pub proof fn lemma_picked_range<T>(s: Seq<T>, wanted: spec_fn(int) -> bool, a: int, b: int)
    requires
        0 <= a <= b <= s.len(),
        forall|i: int| 0 <= i < s.len() ==> (#[trigger] wanted(i) <==> a <= i < b),
    ensures
        picked(s, wanted) == s.subrange(a, b),
    decreases s.len(),
{
    if s.len() > 0 {
        let fewer = s.drop_last();
        let n = s.len() - 1;
        assert(wanted(n) <==> a <= n < b);
        if b <= n {
            lemma_picked_range(fewer, wanted, a, b);
            assert(fewer.subrange(a, b) == s.subrange(a, b));
        } else if a <= n {
            lemma_picked_range(fewer, wanted, a, n);
            assert(fewer.subrange(a, n).push(s.last()) == s.subrange(a, b));
        } else {
            lemma_picked_range(fewer, wanted, n, n);
            assert(fewer.subrange(n, n) == s.subrange(a, b));
        }
    } else {
        assert(picked(s, wanted) == s.subrange(a, b));
    }
}

/// Each line but the first is joined on behind a line feed.
pub proof fn law_a_line_is_joined_on_behind_a_line_feed(lines: Seq<Seq<char>>, line: Seq<char>)
    ensures
        joined(Seq::empty()) == Seq::<char>::empty(),
        joined(seq![line]) == line,
        lines.len() > 0 ==> joined(lines.push(line)) == joined(lines) + seq!['\n'] + line,
{
    if lines.len() > 0 {
        assert(lines.push(line).drop_last() == lines);
    }
}

} // verus!
