//! The matcher: where a query occurs, counted in columns. Stepping and painting
//! both go through it.
use crate::seqs::rows;
use vstd::prelude::*;

verus! {

/// A place in the text: a line and a column.
pub type Place = (int, int);

/// Whether the query occurs in the line at this column. Two occurrences may
/// overlap, and each of them is a match. An empty query occurs nowhere.
pub open spec fn match_at(line: Seq<char>, query: Seq<char>, col: int) -> bool {
    &&& query.len() > 0
    &&& 0 <= col
    &&& col + query.len() <= line.len()
    &&& line.subrange(col, col + query.len()) == query
}

/// Whether the query occurs at this place.
pub open spec fn is_match(lines: Seq<Seq<char>>, query: Seq<char>, at: Place) -> bool {
    0 <= at.0 < lines.len() && match_at(lines[at.0], query, at.1)
}

/// Whether the query occurs anywhere.
pub open spec fn occurs(lines: Seq<Seq<char>>, query: Seq<char>) -> bool {
    exists|at: Place| #[trigger] is_match(lines, query, at)
}

/// The order of the text: by line, then by column.
pub open spec fn precedes(a: Place, b: Place) -> bool {
    a.0 < b.0 || (a.0 == b.0 && a.1 < b.1)
}

/// Whether `b` lies ahead of `a` in the direction of the search.
pub open spec fn ahead(forward: bool, a: Place, b: Place) -> bool {
    if forward {
        precedes(a, b)
    } else {
        precedes(b, a)
    }
}

/// Whether a search from `from` goes to `to`: the nearest match ahead, or, where
/// there is none ahead, the first one from the other end.
pub open spec fn leads_to(
    lines: Seq<Seq<char>>,
    query: Seq<char>,
    forward: bool,
    from: Place,
    to: Place,
) -> bool {
    &&& is_match(lines, query, to)
    &&& if ahead(forward, from, to) {
        forall|m: Place| #[trigger]
            is_match(lines, query, m) && ahead(forward, from, m) ==> !ahead(forward, m, to)
    } else {
        forall|m: Place| #[trigger]
            is_match(lines, query, m) ==> !ahead(forward, from, m) && !ahead(forward, m, to)
    }
}

/// Whether a match covers this column.
pub open spec fn lit(line: Seq<char>, query: Seq<char>, col: int) -> bool {
    exists|start: int| #[trigger]
        match_at(line, query, start) && start <= col < start + query.len()
}

/// Whether a match covers both this column and the cursor's.
pub open spec fn lit_with_cursor(line: Seq<char>, query: Seq<char>, cx: int, col: int) -> bool {
    exists|start: int| #[trigger]
        match_at(line, query, start) && start <= col < start + query.len() && start <= cx < start
            + query.len()
}

/// Whether the query occurs at the column.
pub fn matches_at(line: &Vec<char>, query: &Vec<char>, col: usize) -> (r: bool)
    ensures
        r == match_at(line@, query@, col as int),
{
    if query.len() == 0 || col > line.len() || line.len() - col < query.len() {
        return false;
    }
    let ghost part = line@.subrange(col as int, col + query@.len());
    let mut k: usize = 0;
    while k < query.len()
        invariant
            k <= query@.len(),
            col + query@.len() <= line@.len() <= usize::MAX,
            part == line@.subrange(col as int, col + query@.len()),
            forall|j: int| 0 <= j < k ==> part[j] == #[trigger] query@[j],
        decreases query@.len() - k,
    {
        if line[col + k] != query[k] {
            assert(part[k as int] != query@[k as int]);
            return false;
        }
        k += 1;
    }
    assert(part == query@);
    true
}

/// The first match in the line at `start` or behind it.
fn find_from(line: &Vec<char>, query: &Vec<char>, start: usize) -> (r: Option<usize>)
    ensures
        match r {
            Some(c) => start <= c && match_at(line@, query@, c as int) && forall|k: int|
                start <= k < c ==> !#[trigger] match_at(line@, query@, k),
            None => forall|k: int| start <= k ==> !#[trigger] match_at(line@, query@, k),
        },
{
    let mut c: usize = start;
    while c < line.len()
        invariant
            start <= c,
            forall|k: int| start <= k < c ==> !#[trigger] match_at(line@, query@, k),
        decreases line@.len() - c,
    {
        if matches_at(line, query, c) {
            return Some(c);
        }
        c += 1;
    }
    None
}

/// The last match in the line in front of `end`.
fn find_before(line: &Vec<char>, query: &Vec<char>, end: usize) -> (r: Option<usize>)
    ensures
        match r {
            Some(c) => c < end && match_at(line@, query@, c as int) && forall|k: int|
                c < k < end ==> !#[trigger] match_at(line@, query@, k),
            None => forall|k: int| k < end ==> !#[trigger] match_at(line@, query@, k),
        },
{
    let mut c: usize = end;
    while c > 0
        invariant
            c <= end,
            forall|k: int| c <= k < end ==> !#[trigger] match_at(line@, query@, k),
        decreases c,
    {
        c -= 1;
        if matches_at(line, query, c) {
            return Some(c);
        }
    }
    None
}

/// The first match in the lines from `lo` up to `hi`.
fn first_match(lines: &Vec<Vec<char>>, query: &Vec<char>, lo: usize, hi: usize) -> (r: Option<
    (usize, usize),
>)
    requires
        hi <= lines@.len(),
    ensures
        match r {
            Some((li, c)) => lo <= li < hi && is_match(rows(lines@), query@, (li as int, c as int))
                && forall|m: Place| #[trigger]
                is_match(rows(lines@), query@, m) && lo <= m.0 < hi ==> !precedes(
                    m,
                    (li as int, c as int),
                ),
            None => forall|m: Place| #[trigger]
                is_match(rows(lines@), query@, m) ==> !(lo <= m.0 < hi),
        },
{
    let mut li: usize = lo;
    while li < hi
        invariant
            lo <= li,
            hi <= lines@.len(),
            forall|m: Place| #[trigger]
                is_match(rows(lines@), query@, m) ==> !(lo <= m.0 < li),
        decreases hi - li,
    {
        assert(rows(lines@)[li as int] == lines@[li as int]@);
        if let Some(c) = find_from(&lines[li], query, 0) {
            return Some((li, c));
        }
        li += 1;
    }
    None
}

/// The last match in the lines from `lo` up to `hi`.
fn last_match(lines: &Vec<Vec<char>>, query: &Vec<char>, lo: usize, hi: usize) -> (r: Option<
    (usize, usize),
>)
    requires
        hi <= lines@.len(),
    ensures
        match r {
            Some((li, c)) => lo <= li < hi && is_match(rows(lines@), query@, (li as int, c as int))
                && forall|m: Place| #[trigger]
                is_match(rows(lines@), query@, m) && lo <= m.0 < hi ==> !precedes(
                    (li as int, c as int),
                    m,
                ),
            None => forall|m: Place| #[trigger]
                is_match(rows(lines@), query@, m) ==> !(lo <= m.0 < hi),
        },
{
    let mut li: usize = hi;
    while li > lo
        invariant
            li <= hi <= lines@.len(),
            forall|m: Place| #[trigger]
                is_match(rows(lines@), query@, m) ==> !(li <= m.0 < hi),
        decreases li,
    {
        li -= 1;
        assert(rows(lines@)[li as int] == lines@[li as int]@);
        if let Some(c) = find_before(&lines[li], query, lines[li].len()) {
            return Some((li, c));
        }
    }
    None
}

/// Where a search from the place `(cy, cx)` goes. `None` means that the query
/// occurs nowhere.
pub fn find_step(
    lines: &Vec<Vec<char>>,
    query: &Vec<char>,
    forward: bool,
    cy: usize,
    cx: usize,
) -> (r: Option<(usize, usize)>)
    requires
        cy < lines@.len(),
    ensures
        match r {
            Some((li, c)) => leads_to(
                rows(lines@),
                query@,
                forward,
                (cy as int, cx as int),
                (li as int, c as int),
            ),
            None => !occurs(rows(lines@), query@),
        },
{
    let n: usize = lines.len();
    assert(rows(lines@)[cy as int] == lines@[cy as int]@);
    if forward {
        if cx < lines[cy].len() {
            if let Some(c) = find_from(&lines[cy], query, cx + 1) {
                return Some((cy, c));
            }
        }
        if let Some(found) = first_match(lines, query, cy + 1, n) {
            return Some(found);
        }
        first_match(lines, query, 0, cy + 1)
    } else {
        if let Some(c) = find_before(&lines[cy], query, cx) {
            return Some((cy, c));
        }
        if let Some(found) = last_match(lines, query, 0, cy) {
            return Some(found);
        }
        last_match(lines, query, cy, n)
    }
}

/// How a column of a line takes part in the search.
#[derive(Clone, Copy, Debug, PartialEq, Eq, Structural)]
pub enum Hit {
    /// No match covers it.
    Miss,
    /// A match covers it.
    Match,
    /// The match under the cursor covers it.
    Current,
}

/// How a column of a line takes part in the search. `cx` is the cursor's column
/// where the cursor is on this line.
pub open spec fn hit_at(line: Seq<char>, query: Seq<char>, cx: Option<int>, col: int) -> Hit {
    if cx matches Some(x) && lit_with_cursor(line, query, x, col) {
        Hit::Current
    } else if lit(line, query, col) {
        Hit::Match
    } else {
        Hit::Miss
    }
}

/// How a column of a line takes part in the search.
pub fn find_hit(line: &Vec<char>, query: &Vec<char>, cx: Option<usize>, col: usize) -> (r: Hit)
    ensures
        r == hit_at(
            line@,
            query@,
            match cx {
                Some(x) => Some(x as int),
                None => None,
            },
            col as int,
        ),
{
    let n: usize = query.len();
    if n == 0 {
        return Hit::Miss;
    }
    let mut hit: Hit = Hit::Miss;
    let mut start: usize = if col < n { 0 } else { col - n + 1 };
    let ghost first = start;
    while start <= col && start < line.len()
        invariant
            n == query@.len(),
            first == if col < n { 0int } else { col - n + 1 },
            first <= start,
            start <= col + 1,
            hit == Hit::Miss ==> forall|s: int|
                #![trigger match_at(line@, query@, s)]
                first <= s < start ==> !match_at(line@, query@, s),
            hit == Hit::Match ==> lit(line@, query@, col as int),
            hit == Hit::Match && cx is Some ==> forall|s: int|
                #![trigger match_at(line@, query@, s)]
                first <= s < start && match_at(line@, query@, s) ==> !(s <= cx->0 < s + n),
            hit != Hit::Current,
        decreases line@.len() - start,
    {
        if matches_at(line, query, start) {
            if let Some(x) = cx {
                if start <= x && x - start < n {
                    return Hit::Current;
                }
            }
            hit = Hit::Match;
        }
        start += 1;
    }
    hit
}

// ---- laws ----
/// A search has one answer.
pub proof fn law_search_has_one_answer(
    lines: Seq<Seq<char>>,
    query: Seq<char>,
    forward: bool,
    from: Place,
    a: Place,
    b: Place,
)
    requires
        leads_to(lines, query, forward, from, a),
        leads_to(lines, query, forward, from, b),
    ensures
        a == b,
{
    assert(is_match(lines, query, a) && is_match(lines, query, b));
}

/// How far the match is from where a search in this direction starts over.
spec fn far(lines: Seq<Seq<char>>, forward: bool, m: Place) -> (int, int) {
    if forward {
        (m.0, m.1)
    } else {
        (lines.len() - m.0, lines[m.0].len() - m.1)
    }
}

proof fn lemma_nearest(
    lines: Seq<Seq<char>>,
    query: Seq<char>,
    forward: bool,
    from: Place,
    m: Place,
) -> (to: Place)
    requires
        is_match(lines, query, m),
        ahead(forward, from, m) || forall|x: Place| #[trigger]
            is_match(lines, query, x) ==> !ahead(forward, from, x),
    ensures
        leads_to(lines, query, forward, from, to),
        ahead(forward, from, to) == ahead(forward, from, m),
        to == m || ahead(forward, to, m),
    decreases far(lines, forward, m).0, far(lines, forward, m).1,
{
    if leads_to(lines, query, forward, from, m) {
        m
    } else {
        let closer = choose|x: Place| #[trigger]
            is_match(lines, query, x) && ahead(forward, x, m) && (ahead(forward, from, m) ==> ahead(
                forward,
                from,
                x,
            ));
        lemma_nearest(lines, query, forward, from, closer)
    }
}

/// Where the query occurs at all, a search goes somewhere.
pub proof fn law_search_finds_what_occurs(
    lines: Seq<Seq<char>>,
    query: Seq<char>,
    forward: bool,
    from: Place,
) -> (to: Place)
    requires
        occurs(lines, query),
    ensures
        leads_to(lines, query, forward, from, to),
{
    if exists|m: Place| #[trigger] is_match(lines, query, m) && ahead(forward, from, m) {
        let m = choose|m: Place| #[trigger] is_match(lines, query, m) && ahead(forward, from, m);
        lemma_nearest(lines, query, forward, from, m)
    } else {
        let m = choose|m: Place| #[trigger] is_match(lines, query, m);
        lemma_nearest(lines, query, forward, from, m)
    }
}

/// From a match, a search back undoes a search ahead.
pub proof fn law_back_undoes_ahead(
    lines: Seq<Seq<char>>,
    query: Seq<char>,
    forward: bool,
    from: Place,
    to: Place,
)
    requires
        is_match(lines, query, from),
        leads_to(lines, query, forward, from, to),
    ensures
        leads_to(lines, query, !forward, to, from),
{
}

/// A further match on the line of the cursor is not skipped: the search stays on
/// the line and goes no further than that match.
pub proof fn law_second_match_on_a_line_is_not_skipped(
    lines: Seq<Seq<char>>,
    query: Seq<char>,
    forward: bool,
    from: Place,
    m: Place,
    to: Place,
)
    requires
        is_match(lines, query, m),
        m.0 == from.0,
        ahead(forward, from, m),
        leads_to(lines, query, forward, from, to),
    ensures
        to.0 == from.0,
        to == m || ahead(forward, to, m),
{
}

/// Whether `n` searches in one direction lead from `from` to `to`.
pub open spec fn reaches(
    lines: Seq<Seq<char>>,
    query: Seq<char>,
    forward: bool,
    n: nat,
    from: Place,
    to: Place,
) -> bool
    decreases n,
{
    if n == 0 {
        from == to
    } else {
        exists|mid: Place| #[trigger]
            leads_to(lines, query, forward, from, mid) && reaches(
                lines,
                query,
                forward,
                (n - 1) as nat,
                mid,
                to,
            )
    }
}

proof fn lemma_reach_ahead(
    lines: Seq<Seq<char>>,
    query: Seq<char>,
    forward: bool,
    from: Place,
    to: Place,
) -> (n: nat)
    requires
        is_match(lines, query, from),
        is_match(lines, query, to),
        ahead(forward, from, to),
    ensures
        n > 0,
        reaches(lines, query, forward, n, from, to),
    decreases far(lines, !forward, from).0, far(lines, !forward, from).1,
{
    let mid = lemma_nearest(lines, query, forward, from, to);
    if mid == to {
        assert(reaches(lines, query, forward, 0, mid, to));
        1
    } else {
        1 + lemma_reach_ahead(lines, query, forward, mid, to)
    }
}

proof fn lemma_reach_around(
    lines: Seq<Seq<char>>,
    query: Seq<char>,
    forward: bool,
    from: Place,
    to: Place,
) -> (n: nat)
    requires
        is_match(lines, query, from),
        is_match(lines, query, to),
    ensures
        n > 0,
        reaches(lines, query, forward, n, from, to),
    decreases far(lines, !forward, from).0, far(lines, !forward, from).1,
{
    if ahead(forward, from, to) {
        lemma_reach_ahead(lines, query, forward, from, to)
    } else {
        let mid = law_search_finds_what_occurs(lines, query, forward, from);
        if mid == to {
            assert(reaches(lines, query, forward, 0, mid, to));
            1
        } else if ahead(forward, mid, to) {
            1 + lemma_reach_ahead(lines, query, forward, mid, to)
        } else {
            1 + lemma_reach_around(lines, query, forward, mid, to)
        }
    }
}

/// Stepping visits every match: from anywhere, in either direction, some number
/// of steps leads to any given match.
pub proof fn law_every_match_is_visited(
    lines: Seq<Seq<char>>,
    query: Seq<char>,
    forward: bool,
    from: Place,
    to: Place,
) -> (n: nat)
    requires
        is_match(lines, query, to),
    ensures
        n > 0,
        reaches(lines, query, forward, n, from, to),
{
    let mid = law_search_finds_what_occurs(lines, query, forward, from);
    if mid == to {
        assert(reaches(lines, query, forward, 0, mid, to));
        1
    } else {
        1 + lemma_reach_around(lines, query, forward, mid, to)
    }
}

proof fn lemma_steps_end_on_matches(
    lines: Seq<Seq<char>>,
    query: Seq<char>,
    forward: bool,
    n: nat,
    from: Place,
    to: Place,
)
    requires
        n > 0,
        reaches(lines, query, forward, n, from, to),
    ensures
        is_match(lines, query, to),
    decreases n,
{
    let mid = choose|mid: Place| #[trigger]
        leads_to(lines, query, forward, from, mid) && reaches(
            lines,
            query,
            forward,
            (n - 1) as nat,
            mid,
            to,
        );
    if n > 1 {
        lemma_steps_end_on_matches(lines, query, forward, (n - 1) as nat, mid, to);
    }
}

/// What stepping visits and what the screen lights up are the same: a column is
/// lit if and only if steps from `from` lead to a match that covers it.
pub proof fn law_what_is_visited_is_what_is_lit(
    lines: Seq<Seq<char>>,
    query: Seq<char>,
    forward: bool,
    from: Place,
    li: int,
    col: int,
)
    requires
        0 <= li < lines.len(),
    ensures
        lit(lines[li], query, col) <==> exists|n: nat, start: int|
            n > 0 && #[trigger] reaches(lines, query, forward, n, from, (li, start)) && start <= col
                < start + query.len(),
{
    if lit(lines[li], query, col) {
        let start = choose|start: int| #[trigger]
            match_at(lines[li], query, start) && start <= col < start + query.len();
        let to: Place = (li, start);
        assert(is_match(lines, query, to));
        let n = law_every_match_is_visited(lines, query, forward, from, to);
        assert(reaches(lines, query, forward, n, from, (li, start)));
    }
    if exists|n: nat, start: int|
        n > 0 && #[trigger] reaches(lines, query, forward, n, from, (li, start)) && start <= col
            < start + query.len() {
        let (n, start) = choose|n: nat, start: int|
            n > 0 && #[trigger] reaches(lines, query, forward, n, from, (li, start)) && start <= col
                < start + query.len();
        lemma_steps_end_on_matches(lines, query, forward, n, from, (li, start));
        assert(match_at(lines[li], query, start));
    }
}

/// An empty query occurs nowhere and lights nothing.
pub proof fn law_empty_query_lights_nothing(
    lines: Seq<Seq<char>>,
    line: Seq<char>,
    cx: Option<int>,
    col: int,
)
    ensures
        !occurs(lines, Seq::empty()),
        hit_at(line, Seq::empty(), cx, col) == Hit::Miss,
{
}

/// A match is the query, character by character, from its column on and within the
/// line.
pub proof fn law_a_match_is_the_query_itself(
    lines: Seq<Seq<char>>,
    line: Seq<char>,
    query: Seq<char>,
    li: int,
    col: int,
)
    ensures
        match_at(line, query, col) <==> query.len() > 0 && 0 <= col && col + query.len()
            <= line.len() && forall|k: int|
            0 <= k < query.len() ==> line[col + k] == #[trigger] query[k],
        is_match(lines, query, (li, col)) <==> 0 <= li < lines.len() && match_at(
            lines[li],
            query,
            col,
        ),
{
    if query.len() > 0 && 0 <= col && col + query.len() <= line.len() {
        let part = line.subrange(col, col + query.len());
        assert forall|k: int| 0 <= k < query.len() implies part[k] == #[trigger] line[col + k] by {}
        if match_at(line, query, col) {
            assert forall|k: int| 0 <= k < query.len() implies line[col + k] == #[trigger] query[k] by {
                assert(part[k] == query[k]);
            }
        }
        if forall|k: int| 0 <= k < query.len() ==> line[col + k] == #[trigger] query[k] {
            assert forall|k: int| 0 <= k < query.len() implies part[k] == query[k] by {
                assert(line[col + k] == query[k]);
            }
            assert(part == query);
        }
    }
}

/// One place is in front of another if its line is, or, on one line, its column.
pub proof fn law_the_order_of_the_text(a: Place, b: Place)
    ensures
        precedes(a, b) <==> a.0 < b.0 || (a.0 == b.0 && a.1 < b.1),
        precedes(a, b) || precedes(b, a) || a == b,
        !(precedes(a, b) && precedes(b, a)),
{
}

/// A search forward goes to the first match behind the cursor, and one back to the
/// last match in front of it. Where there is none on that side, it goes to the
/// first match of the text, or to the last.
pub proof fn law_a_search_goes_to_the_nearest_match(
    lines: Seq<Seq<char>>,
    query: Seq<char>,
    forward: bool,
    from: Place,
    to: Place,
    m: Place,
)
    requires
        leads_to(lines, query, forward, from, to),
        is_match(lines, query, m),
    ensures
        is_match(lines, query, to),
        forward && precedes(from, m) ==> precedes(from, to) && !precedes(m, to),
        !forward && precedes(m, from) ==> precedes(to, from) && !precedes(to, m),
        forward && !precedes(from, to) ==> !precedes(from, m) && !precedes(m, to),
        !forward && !precedes(to, from) ==> !precedes(m, from) && !precedes(to, m),
{
}

/// The query occurs if and only if a column of a line holds a match.
pub proof fn law_to_occur_is_to_match_somewhere(lines: Seq<Seq<char>>, query: Seq<char>)
    ensures
        occurs(lines, query) <==> exists|li: int, col: int|
            0 <= li < lines.len() && #[trigger] match_at(lines[li], query, col),
{
    if occurs(lines, query) {
        let at = choose|at: Place| #[trigger] is_match(lines, query, at);
        assert(match_at(lines[at.0], query, at.1));
    }
    if exists|li: int, col: int|
        0 <= li < lines.len() && #[trigger] match_at(lines[li], query, col) {
        let (li, col) = choose|li: int, col: int|
            0 <= li < lines.len() && #[trigger] match_at(lines[li], query, col);
        assert(is_match(lines, query, (li, col)));
    }
}

/// A column is part of a match if one starts at it or less than the query's length
/// in front of it, and part of the current one if the same match covers the cursor.
pub proof fn law_what_a_match_covers(
    line: Seq<char>,
    query: Seq<char>,
    x: int,
    col: int,
)
    ensures
        hit_at(line, query, None, col) == Hit::Miss <==> forall|s: int| #[trigger]
            match_at(line, query, s) ==> !(s <= col < s + query.len()),
        hit_at(line, query, None, col) != Hit::Current,
        hit_at(line, query, Some(x), col) == Hit::Miss <==> forall|s: int| #[trigger]
            match_at(line, query, s) ==> !(s <= col < s + query.len()),
        hit_at(line, query, Some(x), col) == Hit::Current <==> exists|s: int| #[trigger]
            match_at(line, query, s) && s <= col < s + query.len() && s <= x < s + query.len(),
        lit(line, query, col) <==> hit_at(line, query, None, col) == Hit::Match,
        lit_with_cursor(line, query, x, col) <==> hit_at(line, query, Some(x), col) == Hit::Current,
{
    if lit_with_cursor(line, query, x, col) {
        let s = choose|s: int| #[trigger]
            match_at(line, query, s) && s <= col < s + query.len() && s <= x < s + query.len();
        assert(match_at(line, query, s));
    }
}

} // verus!
