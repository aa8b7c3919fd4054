//! Source ranges and their merging into separate highlight regions.
//!
//! A range is a pair of character offsets, start and end, and stands for the
//! closed stretch of source between them. Two ranges that share so much as an
//! end point overlap.

use vstd::prelude::*;

verus! {

/// The range with its ends in order.
pub open spec fn ordered(range: (usize, usize)) -> (usize, usize) {
    if range.0 <= range.1 {
        range
    } else {
        (range.1, range.0)
    }
}

/// Whether a range reaches the point `q`. Points are counted in half steps:
/// point `2 * p` is the offset `p`, point `2 * p + 1` the gap between the
/// offsets `p` and `p + 1`. So a range from `a` to `b` reaches the points
/// from `2 * a` to `2 * b`, and two ranges reach a common point exactly when
/// they overlap.
pub open spec fn reaches(range: (usize, usize), q: int) -> bool {
    2 * range.0 <= q <= 2 * range.1
}

/// Whether one of the ranges, its ends put in order, reaches the point `q`.
pub open spec fn covers(ranges: Seq<(usize, usize)>, q: int) -> bool {
    exists|i: int| 0 <= i < ranges.len() && reaches(ordered(#[trigger] ranges[i]), q)
}

/// Whether the ranges are in source order and apart from each other: each
/// has its ends in order and ends before the next one starts.
pub open spec fn separated(ranges: Seq<(usize, usize)>) -> bool {
    &&& forall|i: int| 0 <= i < ranges.len() ==> (#[trigger] ranges[i]).0 <= ranges[i].1
    &&& forall|i: int, j: int|
        0 <= i < j < ranges.len() ==> (#[trigger] ranges[i]).1 < (#[trigger] ranges[j]).0
}

/// Coverage of a list with one more range at its end.
pub proof fn lemma_covers_push(ranges: Seq<(usize, usize)>, range: (usize, usize), q: int)
    ensures
        covers(ranges.push(range), q) <==> covers(ranges, q) || reaches(ordered(range), q),
{
    let longer = ranges.push(range);
    if covers(ranges, q) {
        let i = choose|i: int| 0 <= i < ranges.len() && reaches(ordered(#[trigger] ranges[i]), q);
        assert(longer[i] == ranges[i]);
    }
    if reaches(ordered(range), q) {
        assert(longer[ranges.len() as int] == range);
    }
    if covers(longer, q) {
        let i = choose|i: int| 0 <= i < longer.len() && reaches(ordered(#[trigger] longer[i]), q);
        if i < ranges.len() {
            assert(ranges[i] == longer[i]);
        }
    }
}

/// Coverage of a list from position `from` on, split at its first range.
pub proof fn lemma_covers_skip(ranges: Seq<(usize, usize)>, from: int, q: int)
    requires
        0 <= from < ranges.len(),
    ensures
        covers(ranges.skip(from), q) <==> reaches(ordered(ranges[from]), q) || covers(
            ranges.skip(from + 1),
            q,
        ),
{
    let tail = ranges.skip(from);
    let rest = ranges.skip(from + 1);
    if covers(tail, q) {
        let i = choose|i: int| 0 <= i < tail.len() && reaches(ordered(#[trigger] tail[i]), q);
        if i > 0 {
            assert(rest[i - 1] == tail[i]);
        }
    }
    if reaches(ordered(ranges[from]), q) {
        assert(tail[0] == ranges[from]);
    }
    if covers(rest, q) {
        let i = choose|i: int| 0 <= i < rest.len() && reaches(ordered(#[trigger] rest[i]), q);
        assert(tail[i + 1] == rest[i]);
    }
}

/// Whether the ranges are a merged form of the spans: apart from each other
/// and in source order, and reaching exactly what the spans reach.
pub open spec fn merged_from(ranges: Seq<(usize, usize)>, spans: Seq<(usize, usize)>) -> bool {
    &&& separated(ranges)
    &&& forall|q: int| #![trigger covers(ranges, q)] covers(ranges, q) <==> covers(spans, q)
}

/// The merged form of the spans. There is exactly one: see
/// `lemma_merged_form_is_unique`.
pub open spec fn merged_ranges(spans: Seq<(usize, usize)>) -> Seq<(usize, usize)> {
    choose|ranges: Seq<(usize, usize)>| merged_from(ranges, spans)
}

/// In a list of separate ranges, a point that the first range reaches is
/// reached by no other, so the rest reach what the list reaches but for the
/// first range.
pub proof fn lemma_separated_rest(ranges: Seq<(usize, usize)>, q: int)
    requires
        separated(ranges),
        ranges.len() > 0,
    ensures
        separated(ranges.skip(1)),
        covers(ranges.skip(1), q) <==> covers(ranges, q) && !reaches(ranges[0], q),
{
    let rest = ranges.skip(1);
    assert(separated(rest)) by {
        assert forall|i: int| 0 <= i < rest.len() implies (#[trigger] rest[i]).0 <= rest[i].1 by {
            assert(rest[i] == ranges[i + 1]);
        }
        assert forall|i: int, j: int| 0 <= i < j < rest.len() implies (#[trigger] rest[i]).1 < (
        #[trigger] rest[j]).0 by {
            assert(rest[i] == ranges[i + 1]);
            assert(rest[j] == ranges[j + 1]);
        }
    }
    lemma_covers_skip(ranges, 0, q);
    assert(ranges.skip(0) =~= ranges);
    assert(ordered(ranges[0]) == ranges[0]);
    if covers(rest, q) {
        let i = choose|i: int| 0 <= i < rest.len() && reaches(ordered(#[trigger] rest[i]), q);
        assert(rest[i] == ranges[i + 1]);
        assert(ranges[0].1 < ranges[i + 1].0);
    }
}

/// Two lists of separate ranges that reach the same points are the same
/// list: the merged form of a set of spans is unique.
pub proof fn lemma_merged_form_is_unique(a: Seq<(usize, usize)>, b: Seq<(usize, usize)>)
    requires
        separated(a),
        separated(b),
        forall|q: int| covers(a, q) <==> covers(b, q),
    ensures
        a == b,
    decreases a.len(),
{
    if a.len() == 0 {
        if b.len() > 0 {
            assert(ordered(b[0]) == b[0]);
            assert(reaches(ordered(b[0]), 2 * b[0].0));
            assert(covers(b, 2 * b[0].0));
            assert(covers(a, 2 * b[0].0));
        }
        assert(a =~= b);
    } else {
        assert(ordered(a[0]) == a[0]);
        assert(reaches(ordered(a[0]), 2 * a[0].0));
        assert(covers(a, 2 * a[0].0));
        assert(covers(b, 2 * a[0].0));
        let j = choose|j: int| 0 <= j < b.len() && reaches(ordered(#[trigger] b[j]), 2 * a[0].0);
        assert(ordered(b[j]) == b[j]);
        assert(ordered(b[0]) == b[0]);
        assert(b[0].0 <= a[0].0) by {
            if j > 0 {
                assert(b[0].1 < b[j].0);
            }
        }
        assert(reaches(ordered(b[0]), 2 * b[0].0));
        assert(covers(b, 2 * b[0].0));
        assert(covers(a, 2 * b[0].0));
        let k = choose|k: int| 0 <= k < a.len() && reaches(ordered(#[trigger] a[k]), 2 * b[0].0);
        assert(ordered(a[k]) == a[k]);
        assert(a[0].0 <= b[0].0) by {
            if k > 0 {
                assert(a[0].1 < a[k].0);
            }
        }
        // the first ranges start together; now their ends
        if a[0].1 < b[0].1 {
            let gap = 2 * a[0].1 + 1;
            assert(reaches(ordered(b[0]), gap));
            assert(covers(b, gap));
            assert(covers(a, gap));
            let m = choose|m: int| 0 <= m < a.len() && reaches(ordered(#[trigger] a[m]), gap);
            assert(ordered(a[m]) == a[m]);
            if m > 0 {
                assert(a[0].1 < a[m].0);
            }
            assert(false);
        }
        if b[0].1 < a[0].1 {
            let gap = 2 * b[0].1 + 1;
            assert(reaches(ordered(a[0]), gap));
            assert(covers(a, gap));
            assert(covers(b, gap));
            let m = choose|m: int| 0 <= m < b.len() && reaches(ordered(#[trigger] b[m]), gap);
            assert(ordered(b[m]) == b[m]);
            if m > 0 {
                assert(b[0].1 < b[m].0);
            }
            assert(false);
        }
        assert(a[0] == b[0]);
        assert forall|q: int| covers(a.skip(1), q) <==> covers(b.skip(1), q) by {
            lemma_separated_rest(a, q);
            lemma_separated_rest(b, q);
        }
        lemma_separated_rest(a, 0);
        lemma_separated_rest(b, 0);
        lemma_merged_form_is_unique(a.skip(1), b.skip(1));
        assert(a =~= seq![a[0]] + a.skip(1));
        assert(b =~= seq![b[0]] + b.skip(1));
    }
}

/// The smallest range that holds two ranges.
pub open spec fn hull(a: (usize, usize), b: (usize, usize)) -> (usize, usize) {
    (
        if a.0 <= b.0 {
            a.0
        } else {
            b.0
        },
        if a.1 >= b.1 {
            a.1
        } else {
            b.1
        },
    )
}

/// A list of separate ranges and one more range have a merged form: separate
/// ranges that reach what the list and the range reach. Its last range ends
/// where the later of the two ends.
pub proof fn lemma_insertion_exists(sorted: Seq<(usize, usize)>, range: (usize, usize)) -> (merged:
    Seq<(usize, usize)>)
    requires
        separated(sorted),
        range.0 <= range.1,
    ensures
        separated(merged),
        forall|q: int|
            #![trigger covers(merged, q)]
            covers(merged, q) <==> covers(sorted, q) || reaches(range, q),
        merged.len() > 0,
        merged.last().1 == (if sorted.len() > 0 && sorted.last().1 > range.1 {
            sorted.last().1
        } else {
            range.1
        }),
    decreases sorted.len(),
{
    if sorted.len() == 0 {
        let merged = seq![range];
        assert forall|q: int| #![trigger covers(merged, q)] covers(merged, q) <==> covers(sorted, q)
            || reaches(range, q) by {
            lemma_covers_push(sorted, range, q);
            assert(sorted.push(range) =~= merged);
        }
        merged
    } else {
        let last = sorted.last();
        let front = sorted.drop_last();
        assert(sorted =~= front.push(last));
        assert(ordered(last) == last);
        assert(separated(front)) by {
            assert forall|i: int| 0 <= i < front.len() implies (#[trigger] front[i]).0
                <= front[i].1 by {
                assert(front[i] == sorted[i]);
            }
            assert forall|i: int, j: int| 0 <= i < j < front.len() implies (#[trigger] front[i]).1 < (
            #[trigger] front[j]).0 by {
                assert(front[i] == sorted[i]);
                assert(front[j] == sorted[j]);
            }
        }
        if front.len() > 0 {
            assert(front.last() == sorted[sorted.len() - 2]);
            assert(sorted[sorted.len() - 2].1 < sorted[sorted.len() - 1].0);
        }
        if last.1 < range.0 {
            let merged = sorted.push(range);
            assert(separated(merged)) by {
                assert forall|i: int, j: int| 0 <= i < j < merged.len() implies (
                #[trigger] merged[i]).1 < (#[trigger] merged[j]).0 by {
                    if j == sorted.len() {
                        if i < sorted.len() - 1 {
                            assert(sorted[i].1 < sorted[sorted.len() - 1].0);
                        }
                    } else {
                        assert(sorted[i].1 < sorted[j].0);
                    }
                }
            }
            assert forall|q: int| #![trigger covers(merged, q)] covers(merged, q) <==> covers(
                sorted,
                q,
            ) || reaches(range, q) by {
                lemma_covers_push(sorted, range, q);
            }
            merged
        } else if range.1 < last.0 {
            let inner = lemma_insertion_exists(front, range);
            let merged = inner.push(last);
            assert(inner.last().1 < last.0);
            assert(separated(merged)) by {
                assert forall|i: int, j: int| 0 <= i < j < merged.len() implies (
                #[trigger] merged[i]).1 < (#[trigger] merged[j]).0 by {
                    if j == inner.len() {
                        if i < inner.len() - 1 {
                            assert(inner[i].1 < inner[inner.len() - 1].0);
                        }
                    } else {
                        assert(inner[i].1 < inner[j].0);
                    }
                }
            }
            assert forall|q: int| #![trigger covers(merged, q)] covers(merged, q) <==> covers(
                sorted,
                q,
            ) || reaches(range, q) by {
                lemma_covers_push(inner, last, q);
                lemma_covers_push(front, last, q);
                assert(covers(inner, q) <==> covers(front, q) || reaches(range, q));
            }
            merged
        } else {
            let joined = hull(range, last);
            let merged = lemma_insertion_exists(front, joined);
            assert forall|q: int| #![trigger covers(merged, q)] covers(merged, q) <==> covers(
                sorted,
                q,
            ) || reaches(range, q) by {
                lemma_covers_push(front, last, q);
                assert(covers(merged, q) <==> covers(front, q) || reaches(joined, q));
            }
            merged
        }
    }
}

/// Every list of spans has a merged form.
pub proof fn lemma_merged_form_exists(spans: Seq<(usize, usize)>) -> (merged: Seq<(usize, usize)>)
    ensures
        merged_from(merged, spans),
    decreases spans.len(),
{
    if spans.len() == 0 {
        let merged = Seq::<(usize, usize)>::empty();
        assert forall|q: int| #![trigger covers(merged, q)] covers(merged, q) <==> covers(
            spans,
            q,
        ) by {}
        merged
    } else {
        let front = lemma_merged_form_exists(spans.drop_last());
        let merged = lemma_insertion_exists(front, ordered(spans.last()));
        assert(spans =~= spans.drop_last().push(spans.last()));
        assert forall|q: int| #![trigger covers(merged, q)] covers(merged, q) <==> covers(
            spans,
            q,
        ) by {
            lemma_covers_push(spans.drop_last(), spans.last(), q);
            assert(covers(front, q) <==> covers(spans.drop_last(), q));
            assert(covers(merged, q) <==> covers(front, q) || reaches(ordered(spans.last()), q));
        }
        merged
    }
}

/// The merged form of any spans is made of separate ranges in source order
/// that reach exactly what the spans reach.
pub proof fn lemma_merged_ranges_are_separate(spans: Seq<(usize, usize)>)
    ensures
        merged_from(merged_ranges(spans), spans),
{
    let merged = lemma_merged_form_exists(spans);
}

/// A merged form of the spans is the merged form of them.
pub proof fn lemma_merged_ranges(ranges: Seq<(usize, usize)>, spans: Seq<(usize, usize)>)
    requires
        merged_from(ranges, spans),
    ensures
        ranges == merged_ranges(spans),
{
    let chosen = merged_ranges(spans);
    assert(merged_from(chosen, spans));
    assert forall|q: int| covers(ranges, q) <==> covers(chosen, q) by {
        assert(covers(ranges, q) <==> covers(spans, q));
        assert(covers(chosen, q) <==> covers(spans, q));
    }
    lemma_merged_form_is_unique(ranges, chosen);
}

/// What holds while `insert_range` walks the list: the ranges put out so
/// far, the range in hand while it is not put out yet, and the ranges still
/// to come reach together what the list and the new range reach.
spec fn insertion_keeps_reach(
    merged: Seq<(usize, usize)>,
    placed: bool,
    current: (usize, usize),
    rest: Seq<(usize, usize)>,
    sorted: Seq<(usize, usize)>,
    range: (usize, usize),
    q: int,
) -> bool {
    (covers(merged, q) || (!placed && reaches(current, q)) || covers(rest, q)) <==> (covers(
        sorted,
        q,
    ) || reaches(range, q))
}

/// Puts one range into a list of separate ranges, joining it with every
/// range that it overlaps.
pub fn insert_range(sorted: &Vec<(usize, usize)>, range: (usize, usize)) -> (merged: Vec<
    (usize, usize),
>)
    requires
        separated(sorted@),
        range.0 <= range.1,
    ensures
        separated(merged@),
        forall|q: int|
            #![trigger covers(merged@, q)]
            covers(merged@, q) <==> covers(sorted@, q) || reaches(range, q),
{
    let mut merged: Vec<(usize, usize)> = Vec::new();
    let mut current = range;
    let mut placed = false;
    let mut i: usize = 0;
    proof {
        assert(sorted@.skip(0) =~= sorted@);
        assert forall|q: int| !covers(merged@, q) by {}
    }
    while i < sorted.len()
        invariant
            i <= sorted.len(),
            separated(sorted@),
            separated(merged@),
            current.0 <= current.1,
            !placed ==> forall|k: int| 0 <= k < merged.len() ==> (#[trigger] merged@[k]).1 < current.0,
            forall|k: int, j: int|
                0 <= k < merged.len() && i <= j < sorted.len() ==> (#[trigger] merged@[k]).1 < (
                #[trigger] sorted@[j]).0,
            placed ==> forall|j: int| i <= j < sorted.len() ==> current.1 < (#[trigger] sorted@[j]).0,
            forall|q: int| #[trigger]
                insertion_keeps_reach(
                    merged@,
                    placed,
                    current,
                    sorted@.skip(i as int),
                    sorted@,
                    range,
                    q,
                ),
        decreases sorted.len() - i,
    {
        let span = sorted[i];
        let ghost before = merged@;
        let ghost was_placed = placed;
        let ghost was_current = current;
        assert(span.0 <= span.1);
        assert(ordered(span) == span);
        if span.1 < current.0 {
            merged.push(span);
        } else if current.1 < span.0 {
            if !placed {
                merged.push(current);
                placed = true;
            }
            merged.push(span);
        } else {
            assert(!placed);
            current = (
                if span.0 < current.0 {
                    span.0
                } else {
                    current.0
                },
                if span.1 > current.1 {
                    span.1
                } else {
                    current.1
                },
            );
        }
        proof {
            assert forall|q: int| #[trigger]
                insertion_keeps_reach(
                    merged@,
                    placed,
                    current,
                    sorted@.skip(i + 1),
                    sorted@,
                    range,
                    q,
                ) by {
                assert(insertion_keeps_reach(
                    before,
                    was_placed,
                    was_current,
                    sorted@.skip(i as int),
                    sorted@,
                    range,
                    q,
                ));
                lemma_covers_skip(sorted@, i as int, q);
                assert(ordered(was_current) == was_current);
                if span.1 < was_current.0 {
                    lemma_covers_push(before, span, q);
                } else if was_current.1 < span.0 {
                    if !was_placed {
                        lemma_covers_push(before, was_current, q);
                        lemma_covers_push(before.push(was_current), span, q);
                    } else {
                        lemma_covers_push(before, span, q);
                    }
                }
            }
        }
        i = i + 1;
    }
    let ghost before = merged@;
    if !placed {
        merged.push(current);
    }
    proof {
        assert forall|q: int|
            #![trigger covers(merged@, q)]
            covers(merged@, q) <==> covers(sorted@, q) || reaches(range, q) by {
            assert(insertion_keeps_reach(
                before,
                placed,
                current,
                sorted@.skip(sorted.len() as int),
                sorted@,
                range,
                q,
            ));
            assert(!covers(sorted@.skip(sorted.len() as int), q));
            if !placed {
                lemma_covers_push(before, current, q);
            }
        }
    }
    merged
}

/// Merges the ranges that overlap, and puts the result in source order.
///
/// The ranges that come out are apart from each other, and together they
/// reach exactly the points that the ranges given reach.
pub fn merge_overlaps(spans: &Vec<(usize, usize)>) -> (merged: Vec<(usize, usize)>)
    ensures
        merged_from(merged@, spans@),
        merged@ == merged_ranges(spans@),
{
    let mut merged: Vec<(usize, usize)> = Vec::new();
    let mut i: usize = 0;
    proof {
        assert forall|q: int| !covers(merged@, q) && !covers(spans@.take(0), q) by {}
    }
    while i < spans.len()
        invariant
            i <= spans.len(),
            separated(merged@),
            forall|q: int|
                #![trigger covers(merged@, q)]
                covers(merged@, q) <==> covers(spans@.take(i as int), q),
        decreases spans.len() - i,
    {
        let span = spans[i];
        let range = if span.0 <= span.1 {
            span
        } else {
            (span.1, span.0)
        };
        let ghost before = merged@;
        merged = insert_range(&merged, range);
        proof {
            assert(spans@.take(i + 1) =~= spans@.take(i as int).push(span));
            assert forall|q: int|
                #![trigger covers(merged@, q)]
                covers(merged@, q) <==> covers(spans@.take(i + 1), q) by {
                assert(covers(before, q) <==> covers(spans@.take(i as int), q));
                lemma_covers_push(spans@.take(i as int), span, q);
            }
        }
        i = i + 1;
    }
    proof {
        assert(spans@.take(spans.len() as int) =~= spans@);
        lemma_merged_ranges(merged@, spans@);
    }
    merged
}

} // verus!
