//! The proximity scorer: for every occurrence of a repeated word, the gap to its
//! nearest sibling.

use vstd::prelude::*;
use std::collections::HashMap;
use crate::model::Span;
use crate::index::{Group, InvertedIndex};

verus! {

/// The distance between two positions.
pub open spec fn distance(a: int, b: int) -> int {
    if a >= b {
        a - b
    } else {
        b - a
    }
}

/// The gap between two ranges, whichever comes first: the smaller of the
/// distances from the start of one to the end of the other.
pub open spec fn gap(a: Span, b: Span) -> int {
    let d1 = distance(a.start as int, b.end as int);
    let d2 = distance(a.end as int, b.start as int);
    if d1 <= d2 {
        d1
    } else {
        d2
    }
}

/// `d` is the gap from `spans[p]` to the nearest other range of `spans`.
pub open spec fn is_min_gap(spans: Seq<Span>, p: int, d: int) -> bool {
    &&& exists|q: int| 0 <= q < spans.len() && q != p && gap(spans[p], #[trigger] spans[q]) == d
    &&& forall|q: int| 0 <= q < spans.len() && q != p ==> d <= gap(spans[p], #[trigger] spans[q])
}

/// Place `p` of group `g` is an occurrence that gets an annotation: the group
/// has two ranges or more.
pub open spec fn occurs_at(groups: Seq<Group>, g: int, p: int) -> bool {
    &&& 0 <= g < groups.len()
    &&& 0 <= p < groups[g].spans@.len()
    &&& groups[g].spans@.len() >= 2
}

/// Place `(g1, p1)` comes before place `(g, p)`.
pub open spec fn comes_before(g1: int, p1: int, g: int, p: int) -> bool {
    g1 < g || (g1 == g && p1 < p)
}

/// `ann` holds the annotations of the occurrences before place `(g, p)`: each of
/// them has an entry under its start, and every entry is the least gap of an
/// occurrence that starts there.
pub open spec fn annotates_upto(ann: Map<usize, usize>, groups: Seq<Group>, g: int, p: int) -> bool {
    &&& forall|g1: int, p1: int|
        #[trigger] occurs_at(groups, g1, p1) && comes_before(g1, p1, g, p) ==> ann.contains_key(
            groups[g1].spans@[p1].start,
        )
    &&& forall|s: usize| #[trigger]
        ann.contains_key(s) ==> exists|g1: int, p1: int|
            #[trigger] occurs_at(groups, g1, p1) && comes_before(g1, p1, g, p)
                && groups[g1].spans@[p1].start == s && is_min_gap(
                groups[g1].spans@,
                p1,
                ann[s] as int,
            )
}

/// `ann` is the annotation map of `groups`.  Where no two occurrences start at
/// the same place, this fixes every entry.
pub open spec fn annotates(ann: Map<usize, usize>, groups: Seq<Group>) -> bool {
    annotates_upto(ann, groups, groups.len() as int, 0)
}

/// The gap between `a` and `b`.
pub fn span_gap(a: Span, b: Span) -> (d: usize)
    ensures
        d == gap(a, b),
{
    let d1: usize = if a.start >= b.end {
        a.start - b.end
    } else {
        b.end - a.start
    };
    let d2: usize = if a.end >= b.start {
        a.end - b.start
    } else {
        b.start - a.end
    };
    if d1 <= d2 {
        d1
    } else {
        d2
    }
}

/// The gap from `spans[p]` to the nearest other range, or `None` where there is
/// no other range.
pub fn nearest_gap(spans: &Vec<Span>, p: usize) -> (nearest: Option<usize>)
    requires
        p < spans.len(),
    ensures
        match nearest {
            Some(d) => is_min_gap(spans@, p as int, d as int),
            None => spans.len() == 1,
        },
{
    let mut best: Option<usize> = None;
    let mut q: usize = 0;
    while q < spans.len()
        invariant
            q <= spans.len(),
            p < spans.len(),
            match best {
                Some(d) => {
                    &&& exists|r: int| 0 <= r < q && r != p && gap(spans@[p as int], #[trigger] spans@[r]) == d
                    &&& forall|r: int| 0 <= r < q && r != p ==> d <= gap(spans@[p as int], #[trigger] spans@[r])
                },
                None => q == 0 || (q == 1 && p == 0),
            },
        decreases spans.len() - q,
    {
        if q != p {
            let d = span_gap(spans[p], spans[q]);
            best = match best {
                Some(b) => if d < b {
                    Some(d)
                } else {
                    Some(b)
                },
                None => Some(d),
            };
        }
        q += 1;
    }
    best
}

/// Scores every occurrence of every word that occurs twice or more, and files
/// the result under the start of the occurrence.
pub fn score(index: &InvertedIndex) -> (annotations: HashMap<usize, usize>)
    ensures
        annotates(annotations@, index.groups@),
{
    let mut annotations: HashMap<usize, usize> = HashMap::new();
    let mut g: usize = 0;
    while g < index.groups.len()
        invariant
            g <= index.groups.len(),
            annotates_upto(annotations@, index.groups@, g as int, 0),
        decreases index.groups.len() - g,
    {
        let spans = &index.groups[g].spans;
        let mut p: usize = 0;
        while p < spans.len()
            invariant
                g < index.groups.len(),
                spans == &index.groups@[g as int].spans,
                p <= spans.len(),
                annotates_upto(annotations@, index.groups@, g as int, p as int),
            decreases spans.len() - p,
        {
            match nearest_gap(spans, p) {
                Some(d) => {
                    let ghost before = annotations@;
                    annotations.insert(spans[p].start, d);
                    proof {
                        let groups = index.groups@;
                        assert(occurs_at(groups, g as int, p as int));
                        assert forall|s: usize| #[trigger]
                            annotations@.contains_key(s) implies exists|g1: int, p1: int|
                            #[trigger] occurs_at(groups, g1, p1) && comes_before(g1, p1, g as int, p + 1)
                                && groups[g1].spans@[p1].start == s && is_min_gap(
                                groups[g1].spans@,
                                p1,
                                annotations@[s] as int,
                            ) by {
                            if s == spans@[p as int].start {
                                assert(occurs_at(groups, g as int, p as int) && comes_before(
                                    g as int,
                                    p as int,
                                    g as int,
                                    p + 1,
                                ));
                            } else {
                                assert(before.contains_key(s));
                            }
                        }
                    }
                },
                None => {},
            }
            p += 1;
        }
        g += 1;
    }
    annotations
}

} // verus!
