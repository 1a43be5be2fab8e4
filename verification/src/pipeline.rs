//! The whole run over one token stream, and what its result means.

use vstd::prelude::*;
use crate::model::{Config, ConfigView, Token, TokenView, WordKey, token_views};
use crate::filter::ignored;
use crate::index::{Group, build_index, indexes, lemma_span_has_token, lemma_token_has_span, spans_of};
use crate::score::{annotates, gap, is_min_gap, occurs_at, comes_before, score};
use crate::render::{flagged, flags, lemma_body_agrees, page, render};

verus! {

/// A stream is well formed when no range ends before it starts, and every token
/// starts after the start of each token before it and not before its end.
pub open spec fn well_formed(ts: Seq<TokenView>) -> bool {
    &&& forall|i: int| 0 <= i < ts.len() ==> (#[trigger] ts[i]).span.start <= ts[i].span.end
    &&& forall|i: int, j: int|
        0 <= i < j < ts.len() ==> (#[trigger] ts[i]).span.end <= (#[trigger] ts[j]).span.start
            && ts[i].span.start < ts[j].span.start
}

/// Token `j` is another scored occurrence of the word of token `i`.
pub open spec fn is_sibling(ts: Seq<TokenView>, c: ConfigView, i: int, j: int) -> bool {
    &&& 0 <= j < ts.len()
    &&& j != i
    &&& !ignored(ts[j], c)
    &&& ts[j].word == ts[i].word
}

/// Token `i` is too close to a repetition: it is scored, and the gap to one of
/// its siblings is below the threshold.
pub open spec fn is_alert(ts: Seq<TokenView>, c: ConfigView, i: int) -> bool {
    &&& !ignored(ts[i], c)
    &&& exists|j: int| #[trigger]
        is_sibling(ts, c, i, j) && gap(ts[i].span, ts[j].span) < c.distance_threshold
}

/// `d` is the distance of token `i`: the gap to its nearest sibling.
pub open spec fn is_distance(ts: Seq<TokenView>, c: ConfigView, i: int, d: int) -> bool {
    &&& exists|j: int| #[trigger] is_sibling(ts, c, i, j) && gap(ts[i].span, ts[j].span) == d
    &&& forall|j: int| #[trigger] is_sibling(ts, c, i, j) ==> d <= gap(ts[i].span, ts[j].span)
}

/// The places of `ts` that are alerts under `c`.
pub open spec fn alerts(ts: Seq<TokenView>, c: ConfigView) -> spec_fn(int) -> bool {
    |i: int| is_alert(ts, c, i)
}

/// The markup of a document: every token in order, the alerts flagged.
pub open spec fn markup(ts: Seq<TokenView>, c: ConfigView) -> Seq<char> {
    page(ts, alerts(ts, c))
}

/// In a well-formed stream a later token starts later.
pub proof fn lemma_starts_increase(ts: Seq<TokenView>, i: int, j: int)
    requires
        well_formed(ts),
        0 <= i < j < ts.len(),
    ensures
        ts[i].span.start < ts[j].span.start,
{
    assert(ts[i].span.end <= ts[j].span.start && ts[i].span.start < ts[j].span.start);
}

/// In a well-formed stream the ranges of a group start at different places.
proof fn lemma_spans_start_apart(ts: Seq<TokenView>, c: ConfigView, w: WordKey, n: int, p: int, q: int)
    requires
        well_formed(ts),
        0 <= n <= ts.len(),
        0 <= p < q < spans_of(ts, c, w, n).len(),
    ensures
        spans_of(ts, c, w, n)[p].start < spans_of(ts, c, w, n)[q].start,
    decreases n,
{
    let rest = spans_of(ts, c, w, n - 1);
    if !ignored(ts[n - 1], c) && ts[n - 1].word == w && q == rest.len() {
        let i = lemma_span_has_token(ts, c, w, n - 1, p);
        lemma_starts_increase(ts, i, n - 1);
    } else {
        lemma_spans_start_apart(ts, c, w, n - 1, p, q);
    }
}

/// On a well-formed stream, a token is flagged by the annotations of its index
/// exactly when it is an alert.
proof fn lemma_flag_is_alert(
    groups: Seq<Group>,
    ann: Map<usize, usize>,
    ts: Seq<TokenView>,
    c: ConfigView,
    k: int,
)
    requires
        well_formed(ts),
        indexes(groups, ts, c, ts.len() as int),
        annotates(ann, groups),
        0 <= k < ts.len(),
    ensures
        flagged(ann, c.distance_threshold, ts[k]) == is_alert(ts, c, k),
{
    let n = ts.len() as int;
    let s = ts[k].span.start;
    if ann.contains_key(s) {
        let (g1, p1) = choose|g1: int, p1: int|
            #[trigger] occurs_at(groups, g1, p1) && comes_before(g1, p1, groups.len() as int, 0)
                && groups[g1].spans@[p1].start == s && is_min_gap(
                groups[g1].spans@,
                p1,
                ann[s] as int,
            );
        let w = groups[g1].word;
        let spans = groups[g1].spans@;
        assert(spans == spans_of(ts, c, w, n));
        let i = lemma_span_has_token(ts, c, w, n, p1);
        if i < k {
            lemma_starts_increase(ts, i, k);
        } else if k < i {
            lemma_starts_increase(ts, k, i);
        }
        assert(i == k);
        if ann[s] < c.distance_threshold {
            let q = choose|q: int| 0 <= q < spans.len() && q != p1 && gap(spans[p1], #[trigger] spans[q]) == ann[s] as int;
            let j = lemma_span_has_token(ts, c, w, n, q);
            if q < p1 {
                lemma_spans_start_apart(ts, c, w, n, q, p1);
            } else {
                lemma_spans_start_apart(ts, c, w, n, p1, q);
            }
            assert(is_sibling(ts, c, k, j));
            assert(is_alert(ts, c, k));
        }
        if is_alert(ts, c, k) {
            let j = choose|j: int| #[trigger]
                is_sibling(ts, c, k, j) && gap(ts[k].span, ts[j].span) < c.distance_threshold;
            let q = lemma_token_has_span(ts, c, w, n, j);
            if j < k {
                lemma_starts_increase(ts, j, k);
            } else {
                lemma_starts_increase(ts, k, j);
            }
            assert(spans[q].start != spans[p1].start);
            assert(q != p1);
            assert(ann[s] as int <= gap(spans[p1], spans[q]));
        }
    } else {
        if is_alert(ts, c, k) {
            let j = choose|j: int| #[trigger]
                is_sibling(ts, c, k, j) && gap(ts[k].span, ts[j].span) < c.distance_threshold;
            let w = ts[k].word;
            let g = choose|g: int| 0 <= g < groups.len() && (#[trigger] groups[g]).word == ts[k].word;
            assert(groups[g].spans@ == spans_of(ts, c, w, n));
            let p = lemma_token_has_span(ts, c, w, n, k);
            let q = lemma_token_has_span(ts, c, w, n, j);
            if j < k {
                lemma_starts_increase(ts, j, k);
            } else {
                lemma_starts_increase(ts, k, j);
            }
            assert(p != q);
            assert(occurs_at(groups, g, p) && comes_before(g, p, groups.len() as int, 0));
            assert(false);
        }
    }
}

/// Whether `tokens` is a well-formed stream.
pub fn is_well_formed(tokens: &Vec<Token>) -> (ok: bool)
    ensures
        ok == well_formed(token_views(tokens@)),
{
    let ghost ts = token_views(tokens@);
    let mut i: usize = 0;
    while i < tokens.len()
        invariant
            i <= tokens.len(),
            ts == token_views(tokens@),
            forall|k: int| 0 <= k < i ==> (#[trigger] ts[k]).span.start <= ts[k].span.end,
            forall|a: int, b: int|
                0 <= a < b < i ==> (#[trigger] ts[a]).span.end <= (#[trigger] ts[b]).span.start
                    && ts[a].span.start < ts[b].span.start,
        decreases tokens.len() - i,
    {
        let span = tokens[i].span;
        assert(ts[i as int] == tokens@[i as int]@);
        if span.start > span.end {
            return false;
        }
        if i > 0 {
            let last = tokens[i - 1].span;
            assert(ts[i - 1] == tokens@[i - 1]@);
            if last.end > span.start || last.start >= span.start {
                assert(!(ts[i - 1].span.end <= ts[i as int].span.start && ts[i - 1].span.start
                    < ts[i as int].span.start));
                return false;
            }
            assert forall|a: int| 0 <= a < i implies (#[trigger] ts[a]).span.end <= ts[i as int].span.start
                && ts[a].span.start < ts[i as int].span.start by {
                if a < i - 1 {
                    assert(ts[a].span.end <= ts[i - 1].span.start && ts[a].span.start < ts[i - 1].span.start);
                }
            }
        }
        i += 1;
    }
    true
}

/// Lints a well-formed token stream: builds the index of the tokens that
/// `config` does not ignore, scores every occurrence, and renders the stream
/// with the alerts flagged.
pub fn lint_tokens(tokens: &Vec<Token>, config: &Config) -> (out: String)
    requires
        well_formed(token_views(tokens@)),
    ensures
        out@ == markup(token_views(tokens@), config@),
{
    let index = build_index(tokens, config);
    let annotations = score(&index);
    let out = render(tokens, &annotations, config.distance_threshold);
    proof {
        let ts = token_views(tokens@);
        let c = config@;
        let a = flags(annotations@, config.distance_threshold, ts);
        let b = alerts(ts, c);
        assert forall|k: int| 0 <= k < ts.len() implies #[trigger] a(k) == b(k) by {
            lemma_flag_is_alert(index.groups@, annotations@, ts, c, k);
        }
        lemma_body_agrees(ts, a, b, ts.len() as int);
    }
    out
}

/// A token that is ignored is never an alert, is nobody's sibling and adds no
/// range to the group of any word: only its element in the markup is left of it.
pub proof fn lemma_ignored_takes_no_part(ts: Seq<TokenView>, c: ConfigView, i: int)
    requires
        0 <= i < ts.len(),
        ignored(ts[i], c),
    ensures
        !is_alert(ts, c, i),
        forall|k: int| !is_sibling(ts, c, k, i),
        forall|w: WordKey| #[trigger] spans_of(ts, c, w, i + 1) == spans_of(ts, c, w, i),
{
}

/// A scored token without a sibling is never an alert, whatever the threshold.
pub proof fn lemma_lone_occurrence_never_alert(ts: Seq<TokenView>, c: ConfigView, i: int)
    requires
        forall|j: int| !is_sibling(ts, c, i, j),
    ensures
        !is_alert(ts, c, i),
{
}

/// A token with a sibling has a distance, and it is at most the gap to that
/// sibling.
pub proof fn lemma_distance_exists(ts: Seq<TokenView>, c: ConfigView, i: int, j: int) -> (d: int)
    requires
        is_sibling(ts, c, i, j),
    ensures
        is_distance(ts, c, i, d),
        0 <= d <= gap(ts[i].span, ts[j].span),
    decreases gap(ts[i].span, ts[j].span),
{
    let here = gap(ts[i].span, ts[j].span);
    if exists|k: int| #[trigger] is_sibling(ts, c, i, k) && gap(ts[i].span, ts[k].span) < here {
        let k = choose|k: int| #[trigger] is_sibling(ts, c, i, k) && gap(ts[i].span, ts[k].span) < here;
        lemma_distance_exists(ts, c, i, k)
    } else {
        here
    }
}

/// The threshold is exclusive: a scored token is an alert exactly when its
/// distance is below the threshold, so a distance equal to it is no alert.
pub proof fn lemma_alert_iff_below_threshold(ts: Seq<TokenView>, c: ConfigView, i: int, d: int)
    requires
        !ignored(ts[i], c),
        is_distance(ts, c, i, d),
    ensures
        is_alert(ts, c, i) <==> d < c.distance_threshold,
{
    if d < c.distance_threshold {
        let j = choose|j: int| #[trigger] is_sibling(ts, c, i, j) && gap(ts[i].span, ts[j].span) == d;
        assert(is_sibling(ts, c, i, j) && gap(ts[i].span, ts[j].span) < c.distance_threshold);
    }
}

/// In a well-formed stream the gap between two tokens is what lies between the
/// end of the earlier and the start of the later.
pub proof fn lemma_gap_between(ts: Seq<TokenView>, i: int, j: int)
    requires
        well_formed(ts),
        0 <= i < j < ts.len(),
    ensures
        gap(ts[i].span, ts[j].span) == ts[j].span.start - ts[i].span.end,
        gap(ts[j].span, ts[i].span) == ts[j].span.start - ts[i].span.end,
{
    assert(ts[i].span.end <= ts[j].span.start && ts[i].span.start < ts[j].span.start);
    assert(ts[i].span.start <= ts[i].span.end);
    assert(ts[j].span.start <= ts[j].span.end);
}

/// The markup depends on nothing but the stream and the configuration: equal
/// streams under equal configurations have the same markup.
pub proof fn lemma_markup_is_repeatable(
    ts1: Seq<TokenView>,
    c1: ConfigView,
    ts2: Seq<TokenView>,
    c2: ConfigView,
)
    requires
        ts1.len() == ts2.len(),
        forall|i: int| 0 <= i < ts1.len() ==> ts1[i] == ts2[i],
        c1.distance_threshold == c2.distance_threshold,
        c1.ignore_pos =~= c2.ignore_pos,
        c1.ignore_words =~= c2.ignore_words,
    ensures
        markup(ts1, c1) == markup(ts2, c2),
{
    assert(ts1 =~= ts2);
    let c = ConfigView { proper_nouns: c2.proper_nouns, ..c1 };
    assert(c == c2);
    let a = alerts(ts1, c1);
    let b = alerts(ts1, c);
    assert forall|k: int| 0 <= k < ts1.len() implies #[trigger] a(k) == b(k) by {
        if is_alert(ts1, c1, k) {
            lemma_alert_ignores_nouns(ts1, c1, c, k);
        }
        if is_alert(ts1, c, k) {
            lemma_alert_ignores_nouns(ts1, c, c1, k);
        }
    }
    lemma_body_agrees(ts1, a, b, ts1.len() as int);
}

/// The proper nouns of a configuration have no part in what is an alert.
proof fn lemma_alert_ignores_nouns(ts: Seq<TokenView>, c1: ConfigView, c2: ConfigView, k: int)
    requires
        c1.distance_threshold == c2.distance_threshold,
        c1.ignore_pos == c2.ignore_pos,
        c1.ignore_words == c2.ignore_words,
        is_alert(ts, c1, k),
    ensures
        is_alert(ts, c2, k),
{
    let j = choose|j: int| #[trigger]
        is_sibling(ts, c1, k, j) && gap(ts[k].span, ts[j].span) < c1.distance_threshold;
    assert(is_sibling(ts, c2, k, j));
}

} // verus!
