//! The inverted index: for every scored word, the ranges of its occurrences in
//! document order.

use vstd::prelude::*;
use std::collections::HashMap;
use crate::model::{Config, ConfigView, LexKind, Span, Token, TokenView, WordKey, token_views};
use crate::filter::{ignored, is_ignored};

verus! {

/// The occurrences of one word.
#[derive(Debug)]
pub struct Group {
    pub word: WordKey,
    pub spans: Vec<Span>,
}

/// The groups of a document, one for each word that was scored.
#[derive(Debug)]
pub struct InvertedIndex {
    pub groups: Vec<Group>,
}

/// The ranges, in document order, of the tokens among the first `n` of `ts` that
/// are not ignored and are the word `w`.
pub open spec fn spans_of(ts: Seq<TokenView>, c: ConfigView, w: WordKey, n: int) -> Seq<Span>
    decreases n,
{
    if n <= 0 {
        Seq::empty()
    } else {
        let rest = spans_of(ts, c, w, n - 1);
        if !ignored(ts[n - 1], c) && ts[n - 1].word == w {
            rest.push(ts[n - 1].span)
        } else {
            rest
        }
    }
}

/// `groups` is the index of the first `n` tokens of `ts`: no word has two
/// groups, a group holds exactly the ranges of its word and is not empty, and
/// every token that is not ignored has its group.
pub open spec fn indexes(groups: Seq<Group>, ts: Seq<TokenView>, c: ConfigView, n: int) -> bool {
    &&& forall|g: int, h: int| 0 <= g < h < groups.len() ==> groups[g].word != groups[h].word
    &&& forall|g: int|
        0 <= g < groups.len() ==> (#[trigger] groups[g]).spans@ == spans_of(ts, c, groups[g].word, n)
            && groups[g].spans@.len() > 0
    &&& forall|i: int|
        0 <= i < n && !ignored(#[trigger] ts[i], c) ==> exists|g: int|
            0 <= g < groups.len() && (#[trigger] groups[g]).word == ts[i].word
}

impl InvertedIndex {
    /// The index is that of the whole stream `ts` under `c`.
    pub open spec fn represents(&self, ts: Seq<TokenView>, c: ConfigView) -> bool {
        indexes(self.groups@, ts, c, ts.len() as int)
    }

    /// The index has a group for `w`.
    pub open spec fn has_group(&self, w: WordKey) -> bool {
        exists|g: int| 0 <= g < self.groups@.len() && (#[trigger] self.groups@[g]).word == w
    }

    /// The place of a group of `w`.
    pub open spec fn group_of(&self, w: WordKey) -> int {
        choose|g: int| 0 <= g < self.groups@.len() && (#[trigger] self.groups@[g]).word == w
    }
}

/// An index is the map from each word that has a group to the ranges of that
/// group.
impl View for InvertedIndex {
    type V = Map<WordKey, Seq<Span>>;

    open spec fn view(&self) -> Map<WordKey, Seq<Span>> {
        Map::new(
            |w: WordKey| self.has_group(w),
            |w: WordKey| self.groups@[self.group_of(w)].spans@,
        )
    }
}

/// Some token of `ts` is the word `w` and is not ignored.
pub open spec fn is_scored_word(ts: Seq<TokenView>, c: ConfigView, w: WordKey) -> bool {
    exists|i: int| 0 <= i < ts.len() && !ignored(#[trigger] ts[i], c) && ts[i].word == w
}

/// The inverted index of a stream: every scored word with the ranges of its
/// scored occurrences in document order.
pub open spec fn word_index(ts: Seq<TokenView>, c: ConfigView) -> Map<WordKey, Seq<Span>> {
    Map::new(
        |w: WordKey| is_scored_word(ts, c, w),
        |w: WordKey| spans_of(ts, c, w, ts.len() as int),
    )
}

/// The number that stands for a lexicon kind in a key.
pub open spec fn kind_code(kind: LexKind) -> int {
    match kind {
        LexKind::System => 0,
        LexKind::User => 1,
        LexKind::Unknown => 2,
    }
}

/// The key of a word in the lookup table: its kind above its number.
pub open spec fn word_code(word: WordKey) -> u64 {
    (kind_code(word.kind) * 0x1_0000_0000 + word.word_id) as u64
}

/// Different words have different keys.
pub proof fn lemma_word_code_tells_apart(a: WordKey, b: WordKey)
    requires
        word_code(a) == word_code(b),
    ensures
        a == b,
{
}

/// The key of `word`.
fn code_of(word: WordKey) -> (code: u64)
    ensures
        code == word_code(word),
{
    let kind: u64 = match word.kind {
        LexKind::System => 0,
        LexKind::User => 1,
        LexKind::Unknown => 2,
    };
    kind * 0x1_0000_0000 + word.word_id as u64
}

/// `places` finds the group of every word: under the key of each group's word
/// stands the place of that group, and nothing else stands in it.
pub open spec fn locates(places: Map<u64, usize>, groups: Seq<Group>) -> bool {
    &&& forall|g: int|
        0 <= g < groups.len() ==> places.contains_key(word_code((#[trigger] groups[g]).word))
            && places[word_code(groups[g].word)] == g
    &&& forall|k: u64| #[trigger]
        places.contains_key(k) ==> places[k] < groups.len() && word_code(groups[places[k] as int].word)
            == k
}

/// The place of the group of `word`, or the number of groups if it has none.
fn find_group(places: &HashMap<u64, usize>, groups: &Vec<Group>, word: WordKey) -> (g: usize)
    requires
        locates(places@, groups@),
    ensures
        g <= groups.len(),
        g < groups.len() ==> groups[g as int].word == word,
        g == groups.len() ==> forall|h: int| 0 <= h < groups.len() ==> groups[h].word != word,
{
    let code = code_of(word);
    match places.get(&code) {
        Some(place) => {
            proof {
                lemma_word_code_tells_apart(groups[*place as int].word, word);
            }
            *place
        },
        None => groups.len(),
    }
}

/// Builds the inverted index of `tokens`: every token that `config` does not
/// ignore adds its range to the group of its word, which is made on first sight.
/// A table from the key of a word to the place of its group finds the group.
pub fn build_index(tokens: &Vec<Token>, config: &Config) -> (index: InvertedIndex)
    ensures
        index.represents(token_views(tokens@), config@),
        index@ == word_index(token_views(tokens@), config@),
{
    let ghost ts = token_views(tokens@);
    let ghost c = config@;
    let mut groups: Vec<Group> = Vec::new();
    let mut places: HashMap<u64, usize> = HashMap::new();
    let mut n: usize = 0;
    while n < tokens.len()
        invariant
            n <= tokens.len(),
            ts == token_views(tokens@),
            c == config@,
            indexes(groups@, ts, c, n as int),
            locates(places@, groups@),
        decreases tokens.len() - n,
    {
        let token = &tokens[n];
        assert(ts[n as int] == token@);
        let ghost before = groups@;
        if !is_ignored(token, config) {
            let g = find_group(&places, &groups, token.word);
            if g < groups.len() {
                groups[g].spans.push(token.span);
                assert forall|h: int| 0 <= h < groups@.len() implies (#[trigger] groups@[h]).word
                    == before[h].word by {}
                assert forall|h: int| 0 <= h < groups@.len() implies (#[trigger] groups@[h]).spans@
                    == spans_of(ts, c, groups@[h].word, n + 1) && groups@[h].spans@.len() > 0 by {
                    assert(before[h].word == groups@[h].word);
                    assert(before[h].spans@ == spans_of(ts, c, before[h].word, n as int));
                }
            } else {
                let mut spans: Vec<Span> = Vec::new();
                spans.push(token.span);
                proof {
                    lemma_unseen_word_has_no_span(before, ts, c, token.word, n as int, n as int);
                }
                places.insert(code_of(token.word), g);
                groups.push(Group { word: token.word, spans });
                assert forall|h: int| 0 <= h < before.len() implies (#[trigger] groups@[h]) == before[h] by {}
                assert forall|h: int| 0 <= h < before.len() implies word_code(before[h].word)
                    != word_code(token.word) by {
                    if word_code(before[h].word) == word_code(token.word) {
                        lemma_word_code_tells_apart(before[h].word, token.word);
                    }
                }
                assert forall|h: int| 0 <= h < groups@.len() implies (#[trigger] groups@[h]).spans@
                    == spans_of(ts, c, groups@[h].word, n + 1) && groups@[h].spans@.len() > 0 by {
                    if h < before.len() {
                        assert(before[h] == groups@[h]);
                        assert(before[h].spans@ == spans_of(ts, c, before[h].word, n as int));
                    } else {
                        assert(spans_of(ts, c, token.word, n as int) =~= Seq::<Span>::empty());
                    }
                }
            }
            assert forall|i: int| 0 <= i < n + 1 && !ignored(#[trigger] ts[i], c) implies exists|
                h: int,
            |
                0 <= h < groups@.len() && (#[trigger] groups@[h]).word == ts[i].word by {
                if i < n {
                    let h = choose|h: int| 0 <= h < before.len() && (#[trigger] before[h]).word == ts[i].word;
                    assert(groups@[h].word == ts[i].word);
                } else {
                    let h = if g < before.len() { g as int } else { before.len() as int };
                    assert(groups@[h].word == ts[i].word);
                }
            }
        } else {
            assert forall|h: int| 0 <= h < groups@.len() implies (#[trigger] groups@[h]).spans@
                == spans_of(ts, c, groups@[h].word, n + 1) by {
                assert(before[h].spans@ == spans_of(ts, c, before[h].word, n as int));
            }
        }
        n += 1;
    }
    let index = InvertedIndex { groups };
    proof {
        lemma_index_view(&index, ts, c);
    }
    index
}

/// An index that represents a stream is, as a map, the inverted index of it.
pub proof fn lemma_index_view(index: &InvertedIndex, ts: Seq<TokenView>, c: ConfigView)
    requires
        index.represents(ts, c),
    ensures
        index@ == word_index(ts, c),
{
    let n = ts.len() as int;
    assert forall|w: WordKey| index.has_group(w) implies is_scored_word(ts, c, w) by {
        let g = index.group_of(w);
        assert(index.groups@[g].spans@ == spans_of(ts, c, w, n));
        let i = lemma_span_has_token(ts, c, w, n, 0);
    }
    assert forall|w: WordKey| is_scored_word(ts, c, w) implies index.has_group(w) by {
        let i = choose|i: int| 0 <= i < ts.len() && !ignored(#[trigger] ts[i], c) && ts[i].word == w;
        let g = choose|g: int| 0 <= g < index.groups@.len() && (#[trigger] index.groups@[g]).word == ts[i].word;
    }
    assert forall|w: WordKey| index.has_group(w) implies index.groups@[index.group_of(w)].spans@
        == spans_of(ts, c, w, n) by {
        let g = index.group_of(w);
        assert(index.groups@[g].spans@ == spans_of(ts, c, index.groups@[g].word, n));
    }
    assert(index@ =~= word_index(ts, c));
}

/// Every range of a group is the range of a scored token of its word.
pub proof fn lemma_span_has_token(ts: Seq<TokenView>, c: ConfigView, w: WordKey, n: int, p: int) -> (i:
    int)
    requires
        0 <= n <= ts.len(),
        0 <= p < spans_of(ts, c, w, n).len(),
    ensures
        0 <= i < n,
        !ignored(ts[i], c),
        ts[i].word == w,
        ts[i].span == spans_of(ts, c, w, n)[p],
    decreases n,
{
    if !ignored(ts[n - 1], c) && ts[n - 1].word == w && p == spans_of(ts, c, w, n - 1).len() {
        n - 1
    } else {
        lemma_span_has_token(ts, c, w, n - 1, p)
    }
}

/// Every scored token has its range in the group of its word.
pub proof fn lemma_token_has_span(ts: Seq<TokenView>, c: ConfigView, w: WordKey, n: int, i: int) -> (p:
    int)
    requires
        0 <= i < n <= ts.len(),
        !ignored(ts[i], c),
        ts[i].word == w,
    ensures
        0 <= p < spans_of(ts, c, w, n).len(),
        ts[i].span == spans_of(ts, c, w, n)[p],
    decreases n,
{
    if i == n - 1 {
        spans_of(ts, c, w, n - 1).len() as int
    } else {
        lemma_token_has_span(ts, c, w, n - 1, i)
    }
}


/// A word without a group has no scored occurrence among the first `m` tokens,
/// where every scored token among the first `n` has a group.
proof fn lemma_unseen_word_has_no_span(
    groups: Seq<Group>,
    ts: Seq<TokenView>,
    c: ConfigView,
    w: WordKey,
    n: int,
    m: int,
)
    requires
        0 <= m <= n <= ts.len(),
        forall|i: int|
            0 <= i < n && !ignored(#[trigger] ts[i], c) ==> exists|g: int|
                0 <= g < groups.len() && (#[trigger] groups[g]).word == ts[i].word,
        forall|h: int| 0 <= h < groups.len() ==> groups[h].word != w,
    ensures
        spans_of(ts, c, w, m).len() == 0,
    decreases m,
{
    if m > 0 {
        lemma_unseen_word_has_no_span(groups, ts, c, w, n, m - 1);
        if !ignored(ts[m - 1], c) {
            let g = choose|g: int| 0 <= g < groups.len() && (#[trigger] groups[g]).word == ts[m - 1].word;
            assert(groups[g].word != w);
        }
    }
}

} // verus!
