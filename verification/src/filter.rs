//! The token filter: which tokens take no part in scoring.

use vstd::prelude::*;
use crate::model::{Config, ConfigView, Token, TokenView, text_views};

verus! {

/// `n` is where the leading component of `s` ends: no comma stands before it,
/// and it is the end of `s` or the place of a comma.
pub open spec fn is_leading_len(s: Seq<char>, n: int) -> bool {
    &&& 0 <= n <= s.len()
    &&& forall|i: int| 0 <= i < n ==> s[i] != ','
    &&& n < s.len() ==> s[n] == ','
}

/// The length of the text before the first comma of `s` (all of `s` if it has none).
pub open spec fn leading_len(s: Seq<char>) -> int {
    choose|n: int| is_leading_len(s, n)
}

/// The part of speech of a feature text: what stands before its first comma.
pub open spec fn pos_of(feature: Seq<char>) -> Seq<char> {
    feature.take(leading_len(feature))
}

/// A token is ignored when its part of speech is listed in `ignore_pos` or its
/// surface in `ignore_words`; the match is exact.
pub open spec fn ignored(t: TokenView, c: ConfigView) -> bool {
    c.ignore_pos.contains(pos_of(t.feature)) || c.ignore_words.contains(t.surface)
}

/// Only one length ends the leading component.
pub proof fn lemma_leading_len_unique(s: Seq<char>, n: int)
    requires
        is_leading_len(s, n),
    ensures
        leading_len(s) == n,
{
    let m = leading_len(s);
    assert(is_leading_len(s, m));
    if m < n {
        assert(s[m] == ',');
    } else if n < m {
        assert(s[n] == ',');
    }
}

/// The text of `feature` before its first comma.
pub fn leading_component(feature: &str) -> (pos: String)
    ensures
        pos@ == pos_of(feature@),
{
    let n: usize = feature.unicode_len();
    let mut i: usize = 0;
    while i < n && feature.get_char(i) != ','
        invariant
            n == feature@.len(),
            i <= n,
            forall|k: int| 0 <= k < i ==> feature@[k] != ',',
        decreases n - i,
    {
        i += 1;
    }
    proof {
        lemma_leading_len_unique(feature@, i as int);
    }
    feature.substring_char(0, i).to_owned()
}

/// Whether `text` is one of `list`.
pub fn contains_text(list: &Vec<String>, text: &String) -> (found: bool)
    ensures
        found == text_views(list@).contains(text@),
{
    let mut i: usize = 0;
    while i < list.len()
        invariant
            i <= list.len(),
            forall|k: int| 0 <= k < i ==> list@[k]@ != text@,
        decreases list.len() - i,
    {
        if list[i] == *text {
            assert(text_views(list@)[i as int] == text@);
            return true;
        }
        i += 1;
    }
    assert forall|k: int| 0 <= k < text_views(list@).len() implies text_views(list@)[k] != text@ by {
        assert(text_views(list@)[k] == list@[k]@);
    }
    false
}

/// Whether `token` is left out of scoring under `config`.
pub fn is_ignored(token: &Token, config: &Config) -> (b: bool)
    ensures
        b == ignored(token@, config@),
{
    let pos = leading_component(token.feature.as_str());
    contains_text(&config.ignore_pos, &pos) || contains_text(&config.ignore_words, &token.surface)
}

} // verus!
