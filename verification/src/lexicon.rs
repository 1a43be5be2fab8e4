//! The user lexicon that is handed to the tokenizer with the dictionary.

use vstd::prelude::*;
use vstd::string::StringExecFns;
use crate::model::{Config, text_views};

verus! {

/// The entry of one proper noun: the noun, the cost fields, the category.
pub open spec fn entry(noun: Seq<char>) -> Seq<char> {
    noun + ",1293,1293,0,固有名詞"@
}

/// The entries of the first `n` nouns, one a line, with no line end after the
/// last.
pub open spec fn lexicon_text(nouns: Seq<Seq<char>>, n: int) -> Seq<char>
    decreases n,
{
    if n <= 0 {
        Seq::empty()
    } else if n == 1 {
        entry(nouns[0])
    } else {
        lexicon_text(nouns, n - 1) + "\n"@ + entry(nouns[n - 1])
    }
}

/// The user lexicon of `config`: one entry for each of its proper nouns, in
/// order.
pub fn user_lexicon(config: &Config) -> (text: String)
    ensures
        text@ == lexicon_text(config@.proper_nouns, config@.proper_nouns.len() as int),
{
    let ghost nouns = text_views(config.proper_nouns@);
    let mut text = String::new();
    let mut i: usize = 0;
    while i < config.proper_nouns.len()
        invariant
            i <= config.proper_nouns.len(),
            nouns == text_views(config.proper_nouns@),
            text@ == lexicon_text(nouns, i as int),
        decreases config.proper_nouns.len() - i,
    {
        let ghost before = text@;
        if i > 0 {
            text.append("\n");
        }
        text.append(config.proper_nouns[i].as_str());
        text.append(",1293,1293,0,固有名詞");
        assert(nouns[i as int] == config.proper_nouns@[i as int]@);
        assert(text@ =~= lexicon_text(nouns, i + 1));
        i += 1;
    }
    text
}

} // verus!
