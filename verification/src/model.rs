//! The plain data the library works on, and the mathematical view of each.

use vstd::prelude::*;

verus! {

/// A half-open character range `[start, end)` of the document.
#[derive(Clone, Copy, Debug, PartialEq, Eq, Structural)]
pub struct Span {
    pub start: usize,
    pub end: usize,
}

/// The lexicon a word was found in.
#[derive(Clone, Copy, Debug, PartialEq, Eq, Structural)]
pub enum LexKind {
    System,
    User,
    Unknown,
}

/// The identity of a dictionary entry: two tokens are the same word exactly
/// when their keys are equal.
#[derive(Clone, Copy, Debug, PartialEq, Eq, Structural)]
pub struct WordKey {
    pub kind: LexKind,
    pub word_id: u32,
}

/// One token of the document.  The part of speech is the leading component of
/// `feature`.
#[derive(Clone, Debug)]
pub struct Token {
    pub surface: String,
    pub span: Span,
    pub feature: String,
    pub word: WordKey,
}

/// What a token is to the contracts.
pub struct TokenView {
    pub surface: Seq<char>,
    pub span: Span,
    pub feature: Seq<char>,
    pub word: WordKey,
}

impl View for Token {
    type V = TokenView;

    open spec fn view(&self) -> TokenView {
        TokenView {
            surface: self.surface@,
            span: self.span,
            feature: self.feature@,
            word: self.word,
        }
    }
}

/// The views of a token stream, in order.
pub open spec fn token_views(tokens: Seq<Token>) -> Seq<TokenView> {
    Seq::new(tokens.len(), |i: int| tokens[i]@)
}

/// The settings of one run.
#[derive(Clone, Debug)]
pub struct Config {
    pub distance_threshold: usize,
    pub proper_nouns: Vec<String>,
    pub ignore_pos: Vec<String>,
    pub ignore_words: Vec<String>,
}

/// What a configuration is to the contracts: the proper nouns in their order,
/// the two ignore lists as sets.
pub struct ConfigView {
    pub distance_threshold: usize,
    pub proper_nouns: Seq<Seq<char>>,
    pub ignore_pos: Set<Seq<char>>,
    pub ignore_words: Set<Seq<char>>,
}

/// The views of a list of strings, in order.
pub open spec fn text_views(texts: Seq<String>) -> Seq<Seq<char>> {
    Seq::new(texts.len(), |i: int| texts[i]@)
}

impl View for Config {
    type V = ConfigView;

    open spec fn view(&self) -> ConfigView {
        ConfigView {
            distance_threshold: self.distance_threshold,
            proper_nouns: text_views(self.proper_nouns@),
            ignore_pos: text_views(self.ignore_pos@).to_set(),
            ignore_words: text_views(self.ignore_words@).to_set(),
        }
    }
}

} // verus!
