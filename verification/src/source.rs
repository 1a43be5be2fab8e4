//! The token source: a tokenizer turns the text of a document into its token
//! stream, and the run over that stream.

use vstd::prelude::*;
use vibrato::Tokenizer;
use vibrato::dictionary::LexType;
use crate::model::{Config, ConfigView, LexKind, Span, Token, TokenView, WordKey, token_views};
use crate::pipeline::{lint_tokens, is_well_formed, markup, well_formed};

verus! {

/// The tokenizer of the `vibrato` crate.  Nothing is known of what it holds.
#[verifier::external_type_specification]
#[verifier::external_body]
pub struct ExTokenizer(Tokenizer);

/// Why a run gave no markup.
#[derive(Clone, Copy, Debug, PartialEq, Eq, Structural)]
pub enum LintError {
    /// The token stream is not well formed.
    MalformedStream,
}

/// The token stream that a tokenizer makes of a text.  It depends on the
/// tokenizer and the text alone: every run starts a fresh worker over the
/// unchanged tokenizer.
pub uninterp spec fn token_stream(tokenizer: Tokenizer, input: Seq<char>) -> Seq<TokenView>;

/// Tokenizes `input` with a fresh worker of `tokenizer` (`Tokenizer::new_worker`,
/// `Worker::reset_sentence`, `Worker::tokenize`, `Worker::token_iter`), and copies
/// out of each token its surface, its character range, its feature and its word
/// index.  Trusted: the tokens are the stream of `tokenizer` for `input`; nothing
/// else is claimed of them.
#[verifier::external_body]
pub(crate) fn tokenize(tokenizer: &Tokenizer, input: &str) -> (tokens: Vec<Token>)
    ensures
        token_views(tokens@) == token_stream(*tokenizer, input@),
{
    let mut worker = tokenizer.new_worker();
    worker.reset_sentence(input);
    worker.tokenize();
    let mut tokens = Vec::new();
    for t in worker.token_iter() {
        let kind = match t.lex_type() {
            LexType::System => LexKind::System,
            LexType::User => LexKind::User,
            LexType::Unknown => LexKind::Unknown,
        };
        let span = Span { start: t.range_char().start, end: t.range_char().end };
        let word = WordKey { kind, word_id: t.word_idx().word_id };
        tokens.push(Token { surface: t.surface().to_owned(), span, feature: t.feature().to_owned(), word });
    }
    tokens
}

/// What a run over the stream `ts` owes: the markup of the stream where it is
/// well formed, and the error where it is not.
pub open spec fn is_outcome(ts: Seq<TokenView>, c: ConfigView, r: Result<String, LintError>) -> bool {
    match r {
        Ok(out) => well_formed(ts) && out@ == markup(ts, c),
        Err(e) => !well_formed(ts) && e == LintError::MalformedStream,
    }
}

/// Lints a token stream, whatever it holds: a stream that is not well formed is
/// refused, any other is rendered.
pub fn lint_stream(tokens: &Vec<Token>, config: &Config) -> (r: Result<String, LintError>)
    ensures
        is_outcome(token_views(tokens@), config@, r),
{
    if is_well_formed(tokens) {
        Ok(lint_tokens(tokens, config))
    } else {
        Err(LintError::MalformedStream)
    }
}

/// Lints the document `input`: tokenizes it with `tokenizer` and lints the
/// stream that comes back.
pub fn lint(tokenizer: &Tokenizer, input: &str, config: &Config) -> (r: Result<String, LintError>)
    ensures
        is_outcome(token_stream(*tokenizer, input@), config@, r),
{
    let tokens = tokenize(tokenizer, input);
    lint_stream(&tokens, config)
}

} // verus!
