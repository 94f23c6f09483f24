//! Setting up a parser: the source, the configuration, and the lexing that
//! turns the one into the tokens of the other.

use crate::lexer::Rejected;
use crate::lexer::TokenSpanView;
use crate::lexer::invalid_token;
use crate::lexer::lex;
use crate::lexer::tokenize;
use crate::lexer::views;
use crate::parser::Parser;
use crate::parser::analyzer::error::ParseError;
use crate::parser::config::ParserConfig;
use vstd::prelude::*;

verus! {

/// Collects the source and the configuration of a parser.
pub struct ParserBuilder<'a> {
    source: &'a str,
    config: ParserConfig,
}

impl<'a> ParserBuilder<'a> {
    /// The source that will be parsed.
    pub closed spec fn text(&self) -> Seq<char> {
        self.source@
    }

    /// The configuration as set so far.
    pub closed spec fn settings(&self) -> ParserConfig {
        self.config
    }

    /// A builder for `source` with the default configuration.
    pub fn new(source: &'a str) -> (r: Self)
        ensures
            r.text() == source@,
            r.settings() == ParserConfig::initial(),
    {
        Self { source, config: ParserConfig::default() }
    }

    /// Sets whether a list may end in a comma.
    pub fn allow_trailing_commas(self, allow: bool) -> (r: Self)
        ensures
            r.text() == self.text(),
            r.settings() == (ParserConfig { allow_trailing_commas: allow, ..self.settings() }),
    {
        Self {
            source: self.source,
            config: ParserConfig { allow_trailing_commas: allow, ..self.config },
        }
    }

    /// Sets how many guarded productions may be open at once.
    pub fn max_recursion_depth(self, depth: usize) -> (r: Self)
        ensures
            r.text() == self.text(),
            r.settings() == (ParserConfig { max_recursion_depth: depth, ..self.settings() }),
    {
        Self {
            source: self.source,
            config: ParserConfig { max_recursion_depth: depth, ..self.config },
        }
    }

    /// Lexes the source. The parser starts before the first token, with no
    /// production open; text that is no token is the `BuildError` for it.
    pub fn build(self) -> (r: Result<Parser<'a>, ParseError>)
        ensures
            match r {
                Ok(parser) => {
                    &&& lex(self.text()) == Ok::<Seq<TokenSpanView>, Rejected>(views(parser.tokens@))
                    &&& parser.source@ == self.text()
                    &&& parser.config == self.settings()
                    &&& parser.pos == 0
                    &&& parser.level() == 0
                    &&& parser.cursor() == 0
                    &&& parser.wf()
                },
                Err(error) => lex(self.text()) matches Err(rejected) && error@ == invalid_token(
                    self.text(),
                    rejected,
                ),
            },
    {
        match tokenize(self.source) {
            Ok(tokens) => Ok(Parser::new(tokens, self.config, self.source)),
            Err(error) => Err(error),
        }
    }
}

} // verus!
