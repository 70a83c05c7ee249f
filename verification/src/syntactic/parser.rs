//! The parser's state and its smallest steps.
use crate::ast::string_views;
use crate::lexer::{Lexer, LexError};
use crate::lexical::{lex, places_words, words_of};
use crate::symbol_pool::{predefined_texts, SymbolPool};
use crate::text::{Chars, join4};
use crate::token::Token;
use super::grammar::{expect, ident, is_integer, is_name, is_token, Out, St, Words};
use vstd::prelude::*;

verus! {

/// A recursive-descent parser.
pub struct Parser {
    /// The tokens of the source, each with its text.
    pub tokens: Vec<(Token, String)>,
    /// The place of the next token.
    pub pos: usize,
    /// The number of the next expression.
    pub expr_id_counter: usize,
    /// The type parameters of the functions around, the innermost last.
    pub generic_scopes: Vec<Vec<String>>,
    /// Whether a brace behind a name starts a block and no structure.
    pub no_struct_literal: bool,
}

/// The names of the type parameters in each scope.
pub open spec fn scope_views(s: Seq<Vec<String>>) -> Seq<Seq<Chars>> {
    Seq::new(s.len(), |i: int| string_views(s[i]@))
}

/// The tokens of a source that can be turned into tokens.
pub open spec fn source_words(source: Chars) -> Words {
    places_words(source, lex(source, predefined_texts()).places)
}

/// The state before the first token.
pub open spec fn start() -> St {
    St { pos: 0, ids: 0, no_struct: false, scopes: Seq::empty() }
}

impl Parser {
    /// The tokens with their texts.
    pub open spec fn words(self) -> Words {
        words_of(self.tokens@)
    }

    /// The state.
    pub open spec fn st(self) -> St {
        St {
            pos: self.pos as nat,
            ids: self.expr_id_counter as nat,
            no_struct: self.no_struct_literal,
            scopes: scope_views(self.generic_scopes@),
        }
    }

    /// The parser is within its tokens, and has given out no more numbers than it
    /// has read tokens.
    pub open spec fn wf(self) -> bool {
        self.expr_id_counter <= self.pos <= self.tokens.len()
    }

    /// How many tokens are left.
    pub open spec fn left(self) -> int {
        self.tokens.len() - self.pos
    }

    /// Whether the parser got from `self` to `next` by a phrase that gives `o`.
    pub open spec fn moved<T>(self, next: Parser, o: Out<T>) -> bool {
        &&& next.wf()
        &&& next.tokens == self.tokens
        &&& next.pos >= self.pos
        &&& next.st() == self.st().after(o)
        &&& next.pos - next.expr_id_counter >= self.pos - self.expr_id_counter
        &&& o.res is Ok ==> next.st().no_struct == self.st().no_struct
    }

    /// Whether the parser got from `self` to `next` by a phrase that gives `o` and
    /// leaves the type parameters known as they were where it succeeds.
    pub open spec fn ran<T>(self, next: Parser, o: Out<T>) -> bool {
        &&& self.moved(next, o)
        &&& o.res is Ok ==> next.st().scopes == self.st().scopes
    }

    /// A parser of a source that has no lexical fault.
    pub fn new(input: &str) -> (r: Self)
        requires
            lex(input@, predefined_texts()).fault is None,
        ensures
            r.wf(),
            r.words() == source_words(input@),
            r.st() == start(),
    {
        let mut pool = SymbolPool::new();
        let mut lexer = Lexer::new(input);
        match lexer.tokenize_with_text(&mut pool) {
            Ok(tokens) => Parser::of_tokens(tokens),
            Err(_) => Parser::of_tokens(Vec::new()),
        }
    }

    /// A parser of a source, or the source's lexical fault.
    pub fn from_source(input: &str) -> (r: Result<Self, LexError>)
        ensures
            match r {
                Ok(parser) => {
                    &&& lex(input@, predefined_texts()).fault is None
                    &&& parser.wf()
                    &&& parser.words() == source_words(input@)
                    &&& parser.st() == start()
                },
                Err(e) => lex(input@, predefined_texts()).fault == Some(e@),
            },
    {
        let mut pool = SymbolPool::new();
        let mut lexer = Lexer::new(input);
        match lexer.tokenize(&mut pool) {
            Ok(_) => Ok(Parser::new(input)),
            Err(e) => Err(e),
        }
    }

    /// A parser of those tokens.
    pub fn of_tokens(tokens: Vec<(Token, String)>) -> (r: Self)
        ensures
            r.wf(),
            r.words() == words_of(tokens@),
            r.st() == start(),
    {
        let parser = Parser {
            tokens,
            pos: 0,
            expr_id_counter: 0,
            generic_scopes: Vec::new(),
            no_struct_literal: false,
        };
        assert(parser.st().scopes =~= Seq::<Seq<Chars>>::empty());
        parser
    }

    /// The next token.
    pub fn peek(&self) -> (r: Option<Token>)
        ensures
            r is Some == self.st().more(self.words()),
            r matches Some(t) ==> t == self.st().token(self.words()),
    {
        if self.pos < self.tokens.len() {
            Some(self.tokens[self.pos].0)
        } else {
            None
        }
    }

    /// Whether the next token is `t`.
    pub fn at(&self, t: Token) -> (r: bool)
        ensures
            r == self.st().at(self.words(), t),
    {
        proof {
            reveal(is_token);
        }
        self.pos < self.tokens.len() && self.tokens[self.pos].0 == t
    }

    /// Whether the token behind the next one is `t`.
    pub fn then_at(&self, t: Token) -> (r: bool)
        requires
            self.wf(),
        ensures
            r == self.st().then_at(self.words(), t),
    {
        proof {
            reveal(is_token);
        }
        self.tokens.len() - self.pos > 1 && self.tokens[self.pos + 1].0 == t
    }

    /// Whether the next token is a name.
    pub fn at_ident(&self) -> (r: bool)
        ensures
            r == (self.st().more(self.words()) && is_name(self.st().token(self.words()))),
    {
        proof {
            reveal(is_name);
        }
        if self.pos < self.tokens.len() {
            match self.tokens[self.pos].0 {
                Token::Ident(_) => true,
                _ => false,
            }
        } else {
            false
        }
    }

    /// Whether the next token is an integer.
    pub fn at_integer(&self) -> (r: bool)
        ensures
            r == (self.st().more(self.words()) && is_integer(self.st().token(self.words()))),
    {
        proof {
            reveal(is_integer);
        }
        if self.pos < self.tokens.len() {
            match self.tokens[self.pos].0 {
                Token::Integer(_) => true,
                _ => false,
            }
        } else {
            false
        }
    }

    /// The text of the next token.
    pub fn text(&self) -> (r: String)
        requires
            self.st().more(self.words()),
        ensures
            r@ == self.st().text(self.words()),
    {
        self.tokens[self.pos].1.clone()
    }

    /// Moves behind the next token.
    pub fn advance(&mut self)
        requires
            old(self).wf(),
            old(self).st().more(old(self).words()),
        ensures
            final(self).wf(),
            final(self).tokens == old(self).tokens,
            final(self).st() == old(self).st().step(),
            final(self).expr_id_counter == old(self).expr_id_counter,
            final(self).pos == old(self).pos + 1,
    {
        self.pos = self.pos + 1;
    }

    /// Moves behind the next token if it is `t`.
    pub fn skip(&mut self, t: Token) -> (r: bool)
        requires
            old(self).wf(),
        ensures
            final(self).wf(),
            final(self).tokens == old(self).tokens,
            final(self).st() == old(self).st().skip(old(self).words(), t),
            final(self).expr_id_counter == old(self).expr_id_counter,
            final(self).pos == old(self).pos + (if r { 1int } else { 0 }),
            r == old(self).st().at(old(self).words(), t),
    {
        if self.at(t) {
            self.advance();
            true
        } else {
            false
        }
    }

    /// The next token and its text; moves behind it.
    pub fn next(&mut self) -> (r: Option<(Token, String)>)
        requires
            old(self).wf(),
        ensures
            final(self).wf(),
            final(self).tokens == old(self).tokens,
            match r {
                Some(w) => {
                    &&& old(self).st().more(old(self).words())
                    &&& final(self).st() == old(self).st().step()
                    &&& w.0 == old(self).st().token(old(self).words())
                    &&& w.1@ == old(self).st().text(old(self).words())
                },
                None => {
                    &&& !old(self).st().more(old(self).words())
                    &&& final(self).st() == old(self).st()
                },
            },
            final(self).expr_id_counter == old(self).expr_id_counter,
    {
        if self.pos < self.tokens.len() {
            let token: Token = self.tokens[self.pos].0;
            let text = self.text();
            self.advance();
            Some((token, text))
        } else {
            None
        }
    }

    /// Takes the next token, which has to be `t`, and gives its text.
    pub fn expect(&mut self, t: Token) -> (r: Result<String, String>)
        requires
            old(self).wf(),
        ensures
            ({
                let o = expect(old(self).words(), old(self).st(), t);
                &&& old(self).ran(*final(self), o)
                &&& match r {
                    Ok(s) => o.res == Ok::<Chars, Chars>(s@),
                    Err(e) => o.res == Err::<Chars, Chars>(e@),
                }
                &&& r is Ok ==> final(self).pos == old(self).pos + 1
            }),
            final(self).expr_id_counter == old(self).expr_id_counter,
    {
        proof {
            reveal(is_token);
        }
        match self.next() {
            Some((token, value)) => if token == t {
                Ok(value)
            } else {
                Err(join4("Expected ", t.kind_str(), ", got ", token.kind_str()))
            },
            None => Err("Unexpected end of input".to_string()),
        }
    }

    /// Takes the next token, which has to be a name, and gives the name.
    pub fn parse_ident(&mut self) -> (r: Result<String, String>)
        requires
            old(self).wf(),
        ensures
            ({
                let o = ident(old(self).words(), old(self).st());
                &&& old(self).ran(*final(self), o)
                &&& match r {
                    Ok(s) => o.res == Ok::<Chars, Chars>(s@),
                    Err(e) => o.res == Err::<Chars, Chars>(e@),
                }
                &&& r is Ok ==> final(self).pos == old(self).pos + 1
            }),
            final(self).expr_id_counter == old(self).expr_id_counter,
    {
        proof {
            reveal(is_name);
        }
        match self.next() {
            Some((Token::Ident(_), value)) => Ok(value),
            _ => Err("Expected identifier".to_string()),
        }
    }

    /// A number for an expression.
    pub fn next_expr_id(&mut self) -> (r: usize)
        requires
            old(self).wf(),
            old(self).expr_id_counter < old(self).pos,
        ensures
            r == old(self).st().ids,
            final(self).wf(),
            final(self).tokens == old(self).tokens,
            final(self).st() == old(self).st().fresh(),
            final(self).pos == old(self).pos,
            final(self).expr_id_counter == old(self).expr_id_counter + 1,
    {
        let id: usize = self.expr_id_counter;
        self.expr_id_counter = self.expr_id_counter + 1;
        id
    }

    /// Sets whether a brace behind a name starts a block.
    pub fn set_no_struct(&mut self, b: bool)
        requires
            old(self).wf(),
        ensures
            final(self).wf(),
            final(self).tokens == old(self).tokens,
            final(self).st() == old(self).st().with_no_struct(b),
            final(self).pos == old(self).pos,
            final(self).expr_id_counter == old(self).expr_id_counter,
    {
        self.no_struct_literal = b;
    }
}

} // verus!
