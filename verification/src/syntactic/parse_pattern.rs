//! Patterns.
use crate::ast::{
    lemma_opt_string_push, lemma_opt_string_views, lemma_string_string_push,
    lemma_string_string_views, opt_string_views, Pattern, PatternView, string_string_views,
};
use crate::literal::parse_integer_value;
use crate::text::{Chars, join2};
use crate::token::Token;
use super::grammar::{bindings, field_patterns, integer_pattern, name_pattern, pattern, relay};
use super::parser::Parser;
use vstd::prelude::*;

verus! {

/// Whether a result is the one that a phrase gives.
pub open spec fn pattern_is(r: Result<Pattern, String>, res: Result<PatternView, Chars>) -> bool {
    match r {
        Ok(p) => res == Ok::<PatternView, Chars>(p.model()),
        Err(e) => res == Err::<PatternView, Chars>(e@),
    }
}

/// The pattern of a character literal's text.
fn char_pattern(text: &String) -> (r: Result<Pattern, String>)
    ensures
        pattern_is(
            r,
            if text@.len() == 1 {
                Ok(PatternView::CharLiteral(text@[0]))
            } else {
                Err("invalid character literal "@ + text@)
            },
        ),
{
    if text.as_str().unicode_len() == 1 {
        Ok(Pattern::CharLiteral(text.as_str().get_char(0)))
    } else {
        Err(join2("invalid character literal ", text.as_str()))
    }
}

impl Parser {
    /// A pattern.
    #[verifier::rlimit(30)]
    pub fn parse_pattern(&mut self) -> (r: Result<Pattern, String>)
        requires
            old(self).wf(),
        ensures
            ({
                let o = pattern(old(self).words(), old(self).st());
                &&& old(self).ran(*final(self), o)
                &&& pattern_is(r, o.res)
            }),
            final(self).expr_id_counter == old(self).expr_id_counter,
    {
        proof {
            reveal(pattern);
            reveal(integer_pattern);
        }
        let token: Token = match self.peek() {
            Some(t) => t,
            None => {
                return Err("Expected pattern".to_string());
            },
        };
        match token {
            Token::Integer(_) => {
                let text = self.text();
                self.advance();
                self.finish_integer_pattern(text, false)
            },
            Token::Minus => {
                self.advance();
                if self.at_integer() {
                    let text = self.text();
                    self.advance();
                    self.finish_integer_pattern(text, true)
                } else {
                    Err("Expected integer after '-' in pattern".to_string())
                }
            },
            Token::True => {
                self.advance();
                Ok(Pattern::BoolLiteral(true))
            },
            Token::False => {
                self.advance();
                Ok(Pattern::BoolLiteral(false))
            },
            Token::CharLiteral(_) => {
                let text = self.text();
                self.advance();
                char_pattern(&text)
            },
            Token::LParen => {
                self.advance();
                match self.parse_bindings(Token::RParen) {
                    Ok(list) => Ok(Pattern::Tuple(list)),
                    Err(e) => Err(e),
                }
            },
            Token::LBracket => {
                self.advance();
                match self.parse_bindings(Token::RBracket) {
                    Ok(list) => Ok(Pattern::Array(list)),
                    Err(e) => Err(e),
                }
            },
            Token::Ident(_) => {
                let name = self.text();
                self.advance();
                self.parse_name_pattern(name)
            },
            _ => Err("Expected pattern".to_string()),
        }
    }

    /// The integer of that text, which has been read.
    fn finish_integer_pattern(&self, text: String, negative: bool) -> (r: Result<Pattern, String>)
        ensures
            ({
                let o = integer_pattern(self.st(), text@, negative);
                &&& pattern_is(r, o.res)
                &&& self.st().after(o) == self.st()
            }),
    {
        proof {
            reveal(integer_pattern);
        }
        match parse_integer_value(text.as_str()) {
            Some(v) => if negative && v <= 0x8000_0000_0000_0000_0000_0000_0000_0000u128 {
                if v == 0x8000_0000_0000_0000_0000_0000_0000_0000u128 {
                    Ok(Pattern::IntLiteral(i128::MIN))
                } else {
                    Ok(Pattern::IntLiteral(-(v as i128)))
                }
            } else if !negative && v < 0x8000_0000_0000_0000_0000_0000_0000_0000u128 {
                Ok(Pattern::IntLiteral(v as i128))
            } else {
                Err(join2("invalid integer literal ", text.as_str()))
            },
            None => Err(join2("invalid integer literal ", text.as_str())),
        }
    }

    /// Names with commas between them, up to and with the token that closes them.
    #[verifier::rlimit(30)]
    fn parse_bindings(&mut self, close: Token) -> (r: Result<Vec<Option<String>>, String>)
        requires
            old(self).wf(),
        ensures
            ({
                let o = bindings(old(self).words(), old(self).st(), close, Seq::empty());
                &&& old(self).ran(*final(self), o)
                &&& match r {
                    Ok(v) => o.res == Ok::<Seq<Option<Chars>>, Chars>(opt_string_views(v@)),
                    Err(e) => o.res == Err::<Seq<Option<Chars>>, Chars>(e@),
                }
            }),
            final(self).expr_id_counter == old(self).expr_id_counter,
    {
        proof {
            reveal(bindings);
        }
        let ghost ts = self.words();
        let ghost p = self.st();
        let mut list: Vec<Option<String>> = Vec::new();
        assert(opt_string_views(list@) =~= Seq::empty()) by {
            lemma_opt_string_views(list@);
        }
        while self.peek().is_some() && !self.at(close)
            invariant
                bindings(ts, p, close, Seq::empty()) == relay(
                    p,
                    self.st(),
                    bindings(ts, self.st(), close, opt_string_views(list@)),
                ),
                self.wf(),
                self.tokens == old(self).tokens,
                ts == old(self).words(),
                p == old(self).st(),
                self.st().no_struct == p.no_struct,
                self.st().scopes == p.scopes,
                self.pos >= old(self).pos,
                self.expr_id_counter == old(self).expr_id_counter,
            decreases self.left(),
        {
            proof {
                reveal(bindings);
            }
            let name = match self.parse_ident() {
                Ok(v) => v,
                Err(e) => {
                    return Err(e);
                },
            };
            let slot: Option<String> = if name.as_str().eq("_") {
                None
            } else {
                Some(name)
            };
            proof {
                lemma_opt_string_push(list@, slot);
            }
            list.push(slot);
            if !self.at(Token::Comma) {
                return match self.expect(close) {
                    Ok(_) => Ok(list),
                    Err(e) => Err(e),
                };
            }
            self.advance();
        }
        match self.expect(close) {
            Ok(_) => Ok(list),
            Err(e) => Err(e),
        }
    }

    /// What a name starts in a pattern. The name has been read.
    #[verifier::rlimit(30)]
    fn parse_name_pattern(&mut self, name: String) -> (r: Result<Pattern, String>)
        requires
            old(self).wf(),
        ensures
            ({
                let o = name_pattern(old(self).words(), old(self).st(), name@);
                &&& old(self).ran(*final(self), o)
                &&& pattern_is(r, o.res)
            }),
            final(self).expr_id_counter == old(self).expr_id_counter,
    {
        proof {
            reveal(name_pattern);
        }
        if name.as_str().eq("_") {
            return Ok(Pattern::Wildcard);
        }
        if self.at(Token::PathSep) {
            self.advance();
            let variant_name = match self.parse_ident() {
                Ok(v) => v,
                Err(e) => {
                    return Err(e);
                },
            };
            if !self.at(Token::LParen) {
                return Ok(Pattern::EnumVariant { enum_name: name, variant_name });
            }
            self.advance();
            let binding = match self.parse_ident() {
                Ok(v) => v,
                Err(e) => {
                    return Err(e);
                },
            };
            return match self.expect(Token::RParen) {
                Ok(_) => Ok(
                    Pattern::EnumVariantWithBinding { enum_name: name, variant_name, binding },
                ),
                Err(e) => Err(e),
            };
        }
        if self.at(Token::LBrace) {
            self.advance();
            return match self.parse_field_patterns() {
                Ok(fields) => Ok(Pattern::Struct { name, fields }),
                Err(e) => Err(e),
            };
        }
        Err("Expected pattern".to_string())
    }

    /// The fields of a structure in a pattern, and the brace that closes them.
    #[verifier::rlimit(30)]
    fn parse_field_patterns(&mut self) -> (r: Result<Vec<(String, String)>, String>)
        requires
            old(self).wf(),
        ensures
            ({
                let o = field_patterns(old(self).words(), old(self).st(), Seq::empty());
                &&& old(self).ran(*final(self), o)
                &&& match r {
                    Ok(v) => o.res == Ok::<Seq<(Chars, Chars)>, Chars>(string_string_views(v@)),
                    Err(e) => o.res == Err::<Seq<(Chars, Chars)>, Chars>(e@),
                }
            }),
            final(self).expr_id_counter == old(self).expr_id_counter,
    {
        proof {
            reveal(field_patterns);
        }
        let ghost ts = self.words();
        let ghost p = self.st();
        let mut fields: Vec<(String, String)> = Vec::new();
        assert(string_string_views(fields@) =~= Seq::empty()) by {
            lemma_string_string_views(fields@);
        }
        while self.peek().is_some() && !self.at(Token::RBrace)
            invariant
                field_patterns(ts, p, Seq::empty()) == relay(
                    p,
                    self.st(),
                    field_patterns(ts, self.st(), string_string_views(fields@)),
                ),
                self.wf(),
                self.tokens == old(self).tokens,
                ts == old(self).words(),
                p == old(self).st(),
                self.st().no_struct == p.no_struct,
                self.st().scopes == p.scopes,
                self.pos >= old(self).pos,
                self.expr_id_counter == old(self).expr_id_counter,
            decreases self.left(),
        {
            proof {
                reveal(field_patterns);
            }
            let field = match self.parse_ident() {
                Ok(v) => v,
                Err(e) => {
                    return Err(e);
                },
            };
            let name: String = if self.skip(Token::Colon) {
                match self.parse_ident() {
                    Ok(v) => v,
                    Err(e) => {
                        return Err(e);
                    },
                }
            } else {
                field.clone()
            };
            let _ = self.skip(Token::Comma);
            let pair: (String, String) = (field, name);
            proof {
                lemma_string_string_push(fields@, pair);
            }
            fields.push(pair);
        }
        match self.expect(Token::RBrace) {
            Ok(_) => Ok(fields),
            Err(e) => Err(e),
        }
    }
}

} // verus!
