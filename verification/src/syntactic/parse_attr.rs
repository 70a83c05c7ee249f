//! Attributes.
use crate::ast::{
    Attribute, attribute_arg_views, attribute_views, AttributeArg, AttributeArgView, AttributeView,
    lemma_attribute_arg_push, lemma_attribute_arg_views, lemma_attribute_push,
    lemma_attribute_views,
};
use crate::literal::parse_decimal;
use crate::text::{Chars, join2, join3};
use crate::token::Token;
use super::grammar::{
    attribute_arg, attribute_args, attribute_list, attribute_value, attributes, ok, relay,
};
use super::parser::Parser;
use vstd::prelude::*;

verus! {

/// Whether a result is the one that a phrase gives.
pub open spec fn attribute_arg_is(
    r: Result<AttributeArg, String>,
    res: Result<AttributeArgView, Chars>,
) -> bool {
    match r {
        Ok(a) => res == Ok::<AttributeArgView, Chars>(a.model()),
        Err(e) => res == Err::<AttributeArgView, Chars>(e@),
    }
}

pub open spec fn attribute_args_are(
    r: Result<Vec<AttributeArg>, String>,
    res: Result<Seq<AttributeArgView>, Chars>,
) -> bool {
    match r {
        Ok(v) => res == Ok::<Seq<AttributeArgView>, Chars>(attribute_arg_views(v@)),
        Err(e) => res == Err::<Seq<AttributeArgView>, Chars>(e@),
    }
}

/// The integer that an attribute's text spells.
fn integer_arg(text: String) -> (r: Result<AttributeArg, String>)
    ensures
        attribute_arg_is(
            r,
            match crate::literal::decimal_value(text@) {
                Some(n) => if n <= i64::MAX {
                    Ok(AttributeArgView::Int(n as i64))
                } else {
                    Err("invalid integer literal "@ + text@)
                },
                None => Err("invalid integer literal "@ + text@),
            },
        ),
{
    match parse_decimal(text.as_str()) {
        Some(n) => if n <= i64::MAX as u128 {
            Ok(AttributeArg::Int(n as i64))
        } else {
            Err(join2("invalid integer literal ", text.as_str()))
        },
        None => Err(join2("invalid integer literal ", text.as_str())),
    }
}

impl Parser {
    /// The attributes before an item.
    #[verifier::spinoff_prover]
    #[verifier::rlimit(30)]
    pub fn parse_attributes(&mut self) -> (r: Result<Vec<Attribute>, String>)
        requires
            old(self).wf(),
        ensures
            ({
                let o = attributes(old(self).words(), old(self).st(), Seq::empty());
                &&& old(self).ran(*final(self), o)
                &&& match r {
                    Ok(v) => o.res == Ok::<Seq<AttributeView>, Chars>(attribute_views(v@)),
                    Err(e) => o.res == Err::<Seq<AttributeView>, Chars>(e@),
                }
            }),
            final(self).expr_id_counter == old(self).expr_id_counter,
    {
        let ghost ts = self.words();
        let ghost p = self.st();
        let mut list: Vec<Attribute> = Vec::new();
        assert(attribute_views(list@) =~= Seq::empty()) by {
            lemma_attribute_views(list@);
        }
        loop
            invariant_except_break
                attributes(ts, p, Seq::empty()) == relay(
                    p,
                    self.st(),
                    attributes(ts, self.st(), attribute_views(list@)),
                ),
            invariant
                self.wf(),
                self.tokens == old(self).tokens,
                ts == old(self).words(),
                p == old(self).st(),
                self.st().no_struct == p.no_struct,
                self.st().scopes == p.scopes,
                self.pos >= old(self).pos,
                self.expr_id_counter == old(self).expr_id_counter,
            ensures
                attributes(ts, p, Seq::empty()) == relay(
                    p,
                    self.st(),
                    ok(self.st(), self.st(), attribute_views(list@)),
                ),
            decreases self.left(),
        {
            proof {
                reveal(attributes);
            }
            if !self.skip(Token::Pound) {
                break;
            }
            if let Err(e) = self.expect(Token::LBracket) {
                return Err(e);
            }
            let name = match self.parse_ident() {
                Ok(v) => v,
                Err(e) => {
                    return Err(e);
                },
            };
            let args = match self.parse_attribute_args() {
                Ok(v) => v,
                Err(e) => {
                    return Err(e);
                },
            };
            if let Err(e) = self.expect(Token::RBracket) {
                return Err(e);
            }
            let attribute = Attribute { name, args };
            proof {
                lemma_attribute_push(list@, attribute);
            }
            list.push(attribute);
        }
        Ok(list)
    }

    /// The arguments of an attribute in parentheses, if there are any.
    #[verifier::spinoff_prover]
    fn parse_attribute_args(&mut self) -> (r: Result<Vec<AttributeArg>, String>)
        requires
            old(self).wf(),
        ensures
            ({
                let o = attribute_args(old(self).words(), old(self).st());
                &&& old(self).ran(*final(self), o)
                &&& attribute_args_are(r, o.res)
            }),
            final(self).expr_id_counter == old(self).expr_id_counter,
    {
        proof {
            reveal(attribute_args);
        }
        if self.skip(Token::LParen) {
            let list = match self.parse_attribute_list() {
                Ok(v) => v,
                Err(e) => {
                    return Err(e);
                },
            };
            match self.expect(Token::RParen) {
                Ok(_) => Ok(list),
                Err(e) => Err(e),
            }
        } else {
            let list: Vec<AttributeArg> = Vec::new();
            assert(attribute_arg_views(list@) =~= Seq::empty()) by {
                lemma_attribute_arg_views(list@);
            }
            Ok(list)
        }
    }

    #[verifier::spinoff_prover]
    fn parse_attribute_list(&mut self) -> (r: Result<Vec<AttributeArg>, String>)
        requires
            old(self).wf(),
        ensures
            ({
                let o = attribute_list(old(self).words(), old(self).st(), Seq::empty());
                &&& old(self).ran(*final(self), o)
                &&& attribute_args_are(r, o.res)
            }),
            final(self).expr_id_counter == old(self).expr_id_counter,
    {
        let ghost ts = self.words();
        let ghost p = self.st();
        let mut list: Vec<AttributeArg> = Vec::new();
        assert(attribute_arg_views(list@) =~= Seq::empty()) by {
            lemma_attribute_arg_views(list@);
        }
        loop
            invariant_except_break
                attribute_list(ts, p, Seq::empty()) == relay(
                    p,
                    self.st(),
                    attribute_list(ts, self.st(), attribute_arg_views(list@)),
                ),
            invariant
                self.wf(),
                self.tokens == old(self).tokens,
                ts == old(self).words(),
                p == old(self).st(),
                self.st().no_struct == p.no_struct,
                self.st().scopes == p.scopes,
                self.pos >= old(self).pos,
                self.expr_id_counter == old(self).expr_id_counter,
            ensures
                attribute_list(ts, p, Seq::empty()) == relay(
                    p,
                    self.st(),
                    ok(self.st(), self.st(), attribute_arg_views(list@)),
                ),
            decreases self.left(),
        {
            proof {
                reveal(attribute_list);
            }
            if self.peek().is_none() || self.at(Token::RParen) {
                break;
            }
            let arg = match self.parse_attribute_arg() {
                Ok(v) => v,
                Err(e) => {
                    return Err(e);
                },
            };
            proof {
                lemma_attribute_arg_push(list@, arg);
            }
            list.push(arg);
            if !self.skip(Token::Comma) {
                break;
            }
        }
        Ok(list)
    }

    /// A value, with a key where an `=` follows the first token.
    #[verifier::spinoff_prover]
    pub fn parse_attribute_arg(&mut self) -> (r: Result<AttributeArg, String>)
        requires
            old(self).wf(),
        ensures
            ({
                let o = attribute_arg(old(self).words(), old(self).st());
                &&& old(self).ran(*final(self), o)
                &&& attribute_arg_is(r, o.res)
            }),
            final(self).expr_id_counter == old(self).expr_id_counter,
    {
        proof {
            reveal(attribute_arg);
        }
        if self.then_at(Token::Eq) {
            let key = self.text();
            self.advance();
            self.advance();
            match self.parse_attribute_arg_value() {
                Ok(value) => Ok(AttributeArg::KeyValue(key, Box::new(value))),
                Err(e) => Err(e),
            }
        } else {
            self.parse_attribute_arg_value()
        }
    }

    /// A name, a string, an integer, a fraction of two integers, or a number with
    /// a point.
    #[verifier::spinoff_prover]
    #[verifier::rlimit(40)]
    pub fn parse_attribute_arg_value(&mut self) -> (r: Result<AttributeArg, String>)
        requires
            old(self).wf(),
        ensures
            ({
                let o = attribute_value(old(self).words(), old(self).st());
                &&& old(self).ran(*final(self), o)
                &&& attribute_arg_is(r, o.res)
            }),
            final(self).expr_id_counter == old(self).expr_id_counter,
    {
        proof {
            reveal(attribute_value);
        }
        match self.peek() {
            Some(Token::Ident(_)) => {
                let v = self.text();
                self.advance();
                Ok(AttributeArg::Ident(v))
            },
            Some(Token::String(_)) => {
                let v = self.text();
                self.advance();
                Ok(AttributeArg::StringLit(v))
            },
            Some(Token::Integer(_)) => {
                let v = self.text();
                if self.then_at(Token::Slash) {
                    self.advance();
                    self.advance();
                    let found: bool = self.at_integer();
                    match self.next() {
                        Some((_, den)) => if found {
                            Ok(AttributeArg::Rational(join3(v.as_str(), "/", den.as_str())))
                        } else {
                            Err("Expected integer after '/' in rational".to_string())
                        },
                        None => Err("Expected integer after '/' in rational".to_string()),
                    }
                } else {
                    self.advance();
                    integer_arg(v)
                }
            },
            Some(Token::Float(_)) => {
                let v = self.text();
                self.advance();
                Ok(AttributeArg::Float(v))
            },
            _ => Err("Expected attribute argument value".to_string()),
        }
    }
}

} // verus!
