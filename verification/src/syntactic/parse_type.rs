//! Types.
use crate::ast::{
    lemma_string_views, lemma_type_push, lemma_type_views, string_views, Type, type_views, TypeView,
};
use crate::text::Chars;
use crate::token::Token;
use super::grammar::{array_end, is_param, optional_type, primitive, relay, ty, types};
use super::parser::{Parser, scope_views};
use vstd::prelude::*;

verus! {

fn primitive_of(t: Token) -> (r: Option<Type>)
    ensures
        match r {
            Some(x) => primitive(t) == Some(x.model()),
            None => primitive(t) is None,
        },
{
    proof {
        reveal(primitive);
    }
    match t {
        Token::I8 => Some(Type::I8),
        Token::I16 => Some(Type::I16),
        Token::I32 => Some(Type::I32),
        Token::I64 => Some(Type::I64),
        Token::I128 => Some(Type::I128),
        Token::ISize => Some(Type::ISize),
        Token::U8 => Some(Type::U8),
        Token::U16 => Some(Type::U16),
        Token::U32 => Some(Type::U32),
        Token::U64 => Some(Type::U64),
        Token::U128 => Some(Type::U128),
        Token::USize => Some(Type::USize),
        Token::F16 => Some(Type::F16),
        Token::F32 => Some(Type::F32),
        Token::F64 => Some(Type::F64),
        Token::Bool => Some(Type::Bool),
        Token::Char => Some(Type::Char),
        Token::Str => Some(Type::Str),
        Token::Bytes => Some(Type::Bytes),
        Token::Never => Some(Type::Never),
        Token::SelfType => Some(Type::SelfType),
        _ => None,
    }
}

/// Whether a result is the one that a phrase gives.
pub open spec fn type_is(r: Result<Type, String>, res: Result<TypeView, Chars>) -> bool {
    match r {
        Ok(t) => res == Ok::<TypeView, Chars>(t.model()),
        Err(e) => res == Err::<TypeView, Chars>(e@),
    }
}

impl Parser {
    /// Whether a name is a type parameter of a function around.
    fn is_generic(&self, name: &String) -> (r: bool)
        ensures
            r == is_param(self.st().scopes, name@),
    {
        let ghost scopes = self.st().scopes;
        let mut i: usize = 0;
        while i < self.generic_scopes.len()
            invariant
                i <= self.generic_scopes.len(),
                scopes == scope_views(self.generic_scopes@),
                scopes == self.st().scopes,
                forall|k: int| 0 <= k < i ==> !(#[trigger] scopes[k]).contains(name@),
            decreases self.generic_scopes.len() - i,
        {
            let scope = &self.generic_scopes[i];
            proof {
                lemma_string_views(scope@);
            }
            let ghost names = scopes[i as int];
            assert(names == string_views(scope@));
            let mut j: usize = 0;
            while j < scope.len()
                invariant
                    i < self.generic_scopes.len(),
                    j <= scope.len(),
                    names == string_views(scope@),
                    names == scopes[i as int],
                    names.len() == scope@.len(),
                    forall|k: int| 0 <= k < scope@.len() ==> #[trigger] names[k] == scope@[k]@,
                    scopes == self.st().scopes,
                    forall|k: int| 0 <= k < j ==> #[trigger] names[k] != name@,
                decreases scope.len() - j,
            {
                if scope[j].as_str().eq(name.as_str()) {
                    assert(names[j as int] == name@);
                    assert(scopes[i as int].contains(name@));
                    return true;
                }
                assert(names[j as int] == scope@[j as int]@);
                j = j + 1;
            }
            i = i + 1;
        }
        false
    }

    /// A type.
    pub fn parse_type(&mut self) -> (r: Result<Type, String>)
        requires
            old(self).wf(),
        ensures
            ({
                let o = ty(old(self).words(), old(self).st());
                &&& old(self).ran(*final(self), o)
                &&& type_is(r, o.res)
            }),
            final(self).expr_id_counter == old(self).expr_id_counter,
            r is Ok ==> final(self).pos > old(self).pos,
        decreases old(self).left(), 2nat,
    {
        proof {
            reveal(ty);
            reveal(types);
        }
        let known: Option<Type> = match self.peek() {
            Some(t) => primitive_of(t),
            None => None,
        };
        if self.at(Token::Amp) {
            self.advance();
            let mutable: bool = self.skip(Token::Mut);
            match self.parse_type() {
                Ok(inner) => Ok(Type::Ref { mutable, inner: Box::new(inner) }),
                Err(e) => Err(e),
            }
        } else if self.at(Token::LParen) {
            self.advance();
            let list = match self.parse_type_list() {
                Ok(list) => list,
                Err(e) => {
                    return Err(e);
                },
            };
            proof {
                lemma_type_views(list@);
            }
            match self.expect(Token::RParen) {
                Ok(_) => if list.len() == 0 {
                    Ok(Type::Unit)
                } else {
                    Ok(Type::Tuple(list))
                },
                Err(e) => Err(e),
            }
        } else if self.at(Token::LBracket) {
            self.advance();
            match self.parse_type() {
                Ok(elem) => self.parse_array_end(elem),
                Err(e) => Err(e),
            }
        } else if let Some(t) = known {
            self.advance();
            Ok(t)
        } else if self.at_ident() {
            let name = self.text();
            self.advance();
            if self.is_generic(&name) {
                Ok(Type::Param(name))
            } else {
                Ok(Type::Struct(name))
            }
        } else {
            Err("Expected type".to_string())
        }
    }

    /// What follows the element type in brackets.
    fn parse_array_end(&mut self, elem: Type) -> (r: Result<Type, String>)
        requires
            old(self).wf(),
        ensures
            ({
                let o = array_end(old(self).words(), old(self).st(), elem.model());
                &&& old(self).ran(*final(self), o)
                &&& type_is(r, o.res)
            }),
            final(self).expr_id_counter == old(self).expr_id_counter,
    {
        proof {
            reveal(array_end);
        }
        if self.at(Token::Semicolon) {
            self.advance();
            if self.at_integer() {
                let len = self.text();
                self.advance();
                match self.expect(Token::RBracket) {
                    Ok(_) => Ok(Type::Array(Box::new(elem), len)),
                    Err(e) => Err(e),
                }
            } else {
                Err("Expected array length".to_string())
            }
        } else {
            match self.expect(Token::RBracket) {
                Ok(_) => Ok(Type::Slice(Box::new(elem))),
                Err(e) => Err(e),
            }
        }
    }

    /// Types with commas between them.
    fn parse_type_list(&mut self) -> (r: Result<Vec<Type>, String>)
        requires
            old(self).wf(),
        ensures
            ({
                let o = types(old(self).words(), old(self).st(), Seq::empty());
                &&& old(self).ran(*final(self), o)
                &&& match r {
                    Ok(v) => o.res == Ok::<Seq<TypeView>, Chars>(type_views(v@)),
                    Err(e) => o.res == Err::<Seq<TypeView>, Chars>(e@),
                }
            }),
            final(self).expr_id_counter == old(self).expr_id_counter,
        decreases old(self).left(), 3nat,
    {
        proof {
            reveal(types);
            reveal(ty);
        }
        let ghost ts = self.words();
        let ghost p = self.st();
        let mut list: Vec<Type> = Vec::new();
        assert(type_views(list@) =~= Seq::empty()) by {
            lemma_type_views(list@);
        }
        loop
            invariant_except_break
                types(ts, p, Seq::empty()) == relay(
                    p,
                    self.st(),
                    types(ts, self.st(), type_views(list@)),
                ),
            invariant
                self.wf(),
                self.tokens == old(self).tokens,
                ts == old(self).words(),
                p == old(self).st(),
                self.st().no_struct == p.no_struct,
                self.st().scopes == p.scopes,
                self.pos >= old(self).pos,
                self.expr_id_counter == old(self).expr_id_counter,
            ensures
                types(ts, p, Seq::empty()) == relay(
                    p,
                    self.st(),
                    super::grammar::ok(self.st(), self.st(), type_views(list@)),
                ),
            decreases self.left(),
        {
            proof {
                reveal(types);
                reveal(ty);
            }
            if self.peek().is_none() || self.at(Token::RParen) {
                break;
            }
            let t = match self.parse_type() {
                Ok(t) => t,
                Err(e) => {
                    return Err(e);
                },
            };
            proof {
                lemma_type_push(list@, t);
            }
            list.push(t);
            if !self.at(Token::Comma) {
                break;
            }
            self.advance();
        }
        Ok(list)
    }

    /// A type behind the token `mark`, if that token is next.
    pub fn parse_optional_type(&mut self, mark: Token) -> (r: Result<Option<Type>, String>)
        requires
            old(self).wf(),
        ensures
            ({
                let o = optional_type(old(self).words(), old(self).st(), mark);
                &&& old(self).ran(*final(self), o)
                &&& match r {
                    Ok(Some(t)) => o.res == Ok::<Option<TypeView>, Chars>(Some(t.model())),
                    Ok(None) => o.res == Ok::<Option<TypeView>, Chars>(None),
                    Err(e) => o.res == Err::<Option<TypeView>, Chars>(e@),
                }
            }),
            final(self).expr_id_counter == old(self).expr_id_counter,
    {
        proof {
            reveal(optional_type);
        }
        if self.skip(mark) {
            match self.parse_type() {
                Ok(t) => Ok(Some(t)),
                Err(e) => Err(e),
            }
        } else {
            Ok(None)
        }
    }
}

} // verus!
