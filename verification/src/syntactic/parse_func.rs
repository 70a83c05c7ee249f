//! Functions.
use crate::ast::{
    Attribute, attribute_views, FnDef, FnDefView, FnSig, FnSigView, generic_param_views,
    GenericParam, GenericParamView, lemma_generic_param_push, lemma_generic_param_views,
    lemma_param_push, lemma_param_views, lemma_string_push, lemma_string_views, Param, param_views,
    ParamView, string_views, Type, TypeView,
};
use crate::text::Chars;
use crate::token::Token;
use super::grammar::{
    fn_def, fn_head, fn_sig, fn_tail, generic_names, generic_params, ok, param_names, params,
    receiver, relay,
};
use super::parser::{Parser, scope_views};
use vstd::prelude::*;

verus! {

/// Whether a result is the one that a phrase gives.
pub open spec fn sig_is(r: Result<FnSig, String>, res: Result<FnSigView, Chars>) -> bool {
    match r {
        Ok(f) => res == Ok::<FnSigView, Chars>(f.model()),
        Err(e) => res == Err::<FnSigView, Chars>(e@),
    }
}

pub open spec fn param_is(r: Result<Param, String>, res: Result<ParamView, Chars>) -> bool {
    match r {
        Ok(p) => res == Ok::<ParamView, Chars>(p.model()),
        Err(e) => res == Err::<ParamView, Chars>(e@),
    }
}

impl Parser {
    /// The type parameters in angle brackets, if there are any.
    #[verifier::spinoff_prover]
    pub fn parse_generic_params(&mut self) -> (r: Result<Vec<GenericParam>, String>)
        requires
            old(self).wf(),
        ensures
            ({
                let o = generic_params(old(self).words(), old(self).st());
                &&& old(self).ran(*final(self), o)
                &&& match r {
                    Ok(v) => o.res == Ok::<Seq<GenericParamView>, Chars>(generic_param_views(v@)),
                    Err(e) => o.res == Err::<Seq<GenericParamView>, Chars>(e@),
                }
            }),
            final(self).expr_id_counter == old(self).expr_id_counter,
    {
        proof {
            reveal(generic_params);
        }
        if self.skip(Token::Lt) {
            let list = match self.parse_generic_names() {
                Ok(v) => v,
                Err(e) => {
                    return Err(e);
                },
            };
            match self.expect(Token::Gt) {
                Ok(_) => Ok(list),
                Err(e) => Err(e),
            }
        } else {
            let list: Vec<GenericParam> = Vec::new();
            assert(generic_param_views(list@) =~= Seq::empty()) by {
                lemma_generic_param_views(list@);
            }
            Ok(list)
        }
    }

    #[verifier::spinoff_prover]
    fn parse_generic_names(&mut self) -> (r: Result<Vec<GenericParam>, String>)
        requires
            old(self).wf(),
        ensures
            ({
                let o = generic_names(old(self).words(), old(self).st(), Seq::empty());
                &&& old(self).ran(*final(self), o)
                &&& match r {
                    Ok(v) => o.res == Ok::<Seq<GenericParamView>, Chars>(generic_param_views(v@)),
                    Err(e) => o.res == Err::<Seq<GenericParamView>, Chars>(e@),
                }
            }),
            final(self).expr_id_counter == old(self).expr_id_counter,
    {
        let ghost ts = self.words();
        let ghost p = self.st();
        let mut list: Vec<GenericParam> = Vec::new();
        assert(generic_param_views(list@) =~= Seq::empty()) by {
            lemma_generic_param_views(list@);
        }
        loop
            invariant_except_break
                generic_names(ts, p, Seq::empty()) == relay(
                    p,
                    self.st(),
                    generic_names(ts, self.st(), generic_param_views(list@)),
                ),
            invariant
                self.wf(),
                self.tokens == old(self).tokens,
                ts == old(self).words(),
                p == old(self).st(),
                self.st().no_struct == p.no_struct,
                self.st().scopes == p.scopes,
                self.pos >= old(self).pos,
                self.expr_id_counter == old(self).expr_id_counter,
            ensures
                generic_names(ts, p, Seq::empty()) == relay(
                    p,
                    self.st(),
                    ok(self.st(), self.st(), generic_param_views(list@)),
                ),
            decreases self.left(),
        {
            proof {
                reveal(generic_names);
            }
            if self.peek().is_none() || self.at(Token::Gt) {
                break;
            }
            let name = match self.parse_ident() {
                Ok(v) => v,
                Err(e) => {
                    return Err(e);
                },
            };
            let param = GenericParam { name };
            proof {
                lemma_generic_param_push(list@, param);
            }
            list.push(param);
            if !self.skip(Token::Comma) {
                break;
            }
        }
        Ok(list)
    }

    /// Makes the type parameters of a function known.
    #[verifier::spinoff_prover]
    pub fn push_generic_scope(&mut self, list: &Vec<GenericParam>)
        requires
            old(self).wf(),
        ensures
            final(self).wf(),
            final(self).tokens == old(self).tokens,
            final(self).st() == old(self).st().push_scope(param_names(generic_param_views(list@))),
            final(self).pos == old(self).pos,
            final(self).expr_id_counter == old(self).expr_id_counter,
    {
        let mut names: Vec<String> = Vec::new();
        let mut i: usize = 0;
        proof {
            lemma_generic_param_views(list@);
            lemma_string_views(names@);
        }
        while i < list.len()
            invariant
                i <= list.len(),
                string_views(names@) == param_names(generic_param_views(list@)).take(i as int),
                generic_param_views(list@).len() == list@.len(),
                forall|k: int|
                    0 <= k < list@.len() ==> #[trigger] generic_param_views(list@)[k]
                        == list@[k].model(),
            decreases list.len() - i,
        {
            let name = list[i].name.clone();
            proof {
                lemma_string_push(names@, name);
                assert(generic_param_views(list@)[i as int].name == name@);
            }
            names.push(name);
            i = i + 1;
            assert(string_views(names@) =~= param_names(generic_param_views(list@)).take(i as int));
        }
        assert(string_views(names@) =~= param_names(generic_param_views(list@)));
        let ghost scopes0 = self.generic_scopes@;
        self.generic_scopes.push(names);
        assert(scope_views(self.generic_scopes@) =~= scope_views(scopes0).push(
            string_views(names@),
        ));
    }

    /// Forgets the type parameters of the innermost function.
    pub fn pop_generic_scope(&mut self)
        requires
            old(self).wf(),
        ensures
            final(self).wf(),
            final(self).tokens == old(self).tokens,
            final(self).st() == old(self).st().pop_scope(),
            final(self).pos == old(self).pos,
            final(self).expr_id_counter == old(self).expr_id_counter,
    {
        let ghost scopes0 = self.generic_scopes@;
        let _ = self.generic_scopes.pop();
        assert(scope_views(self.generic_scopes@) =~= (if scopes0.len() > 0 {
            scope_views(scopes0).drop_last()
        } else {
            scope_views(scopes0)
        }));
    }

    /// The receiver of a method, whose first token is next.
    #[verifier::spinoff_prover]
    #[verifier::rlimit(30)]
    fn parse_receiver(&mut self) -> (r: Result<Param, String>)
        requires
            old(self).wf(),
            old(self).st().at(old(self).words(), Token::Amp) || old(self).st().at(
                old(self).words(),
                Token::SelfLower,
            ),
        ensures
            ({
                let o = receiver(old(self).words(), old(self).st());
                &&& old(self).ran(*final(self), o)
                &&& param_is(r, o.res)
            }),
            final(self).expr_id_counter == old(self).expr_id_counter,
            r is Ok ==> final(self).pos > old(self).pos,
    {
        proof {
            reveal(receiver);
        }
        if self.skip(Token::Amp) {
            let mutable: bool = self.skip(Token::Mut);
            if self.skip(Token::SelfLower) {
                let _ = self.skip(Token::Comma);
                let inner = Type::SelfType;
                assert(inner.model() == TypeView::SelfType);
                let ty = Type::Ref { mutable, inner: Box::new(inner) };
                assert(ty.model() == TypeView::Ref {
                    mutable,
                    inner: Box::new(TypeView::SelfType),
                });
                Ok(Param { name: "self".to_string(), ty })
            } else {
                Err("Expected 'self' after '&'".to_string())
            }
        } else {
            self.advance();
            let _ = self.skip(Token::Comma);
            Ok(Param { name: "self".to_string(), ty: Type::SelfType })
        }
    }

    /// The parameters of a function, up to the closing parenthesis.
    #[verifier::spinoff_prover]
    #[verifier::rlimit(50)]
    pub fn parse_params(&mut self) -> (r: Result<Vec<Param>, String>)
        requires
            old(self).wf(),
        ensures
            ({
                let o = params(old(self).words(), old(self).st(), Seq::empty());
                &&& old(self).ran(*final(self), o)
                &&& match r {
                    Ok(v) => o.res == Ok::<Seq<ParamView>, Chars>(param_views(v@)),
                    Err(e) => o.res == Err::<Seq<ParamView>, Chars>(e@),
                }
            }),
            final(self).expr_id_counter == old(self).expr_id_counter,
    {
        let ghost ts = self.words();
        let ghost p = self.st();
        let mut list: Vec<Param> = Vec::new();
        assert(param_views(list@) =~= Seq::empty()) by {
            lemma_param_views(list@);
        }
        loop
            invariant_except_break
                params(ts, p, Seq::empty()) == relay(
                    p,
                    self.st(),
                    params(ts, self.st(), param_views(list@)),
                ),
            invariant
                self.wf(),
                self.tokens == old(self).tokens,
                ts == old(self).words(),
                p == old(self).st(),
                self.st().no_struct == p.no_struct,
                self.st().scopes == p.scopes,
                self.pos >= old(self).pos,
                self.expr_id_counter == old(self).expr_id_counter,
            ensures
                params(ts, p, Seq::empty()) == relay(
                    p,
                    self.st(),
                    ok(self.st(), self.st(), param_views(list@)),
                ),
            decreases self.left(),
        {
            proof {
                reveal(params);
            }
            if self.peek().is_none() || self.at(Token::RParen) {
                break;
            }
            if self.at(Token::Amp) || self.at(Token::SelfLower) {
                let param = match self.parse_receiver() {
                    Ok(v) => v,
                    Err(e) => {
                        return Err(e);
                    },
                };
                proof {
                    lemma_param_push(list@, param);
                }
                list.push(param);
            } else {
                let name = match self.parse_ident() {
                    Ok(v) => v,
                    Err(e) => {
                        return Err(e);
                    },
                };
                if let Err(e) = self.expect(Token::Colon) {
                    return Err(e);
                }
                let ty = match self.parse_type() {
                    Ok(v) => v,
                    Err(e) => {
                        return Err(e);
                    },
                };
                let param = Param { name, ty };
                proof {
                    lemma_param_push(list@, param);
                }
                list.push(param);
                if !self.skip(Token::Comma) {
                    break;
                }
            }
        }
        Ok(list)
    }

    /// The head of a function, from its visibility to its result type.
    #[verifier::spinoff_prover]
    #[verifier::rlimit(30)]
    fn parse_fn_head(&mut self) -> (r: Result<FnSig, String>)
        requires
            old(self).wf(),
        ensures
            ({
                let o = fn_head(old(self).words(), old(self).st());
                &&& old(self).moved(*final(self), o)
                &&& sig_is(r, o.res)
            }),
            r is Ok ==> final(self).st().scopes.len() > 0 && final(self).st().scopes.drop_last()
                == old(self).st().scopes,
            final(self).expr_id_counter == old(self).expr_id_counter,
            r is Ok ==> final(self).pos > old(self).pos,
    {
        proof {
            reveal(fn_head);
        }
        if self.at(Token::Pub) || self.at(Token::Priv) {
            self.advance();
        }
        if let Err(e) = self.expect(Token::Fn) {
            return Err(e);
        }
        let name = match self.parse_ident() {
            Ok(v) => v,
            Err(e) => {
                return Err(e);
            },
        };
        let generic_params = match self.parse_generic_params() {
            Ok(v) => v,
            Err(e) => {
                return Err(e);
            },
        };
        self.push_generic_scope(&generic_params);
        self.parse_fn_tail(name, generic_params)
    }

    /// The parameters and the result type of a function.
    #[verifier::spinoff_prover]
    fn parse_fn_tail(&mut self, name: String, generic_params: Vec<GenericParam>) -> (r: Result<
        FnSig,
        String,
    >)
        requires
            old(self).wf(),
        ensures
            ({
                let o = fn_tail(
                    old(self).words(),
                    old(self).st(),
                    name@,
                    generic_param_views(generic_params@),
                );
                &&& old(self).ran(*final(self), o)
                &&& sig_is(r, o.res)
            }),
            final(self).expr_id_counter == old(self).expr_id_counter,
    {
        proof {
            reveal(fn_tail);
        }
        if let Err(e) = self.expect(Token::LParen) {
            return Err(e);
        }
        let params = match self.parse_params() {
            Ok(v) => v,
            Err(e) => {
                return Err(e);
            },
        };
        if let Err(e) = self.expect(Token::RParen) {
            return Err(e);
        }
        let return_type = match self.parse_optional_type(Token::Arrow) {
            Ok(v) => v,
            Err(e) => {
                return Err(e);
            },
        };
        Ok(FnSig { name, params, return_type, generic_params })
    }

    /// A function without body: its head and a semicolon.
    #[verifier::spinoff_prover]
    pub fn parse_func_sig(&mut self) -> (r: Result<FnSig, String>)
        requires
            old(self).wf(),
        ensures
            ({
                let o = fn_sig(old(self).words(), old(self).st());
                &&& old(self).ran(*final(self), o)
                &&& sig_is(r, o.res)
            }),
            final(self).expr_id_counter == old(self).expr_id_counter,
            r is Ok ==> final(self).pos > old(self).pos,
    {
        proof {
            reveal(fn_sig);
        }
        let sig = match self.parse_fn_head() {
            Ok(v) => v,
            Err(e) => {
                return Err(e);
            },
        };
        self.pop_generic_scope();
        match self.expect(Token::Semicolon) {
            Ok(_) => Ok(sig),
            Err(e) => Err(e),
        }
    }

    /// A function: its head and its body.
    #[verifier::spinoff_prover]
    pub fn parse_func_def(&mut self, attributes: Vec<Attribute>) -> (r: Result<FnDef, String>)
        requires
            old(self).wf(),
        ensures
            ({
                let o = fn_def(old(self).words(), old(self).st(), attribute_views(attributes@));
                &&& old(self).ran(*final(self), o)
                &&& match r {
                    Ok(f) => o.res == Ok::<FnDefView, Chars>(f.model()),
                    Err(e) => o.res == Err::<FnDefView, Chars>(e@),
                }
            }),
            r is Ok ==> final(self).pos > old(self).pos,
    {
        proof {
            reveal(fn_def);
        }
        let sig = match self.parse_fn_head() {
            Ok(v) => v,
            Err(e) => {
                return Err(e);
            },
        };
        let body = match self.parse_block() {
            Ok(v) => v,
            Err(e) => {
                return Err(e);
            },
        };
        self.pop_generic_scope();
        Ok(
            FnDef {
                attributes,
                name: sig.name,
                generic_params: sig.generic_params,
                params: sig.params,
                return_type: sig.return_type,
                body,
            },
        )
    }
}

} // verus!
