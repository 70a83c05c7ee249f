//! Definitions of types, constants and interfaces, and functions in braces.
use crate::ast::{
    ConstDef, ConstDefView, enum_variant_def_views, EnumDef, EnumDefView, EnumVariantDef,
    EnumVariantDefView, fn_def_views, fn_sig_views, FnDef, FnDefView, FnSig, FnSigView,
    InterfaceDef, InterfaceDefView, lemma_enum_variant_def_push, lemma_enum_variant_def_views,
    lemma_fn_def_push, lemma_fn_def_views, lemma_fn_sig_push, lemma_fn_sig_views, lemma_param_push,
    lemma_param_views, lemma_string_push, lemma_string_views, Param, param_views, ParamView,
    string_views, StructDef, StructDefView, Type, TypeView, UseDef, UseDefView,
};
use crate::text::Chars;
use crate::token::Token;
use super::grammar::{
    const_def, enum_def, field_defs, fn_defs, fn_sigs, fn_with_attributes, interface_def, named_fns,
    ok, path, payload, relay, struct_def, use_def, variant_defs,
};
use super::parser::Parser;
use vstd::prelude::*;

verus! {

impl Parser {
    /// The fields of a structure, up to the closing brace.
    #[verifier::spinoff_prover]
    #[verifier::rlimit(30)]
    fn parse_field_defs(&mut self) -> (r: Result<Vec<Param>, String>)
        requires
            old(self).wf(),
        ensures
            ({
                let o = field_defs(old(self).words(), old(self).st(), Seq::empty());
                &&& old(self).ran(*final(self), o)
                &&& match r {
                    Ok(v) => o.res == Ok::<Seq<ParamView>, Chars>(param_views(v@)),
                    Err(e) => o.res == Err::<Seq<ParamView>, Chars>(e@),
                }
            }),
            final(self).expr_id_counter == old(self).expr_id_counter,
    {
        let ghost ts = self.words();
        let ghost p = self.st();
        let mut list: Vec<Param> = Vec::new();
        assert(param_views(list@) =~= Seq::empty()) by {
            lemma_param_views(list@);
        }
        loop
            invariant_except_break
                field_defs(ts, p, Seq::empty()) == relay(
                    p,
                    self.st(),
                    field_defs(ts, self.st(), param_views(list@)),
                ),
            invariant
                self.wf(),
                self.tokens == old(self).tokens,
                ts == old(self).words(),
                p == old(self).st(),
                self.st().no_struct == p.no_struct,
                self.st().scopes == p.scopes,
                self.pos >= old(self).pos,
                self.expr_id_counter == old(self).expr_id_counter,
            ensures
                field_defs(ts, p, Seq::empty()) == relay(
                    p,
                    self.st(),
                    ok(self.st(), self.st(), param_views(list@)),
                ),
            decreases self.left(),
        {
            proof {
                reveal(field_defs);
            }
            if self.peek().is_none() || self.at(Token::RBrace) {
                break;
            }
            let name = match self.parse_ident() {
                Ok(v) => v,
                Err(e) => {
                    return Err(e);
                },
            };
            if let Err(e) = self.expect(Token::Colon) {
                return Err(e);
            }
            let ty = match self.parse_type() {
                Ok(v) => v,
                Err(e) => {
                    return Err(e);
                },
            };
            let field = Param { name, ty };
            proof {
                lemma_param_push(list@, field);
            }
            list.push(field);
            if !self.skip(Token::Comma) {
                break;
            }
        }
        Ok(list)
    }

    /// The type in parentheses behind the name of a variant, if there is one.
    #[verifier::spinoff_prover]
    fn parse_payload(&mut self) -> (r: Result<Option<Type>, String>)
        requires
            old(self).wf(),
        ensures
            ({
                let o = payload(old(self).words(), old(self).st());
                &&& old(self).ran(*final(self), o)
                &&& match r {
                    Ok(Some(t)) => o.res == Ok::<Option<TypeView>, Chars>(Some(t.model())),
                    Ok(None) => o.res == Ok::<Option<TypeView>, Chars>(None),
                    Err(e) => o.res == Err::<Option<TypeView>, Chars>(e@),
                }
            }),
            final(self).expr_id_counter == old(self).expr_id_counter,
    {
        proof {
            reveal(payload);
        }
        if self.skip(Token::LParen) {
            let ty = match self.parse_type() {
                Ok(v) => v,
                Err(e) => {
                    return Err(e);
                },
            };
            if let Err(e) = self.expect(Token::RParen) {
                return Err(e);
            }
            Ok(Some(ty))
        } else {
            Ok(None)
        }
    }

    /// The variants of an enumeration, up to the closing brace.
    #[verifier::spinoff_prover]
    #[verifier::rlimit(30)]
    fn parse_variant_defs(&mut self) -> (r: Result<Vec<EnumVariantDef>, String>)
        requires
            old(self).wf(),
        ensures
            ({
                let o = variant_defs(old(self).words(), old(self).st(), Seq::empty());
                &&& old(self).ran(*final(self), o)
                &&& match r {
                    Ok(v) => o.res == Ok::<Seq<EnumVariantDefView>, Chars>(enum_variant_def_views(v@)),
                    Err(e) => o.res == Err::<Seq<EnumVariantDefView>, Chars>(e@),
                }
            }),
            final(self).expr_id_counter == old(self).expr_id_counter,
    {
        let ghost ts = self.words();
        let ghost p = self.st();
        let mut list: Vec<EnumVariantDef> = Vec::new();
        assert(enum_variant_def_views(list@) =~= Seq::empty()) by {
            lemma_enum_variant_def_views(list@);
        }
        loop
            invariant_except_break
                variant_defs(ts, p, Seq::empty()) == relay(
                    p,
                    self.st(),
                    variant_defs(ts, self.st(), enum_variant_def_views(list@)),
                ),
            invariant
                self.wf(),
                self.tokens == old(self).tokens,
                ts == old(self).words(),
                p == old(self).st(),
                self.st().no_struct == p.no_struct,
                self.st().scopes == p.scopes,
                self.pos >= old(self).pos,
                self.expr_id_counter == old(self).expr_id_counter,
            ensures
                variant_defs(ts, p, Seq::empty()) == relay(
                    p,
                    self.st(),
                    ok(self.st(), self.st(), enum_variant_def_views(list@)),
                ),
            decreases self.left(),
        {
            proof {
                reveal(variant_defs);
            }
            if self.peek().is_none() || self.at(Token::RBrace) {
                break;
            }
            let name = match self.parse_ident() {
                Ok(v) => v,
                Err(e) => {
                    return Err(e);
                },
            };
            let ty = match self.parse_payload() {
                Ok(v) => v,
                Err(e) => {
                    return Err(e);
                },
            };
            let variant = EnumVariantDef { name, ty };
            proof {
                lemma_enum_variant_def_push(list@, variant);
            }
            list.push(variant);
            if !self.skip(Token::Comma) {
                break;
            }
        }
        Ok(list)
    }

    /// A function with its attributes.
    #[verifier::spinoff_prover]
    fn parse_fn_with_attributes(&mut self) -> (r: Result<FnDef, String>)
        requires
            old(self).wf(),
        ensures
            ({
                let o = fn_with_attributes(old(self).words(), old(self).st());
                &&& old(self).ran(*final(self), o)
                &&& match r {
                    Ok(f) => o.res == Ok::<FnDefView, Chars>(f.model()),
                    Err(e) => o.res == Err::<FnDefView, Chars>(e@),
                }
            }),
            r is Ok ==> final(self).pos > old(self).pos,
    {
        proof {
            reveal(fn_with_attributes);
        }
        let attributes = match self.parse_attributes() {
            Ok(v) => v,
            Err(e) => {
                return Err(e);
            },
        };
        self.parse_func_def(attributes)
    }

    /// Functions up to the closing brace.
    #[verifier::spinoff_prover]
    #[verifier::rlimit(30)]
    fn parse_fn_defs(&mut self) -> (r: Result<Vec<FnDef>, String>)
        requires
            old(self).wf(),
        ensures
            ({
                let o = fn_defs(old(self).words(), old(self).st(), Seq::empty());
                &&& old(self).ran(*final(self), o)
                &&& match r {
                    Ok(v) => o.res == Ok::<Seq<FnDefView>, Chars>(fn_def_views(v@)),
                    Err(e) => o.res == Err::<Seq<FnDefView>, Chars>(e@),
                }
            }),
    {
        let ghost ts = self.words();
        let ghost p = self.st();
        let mut list: Vec<FnDef> = Vec::new();
        assert(fn_def_views(list@) =~= Seq::empty()) by {
            lemma_fn_def_views(list@);
        }
        loop
            invariant_except_break
                fn_defs(ts, p, Seq::empty()) == relay(
                    p,
                    self.st(),
                    fn_defs(ts, self.st(), fn_def_views(list@)),
                ),
            invariant
                self.wf(),
                self.tokens == old(self).tokens,
                ts == old(self).words(),
                p == old(self).st(),
                self.st().no_struct == p.no_struct,
                self.st().scopes == p.scopes,
                self.pos >= old(self).pos,
                self.pos - self.expr_id_counter >= old(self).pos - old(self).expr_id_counter,
            ensures
                fn_defs(ts, p, Seq::empty()) == relay(
                    p,
                    self.st(),
                    ok(self.st(), self.st(), fn_def_views(list@)),
                ),
            decreases self.left(),
        {
            proof {
                reveal(fn_defs);
            }
            if self.peek().is_none() || self.at(Token::RBrace) {
                break;
            }
            let f = match self.parse_fn_with_attributes() {
                Ok(v) => v,
                Err(e) => {
                    return Err(e);
                },
            };
            proof {
                lemma_fn_def_push(list@, f);
            }
            list.push(f);
        }
        Ok(list)
    }

    /// Functions without bodies, up to the closing brace.
    #[verifier::spinoff_prover]
    #[verifier::rlimit(30)]
    fn parse_fn_sigs(&mut self) -> (r: Result<Vec<FnSig>, String>)
        requires
            old(self).wf(),
        ensures
            ({
                let o = fn_sigs(old(self).words(), old(self).st(), Seq::empty());
                &&& old(self).ran(*final(self), o)
                &&& match r {
                    Ok(v) => o.res == Ok::<Seq<FnSigView>, Chars>(fn_sig_views(v@)),
                    Err(e) => o.res == Err::<Seq<FnSigView>, Chars>(e@),
                }
            }),
            final(self).expr_id_counter == old(self).expr_id_counter,
    {
        let ghost ts = self.words();
        let ghost p = self.st();
        let mut list: Vec<FnSig> = Vec::new();
        assert(fn_sig_views(list@) =~= Seq::empty()) by {
            lemma_fn_sig_views(list@);
        }
        loop
            invariant_except_break
                fn_sigs(ts, p, Seq::empty()) == relay(
                    p,
                    self.st(),
                    fn_sigs(ts, self.st(), fn_sig_views(list@)),
                ),
            invariant
                self.wf(),
                self.tokens == old(self).tokens,
                ts == old(self).words(),
                p == old(self).st(),
                self.st().no_struct == p.no_struct,
                self.st().scopes == p.scopes,
                self.pos >= old(self).pos,
                self.expr_id_counter == old(self).expr_id_counter,
            ensures
                fn_sigs(ts, p, Seq::empty()) == relay(
                    p,
                    self.st(),
                    ok(self.st(), self.st(), fn_sig_views(list@)),
                ),
            decreases self.left(),
        {
            proof {
                reveal(fn_sigs);
            }
            if self.peek().is_none() || self.at(Token::RBrace) {
                break;
            }
            let f = match self.parse_func_sig() {
                Ok(v) => v,
                Err(e) => {
                    return Err(e);
                },
            };
            proof {
                lemma_fn_sig_push(list@, f);
            }
            list.push(f);
        }
        Ok(list)
    }

    /// The names of a path.
    #[verifier::spinoff_prover]
    #[verifier::rlimit(30)]
    fn parse_path(&mut self) -> (r: Result<Vec<String>, String>)
        requires
            old(self).wf(),
        ensures
            ({
                let o = path(old(self).words(), old(self).st(), Seq::empty());
                &&& old(self).ran(*final(self), o)
                &&& match r {
                    Ok(v) => o.res == Ok::<Seq<Chars>, Chars>(string_views(v@)),
                    Err(e) => o.res == Err::<Seq<Chars>, Chars>(e@),
                }
            }),
            final(self).expr_id_counter == old(self).expr_id_counter,
    {
        let ghost ts = self.words();
        let ghost p = self.st();
        let mut list: Vec<String> = Vec::new();
        assert(string_views(list@) =~= Seq::empty()) by {
            lemma_string_views(list@);
        }
        loop
            invariant_except_break
                path(ts, p, Seq::empty()) == relay(
                    p,
                    self.st(),
                    path(ts, self.st(), string_views(list@)),
                ),
            invariant
                self.wf(),
                self.tokens == old(self).tokens,
                ts == old(self).words(),
                p == old(self).st(),
                self.st().no_struct == p.no_struct,
                self.st().scopes == p.scopes,
                self.pos >= old(self).pos,
                self.expr_id_counter == old(self).expr_id_counter,
            ensures
                path(ts, p, Seq::empty()) == relay(
                    p,
                    self.st(),
                    ok(self.st(), self.st(), string_views(list@)),
                ),
            decreases self.left(),
        {
            proof {
                reveal(path);
            }
            let name = match self.parse_ident() {
                Ok(v) => v,
                Err(e) => {
                    return Err(e);
                },
            };
            proof {
                lemma_string_push(list@, name);
            }
            list.push(name);
            if !self.skip(Token::PathSep) {
                break;
            }
        }
        Ok(list)
    }

    /// A structure: its name, its type parameters and its fields.
    #[verifier::spinoff_prover]
    #[verifier::rlimit(30)]
    pub fn parse_struct_def(&mut self) -> (r: Result<StructDef, String>)
        requires
            old(self).wf(),
        ensures
            ({
                let o = struct_def(old(self).words(), old(self).st());
                &&& old(self).ran(*final(self), o)
                &&& match r {
                    Ok(x) => o.res == Ok::<StructDefView, Chars>(x.model()),
                    Err(e) => o.res == Err::<StructDefView, Chars>(e@),
                }
            }),
            r is Ok ==> final(self).pos > old(self).pos,
    {
        proof {
            reveal(struct_def);
        }
        if let Err(e) = self.expect(Token::Struct) {
            return Err(e);
        }
        let name = match self.parse_ident() {
            Ok(v) => v,
            Err(e) => {
                return Err(e);
            },
        };
        let generic_params = match self.parse_generic_params() {
            Ok(v) => v,
            Err(e) => {
                return Err(e);
            },
        };
        self.push_generic_scope(&generic_params);
        if let Err(e) = self.expect(Token::LBrace) {
            return Err(e);
        }
        let fields = match self.parse_field_defs() {
            Ok(v) => v,
            Err(e) => {
                return Err(e);
            },
        };
        if let Err(e) = self.expect(Token::RBrace) {
            return Err(e);
        }
        self.pop_generic_scope();
        assert(self.st().scopes =~= old(self).st().scopes);
        Ok(StructDef { name, generic_params, fields })
    }

    /// An enumeration: its name, its type parameters and its variants.
    #[verifier::spinoff_prover]
    #[verifier::rlimit(30)]
    pub fn parse_enum_def(&mut self) -> (r: Result<EnumDef, String>)
        requires
            old(self).wf(),
        ensures
            ({
                let o = enum_def(old(self).words(), old(self).st());
                &&& old(self).ran(*final(self), o)
                &&& match r {
                    Ok(x) => o.res == Ok::<EnumDefView, Chars>(x.model()),
                    Err(e) => o.res == Err::<EnumDefView, Chars>(e@),
                }
            }),
            r is Ok ==> final(self).pos > old(self).pos,
    {
        proof {
            reveal(enum_def);
        }
        if let Err(e) = self.expect(Token::Enum) {
            return Err(e);
        }
        let name = match self.parse_ident() {
            Ok(v) => v,
            Err(e) => {
                return Err(e);
            },
        };
        let generic_params = match self.parse_generic_params() {
            Ok(v) => v,
            Err(e) => {
                return Err(e);
            },
        };
        self.push_generic_scope(&generic_params);
        if let Err(e) = self.expect(Token::LBrace) {
            return Err(e);
        }
        let variants = match self.parse_variant_defs() {
            Ok(v) => v,
            Err(e) => {
                return Err(e);
            },
        };
        if let Err(e) = self.expect(Token::RBrace) {
            return Err(e);
        }
        self.pop_generic_scope();
        assert(self.st().scopes =~= old(self).st().scopes);
        Ok(EnumDef { name, generic_params, variants })
    }

    /// A constant: its name, its type and its value.
    #[verifier::spinoff_prover]
    #[verifier::rlimit(30)]
    pub fn parse_const_def(&mut self) -> (r: Result<ConstDef, String>)
        requires
            old(self).wf(),
        ensures
            ({
                let o = const_def(old(self).words(), old(self).st());
                &&& old(self).ran(*final(self), o)
                &&& match r {
                    Ok(x) => o.res == Ok::<ConstDefView, Chars>(x.model()),
                    Err(e) => o.res == Err::<ConstDefView, Chars>(e@),
                }
            }),
            r is Ok ==> final(self).pos > old(self).pos,
    {
        proof {
            reveal(const_def);
        }
        if let Err(e) = self.expect(Token::Const) {
            return Err(e);
        }
        let name = match self.parse_ident() {
            Ok(v) => v,
            Err(e) => {
                return Err(e);
            },
        };
        if let Err(e) = self.expect(Token::Colon) {
            return Err(e);
        }
        let ty = match self.parse_type() {
            Ok(v) => v,
            Err(e) => {
                return Err(e);
            },
        };
        if let Err(e) = self.expect(Token::Eq) {
            return Err(e);
        }
        let value = match self.parse_expr() {
            Ok(v) => v,
            Err(e) => {
                return Err(e);
            },
        };
        if let Err(e) = self.expect(Token::Semicolon) {
            return Err(e);
        }
        Ok(ConstDef { name, ty, value })
    }

    /// A name and functions in braces, behind a keyword.
    #[verifier::spinoff_prover]
    #[verifier::rlimit(30)]
    pub fn parse_named_fns(&mut self, keyword: Token) -> (r: Result<(String, Vec<FnDef>), String>)
        requires
            old(self).wf(),
        ensures
            ({
                let o = named_fns(old(self).words(), old(self).st(), keyword);
                &&& old(self).ran(*final(self), o)
                &&& match r {
                    Ok(x) => o.res == Ok::<(Chars, Seq<FnDefView>), Chars>((x.0@, fn_def_views(x.1@))),
                    Err(e) => o.res == Err::<(Chars, Seq<FnDefView>), Chars>(e@),
                }
            }),
            r is Ok ==> final(self).pos > old(self).pos,
    {
        proof {
            reveal(named_fns);
        }
        if let Err(e) = self.expect(keyword) {
            return Err(e);
        }
        let name = match self.parse_ident() {
            Ok(v) => v,
            Err(e) => {
                return Err(e);
            },
        };
        if let Err(e) = self.expect(Token::LBrace) {
            return Err(e);
        }
        let functions = match self.parse_fn_defs() {
            Ok(v) => v,
            Err(e) => {
                return Err(e);
            },
        };
        if let Err(e) = self.expect(Token::RBrace) {
            return Err(e);
        }
        Ok((name, functions))
    }

    /// An interface: its name and its functions.
    #[verifier::spinoff_prover]
    #[verifier::rlimit(30)]
    pub fn parse_interface_def(&mut self) -> (r: Result<InterfaceDef, String>)
        requires
            old(self).wf(),
        ensures
            ({
                let o = interface_def(old(self).words(), old(self).st());
                &&& old(self).ran(*final(self), o)
                &&& match r {
                    Ok(x) => o.res == Ok::<InterfaceDefView, Chars>(x.model()),
                    Err(e) => o.res == Err::<InterfaceDefView, Chars>(e@),
                }
            }),
            r is Ok ==> final(self).pos > old(self).pos,
    {
        proof {
            reveal(interface_def);
        }
        if let Err(e) = self.expect(Token::Interface) {
            return Err(e);
        }
        let name = match self.parse_ident() {
            Ok(v) => v,
            Err(e) => {
                return Err(e);
            },
        };
        if let Err(e) = self.expect(Token::LBrace) {
            return Err(e);
        }
        let functions = match self.parse_fn_sigs() {
            Ok(v) => v,
            Err(e) => {
                return Err(e);
            },
        };
        if let Err(e) = self.expect(Token::RBrace) {
            return Err(e);
        }
        Ok(InterfaceDef { name, functions })
    }

    /// An import.
    #[verifier::spinoff_prover]
    #[verifier::rlimit(30)]
    pub fn parse_use_def(&mut self) -> (r: Result<UseDef, String>)
        requires
            old(self).wf(),
        ensures
            ({
                let o = use_def(old(self).words(), old(self).st());
                &&& old(self).ran(*final(self), o)
                &&& match r {
                    Ok(x) => o.res == Ok::<UseDefView, Chars>(x.model()),
                    Err(e) => o.res == Err::<UseDefView, Chars>(e@),
                }
            }),
            r is Ok ==> final(self).pos > old(self).pos,
    {
        proof {
            reveal(use_def);
        }
        if let Err(e) = self.expect(Token::Use) {
            return Err(e);
        }
        let path = match self.parse_path() {
            Ok(v) => v,
            Err(e) => {
                return Err(e);
            },
        };
        if let Err(e) = self.expect(Token::Semicolon) {
            return Err(e);
        }
        Ok(UseDef { path })
    }
}

} // verus!
