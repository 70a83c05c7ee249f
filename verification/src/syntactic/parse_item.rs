//! Items and programs.
use crate::ast::{
    ImplementDef, Item, item_views, ItemView, lemma_item_push, lemma_item_views, ModelDef, Program,
    ProgramView,
};
use crate::text::Chars;
use crate::token::Token;
use super::grammar::{definition, item, items, program, relay};
use super::parser::Parser;
use vstd::prelude::*;

verus! {

impl Parser {
    /// An item that is no function, behind its visibility.
    #[verifier::spinoff_prover]
    #[verifier::rlimit(30)]
    fn parse_definition(&mut self) -> (r: Result<Item, String>)
        requires
            old(self).wf(),
        ensures
            ({
                let o = definition(old(self).words(), old(self).st());
                &&& old(self).ran(*final(self), o)
                &&& match r {
                    Ok(x) => o.res == Ok::<ItemView, Chars>(x.model()),
                    Err(e) => o.res == Err::<ItemView, Chars>(e@),
                }
            }),
            r is Ok ==> final(self).pos > old(self).pos,
    {
        proof {
            reveal(definition);
        }
        if self.at(Token::Struct) {
            match self.parse_struct_def() {
                Ok(x) => Ok(Item::StructDef(x)),
                Err(e) => Err(e),
            }
        } else if self.at(Token::Enum) {
            match self.parse_enum_def() {
                Ok(x) => Ok(Item::EnumDef(x)),
                Err(e) => Err(e),
            }
        } else if self.at(Token::Const) {
            match self.parse_const_def() {
                Ok(x) => Ok(Item::ConstDef(x)),
                Err(e) => Err(e),
            }
        } else if self.at(Token::Model) {
            match self.parse_named_fns(Token::Model) {
                Ok((name, functions)) => Ok(Item::ModelDef(ModelDef { name, functions })),
                Err(e) => Err(e),
            }
        } else if self.at(Token::Implement) {
            match self.parse_named_fns(Token::Implement) {
                Ok((target, functions)) => Ok(
                    Item::Implement(ImplementDef { target, functions }),
                ),
                Err(e) => Err(e),
            }
        } else if self.at(Token::Interface) {
            match self.parse_interface_def() {
                Ok(x) => Ok(Item::Interface(x)),
                Err(e) => Err(e),
            }
        } else if self.at(Token::Use) {
            match self.parse_use_def() {
                Ok(x) => Ok(Item::Use(x)),
                Err(e) => Err(e),
            }
        } else {
            Err("Expected item".to_string())
        }
    }

    /// An item with its attributes and its visibility.
    #[verifier::spinoff_prover]
    #[verifier::rlimit(30)]
    pub fn parse_item(&mut self) -> (r: Result<Vec<Item>, String>)
        requires
            old(self).wf(),
        ensures
            ({
                let o = item(old(self).words(), old(self).st());
                &&& old(self).ran(*final(self), o)
                &&& match r {
                    Ok(v) => o.res == Ok::<Seq<ItemView>, Chars>(item_views(v@)),
                    Err(e) => o.res == Err::<Seq<ItemView>, Chars>(e@),
                }
            }),
            r is Ok ==> final(self).pos > old(self).pos,
    {
        proof {
            reveal(item);
        }
        let attributes = match self.parse_attributes() {
            Ok(v) => v,
            Err(e) => {
                return Err(e);
            },
        };
        let shown: bool = self.at(Token::Pub) || self.at(Token::Priv);
        let function: bool = if shown {
            self.then_at(Token::Fn)
        } else {
            self.at(Token::Fn)
        };
        let one: Item = if function {
            match self.parse_func_def(attributes) {
                Ok(f) => Item::FnDef(f),
                Err(e) => {
                    return Err(e);
                },
            }
        } else {
            if shown {
                self.advance();
            }
            match self.parse_definition() {
                Ok(x) => x,
                Err(e) => {
                    return Err(e);
                },
            }
        };
        let mut list: Vec<Item> = Vec::new();
        proof {
            lemma_item_views(list@);
            lemma_item_push(list@, one);
        }
        list.push(one);
        assert(item_views(list@) =~= seq![one.model()]);
        Ok(list)
    }

    /// The rest of the program, from the next token on.
    #[verifier::spinoff_prover]
    pub fn parse_program(&mut self) -> (r: Result<Program, String>)
        requires
            old(self).wf(),
        ensures
            ({
                let o = program(old(self).words(), old(self).st());
                &&& old(self).ran(*final(self), o)
                &&& match r {
                    Ok(x) => o.res == Ok::<ProgramView, Chars>(x.model()),
                    Err(e) => o.res == Err::<ProgramView, Chars>(e@),
                }
            }),
            r is Ok ==> final(self).pos == final(self).tokens.len(),
    {
        let ghost ts = self.words();
        let ghost p = self.st();
        let mut list: Vec<Item> = Vec::new();
        proof {
            reveal(program);
        }
        assert(item_views(list@) =~= Seq::empty()) by {
            lemma_item_views(list@);
        }
        loop
            invariant_except_break
                items(ts, p, Seq::empty()) == relay(
                    p,
                    self.st(),
                    items(ts, self.st(), item_views(list@)),
                ),
            invariant
                self.wf(),
                self.tokens == old(self).tokens,
                ts == old(self).words(),
                p == old(self).st(),
                self.st().no_struct == p.no_struct,
                self.st().scopes == p.scopes,
                self.pos >= old(self).pos,
                self.pos - self.expr_id_counter >= old(self).pos - old(self).expr_id_counter,
                program(ts, p) == (match items(ts, p, Seq::empty()).res {
                    Err(m) => super::grammar::fail(
                        p,
                        p.after(items(ts, p, Seq::empty())),
                        m,
                    ),
                    Ok(l) => super::grammar::ok(
                        p,
                        p.after(items(ts, p, Seq::empty())),
                        ProgramView { items: l },
                    ),
                }),
            ensures
                self.pos == self.tokens.len(),
                items(ts, p, Seq::empty()) == relay(
                    p,
                    self.st(),
                    super::grammar::ok(self.st(), self.st(), item_views(list@)),
                ),
            decreases self.left(),
        {
            proof {
                reveal(items);
            }
            if self.peek().is_none() {
                break;
            }
            let mut more = match self.parse_item() {
                Ok(v) => v,
                Err(e) => {
                    return Err(e);
                },
            };
            let ghost list0 = list@;
            let ghost more0 = more@;
            list.append(&mut more);
            proof {
                lemma_item_views(list0);
                lemma_item_views(more0);
                lemma_item_views(list@);
                assert(item_views(list@) =~= item_views(list0) + item_views(more0));
            }
        }
        Ok(Program { items: list })
    }
}

} // verus!
