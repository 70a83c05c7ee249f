//! Statements.
use crate::ast::{
    AssignStmt, BinaryOp, Block, BlockView, Expr, ExprKind, ForStmt, lemma_stmt_push,
    lemma_stmt_views, LetStmt, LoopStmt, Stmt, stmt_views, StmtView, UnsafeBlockStmt,
    UnsafeBlockStmtView, UnsafeKind, WhileStmt,
};
use crate::text::Chars;
use crate::token::Token;
use super::grammar::{
    assign_op, assign_stmt, assign_stmt_rule, binding, binding_rule, block, block_rule, break_stmt,
    expr, expr_stmt, expr_stmt_rule, for_stmt, for_stmt_rule, head_expr, loop_stmt, loop_stmt_rule,
    ok, relay, return_stmt, return_stmt_rule, stmt, stmt_rule, stmts, stmts_rule, unsafe_block,
    unsafe_block_rule, while_stmt, while_stmt_rule,
};
use super::parser::Parser;
use vstd::prelude::*;

verus! {

/// Whether a result is the one that a phrase gives.
pub open spec fn stmt_is(r: Result<Stmt, String>, res: Result<StmtView, Chars>) -> bool {
    match r {
        Ok(s) => res == Ok::<StmtView, Chars>(s.model()),
        Err(e) => res == Err::<StmtView, Chars>(e@),
    }
}

pub open spec fn stmts_are(
    r: Result<Vec<Stmt>, String>,
    res: Result<Seq<StmtView>, Chars>,
) -> bool {
    match r {
        Ok(v) => res == Ok::<Seq<StmtView>, Chars>(stmt_views(v@)),
        Err(e) => res == Err::<Seq<StmtView>, Chars>(e@),
    }
}

pub open spec fn block_is(r: Result<Block, String>, res: Result<BlockView, Chars>) -> bool {
    match r {
        Ok(b) => res == Ok::<BlockView, Chars>(b.model()),
        Err(e) => res == Err::<BlockView, Chars>(e@),
    }
}

pub open spec fn unsafe_block_is(
    r: Result<UnsafeBlockStmt, String>,
    res: Result<UnsafeBlockStmtView, Chars>,
) -> bool {
    match r {
        Ok(b) => res == Ok::<UnsafeBlockStmtView, Chars>(b.model()),
        Err(e) => res == Err::<UnsafeBlockStmtView, Chars>(e@),
    }
}

fn assign_op_of(t: Token) -> (r: Option<BinaryOp>)
    ensures
        r == assign_op(t),
{
    proof {
        reveal(assign_op);
    }
    match t {
        Token::PlusEq => Some(BinaryOp::Add),
        Token::MinusEq => Some(BinaryOp::Sub),
        Token::StarEq => Some(BinaryOp::Mul),
        Token::SlashEq => Some(BinaryOp::Div),
        Token::PercentEq => Some(BinaryOp::Mod),
        _ => None,
    }
}

impl Parser {
    /// Statements in braces.
    #[verifier::spinoff_prover]
    #[verifier::rlimit(30)]
    pub fn parse_block(&mut self) -> (r: Result<Block, String>)
        requires
            old(self).wf(),
        ensures
            ({
                let o = block(old(self).words(), old(self).st());
                &&& old(self).ran(*final(self), o)
                &&& block_is(r, o.res)
            }),
            r is Ok ==> final(self).pos - final(self).expr_id_counter > old(self).pos - old(
                self,
            ).expr_id_counter,
            r is Ok ==> final(self).pos > old(self).pos,
        decreases old(self).left(), 3nat,
    {
        proof {
            reveal(block);
            reveal(block_rule);
            reveal(stmts);
        }
        if let Err(e) = self.expect(Token::LBrace) {
            return Err(e);
        }
        let stmts = match self.parse_stmts() {
            Ok(v) => v,
            Err(e) => {
                return Err(e);
            },
        };
        if let Err(e) = self.expect(Token::RBrace) {
            return Err(e);
        }
        Ok(Block { stmts })
    }

    /// Statements up to a closing brace.
    #[verifier::spinoff_prover]
    #[verifier::rlimit(30)]
    fn parse_stmts(&mut self) -> (r: Result<Vec<Stmt>, String>)
        requires
            old(self).wf(),
        ensures
            ({
                let o = stmts(old(self).words(), old(self).st(), Seq::empty());
                &&& old(self).ran(*final(self), o)
                &&& stmts_are(r, o.res)
            }),
        decreases old(self).left(), 31nat,
    {
        proof {
            reveal(stmts);
            reveal(stmts_rule);
            reveal(stmt);
        }
        let ghost ts = self.words();
        let ghost p = self.st();
        let mut list: Vec<Stmt> = Vec::new();
        assert(stmt_views(list@) =~= Seq::empty()) by {
            lemma_stmt_views(list@);
        }
        loop
            invariant_except_break
                stmts(ts, p, Seq::empty()) == relay(
                    p,
                    self.st(),
                    stmts(ts, self.st(), stmt_views(list@)),
                ),
            invariant
                self.wf(),
                self.tokens == old(self).tokens,
                ts == old(self).words(),
                p == old(self).st(),
                self.st().no_struct == p.no_struct,
                self.st().scopes == p.scopes,
                self.pos >= old(self).pos,
                self.pos - self.expr_id_counter >= old(self).pos - old(self).expr_id_counter,
            ensures
                stmts(ts, p, Seq::empty()) == relay(
                    p,
                    self.st(),
                    ok(self.st(), self.st(), stmt_views(list@)),
                ),
            decreases self.left(),
        {
            proof {
                reveal(stmts);
                reveal(stmts_rule);
                reveal(stmt);
            }
            if self.peek().is_none() || self.at(Token::RBrace) {
                break;
            }
            let s = match self.parse_stmt() {
                Ok(v) => v,
                Err(e) => {
                    return Err(e);
                },
            };
            proof {
                lemma_stmt_push(list@, s);
            }
            list.push(s);
        }
        Ok(list)
    }

    /// The block behind `unsafe`, or behind `unsafe verify`.
    #[verifier::spinoff_prover]
    #[verifier::rlimit(30)]
    pub fn parse_unsafe_block(&mut self) -> (r: Result<UnsafeBlockStmt, String>)
        requires
            old(self).wf(),
        ensures
            ({
                let o = unsafe_block(old(self).words(), old(self).st());
                &&& old(self).ran(*final(self), o)
                &&& unsafe_block_is(r, o.res)
            }),
            r is Ok ==> final(self).pos - final(self).expr_id_counter > old(self).pos - old(
                self,
            ).expr_id_counter,
            r is Ok ==> final(self).pos > old(self).pos,
        decreases old(self).left(), 4nat,
    {
        proof {
            reveal(unsafe_block);
            reveal(unsafe_block_rule);
            reveal(block);
            assert(unsafe_block(self.words(), self.st()) == unsafe_block_rule(self.words(), self.st()));
        }
        if let Err(e) = self.expect(Token::Unsafe) {
            return Err(e);
        }
        let kind: UnsafeKind = if self.skip(Token::Verify) {
            UnsafeKind::Verify
        } else {
            UnsafeKind::Normal
        };
        let body = match self.parse_block() {
            Ok(v) => v,
            Err(e) => {
                return Err(e);
            },
        };
        Ok(UnsafeBlockStmt { kind, body })
    }

    /// A statement.
    #[verifier::spinoff_prover]
    #[verifier::rlimit(30)]
    pub fn parse_stmt(&mut self) -> (r: Result<Stmt, String>)
        requires
            old(self).wf(),
        ensures
            ({
                let o = stmt(old(self).words(), old(self).st());
                &&& old(self).ran(*final(self), o)
                &&& stmt_is(r, o.res)
            }),
            r is Ok ==> final(self).pos > old(self).pos,
        decreases old(self).left(), 30nat,
    {
        proof {
            reveal(stmt);
            reveal(stmt_rule);
            reveal(binding);
            reveal(return_stmt);
            reveal(while_stmt);
            reveal(for_stmt);
            reveal(loop_stmt);
            reveal(expr_stmt);
            reveal(assign_stmt);
        }
        if self.at(Token::Persist) {
            self.advance();
            if self.skip(Token::Let) {
                self.parse_binding(false, true)
            } else if self.skip(Token::Var) {
                self.parse_binding(true, true)
            } else {
                Err("Expected 'let' or 'var' after 'persist'".to_string())
            }
        } else if self.skip(Token::Let) {
            self.parse_binding(false, false)
        } else if self.skip(Token::Var) {
            self.parse_binding(true, false)
        } else if self.at(Token::Break) {
            self.parse_break_stmt()
        } else if self.at(Token::Return) {
            self.parse_return_stmt()
        } else if self.at(Token::While) {
            self.parse_while_stmt()
        } else if self.at(Token::For) {
            self.parse_for_stmt()
        } else if self.at(Token::Loop) {
            self.parse_loop_stmt()
        } else if self.at(Token::If) || self.at(Token::Lack) || self.at(Token::Unsafe) {
            self.parse_expr_stmt()
        } else {
            self.parse_assign_stmt()
        }
    }

    /// An expression as a statement; a semicolon may follow it.
    #[verifier::spinoff_prover]
    #[verifier::rlimit(30)]
    pub fn parse_expr_stmt(&mut self) -> (r: Result<Stmt, String>)
        requires
            old(self).wf(),
        ensures
            ({
                let o = expr_stmt(old(self).words(), old(self).st());
                &&& old(self).ran(*final(self), o)
                &&& stmt_is(r, o.res)
            }),
            r is Ok ==> final(self).pos > old(self).pos,
        decreases old(self).left(), 27nat,
    {
        proof {
            reveal(expr_stmt);
            reveal(expr_stmt_rule);
            reveal(expr);
        }
        let e = match self.parse_expr() {
            Ok(v) => v,
            Err(e) => {
                return Err(e);
            },
        };
        let _ = self.skip(Token::Semicolon);
        Ok(Stmt::ExprStmt(e))
    }

    /// An assignment, or an expression as a statement.
    #[verifier::spinoff_prover]
    #[verifier::rlimit(50)]
    pub fn parse_assign_stmt(&mut self) -> (r: Result<Stmt, String>)
        requires
            old(self).wf(),
        ensures
            ({
                let o = assign_stmt(old(self).words(), old(self).st());
                &&& old(self).ran(*final(self), o)
                &&& stmt_is(r, o.res)
            }),
            r is Ok ==> final(self).pos > old(self).pos,
        decreases old(self).left(), 27nat,
    {
        proof {
            reveal(assign_stmt);
            reveal(assign_stmt_rule);
            reveal(expr);
        }
        let target = match self.parse_expr() {
            Ok(v) => v,
            Err(e) => {
                return Err(e);
            },
        };
        let compound_op: Option<BinaryOp> = match self.peek() {
            Some(t) => assign_op_of(t),
            None => None,
        };
        if self.at(Token::Eq) || compound_op.is_some() {
            self.advance();
            let rhs = match self.parse_expr() {
                Ok(v) => v,
                Err(e) => {
                    return Err(e);
                },
            };
            if let Err(e) = self.expect(Token::Semicolon) {
                return Err(e);
            }
            let value: Expr = match compound_op {
                None => rhs,
                Some(op) => {
                    let id: usize = self.next_expr_id();
                    Expr {
                        id,
                        kind: ExprKind::BinaryOp {
                            op,
                            left: Box::new(target.dup()),
                            right: Box::new(rhs),
                        },
                    }
                },
            };
            return Ok(
                Stmt::Assign(AssignStmt { target: Box::new(target), expr: Box::new(value) }),
            );
        }
        let _ = self.skip(Token::Semicolon);
        Ok(Stmt::ExprStmt(target))
    }

    /// `name: T = value;` behind `let` or `var`.
    #[verifier::spinoff_prover]
    #[verifier::rlimit(30)]
    pub fn parse_binding(&mut self, mutable: bool, persist: bool) -> (r: Result<Stmt, String>)
        requires
            old(self).wf(),
        ensures
            ({
                let o = binding(old(self).words(), old(self).st(), mutable, persist);
                &&& old(self).ran(*final(self), o)
                &&& stmt_is(r, o.res)
            }),
            r is Ok ==> final(self).pos > old(self).pos,
        decreases old(self).left(), 27nat,
    {
        proof {
            reveal(binding);
            reveal(binding_rule);
            reveal(expr);
        }
        let name = match self.parse_ident() {
            Ok(v) => v,
            Err(e) => {
                return Err(e);
            },
        };
        let ty = match self.parse_optional_type(Token::Colon) {
            Ok(v) => v,
            Err(e) => {
                return Err(e);
            },
        };
        if let Err(e) = self.expect(Token::Eq) {
            return Err(e);
        }
        let init = match self.parse_expr() {
            Ok(v) => v,
            Err(e) => {
                return Err(e);
            },
        };
        if let Err(e) = self.expect(Token::Semicolon) {
            return Err(e);
        }
        Ok(Stmt::Let(LetStmt { name, ty, init: Box::new(init), mutable, persist }))
    }

    /// `break;`.
    #[verifier::spinoff_prover]
    #[verifier::rlimit(30)]
    pub fn parse_break_stmt(&mut self) -> (r: Result<Stmt, String>)
        requires
            old(self).wf(),
        ensures
            ({
                let o = break_stmt(old(self).words(), old(self).st());
                &&& old(self).ran(*final(self), o)
                &&& stmt_is(r, o.res)
            }),
            r is Ok ==> final(self).pos > old(self).pos,
        decreases old(self).left(), 0nat,
    {
        proof {
            reveal(break_stmt);
        }
        if let Err(e) = self.expect(Token::Break) {
            return Err(e);
        }
        if let Err(e) = self.expect(Token::Semicolon) {
            return Err(e);
        }
        Ok(Stmt::Break)
    }

    /// `loop` and its body.
    #[verifier::spinoff_prover]
    #[verifier::rlimit(30)]
    pub fn parse_loop_stmt(&mut self) -> (r: Result<Stmt, String>)
        requires
            old(self).wf(),
        ensures
            ({
                let o = loop_stmt(old(self).words(), old(self).st());
                &&& old(self).ran(*final(self), o)
                &&& stmt_is(r, o.res)
            }),
            r is Ok ==> final(self).pos > old(self).pos,
        decreases old(self).left(), 27nat,
    {
        proof {
            reveal(loop_stmt);
            reveal(loop_stmt_rule);
            reveal(block);
        }
        if let Err(e) = self.expect(Token::Loop) {
            return Err(e);
        }
        let body = match self.parse_block() {
            Ok(v) => v,
            Err(e) => {
                return Err(e);
            },
        };
        Ok(Stmt::Loop(LoopStmt { body }))
    }

    /// `for` with its variable, what it runs over, and its body.
    #[verifier::spinoff_prover]
    #[verifier::rlimit(30)]
    pub fn parse_for_stmt(&mut self) -> (r: Result<Stmt, String>)
        requires
            old(self).wf(),
        ensures
            ({
                let o = for_stmt(old(self).words(), old(self).st());
                &&& old(self).ran(*final(self), o)
                &&& stmt_is(r, o.res)
            }),
            r is Ok ==> final(self).pos > old(self).pos,
        decreases old(self).left(), 27nat,
    {
        proof {
            reveal(for_stmt);
            reveal(for_stmt_rule);
            reveal(head_expr);
            reveal(block);
        }
        if let Err(e) = self.expect(Token::For) {
            return Err(e);
        }
        let var = match self.parse_ident() {
            Ok(v) => v,
            Err(e) => {
                return Err(e);
            },
        };
        if let Err(e) = self.expect(Token::In) {
            return Err(e);
        }
        let iterable = match self.parse_head_expr() {
            Ok(v) => v,
            Err(e) => {
                return Err(e);
            },
        };
        let body = match self.parse_block() {
            Ok(v) => v,
            Err(e) => {
                return Err(e);
            },
        };
        Ok(Stmt::For(ForStmt { var, iterable: Box::new(iterable), body }))
    }

    /// `return`, with a value or without.
    #[verifier::spinoff_prover]
    #[verifier::rlimit(30)]
    pub fn parse_return_stmt(&mut self) -> (r: Result<Stmt, String>)
        requires
            old(self).wf(),
        ensures
            ({
                let o = return_stmt(old(self).words(), old(self).st());
                &&& old(self).ran(*final(self), o)
                &&& stmt_is(r, o.res)
            }),
            r is Ok ==> final(self).pos > old(self).pos,
        decreases old(self).left(), 27nat,
    {
        proof {
            reveal(return_stmt);
            reveal(return_stmt_rule);
            reveal(expr);
        }
        if let Err(e) = self.expect(Token::Return) {
            return Err(e);
        }
        if self.skip(Token::Semicolon) {
            return Ok(Stmt::Return(None));
        }
        let e = match self.parse_expr() {
            Ok(v) => v,
            Err(e) => {
                return Err(e);
            },
        };
        if let Err(e) = self.expect(Token::Semicolon) {
            return Err(e);
        }
        Ok(Stmt::Return(Some(e)))
    }

    /// `while` with its condition and body.
    #[verifier::spinoff_prover]
    #[verifier::rlimit(30)]
    pub fn parse_while_stmt(&mut self) -> (r: Result<Stmt, String>)
        requires
            old(self).wf(),
        ensures
            ({
                let o = while_stmt(old(self).words(), old(self).st());
                &&& old(self).ran(*final(self), o)
                &&& stmt_is(r, o.res)
            }),
            r is Ok ==> final(self).pos > old(self).pos,
        decreases old(self).left(), 27nat,
    {
        proof {
            reveal(while_stmt);
            reveal(while_stmt_rule);
            reveal(head_expr);
            reveal(block);
        }
        if let Err(e) = self.expect(Token::While) {
            return Err(e);
        }
        let cond = match self.parse_head_expr() {
            Ok(v) => v,
            Err(e) => {
                return Err(e);
            },
        };
        let body = match self.parse_block() {
            Ok(v) => v,
            Err(e) => {
                return Err(e);
            },
        };
        Ok(Stmt::While(WhileStmt { cond: Box::new(cond), body }))
    }
}

} // verus!
