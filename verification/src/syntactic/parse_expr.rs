//! Expressions.
use crate::ast::{
    BinaryOp, call_arg_views, CallArg, CallArgView, Expr, expr_views, ExprKind, ExprKindView,
    ExprView, IfKind, lemma_call_arg_push, lemma_call_arg_views, lemma_expr_push, lemma_expr_views,
    lemma_match_arm_push, lemma_match_arm_views, lemma_string_expr_push, lemma_string_expr_views,
    Literal, LiteralView, match_arm_views, MatchArm, MatchArmView, MatchExpr, string_expr_views,
    UnaryOp,
};
use crate::literal::parse_integer;
use crate::text::{Chars, join2};
use crate::token::Token;
use super::grammar::{
    arguments, arguments_rule, binary, binary_op, binary_rule, binary_tail, binary_tail_rule, block,
    call_args, call_args_rule, cast, cast_rule, cast_tail, cast_tail_rule, closure, closure_primary,
    closure_primary_rule, closure_rule, dots, dots_rule, elements, elements_rule, expr, expr_rule,
    head_expr, head_expr_rule, if_expr, if_expr_rule, lack_slice, literal, match_arms,
    match_arms_rule, match_expr, match_expr_rule, name_primary, name_primary_rule, named_call,
    named_call_rule, ok, ok_node, postfix, postfix_rule, postfix_tail, postfix_tail_rule, primary,
    primary_rule, range, range_rule, relay, struct_fields, struct_fields_rule, struct_literal,
    struct_literal_rule, sym_literal, unary, unary_rule, unsafe_block, variant, variant_rule,
};
use super::parser::Parser;
use vstd::prelude::*;

verus! {

/// Whether a result is the one that a phrase gives.
pub open spec fn expr_is(r: Result<Expr, String>, res: Result<ExprView, Chars>) -> bool {
    match r {
        Ok(e) => res == Ok::<ExprView, Chars>(e.model()),
        Err(e) => res == Err::<ExprView, Chars>(e@),
    }
}

pub open spec fn exprs_are(
    r: Result<Vec<Expr>, String>,
    res: Result<Seq<ExprView>, Chars>,
) -> bool {
    match r {
        Ok(v) => res == Ok::<Seq<ExprView>, Chars>(expr_views(v@)),
        Err(e) => res == Err::<Seq<ExprView>, Chars>(e@),
    }
}

pub open spec fn args_are(
    r: Result<Vec<CallArg>, String>,
    res: Result<Seq<CallArgView>, Chars>,
) -> bool {
    match r {
        Ok(v) => res == Ok::<Seq<CallArgView>, Chars>(call_arg_views(v@)),
        Err(e) => res == Err::<Seq<CallArgView>, Chars>(e@),
    }
}

pub open spec fn arms_are(
    r: Result<Vec<MatchArm>, String>,
    res: Result<Seq<MatchArmView>, Chars>,
) -> bool {
    match r {
        Ok(v) => res == Ok::<Seq<MatchArmView>, Chars>(match_arm_views(v@)),
        Err(e) => res == Err::<Seq<MatchArmView>, Chars>(e@),
    }
}

pub open spec fn fields_are(
    r: Result<Vec<(String, Expr)>, String>,
    res: Result<Seq<(Chars, ExprView)>, Chars>,
) -> bool {
    match r {
        Ok(v) => res == Ok::<Seq<(Chars, ExprView)>, Chars>(string_expr_views(v@)),
        Err(e) => res == Err::<Seq<(Chars, ExprView)>, Chars>(e@),
    }
}

fn binary_op_of(level: u8, t: Token) -> (r: Option<BinaryOp>)
    requires
        1 <= level <= 5,
    ensures
        r == binary_op(level as nat, t),
{
    proof {
        reveal(binary_op);
    }
    if level == 1 {
        match t {
            Token::Star => Some(BinaryOp::Mul),
            Token::Slash => Some(BinaryOp::Div),
            Token::Percent => Some(BinaryOp::Mod),
            _ => None,
        }
    } else if level == 2 {
        match t {
            Token::Plus => Some(BinaryOp::Add),
            Token::Minus => Some(BinaryOp::Sub),
            _ => None,
        }
    } else if level == 3 {
        match t {
            Token::EqEq => Some(BinaryOp::Eq),
            Token::Neq => Some(BinaryOp::Neq),
            Token::Lt => Some(BinaryOp::Lt),
            Token::Gt => Some(BinaryOp::Gt),
            Token::Le => Some(BinaryOp::Le),
            Token::Ge => Some(BinaryOp::Ge),
            _ => None,
        }
    } else if level == 4 {
        match t {
            Token::And => Some(BinaryOp::And),
            _ => None,
        }
    } else {
        match t {
            Token::Or => Some(BinaryOp::Or),
            _ => None,
        }
    }
}

/// The arguments of a call with the receiver before them.
fn with_receiver(receiver: Expr, args: Vec<CallArg>) -> (r: Vec<CallArg>)
    ensures
        call_arg_views(r@) == seq![CallArgView::Positional(receiver.model())] + call_arg_views(
            args@,
        ),
{
    let mut rest = args;
    let mut all: Vec<CallArg> = Vec::new();
    all.push(CallArg::Positional(receiver));
    all.append(&mut rest);
    proof {
        lemma_call_arg_views(all@);
        lemma_call_arg_views(args@);
    }
    assert(call_arg_views(all@) =~= seq![CallArgView::Positional(receiver.model())]
        + call_arg_views(args@));
    all
}

/// A variable.
fn ident_node(id: usize, name: String) -> (r: Expr)
    ensures
        r.model() == (ExprView { id, kind: ExprKindView::Ident(name@) }),
{
    Expr { id, kind: ExprKind::Ident(name) }
}

/// A field of a structure.
fn field_node(id: usize, base: Expr, name: String) -> (r: Expr)
    ensures
        r.model() == (ExprView {
            id,
            kind: ExprKindView::FieldAccess {
                struct_expr: Box::new(base.model()),
                field_name: name@,
            },
        }),
{
    Expr { id, kind: ExprKind::FieldAccess { struct_expr: Box::new(base), field_name: name } }
}

/// A call without qualifier.
fn call_node(id: usize, func: String, args: Vec<CallArg>, is_method: bool) -> (r: Expr)
    ensures
        r.model() == (ExprView {
            id,
            kind: ExprKindView::Call {
                qualifier: None,
                func: func@,
                args: call_arg_views(args@),
                is_method,
            },
        }),
{
    Expr { id, kind: ExprKind::Call { qualifier: None, func, args, is_method } }
}

impl Parser {
    /// An expression.
    #[verifier::spinoff_prover]
    pub fn parse_expr(&mut self) -> (r: Result<Expr, String>)
        requires
            old(self).wf(),
        ensures
            ({
                let o = expr(old(self).words(), old(self).st());
                &&& old(self).ran(*final(self), o)
                &&& expr_is(r, o.res)
            }),
            r is Ok ==> final(self).pos > old(self).pos,
        decreases old(self).left(), 26nat,
    {
        proof {
            reveal(expr);
            reveal(expr_rule);
            reveal(if_expr);
            reveal(match_expr);
            reveal(range);
        }
        if self.at(Token::Lack) {
            if self.then_at(Token::Amp) {
                return self.parse_lack_slice();
            }
            return self.parse_if_expr();
        }
        if self.at(Token::If) {
            return self.parse_if_expr();
        }
        if self.at(Token::Match) {
            return self.parse_match_expr();
        }
        self.parse_range()
    }

    /// `lack &[T]`: the empty slice.
    #[verifier::spinoff_prover]
    pub fn parse_lack_slice(&mut self) -> (r: Result<Expr, String>)
        requires
            old(self).wf(),
        ensures
            ({
                let o = lack_slice(old(self).words(), old(self).st());
                &&& old(self).ran(*final(self), o)
                &&& expr_is(r, o.res)
            }),
            r is Ok ==> final(self).pos > old(self).pos,
        decreases old(self).left(), 0nat,
    {
        proof {
            reveal(lack_slice);
        }
        if let Err(e) = self.expect(Token::Lack) {
            return Err(e);
        }
        if let Err(e) = self.expect(Token::Amp) {
            return Err(e);
        }
        if let Err(e) = self.expect(Token::LBracket) {
            return Err(e);
        }
        let t = match self.parse_type() {
            Ok(v) => v,
            Err(e) => {
                return Err(e);
            },
        };
        if let Err(e) = self.expect(Token::RBracket) {
            return Err(e);
        }
        let id: usize = self.next_expr_id();
        Ok(Expr { id, kind: ExprKind::LackSlice(t) })
    }

    /// An expression behind a keyword, before a brace that starts a block.
    #[verifier::spinoff_prover]
    pub fn parse_head_expr(&mut self) -> (r: Result<Expr, String>)
        requires
            old(self).wf(),
        ensures
            ({
                let o = head_expr(old(self).words(), old(self).st());
                &&& old(self).ran(*final(self), o)
                &&& expr_is(r, o.res)
            }),
            r is Ok ==> final(self).pos > old(self).pos,
        decreases old(self).left(), 27nat,
    {
        proof {
            reveal(head_expr);
            reveal(head_expr_rule);
            reveal(expr);
        }
        let prev: bool = self.no_struct_literal;
        self.set_no_struct(true);
        let e = match self.parse_expr() {
            Ok(v) => v,
            Err(e) => {
                return Err(e);
            },
        };
        self.set_no_struct(prev);
        Ok(e)
    }

    /// `if` with its condition and branches; `lack` may stand before it.
    #[verifier::spinoff_prover]
    #[verifier::rlimit(30)]
    pub fn parse_if_expr(&mut self) -> (r: Result<Expr, String>)
        requires
            old(self).wf(),
        ensures
            ({
                let o = if_expr(old(self).words(), old(self).st());
                &&& old(self).ran(*final(self), o)
                &&& expr_is(r, o.res)
            }),
            r is Ok ==> final(self).pos > old(self).pos,
        decreases old(self).left(), 20nat,
    {
        proof {
            reveal(if_expr);
            reveal(if_expr_rule);
            reveal(head_expr);
            reveal(expr);
        }
        let kind: IfKind = if self.skip(Token::Lack) {
            IfKind::Lack
        } else {
            IfKind::Normal
        };
        if let Err(e) = self.expect(Token::If) {
            return Err(e);
        }
        let cond = match self.parse_head_expr() {
            Ok(v) => v,
            Err(e) => {
                return Err(e);
            },
        };
        let then_branch = match self.parse_expr() {
            Ok(v) => v,
            Err(e) => {
                return Err(e);
            },
        };
        let else_branch: Option<Box<Expr>> = if self.skip(Token::Else) {
            match self.parse_expr() {
                Ok(e) => Some(Box::new(e)),
                Err(e) => {
                    return Err(e);
                },
            }
        } else {
            None
        };
        let id: usize = self.next_expr_id();
        Ok(
            Expr {
                id,
                kind: ExprKind::If {
                    kind,
                    cond: Box::new(cond),
                    then_expr: Box::new(then_branch),
                    else_expr: else_branch,
                },
            },
        )
    }

    /// The arms of a `match`, up to the closing brace.
    #[verifier::spinoff_prover]
    #[verifier::rlimit(30)]
    fn parse_match_arms(&mut self) -> (r: Result<Vec<MatchArm>, String>)
        requires
            old(self).wf(),
        ensures
            ({
                let o = match_arms(old(self).words(), old(self).st(), Seq::empty());
                &&& old(self).ran(*final(self), o)
                &&& arms_are(r, o.res)
            }),
        decreases old(self).left(), 0nat,
    {
        proof {
            reveal(match_arms);
            reveal(match_arms_rule);
            reveal(expr);
        }
        let ghost ts = self.words();
        let ghost p = self.st();
        let mut list: Vec<MatchArm> = Vec::new();
        assert(match_arm_views(list@) =~= Seq::empty()) by {
            lemma_match_arm_views(list@);
        }
        loop
            invariant_except_break
                match_arms(ts, p, Seq::empty()) == relay(
                    p,
                    self.st(),
                    match_arms(ts, self.st(), match_arm_views(list@)),
                ),
            invariant
                self.wf(),
                self.tokens == old(self).tokens,
                ts == old(self).words(),
                p == old(self).st(),
                self.st().no_struct == p.no_struct,
                self.st().scopes == p.scopes,
                self.pos >= old(self).pos,
                self.pos - self.expr_id_counter >= old(self).pos - old(self).expr_id_counter,
            ensures
                match_arms(ts, p, Seq::empty()) == relay(
                    p,
                    self.st(),
                    ok(self.st(), self.st(), match_arm_views(list@)),
                ),
            decreases self.left(),
        {
            proof {
                reveal(match_arms);
                reveal(match_arms_rule);
                reveal(expr);
            }
            if self.peek().is_none() || self.at(Token::RBrace) {
                break;
            }
            let pattern = match self.parse_pattern() {
                Ok(v) => v,
                Err(e) => {
                    return Err(e);
                },
            };
            if let Err(e) = self.expect(Token::FatArrow) {
                return Err(e);
            }
            let e = match self.parse_expr() {
                Ok(v) => v,
                Err(e) => {
                    return Err(e);
                },
            };
            let _ = self.skip(Token::Comma);
            let arm = MatchArm { pattern, expr: Box::new(e) };
            proof {
                lemma_match_arm_push(list@, arm);
            }
            list.push(arm);
        }
        Ok(list)
    }

    /// `match` with its arms in braces.
    #[verifier::spinoff_prover]
    #[verifier::rlimit(30)]
    pub fn parse_match_expr(&mut self) -> (r: Result<Expr, String>)
        requires
            old(self).wf(),
        ensures
            ({
                let o = match_expr(old(self).words(), old(self).st());
                &&& old(self).ran(*final(self), o)
                &&& expr_is(r, o.res)
            }),
            r is Ok ==> final(self).pos > old(self).pos,
        decreases old(self).left(), 20nat,
    {
        proof {
            reveal(match_expr);
            reveal(match_expr_rule);
            reveal(head_expr);
            reveal(match_arms);
        }
        if let Err(e) = self.expect(Token::Match) {
            return Err(e);
        }
        let cond = match self.parse_head_expr() {
            Ok(v) => v,
            Err(e) => {
                return Err(e);
            },
        };
        if let Err(e) = self.expect(Token::LBrace) {
            return Err(e);
        }
        let arms = match self.parse_match_arms() {
            Ok(v) => v,
            Err(e) => {
                return Err(e);
            },
        };
        if let Err(e) = self.expect(Token::RBrace) {
            return Err(e);
        }
        let id: usize = self.next_expr_id();
        let whole = MatchExpr { cond: Box::new(cond), arms };
        assert(whole.model().arms == match_arm_views(arms@));
        Ok(Expr { id, kind: ExprKind::Match(whole) })
    }

    /// A range, or one operand.
    #[verifier::spinoff_prover]
    #[verifier::rlimit(40)]
    pub fn parse_range(&mut self) -> (r: Result<Expr, String>)
        requires
            old(self).wf(),
        ensures
            ({
                let o = range(old(self).words(), old(self).st());
                &&& old(self).ran(*final(self), o)
                &&& expr_is(r, o.res)
            }),
            r is Ok ==> final(self).pos > old(self).pos,
        decreases old(self).left(), 20nat,
    {
        proof {
            reveal(range);
            reveal(range_rule);
            reveal(binary);
        }
        let left = match self.parse_or() {
            Ok(v) => v,
            Err(e) => {
                return Err(e);
            },
        };
        if self.at(Token::Range) {
            self.advance();
            let right = match self.parse_or() {
                Ok(v) => v,
                Err(e) => {
                    return Err(e);
                },
            };
            let id: usize = self.next_expr_id();
            Ok(
                Expr {
                    id,
                    kind: ExprKind::Range { start: Box::new(left), end: Box::new(right) },
                },
            )
        } else {
            Ok(left)
        }
    }

    /// Operands with `|=` between them.
    #[verifier::spinoff_prover]
    #[verifier::rlimit(40)]
    pub fn parse_or(&mut self) -> (r: Result<Expr, String>)
        requires
            old(self).wf(),
        ensures
            ({
                let o = binary(old(self).words(), old(self).st(), 5);
                &&& old(self).ran(*final(self), o)
                &&& expr_is(r, o.res)
            }),
            r is Ok ==> final(self).pos > old(self).pos,
        decreases old(self).left(), 15nat,
    {
        proof {
            reveal(binary);
            reveal(binary_rule);
            reveal(cast);
            reveal(binary_tail);
        }
        let left = match self.parse_and() {
            Ok(e) => e,
            Err(e) => {
                return Err(e);
            },
        };
        self.parse_binary_tail(5, left)
    }

    /// Operands with `&&` between them.
    #[verifier::spinoff_prover]
    #[verifier::rlimit(40)]
    pub fn parse_and(&mut self) -> (r: Result<Expr, String>)
        requires
            old(self).wf(),
        ensures
            ({
                let o = binary(old(self).words(), old(self).st(), 4);
                &&& old(self).ran(*final(self), o)
                &&& expr_is(r, o.res)
            }),
            r is Ok ==> final(self).pos > old(self).pos,
        decreases old(self).left(), 14nat,
    {
        proof {
            reveal(binary);
            reveal(binary_rule);
            reveal(cast);
            reveal(binary_tail);
        }
        let left = match self.parse_comparison() {
            Ok(e) => e,
            Err(e) => {
                return Err(e);
            },
        };
        self.parse_binary_tail(4, left)
    }

    /// Operands with comparisons between them.
    #[verifier::spinoff_prover]
    #[verifier::rlimit(40)]
    pub fn parse_comparison(&mut self) -> (r: Result<Expr, String>)
        requires
            old(self).wf(),
        ensures
            ({
                let o = binary(old(self).words(), old(self).st(), 3);
                &&& old(self).ran(*final(self), o)
                &&& expr_is(r, o.res)
            }),
            r is Ok ==> final(self).pos > old(self).pos,
        decreases old(self).left(), 13nat,
    {
        proof {
            reveal(binary);
            reveal(binary_rule);
            reveal(cast);
            reveal(binary_tail);
        }
        let left = match self.parse_add() {
            Ok(e) => e,
            Err(e) => {
                return Err(e);
            },
        };
        self.parse_binary_tail(3, left)
    }

    /// Operands with `+` or `-` between them.
    #[verifier::spinoff_prover]
    #[verifier::rlimit(40)]
    pub fn parse_add(&mut self) -> (r: Result<Expr, String>)
        requires
            old(self).wf(),
        ensures
            ({
                let o = binary(old(self).words(), old(self).st(), 2);
                &&& old(self).ran(*final(self), o)
                &&& expr_is(r, o.res)
            }),
            r is Ok ==> final(self).pos > old(self).pos,
        decreases old(self).left(), 12nat,
    {
        proof {
            reveal(binary);
            reveal(binary_rule);
            reveal(cast);
            reveal(binary_tail);
        }
        let left = match self.parse_mul() {
            Ok(e) => e,
            Err(e) => {
                return Err(e);
            },
        };
        self.parse_binary_tail(2, left)
    }

    /// Operands with `*`, `/` or `%` between them.
    #[verifier::spinoff_prover]
    #[verifier::rlimit(40)]
    pub fn parse_mul(&mut self) -> (r: Result<Expr, String>)
        requires
            old(self).wf(),
        ensures
            ({
                let o = binary(old(self).words(), old(self).st(), 1);
                &&& old(self).ran(*final(self), o)
                &&& expr_is(r, o.res)
            }),
            r is Ok ==> final(self).pos > old(self).pos,
        decreases old(self).left(), 11nat,
    {
        proof {
            super::grammar::lemma_binary_zero(self.words(), self.st());
            reveal(binary);
            reveal(binary_rule);
            reveal(cast);
            reveal(binary_tail);
        }
        let left = match self.parse_cast() {
            Ok(e) => e,
            Err(e) => {
                return Err(e);
            },
        };
        self.parse_binary_tail(1, left)
    }

    /// An operand of the level below.
    #[verifier::spinoff_prover]
    fn parse_operand(&mut self, level: u8) -> (r: Result<Expr, String>)
        requires
            old(self).wf(),
            1 <= level <= 5,
        ensures
            ({
                let o = binary(old(self).words(), old(self).st(), (level - 1) as nat);
                &&& old(self).ran(*final(self), o)
                &&& expr_is(r, o.res)
            }),
            r is Ok ==> final(self).pos > old(self).pos,
        decreases old(self).left(), 19nat,
    {
        proof {
            super::grammar::lemma_binary_zero(self.words(), self.st());
            reveal(binary);
            reveal(binary_rule);
            reveal(cast);
            reveal(binary_tail);
        }
        if level == 5 {
            self.parse_and()
        } else if level == 4 {
            self.parse_comparison()
        } else if level == 3 {
            self.parse_add()
        } else if level == 2 {
            self.parse_mul()
        } else {
            self.parse_cast()
        }
    }

    /// The operators of a level and their operands behind a first operand.
    #[verifier::spinoff_prover]
    #[verifier::rlimit(30)]
    fn parse_binary_tail(&mut self, level: u8, first: Expr) -> (r: Result<Expr, String>)
        requires
            old(self).wf(),
            1 <= level <= 5,
        ensures
            ({
                let o = binary_tail(
                    old(self).words(),
                    old(self).st(),
                    level as nat,
                    first.model(),
                );
                &&& old(self).ran(*final(self), o)
                &&& expr_is(r, o.res)
            }),
        decreases old(self).left(), 0nat,
    {
        proof {
            reveal(binary_tail);
            reveal(binary_tail_rule);
            reveal(binary);
        }
        let ghost ts = self.words();
        let ghost p = self.st();
        let mut left: Expr = first;
        loop
            invariant_except_break
                binary_tail(ts, p, level as nat, first.model()) == relay(
                    p,
                    self.st(),
                    binary_tail(ts, self.st(), level as nat, left.model()),
                ),
            invariant
                1 <= level <= 5,
                self.wf(),
                self.tokens == old(self).tokens,
                ts == old(self).words(),
                p == old(self).st(),
                self.st().no_struct == p.no_struct,
                self.st().scopes == p.scopes,
                self.pos >= old(self).pos,
                self.pos - self.expr_id_counter >= old(self).pos - old(self).expr_id_counter,
            ensures
                binary_tail(ts, p, level as nat, first.model()) == relay(
                    p,
                    self.st(),
                    ok(self.st(), self.st(), left.model()),
                ),
            decreases self.left(),
        {
            proof {
                reveal(binary_tail);
                reveal(binary_tail_rule);
                reveal(binary);
            }
            let op: BinaryOp = match self.peek() {
                Some(token) => match binary_op_of(level, token) {
                    Some(op) => op,
                    None => {
                        break;
                    },
                },
                None => {
                    break;
                },
            };
            self.advance();
            let right = match self.parse_operand(level) {
                Ok(e) => e,
                Err(e) => {
                    return Err(e);
                },
            };
            let id: usize = self.next_expr_id();
            left = Expr {
                id,
                kind: ExprKind::BinaryOp { op, left: Box::new(left), right: Box::new(right) },
            };
        }
        Ok(left)
    }

    /// An operand with any number of `as` and a type behind it.
    #[verifier::spinoff_prover]
    #[verifier::rlimit(40)]
    pub fn parse_cast(&mut self) -> (r: Result<Expr, String>)
        requires
            old(self).wf(),
        ensures
            ({
                let o = cast(old(self).words(), old(self).st());
                &&& old(self).ran(*final(self), o)
                &&& expr_is(r, o.res)
            }),
            r is Ok ==> final(self).pos > old(self).pos,
        decreases old(self).left(), 9nat,
    {
        proof {
            reveal(cast);
            reveal(cast_rule);
            reveal(unary);
        }
        let e = match self.parse_unary() {
            Ok(v) => v,
            Err(e) => {
                return Err(e);
            },
        };
        self.parse_cast_tail(e)
    }

    /// The `as` and types behind an operand.
    #[verifier::spinoff_prover]
    #[verifier::rlimit(30)]
    fn parse_cast_tail(&mut self, first: Expr) -> (r: Result<Expr, String>)
        requires
            old(self).wf(),
        ensures
            ({
                let o = cast_tail(old(self).words(), old(self).st(), first.model());
                &&& old(self).ran(*final(self), o)
                &&& expr_is(r, o.res)
            }),
        decreases old(self).left(), 0nat,
    {
        proof {
            reveal(cast_tail);
            reveal(cast_tail_rule);
        }
        let ghost ts = self.words();
        let ghost p = self.st();
        let mut tree: Expr = first;
        while self.at(Token::As)
            invariant
                cast_tail(ts, p, first.model()) == relay(
                    p,
                    self.st(),
                    cast_tail(ts, self.st(), tree.model()),
                ),
                self.wf(),
                self.tokens == old(self).tokens,
                ts == old(self).words(),
                p == old(self).st(),
                self.st().no_struct == p.no_struct,
                self.st().scopes == p.scopes,
                self.pos >= old(self).pos,
                self.pos - self.expr_id_counter >= old(self).pos - old(self).expr_id_counter,
            decreases self.left(),
        {
            proof {
                reveal(cast_tail);
                reveal(cast_tail_rule);
            }
            self.advance();
            let t = match self.parse_type() {
                Ok(v) => v,
                Err(e) => {
                    return Err(e);
                },
            };
            let id: usize = self.next_expr_id();
            tree = Expr { id, kind: ExprKind::Cast { expr: Box::new(tree), ty: t } };
        }
        Ok(tree)
    }

    /// An operand with any number of `!` and `-` before it.
    #[verifier::spinoff_prover]
    pub fn parse_unary(&mut self) -> (r: Result<Expr, String>)
        requires
            old(self).wf(),
        ensures
            ({
                let o = unary(old(self).words(), old(self).st());
                &&& old(self).ran(*final(self), o)
                &&& expr_is(r, o.res)
            }),
            r is Ok ==> final(self).pos > old(self).pos,
        decreases old(self).left(), 8nat,
    {
        proof {
            reveal(unary);
            reveal(unary_rule);
            reveal(postfix);
        }
        let op: UnaryOp = if self.at(Token::Bang) {
            UnaryOp::Not
        } else if self.at(Token::Minus) {
            UnaryOp::Neg
        } else {
            return self.parse_postfix();
        };
        self.advance();
        let e = match self.parse_unary() {
            Ok(v) => v,
            Err(e) => {
                return Err(e);
            },
        };
        let id: usize = self.next_expr_id();
        Ok(Expr { id, kind: ExprKind::Unary { op, expr: Box::new(e) } })
    }

    /// An operand with any number of indices in brackets behind it.
    #[verifier::spinoff_prover]
    #[verifier::rlimit(40)]
    pub fn parse_postfix(&mut self) -> (r: Result<Expr, String>)
        requires
            old(self).wf(),
        ensures
            ({
                let o = postfix(old(self).words(), old(self).st());
                &&& old(self).ran(*final(self), o)
                &&& expr_is(r, o.res)
            }),
            r is Ok ==> final(self).pos > old(self).pos,
        decreases old(self).left(), 7nat,
    {
        proof {
            reveal(postfix);
            reveal(postfix_rule);
            reveal(primary);
            reveal(postfix_tail);
        }
        let e = match self.parse_primary() {
            Ok(v) => v,
            Err(e) => {
                return Err(e);
            },
        };
        self.parse_postfix_tail(e)
    }

    /// The indices behind an operand.
    #[verifier::spinoff_prover]
    #[verifier::rlimit(30)]
    fn parse_postfix_tail(&mut self, first: Expr) -> (r: Result<Expr, String>)
        requires
            old(self).wf(),
        ensures
            ({
                let o = postfix_tail(old(self).words(), old(self).st(), first.model());
                &&& old(self).ran(*final(self), o)
                &&& expr_is(r, o.res)
            }),
        decreases old(self).left(), 0nat,
    {
        proof {
            reveal(postfix_tail);
            reveal(postfix_tail_rule);
            reveal(expr);
        }
        let ghost ts = self.words();
        let ghost p = self.st();
        let mut tree: Expr = first;
        while self.at(Token::LBracket)
            invariant
                postfix_tail(ts, p, first.model()) == relay(
                    p,
                    self.st(),
                    postfix_tail(ts, self.st(), tree.model()),
                ),
                self.wf(),
                self.tokens == old(self).tokens,
                ts == old(self).words(),
                p == old(self).st(),
                self.st().no_struct == p.no_struct,
                self.st().scopes == p.scopes,
                self.pos >= old(self).pos,
                self.pos - self.expr_id_counter >= old(self).pos - old(self).expr_id_counter,
            decreases self.left(),
        {
            proof {
                reveal(postfix_tail);
                reveal(postfix_tail_rule);
                reveal(expr);
            }
            self.advance();
            let index = match self.parse_expr() {
                Ok(v) => v,
                Err(e) => {
                    return Err(e);
                },
            };
            if let Err(e) = self.expect(Token::RBracket) {
                return Err(e);
            }
            let id: usize = self.next_expr_id();
            tree = Expr {
                id,
                kind: ExprKind::Index { expr: Box::new(tree), index: Box::new(index) },
            };
        }
        Ok(tree)
    }

    /// A literal of one token, if the next token is one.
    #[verifier::spinoff_prover]
    pub fn parse_literal(&mut self) -> (r: Option<Result<Expr, String>>)
        requires
            old(self).wf(),
        ensures
            match r {
                None => {
                    &&& literal(old(self).words(), old(self).st()) is None
                    &&& *final(self) == *old(self)
                },
                Some(x) => {
                    &&& literal(old(self).words(), old(self).st()) is Some
                    &&& old(self).ran(
                        *final(self),
                        literal(old(self).words(), old(self).st())->0,
                    )
                    &&& expr_is(x, (literal(old(self).words(), old(self).st())->0).res)
                    &&& final(self).pos > old(self).pos
                },
            },
    {
        proof {
            reveal(literal);
        }
        let token: Token = match self.peek() {
            Some(t) => t,
            None => {
                return None;
            },
        };
        let lit: Literal = match token {
            Token::Integer(_) => {
                let text = self.text();
                match parse_integer(text.as_str()) {
                    Some(l) => l,
                    None => {
                        self.advance();
                        return Some(Err(join2("invalid integer literal ", text.as_str())));
                    },
                }
            },
            Token::Float(_) => Literal::Float(self.text()),
            Token::String(_) => Literal::Str(self.text()),
            Token::True => Literal::Bool(true),
            Token::False => Literal::Bool(false),
            _ => {
                return None;
            },
        };
        self.advance();
        let id: usize = self.next_expr_id();
        Some(Ok(Expr { id, kind: ExprKind::Literal(lit) }))
    }

    /// `()`, if the next tokens are that.
    #[verifier::spinoff_prover]
    pub fn try_parse_unit_literal(&mut self) -> (r: Option<Expr>)
        requires
            old(self).wf(),
        ensures
            ({
                let p = old(self).st();
                let unit = p.at(old(self).words(), Token::LParen) && p.then_at(
                    old(self).words(),
                    Token::RParen,
                );
                &&& r is Some == unit
                &&& !unit ==> *final(self) == *old(self)
                &&& unit ==> {
                    let o = ok_node(
                        p,
                        p.step().step(),
                        ExprKindView::Literal(LiteralView::Unit),
                    );
                    &&& old(self).ran(*final(self), o)
                    &&& o.res == Ok::<ExprView, Chars>((r->0).model())
                    &&& final(self).pos > old(self).pos
                }
            }),
    {
        if self.at(Token::LParen) && self.then_at(Token::RParen) {
            self.advance();
            self.advance();
            let id: usize = self.next_expr_id();
            Some(Expr { id, kind: ExprKind::Literal(Literal::Unit) })
        } else {
            None
        }
    }

    /// The smallest expressions.
    #[verifier::spinoff_prover]
    #[verifier::rlimit(60)]
    pub fn parse_primary(&mut self) -> (r: Result<Expr, String>)
        requires
            old(self).wf(),
        ensures
            ({
                let o = primary(old(self).words(), old(self).st());
                &&& old(self).ran(*final(self), o)
                &&& expr_is(r, o.res)
            }),
            r is Ok ==> final(self).pos > old(self).pos,
        decreases old(self).left(), 6nat,
    {
        proof {
            reveal(primary);
            reveal(primary_rule);
            reveal(closure_primary);
            reveal(dots);
            reveal(struct_literal);
            reveal(unsafe_block);
            reveal(name_primary);
            reveal(expr);
            reveal(elements);
            reveal(block);
        }
        if let Some(result) = self.parse_literal() {
            return result;
        }
        if let Some(unit) = self.try_parse_unit_literal() {
            return Ok(unit);
        }
        if self.at(Token::Pipe) {
            self.parse_closure_primary()
        } else if self.skip(Token::SelfLower) {
            let id: usize = self.next_expr_id();
            let e = ident_node(id, "self".to_string());
            self.parse_dots(e)
        } else if self.skip(Token::SelfType) {
            if self.at(Token::LBrace) {
                self.parse_struct_literal("Self".to_string())
            } else {
                let id: usize = self.next_expr_id();
                let e = ident_node(id, "Self".to_string());
                self.parse_dots(e)
            }
        } else if self.at(Token::Unsafe) {
            match self.parse_unsafe_block() {
                Ok(b) => {
                    let id: usize = self.next_expr_id();
                    Ok(Expr { id, kind: ExprKind::UnsafeBlock(b) })
                },
                Err(e) => Err(e),
            }
        } else if self.at_ident() {
            let name = self.text();
            self.advance();
            self.parse_name_primary(name)
        } else if self.skip(Token::LParen) {
            match self.parse_expr() {
                Ok(inner) => match self.expect(Token::RParen) {
                    Ok(_) => Ok(inner),
                    Err(e) => Err(e),
                },
                Err(e) => Err(e),
            }
        } else if self.skip(Token::LBracket) {
            match self.parse_elements() {
                Ok(list) => match self.expect(Token::RBracket) {
                    Ok(_) => {
                        let id: usize = self.next_expr_id();
                        Ok(Expr { id, kind: ExprKind::ArrayLiteral(list) })
                    },
                    Err(e) => Err(e),
                },
                Err(e) => Err(e),
            }
        } else if self.at(Token::LBrace) {
            match self.parse_block() {
                Ok(b) => {
                    let id: usize = self.next_expr_id();
                    Ok(Expr { id, kind: ExprKind::Block(b) })
                },
                Err(e) => Err(e),
            }
        } else {
            Err("Expected expression".to_string())
        }
    }

    /// A closure, which arguments in parentheses call.
    #[verifier::spinoff_prover]
    #[verifier::rlimit(40)]
    fn parse_closure_primary(&mut self) -> (r: Result<Expr, String>)
        requires
            old(self).wf(),
        ensures
            ({
                let o = closure_primary(old(self).words(), old(self).st());
                &&& old(self).ran(*final(self), o)
                &&& expr_is(r, o.res)
            }),
            r is Ok ==> final(self).pos > old(self).pos,
        decreases old(self).left(), 5nat,
    {
        proof {
            reveal(closure_primary);
            reveal(closure_primary_rule);
            reveal(closure);
            reveal(arguments);
        }
        let closure = match self.parse_closure() {
            Ok(v) => v,
            Err(e) => {
                return Err(e);
            },
        };
        if self.at(Token::LParen) {
            self.advance();
            let args = match self.parse_arguments() {
                Ok(v) => v,
                Err(e) => {
                    return Err(e);
                },
            };
            let id: usize = self.next_expr_id();
            let all = with_receiver(closure, args);
            Ok(call_node(id, "closure_call".to_string(), all, false))
        } else {
            Ok(closure)
        }
    }

    /// `|name| body`.
    #[verifier::spinoff_prover]
    pub fn parse_closure(&mut self) -> (r: Result<Expr, String>)
        requires
            old(self).wf(),
        ensures
            ({
                let o = closure(old(self).words(), old(self).st());
                &&& old(self).ran(*final(self), o)
                &&& expr_is(r, o.res)
            }),
            r is Ok ==> final(self).pos > old(self).pos,
        decreases old(self).left(), 4nat,
    {
        proof {
            reveal(closure);
            reveal(closure_rule);
            reveal(expr);
        }
        if let Err(e) = self.expect(Token::Pipe) {
            return Err(e);
        }
        let param = match self.parse_ident() {
            Ok(v) => v,
            Err(e) => {
                return Err(e);
            },
        };
        if let Err(e) = self.expect(Token::Pipe) {
            return Err(e);
        }
        let body = match self.parse_expr() {
            Ok(v) => v,
            Err(e) => {
                return Err(e);
            },
        };
        let id: usize = self.next_expr_id();
        Ok(Expr { id, kind: ExprKind::Closure { param, body: Box::new(body) } })
    }

    /// The arguments of a call with the parenthesis that closes them.
    #[verifier::spinoff_prover]
    #[verifier::rlimit(40)]
    fn parse_arguments(&mut self) -> (r: Result<Vec<CallArg>, String>)
        requires
            old(self).wf(),
        ensures
            ({
                let o = arguments(old(self).words(), old(self).st());
                &&& old(self).ran(*final(self), o)
                &&& args_are(r, o.res)
            }),
        decreases old(self).left(), 29nat,
    {
        proof {
            reveal(arguments);
            reveal(arguments_rule);
            reveal(call_args);
        }
        let args = match self.parse_call_args() {
            Ok(v) => v,
            Err(e) => {
                return Err(e);
            },
        };
        if let Err(e) = self.expect(Token::RParen) {
            return Err(e);
        }
        Ok(args)
    }

    /// Arguments with commas between them, each with a name or without.
    #[verifier::spinoff_prover]
    #[verifier::rlimit(40)]
    pub fn parse_call_args(&mut self) -> (r: Result<Vec<CallArg>, String>)
        requires
            old(self).wf(),
        ensures
            ({
                let o = call_args(old(self).words(), old(self).st(), Seq::empty());
                &&& old(self).ran(*final(self), o)
                &&& args_are(r, o.res)
            }),
        decreases old(self).left(), 28nat,
    {
        proof {
            reveal(call_args);
            reveal(call_args_rule);
            reveal(expr);
        }
        let ghost ts = self.words();
        let ghost p = self.st();
        let mut list: Vec<CallArg> = Vec::new();
        assert(call_arg_views(list@) =~= Seq::empty()) by {
            lemma_call_arg_views(list@);
        }
        loop
            invariant_except_break
                call_args(ts, p, Seq::empty()) == relay(
                    p,
                    self.st(),
                    call_args(ts, self.st(), call_arg_views(list@)),
                ),
            invariant
                self.wf(),
                self.tokens == old(self).tokens,
                ts == old(self).words(),
                p == old(self).st(),
                self.st().no_struct == p.no_struct,
                self.st().scopes == p.scopes,
                self.pos >= old(self).pos,
                self.pos - self.expr_id_counter >= old(self).pos - old(self).expr_id_counter,
            ensures
                call_args(ts, p, Seq::empty()) == relay(
                    p,
                    self.st(),
                    ok(self.st(), self.st(), call_arg_views(list@)),
                ),
            decreases self.left(),
        {
            proof {
                reveal(call_args);
                reveal(call_args_rule);
                reveal(expr);
            }
            if self.peek().is_none() || self.at(Token::RParen) {
                break;
            }
            let is_ident_like: bool = self.at_ident() || self.at(Token::In);
            let arg: CallArg = if is_ident_like && self.then_at(Token::Colon) {
                let name = self.text();
                self.advance();
                self.advance();
                match self.parse_expr() {
                    Ok(e) => CallArg::Named(name, e),
                    Err(e) => {
                        return Err(e);
                    },
                }
            } else {
                match self.parse_expr() {
                    Ok(e) => CallArg::Positional(e),
                    Err(e) => {
                        return Err(e);
                    },
                }
            };
            proof {
                lemma_call_arg_push(list@, arg);
            }
            list.push(arg);
            if !self.at(Token::Comma) {
                break;
            }
            self.advance();
        }
        Ok(list)
    }

    /// Expressions with commas between them, up to a closing bracket.
    #[verifier::spinoff_prover]
    fn parse_elements(&mut self) -> (r: Result<Vec<Expr>, String>)
        requires
            old(self).wf(),
        ensures
            ({
                let o = elements(old(self).words(), old(self).st(), Seq::empty());
                &&& old(self).ran(*final(self), o)
                &&& exprs_are(r, o.res)
            }),
        decreases old(self).left(), 28nat,
    {
        proof {
            reveal(elements);
            reveal(elements_rule);
            reveal(expr);
        }
        let ghost ts = self.words();
        let ghost p = self.st();
        let mut list: Vec<Expr> = Vec::new();
        assert(expr_views(list@) =~= Seq::empty()) by {
            lemma_expr_views(list@);
        }
        loop
            invariant_except_break
                elements(ts, p, Seq::empty()) == relay(
                    p,
                    self.st(),
                    elements(ts, self.st(), expr_views(list@)),
                ),
            invariant
                self.wf(),
                self.tokens == old(self).tokens,
                ts == old(self).words(),
                p == old(self).st(),
                self.st().no_struct == p.no_struct,
                self.st().scopes == p.scopes,
                self.pos >= old(self).pos,
                self.pos - self.expr_id_counter >= old(self).pos - old(self).expr_id_counter,
            ensures
                elements(ts, p, Seq::empty()) == relay(
                    p,
                    self.st(),
                    ok(self.st(), self.st(), expr_views(list@)),
                ),
            decreases self.left(),
        {
            proof {
                reveal(elements);
                reveal(elements_rule);
                reveal(expr);
            }
            if self.peek().is_none() || self.at(Token::RBracket) {
                break;
            }
            let e = match self.parse_expr() {
                Ok(v) => v,
                Err(e) => {
                    return Err(e);
                },
            };
            proof {
                lemma_expr_push(list@, e);
            }
            list.push(e);
            if !self.at(Token::Comma) {
                break;
            }
            self.advance();
        }
        Ok(list)
    }

    /// The fields and methods behind points.
    #[verifier::spinoff_prover]
    #[verifier::rlimit(30)]
    fn parse_dots(&mut self, first: Expr) -> (r: Result<Expr, String>)
        requires
            old(self).wf(),
        ensures
            ({
                let o = dots(old(self).words(), old(self).st(), first.model());
                &&& old(self).ran(*final(self), o)
                &&& expr_is(r, o.res)
            }),
        decreases old(self).left(), 0nat,
    {
        proof {
            reveal(dots);
            reveal(dots_rule);
            reveal(arguments);
        }
        let ghost ts = self.words();
        let ghost p = self.st();
        let mut tree: Expr = first;
        while self.at(Token::Dot)
            invariant
                dots(ts, p, first.model()) == relay(
                    p,
                    self.st(),
                    dots(ts, self.st(), tree.model()),
                ),
                self.wf(),
                self.tokens == old(self).tokens,
                ts == old(self).words(),
                p == old(self).st(),
                self.st().no_struct == p.no_struct,
                self.st().scopes == p.scopes,
                self.pos >= old(self).pos,
                self.pos - self.expr_id_counter >= old(self).pos - old(self).expr_id_counter,
            decreases self.left(),
        {
            proof {
                reveal(dots);
                reveal(dots_rule);
                reveal(arguments);
            }
            self.advance();
            let name = match self.parse_ident() {
                Ok(v) => v,
                Err(e) => {
                    return Err(e);
                },
            };
            if self.at(Token::LParen) {
                self.advance();
                let args = match self.parse_arguments() {
                    Ok(v) => v,
                    Err(e) => {
                        return Err(e);
                    },
                };
                let id: usize = self.next_expr_id();
                let all = with_receiver(tree, args);
                tree = call_node(id, name, all, true);
            } else {
                let id: usize = self.next_expr_id();
                tree = field_node(id, tree, name);
            }
        }
        Ok(tree)
    }

    /// The structure of that name, whose brace is next, with points behind it.
    #[verifier::spinoff_prover]
    #[verifier::rlimit(40)]
    fn parse_struct_literal(&mut self, name: String) -> (r: Result<Expr, String>)
        requires
            old(self).wf(),
            old(self).st().at(old(self).words(), Token::LBrace),
        ensures
            ({
                let o = struct_literal(old(self).words(), old(self).st(), name@);
                &&& old(self).ran(*final(self), o)
                &&& expr_is(r, o.res)
            }),
            r is Ok ==> final(self).pos > old(self).pos,
        decreases old(self).left(), 1nat,
    {
        proof {
            reveal(struct_literal);
            reveal(struct_literal_rule);
            reveal(struct_fields);
            reveal(dots);
            assert(struct_literal(self.words(), self.st(), name@) == struct_literal_rule(self.words(), self.st(), name@));
        }
        self.advance();
        let fields = match self.parse_struct_fields() {
            Ok(v) => v,
            Err(e) => {
                return Err(e);
            },
        };
        let id: usize = self.next_expr_id();
        let e = Expr { id, kind: ExprKind::StructInit { struct_name: name, fields } };
        self.parse_dots(e)
    }

    /// The fields of a structure with the brace that closes them. A field alone
    /// stands for itself with the variable of that name.
    #[verifier::spinoff_prover]
    #[verifier::rlimit(40)]
    pub fn parse_struct_fields(&mut self) -> (r: Result<Vec<(String, Expr)>, String>)
        requires
            old(self).wf(),
        ensures
            ({
                let o = struct_fields(old(self).words(), old(self).st(), Seq::empty());
                &&& old(self).ran(*final(self), o)
                &&& fields_are(r, o.res)
            }),
        decreases old(self).left(), 0nat,
    {
        proof {
            reveal(struct_fields);
            reveal(struct_fields_rule);
            reveal(expr);
        }
        let ghost ts = self.words();
        let ghost p = self.st();
        let mut fields: Vec<(String, Expr)> = Vec::new();
        assert(string_expr_views(fields@) =~= Seq::empty()) by {
            lemma_string_expr_views(fields@);
        }
        while self.peek().is_some() && !self.at(Token::RBrace)
            invariant
                struct_fields(ts, p, Seq::empty()) == relay(
                    p,
                    self.st(),
                    struct_fields(ts, self.st(), string_expr_views(fields@)),
                ),
                self.wf(),
                self.tokens == old(self).tokens,
                ts == old(self).words(),
                p == old(self).st(),
                self.st().no_struct == p.no_struct,
                self.st().scopes == p.scopes,
                self.pos >= old(self).pos,
                self.pos - self.expr_id_counter >= old(self).pos - old(self).expr_id_counter,
            decreases self.left(),
        {
            proof {
                reveal(struct_fields);
                reveal(struct_fields_rule);
                reveal(expr);
            }
            let name = match self.parse_ident() {
                Ok(v) => v,
                Err(e) => {
                    return Err(e);
                },
            };
            let field: (String, Expr) = if self.at(Token::Comma) || self.at(Token::RBrace) {
                let id: usize = self.next_expr_id();
                let e = ident_node(id, name.clone());
                (name, e)
            } else {
                if let Err(e) = self.expect(Token::Colon) {
                    return Err(e);
                }
                let e = match self.parse_expr() {
                    Ok(v) => v,
                    Err(e) => {
                        return Err(e);
                    },
                };
                (name, e)
            };
            let _ = self.skip(Token::Comma);
            proof {
                lemma_string_expr_push(fields@, field);
            }
            fields.push(field);
        }
        if let Err(e) = self.expect(Token::RBrace) {
            return Err(e);
        }
        Ok(fields)
    }

    /// What a name starts: a symbol, a variant, a call, a structure, or a variable
    /// with points behind it. The name has been read.
    #[verifier::spinoff_prover]
    #[verifier::rlimit(50)]
    fn parse_name_primary(&mut self, name: String) -> (r: Result<Expr, String>)
        requires
            old(self).wf(),
            old(self).expr_id_counter < old(self).pos,
        ensures
            ({
                let o = name_primary(old(self).words(), old(self).st(), name@);
                &&& final(self).wf()
                &&& final(self).tokens == old(self).tokens
                &&& final(self).st() == old(self).st().after(o)
                &&& expr_is(r, o.res)
                &&& r is Ok ==> final(self).st().no_struct == old(self).st().no_struct
                &&& r is Ok ==> final(self).st().scopes == old(self).st().scopes
            }),
            final(self).pos - final(self).expr_id_counter >= old(self).pos - old(
                self,
            ).expr_id_counter - 1,
            final(self).pos >= old(self).pos,
        decreases old(self).left(), 2nat,
    {
        proof {
            reveal(name_primary);
            reveal(name_primary_rule);
            reveal(variant);
            reveal(named_call);
            reveal(struct_literal);
            reveal(dots);
            assert(name_primary(self.words(), self.st(), name@) == name_primary_rule(self.words(), self.st(), name@));
        }
        if name.as_str().eq("Sym") && self.at(Token::Lt) {
            self.parse_sym_literal()
        } else if self.at(Token::PathSep) {
            self.parse_variant(name)
        } else if self.at(Token::LParen) {
            self.parse_named_call(name)
        } else if !self.no_struct_literal && self.at(Token::LBrace) {
            self.parse_struct_literal(name)
        } else {
            let id: usize = self.next_expr_id();
            let e = ident_node(id, name);
            self.parse_dots(e)
        }
    }

    /// The name in angle brackets behind `Sym`.
    #[verifier::spinoff_prover]
    fn parse_sym_literal(&mut self) -> (r: Result<Expr, String>)
        requires
            old(self).wf(),
            old(self).st().at(old(self).words(), Token::Lt),
        ensures
            ({
                let o = sym_literal(old(self).words(), old(self).st());
                &&& old(self).ran(*final(self), o)
                &&& expr_is(r, o.res)
            }),
    {
        proof {
            reveal(sym_literal);
        }
        self.advance();
        let sym = match self.parse_ident() {
            Ok(v) => v,
            Err(e) => {
                return Err(e);
            },
        };
        if let Err(e) = self.expect(Token::Gt) {
            return Err(e);
        }
        let id: usize = self.next_expr_id();
        Ok(Expr { id, kind: ExprKind::Sym(sym) })
    }

    /// The variant of the enumeration of that name, with its arguments if it has any.
    #[verifier::spinoff_prover]
    #[verifier::rlimit(40)]
    fn parse_variant(&mut self, name: String) -> (r: Result<Expr, String>)
        requires
            old(self).wf(),
            old(self).st().at(old(self).words(), Token::PathSep),
        ensures
            ({
                let o = variant(old(self).words(), old(self).st(), name@);
                &&& old(self).ran(*final(self), o)
                &&& expr_is(r, o.res)
            }),
        decreases old(self).left(), 0nat,
    {
        proof {
            reveal(variant);
            reveal(variant_rule);
            reveal(arguments);
        }
        self.advance();
        let variant_name = match self.parse_ident() {
            Ok(v) => v,
            Err(e) => {
                return Err(e);
            },
        };
        if self.at(Token::LParen) {
            self.advance();
            let args = match self.parse_arguments() {
                Ok(v) => v,
                Err(e) => {
                    return Err(e);
                },
            };
            let id: usize = self.next_expr_id();
            let kind = ExprKind::EnumVariantConstruction { enum_name: name, variant_name, args };
            Ok(Expr { id, kind })
        } else {
            let id: usize = self.next_expr_id();
            let kind = ExprKind::EnumVariantAccess { enum_name: name, variant_name };
            Ok(Expr { id, kind })
        }
    }

    /// The call of the function of that name.
    #[verifier::spinoff_prover]
    #[verifier::rlimit(40)]
    fn parse_named_call(&mut self, name: String) -> (r: Result<Expr, String>)
        requires
            old(self).wf(),
            old(self).st().at(old(self).words(), Token::LParen),
        ensures
            ({
                let o = named_call(old(self).words(), old(self).st(), name@);
                &&& old(self).ran(*final(self), o)
                &&& expr_is(r, o.res)
            }),
        decreases old(self).left(), 0nat,
    {
        proof {
            reveal(named_call);
            reveal(named_call_rule);
            reveal(arguments);
            assert(named_call(self.words(), self.st(), name@) == named_call_rule(self.words(), self.st(), name@));
        }
        self.advance();
        let args = match self.parse_arguments() {
            Ok(v) => v,
            Err(e) => {
                return Err(e);
            },
        };
        let id: usize = self.next_expr_id();
        Ok(call_node(id, name, args, false))
    }
}

} // verus!
