//! The grammar: what each phrase of the language reads, and what it stands for.
//!
//! A phrase is a function of the tokens and of the state that the parser is in.
//! It gives the tree or the message of the failure, and the state after it.
use crate::ast::{
    AssignStmtView, AttributeArgView, AttributeView, BinaryOp, BlockView, CallArgView, ConstDefView,
    EnumDefView, EnumVariantDefView, ExprKindView, ExprView, FnDefView, FnSigView, ForStmtView,
    GenericParamView, IfKind, ImplementDefView, InterfaceDefView, ItemView, LetStmtView,
    LiteralView, LoopStmtView, MatchArmView, MatchExprView, ModelDefView, ParamView, PatternView,
    ProgramView, StmtView, StructDefView, TypeView, UnaryOp, UnsafeBlockStmtView, UnsafeKind,
    UseDefView, WhileStmtView,
};
use crate::lexical::TokenWord;
use crate::literal::{decimal_value, integer_literal, integer_value};
use crate::text::Chars;
use crate::token::Token;
use vstd::prelude::*;

verus! {

/// The tokens of a source with their texts.
pub type Words = Seq<TokenWord>;

/// Where the parser is: the next token, the next number of an expression, whether
/// a brace behind a name starts a block and no structure, and the type parameters
/// of the functions around.
pub struct St {
    pub pos: nat,
    pub ids: nat,
    pub no_struct: bool,
    pub scopes: Seq<Seq<Chars>>,
}

/// What a phrase gives: the tree or a message, by how many tokens it moved on, and
/// the rest of the state.
pub struct Out<T> {
    pub res: Result<T, Chars>,
    pub adv: nat,
    pub ids: nat,
    pub no_struct: bool,
    pub scopes: Seq<Seq<Chars>>,
}

/// Whether a token is the one that is asked for.
#[verifier::opaque]
pub open spec fn is_token(found: Token, t: Token) -> bool {
    found == t
}

/// Whether a token is a name.
#[verifier::opaque]
pub open spec fn is_name(found: Token) -> bool {
    found is Ident
}

/// Whether a token is an integer.
#[verifier::opaque]
pub open spec fn is_integer(found: Token) -> bool {
    found is Integer
}

impl St {
    /// The state after a phrase that started in this one.
    pub open spec fn after<T>(self, o: Out<T>) -> St {
        St { pos: self.pos + o.adv, ids: o.ids, no_struct: o.no_struct, scopes: o.scopes }
    }

    /// Whether a token is left.
    pub open spec fn more(self, ts: Words) -> bool {
        self.pos < ts.len()
    }

    /// The next token.
    pub open spec fn token(self, ts: Words) -> Token {
        ts[self.pos as int].0
    }

    /// The text of the next token.
    pub open spec fn text(self, ts: Words) -> Chars {
        ts[self.pos as int].1
    }

    /// Whether the next token is `t`.
    pub open spec fn at(self, ts: Words, t: Token) -> bool {
        self.more(ts) && is_token(self.token(ts), t)
    }

    /// Whether the token behind the next one is `t`.
    pub open spec fn then_at(self, ts: Words, t: Token) -> bool {
        self.pos + 1 < ts.len() && is_token(ts[self.pos as int + 1].0, t)
    }

    /// Behind the next token.
    pub open spec fn step(self) -> St {
        St { pos: self.pos + 1, ..self }
    }

    /// Behind the next token if it is `t`.
    pub open spec fn skip(self, ts: Words, t: Token) -> St {
        if self.at(ts, t) {
            self.step()
        } else {
            self
        }
    }

    /// With the number of an expression given out.
    pub open spec fn fresh(self) -> St {
        St { ids: self.ids + 1, ..self }
    }

    pub open spec fn with_no_struct(self, b: bool) -> St {
        St { no_struct: b, ..self }
    }

    pub open spec fn push_scope(self, names: Seq<Chars>) -> St {
        St { scopes: self.scopes.push(names), ..self }
    }

    pub open spec fn pop_scope(self) -> St {
        St {
            scopes: if self.scopes.len() > 0 {
                self.scopes.drop_last()
            } else {
                self.scopes
            },
            ..self
        }
    }

    /// How many tokens are left.
    pub open spec fn left(self, ts: Words) -> nat {
        if self.pos < ts.len() {
            (ts.len() - self.pos) as nat
        } else {
            0
        }
    }
}

/// The phrase from `p0` succeeds in `p` with `v`.
pub open spec fn ok<T>(p0: St, p: St, v: T) -> Out<T> {
    Out {
        res: Ok(v),
        adv: (p.pos - p0.pos) as nat,
        ids: p.ids,
        no_struct: p.no_struct,
        scopes: p.scopes,
    }
}

/// The phrase from `p0` fails in `p` with that message.
pub open spec fn fail<T>(p0: St, p: St, message: Chars) -> Out<T> {
    Out {
        res: Err(message),
        adv: (p.pos - p0.pos) as nat,
        ids: p.ids,
        no_struct: p.no_struct,
        scopes: p.scopes,
    }
}

/// The phrase from `p0` gives what the phrase `o` from `p` gives.
pub open spec fn relay<T>(p0: St, p: St, o: Out<T>) -> Out<T> {
    Out { adv: (p.pos - p0.pos + o.adv) as nat, ..o }
}

/// The expression that gets the next number.
pub open spec fn node(p: St, kind: ExprKindView) -> ExprView {
    ExprView { id: p.ids as usize, kind }
}

/// The phrase from `p0` gives in `p` an expression of that kind.
pub open spec fn ok_node(p0: St, p: St, kind: ExprKindView) -> Out<ExprView> {
    ok(p0, p.fresh(), node(p, kind))
}

/// One token. It is taken in any case.
pub open spec fn expect(ts: Words, p: St, t: Token) -> Out<Chars> {
    if !p.more(ts) {
        fail(p, p, "Unexpected end of input"@)
    } else if p.at(ts, t) {
        ok(p, p.step(), p.text(ts))
    } else {
        fail(
            p,
            p.step(),
            "Expected "@ + t.kind_text() + ", got "@ + p.token(ts).kind_text(),
        )
    }
}

/// A name.
pub open spec fn ident(ts: Words, p: St) -> Out<Chars> {
    if !p.more(ts) {
        fail(p, p, "Expected identifier"@)
    } else if is_name(p.token(ts)) {
        ok(p, p.step(), p.text(ts))
    } else {
        fail(p, p.step(), "Expected identifier"@)
    }
}

// Types.

/// The type that a keyword names.
#[verifier::opaque]
pub open spec fn primitive(t: Token) -> Option<TypeView> {
    match t {
        Token::I8 => Some(TypeView::I8),
        Token::I16 => Some(TypeView::I16),
        Token::I32 => Some(TypeView::I32),
        Token::I64 => Some(TypeView::I64),
        Token::I128 => Some(TypeView::I128),
        Token::ISize => Some(TypeView::ISize),
        Token::U8 => Some(TypeView::U8),
        Token::U16 => Some(TypeView::U16),
        Token::U32 => Some(TypeView::U32),
        Token::U64 => Some(TypeView::U64),
        Token::U128 => Some(TypeView::U128),
        Token::USize => Some(TypeView::USize),
        Token::F16 => Some(TypeView::F16),
        Token::F32 => Some(TypeView::F32),
        Token::F64 => Some(TypeView::F64),
        Token::Bool => Some(TypeView::Bool),
        Token::Char => Some(TypeView::Char),
        Token::Str => Some(TypeView::Str),
        Token::Bytes => Some(TypeView::Bytes),
        Token::Never => Some(TypeView::Never),
        Token::SelfType => Some(TypeView::SelfType),
        _ => None,
    }
}

/// Whether a name is a type parameter of a function around.
pub open spec fn is_param(scopes: Seq<Seq<Chars>>, name: Chars) -> bool {
    exists|i: int| 0 <= i < scopes.len() && (#[trigger] scopes[i]).contains(name)
}

/// A type.
#[verifier::opaque]
pub open spec fn ty(ts: Words, p: St) -> Out<TypeView>
    decreases p.left(ts), 4nat,
{
    if p.at(ts, Token::Amp) {
        let mutable = p.step().at(ts, Token::Mut);
        let p1 = p.step().skip(ts, Token::Mut);
        let o = ty(ts, p1);
        match o.res {
            Err(m) => fail(p, p1.after(o), m),
            Ok(t) => ok(p, p1.after(o), TypeView::Ref { mutable, inner: Box::new(t) }),
        }
    } else if p.at(ts, Token::LParen) {
        let o = types(ts, p.step(), Seq::empty());
        let p1 = p.step().after(o);
        match o.res {
            Err(m) => fail(p, p1, m),
            Ok(list) => {
                let e = expect(ts, p1, Token::RParen);
                match e.res {
                    Err(m) => fail(p, p1.after(e), m),
                    Ok(_) => ok(
                        p,
                        p1.after(e),
                        if list.len() == 0 {
                            TypeView::Unit
                        } else {
                            TypeView::Tuple(list)
                        },
                    ),
                }
            },
        }
    } else if p.at(ts, Token::LBracket) {
        let o = ty(ts, p.step());
        let p1 = p.step().after(o);
        match o.res {
            Err(m) => fail(p, p1, m),
            Ok(t) => relay(p, p1, array_end(ts, p1, t)),
        }
    } else if p.more(ts) && primitive(p.token(ts)) is Some {
        ok(p, p.step(), primitive(p.token(ts))->0)
    } else if p.more(ts) && is_name(p.token(ts)) {
        ok(
            p,
            p.step(),
            if is_param(p.scopes, p.text(ts)) {
                TypeView::Param(p.text(ts))
            } else {
                TypeView::Struct(p.text(ts))
            },
        )
    } else {
        fail(p, p, "Expected type"@)
    }
}

/// What follows the element type in brackets: the length of an array, or nothing
/// for a slice.
#[verifier::opaque]
pub open spec fn array_end(ts: Words, p: St, t: TypeView) -> Out<TypeView> {
    if p.at(ts, Token::Semicolon) {
        let p1 = p.step();
        if p1.more(ts) && is_integer(p1.token(ts)) {
            let e = expect(ts, p1.step(), Token::RBracket);
            let p2 = p1.step().after(e);
            match e.res {
                Err(m) => fail(p, p2, m),
                Ok(_) => ok(p, p2, TypeView::Array(Box::new(t), p1.text(ts))),
            }
        } else {
            fail(p, p1, "Expected array length"@)
        }
    } else {
        let e = expect(ts, p, Token::RBracket);
        match e.res {
            Err(m) => fail(p, p.after(e), m),
            Ok(_) => ok(p, p.after(e), TypeView::Slice(Box::new(t))),
        }
    }
}

/// Types with commas between them, up to a closing parenthesis.
#[verifier::opaque]
pub open spec fn types(ts: Words, p: St, list: Seq<TypeView>) -> Out<Seq<TypeView>>
    decreases p.left(ts), 6nat,
{
    if !p.more(ts) || p.at(ts, Token::RParen) {
        ok(p, p, list)
    } else {
        let o = ty(ts, p);
        let p1 = p.after(o);
        match o.res {
            Err(m) => fail(p, p1, m),
            Ok(t) => if p1.at(ts, Token::Comma) {
                relay(p, p1.step(), types(ts, p1.step(), list.push(t)))
            } else {
                ok(p, p1, list.push(t))
            },
        }
    }
}

// Expressions.

/// How tightly the operator of a token binds: five levels from `*` to `|=`.
#[verifier::opaque]
pub open spec fn binary_op(level: nat, t: Token) -> Option<BinaryOp> {
    if level == 1 {
        match t {
            Token::Star => Some(BinaryOp::Mul),
            Token::Slash => Some(BinaryOp::Div),
            Token::Percent => Some(BinaryOp::Mod),
            _ => None,
        }
    } else if level == 2 {
        match t {
            Token::Plus => Some(BinaryOp::Add),
            Token::Minus => Some(BinaryOp::Sub),
            _ => None,
        }
    } else if level == 3 {
        match t {
            Token::EqEq => Some(BinaryOp::Eq),
            Token::Neq => Some(BinaryOp::Neq),
            Token::Lt => Some(BinaryOp::Lt),
            Token::Gt => Some(BinaryOp::Gt),
            Token::Le => Some(BinaryOp::Le),
            Token::Ge => Some(BinaryOp::Ge),
            _ => None,
        }
    } else if level == 4 {
        match t {
            Token::And => Some(BinaryOp::And),
            _ => None,
        }
    } else {
        match t {
            Token::Or => Some(BinaryOp::Or),
            _ => None,
        }
    }
}

/// An expression.
#[verifier::opaque]
pub open spec fn expr(ts: Words, p: St) -> Out<ExprView>
    decreases p.left(ts), 53nat,
{
    expr_rule(ts, p)
}

/// The rule of `expr`.
#[verifier::opaque]
pub open spec fn expr_rule(ts: Words, p: St) -> Out<ExprView>
    decreases p.left(ts), 52nat,
{
    if p.at(ts, Token::Lack) && p.then_at(ts, Token::Amp) {
        lack_slice(ts, p)
    } else if p.at(ts, Token::Lack) || p.at(ts, Token::If) {
        if_expr(ts, p)
    } else if p.at(ts, Token::Match) {
        match_expr(ts, p)
    } else {
        range(ts, p)
    }
}

/// `lack &[T]`: the empty slice.
#[verifier::opaque]
pub open spec fn lack_slice(ts: Words, p: St) -> Out<ExprView> {
    let o1 = expect(ts, p, Token::Lack);
    let p1 = p.after(o1);
    let o2 = expect(ts, p1, Token::Amp);
    let p2 = p1.after(o2);
    let o3 = expect(ts, p2, Token::LBracket);
    let p3 = p2.after(o3);
    let o4 = ty(ts, p3);
    let p4 = p3.after(o4);
    let o5 = expect(ts, p4, Token::RBracket);
    let p5 = p4.after(o5);
    if let Err(m) = o1.res {
        fail(p, p1, m)
    } else if let Err(m) = o2.res {
        fail(p, p2, m)
    } else if let Err(m) = o3.res {
        fail(p, p3, m)
    } else {
        match o4.res {
            Err(m) => fail(p, p4, m),
            Ok(t) => match o5.res {
                Err(m) => fail(p, p5, m),
                Ok(_) => ok_node(p, p5, ExprKindView::LackSlice(t)),
            },
        }
    }
}

/// An expression behind a keyword, before a brace that starts a block.
#[verifier::opaque]
pub open spec fn head_expr(ts: Words, p: St) -> Out<ExprView>
    decreases p.left(ts), 55nat,
{
    head_expr_rule(ts, p)
}

/// The rule of `head_expr`.
#[verifier::opaque]
pub open spec fn head_expr_rule(ts: Words, p: St) -> Out<ExprView>
    decreases p.left(ts), 54nat,
{
    let o = expr(ts, p.with_no_struct(true));
    match o.res {
        Err(m) => o,
        Ok(e) => ok(p, p.after(o).with_no_struct(p.no_struct), e),
    }
}

/// `if` with its condition and branches; `lack` may stand before it.
#[verifier::opaque]
pub open spec fn if_expr(ts: Words, p: St) -> Out<ExprView>
    decreases p.left(ts), 41nat,
{
    if_expr_rule(ts, p)
}

/// The rule of `if_expr`.
#[verifier::opaque]
pub open spec fn if_expr_rule(ts: Words, p: St) -> Out<ExprView>
    decreases p.left(ts), 40nat,
{
    let kind = if p.at(ts, Token::Lack) {
        IfKind::Lack
    } else {
        IfKind::Normal
    };
    let p0 = p.skip(ts, Token::Lack);
    let o1 = expect(ts, p0, Token::If);
    let p1 = p0.after(o1);
    match o1.res {
        Err(m) => fail(p, p1, m),
        Ok(_) => {
            let o2 = head_expr(ts, p1);
            let p2 = p1.after(o2);
            match o2.res {
                Err(m) => fail(p, p2, m),
                Ok(cond) => {
                    let o3 = expr(ts, p2);
                    let p3 = p2.after(o3);
                    match o3.res {
                        Err(m) => fail(p, p3, m),
                        Ok(then_expr) => if p3.at(ts, Token::Else) {
                            let o4 = expr(ts, p3.step());
                            let p4 = p3.step().after(o4);
                            match o4.res {
                                Err(m) => fail(p, p4, m),
                                Ok(e) => ok_node(
                                    p,
                                    p4,
                                    ExprKindView::If {
                                        kind,
                                        cond: Box::new(cond),
                                        then_expr: Box::new(then_expr),
                                        else_expr: Some(Box::new(e)),
                                    },
                                ),
                            }
                        } else {
                            ok_node(
                                p,
                                p3,
                                ExprKindView::If {
                                    kind,
                                    cond: Box::new(cond),
                                    then_expr: Box::new(then_expr),
                                    else_expr: None,
                                },
                            )
                        },
                    }
                },
            }
        },
    }
}

/// `match` with its arms in braces.
#[verifier::opaque]
pub open spec fn match_expr(ts: Words, p: St) -> Out<ExprView>
    decreases p.left(ts), 41nat,
{
    match_expr_rule(ts, p)
}

/// The rule of `match_expr`.
#[verifier::opaque]
pub open spec fn match_expr_rule(ts: Words, p: St) -> Out<ExprView>
    decreases p.left(ts), 40nat,
{
    let o1 = expect(ts, p, Token::Match);
    let p1 = p.after(o1);
    match o1.res {
        Err(m) => fail(p, p1, m),
        Ok(_) => {
            let o2 = head_expr(ts, p1);
            let p2 = p1.after(o2);
            match o2.res {
                Err(m) => fail(p, p2, m),
                Ok(cond) => {
                    let o3 = expect(ts, p2, Token::LBrace);
                    let p3 = p2.after(o3);
                    match o3.res {
                        Err(m) => fail(p, p3, m),
                        Ok(_) => {
                            let o4 = match_arms(ts, p3, Seq::empty());
                            let p4 = p3.after(o4);
                            match o4.res {
                                Err(m) => fail(p, p4, m),
                                Ok(arms) => {
                                    let o5 = expect(ts, p4, Token::RBrace);
                                    let p5 = p4.after(o5);
                                    match o5.res {
                                        Err(m) => fail(p, p5, m),
                                        Ok(_) => ok_node(
                                            p,
                                            p5,
                                            ExprKindView::Match(
                                                MatchExprView { cond: Box::new(cond), arms },
                                            ),
                                        ),
                                    }
                                },
                            }
                        },
                    }
                },
            }
        },
    }
}

/// The arms of a `match`, up to the closing brace; a comma may follow each.
#[verifier::opaque]
pub open spec fn match_arms(ts: Words, p: St, arms: Seq<MatchArmView>) -> Out<Seq<MatchArmView>>
    decreases p.left(ts), 1nat,
{
    match_arms_rule(ts, p, arms)
}

/// The rule of `match_arms`.
#[verifier::opaque]
pub open spec fn match_arms_rule(ts: Words, p: St, arms: Seq<MatchArmView>) -> Out<Seq<MatchArmView>>
    decreases p.left(ts), 0nat,
{
    if !p.more(ts) || p.at(ts, Token::RBrace) {
        ok(p, p, arms)
    } else {
        let o1 = pattern(ts, p);
        let p1 = p.after(o1);
        match o1.res {
            Err(m) => fail(p, p1, m),
            Ok(pattern) => {
                let o2 = expect(ts, p1, Token::FatArrow);
                let p2 = p1.after(o2);
                match o2.res {
                    Err(m) => fail(p, p2, m),
                    Ok(_) => {
                        let o3 = expr(ts, p2);
                        let p3 = p2.after(o3);
                        match o3.res {
                            Err(m) => fail(p, p3, m),
                            Ok(e) => {
                                let p4 = p3.skip(ts, Token::Comma);
                                let arm = MatchArmView { pattern, expr: Box::new(e) };
                                relay(p, p4, match_arms(ts, p4, arms.push(arm)))
                            },
                        }
                    },
                }
            },
        }
    }
}

/// A range, or one operand.
#[verifier::opaque]
pub open spec fn range(ts: Words, p: St) -> Out<ExprView>
    decreases p.left(ts), 41nat,
{
    range_rule(ts, p)
}

/// The rule of `range`.
#[verifier::opaque]
pub open spec fn range_rule(ts: Words, p: St) -> Out<ExprView>
    decreases p.left(ts), 40nat,
{
    let o1 = binary(ts, p, 5);
    let p1 = p.after(o1);
    match o1.res {
        Err(m) => o1,
        Ok(start) => if p1.at(ts, Token::Range) {
            let o2 = binary(ts, p1.step(), 5);
            let p2 = p1.step().after(o2);
            match o2.res {
                Err(m) => fail(p, p2, m),
                Ok(end) => ok_node(
                    p,
                    p2,
                    ExprKindView::Range { start: Box::new(start), end: Box::new(end) },
                ),
            }
        } else {
            o1
        },
    }
}

/// Operands with operators of a level between them, grouped from the left.
#[verifier::opaque]
pub open spec fn binary(ts: Words, p: St, level: nat) -> Out<ExprView>
    decreases p.left(ts), 21 + 2 * level,
{
    binary_rule(ts, p, level)
}

/// The rule of `binary`.
#[verifier::opaque]
pub open spec fn binary_rule(ts: Words, p: St, level: nat) -> Out<ExprView>
    decreases p.left(ts), 20 + 2 * level,
{
    if level == 0 {
        cast(ts, p)
    } else {
        let o = binary(ts, p, (level - 1) as nat);
        match o.res {
            Err(m) => o,
            Ok(left) => relay(p, p.after(o), binary_tail(ts, p.after(o), level, left)),
        }
    }
}

/// The operators and operands behind a first operand.
#[verifier::opaque]
pub open spec fn binary_tail(ts: Words, p: St, level: nat, left: ExprView) -> Out<ExprView>
    decreases p.left(ts), 1nat,
{
    binary_tail_rule(ts, p, level, left)
}

/// The rule of `binary_tail`.
#[verifier::opaque]
pub open spec fn binary_tail_rule(ts: Words, p: St, level: nat, left: ExprView) -> Out<ExprView>
    decreases p.left(ts), 0nat,
{
    if p.more(ts) && binary_op(level, p.token(ts)) is Some && level > 0 {
        let op = binary_op(level, p.token(ts))->0;
        let o = binary(ts, p.step(), (level - 1) as nat);
        let p1 = p.step().after(o);
        match o.res {
            Err(m) => fail(p, p1, m),
            Ok(right) => {
                let e = node(
                    p1,
                    ExprKindView::BinaryOp { op, left: Box::new(left), right: Box::new(right) },
                );
                relay(p, p1.fresh(), binary_tail(ts, p1.fresh(), level, e))
            },
        }
    } else {
        ok(p, p, left)
    }
}

/// An operand with any number of `as` and a type behind it.
#[verifier::opaque]
pub open spec fn cast(ts: Words, p: St) -> Out<ExprView>
    decreases p.left(ts), 19nat,
{
    cast_rule(ts, p)
}

/// The rule of `cast`.
#[verifier::opaque]
pub open spec fn cast_rule(ts: Words, p: St) -> Out<ExprView>
    decreases p.left(ts), 18nat,
{
    let o = unary(ts, p);
    match o.res {
        Err(m) => o,
        Ok(e) => relay(p, p.after(o), cast_tail(ts, p.after(o), e)),
    }
}

#[verifier::opaque]
pub open spec fn cast_tail(ts: Words, p: St, e: ExprView) -> Out<ExprView>
    decreases p.left(ts), 1nat,
{
    cast_tail_rule(ts, p, e)
}

/// The rule of `cast_tail`.
#[verifier::opaque]
pub open spec fn cast_tail_rule(ts: Words, p: St, e: ExprView) -> Out<ExprView>
    decreases p.left(ts), 0nat,
{
    if p.at(ts, Token::As) {
        let o = ty(ts, p.step());
        let p1 = p.step().after(o);
        match o.res {
            Err(m) => fail(p, p1, m),
            Ok(t) => {
                let e1 = node(p1, ExprKindView::Cast { expr: Box::new(e), ty: t });
                relay(p, p1.fresh(), cast_tail(ts, p1.fresh(), e1))
            },
        }
    } else {
        ok(p, p, e)
    }
}

/// An operand with any number of `!` and `-` before it.
#[verifier::opaque]
pub open spec fn unary(ts: Words, p: St) -> Out<ExprView>
    decreases p.left(ts), 17nat,
{
    unary_rule(ts, p)
}

/// The rule of `unary`.
#[verifier::opaque]
pub open spec fn unary_rule(ts: Words, p: St) -> Out<ExprView>
    decreases p.left(ts), 16nat,
{
    if p.at(ts, Token::Bang) || p.at(ts, Token::Minus) {
        let op = if p.at(ts, Token::Bang) {
            UnaryOp::Not
        } else {
            UnaryOp::Neg
        };
        let o = unary(ts, p.step());
        let p1 = p.step().after(o);
        match o.res {
            Err(m) => fail(p, p1, m),
            Ok(e) => ok_node(p, p1, ExprKindView::Unary { op, expr: Box::new(e) }),
        }
    } else {
        postfix(ts, p)
    }
}

/// An operand with any number of indices in brackets behind it.
#[verifier::opaque]
pub open spec fn postfix(ts: Words, p: St) -> Out<ExprView>
    decreases p.left(ts), 15nat,
{
    postfix_rule(ts, p)
}

/// The rule of `postfix`.
#[verifier::opaque]
pub open spec fn postfix_rule(ts: Words, p: St) -> Out<ExprView>
    decreases p.left(ts), 14nat,
{
    let o = primary(ts, p);
    match o.res {
        Err(m) => o,
        Ok(e) => relay(p, p.after(o), postfix_tail(ts, p.after(o), e)),
    }
}

#[verifier::opaque]
pub open spec fn postfix_tail(ts: Words, p: St, e: ExprView) -> Out<ExprView>
    decreases p.left(ts), 1nat,
{
    postfix_tail_rule(ts, p, e)
}

/// The rule of `postfix_tail`.
#[verifier::opaque]
pub open spec fn postfix_tail_rule(ts: Words, p: St, e: ExprView) -> Out<ExprView>
    decreases p.left(ts), 0nat,
{
    if p.at(ts, Token::LBracket) {
        let o1 = expr(ts, p.step());
        let p1 = p.step().after(o1);
        match o1.res {
            Err(m) => fail(p, p1, m),
            Ok(index) => {
                let o2 = expect(ts, p1, Token::RBracket);
                let p2 = p1.after(o2);
                match o2.res {
                    Err(m) => fail(p, p2, m),
                    Ok(_) => {
                        let e1 = node(
                            p2,
                            ExprKindView::Index { expr: Box::new(e), index: Box::new(index) },
                        );
                        relay(p, p2.fresh(), postfix_tail(ts, p2.fresh(), e1))
                    },
                }
            },
        }
    } else {
        ok(p, p, e)
    }
}

/// A literal of one token, if the next token is one.
#[verifier::opaque]
pub open spec fn literal(ts: Words, p: St) -> Option<Out<ExprView>> {
    if !p.more(ts) {
        None
    } else {
        let text = p.text(ts);
        match p.token(ts) {
            Token::Integer(_) => Some(
                match integer_literal(text) {
                    Some(l) => ok_node(p, p.step(), ExprKindView::Literal(l)),
                    None => fail(p, p.step(), "invalid integer literal "@ + text),
                },
            ),
            Token::Float(_) => Some(
                ok_node(p, p.step(), ExprKindView::Literal(LiteralView::Float(text))),
            ),
            Token::String(_) => Some(
                ok_node(p, p.step(), ExprKindView::Literal(LiteralView::Str(text))),
            ),
            Token::True => Some(
                ok_node(p, p.step(), ExprKindView::Literal(LiteralView::Bool(true))),
            ),
            Token::False => Some(
                ok_node(p, p.step(), ExprKindView::Literal(LiteralView::Bool(false))),
            ),
            _ => None,
        }
    }
}

/// The smallest expressions.
#[verifier::opaque]
pub open spec fn primary(ts: Words, p: St) -> Out<ExprView>
    decreases p.left(ts), 13nat,
{
    primary_rule(ts, p)
}

/// The rule of `primary`.
#[verifier::opaque]
pub open spec fn primary_rule(ts: Words, p: St) -> Out<ExprView>
    decreases p.left(ts), 12nat,
{
    if literal(ts, p) is Some {
        literal(ts, p)->0
    } else if p.at(ts, Token::LParen) && p.then_at(ts, Token::RParen) {
        ok_node(p, p.step().step(), ExprKindView::Literal(LiteralView::Unit))
    } else if p.at(ts, Token::Pipe) {
        closure_primary(ts, p)
    } else if p.at(ts, Token::SelfLower) {
        let e = node(p.step(), ExprKindView::Ident("self"@));
        relay(p, p.step().fresh(), dots(ts, p.step().fresh(), e))
    } else if p.at(ts, Token::SelfType) {
        if p.step().at(ts, Token::LBrace) {
            relay(p, p.step(), struct_literal(ts, p.step(), "Self"@))
        } else {
            let e = node(p.step(), ExprKindView::Ident("Self"@));
            relay(p, p.step().fresh(), dots(ts, p.step().fresh(), e))
        }
    } else if p.at(ts, Token::Unsafe) {
        let o = unsafe_block(ts, p);
        match o.res {
            Err(m) => fail(p, p.after(o), m),
            Ok(b) => ok_node(p, p.after(o), ExprKindView::UnsafeBlock(b)),
        }
    } else if p.more(ts) && is_name(p.token(ts)) {
        relay(p, p.step(), name_primary(ts, p.step(), p.text(ts)))
    } else if p.at(ts, Token::LParen) {
        let o1 = expr(ts, p.step());
        let p1 = p.step().after(o1);
        match o1.res {
            Err(m) => fail(p, p1, m),
            Ok(e) => {
                let o2 = expect(ts, p1, Token::RParen);
                match o2.res {
                    Err(m) => fail(p, p1.after(o2), m),
                    Ok(_) => ok(p, p1.after(o2), e),
                }
            },
        }
    } else if p.at(ts, Token::LBracket) {
        let o1 = elements(ts, p.step(), Seq::empty());
        let p1 = p.step().after(o1);
        match o1.res {
            Err(m) => fail(p, p1, m),
            Ok(list) => {
                let o2 = expect(ts, p1, Token::RBracket);
                match o2.res {
                    Err(m) => fail(p, p1.after(o2), m),
                    Ok(_) => ok_node(p, p1.after(o2), ExprKindView::ArrayLiteral(list)),
                }
            },
        }
    } else if p.at(ts, Token::LBrace) {
        let o = block(ts, p);
        match o.res {
            Err(m) => fail(p, p.after(o), m),
            Ok(b) => ok_node(p, p.after(o), ExprKindView::Block(b)),
        }
    } else {
        fail(p, p, "Expected expression"@)
    }
}

/// A closure, which arguments in parentheses call.
#[verifier::opaque]
pub open spec fn closure_primary(ts: Words, p: St) -> Out<ExprView>
    decreases p.left(ts), 11nat,
{
    closure_primary_rule(ts, p)
}

/// The rule of `closure_primary`.
#[verifier::opaque]
pub open spec fn closure_primary_rule(ts: Words, p: St) -> Out<ExprView>
    decreases p.left(ts), 10nat,
{
    let o1 = closure(ts, p);
    let p1 = p.after(o1);
    match o1.res {
        Err(m) => o1,
        Ok(c) => if p1.at(ts, Token::LParen) && p1.pos > p.pos {
            let o2 = arguments(ts, p1.step());
            let p2 = p1.step().after(o2);
            match o2.res {
                Err(m) => fail(p, p2, m),
                Ok(args) => ok_node(
                    p,
                    p2,
                    ExprKindView::Call {
                        qualifier: None,
                        func: "closure_call"@,
                        args: seq![CallArgView::Positional(c)] + args,
                        is_method: false,
                    },
                ),
            }
        } else {
            o1
        },
    }
}

/// `|name| body`.
#[verifier::opaque]
pub open spec fn closure(ts: Words, p: St) -> Out<ExprView>
    decreases p.left(ts), 9nat,
{
    closure_rule(ts, p)
}

/// The rule of `closure`.
#[verifier::opaque]
pub open spec fn closure_rule(ts: Words, p: St) -> Out<ExprView>
    decreases p.left(ts), 8nat,
{
    let o1 = expect(ts, p, Token::Pipe);
    let p1 = p.after(o1);
    match o1.res {
        Err(m) => fail(p, p1, m),
        Ok(_) => {
            let o2 = ident(ts, p1);
            let p2 = p1.after(o2);
            match o2.res {
                Err(m) => fail(p, p2, m),
                Ok(param) => {
                    let o3 = expect(ts, p2, Token::Pipe);
                    let p3 = p2.after(o3);
                    match o3.res {
                        Err(m) => fail(p, p3, m),
                        Ok(_) => {
                            let o4 = expr(ts, p3);
                            let p4 = p3.after(o4);
                            match o4.res {
                                Err(m) => fail(p, p4, m),
                                Ok(e) => ok_node(
                                    p,
                                    p4,
                                    ExprKindView::Closure { param, body: Box::new(e) },
                                ),
                            }
                        },
                    }
                },
            }
        },
    }
}

/// The arguments of a call with the parenthesis that closes them.
#[verifier::opaque]
pub open spec fn arguments(ts: Words, p: St) -> Out<Seq<CallArgView>>
    decreases p.left(ts), 59nat,
{
    arguments_rule(ts, p)
}

/// The rule of `arguments`.
#[verifier::opaque]
pub open spec fn arguments_rule(ts: Words, p: St) -> Out<Seq<CallArgView>>
    decreases p.left(ts), 58nat,
{
    let o1 = call_args(ts, p, Seq::empty());
    let p1 = p.after(o1);
    match o1.res {
        Err(m) => o1,
        Ok(args) => {
            let o2 = expect(ts, p1, Token::RParen);
            match o2.res {
                Err(m) => fail(p, p1.after(o2), m),
                Ok(_) => ok(p, p1.after(o2), args),
            }
        },
    }
}

/// Arguments with commas between them, each with a name or without.
#[verifier::opaque]
pub open spec fn call_args(ts: Words, p: St, args: Seq<CallArgView>) -> Out<Seq<CallArgView>>
    decreases p.left(ts), 57nat,
{
    call_args_rule(ts, p, args)
}

/// The rule of `call_args`.
#[verifier::opaque]
pub open spec fn call_args_rule(ts: Words, p: St, args: Seq<CallArgView>) -> Out<Seq<CallArgView>>
    decreases p.left(ts), 56nat,
{
    if !p.more(ts) || p.at(ts, Token::RParen) {
        ok(p, p, args)
    } else {
        let named = (is_name(p.token(ts)) || p.at(ts, Token::In)) && p.then_at(ts, Token::Colon);
        let p0 = if named {
            p.step().step()
        } else {
            p
        };
        let o = expr(ts, p0);
        let p1 = p0.after(o);
        match o.res {
            Err(m) => fail(p, p1, m),
            Ok(e) => {
                let args1 = args.push(
                    if named {
                        CallArgView::Named(p.text(ts), e)
                    } else {
                        CallArgView::Positional(e)
                    },
                );
                if p1.at(ts, Token::Comma) {
                    relay(p, p1.step(), call_args(ts, p1.step(), args1))
                } else {
                    ok(p, p1, args1)
                }
            },
        }
    }
}

/// Expressions with commas between them, up to a closing bracket.
#[verifier::opaque]
pub open spec fn elements(ts: Words, p: St, list: Seq<ExprView>) -> Out<Seq<ExprView>>
    decreases p.left(ts), 57nat,
{
    elements_rule(ts, p, list)
}

/// The rule of `elements`.
#[verifier::opaque]
pub open spec fn elements_rule(ts: Words, p: St, list: Seq<ExprView>) -> Out<Seq<ExprView>>
    decreases p.left(ts), 56nat,
{
    if !p.more(ts) || p.at(ts, Token::RBracket) {
        ok(p, p, list)
    } else {
        let o = expr(ts, p);
        let p1 = p.after(o);
        match o.res {
            Err(m) => fail(p, p1, m),
            Ok(e) => if p1.at(ts, Token::Comma) {
                relay(p, p1.step(), elements(ts, p1.step(), list.push(e)))
            } else {
                ok(p, p1, list.push(e))
            },
        }
    }
}

/// The fields and methods behind points.
#[verifier::opaque]
pub open spec fn dots(ts: Words, p: St, e: ExprView) -> Out<ExprView>
    decreases p.left(ts), 1nat,
{
    dots_rule(ts, p, e)
}

/// The rule of `dots`.
#[verifier::opaque]
pub open spec fn dots_rule(ts: Words, p: St, e: ExprView) -> Out<ExprView>
    decreases p.left(ts), 0nat,
{
    if p.at(ts, Token::Dot) {
        let o1 = ident(ts, p.step());
        let p1 = p.step().after(o1);
        match o1.res {
            Err(m) => fail(p, p1, m),
            Ok(name) => if p1.at(ts, Token::LParen) {
                let o2 = arguments(ts, p1.step());
                let p2 = p1.step().after(o2);
                match o2.res {
                    Err(m) => fail(p, p2, m),
                    Ok(args) => {
                        let e1 = node(
                            p2,
                            ExprKindView::Call {
                                qualifier: None,
                                func: name,
                                args: seq![CallArgView::Positional(e)] + args,
                                is_method: true,
                            },
                        );
                        relay(p, p2.fresh(), dots(ts, p2.fresh(), e1))
                    },
                }
            } else {
                let e1 = node(
                    p1,
                    ExprKindView::FieldAccess { struct_expr: Box::new(e), field_name: name },
                );
                relay(p, p1.fresh(), dots(ts, p1.fresh(), e1))
            },
        }
    } else {
        ok(p, p, e)
    }
}

/// The structure of that name whose brace stands at `p`, with points behind it.
#[verifier::opaque]
pub open spec fn struct_literal(ts: Words, p: St, name: Chars) -> Out<ExprView>
    decreases p.left(ts), 3nat,
{
    struct_literal_rule(ts, p, name)
}

/// The rule of `struct_literal`.
#[verifier::opaque]
pub open spec fn struct_literal_rule(ts: Words, p: St, name: Chars) -> Out<ExprView>
    decreases p.left(ts), 2nat,
{
    if !p.more(ts) {
        fail(p, p, Seq::empty())
    } else {
        let o = struct_fields(ts, p.step(), Seq::empty());
        let p1 = p.step().after(o);
        match o.res {
            Err(m) => fail(p, p1, m),
            Ok(fields) => {
                let e = node(p1, ExprKindView::StructInit { struct_name: name, fields });
                relay(p, p1.fresh(), dots(ts, p1.fresh(), e))
            },
        }
    }
}

/// The fields of a structure with the brace that closes them. A field alone
/// stands for itself with the variable of that name.
#[verifier::opaque]
pub open spec fn struct_fields(ts: Words, p: St, fields: Seq<(Chars, ExprView)>) -> Out<
    Seq<(Chars, ExprView)>,
>
    decreases p.left(ts), 1nat,
{
    struct_fields_rule(ts, p, fields)
}

/// The rule of `struct_fields`.
#[verifier::opaque]
pub open spec fn struct_fields_rule(ts: Words, p: St, fields: Seq<(Chars, ExprView)>) -> Out<
    Seq<(Chars, ExprView)>,
>
    decreases p.left(ts), 0nat,
{
    if !p.more(ts) || p.at(ts, Token::RBrace) {
        let o = expect(ts, p, Token::RBrace);
        match o.res {
            Err(m) => fail(p, p.after(o), m),
            Ok(_) => ok(p, p.after(o), fields),
        }
    } else {
        let o1 = ident(ts, p);
        let p1 = p.after(o1);
        match o1.res {
            Err(m) => fail(p, p1, m),
            Ok(name) => if p1.at(ts, Token::Comma) || p1.at(ts, Token::RBrace) {
                let e = node(p1, ExprKindView::Ident(name));
                let p2 = p1.fresh().skip(ts, Token::Comma);
                relay(p, p2, struct_fields(ts, p2, fields.push((name, e))))
            } else {
                let o2 = expect(ts, p1, Token::Colon);
                let p2 = p1.after(o2);
                match o2.res {
                    Err(m) => fail(p, p2, m),
                    Ok(_) => {
                        let o3 = expr(ts, p2);
                        let p3 = p2.after(o3);
                        match o3.res {
                            Err(m) => fail(p, p3, m),
                            Ok(e) => {
                                let p4 = p3.skip(ts, Token::Comma);
                                relay(p, p4, struct_fields(ts, p4, fields.push((name, e))))
                            },
                        }
                    },
                }
            },
        }
    }
}

/// What a name starts: a symbol, a variant, a call, a structure, or a variable
/// with points behind it. The name has been read.
#[verifier::opaque]
pub open spec fn name_primary(ts: Words, p: St, name: Chars) -> Out<ExprView>
    decreases p.left(ts), 5nat,
{
    name_primary_rule(ts, p, name)
}

/// The rule of `name_primary`.
#[verifier::opaque]
pub open spec fn name_primary_rule(ts: Words, p: St, name: Chars) -> Out<ExprView>
    decreases p.left(ts), 4nat,
{
    if name == "Sym"@ && p.at(ts, Token::Lt) {
        sym_literal(ts, p)
    } else if p.at(ts, Token::PathSep) {
        variant(ts, p, name)
    } else if p.at(ts, Token::LParen) {
        named_call(ts, p, name)
    } else if !p.no_struct && p.at(ts, Token::LBrace) {
        struct_literal(ts, p, name)
    } else {
        let e = node(p, ExprKindView::Ident(name));
        relay(p, p.fresh(), dots(ts, p.fresh(), e))
    }
}

/// The name in angle brackets behind `Sym`.
#[verifier::opaque]
pub open spec fn sym_literal(ts: Words, p: St) -> Out<ExprView> {
    let o1 = ident(ts, p.step());
    let p1 = p.step().after(o1);
    match o1.res {
        Err(m) => fail(p, p1, m),
        Ok(sym) => {
            let o2 = expect(ts, p1, Token::Gt);
            match o2.res {
                Err(m) => fail(p, p1.after(o2), m),
                Ok(_) => ok_node(p, p1.after(o2), ExprKindView::Sym(sym)),
            }
        },
    }
}

/// The variant of the enumeration of that name, with its arguments if it has any.
#[verifier::opaque]
pub open spec fn variant(ts: Words, p: St, name: Chars) -> Out<ExprView>
    decreases p.left(ts), 1nat,
{
    variant_rule(ts, p, name)
}

/// The rule of `variant`.
#[verifier::opaque]
pub open spec fn variant_rule(ts: Words, p: St, name: Chars) -> Out<ExprView>
    decreases p.left(ts), 0nat,
{
    if !p.more(ts) {
        fail(p, p, Seq::empty())
    } else {
        let o1 = ident(ts, p.step());
        let p1 = p.step().after(o1);
        match o1.res {
            Err(m) => fail(p, p1, m),
            Ok(variant) => if p1.at(ts, Token::LParen) {
                let o2 = arguments(ts, p1.step());
                let p2 = p1.step().after(o2);
                match o2.res {
                    Err(m) => fail(p, p2, m),
                    Ok(args) => ok_node(
                        p,
                        p2,
                        ExprKindView::EnumVariantConstruction {
                            enum_name: name,
                            variant_name: variant,
                            args,
                        },
                    ),
                }
            } else {
                ok_node(
                    p,
                    p1,
                    ExprKindView::EnumVariantAccess { enum_name: name, variant_name: variant },
                )
            },
        }
    }
}

/// The call of the function of that name.
#[verifier::opaque]
pub open spec fn named_call(ts: Words, p: St, name: Chars) -> Out<ExprView>
    decreases p.left(ts), 1nat,
{
    named_call_rule(ts, p, name)
}

/// The rule of `named_call`.
#[verifier::opaque]
pub open spec fn named_call_rule(ts: Words, p: St, name: Chars) -> Out<ExprView>
    decreases p.left(ts), 0nat,
{
    if !p.more(ts) {
        fail(p, p, Seq::empty())
    } else {
        let o = arguments(ts, p.step());
        let p1 = p.step().after(o);
        match o.res {
            Err(m) => fail(p, p1, m),
            Ok(args) => ok_node(
                p,
                p1,
                ExprKindView::Call { qualifier: None, func: name, args, is_method: false },
            ),
        }
    }
}

// Patterns.

/// A pattern.
#[verifier::opaque]
pub open spec fn pattern(ts: Words, p: St) -> Out<PatternView> {
    if !p.more(ts) {
        fail(p, p, "Expected pattern"@)
    } else {
        match p.token(ts) {
            Token::Integer(_) => relay(p, p.step(), integer_pattern(p.step(), p.text(ts), false)),
            Token::Minus => {
                let p1 = p.step();
                if p1.more(ts) && is_integer(p1.token(ts)) {
                    relay(p, p1.step(), integer_pattern(p1.step(), p1.text(ts), true))
                } else {
                    fail(p, p1, "Expected integer after '-' in pattern"@)
                }
            },
            Token::True => ok(p, p.step(), PatternView::BoolLiteral(true)),
            Token::False => ok(p, p.step(), PatternView::BoolLiteral(false)),
            Token::CharLiteral(_) => if p.text(ts).len() == 1 {
                ok(p, p.step(), PatternView::CharLiteral(p.text(ts)[0]))
            } else {
                fail(p, p.step(), "invalid character literal "@ + p.text(ts))
            },
            Token::LParen => {
                let o1 = bindings(ts, p.step(), Token::RParen, Seq::empty());
                let p1 = p.step().after(o1);
                match o1.res {
                    Err(m) => fail(p, p1, m),
                    Ok(list) => ok(p, p1, PatternView::Tuple(list)),
                }
            },
            Token::LBracket => {
                let o1 = bindings(ts, p.step(), Token::RBracket, Seq::empty());
                let p1 = p.step().after(o1);
                match o1.res {
                    Err(m) => fail(p, p1, m),
                    Ok(list) => ok(p, p1, PatternView::Array(list)),
                }
            },
            Token::Ident(_) => relay(p, p.step(), name_pattern(ts, p.step(), p.text(ts))),
            _ => fail(p, p, "Expected pattern"@),
        }
    }
}

/// The integer of that text, which has been read.
#[verifier::opaque]
pub open spec fn integer_pattern(p: St, text: Chars, negative: bool) -> Out<PatternView> {
    match integer_value(text) {
        Some(v) => if negative && v <= 0x8000_0000_0000_0000_0000_0000_0000_0000 {
            ok(p, p, PatternView::IntLiteral((0 - v) as i128))
        } else if !negative && v < 0x8000_0000_0000_0000_0000_0000_0000_0000 {
            ok(p, p, PatternView::IntLiteral(v as i128))
        } else {
            fail(p, p, "invalid integer literal "@ + text)
        },
        None => fail(p, p, "invalid integer literal "@ + text),
    }
}

/// Names with commas between them, up to and with the token that closes them; an
/// underscore stands for no name.
#[verifier::opaque]
pub open spec fn bindings(ts: Words, p: St, close: Token, list: Seq<Option<Chars>>) -> Out<
    Seq<Option<Chars>>,
>
    decreases p.left(ts),
{
    if !p.more(ts) || p.at(ts, close) {
        let o = expect(ts, p, close);
        match o.res {
            Err(m) => fail(p, p.after(o), m),
            Ok(_) => ok(p, p.after(o), list),
        }
    } else {
        let o = ident(ts, p);
        let p1 = p.after(o);
        match o.res {
            Err(m) => fail(p, p1, m),
            Ok(name) => {
                let list1 = list.push(
                    if name == "_"@ {
                        None
                    } else {
                        Some(name)
                    },
                );
                if p1.at(ts, Token::Comma) {
                    relay(p, p1.step(), bindings(ts, p1.step(), close, list1))
                } else {
                    let e = expect(ts, p1, close);
                    match e.res {
                        Err(m) => fail(p, p1.after(e), m),
                        Ok(_) => ok(p, p1.after(e), list1),
                    }
                }
            },
        }
    }
}

/// What a name starts in a pattern: everything, a variant with or without a name
/// for its value, or a structure.
#[verifier::opaque]
pub open spec fn name_pattern(ts: Words, p: St, name: Chars) -> Out<PatternView> {
    if name == "_"@ {
        ok(p, p, PatternView::Wildcard)
    } else if p.at(ts, Token::PathSep) {
        let o1 = ident(ts, p.step());
        let p1 = p.step().after(o1);
        match o1.res {
            Err(m) => fail(p, p1, m),
            Ok(variant) => if p1.at(ts, Token::LParen) {
                let o2 = ident(ts, p1.step());
                let p2 = p1.step().after(o2);
                match o2.res {
                    Err(m) => fail(p, p2, m),
                    Ok(binding) => {
                        let o3 = expect(ts, p2, Token::RParen);
                        match o3.res {
                            Err(m) => fail(p, p2.after(o3), m),
                            Ok(_) => ok(
                                p,
                                p2.after(o3),
                                PatternView::EnumVariantWithBinding {
                                    enum_name: name,
                                    variant_name: variant,
                                    binding,
                                },
                            ),
                        }
                    },
                }
            } else {
                ok(
                    p,
                    p1,
                    PatternView::EnumVariant { enum_name: name, variant_name: variant },
                )
            },
        }
    } else if p.at(ts, Token::LBrace) {
        let o = field_patterns(ts, p.step(), Seq::empty());
        let p1 = p.step().after(o);
        match o.res {
            Err(m) => fail(p, p1, m),
            Ok(fields) => ok(p, p1, PatternView::Struct { name, fields }),
        }
    } else {
        fail(p, p, "Expected pattern"@)
    }
}

/// The fields of a structure in a pattern, each with the name that it gets, and
/// the brace that closes them.
#[verifier::opaque]
pub open spec fn field_patterns(ts: Words, p: St, fields: Seq<(Chars, Chars)>) -> Out<
    Seq<(Chars, Chars)>,
>
    decreases p.left(ts),
{
    if !p.more(ts) || p.at(ts, Token::RBrace) {
        let o = expect(ts, p, Token::RBrace);
        match o.res {
            Err(m) => fail(p, p.after(o), m),
            Ok(_) => ok(p, p.after(o), fields),
        }
    } else {
        let o1 = ident(ts, p);
        let p1 = p.after(o1);
        match o1.res {
            Err(m) => fail(p, p1, m),
            Ok(field) => if p1.at(ts, Token::Colon) {
                let o2 = ident(ts, p1.step());
                let p2 = p1.step().after(o2);
                match o2.res {
                    Err(m) => fail(p, p2, m),
                    Ok(name) => {
                        let p3 = p2.skip(ts, Token::Comma);
                        relay(p, p3, field_patterns(ts, p3, fields.push((field, name))))
                    },
                }
            } else {
                let p3 = p1.skip(ts, Token::Comma);
                relay(p, p3, field_patterns(ts, p3, fields.push((field, field))))
            },
        }
    }
}

// Statements.

/// Statements in braces.
#[verifier::opaque]
pub open spec fn block(ts: Words, p: St) -> Out<BlockView>
    decreases p.left(ts), 7nat,
{
    block_rule(ts, p)
}

/// The rule of `block`.
#[verifier::opaque]
pub open spec fn block_rule(ts: Words, p: St) -> Out<BlockView>
    decreases p.left(ts), 6nat,
{
    let o1 = expect(ts, p, Token::LBrace);
    let p1 = p.after(o1);
    match o1.res {
        Err(m) => fail(p, p1, m),
        Ok(_) => {
            let o2 = stmts(ts, p1, Seq::empty());
            let p2 = p1.after(o2);
            match o2.res {
                Err(m) => fail(p, p2, m),
                Ok(list) => {
                    let o3 = expect(ts, p2, Token::RBrace);
                    match o3.res {
                        Err(m) => fail(p, p2.after(o3), m),
                        Ok(_) => ok(p, p2.after(o3), BlockView { stmts: list }),
                    }
                },
            }
        },
    }
}

/// The block behind `unsafe`, or behind `unsafe verify`.
#[verifier::opaque]
pub open spec fn unsafe_block(ts: Words, p: St) -> Out<UnsafeBlockStmtView>
    decreases p.left(ts), 9nat,
{
    unsafe_block_rule(ts, p)
}

/// The rule of `unsafe_block`.
#[verifier::opaque]
pub open spec fn unsafe_block_rule(ts: Words, p: St) -> Out<UnsafeBlockStmtView>
    decreases p.left(ts), 8nat,
{
    let o1 = expect(ts, p, Token::Unsafe);
    let p1 = p.after(o1);
    match o1.res {
        Err(m) => fail(p, p1, m),
        Ok(_) => {
            let kind = if p1.at(ts, Token::Verify) {
                UnsafeKind::Verify
            } else {
                UnsafeKind::Normal
            };
            let p2 = p1.skip(ts, Token::Verify);
            let o2 = block(ts, p2);
            match o2.res {
                Err(m) => fail(p, p2.after(o2), m),
                Ok(body) => ok(p, p2.after(o2), UnsafeBlockStmtView { kind, body }),
            }
        },
    }
}

/// Statements up to a closing brace. Each has at least one token.
#[verifier::opaque]
pub open spec fn stmts(ts: Words, p: St, list: Seq<StmtView>) -> Out<Seq<StmtView>>
    decreases p.left(ts), 63nat,
{
    stmts_rule(ts, p, list)
}

/// The rule of `stmts`.
#[verifier::opaque]
pub open spec fn stmts_rule(ts: Words, p: St, list: Seq<StmtView>) -> Out<Seq<StmtView>>
    decreases p.left(ts), 62nat,
{
    if !p.more(ts) || p.at(ts, Token::RBrace) {
        ok(p, p, list)
    } else {
        let o = stmt(ts, p);
        let p1 = p.after(o);
        match o.res {
            Err(m) => fail(p, p1, m),
            Ok(s) => if o.adv == 0 {
                ok(p, p1, list.push(s))
            } else {
                relay(p, p1, stmts(ts, p1, list.push(s)))
            },
        }
    }
}

/// A statement.
#[verifier::opaque]
pub open spec fn stmt(ts: Words, p: St) -> Out<StmtView>
    decreases p.left(ts), 61nat,
{
    stmt_rule(ts, p)
}

/// The rule of `stmt`.
#[verifier::opaque]
pub open spec fn stmt_rule(ts: Words, p: St) -> Out<StmtView>
    decreases p.left(ts), 60nat,
{
    if p.at(ts, Token::Persist) {
        let p1 = p.step();
        if p1.at(ts, Token::Let) {
            relay(p, p1.step(), binding(ts, p1.step(), false, true))
        } else if p1.at(ts, Token::Var) {
            relay(p, p1.step(), binding(ts, p1.step(), true, true))
        } else {
            fail(p, p1, "Expected 'let' or 'var' after 'persist'"@)
        }
    } else if p.at(ts, Token::Let) {
        relay(p, p.step(), binding(ts, p.step(), false, false))
    } else if p.at(ts, Token::Var) {
        relay(p, p.step(), binding(ts, p.step(), true, false))
    } else if p.at(ts, Token::Break) {
        break_stmt(ts, p)
    } else if p.at(ts, Token::Return) {
        return_stmt(ts, p)
    } else if p.at(ts, Token::While) {
        while_stmt(ts, p)
    } else if p.at(ts, Token::For) {
        for_stmt(ts, p)
    } else if p.at(ts, Token::Loop) {
        loop_stmt(ts, p)
    } else if p.at(ts, Token::If) || p.at(ts, Token::Lack) || p.at(ts, Token::Unsafe) {
        expr_stmt(ts, p)
    } else {
        assign_stmt(ts, p)
    }
}

/// An expression as a statement; a semicolon may follow it.
#[verifier::opaque]
pub open spec fn expr_stmt(ts: Words, p: St) -> Out<StmtView>
    decreases p.left(ts), 55nat,
{
    expr_stmt_rule(ts, p)
}

/// The rule of `expr_stmt`.
#[verifier::opaque]
pub open spec fn expr_stmt_rule(ts: Words, p: St) -> Out<StmtView>
    decreases p.left(ts), 54nat,
{
    let o = expr(ts, p);
    let p1 = p.after(o);
    match o.res {
        Err(m) => fail(p, p1, m),
        Ok(e) => ok(p, p1.skip(ts, Token::Semicolon), StmtView::ExprStmt(e)),
    }
}

/// The operator that a token of assignment applies first.
#[verifier::opaque]
pub open spec fn assign_op(t: Token) -> Option<BinaryOp> {
    match t {
        Token::PlusEq => Some(BinaryOp::Add),
        Token::MinusEq => Some(BinaryOp::Sub),
        Token::StarEq => Some(BinaryOp::Mul),
        Token::SlashEq => Some(BinaryOp::Div),
        Token::PercentEq => Some(BinaryOp::Mod),
        _ => None,
    }
}

/// An assignment, or an expression as a statement. An operator before the `=`
/// is applied to the target and the value.
#[verifier::opaque]
pub open spec fn assign_stmt(ts: Words, p: St) -> Out<StmtView>
    decreases p.left(ts), 55nat,
{
    assign_stmt_rule(ts, p)
}

/// The rule of `assign_stmt`.
#[verifier::opaque]
pub open spec fn assign_stmt_rule(ts: Words, p: St) -> Out<StmtView>
    decreases p.left(ts), 54nat,
{
    let o1 = expr(ts, p);
    let p1 = p.after(o1);
    match o1.res {
        Err(m) => fail(p, p1, m),
        Ok(target) => if p1.at(ts, Token::Eq) || (p1.more(ts) && assign_op(
            p1.token(ts),
        ) is Some) {
            let o2 = expr(ts, p1.step());
            let p2 = p1.step().after(o2);
            match o2.res {
                Err(m) => fail(p, p2, m),
                Ok(rhs) => {
                    let o3 = expect(ts, p2, Token::Semicolon);
                    let p3 = p2.after(o3);
                    match o3.res {
                        Err(m) => fail(p, p3, m),
                        Ok(_) => match assign_op(p1.token(ts)) {
                            None => ok(
                                p,
                                p3,
                                StmtView::Assign(
                                    AssignStmtView {
                                        target: Box::new(target),
                                        expr: Box::new(rhs),
                                    },
                                ),
                            ),
                            Some(op) => ok(
                                p,
                                p3.fresh(),
                                StmtView::Assign(
                                    AssignStmtView {
                                        target: Box::new(target),
                                        expr: Box::new(
                                            node(
                                                p3,
                                                ExprKindView::BinaryOp {
                                                    op,
                                                    left: Box::new(target),
                                                    right: Box::new(rhs),
                                                },
                                            ),
                                        ),
                                    },
                                ),
                            ),
                        },
                    }
                },
            }
        } else {
            ok(p, p1.skip(ts, Token::Semicolon), StmtView::ExprStmt(target))
        },
    }
}

/// `name: T = value;` behind `let` or `var`.
#[verifier::opaque]
pub open spec fn binding(ts: Words, p: St, mutable: bool, persist: bool) -> Out<StmtView>
    decreases p.left(ts), 55nat,
{
    binding_rule(ts, p, mutable, persist)
}

/// The rule of `binding`.
#[verifier::opaque]
pub open spec fn binding_rule(ts: Words, p: St, mutable: bool, persist: bool) -> Out<StmtView>
    decreases p.left(ts), 54nat,
{
    let o1 = ident(ts, p);
    let p1 = p.after(o1);
    match o1.res {
        Err(m) => fail(p, p1, m),
        Ok(name) => {
            let o2 = optional_type(ts, p1, Token::Colon);
            let p2 = p1.after(o2);
            match o2.res {
                Err(m) => fail(p, p2, m),
                Ok(t) => {
                    let o3 = expect(ts, p2, Token::Eq);
                    let p3 = p2.after(o3);
                    match o3.res {
                        Err(m) => fail(p, p3, m),
                        Ok(_) => {
                            let o4 = expr(ts, p3);
                            let p4 = p3.after(o4);
                            match o4.res {
                                Err(m) => fail(p, p4, m),
                                Ok(init) => {
                                    let o5 = expect(ts, p4, Token::Semicolon);
                                    let p5 = p4.after(o5);
                                    match o5.res {
                                        Err(m) => fail(p, p5, m),
                                        Ok(_) => ok(
                                            p,
                                            p5,
                                            StmtView::Let(
                                                LetStmtView {
                                                    name,
                                                    ty: t,
                                                    init: Box::new(init),
                                                    mutable,
                                                    persist,
                                                },
                                            ),
                                        ),
                                    }
                                },
                            }
                        },
                    }
                },
            }
        },
    }
}

/// A type behind the token `mark`, if that token is next.
#[verifier::opaque]
pub open spec fn optional_type(ts: Words, p: St, mark: Token) -> Out<Option<TypeView>> {
    if p.at(ts, mark) {
        let o = ty(ts, p.step());
        match o.res {
            Err(m) => fail(p, p.step().after(o), m),
            Ok(t) => ok(p, p.step().after(o), Some(t)),
        }
    } else {
        ok(p, p, None)
    }
}

#[verifier::opaque]
pub open spec fn break_stmt(ts: Words, p: St) -> Out<StmtView> {
    let o1 = expect(ts, p, Token::Break);
    let p1 = p.after(o1);
    match o1.res {
        Err(m) => fail(p, p1, m),
        Ok(_) => {
            let o2 = expect(ts, p1, Token::Semicolon);
            match o2.res {
                Err(m) => fail(p, p1.after(o2), m),
                Ok(_) => ok(p, p1.after(o2), StmtView::Break),
            }
        },
    }
}

#[verifier::opaque]
pub open spec fn loop_stmt(ts: Words, p: St) -> Out<StmtView>
    decreases p.left(ts), 55nat,
{
    loop_stmt_rule(ts, p)
}

/// The rule of `loop_stmt`.
#[verifier::opaque]
pub open spec fn loop_stmt_rule(ts: Words, p: St) -> Out<StmtView>
    decreases p.left(ts), 54nat,
{
    let o1 = expect(ts, p, Token::Loop);
    let p1 = p.after(o1);
    match o1.res {
        Err(m) => fail(p, p1, m),
        Ok(_) => {
            let o2 = block(ts, p1);
            match o2.res {
                Err(m) => fail(p, p1.after(o2), m),
                Ok(body) => ok(p, p1.after(o2), StmtView::Loop(LoopStmtView { body })),
            }
        },
    }
}

#[verifier::opaque]
pub open spec fn for_stmt(ts: Words, p: St) -> Out<StmtView>
    decreases p.left(ts), 55nat,
{
    for_stmt_rule(ts, p)
}

/// The rule of `for_stmt`.
#[verifier::opaque]
pub open spec fn for_stmt_rule(ts: Words, p: St) -> Out<StmtView>
    decreases p.left(ts), 54nat,
{
    let o1 = expect(ts, p, Token::For);
    let p1 = p.after(o1);
    match o1.res {
        Err(m) => fail(p, p1, m),
        Ok(_) => {
            let o2 = ident(ts, p1);
            let p2 = p1.after(o2);
            match o2.res {
                Err(m) => fail(p, p2, m),
                Ok(var) => {
                    let o3 = expect(ts, p2, Token::In);
                    let p3 = p2.after(o3);
                    match o3.res {
                        Err(m) => fail(p, p3, m),
                        Ok(_) => {
                            let o4 = head_expr(ts, p3);
                            let p4 = p3.after(o4);
                            match o4.res {
                                Err(m) => fail(p, p4, m),
                                Ok(iterable) => {
                                    let o5 = block(ts, p4);
                                    match o5.res {
                                        Err(m) => fail(p, p4.after(o5), m),
                                        Ok(body) => ok(
                                            p,
                                            p4.after(o5),
                                            StmtView::For(
                                                ForStmtView {
                                                    var,
                                                    iterable: Box::new(iterable),
                                                    body,
                                                },
                                            ),
                                        ),
                                    }
                                },
                            }
                        },
                    }
                },
            }
        },
    }
}

#[verifier::opaque]
pub open spec fn return_stmt(ts: Words, p: St) -> Out<StmtView>
    decreases p.left(ts), 55nat,
{
    return_stmt_rule(ts, p)
}

/// The rule of `return_stmt`.
#[verifier::opaque]
pub open spec fn return_stmt_rule(ts: Words, p: St) -> Out<StmtView>
    decreases p.left(ts), 54nat,
{
    let o1 = expect(ts, p, Token::Return);
    let p1 = p.after(o1);
    match o1.res {
        Err(m) => fail(p, p1, m),
        Ok(_) => if p1.at(ts, Token::Semicolon) {
            ok(p, p1.step(), StmtView::Return(None))
        } else {
            let o2 = expr(ts, p1);
            let p2 = p1.after(o2);
            match o2.res {
                Err(m) => fail(p, p2, m),
                Ok(e) => {
                    let o3 = expect(ts, p2, Token::Semicolon);
                    match o3.res {
                        Err(m) => fail(p, p2.after(o3), m),
                        Ok(_) => ok(p, p2.after(o3), StmtView::Return(Some(e))),
                    }
                },
            }
        },
    }
}

#[verifier::opaque]
pub open spec fn while_stmt(ts: Words, p: St) -> Out<StmtView>
    decreases p.left(ts), 55nat,
{
    while_stmt_rule(ts, p)
}

/// The rule of `while_stmt`.
#[verifier::opaque]
pub open spec fn while_stmt_rule(ts: Words, p: St) -> Out<StmtView>
    decreases p.left(ts), 54nat,
{
    let o1 = expect(ts, p, Token::While);
    let p1 = p.after(o1);
    match o1.res {
        Err(m) => fail(p, p1, m),
        Ok(_) => {
            let o2 = head_expr(ts, p1);
            let p2 = p1.after(o2);
            match o2.res {
                Err(m) => fail(p, p2, m),
                Ok(cond) => {
                    let o3 = block(ts, p2);
                    match o3.res {
                        Err(m) => fail(p, p2.after(o3), m),
                        Ok(body) => ok(
                            p,
                            p2.after(o3),
                            StmtView::While(WhileStmtView { cond: Box::new(cond), body }),
                        ),
                    }
                },
            }
        },
    }
}

// Items.

/// The attributes before an item.
#[verifier::opaque]
pub open spec fn attributes(ts: Words, p: St, list: Seq<AttributeView>) -> Out<Seq<AttributeView>>
    decreases p.left(ts),
{
    if p.at(ts, Token::Pound) {
        let o1 = expect(ts, p.step(), Token::LBracket);
        let p1 = p.step().after(o1);
        match o1.res {
            Err(m) => fail(p, p1, m),
            Ok(_) => {
                let o2 = ident(ts, p1);
                let p2 = p1.after(o2);
                match o2.res {
                    Err(m) => fail(p, p2, m),
                    Ok(name) => {
                        let o3 = attribute_args(ts, p2);
                        let p3 = p2.after(o3);
                        match o3.res {
                            Err(m) => fail(p, p3, m),
                            Ok(args) => {
                                let o4 = expect(ts, p3, Token::RBracket);
                                let p4 = p3.after(o4);
                                match o4.res {
                                    Err(m) => fail(p, p4, m),
                                    Ok(_) => relay(
                                        p,
                                        p4,
                                        attributes(ts, p4, list.push(AttributeView { name, args })),
                                    ),
                                }
                            },
                        }
                    },
                }
            },
        }
    } else {
        ok(p, p, list)
    }
}

/// The arguments of an attribute in parentheses, if there are any.
#[verifier::opaque]
pub open spec fn attribute_args(ts: Words, p: St) -> Out<Seq<AttributeArgView>> {
    if p.at(ts, Token::LParen) {
        let o1 = attribute_list(ts, p.step(), Seq::empty());
        let p1 = p.step().after(o1);
        match o1.res {
            Err(m) => fail(p, p1, m),
            Ok(list) => {
                let o2 = expect(ts, p1, Token::RParen);
                match o2.res {
                    Err(m) => fail(p, p1.after(o2), m),
                    Ok(_) => ok(p, p1.after(o2), list),
                }
            },
        }
    } else {
        ok(p, p, Seq::empty())
    }
}

#[verifier::opaque]
pub open spec fn attribute_list(ts: Words, p: St, list: Seq<AttributeArgView>) -> Out<
    Seq<AttributeArgView>,
>
    decreases p.left(ts),
{
    if !p.more(ts) || p.at(ts, Token::RParen) {
        ok(p, p, list)
    } else {
        let o = attribute_arg(ts, p);
        let p1 = p.after(o);
        match o.res {
            Err(m) => fail(p, p1, m),
            Ok(a) => if p1.at(ts, Token::Comma) {
                relay(p, p1.step(), attribute_list(ts, p1.step(), list.push(a)))
            } else {
                ok(p, p1, list.push(a))
            },
        }
    }
}

/// A value, with a key where an `=` follows the first token.
#[verifier::opaque]
pub open spec fn attribute_arg(ts: Words, p: St) -> Out<AttributeArgView> {
    if p.then_at(ts, Token::Eq) {
        let p1 = p.step().step();
        let o = attribute_value(ts, p1);
        match o.res {
            Err(m) => fail(p, p1.after(o), m),
            Ok(v) => ok(p, p1.after(o), AttributeArgView::KeyValue(p.text(ts), Box::new(v))),
        }
    } else {
        attribute_value(ts, p)
    }
}

/// A name, a string, an integer, a fraction of two integers, or a number with a
/// point.
#[verifier::opaque]
pub open spec fn attribute_value(ts: Words, p: St) -> Out<AttributeArgView> {
    if !p.more(ts) {
        fail(p, p, "Expected attribute argument value"@)
    } else {
        let text = p.text(ts);
        match p.token(ts) {
            Token::Ident(_) => ok(p, p.step(), AttributeArgView::Ident(text)),
            Token::String(_) => ok(p, p.step(), AttributeArgView::StringLit(text)),
            Token::Integer(_) => if p.then_at(ts, Token::Slash) {
                let p1 = p.step().step();
                if p1.more(ts) && is_integer(p1.token(ts)) {
                    ok(p, p1.step(), AttributeArgView::Rational(text + "/"@ + p1.text(ts)))
                } else {
                    fail(
                        p,
                        if p1.more(ts) {
                            p1.step()
                        } else {
                            p1
                        },
                        "Expected integer after '/' in rational"@,
                    )
                }
            } else {
                match decimal_value(text) {
                    Some(n) => if n <= i64::MAX {
                        ok(p, p.step(), AttributeArgView::Int(n as i64))
                    } else {
                        fail(p, p.step(), "invalid integer literal "@ + text)
                    },
                    None => fail(p, p.step(), "invalid integer literal "@ + text),
                }
            },
            Token::Float(_) => ok(p, p.step(), AttributeArgView::Float(text)),
            _ => fail(p, p, "Expected attribute argument value"@),
        }
    }
}

/// The type parameters in angle brackets.
#[verifier::opaque]
pub open spec fn generic_params(ts: Words, p: St) -> Out<Seq<GenericParamView>> {
    if p.at(ts, Token::Lt) {
        let o1 = generic_names(ts, p.step(), Seq::empty());
        let p1 = p.step().after(o1);
        match o1.res {
            Err(m) => fail(p, p1, m),
            Ok(list) => {
                let o2 = expect(ts, p1, Token::Gt);
                match o2.res {
                    Err(m) => fail(p, p1.after(o2), m),
                    Ok(_) => ok(p, p1.after(o2), list),
                }
            },
        }
    } else {
        ok(p, p, Seq::empty())
    }
}

#[verifier::opaque]
pub open spec fn generic_names(ts: Words, p: St, list: Seq<GenericParamView>) -> Out<
    Seq<GenericParamView>,
>
    decreases p.left(ts),
{
    if !p.more(ts) || p.at(ts, Token::Gt) {
        ok(p, p, list)
    } else {
        let o = ident(ts, p);
        let p1 = p.after(o);
        match o.res {
            Err(m) => fail(p, p1, m),
            Ok(name) => {
                let list1 = list.push(GenericParamView { name });
                if p1.at(ts, Token::Comma) {
                    relay(p, p1.step(), generic_names(ts, p1.step(), list1))
                } else {
                    ok(p, p1, list1)
                }
            },
        }
    }
}

pub open spec fn param_names(list: Seq<GenericParamView>) -> Seq<Chars> {
    list.map_values(|g: GenericParamView| g.name)
}

/// The receiver of a method: `&self`, `&mut self` or `self`.
#[verifier::opaque]
pub open spec fn receiver(ts: Words, p: St) -> Out<ParamView> {
    if p.at(ts, Token::Amp) {
        let mutable = p.step().at(ts, Token::Mut);
        let p1 = p.step().skip(ts, Token::Mut);
        if p1.at(ts, Token::SelfLower) {
            ok(
                p,
                p1.step().skip(ts, Token::Comma),
                ParamView {
                    name: "self"@,
                    ty: TypeView::Ref { mutable, inner: Box::new(TypeView::SelfType) },
                },
            )
        } else {
            fail(p, p1, "Expected 'self' after '&'"@)
        }
    } else {
        ok(
            p,
            p.step().skip(ts, Token::Comma),
            ParamView { name: "self"@, ty: TypeView::SelfType },
        )
    }
}

/// The parameters of a function, up to the closing parenthesis. No comma has to
/// follow a receiver.
#[verifier::opaque]
pub open spec fn params(ts: Words, p: St, list: Seq<ParamView>) -> Out<Seq<ParamView>>
    decreases p.left(ts),
{
    proof {
        reveal(receiver);
    }
    if !p.more(ts) || p.at(ts, Token::RParen) {
        ok(p, p, list)
    } else if p.at(ts, Token::Amp) || p.at(ts, Token::SelfLower) {
        let o = receiver(ts, p);
        let p1 = p.after(o);
        match o.res {
            Err(m) => fail(p, p1, m),
            Ok(q) => relay(p, p1, params(ts, p1, list.push(q))),
        }
    } else {
        let o1 = ident(ts, p);
        let p1 = p.after(o1);
        match o1.res {
            Err(m) => fail(p, p1, m),
            Ok(name) => {
                let o2 = expect(ts, p1, Token::Colon);
                let p2 = p1.after(o2);
                match o2.res {
                    Err(m) => fail(p, p2, m),
                    Ok(_) => {
                        let o3 = ty(ts, p2);
                        let p3 = p2.after(o3);
                        match o3.res {
                            Err(m) => fail(p, p3, m),
                            Ok(t) => {
                                let list1 = list.push(ParamView { name, ty: t });
                                if p3.at(ts, Token::Comma) {
                                    relay(p, p3.step(), params(ts, p3.step(), list1))
                                } else {
                                    ok(p, p3, list1)
                                }
                            },
                        }
                    },
                }
            },
        }
    }
}

/// The head of a function, from its visibility to its result type. The type
/// parameters are known from the parameters on.
#[verifier::opaque]
pub open spec fn fn_head(ts: Words, p: St) -> Out<FnSigView> {
    let p0 = if p.at(ts, Token::Pub) || p.at(ts, Token::Priv) {
        p.step()
    } else {
        p
    };
    let o1 = expect(ts, p0, Token::Fn);
    let p1 = p0.after(o1);
    match o1.res {
        Err(m) => fail(p, p1, m),
        Ok(_) => {
            let o2 = ident(ts, p1);
            let p2 = p1.after(o2);
            match o2.res {
                Err(m) => fail(p, p2, m),
                Ok(name) => {
                    let o3 = generic_params(ts, p2);
                    let p3 = p2.after(o3);
                    match o3.res {
                        Err(m) => fail(p, p3, m),
                        Ok(gs) => {
                            let p4 = p3.push_scope(param_names(gs));
                            relay(p, p4, fn_tail(ts, p4, name, gs))
                        },
                    }
                },
            }
        },
    }
}

/// The parameters and the result type of a function.
#[verifier::opaque]
pub open spec fn fn_tail(
    ts: Words,
    p: St,
    name: Chars,
    generic_params: Seq<GenericParamView>,
) -> Out<FnSigView> {
    let o1 = expect(ts, p, Token::LParen);
    let p1 = p.after(o1);
    match o1.res {
        Err(m) => fail(p, p1, m),
        Ok(_) => {
            let o2 = params(ts, p1, Seq::empty());
            let p2 = p1.after(o2);
            match o2.res {
                Err(m) => fail(p, p2, m),
                Ok(params) => {
                    let o3 = expect(ts, p2, Token::RParen);
                    let p3 = p2.after(o3);
                    match o3.res {
                        Err(m) => fail(p, p3, m),
                        Ok(_) => {
                            let o4 = optional_type(ts, p3, Token::Arrow);
                            let p4 = p3.after(o4);
                            match o4.res {
                                Err(m) => fail(p, p4, m),
                                Ok(return_type) => ok(
                                    p,
                                    p4,
                                    FnSigView { name, params, return_type, generic_params },
                                ),
                            }
                        },
                    }
                },
            }
        },
    }
}

/// A function without body: its head and a semicolon.
#[verifier::opaque]
pub open spec fn fn_sig(ts: Words, p: St) -> Out<FnSigView> {
    let o1 = fn_head(ts, p);
    match o1.res {
        Err(m) => o1,
        Ok(sig) => {
            let p1 = p.after(o1).pop_scope();
            let o2 = expect(ts, p1, Token::Semicolon);
            match o2.res {
                Err(m) => fail(p, p1.after(o2), m),
                Ok(_) => ok(p, p1.after(o2), sig),
            }
        },
    }
}

/// A function: its head and its body.
#[verifier::opaque]
pub open spec fn fn_def(ts: Words, p: St, attributes: Seq<AttributeView>) -> Out<FnDefView> {
    let o1 = fn_head(ts, p);
    let p1 = p.after(o1);
    match o1.res {
        Err(m) => fail(p, p1, m),
        Ok(sig) => {
            let o2 = block(ts, p1);
            let p2 = p1.after(o2);
            match o2.res {
                Err(m) => fail(p, p2, m),
                Ok(body) => ok(
                    p,
                    p2.pop_scope(),
                    FnDefView {
                        attributes,
                        name: sig.name,
                        generic_params: sig.generic_params,
                        params: sig.params,
                        return_type: sig.return_type,
                        body,
                    },
                ),
            }
        },
    }
}

/// The fields of a structure, up to the closing brace.
#[verifier::opaque]
pub open spec fn field_defs(ts: Words, p: St, list: Seq<ParamView>) -> Out<Seq<ParamView>>
    decreases p.left(ts),
{
    if !p.more(ts) || p.at(ts, Token::RBrace) {
        ok(p, p, list)
    } else {
        let o1 = ident(ts, p);
        let p1 = p.after(o1);
        match o1.res {
            Err(m) => fail(p, p1, m),
            Ok(name) => {
                let o2 = expect(ts, p1, Token::Colon);
                let p2 = p1.after(o2);
                match o2.res {
                    Err(m) => fail(p, p2, m),
                    Ok(_) => {
                        let o3 = ty(ts, p2);
                        let p3 = p2.after(o3);
                        match o3.res {
                            Err(m) => fail(p, p3, m),
                            Ok(t) => {
                                {
                                let list1 = list.push(ParamView { name, ty: t });
                                if p3.at(ts, Token::Comma) {
                                    relay(p, p3.step(), field_defs(ts, p3.step(), list1))
                                } else {
                                    ok(p, p3, list1)
                                }
                            }
                            },
                        }
                    },
                }
            },
        }
    }
}

/// The type in parentheses behind the name of a variant, if there is one.
#[verifier::opaque]
pub open spec fn payload(ts: Words, p: St) -> Out<Option<TypeView>> {
    if p.at(ts, Token::LParen) {
        let p0 = p.step();
        let o1 = ty(ts, p0);
        let p1 = p0.after(o1);
        match o1.res {
            Err(m) => fail(p, p1, m),
            Ok(t) => {
                let o2 = expect(ts, p1, Token::RParen);
                let p2 = p1.after(o2);
                match o2.res {
                    Err(m) => fail(p, p2, m),
                    Ok(_) => {
                        ok(p, p2, Some(t))
                    },
                }
            },
        }
    } else {
        ok(p, p, None)
    }
}

/// The variants of an enumeration, up to the closing brace.
#[verifier::opaque]
pub open spec fn variant_defs(ts: Words, p: St, list: Seq<EnumVariantDefView>) -> Out<
    Seq<EnumVariantDefView>,
>
    decreases p.left(ts),
{
    if !p.more(ts) || p.at(ts, Token::RBrace) {
        ok(p, p, list)
    } else {
        let o1 = ident(ts, p);
        let p1 = p.after(o1);
        match o1.res {
            Err(m) => fail(p, p1, m),
            Ok(name) => {
                let o2 = payload(ts, p1);
                let p2 = p1.after(o2);
                match o2.res {
                    Err(m) => fail(p, p2, m),
                    Ok(t) => {
                        {
                            let list1 = list.push(EnumVariantDefView { name, ty: t });
                            if p2.at(ts, Token::Comma) {
                                relay(p, p2.step(), variant_defs(ts, p2.step(), list1))
                            } else {
                                ok(p, p2, list1)
                            }
                        }
                    },
                }
            },
        }
    }
}

/// A function with its attributes.
#[verifier::opaque]
pub open spec fn fn_with_attributes(ts: Words, p: St) -> Out<FnDefView> {
    let o1 = attributes(ts, p, Seq::empty());
    let p1 = p.after(o1);
    match o1.res {
        Err(m) => fail(p, p1, m),
        Ok(attrs) => {
            let o2 = fn_def(ts, p1, attrs);
            let p2 = p1.after(o2);
            match o2.res {
                Err(m) => fail(p, p2, m),
                Ok(f) => {
                    ok(p, p2, f)
                },
            }
        },
    }
}

/// Functions up to the closing brace. Each has at least one token.
#[verifier::opaque]
pub open spec fn fn_defs(ts: Words, p: St, list: Seq<FnDefView>) -> Out<Seq<FnDefView>>
    decreases p.left(ts),
{
    if !p.more(ts) || p.at(ts, Token::RBrace) {
        ok(p, p, list)
    } else {
        let o = fn_with_attributes(ts, p);
        let p1 = p.after(o);
        match o.res {
            Err(m) => fail(p, p1, m),
            Ok(f) => if o.adv == 0 {
                ok(p, p1, list.push(f))
            } else {
                relay(p, p1, fn_defs(ts, p1, list.push(f)))
            },
        }
    }
}

/// Functions without bodies, up to the closing brace. Each has at least one token.
#[verifier::opaque]
pub open spec fn fn_sigs(ts: Words, p: St, list: Seq<FnSigView>) -> Out<Seq<FnSigView>>
    decreases p.left(ts),
{
    if !p.more(ts) || p.at(ts, Token::RBrace) {
        ok(p, p, list)
    } else {
        let o = fn_sig(ts, p);
        let p1 = p.after(o);
        match o.res {
            Err(m) => fail(p, p1, m),
            Ok(f) => if o.adv == 0 {
                ok(p, p1, list.push(f))
            } else {
                relay(p, p1, fn_sigs(ts, p1, list.push(f)))
            },
        }
    }
}

/// The names of a path.
#[verifier::opaque]
pub open spec fn path(ts: Words, p: St, list: Seq<Chars>) -> Out<Seq<Chars>>
    decreases p.left(ts),
{
    let o = ident(ts, p);
    let p1 = p.after(o);
    match o.res {
        Err(m) => fail(p, p1, m),
        Ok(name) => if p1.at(ts, Token::PathSep) {
            relay(p, p1.step(), path(ts, p1.step(), list.push(name)))
        } else {
            ok(p, p1, list.push(name))
        },
    }
}

/// A structure: its name, its type parameters and its fields.
#[verifier::opaque]
pub open spec fn struct_def(ts: Words, p: St) -> Out<StructDefView> {
    let o1 = expect(ts, p, Token::Struct);
    let p1 = p.after(o1);
    match o1.res {
        Err(m) => fail(p, p1, m),
        Ok(_) => {
            let o2 = ident(ts, p1);
            let p2 = p1.after(o2);
            match o2.res {
                Err(m) => fail(p, p2, m),
                Ok(name) => {
                    let o3 = generic_params(ts, p2);
                    let p3 = p2.after(o3);
                    match o3.res {
                        Err(m) => fail(p, p3, m),
                        Ok(gs) => {
                            let q4 = p3.push_scope(param_names(gs));
                            let o5 = expect(ts, q4, Token::LBrace);
                            let p5 = q4.after(o5);
                            match o5.res {
                                Err(m) => fail(p, p5, m),
                                Ok(_) => {
                                    let o6 = field_defs(ts, p5, Seq::empty());
                                    let p6 = p5.after(o6);
                                    match o6.res {
                                        Err(m) => fail(p, p6, m),
                                        Ok(fields) => {
                                            let o7 = expect(ts, p6, Token::RBrace);
                                            let p7 = p6.after(o7);
                                            match o7.res {
                                                Err(m) => fail(p, p7, m),
                                                Ok(_) => {
                                                    ok(p, p7.pop_scope(), StructDefView { name, generic_params: gs, fields })
                                                },
                                            }
                                        },
                                    }
                                },
                            }
                        },
                    }
                },
            }
        },
    }
}

/// An enumeration: its name, its type parameters and its variants.
#[verifier::opaque]
pub open spec fn enum_def(ts: Words, p: St) -> Out<EnumDefView> {
    let o1 = expect(ts, p, Token::Enum);
    let p1 = p.after(o1);
    match o1.res {
        Err(m) => fail(p, p1, m),
        Ok(_) => {
            let o2 = ident(ts, p1);
            let p2 = p1.after(o2);
            match o2.res {
                Err(m) => fail(p, p2, m),
                Ok(name) => {
                    let o3 = generic_params(ts, p2);
                    let p3 = p2.after(o3);
                    match o3.res {
                        Err(m) => fail(p, p3, m),
                        Ok(gs) => {
                            let q4 = p3.push_scope(param_names(gs));
                            let o5 = expect(ts, q4, Token::LBrace);
                            let p5 = q4.after(o5);
                            match o5.res {
                                Err(m) => fail(p, p5, m),
                                Ok(_) => {
                                    let o6 = variant_defs(ts, p5, Seq::empty());
                                    let p6 = p5.after(o6);
                                    match o6.res {
                                        Err(m) => fail(p, p6, m),
                                        Ok(variants) => {
                                            let o7 = expect(ts, p6, Token::RBrace);
                                            let p7 = p6.after(o7);
                                            match o7.res {
                                                Err(m) => fail(p, p7, m),
                                                Ok(_) => {
                                                    ok(p, p7.pop_scope(), EnumDefView { name, generic_params: gs, variants })
                                                },
                                            }
                                        },
                                    }
                                },
                            }
                        },
                    }
                },
            }
        },
    }
}

/// A constant: its name, its type and its value.
#[verifier::opaque]
pub open spec fn const_def(ts: Words, p: St) -> Out<ConstDefView> {
    let o1 = expect(ts, p, Token::Const);
    let p1 = p.after(o1);
    match o1.res {
        Err(m) => fail(p, p1, m),
        Ok(_) => {
            let o2 = ident(ts, p1);
            let p2 = p1.after(o2);
            match o2.res {
                Err(m) => fail(p, p2, m),
                Ok(name) => {
                    let o3 = expect(ts, p2, Token::Colon);
                    let p3 = p2.after(o3);
                    match o3.res {
                        Err(m) => fail(p, p3, m),
                        Ok(_) => {
                            let o4 = ty(ts, p3);
                            let p4 = p3.after(o4);
                            match o4.res {
                                Err(m) => fail(p, p4, m),
                                Ok(t) => {
                                    let o5 = expect(ts, p4, Token::Eq);
                                    let p5 = p4.after(o5);
                                    match o5.res {
                                        Err(m) => fail(p, p5, m),
                                        Ok(_) => {
                                            let o6 = expr(ts, p5);
                                            let p6 = p5.after(o6);
                                            match o6.res {
                                                Err(m) => fail(p, p6, m),
                                                Ok(value) => {
                                                    let o7 = expect(ts, p6, Token::Semicolon);
                                                    let p7 = p6.after(o7);
                                                    match o7.res {
                                                        Err(m) => fail(p, p7, m),
                                                        Ok(_) => {
                                                            ok(p, p7, ConstDefView { name, ty: t, value })
                                                        },
                                                    }
                                                },
                                            }
                                        },
                                    }
                                },
                            }
                        },
                    }
                },
            }
        },
    }
}

/// A name and functions in braces.
#[verifier::opaque]
pub open spec fn named_fns(ts: Words, p: St, keyword: Token) -> Out<(Chars, Seq<FnDefView>)> {
    let o1 = expect(ts, p, keyword);
    let p1 = p.after(o1);
    match o1.res {
        Err(m) => fail(p, p1, m),
        Ok(_) => {
            let o2 = ident(ts, p1);
            let p2 = p1.after(o2);
            match o2.res {
                Err(m) => fail(p, p2, m),
                Ok(name) => {
                    let o3 = expect(ts, p2, Token::LBrace);
                    let p3 = p2.after(o3);
                    match o3.res {
                        Err(m) => fail(p, p3, m),
                        Ok(_) => {
                            let o4 = fn_defs(ts, p3, Seq::empty());
                            let p4 = p3.after(o4);
                            match o4.res {
                                Err(m) => fail(p, p4, m),
                                Ok(functions) => {
                                    let o5 = expect(ts, p4, Token::RBrace);
                                    let p5 = p4.after(o5);
                                    match o5.res {
                                        Err(m) => fail(p, p5, m),
                                        Ok(_) => {
                                            ok(p, p5, (name, functions))
                                        },
                                    }
                                },
                            }
                        },
                    }
                },
            }
        },
    }
}

/// An interface: its name and its functions.
#[verifier::opaque]
pub open spec fn interface_def(ts: Words, p: St) -> Out<InterfaceDefView> {
    let o1 = expect(ts, p, Token::Interface);
    let p1 = p.after(o1);
    match o1.res {
        Err(m) => fail(p, p1, m),
        Ok(_) => {
            let o2 = ident(ts, p1);
            let p2 = p1.after(o2);
            match o2.res {
                Err(m) => fail(p, p2, m),
                Ok(name) => {
                    let o3 = expect(ts, p2, Token::LBrace);
                    let p3 = p2.after(o3);
                    match o3.res {
                        Err(m) => fail(p, p3, m),
                        Ok(_) => {
                            let o4 = fn_sigs(ts, p3, Seq::empty());
                            let p4 = p3.after(o4);
                            match o4.res {
                                Err(m) => fail(p, p4, m),
                                Ok(functions) => {
                                    let o5 = expect(ts, p4, Token::RBrace);
                                    let p5 = p4.after(o5);
                                    match o5.res {
                                        Err(m) => fail(p, p5, m),
                                        Ok(_) => {
                                            ok(p, p5, InterfaceDefView { name, functions })
                                        },
                                    }
                                },
                            }
                        },
                    }
                },
            }
        },
    }
}

/// An import.
#[verifier::opaque]
pub open spec fn use_def(ts: Words, p: St) -> Out<UseDefView> {
    let o1 = expect(ts, p, Token::Use);
    let p1 = p.after(o1);
    match o1.res {
        Err(m) => fail(p, p1, m),
        Ok(_) => {
            let o2 = path(ts, p1, Seq::empty());
            let p2 = p1.after(o2);
            match o2.res {
                Err(m) => fail(p, p2, m),
                Ok(names) => {
                    let o3 = expect(ts, p2, Token::Semicolon);
                    let p3 = p2.after(o3);
                    match o3.res {
                        Err(m) => fail(p, p3, m),
                        Ok(_) => {
                            ok(p, p3, UseDefView { path: names })
                        },
                    }
                },
            }
        },
    }
}

/// Turns what a phrase gives into an item.
pub open spec fn as_item<T>(p0: St, p: St, o: Out<T>, make: spec_fn(T) -> ItemView) -> Out<ItemView> {
    match o.res {
        Err(m) => fail(p0, p.after(o), m),
        Ok(x) => ok(p0, p.after(o), make(x)),
    }
}

/// An item that is no function, behind its visibility.
#[verifier::opaque]
pub open spec fn definition(ts: Words, p: St) -> Out<ItemView> {
    if p.at(ts, Token::Struct) {
        as_item(p, p, struct_def(ts, p), |x: StructDefView| ItemView::StructDef(x))
    } else if p.at(ts, Token::Enum) {
        as_item(p, p, enum_def(ts, p), |x: EnumDefView| ItemView::EnumDef(x))
    } else if p.at(ts, Token::Const) {
        as_item(p, p, const_def(ts, p), |x: ConstDefView| ItemView::ConstDef(x))
    } else if p.at(ts, Token::Model) {
        as_item(
            p,
            p,
            named_fns(ts, p, Token::Model),
            |x: (Chars, Seq<FnDefView>)|
                ItemView::ModelDef(ModelDefView { name: x.0, functions: x.1 }),
        )
    } else if p.at(ts, Token::Implement) {
        as_item(
            p,
            p,
            named_fns(ts, p, Token::Implement),
            |x: (Chars, Seq<FnDefView>)|
                ItemView::Implement(ImplementDefView { target: x.0, functions: x.1 }),
        )
    } else if p.at(ts, Token::Interface) {
        as_item(p, p, interface_def(ts, p), |x: InterfaceDefView| ItemView::Interface(x))
    } else if p.at(ts, Token::Use) {
        as_item(p, p, use_def(ts, p), |x: UseDefView| ItemView::Use(x))
    } else {
        fail(p, p, "Expected item"@)
    }
}

/// An item with its attributes, which only a function keeps, and its visibility.
#[verifier::opaque]
pub open spec fn item(ts: Words, p: St) -> Out<Seq<ItemView>> {
    let o1 = attributes(ts, p, Seq::empty());
    let p1 = p.after(o1);
    match o1.res {
        Err(m) => fail(p, p1, m),
        Ok(attrs) => {
            let shown = p1.at(ts, Token::Pub) || p1.at(ts, Token::Priv);
            let p2 = if shown {
                p1.step()
            } else {
                p1
            };
            if p2.at(ts, Token::Fn) {
                let o2 = fn_def(ts, p1, attrs);
                match o2.res {
                    Err(m) => fail(p, p1.after(o2), m),
                    Ok(f) => ok(p, p1.after(o2), seq![ItemView::FnDef(f)]),
                }
            } else {
                let o2 = definition(ts, p2);
                match o2.res {
                    Err(m) => fail(p, p2.after(o2), m),
                    Ok(d) => ok(p, p2.after(o2), seq![d]),
                }
            }
        },
    }
}

/// Items up to the end. Each has at least one token.
#[verifier::opaque]
pub open spec fn items(ts: Words, p: St, list: Seq<ItemView>) -> Out<Seq<ItemView>>
    decreases p.left(ts),
{
    if !p.more(ts) {
        ok(p, p, list)
    } else {
        let o = item(ts, p);
        let p1 = p.after(o);
        match o.res {
            Err(m) => fail(p, p1, m),
            Ok(more) => if o.adv == 0 {
                ok(p, p1, list + more)
            } else {
                relay(p, p1, items(ts, p1, list + more))
            },
        }
    }
}

/// A program.
#[verifier::opaque]
pub open spec fn program(ts: Words, p: St) -> Out<ProgramView> {
    let o = items(ts, p, Seq::empty());
    match o.res {
        Err(m) => fail(p, p.after(o), m),
        Ok(list) => ok(p, p.after(o), ProgramView { items: list }),
    }
}

/// The operands below all operators.
pub proof fn lemma_binary_zero(ts: Words, p: St)
    ensures
        binary(ts, p, 0) == cast(ts, p),
{
    reveal(binary);
    reveal(binary_rule);
    reveal(cast);
    assert(binary(ts, p, 0) == binary_rule(ts, p, 0));
}

} // verus!
