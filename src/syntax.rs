use vstd::prelude::*;
use crate::location::{Location, sat_add};

verus! {

/// An atomic lexical unit: where it stands and what it reads.
pub struct Token {
    pub location: Location,
    pub text: String,
}

/// One token of an expression, in source order, with the role that alignment and
/// resolution give it.
pub enum ExprElement {
    /// A binary operator, printed with one space on each side.
    Operator(Token),
    /// A use of a declared name.
    Reference(Token),
    /// Any other token: a number, a unary operator, a bracket, a parenthesis, a colon.
    Atom(Token),
}

/// A primary expression.
pub enum Factor {
    Number(Token),
    /// A name, with its bit or part selects.
    Identifier { name: Token, ranges: Vec<Range> },
    Paren { l_paren: Token, expression: Box<Expression>, r_paren: Token },
    /// `{item, item, ...}`
    Concatenation { l_brace: Token, items: Vec<ConcatenationItem>, r_brace: Token },
}

/// One item of a concatenation, with the comma that follows it, if any.
pub struct ConcatenationItem {
    pub expression: Expression,
    pub comma: Option<Token>,
}

/// A select `[expression]` or `[expression:expression]`.
pub struct Range {
    pub l_bracket: Token,
    pub expression: Expression,
    pub select: Option<RangeSelect>,
    pub r_bracket: Token,
}

/// The `:expression` part of a part select.
pub struct RangeSelect {
    pub colon: Token,
    pub expression: Expression,
}

/// A factor with the prefix operators in front of it, in source order.
pub struct Expression1 {
    pub unary: Vec<Token>,
    pub factor: Factor,
}

/// A binary operator and its right operand.
pub struct ExpressionTail {
    pub operator: Token,
    pub operand: Expression1,
}

/// A chain of operands joined by binary operators.
pub struct Expression {
    pub first: Expression1,
    pub rest: Vec<ExpressionTail>,
}

/// A bit-width annotation `[expression]`.
pub struct Width {
    pub l_bracket: Token,
    pub expression: Expression,
    pub r_bracket: Token,
}

/// A declared type: its name as printed, and its width annotations.
pub struct Type {
    pub name: Token,
    pub widths: Vec<Width>,
}

/// The built-in types.
#[derive(Clone, Copy, Debug, PartialEq, Eq, Structural)]
pub enum BuiltinType {
    Logic,
    Bit,
    U32,
    U64,
    I32,
    I64,
    F32,
    F64,
}

/// How a built-in type is printed in the target language.
pub open spec fn builtin_type_spec(t: BuiltinType) -> Seq<char> {
    match t {
        BuiltinType::Logic => "logic"@,
        BuiltinType::Bit => "bit"@,
        BuiltinType::U32 => "unsigned int"@,
        BuiltinType::U64 => "unsigned longint"@,
        BuiltinType::I32 => "signed int"@,
        BuiltinType::I64 => "signed longint"@,
        BuiltinType::F32 => "real"@,
        BuiltinType::F64 => "longreal"@,
    }
}

/// The text a built-in type is printed as, which the type column measures.
pub fn builtin_type_text(t: BuiltinType) -> (r: &'static str)
    ensures
        r@ == builtin_type_spec(t),
{
    match t {
        BuiltinType::Logic => "logic",
        BuiltinType::Bit => "bit",
        BuiltinType::U32 => "unsigned int",
        BuiltinType::U64 => "unsigned longint",
        BuiltinType::I32 => "signed int",
        BuiltinType::I64 => "signed longint",
        BuiltinType::F32 => "real",
        BuiltinType::F64 => "longreal",
    }
}

/// The direction of a port.
pub enum Direction {
    Input(Token),
    Output(Token),
    Inout(Token),
}

/// A declaration or statement that the analyzer and the aligner look at, in source order.
pub enum Declaration {
    /// A module header; the declarations that follow belong to it.
    Module { name: Token },
    /// An interface header; the declarations that follow belong to it.
    Interface { name: Token },
    /// `var name: ty;`
    Variable { name: Token, ty: Type, allow_unused: bool },
    /// `parameter name: ty = value;`
    Parameter { keyword: Token, name: Token, ty: Type, value: Expression },
    /// `localparam name: ty = value;`
    Localparam { name: Token, ty: Type, value: Expression },
    /// An item of a parameter list; `parameter` is that keyword, absent for `localparam`.
    WithParameter { parameter: Option<Token>, name: Token, ty: Type, value: Expression },
    /// `name: direction ty`
    Port { name: Token, direction: Direction, ty: Type },
    /// `target = value;`
    Assignment { target: Token, value: Expression },
    /// An assignment (`assigned = value`) or a condition (nothing assigned) that names are resolved in
    /// but that the aligner leaves alone: statements of `always_ff` blocks and of `if` branches.
    Statement { assigned: Option<Token>, value: Expression },
}

/// The parsed form of one source file.
pub struct Veryl {
    pub declarations: Vec<Declaration>,
}

impl ExprElement {
    pub open spec fn token(self) -> Token {
        match self {
            ExprElement::Operator(t) => t,
            ExprElement::Reference(t) => t,
            ExprElement::Atom(t) => t,
        }
    }
}

/// The tokens of `e` in source order.
pub open spec fn expression_tokens(e: Expression) -> Seq<ExprElement>
    decreases e,
{
    expression1_tokens(e.first) + tails_tokens(e.rest@)
}

pub open spec fn tails_tokens(ts: Seq<ExpressionTail>) -> Seq<ExprElement>
    decreases ts,
{
    if ts.len() == 0 {
        Seq::empty()
    } else {
        tails_tokens(ts.drop_last()) + seq![ExprElement::Operator(ts.last().operator)] + expression1_tokens(
            ts.last().operand,
        )
    }
}

pub open spec fn expression1_tokens(x: Expression1) -> Seq<ExprElement>
    decreases x,
{
    prefix_tokens(x.unary@) + factor_tokens(x.factor)
}

/// Prefix operators as tokens.
pub open spec fn prefix_tokens(us: Seq<Token>) -> Seq<ExprElement>
    decreases us.len(),
{
    if us.len() == 0 {
        Seq::empty()
    } else {
        prefix_tokens(us.drop_last()).push(ExprElement::Atom(us.last()))
    }
}

pub open spec fn factor_tokens(f: Factor) -> Seq<ExprElement>
    decreases f,
{
    match f {
        Factor::Number(t) => seq![ExprElement::Atom(t)],
        Factor::Identifier { name, ranges } => seq![ExprElement::Reference(name)] + ranges_tokens(ranges@),
        Factor::Paren { l_paren, expression, r_paren } => seq![ExprElement::Atom(l_paren)] + expression_tokens(
            *expression,
        ) + seq![ExprElement::Atom(r_paren)],
        Factor::Concatenation { l_brace, items, r_brace } => seq![ExprElement::Atom(l_brace)] + items_tokens(
            items@,
        ) + seq![ExprElement::Atom(r_brace)],
    }
}

pub open spec fn items_tokens(is: Seq<ConcatenationItem>) -> Seq<ExprElement>
    decreases is,
{
    if is.len() == 0 {
        Seq::empty()
    } else {
        items_tokens(is.drop_last()) + item_tokens(is.last())
    }
}

pub open spec fn item_tokens(x: ConcatenationItem) -> Seq<ExprElement>
    decreases x,
{
    match x.comma {
        Some(c) => expression_tokens(x.expression) + seq![ExprElement::Atom(c)],
        None => expression_tokens(x.expression),
    }
}

pub open spec fn ranges_tokens(rs: Seq<Range>) -> Seq<ExprElement>
    decreases rs,
{
    if rs.len() == 0 {
        Seq::empty()
    } else {
        ranges_tokens(rs.drop_last()) + range_tokens(rs.last())
    }
}

pub open spec fn range_tokens(r: Range) -> Seq<ExprElement>
    decreases r,
{
    let head = seq![ExprElement::Atom(r.l_bracket)] + expression_tokens(r.expression);
    let body = match r.select {
        Some(x) => head + seq![ExprElement::Atom(x.colon)] + expression_tokens(x.expression),
        None => head,
    };
    body + seq![ExprElement::Atom(r.r_bracket)]
}

/// The width of an item after the token `x` is measured into it, starting from `w`.
pub open spec fn measure_element(w: usize, x: ExprElement) -> usize {
    match x {
        ExprElement::Operator(t) => sat_add(sat_add(sat_add(w, 1), t.location.length), 1),
        _ => sat_add(w, x.token().location.length),
    }
}

/// The width of an item after `e` is measured into it, starting from `w`.
pub open spec fn measure_expr(w: usize, e: Seq<ExprElement>) -> usize
    decreases e.len(),
{
    if e.len() == 0 {
        w
    } else {
        measure_element(measure_expr(w, e.drop_last()), e.last())
    }
}

/// The columns that a width annotation adds: its brackets, its expression, and room for `-1:0`.
pub open spec fn measure_width(w: usize, x: Width) -> usize {
    sat_add(
        sat_add(measure_expr(sat_add(w, x.l_bracket.location.length), expression_tokens(x.expression)), 4),
        x.r_bracket.location.length,
    )
}

/// The width of an item after the annotations `ws` are measured into it, starting from `w`.
pub open spec fn measure_widths(w: usize, ws: Seq<Width>) -> usize
    decreases ws.len(),
{
    if ws.len() == 0 {
        w
    } else {
        measure_width(measure_widths(w, ws.drop_last()), ws.last())
    }
}

/// Measuring `a` and then `b` is measuring `a + b`.
pub proof fn lemma_measure_append(w: usize, a: Seq<ExprElement>, b: Seq<ExprElement>)
    ensures
        measure_expr(w, a + b) == measure_expr(measure_expr(w, a), b),
    decreases b.len(),
{
    if b.len() == 0 {
        assert(a + b =~= a);
    } else {
        assert((a + b).drop_last() =~= a + b.drop_last());
        lemma_measure_append(w, a, b.drop_last());
    }
}

/// Measuring one token.
pub proof fn lemma_measure_one(w: usize, x: ExprElement)
    ensures
        measure_expr(w, seq![x]) == measure_element(w, x),
{
    let one = seq![x];
    assert(one.len() == 1);
    assert(one.drop_last() =~= Seq::<ExprElement>::empty());
    assert(one.last() == x);
    assert(measure_expr(w, Seq::<ExprElement>::empty()) == w);
}

/// Every expression has at least one token.
pub proof fn lemma_expression_tokens_nonempty(e: Expression)
    ensures
        expression_tokens(e).len() > 0,
{
    let f = e.first.factor;
    assert(factor_tokens(f).len() > 0);
}

} // verus!
