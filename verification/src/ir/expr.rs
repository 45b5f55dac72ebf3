//! Expressions: trees of computations over literals.
use vstd::prelude::*;
use crate::ir::literal::literal_eq;
use crate::ir::literal::Literal;
use crate::ir::literal::LiteralView;
use crate::ir::operators::BinOp;
use crate::ir::operators::UnaryOp;

verus! {

/// A computation that yields a value.
#[derive(Debug)]
pub enum Expr {
    /// A computation that the host supplies. `operator` is the name under
    /// which the runtime environment knows it; `args` are evaluated in order
    /// and handed to it by position. The operator is not applied while the
    /// script is compiled: the code calls it when it runs. The tree says
    /// nothing else of the operator, so that two such nodes cannot be
    /// compared.
    Dynamic { operator: String, args: Vec<Expr> },
    Builtin(ExprBuiltin),
    Literal(Literal),
}

/// A built-in operator applied to its operands. The number of operands is
/// part of the type.
#[derive(Debug)]
#[allow(inconsistent_fields)]
pub enum ExprBuiltin {
    /// `operand` holds the left and the right operand, in this order.
    Binary { op: BinOp, operand: Box<(Expr, Expr)> },
    Unary { op: UnaryOp, operand: Box<Expr> },
}

/// The mathematical value of an [`Expr`].
pub enum ExprView {
    Dynamic { operator: Seq<char>, args: Seq<ExprView> },
    Builtin(ExprBuiltinView),
    Literal(LiteralView),
}

/// The mathematical value of an [`ExprBuiltin`].
#[allow(inconsistent_fields)]
pub enum ExprBuiltinView {
    Binary { op: BinOp, left: Box<ExprView>, right: Box<ExprView> },
    Unary { op: UnaryOp, operand: Box<ExprView> },
}

/// The values of a list of expressions, element by element.
pub open spec fn exprs_view(exprs: Seq<Expr>) -> Seq<ExprView>
    decreases exprs,
{
    Seq::new(
        exprs.len(),
        |i: int|
            if 0 <= i < exprs.len() {
                exprs[i]@
            } else {
                ExprView::Literal(LiteralView::Bool(false))
            },
    )
}

impl View for Expr {
    type V = ExprView;

    open spec fn view(&self) -> ExprView
        decreases self,
    {
        match self {
            Expr::Dynamic { operator, args } => ExprView::Dynamic {
                operator: operator@,
                args: exprs_view(args@),
            },
            Expr::Builtin(builtin) => ExprView::Builtin(builtin_view(*builtin)),
            Expr::Literal(literal) => ExprView::Literal(literal@),
        }
    }
}

/// The value of a built-in operator applied to its operands.
pub open spec fn builtin_view(builtin: ExprBuiltin) -> ExprBuiltinView
    decreases builtin,
{
    match builtin {
        ExprBuiltin::Binary { op, operand } => ExprBuiltinView::Binary {
            op,
            left: Box::new(operand.0@),
            right: Box::new(operand.1@),
        },
        ExprBuiltin::Unary { op, operand } => ExprBuiltinView::Unary {
            op,
            operand: Box::new((*operand).view()),
        },
    }
}

impl View for ExprBuiltin {
    type V = ExprBuiltinView;

    open spec fn view(&self) -> ExprBuiltinView {
        builtin_view(*self)
    }
}

/// Whether two expressions are equal: both apply the same built-in operator
/// to equal operands, or both are equal literals. It says nothing of two
/// host-supplied operators: see [`comparable`].
pub open spec fn expr_eq(first: ExprView, second: ExprView) -> bool
    decreases first,
{
    match (first, second) {
        (ExprView::Builtin(a), ExprView::Builtin(b)) => builtin_eq(a, b),
        (ExprView::Literal(a), ExprView::Literal(b)) => literal_eq(a, b),
        _ => false,
    }
}

/// Whether two applications of built-in operators are equal: the operator is
/// the same and the operands are equal, position by position.
pub open spec fn builtin_eq(first: ExprBuiltinView, second: ExprBuiltinView) -> bool
    decreases first,
{
    match (first, second) {
        (
            ExprBuiltinView::Binary { op: a, left: a_left, right: a_right },
            ExprBuiltinView::Binary { op: b, left: b_left, right: b_right },
        ) => a == b && expr_eq(*a_left, *b_left) && expr_eq(*a_right, *b_right),
        (
            ExprBuiltinView::Unary { op: a, operand: a_operand },
            ExprBuiltinView::Unary { op: b, operand: b_operand },
        ) => a == b && expr_eq(*a_operand, *b_operand),
        _ => false,
    }
}

/// Whether two expressions can be compared: the comparison, which goes from
/// the operator to the operands, from the left to the right, and stops at the
/// first difference, never has to compare two host-supplied operators.
pub open spec fn comparable(first: ExprView, second: ExprView) -> bool
    decreases first,
{
    match (first, second) {
        (ExprView::Dynamic { .. }, ExprView::Dynamic { .. }) => false,
        (ExprView::Builtin(a), ExprView::Builtin(b)) => builtin_comparable(a, b),
        _ => true,
    }
}

/// Whether two applications of built-in operators can be compared.
pub open spec fn builtin_comparable(first: ExprBuiltinView, second: ExprBuiltinView) -> bool
    decreases first,
{
    match (first, second) {
        (
            ExprBuiltinView::Binary { op: a, left: a_left, right: a_right },
            ExprBuiltinView::Binary { op: b, left: b_left, right: b_right },
        ) => a != b || (comparable(*a_left, *b_left) && (!expr_eq(*a_left, *b_left) || comparable(
            *a_right,
            *b_right,
        ))),
        (
            ExprBuiltinView::Unary { op: a, operand: a_operand },
            ExprBuiltinView::Unary { op: b, operand: b_operand },
        ) => a != b || comparable(*a_operand, *b_operand),
        _ => true,
    }
}

impl Expr {
    /// Compares two expressions. Two host-supplied operators cannot be
    /// compared: the caller sees to it that the comparison meets no such
    /// pair.
    pub fn eq(&self, other: &Expr) -> (equal: bool)
        requires
            comparable(self@, other@),
        ensures
            equal == expr_eq(self@, other@),
        decreases self,
    {
        match (self, other) {
            (Expr::Dynamic { .. }, Expr::Dynamic { .. }) => unreached(),
            (Expr::Builtin(a), Expr::Builtin(b)) => a.eq(b),
            (Expr::Literal(a), Expr::Literal(b)) => a.eq(b),
            _ => false,
        }
    }
}

impl ExprBuiltin {
    /// Compares two applications of built-in operators: the operators first,
    /// then the operands from the left to the right, up to the first
    /// difference.
    pub fn eq(&self, other: &ExprBuiltin) -> (equal: bool)
        requires
            builtin_comparable(self@, other@),
        ensures
            equal == builtin_eq(self@, other@),
        decreases self,
    {
        match (self, other) {
            (
                ExprBuiltin::Binary { op: a, operand: a_operand },
                ExprBuiltin::Binary { op: b, operand: b_operand },
            ) => *a == *b && a_operand.0.eq(&b_operand.0) && a_operand.1.eq(&b_operand.1),
            (
                ExprBuiltin::Unary { op: a, operand: a_operand },
                ExprBuiltin::Unary { op: b, operand: b_operand },
            ) => *a == *b && a_operand.eq(b_operand),
            _ => false,
        }
    }
}

} // verus!
