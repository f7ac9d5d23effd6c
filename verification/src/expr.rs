//! Count expressions: how many rows a counted block has, as a function of
//! the fields read before it.
//!
//! An expression is written as text. It may name a field, hold a decimal
//! number, and combine these with `+`, `-`, `*`, `/`, `%` and parentheses.

use crate::error::{agrees, ExpressionError};
use crate::number::{integer, parse_integer};
use crate::text::same_text;
use crate::value::{FieldValueModel, FieldValue, LineValueModel, LineValue, Scalar, ScalarModel};
use crate::syntax::{
    admitted, expr_contents, expr_shape, expression_read, is_admitted, operator_of, read_expr,
    ExprShape,
};
use syn::Expr;
use vstd::prelude::*;
use vstd::string::StrSliceExecFns;

verus! {

/// The most levels of operations and parentheses an expression may have.
pub const MAX_DEPTH: usize = 16;

/// An operation on two counts.
#[derive(Debug, Clone, Copy, PartialEq, Eq, Structural)]
pub enum Operator {
    Plus,
    Minus,
    Times,
    /// Division, rounded towards zero.
    Over,
    /// The remainder of division.
    Modulo,
}

/// A count expression.
#[derive(Debug, PartialEq, Eq)]
pub enum CountExpr {
    /// A number.
    Literal(usize),
    /// The value of the field of this name.
    Field(String),
    /// An operation on two expressions.
    Binary(Operator, Box<CountExpr>, Box<CountExpr>),
}

/// What a `CountExpr` holds.
pub ghost enum CountModel {
    Literal(usize),
    Field(Seq<char>),
    Binary(Operator, Box<CountModel>, Box<CountModel>),
}

/// What the expression `e` holds.
pub open spec fn model_of(e: CountExpr) -> CountModel
    decreases e,
{
    match e {
        CountExpr::Literal(v) => CountModel::Literal(v),
        CountExpr::Field(name) => CountModel::Field(name@),
        CountExpr::Binary(op, left, right) => CountModel::Binary(
            op,
            Box::new(model_of(*left)),
            Box::new(model_of(*right)),
        ),
    }
}

impl DeepView for CountExpr {
    type V = CountModel;

    open spec fn deep_view(&self) -> CountModel {
        model_of(*self)
    }
}

/// The number that an integer literal stands for, given its digits in base
/// ten and its suffix: the number that the digits spell, where it fits a
/// `usize` and the suffix is none or `usize`.
pub open spec fn number_of(digits: Seq<char>, suffix: Seq<char>) -> Result<usize, ExpressionError> {
    if suffix.len() != 0 && suffix != "usize"@ {
        Err(ExpressionError::Literal)
    } else {
        match integer(digits, 0, usize::MAX as int) {
            Ok(v) => Ok(v as usize),
            Err(_) => Err(ExpressionError::Literal),
        }
    }
}

impl CountExpr {
    /// A copy of this expression.
    pub fn copy(&self) -> (other: CountExpr)
        ensures
            other.deep_view() == self.deep_view(),
        decreases self,
    {
        match self {
            CountExpr::Literal(v) => CountExpr::Literal(*v),
            CountExpr::Field(name) => CountExpr::Field(name.clone()),
            CountExpr::Binary(op, left, right) => CountExpr::Binary(
                *op,
                Box::new(left.copy()),
                Box::new(right.copy()),
            ),
        }
    }
}

/// The number that an integer literal stands for, given its digits in base
/// ten and its suffix.
pub fn number(digits: &str, suffix: &str) -> (r: Result<usize, ExpressionError>)
    ensures
        r == number_of(digits@, suffix@),
{
    if suffix.unicode_len() != 0 && !same_text(suffix, "usize") {
        return Err(ExpressionError::Literal);
    }
    match parse_integer(digits, 0, usize::MAX as u128) {
        Ok((_, magnitude)) => Ok(magnitude as usize),
        Err(_) => Err(ExpressionError::Literal),
    }
}

/// An expression as it is written: what each of its nodes holds.
#[derive(Debug, PartialEq, Eq)]
pub enum ExprTree {
    /// A single name.
    Name(String),
    /// An integer: its digits in base ten, and its suffix.
    Number(String, String),
    /// A binary operation: the operation, where it is one of arithmetic,
    /// then the left and right operands.
    Binary(Option<Operator>, Box<ExprTree>, Box<ExprTree>),
    /// An expression in parentheses: what stands inside.
    Nested(Box<ExprTree>),
    /// Anything else.
    Other,
    /// What lies below `MAX_DEPTH` levels of operations and parentheses.
    Deep,
}

/// What an `ExprTree` holds.
pub ghost enum TreeModel {
    Name(Seq<char>),
    Number(Seq<char>, Seq<char>),
    Binary(Option<Operator>, Box<TreeModel>, Box<TreeModel>),
    Nested(Box<TreeModel>),
    Other,
    Deep,
}

/// What the tree `t` holds.
pub open spec fn tree_model(t: ExprTree) -> TreeModel
    decreases t,
{
    match t {
        ExprTree::Name(name) => TreeModel::Name(name@),
        ExprTree::Number(digits, suffix) => TreeModel::Number(digits@, suffix@),
        ExprTree::Binary(op, left, right) => TreeModel::Binary(
            op,
            Box::new(tree_model(*left)),
            Box::new(tree_model(*right)),
        ),
        ExprTree::Nested(inner) => TreeModel::Nested(Box::new(tree_model(*inner))),
        ExprTree::Other => TreeModel::Other,
        ExprTree::Deep => TreeModel::Deep,
    }
}

impl DeepView for ExprTree {
    type V = TreeModel;

    open spec fn deep_view(&self) -> TreeModel {
        tree_model(*self)
    }
}

/// The count expression that an expression as written stands for. A name is
/// a field, an integer a number, an operation of arithmetic on two counts
/// an operation, and parentheses stand for what is inside them. Nothing
/// else is a count. Of two operands that are none, the fault of the left
/// one is reported.
pub open spec fn counted(t: TreeModel) -> Result<CountModel, ExpressionError>
    decreases t,
{
    match t {
        TreeModel::Name(name) => Ok(CountModel::Field(name)),
        TreeModel::Number(digits, suffix) => match number_of(digits, suffix) {
            Ok(v) => Ok(CountModel::Literal(v)),
            Err(e) => Err(e),
        },
        TreeModel::Binary(op, left, right) => match op {
            None => Err(ExpressionError::Unsupported),
            Some(op) => match counted(*left) {
                Err(e) => Err(e),
                Ok(l) => match counted(*right) {
                    Err(e) => Err(e),
                    Ok(r) => Ok(CountModel::Binary(op, Box::new(l), Box::new(r))),
                },
            },
        },
        TreeModel::Nested(inner) => counted(*inner),
        TreeModel::Other => Err(ExpressionError::Unsupported),
        TreeModel::Deep => Err(ExpressionError::TooDeep),
    }
}

/// The count expression that an expression as written stands for.
pub fn count_of(t: &ExprTree) -> (r: Result<CountExpr, ExpressionError>)
    ensures
        agrees(r, counted(t.deep_view())),
    decreases t,
{
    match t {
        ExprTree::Name(name) => Ok(CountExpr::Field(name.clone())),
        ExprTree::Number(digits, suffix) => match number(digits.as_str(), suffix.as_str()) {
            Ok(v) => Ok(CountExpr::Literal(v)),
            Err(e) => Err(e),
        },
        ExprTree::Binary(op, left, right) => {
            let op = match op {
                Some(op) => *op,
                None => return Err(ExpressionError::Unsupported),
            };
            let left = match count_of(left) {
                Ok(left) => left,
                Err(e) => return Err(e),
            };
            let right = match count_of(right) {
                Ok(right) => right,
                Err(e) => return Err(e),
            };
            Ok(CountExpr::Binary(op, Box::new(left), Box::new(right)))
        },
        ExprTree::Nested(inner) => count_of(inner),
        ExprTree::Other => Err(ExpressionError::Unsupported),
        ExprTree::Deep => Err(ExpressionError::TooDeep),
    }
}

/// The expression `t` down to `depth` levels of operations and
/// parentheses: what lies below them is cut off.
pub open spec fn cut(t: TreeModel, depth: nat) -> TreeModel
    decreases depth,
{
    match t {
        TreeModel::Binary(op, left, right) => if depth == 0 {
            TreeModel::Deep
        } else {
            TreeModel::Binary(
                op,
                Box::new(cut(*left, (depth - 1) as nat)),
                Box::new(cut(*right, (depth - 1) as nat)),
            )
        },
        TreeModel::Nested(inner) => if depth == 0 {
            TreeModel::Deep
        } else {
            TreeModel::Nested(Box::new(cut(*inner, (depth - 1) as nat)))
        },
        _ => t,
    }
}

/// The expression that `text` spells, as written, down to `MAX_DEPTH`
/// levels: that which `syn` finds in it, where the text is admitted and
/// `syn` finds one.
pub open spec fn tree_read(text: Seq<char>) -> Option<TreeModel> {
    if !admitted(text) {
        None
    } else {
        match expression_read(text) {
            Some(t) => Some(cut(t, MAX_DEPTH as nat)),
            None => None,
        }
    }
}

/// The count expression that `text` spells. A text that is not admitted is
/// refused; one in which `syn` finds no expression is invalid; else the
/// expression that `syn` finds stands for a count, or is none.
pub open spec fn count_read(text: Seq<char>) -> Result<CountModel, ExpressionError> {
    if !admitted(text) {
        Err(ExpressionError::Refused)
    } else {
        match tree_read(text) {
            Some(t) => counted(t),
            None => Err(ExpressionError::Invalid),
        }
    }
}

/// The expression that the tree `e` holds, as written, down to `depth`
/// levels of operations and parentheses.
pub(crate) fn tree_of(e: &Expr, depth: usize) -> (r: ExprTree)
    ensures
        r.deep_view() == cut(expr_contents(*e), depth as nat),
    decreases depth,
{
    match expr_shape(e) {
        ExprShape::Name(name) => ExprTree::Name(name),
        ExprShape::Number(digits, suffix) => ExprTree::Number(digits, suffix),
        ExprShape::Binary(op, left, right) => {
            if depth == 0 {
                ExprTree::Deep
            } else {
                ExprTree::Binary(
                    operator_of(&op),
                    Box::new(tree_of(&left, depth - 1)),
                    Box::new(tree_of(&right, depth - 1)),
                )
            }
        },
        ExprShape::Nested(inner) => {
            if depth == 0 {
                ExprTree::Deep
            } else {
                ExprTree::Nested(Box::new(tree_of(&inner, depth - 1)))
            }
        },
        ExprShape::Other => ExprTree::Other,
    }
}

/// The expression that `text` spells, as written. A text that is not
/// admitted is not read.
pub fn read_count(text: &str) -> (r: Option<ExprTree>)
    ensures
        r.deep_view() == tree_read(text@),
{
    if !is_admitted(text) {
        return None;
    }
    match read_expr(text) {
        Some(e) => Some(tree_of(&e, MAX_DEPTH)),
        None => None,
    }
}

/// Reads `text` as a count expression.
pub fn parse_count(text: &str) -> (r: Result<CountExpr, ExpressionError>)
    ensures
        agrees(r, count_read(text@)),
{
    if !is_admitted(text) {
        return Err(ExpressionError::Refused);
    }
    match read_count(text) {
        Some(tree) => count_of(&tree),
        None => Err(ExpressionError::Invalid),
    }
}

/// The position of the first of `names` that is `name`.
pub open spec fn position(names: Seq<Seq<char>>, name: Seq<char>) -> Option<int>
    decreases names.len(),
{
    if names.len() == 0 {
        None
    } else {
        match position(names.drop_last(), name) {
            Some(i) => Some(i),
            None => if names.last() == name {
                Some(names.len() - 1)
            } else {
                None
            },
        }
    }
}

/// The count that a field's value stands for: the value of a field that
/// holds a single integer, where that is not negative and fits a `usize`.
pub open spec fn as_count(value: FieldValueModel) -> Option<nat> {
    match value {
        FieldValueModel::Line(LineValueModel::Single(ScalarModel::Unsigned(v))) => if v <= usize::MAX {
            Some(v as nat)
        } else {
            None
        },
        FieldValueModel::Line(LineValueModel::Single(ScalarModel::Signed(v))) => if 0 <= v <= usize::MAX {
            Some(v as nat)
        } else {
            None
        },
        _ => None,
    }
}

/// The result of an operation on two counts, where it is a count itself:
/// not negative, no larger than a `usize` can hold, and not the result of a
/// division by zero.
pub open spec fn apply(op: Operator, a: nat, b: nat) -> Option<nat> {
    match op {
        Operator::Plus => if a + b <= usize::MAX {
            Some(a + b)
        } else {
            None
        },
        Operator::Minus => if a >= b {
            Some((a - b) as nat)
        } else {
            None
        },
        Operator::Times => if a * b <= usize::MAX {
            Some(a * b)
        } else {
            None
        },
        Operator::Over => if b != 0 {
            Some(a / b)
        } else {
            None
        },
        Operator::Modulo => if b != 0 {
            Some(a % b)
        } else {
            None
        },
    }
}

/// The count that `e` comes to, given the fields bound so far: `values` in
/// the order of declaration, under the names `names`. A name stands for the
/// first field of that name, and only a field that is bound can be read. An
/// operation that leaves the counts fails, whatever follows it.
pub open spec fn eval(e: CountModel, names: Seq<Seq<char>>, values: Seq<FieldValueModel>) -> Option<
    nat,
>
    decreases e,
{
    match e {
        CountModel::Literal(v) => Some(v as nat),
        CountModel::Field(name) => match position(names, name) {
            Some(i) => if i < values.len() {
                as_count(values[i])
            } else {
                None
            },
            None => None,
        },
        CountModel::Binary(op, left, right) => match eval(*left, names, values) {
            None => None,
            Some(a) => match eval(*right, names, values) {
                None => None,
                Some(b) => apply(op, a, b),
            },
        },
    }
}

/// A name found among the first names is found there among all.
pub proof fn lemma_position_stays(names: Seq<Seq<char>>, name: Seq<char>, k: int)
    requires
        0 <= k <= names.len(),
        position(names.take(k), name) is Some,
    ensures
        position(names, name) == position(names.take(k), name),
    decreases names.len() - k,
{
    if k == names.len() {
        assert(names.take(k) =~= names);
    } else {
        assert(names.drop_last().take(k) =~= names.take(k));
        lemma_position_stays(names.drop_last(), name, k);
    }
}

/// The position of the first of `names` that is `name`.
pub fn find(names: &Vec<String>, name: &str) -> (r: Option<usize>)
    ensures
        match r {
            Some(i) => position(names.deep_view(), name@) == Some(i as int),
            None => position(names.deep_view(), name@) is None,
        },
{
    let ghost all = names.deep_view();
    let mut i: usize = 0;
    assert(all.take(0) =~= Seq::<Seq<char>>::empty());
    while i < names.len()
        invariant
            i <= names.len(),
            all == names.deep_view(),
            position(all.take(i as int), name@) is None,
        decreases names.len() - i,
    {
        proof {
            assert(all.take(i + 1).drop_last() =~= all.take(i as int));
            assert(all.take(i + 1).last() == names@[i as int]@);
        }
        if same_text(names[i].as_str(), name) {
            proof {
                lemma_position_stays(all, name@, i + 1);
            }
            return Some(i);
        }
        i += 1;
    }
    assert(all.take(i as int) =~= all);
    None
}

/// The count that a field's value stands for.
pub fn count_of_value(value: &FieldValue) -> (r: Option<usize>)
    ensures
        match r {
            Some(n) => as_count(value.deep_view()) == Some(n as nat),
            None => as_count(value.deep_view()) is None,
        },
{
    match value {
        FieldValue::Line(LineValue::Single(Scalar::Unsigned(v))) => {
            if *v <= usize::MAX as u128 {
                Some(*v as usize)
            } else {
                None
            }
        },
        FieldValue::Line(LineValue::Single(Scalar::Signed(v))) => {
            if 0 <= *v && *v <= usize::MAX as i128 {
                Some(*v as usize)
            } else {
                None
            }
        },
        _ => None,
    }
}

/// The result of an operation on two counts, where it is a count itself.
pub fn apply_operator(op: Operator, a: usize, b: usize) -> (r: Option<usize>)
    ensures
        match r {
            Some(n) => apply(op, a as nat, b as nat) == Some(n as nat),
            None => apply(op, a as nat, b as nat) is None,
        },
{
    match op {
        Operator::Plus => a.checked_add(b),
        Operator::Minus => a.checked_sub(b),
        Operator::Times => a.checked_mul(b),
        Operator::Over => if b != 0 {
            Some(a / b)
        } else {
            None
        },
        Operator::Modulo => if b != 0 {
            Some(a % b)
        } else {
            None
        },
    }
}

/// The count that `e` comes to, given the fields bound so far.
pub fn evaluate(e: &CountExpr, names: &Vec<String>, values: &Vec<FieldValue>) -> (r: Option<usize>)
    ensures
        match r {
            Some(n) => eval(e.deep_view(), names.deep_view(), values.deep_view()) == Some(n as nat),
            None => eval(e.deep_view(), names.deep_view(), values.deep_view()) is None,
        },
    decreases e,
{
    match e {
        CountExpr::Literal(v) => Some(*v),
        CountExpr::Field(name) => match find(names, name.as_str()) {
            Some(i) => {
                if i < values.len() {
                    count_of_value(&values[i])
                } else {
                    None
                }
            },
            None => None,
        },
        CountExpr::Binary(op, left, right) => {
            let a = match evaluate(left, names, values) {
                Some(a) => a,
                None => return None,
            };
            let b = match evaluate(right, names, values) {
                Some(b) => b,
                None => return None,
            };
            apply_operator(*op, a, b)
        },
    }
}

} // verus!
