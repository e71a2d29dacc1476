//! Infix expressions over unsigned integers: their tokens, their grammar and
//! their value.
//!
//! An expression is a sum of products of factors. A factor is a value or an
//! expression in parentheses. `*`, `/` and `%` bind tighter than `+` and `-`,
//! and operators of the same strength group from the left. The arithmetic is
//! that of `usize`: a result that `usize` cannot hold, a difference below
//! zero and a division by zero have no value. An expression is evaluated
//! while it is read: as soon as two operands and their operator are known,
//! the value of the three takes their place.

use crate::literal::{integer, parse_integer, to_core_size};
use vstd::prelude::*;

verus! {

/// The five operators of expressions.
#[derive(Debug, PartialEq, Eq, Structural, Copy, Clone)]
pub enum ExpressionOperator {
    Add,
    Sub,
    Mul,
    Div,
    Mod,
}

/// A token of an expression.
#[derive(Debug, PartialEq, Eq, Structural, Copy, Clone)]
pub enum ExpressionToken {
    Operator(ExpressionOperator),
    Value(usize),
    OpenParenthesis,
    CloseParenthesis,
}

/// An expression: a value, or two expressions joined by an operator.
#[derive(Debug)]
pub enum ExpressionTree {
    Leaf(usize),
    Node(Box<ExpressionTree>, Box<ExpressionTree>, ExpressionOperator),
}

impl ExpressionOperator {
    /// The operator that a text names.
    pub open spec fn named(s: Seq<char>) -> Option<ExpressionOperator> {
        if s == seq!['+'] {
            Some(ExpressionOperator::Add)
        } else if s == seq!['-'] {
            Some(ExpressionOperator::Sub)
        } else if s == seq!['*'] {
            Some(ExpressionOperator::Mul)
        } else if s == seq!['/'] {
            Some(ExpressionOperator::Div)
        } else if s == seq!['%'] {
            Some(ExpressionOperator::Mod)
        } else {
            None
        }
    }

    /// Whether the operator is one of the three that bind tighter.
    pub open spec fn is_strong(self) -> bool {
        self == ExpressionOperator::Mul || self == ExpressionOperator::Div || self
            == ExpressionOperator::Mod
    }

    /// What the operator makes of two numbers, where `usize` can hold it.
    pub open spec fn apply(self, left: int, right: int) -> Option<int> {
        match self {
            ExpressionOperator::Add => if left + right <= usize::MAX {
                Some(left + right)
            } else {
                None
            },
            ExpressionOperator::Sub => if left >= right {
                Some(left - right)
            } else {
                None
            },
            ExpressionOperator::Mul => if left * right <= usize::MAX {
                Some(left * right)
            } else {
                None
            },
            ExpressionOperator::Div => if right != 0 {
                Some(left / right)
            } else {
                None
            },
            ExpressionOperator::Mod => if right != 0 {
                Some(left % right)
            } else {
                None
            },
        }
    }

    /// Reads an operator.
    pub fn parse(s: &str) -> (r: Result<ExpressionOperator, String>)
        ensures
            match r {
                Ok(op) => Self::named(s@) == Some(op),
                Err(text) => Self::named(s@) is None && text@ == "Invalid operand "@ + s@,
            },
    {
        if s.unicode_len() == 1 {
            let c = s.get_char(0);
            proof {
                assert(s@ =~= seq![c]);
                assert(seq!['+'][0] == '+');
                assert(seq!['-'][0] == '-');
                assert(seq!['*'][0] == '*');
                assert(seq!['/'][0] == '/');
                assert(seq!['%'][0] == '%');
            }
            if c == '+' {
                return Ok(ExpressionOperator::Add);
            } else if c == '-' {
                return Ok(ExpressionOperator::Sub);
            } else if c == '*' {
                return Ok(ExpressionOperator::Mul);
            } else if c == '/' {
                return Ok(ExpressionOperator::Div);
            } else if c == '%' {
                return Ok(ExpressionOperator::Mod);
            }
        } else {
            proof {
                assert(seq!['+'].len() == 1);
                assert(seq!['-'].len() == 1);
                assert(seq!['*'].len() == 1);
                assert(seq!['/'].len() == 1);
                assert(seq!['%'].len() == 1);
            }
        }
        Err(String::from_str("Invalid operand ").concat(s))
    }

    /// Whether this operator binds tighter than the other.
    pub fn takes_precedence(self, other: ExpressionOperator) -> (r: bool)
        ensures
            r == (self.is_strong() && !other.is_strong()),
    {
        (self == ExpressionOperator::Mul || self == ExpressionOperator::Div || self
            == ExpressionOperator::Mod) && (other == ExpressionOperator::Add || other
            == ExpressionOperator::Sub)
    }

    /// Computes what the operator makes of two numbers.
    pub fn compute(self, left: usize, right: usize) -> (r: Option<usize>)
        ensures
            match r {
                Some(v) => self.apply(left as int, right as int) == Some(v as int),
                None => self.apply(left as int, right as int) is None,
            },
    {
        match self {
            ExpressionOperator::Add => if left <= usize::MAX - right {
                Some(left + right)
            } else {
                None
            },
            ExpressionOperator::Sub => if left >= right {
                Some(left - right)
            } else {
                None
            },
            ExpressionOperator::Mul => {
                let a: u128 = left as u128;
                let b: u128 = right as u128;
                assert(a * b <= u128::MAX) by (nonlinear_arith)
                    requires
                        a <= u64::MAX,
                        b <= u64::MAX,
                ;
                let product: u128 = a * b;
                if product <= usize::MAX as u128 {
                    Some(product as usize)
                } else {
                    None
                }
            },
            ExpressionOperator::Div => if right != 0 {
                Some(left / right)
            } else {
                None
            },
            ExpressionOperator::Mod => if right != 0 {
                Some(left % right)
            } else {
                None
            },
        }
    }
}

impl ExpressionToken {
    /// The token that a text names, in a core of `size` cells: an integer
    /// literal is the address it stands for.
    pub open spec fn named(s: Seq<char>, size: int) -> Option<ExpressionToken> {
        if let Some(n) = integer(s) {
            Some(ExpressionToken::Value((n % size) as usize))
        } else if let Some(op) = ExpressionOperator::named(s) {
            Some(ExpressionToken::Operator(op))
        } else if s == seq!['('] {
            Some(ExpressionToken::OpenParenthesis)
        } else if s == seq![')'] {
            Some(ExpressionToken::CloseParenthesis)
        } else {
            None
        }
    }

    /// Reads a token.
    pub fn parse<const CORE_SIZE: usize>(s: &str) -> (r: Result<ExpressionToken, String>)
        requires
            CORE_SIZE > 0,
        ensures
            match r {
                Ok(token) => Self::named(s@, CORE_SIZE as int) == Some(token),
                Err(text) => Self::named(s@, CORE_SIZE as int) is None && text@ == "Can't parse "@
                    + s@,
            },
    {
        if let Some(n) = parse_integer(s) {
            return Ok(ExpressionToken::Value(to_core_size::<CORE_SIZE>(n)));
        }
        if let Ok(o) = ExpressionOperator::parse(s) {
            return Ok(ExpressionToken::Operator(o));
        }
        if s.unicode_len() == 1 {
            let c = s.get_char(0);
            proof {
                assert(s@ =~= seq![c]);
                assert(seq!['('][0] == '(');
                assert(seq![')'][0] == ')');
            }
            if c == '(' {
                return Ok(ExpressionToken::OpenParenthesis);
            } else if c == ')' {
                return Ok(ExpressionToken::CloseParenthesis);
            }
        } else {
            proof {
                assert(seq!['('].len() == 1);
                assert(seq![')'].len() == 1);
            }
        }
        Err(String::from_str("Can't parse ").concat(s))
    }
}

impl ExpressionTree {
    /// The value of the expression, where every operation in it has one.
    pub open spec fn value(self) -> Option<int>
        decreases self,
    {
        match self {
            ExpressionTree::Leaf(v) => Some(v as int),
            ExpressionTree::Node(left, right, op) => match (left.value(), right.value()) {
                (Some(a), Some(b)) => op.apply(a, b),
                _ => None,
            },
        }
    }

    /// Computes the value of the expression.
    pub fn evaluate(&self) -> (r: Option<usize>)
        ensures
            match r {
                Some(v) => self.value() == Some(v as int),
                None => self.value() is None,
            },
        decreases self,
    {
        match self {
            ExpressionTree::Leaf(v) => Some(*v),
            ExpressionTree::Node(left, right, op) => {
                let a = left.evaluate();
                let b = right.evaluate();
                match (a, b) {
                    (Some(a), Some(b)) => op.compute(a, b),
                    _ => None,
                }
            },
        }
    }

    /// Joins two expressions by an operator and evaluates the whole at once:
    /// gives the leaf that holds its value, or nothing where it has none.
    pub fn create_node(left: ExpressionTree, right: ExpressionTree, op: ExpressionOperator) -> (r:
        Option<ExpressionTree>)
        ensures
            match r {
                Some(tree) => tree is Leaf && tree.value() == ExpressionTree::Node(
                    Box::new(left),
                    Box::new(right),
                    op,
                ).value(),
                None => ExpressionTree::Node(Box::new(left), Box::new(right), op).value() is None,
            },
    {
        match ExpressionTree::Node(Box::new(left), Box::new(right), op).evaluate() {
            Some(v) => Some(ExpressionTree::Leaf(v)),
            None => None,
        }
    }
}

/// The value of what was read, and the place of the token behind it.
pub type Reading = Option<(int, int)>;

/// The factor that begins at the place `at`: a value, or a sum in
/// parentheses. (Here and below, a reading that did not go forward counts
/// as none; there is no such reading, and the test shows that the
/// definitions end.)
pub open spec fn factor(ts: Seq<ExpressionToken>, at: int) -> Reading
    decreases ts.len() - at, 0nat,
{
    if 0 <= at < ts.len() {
        match ts[at] {
            ExpressionToken::Value(v) => Some((v as int, at + 1)),
            ExpressionToken::OpenParenthesis => match sum(ts, at + 1) {
                Some((inner, next)) if next < ts.len() && ts[next]
                    == ExpressionToken::CloseParenthesis => Some((inner, next + 1)),
                _ => None,
            },
            _ => None,
        }
    } else {
        None
    }
}

/// The product that goes on at the place `at`, `left` being the value of
/// what was read of it: as long as a strong operator follows, the factor
/// behind it joins the product from the right. A product without a value
/// ends the reading.
pub open spec fn product_rest(ts: Seq<ExpressionToken>, at: int, left: int) -> Reading
    decreases ts.len() - at, 1nat,
{
    if 0 <= at < ts.len() {
        match ts[at] {
            ExpressionToken::Operator(op) if op.is_strong() => match factor(ts, at + 1) {
                Some((right, next)) if at < next <= ts.len() => match op.apply(left, right) {
                    Some(joined) => product_rest(ts, next, joined),
                    None => None,
                },
                _ => None,
            },
            _ => Some((left, at)),
        }
    } else {
        Some((left, at))
    }
}

/// The product that begins at the place `at`.
pub open spec fn product(ts: Seq<ExpressionToken>, at: int) -> Reading
    decreases ts.len() - at, 2nat,
{
    match factor(ts, at) {
        Some((first, next)) if at < next <= ts.len() => product_rest(ts, next, first),
        _ => None,
    }
}

/// The sum that goes on at the place `at`, `left` being the value of what
/// was read of it: as long as `+` or `-` follows, the product behind it
/// joins the sum from the right. A sum without a value ends the reading.
pub open spec fn sum_rest(ts: Seq<ExpressionToken>, at: int, left: int) -> Reading
    decreases ts.len() - at, 3nat,
{
    if 0 <= at < ts.len() {
        match ts[at] {
            ExpressionToken::Operator(op) if !op.is_strong() => match product(ts, at + 1) {
                Some((right, next)) if at < next <= ts.len() => match op.apply(left, right) {
                    Some(joined) => sum_rest(ts, next, joined),
                    None => None,
                },
                _ => None,
            },
            _ => Some((left, at)),
        }
    } else {
        Some((left, at))
    }
}

/// The sum that begins at the place `at`.
pub open spec fn sum(ts: Seq<ExpressionToken>, at: int) -> Reading
    decreases ts.len() - at, 4nat,
{
    match product(ts, at) {
        Some((first, next)) if at < next <= ts.len() => sum_rest(ts, next, first),
        _ => None,
    }
}

/// The value of the expression that the tokens spell: that of a sum that
/// takes all of them.
pub open spec fn value_of(ts: Seq<ExpressionToken>) -> Option<int> {
    match sum(ts, 0) {
        Some((value, next)) if next == ts.len() => Some(value),
        _ => None,
    }
}

/// Whether what was read is the reading that the grammar gives: a leaf that
/// holds the value, and the place behind.
pub open spec fn agrees(read: Option<(ExpressionTree, usize)>, reading: Reading) -> bool {
    match read {
        Some((ExpressionTree::Leaf(v), next)) => reading == Some((v as int, next as int)),
        Some(_) => false,
        None => reading is None,
    }
}

/// Reads the factor that begins at the place `at`.
pub fn read_factor(ts: &Vec<ExpressionToken>, at: usize) -> (r: Option<(ExpressionTree, usize)>)
    ensures
        agrees(r, factor(ts@, at as int)),
        r matches Some((_, next)) ==> at < next <= ts@.len(),
    decreases ts@.len() - at, 0nat,
{
    if at >= ts.len() {
        return None;
    }
    match ts[at] {
        ExpressionToken::Value(v) => Some((ExpressionTree::Leaf(v), at + 1)),
        ExpressionToken::OpenParenthesis => match read_sum(ts, at + 1) {
            Some((inner, next)) => {
                if next < ts.len() {
                    match ts[next] {
                        ExpressionToken::CloseParenthesis => Some((inner, next + 1)),
                        _ => None,
                    }
                } else {
                    None
                }
            },
            None => None,
        },
        _ => None,
    }
}

/// Reads on in a product of which `left` holds the value.
pub fn read_product_rest(ts: &Vec<ExpressionToken>, at: usize, left: ExpressionTree) -> (r: Option<
    (ExpressionTree, usize),
>)
    requires
        at <= ts@.len(),
        left is Leaf,
    ensures
        agrees(r, product_rest(ts@, at as int, left.value().unwrap())),
        r matches Some((_, next)) ==> at <= next <= ts@.len(),
    decreases ts@.len() - at, 1nat,
{
    proof {
        reveal_with_fuel(ExpressionTree::value, 2);
    }
    if at >= ts.len() {
        return Some((left, at));
    }
    match ts[at] {
        ExpressionToken::Operator(op) => {
            if op.takes_precedence(ExpressionOperator::Add) {
                match read_factor(ts, at + 1) {
                    Some((right, next)) => match ExpressionTree::create_node(left, right, op) {
                        Some(joined) => read_product_rest(ts, next, joined),
                        None => None,
                    },
                    None => None,
                }
            } else {
                Some((left, at))
            }
        },
        _ => Some((left, at)),
    }
}

/// Reads the product that begins at the place `at`.
pub fn read_product(ts: &Vec<ExpressionToken>, at: usize) -> (r: Option<(ExpressionTree, usize)>)
    ensures
        agrees(r, product(ts@, at as int)),
        r matches Some((_, next)) ==> at < next <= ts@.len(),
    decreases ts@.len() - at, 2nat,
{
    match read_factor(ts, at) {
        Some((first, next)) => read_product_rest(ts, next, first),
        None => None,
    }
}

/// Reads on in a sum of which `left` holds the value.
pub fn read_sum_rest(ts: &Vec<ExpressionToken>, at: usize, left: ExpressionTree) -> (r: Option<
    (ExpressionTree, usize),
>)
    requires
        at <= ts@.len(),
        left is Leaf,
    ensures
        agrees(r, sum_rest(ts@, at as int, left.value().unwrap())),
        r matches Some((_, next)) ==> at <= next <= ts@.len(),
    decreases ts@.len() - at, 3nat,
{
    proof {
        reveal_with_fuel(ExpressionTree::value, 2);
    }
    if at >= ts.len() {
        return Some((left, at));
    }
    match ts[at] {
        ExpressionToken::Operator(op) => {
            if !op.takes_precedence(ExpressionOperator::Add) {
                match read_product(ts, at + 1) {
                    Some((right, next)) => match ExpressionTree::create_node(left, right, op) {
                        Some(joined) => read_sum_rest(ts, next, joined),
                        None => None,
                    },
                    None => None,
                }
            } else {
                Some((left, at))
            }
        },
        _ => Some((left, at)),
    }
}

/// Reads the sum that begins at the place `at`.
pub fn read_sum(ts: &Vec<ExpressionToken>, at: usize) -> (r: Option<(ExpressionTree, usize)>)
    ensures
        agrees(r, sum(ts@, at as int)),
        r matches Some((_, next)) ==> at < next <= ts@.len(),
    decreases ts@.len() - at, 4nat,
{
    match read_product(ts, at) {
        Some((first, next)) => read_sum_rest(ts, next, first),
        None => None,
    }
}

/// Reads the expression that the tokens spell, and gives the leaf that
/// holds its value.
pub fn read_expression(ts: &Vec<ExpressionToken>) -> (r: Option<ExpressionTree>)
    ensures
        match r {
            Some(tree) => tree is Leaf && tree.value() == value_of(ts@),
            None => value_of(ts@) is None,
        },
{
    match read_sum(ts, 0) {
        Some((tree, next)) => {
            if next == ts.len() {
                Some(tree)
            } else {
                None
            }
        },
        None => None,
    }
}

/// Computes the value of the expression that the tokens spell.
pub fn evaluate_tokens(ts: &Vec<ExpressionToken>) -> (r: Option<usize>)
    ensures
        match r {
            Some(v) => value_of(ts@) == Some(v as int),
            None => value_of(ts@) is None,
        },
{
    match read_expression(ts) {
        Some(tree) => tree.evaluate(),
        None => None,
    }
}

} // verus!
