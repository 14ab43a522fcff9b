//! Polynomial expressions over the cells of a table, and their evaluation.

use crate::field::{add_mod, mul_mod, neg_mod, Fe};
use crate::table::{AssignmentTable, Value};
use vstd::prelude::*;

verus! {

/// A polynomial over the cells around a row.
#[derive(Debug, PartialEq, Eq)]
pub enum Expression {
    /// A fixed scalar.
    Constant(Fe),
    /// The bit of a selector at the current row, as `0` or `1`.
    Selector(usize),
    /// The advice cell of a column, `rotation` rows from the current one.
    Advice(usize, i32),
    Neg(Box<Expression>),
    Sum(Box<Expression>, Box<Expression>),
    Product(Box<Expression>, Box<Expression>),
}

/// Why an expression has no value at a row.
#[derive(Clone, Copy, Debug, PartialEq, Eq)]
pub enum EvalError {
    /// A cell that the expression reads holds no known value.
    CellUnassigned,
    /// A rotation leads out of the table.
    RowOutOfRange,
}

/// An advice cell as an expression names it: column and rotation.
pub type Query = (usize, i32);

/// `seen` with `q` behind it, unless it is there already.
pub open spec fn note(seen: Seq<Query>, q: Query) -> Seq<Query> {
    if seen.contains(q) {
        seen
    } else {
        seen.push(q)
    }
}

impl Expression {
    /// The expression names only the first `columns` advice columns and the
    /// first `selectors` selectors, and its constants are canonical.
    pub open spec fn fits(&self, columns: nat, selectors: nat) -> bool
        decreases self,
    {
        match self {
            Expression::Constant(c) => c.wf(),
            Expression::Selector(s) => *s < selectors,
            Expression::Advice(c, _) => *c < columns,
            Expression::Neg(a) => a.fits(columns, selectors),
            Expression::Sum(a, b) => a.fits(columns, selectors) && b.fits(columns, selectors),
            Expression::Product(a, b) => a.fits(columns, selectors) && b.fits(columns, selectors),
        }
    }

    /// The value of the expression at `row` of `table`: a scalar, or the
    /// first error met when the operands are taken from left to right.
    pub open spec fn eval(&self, table: &AssignmentTable, row: int) -> Result<nat, EvalError>
        decreases self,
    {
        match self {
            Expression::Constant(c) => Ok(c@),
            Expression::Selector(s) => Ok(
                if table.enabled(*s as int, row) {
                    1nat
                } else {
                    0nat
                },
            ),
            Expression::Advice(c, rotation) => {
                if 0 <= row + *rotation < table.num_rows {
                    match table.cell(*c as int, row + *rotation) {
                        Value::Known(v) => Ok(v@),
                        Value::Unknown => Err(EvalError::CellUnassigned),
                    }
                } else {
                    Err(EvalError::RowOutOfRange)
                }
            },
            Expression::Neg(a) => match a.eval(table, row) {
                Ok(x) => Ok(neg_mod(x)),
                Err(e) => Err(e),
            },
            Expression::Sum(a, b) => match a.eval(table, row) {
                Ok(x) => match b.eval(table, row) {
                    Ok(y) => Ok(add_mod(x, y)),
                    Err(e) => Err(e),
                },
                Err(e) => Err(e),
            },
            Expression::Product(a, b) => match a.eval(table, row) {
                Ok(x) => match b.eval(table, row) {
                    Ok(y) => Ok(mul_mod(x, y)),
                    Err(e) => Err(e),
                },
                Err(e) => Err(e),
            },
        }
    }

    /// `seen`, followed by the advice cells that the expression names and
    /// `seen` lacks: each once, in the order in which the expression first
    /// names them.
    pub open spec fn reads(&self, seen: Seq<Query>) -> Seq<Query>
        decreases self,
    {
        match self {
            Expression::Constant(_) => seen,
            Expression::Selector(_) => seen,
            Expression::Advice(c, rotation) => note(seen, (*c, *rotation)),
            Expression::Neg(a) => a.reads(seen),
            Expression::Sum(a, b) => b.reads(a.reads(seen)),
            Expression::Product(a, b) => b.reads(a.reads(seen)),
        }
    }

    /// `a - b`, as the sum of `a` and the negation of `b`.
    pub open spec fn minus(a: Expression, b: Expression) -> Expression {
        Expression::Sum(Box::new(a), Box::new(Expression::Neg(Box::new(b))))
    }

    /// `a * b`.
    pub open spec fn times(a: Expression, b: Expression) -> Expression {
        Expression::Product(Box::new(a), Box::new(b))
    }

    /// A copy of the expression.
    pub fn duplicate(&self) -> (r: Expression)
        ensures
            r == *self,
        decreases self,
    {
        match self {
            Expression::Constant(c) => Expression::Constant(*c),
            Expression::Selector(s) => Expression::Selector(*s),
            Expression::Advice(c, rotation) => Expression::Advice(*c, *rotation),
            Expression::Neg(a) => Expression::Neg(Box::new(a.duplicate())),
            Expression::Sum(a, b) => Expression::Sum(Box::new(a.duplicate()), Box::new(b.duplicate())),
            Expression::Product(a, b) => Expression::Product(
                Box::new(a.duplicate()),
                Box::new(b.duplicate()),
            ),
        }
    }

    /// Evaluates the expression at `row` of `table`.
    pub fn evaluate(&self, table: &AssignmentTable, row: usize) -> (r: Result<Fe, EvalError>)
        requires
            table.wf(),
            self.fits(table.num_columns(), table.num_selectors()),
            row < table.num_rows,
        ensures
            match r {
                Ok(v) => v.wf() && self.eval(table, row as int) == Ok::<nat, EvalError>(v@),
                Err(e) => self.eval(table, row as int) == Err::<nat, EvalError>(e),
            },
        decreases self,
    {
        match self {
            Expression::Constant(c) => Ok(*c),
            Expression::Selector(s) => {
                if table.selectors[*s][row] {
                    Ok(Fe::from_u64(1))
                } else {
                    Ok(Fe::from_u64(0))
                }
            },
            Expression::Advice(c, rotation) => {
                let target: i128 = row as i128 + *rotation as i128;
                if 0 <= target && target < table.num_rows as i128 {
                    match table.advice[*c][target as usize] {
                        Value::Known(v) => Ok(v),
                        Value::Unknown => Err(EvalError::CellUnassigned),
                    }
                } else {
                    Err(EvalError::RowOutOfRange)
                }
            },
            Expression::Neg(a) => match a.evaluate(table, row) {
                Ok(x) => Ok(x.neg()),
                Err(e) => Err(e),
            },
            Expression::Sum(a, b) => match a.evaluate(table, row) {
                Ok(x) => match b.evaluate(table, row) {
                    Ok(y) => Ok(x.add(&y)),
                    Err(e) => Err(e),
                },
                Err(e) => Err(e),
            },
            Expression::Product(a, b) => match a.evaluate(table, row) {
                Ok(x) => match b.evaluate(table, row) {
                    Ok(y) => Ok(x.mul(&y)),
                    Err(e) => Err(e),
                },
                Err(e) => Err(e),
            },
        }
    }

    /// Adds to `seen` the advice cells that the expression names and `seen`
    /// lacks, in the order in which the expression first names them.
    pub fn collect_reads(&self, seen: &mut Vec<Query>)
        ensures
            final(seen)@ == self.reads(old(seen)@),
        decreases self,
    {
        match self {
            Expression::Constant(_) => {},
            Expression::Selector(_) => {},
            Expression::Advice(c, rotation) => {
                let mut found = false;
                let mut i: usize = 0;
                while i < seen.len()
                    invariant
                        i <= seen@.len(),
                        *seen == *old(seen),
                        found == exists|j: int| 0 <= j < i && seen@[j] == (*c, *rotation),
                    decreases seen@.len() - i,
                {
                    if seen[i].0 == *c && seen[i].1 == *rotation {
                        found = true;
                    }
                    i += 1;
                }
                if !found {
                    seen.push((*c, *rotation));
                }
            },
            Expression::Neg(a) => a.collect_reads(seen),
            Expression::Sum(a, b) => {
                a.collect_reads(seen);
                b.collect_reads(seen);
            },
            Expression::Product(a, b) => {
                a.collect_reads(seen);
                b.collect_reads(seen);
            },
        }
    }
}

/// The cell that `q` names from `row` lies in the table and holds a known
/// value.
pub open spec fn readable(table: &AssignmentTable, row: int, q: Query) -> bool {
    &&& 0 <= row + q.1 < table.num_rows
    &&& table.cell(q.0 as int, row + q.1) is Known
}

/// What an expression that fits reads lies in the columns it fits.
pub proof fn lemma_reads_fit(e: &Expression, seen: Seq<Query>, columns: nat, selectors: nat)
    requires
        e.fits(columns, selectors),
        forall|i: int| 0 <= i < seen.len() ==> (#[trigger] seen[i]).0 < columns,
    ensures
        forall|i: int| 0 <= i < e.reads(seen).len() ==> (#[trigger] e.reads(seen)[i]).0 < columns,
    decreases e,
{
    match e {
        Expression::Neg(a) => {
            lemma_reads_fit(a, seen, columns, selectors);
            assert(e.reads(seen) == a.reads(seen));
        },
        Expression::Sum(a, b) => {
            lemma_reads_fit(a, seen, columns, selectors);
            lemma_reads_fit(b, a.reads(seen), columns, selectors);
            assert(e.reads(seen) == b.reads(a.reads(seen)));
        },
        Expression::Product(a, b) => {
            lemma_reads_fit(a, seen, columns, selectors);
            lemma_reads_fit(b, a.reads(seen), columns, selectors);
            assert(e.reads(seen) == b.reads(a.reads(seen)));
        },
        Expression::Advice(c, rotation) => {
            let r = note(seen, (*c, *rotation));
            assert forall|i: int| 0 <= i < r.len() implies (#[trigger] r[i]).0 < columns by {
                if i < seen.len() {
                    assert(r[i] == seen[i]);
                }
            }
        },
        _ => {},
    }
}

/// An expression that has a value at a row reads only cells that lie in the
/// table and are known.
pub proof fn lemma_reads_known(e: &Expression, seen: Seq<Query>, table: &AssignmentTable, row: int)
    requires
        e.eval(table, row) is Ok,
        forall|i: int| 0 <= i < seen.len() ==> readable(table, row, #[trigger] seen[i]),
    ensures
        forall|i: int| 0 <= i < e.reads(seen).len() ==> readable(table, row, #[trigger] e.reads(seen)[i]),
    decreases e,
{
    match e {
        Expression::Neg(a) => {
            lemma_reads_known(a, seen, table, row);
            assert(e.reads(seen) == a.reads(seen));
        },
        Expression::Sum(a, b) => {
            lemma_reads_known(a, seen, table, row);
            lemma_reads_known(b, a.reads(seen), table, row);
            assert(e.reads(seen) == b.reads(a.reads(seen)));
        },
        Expression::Product(a, b) => {
            lemma_reads_known(a, seen, table, row);
            lemma_reads_known(b, a.reads(seen), table, row);
            assert(e.reads(seen) == b.reads(a.reads(seen)));
        },
        Expression::Advice(c, rotation) => {
            let r = note(seen, (*c, *rotation));
            assert forall|i: int| 0 <= i < r.len() implies readable(table, row, #[trigger] r[i]) by {
                if i < seen.len() {
                    assert(r[i] == seen[i]);
                }
            }
        },
        _ => {},
    }
}

} // verus!
