//! The range-check gate: a witness `v` lies in `[0, RANGE)` exactly when
//! `v * (1 - v) * (2 - v) * ... * (RANGE - 1 - v)` is zero.
//!
//! A range of zero has no such polynomial, and `configure` rejects it.

use crate::expr::{note, EvalError, Expression, Query};
use crate::field::{add_mod, hex_text, modulus, mul_mod, neg_mod, Fe};
use crate::prover::{
    cell_views, constraint_failure, constraints_failures, gate_failures, lemma_quiet_rows,
    lemma_rows_for_grows, row_count,
    row_failures, rows_for, table_failures, CellView, FailureKind, FailureView, MockProver,
};
use crate::system::{lemma_fits_grows, Constraint, ConstraintSystem, Gate};
use crate::table::{AssignError, AssignmentTable, Value};
use vstd::prelude::*;
use vstd::string::*;

verus! {

/// Where a range check lives in a constraint system.
#[derive(Clone, Copy, Debug, PartialEq, Eq)]
pub struct MyConfig {
    pub advice_column: usize,
    pub q_range_check: usize,
}

/// One witness to be checked against `[0, RANGE)`.
#[derive(Clone, Copy, Debug)]
pub struct MyCircuit<const RANGE: usize> {
    pub assigned_value: Value,
}

/// Why a circuit could not be set up.
#[derive(Clone, Copy, Debug, PartialEq, Eq)]
pub enum CircuitError {
    /// The range is zero: no value could lie in it.
    EmptyRange,
    /// Two to the `k` is more than a `usize` holds.
    TooManyRows,
}

/// The value at `v` of the polynomial for `range`:
/// `v * (1 - v) * ... * (range - 1 - v)` in the field.
pub open spec fn range_value(v: nat, range: nat) -> nat
    decreases range,
{
    if range <= 1 {
        v
    } else {
        mul_mod(range_value(v, (range - 1) as nat), add_mod((range - 1) as nat, neg_mod(v)))
    }
}

impl Expression {
    /// The expression is `i - value`, for the advice cell of `column` at the
    /// current row as `value`.
    pub open spec fn is_offset(&self, column: usize, i: nat) -> bool {
        match self {
            Expression::Sum(c, n) => {
                &&& match **c {
                    Expression::Constant(k) => k.wf() && k@ == i,
                    _ => false,
                }
                &&& **n == Expression::Neg(Box::new(Expression::Advice(column, 0)))
            },
            _ => false,
        }
    }

    /// The expression is the polynomial for `range`, built from the left:
    /// `value` for a range of one, and for a longer range the polynomial of
    /// the range one shorter, times `(range - 1) - value`.
    pub open spec fn is_range_poly(&self, column: usize, range: nat) -> bool
        decreases range,
    {
        if range <= 1 {
            *self == Expression::Advice(column, 0)
        } else {
            match self {
                Expression::Product(a, b) => a.is_range_poly(column, (range - 1) as nat) && b.is_offset(
                    column,
                    (range - 1) as nat,
                ),
                _ => false,
            }
        }
    }
}

/// `gate` is the range check for `range` on `column`, behind `selector`:
/// one constraint, gate and constraint both named `range check`.
pub open spec fn is_range_gate(gate: &Gate, column: usize, selector: usize, range: nat) -> bool {
    &&& gate.name@ == "range check"@
    &&& gate.selector == selector
    &&& gate.constraints@.len() == 1
    &&& gate.constraints@[0].name@ == "range check"@
    &&& gate.constraints@[0].poly.is_range_poly(column, range)
}

/// Builds the polynomial for `range` over the advice cell of `column`.
pub fn range_polynomial(column: usize, range: usize) -> (e: Expression)
    requires
        range >= 1,
    ensures
        e.is_range_poly(column, range as nat),
        e.fits((column + 1) as nat, 0),
{
    let value = Expression::Advice(column, 0);
    let mut expr = value.duplicate();
    let mut i: usize = 1;
    while i < range
        invariant
            1 <= i <= range,
            value == Expression::Advice(column, 0),
            expr.is_range_poly(column, i as nat),
            expr.fits((column + 1) as nat, 0),
        decreases range - i,
    {
        let constant = Expression::Constant(Fe::from_u64(i as u64));
        let negated = Expression::Neg(Box::new(value.duplicate()));
        assert(constant.fits((column + 1) as nat, 0));
        assert(value.fits((column + 1) as nat, 0));
        assert(negated.fits((column + 1) as nat, 0));
        let shift = Expression::Sum(Box::new(constant), Box::new(negated));
        assert(shift.is_offset(column, i as nat));
        assert(shift.fits((column + 1) as nat, 0));
        expr = Expression::Product(Box::new(expr), Box::new(shift));
        i += 1;
    }
    expr
}

/// The table is `before` with one more region, named `Assign value`, that
/// enabled `selector` at row 0 and wrote `value` into `column` at row 0.
pub open spec fn is_assigned(
    before: &AssignmentTable,
    after: &AssignmentTable,
    config: MyConfig,
    value: Value,
) -> bool {
    let column = config.advice_column as int;
    let selector = config.q_range_check as int;
    let region = Some(before.regions@.len() as usize);
    &&& after.num_rows == before.num_rows
    &&& after.regions@.len() == before.regions@.len() + 1
    &&& after.regions@.take(before.regions@.len() as int) == before.regions@
    &&& after.regions@.last()@ == "Assign value"@
    &&& after.advice@.len() == before.advice@.len()
    &&& after.selectors@.len() == before.selectors@.len()
    &&& after.advice_origin@.len() == before.advice_origin@.len()
    &&& after.selector_origin@.len() == before.selector_origin@.len()
    &&& after.advice@[column]@ == before.advice@[column]@.update(0, value)
    &&& after.advice_origin@[column]@ == before.advice_origin@[column]@.update(0, region)
    &&& after.selectors@[selector]@ == before.selectors@[selector]@.update(0, true)
    &&& after.selector_origin@[selector]@ == before.selector_origin@[selector]@.update(0, region)
    &&& forall|c: int|
        0 <= c < before.advice@.len() && c != column ==> {
            &&& #[trigger] after.advice@[c] == before.advice@[c]
            &&& after.advice_origin@[c] == before.advice_origin@[c]
        }
    &&& forall|s: int|
        0 <= s < before.selectors@.len() && s != selector ==> {
            &&& #[trigger] after.selectors@[s] == before.selectors@[s]
            &&& after.selector_origin@[s] == before.selector_origin@[s]
        }
}

impl<const RANGE: usize> MyCircuit<RANGE> {
    /// A circuit for the witness `value`.
    pub fn new(value: Value) -> (c: Self)
        ensures
            c.assigned_value == value,
    {
        MyCircuit { assigned_value: value }
    }

    /// The same circuit with its witness unknown.
    pub fn without_witnesses(&self) -> (c: Self)
        ensures
            c.assigned_value == Value::Unknown,
    {
        MyCircuit { assigned_value: Value::Unknown }
    }

    /// Adds one advice column, one selector and the range-check gate to
    /// `cs`. A `RANGE` of zero is rejected, and `cs` stays as it was.
    pub fn configure(cs: &mut ConstraintSystem) -> (r: Result<MyConfig, CircuitError>)
        requires
            old(cs).wf(),
            old(cs).num_advice < usize::MAX,
            old(cs).num_selectors < usize::MAX,
        ensures
            RANGE == 0 ==> r == Err::<MyConfig, CircuitError>(CircuitError::EmptyRange) && *final(cs) == *old(cs),
            RANGE > 0 ==> {
                &&& r == Ok::<MyConfig, CircuitError>(
                    MyConfig { advice_column: old(cs).num_advice, q_range_check: old(cs).num_selectors },
                )
                &&& final(cs).wf()
                &&& final(cs).num_advice == old(cs).num_advice + 1
                &&& final(cs).num_selectors == old(cs).num_selectors + 1
                &&& final(cs).gates@.len() == old(cs).gates@.len() + 1
                &&& final(cs).gates@.take(old(cs).gates@.len() as int) == old(cs).gates@
                &&& is_range_gate(
                    &final(cs).gates@.last(),
                    old(cs).num_advice,
                    old(cs).num_selectors,
                    RANGE as nat,
                )
            },
    {
        if RANGE == 0 {
            return Err(CircuitError::EmptyRange);
        }
        let advice_column = cs.advice_column();
        let q_range_check = cs.selector();
        let poly = range_polynomial(advice_column, RANGE);
        proof {
            lemma_fits_grows(
                &poly,
                (advice_column + 1) as nat,
                0,
                cs.num_advice as nat,
                cs.num_selectors as nat,
            );
        }
        let mut constraints: Vec<Constraint> = Vec::new();
        constraints.push(Constraint { name: String::from_str("range check"), poly });
        cs.create_gate(String::from_str("range check"), q_range_check, constraints);
        assert(cs.gates@.take(old(cs).gates@.len() as int) =~= old(cs).gates@);
        Ok(MyConfig { advice_column, q_range_check })
    }

    /// Opens the region `Assign value`, enables the selector at its row 0
    /// and writes the witness beside it. A table without rows is left as it
    /// was.
    pub fn synthesize(&self, config: MyConfig, table: &mut AssignmentTable) -> (r: Result<(), AssignError>)
        requires
            old(table).wf(),
            config.advice_column < old(table).num_columns(),
            config.q_range_check < old(table).num_selectors(),
            old(table).regions@.len() < usize::MAX,
            self.assigned_value.wf(),
        ensures
            final(table).wf(),
            old(table).num_rows == 0 ==> r == Err::<(), AssignError>(AssignError::NotEnoughRows) && *final(table) == *old(table),
            old(table).num_rows > 0 ==> r == Ok::<(), AssignError>(()) && is_assigned(
                old(table),
                final(table),
                config,
                self.assigned_value,
            ),
    {
        if table.num_rows == 0 {
            return Err(AssignError::NotEnoughRows);
        }
        let region = table.open_region(String::from_str("Assign value"));
        let offset: usize = 0;
        match region.enable_selector(table, config.q_range_check, offset) {
            Ok(_) => {},
            Err(e) => {
                return Err(e);
            },
        }
        let written = region.assign_advice(table, config.advice_column, offset, self.assigned_value);
        assert(table.regions@.take(old(table).regions@.len() as int) =~= old(table).regions@);
        written
    }

    /// Configures a fresh system, fills a fresh table of two to the `k`
    /// rows, and hands both to a prover.
    pub fn prover(&self, k: u32) -> (r: Result<MockProver, CircuitError>)
        requires
            self.assigned_value.wf(),
        ensures
            match r {
                Ok(p) => {
                    &&& p.wf()
                    &&& p.k == k
                    &&& is_instance(&p, RANGE as nat, self.assigned_value)
                    &&& p.failures() == instance_failures(RANGE as nat, self.assigned_value)
                    &&& (self.assigned_value matches Value::Known(v) && v@ < RANGE) ==> p.failures().len()
                        == 0
                },
                Err(CircuitError::EmptyRange) => RANGE == 0,
                Err(CircuitError::TooManyRows) => RANGE > 0 && rows_for(k as nat) > usize::MAX,
            },
            RANGE > 0 && rows_for(k as nat) <= usize::MAX ==> r is Ok,
    {
        let mut cs = ConstraintSystem::new();
        let config = match Self::configure(&mut cs) {
            Ok(config) => config,
            Err(e) => {
                return Err(e);
            },
        };
        let rows = match row_count(k) {
            Some(rows) => rows,
            None => {
                return Err(CircuitError::TooManyRows);
            },
        };
        proof {
            lemma_rows_for_grows(0, k as nat);
        }
        let mut table = AssignmentTable::new(rows, cs.num_advice, cs.num_selectors);
        match self.synthesize(config, &mut table) {
            Ok(_) => {},
            Err(_) => unreached(),
        }
        match MockProver::run(k, cs, table) {
            Ok(p) => {
                proof {
                    assert(p.table.advice@[0]@ =~= Seq::new(
                        rows as nat,
                        |r: int| if r == 0 { self.assigned_value } else { Value::Unknown },
                    ));
                    assert(p.table.selectors@[0]@ =~= Seq::new(rows as nat, |r: int| r == 0));
                    assert(p.table.regions@ =~= seq![p.table.regions@[0]]);
                    lemma_instance_failures(&p, RANGE as nat, self.assigned_value);
                    if let Value::Known(v) = self.assigned_value {
                        if v@ < RANGE {
                            lemma_vanishes_in_range(v@, RANGE as nat);
                        }
                    }
                }
                Ok(p)
            },
            Err(_) => unreached(),
        }
    }
}

/// The prover holds one range check and nothing else: its gate for `range`
/// on column 0 behind selector 0, enabled at row 0 only, `value` at row 0
/// and nothing below, all of it from the one region `Assign value`.
pub open spec fn is_instance(p: &MockProver, range: nat, value: Value) -> bool {
    &&& p.cs.num_advice == 1
    &&& p.cs.num_selectors == 1
    &&& p.cs.gates@.len() == 1
    &&& is_range_gate(&p.cs.gates@[0], 0, 0, range)
    &&& p.table.num_rows >= 1
    &&& p.table.advice@[0]@ == Seq::new(
        p.table.num_rows as nat,
        |r: int| if r == 0 { value } else { Value::Unknown },
    )
    &&& p.table.selectors@[0]@ == Seq::new(p.table.num_rows as nat, |r: int| r == 0)
    &&& p.table.regions@.len() == 1
    &&& p.table.regions@[0]@ == "Assign value"@
    &&& p.table.advice_origin@[0]@[0] == Some(0usize)
    &&& p.table.selector_origin@[0]@[0] == Some(0usize)
}

/// What a prover that holds one range check reports: nothing where the
/// polynomial vanishes at the witness; where it does not, one failure of
/// that gate at row 0 of the region, with the witness in hexadecimal as its
/// only cell; and one failure without cells where the witness is unknown.
pub open spec fn instance_failures(range: nat, value: Value) -> Seq<FailureView> {
    match value {
        Value::Known(v) => if range_value(v@, range) == 0 {
            Seq::empty()
        } else {
            seq![
                FailureView {
                    kind: FailureKind::ConstraintNotSatisfied,
                    constraint: "range check"@,
                    gate: "range check"@,
                    region: "Assign value"@,
                    row: 0,
                    cells: seq![CellView { column: 0, row: 0, value: hex_text(v@) }],
                },
            ]
        },
        Value::Unknown => seq![
            FailureView {
                kind: FailureKind::CellNotAssigned,
                constraint: "range check"@,
                gate: "range check"@,
                region: "Assign value"@,
                row: 0,
                cells: Seq::empty(),
            },
        ],
    }
}

/// The polynomial for `range` vanishes at every scalar below `range`.
pub proof fn lemma_vanishes_in_range(v: nat, range: nat)
    requires
        v < range,
        v < modulus(),
    ensures
        range_value(v, range) == 0,
    decreases range,
{
    if range > 1 {
        let rest = range_value(v, (range - 1) as nat);
        let shift = add_mod((range - 1) as nat, neg_mod(v));
        if v == range - 1 {
            assert(shift == 0);
            assert(rest * shift == 0) by (nonlinear_arith)
                requires
                    shift == 0,
            ;
        } else {
            lemma_vanishes_in_range(v, (range - 1) as nat);
            assert(rest * shift == 0) by (nonlinear_arith)
                requires
                    rest == 0,
            ;
        }
    }
}

/// The polynomial for a range of one vanishes at zero and nowhere else.
pub proof fn lemma_range_of_one(v: nat)
    ensures
        range_value(v, 1) == 0 <==> v == 0,
{
}

/// The product of the `k` integers from `v` downwards:
/// `v * (v - 1) * ... * (v - k + 1)`. For `k == v` it is the factorial of
/// `v`.
pub open spec fn falling(v: nat, k: nat) -> nat
    decreases k,
{
    if k == 0 {
        1
    } else {
        falling(v, (k - 1) as nat) * ((v - (k - 1)) as nat)
    }
}

/// While its factors are positive, the falling product does not shrink.
pub proof fn lemma_falling_grows(v: nat, j: nat, k: nat)
    requires
        j <= k <= v,
    ensures
        1 <= falling(v, j) <= falling(v, k),
    decreases k,
{
    if k == 0 {
    } else if j == k {
        lemma_falling_grows(v, (k - 1) as nat, (k - 1) as nat);
        let s = falling(v, (k - 1) as nat);
        let d = (v - (k - 1)) as nat;
        assert(s * d >= 1) by (nonlinear_arith)
            requires
                s >= 1,
                d >= 1,
        ;
    } else {
        lemma_falling_grows(v, j, (k - 1) as nat);
        let s = falling(v, (k - 1) as nat);
        let d = (v - (k - 1)) as nat;
        assert(s * d >= s) by (nonlinear_arith)
            requires
                s >= 1,
                d >= 1,
        ;
    }
}

/// At a scalar `v` that no factor reaches, the polynomial for `k` is the
/// falling product of `v`, negated once for each factor after the first:
/// as long as the factorial of `v` lies below the modulus, it is not zero.
pub proof fn lemma_value_beyond_range(v: nat, k: nat)
    requires
        1 <= k <= v,
        falling(v, v) < modulus(),
    ensures
        0 < falling(v, k) < modulus(),
        range_value(v, k) == (if k % 2 == 1 {
            falling(v, k)
        } else {
            (modulus() - falling(v, k)) as nat
        }),
        range_value(v, k) != 0,
    decreases k,
{
    let p = modulus() as int;
    lemma_falling_grows(v, k, v);
    lemma_falling_grows(v, 1, v);
    assert(falling(v, 1) == v) by {
        assert(falling(v, 0) == 1);
        assert(falling(v, 1) == falling(v, 0) * ((v - 0) as nat));
    }
    if k > 1 {
        lemma_value_beyond_range(v, (k - 1) as nat);
        let s = falling(v, (k - 1) as nat) as int;
        let d = (v - (k - 1)) as int;
        let before = range_value(v, (k - 1) as nat) as int;
        let shift = add_mod((k - 1) as nat, neg_mod(v)) as int;
        assert(neg_mod(v) == p - v);
        assert(shift == p - d);
        assert(falling(v, k) == s * d);
        if (k - 1) % 2 == 1 {
            assert(before * shift == p * (s - 1) + (p - s * d)) by (nonlinear_arith)
                requires
                    before == s,
                    shift == p - d,
            ;
            vstd::arithmetic::div_mod::lemma_mod_multiples_vanish(s - 1, p - s * d, p);
        } else {
            assert(before * shift == p * (p - d - s) + s * d) by (nonlinear_arith)
                requires
                    before == p - s,
                    shift == p - d,
            ;
            vstd::arithmetic::div_mod::lemma_mod_multiples_vanish(p - d - s, s * d, p);
        }
    }
}

/// At a row where the cell of `column` holds `v`, the polynomial for
/// `range` has the value `range_value(v, range)`.
pub proof fn lemma_range_poly_eval(
    e: &Expression,
    column: usize,
    range: nat,
    table: &AssignmentTable,
    row: int,
    v: Fe,
)
    requires
        e.is_range_poly(column, range),
        0 <= row < table.num_rows,
        table.cell(column as int, row) == Value::Known(v),
    ensures
        e.eval(table, row) == Ok::<nat, EvalError>(range_value(v@, range)),
    decreases range,
{
    if range > 1 {
        match e {
            Expression::Product(a, b) => {
                lemma_range_poly_eval(a, column, (range - 1) as nat, table, row, v);
                match **b {
                    Expression::Sum(c, n) => {
                        let cell = Expression::Advice(column, 0);
                        assert(cell.eval(table, row) == Ok::<nat, EvalError>(v@));
                        assert(n.eval(table, row) == Ok::<nat, EvalError>(neg_mod(v@)));
                        assert(c.eval(table, row) == Ok::<nat, EvalError>((range - 1) as nat));
                        assert(b.eval(table, row) == Ok::<nat, EvalError>(
                            add_mod((range - 1) as nat, neg_mod(v@)),
                        ));
                    },
                    _ => {},
                }
            },
            _ => {},
        }
    }
}

/// At a row where the cell of `column` is unknown, the polynomial for
/// `range` has no value.
pub proof fn lemma_range_poly_unknown(
    e: &Expression,
    column: usize,
    range: nat,
    table: &AssignmentTable,
    row: int,
)
    requires
        e.is_range_poly(column, range),
        0 <= row < table.num_rows,
        table.cell(column as int, row) == Value::Unknown,
    ensures
        e.eval(table, row) == Err::<nat, EvalError>(EvalError::CellUnassigned),
    decreases range,
{
    if range > 1 {
        match e {
            Expression::Product(a, b) => {
                lemma_range_poly_unknown(a, column, (range - 1) as nat, table, row);
            },
            _ => {},
        }
    }
}

/// The polynomial for `range` reads one cell: that of `column` at the
/// current row.
pub proof fn lemma_range_poly_reads(e: &Expression, column: usize, range: nat, seen: Seq<Query>)
    requires
        e.is_range_poly(column, range),
    ensures
        e.reads(seen) == note(seen, (column, 0i32)),
    decreases range,
{
    if range > 1 {
        match e {
            Expression::Product(a, b) => {
                lemma_range_poly_reads(a, column, (range - 1) as nat, seen);
                let q = (column, 0i32);
                let first = note(seen, q);
                if !seen.contains(q) {
                    assert(seen.push(q)[seen.len() as int] == q);
                }
                assert(first.contains(q));
                match **b {
                    Expression::Sum(c, n) => {
                        assert(c.reads(first) == first);
                        let cell = Expression::Advice(column, 0);
                        assert(cell.reads(first) == first);
                        assert(n.reads(first) == first);
                        assert(b.reads(first) == first);
                    },
                    _ => {},
                }
            },
            _ => {},
        }
    }
}

/// A prover that holds one range check reports `instance_failures`.
pub proof fn lemma_instance_failures(p: &MockProver, range: nat, value: Value)
    requires
        p.wf(),
        is_instance(p, range, value),
    ensures
        p.failures() == instance_failures(range, value),
{
    let gates = p.cs.gates@;
    let table = &p.table;
    let gate = &gates[0];
    let poly = &gate.constraints@[0].poly;
    reveal_strlit("range check");
    reveal_strlit("Assign value");
    assert forall|g: int, r: int| 0 <= g < gates.len() && 1 <= r < table.num_rows implies !#[trigger] table.enabled(
        gates[g].selector as int,
        r,
    ) by {}
    lemma_quiet_rows(gates, table, 1, table.num_rows as nat);
    assert(table_failures(gates, table, 0) =~= Seq::<FailureView>::empty());
    assert(row_failures(gates, table, 0, 0) =~= Seq::<FailureView>::empty());
    assert(row_failures(gates, table, 0, 1) =~= gate_failures(gate, table, 0));
    assert(table_failures(gates, table, 1) =~= gate_failures(gate, table, 0));
    assert(table.enabled(0, 0));
    assert(constraints_failures(gate, table, 0, 0) =~= Seq::<FailureView>::empty());
    assert(constraints_failures(gate, table, 0, 1) =~= constraint_failure(gate, 0, table, 0));
    lemma_range_poly_reads(poly, 0, range, Seq::empty());
    let reads = poly.reads(Seq::empty());
    assert(reads =~= seq![(0usize, 0i32)]);
    match value {
        Value::Known(v) => {
            lemma_range_poly_eval(poly, 0, range, table, 0, v);
            assert(cell_views(table, 0, reads) =~= seq![
                CellView { column: 0, row: 0, value: hex_text(v@) },
            ]);
        },
        Value::Unknown => {
            lemma_range_poly_unknown(poly, 0, range, table, 0);
        },
    }
    assert(constraint_failure(gate, 0, table, 0) =~= instance_failures(range, value));
}

/// A witness below the range satisfies the check: with the selector
/// enabled and the witness assigned, the prover reports no failure.
pub proof fn lemma_completeness(p: &MockProver, range: nat, v: Fe)
    requires
        p.wf(),
        is_instance(p, range, Value::Known(v)),
        v@ < range,
    ensures
        p.failures() == Seq::<FailureView>::empty(),
        p.verdict(Ok(())),
{
    lemma_instance_failures(p, range, Value::Known(v));
    assert(p.table.advice@[0]@[0].wf());
    lemma_vanishes_in_range(v@, range);
}

/// A range of one admits the witness zero and no other: the prover reports
/// no failure exactly when the witness is zero.
pub proof fn lemma_range_of_one_admits_zero_only(p: &MockProver, v: Fe)
    requires
        p.wf(),
        is_instance(p, 1, Value::Known(v)),
    ensures
        p.failures().len() == 0 <==> v@ == 0,
{
    lemma_instance_failures(p, 1, Value::Known(v));
}

/// A witness at which the polynomial does not vanish is reported once: as
/// an unsatisfied constraint of its gate, in the region that assigned it, at
/// row 0, with the witness in hexadecimal as the one cell read.
pub proof fn lemma_violation_is_reported_once(p: &MockProver, range: nat, v: Fe)
    requires
        p.wf(),
        is_instance(p, range, Value::Known(v)),
        range_value(v@, range) != 0,
    ensures
        p.failures() == seq![
            FailureView {
                kind: FailureKind::ConstraintNotSatisfied,
                constraint: "range check"@,
                gate: "range check"@,
                region: "Assign value"@,
                row: 0,
                cells: seq![CellView { column: 0, row: 0, value: hex_text(v@) }],
            },
        ],
{
    lemma_instance_failures(p, range, Value::Known(v));
}

/// A witness equal to the range, one past the last value allowed, is
/// reported once, as `lemma_violation_is_reported_once` says, for every
/// range whose factorial lies below the modulus.
pub proof fn lemma_one_past_the_range_is_reported(p: &MockProver, range: nat, v: Fe)
    requires
        p.wf(),
        is_instance(p, range, Value::Known(v)),
        range >= 1,
        v@ == range,
        falling(range, range) < modulus(),
    ensures
        p.failures() == seq![
            FailureView {
                kind: FailureKind::ConstraintNotSatisfied,
                constraint: "range check"@,
                gate: "range check"@,
                region: "Assign value"@,
                row: 0,
                cells: seq![CellView { column: 0, row: 0, value: hex_text(v@) }],
            },
        ],
{
    lemma_value_beyond_range(range, range);
    lemma_violation_is_reported_once(p, range, v);
}

} // verus!
