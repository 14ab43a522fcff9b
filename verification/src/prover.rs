//! The scan of gates over rows, and the failures it reports.

use crate::expr::{lemma_reads_fit, lemma_reads_known, readable, EvalError, Query};
use crate::field::hex_text;
use crate::system::{ConstraintSystem, Gate};
use crate::table::{AssignmentTable, Value};
use vstd::prelude::*;

verus! {

/// What went wrong with a constraint at a row.
#[derive(Clone, Copy, Debug, PartialEq, Eq)]
pub enum FailureKind {
    /// The polynomial has a value there, and it is not zero.
    ConstraintNotSatisfied,
    /// The polynomial reads a cell that holds no known value.
    CellNotAssigned,
    /// A rotation of the polynomial leads out of the table.
    RowOutOfRange,
}

/// An advice cell that a failed constraint read, with its value as text.
#[derive(Debug, PartialEq, Eq)]
pub struct CellReport {
    pub column: usize,
    pub row: usize,
    pub value: String,
}

/// One constraint that does not hold at one row.
#[derive(Debug, PartialEq, Eq)]
pub struct VerifyFailure {
    pub kind: FailureKind,
    pub constraint_name: String,
    pub gate_name: String,
    pub region_name: String,
    pub row: usize,
    pub cells: Vec<CellReport>,
}

/// A `CellReport` as plain values.
pub struct CellView {
    pub column: nat,
    pub row: nat,
    pub value: Seq<char>,
}

/// A `VerifyFailure` as plain values.
pub struct FailureView {
    pub kind: FailureKind,
    pub constraint: Seq<char>,
    pub gate: Seq<char>,
    pub region: Seq<char>,
    pub row: nat,
    pub cells: Seq<CellView>,
}

impl View for CellReport {
    type V = CellView;

    open spec fn view(&self) -> CellView {
        CellView { column: self.column as nat, row: self.row as nat, value: self.value@ }
    }
}

impl View for VerifyFailure {
    type V = FailureView;

    open spec fn view(&self) -> FailureView {
        FailureView {
            kind: self.kind,
            constraint: self.constraint_name@,
            gate: self.gate_name@,
            region: self.region_name@,
            row: self.row as nat,
            cells: self.cells@.map_values(|c: CellReport| c@),
        }
    }
}

/// A list of failures as plain values.
pub open spec fn views(failures: Seq<VerifyFailure>) -> Seq<FailureView> {
    failures.map_values(|f: VerifyFailure| f@)
}

/// The report on the cell that `q` names from `row`: where it is, and its
/// value in hexadecimal.
pub open spec fn cell_view(table: &AssignmentTable, row: int, q: Query) -> CellView {
    CellView {
        column: q.0 as nat,
        row: (row + q.1) as nat,
        value: match table.cell(q.0 as int, row + q.1) {
            Value::Known(v) => hex_text(v@),
            Value::Unknown => Seq::empty(),
        },
    }
}

/// The reports on the cells that `reads` names from `row`, in that order.
pub open spec fn cell_views(table: &AssignmentTable, row: int, reads: Seq<Query>) -> Seq<CellView> {
    reads.map_values(|q: Query| cell_view(table, row, q))
}

/// The region that a failure at `row` is charged to: the one that wrote the
/// first advice cell that the constraint reads, where that cell lies in the
/// table and was written; else the one that enabled this gate's selector at
/// `row`.
pub open spec fn failure_region(table: &AssignmentTable, selector: int, reads: Seq<Query>, row: int) -> Seq<
    char,
> {
    if reads.len() > 0 && 0 <= row + reads[0].1 < table.num_rows
        && table.advice_origin@[reads[0].0 as int]@[row + reads[0].1] is Some {
        table.cell_region(reads[0].0 as int, row + reads[0].1)
    } else {
        table.selector_region(selector, row)
    }
}

/// The kind of failure that an evaluation error is reported as.
pub open spec fn kind_of(e: EvalError) -> FailureKind {
    match e {
        EvalError::CellUnassigned => FailureKind::CellNotAssigned,
        EvalError::RowOutOfRange => FailureKind::RowOutOfRange,
    }
}

/// What the `i`-th constraint of `gate` reports at `row`: nothing where its
/// polynomial is zero; one failure with the cells it read where the value is
/// not zero; one failure without cells where it has no value.
pub open spec fn constraint_failure(gate: &Gate, i: int, table: &AssignmentTable, row: int) -> Seq<
    FailureView,
> {
    let c = gate.constraints@[i];
    let reads = c.poly.reads(Seq::empty());
    let region = failure_region(table, gate.selector as int, reads, row);
    match c.poly.eval(table, row) {
        Ok(v) => if v == 0 {
            Seq::empty()
        } else {
            seq![
                FailureView {
                    kind: FailureKind::ConstraintNotSatisfied,
                    constraint: c.name@,
                    gate: gate.name@,
                    region,
                    row: row as nat,
                    cells: cell_views(table, row, reads),
                },
            ]
        },
        Err(e) => seq![
            FailureView {
                kind: kind_of(e),
                constraint: c.name@,
                gate: gate.name@,
                region,
                row: row as nat,
                cells: Seq::empty(),
            },
        ],
    }
}

/// What the first `n` constraints of `gate` report at `row`, in their order.
pub open spec fn constraints_failures(gate: &Gate, table: &AssignmentTable, row: int, n: nat) -> Seq<
    FailureView,
>
    decreases n,
{
    if n == 0 {
        Seq::empty()
    } else {
        constraints_failures(gate, table, row, (n - 1) as nat) + constraint_failure(gate, n - 1, table, row)
    }
}

/// What `gate` reports at `row`: nothing where its selector is disabled,
/// else what its constraints report.
pub open spec fn gate_failures(gate: &Gate, table: &AssignmentTable, row: int) -> Seq<FailureView> {
    if table.enabled(gate.selector as int, row) {
        constraints_failures(gate, table, row, gate.constraints@.len())
    } else {
        Seq::empty()
    }
}

/// What the first `n` of `gates` report at `row`, in their order.
pub open spec fn row_failures(gates: Seq<Gate>, table: &AssignmentTable, row: int, n: nat) -> Seq<FailureView>
    decreases n,
{
    if n == 0 {
        Seq::empty()
    } else {
        row_failures(gates, table, row, (n - 1) as nat) + gate_failures(&gates[n - 1], table, row)
    }
}

/// What `gates` report over the first `rows` rows: row by row, within a row
/// gate by gate, within a gate constraint by constraint.
pub open spec fn table_failures(gates: Seq<Gate>, table: &AssignmentTable, rows: nat) -> Seq<FailureView>
    decreases rows,
{
    if rows == 0 {
        Seq::empty()
    } else {
        table_failures(gates, table, (rows - 1) as nat) + row_failures(gates, table, rows - 1, gates.len())
    }
}

/// A gate whose selector is disabled at a row reports nothing there,
/// whatever its constraints are and whatever the cells hold.
pub proof fn lemma_disabled_gate_is_silent(gate: &Gate, table: &AssignmentTable, row: int)
    requires
        !table.enabled(gate.selector as int, row),
    ensures
        gate_failures(gate, table, row) == Seq::<FailureView>::empty(),
{
}

/// No gate reports anything at a row where the selectors of the first `n`
/// gates are all disabled.
pub proof fn lemma_quiet_row(gates: Seq<Gate>, table: &AssignmentTable, row: int, n: nat)
    requires
        n <= gates.len(),
        forall|g: int| 0 <= g < n ==> !table.enabled((#[trigger] gates[g]).selector as int, row),
    ensures
        row_failures(gates, table, row, n) == Seq::<FailureView>::empty(),
    decreases n,
{
    if n > 0 {
        lemma_quiet_row(gates, table, row, (n - 1) as nat);
        assert(!table.enabled(gates[n - 1].selector as int, row));
        assert(row_failures(gates, table, row, n) =~= Seq::<FailureView>::empty());
    }
}

/// Rows at which every selector of every gate is disabled add nothing to
/// the failures: the scan up to `rows` finds what the scan up to `from`
/// found.
pub proof fn lemma_quiet_rows(gates: Seq<Gate>, table: &AssignmentTable, from: nat, rows: nat)
    requires
        from <= rows,
        forall|g: int, r: int|
            0 <= g < gates.len() && from <= r < rows ==> !#[trigger] table.enabled(
                gates[g].selector as int,
                r,
            ),
    ensures
        table_failures(gates, table, rows) == table_failures(gates, table, from),
    decreases rows,
{
    if from < rows {
        lemma_quiet_rows(gates, table, from, (rows - 1) as nat);
        assert forall|g: int| 0 <= g < gates.len() implies !table.enabled(
            (#[trigger] gates[g]).selector as int,
            rows - 1,
        ) by {
            assert(!table.enabled(gates[g].selector as int, rows - 1));
        }
        lemma_quiet_row(gates, table, rows - 1, gates.len());
        assert(table_failures(gates, table, rows) =~= table_failures(gates, table, (rows - 1) as nat));
    }
}

/// The number of rows of a table of size parameter `k`: two to the `k`.
pub open spec fn rows_for(k: nat) -> nat
    decreases k,
{
    if k == 0 {
        1
    } else {
        2 * rows_for((k - 1) as nat)
    }
}

/// A larger size parameter gives no fewer rows, and every table has a row.
pub proof fn lemma_rows_for_grows(a: nat, b: nat)
    requires
        a <= b,
    ensures
        1 <= rows_for(a) <= rows_for(b),
    decreases b,
{
    if a < b {
        lemma_rows_for_grows(a, (b - 1) as nat);
    } else if a > 0 {
        lemma_rows_for_grows((a - 1) as nat, (a - 1) as nat);
    }
}

/// Two to the `k`, where a `usize` holds it.
pub fn row_count(k: u32) -> (r: Option<usize>)
    ensures
        r == (if rows_for(k as nat) <= usize::MAX {
            Some(rows_for(k as nat) as usize)
        } else {
            None
        }),
{
    let mut n: usize = 1;
    let mut i: u32 = 0;
    while i < k
        invariant
            i <= k,
            n == rows_for(i as nat),
        decreases k - i,
    {
        if n > usize::MAX / 2 {
            proof {
                lemma_rows_for_grows((i + 1) as nat, k as nat);
            }
            return None;
        }
        n = n * 2;
        i += 1;
    }
    Some(n)
}

/// The reports on the cells that `reads` names from `row`.
fn report_cells(table: &AssignmentTable, row: usize, reads: &Vec<Query>) -> (cells: Vec<CellReport>)
    requires
        table.wf(),
        row < table.num_rows,
        forall|i: int| 0 <= i < reads@.len() ==> (#[trigger] reads@[i]).0 < table.num_columns(),
        forall|i: int| 0 <= i < reads@.len() ==> readable(table, row as int, #[trigger] reads@[i]),
    ensures
        cells@.map_values(|c: CellReport| c@) == cell_views(table, row as int, reads@),
{
    let mut cells: Vec<CellReport> = Vec::new();
    let mut i: usize = 0;
    while i < reads.len()
        invariant
            i <= reads@.len(),
            table.wf(),
            row < table.num_rows,
            forall|j: int| 0 <= j < reads@.len() ==> (#[trigger] reads@[j]).0 < table.num_columns(),
            forall|j: int| 0 <= j < reads@.len() ==> readable(table, row as int, #[trigger] reads@[j]),
            cells@.map_values(|c: CellReport| c@) == cell_views(table, row as int, reads@.take(i as int)),
        decreases reads@.len() - i,
    {
        let q = reads[i];
        assert(readable(table, row as int, reads@[i as int]));
        let target: usize = (row as i128 + q.1 as i128) as usize;
        let ghost before = cells@;
        match table.advice[q.0][target] {
            Value::Known(v) => {
                cells.push(CellReport { column: q.0, row: target, value: v.to_hex() });
            },
            Value::Unknown => {},
        }
        proof {
            assert(reads@.take(i + 1) =~= reads@.take(i as int).push(q));
            assert(cells@.map_values(|c: CellReport| c@) =~= before.map_values(|c: CellReport| c@).push(
                cell_view(table, row as int, q),
            ));
            assert(cell_views(table, row as int, reads@.take(i + 1)) =~= cell_views(
                table,
                row as int,
                reads@.take(i as int),
            ).push(cell_view(table, row as int, q)));
        }
        i += 1;
    }
    assert(reads@.take(reads@.len() as int) =~= reads@);
    cells
}

/// The name of the region that a failure at `row` is charged to.
fn region_of(table: &AssignmentTable, selector: usize, reads: &Vec<Query>, row: usize) -> (name: String)
    requires
        table.wf(),
        row < table.num_rows,
        selector < table.num_selectors(),
        forall|i: int| 0 <= i < reads@.len() ==> (#[trigger] reads@[i]).0 < table.num_columns(),
    ensures
        name@ == failure_region(table, selector as int, reads@, row as int),
{
    if reads.len() > 0 {
        let q = reads[0];
        let target: i128 = row as i128 + q.1 as i128;
        if 0 <= target && target < table.num_rows as i128 {
            assert(table.advice@[q.0 as int]@.len() == table.num_rows);
            assert(table.origin_ok(table.advice_origin@[q.0 as int]@[target as int]));
            match table.advice_origin[q.0][target as usize] {
                Some(i) => {
                    return table.regions[i].clone();
                },
                None => {},
            }
        }
    }
    assert(table.selectors@[selector as int]@.len() == table.num_rows);
    assert(table.origin_ok(table.selector_origin@[selector as int]@[row as int]));
    match table.selector_origin[selector][row] {
        Some(i) => table.regions[i].clone(),
        None => String::new(),
    }
}

/// Adds to `out` what the `i`-th constraint of `gate` reports at `row`.
fn check_constraint(gate: &Gate, i: usize, table: &AssignmentTable, row: usize, out: &mut Vec<VerifyFailure>)
    requires
        table.wf(),
        gate.fits(table.num_columns(), table.num_selectors()),
        i < gate.constraints@.len(),
        row < table.num_rows,
    ensures
        views(final(out)@) == views(old(out)@) + constraint_failure(gate, i as int, table, row as int),
{
    let constraint = &gate.constraints[i];
    let outcome = constraint.poly.evaluate(table, row);
    let mut reads: Vec<Query> = Vec::new();
    constraint.poly.collect_reads(&mut reads);
    proof {
        lemma_reads_fit(&constraint.poly, Seq::empty(), table.num_columns(), table.num_selectors());
    }
    let (kind, cells) = match outcome {
        Ok(v) => {
            if v.is_zero() {
                assert(views(out@) =~= views(old(out)@) + constraint_failure(gate, i as int, table, row as int));
                return ;
            }
            proof {
                lemma_reads_known(&constraint.poly, Seq::empty(), table, row as int);
            }
            (FailureKind::ConstraintNotSatisfied, report_cells(table, row, &reads))
        },
        Err(EvalError::CellUnassigned) => (FailureKind::CellNotAssigned, Vec::new()),
        Err(EvalError::RowOutOfRange) => (FailureKind::RowOutOfRange, Vec::new()),
    };
    let failure = VerifyFailure {
        kind,
        constraint_name: constraint.name.clone(),
        gate_name: gate.name.clone(),
        region_name: region_of(table, gate.selector, &reads, row),
        row,
        cells,
    };
    proof {
        assert(failure.cells@.map_values(|c: CellReport| c@) =~= failure@.cells);
        if outcome is Err {
            assert(failure@.cells =~= Seq::<CellView>::empty());
        }
        assert(constraint_failure(gate, i as int, table, row as int) =~= seq![failure@]);
    }
    out.push(failure);
    assert(views(out@) =~= views(old(out)@) + constraint_failure(gate, i as int, table, row as int));
}

/// Adds to `out` what `gate` reports at `row`.
fn check_gate(gate: &Gate, table: &AssignmentTable, row: usize, out: &mut Vec<VerifyFailure>)
    requires
        table.wf(),
        gate.fits(table.num_columns(), table.num_selectors()),
        row < table.num_rows,
    ensures
        views(final(out)@) == views(old(out)@) + gate_failures(gate, table, row as int),
{
    if !table.selectors[gate.selector][row] {
        assert(views(out@) =~= views(old(out)@) + gate_failures(gate, table, row as int));
        return ;
    }
    let mut i: usize = 0;
    assert(views(out@) =~= views(old(out)@) + constraints_failures(gate, table, row as int, 0));
    while i < gate.constraints.len()
        invariant
            i <= gate.constraints@.len(),
            table.wf(),
            gate.fits(table.num_columns(), table.num_selectors()),
            row < table.num_rows,
            views(out@) == views(old(out)@) + constraints_failures(gate, table, row as int, i as nat),
        decreases gate.constraints@.len() - i,
    {
        check_constraint(gate, i, table, row, out);
        i += 1;
        assert(views(out@) =~= views(old(out)@) + constraints_failures(gate, table, row as int, i as nat));
    }
}

/// Adds to `out` what the gates of `cs` report at `row`.
fn check_row(cs: &ConstraintSystem, table: &AssignmentTable, row: usize, out: &mut Vec<VerifyFailure>)
    requires
        cs.wf(),
        table.wf(),
        table.num_columns() == cs.num_advice,
        table.num_selectors() == cs.num_selectors,
        row < table.num_rows,
    ensures
        views(final(out)@) == views(old(out)@) + row_failures(cs.gates@, table, row as int, cs.gates@.len()),
{
    let mut g: usize = 0;
    assert(views(out@) =~= views(old(out)@) + row_failures(cs.gates@, table, row as int, 0));
    while g < cs.gates.len()
        invariant
            g <= cs.gates@.len(),
            cs.wf(),
            table.wf(),
            table.num_columns() == cs.num_advice,
            table.num_selectors() == cs.num_selectors,
            row < table.num_rows,
            views(out@) == views(old(out)@) + row_failures(cs.gates@, table, row as int, g as nat),
        decreases cs.gates@.len() - g,
    {
        check_gate(&cs.gates[g], table, row, out);
        g += 1;
        assert(views(out@) =~= views(old(out)@) + row_failures(cs.gates@, table, row as int, g as nat));
    }
}

/// Why a system and a table cannot be checked against each other.
#[derive(Clone, Copy, Debug, PartialEq, Eq)]
pub enum RunError {
    /// Two to the `k` is more than a `usize` holds.
    TooManyRows,
    /// The table has not two to the `k` rows, or not one column for each
    /// advice column and selector of the system.
    ShapeMismatch,
}

/// A constraint system and a table of its shape, ready to be checked.
#[derive(Debug)]
pub struct MockProver {
    pub k: u32,
    pub cs: ConstraintSystem,
    pub table: AssignmentTable,
}

/// The table has two to the `k` rows, and one column for each advice column
/// and selector of `cs`.
pub open spec fn shapes_agree(k: u32, cs: &ConstraintSystem, table: &AssignmentTable) -> bool {
    &&& table.num_rows == rows_for(k as nat)
    &&& table.num_columns() == cs.num_advice
    &&& table.num_selectors() == cs.num_selectors
}

impl MockProver {
    /// System and table are well formed and of one shape.
    pub open spec fn wf(&self) -> bool {
        &&& self.cs.wf()
        &&& self.table.wf()
        &&& shapes_agree(self.k, &self.cs, &self.table)
    }

    /// The failures of the table against the system, in the order of the
    /// scan: every row is usable, and none is left out.
    pub open spec fn failures(&self) -> Seq<FailureView> {
        table_failures(self.cs.gates@, &self.table, self.table.num_rows as nat)
    }

    /// What `verify` may return: `Ok` where there is no failure, else the
    /// failures.
    pub open spec fn verdict(&self, r: Result<(), Vec<VerifyFailure>>) -> bool {
        match r {
            Ok(_) => self.failures().len() == 0,
            Err(list) => list@.len() > 0 && views(list@) == self.failures(),
        }
    }

    /// Two runs of `verify` on one prover agree: both pass, or both fail
    /// with the same failures in the same order.
    pub proof fn lemma_verify_is_deterministic(
        &self,
        first: Result<(), Vec<VerifyFailure>>,
        second: Result<(), Vec<VerifyFailure>>,
    )
        requires
            self.verdict(first),
            self.verdict(second),
        ensures
            first is Ok <==> second is Ok,
            first is Err ==> views(first->Err_0@) == views(second->Err_0@),
    {
    }

    /// Takes a frozen system and a filled table, and holds the table's shape
    /// against the system and `k`.
    pub fn run(k: u32, cs: ConstraintSystem, table: AssignmentTable) -> (r: Result<MockProver, RunError>)
        requires
            cs.wf(),
            table.wf(),
        ensures
            match r {
                Ok(p) => p.wf() && p.k == k && p.cs == cs && p.table == table,
                Err(RunError::TooManyRows) => rows_for(k as nat) > usize::MAX,
                Err(RunError::ShapeMismatch) => rows_for(k as nat) <= usize::MAX && !shapes_agree(
                    k,
                    &cs,
                    &table,
                ),
            },
            rows_for(k as nat) <= usize::MAX && shapes_agree(k, &cs, &table) ==> r is Ok,
    {
        match row_count(k) {
            None => Err(RunError::TooManyRows),
            Some(rows) => {
                if table.num_rows != rows || table.advice.len() != cs.num_advice || table.selectors.len()
                    != cs.num_selectors {
                    Err(RunError::ShapeMismatch)
                } else {
                    Ok(MockProver { k, cs, table })
                }
            },
        }
    }

    /// Evaluates every constraint of every gate at every row where the
    /// gate's selector is enabled, and returns the failures in the order of
    /// the scan.
    pub fn verify(&self) -> (r: Result<(), Vec<VerifyFailure>>)
        requires
            self.wf(),
        ensures
            self.verdict(r),
    {
        let mut out: Vec<VerifyFailure> = Vec::new();
        let mut row: usize = 0;
        assert(views(out@) =~= table_failures(self.cs.gates@, &self.table, 0));
        while row < self.table.num_rows
            invariant
                row <= self.table.num_rows,
                self.wf(),
                views(out@) == table_failures(self.cs.gates@, &self.table, row as nat),
            decreases self.table.num_rows - row,
        {
            check_row(&self.cs, &self.table, row, &mut out);
            row += 1;
        }
        if out.len() == 0 {
            Ok(())
        } else {
            Err(out)
        }
    }

    /// Runs `verify` on a prover that has no failure to report.
    pub fn assert_satisfied(&self)
        requires
            self.wf(),
            self.failures().len() == 0,
    {
        match self.verify() {
            Ok(_) => {},
            Err(_) => unreached(),
        }
    }
}

} // verus!
