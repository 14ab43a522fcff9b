//! The registry of columns, selectors and gates.

use crate::expr::Expression;
use vstd::prelude::*;

verus! {

/// A named polynomial that must vanish wherever its gate is active.
#[derive(Debug)]
pub struct Constraint {
    pub name: String,
    pub poly: Expression,
}

/// A named list of constraints, enforced at the rows where `selector` is
/// enabled and at no others.
#[derive(Debug)]
pub struct Gate {
    pub name: String,
    pub selector: usize,
    pub constraints: Vec<Constraint>,
}

/// The columns, selectors and gates of a circuit. Columns and selectors are
/// known by their index, in the order in which they were added.
#[derive(Debug)]
pub struct ConstraintSystem {
    pub num_advice: usize,
    pub num_selectors: usize,
    pub gates: Vec<Gate>,
}

/// Each of `constraints` names only the first `columns` advice columns and
/// the first `selectors` selectors.
pub open spec fn all_fit(constraints: Seq<Constraint>, columns: nat, selectors: nat) -> bool {
    forall|i: int| 0 <= i < constraints.len() ==> (#[trigger] constraints[i]).poly.fits(columns, selectors)
}

/// An expression that fits still fits when columns or selectors are added.
pub proof fn lemma_fits_grows(e: &Expression, columns: nat, selectors: nat, more_columns: nat, more_selectors: nat)
    requires
        e.fits(columns, selectors),
        columns <= more_columns,
        selectors <= more_selectors,
    ensures
        e.fits(more_columns, more_selectors),
    decreases e,
{
    match e {
        Expression::Neg(a) => lemma_fits_grows(a, columns, selectors, more_columns, more_selectors),
        Expression::Sum(a, b) => {
            lemma_fits_grows(a, columns, selectors, more_columns, more_selectors);
            lemma_fits_grows(b, columns, selectors, more_columns, more_selectors);
        },
        Expression::Product(a, b) => {
            lemma_fits_grows(a, columns, selectors, more_columns, more_selectors);
            lemma_fits_grows(b, columns, selectors, more_columns, more_selectors);
        },
        _ => {},
    }
}

impl Gate {
    /// This gate's selector and all that its constraints name exist among
    /// `columns` advice columns and `selectors` selectors.
    pub open spec fn fits(&self, columns: nat, selectors: nat) -> bool {
        self.selector < selectors && all_fit(self.constraints@, columns, selectors)
    }
}

impl ConstraintSystem {
    /// Every gate speaks of columns and selectors of this system only.
    pub open spec fn wf(&self) -> bool {
        forall|g: int|
            0 <= g < self.gates@.len() ==> (#[trigger] self.gates@[g]).fits(
                self.num_advice as nat,
                self.num_selectors as nat,
            )
    }

    proof fn lemma_wf_grows(&self, grown: &ConstraintSystem)
        requires
            self.wf(),
            grown.gates == self.gates,
            self.num_advice <= grown.num_advice,
            self.num_selectors <= grown.num_selectors,
        ensures
            grown.wf(),
    {
        assert forall|g: int| 0 <= g < grown.gates@.len() implies (#[trigger] grown.gates@[g]).fits(
            grown.num_advice as nat,
            grown.num_selectors as nat,
        ) by {
            let gate = self.gates@[g];
            assert(gate.fits(self.num_advice as nat, self.num_selectors as nat));
            assert forall|i: int| 0 <= i < gate.constraints@.len() implies (
            #[trigger] gate.constraints@[i]).poly.fits(
                grown.num_advice as nat,
                grown.num_selectors as nat,
            ) by {
                lemma_fits_grows(
                    &gate.constraints@[i].poly,
                    self.num_advice as nat,
                    self.num_selectors as nat,
                    grown.num_advice as nat,
                    grown.num_selectors as nat,
                );
            }
        }
    }

    /// A system without columns, selectors or gates.
    pub fn new() -> (cs: ConstraintSystem)
        ensures
            cs.wf(),
            cs.num_advice == 0,
            cs.num_selectors == 0,
            cs.gates@.len() == 0,
    {
        ConstraintSystem { num_advice: 0, num_selectors: 0, gates: Vec::new() }
    }

    /// Adds an advice column and returns its index.
    pub fn advice_column(&mut self) -> (column: usize)
        requires
            old(self).wf(),
            old(self).num_advice < usize::MAX,
        ensures
            final(self).wf(),
            column == old(self).num_advice,
            final(self).num_advice == old(self).num_advice + 1,
            final(self).num_selectors == old(self).num_selectors,
            final(self).gates == old(self).gates,
    {
        let column = self.num_advice;
        self.num_advice = column + 1;
        proof {
            old(self).lemma_wf_grows(self);
        }
        column
    }

    /// Adds a selector and returns its index.
    pub fn selector(&mut self) -> (selector: usize)
        requires
            old(self).wf(),
            old(self).num_selectors < usize::MAX,
        ensures
            final(self).wf(),
            selector == old(self).num_selectors,
            final(self).num_selectors == old(self).num_selectors + 1,
            final(self).num_advice == old(self).num_advice,
            final(self).gates == old(self).gates,
    {
        let selector = self.num_selectors;
        self.num_selectors = selector + 1;
        proof {
            old(self).lemma_wf_grows(self);
        }
        selector
    }

    /// The expression that reads `selector` at the current row.
    pub fn query_selector(&self, selector: usize) -> (e: Expression)
        requires
            selector < self.num_selectors,
        ensures
            e == Expression::Selector(selector),
            e.fits(self.num_advice as nat, self.num_selectors as nat),
    {
        Expression::Selector(selector)
    }

    /// The expression that reads the advice cell of `column`, `rotation`
    /// rows from the current one.
    pub fn query_advice(&self, column: usize, rotation: i32) -> (e: Expression)
        requires
            column < self.num_advice,
        ensures
            e == Expression::Advice(column, rotation),
            e.fits(self.num_advice as nat, self.num_selectors as nat),
    {
        Expression::Advice(column, rotation)
    }

    /// Registers a gate behind the gates that are there: `constraints`,
    /// enforced at the rows where `selector` is enabled.
    pub fn create_gate(&mut self, name: String, selector: usize, constraints: Vec<Constraint>)
        requires
            old(self).wf(),
            selector < old(self).num_selectors,
            all_fit(constraints@, old(self).num_advice as nat, old(self).num_selectors as nat),
        ensures
            final(self).wf(),
            final(self).num_advice == old(self).num_advice,
            final(self).num_selectors == old(self).num_selectors,
            final(self).gates@ == old(self).gates@.push((Gate { name, selector, constraints })),
    {
        self.gates.push(Gate { name, selector, constraints });
    }
}

} // verus!
