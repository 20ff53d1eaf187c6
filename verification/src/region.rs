//! What a circuit hands to the region that it is laid out in: names of columns, cell values and
//! enabled selectors, in order.
use vstd::prelude::*;
use halo2_axiom::plonk::Selector;
use crate::expression::{AdviceColumn, FixedColumn};
use crate::field::{value_of, Scalar};

verus! {

/// What a cell is called while it is assigned.
#[derive(Clone, Copy, Debug, PartialEq, Eq)]
pub enum Label {
    /// The text alone.
    Text(&'static str),
    /// The name of a value, "at row:" and the row.
    AtRow(&'static str),
    /// "assign", the name of a value and the row.
    Assign(&'static str),
    /// "assigning padding row:" and the row.
    PaddingRow,
}

/// One thing handed to a region.
#[derive(Clone, Copy, Debug)]
pub enum Assignment {
    /// A name for a column.
    Name(AdviceColumn, &'static str),
    /// The value of a cell of an advice column, `None` where it is not known, and its label.
    Advice(AdviceColumn, usize, Option<Scalar>, Label),
    /// The value of a cell of a fixed column, and its label.
    Fixed(FixedColumn, usize, Scalar, Label),
    /// An enabled selector.
    Enable(Selector, usize),
}

/// An assignment with the names as character sequences and the field elements as numbers.
pub enum Write {
    /// A name for a column.
    Name(AdviceColumn, Seq<char>),
    /// The value of a cell of an advice column, `None` where it is not known, and its label.
    Advice(AdviceColumn, int, Option<nat>, Label),
    /// The value of a cell of a fixed column, and its label.
    Fixed(FixedColumn, int, nat, Label),
    /// An enabled selector.
    Enable(Selector, int),
}

impl View for Assignment {
    type V = Write;

    open spec fn view(&self) -> Write {
        match *self {
            Assignment::Name(c, name) => Write::Name(c, name@),
            Assignment::Advice(c, offset, v, label) => Write::Advice(
                c,
                offset as int,
                value_of(v),
                label,
            ),
            Assignment::Fixed(c, offset, v, label) => Write::Fixed(
                c,
                offset as int,
                v.value(),
                label,
            ),
            Assignment::Enable(s, offset) => Write::Enable(s, offset as int),
        }
    }
}

/// A region that records what is handed to it.
#[derive(Debug)]
pub struct Region {
    /// The assignments so far.
    pub assignments: Vec<Assignment>,
}

impl View for Region {
    type V = Seq<Write>;

    open spec fn view(&self) -> Seq<Write> {
        self.assignments@.map_values(|a: Assignment| a@)
    }
}

impl Region {
    /// A region that nothing was handed to.
    pub fn new() -> (r: Region)
        ensures
            r@ == Seq::<Write>::empty(),
    {
        let r = Region { assignments: Vec::new() };
        assert(r@ =~= Seq::<Write>::empty());
        r
    }

    /// Names an advice column.
    pub fn name_column(&mut self, column: AdviceColumn, name: &'static str)
        ensures
            final(self)@ == old(self)@.push(Write::Name(column, name@)),
    {
        self.assignments.push(Assignment::Name(column, name));
        assert(self@ =~= old(self)@.push(Write::Name(column, name@)));
    }

    /// Gives a cell of an advice column its value.
    pub fn assign_advice(
        &mut self,
        label: Label,
        column: AdviceColumn,
        offset: usize,
        value: Option<Scalar>,
    )
        ensures
            final(self)@ == old(self)@.push(
                Write::Advice(column, offset as int, value_of(value), label),
            ),
    {
        self.assignments.push(Assignment::Advice(column, offset, value, label));
        assert(self@ =~= old(self)@.push(
            Write::Advice(column, offset as int, value_of(value), label),
        ));
    }

    /// Gives a cell of an advice column a number as its value.
    pub fn assign_number(
        &mut self,
        label: Label,
        column: AdviceColumn,
        offset: usize,
        number: u64,
    )
        ensures
            final(self)@ == old(self)@.push(
                Write::Advice(column, offset as int, Some(number as nat), label),
            ),
    {
        self.assign_advice(label, column, offset, Some(Scalar::from_u64(number)));
    }

    /// Gives a cell of a fixed column its value.
    pub fn assign_fixed(
        &mut self,
        label: Label,
        column: FixedColumn,
        offset: usize,
        value: Scalar,
    )
        ensures
            final(self)@ == old(self)@.push(
                Write::Fixed(column, offset as int, value.value(), label),
            ),
    {
        self.assignments.push(Assignment::Fixed(column, offset, value, label));
        assert(self@ =~= old(self)@.push(
            Write::Fixed(column, offset as int, value.value(), label),
        ));
    }

    /// Enables a selector.
    pub fn enable(&mut self, selector: Selector, offset: usize)
        ensures
            final(self)@ == old(self)@.push(Write::Enable(selector, offset as int)),
    {
        self.assignments.push(Assignment::Enable(selector, offset));
        assert(self@ =~= old(self)@.push(Write::Enable(selector, offset as int)));
    }
}

} // verus!
