//! The inputs of the calculator, and what each does to the calculation.

use vstd::prelude::*;
use crate::calculation::{Calculation, CalculationView, Operation};

verus! {

/// One input: a key or a button.
#[derive(Clone, Copy, Debug, PartialEq, Eq)]
pub enum Event {
    Number(usize),
    Clear,
    PlusMinus,
    Percent,
    Operation(Operation),
    Comma,
    Noop,
}

impl CalculationView {
    /// The calculation that typing continues: a fresh one if there is
    /// nothing of the user's to lose.
    pub open spec fn continued(self) -> CalculationView {
        if self.is_empty() {
            CalculationView::initial()
        } else {
            self
        }
    }

    /// Whether `evt` can be handled.
    pub open spec fn accepts(self, evt: Event) -> bool {
        match evt {
            Event::Number(num) => self.continued().accepts_number(num as nat),
            Event::Comma => self.continued().accepts_comma(),
            Event::Clear => self.is_empty() || self.accepts_removal(),
            _ => true,
        }
    }

    /// What `evt` does: a number or the decimal point is typed, into a
    /// fresh calculation if there is nothing to lose; an operation is
    /// chosen; `Equals` evaluates the chain if it can be evaluated;
    /// `Clear` takes back the last input, or starts afresh if there is
    /// nothing to lose. The other inputs do nothing.
    pub open spec fn on_event(self, evt: Event) -> CalculationView {
        match evt {
            Event::Number(num) => self.continued().append_number(num as nat),
            Event::Comma => self.continued().add_comma(),
            Event::Operation(Operation::Equals) => if self.can_calculate() {
                self.calculate()
            } else {
                self
            },
            Event::Operation(op) => self.append_operation(op),
            Event::Clear => if self.is_empty() {
                CalculationView::initial()
            } else {
                self.remove_last()
            },
            _ => self,
        }
    }
}

impl Calculation {
    /// Starts afresh if there is nothing of the user's to lose.
    fn start_over_if_empty(&mut self)
        ensures
            final(self)@ == old(self)@.continued(),
    {
        if self.is_empty() {
            *self = Calculation::default();
        }
    }

    /// Whether [`Calculation::on_event`] can be called with `evt`.
    pub fn accepts(&self, evt: &Event) -> (r: bool)
        ensures
            r == self@.accepts(*evt),
    {
        match evt {
            Event::Number(num) => {
                if self.is_empty() {
                    Calculation::default().accepts_number(*num)
                } else {
                    self.accepts_number(*num)
                }
            },
            Event::Comma => self.is_empty() || self.accepts_comma(),
            Event::Clear => self.is_empty() || self.accepts_removal(),
            _ => true,
        }
    }

    /// Handles one input.
    pub fn on_event(&mut self, evt: &Event)
        requires
            old(self)@.accepts(*evt),
        ensures
            final(self)@ == old(self)@.on_event(*evt),
    {
        match evt {
            Event::Number(num) => {
                self.start_over_if_empty();
                self.append_number(*num);
            },
            Event::Comma => {
                self.start_over_if_empty();
                self.add_comma();
            },
            Event::Operation(op) => {
                match op {
                    Operation::Equals => {
                        self.evaluate();
                    },
                    _ => {
                        self.append_operation(*op);
                    },
                }
            },
            Event::Clear => {
                if self.is_empty() {
                    *self = Calculation::default();
                } else {
                    self.remove_last();
                }
            },
            _ => {},
        }
    }
}

} // verus!
