//! The cursor of the terminal interface over the list of parameters.
use vstd::prelude::*;
use crate::parameters::Parameters;

verus! {

/// Which parameter the interface points at, out of how many.
pub struct Ui {
    position: u32,
    parameter_amount: u32,
}

/// The cursor position after a move down: the next parameter, held at the last one.
pub open spec fn position_down(position: int, amount: int) -> int {
    if position + 1 < amount - 1 {
        position + 1
    } else {
        amount - 1
    }
}

/// The cursor position after a move up: the previous parameter, held at the first one.
pub open spec fn position_up(position: int) -> int {
    if position > 0 {
        position - 1
    } else {
        0
    }
}

impl Ui {
    /// The selected parameter, counted from the top.
    pub closed spec fn spec_position(&self) -> u32 {
        self.position
    }

    /// How many parameters the cursor moves over.
    pub closed spec fn spec_parameter_amount(&self) -> u32 {
        self.parameter_amount
    }

    /// A cursor on the first of the parameters that `parameters` counts.
    pub fn new(parameters: &mut Parameters) -> (ui: Self)
        ensures
            ui.spec_position() == 0,
            ui.spec_parameter_amount() == old(parameters).parameter_amount,
            *final(parameters) == *old(parameters),
    {
        Self { parameter_amount: parameters.parameter_amount, position: 0 }
    }

    /// The selected parameter, counted from the top.
    pub fn position(&self) -> (p: u32)
        ensures
            p == self.spec_position(),
    {
        self.position
    }

    /// Steps up the selected parameter.
    pub fn increment_parameter(&mut self, parameters: &mut Parameters)
        requires
            old(parameters).can_increment_at(old(self).spec_position()),
        ensures
            *final(self) == *old(self),
            *final(parameters) == old(parameters).incremented_at(old(self).spec_position()),
    {
        parameters.increment_at(self.position);
    }

    /// Steps down the selected parameter.
    pub fn decrement_parameter(&mut self, parameters: &mut Parameters)
        requires
            old(parameters).can_decrement_at(old(self).spec_position()),
        ensures
            *final(self) == *old(self),
            *final(parameters) == old(parameters).decremented_at(old(self).spec_position()),
    {
        parameters.decrement_at(self.position);
    }

    /// Moves the cursor to the next parameter, stopping on the last one.
    pub fn increment_position(&mut self)
        requires
            old(self).spec_parameter_amount() >= 1,
            old(self).spec_position() < u32::MAX,
        ensures
            final(self).spec_position() == position_down(
                old(self).spec_position() as int,
                old(self).spec_parameter_amount() as int,
            ),
            final(self).spec_parameter_amount() == old(self).spec_parameter_amount(),
    {
        let next = self.position + 1;
        let last = self.parameter_amount - 1;
        self.position = if next < last { next } else { last };
    }

    /// Moves the cursor to the previous parameter, stopping on the first one.
    pub fn decrement_position(&mut self)
        ensures
            final(self).spec_position() == position_up(old(self).spec_position() as int),
            final(self).spec_parameter_amount() == old(self).spec_parameter_amount(),
    {
        self.position = self.position.saturating_sub(1);
    }
}

/// The cursor stays on a parameter: from any position below the parameter
/// count, moving down or up leaves it below the count.
pub proof fn law_cursor_stays_on_a_parameter(position: int, amount: int)
    requires
        0 <= position < amount,
    ensures
        0 <= position_down(position, amount) < amount,
        0 <= position_up(position) < amount,
{
}

/// Moving the cursor down goes to exactly the next parameter, or stays on the
/// last one; moving up goes to exactly the previous one, or stays on the first;
/// a move down that is not held at the last parameter is undone by a move up.
pub proof fn law_cursor_moves_one_parameter(position: int, amount: int)
    requires
        0 <= position < amount,
    ensures
        position + 1 < amount ==> position_down(position, amount) == position + 1,
        position + 1 >= amount ==> position_down(position, amount) == amount - 1,
        position >= 1 ==> position_up(position) == position - 1,
        position == 0 ==> position_up(position) == 0,
        position + 1 < amount ==> position_up(position_down(position, amount)) == position,
{
}

} // verus!
