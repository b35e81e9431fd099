//! A terminal user-interface core: a tree of widgets rendered into a
//! character grid, composited with ANSI styling, and driven by an event
//! loop that dispatches keyboard input along the focused path.

use vstd::prelude::*;

pub mod ansi;
pub mod runtime;
pub mod ui;
pub mod utils;
pub mod widget;

verus! {

/// An override cell: a value that remembers whether it was set explicitly
/// (`Custom`) or still carries a default (`Default`).
///
/// A styling pass may apply class-derived defaults with [`Value::try_set_value`]
/// without clobbering a per-instance override applied earlier, and vice versa.
#[derive(Debug, Clone, Copy, PartialEq, Eq)]
pub enum Value<T> {
    Default(T),
    Custom(T),
}

impl<T: Copy> Value<T> {
    /// The value held, whichever tag it carries.
    pub open spec fn spec_value(self) -> T {
        match self {
            Value::Default(v) => v,
            Value::Custom(v) => v,
        }
    }

    /// What [`Value::try_set_value`] leaves in the cell.
    pub open spec fn spec_try_set(self, value: T) -> Value<T> {
        match self {
            Value::Default(_) => Value::Custom(value),
            Value::Custom(_) => self,
        }
    }

    pub fn get_value(&self) -> (r: T)
        ensures
            r == self.spec_value(),
    {
        match self {
            Value::Custom(s) => *s,
            Value::Default(s) => *s,
        }
    }

    /// Sets the cell only while it still carries a default; once a value has
    /// been set explicitly the cell never changes again.
    pub fn try_set_value(&mut self, value: T)
        ensures
            *final(self) == (*old(self)).spec_try_set(value),
            (*old(self)) is Default ==> *final(self) == Value::<T>::Custom(value),
            (*old(self)) is Custom ==> *final(self) == *old(self),
    {
        if let Value::Default(_) = *self {
            *self = Value::Custom(value);
        }
    }
}

/// A request a handler sends to the owning runtime loop over its command
/// channel: stop the loop, repaint, or look a widget up by identifier.
#[derive(Debug, Clone, PartialEq, Eq)]
pub enum Command {
    Exit,
    Render,
    GetElementById(String),
}

/// Override precedence: a cell still carrying a default becomes `Custom` on
/// the first `try_set_value`; a second `try_set_value` on the now-`Custom`
/// cell is a no-op, so the first explicitly set value is what `get_value`
/// returns for the cell's remaining lifetime.
pub proof fn lemma_value_override_precedence<T: Copy>(v0: T, first: T, second: T)
    ensures
        Value::Default(v0).spec_try_set(first) == Value::<T>::Custom(first),
        Value::Default(v0).spec_try_set(first).spec_try_set(second)
            == Value::<T>::Custom(first),
        Value::Default(v0).spec_try_set(first).spec_try_set(second).spec_value() == first,
{
}

} // verus!
