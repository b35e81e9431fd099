//! Runtime-loop primitives: the normalized event stream's types, named key
//! actions, and the cooperative tick scheduler for delayed state
//! transitions.
//!
//! The loop itself polls an external event source and performs I/O; the
//! decisions it takes each iteration — which tick fires next, with what
//! timeout, and what a widget does with an event — are the functions here
//! and on the widget tree.

use vstd::prelude::*;

verus! {

/// A named key from the normalized input stream.
#[derive(Debug, Clone, Copy, PartialEq, Eq, Structural)]
pub enum Key {
    Up,
    Down,
    Left,
    Right,
    Enter,
    Tab,
    ShiftTab,
    Esc,
    Char(char),
}

/// A normalized input event: a key press or a terminal resize.
#[derive(Debug, Clone, Copy, PartialEq, Eq, Structural)]
pub enum Event {
    Key(Key),
    Resize(usize, usize),
}

/// A named action a key binding can trigger on the widget that owns it.
#[derive(Debug, Clone, Copy, PartialEq, Eq, Structural)]
pub enum Action {
    FocusUp,
    FocusDown,
    FocusLeft,
    FocusRight,
    Click,
    NextTab,
    PreviousTab,
}

/// One scheduled transient transition: the render state to apply and the
/// delay (in the loop's own units) before it is applied.
#[derive(Debug, Clone, Copy, PartialEq, Eq, Structural)]
pub struct TickStep {
    pub state: usize,
    pub delay: usize,
}

/// The pending transient transitions recorded against a widget, advanced
/// one step per elapsed tick by the runtime loop.
#[derive(Debug)]
pub struct Scheduler {
    pub steps: Vec<TickStep>,
    pub next: usize,
}

impl Scheduler {
    /// What remains scheduled.
    pub open spec fn pending(self) -> Seq<TickStep> {
        if self.next <= self.steps@.len() {
            self.steps@.skip(self.next as int)
        } else {
            Seq::empty()
        }
    }

    /// An empty schedule: nothing pending.
    pub fn new() -> (r: Scheduler)
        ensures
            r.pending() == Seq::<TickStep>::empty(),
            r.steps@.len() == 0,
            r.next == 0,
    {
        let r = Scheduler { steps: Vec::new(), next: 0 };
        proof {
            assert(r.pending() =~= Seq::<TickStep>::empty());
        }
        r
    }

    /// Records a fresh sequence of transitions, dropping anything pending.
    pub fn schedule(&mut self, steps: Vec<TickStep>)
        ensures
            final(self).pending() == steps@,
            final(self).steps == steps,
            final(self).next == 0,
    {
        self.steps = steps;
        self.next = 0;
        proof {
            assert(self.pending() =~= self.steps@);
        }
    }

    /// The delay to wait before the next transition, when one is pending.
    pub fn current_delay(&self) -> (r: Option<usize>)
        ensures
            match r {
                Some(d) => self.pending().len() > 0 && d == self.pending()[0].delay,
                None => self.pending().len() == 0,
            },
    {
        if self.next < self.steps.len() {
            proof {
                assert(self.pending()[0] == self.steps@[self.next as int]);
            }
            Some(self.steps[self.next].delay)
        } else {
            None
        }
    }

    /// Takes the next transition: its index in the recorded sequence and
    /// the render state it applies; `None` when nothing is pending.
    pub fn advance(&mut self) -> (r: Option<(usize, usize)>)
        ensures
            match r {
                Some(t) => {
                    &&& old(self).pending().len() > 0
                    &&& t.0 == old(self).next
                    &&& t.1 == old(self).pending()[0].state
                    &&& final(self).next == old(self).next + 1
                    &&& final(self).steps == old(self).steps
                    &&& final(self).pending() == old(self).pending().skip(1)
                },
                None => old(self).pending().len() == 0 && *final(self) == *old(self),
            },
    {
        if self.next < self.steps.len() {
            let i = self.next;
            let st = self.steps[i].state;
            self.next = i + 1;
            proof {
                assert(old(self).pending()[0] == self.steps@[i as int]);
                assert(self.pending() =~= old(self).pending().skip(1));
            }
            Some((i, st))
        } else {
            None
        }
    }
}

} // verus!
