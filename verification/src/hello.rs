//! A task that runs in steps and can be put aside between them.

use vstd::prelude::*;

verus! {

/// How far a greeting has come.
#[derive(Clone, Copy, Debug, PartialEq, Eq, Structural)]
pub enum StateHello {
    /// Nothing said yet.
    Hello,
    /// The first half said.
    World,
    /// All said.
    End,
}

/// A half of the greeting.
#[derive(Clone, Copy, Debug, PartialEq, Eq, Structural)]
pub enum Word {
    /// `Hello, `, with more to come on the line.
    Hello,
    /// `World!`, which ends the line.
    World,
}

impl Word {
    /// The text of this half.
    pub fn text(self) -> (r: &'static str)
        ensures
            r@ == match self {
                Word::Hello => "Hello, "@,
                Word::World => "World!"@,
            },
    {
        match self {
            Word::Hello => "Hello, ",
            Word::World => "World!",
        }
    }

    /// Tells whether the line ends after this half.
    pub fn ends_line(self) -> (r: bool)
        ensures
            r == (self == Word::World),
    {
        match self {
            Word::Hello => false,
            Word::World => true,
        }
    }
}

/// What one step of a greeting does.
#[derive(Clone, Copy, Debug, PartialEq, Eq, Structural)]
pub enum Polled {
    /// A half of the greeting is to be written; the greeting is not over.
    Pending(Word),
    /// The greeting is over.
    Ready,
}

/// A greeting that is said in two steps: a task that can be stopped and
/// taken up again.
pub struct Hello {
    state: StateHello,
}

impl Hello {
    /// Where the greeting stands.
    pub closed spec fn state(self) -> StateHello {
        self.state
    }

    /// A greeting of which nothing is said yet.
    pub fn new() -> (r: Self)
        ensures
            r.state() == StateHello::Hello,
    {
        Hello { state: StateHello::Hello }
    }

    /// Takes the greeting one step on and says what the step is to write.
    pub fn poll(&mut self) -> (r: Polled)
        ensures
            match old(self).state() {
                StateHello::Hello => r == Polled::Pending(Word::Hello) && final(self).state()
                    == StateHello::World,
                StateHello::World => r == Polled::Pending(Word::World) && final(self).state()
                    == StateHello::End,
                StateHello::End => r == Polled::Ready && final(self).state() == StateHello::End,
            },
    {
        match self.state {
            StateHello::Hello => {
                self.state = StateHello::World;
                Polled::Pending(Word::Hello)
            },
            StateHello::World => {
                self.state = StateHello::End;
                Polled::Pending(Word::World)
            },
            StateHello::End => Polled::Ready,
        }
    }
}

} // verus!
