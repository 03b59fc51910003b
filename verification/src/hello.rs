//! A resumable computation with explicit phases: it announces two words on
//! two resumptions, asking to be rescheduled after each, and reports
//! completion on the third.

use vstd::prelude::*;

verus! {

/// The phase the computation will run next.
#[allow(non_camel_case_types)]
#[derive(PartialEq, Eq, Structural, Clone, Copy, Debug)]
pub enum StateHello {
    HELLO,
    WORLD,
    END,
}

/// The two-step greeting computation; each resumption performs one phase and
/// remembers where it left off.
pub struct Hello {
    state: StateHello,
}

impl Hello {
    /// The phase the next resumption will run.
    pub closed spec fn phase(&self) -> StateHello {
        self.state
    }

    /// A fresh computation, about to run its first phase.
    pub fn new() -> (h: Hello)
        ensures
            h.phase() == StateHello::HELLO,
    {
        Hello { state: StateHello::HELLO }
    }

    /// One resumption.  `Some(text)` means: print `text`, ask to be woken
    /// again (the computation is not finished), and report "pending".
    /// `None` means the computation is finished.
    pub fn poll_step(&mut self) -> (r: Option<&'static str>)
        ensures
            match old(self).phase() {
                StateHello::HELLO => r is Some && r.unwrap()@ == "Hello, "@ && final(self).phase()
                    == StateHello::WORLD,
                StateHello::WORLD => r is Some && r.unwrap()@ == "World!"@ && final(self).phase()
                    == StateHello::END,
                StateHello::END => r is None && final(self).phase() == StateHello::END,
            },
    {
        match self.state {
            StateHello::HELLO => {
                self.state = StateHello::WORLD;
                Some("Hello, ")
            },
            StateHello::WORLD => {
                self.state = StateHello::END;
                Some("World!")
            },
            StateHello::END => None,
        }
    }
}

} // verus!
