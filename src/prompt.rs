use vstd::prelude::*;

verus! {

/// Decides how yes/no confirmations are answered.
#[derive(Clone, Copy, PartialEq, Eq, Debug)]
pub struct PromptGate {
    /// Every confirmation is accepted (set once negotiation has finished).
    pub bypass: bool,
    /// The session is interactive: the operator is asked even under the bypass.
    pub interactive: bool,
}

impl PromptGate {
    /// A gate that asks, for a session that is interactive or not.
    pub fn new(interactive: bool) -> (r: PromptGate)
        ensures
            r == (PromptGate { bypass: false, interactive }),
    {
        PromptGate { bypass: false, interactive }
    }

    /// Sets the bypass, as negotiation does when it finishes.
    pub fn set_bypass(&mut self, bypass: bool)
        ensures
            *final(self) == (PromptGate { bypass, interactive: old(self).interactive }),
    {
        self.bypass = bypass;
    }

    /// The answer given without asking: yes under the bypass in a non-interactive session,
    /// otherwise none, and the operator is asked (default yes).
    pub fn preset_answer(&self) -> (r: Option<bool>)
        ensures
            r == (if self.bypass && !self.interactive { Some(true) } else { None::<bool> }),
    {
        if self.bypass && !self.interactive {
            Some(true)
        } else {
            None
        }
    }

    /// The outcome of a confirmation, given what the operator would answer if asked.
    pub fn confirm(&self, asked: bool) -> (r: bool)
        ensures
            r == ((self.bypass && !self.interactive) || asked),
    {
        match self.preset_answer() {
            Some(a) => a,
            None => asked,
        }
    }
}

/// The note to print after an answer: the one for acceptance or the one for rejection.
pub fn answer_note<'a>(accepted: bool, on_accept: Option<&'a str>, on_reject: Option<&'a str>) -> (r: Option<&'a str>)
    ensures
        r == (if accepted { on_accept } else { on_reject }),
{
    if accepted {
        on_accept
    } else {
        on_reject
    }
}

} // verus!
