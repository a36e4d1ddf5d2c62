use vstd::prelude::*;

use crate::color::Color;

verus! {

/// The append-only log of game messages: (text, color) pairs, oldest first.
/// It is displayed most-recent-first by the front end and never truncated.
pub struct Messages {
    messages: Vec<(String, Color)>,
}

impl View for Messages {
    type V = Seq<(String, Color)>;

    closed spec fn view(&self) -> Seq<(String, Color)> {
        self.messages@
    }
}

impl Messages {
    pub fn new() -> (m: Messages)
        ensures
            m@.len() == 0,
    {
        Messages { messages: Vec::new() }
    }

    /// Append one message; nothing already logged moves or changes.
    pub fn add(&mut self, message: String, color: Color)
        ensures
            final(self)@ == old(self)@.push((message, color)),
    {
        self.messages.push((message, color));
    }

    pub fn len(&self) -> (n: usize)
        ensures
            n == self@.len(),
    {
        self.messages.len()
    }

    pub fn get(&self, i: usize) -> (r: &(String, Color))
        requires
            i < self@.len(),
        ensures
            *r == self@[i as int],
    {
        &self.messages[i]
    }
}

} // verus!
