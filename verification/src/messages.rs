//! The message log.

use crate::colors::Color;
use vstd::prelude::*;
use vstd::string::*;

verus! {

/// The message log: lines of text, each with its colour, oldest first.
#[derive(Debug, PartialEq, Eq)]
pub struct Messages {
    pub messages: Vec<(String, Color)>,
}

impl View for Messages {
    type V = Seq<(Seq<char>, Color)>;

    open spec fn view(&self) -> Seq<(Seq<char>, Color)> {
        Seq::new(self.messages@.len(), |i: int| (self.messages@[i].0@, self.messages@[i].1))
    }
}

impl Messages {
    /// An empty log.
    pub fn new() -> (log: Messages)
        ensures
            log@ == Seq::<(Seq<char>, Color)>::empty(),
    {
        let log = Messages { messages: Vec::new() };
        assert(log@ =~= Seq::<(Seq<char>, Color)>::empty());
        log
    }

    /// Appends a line to the log.
    pub fn add(&mut self, message: String, color: Color)
        ensures
            final(self)@ == old(self)@.push((message@, color)),
    {
        self.messages.push((message, color));
        assert(self@ =~= old(self)@.push((message@, color)));
    }

    /// Appends a line given as a string slice.
    pub fn add_str(&mut self, message: &str, color: Color)
        ensures
            final(self)@ == old(self)@.push((message@, color)),
    {
        self.add(String::from_str(message), color);
    }

    /// The number of lines in the log.
    pub fn len(&self) -> (n: usize)
        ensures
            n == self@.len(),
    {
        self.messages.len()
    }

    /// The text of line `i`, counted from the oldest.
    pub fn text(&self, i: usize) -> (s: &str)
        requires
            i < self@.len(),
        ensures
            s@ == self@[i as int].0,
    {
        self.messages[i].0.as_str()
    }

    /// The colour of line `i`, counted from the oldest.
    pub fn color(&self, i: usize) -> (c: Color)
        requires
            i < self@.len(),
        ensures
            c == self@[i as int].1,
    {
        self.messages[i].1
    }
}

} // verus!
