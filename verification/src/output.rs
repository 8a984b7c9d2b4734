//! The text that has been typed.
use vstd::prelude::*;

verus! {

/// Assumed of the standard library's `String::push`, and not proved here: the
/// string afterwards is the string before with `ch` added as its last
/// character.
pub assume_specification[ String::push ](text: &mut String, ch: char)
    ensures
        final(text)@ == old(text)@.push(ch),
;

/// The committed symbols, oldest first. Symbols are only ever added at the end.
pub struct Output {
    text: String,
}

impl View for Output {
    type V = Seq<char>;

    closed spec fn view(&self) -> Seq<char> {
        self.text@
    }
}

impl Output {
    /// An output to which nothing has been committed.
    pub fn new() -> (output: Output)
        ensures
            output@ == Seq::<char>::empty(),
    {
        Output { text: String::new() }
    }

    /// Appends `symbol` to what has been committed.
    pub fn push(&mut self, symbol: char)
        ensures
            final(self)@ == old(self)@.push(symbol),
    {
        self.text.push(symbol);
    }

    /// Everything committed so far, as text.
    pub fn as_str(&self) -> (text: &str)
        ensures
            text@ == self@,
    {
        self.text.as_str()
    }
}

} // verus!
