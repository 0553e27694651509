//! The append-only message log: newest entries are appended at the end and
//! never discarded; the presentation layer decides how many it shows.

use vstd::prelude::*;

use crate::color::Color;

verus! {

/// The message log: an append-ordered sequence of `(text, colour)` pairs.
pub type Messages = Vec<(String, Color)>;

/// Append access to a message log.
pub trait MessageLog: View<V = Seq<(String, Color)>> {
    /// Appends one message; everything already logged is retained.
    fn add(&mut self, message: String, color: Color)
        ensures
            final(self)@ == old(self)@.push((message, color)),
    ;
}

impl MessageLog for Messages {
    fn add(&mut self, message: String, color: Color) {
        self.push((message, color));
    }
}

/// `new` is `old` with exactly one entry appended: text `msg`, colour `color`.
pub open spec fn log_appended(
    old_log: Seq<(String, Color)>,
    new_log: Seq<(String, Color)>,
    msg: Seq<char>,
    color: Color,
) -> bool {
    &&& new_log.len() == old_log.len() + 1
    &&& forall|i: int| 0 <= i < old_log.len() ==> new_log[i] == old_log[i]
    &&& new_log.last().0@ == msg
    &&& new_log.last().1 == color
}

/// `new` is `old` with exactly two entries appended, in order.
pub open spec fn log_appended2(
    old_log: Seq<(String, Color)>,
    new_log: Seq<(String, Color)>,
    msg1: Seq<char>,
    color1: Color,
    msg2: Seq<char>,
    color2: Color,
) -> bool {
    &&& new_log.len() == old_log.len() + 2
    &&& forall|i: int| 0 <= i < old_log.len() ==> new_log[i] == old_log[i]
    &&& new_log[old_log.len() as int].0@ == msg1
    &&& new_log[old_log.len() as int].1 == color1
    &&& new_log.last().0@ == msg2
    &&& new_log.last().1 == color2
}

} // verus!
