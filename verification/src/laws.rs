//! What holds of every evaluation, proved of the machine.

pub mod bindings;
pub mod blanks;
pub mod division;
pub mod framing;
pub mod grouping;
pub mod parentheses;
pub mod regrouped;
pub mod runs;
pub mod standard;
