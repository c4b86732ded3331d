//! ANSI control sequences, built as text for the caller to write out.
use vstd::prelude::*;

pub mod control_sequence;
pub mod cursor;
pub mod style;

use control_sequence::{csi, print};

verus! {

/// The sequences that erase the current line and move the cursor to its start.
pub open spec fn erase_line_sequence() -> Seq<char> {
    csi(seq![1nat], 'G') + csi(seq![2nat], 'K')
}

/// Erase the current line and move the cursor to the beginning of it
pub fn erase_line() -> (r: String)
    ensures
        r@ == erase_line_sequence(),
{
    let mut r = print(&[1], 'G');
    let el = print(&[2], 'K');
    r.append(el.as_str());
    r
}

} // verus!
