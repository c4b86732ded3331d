//! Cursor movement.
use vstd::prelude::*;

use super::control_sequence::{csi, print};

verus! {

/// Move the cursor to beginning of the next line
pub fn move_down() -> (r: String)
    ensures
        r@ == csi(seq![1nat], 'E'),
{
    move_down_n(1)
}

/// Move the cursor to the beginning of the line `n` lines down
pub fn move_down_n(n: usize) -> (r: String)
    ensures
        r@ == csi(seq![n as nat], 'E'),
{
    let r = print(&[n], 'E');
    assert(seq![n].map_values(|p: usize| p as nat) =~= seq![n as nat]);
    r
}

/// Save the current cursor position
pub fn save_position() -> (r: String)
    ensures
        r@ == csi(Seq::empty(), 's'),
{
    let r = print(&[], 's');
    assert(Seq::<usize>::empty().map_values(|p: usize| p as nat) =~= Seq::<nat>::empty());
    r
}

/// Restore a saved cursor position
pub fn restore_position() -> (r: String)
    ensures
        r@ == csi(Seq::empty(), 'u'),
{
    let r = print(&[], 'u');
    assert(Seq::<usize>::empty().map_values(|p: usize| p as nat) =~= Seq::<nat>::empty());
    r
}

} // verus!
