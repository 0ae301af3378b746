//! The kernel shell's pure parts: reading a command line byte by byte, and
//! telling its commands apart.

pub mod command;
pub mod line;

use vstd::prelude::*;

verus! {

/// `cat` must end its output with a newline of its own when the last byte
/// it wrote was not one.
pub open spec fn cat_needs_newline_spec(last_byte: Option<u8>) -> bool {
    last_byte matches Some(b) && b != 0x0a
}

/// Whether `cat` must end its output with a newline of its own: when the
/// last byte it wrote was not one, so that what follows starts a new line.
pub fn cat_needs_newline(last_byte: Option<u8>) -> (r: bool)
    ensures
        r == cat_needs_newline_spec(last_byte),
{
    match last_byte {
        Some(byte) => byte != 0x0a,
        None => false,
    }
}

/// Ends the output of `cat`, even one cut short by an error: writes a newline
/// through `write` when [`cat_needs_newline`] says so (and only then), and
/// hands `result` back.
pub fn finish_cat_output<E, F: FnMut(u8)>(
    result: Result<(), E>,
    last_byte: Option<u8>,
    mut write: F,
) -> (r: Result<(), E>)
    requires
        call_requires(write, (0x0au8,)),
    ensures
        r == result,
        cat_needs_newline_spec(last_byte) ==> call_ensures(write, (0x0au8,), ()),
{
    if cat_needs_newline(last_byte) {
        write(0x0a);
    }
    result
}

} // verus!
