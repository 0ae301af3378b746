//! Telling interrupts from exceptions in the `scause` register.

use vstd::prelude::*;

verus! {

#[derive(Debug, Clone, Copy, PartialEq, Eq, Structural)]
pub enum TrapCause {
    Interrupt(usize),
    Exception(usize),
}

/// The value of the top bit of a `usize`: the interrupt flag of `scause`.
pub open spec fn interrupt_flag() -> usize {
    1usize << ((usize::BITS - 1) as u32)
}

/// The top bit of `scause` tells an interrupt from an exception; the other
/// bits hold the cause code.
pub open spec fn trap_cause(value: usize) -> TrapCause {
    if value < interrupt_flag() {
        TrapCause::Exception(value)
    } else {
        TrapCause::Interrupt((value - interrupt_flag()) as usize)
    }
}

pub fn decode_scause(value: usize) -> (r: TrapCause)
    ensures
        r == trap_cause(value),
{
    let interrupt_bit: usize = 1usize << (usize::BITS - 1);
    assert(interrupt_bit == interrupt_flag());
    let code = value & !interrupt_bit;
    proof {
        assert((value & interrupt_bit == 0) == (value < interrupt_bit) && code == if value
            < interrupt_bit {
            value
        } else {
            (value - interrupt_bit) as usize
        }) by (bit_vector)
            requires
                interrupt_bit == 1usize << ((usize::BITS - 1) as u32),
                code == value & !interrupt_bit,
        ;
    }
    if value & interrupt_bit == 0 {
        TrapCause::Exception(code)
    } else {
        TrapCause::Interrupt(code)
    }
}

} // verus!
