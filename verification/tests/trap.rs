use minios::arch::trap::{decode_scause, TrapCause};

#[test]
fn decodes_supervisor_timer_interrupt() {
    let value = (1usize << (usize::BITS - 1)) | 5;
    assert_eq!(decode_scause(value), TrapCause::Interrupt(5));
}

#[test]
fn decodes_breakpoint_exception() {
    assert_eq!(decode_scause(3), TrapCause::Exception(3));
}

#[test]
fn the_top_bit_alone_is_interrupt_zero() {
    assert_eq!(decode_scause(1usize << (usize::BITS - 1)), TrapCause::Interrupt(0));
    assert_eq!(decode_scause(usize::MAX >> 1), TrapCause::Exception(usize::MAX >> 1));
}
