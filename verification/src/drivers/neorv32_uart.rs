//! The NEORV32 primary UART: the control word that sets its baud rate, and
//! what the bits of its control register say.

use vstd::prelude::*;

verus! {

/// The fixed MMIO base of UART0.
pub const UART_BASE: usize = 0xFFF5_0000;
/// Offset of the control register.
pub const CTRL_OFFSET: usize = 0x00;
/// Offset of the data register.
pub const DATA_OFFSET: usize = 0x04;
/// The reference clock of the NEORV32 board.
pub const SYSTEM_CLOCK_HZ: u32 = 96_000_000;
/// The line speed the kernel uses.
pub const BAUD_RATE: u32 = 19_200;
/// Control bit: the transmit FIFO is full.
pub const TX_FULL: u32 = 0x20_0000;
/// Control bit: the receive FIFO holds a byte.
pub const RX_NOT_EMPTY: u32 = 0x1_0000;

/// How far one prescaler step divides: by 8 at steps 2 and 4, else by 2.
pub open spec fn prescaler_shift(prescaler: nat) -> nat {
    if prescaler == 2 || prescaler == 4 {
        8
    } else {
        2
    }
}

/// The divisor and prescaler that scaling `divisor` down below `0x3ff`
/// arrives at, starting from prescaler step `prescaler`.
pub open spec fn scaled(divisor: nat, prescaler: nat) -> (nat, nat)
    decreases divisor,
{
    if divisor < 0x3ff {
        (divisor, prescaler)
    } else {
        scaled(divisor / prescaler_shift(prescaler), prescaler + 1)
    }
}

/// The control word for `clock_hz` and `baud_rate`: the enable bit, the
/// prescaler at bit 3 and the divisor less one at bit 6; all zero when
/// either rate is zero.
pub open spec fn uart_control_spec(clock_hz: u32, baud_rate: u32) -> u32 {
    if clock_hz == 0 || baud_rate == 0 {
        0
    } else {
        let s = scaled(clock_hz as nat / (2 * baud_rate as nat), 0);
        1u32 | ((s.1 as u32) << 3u32) | (((s.0 - 1) as u32) << 6u32)
    }
}

/// The control word that sets the UART to `baud_rate` at `clock_hz`.
///
/// A clock below twice the baud rate leaves no divisor to program.
pub fn uart_control(clock_hz: u32, baud_rate: u32) -> (r: u32)
    requires
        clock_hz == 0 || baud_rate == 0 || clock_hz as nat >= 2 * baud_rate as nat,
    ensures
        r == uart_control_spec(clock_hz, baud_rate),
{
    if clock_hz == 0 || baud_rate == 0 {
        return 0;
    }
    let mut prescaler: u32 = 0;
    let mut divisor: u64 = (clock_hz as u64) / (2 * baud_rate as u64);
    proof {
        assert(1 <= divisor <= clock_hz) by (nonlinear_arith)
            requires
                clock_hz as nat >= 2 * baud_rate as nat,
                baud_rate > 0,
                divisor == clock_hz as nat / (2 * baud_rate as nat),
        ;
    }
    let ghost start = divisor as nat;
    while divisor >= 0x3ff
        invariant
            1 <= divisor,
            prescaler as nat + divisor as nat <= start,
            start <= 0xffff_ffff,
            scaled(divisor as nat, prescaler as nat) == scaled(start, 0),
        decreases divisor,
    {
        let ghost before = divisor;
        if prescaler == 2 || prescaler == 4 {
            divisor = divisor >> 3u64;
            assert(divisor == before / 8) by (bit_vector)
                requires
                    divisor == before >> 3u64,
            ;
        } else {
            divisor = divisor >> 1u64;
            assert(divisor == before / 2) by (bit_vector)
                requires
                    divisor == before >> 1u64,
            ;
        }
        prescaler = prescaler + 1;
    }
    1u32 | (prescaler << 3u32) | (((divisor as u32) - 1) << 6u32)
}

/// Whether a control register value says the transmit FIFO has room.
pub fn tx_has_room(ctrl: u32) -> (r: bool)
    ensures
        r == (ctrl & TX_FULL == 0),
{
    ctrl & TX_FULL == 0
}

/// Whether a control register value says a received byte waits.
pub fn rx_has_byte(ctrl: u32) -> (r: bool)
    ensures
        r == (ctrl & RX_NOT_EMPTY != 0),
{
    ctrl & RX_NOT_EMPTY != 0
}

} // verus!
