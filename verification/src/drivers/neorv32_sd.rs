//! The bit-banged SPI bus of the NEORV32 SD card slot: the GPIO output word
//! that drives clock, data out and chip select, and how received bits are
//! shifted in.
//!
//! A byte goes out most significant bit first. For each bit the kernel
//! writes [`Neorv32SdBus::drive_bit`]'s word with the clock low, waits half a
//! cycle, writes [`Neorv32SdBus::raise_clock`]'s word, waits again, and feeds
//! the GPIO input to [`shift_in`]; after the eighth bit it lowers the clock.

use vstd::prelude::*;

verus! {

/// The NEORV32 GPIO block; the input word is at the base, the output word
/// four bytes above it.
pub const GPIO_BASE: usize = 0xfffc_0000;
/// The board's reference clock.
pub const SYSTEM_CLOCK_HZ: u32 = 96_000_000;
/// Clock cycles in one millisecond.
pub const CYCLES_PER_MILLISECOND: u32 = 96_000;
/// GPIO output bit: SPI clock.
pub const GPIO_SCK: u32 = 1;
/// GPIO output bit: data to the card.
pub const GPIO_MOSI: u32 = 2;
/// GPIO output bit: chip select.
pub const GPIO_SELECT: u32 = 4;
/// GPIO input bit: data from the card.
pub const GPIO_MISO: u32 = 8;
/// Clock cycles in half an SPI clock period.
pub const HALF_CYCLE: u32 = 128;

/// The GPIO output word that the bus drives.
#[derive(Debug, Clone, Copy, PartialEq, Eq, Structural)]
pub struct Neorv32SdBus {
    pub output: u32,
}

/// Whether bit `bit` of `byte` is set.
pub open spec fn bit_of(byte: u8, bit: u8) -> bool {
    (byte >> bit) & 1u8 == 1u8
}

/// The received byte after one more bit came in.
pub open spec fn shift_in_spec(rx: u8, miso: bool) -> u8 {
    ((rx << 1u8) | (if miso { 1u8 } else { 0u8 })) as u8
}

/// What `k` clock cycles of a transfer of `tx` receive when the card echoes
/// every bit it gets: the bits from the top down.
pub open spec fn echoed(tx: u8, k: nat) -> u8
    recommends
        k <= 8,
    decreases k,
{
    if k == 0 {
        0
    } else {
        shift_in_spec(echoed(tx, (k - 1) as nat), bit_of(tx, (8 - k) as u8))
    }
}

impl Neorv32SdBus {
    /// The idle, deselected bus: data out high, clock low, card not selected.
    pub fn new() -> (r: Self)
        ensures
            r.output == GPIO_MOSI,
    {
        Neorv32SdBus { output: GPIO_MOSI }
    }

    /// Selects the card or lets it go, with the clock low and data out high.
    pub fn select(&mut self, active: bool)
        ensures
            final(self).output == (if active {
                ((old(self).output & !GPIO_SCK) | GPIO_MOSI) | GPIO_SELECT
            } else {
                ((old(self).output & !GPIO_SCK) | GPIO_MOSI) & !GPIO_SELECT
            }),
    {
        self.output = self.output & !GPIO_SCK;
        self.output = self.output | GPIO_MOSI;
        if active {
            self.output = self.output | GPIO_SELECT;
        } else {
            self.output = self.output & !GPIO_SELECT;
        }
    }

    /// Lowers the clock and puts bit `bit` of `tx` on the data line.
    pub fn drive_bit(&mut self, tx: u8, bit: u8)
        requires
            bit < 8,
        ensures
            final(self).output == (if bit_of(tx, bit) {
                (old(self).output & !GPIO_SCK) | GPIO_MOSI
            } else {
                (old(self).output & !GPIO_SCK) & !GPIO_MOSI
            }),
    {
        self.output = self.output & !GPIO_SCK;
        if tx & (1u8 << bit) != 0 {
            assert(bit_of(tx, bit)) by (bit_vector)
                requires
                    bit < 8,
                    tx & (1u8 << bit) != 0,
            ;
            self.output = self.output | GPIO_MOSI;
        } else {
            assert(!bit_of(tx, bit)) by (bit_vector)
                requires
                    bit < 8,
                    tx & (1u8 << bit) == 0,
            ;
            self.output = self.output & !GPIO_MOSI;
        }
    }

    /// Raises the clock: the card samples the data line.
    pub fn raise_clock(&mut self)
        ensures
            final(self).output == old(self).output | GPIO_SCK,
    {
        self.output = self.output | GPIO_SCK;
    }

    /// Lowers the clock at the end of a byte.
    pub fn lower_clock(&mut self)
        ensures
            final(self).output == old(self).output & !GPIO_SCK,
    {
        self.output = self.output & !GPIO_SCK;
    }
}

/// Shifts the data-in bit of a GPIO input word into the received byte.
pub fn shift_in(rx: u8, input: u32) -> (r: u8)
    ensures
        r == shift_in_spec(rx, input & GPIO_MISO != 0),
{
    let miso: u8 = if input & GPIO_MISO != 0 { 1 } else { 0 };
    ((rx << 1u8) | miso) as u8
}

/// Whether `drive_bit` set the data line: the bit the card sees.
pub open spec fn drives_mosi(output: u32) -> bool {
    output & GPIO_MOSI != 0
}

/// Each bit that `drive_bit` puts on the line is the bit of the byte sent.
pub proof fn lemma_drive_bit_sends_the_bit(output: u32, tx: u8, bit: u8)
    requires
        bit < 8,
    ensures
        drives_mosi(if bit_of(tx, bit) {
            (output & !GPIO_SCK) | GPIO_MOSI
        } else {
            (output & !GPIO_SCK) & !GPIO_MOSI
        }) == bit_of(tx, bit),
{
    assert(((output & !1u32) | 2u32) & 2u32 != 0) by (bit_vector);
    assert(((output & !1u32) & !2u32) & 2u32 == 0) by (bit_vector);
}

/// A card that echoes every bit hands back the byte that was sent: after
/// the eighth clock cycle the received byte is `tx`.
pub proof fn lemma_echo_returns_the_byte(tx: u8)
    ensures
        echoed(tx, 8) == tx,
{
    assert forall|k: nat| k <= 8 implies #[trigger] echoed(tx, k) == tx >> ((8 - k) as u8) by {
        lemma_echoed_prefix(tx, k);
    }
    assert(tx >> 0u8 == tx) by (bit_vector);
}

proof fn lemma_echoed_prefix(tx: u8, k: nat)
    requires
        k <= 8,
    ensures
        echoed(tx, k) == tx >> ((8 - k) as u8),
    decreases k,
{
    if k == 0 {
        assert(tx >> 8u8 == 0u8) by (bit_vector);
    } else {
        lemma_echoed_prefix(tx, (k - 1) as nat);
        let s: u8 = (8 - k) as u8;
        assert(((((tx >> (s + 1) as u8) << 1u8) | (if (tx >> s) & 1u8 == 1u8 {
            1u8
        } else {
            0u8
        })) as u8) == tx >> s) by (bit_vector)
            requires
                s < 8,
        ;
    }
}

} // verus!
