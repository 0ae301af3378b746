use minios::drivers::neorv32_sd::{
    GPIO_MISO, GPIO_MOSI, GPIO_SCK, GPIO_SELECT, Neorv32SdBus, shift_in,
};
use minios::drivers::neorv32_uart::{
    BAUD_RATE, RX_NOT_EMPTY, SYSTEM_CLOCK_HZ, TX_FULL, rx_has_byte, tx_has_room, uart_control,
};

#[test]
fn uart_control_for_the_board_clock() {
    // 96 MHz / (2 * 19200) = 2500, scaled twice by two to 625 at prescaler 2.
    assert_eq!(uart_control(SYSTEM_CLOCK_HZ, BAUD_RATE), 1 | (2 << 3) | (624 << 6));
}

#[test]
fn uart_control_is_zero_without_a_rate() {
    assert_eq!(uart_control(0, 19_200), 0);
    assert_eq!(uart_control(96_000_000, 0), 0);
}

#[test]
fn uart_control_without_scaling() {
    // 1 MHz / (2 * 500 kHz) = 1: no prescaler, divisor one.
    assert_eq!(uart_control(1_000_000, 500_000), 1);
    assert_eq!(uart_control(2_000_000, 1_000), 1 | (999 << 6));
}

#[test]
fn uart_control_uses_the_divide_by_eight_steps() {
    // 2^31 / 2 = 2^30 goes down by 2, 2, 8, 2, 8, 2, 2, 2, 2, 2 below 0x3ff.
    assert_eq!(uart_control(0x8000_0000, 1), 1 | (17 << 3) | (511 << 6));
}

#[test]
fn uart_control_bits() {
    assert!(tx_has_room(0));
    assert!(!tx_has_room(TX_FULL));
    assert!(rx_has_byte(RX_NOT_EMPTY));
    assert!(!rx_has_byte(TX_FULL));
}

#[test]
fn sd_bus_idles_with_data_high() {
    assert_eq!(Neorv32SdBus::new().output, GPIO_MOSI);
}

#[test]
fn sd_bus_select_drives_chip_select_with_the_clock_low() {
    let mut bus = Neorv32SdBus { output: GPIO_SCK };
    bus.select(true);
    assert_eq!(bus.output, GPIO_MOSI | GPIO_SELECT);
    bus.select(false);
    assert_eq!(bus.output, GPIO_MOSI);
}

#[test]
fn sd_bus_transfer_sends_msb_first_and_echo_returns_the_byte() {
    let mut bus = Neorv32SdBus::new();
    let tx = 0b1010_0110u8;
    let mut rx = 0u8;
    let mut sent = Vec::new();
    for bit in (0..8u8).rev() {
        bus.drive_bit(tx, bit);
        assert_eq!(bus.output & GPIO_SCK, 0);
        let mosi = bus.output & GPIO_MOSI != 0;
        sent.push(mosi);
        bus.raise_clock();
        assert_eq!(bus.output & GPIO_SCK, GPIO_SCK);
        let input = if mosi { GPIO_MISO } else { 0 };
        rx = shift_in(rx, input);
    }
    bus.lower_clock();
    assert_eq!(bus.output & GPIO_SCK, 0);
    assert_eq!(sent, vec![true, false, true, false, false, true, true, false]);
    assert_eq!(rx, tx);
}
