//! The serial port: a handle on its registers, and the divisor that sets
//! its input interrupt rate.

use vstd::prelude::*;

verus! {

/// Where the serial port's registers are.
pub const UART_ADDR: usize = 0x1000_0000;
/// The line status register's offset.
pub const LSR_OFFSET: usize = 5;
/// The baud rate divisor.
pub const DIVISOR: u16 = 592;

/// The serial port.
#[derive(Debug, Clone, Copy, PartialEq, Eq)]
pub struct Uart;

impl Uart {
    /// The serial port.
    pub fn new() -> (r: Self)
        ensures
            r == Uart,
    {
        Uart
    }
}

/// The low and the high byte of a divisor, as the divisor latch takes
/// them.
pub fn divisor_bytes(divisor: u16) -> (r: (u8, u8))
    ensures
        r.0 == divisor % 256,
        r.1 == divisor / 256,
        r.1 as int * 256 + r.0 as int == divisor,
{
    let least = (divisor & 0xff) as u8;
    let most = (divisor >> 8) as u8;
    assert(divisor & 0xff == divisor % 256 && divisor >> 8 == divisor / 256) by (bit_vector);
    (least, most)
}

/// Whether the line status byte `lsr` says a byte waits to be read.
pub fn input_ready(lsr: u8) -> (r: bool)
    ensures
        r == (lsr % 2 == 1),
{
    assert(lsr & 1 == 0 <==> lsr % 2 == 0) by (bit_vector);
    lsr & 1 != 0
}

} // verus!
