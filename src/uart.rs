//! Register values for the two serial ports used for diagnostic output. The
//! ports are driven by busy-waiting on a status register and then writing one
//! character to a data register.
use vstd::prelude::*;

verus! {

/// Meson control register: transmitter enable.
pub const MESON_CONTROL_TX_ENABLE: u32 = 1 << 12;

/// Meson status register: transmit queue full.
pub const MESON_STATUS_TX_FIFO_FULL: u32 = 1 << 21;

/// i.MX status register: transmit data register empty.
pub const IMX_STAT_TDRE: u32 = 1 << 14;

/// The Meson control value that turns the transmitter on and keeps every
/// other bit.
pub fn meson_control_enabled(ctrl: u32) -> (r: u32)
    ensures
        r == ctrl | MESON_CONTROL_TX_ENABLE,
{
    ctrl | MESON_CONTROL_TX_ENABLE
}

/// Whether the Meson port can take a character now.
pub fn meson_can_transmit(status: u32) -> (r: bool)
    ensures
        r == (status & MESON_STATUS_TX_FIFO_FULL == 0),
{
    status & MESON_STATUS_TX_FIFO_FULL == 0
}

/// Whether the i.MX port can take a character now.
pub fn imx_can_transmit(stat: u32) -> (r: bool)
    ensures
        r == (stat & IMX_STAT_TDRE != 0),
{
    stat & IMX_STAT_TDRE != 0
}

/// The data-register word that sends character `c`.
pub fn transmit_word(c: u8) -> (r: u32)
    ensures
        r == c as u32,
{
    c as u32
}

} // verus!
