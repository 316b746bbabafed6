//! The registers of a 16550 serial port and the values written to them.
use crate::devices::ioport::Port;
use vstd::prelude::*;

verus! {

/// The first port of COM1.
pub const COM1_BASE: u16 = 0x3F8;

/// Eight data bits, one stop bit, no parity.
pub const LINE_CONTROL_8N1: u8 = 0x03;

/// FIFOs on, both cleared.
pub const FIFO_CONTROL_ENABLE: u8 = 0x07;

/// Data terminal ready, request to send, auxiliary output 2.
pub const MODEM_CONTROL_READY: u8 = 0x0B;

/// The eight registers of a serial port, from its base port on.
#[derive(Debug, Clone, Copy)]
pub struct SerialPort {
    pub data_reg: Port,
    pub inter_reg: Port,
    pub inter_ident_fifo_control_reg: Port,
    pub line_control_reg: Port,
    pub modem_control_reg: Port,
    pub line_status_reg: Port,
    pub modem_status_reg: Port,
    pub scratch_reg: Port,
}

impl SerialPort {
    /// The serial port whose registers start at `base_port`.
    pub fn new(base_port: u16) -> (r: SerialPort)
        requires
            base_port + 7 <= u16::MAX,
        ensures
            r.data_reg.number() == base_port,
            r.inter_reg.number() == base_port + 1,
            r.inter_ident_fifo_control_reg.number() == base_port + 2,
            r.line_control_reg.number() == base_port + 3,
            r.modem_control_reg.number() == base_port + 4,
            r.line_status_reg.number() == base_port + 5,
            r.modem_status_reg.number() == base_port + 6,
            r.scratch_reg.number() == base_port + 7,
    {
        SerialPort {
            data_reg: Port::new(base_port),
            inter_reg: Port::new(base_port + 1),
            inter_ident_fifo_control_reg: Port::new(base_port + 2),
            line_control_reg: Port::new(base_port + 3),
            modem_control_reg: Port::new(base_port + 4),
            line_status_reg: Port::new(base_port + 5),
            modem_status_reg: Port::new(base_port + 6),
            scratch_reg: Port::new(base_port + 7),
        }
    }
}

/// The two bytes of a baud divisor, low byte first.
pub fn divisor_bytes(divisor: u16) -> (r: (u8, u8))
    ensures
        r.0 == divisor % 0x100,
        r.1 == divisor / 0x100,
{
    assert(divisor & 0xFF == divisor % 0x100 && (divisor >> 8) & 0xFF == divisor / 0x100)
        by (bit_vector);
    let least_significant_byte = (divisor & 0xFF) as u8;
    let most_significant_byte = (divisor >> 8 & 0xFF) as u8;
    (least_significant_byte, most_significant_byte)
}

/// The value of the line control register with the divisor latch bit set or
/// cleared and its other bits as in `current`.
pub fn line_control_with_dlab(current: u8, enable: bool) -> (r: u8)
    ensures
        r == if enable {
            current | 0x80
        } else {
            current & 0x7F
        },
{
    if enable {
        current | 0x80
    } else {
        current & 0x7F
    }
}

/// Whether the line status `status` says that the transmit buffer is empty:
/// bit 5 is set.
pub fn is_transmit_empty(status: u8) -> (r: bool)
    ensures
        r == (status / 0x20 % 2 == 1),
{
    assert((status & 0x20 != 0) == (status / 0x20 % 2 == 1)) by (bit_vector);
    (status & 0x20) != 0
}

} // verus!
