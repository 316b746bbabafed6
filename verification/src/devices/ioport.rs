//! An I/O port, by its number.
use vstd::prelude::*;

verus! {

#[derive(Debug, Clone, Copy)]
pub struct Port {
    port_number: u16,
}

impl Port {
    /// The number of the port.
    pub closed spec fn number(&self) -> u16 {
        self.port_number
    }

    pub fn new(port_number: u16) -> (r: Port)
        ensures
            r.number() == port_number,
    {
        Port { port_number }
    }

    /// The number of the port.
    pub fn port_number(&self) -> (r: u16)
        ensures
            r == self.number(),
    {
        self.port_number
    }
}

} // verus!
