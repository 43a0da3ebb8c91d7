use vstd::prelude::*;

verus! {

/// The network address of a peer: an IPv4 or IPv6 host and a port.
///
/// An IPv6 host is held as its high and low 64 bits.
#[derive(Clone, Copy, Debug, PartialEq, Eq, Hash, Structural)]
pub enum Addr {
    V4 { ip: u32, port: u16 },
    V6 { high: u64, low: u64, port: u16 },
}

impl Addr {
    pub open spec fn port_spec(self) -> u16 {
        match self {
            Addr::V4 { port, .. } => port,
            Addr::V6 { port, .. } => port,
        }
    }

    /// The port of the address.
    pub fn port(&self) -> (r: u16)
        ensures
            r == self.port_spec(),
    {
        match self {
            Addr::V4 { port, .. } => *port,
            Addr::V6 { port, .. } => *port,
        }
    }
}

} // verus!
