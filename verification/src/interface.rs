//! The network interfaces that the relay serves.

use crate::addr::Ipv4Address;
use vstd::prelude::*;

verus! {

/// A network interface of this machine.
#[derive(Clone, Copy, Debug)]
pub struct MachineIterface {
    /// Where packets for the whole network behind the interface are sent.
    pub destination_addr: Ipv4Address,
    /// The address of this machine on the interface.
    pub interface_addr: Ipv4Address,
    /// The kernel's number for the interface.
    pub ifindex: i32,
}

/// Interfaces are the same where both addresses and the index agree.
impl PartialEq for MachineIterface {
    fn eq(&self, other: &Self) -> (r: bool) {
        self.destination_addr == other.destination_addr && self.interface_addr
            == other.interface_addr && self.ifindex == other.ifindex
    }
}

impl vstd::std_specs::cmp::PartialEqSpecImpl for MachineIterface {
    open spec fn obeys_eq_spec() -> bool {
        true
    }

    open spec fn eq_spec(&self, other: &Self) -> bool {
        &&& self.destination_addr == other.destination_addr
        &&& self.interface_addr == other.interface_addr
        &&& self.ifindex == other.ifindex
    }
}

/// Interfaces compare as equal exactly if all that is known of them agrees.
pub proof fn law_interfaces_compare(first: MachineIterface, second: MachineIterface)
    ensures
        vstd::std_specs::cmp::PartialEqSpec::eq_spec(&first, &second) <==> first == second,
{
}

} // verus!
