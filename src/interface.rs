//! Choosing the interface to sweep among those the system lists.

use vstd::prelude::*;

use crate::mac::MacAddr;
use crate::sweep::{Interface, Subnet};

verus! {

/// An interface as the system lists it.
#[derive(Clone, Debug)]
pub struct InterfaceCandidate {
    pub name: String,
    pub is_loopback: bool,
    pub mac: Option<MacAddr>,
    /// Its IPv4 networks, in the order the system lists them.
    pub ipv4_networks: Vec<Subnet>,
}

/// Why an interface cannot be swept.
#[derive(Clone, Copy, Debug, PartialEq, Eq, Structural)]
pub enum InterfaceError {
    /// No interface has the name asked for.
    NotFound,
    /// The interface is a loopback interface.
    Loopback,
    /// The interface has no IPv4 address.
    NoIpv4Address,
    /// The interface has no hardware address.
    NoHardwareAddress,
}

/// What a sweep over the candidate would use, or why it cannot be swept.
/// The first IPv4 network of the interface gives the source address and
/// the subnet.
pub open spec fn check_candidate(c: InterfaceCandidate) -> Result<Interface, InterfaceError> {
    if c.is_loopback {
        Err(InterfaceError::Loopback)
    } else if c.ipv4_networks@.len() == 0 {
        Err(InterfaceError::NoIpv4Address)
    } else if c.mac.is_none() {
        Err(InterfaceError::NoHardwareAddress)
    } else {
        Ok(
            Interface {
                name: c.name,
                hardware_address: c.mac.unwrap(),
                source_ipv4: c.ipv4_networks@[0].addr_spec(),
                subnet: c.ipv4_networks@[0],
            },
        )
    }
}

/// Picks the first candidate named `wanted` and checks that it can be
/// swept.
pub fn select_interface(candidates: &Vec<InterfaceCandidate>, wanted: &String) -> (r: Result<
    Interface,
    InterfaceError,
>)
    ensures
        (forall|i: int| 0 <= i < candidates@.len() ==> (#[trigger] candidates@[i]).name@ != wanted@)
            ==> r == Err::<Interface, InterfaceError>(InterfaceError::NotFound),
        forall|i: int|
            0 <= i < candidates@.len() && (#[trigger] candidates@[i]).name@ == wanted@ && (forall|j: int|
                0 <= j < i ==> candidates@[j].name@ != wanted@) ==> r == check_candidate(candidates@[i]),
{
    let mut i: usize = 0;
    while i < candidates.len()
        invariant
            i <= candidates@.len(),
            forall|j: int| 0 <= j < i ==> (#[trigger] candidates@[j]).name@ != wanted@,
        decreases candidates@.len() - i,
    {
        let c = &candidates[i];
        if c.name == *wanted {
            if c.is_loopback {
                return Err(InterfaceError::Loopback);
            }
            if c.ipv4_networks.len() == 0 {
                return Err(InterfaceError::NoIpv4Address);
            }
            let mac = match c.mac {
                Some(m) => m,
                None => {
                    return Err(InterfaceError::NoHardwareAddress);
                },
            };
            let subnet = c.ipv4_networks[0];
            return Ok(
                Interface {
                    name: c.name.clone(),
                    hardware_address: mac,
                    source_ipv4: subnet.addr(),
                    subnet,
                },
            );
        }
        i = i + 1;
    }
    Err(InterfaceError::NotFound)
}

} // verus!
