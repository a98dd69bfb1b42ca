//! Which address the server announces for the camera stream.
//!
//! The caller lists the network interfaces of the machine; the choice among
//! them is made here.

use vstd::prelude::*;

verus! {

/// An IPv4 address, most significant octet first.
#[derive(Clone, Copy, Debug, PartialEq, Eq, Structural)]
pub struct Ipv4Addr(pub u8, pub u8, pub u8, pub u8);

/// The address of the machine itself: 127.0.0.1.
pub open spec fn spec_localhost() -> Ipv4Addr {
    Ipv4Addr(127, 0, 0, 1)
}

/// The address of the machine itself: 127.0.0.1.
pub fn localhost() -> (address: Ipv4Addr)
    ensures
        address == spec_localhost(),
{
    Ipv4Addr(127, 0, 0, 1)
}

/// An address of an interface. Of an IPv6 address only the fact is kept.
#[derive(Clone, Copy, Debug, PartialEq, Eq, Structural)]
pub enum IpNetwork {
    V4(Ipv4Addr),
    V6,
}

/// What the choice needs to know of one network interface.
#[derive(Clone, Debug, PartialEq, Eq)]
pub struct NetworkInterface {
    /// Whether the interface is up.
    pub up: bool,
    /// Whether the interface is a loopback interface.
    pub loopback: bool,
    /// The addresses of the interface, in the order in which the system
    /// lists them.
    pub ips: Vec<IpNetwork>,
}

impl NetworkInterface {
    /// Whether the interface can carry the stream: it is up, leads out of the
    /// machine and has an address.
    pub open spec fn spec_is_usable(&self) -> bool {
        self.up && !self.loopback && self.ips@.len() > 0
    }

    /// Whether the interface can carry the stream.
    pub fn is_usable(&self) -> (usable: bool)
        ensures
            usable == self.spec_is_usable(),
    {
        self.up && !self.loopback && self.ips.len() > 0
    }

    /// The address that the interface stands for: its first one if that is an
    /// IPv4 address, the machine's own otherwise.
    pub open spec fn spec_address(&self) -> Ipv4Addr {
        if self.ips@.len() > 0 {
            match self.ips@[0] {
                IpNetwork::V4(address) => address,
                IpNetwork::V6 => spec_localhost(),
            }
        } else {
            spec_localhost()
        }
    }
}

/// The address to announce: that of the first usable interface, and the
/// machine's own address where no interface is usable.
pub open spec fn spec_current_ip_address(interfaces: Seq<NetworkInterface>) -> Ipv4Addr
    decreases interfaces.len(),
{
    if interfaces.len() == 0 {
        spec_localhost()
    } else if interfaces[0].spec_is_usable() {
        interfaces[0].spec_address()
    } else {
        spec_current_ip_address(interfaces.subrange(1, interfaces.len() as int))
    }
}

/// Chooses the address that the server announces to its clients.
pub fn get_current_ip_address(interfaces: &Vec<NetworkInterface>) -> (address: Ipv4Addr)
    ensures
        address == spec_current_ip_address(interfaces@),
{
    let mut index: usize = 0;
    assert(interfaces@.subrange(0, interfaces@.len() as int) =~= interfaces@);
    while index < interfaces.len()
        invariant
            index <= interfaces.len(),
            spec_current_ip_address(interfaces@) == spec_current_ip_address(
                interfaces@.subrange(index as int, interfaces@.len() as int),
            ),
        decreases interfaces.len() - index,
    {
        let ghost ahead = interfaces@.subrange(index as int, interfaces@.len() as int);
        let interface = &interfaces[index];
        if interface.is_usable() {
            return match interface.ips[0] {
                IpNetwork::V4(address) => address,
                IpNetwork::V6 => localhost(),
            };
        }
        assert(ahead.subrange(1, ahead.len() as int) =~= interfaces@.subrange(
            index + 1,
            interfaces@.len() as int,
        ));
        index += 1;
    }
    localhost()
}

/// The choice is the address of a usable interface before which no other is
/// usable; only when there is none is it the machine's own address for want
/// of an interface.
pub proof fn lemma_first_usable_interface_decides(interfaces: Seq<NetworkInterface>, index: int)
    requires
        0 <= index < interfaces.len(),
        interfaces[index].spec_is_usable(),
        forall|i: int| 0 <= i < index ==> !(#[trigger] interfaces[i]).spec_is_usable(),
    ensures
        spec_current_ip_address(interfaces) == interfaces[index].spec_address(),
    decreases index,
{
    if index > 0 {
        let tail = interfaces.subrange(1, interfaces.len() as int);
        assert(tail[index - 1] == interfaces[index]);
        assert forall|i: int| 0 <= i < index - 1 implies !(#[trigger] tail[i]).spec_is_usable() by {
            assert(tail[i] == interfaces[i + 1]);
        }
        lemma_first_usable_interface_decides(tail, index - 1);
    }
}

/// Where no interface is usable, the machine's own address is announced.
pub proof fn lemma_no_usable_interface(interfaces: Seq<NetworkInterface>)
    requires
        forall|i: int| 0 <= i < interfaces.len() ==> !(#[trigger] interfaces[i]).spec_is_usable(),
    ensures
        spec_current_ip_address(interfaces) == spec_localhost(),
    decreases interfaces.len(),
{
    if interfaces.len() > 0 {
        let tail = interfaces.subrange(1, interfaces.len() as int);
        assert forall|i: int| 0 <= i < tail.len() implies !(#[trigger] tail[i]).spec_is_usable()
        by {
            assert(tail[i] == interfaces[i + 1]);
        }
        lemma_no_usable_interface(tail);
    }
}

} // verus!
