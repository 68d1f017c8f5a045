//! The local IPv4 subnets and the host addresses in each: what the network
//! scan sweeps.
//!
//! Addresses are `u32` values with the first octet in the high byte, as
//! `u32::from(Ipv4Addr)` gives them. Network arithmetic is the `ipnetwork`
//! crate's, reached through the wrappers below.

use vstd::prelude::*;
use vstd::arithmetic::power2::*;
use ipnetwork::{IpNetworkError, Ipv4Network};

verus! {

#[verifier::external_type_specification]
#[verifier::external_body]
pub struct ExIpNetworkError(IpNetworkError);

/// The largest subnet the scan enumerates holds fewer addresses than this.
pub const LARGE_SUBNET_SIZE: u32 = 65534;

/// At most this many addresses are taken from one subnet.
pub const MAX_SUBNET_HOSTS: usize = 20000;

/// An IPv4 network: an address of it and its prefix length.
#[derive(Clone, Copy, Debug, PartialEq, Eq)]
pub struct Subnet {
    pub addr: u32,
    pub prefix: u8,
}

impl Subnet {
    /// The prefix is one `ipnetwork` accepts.
    pub open spec fn wf(self) -> bool {
        self.prefix <= 32
    }

    /// The number of addresses in the network.
    pub open spec fn size(self) -> nat {
        pow2((32 - self.prefix) as nat)
    }

    /// The lowest address of the network.
    pub open spec fn network(self) -> int {
        (self.addr as int / self.size() as int) * self.size()
    }

    /// The highest address of the network.
    pub open spec fn broadcast(self) -> int {
        self.network() + self.size() - 1
    }
}

/// An IPv4 address assigned to an interface, with its netmask.
#[derive(Clone, Copy, Debug, PartialEq, Eq)]
pub struct Ipv4Assignment {
    pub ip: u32,
    pub netmask: u32,
}

/// What the subnet logic reads of a network interface.
#[derive(Clone, Copy, Debug, PartialEq, Eq)]
pub struct Interface {
    pub is_loopback: bool,
    /// The interface's IPv4 address, or `None` for any other kind.
    pub ipv4: Option<Ipv4Assignment>,
}

/// The number of one bits in `x`.
pub open spec fn ones(x: nat) -> nat
    decreases x,
{
    if x == 0 {
        0
    } else {
        (x % 2) + ones(x / 2)
    }
}

/// Calls `u32::count_ones`: the number of one bits.
#[verifier::external_body]
fn count_ones(x: u32) -> (n: u32)
    ensures
        n == ones(x as nat),
{
    x.count_ones()
}

proof fn lemma_ones_bound(x: nat, k: nat)
    requires
        x < pow2(k),
    ensures
        ones(x) <= k,
    decreases x,
{
    if x > 0 {
        if k == 0 {
            assert(pow2(0) == 1) by {
                lemma2_to64();
            }
        } else {
            lemma_pow2_unfold(k);
            lemma_ones_bound(x / 2, (k - 1) as nat);
        }
    }
}

/// Calls `Ipv4Network::new`, which refuses a prefix over 32 and otherwise
/// keeps the address and prefix as given.
#[verifier::external_body]
fn ipv4_network_new(addr: u32, prefix: u8) -> (r: Result<Subnet, IpNetworkError>)
    ensures
        r is Err <==> prefix > 32,
        r matches Ok(s) ==> s.addr == addr && s.prefix == prefix,
{
    match Ipv4Network::new(addr.into(), prefix) {
        Ok(net) => Ok(Subnet { addr: u32::from(net.ip()), prefix: net.prefix() }),
        Err(e) => Err(e),
    }
}

/// Calls `Ipv4Network::size` on the network `addr/prefix`: two to the power
/// of the host bits. With prefix 0 that power overflows `u32` in the crate's
/// source, so that prefix is left out.
#[verifier::external_body]
fn ipv4_network_size(addr: u32, prefix: u8) -> (r: Result<u32, IpNetworkError>)
    requires
        prefix >= 1,
    ensures
        r is Err <==> prefix > 32,
        r matches Ok(size) ==> size == pow2((32 - prefix) as nat),
{
    match Ipv4Network::new(addr.into(), prefix) {
        Ok(net) => Ok(net.size()),
        Err(e) => Err(e),
    }
}

/// Calls `Ipv4Network::network` on `addr/prefix`: the address with its host
/// bits cleared.
#[verifier::external_body]
fn ipv4_network_address(addr: u32, prefix: u8) -> (r: Result<u32, IpNetworkError>)
    ensures
        r is Err <==> prefix > 32,
        r matches Ok(a) ==> a == (Subnet { addr, prefix }).network(),
{
    match Ipv4Network::new(addr.into(), prefix) {
        Ok(net) => Ok(u32::from(net.network())),
        Err(e) => Err(e),
    }
}

/// Calls `Ipv4Network::broadcast` on `addr/prefix`: the address with its
/// host bits set.
#[verifier::external_body]
fn ipv4_network_broadcast(addr: u32, prefix: u8) -> (r: Result<u32, IpNetworkError>)
    ensures
        r is Err <==> prefix > 32,
        r matches Ok(a) ==> a == (Subnet { addr, prefix }).broadcast(),
{
    match Ipv4Network::new(addr.into(), prefix) {
        Ok(net) => Ok(u32::from(net.broadcast())),
        Err(e) => Err(e),
    }
}

/// Calls `Ipv4Network::iter` on `addr/prefix` and collects what it yields:
/// every address from the network address up to the broadcast address, in
/// ascending order. The iterator computes its end with `size`, so prefix 0
/// is left out as there.
#[verifier::external_body]
fn ipv4_network_addresses(addr: u32, prefix: u8) -> (r: Result<Vec<u32>, IpNetworkError>)
    requires
        prefix >= 1,
    ensures
        r is Err <==> prefix > 32,
        r matches Ok(v) ==> v@.len() == (Subnet { addr, prefix }).size(),
        r matches Ok(v) ==> forall|i: int|
            0 <= i < v@.len() ==> #[trigger] v@[i] == (Subnet { addr, prefix }).network() + i,
{
    match Ipv4Network::new(addr.into(), prefix) {
        Ok(net) => Ok(net.iter().map(u32::from).collect()),
        Err(e) => Err(e),
    }
}

/// The subnet an interface stands on, if the scan looks at it: a
/// non-loopback IPv4 interface, with the prefix length counted from the
/// netmask's one bits.
pub open spec fn interface_subnet(iface: Interface) -> Option<Subnet> {
    match iface.ipv4 {
        Some(a) if !iface.is_loopback => Some(
            Subnet { addr: a.ip, prefix: ones(a.netmask as nat) as u8 },
        ),
        _ => None,
    }
}

/// The subnets of the interfaces, in interface order.
pub open spec fn local_subnets(ifaces: Seq<Interface>) -> Seq<Subnet>
    decreases ifaces.len(),
{
    if ifaces.len() == 0 {
        Seq::empty()
    } else {
        let before = local_subnets(ifaces.drop_last());
        match interface_subnet(ifaces.last()) {
            Some(s) => before.push(s),
            None => before,
        }
    }
}

/// All local IPv4 subnets, loopback excluded, of the given interfaces.
pub fn get_local_subnets(ifaces: &Vec<Interface>) -> (subnets: Vec<Subnet>)
    ensures
        subnets@ == local_subnets(ifaces@),
        forall|i: int| 0 <= i < subnets@.len() ==> (#[trigger] subnets@[i]).wf(),
{
    let mut subnets: Vec<Subnet> = Vec::new();
    let mut i: usize = 0;
    while i < ifaces.len()
        invariant
            i <= ifaces@.len(),
            subnets@ == local_subnets(ifaces@.take(i as int)),
            forall|k: int| 0 <= k < subnets@.len() ==> (#[trigger] subnets@[k]).wf(),
        decreases ifaces@.len() - i,
    {
        proof {
            assert(ifaces@.take(i + 1).drop_last() =~= ifaces@.take(i as int));
        }
        let iface = ifaces[i];
        if !iface.is_loopback {
            if let Some(a) = iface.ipv4 {
                let n = count_ones(a.netmask);
                proof {
                    assert(pow2(32) == 0x1_0000_0000) by {
                        lemma2_to64();
                    }
                    lemma_ones_bound(a.netmask as nat, 32);
                }
                let prefix = n as u8;
                if let Ok(net) = ipv4_network_new(a.ip, prefix) {
                    subnets.push(net);
                }
            }
        }
        i = i + 1;
    }
    proof {
        assert(ifaces@.take(ifaces@.len() as int) =~= ifaces@);
    }
    subnets
}

/// The host addresses the scan takes from a subnet: none from a subnet of
/// `LARGE_SUBNET_SIZE` addresses or more; otherwise every address but the
/// network and broadcast addresses, in ascending order, at most
/// `MAX_SUBNET_HOSTS` of them.
pub open spec fn subnet_hosts(net: Subnet) -> Seq<u32> {
    let size = net.size();
    if size >= LARGE_SUBNET_SIZE || size < 2 {
        Seq::empty()
    } else {
        let count = if size - 2 <= MAX_SUBNET_HOSTS { (size - 2) as nat } else { MAX_SUBNET_HOSTS as nat };
        Seq::new(count, |k: int| (net.network() + 1 + k) as u32)
    }
}

proof fn lemma_size_bounds(net: Subnet)
    requires
        1 <= net.prefix <= 32,
    ensures
        1 <= net.size() <= 0x8000_0000,
        net.size() as int == pow2((32 - net.prefix) as nat) as u32,
{
    lemma2_to64();
    let e = (32 - net.prefix) as nat;
    if e < 31 {
        lemma_pow2_strictly_increases(e, 31);
    }
    lemma_pow2_pos(e);
}

/// The number of addresses in a subnet, as `ipnetwork` counts them.
pub fn subnet_size(net: &Subnet) -> (size: Option<u32>)
    requires
        1 <= net.prefix <= 32,
    ensures
        size matches Some(s) && s == net.size(),
{
    proof {
        lemma_size_bounds(*net);
    }
    match ipv4_network_size(net.addr, net.prefix) {
        Ok(s) => Some(s),
        Err(_) => None,
    }
}

/// The addresses taken from a subnet lie strictly between its network and
/// broadcast addresses, ascend, and number at most `MAX_SUBNET_HOSTS`; a
/// subnet of `LARGE_SUBNET_SIZE` addresses or more gives none.
pub proof fn lemma_subnet_hosts_inside(net: Subnet)
    requires
        1 <= net.prefix <= 32,
    ensures
        subnet_hosts(net).len() <= MAX_SUBNET_HOSTS,
        net.size() >= LARGE_SUBNET_SIZE ==> subnet_hosts(net).len() == 0,
        forall|k: int|
            0 <= k < subnet_hosts(net).len() ==> net.network() < #[trigger] subnet_hosts(net)[k]
                < net.broadcast(),
        forall|i: int, j: int|
            0 <= i < j < subnet_hosts(net).len() ==> subnet_hosts(net)[i] < subnet_hosts(net)[j],
{
    lemma_size_bounds(net);
    let size = net.size();
    if size < LARGE_SUBNET_SIZE && size >= 2 {
        lemma_network_fits(net);
    }
}

proof fn lemma_network_fits(net: Subnet)
    requires
        1 <= net.prefix <= 32,
    ensures
        0 <= net.network(),
        net.broadcast() < 0x1_0000_0000,
{
    lemma_size_bounds(net);
    let size = net.size() as int;
    let q = pow2(net.prefix as nat) as int;
    lemma_pow2_adds((32 - net.prefix) as nat, net.prefix as nat);
    assert(pow2(32) == 0x1_0000_0000) by {
        lemma2_to64();
    }
    assert(((32 - net.prefix) as nat + net.prefix as nat) == 32);
    assert(size * q == 0x1_0000_0000);
    let a = net.addr as int;
    assert(0 <= (a / size) * size) by (nonlinear_arith)
        requires size >= 1, a >= 0;
    assert((a / size) * size + size - 1 < 0x1_0000_0000) by (nonlinear_arith)
        requires size >= 1, 0 <= a, a < size * q, size * q == 0x1_0000_0000;
}

/// The addresses to scan in a subnet (its hosts, without the network and
/// broadcast addresses), none for a subnet too large to sweep, at most
/// `MAX_SUBNET_HOSTS`.
pub fn enumerate_subnet_ips(net: &Subnet) -> (ips: Vec<u32>)
    requires
        1 <= net.prefix <= 32,
    ensures
        ips@ == subnet_hosts(*net),
{
    proof {
        lemma_size_bounds(*net);
    }
    let size = match ipv4_network_size(net.addr, net.prefix) {
        Ok(s) => s,
        Err(_) => return Vec::new(),
    };
    if size >= LARGE_SUBNET_SIZE {
        return Vec::new();
    }
    let all = match ipv4_network_addresses(net.addr, net.prefix) {
        Ok(v) => v,
        Err(_) => return Vec::new(),
    };
    let network = match ipv4_network_address(net.addr, net.prefix) {
        Ok(a) => a,
        Err(_) => return Vec::new(),
    };
    let broadcast = match ipv4_network_broadcast(net.addr, net.prefix) {
        Ok(a) => a,
        Err(_) => return Vec::new(),
    };
    let ghost sz: int = size as int;
    let ghost base: int = network as int;
    let mut ips: Vec<u32> = Vec::new();
    let mut i: usize = 0;
    while i < all.len()
        invariant
            all@.len() == sz,
            1 <= sz < LARGE_SUBNET_SIZE,
            base == net.network(),
            network == base,
            broadcast == base + sz - 1,
            forall|k: int| 0 <= k < all@.len() ==> #[trigger] all@[k] == base + k,
            i <= all@.len(),
            ips@.len() == (if i <= 1 { 0 } else if i < sz { i - 1 } else { sz - 2 }),
            forall|k: int| 0 <= k < ips@.len() ==> #[trigger] ips@[k] == base + 1 + k,
        decreases all@.len() - i,
    {
        let a = all[i];
        if a != network && a != broadcast {
            ips.push(a);
        }
        i = i + 1;
    }
    ips.truncate(MAX_SUBNET_HOSTS);
    proof {
        assert(ips@ =~= subnet_hosts(*net));
    }
    ips
}

} // verus!
