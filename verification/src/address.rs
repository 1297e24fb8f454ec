use vstd::prelude::*;

verus! {

/// The socket address of a peer, held as plain integers.
///
/// Two addresses are equal exactly when all their fields are equal, which is how
/// the standard library compares socket addresses of the same family.
#[derive(Clone, Copy, Debug, PartialEq, Eq, Structural)]
#[allow(inconsistent_fields)]
pub enum PeerAddr {
    /// An IPv4 address (the four octets, most significant first) and a port.
    V4 { ip: u32, port: u16 },
    /// An IPv6 address (the sixteen octets, most significant first), a port,
    /// the flow label and the scope identifier.
    V6 { ip: u128, port: u16, flowinfo: u32, scope_id: u32 },
}

/// Whether `addr` occurs in `addrs`.
pub fn contains_addr(addrs: &Vec<PeerAddr>, addr: PeerAddr) -> (found: bool)
    ensures
        found == addrs@.contains(addr),
{
    let mut i: usize = 0;
    while i < addrs.len()
        invariant
            0 <= i <= addrs.len(),
            forall|j: int| 0 <= j < i ==> addrs@[j] != addr,
        decreases addrs.len() - i,
    {
        if addrs[i] == addr {
            return true;
        }
        i = i + 1;
    }
    false
}

/// A copy of `addrs`, element by element.
pub fn copy_addrs(addrs: &Vec<PeerAddr>) -> (copy: Vec<PeerAddr>)
    ensures
        copy@ == addrs@,
{
    let mut copy: Vec<PeerAddr> = Vec::new();
    let mut i: usize = 0;
    while i < addrs.len()
        invariant
            0 <= i <= addrs.len(),
            copy@ == addrs@.take(i as int),
        decreases addrs.len() - i,
    {
        copy.push(addrs[i]);
        i = i + 1;
        assert(copy@ =~= addrs@.take(i as int));
    }
    assert(addrs@.take(addrs.len() as int) =~= addrs@);
    copy
}

} // verus!
