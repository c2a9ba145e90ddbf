//! Socket addresses as plain values, and the rule that picks one concrete
//! address out of a resolver's candidate list: the first IPv4 candidate when
//! one exists, otherwise the first candidate of any family.

use vstd::prelude::*;

verus! {

/// An IP address held as plain values: four IPv4 octets or eight IPv6 groups.
#[derive(Clone, Copy, PartialEq, Eq, Structural, Debug)]
pub enum IpAddress {
    V4(u8, u8, u8, u8),
    V6(u16, u16, u16, u16, u16, u16, u16, u16),
}

/// A concrete socket address: an IP address and a port.
#[derive(Clone, Copy, PartialEq, Eq, Structural, Debug)]
pub struct SocketAddress {
    pub ip: IpAddress,
    pub port: u16,
}

impl IpAddress {
    /// Whether this address belongs to the IPv4 family.
    pub open spec fn spec_is_v4(self) -> bool {
        self is V4
    }

    pub fn is_v4(&self) -> (r: bool)
        ensures
            r == self.spec_is_v4(),
    {
        match self {
            IpAddress::V4(..) => true,
            IpAddress::V6(..) => false,
        }
    }
}

/// Index of the first IPv4 candidate at or after `i`, or -1 when there is none.
pub open spec fn first_v4_from(s: Seq<SocketAddress>, i: int) -> int
    decreases s.len() - i,
{
    if i < 0 || i >= s.len() {
        -1
    } else if s[i].ip is V4 {
        i
    } else {
        first_v4_from(s, i + 1)
    }
}

/// The address a candidate list selects: the first IPv4 candidate when one
/// exists, otherwise the first candidate of any family, otherwise nothing.
pub open spec fn selected_address(s: Seq<SocketAddress>) -> Option<SocketAddress> {
    let f = first_v4_from(s, 0);
    if f >= 0 {
        Some(s[f])
    } else if s.len() > 0 {
        Some(s[0])
    } else {
        None
    }
}

/// Pick the address to bind from the resolver's candidates, preferring IPv4.
pub fn select_address(candidates: &Vec<SocketAddress>) -> (r: Option<SocketAddress>)
    ensures
        r == selected_address(candidates@),
{
    let mut i: usize = 0;
    while i < candidates.len()
        invariant
            i <= candidates.len(),
            first_v4_from(candidates@, 0) == first_v4_from(candidates@, i as int),
        decreases candidates.len() - i,
    {
        if candidates[i].ip.is_v4() {
            return Some(candidates[i]);
        }
        i = i + 1;
    }
    if candidates.len() > 0 {
        Some(candidates[0])
    } else {
        None
    }
}

proof fn lemma_first_v4_from(s: Seq<SocketAddress>, i: int)
    requires
        0 <= i <= s.len(),
    ensures
        first_v4_from(s, i) == -1 ==> (forall|j: int| i <= j < s.len() ==> !(s[j].ip is V4)),
        first_v4_from(s, i) != -1 ==> i <= first_v4_from(s, i) < s.len()
            && s[first_v4_from(s, i)].ip is V4
            && (forall|j: int| i <= j < first_v4_from(s, i) ==> !(s[j].ip is V4)),
    decreases s.len() - i,
{
    if i < s.len() && !(s[i].ip is V4) {
        lemma_first_v4_from(s, i + 1);
    }
}

/// Law: selection succeeds exactly on non-empty candidate lists, always picks
/// a candidate from the list, and never passes over an IPv4 candidate in
/// favour of another family.
pub proof fn lemma_selected_address_prefers_v4(s: Seq<SocketAddress>)
    ensures
        selected_address(s) is Some <==> s.len() > 0,
        selected_address(s) matches Some(a) ==> s.contains(a),
        (exists|i: int| 0 <= i < s.len() && s[i].ip is V4) ==> (
            selected_address(s) matches Some(a) && a.ip is V4
        ),
{
    lemma_first_v4_from(s, 0);
    let f = first_v4_from(s, 0);
    if f >= 0 {
        assert(s.contains(s[f]));
    } else if s.len() > 0 {
        assert(s.contains(s[0]));
    }
}

} // verus!
