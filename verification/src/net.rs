//! Client addresses.

use std::collections::HashSet;
use vstd::prelude::*;

verus! {

broadcast use vstd::std_specs::hash::group_hash_axioms;

/// An IP address, held as the number that its octets spell in network order.
#[derive(Clone, Copy, Debug, PartialEq, Eq, Structural, Hash)]
pub enum IpAddr {
    V4(u32),
    V6(u128),
}

/// An address as a pair of plain values: whether it is of version six, and its number.
pub type IpKey = (bool, u128);

/// The pair that stands for an address.
pub open spec fn ip_key(ip: IpAddr) -> IpKey {
    match ip {
        IpAddr::V4(n) => (false, n as u128),
        IpAddr::V6(n) => (true, n),
    }
}

/// The address that a pair stands for.
pub open spec fn key_ip(key: IpKey) -> IpAddr {
    if key.0 {
        IpAddr::V6(key.1)
    } else {
        IpAddr::V4(key.1 as u32)
    }
}

/// Distinct addresses have distinct pairs.
pub proof fn lemma_ip_key_injective(a: IpAddr, b: IpAddr)
    ensures
        ip_key(a) == ip_key(b) ==> a == b,
        key_ip(ip_key(a)) == a,
{
}

impl IpAddr {
    /// The pair that stands for this address.
    pub fn key(&self) -> (k: IpKey)
        ensures
            k == ip_key(*self),
    {
        match *self {
            IpAddr::V4(n) => (false, n as u128),
            IpAddr::V6(n) => (true, n),
        }
    }

    /// The address that a pair stands for; of a version-four pair only the low half counts.
    pub fn from_key(key: IpKey) -> (ip: IpAddr)
        ensures
            ip == key_ip(key),
    {
        if key.0 {
            IpAddr::V6(key.1)
        } else {
            IpAddr::V4(key.1 as u32)
        }
    }
}

/// A set of addresses.
pub struct IpSet {
    pub v4: HashSet<u32>,
    pub v6: HashSet<u128>,
}

impl View for IpSet {
    type V = Set<IpAddr>;

    open spec fn view(&self) -> Set<IpAddr> {
        Set::new(
            |ip: IpAddr|
                match ip {
                    IpAddr::V4(n) => self.v4@.contains(n),
                    IpAddr::V6(n) => self.v6@.contains(n),
                },
        )
    }
}

impl IpSet {
    /// The empty set.
    pub fn new() -> (s: IpSet)
        ensures
            s@ == Set::<IpAddr>::empty(),
    {
        let s = IpSet { v4: HashSet::new(), v6: HashSet::new() };
        assert(s@ =~= Set::<IpAddr>::empty());
        s
    }

    /// Whether an address is in the set.
    pub fn contains(&self, ip: &IpAddr) -> (r: bool)
        ensures
            r == self@.contains(*ip),
    {
        match *ip {
            IpAddr::V4(n) => self.v4.contains(&n),
            IpAddr::V6(n) => self.v6.contains(&n),
        }
    }

    /// Puts an address in.
    pub fn insert(&mut self, ip: IpAddr)
        ensures
            final(self)@ == old(self)@.insert(ip),
    {
        let ghost before = self@;
        match ip {
            IpAddr::V4(n) => {
                self.v4.insert(n);
            },
            IpAddr::V6(n) => {
                self.v6.insert(n);
            },
        }
        assert(self@ =~= before.insert(ip));
    }

    /// Takes an address out.
    pub fn remove(&mut self, ip: &IpAddr)
        ensures
            final(self)@ == old(self)@.remove(*ip),
    {
        let ghost before = self@;
        match *ip {
            IpAddr::V4(n) => {
                self.v4.remove(&n);
            },
            IpAddr::V6(n) => {
                self.v6.remove(&n);
            },
        }
        assert(self@ =~= before.remove(*ip));
    }

    /// The version four addresses, each once, in no particular order.
    fn items_v4(&self) -> (r: Vec<u32>)
        ensures
            r@.no_duplicates(),
            r@.to_set() == self.v4@,
    {
        let mut out: Vec<u32> = Vec::new();
        for n in it: self.v4.iter()
            invariant
                it.seq().unref().to_set() == self.v4@,
                it.seq().no_duplicates(),
                out@ == it.seq().unref().take(it.index() as int),
                it.index() == it.seq().len() ==> out@ == it.seq().unref(),
        {
            out.push(*n);
            assert(out@ =~= it.seq().unref().take(it.index() + 1));
        }
        out
    }

    /// The version six addresses, each once, in no particular order.
    fn items_v6(&self) -> (r: Vec<u128>)
        ensures
            r@.no_duplicates(),
            r@.to_set() == self.v6@,
    {
        let mut out: Vec<u128> = Vec::new();
        for n in it: self.v6.iter()
            invariant
                it.seq().unref().to_set() == self.v6@,
                it.seq().no_duplicates(),
                out@ == it.seq().unref().take(it.index() as int),
                it.index() == it.seq().len() ==> out@ == it.seq().unref(),
        {
            out.push(*n);
            assert(out@ =~= it.seq().unref().take(it.index() + 1));
        }
        out
    }

    /// The addresses of the set, each once, in no particular order.
    pub fn to_vec(&self) -> (r: Vec<IpAddr>)
        ensures
            r@.no_duplicates(),
            r@.to_set() == self@,
    {
        let low = self.items_v4();
        let high = self.items_v6();
        let mut out: Vec<IpAddr> = Vec::new();
        let mut i: usize = 0;
        while i < low.len()
            invariant
                i <= low@.len(),
                out@ == low@.take(i as int).map_values(|n: u32| IpAddr::V4(n)),
            decreases low@.len() - i,
        {
            out.push(IpAddr::V4(low[i]));
            i = i + 1;
            assert(out@ =~= low@.take(i as int).map_values(|n: u32| IpAddr::V4(n)));
        }
        let ghost fours = low@.map_values(|n: u32| IpAddr::V4(n));
        assert(out@ =~= fours);
        let mut k: usize = 0;
        while k < high.len()
            invariant
                k <= high@.len(),
                out@ == fours + high@.take(k as int).map_values(|n: u128| IpAddr::V6(n)),
            decreases high@.len() - k,
        {
            out.push(IpAddr::V6(high[k]));
            k = k + 1;
            assert(out@ =~= fours + high@.take(k as int).map_values(|n: u128| IpAddr::V6(n)));
        }
        let ghost sixes = high@.map_values(|n: u128| IpAddr::V6(n));
        assert(out@ =~= fours + sixes);
        assert forall|ip: IpAddr| self@.contains(ip) == out@.contains(ip) by {
            match ip {
                IpAddr::V4(n) => {
                    assert(self.v4@.contains(n) == low@.contains(n));
                    if low@.contains(n) {
                        assert(out@[low@.index_of(n)] == ip);
                    }
                    if out@.contains(ip) {
                        assert(low@[out@.index_of(ip)] == n);
                    }
                },
                IpAddr::V6(n) => {
                    assert(self.v6@.contains(n) == high@.contains(n));
                    if high@.contains(n) {
                        assert(out@[low@.len() + high@.index_of(n)] == ip);
                    }
                    if out@.contains(ip) {
                        assert(high@[out@.index_of(ip) - low@.len()] == n);
                    }
                },
            }
        }
        assert(out@.to_set() =~= self@);
        out
    }
}

} // verus!
