//! The addresses that may use the proxy.

use crate::net::{IpAddr, IpSet};
use vstd::prelude::*;

verus! {

/// The addresses that may use the proxy.
pub struct IpWhitelist {
    pub whitelist: IpSet,
}

impl View for IpWhitelist {
    type V = Set<IpAddr>;

    open spec fn view(&self) -> Set<IpAddr> {
        self.whitelist@
    }
}

impl IpWhitelist {
    pub fn new(ips: IpSet) -> (w: IpWhitelist)
        ensures
            w@ == ips@,
    {
        IpWhitelist { whitelist: ips }
    }

    /// Whether an address may use the proxy.
    pub fn is_allowed(&self, ip: &IpAddr) -> (r: bool)
        ensures
            r == self@.contains(*ip),
    {
        self.whitelist.contains(ip)
    }

    /// Replaces all addresses.
    pub fn update(&mut self, ips: IpSet)
        ensures
            final(self)@ == ips@,
    {
        self.whitelist = ips;
    }

    /// A copy of the addresses.
    pub fn get_all(&self) -> (r: IpSet)
        ensures
            r@ == self@,
    {
        let items = self.whitelist.to_vec();
        let mut out = IpSet::new();
        let mut i: usize = 0;
        assert(items@.take(0).to_set() =~= Set::<IpAddr>::empty());
        while i < items.len()
            invariant
                i <= items@.len(),
                out@ == items@.take(i as int).to_set(),
            decreases items@.len() - i,
        {
            out.insert(items[i]);
            proof {
                let before = items@.take(i as int);
                let after = items@.take(i + 1);
                assert(after =~= before.push(items@[i as int]));
                before.lemma_push_to_set_commute(items@[i as int]);
            }
            i = i + 1;
        }
        assert(items@.take(i as int) =~= items@);
        out
    }

    /// Lets an address use the proxy.
    pub fn add_ip(&mut self, ip: IpAddr)
        ensures
            final(self)@ == old(self)@.insert(ip),
    {
        self.whitelist.insert(ip);
    }

    /// Shuts an address out.
    pub fn remove_ip(&mut self, ip: &IpAddr)
        ensures
            final(self)@ == old(self)@.remove(*ip),
    {
        self.whitelist.remove(ip);
    }
}

} // verus!
