//! Hash maps and hash sets keyed by IP address. One table holds the IPv4 keys
//! and one the IPv6 keys, each under the number that stands for the address.

use std::collections::HashMap;

use vstd::prelude::*;

use crate::ip::{IpAddr, Ipv4Addr, Ipv6Addr};

verus! {

broadcast use vstd::std_specs::hash::group_hash_axioms;

/// A map from IP addresses to values.
pub struct IpMap<T> {
    v4: HashMap<u32, T>,
    v6: HashMap<u128, T>,
}

impl<T> View for IpMap<T> {
    type V = Map<IpAddr, T>;

    closed spec fn view(&self) -> Map<IpAddr, T> {
        Map::new(
            |ip: IpAddr|
                match ip {
                    IpAddr::V4(a) => self.v4@.contains_key(a.bits),
                    IpAddr::V6(a) => self.v6@.contains_key(a.bits),
                },
            |ip: IpAddr|
                match ip {
                    IpAddr::V4(a) => self.v4@[a.bits],
                    IpAddr::V6(a) => self.v6@[a.bits],
                },
        )
    }
}

impl<T> IpMap<T> {
    pub fn new() -> (r: Self)
        ensures
            r@ == Map::<IpAddr, T>::empty(),
    {
        let r = IpMap { v4: HashMap::<u32, T>::new(), v6: HashMap::<u128, T>::new() };
        proof {
            assert(r@ =~= Map::<IpAddr, T>::empty());
        }
        r
    }

    pub fn contains_key(&self, ip: &IpAddr) -> (r: bool)
        ensures
            r == self@.contains_key(*ip),
    {
        match ip {
            IpAddr::V4(a) => self.v4.contains_key(&a.bits),
            IpAddr::V6(a) => self.v6.contains_key(&a.bits),
        }
    }

    pub fn get(&self, ip: &IpAddr) -> (r: Option<&T>)
        ensures
            match r {
                Some(v) => self@.contains_key(*ip) && *v == self@[*ip],
                None => !self@.contains_key(*ip),
            },
    {
        match ip {
            IpAddr::V4(a) => self.v4.get(&a.bits),
            IpAddr::V6(a) => self.v6.get(&a.bits),
        }
    }

    /// Associates `ip` with `value` and hands back the value it had.
    pub fn insert(&mut self, ip: IpAddr, value: T) -> (r: Option<T>)
        ensures
            final(self)@ == old(self)@.insert(ip, value),
            match r {
                Some(v) => old(self)@.contains_key(ip) && v == old(self)@[ip],
                None => !old(self)@.contains_key(ip),
            },
    {
        let r: Option<T> = match ip {
            IpAddr::V4(a) => self.v4.insert(a.bits, value),
            IpAddr::V6(a) => self.v6.insert(a.bits, value),
        };
        proof {
            assert(self@ =~= old(self)@.insert(ip, value));
        }
        r
    }

    /// Drops `ip` and hands back the value it had.
    pub fn remove(&mut self, ip: &IpAddr) -> (r: Option<T>)
        ensures
            final(self)@ == old(self)@.remove(*ip),
            match r {
                Some(v) => old(self)@.contains_key(*ip) && v == old(self)@[*ip],
                None => !old(self)@.contains_key(*ip),
            },
    {
        let r: Option<T> = match ip {
            IpAddr::V4(a) => self.v4.remove(&a.bits),
            IpAddr::V6(a) => self.v6.remove(&a.bits),
        };
        proof {
            assert(self@ =~= old(self)@.remove(*ip));
        }
        r
    }

    /// The keys, each once, in no particular order.
    pub fn keys(&self) -> (r: Vec<IpAddr>)
        ensures
            r@.no_duplicates(),
            r@.to_set() == self@.dom(),
            r@.len() == self@.dom().len(),
    {
        let mut out: Vec<IpAddr> = Vec::new();
        for k in it: self.v4.keys()
            invariant
                it.seq() == vstd::std_specs::iter::IteratorSpec::remaining(
                    &vstd::std_specs::hash::spec_keys_iter(&self.v4),
                ),
                out@.len() == it.index(),
                forall|i: int|
                    0 <= i < out@.len() ==> #[trigger] out@[i] == IpAddr::V4(
                        Ipv4Addr { bits: *it.seq()[i] },
                    ),
        {
            out.push(IpAddr::V4(Ipv4Addr { bits: *k }));
        }
        let ghost low = vstd::std_specs::iter::IteratorSpec::remaining(
                    &vstd::std_specs::hash::spec_keys_iter(&self.v4),
                );
        let ghost n = out@.len();
        for k in it: self.v6.keys()
            invariant
                it.seq() == vstd::std_specs::iter::IteratorSpec::remaining(
                    &vstd::std_specs::hash::spec_keys_iter(&self.v6),
                ),
                n == low.len(),
                out@.len() == n + it.index(),
                forall|i: int|
                    0 <= i < n ==> #[trigger] out@[i] == IpAddr::V4(Ipv4Addr { bits: *low[i] }),
                forall|i: int|
                    n <= i < out@.len() ==> #[trigger] out@[i] == IpAddr::V6(
                        Ipv6Addr { bits: *it.seq()[i - n] },
                    ),
        {
            out.push(IpAddr::V6(Ipv6Addr { bits: *k }));
        }
        proof {
            let high = vstd::std_specs::iter::IteratorSpec::remaining(
                    &vstd::std_specs::hash::spec_keys_iter(&self.v6),
                );
            assert forall|ip: IpAddr| self@.dom().contains(ip) implies out@.to_set().contains(ip) by {
                match ip {
                    IpAddr::V4(a) => {
                        assert(low.unref().to_set().contains(a.bits));
                        let i = choose|i: int| 0 <= i < low.len() && low.unref()[i] == a.bits;
                        assert(out@[i] == ip);
                    },
                    IpAddr::V6(a) => {
                        assert(high.unref().to_set().contains(a.bits));
                        let i = choose|i: int| 0 <= i < high.len() && high.unref()[i] == a.bits;
                        assert(out@[n + i] == ip);
                    },
                }
            }
            assert forall|ip: IpAddr| out@.to_set().contains(ip) implies self@.dom().contains(ip) by {
                let i = choose|i: int| 0 <= i < out@.len() && out@[i] == ip;
                if i < n {
                    assert(low.unref().to_set().contains(*low[i])) by {
                        assert(low.unref()[i] == *low[i]);
                    }
                } else {
                    assert(high.unref().to_set().contains(*high[i - n])) by {
                        assert(high.unref()[i - n] == *high[i - n]);
                    }
                }
            }
            assert(out@.to_set() =~= self@.dom());
            assert(out@.no_duplicates());
            out@.unique_seq_to_set();
        }
        out
    }

    /// The number of keys, capped at the largest machine integer.
    pub fn len(&self) -> (r: usize)
        ensures
            self@.dom().finite(),
            r == if self@.dom().len() <= usize::MAX {
                self@.dom().len()
            } else {
                usize::MAX as nat
            },
    {
        proof {
            self.lemma_len();
        }
        self.v4.len().saturating_add(self.v6.len())
    }

    proof fn lemma_len(&self)
        ensures
            self@.dom().finite(),
            self@.dom().len() == self.v4@.dom().len() + self.v6@.dom().len(),
    {
        let f4 = |k: u32| IpAddr::V4(Ipv4Addr { bits: k });
        let f6 = |k: u128| IpAddr::V6(Ipv6Addr { bits: k });
        let s4 = self.v4@.dom().map(f4);
        let s6 = self.v6@.dom().map(f6);
        vstd::set_lib::lemma_map_size(self.v4@.dom(), s4, f4);
        vstd::set_lib::lemma_map_size(self.v6@.dom(), s6, f6);
        vstd::set_lib::lemma_set_disjoint_lens(s4, s6);
        assert forall|ip: IpAddr| self@.dom().contains(ip) implies (s4 + s6).contains(ip) by {
            match ip {
                IpAddr::V4(a) => {
                    assert(f4(a.bits) == ip);
                },
                IpAddr::V6(a) => {
                    assert(f6(a.bits) == ip);
                },
            }
        }
        assert(self@.dom() =~= s4 + s6);
    }
}

/// A set of IP addresses.
pub struct IpSet {
    members: IpMap<()>,
}

impl View for IpSet {
    type V = Set<IpAddr>;

    closed spec fn view(&self) -> Set<IpAddr> {
        self.members@.dom()
    }
}

impl IpSet {
    pub fn new() -> (r: Self)
        ensures
            r@ == Set::<IpAddr>::empty(),
    {
        let r = IpSet { members: IpMap::new() };
        proof {
            assert(r@ =~= Set::<IpAddr>::empty());
        }
        r
    }

    pub fn contains(&self, ip: &IpAddr) -> (r: bool)
        ensures
            r == self@.contains(*ip),
    {
        self.members.contains_key(ip)
    }

    pub fn insert(&mut self, ip: IpAddr)
        ensures
            final(self)@ == old(self)@.insert(ip),
    {
        let _ = self.members.insert(ip, ());
        proof {
            assert(self@ =~= old(self)@.insert(ip));
        }
    }

    pub fn remove(&mut self, ip: &IpAddr)
        ensures
            final(self)@ == old(self)@.remove(*ip),
    {
        let _ = self.members.remove(ip);
        proof {
            assert(self@ =~= old(self)@.remove(*ip));
        }
    }

    /// The number of members, capped at the largest machine integer.
    pub fn len(&self) -> (r: usize)
        ensures
            self@.finite(),
            r == if self@.len() <= usize::MAX {
                self@.len()
            } else {
                usize::MAX as nat
            },
    {
        self.members.len()
    }
}

} // verus!
