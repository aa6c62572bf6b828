//! The mesh's registries: sets of peer addresses, the per-peer write-handle
//! table, the LLM routing table, and the discovery debounce table. Each is a
//! small in-memory collection with a set or map as its model.

use vstd::prelude::*;

verus! {

/// True when some element of `items` reads as `k`.
pub open spec fn seq_has_addr(items: Seq<String>, k: Seq<char>) -> bool {
    exists|i: int| 0 <= i < items.len() && #[trigger] items[i]@ == k
}

/// A set of peer addresses: connected peers, LLM-capable peers, authorized
/// peers.
pub struct PeerSet {
    pub items: Vec<String>,
}

impl View for PeerSet {
    type V = Set<Seq<char>>;

    open spec fn view(&self) -> Set<Seq<char>> {
        Set::new(|k: Seq<char>| seq_has_addr(self.items@, k))
    }
}

impl PeerSet {
    /// No address occurs twice.
    pub open spec fn wf(&self) -> bool {
        forall|i: int, j: int| 0 <= i < j < self.items@.len() ==> self.items@[i]@
            != self.items@[j]@
    }

    /// The empty set.
    pub fn new() -> (r: PeerSet)
        ensures
            r.wf(),
            r@ == Set::<Seq<char>>::empty(),
    {
        let r = PeerSet { items: Vec::new() };
        proof {
            assert(r@ =~= Set::<Seq<char>>::empty());
        }
        r
    }

    /// Whether `ip` is in the set.
    pub fn contains(&self, ip: &String) -> (r: bool)
        ensures
            r == self@.contains(ip@),
    {
        let mut i: usize = 0;
        while i < self.items.len()
            invariant
                0 <= i <= self.items@.len(),
                forall|j: int| 0 <= j < i ==> #[trigger] self.items@[j]@ != ip@,
            decreases self.items@.len() - i,
        {
            if self.items[i] == *ip {
                proof {
                    assert(seq_has_addr(self.items@, ip@));
                }
                return true;
            }
            i += 1;
        }
        proof {
            assert(!seq_has_addr(self.items@, ip@));
        }
        false
    }

    /// Adds `ip`; adding a present address changes nothing.
    pub fn insert(&mut self, ip: String)
        requires
            old(self).wf(),
        ensures
            final(self).wf(),
            final(self)@ == old(self)@.insert(ip@),
    {
        if self.contains(&ip) {
            proof {
                assert(self@ =~= old(self)@.insert(ip@));
            }
            return;
        }
        let ghost orig = self.items@;
        self.items.push(ip);
        proof {
            assert(forall|j: int| 0 <= j < orig.len() ==> #[trigger] orig[j]@ != ip@);
            assert(forall|j: int| 0 <= j < orig.len() ==> self.items@[j] == orig[j]);
            assert(self.items@[orig.len() as int]@ == ip@);
            assert forall|k: Seq<char>| self@.contains(k) implies old(self)@.insert(ip@).contains(
                k,
            ) by {
                let i = choose|i: int| 0 <= i < self.items@.len() && #[trigger] self.items@[i]@
                    == k;
                if i < orig.len() {
                    assert(seq_has_addr(orig, k));
                }
            }
            assert forall|k: Seq<char>| old(self)@.insert(ip@).contains(k) implies self@.contains(
                k,
            ) by {
                if k == ip@ {
                    assert(self.items@[orig.len() as int]@ == k);
                } else {
                    let i = choose|i: int| 0 <= i < orig.len() && #[trigger] orig[i]@ == k;
                    assert(self.items@[i]@ == k);
                }
            }
            assert(self@ =~= old(self)@.insert(ip@));
        }
    }

    /// Removes `ip`; removing an absent address changes nothing.
    pub fn remove(&mut self, ip: &String)
        requires
            old(self).wf(),
        ensures
            final(self).wf(),
            final(self)@ == old(self)@.remove(ip@),
    {
        let mut i: usize = 0;
        while i < self.items.len()
            invariant
                0 <= i <= self.items@.len(),
                forall|j: int| 0 <= j < i ==> #[trigger] self.items@[j]@ != ip@,
                self.wf(),
                self.items@ == old(self).items@,
            decreases self.items@.len() - i,
        {
            if self.items[i] == *ip {
                let ghost orig = self.items@;
                self.items.remove(i);
                proof {
                    assert(self.items@ =~= orig.subrange(0, i as int) + orig.subrange(
                        i + 1 as int,
                        orig.len() as int,
                    ));
                    assert forall|k: Seq<char>| self@.contains(k) implies old(self)@.remove(
                        ip@,
                    ).contains(k) by {
                        let j = choose|j: int|
                            0 <= j < self.items@.len() && #[trigger] self.items@[j]@ == k;
                        if j < i {
                            assert(orig[j]@ == k);
                            assert(seq_has_addr(orig, k));
                            assert(k != ip@);
                        } else {
                            assert(orig[j + 1]@ == k);
                            assert(seq_has_addr(orig, k));
                            assert(k != ip@) by {
                                assert(orig[i as int]@ == ip@);
                            }
                        }
                    }
                    assert forall|k: Seq<char>| old(self)@.remove(ip@).contains(k) implies
                        self@.contains(k) by {
                        let j = choose|j: int| 0 <= j < orig.len() && #[trigger] orig[j]@ == k;
                        if j < i {
                            assert(self.items@[j]@ == k);
                        } else if j == i {
                            assert(false);
                        } else {
                            assert(self.items@[j - 1]@ == k);
                        }
                    }
                    assert(self@ =~= old(self)@.remove(ip@));
                }
                return;
            }
            i += 1;
        }
        proof {
            assert(!seq_has_addr(self.items@, ip@));
            assert(self@ =~= old(self)@.remove(ip@));
        }
    }

    /// The addresses, for iteration by callers.
    pub fn addresses(&self) -> (r: &Vec<String>)
        ensures
            r@ == self.items@,
            forall|i: int| 0 <= i < r@.len() ==> self@.contains(#[trigger] r@[i]@),
    {
        proof {
            assert forall|i: int| 0 <= i < self.items@.len() implies self@.contains(
                #[trigger] self.items@[i]@,
            ) by {
                assert(seq_has_addr(self.items@, self.items@[i]@));
            }
        }
        &self.items
    }
}

/// True when some entry of `entries` is keyed by `k`.
pub open spec fn handles_has_key(entries: Seq<(String, u64)>, k: Seq<char>) -> bool {
    exists|i: int| 0 <= i < entries.len() && #[trigger] entries[i].0@ == k
}

/// The index of the entry keyed by `k`.
pub open spec fn handles_index(entries: Seq<(String, u64)>, k: Seq<char>) -> int {
    choose|i: int| 0 <= i < entries.len() && #[trigger] entries[i].0@ == k
}

/// The write-handle registry: at most one write handle per peer address,
/// named by a token the caller owns. An entry lives exactly as long as its
/// connection; teardown removes it together with the peer's other state.
pub struct HandleRegistry {
    pub entries: Vec<(String, u64)>,
}

impl View for HandleRegistry {
    type V = Map<Seq<char>, u64>;

    open spec fn view(&self) -> Map<Seq<char>, u64> {
        Map::new(
            |k: Seq<char>| handles_has_key(self.entries@, k),
            |k: Seq<char>| self.entries@[handles_index(self.entries@, k)].1,
        )
    }
}

impl HandleRegistry {
    /// No peer address occurs twice.
    pub open spec fn wf(&self) -> bool {
        forall|i: int, j: int| 0 <= i < j < self.entries@.len() ==> self.entries@[i].0@
            != self.entries@[j].0@
    }

    /// The empty registry.
    pub fn new() -> (r: HandleRegistry)
        ensures
            r.wf(),
            r@ == Map::<Seq<char>, u64>::empty(),
    {
        let r = HandleRegistry { entries: Vec::new() };
        proof {
            assert(r@ =~= Map::<Seq<char>, u64>::empty());
        }
        r
    }

    /// The registered handle of `ip`, if any.
    pub fn get(&self, ip: &String) -> (r: Option<u64>)
        requires
            self.wf(),
        ensures
            match r {
                Some(h) => self@.dom().contains(ip@) && self@[ip@] == h,
                None => !self@.dom().contains(ip@),
            },
    {
        let mut i: usize = 0;
        while i < self.entries.len()
            invariant
                0 <= i <= self.entries@.len(),
                forall|j: int| 0 <= j < i ==> #[trigger] self.entries@[j].0@ != ip@,
                self.wf(),
            decreases self.entries@.len() - i,
        {
            if self.entries[i].0 == *ip {
                proof {
                    assert(handles_has_key(self.entries@, ip@));
                    let i0 = handles_index(self.entries@, ip@);
                    assert(self.entries@[i0].0@ == ip@);
                    assert(i0 == i as int);
                }
                return Some(self.entries[i].1);
            }
            i += 1;
        }
        proof {
            assert(!handles_has_key(self.entries@, ip@));
        }
        None
    }

    /// Drops `ip`'s entry; dropping an absent address changes nothing.
    pub fn remove(&mut self, ip: &String)
        requires
            old(self).wf(),
        ensures
            final(self).wf(),
            final(self)@ == old(self)@.remove(ip@),
    {
        let mut i: usize = 0;
        while i < self.entries.len()
            invariant
                0 <= i <= self.entries@.len(),
                forall|j: int| 0 <= j < i ==> #[trigger] self.entries@[j].0@ != ip@,
                self.wf(),
                self.entries@ == old(self).entries@,
            decreases self.entries@.len() - i,
        {
            if self.entries[i].0 == *ip {
                let ghost orig = self.entries@;
                self.entries.remove(i);
                proof {
                    Self::lemma_views_after_removal(orig, self.entries@, i as int, ip@);
                    assert(self@ =~= old(self)@.remove(ip@));
                }
                return;
            }
            i += 1;
        }
        proof {
            assert(!handles_has_key(self.entries@, ip@));
            assert(self@ =~= old(self)@.remove(ip@));
        }
    }

    /// After removing index `i`, whose key is `k0` and unique, the map loses
    /// exactly `k0`.
    proof fn lemma_views_after_removal(
        orig: Seq<(String, u64)>,
        now: Seq<(String, u64)>,
        i: int,
        k0: Seq<char>,
    )
        requires
            0 <= i < orig.len(),
            orig[i].0@ == k0,
            now == orig.subrange(0, i) + orig.subrange(i + 1, orig.len() as int),
            forall|a: int, b: int| 0 <= a < b < orig.len() ==> orig[a].0@ != orig[b].0@,
        ensures
            forall|a: int, b: int| 0 <= a < b < now.len() ==> now[a].0@ != now[b].0@,
            Map::new(
                |k: Seq<char>| handles_has_key(now, k),
                |k: Seq<char>| now[handles_index(now, k)].1,
            ) =~= Map::new(
                |k: Seq<char>| handles_has_key(orig, k),
                |k: Seq<char>| orig[handles_index(orig, k)].1,
            ).remove(k0),
    {
        assert(forall|j: int| 0 <= j < i ==> now[j] == orig[j]);
        assert(forall|j: int| i <= j < now.len() ==> now[j] == orig[j + 1]);
        let mnow = Map::new(
            |k: Seq<char>| handles_has_key(now, k),
            |k: Seq<char>| now[handles_index(now, k)].1,
        );
        let morig = Map::new(
            |k: Seq<char>| handles_has_key(orig, k),
            |k: Seq<char>| orig[handles_index(orig, k)].1,
        );
        assert forall|k: Seq<char>| mnow.dom().contains(k) implies morig.remove(k0).dom().contains(
            k,
        ) && mnow[k] == morig.remove(k0)[k] by {
            let j = choose|j: int| 0 <= j < now.len() && #[trigger] now[j].0@ == k;
            let jo = if j < i {
                j
            } else {
                j + 1
            };
            assert(orig[jo].0@ == k && orig[jo].1 == now[j].1);
            assert(handles_has_key(orig, k));
            assert(k != k0) by {
                assert(orig[i].0@ == k0);
            }
            let j1 = handles_index(now, k);
            assert(now[j1].0@ == k);
            assert(j1 == j);
            let jo1 = handles_index(orig, k);
            assert(orig[jo1].0@ == k);
            assert(jo1 == jo);
        }
        assert forall|k: Seq<char>| morig.remove(k0).dom().contains(k) implies mnow.dom().contains(
            k,
        ) by {
            let jo = choose|jo: int| 0 <= jo < orig.len() && #[trigger] orig[jo].0@ == k;
            assert(jo != i);
            if jo < i {
                assert(now[jo].0@ == k);
            } else {
                assert(now[jo - 1].0@ == k);
            }
        }
    }

    /// Registers `h` as `ip`'s handle, replacing any stale one.
    pub fn insert(&mut self, ip: String, h: u64)
        requires
            old(self).wf(),
        ensures
            final(self).wf(),
            final(self)@ == old(self)@.insert(ip@, h),
    {
        self.remove(&ip);
        let ghost pre = self.entries@;
        let ghost mpre = self@;
        self.entries.push((ip, h));
        proof {
            let n = pre.len() as int;
            assert(forall|j: int| 0 <= j < n ==> self.entries@[j] == pre[j]);
            assert(self.entries@[n].0@ == ip@ && self.entries@[n].1 == h);
            assert(!mpre.dom().contains(ip@));
            assert(!handles_has_key(pre, ip@));
            assert forall|k: Seq<char>| self@.dom().contains(k) implies mpre.insert(
                ip@,
                h,
            ).dom().contains(k) && self@[k] == mpre.insert(ip@, h)[k] by {
                let j = choose|j: int|
                    0 <= j < self.entries@.len() && #[trigger] self.entries@[j].0@ == k;
                let j1 = handles_index(self.entries@, k);
                assert(self.entries@[j1].0@ == k);
                if k == ip@ {
                    assert(j1 == n) by {
                        if j1 < n {
                            assert(pre[j1].0@ == k);
                            assert(handles_has_key(pre, ip@));
                        }
                    }
                } else {
                    assert(j < n) by {
                        assert(self.entries@[n].0@ == ip@);
                    }
                    assert(pre[j].0@ == k);
                    assert(handles_has_key(pre, k));
                    assert(j1 < n) by {
                        assert(self.entries@[n].0@ == ip@);
                    }
                    assert(pre[j1].0@ == k);
                    let jp = handles_index(pre, k);
                    assert(pre[jp].0@ == k);
                    assert(jp == j1);
                }
            }
            assert forall|k: Seq<char>| mpre.insert(ip@, h).dom().contains(k) implies
                self@.dom().contains(k) by {
                if k == ip@ {
                    assert(self.entries@[n].0@ == k);
                } else {
                    let j = choose|j: int| 0 <= j < pre.len() && #[trigger] pre[j].0@ == k;
                    assert(self.entries@[j].0@ == k);
                }
            }
            assert(self@ =~= mpre.insert(ip@, h));
        }
    }
}

/// True when some entry of `entries` is keyed by `k`.
pub open spec fn conns_has_key(entries: Seq<(String, (String, u16))>, k: Seq<char>) -> bool {
    exists|i: int| 0 <= i < entries.len() && #[trigger] entries[i].0@ == k
}

/// The index of the entry keyed by `k`.
pub open spec fn conns_index(entries: Seq<(String, (String, u16))>, k: Seq<char>) -> int {
    choose|i: int| 0 <= i < entries.len() && #[trigger] entries[i].0@ == k
}

/// The model of a routing entry: host text and port.
pub open spec fn conn_value(v: (String, u16)) -> (Seq<char>, u16) {
    (v.0@, v.1)
}

/// The LLM routing table: peer address to the (host, port) its grant named.
/// Populated only on a granted access response; consulted when the local
/// model is unreachable.
pub struct ConnectionTable {
    pub entries: Vec<(String, (String, u16))>,
}

impl View for ConnectionTable {
    type V = Map<Seq<char>, (Seq<char>, u16)>;

    open spec fn view(&self) -> Map<Seq<char>, (Seq<char>, u16)> {
        Map::new(
            |k: Seq<char>| conns_has_key(self.entries@, k),
            |k: Seq<char>| conn_value(self.entries@[conns_index(self.entries@, k)].1),
        )
    }
}

impl ConnectionTable {
    /// No peer address occurs twice.
    pub open spec fn wf(&self) -> bool {
        forall|i: int, j: int| 0 <= i < j < self.entries@.len() ==> self.entries@[i].0@
            != self.entries@[j].0@
    }

    /// The empty table.
    pub fn new() -> (r: ConnectionTable)
        ensures
            r.wf(),
            r@ == Map::<Seq<char>, (Seq<char>, u16)>::empty(),
    {
        let r = ConnectionTable { entries: Vec::new() };
        proof {
            assert(r@ =~= Map::<Seq<char>, (Seq<char>, u16)>::empty());
        }
        r
    }

    /// The routing entry of `ip`, if any.
    pub fn get(&self, ip: &String) -> (r: Option<(String, u16)>)
        requires
            self.wf(),
        ensures
            match r {
                Some(v) => self@.dom().contains(ip@) && self@[ip@] == conn_value(v),
                None => !self@.dom().contains(ip@),
            },
    {
        let mut i: usize = 0;
        while i < self.entries.len()
            invariant
                0 <= i <= self.entries@.len(),
                forall|j: int| 0 <= j < i ==> #[trigger] self.entries@[j].0@ != ip@,
                self.wf(),
            decreases self.entries@.len() - i,
        {
            if self.entries[i].0 == *ip {
                proof {
                    assert(conns_has_key(self.entries@, ip@));
                    let i0 = conns_index(self.entries@, ip@);
                    assert(self.entries@[i0].0@ == ip@);
                    assert(i0 == i as int);
                }
                let host = self.entries[i].1.0.clone();
                let port = self.entries[i].1.1;
                return Some((host, port));
            }
            i += 1;
        }
        proof {
            assert(!conns_has_key(self.entries@, ip@));
        }
        None
    }

    /// Drops `ip`'s entry; dropping an absent address changes nothing.
    pub fn remove(&mut self, ip: &String)
        requires
            old(self).wf(),
        ensures
            final(self).wf(),
            final(self)@ == old(self)@.remove(ip@),
    {
        let mut i: usize = 0;
        while i < self.entries.len()
            invariant
                0 <= i <= self.entries@.len(),
                forall|j: int| 0 <= j < i ==> #[trigger] self.entries@[j].0@ != ip@,
                self.wf(),
                self.entries@ == old(self).entries@,
            decreases self.entries@.len() - i,
        {
            if self.entries[i].0 == *ip {
                let ghost orig = self.entries@;
                self.entries.remove(i);
                proof {
                    Self::lemma_views_after_removal(orig, self.entries@, i as int, ip@);
                    assert(self@ =~= old(self)@.remove(ip@));
                }
                return;
            }
            i += 1;
        }
        proof {
            assert(!conns_has_key(self.entries@, ip@));
            assert(self@ =~= old(self)@.remove(ip@));
        }
    }

    /// After removing index `i`, whose key is `k0` and unique, the map loses
    /// exactly `k0`.
    proof fn lemma_views_after_removal(
        orig: Seq<(String, (String, u16))>,
        now: Seq<(String, (String, u16))>,
        i: int,
        k0: Seq<char>,
    )
        requires
            0 <= i < orig.len(),
            orig[i].0@ == k0,
            now == orig.subrange(0, i) + orig.subrange(i + 1, orig.len() as int),
            forall|a: int, b: int| 0 <= a < b < orig.len() ==> orig[a].0@ != orig[b].0@,
        ensures
            forall|a: int, b: int| 0 <= a < b < now.len() ==> now[a].0@ != now[b].0@,
            Map::new(
                |k: Seq<char>| conns_has_key(now, k),
                |k: Seq<char>| conn_value(now[conns_index(now, k)].1),
            ) =~= Map::new(
                |k: Seq<char>| conns_has_key(orig, k),
                |k: Seq<char>| conn_value(orig[conns_index(orig, k)].1),
            ).remove(k0),
    {
        assert(forall|j: int| 0 <= j < i ==> now[j] == orig[j]);
        assert(forall|j: int| i <= j < now.len() ==> now[j] == orig[j + 1]);
        let mnow = Map::new(
            |k: Seq<char>| conns_has_key(now, k),
            |k: Seq<char>| conn_value(now[conns_index(now, k)].1),
        );
        let morig = Map::new(
            |k: Seq<char>| conns_has_key(orig, k),
            |k: Seq<char>| conn_value(orig[conns_index(orig, k)].1),
        );
        assert forall|k: Seq<char>| mnow.dom().contains(k) implies morig.remove(k0).dom().contains(
            k,
        ) && mnow[k] == morig.remove(k0)[k] by {
            let j = choose|j: int| 0 <= j < now.len() && #[trigger] now[j].0@ == k;
            let jo = if j < i {
                j
            } else {
                j + 1
            };
            assert(orig[jo].0@ == k && orig[jo].1 == now[j].1);
            assert(conns_has_key(orig, k));
            assert(k != k0) by {
                assert(orig[i].0@ == k0);
            }
            let j1 = conns_index(now, k);
            assert(now[j1].0@ == k);
            assert(j1 == j);
            let jo1 = conns_index(orig, k);
            assert(orig[jo1].0@ == k);
            assert(jo1 == jo);
        }
        assert forall|k: Seq<char>| morig.remove(k0).dom().contains(k) implies mnow.dom().contains(
            k,
        ) by {
            let jo = choose|jo: int| 0 <= jo < orig.len() && #[trigger] orig[jo].0@ == k;
            assert(jo != i);
            if jo < i {
                assert(now[jo].0@ == k);
            } else {
                assert(now[jo - 1].0@ == k);
            }
        }
    }

    /// Records `ip`'s routing entry, replacing any earlier one.
    pub fn insert(&mut self, ip: String, host: String, port: u16)
        requires
            old(self).wf(),
        ensures
            final(self).wf(),
            final(self)@ == old(self)@.insert(ip@, (host@, port)),
    {
        self.remove(&ip);
        let ghost pre = self.entries@;
        let ghost mpre = self@;
        self.entries.push((ip, (host, port)));
        proof {
            let n = pre.len() as int;
            let v = self.entries@[n].1;
            assert(forall|j: int| 0 <= j < n ==> self.entries@[j] == pre[j]);
            assert(self.entries@[n].0@ == ip@ && conn_value(v) == (host@, port));
            assert(!mpre.dom().contains(ip@));
            assert(!conns_has_key(pre, ip@));
            assert forall|k: Seq<char>| self@.dom().contains(k) implies mpre.insert(
                ip@,
                (host@, port),
            ).dom().contains(k) && self@[k] == mpre.insert(ip@, (host@, port))[k] by {
                let j = choose|j: int|
                    0 <= j < self.entries@.len() && #[trigger] self.entries@[j].0@ == k;
                let j1 = conns_index(self.entries@, k);
                assert(self.entries@[j1].0@ == k);
                if k == ip@ {
                    assert(j1 == n) by {
                        if j1 < n {
                            assert(pre[j1].0@ == k);
                            assert(conns_has_key(pre, ip@));
                        }
                    }
                } else {
                    assert(j < n) by {
                        assert(self.entries@[n].0@ == ip@);
                    }
                    assert(pre[j].0@ == k);
                    assert(conns_has_key(pre, k));
                    assert(j1 < n) by {
                        assert(self.entries@[n].0@ == ip@);
                    }
                    assert(pre[j1].0@ == k);
                    let jp = conns_index(pre, k);
                    assert(pre[jp].0@ == k);
                    assert(jp == j1);
                }
            }
            assert forall|k: Seq<char>| mpre.insert(ip@, (host@, port)).dom().contains(k) implies
                self@.dom().contains(k) by {
                if k == ip@ {
                    assert(self.entries@[n].0@ == k);
                } else {
                    let j = choose|j: int| 0 <= j < pre.len() && #[trigger] pre[j].0@ == k;
                    assert(self.entries@[j].0@ == k);
                }
            }
            assert(self@ =~= mpre.insert(ip@, (host@, port)));
        }
    }

    /// The entries, for the routing fallback to walk.
    pub fn entries_list(&self) -> (r: &Vec<(String, (String, u16))>)
        requires
            self.wf(),
        ensures
            r@ == self.entries@,
            forall|i: int| 0 <= i < r@.len() ==> self@.dom().contains(#[trigger] r@[i].0@)
                && self@[r@[i].0@] == conn_value(r@[i].1),
    {
        proof {
            assert forall|i: int| 0 <= i < self.entries@.len() implies self@.dom().contains(
                #[trigger] self.entries@[i].0@,
            ) && self@[self.entries@[i].0@] == conn_value(self.entries@[i].1) by {
                assert(conns_has_key(self.entries@, self.entries@[i].0@));
                let j = conns_index(self.entries@, self.entries@[i].0@);
                assert(self.entries@[j].0@ == self.entries@[i].0@);
                assert(j == i);
            }
        }
        &self.entries
    }
}

/// True when some entry of `entries` is keyed by `k`.
pub open spec fn seen_has_key(entries: Seq<(String, i64)>, k: Seq<char>) -> bool {
    exists|i: int| 0 <= i < entries.len() && #[trigger] entries[i].0@ == k
}

/// The index of the entry keyed by `k`.
pub open spec fn seen_index(entries: Seq<(String, i64)>, k: Seq<char>) -> int {
    choose|i: int| 0 <= i < entries.len() && #[trigger] entries[i].0@ == k
}

/// The discovery debounce table: source address to the timestamp of its last
/// processed announcement, in seconds.
pub struct DebounceTable {
    pub entries: Vec<(String, i64)>,
}

impl View for DebounceTable {
    type V = Map<Seq<char>, i64>;

    open spec fn view(&self) -> Map<Seq<char>, i64> {
        Map::new(
            |k: Seq<char>| seen_has_key(self.entries@, k),
            |k: Seq<char>| self.entries@[seen_index(self.entries@, k)].1,
        )
    }
}

impl DebounceTable {
    /// No source address occurs twice.
    pub open spec fn wf(&self) -> bool {
        forall|i: int, j: int| 0 <= i < j < self.entries@.len() ==> self.entries@[i].0@
            != self.entries@[j].0@
    }

    /// Every recorded timestamp is nonnegative.
    pub open spec fn nonneg(&self) -> bool {
        forall|k: Seq<char>| self@.dom().contains(k) ==> self@[k] >= 0
    }

    /// The empty table.
    pub fn new() -> (r: DebounceTable)
        ensures
            r.wf(),
            r.nonneg(),
            r@ == Map::<Seq<char>, i64>::empty(),
    {
        let r = DebounceTable { entries: Vec::new() };
        proof {
            assert(r@ =~= Map::<Seq<char>, i64>::empty());
        }
        r
    }

    /// The last-seen timestamp of `ip`, if any.
    pub fn last_seen(&self, ip: &String) -> (r: Option<i64>)
        requires
            self.wf(),
        ensures
            match r {
                Some(t) => self@.dom().contains(ip@) && self@[ip@] == t,
                None => !self@.dom().contains(ip@),
            },
    {
        let mut i: usize = 0;
        while i < self.entries.len()
            invariant
                0 <= i <= self.entries@.len(),
                forall|j: int| 0 <= j < i ==> #[trigger] self.entries@[j].0@ != ip@,
                self.wf(),
            decreases self.entries@.len() - i,
        {
            if self.entries[i].0 == *ip {
                proof {
                    assert(seen_has_key(self.entries@, ip@));
                    let i0 = seen_index(self.entries@, ip@);
                    assert(self.entries@[i0].0@ == ip@);
                    assert(i0 == i as int);
                }
                return Some(self.entries[i].1);
            }
            i += 1;
        }
        proof {
            assert(!seen_has_key(self.entries@, ip@));
        }
        None
    }

    /// Drops `ip`'s entry; dropping an absent address changes nothing.
    pub fn remove(&mut self, ip: &String)
        requires
            old(self).wf(),
        ensures
            final(self).wf(),
            final(self)@ == old(self)@.remove(ip@),
    {
        let mut i: usize = 0;
        while i < self.entries.len()
            invariant
                0 <= i <= self.entries@.len(),
                forall|j: int| 0 <= j < i ==> #[trigger] self.entries@[j].0@ != ip@,
                self.wf(),
                self.entries@ == old(self).entries@,
            decreases self.entries@.len() - i,
        {
            if self.entries[i].0 == *ip {
                let ghost orig = self.entries@;
                self.entries.remove(i);
                proof {
                    Self::lemma_views_after_removal(orig, self.entries@, i as int, ip@);
                    assert(self@ =~= old(self)@.remove(ip@));
                }
                return;
            }
            i += 1;
        }
        proof {
            assert(!seen_has_key(self.entries@, ip@));
            assert(self@ =~= old(self)@.remove(ip@));
        }
    }

    /// After removing index `i`, whose key is `k0` and unique, the map loses
    /// exactly `k0`.
    proof fn lemma_views_after_removal(
        orig: Seq<(String, i64)>,
        now: Seq<(String, i64)>,
        i: int,
        k0: Seq<char>,
    )
        requires
            0 <= i < orig.len(),
            orig[i].0@ == k0,
            now == orig.subrange(0, i) + orig.subrange(i + 1, orig.len() as int),
            forall|a: int, b: int| 0 <= a < b < orig.len() ==> orig[a].0@ != orig[b].0@,
        ensures
            forall|a: int, b: int| 0 <= a < b < now.len() ==> now[a].0@ != now[b].0@,
            Map::new(
                |k: Seq<char>| seen_has_key(now, k),
                |k: Seq<char>| now[seen_index(now, k)].1,
            ) =~= Map::new(
                |k: Seq<char>| seen_has_key(orig, k),
                |k: Seq<char>| orig[seen_index(orig, k)].1,
            ).remove(k0),
    {
        assert(forall|j: int| 0 <= j < i ==> now[j] == orig[j]);
        assert(forall|j: int| i <= j < now.len() ==> now[j] == orig[j + 1]);
        let mnow = Map::new(
            |k: Seq<char>| seen_has_key(now, k),
            |k: Seq<char>| now[seen_index(now, k)].1,
        );
        let morig = Map::new(
            |k: Seq<char>| seen_has_key(orig, k),
            |k: Seq<char>| orig[seen_index(orig, k)].1,
        );
        assert forall|k: Seq<char>| mnow.dom().contains(k) implies morig.remove(k0).dom().contains(
            k,
        ) && mnow[k] == morig.remove(k0)[k] by {
            let j = choose|j: int| 0 <= j < now.len() && #[trigger] now[j].0@ == k;
            let jo = if j < i {
                j
            } else {
                j + 1
            };
            assert(orig[jo].0@ == k && orig[jo].1 == now[j].1);
            assert(seen_has_key(orig, k));
            assert(k != k0) by {
                assert(orig[i].0@ == k0);
            }
            let j1 = seen_index(now, k);
            assert(now[j1].0@ == k);
            assert(j1 == j);
            let jo1 = seen_index(orig, k);
            assert(orig[jo1].0@ == k);
            assert(jo1 == jo);
        }
        assert forall|k: Seq<char>| morig.remove(k0).dom().contains(k) implies mnow.dom().contains(
            k,
        ) by {
            let jo = choose|jo: int| 0 <= jo < orig.len() && #[trigger] orig[jo].0@ == k;
            assert(jo != i);
            if jo < i {
                assert(now[jo].0@ == k);
            } else {
                assert(now[jo - 1].0@ == k);
            }
        }
    }

    /// Records that `ip` was processed at `t`.
    pub fn record(&mut self, ip: String, t: i64)
        requires
            old(self).wf(),
            old(self).nonneg(),
            0 <= t,
        ensures
            final(self).wf(),
            final(self).nonneg(),
            final(self)@ == old(self)@.insert(ip@, t),
    {
        self.remove(&ip);
        let ghost pre = self.entries@;
        let ghost mpre = self@;
        self.entries.push((ip, t));
        proof {
            let n = pre.len() as int;
            assert(forall|j: int| 0 <= j < n ==> self.entries@[j] == pre[j]);
            assert(self.entries@[n].0@ == ip@ && self.entries@[n].1 == t);
            assert(!mpre.dom().contains(ip@));
            assert(!seen_has_key(pre, ip@));
            assert forall|k: Seq<char>| self@.dom().contains(k) implies mpre.insert(
                ip@,
                t,
            ).dom().contains(k) && self@[k] == mpre.insert(ip@, t)[k] by {
                let j = choose|j: int|
                    0 <= j < self.entries@.len() && #[trigger] self.entries@[j].0@ == k;
                let j1 = seen_index(self.entries@, k);
                assert(self.entries@[j1].0@ == k);
                if k == ip@ {
                    assert(j1 == n) by {
                        if j1 < n {
                            assert(pre[j1].0@ == k);
                            assert(seen_has_key(pre, ip@));
                        }
                    }
                } else {
                    assert(j < n) by {
                        assert(self.entries@[n].0@ == ip@);
                    }
                    assert(pre[j].0@ == k);
                    assert(seen_has_key(pre, k));
                    assert(j1 < n) by {
                        assert(self.entries@[n].0@ == ip@);
                    }
                    assert(pre[j1].0@ == k);
                    let jp = seen_index(pre, k);
                    assert(pre[jp].0@ == k);
                    assert(jp == j1);
                }
            }
            assert forall|k: Seq<char>| mpre.insert(ip@, t).dom().contains(k) implies
                self@.dom().contains(k) by {
                if k == ip@ {
                    assert(self.entries@[n].0@ == k);
                } else {
                    let j = choose|j: int| 0 <= j < pre.len() && #[trigger] pre[j].0@ == k;
                    assert(self.entries@[j].0@ == k);
                }
            }
            assert(self@ =~= mpre.insert(ip@, t));
        }
    }
}

} // verus!
