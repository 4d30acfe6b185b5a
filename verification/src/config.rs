//! The registry of configured tunnels: a name-to-tunnel mapping with
//! unique aliases, kept in insertion order. Loading the registry from
//! disk and saving it back are the caller's concern; the mapping rules
//! — what add, set and remove do to the set of tunnels — live here.

use vstd::prelude::*;
use crate::text::str_eq;
use crate::tunnel::Tunnel;

verus! {

/// The indices whose flag is set, in increasing order.
pub open spec fn indices_where(flags: Seq<bool>) -> Seq<usize>
    decreases flags.len(),
{
    if flags.len() == 0 {
        Seq::empty()
    } else if flags.last() {
        indices_where(flags.drop_last()).push((flags.len() - 1) as usize)
    } else {
        indices_where(flags.drop_last())
    }
}

/// The set of configured tunnels, keyed by alias.
pub struct Config {
    tunnels: Vec<Tunnel>,
}

impl Config {
    /// The configured tunnels, in insertion order.
    pub closed spec fn spec_tunnels(&self) -> Seq<Tunnel> {
        self.tunnels@
    }

    /// Aliases are unique and every tunnel is well-formed.
    pub open spec fn wf(&self) -> bool {
        &&& forall|i: int, j: int|
            0 <= i < j < self.spec_tunnels().len() ==> self.spec_tunnels()[i].spec_alias()
                != self.spec_tunnels()[j].spec_alias()
        &&& forall|i: int|
            0 <= i < self.spec_tunnels().len() ==> (#[trigger] self.spec_tunnels()[i]).wf()
    }

    /// The alias is configured at index `i`.
    pub open spec fn alias_at(&self, alias: Seq<char>, i: int) -> bool {
        0 <= i < self.spec_tunnels().len() && self.spec_tunnels()[i].spec_alias() == alias
    }

    /// Some tunnel is configured under the alias.
    pub open spec fn has_alias(&self, alias: Seq<char>) -> bool {
        exists|i: int| self.alias_at(alias, i)
    }

    /// An empty registry.
    pub fn new() -> (r: Self)
        ensures
            r.spec_tunnels() == Seq::<Tunnel>::empty(),
            r.wf(),
    {
        let r = Config { tunnels: Vec::new() };
        r
    }

    /// All configured tunnels, in insertion order.
    pub fn list_tunnels(&self) -> (r: &Vec<Tunnel>)
        ensures
            r@ == self.spec_tunnels(),
    {
        &self.tunnels
    }

    /// The index of the tunnel configured under the alias, if any.
    pub fn find_tunnel(&self, alias: &str) -> (r: Option<usize>)
        ensures
            match r {
                Some(i) => self.alias_at(alias@, i as int),
                None => !self.has_alias(alias@),
            },
    {
        let n = self.tunnels.len();
        let mut i: usize = 0;
        while i < n
            invariant
                0 <= i <= n,
                n == self.spec_tunnels().len(),
                forall|j: int| 0 <= j < i ==> self.spec_tunnels()[j].spec_alias() != alias@,
            decreases n - i,
        {
            if str_eq(self.tunnels[i].alias_str(), alias) {
                return Some(i);
            }
            i = i + 1;
        }
        None
    }

    /// Configure a tunnel under the alias: a fresh record (no handle,
    /// empty log buffer) replaces an existing entry with that alias, or
    /// is appended when the alias is new.
    pub fn add_tunnel(&mut self, alias: &str, source: &str, port: u16)
        requires
            old(self).wf(),
            1 <= port,
        ensures
            final(self).wf(),
            old(self).has_alias(alias@) ==> {
                &&& final(self).spec_tunnels().len() == old(self).spec_tunnels().len()
                &&& forall|j: int|
                    0 <= j < old(self).spec_tunnels().len() && !old(self).alias_at(alias@, j)
                        ==> final(self).spec_tunnels()[j] == old(self).spec_tunnels()[j]
                &&& forall|j: int|
                    old(self).alias_at(alias@, j) ==> is_fresh(
                        #[trigger] final(self).spec_tunnels()[j],
                        alias@,
                        source@,
                        port,
                    )
            },
            !old(self).has_alias(alias@) ==> {
                &&& final(self).spec_tunnels().len() == old(self).spec_tunnels().len() + 1
                &&& final(self).spec_tunnels().drop_last() == old(self).spec_tunnels()
                &&& is_fresh(final(self).spec_tunnels().last(), alias@, source@, port)
            },
    {
        let fresh = Tunnel::new(alias, source, port);
        match self.find_tunnel(alias) {
            Some(i) => {
                let _old_entry = self.tunnels.remove(i);
                self.tunnels.insert(i, fresh);
                proof {
                    assert(self.spec_tunnels() =~= old(self).spec_tunnels().update(
                        i as int,
                        self.spec_tunnels()[i as int],
                    ));
                    assert forall|a: int, b: int|
                        0 <= a < b < self.spec_tunnels().len() implies self.spec_tunnels()[
                        a
                    ].spec_alias() != self.spec_tunnels()[b].spec_alias() by {
                        if a == i as int {
                            assert(old(self).spec_tunnels()[a].spec_alias() != old(
                                self,
                            ).spec_tunnels()[b].spec_alias());
                        } else if b == i as int {
                            assert(old(self).spec_tunnels()[a].spec_alias() != old(
                                self,
                            ).spec_tunnels()[b].spec_alias());
                        }
                    }
                }
            },
            None => {
                self.tunnels.push(fresh);
                proof {
                    assert(self.spec_tunnels().drop_last() =~= old(self).spec_tunnels());
                    assert forall|a: int, b: int|
                        0 <= a < b < self.spec_tunnels().len() implies self.spec_tunnels()[
                        a
                    ].spec_alias() != self.spec_tunnels()[b].spec_alias() by {
                        if b == old(self).spec_tunnels().len() as int {
                            assert(!old(self).alias_at(alias@, a));
                        }
                    }
                }
            },
        }
    }

    /// Change the source and/or port of the tunnel under the alias, if
    /// one is configured; its runtime state (handle, log buffer) is
    /// kept — an already-spawned client keeps its original invocation
    /// until restarted. Without a match nothing changes.
    pub fn update_tunnel(&mut self, alias: &str, source: Option<&str>, port: Option<u16>)
        requires
            old(self).wf(),
            port matches Some(p) ==> 1 <= p,
        ensures
            final(self).wf(),
            !old(self).has_alias(alias@) ==> final(self).spec_tunnels() == old(
                self,
            ).spec_tunnels(),
            old(self).has_alias(alias@) ==> {
                &&& final(self).spec_tunnels().len() == old(self).spec_tunnels().len()
                &&& forall|j: int|
                    0 <= j < old(self).spec_tunnels().len() && !old(self).alias_at(alias@, j)
                        ==> final(self).spec_tunnels()[j] == old(self).spec_tunnels()[j]
                &&& forall|j: int|
                    old(self).alias_at(alias@, j) ==> is_reconfigured(
                        #[trigger] final(self).spec_tunnels()[j],
                        old(self).spec_tunnels()[j],
                        match source {
                            Some(s) => Some(s@),
                            None => None,
                        },
                        port,
                    )
            },
    {
        match self.find_tunnel(alias) {
            Some(i) => {
                let mut t = self.tunnels.remove(i);
                match source {
                    Some(s) => {
                        t.set_source(s);
                    },
                    None => {},
                }
                match port {
                    Some(p) => {
                        t.set_port(p);
                    },
                    None => {},
                }
                self.tunnels.insert(i, t);
                proof {
                    assert(self.spec_tunnels() =~= old(self).spec_tunnels().update(
                        i as int,
                        self.spec_tunnels()[i as int],
                    ));
                }
            },
            None => {},
        }
    }

    /// Drop the tunnel configured under the alias; the others keep
    /// their order. Without a match nothing changes. A running
    /// instance is the caller's to stop first.
    pub fn remove_tunnel(&mut self, alias: &str)
        requires
            old(self).wf(),
        ensures
            final(self).wf(),
            !old(self).has_alias(alias@) ==> final(self).spec_tunnels() == old(
                self,
            ).spec_tunnels(),
            old(self).has_alias(alias@) ==> exists|i: int|
                old(self).alias_at(alias@, i) && final(self).spec_tunnels() == old(
                    self,
                ).spec_tunnels().remove(i),
    {
        match self.find_tunnel(alias) {
            Some(i) => {
                let _removed = self.tunnels.remove(i);
                proof {
                    assert(self.spec_tunnels() =~= old(self).spec_tunnels().remove(i as int));
                }
            },
            None => {},
        }
    }

    /// The indices of the tunnels whose running flag is set, in order;
    /// the flags come from the caller's probe, one per tunnel.
    pub fn list_running_tunnels(&self, running: &Vec<bool>) -> (r: Vec<usize>)
        requires
            running@.len() == self.spec_tunnels().len(),
        ensures
            r@ == indices_where(running@),
    {
        let n = running.len();
        let mut r: Vec<usize> = Vec::new();
        let mut i: usize = 0;
        proof {
            assert(running@.take(0) =~= Seq::<bool>::empty());
        }
        while i < n
            invariant
                0 <= i <= n,
                n == running@.len(),
                r@ == indices_where(running@.take(i as int)),
            decreases n - i,
        {
            if running[i] {
                r.push(i);
            }
            proof {
                assert(running@.take(i + 1).drop_last() =~= running@.take(i as int));
                assert(running@.take(i + 1).last() == running@[i as int]);
            }
            i = i + 1;
        }
        proof {
            assert(running@.take(n as int) =~= running@);
        }
        r
    }
}

/// A record as `add` writes it: the given attributes, no handle, an
/// empty log buffer.
pub open spec fn is_fresh(t: Tunnel, alias: Seq<char>, source: Seq<char>, port: u16) -> bool {
    &&& t.spec_alias() == alias
    &&& t.spec_source() == source
    &&& t.spec_port() == port
    &&& t.spec_handle() is None
    &&& t.spec_logs() == Seq::<Seq<char>>::empty()
}

/// A record as `set` rewrites it: each given attribute replaced, the
/// alias and the runtime state kept.
pub open spec fn is_reconfigured(
    t: Tunnel,
    was: Tunnel,
    source: Option<Seq<char>>,
    port: Option<u16>,
) -> bool {
    &&& t.spec_alias() == was.spec_alias()
    &&& t.spec_source() == (match source {
        Some(s) => s,
        None => was.spec_source(),
    })
    &&& t.spec_port() == (match port {
        Some(p) => p,
        None => was.spec_port(),
    })
    &&& t.spec_handle() == was.spec_handle()
    &&& t.spec_logs() == was.spec_logs()
}

} // verus!
