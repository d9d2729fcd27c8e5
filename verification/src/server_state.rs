//! The server's shared registries and the decisions taken on them: which
//! clients are connected, which proxy configurations they registered, which
//! public port belongs to which client, and which logical streams are
//! active.
//!
//! Invariants: client ids are unique; each public port has exactly one
//! owning client and that client is registered; every active connection's
//! client is registered; every recorded proxy belongs to a registered
//! client. Every operation preserves them, and `cleanup_client` removes
//! every trace of a client in one sweep.

use vstd::prelude::*;
use vstd::string::StringExecFns;
use crate::protocol::{Message, MessageView, view_opt_str};

verus! {

/// What a client asked to expose: where the service lives locally and the
/// public port for it.
#[derive(Debug, Clone)]
pub struct ProxyInfo {
    pub local_ip: String,
    pub local_port: u16,
    pub remote_port: u16,
}

/// One accepted proxy configuration.
#[derive(Debug)]
pub struct ProxyRecord {
    pub client_id: String,
    pub proxy_id: String,
    pub info: ProxyInfo,
}

/// One bound public port.
#[derive(Debug)]
pub struct PortEntry {
    pub remote_port: u16,
    pub owning_client_id: String,
    pub proxy_id: String,
}

/// One active logical stream.
#[derive(Debug)]
pub struct ConnEntry {
    pub connection_id: String,
    pub client_id: String,
}

/// The server's registries.
#[derive(Debug)]
pub struct ServerState {
    clients: Vec<String>,
    proxies: Vec<ProxyRecord>,
    ports: Vec<PortEntry>,
    conns: Vec<ConnEntry>,
}

impl ServerState {
    /// The registered client ids, in registration order.
    pub closed spec fn clients_seq(&self) -> Seq<String> {
        self.clients@
    }

    /// The accepted proxy configurations.
    pub closed spec fn proxies_seq(&self) -> Seq<ProxyRecord> {
        self.proxies@
    }

    /// The bound public ports.
    pub closed spec fn ports_seq(&self) -> Seq<PortEntry> {
        self.ports@
    }

    /// The active logical streams.
    pub closed spec fn conns_seq(&self) -> Seq<ConnEntry> {
        self.conns@
    }

    /// A client with this id is registered.
    pub open spec fn has_client(&self, id: Seq<char>) -> bool {
        exists|i: int| 0 <= i < self.clients_seq().len()
            && (#[trigger] self.clients_seq()[i])@ == id
    }

    /// A proxy with this id is recorded on this client's session.
    pub open spec fn has_proxy(&self, id: Seq<char>, proxy_id: Seq<char>) -> bool {
        exists|i: int| 0 <= i < self.proxies_seq().len()
            && (#[trigger] self.proxies_seq()[i]).client_id@ == id
            && self.proxies_seq()[i].proxy_id@ == proxy_id
    }

    /// A listener is installed on this public port.
    pub open spec fn has_port(&self, p: u16) -> bool {
        exists|i: int| 0 <= i < self.ports_seq().len()
            && (#[trigger] self.ports_seq()[i]).remote_port == p
    }

    /// The index of the entry for this port.
    pub open spec fn port_index(&self, p: u16) -> int {
        choose|i: int| 0 <= i < self.ports_seq().len()
            && (#[trigger] self.ports_seq()[i]).remote_port == p
    }

    /// The id of the client owning this port.
    pub open spec fn port_owner(&self, p: u16) -> Seq<char> {
        self.ports_seq()[self.port_index(p)].owning_client_id@
    }

    /// The proxy id published for this port.
    pub open spec fn port_proxy(&self, p: u16) -> Seq<char> {
        self.ports_seq()[self.port_index(p)].proxy_id@
    }

    /// A stream with this connection id is active.
    pub open spec fn has_conn(&self, c: Seq<char>) -> bool {
        exists|i: int| 0 <= i < self.conns_seq().len()
            && (#[trigger] self.conns_seq()[i]).connection_id@ == c
    }

    /// The index of the entry for this connection.
    pub open spec fn conn_index(&self, c: Seq<char>) -> int {
        choose|i: int| 0 <= i < self.conns_seq().len()
            && (#[trigger] self.conns_seq()[i]).connection_id@ == c
    }

    /// The id of the client a stream belongs to.
    pub open spec fn conn_owner(&self, c: Seq<char>) -> Seq<char> {
        self.conns_seq()[self.conn_index(c)].client_id@
    }

    /// The registry invariants: unique client ids, unique ports, unique
    /// connection ids, and every proxy, port and stream owned by a
    /// registered client.
    pub open spec fn wf(&self) -> bool {
        &&& (forall|i: int, j: int| 0 <= i < j < self.clients_seq().len()
            ==> (#[trigger] self.clients_seq()[i])@ != (#[trigger] self.clients_seq()[j])@)
        &&& (forall|i: int, j: int| 0 <= i < j < self.ports_seq().len()
            ==> (#[trigger] self.ports_seq()[i]).remote_port
                != (#[trigger] self.ports_seq()[j]).remote_port)
        &&& (forall|i: int, j: int| 0 <= i < j < self.conns_seq().len()
            ==> (#[trigger] self.conns_seq()[i]).connection_id@
                != (#[trigger] self.conns_seq()[j]).connection_id@)
        &&& (forall|i: int| 0 <= i < self.ports_seq().len()
            ==> self.has_client((#[trigger] self.ports_seq()[i]).owning_client_id@))
        &&& (forall|i: int| 0 <= i < self.conns_seq().len()
            ==> self.has_client((#[trigger] self.conns_seq()[i]).client_id@))
        &&& (forall|i: int| 0 <= i < self.proxies_seq().len()
            ==> self.has_client((#[trigger] self.proxies_seq()[i]).client_id@))
    }

    /// Starts with every registry empty.
    pub fn new() -> (r: ServerState)
        ensures
            r.wf(),
            r.clients_seq() == Seq::<String>::empty(),
            r.proxies_seq() == Seq::<ProxyRecord>::empty(),
            r.ports_seq() == Seq::<PortEntry>::empty(),
            r.conns_seq() == Seq::<ConnEntry>::empty(),
    {
        ServerState {
            clients: Vec::new(),
            proxies: Vec::new(),
            ports: Vec::new(),
            conns: Vec::new(),
        }
    }

    /// Registers a client session. Rejects an id that is already
    /// registered, so ids stay unique.
    pub fn register_client(&mut self, client_id: &str) -> (r: bool)
        requires
            old(self).wf(),
        ensures
            final(self).wf(),
            r == !old(self).has_client(client_id@),
            forall|id: Seq<char>| final(self).has_client(id)
                <==> (old(self).has_client(id) || (r && id == client_id@)),
            final(self).proxies_seq() == old(self).proxies_seq(),
            final(self).ports_seq() == old(self).ports_seq(),
            final(self).conns_seq() == old(self).conns_seq(),
            !r ==> final(self).clients_seq() == old(self).clients_seq(),
    {
        let key: String = client_id.to_owned();
        let n = self.clients.len();
        let mut i: usize = 0;
        while i < n
            invariant
                0 <= i <= n,
                n == self.clients@.len(),
                key@ == client_id@,
                *self == *old(self),
                old(self).wf(),
                forall|j: int| 0 <= j < i ==> (#[trigger] self.clients@[j])@ != client_id@,
            decreases n - i,
        {
            if self.clients[i] == key {
                proof {
                    assert(self.clients_seq()[i as int]@ == client_id@);
                }
                return false;
            }
            i = i + 1;
        }
        self.clients.push(key);
        proof {
            let oc = old(self).clients_seq();
            let nc = self.clients_seq();
            assert(nc[oc.len() as int]@ == client_id@);
            assert forall|i1: int, j1: int| 0 <= i1 < j1 < nc.len()
                implies (#[trigger] nc[i1])@ != (#[trigger] nc[j1])@ by {
                if j1 == nc.len() - 1 {
                    assert(oc[i1]@ != client_id@);
                } else {
                    assert(oc[i1]@ != oc[j1]@);
                }
            }
            assert forall|id: Seq<char>| self.has_client(id)
                implies (old(self).has_client(id) || id == client_id@) by {
                let i0 = choose|i0: int| 0 <= i0 < nc.len()
                    && (#[trigger] nc[i0])@ == id;
                if i0 < oc.len() {
                    assert(oc[i0]@ == id);
                }
            }
            assert forall|id: Seq<char>| old(self).has_client(id)
                implies self.has_client(id) by {
                let i0 = choose|i0: int| 0 <= i0 < oc.len() && (#[trigger] oc[i0])@ == id;
                assert(nc[i0]@ == id);
            }
            assert(self.has_client(client_id@));
            self.lemma_wf_preserved(*old(self));
        }
        true
    }

    /// When the port, stream and proxy registries are unchanged, client ids
    /// stay unique, and no client disappeared, the registries stay
    /// well-formed.
    proof fn lemma_wf_preserved(&self, pre: ServerState)
        requires
            pre.wf(),
            self.ports_seq() == pre.ports_seq(),
            self.conns_seq() == pre.conns_seq(),
            self.proxies_seq() == pre.proxies_seq(),
            forall|i: int, j: int| 0 <= i < j < self.clients_seq().len()
                ==> (#[trigger] self.clients_seq()[i])@ != (#[trigger] self.clients_seq()[j])@,
            forall|id: Seq<char>| pre.has_client(id) ==> self.has_client(id),
        ensures
            self.wf(),
    {
        assert forall|i: int, j: int| 0 <= i < j < self.ports_seq().len()
            implies (#[trigger] self.ports_seq()[i]).remote_port
                != (#[trigger] self.ports_seq()[j]).remote_port by {
            assert(self.ports_seq()[i] == pre.ports_seq()[i]);
            assert(self.ports_seq()[j] == pre.ports_seq()[j]);
            assert(pre.ports_seq()[i].remote_port != pre.ports_seq()[j].remote_port);
        }
        assert forall|i: int, j: int| 0 <= i < j < self.conns_seq().len()
            implies (#[trigger] self.conns_seq()[i]).connection_id@
                != (#[trigger] self.conns_seq()[j]).connection_id@ by {
            assert(self.conns_seq()[i] == pre.conns_seq()[i]);
            assert(self.conns_seq()[j] == pre.conns_seq()[j]);
            assert(pre.conns_seq()[i].connection_id@ != pre.conns_seq()[j].connection_id@);
        }
        assert forall|i: int| 0 <= i < self.ports_seq().len()
            implies self.has_client((#[trigger] self.ports_seq()[i]).owning_client_id@) by {
            assert(self.ports_seq()[i] == pre.ports_seq()[i]);
            assert(pre.has_client(pre.ports_seq()[i].owning_client_id@));
        }
        assert forall|i: int| 0 <= i < self.conns_seq().len()
            implies self.has_client((#[trigger] self.conns_seq()[i]).client_id@) by {
            assert(self.conns_seq()[i] == pre.conns_seq()[i]);
            assert(pre.has_client(pre.conns_seq()[i].client_id@));
        }
        assert forall|i: int| 0 <= i < self.proxies_seq().len()
            implies self.has_client((#[trigger] self.proxies_seq()[i]).client_id@) by {
            assert(self.proxies_seq()[i] == pre.proxies_seq()[i]);
            assert(pre.has_client(pre.proxies_seq()[i].client_id@));
        }
    }

    /// Whether a client with this id is still registered.
    pub fn client_alive(&self, client_id: &str) -> (r: bool)
        ensures
            r == self.has_client(client_id@),
    {
        let key: String = client_id.to_owned();
        let n = self.clients.len();
        let mut i: usize = 0;
        while i < n
            invariant
                0 <= i <= n,
                n == self.clients@.len(),
                key@ == client_id@,
                forall|j: int| 0 <= j < i ==> (#[trigger] self.clients@[j])@ != client_id@,
            decreases n - i,
        {
            if self.clients[i] == key {
                proof {
                    assert(self.clients_seq()[i as int]@ == client_id@);
                }
                return true;
            }
            i = i + 1;
        }
        false
    }
}

} // verus!

verus! {

/// Equal sequences keep distinct keys distinct.
proof fn lemma_unique_transfer<T, K>(a: Seq<T>, b: Seq<T>, key: spec_fn(T) -> K)
    requires
        b == a,
        forall|i: int, j: int| 0 <= i < j < a.len()
            ==> key(#[trigger] a[i]) != key(#[trigger] a[j]),
    ensures
        forall|i: int, j: int| 0 <= i < j < b.len()
            ==> key(#[trigger] b[i]) != key(#[trigger] b[j]),
{
    assert forall|i: int, j: int| 0 <= i < j < b.len()
        implies key(#[trigger] b[i]) != key(#[trigger] b[j]) by {
        assert(b[i] == a[i] && b[j] == a[j]);
        assert(key(a[i]) != key(a[j]));
    }
}

/// The decision on a requested public port.
#[derive(Debug, Clone, Copy, PartialEq, Eq, Structural)]
pub enum PortStatus {
    /// No listener is installed on the port.
    Free,
    /// The requesting client already owns the port.
    OwnedBySelf,
    /// Another client owns the port.
    OwnedByOther,
}

impl ServerState {
    /// Registration did not change: the same ids are registered.
    proof fn lemma_has_client_eq(&self, pre: ServerState)
        requires
            self.clients_seq() == pre.clients_seq(),
        ensures
            forall|id: Seq<char>| pre.has_client(id) <==> self.has_client(id),
    {
        assert forall|id: Seq<char>| pre.has_client(id) implies self.has_client(id) by {
            let i0 = choose|i0: int| 0 <= i0 < pre.clients_seq().len()
                && (#[trigger] pre.clients_seq()[i0])@ == id;
            assert(self.clients_seq()[i0]@ == id);
        }
        assert forall|id: Seq<char>| self.has_client(id) implies pre.has_client(id) by {
            let i0 = choose|i0: int| 0 <= i0 < self.clients_seq().len()
                && (#[trigger] self.clients_seq()[i0])@ == id;
            assert(pre.clients_seq()[i0]@ == id);
        }
    }

    /// Records one accepted proxy configuration on a client's session;
    /// refused when the client is not registered.
    pub fn record_proxy(&mut self, client_id: &str, proxy_id: &str, info: ProxyInfo)
        -> (r: bool)
        requires
            old(self).wf(),
        ensures
            final(self).wf(),
            r == old(self).has_client(client_id@),
            r ==> final(self).has_proxy(client_id@, proxy_id@),
            forall|id: Seq<char>, pid: Seq<char>| old(self).has_proxy(id, pid)
                ==> final(self).has_proxy(id, pid),
            forall|id: Seq<char>, pid: Seq<char>| final(self).has_proxy(id, pid)
                ==> old(self).has_proxy(id, pid) || (id == client_id@ && pid == proxy_id@),
            final(self).clients_seq() == old(self).clients_seq(),
            final(self).ports_seq() == old(self).ports_seq(),
            final(self).conns_seq() == old(self).conns_seq(),
            !r ==> final(self).proxies_seq() == old(self).proxies_seq(),
    {
        if !self.client_alive(client_id) {
            return false;
        }
        let record = ProxyRecord {
            client_id: client_id.to_owned(),
            proxy_id: proxy_id.to_owned(),
            info,
        };
        self.proxies.push(record);
        proof {
            let op = old(self).proxies_seq();
            let np = self.proxies_seq();
            assert(np[op.len() as int].client_id@ == client_id@
                && np[op.len() as int].proxy_id@ == proxy_id@);
            self.lemma_has_client_eq(*old(self));
            assert forall|id: Seq<char>, pid: Seq<char>| old(self).has_proxy(id, pid)
                implies self.has_proxy(id, pid) by {
                let i0 = choose|i0: int| 0 <= i0 < op.len()
                    && (#[trigger] op[i0]).client_id@ == id && op[i0].proxy_id@ == pid;
                assert(np[i0].client_id@ == id && np[i0].proxy_id@ == pid);
            }
            assert forall|id: Seq<char>, pid: Seq<char>| self.has_proxy(id, pid)
                implies old(self).has_proxy(id, pid)
                    || (id == client_id@ && pid == proxy_id@) by {
                let i0 = choose|i0: int| 0 <= i0 < np.len()
                    && (#[trigger] np[i0]).client_id@ == id && np[i0].proxy_id@ == pid;
                if i0 < op.len() {
                    assert(op[i0].client_id@ == id && op[i0].proxy_id@ == pid);
                }
            }
            lemma_unique_transfer(old(self).clients_seq(), self.clients_seq(),
                |c: String| c@);
            lemma_unique_transfer(old(self).ports_seq(), self.ports_seq(),
                |e: PortEntry| e.remote_port);
            lemma_unique_transfer(old(self).conns_seq(), self.conns_seq(),
                |e: ConnEntry| e.connection_id@);
            assert forall|i: int| 0 <= i < self.ports_seq().len()
                implies self.has_client(
                    (#[trigger] self.ports_seq()[i]).owning_client_id@) by {
                assert(self.ports_seq()[i] == old(self).ports_seq()[i]);
                assert(old(self).has_client(old(self).ports_seq()[i].owning_client_id@));
            }
            assert forall|i: int| 0 <= i < self.conns_seq().len()
                implies self.has_client((#[trigger] self.conns_seq()[i]).client_id@) by {
                assert(self.conns_seq()[i] == old(self).conns_seq()[i]);
                assert(old(self).has_client(old(self).conns_seq()[i].client_id@));
            }
            assert forall|i: int| 0 <= i < self.proxies_seq().len()
                implies self.has_client((#[trigger] self.proxies_seq()[i]).client_id@) by {
                if i < op.len() {
                    assert(self.proxies_seq()[i] == op[i]);
                    assert(old(self).has_client(op[i].client_id@));
                } else {
                    assert(old(self).has_client(client_id@));
                }
            }
        }
        true
    }

    /// Whether a requested public port is free, owned by the requester, or
    /// owned by another client.
    pub fn port_status(&self, remote_port: u16, client_id: &str) -> (r: PortStatus)
        requires
            self.wf(),
        ensures
            (r == PortStatus::Free) == !self.has_port(remote_port),
            (r == PortStatus::OwnedBySelf) == (self.has_port(remote_port)
                && self.port_owner(remote_port) == client_id@),
            (r == PortStatus::OwnedByOther) == (self.has_port(remote_port)
                && self.port_owner(remote_port) != client_id@),
    {
        let key: String = client_id.to_owned();
        let n = self.ports.len();
        let mut i: usize = 0;
        while i < n
            invariant
                0 <= i <= n,
                n == self.ports@.len(),
                key@ == client_id@,
                self.wf(),
                forall|j: int| 0 <= j < i
                    ==> (#[trigger] self.ports@[j]).remote_port != remote_port,
            decreases n - i,
        {
            if self.ports[i].remote_port == remote_port {
                proof {
                    assert(self.ports_seq()[i as int].remote_port == remote_port);
                    let k = self.port_index(remote_port);
                    assert(self.ports_seq()[k].remote_port == remote_port);
                    if k != i as int {
                        assert(self.ports_seq()[k].remote_port
                            != self.ports_seq()[i as int].remote_port);
                    }
                }
                if self.ports[i].owning_client_id == key {
                    return PortStatus::OwnedBySelf;
                } else {
                    return PortStatus::OwnedByOther;
                }
            }
            i = i + 1;
        }
        PortStatus::Free
    }

    /// Installs the listener record for a fresh public port; refused when
    /// the client is gone or the port is already bound.
    pub fn install_listener(&mut self, remote_port: u16, client_id: &str, proxy_id: &str)
        -> (r: bool)
        requires
            old(self).wf(),
        ensures
            final(self).wf(),
            r == (old(self).has_client(client_id@) && !old(self).has_port(remote_port)),
            !r ==> final(self).ports_seq() == old(self).ports_seq(),
            r ==> final(self).has_port(remote_port)
                && final(self).port_owner(remote_port) == client_id@
                && final(self).port_proxy(remote_port) == proxy_id@,
            forall|q: u16| q != remote_port
                ==> (final(self).has_port(q) <==> old(self).has_port(q)),
            forall|q: u16| q != remote_port && old(self).has_port(q)
                ==> final(self).port_owner(q) == old(self).port_owner(q)
                    && final(self).port_proxy(q) == old(self).port_proxy(q),
            final(self).clients_seq() == old(self).clients_seq(),
            final(self).proxies_seq() == old(self).proxies_seq(),
            final(self).conns_seq() == old(self).conns_seq(),
    {
        if !self.client_alive(client_id) {
            proof {
                assert(final(self).ports_seq() == old(self).ports_seq());
            }
            return false;
        }
        let status = self.port_status(remote_port, client_id);
        if !matches!(status, PortStatus::Free) {
            return false;
        }
        let entry = PortEntry {
            remote_port,
            owning_client_id: client_id.to_owned(),
            proxy_id: proxy_id.to_owned(),
        };
        self.ports.push(entry);
        proof {
            let op = old(self).ports_seq();
            let np = self.ports_seq();
            assert(np[op.len() as int].remote_port == remote_port);
            self.lemma_has_client_eq(*old(self));
            lemma_unique_transfer(old(self).clients_seq(), self.clients_seq(),
                |c: String| c@);
            lemma_unique_transfer(old(self).conns_seq(), self.conns_seq(),
                |e: ConnEntry| e.connection_id@);
            // the new port is fresh, so ports stay unique
            assert forall|i1: int, j1: int| 0 <= i1 < j1 < np.len()
                implies (#[trigger] np[i1]).remote_port != (#[trigger] np[j1]).remote_port by {
                if j1 == np.len() - 1 {
                    assert(op[i1].remote_port != remote_port) by {
                        if op[i1].remote_port == remote_port {
                            assert(old(self).has_port(remote_port));
                        }
                    }
                } else {
                    assert(op[i1].remote_port != op[j1].remote_port);
                }
            }
            // the new port's index is the last one
            let k = self.port_index(remote_port);
            assert(np[k].remote_port == remote_port);
            if k != op.len() as int {
                assert(op[k].remote_port == remote_port);
                assert(old(self).has_port(remote_port));
            }
            // other ports keep their entries and owners
            assert forall|q: u16| q != remote_port
                implies (self.has_port(q) <==> old(self).has_port(q)) by {
                if self.has_port(q) {
                    let i0 = choose|i0: int| 0 <= i0 < np.len()
                        && (#[trigger] np[i0]).remote_port == q;
                    assert(i0 < op.len());
                    assert(op[i0].remote_port == q);
                }
                if old(self).has_port(q) {
                    let i0 = choose|i0: int| 0 <= i0 < op.len()
                        && (#[trigger] op[i0]).remote_port == q;
                    assert(np[i0].remote_port == q);
                }
            }
            assert forall|q: u16| q != remote_port && old(self).has_port(q)
                implies final(self).port_owner(q) == old(self).port_owner(q)
                    && final(self).port_proxy(q) == old(self).port_proxy(q) by {
                let ko = old(self).port_index(q);
                assert(op[ko].remote_port == q);
                assert(np[ko].remote_port == q);
                let kn = self.port_index(q);
                assert(np[kn].remote_port == q);
                if kn != ko {
                    assert(np[kn].remote_port != np[ko].remote_port);
                }
            }
            // ownership clauses
            assert forall|i: int| 0 <= i < np.len()
                implies self.has_client((#[trigger] np[i]).owning_client_id@) by {
                if i < op.len() {
                    assert(np[i] == op[i]);
                    assert(old(self).has_client(op[i].owning_client_id@));
                } else {
                    assert(old(self).has_client(client_id@));
                }
            }
            assert forall|i: int| 0 <= i < self.conns_seq().len()
                implies self.has_client((#[trigger] self.conns_seq()[i]).client_id@) by {
                assert(self.conns_seq()[i] == old(self).conns_seq()[i]);
                assert(old(self).has_client(old(self).conns_seq()[i].client_id@));
            }
            assert forall|i: int| 0 <= i < self.proxies_seq().len()
                implies self.has_client((#[trigger] self.proxies_seq()[i]).client_id@) by {
                assert(self.proxies_seq()[i] == old(self).proxies_seq()[i]);
                assert(old(self).has_client(old(self).proxies_seq()[i].client_id@));
            }
        }
        true
    }
}

} // verus!

verus! {

impl ServerState {
    /// Whether a stream with this connection id is registered, so bytes for
    /// it can be routed.
    pub fn route_exists(&self, connection_id: &str) -> (r: bool)
        ensures
            r == self.has_conn(connection_id@),
    {
        let key: String = connection_id.to_owned();
        let n = self.conns.len();
        let mut i: usize = 0;
        while i < n
            invariant
                0 <= i <= n,
                n == self.conns@.len(),
                key@ == connection_id@,
                forall|j: int| 0 <= j < i
                    ==> (#[trigger] self.conns@[j]).connection_id@ != connection_id@,
            decreases n - i,
        {
            if self.conns[i].connection_id == key {
                proof {
                    assert(self.conns_seq()[i as int].connection_id@ == connection_id@);
                }
                return true;
            }
            i = i + 1;
        }
        false
    }

    /// Registers one active stream for a client; refused when the client is
    /// gone or the id is already in use.
    pub fn register_connection(&mut self, connection_id: &str, client_id: &str) -> (r: bool)
        requires
            old(self).wf(),
        ensures
            final(self).wf(),
            r == (old(self).has_client(client_id@) && !old(self).has_conn(connection_id@)),
            !r ==> final(self).conns_seq() == old(self).conns_seq(),
            r ==> final(self).has_conn(connection_id@)
                && final(self).conn_owner(connection_id@) == client_id@,
            forall|c: Seq<char>| c != connection_id@
                ==> (final(self).has_conn(c) <==> old(self).has_conn(c)),
            forall|c: Seq<char>| c != connection_id@ && old(self).has_conn(c)
                ==> final(self).conn_owner(c) == old(self).conn_owner(c),
            final(self).clients_seq() == old(self).clients_seq(),
            final(self).ports_seq() == old(self).ports_seq(),
            final(self).proxies_seq() == old(self).proxies_seq(),
    {
        if !self.client_alive(client_id) {
            return false;
        }
        if self.route_exists(connection_id) {
            return false;
        }
        let entry = ConnEntry {
            connection_id: connection_id.to_owned(),
            client_id: client_id.to_owned(),
        };
        self.conns.push(entry);
        proof {
            let oc = old(self).conns_seq();
            let nc = self.conns_seq();
            assert(nc[oc.len() as int].connection_id@ == connection_id@
                && nc[oc.len() as int].client_id@ == client_id@);
            self.lemma_has_client_eq(*old(self));
            lemma_unique_transfer(old(self).clients_seq(), self.clients_seq(),
                |c: String| c@);
            lemma_unique_transfer(old(self).ports_seq(), self.ports_seq(),
                |e: PortEntry| e.remote_port);
            // the new id is fresh, so connection ids stay unique
            assert forall|i1: int, j1: int| 0 <= i1 < j1 < nc.len()
                implies (#[trigger] nc[i1]).connection_id@
                    != (#[trigger] nc[j1]).connection_id@ by {
                if j1 == nc.len() - 1 {
                    assert(oc[i1].connection_id@ != connection_id@) by {
                        if oc[i1].connection_id@ == connection_id@ {
                            assert(old(self).has_conn(connection_id@));
                        }
                    }
                } else {
                    assert(oc[i1].connection_id@ != oc[j1].connection_id@);
                }
            }
            // the new stream's index is the last one
            let k = self.conn_index(connection_id@);
            assert(nc[k].connection_id@ == connection_id@);
            if k != oc.len() as int {
                assert(oc[k].connection_id@ == connection_id@);
                assert(old(self).has_conn(connection_id@));
            }
            // other streams keep their entries and owners
            assert forall|c: Seq<char>| c != connection_id@
                implies (self.has_conn(c) <==> old(self).has_conn(c)) by {
                if self.has_conn(c) {
                    let i0 = choose|i0: int| 0 <= i0 < nc.len()
                        && (#[trigger] nc[i0]).connection_id@ == c;
                    assert(i0 < oc.len());
                    assert(oc[i0].connection_id@ == c);
                }
                if old(self).has_conn(c) {
                    let i0 = choose|i0: int| 0 <= i0 < oc.len()
                        && (#[trigger] oc[i0]).connection_id@ == c;
                    assert(nc[i0].connection_id@ == c);
                }
            }
            assert forall|c: Seq<char>| c != connection_id@ && old(self).has_conn(c)
                implies final(self).conn_owner(c) == old(self).conn_owner(c) by {
                let ko = old(self).conn_index(c);
                assert(oc[ko].connection_id@ == c);
                assert(nc[ko].connection_id@ == c);
                let kn = self.conn_index(c);
                assert(nc[kn].connection_id@ == c);
                if kn != ko {
                    assert(nc[kn].connection_id@ != nc[ko].connection_id@);
                }
            }
            // ownership clauses
            assert forall|i: int| 0 <= i < self.ports_seq().len()
                implies self.has_client(
                    (#[trigger] self.ports_seq()[i]).owning_client_id@) by {
                assert(self.ports_seq()[i] == old(self).ports_seq()[i]);
                assert(old(self).has_client(old(self).ports_seq()[i].owning_client_id@));
            }
            assert forall|i: int| 0 <= i < nc.len()
                implies self.has_client((#[trigger] nc[i]).client_id@) by {
                if i < oc.len() {
                    assert(nc[i] == oc[i]);
                    assert(old(self).has_client(oc[i].client_id@));
                } else {
                    assert(old(self).has_client(client_id@));
                }
            }
            assert forall|i: int| 0 <= i < self.proxies_seq().len()
                implies self.has_client((#[trigger] self.proxies_seq()[i]).client_id@) by {
                assert(self.proxies_seq()[i] == old(self).proxies_seq()[i]);
                assert(old(self).has_client(old(self).proxies_seq()[i].client_id@));
            }
        }
        true
    }

    /// Removes one stream when it ends; says whether it was present, so a
    /// second removal does nothing.
    pub fn remove_connection(&mut self, connection_id: &str) -> (r: bool)
        requires
            old(self).wf(),
        ensures
            final(self).wf(),
            r == old(self).has_conn(connection_id@),
            !final(self).has_conn(connection_id@),
            !r ==> final(self).conns_seq() == old(self).conns_seq(),
            forall|c: Seq<char>| c != connection_id@
                ==> (final(self).has_conn(c) <==> old(self).has_conn(c)),
            forall|c: Seq<char>| c != connection_id@ && old(self).has_conn(c)
                ==> final(self).conn_owner(c) == old(self).conn_owner(c),
            final(self).clients_seq() == old(self).clients_seq(),
            final(self).ports_seq() == old(self).ports_seq(),
            final(self).proxies_seq() == old(self).proxies_seq(),
    {
        let key: String = connection_id.to_owned();
        let n = self.conns.len();
        let mut i: usize = 0;
        while i < n
            invariant
                0 <= i <= n,
                n == self.conns@.len(),
                key@ == connection_id@,
                *self == *old(self),
                old(self).wf(),
                forall|j: int| 0 <= j < i
                    ==> (#[trigger] self.conns@[j]).connection_id@ != connection_id@,
            decreases n - i,
        {
            if self.conns[i].connection_id == key {
                let ghost oc = old(self).conns_seq();
                let ghost idx = i as int;
                self.conns.remove(i);
                proof {
                    let nc = self.conns_seq();
                    assert(oc[idx].connection_id@ == connection_id@);
                    assert(old(self).has_conn(connection_id@));
                    // map every new index to its old index
                    assert(forall|k: int| 0 <= k < nc.len()
                        ==> #[trigger] nc[k] == (if k < idx { oc[k] } else { oc[k + 1] }));
                    assert forall|k1: int, k2: int| 0 <= k1 < k2 < nc.len()
                        implies (#[trigger] nc[k1]).connection_id@
                            != (#[trigger] nc[k2]).connection_id@ by {
                        let o1: int = if k1 < idx { k1 } else { k1 + 1 };
                        let o2: int = if k2 < idx { k2 } else { k2 + 1 };
                        assert(oc[o1].connection_id@ != oc[o2].connection_id@);
                    }
                    assert forall|c: Seq<char>| self.has_conn(c)
                        implies old(self).has_conn(c) && c != connection_id@ by {
                        let k = choose|k: int| 0 <= k < nc.len()
                            && (#[trigger] nc[k]).connection_id@ == c;
                        let o: int = if k < idx { k } else { k + 1 };
                        assert(oc[o].connection_id@ == c);
                        if c == connection_id@ && o != idx {
                            assert(oc[o].connection_id@ != oc[idx].connection_id@);
                        }
                    }
                    assert forall|c: Seq<char>| c != connection_id@ && old(self).has_conn(c)
                        implies self.has_conn(c) by {
                        let o = choose|o: int| 0 <= o < oc.len()
                            && (#[trigger] oc[o]).connection_id@ == c;
                        let k: int = if o < idx { o } else { o - 1 };
                        assert(o != idx);
                        assert(nc[k].connection_id@ == c);
                    }
                    assert forall|c: Seq<char>| c != connection_id@ && old(self).has_conn(c)
                        implies self.conn_owner(c) == old(self).conn_owner(c) by {
                        let ko = old(self).conn_index(c);
                        assert(oc[ko].connection_id@ == c);
                        let kn = self.conn_index(c);
                        assert(nc[kn].connection_id@ == c);
                        let o: int = if kn < idx { kn } else { kn + 1 };
                        assert(nc[kn] == oc[o]);
                        if o != ko {
                            assert(oc[o].connection_id@ != oc[ko].connection_id@);
                        }
                    }
                    self.lemma_has_client_eq(*old(self));
                    lemma_unique_transfer(old(self).clients_seq(), self.clients_seq(),
                        |c: String| c@);
                    lemma_unique_transfer(old(self).ports_seq(), self.ports_seq(),
                        |e: PortEntry| e.remote_port);
                    assert forall|i2: int| 0 <= i2 < self.ports_seq().len()
                        implies self.has_client(
                            (#[trigger] self.ports_seq()[i2]).owning_client_id@) by {
                        assert(self.ports_seq()[i2] == old(self).ports_seq()[i2]);
                        assert(old(self).has_client(
                            old(self).ports_seq()[i2].owning_client_id@));
                    }
                    assert forall|i2: int| 0 <= i2 < nc.len()
                        implies self.has_client((#[trigger] nc[i2]).client_id@) by {
                        let o: int = if i2 < idx { i2 } else { i2 + 1 };
                        assert(nc[i2] == oc[o]);
                        assert(old(self).has_client(oc[o].client_id@));
                    }
                    assert forall|i2: int| 0 <= i2 < self.proxies_seq().len()
                        implies self.has_client(
                            (#[trigger] self.proxies_seq()[i2]).client_id@) by {
                        assert(self.proxies_seq()[i2] == old(self).proxies_seq()[i2]);
                        assert(old(self).has_client(old(self).proxies_seq()[i2].client_id@));
                    }
                }
                return true;
            }
            i = i + 1;
        }
        false
    }
}

} // verus!

verus! {

/// Some element of `s` views to `id`.
pub open spec fn seq_has_id(s: Seq<String>, id: Seq<char>) -> bool {
    exists|i: int| 0 <= i < s.len() && (#[trigger] s[i])@ == id
}

/// `e` occurs in `src` at or after position `lo`.
pub open spec fn port_entry_in(e: PortEntry, src: Seq<PortEntry>, lo: int) -> bool {
    exists|j: int| lo <= j < src.len() && #[trigger] src[j] == e
}

/// Some entry of `src` at or after `lo` binds port `p` for owner `keyv`.
pub open spec fn dropped_port_in(p: u16, src: Seq<PortEntry>, lo: int, keyv: Seq<char>) -> bool {
    exists|j: int| lo <= j < src.len() && (#[trigger] src[j]).remote_port == p
        && src[j].owning_client_id@ == keyv
}

/// `e` occurs in `src` at or after position `lo`.
pub open spec fn conn_entry_in(e: ConnEntry, src: Seq<ConnEntry>, lo: int) -> bool {
    exists|j: int| lo <= j < src.len() && #[trigger] src[j] == e
}

/// `e` occurs in `src` at or after position `lo`.
pub open spec fn proxy_entry_in(e: ProxyRecord, src: Seq<ProxyRecord>, lo: int) -> bool {
    exists|j: int| lo <= j < src.len() && #[trigger] src[j] == e
}

impl ServerState {
    /// Drops every port entry owned by `key`; returns the dropped ports.
    fn sweep_ports(&mut self, key: &String) -> (removed: Vec<u16>)
        requires
            forall|i: int, j: int| 0 <= i < j < old(self).ports_seq().len()
                ==> (#[trigger] old(self).ports_seq()[i]).remote_port
                    != (#[trigger] old(self).ports_seq()[j]).remote_port,
        ensures
            final(self).clients_seq() == old(self).clients_seq(),
            final(self).conns_seq() == old(self).conns_seq(),
            final(self).proxies_seq() == old(self).proxies_seq(),
            forall|k: int| 0 <= k < final(self).ports_seq().len()
                ==> port_entry_in(#[trigger] final(self).ports_seq()[k],
                        old(self).ports_seq(), 0)
                    && final(self).ports_seq()[k].owning_client_id@ != key@,
            forall|j: int| 0 <= j < old(self).ports_seq().len()
                && (#[trigger] old(self).ports_seq()[j]).owning_client_id@ != key@
                ==> port_entry_in(old(self).ports_seq()[j], final(self).ports_seq(), 0),
            forall|k1: int, k2: int| 0 <= k1 < k2 < final(self).ports_seq().len()
                ==> (#[trigger] final(self).ports_seq()[k1]).remote_port
                    != (#[trigger] final(self).ports_seq()[k2]).remote_port,
            forall|k: int| 0 <= k < removed@.len()
                ==> dropped_port_in(#[trigger] removed@[k], old(self).ports_seq(), 0, key@),
            forall|j: int| 0 <= j < old(self).ports_seq().len()
                && (#[trigger] old(self).ports_seq()[j]).owning_client_id@ == key@
                ==> removed@.contains(old(self).ports_seq()[j].remote_port),
    {
        let ghost ports0 = self.ports@;
        proof {
            assert(ports0.subrange(0, ports0.len() as int) =~= ports0);
            assert forall|i: int, j: int| 0 <= i < j < ports0.len()
                implies (#[trigger] ports0[i]).remote_port
                    != (#[trigger] ports0[j]).remote_port by {
                assert(ports0[i] == old(self).ports_seq()[i]);
                assert(ports0[j] == old(self).ports_seq()[j]);
                assert(old(self).ports_seq()[i].remote_port
                    != old(self).ports_seq()[j].remote_port);
            }
        }
        let mut kept: Vec<PortEntry> = Vec::new();
        let mut removed: Vec<u16> = Vec::new();
        while self.ports.len() > 0
            invariant
                self.clients@ == old(self).clients_seq(),
                self.conns@ == old(self).conns_seq(),
                self.proxies@ == old(self).proxies_seq(),
                ports0 == old(self).ports_seq(),
                forall|i: int, j: int| 0 <= i < j < ports0.len()
                    ==> (#[trigger] ports0[i]).remote_port
                        != (#[trigger] ports0[j]).remote_port,
                self.ports@.len() <= ports0.len(),
                self.ports@ == ports0.subrange(0, self.ports@.len() as int),
                forall|k: int| 0 <= k < kept@.len()
                    ==> port_entry_in(#[trigger] kept@[k], ports0,
                            self.ports@.len() as int)
                        && kept@[k].owning_client_id@ != key@,
                forall|j: int| self.ports@.len() <= j < ports0.len()
                    && (#[trigger] ports0[j]).owning_client_id@ != key@
                    ==> kept@.contains(ports0[j]),
                forall|k1: int, k2: int| 0 <= k1 < k2 < kept@.len()
                    ==> (#[trigger] kept@[k1]).remote_port
                        != (#[trigger] kept@[k2]).remote_port,
                forall|k: int| 0 <= k < removed@.len()
                    ==> dropped_port_in(#[trigger] removed@[k], ports0,
                            self.ports@.len() as int, key@),
                forall|j: int| self.ports@.len() <= j < ports0.len()
                    && (#[trigger] ports0[j]).owning_client_id@ == key@
                    ==> removed@.contains(ports0[j].remote_port),
            decreases self.ports@.len(),
        {
            let ghost pre_len = self.ports@.len() as int;
            let ghost pre_kept = kept@;
            let ghost pre_removed = removed@;
            let e = self.ports.pop().unwrap();
            proof {
                assert(e == ports0[pre_len - 1]);
                assert(self.ports@ =~= ports0.subrange(0, pre_len - 1));
            }
            let ghost cur = self.ports@.len() as int;
            if e.owning_client_id == *key {
                removed.push(e.remote_port);
                proof {
                    assert forall|k: int| 0 <= k < kept@.len()
                        implies port_entry_in(#[trigger] kept@[k], ports0, cur)
                            && kept@[k].owning_client_id@ != key@ by {
                        assert(port_entry_in(pre_kept[k], ports0, pre_len));
                        let j = choose|j: int| pre_len <= j < ports0.len()
                            && #[trigger] ports0[j] == pre_kept[k];
                        assert(cur <= j < ports0.len() && ports0[j] == kept@[k]);
                    }
                    assert forall|k: int| 0 <= k < removed@.len()
                        implies dropped_port_in(#[trigger] removed@[k], ports0, cur, key@) by {
                        if k < pre_removed.len() {
                            assert(dropped_port_in(pre_removed[k], ports0, pre_len, key@));
                            let j = choose|j: int| pre_len <= j < ports0.len()
                                && (#[trigger] ports0[j]).remote_port == pre_removed[k]
                                && ports0[j].owning_client_id@ == key@;
                            assert(cur <= j < ports0.len()
                                && ports0[j].remote_port == removed@[k]
                                && ports0[j].owning_client_id@ == key@);
                        } else {
                            assert(removed@[k] == ports0[pre_len - 1].remote_port);
                            assert(cur <= pre_len - 1 < ports0.len()
                                && ports0[pre_len - 1].remote_port == removed@[k]
                                && ports0[pre_len - 1].owning_client_id@ == key@);
                        }
                    }
                    assert forall|j: int| cur <= j < ports0.len()
                        && (#[trigger] ports0[j]).owning_client_id@ == key@
                        implies removed@.contains(ports0[j].remote_port) by {
                        if j >= pre_len {
                            let k = choose|k: int| 0 <= k < pre_removed.len()
                                && pre_removed[k] == ports0[j].remote_port;
                            assert(removed@[k] == ports0[j].remote_port);
                        } else {
                            assert(removed@[removed@.len() - 1] == ports0[j].remote_port);
                        }
                    }
                }
            } else {
                kept.push(e);
                proof {
                    assert(kept@[kept@.len() - 1] == ports0[pre_len - 1]);
                    assert forall|k: int| 0 <= k < kept@.len()
                        implies port_entry_in(#[trigger] kept@[k], ports0, cur)
                            && kept@[k].owning_client_id@ != key@ by {
                        if k < pre_kept.len() {
                            assert(kept@[k] == pre_kept[k]);
                            assert(port_entry_in(pre_kept[k], ports0, pre_len));
                            let j = choose|j: int| pre_len <= j < ports0.len()
                                && #[trigger] ports0[j] == pre_kept[k];
                            assert(cur <= j < ports0.len() && ports0[j] == kept@[k]);
                        } else {
                            assert(cur <= pre_len - 1 < ports0.len()
                                && ports0[pre_len - 1] == kept@[k]);
                        }
                    }
                    assert forall|j: int| cur <= j < ports0.len()
                        && (#[trigger] ports0[j]).owning_client_id@ != key@
                        implies kept@.contains(ports0[j]) by {
                        if j >= pre_len {
                            let k = choose|k: int| 0 <= k < pre_kept.len()
                                && pre_kept[k] == ports0[j];
                            assert(kept@[k] == ports0[j]);
                        } else {
                            assert(kept@[kept@.len() - 1] == ports0[j]);
                        }
                    }
                    assert forall|k1: int, k2: int| 0 <= k1 < k2 < kept@.len()
                        implies (#[trigger] kept@[k1]).remote_port
                            != (#[trigger] kept@[k2]).remote_port by {
                        if k2 == kept@.len() - 1 {
                            assert(port_entry_in(pre_kept[k1], ports0, pre_len));
                            let j1 = choose|j1: int| pre_len <= j1 < ports0.len()
                                && #[trigger] ports0[j1] == pre_kept[k1];
                            assert(ports0[j1].remote_port
                                != ports0[pre_len - 1].remote_port);
                        } else {
                            assert(pre_kept[k1].remote_port != pre_kept[k2].remote_port);
                        }
                    }
                    assert forall|k: int| 0 <= k < removed@.len()
                        implies dropped_port_in(#[trigger] removed@[k], ports0, cur, key@) by {
                        assert(dropped_port_in(pre_removed[k], ports0, pre_len, key@));
                        let j = choose|j: int| pre_len <= j < ports0.len()
                            && (#[trigger] ports0[j]).remote_port == pre_removed[k]
                            && ports0[j].owning_client_id@ == key@;
                        assert(cur <= j < ports0.len()
                            && ports0[j].remote_port == removed@[k]
                            && ports0[j].owning_client_id@ == key@);
                    }
                }
            }
        }
        self.ports = kept;
        removed
    }

    /// Drops every stream entry owned by `key`.
    fn sweep_conns(&mut self, key: &String)
        requires
            forall|i: int, j: int| 0 <= i < j < old(self).conns_seq().len()
                ==> (#[trigger] old(self).conns_seq()[i]).connection_id@
                    != (#[trigger] old(self).conns_seq()[j]).connection_id@,
        ensures
            final(self).clients_seq() == old(self).clients_seq(),
            final(self).ports_seq() == old(self).ports_seq(),
            final(self).proxies_seq() == old(self).proxies_seq(),
            forall|k: int| 0 <= k < final(self).conns_seq().len()
                ==> conn_entry_in(#[trigger] final(self).conns_seq()[k],
                        old(self).conns_seq(), 0)
                    && final(self).conns_seq()[k].client_id@ != key@,
            forall|j: int| 0 <= j < old(self).conns_seq().len()
                && (#[trigger] old(self).conns_seq()[j]).client_id@ != key@
                ==> conn_entry_in(old(self).conns_seq()[j], final(self).conns_seq(), 0),
            forall|k1: int, k2: int| 0 <= k1 < k2 < final(self).conns_seq().len()
                ==> (#[trigger] final(self).conns_seq()[k1]).connection_id@
                    != (#[trigger] final(self).conns_seq()[k2]).connection_id@,
    {
        let ghost conns0 = self.conns@;
        proof {
            assert(conns0.subrange(0, conns0.len() as int) =~= conns0);
            assert forall|i: int, j: int| 0 <= i < j < conns0.len()
                implies (#[trigger] conns0[i]).connection_id@
                    != (#[trigger] conns0[j]).connection_id@ by {
                assert(conns0[i] == old(self).conns_seq()[i]);
                assert(conns0[j] == old(self).conns_seq()[j]);
                assert(old(self).conns_seq()[i].connection_id@
                    != old(self).conns_seq()[j].connection_id@);
            }
        }
        let mut kept: Vec<ConnEntry> = Vec::new();
        while self.conns.len() > 0
            invariant
                self.clients@ == old(self).clients_seq(),
                self.ports@ == old(self).ports_seq(),
                self.proxies@ == old(self).proxies_seq(),
                conns0 == old(self).conns_seq(),
                forall|i: int, j: int| 0 <= i < j < conns0.len()
                    ==> (#[trigger] conns0[i]).connection_id@
                        != (#[trigger] conns0[j]).connection_id@,
                self.conns@.len() <= conns0.len(),
                self.conns@ == conns0.subrange(0, self.conns@.len() as int),
                forall|k: int| 0 <= k < kept@.len()
                    ==> conn_entry_in(#[trigger] kept@[k], conns0, self.conns@.len() as int)
                        && kept@[k].client_id@ != key@,
                forall|j: int| self.conns@.len() <= j < conns0.len()
                    && (#[trigger] conns0[j]).client_id@ != key@
                    ==> kept@.contains(conns0[j]),
                forall|k1: int, k2: int| 0 <= k1 < k2 < kept@.len()
                    ==> (#[trigger] kept@[k1]).connection_id@
                        != (#[trigger] kept@[k2]).connection_id@,
            decreases self.conns@.len(),
        {
            let ghost pre_len = self.conns@.len() as int;
            let ghost pre_kept = kept@;
            let e = self.conns.pop().unwrap();
            proof {
                assert(e == conns0[pre_len - 1]);
                assert(self.conns@ =~= conns0.subrange(0, pre_len - 1));
            }
            let ghost cur = self.conns@.len() as int;
            if e.client_id == *key {
                proof {
                    assert forall|k: int| 0 <= k < kept@.len()
                        implies conn_entry_in(#[trigger] kept@[k], conns0, cur)
                            && kept@[k].client_id@ != key@ by {
                        assert(conn_entry_in(pre_kept[k], conns0, pre_len));
                        let j = choose|j: int| pre_len <= j < conns0.len()
                            && #[trigger] conns0[j] == pre_kept[k];
                        assert(cur <= j < conns0.len() && conns0[j] == kept@[k]);
                    }
                }
            } else {
                kept.push(e);
                proof {
                    assert(kept@[kept@.len() - 1] == conns0[pre_len - 1]);
                    assert forall|k: int| 0 <= k < kept@.len()
                        implies conn_entry_in(#[trigger] kept@[k], conns0, cur)
                            && kept@[k].client_id@ != key@ by {
                        if k < pre_kept.len() {
                            assert(kept@[k] == pre_kept[k]);
                            assert(conn_entry_in(pre_kept[k], conns0, pre_len));
                            let j = choose|j: int| pre_len <= j < conns0.len()
                                && #[trigger] conns0[j] == pre_kept[k];
                            assert(cur <= j < conns0.len() && conns0[j] == kept@[k]);
                        } else {
                            assert(cur <= pre_len - 1 < conns0.len()
                                && conns0[pre_len - 1] == kept@[k]);
                        }
                    }
                    assert forall|j: int| cur <= j < conns0.len()
                        && (#[trigger] conns0[j]).client_id@ != key@
                        implies kept@.contains(conns0[j]) by {
                        if j >= pre_len {
                            let k = choose|k: int| 0 <= k < pre_kept.len()
                                && pre_kept[k] == conns0[j];
                            assert(kept@[k] == conns0[j]);
                        } else {
                            assert(kept@[kept@.len() - 1] == conns0[j]);
                        }
                    }
                    assert forall|k1: int, k2: int| 0 <= k1 < k2 < kept@.len()
                        implies (#[trigger] kept@[k1]).connection_id@
                            != (#[trigger] kept@[k2]).connection_id@ by {
                        if k2 == kept@.len() - 1 {
                            assert(conn_entry_in(pre_kept[k1], conns0, pre_len));
                            let j1 = choose|j1: int| pre_len <= j1 < conns0.len()
                                && #[trigger] conns0[j1] == pre_kept[k1];
                            assert(conns0[j1].connection_id@
                                != conns0[pre_len - 1].connection_id@);
                        } else {
                            assert(pre_kept[k1].connection_id@ != pre_kept[k2].connection_id@);
                        }
                    }
                }
            }
        }
        self.conns = kept;
    }

    /// Drops every proxy record owned by `key`.
    fn sweep_proxies(&mut self, key: &String)
        ensures
            final(self).clients_seq() == old(self).clients_seq(),
            final(self).ports_seq() == old(self).ports_seq(),
            final(self).conns_seq() == old(self).conns_seq(),
            forall|k: int| 0 <= k < final(self).proxies_seq().len()
                ==> proxy_entry_in(#[trigger] final(self).proxies_seq()[k],
                        old(self).proxies_seq(), 0)
                    && final(self).proxies_seq()[k].client_id@ != key@,
            forall|j: int| 0 <= j < old(self).proxies_seq().len()
                && (#[trigger] old(self).proxies_seq()[j]).client_id@ != key@
                ==> proxy_entry_in(old(self).proxies_seq()[j], final(self).proxies_seq(), 0),
    {
        let ghost proxies0 = self.proxies@;
        proof {
            assert(proxies0.subrange(0, proxies0.len() as int) =~= proxies0);
        }
        let mut kept: Vec<ProxyRecord> = Vec::new();
        while self.proxies.len() > 0
            invariant
                self.clients@ == old(self).clients_seq(),
                self.ports@ == old(self).ports_seq(),
                self.conns@ == old(self).conns_seq(),
                proxies0 == old(self).proxies_seq(),
                self.proxies@.len() <= proxies0.len(),
                self.proxies@ == proxies0.subrange(0, self.proxies@.len() as int),
                forall|k: int| 0 <= k < kept@.len()
                    ==> proxy_entry_in(#[trigger] kept@[k], proxies0,
                            self.proxies@.len() as int)
                        && kept@[k].client_id@ != key@,
                forall|j: int| self.proxies@.len() <= j < proxies0.len()
                    && (#[trigger] proxies0[j]).client_id@ != key@
                    ==> kept@.contains(proxies0[j]),
            decreases self.proxies@.len(),
        {
            let ghost pre_len = self.proxies@.len() as int;
            let ghost pre_kept = kept@;
            let e = self.proxies.pop().unwrap();
            proof {
                assert(e == proxies0[pre_len - 1]);
                assert(self.proxies@ =~= proxies0.subrange(0, pre_len - 1));
            }
            let ghost cur = self.proxies@.len() as int;
            if e.client_id == *key {
                proof {
                    assert forall|k: int| 0 <= k < kept@.len()
                        implies proxy_entry_in(#[trigger] kept@[k], proxies0, cur)
                            && kept@[k].client_id@ != key@ by {
                        assert(proxy_entry_in(pre_kept[k], proxies0, pre_len));
                        let j = choose|j: int| pre_len <= j < proxies0.len()
                            && #[trigger] proxies0[j] == pre_kept[k];
                        assert(cur <= j < proxies0.len() && proxies0[j] == kept@[k]);
                    }
                }
            } else {
                kept.push(e);
                proof {
                    assert(kept@[kept@.len() - 1] == proxies0[pre_len - 1]);
                    assert forall|k: int| 0 <= k < kept@.len()
                        implies proxy_entry_in(#[trigger] kept@[k], proxies0, cur)
                            && kept@[k].client_id@ != key@ by {
                        if k < pre_kept.len() {
                            assert(kept@[k] == pre_kept[k]);
                            assert(proxy_entry_in(pre_kept[k], proxies0, pre_len));
                            let j = choose|j: int| pre_len <= j < proxies0.len()
                                && #[trigger] proxies0[j] == pre_kept[k];
                            assert(cur <= j < proxies0.len() && proxies0[j] == kept@[k]);
                        } else {
                            assert(cur <= pre_len - 1 < proxies0.len()
                                && proxies0[pre_len - 1] == kept@[k]);
                        }
                    }
                    assert forall|j: int| cur <= j < proxies0.len()
                        && (#[trigger] proxies0[j]).client_id@ != key@
                        implies kept@.contains(proxies0[j]) by {
                        if j >= pre_len {
                            let k = choose|k: int| 0 <= k < pre_kept.len()
                                && pre_kept[k] == proxies0[j];
                            assert(kept@[k] == proxies0[j]);
                        } else {
                            assert(kept@[kept@.len() - 1] == proxies0[j]);
                        }
                    }
                }
            }
        }
        self.proxies = kept;
    }
}

} // verus!

verus! {

impl ServerState {
    /// Tears a client session down: unregisters the client and drops every
    /// port, stream and proxy record owned by it, in one sweep. Returns
    /// whether the client was present (a second call finds nothing and
    /// changes nothing) and the public ports whose listeners must be
    /// cancelled.
    #[verifier::rlimit(100)]
    pub fn cleanup_client(&mut self, client_id: &str) -> (r: (bool, Vec<u16>))
        requires
            old(self).wf(),
        ensures
            final(self).wf(),
            r.0 == old(self).has_client(client_id@),
            !r.0 ==> final(self).clients_seq() == old(self).clients_seq()
                && final(self).ports_seq() == old(self).ports_seq()
                && final(self).conns_seq() == old(self).conns_seq()
                && final(self).proxies_seq() == old(self).proxies_seq()
                && r.1@ == Seq::<u16>::empty(),
            !final(self).has_client(client_id@),
            forall|id: Seq<char>| id != client_id@
                ==> (final(self).has_client(id) <==> old(self).has_client(id)),
            forall|p: u16| final(self).has_port(p)
                <==> (old(self).has_port(p) && old(self).port_owner(p) != client_id@),
            forall|p: u16| final(self).has_port(p)
                ==> final(self).port_owner(p) == old(self).port_owner(p)
                    && final(self).port_proxy(p) == old(self).port_proxy(p),
            forall|c: Seq<char>| final(self).has_conn(c)
                <==> (old(self).has_conn(c) && old(self).conn_owner(c) != client_id@),
            forall|c: Seq<char>| final(self).has_conn(c)
                ==> final(self).conn_owner(c) == old(self).conn_owner(c),
            forall|id: Seq<char>, pid: Seq<char>| final(self).has_proxy(id, pid)
                <==> (old(self).has_proxy(id, pid) && id != client_id@),
            forall|p: u16| r.1@.contains(p)
                <==> (old(self).has_port(p) && old(self).port_owner(p) == client_id@),
    {
        let key: String = client_id.to_owned();
        let n = self.clients.len();
        let mut i: usize = 0;
        while i < n
            invariant
                0 <= i <= n,
                n == self.clients@.len(),
                key@ == client_id@,
                *self == *old(self),
                old(self).wf(),
                forall|j: int| 0 <= j < i ==> (#[trigger] self.clients@[j])@ != client_id@,
            decreases n - i,
        {
            if self.clients[i] == key {
                proof {
                    assert(self.clients_seq()[i as int]@ == client_id@);
                }
                let ghost oc = old(self).clients_seq();
                let ghost idx = i as int;
                self.clients.remove(i);
                let ghost clients1 = self.clients@;
                proof {
                    assert(forall|k: int| 0 <= k < clients1.len()
                        ==> #[trigger] clients1[k] == (if k < idx { oc[k] } else {
                            oc[k + 1]
                        }));
                    assert forall|id: Seq<char>| seq_has_id(clients1, id)
                        implies (old(self).has_client(id) && id != client_id@) by {
                        let k = choose|k: int| 0 <= k < clients1.len()
                            && (#[trigger] clients1[k])@ == id;
                        let o: int = if k < idx { k } else { k + 1 };
                        assert(oc[o]@ == id);
                        if id == client_id@ && o != idx {
                            assert(oc[o]@ != oc[idx]@);
                        }
                    }
                    assert forall|id: Seq<char>| old(self).has_client(id) && id != client_id@
                        implies seq_has_id(clients1, id) by {
                        let o = choose|o: int| 0 <= o < oc.len() && (#[trigger] oc[o])@ == id;
                        assert(o != idx);
                        let k: int = if o < idx { o } else { o - 1 };
                        assert(clients1[k]@ == id);
                    }
                    assert forall|k1: int, k2: int| 0 <= k1 < k2 < clients1.len()
                        implies (#[trigger] clients1[k1])@ != (#[trigger] clients1[k2])@ by {
                        let o1: int = if k1 < idx { k1 } else { k1 + 1 };
                        let o2: int = if k2 < idx { k2 } else { k2 + 1 };
                        assert(oc[o1]@ != oc[o2]@);
                    }
                    assert forall|i2: int, j2: int| 0 <= i2 < j2 < self.ports_seq().len()
                        implies (#[trigger] self.ports_seq()[i2]).remote_port
                            != (#[trigger] self.ports_seq()[j2]).remote_port by {
                        assert(self.ports_seq()[i2] == old(self).ports_seq()[i2]);
                        assert(self.ports_seq()[j2] == old(self).ports_seq()[j2]);
                        assert(old(self).ports_seq()[i2].remote_port
                            != old(self).ports_seq()[j2].remote_port);
                    }
                    assert forall|i2: int, j2: int| 0 <= i2 < j2 < self.conns_seq().len()
                        implies (#[trigger] self.conns_seq()[i2]).connection_id@
                            != (#[trigger] self.conns_seq()[j2]).connection_id@ by {
                        assert(self.conns_seq()[i2] == old(self).conns_seq()[i2]);
                        assert(self.conns_seq()[j2] == old(self).conns_seq()[j2]);
                        assert(old(self).conns_seq()[i2].connection_id@
                            != old(self).conns_seq()[j2].connection_id@);
                    }
                }
                let ghost mid = *self;
                let removed_ports = self.sweep_ports(&key);
                let ghost mid2 = *self;
                self.sweep_conns(&key);
                let ghost mid3 = *self;
                self.sweep_proxies(&key);
                proof {
                    let p0 = old(self).ports_seq();
                    let c0 = old(self).conns_seq();
                    let x0 = old(self).proxies_seq();
                    assert(mid.ports_seq() == p0 && mid.conns_seq() == c0
                        && mid.proxies_seq() == x0 && mid.clients_seq() == clients1);
                    assert(mid2.conns_seq() == c0 && mid2.proxies_seq() == x0);
                    assert(mid3.proxies_seq() == x0);
                    assert(self.clients_seq() == clients1);
                    let pf = self.ports_seq();
                    let cf = self.conns_seq();
                    let xf = self.proxies_seq();
                    assert(pf == mid2.ports_seq() && cf == mid3.conns_seq());
                    // registration afterwards
                    assert forall|id: Seq<char>| self.has_client(id)
                        implies seq_has_id(clients1, id) by {
                        let k = choose|k: int| 0 <= k < self.clients_seq().len()
                            && (#[trigger] self.clients_seq()[k])@ == id;
                        assert(clients1[k]@ == id);
                    }
                    assert forall|id: Seq<char>| seq_has_id(clients1, id)
                        implies self.has_client(id) by {
                        let k = choose|k: int| 0 <= k < clients1.len()
                            && (#[trigger] clients1[k])@ == id;
                        assert(self.clients_seq()[k]@ == id);
                    }
                    lemma_unique_transfer(clients1, self.clients_seq(), |c: String| c@);
                    assert forall|id: Seq<char>| id != client_id@
                        implies (self.has_client(id) <==> old(self).has_client(id)) by {
                        if self.has_client(id) {
                            assert(seq_has_id(clients1, id));
                        }
                        if old(self).has_client(id) {
                            assert(seq_has_id(clients1, id));
                            assert(self.has_client(id));
                        }
                    }
                    assert(!self.has_client(client_id@)) by {
                        if self.has_client(client_id@) {
                            assert(seq_has_id(clients1, client_id@));
                        }
                    }
                    // ports afterwards
                    assert forall|p: u16| self.has_port(p)
                        implies (old(self).has_port(p)
                            && old(self).port_owner(p) != client_id@) by {
                        let k = choose|k: int| 0 <= k < pf.len()
                            && (#[trigger] pf[k]).remote_port == p;
                        assert(port_entry_in(pf[k], p0, 0));
                        let j = choose|j: int| 0 <= j < p0.len() && #[trigger] p0[j] == pf[k];
                        assert(p0[j].remote_port == p);
                        let jo = old(self).port_index(p);
                        assert(p0[jo].remote_port == p);
                        if jo != j {
                            assert(p0[jo].remote_port != p0[j].remote_port);
                        }
                    }
                    assert forall|p: u16| old(self).has_port(p)
                        && old(self).port_owner(p) != client_id@
                        implies self.has_port(p) by {
                        let jo = old(self).port_index(p);
                        assert(p0[jo].remote_port == p);
                        assert(p0[jo].owning_client_id@ != client_id@);
                        assert(port_entry_in(p0[jo], pf, 0));
                        let k = choose|k: int| 0 <= k < pf.len() && #[trigger] pf[k] == p0[jo];
                        assert(pf[k].remote_port == p);
                    }
                    assert forall|p: u16| self.has_port(p)
                        implies self.port_owner(p) == old(self).port_owner(p)
                            && self.port_proxy(p) == old(self).port_proxy(p) by {
                        let kn = self.port_index(p);
                        assert(pf[kn].remote_port == p);
                        assert(port_entry_in(pf[kn], p0, 0));
                        let j = choose|j: int| 0 <= j < p0.len() && #[trigger] p0[j] == pf[kn];
                        let jo = old(self).port_index(p);
                        assert(p0[jo].remote_port == p);
                        if jo != j {
                            assert(p0[jo].remote_port != p0[j].remote_port);
                        }
                    }
                    // removed ports
                    assert forall|p: u16| removed_ports@.contains(p)
                        implies (old(self).has_port(p)
                            && old(self).port_owner(p) == client_id@) by {
                        let k = choose|k: int| 0 <= k < removed_ports@.len()
                            && removed_ports@[k] == p;
                        assert(dropped_port_in(removed_ports@[k], p0, 0, key@));
                        let j = choose|j: int| 0 <= j < p0.len()
                            && (#[trigger] p0[j]).remote_port == p
                            && p0[j].owning_client_id@ == key@;
                        let jo = old(self).port_index(p);
                        assert(p0[jo].remote_port == p);
                        if jo != j {
                            assert(p0[jo].remote_port != p0[j].remote_port);
                        }
                    }
                    assert forall|p: u16| old(self).has_port(p)
                        && old(self).port_owner(p) == client_id@
                        implies removed_ports@.contains(p) by {
                        let jo = old(self).port_index(p);
                        assert(p0[jo].remote_port == p);
                        assert(p0[jo].owning_client_id@ == key@);
                        assert(removed_ports@.contains(p0[jo].remote_port));
                    }
                    // streams afterwards
                    assert forall|c: Seq<char>| self.has_conn(c)
                        implies (old(self).has_conn(c)
                            && old(self).conn_owner(c) != client_id@) by {
                        let k = choose|k: int| 0 <= k < cf.len()
                            && (#[trigger] cf[k]).connection_id@ == c;
                        assert(conn_entry_in(cf[k], c0, 0));
                        let j = choose|j: int| 0 <= j < c0.len() && #[trigger] c0[j] == cf[k];
                        assert(c0[j].connection_id@ == c);
                        let jo = old(self).conn_index(c);
                        assert(c0[jo].connection_id@ == c);
                        if jo != j {
                            assert(c0[jo].connection_id@ != c0[j].connection_id@);
                        }
                    }
                    assert forall|c: Seq<char>| old(self).has_conn(c)
                        && old(self).conn_owner(c) != client_id@
                        implies self.has_conn(c) by {
                        let jo = old(self).conn_index(c);
                        assert(c0[jo].connection_id@ == c);
                        assert(c0[jo].client_id@ != client_id@);
                        assert(conn_entry_in(c0[jo], cf, 0));
                        let k = choose|k: int| 0 <= k < cf.len() && #[trigger] cf[k] == c0[jo];
                        assert(cf[k].connection_id@ == c);
                    }
                    assert forall|c: Seq<char>| self.has_conn(c)
                        implies self.conn_owner(c) == old(self).conn_owner(c) by {
                        let kn = self.conn_index(c);
                        assert(cf[kn].connection_id@ == c);
                        assert(conn_entry_in(cf[kn], c0, 0));
                        let j = choose|j: int| 0 <= j < c0.len() && #[trigger] c0[j] == cf[kn];
                        let jo = old(self).conn_index(c);
                        assert(c0[jo].connection_id@ == c);
                        if jo != j {
                            assert(c0[jo].connection_id@ != c0[j].connection_id@);
                        }
                    }
                    // proxies afterwards
                    assert forall|id: Seq<char>, pid: Seq<char>| self.has_proxy(id, pid)
                        implies (old(self).has_proxy(id, pid) && id != client_id@) by {
                        let k = choose|k: int| 0 <= k < xf.len()
                            && (#[trigger] xf[k]).client_id@ == id
                            && xf[k].proxy_id@ == pid;
                        assert(proxy_entry_in(xf[k], x0, 0));
                        let j = choose|j: int| 0 <= j < x0.len() && #[trigger] x0[j] == xf[k];
                        assert(x0[j].client_id@ == id && x0[j].proxy_id@ == pid);
                    }
                    assert forall|id: Seq<char>, pid: Seq<char>|
                        old(self).has_proxy(id, pid) && id != client_id@
                        implies self.has_proxy(id, pid) by {
                        let j = choose|j: int| 0 <= j < x0.len()
                            && (#[trigger] x0[j]).client_id@ == id
                            && x0[j].proxy_id@ == pid;
                        assert(proxy_entry_in(x0[j], xf, 0));
                        let k = choose|k: int| 0 <= k < xf.len() && #[trigger] xf[k] == x0[j];
                        assert(xf[k].client_id@ == id && xf[k].proxy_id@ == pid);
                    }
                    // the invariants hold again
                    assert forall|i2: int| 0 <= i2 < pf.len()
                        implies self.has_client((#[trigger] pf[i2]).owning_client_id@) by {
                        assert(port_entry_in(pf[i2], p0, 0));
                        let j = choose|j: int| 0 <= j < p0.len() && #[trigger] p0[j] == pf[i2];
                        assert(old(self).has_client(p0[j].owning_client_id@));
                        assert(pf[i2].owning_client_id@ != key@);
                        assert(seq_has_id(clients1, p0[j].owning_client_id@));
                    }
                    assert forall|i2: int| 0 <= i2 < cf.len()
                        implies self.has_client((#[trigger] cf[i2]).client_id@) by {
                        assert(conn_entry_in(cf[i2], c0, 0));
                        let j = choose|j: int| 0 <= j < c0.len() && #[trigger] c0[j] == cf[i2];
                        assert(old(self).has_client(c0[j].client_id@));
                        assert(cf[i2].client_id@ != key@);
                        assert(seq_has_id(clients1, c0[j].client_id@));
                    }
                    assert forall|i2: int| 0 <= i2 < xf.len()
                        implies self.has_client((#[trigger] xf[i2]).client_id@) by {
                        assert(proxy_entry_in(xf[i2], x0, 0));
                        let j = choose|j: int| 0 <= j < x0.len() && #[trigger] x0[j] == xf[i2];
                        assert(old(self).has_client(x0[j].client_id@));
                        assert(xf[i2].client_id@ != key@);
                        assert(seq_has_id(clients1, x0[j].client_id@));
                    }
                }
                return (true, removed_ports);
            }
            i = i + 1;
        }
        (false, Vec::new())
    }
}

} // verus!

verus! {

/// The digit character for one decimal digit.
pub open spec fn spec_digit_char(d: nat) -> char {
    if d == 0 { '0' } else if d == 1 { '1' } else if d == 2 { '2' } else if d == 3 { '3' }
    else if d == 4 { '4' } else if d == 5 { '5' } else if d == 6 { '6' } else if d == 7 { '7' }
    else if d == 8 { '8' } else { '9' }
}

/// The decimal digits of `n`, most significant first.
pub open spec fn spec_decimal_digits(n: nat) -> Seq<char>
    decreases n,
{
    if n < 10 {
        seq![spec_digit_char(n)]
    } else {
        spec_decimal_digits(n / 10) + seq![spec_digit_char(n % 10)]
    }
}

/// The one-character string for a decimal digit.
fn digit_str(d: u16) -> (r: &'static str)
    requires
        d < 10,
    ensures
        r@ == seq![spec_digit_char(d as nat)],
{
    proof {
        reveal_strlit("0");
        reveal_strlit("1");
        reveal_strlit("2");
        reveal_strlit("3");
        reveal_strlit("4");
        reveal_strlit("5");
        reveal_strlit("6");
        reveal_strlit("7");
        reveal_strlit("8");
        reveal_strlit("9");
    }
    let r = if d == 0 { "0" } else if d == 1 { "1" } else if d == 2 { "2" }
        else if d == 3 { "3" } else if d == 4 { "4" } else if d == 5 { "5" }
        else if d == 6 { "6" } else if d == 7 { "7" } else if d == 8 { "8" } else { "9" };
    proof {
        assert(r@ =~= seq![spec_digit_char(d as nat)]);
    }
    r
}

/// Appends the decimal digits of `n`.
fn push_u16_decimal(out: &mut String, n: u16)
    ensures
        final(out)@ == old(out)@ + spec_decimal_digits(n as nat),
    decreases n,
{
    if n < 10 {
        out.append(digit_str(n));
        assert(final(out)@ =~= old(out)@ + spec_decimal_digits(n as nat));
    } else {
        push_u16_decimal(out, n / 10);
        out.append(digit_str(n % 10));
        assert(final(out)@ =~= old(out)@ + spec_decimal_digits(n as nat));
    }
}

/// The refusal text for a port another client already owns.
pub open spec fn spec_port_in_use_text(port: u16) -> Seq<char> {
    "Port "@ + spec_decimal_digits(port as nat) + " already in use by another client"@
}

/// Builds the refusal text for a port another client already owns.
fn port_in_use_message(port: u16) -> (r: String)
    ensures
        r@ == spec_port_in_use_text(port),
{
    let mut s = String::new();
    s.append("Port ");
    push_u16_decimal(&mut s, port);
    s.append(" already in use by another client");
    s
}

/// What the first frame of a control connection turned out to be.
#[derive(Debug)]
pub enum AuthCheck {
    /// A well-formed request carrying the right token hash.
    Accepted { client_id: String, client_name: Option<String> },
    /// An authentication request with the wrong token hash.
    BadToken,
    /// Some other message where authentication was expected.
    NotAuth,
}

/// Compares the first frame against the expected salted token hash.
pub fn check_auth_message(msg: Message, expected_hash: &Vec<u8>) -> (r: AuthCheck)
    ensures
        match msg@ {
            MessageView::Auth { enc_token, client_id, name } => {
                if enc_token == expected_hash@ {
                    r matches AuthCheck::Accepted { client_id: c, client_name: n }
                        && c@ == client_id && view_opt_str(n) == name
                } else {
                    r is BadToken
                }
            },
            _ => r is NotAuth,
        },
{
    match msg {
        Message::Auth { enc_token, client_id, name } => {
            if enc_token == *expected_hash {
                proof {
                    assert(enc_token@ =~= expected_hash@);
                }
                AuthCheck::Accepted { client_id, client_name: name }
            } else {
                proof {
                    if enc_token@ == expected_hash@ {
                        assert(enc_token@ =~= expected_hash@);
                    }
                }
                AuthCheck::BadToken
            }
        },
        _ => AuthCheck::NotAuth,
    }
}

/// Builds the success response of the handshake, carrying the session key.
pub fn build_auth_success(session_key: Vec<u8>, server_name: Option<String>) -> (r: Message)
    ensures
        r@ == (MessageView::AuthResponse {
            success: true,
            session_key: Option::Some(session_key@),
            name: view_opt_str(server_name),
            error: Option::None,
        }),
{
    Message::AuthResponse {
        success: true,
        session_key: Some(session_key),
        name: server_name,
        error: None,
    }
}

/// Builds the failure response sent before closing on a bad token.
pub fn build_auth_failure(server_name: Option<String>) -> (r: Message)
    ensures
        r@ == (MessageView::AuthResponse {
            success: false,
            session_key: Option::None,
            name: view_opt_str(server_name),
            error: Option::Some("Invalid token"@),
        }),
{
    Message::AuthResponse {
        success: false,
        session_key: None,
        name: server_name,
        error: Some("Invalid token".to_owned()),
    }
}

/// The next step after a `ProxyConfig` request.
#[derive(Debug)]
pub enum ProxyConfigStep {
    /// The requesting client is no longer registered; drop the request.
    UnknownClient,
    /// The port is free: bind it, then report with `finish_bind`.
    NeedBind,
    /// No bind is needed; send this reply to the client.
    Respond { reply: Message },
}

impl ServerState {
    /// Sends back the heartbeat's timestamp when the client is registered.
    pub fn heartbeat_reply(&self, client_id: &str, timestamp: u64) -> (r: Option<Message>)
        ensures
            self.has_client(client_id@) ==> (r matches Some(m)
                && m@ == (MessageView::HeartbeatResponse { timestamp })),
            !self.has_client(client_id@) ==> r is None,
    {
        if self.client_alive(client_id) {
            Some(Message::HeartbeatResponse { timestamp })
        } else {
            None
        }
    }

    /// Handles a `ProxyConfig` request: records the proxy on the session
    /// and decides the port question. A free port asks for a bind; a port
    /// the requester already owns is acknowledged without a second
    /// listener; a port another client owns is refused.
    pub fn on_proxy_config(
        &mut self,
        client_id: &str,
        local_ip: String,
        local_port: u16,
        remote_port: u16,
        proxy_id: &str,
    ) -> (r: ProxyConfigStep)
        requires
            old(self).wf(),
        ensures
            final(self).wf(),
            final(self).clients_seq() == old(self).clients_seq(),
            final(self).ports_seq() == old(self).ports_seq(),
            final(self).conns_seq() == old(self).conns_seq(),
            !old(self).has_client(client_id@) ==> r is UnknownClient
                && final(self).proxies_seq() == old(self).proxies_seq(),
            old(self).has_client(client_id@) ==> final(self).has_proxy(
                client_id@, proxy_id@),
            forall|id: Seq<char>, pid: Seq<char>| old(self).has_proxy(id, pid)
                ==> final(self).has_proxy(id, pid),
            forall|id: Seq<char>, pid: Seq<char>| final(self).has_proxy(id, pid)
                ==> old(self).has_proxy(id, pid) || (id == client_id@ && pid == proxy_id@),
            old(self).has_client(client_id@) && !old(self).has_port(remote_port)
                ==> r is NeedBind,
            old(self).has_client(client_id@) && old(self).has_port(remote_port)
                && old(self).port_owner(remote_port) == client_id@
                ==> (r matches ProxyConfigStep::Respond { reply }
                    && reply@ == (MessageView::ProxyConfigResponse {
                        success: true,
                        proxy_id: Option::Some(proxy_id@),
                        error: Option::None,
                    })),
            old(self).has_client(client_id@) && old(self).has_port(remote_port)
                && old(self).port_owner(remote_port) != client_id@
                ==> (r matches ProxyConfigStep::Respond { reply }
                    && reply@ == (MessageView::ProxyConfigResponse {
                        success: false,
                        proxy_id: Option::None,
                        error: Option::Some(spec_port_in_use_text(remote_port)),
                    })),
    {
        let info = ProxyInfo { local_ip, local_port, remote_port };
        if !self.record_proxy(client_id, proxy_id, info) {
            return ProxyConfigStep::UnknownClient;
        }
        match self.port_status(remote_port, client_id) {
            PortStatus::Free => ProxyConfigStep::NeedBind,
            PortStatus::OwnedBySelf => ProxyConfigStep::Respond {
                reply: Message::ProxyConfigResponse {
                    success: true,
                    proxy_id: Some(proxy_id.to_owned()),
                    error: None,
                },
            },
            PortStatus::OwnedByOther => ProxyConfigStep::Respond {
                reply: Message::ProxyConfigResponse {
                    success: false,
                    proxy_id: None,
                    error: Some(port_in_use_message(remote_port)),
                },
            },
        }
    }

    /// Reports the outcome of binding a fresh port. On success the
    /// listener is recorded and the client told its proxy id; on failure
    /// the client gets the reason and nothing is recorded. Returns no
    /// reply only when the client disappeared meanwhile.
    pub fn finish_bind(
        &mut self,
        remote_port: u16,
        client_id: &str,
        proxy_id: &str,
        bind_error: Option<String>,
    ) -> (r: Option<Message>)
        requires
            old(self).wf(),
        ensures
            final(self).wf(),
            final(self).clients_seq() == old(self).clients_seq(),
            final(self).proxies_seq() == old(self).proxies_seq(),
            final(self).conns_seq() == old(self).conns_seq(),
            bind_error matches Some(e) ==> (r matches Some(m)
                && m@ == (MessageView::ProxyConfigResponse {
                    success: false,
                    proxy_id: Option::None,
                    error: Option::Some(e@),
                })
                && final(self).ports_seq() == old(self).ports_seq()),
            bind_error is None && old(self).has_client(client_id@)
                && !old(self).has_port(remote_port)
                ==> final(self).has_port(remote_port)
                    && final(self).port_owner(remote_port) == client_id@
                    && final(self).port_proxy(remote_port) == proxy_id@
                    && (r matches Some(m)
                        && m@ == (MessageView::ProxyConfigResponse {
                            success: true,
                            proxy_id: Option::Some(proxy_id@),
                            error: Option::None,
                        })),
            bind_error is None && !old(self).has_client(client_id@)
                ==> r is None && final(self).ports_seq() == old(self).ports_seq(),
            bind_error is None && old(self).has_client(client_id@)
                && old(self).has_port(remote_port)
                ==> final(self).ports_seq() == old(self).ports_seq()
                    && (old(self).port_owner(remote_port) == client_id@
                        ==> (r matches Some(m)
                            && m@ == (MessageView::ProxyConfigResponse {
                                success: true,
                                proxy_id: Option::Some(proxy_id@),
                                error: Option::None,
                            })))
                    && (old(self).port_owner(remote_port) != client_id@
                        ==> (r matches Some(m)
                            && m@ == (MessageView::ProxyConfigResponse {
                                success: false,
                                proxy_id: Option::None,
                                error: Option::Some(spec_port_in_use_text(remote_port)),
                            }))),
            forall|q: u16| q != remote_port
                ==> (final(self).has_port(q) <==> old(self).has_port(q)),
            forall|q: u16| q != remote_port && old(self).has_port(q)
                ==> final(self).port_owner(q) == old(self).port_owner(q)
                    && final(self).port_proxy(q) == old(self).port_proxy(q),
    {
        if let Some(err) = bind_error {
            return Some(Message::ProxyConfigResponse {
                success: false,
                proxy_id: None,
                error: Some(err),
            });
        }
        if self.install_listener(remote_port, client_id, proxy_id) {
            return Some(Message::ProxyConfigResponse {
                success: true,
                proxy_id: Some(proxy_id.to_owned()),
                error: None,
            });
        }
        if !self.client_alive(client_id) {
            return None;
        }
        match self.port_status(remote_port, client_id) {
            PortStatus::OwnedBySelf => Some(Message::ProxyConfigResponse {
                success: true,
                proxy_id: Some(proxy_id.to_owned()),
                error: None,
            }),
            _ => Some(Message::ProxyConfigResponse {
                success: false,
                proxy_id: None,
                error: Some(port_in_use_message(remote_port)),
            }),
        }
    }
}

/// The registry invariants, stated as the server keeps them: every
/// registered client id is unique; every bound port has exactly one owner
/// and that owner is a registered client; every active stream's client is
/// registered.
pub proof fn lemma_registry_invariants(s: &ServerState)
    requires
        s.wf(),
    ensures
        forall|i: int, j: int| 0 <= i < j < s.clients_seq().len()
            ==> (#[trigger] s.clients_seq()[i])@ != (#[trigger] s.clients_seq()[j])@,
        forall|i: int, j: int| 0 <= i < j < s.ports_seq().len()
            ==> (#[trigger] s.ports_seq()[i]).remote_port
                != (#[trigger] s.ports_seq()[j]).remote_port,
        forall|p: u16| #[trigger] s.has_port(p) ==> s.has_client(s.port_owner(p)),
        forall|c: Seq<char>| #[trigger] s.has_conn(c) ==> s.has_client(s.conn_owner(c)),
{
    assert forall|p: u16| #[trigger] s.has_port(p)
        implies s.has_client(s.port_owner(p)) by {
        let k = s.port_index(p);
        assert(s.ports_seq()[k].remote_port == p);
        assert(s.has_client(s.ports_seq()[k].owning_client_id@));
    }
    assert forall|c: Seq<char>| #[trigger] s.has_conn(c)
        implies s.has_client(s.conn_owner(c)) by {
        let k = s.conn_index(c);
        assert(s.conns_seq()[k].connection_id@ == c);
        assert(s.has_client(s.conns_seq()[k].client_id@));
    }
}

} // verus!

verus! {

/// What the server must do with one control message from a client.
#[derive(Debug)]
pub enum ServerAction {
    /// Write these bytes to the stream's public socket; `known` says
    /// whether the stream is registered.
    Forward { connection_id: String, data: Vec<u8>, known: bool },
    /// A proxy request was processed; `step` says whether to bind, reply,
    /// or drop it.
    Proxy { remote_port: u16, step: ProxyConfigStep },
    /// Send this reply to the client.
    Reply { message: Message },
    /// A heartbeat from a client that is no longer registered; drop it.
    NoReply,
    /// A message a client should not send; log and ignore it.
    Unexpected,
}

impl ServerState {
    /// Decides what to do with one message from a client's control
    /// connection: route stream data, process a proxy request (with
    /// `proxy_id` as the freshly minted id), or echo a heartbeat.
    pub fn handle_client_message(&mut self, client_id: &str, msg: Message, proxy_id: &str)
        -> (r: ServerAction)
        requires
            old(self).wf(),
        ensures
            final(self).wf(),
            final(self).clients_seq() == old(self).clients_seq(),
            final(self).ports_seq() == old(self).ports_seq(),
            final(self).conns_seq() == old(self).conns_seq(),
            match msg@ {
                MessageView::Data { connection_id, data } => (r matches
                    ServerAction::Forward { connection_id: c, data: d, known }
                    && c@ == connection_id && d@ == data
                    && known == old(self).has_conn(connection_id))
                    && final(self).proxies_seq() == old(self).proxies_seq(),
                MessageView::ProxyConfig { local_ip, local_port, remote_port } => {
                    &&& (r matches ServerAction::Proxy { remote_port: p, step }
                        && p == remote_port
                        && (!old(self).has_client(client_id@) ==> step is UnknownClient)
                        && (old(self).has_client(client_id@)
                            && !old(self).has_port(remote_port) ==> step is NeedBind)
                        && (old(self).has_client(client_id@)
                            && old(self).has_port(remote_port)
                            && old(self).port_owner(remote_port) == client_id@
                            ==> (step matches ProxyConfigStep::Respond { reply }
                                && reply@ == (MessageView::ProxyConfigResponse {
                                    success: true,
                                    proxy_id: Option::Some(proxy_id@),
                                    error: Option::None,
                                })))
                        && (old(self).has_client(client_id@)
                            && old(self).has_port(remote_port)
                            && old(self).port_owner(remote_port) != client_id@
                            ==> (step matches ProxyConfigStep::Respond { reply }
                                && reply@ == (MessageView::ProxyConfigResponse {
                                    success: false,
                                    proxy_id: Option::None,
                                    error: Option::Some(spec_port_in_use_text(remote_port)),
                                }))))
                    &&& (old(self).has_client(client_id@)
                        ==> final(self).has_proxy(client_id@, proxy_id@))
                    &&& (!old(self).has_client(client_id@)
                        ==> final(self).proxies_seq() == old(self).proxies_seq())
                },
                MessageView::Heartbeat { timestamp } => ({
                    if old(self).has_client(client_id@) {
                        r matches ServerAction::Reply { message }
                            && message@ == (MessageView::HeartbeatResponse { timestamp })
                    } else {
                        r is NoReply
                    }
                }) && final(self).proxies_seq() == old(self).proxies_seq(),
                _ => r is Unexpected
                    && final(self).proxies_seq() == old(self).proxies_seq(),
            },
    {
        match msg {
            Message::Data { connection_id, data } => {
                let known = self.route_exists(connection_id.as_str());
                ServerAction::Forward { connection_id, data, known }
            },
            Message::ProxyConfig { local_ip, local_port, remote_port } => {
                let step = self.on_proxy_config(
                    client_id, local_ip, local_port, remote_port, proxy_id);
                ServerAction::Proxy { remote_port, step }
            },
            Message::Heartbeat { timestamp } => {
                match self.heartbeat_reply(client_id, timestamp) {
                    Some(message) => ServerAction::Reply { message },
                    None => ServerAction::NoReply,
                }
            },
            _ => ServerAction::Unexpected,
        }
    }
}

} // verus!
