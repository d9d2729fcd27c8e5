//! The client's side of the tunnel: validation of the handshake response,
//! the table of open local connections, and the decision taken on each
//! message that arrives from a server.
//!
//! A connection id is in the table exactly while the matching local socket
//! is open; it is removed exactly once, on EOF, error, or a close notice.

use vstd::prelude::*;
use crate::config::ServiceConfig;
use crate::protocol::{Message, MessageView, view_opt_str, view_opt_bytes};

verus! {

/// Why a handshake response was rejected.
#[derive(Debug, Clone, Copy, PartialEq, Eq, Structural)]
pub enum ClientError {
    /// The server answered with `success == false`.
    AuthFailed,
    /// The server accepted but sent no session key.
    NoSessionKey,
    /// The first frame was not an authentication response.
    UnexpectedMessage,
}

/// Checks the server's answer to `Auth`: accepted only with a session key.
pub fn check_auth_response(msg: Message) -> (r: Result<Vec<u8>, ClientError>)
    ensures
        match msg@ {
            MessageView::AuthResponse { success, session_key, .. } => {
                if !success {
                    r == Err::<Vec<u8>, ClientError>(ClientError::AuthFailed)
                } else {
                    match session_key {
                        Option::Some(k) => r matches Ok(v) && v@ == k,
                        Option::None => r == Err::<Vec<u8>, ClientError>(
                            ClientError::NoSessionKey),
                    }
                }
            },
            _ => r == Err::<Vec<u8>, ClientError>(ClientError::UnexpectedMessage),
        },
{
    match msg {
        Message::AuthResponse { success, session_key, name: _, error: _ } => {
            if !success {
                Err(ClientError::AuthFailed)
            } else {
                match session_key {
                    Some(k) => Ok(k),
                    None => Err(ClientError::NoSessionKey),
                }
            }
        },
        _ => Err(ClientError::UnexpectedMessage),
    }
}

/// What the client must do with a message from the server.
#[derive(Debug)]
pub enum ClientAction {
    /// Open a local socket to the named service for this new stream.
    ConnectLocal { local_ip: String, local_port: u16, connection_id: String },
    /// A stream was announced but no service is configured; ignore it.
    NoService,
    /// Write these bytes to the stream's local socket.
    ForwardLocal { connection_id: String, data: Vec<u8> },
    /// Bytes for a stream that is not open; drop them.
    DropData { connection_id: String },
    /// The stream was closed by the peer; `existed` says whether it was
    /// still in the table.
    CloseLocal { connection_id: String, existed: bool },
    /// The server acknowledged a service registration; log it.
    ConfigUpdate { success: bool, proxy_id: Option<String>, error: Option<String> },
    /// The server echoed a heartbeat; log it.
    HeartbeatAck { timestamp: u64 },
    /// A message the server should not send; log and ignore it.
    Unexpected,
}

/// The client's table of open local connections, keyed by connection id.
#[derive(Debug)]
pub struct ClientState {
    local_conns: Vec<String>,
}

impl ClientState {
    /// The open connection ids.
    pub closed spec fn conns_seq(&self) -> Seq<String> {
        self.local_conns@
    }

    /// A local socket for this stream is open.
    pub open spec fn has_local(&self, c: Seq<char>) -> bool {
        exists|i: int| 0 <= i < self.conns_seq().len()
            && (#[trigger] self.conns_seq()[i])@ == c
    }

    /// Connection ids in the table are unique.
    pub open spec fn wf(&self) -> bool {
        forall|i: int, j: int| 0 <= i < j < self.conns_seq().len()
            ==> (#[trigger] self.conns_seq()[i])@ != (#[trigger] self.conns_seq()[j])@
    }

    /// Starts with no local connections.
    pub fn new() -> (r: ClientState)
        ensures
            r.wf(),
            r.conns_seq() == Seq::<String>::empty(),
    {
        ClientState { local_conns: Vec::new() }
    }

    /// Whether a local socket for this stream is open.
    pub fn has_connection(&self, connection_id: &str) -> (r: bool)
        ensures
            r == self.has_local(connection_id@),
    {
        let key: String = connection_id.to_owned();
        let n = self.local_conns.len();
        let mut i: usize = 0;
        while i < n
            invariant
                0 <= i <= n,
                n == self.local_conns@.len(),
                key@ == connection_id@,
                forall|j: int| 0 <= j < i
                    ==> (#[trigger] self.local_conns@[j])@ != connection_id@,
            decreases n - i,
        {
            if self.local_conns[i] == key {
                proof {
                    assert(self.conns_seq()[i as int]@ == connection_id@);
                }
                return true;
            }
            i = i + 1;
        }
        false
    }

    /// Puts a stream in the table once its local socket is open.
    pub fn add_connection(&mut self, connection_id: &str) -> (r: bool)
        requires
            old(self).wf(),
        ensures
            final(self).wf(),
            r == !old(self).has_local(connection_id@),
            forall|c: Seq<char>| final(self).has_local(c)
                <==> (old(self).has_local(c) || (r && c == connection_id@)),
            !r ==> final(self).conns_seq() == old(self).conns_seq(),
    {
        let key: String = connection_id.to_owned();
        let n = self.local_conns.len();
        let mut i: usize = 0;
        while i < n
            invariant
                0 <= i <= n,
                n == self.local_conns@.len(),
                key@ == connection_id@,
                *self == *old(self),
                old(self).wf(),
                forall|j: int| 0 <= j < i
                    ==> (#[trigger] self.local_conns@[j])@ != connection_id@,
            decreases n - i,
        {
            if self.local_conns[i] == key {
                proof {
                    assert(self.conns_seq()[i as int]@ == connection_id@);
                }
                return false;
            }
            i = i + 1;
        }
        self.local_conns.push(key);
        proof {
            let oc = old(self).conns_seq();
            let nc = self.conns_seq();
            assert(nc[oc.len() as int]@ == connection_id@);
            assert forall|i1: int, j1: int| 0 <= i1 < j1 < nc.len()
                implies (#[trigger] nc[i1])@ != (#[trigger] nc[j1])@ by {
                if j1 == nc.len() - 1 {
                    assert(oc[i1]@ != connection_id@);
                } else {
                    assert(oc[i1]@ != oc[j1]@);
                }
            }
            assert forall|c: Seq<char>| self.has_local(c)
                implies (old(self).has_local(c) || c == connection_id@) by {
                let i0 = choose|i0: int| 0 <= i0 < nc.len() && (#[trigger] nc[i0])@ == c;
                if i0 < oc.len() {
                    assert(oc[i0]@ == c);
                }
            }
            assert forall|c: Seq<char>| old(self).has_local(c)
                implies self.has_local(c) by {
                let i0 = choose|i0: int| 0 <= i0 < oc.len() && (#[trigger] oc[i0])@ == c;
                assert(nc[i0]@ == c);
            }
            assert(self.has_local(connection_id@));
        }
        true
    }

    /// Takes a stream out of the table; says whether it was there, so the
    /// removal happens exactly once.
    pub fn remove_connection(&mut self, connection_id: &str) -> (r: bool)
        requires
            old(self).wf(),
        ensures
            final(self).wf(),
            r == old(self).has_local(connection_id@),
            !final(self).has_local(connection_id@),
            forall|c: Seq<char>| c != connection_id@
                ==> (final(self).has_local(c) <==> old(self).has_local(c)),
            !r ==> final(self).conns_seq() == old(self).conns_seq(),
    {
        let key: String = connection_id.to_owned();
        let n = self.local_conns.len();
        let mut i: usize = 0;
        while i < n
            invariant
                0 <= i <= n,
                n == self.local_conns@.len(),
                key@ == connection_id@,
                *self == *old(self),
                old(self).wf(),
                forall|j: int| 0 <= j < i
                    ==> (#[trigger] self.local_conns@[j])@ != connection_id@,
            decreases n - i,
        {
            if self.local_conns[i] == key {
                let ghost oc = old(self).conns_seq();
                let ghost idx = i as int;
                self.local_conns.remove(i);
                proof {
                    let nc = self.conns_seq();
                    assert(oc[idx]@ == connection_id@);
                    assert(old(self).has_local(connection_id@));
                    assert(forall|k: int| 0 <= k < nc.len()
                        ==> #[trigger] nc[k] == (if k < idx { oc[k] } else { oc[k + 1] }));
                    assert forall|k1: int, k2: int| 0 <= k1 < k2 < nc.len()
                        implies (#[trigger] nc[k1])@ != (#[trigger] nc[k2])@ by {
                        let o1: int = if k1 < idx { k1 } else { k1 + 1 };
                        let o2: int = if k2 < idx { k2 } else { k2 + 1 };
                        assert(oc[o1]@ != oc[o2]@);
                    }
                    assert forall|c: Seq<char>| self.has_local(c)
                        implies old(self).has_local(c) && c != connection_id@ by {
                        let k = choose|k: int| 0 <= k < nc.len() && (#[trigger] nc[k])@ == c;
                        let o: int = if k < idx { k } else { k + 1 };
                        assert(oc[o]@ == c);
                        if c == connection_id@ && o != idx {
                            assert(oc[o]@ != oc[idx]@);
                        }
                    }
                    assert forall|c: Seq<char>| c != connection_id@ && old(self).has_local(c)
                        implies self.has_local(c) by {
                        let o = choose|o: int| 0 <= o < oc.len() && (#[trigger] oc[o])@ == c;
                        assert(o != idx);
                        let k: int = if o < idx { o } else { o - 1 };
                        assert(nc[k]@ == c);
                    }
                }
                return true;
            }
            i = i + 1;
        }
        false
    }

    /// Decides what to do with one message from the server. A new stream is
    /// dialed to the first configured service; data goes to the stream's
    /// local socket when it is open; a close notice removes the stream from
    /// the table.
    pub fn handle_server_message(&mut self, msg: Message, services: &Vec<ServiceConfig>)
        -> (r: ClientAction)
        requires
            old(self).wf(),
        ensures
            final(self).wf(),
            match msg@ {
                MessageView::ProxyConfigResponse { success, proxy_id, error } =>
                    (r matches ClientAction::ConfigUpdate {
                        success: s, proxy_id: p, error: e }
                        && s == success && view_opt_str(p) == proxy_id
                        && view_opt_str(e) == error)
                    && final(self).conns_seq() == old(self).conns_seq(),
                MessageView::HeartbeatResponse { timestamp } =>
                    (r matches ClientAction::HeartbeatAck { timestamp: t }
                        && t == timestamp)
                    && final(self).conns_seq() == old(self).conns_seq(),
                MessageView::NewConnection { proxy_id, connection_id } => ({
                    if services@.len() > 0 {
                        r matches ClientAction::ConnectLocal {
                            local_ip: ip, local_port: lp, connection_id: c }
                            && ip@ == services@[0].local_ip@
                            && lp == services@[0].local_port
                            && c@ == connection_id
                    } else {
                        r is NoService
                    }
                }) && final(self).conns_seq() == old(self).conns_seq(),
                MessageView::Data { connection_id, data } => ({
                    if old(self).has_local(connection_id) {
                        r matches ClientAction::ForwardLocal { connection_id: c, data: d }
                            && c@ == connection_id && d@ == data
                    } else {
                        r matches ClientAction::DropData { connection_id: c }
                            && c@ == connection_id
                    }
                }) && final(self).conns_seq() == old(self).conns_seq(),
                MessageView::CloseConnection { connection_id } => {
                    &&& (r matches ClientAction::CloseLocal { connection_id: c, existed }
                        && c@ == connection_id
                        && existed == old(self).has_local(connection_id))
                    &&& !final(self).has_local(connection_id)
                    &&& forall|c2: Seq<char>| c2 != connection_id
                        ==> (final(self).has_local(c2) <==> old(self).has_local(c2))
                },
                _ => r is Unexpected && final(self).conns_seq() == old(self).conns_seq(),
            },
    {
        match msg {
            Message::ProxyConfigResponse { success, proxy_id, error } =>
                ClientAction::ConfigUpdate { success, proxy_id, error },
            Message::HeartbeatResponse { timestamp } =>
                ClientAction::HeartbeatAck { timestamp },
            Message::NewConnection { proxy_id: _, connection_id } => {
                if services.len() > 0 {
                    let first = &services[0];
                    ClientAction::ConnectLocal {
                        local_ip: first.local_ip.clone(),
                        local_port: first.local_port,
                        connection_id,
                    }
                } else {
                    ClientAction::NoService
                }
            },
            Message::Data { connection_id, data } => {
                if self.has_connection(connection_id.as_str()) {
                    ClientAction::ForwardLocal { connection_id, data }
                } else {
                    ClientAction::DropData { connection_id }
                }
            },
            Message::CloseConnection { connection_id } => {
                let existed = self.remove_connection(connection_id.as_str());
                ClientAction::CloseLocal { connection_id, existed }
            },
            _ => ClientAction::Unexpected,
        }
    }
}

} // verus!
