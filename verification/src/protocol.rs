//! The wire protocol: the closed message set exchanged between client and
//! server, its deterministic byte encoding, and the length-prefixed frame
//! around it.
//!
//! A message is encoded as one discriminant byte (variant order below)
//! followed by its fields in declaration order; strings and byte fields
//! carry a varint length prefix, ports and timestamps are fixed-width
//! little-endian, options start with a presence byte. A frame is a 4-byte
//! big-endian payload length followed by the payload.

use vstd::prelude::*;
use crate::codec::{
    DecodeError, spec_enc_le, spec_dec_le, spec_enc_bool, spec_dec_bool,
    spec_enc_bytes, spec_dec_bytes, spec_enc_str, spec_dec_str, spec_enc_opt_str,
    spec_dec_opt_str, spec_enc_opt_bytes, spec_dec_opt_bytes, spec_enc_be32, spec_dec_be32,
    pow256, enc_le_append, enc_bool_append, enc_bytes_append, enc_str_append,
    enc_opt_str_append, enc_opt_bytes_append, enc_be32_append,
    dec_le, dec_bool, dec_bytes, dec_str, dec_opt_str, dec_opt_bytes, dec_be32,
    lemma_bytes_round_trip, lemma_str_round_trip, lemma_opt_str_round_trip,
    lemma_opt_bytes_round_trip, lemma_bool_round_trip, lemma_le_round_trip,
    lemma_be32_round_trip,
};
use crate::crypto::{sha256_of, sha256_with_salt, magic_salt, spec_magic_salt};

verus! {

/// Messages exchanged between client and server.
#[derive(Debug, Clone)]
pub enum Message {
    /// Client authentication request.
    Auth { enc_token: Vec<u8>, client_id: String, name: Option<String> },
    /// Server authentication response.
    AuthResponse {
        success: bool,
        session_key: Option<Vec<u8>>,
        name: Option<String>,
        error: Option<String>,
    },
    /// Client proxy configuration.
    ProxyConfig { local_ip: String, local_port: u16, remote_port: u16 },
    /// Server proxy configuration response.
    ProxyConfigResponse { success: bool, proxy_id: Option<String>, error: Option<String> },
    /// Heartbeat message.
    Heartbeat { timestamp: u64 },
    /// Heartbeat response.
    HeartbeatResponse { timestamp: u64 },
    /// New connection request from server to client.
    NewConnection { proxy_id: String, connection_id: String },
    /// Connection response from client.
    ConnectionResponse { connection_id: String, success: bool, error: Option<String> },
    /// Data transfer.
    Data { connection_id: String, data: Vec<u8> },
    /// Close connection.
    CloseConnection { connection_id: String },
    /// Error message.
    Error { message: String },
}

/// The mathematical value of a message: the same variants over sequences.
pub enum MessageView {
    Auth { enc_token: Seq<u8>, client_id: Seq<char>, name: Option<Seq<char>> },
    AuthResponse {
        success: bool,
        session_key: Option<Seq<u8>>,
        name: Option<Seq<char>>,
        error: Option<Seq<char>>,
    },
    ProxyConfig { local_ip: Seq<char>, local_port: u16, remote_port: u16 },
    ProxyConfigResponse { success: bool, proxy_id: Option<Seq<char>>, error: Option<Seq<char>> },
    Heartbeat { timestamp: u64 },
    HeartbeatResponse { timestamp: u64 },
    NewConnection { proxy_id: Seq<char>, connection_id: Seq<char> },
    ConnectionResponse { connection_id: Seq<char>, success: bool, error: Option<Seq<char>> },
    Data { connection_id: Seq<char>, data: Seq<u8> },
    CloseConnection { connection_id: Seq<char> },
    Error { message: Seq<char> },
}

/// View of an optional string.
pub open spec fn view_opt_str(o: Option<String>) -> Option<Seq<char>> {
    match o {
        Option::None => Option::None,
        Option::Some(s) => Option::Some(s@),
    }
}

/// View of an optional byte vector.
pub open spec fn view_opt_bytes(o: Option<Vec<u8>>) -> Option<Seq<u8>> {
    match o {
        Option::None => Option::None,
        Option::Some(b) => Option::Some(b@),
    }
}

impl View for Message {
    type V = MessageView;

    open spec fn view(&self) -> MessageView {
        match *self {
            Message::Auth { ref enc_token, ref client_id, ref name } => MessageView::Auth {
                enc_token: enc_token@,
                client_id: client_id@,
                name: view_opt_str(*name),
            },
            Message::AuthResponse { success, ref session_key, ref name, ref error } =>
                MessageView::AuthResponse {
                    success,
                    session_key: view_opt_bytes(*session_key),
                    name: view_opt_str(*name),
                    error: view_opt_str(*error),
                },
            Message::ProxyConfig { ref local_ip, local_port, remote_port } =>
                MessageView::ProxyConfig { local_ip: local_ip@, local_port, remote_port },
            Message::ProxyConfigResponse { success, ref proxy_id, ref error } =>
                MessageView::ProxyConfigResponse {
                    success,
                    proxy_id: view_opt_str(*proxy_id),
                    error: view_opt_str(*error),
                },
            Message::Heartbeat { timestamp } => MessageView::Heartbeat { timestamp },
            Message::HeartbeatResponse { timestamp } =>
                MessageView::HeartbeatResponse { timestamp },
            Message::NewConnection { ref proxy_id, ref connection_id } =>
                MessageView::NewConnection {
                    proxy_id: proxy_id@,
                    connection_id: connection_id@,
                },
            Message::ConnectionResponse { ref connection_id, success, ref error } =>
                MessageView::ConnectionResponse {
                    connection_id: connection_id@,
                    success,
                    error: view_opt_str(*error),
                },
            Message::Data { ref connection_id, ref data } => MessageView::Data {
                connection_id: connection_id@,
                data: data@,
            },
            Message::CloseConnection { ref connection_id } => MessageView::CloseConnection {
                connection_id: connection_id@,
            },
            Message::Error { ref message } => MessageView::Error { message: message@ },
        }
    }
}

/// The byte encoding of a message: discriminant, then fields in order.
pub open spec fn spec_enc_msg(m: MessageView) -> Seq<u8> {
    match m {
        MessageView::Auth { enc_token, client_id, name } =>
            seq![0u8] + spec_enc_bytes(enc_token) + spec_enc_str(client_id)
                + spec_enc_opt_str(name),
        MessageView::AuthResponse { success, session_key, name, error } =>
            seq![1u8] + spec_enc_bool(success) + spec_enc_opt_bytes(session_key)
                + spec_enc_opt_str(name) + spec_enc_opt_str(error),
        MessageView::ProxyConfig { local_ip, local_port, remote_port } =>
            seq![2u8] + spec_enc_str(local_ip) + spec_enc_le(local_port as nat, 2)
                + spec_enc_le(remote_port as nat, 2),
        MessageView::ProxyConfigResponse { success, proxy_id, error } =>
            seq![3u8] + spec_enc_bool(success) + spec_enc_opt_str(proxy_id)
                + spec_enc_opt_str(error),
        MessageView::Heartbeat { timestamp } =>
            seq![4u8] + spec_enc_le(timestamp as nat, 8),
        MessageView::HeartbeatResponse { timestamp } =>
            seq![5u8] + spec_enc_le(timestamp as nat, 8),
        MessageView::NewConnection { proxy_id, connection_id } =>
            seq![6u8] + spec_enc_str(proxy_id) + spec_enc_str(connection_id),
        MessageView::ConnectionResponse { connection_id, success, error } =>
            seq![7u8] + spec_enc_str(connection_id) + spec_enc_bool(success)
                + spec_enc_opt_str(error),
        MessageView::Data { connection_id, data } =>
            seq![8u8] + spec_enc_str(connection_id) + spec_enc_bytes(data),
        MessageView::CloseConnection { connection_id } =>
            seq![9u8] + spec_enc_str(connection_id),
        MessageView::Error { message } =>
            seq![10u8] + spec_enc_str(message),
    }
}

/// Encodes a message; the result is exactly `spec_enc_msg` of its value.
pub fn encode_message(m: &Message) -> (r: Vec<u8>)
    ensures
        r@ == spec_enc_msg(m@),
{
    let mut out: Vec<u8> = Vec::new();
    match m {
        Message::Auth { enc_token, client_id, name } => {
            out.push(0u8);
            enc_bytes_append(&mut out, enc_token.as_slice());
            enc_str_append(&mut out, client_id.as_str());
            enc_opt_str_append(&mut out, name);
            assert(out@ =~= spec_enc_msg(m@));
        },
        Message::AuthResponse { success, session_key, name, error } => {
            out.push(1u8);
            enc_bool_append(&mut out, *success);
            enc_opt_bytes_append(&mut out, session_key);
            enc_opt_str_append(&mut out, name);
            enc_opt_str_append(&mut out, error);
            assert(out@ =~= spec_enc_msg(m@));
        },
        Message::ProxyConfig { local_ip, local_port, remote_port } => {
            out.push(2u8);
            enc_str_append(&mut out, local_ip.as_str());
            enc_le_append(&mut out, *local_port as u64, 2);
            enc_le_append(&mut out, *remote_port as u64, 2);
            assert(out@ =~= spec_enc_msg(m@));
        },
        Message::ProxyConfigResponse { success, proxy_id, error } => {
            out.push(3u8);
            enc_bool_append(&mut out, *success);
            enc_opt_str_append(&mut out, proxy_id);
            enc_opt_str_append(&mut out, error);
            assert(out@ =~= spec_enc_msg(m@));
        },
        Message::Heartbeat { timestamp } => {
            out.push(4u8);
            enc_le_append(&mut out, *timestamp, 8);
            assert(out@ =~= spec_enc_msg(m@));
        },
        Message::HeartbeatResponse { timestamp } => {
            out.push(5u8);
            enc_le_append(&mut out, *timestamp, 8);
            assert(out@ =~= spec_enc_msg(m@));
        },
        Message::NewConnection { proxy_id, connection_id } => {
            out.push(6u8);
            enc_str_append(&mut out, proxy_id.as_str());
            enc_str_append(&mut out, connection_id.as_str());
            assert(out@ =~= spec_enc_msg(m@));
        },
        Message::ConnectionResponse { connection_id, success, error } => {
            out.push(7u8);
            enc_str_append(&mut out, connection_id.as_str());
            enc_bool_append(&mut out, *success);
            enc_opt_str_append(&mut out, error);
            assert(out@ =~= spec_enc_msg(m@));
        },
        Message::Data { connection_id, data } => {
            out.push(8u8);
            enc_str_append(&mut out, connection_id.as_str());
            enc_bytes_append(&mut out, data.as_slice());
            assert(out@ =~= spec_enc_msg(m@));
        },
        Message::CloseConnection { connection_id } => {
            out.push(9u8);
            enc_str_append(&mut out, connection_id.as_str());
            assert(out@ =~= spec_enc_msg(m@));
        },
        Message::Error { message } => {
            out.push(10u8);
            enc_str_append(&mut out, message.as_str());
            assert(out@ =~= spec_enc_msg(m@));
        },
    }
    out
}

} // verus!

verus! {

// ---------------------------------------------------------------------------
// Field decoders, one per variant (the discriminant byte already consumed)
// ---------------------------------------------------------------------------

/// Fields of `Auth`.
pub open spec fn spec_dec_auth(t: Seq<u8>) -> Result<(MessageView, int), DecodeError> {
    match spec_dec_bytes(t) {
        Err(e) => Err(e),
        Ok((enc_token, c1)) => match spec_dec_str(t.skip(c1)) {
            Err(e) => Err(e),
            Ok((client_id, c2)) => match spec_dec_opt_str(t.skip(c1 + c2)) {
                Err(e) => Err(e),
                Ok((name, c3)) => Ok((
                    MessageView::Auth { enc_token, client_id, name },
                    c1 + c2 + c3,
                )),
            },
        },
    }
}

/// Fields of `AuthResponse`.
pub open spec fn spec_dec_auth_response(t: Seq<u8>) -> Result<(MessageView, int), DecodeError> {
    match spec_dec_bool(t) {
        Err(e) => Err(e),
        Ok((success, c1)) => match spec_dec_opt_bytes(t.skip(c1)) {
            Err(e) => Err(e),
            Ok((session_key, c2)) => match spec_dec_opt_str(t.skip(c1 + c2)) {
                Err(e) => Err(e),
                Ok((name, c3)) => match spec_dec_opt_str(t.skip(c1 + c2 + c3)) {
                    Err(e) => Err(e),
                    Ok((error, c4)) => Ok((
                        MessageView::AuthResponse { success, session_key, name, error },
                        c1 + c2 + c3 + c4,
                    )),
                },
            },
        },
    }
}

/// Fields of `ProxyConfig`.
pub open spec fn spec_dec_proxy_config(t: Seq<u8>) -> Result<(MessageView, int), DecodeError> {
    match spec_dec_str(t) {
        Err(e) => Err(e),
        Ok((local_ip, c1)) => match spec_dec_le(t.skip(c1), 2) {
            Err(e) => Err(e),
            Ok((lp, c2)) => match spec_dec_le(t.skip(c1 + c2), 2) {
                Err(e) => Err(e),
                Ok((rp, c3)) => Ok((
                    MessageView::ProxyConfig {
                        local_ip,
                        local_port: lp as u16,
                        remote_port: rp as u16,
                    },
                    c1 + c2 + c3,
                )),
            },
        },
    }
}

/// Fields of `ProxyConfigResponse`.
pub open spec fn spec_dec_proxy_config_response(t: Seq<u8>)
    -> Result<(MessageView, int), DecodeError> {
    match spec_dec_bool(t) {
        Err(e) => Err(e),
        Ok((success, c1)) => match spec_dec_opt_str(t.skip(c1)) {
            Err(e) => Err(e),
            Ok((proxy_id, c2)) => match spec_dec_opt_str(t.skip(c1 + c2)) {
                Err(e) => Err(e),
                Ok((error, c3)) => Ok((
                    MessageView::ProxyConfigResponse { success, proxy_id, error },
                    c1 + c2 + c3,
                )),
            },
        },
    }
}

/// Fields of `Heartbeat`.
pub open spec fn spec_dec_heartbeat(t: Seq<u8>) -> Result<(MessageView, int), DecodeError> {
    match spec_dec_le(t, 8) {
        Err(e) => Err(e),
        Ok((ts, c1)) => Ok((MessageView::Heartbeat { timestamp: ts as u64 }, c1)),
    }
}

/// Fields of `HeartbeatResponse`.
pub open spec fn spec_dec_heartbeat_response(t: Seq<u8>)
    -> Result<(MessageView, int), DecodeError> {
    match spec_dec_le(t, 8) {
        Err(e) => Err(e),
        Ok((ts, c1)) => Ok((MessageView::HeartbeatResponse { timestamp: ts as u64 }, c1)),
    }
}

/// Fields of `NewConnection`.
pub open spec fn spec_dec_new_connection(t: Seq<u8>) -> Result<(MessageView, int), DecodeError> {
    match spec_dec_str(t) {
        Err(e) => Err(e),
        Ok((proxy_id, c1)) => match spec_dec_str(t.skip(c1)) {
            Err(e) => Err(e),
            Ok((connection_id, c2)) => Ok((
                MessageView::NewConnection { proxy_id, connection_id },
                c1 + c2,
            )),
        },
    }
}

/// Fields of `ConnectionResponse`.
pub open spec fn spec_dec_connection_response(t: Seq<u8>)
    -> Result<(MessageView, int), DecodeError> {
    match spec_dec_str(t) {
        Err(e) => Err(e),
        Ok((connection_id, c1)) => match spec_dec_bool(t.skip(c1)) {
            Err(e) => Err(e),
            Ok((success, c2)) => match spec_dec_opt_str(t.skip(c1 + c2)) {
                Err(e) => Err(e),
                Ok((error, c3)) => Ok((
                    MessageView::ConnectionResponse { connection_id, success, error },
                    c1 + c2 + c3,
                )),
            },
        },
    }
}

/// Fields of `Data`.
pub open spec fn spec_dec_data(t: Seq<u8>) -> Result<(MessageView, int), DecodeError> {
    match spec_dec_str(t) {
        Err(e) => Err(e),
        Ok((connection_id, c1)) => match spec_dec_bytes(t.skip(c1)) {
            Err(e) => Err(e),
            Ok((data, c2)) => Ok((MessageView::Data { connection_id, data }, c1 + c2)),
        },
    }
}

/// Fields of `CloseConnection`.
pub open spec fn spec_dec_close_connection(t: Seq<u8>)
    -> Result<(MessageView, int), DecodeError> {
    match spec_dec_str(t) {
        Err(e) => Err(e),
        Ok((connection_id, c1)) => Ok((MessageView::CloseConnection { connection_id }, c1)),
    }
}

/// Fields of `Error`.
pub open spec fn spec_dec_error(t: Seq<u8>) -> Result<(MessageView, int), DecodeError> {
    match spec_dec_str(t) {
        Err(e) => Err(e),
        Ok((message, c1)) => Ok((MessageView::Error { message }, c1)),
    }
}

/// Fields after the discriminant byte `tag`.
pub open spec fn spec_dec_fields(tag: u8, t: Seq<u8>) -> Result<(MessageView, int), DecodeError> {
    if tag == 0 {
        spec_dec_auth(t)
    } else if tag == 1 {
        spec_dec_auth_response(t)
    } else if tag == 2 {
        spec_dec_proxy_config(t)
    } else if tag == 3 {
        spec_dec_proxy_config_response(t)
    } else if tag == 4 {
        spec_dec_heartbeat(t)
    } else if tag == 5 {
        spec_dec_heartbeat_response(t)
    } else if tag == 6 {
        spec_dec_new_connection(t)
    } else if tag == 7 {
        spec_dec_connection_response(t)
    } else if tag == 8 {
        spec_dec_data(t)
    } else if tag == 9 {
        spec_dec_close_connection(t)
    } else if tag == 10 {
        spec_dec_error(t)
    } else {
        Err(DecodeError::Malformed)
    }
}

/// Total decoder for a message: the value and the count of bytes consumed.
pub open spec fn spec_dec_msg(s: Seq<u8>) -> Result<(MessageView, int), DecodeError> {
    if s.len() == 0 {
        Err(DecodeError::Truncated)
    } else {
        match spec_dec_fields(s[0], s.skip(1)) {
            Err(e) => Err(e),
            Ok((m, c)) => Ok((m, 1 + c)),
        }
    }
}

} // verus!

verus! {

/// Reads the fields of `Auth` starting at `p`.
fn dec_fields_auth(buf: &[u8], p: usize) -> (r: Result<(Message, usize), DecodeError>)
    requires
        p <= buf@.len(),
    ensures
        match spec_dec_auth(buf@.skip(p as int)) {
            Ok((v, c)) => r matches Ok((m, end)) && m@ == v && end == p + c,
            Err(e) => r == Err::<(Message, usize), DecodeError>(e),
        },
        r matches Ok(rp) ==> p <= rp.1 <= buf@.len(),
{
    let ghost t = buf@.skip(p as int);
    match dec_bytes(buf, p) {
        Err(e) => Err(e),
        Ok((enc_token, p2)) => {
            proof { assert(t.skip(p2 - p) =~= buf@.skip(p2 as int)); }
            match dec_str(buf, p2) {
                Err(e) => Err(e),
                Ok((client_id, p3)) => {
                    proof { assert(t.skip(p3 - p) =~= buf@.skip(p3 as int)); }
                    match dec_opt_str(buf, p3) {
                        Err(e) => Err(e),
                        Ok((name, p4)) => Ok((
                            Message::Auth { enc_token, client_id, name },
                            p4,
                        )),
                    }
                },
            }
        },
    }
}

/// Reads the fields of `AuthResponse` starting at `p`.
fn dec_fields_auth_response(buf: &[u8], p: usize) -> (r: Result<(Message, usize), DecodeError>)
    requires
        p <= buf@.len(),
    ensures
        match spec_dec_auth_response(buf@.skip(p as int)) {
            Ok((v, c)) => r matches Ok((m, end)) && m@ == v && end == p + c,
            Err(e) => r == Err::<(Message, usize), DecodeError>(e),
        },
        r matches Ok(rp) ==> p <= rp.1 <= buf@.len(),
{
    let ghost t = buf@.skip(p as int);
    match dec_bool(buf, p) {
        Err(e) => Err(e),
        Ok((success, p2)) => {
            proof { assert(t.skip(p2 - p) =~= buf@.skip(p2 as int)); }
            match dec_opt_bytes(buf, p2) {
                Err(e) => Err(e),
                Ok((session_key, p3)) => {
                    proof { assert(t.skip(p3 - p) =~= buf@.skip(p3 as int)); }
                    match dec_opt_str(buf, p3) {
                        Err(e) => Err(e),
                        Ok((name, p4)) => {
                            proof { assert(t.skip(p4 - p) =~= buf@.skip(p4 as int)); }
                            match dec_opt_str(buf, p4) {
                                Err(e) => Err(e),
                                Ok((error, p5)) => Ok((
                                    Message::AuthResponse { success, session_key, name, error },
                                    p5,
                                )),
                            }
                        },
                    }
                },
            }
        },
    }
}

/// Reads the fields of `ProxyConfig` starting at `p`.
fn dec_fields_proxy_config(buf: &[u8], p: usize) -> (r: Result<(Message, usize), DecodeError>)
    requires
        p <= buf@.len(),
    ensures
        match spec_dec_proxy_config(buf@.skip(p as int)) {
            Ok((v, c)) => r matches Ok((m, end)) && m@ == v && end == p + c,
            Err(e) => r == Err::<(Message, usize), DecodeError>(e),
        },
        r matches Ok(rp) ==> p <= rp.1 <= buf@.len(),
{
    let ghost t = buf@.skip(p as int);
    proof {
        reveal_with_fuel(pow256, 3);
        assert(pow256(2) == 65536);
    }
    match dec_str(buf, p) {
        Err(e) => Err(e),
        Ok((local_ip, p2)) => {
            proof { assert(t.skip(p2 - p) =~= buf@.skip(p2 as int)); }
            match dec_le(buf, p2, 2) {
                Err(e) => Err(e),
                Ok((lp, p3)) => {
                    proof {
                        assert(t.skip(p3 - p) =~= buf@.skip(p3 as int));
                    }
                    match dec_le(buf, p3, 2) {
                        Err(e) => Err(e),
                        Ok((rp, p4)) => {
                            proof {
                                // both ports are two bytes, so the casts keep
                                // their values
                                assert(lp < 65536 && rp < 65536);
                            }
                            Ok((
                                Message::ProxyConfig {
                                    local_ip,
                                    local_port: lp as u16,
                                    remote_port: rp as u16,
                                },
                                p4,
                            ))
                        },
                    }
                },
            }
        },
    }
}

/// Reads the fields of `ProxyConfigResponse` starting at `p`.
fn dec_fields_proxy_config_response(buf: &[u8], p: usize)
    -> (r: Result<(Message, usize), DecodeError>)
    requires
        p <= buf@.len(),
    ensures
        match spec_dec_proxy_config_response(buf@.skip(p as int)) {
            Ok((v, c)) => r matches Ok((m, end)) && m@ == v && end == p + c,
            Err(e) => r == Err::<(Message, usize), DecodeError>(e),
        },
        r matches Ok(rp) ==> p <= rp.1 <= buf@.len(),
{
    let ghost t = buf@.skip(p as int);
    match dec_bool(buf, p) {
        Err(e) => Err(e),
        Ok((success, p2)) => {
            proof { assert(t.skip(p2 - p) =~= buf@.skip(p2 as int)); }
            match dec_opt_str(buf, p2) {
                Err(e) => Err(e),
                Ok((proxy_id, p3)) => {
                    proof { assert(t.skip(p3 - p) =~= buf@.skip(p3 as int)); }
                    match dec_opt_str(buf, p3) {
                        Err(e) => Err(e),
                        Ok((error, p4)) => Ok((
                            Message::ProxyConfigResponse { success, proxy_id, error },
                            p4,
                        )),
                    }
                },
            }
        },
    }
}

/// Reads the fields of `NewConnection` starting at `p`.
fn dec_fields_new_connection(buf: &[u8], p: usize) -> (r: Result<(Message, usize), DecodeError>)
    requires
        p <= buf@.len(),
    ensures
        match spec_dec_new_connection(buf@.skip(p as int)) {
            Ok((v, c)) => r matches Ok((m, end)) && m@ == v && end == p + c,
            Err(e) => r == Err::<(Message, usize), DecodeError>(e),
        },
        r matches Ok(rp) ==> p <= rp.1 <= buf@.len(),
{
    let ghost t = buf@.skip(p as int);
    match dec_str(buf, p) {
        Err(e) => Err(e),
        Ok((proxy_id, p2)) => {
            proof { assert(t.skip(p2 - p) =~= buf@.skip(p2 as int)); }
            match dec_str(buf, p2) {
                Err(e) => Err(e),
                Ok((connection_id, p3)) => Ok((
                    Message::NewConnection { proxy_id, connection_id },
                    p3,
                )),
            }
        },
    }
}

/// Reads the fields of `ConnectionResponse` starting at `p`.
fn dec_fields_connection_response(buf: &[u8], p: usize)
    -> (r: Result<(Message, usize), DecodeError>)
    requires
        p <= buf@.len(),
    ensures
        match spec_dec_connection_response(buf@.skip(p as int)) {
            Ok((v, c)) => r matches Ok((m, end)) && m@ == v && end == p + c,
            Err(e) => r == Err::<(Message, usize), DecodeError>(e),
        },
        r matches Ok(rp) ==> p <= rp.1 <= buf@.len(),
{
    let ghost t = buf@.skip(p as int);
    match dec_str(buf, p) {
        Err(e) => Err(e),
        Ok((connection_id, p2)) => {
            proof { assert(t.skip(p2 - p) =~= buf@.skip(p2 as int)); }
            match dec_bool(buf, p2) {
                Err(e) => Err(e),
                Ok((success, p3)) => {
                    proof { assert(t.skip(p3 - p) =~= buf@.skip(p3 as int)); }
                    match dec_opt_str(buf, p3) {
                        Err(e) => Err(e),
                        Ok((error, p4)) => Ok((
                            Message::ConnectionResponse { connection_id, success, error },
                            p4,
                        )),
                    }
                },
            }
        },
    }
}

/// Reads the fields of `Data` starting at `p`.
fn dec_fields_data(buf: &[u8], p: usize) -> (r: Result<(Message, usize), DecodeError>)
    requires
        p <= buf@.len(),
    ensures
        match spec_dec_data(buf@.skip(p as int)) {
            Ok((v, c)) => r matches Ok((m, end)) && m@ == v && end == p + c,
            Err(e) => r == Err::<(Message, usize), DecodeError>(e),
        },
        r matches Ok(rp) ==> p <= rp.1 <= buf@.len(),
{
    let ghost t = buf@.skip(p as int);
    match dec_str(buf, p) {
        Err(e) => Err(e),
        Ok((connection_id, p2)) => {
            proof { assert(t.skip(p2 - p) =~= buf@.skip(p2 as int)); }
            match dec_bytes(buf, p2) {
                Err(e) => Err(e),
                Ok((data, p3)) => Ok((Message::Data { connection_id, data }, p3)),
            }
        },
    }
}

/// Decodes one message at `pos`; returns the message and the position after
/// it, exactly as `spec_dec_msg` of the suffix says.
pub fn decode_message(buf: &[u8], pos: usize) -> (r: Result<(Message, usize), DecodeError>)
    requires
        pos <= buf@.len(),
    ensures
        match spec_dec_msg(buf@.skip(pos as int)) {
            Ok((v, c)) => r matches Ok((m, end)) && m@ == v && end == pos + c,
            Err(e) => r == Err::<(Message, usize), DecodeError>(e),
        },
        r matches Ok(p) ==> pos < p.1 <= buf@.len(),
{
    let ghost s = buf@.skip(pos as int);
    if pos >= buf.len() {
        assert(s.len() == 0);
        return Err(DecodeError::Truncated);
    }
    let tag = buf[pos];
    assert(s[0] == tag);
    let p1 = pos + 1;
    proof {
        assert(s.skip(1) =~= buf@.skip(p1 as int));
    }
    if tag == 0 {
        dec_fields_auth(buf, p1)
    } else if tag == 1 {
        dec_fields_auth_response(buf, p1)
    } else if tag == 2 {
        dec_fields_proxy_config(buf, p1)
    } else if tag == 3 {
        dec_fields_proxy_config_response(buf, p1)
    } else if tag == 4 {
        match dec_le(buf, p1, 8) {
            Err(e) => Err(e),
            Ok((ts, p2)) => Ok((Message::Heartbeat { timestamp: ts }, p2)),
        }
    } else if tag == 5 {
        match dec_le(buf, p1, 8) {
            Err(e) => Err(e),
            Ok((ts, p2)) => Ok((Message::HeartbeatResponse { timestamp: ts }, p2)),
        }
    } else if tag == 6 {
        dec_fields_new_connection(buf, p1)
    } else if tag == 7 {
        dec_fields_connection_response(buf, p1)
    } else if tag == 8 {
        dec_fields_data(buf, p1)
    } else if tag == 9 {
        match dec_str(buf, p1) {
            Err(e) => Err(e),
            Ok((connection_id, p2)) => Ok((Message::CloseConnection { connection_id }, p2)),
        }
    } else if tag == 10 {
        match dec_str(buf, p1) {
            Err(e) => Err(e),
            Ok((message, p2)) => Ok((Message::Error { message }, p2)),
        }
    } else {
        Err(DecodeError::Malformed)
    }
}

} // verus!

verus! {

#[verifier::rlimit(100)]
#[verifier::spinoff_prover]
proof fn lemma_rt_auth(
    enc_token: Seq<u8>, client_id: Seq<char>, name: Option<Seq<char>>, rest: Seq<u8>,
)
    ensures
        ({
            let v = MessageView::Auth { enc_token, client_id, name };
            spec_dec_msg(spec_enc_msg(v) + rest)
                == Ok::<(MessageView, int), DecodeError>((v, spec_enc_msg(v).len() as int))
        }),
{
    let v = MessageView::Auth { enc_token, client_id, name };
    let f1 = spec_enc_bytes(enc_token);
    let f2 = spec_enc_str(client_id);
    let f3 = spec_enc_opt_str(name);
    let whole = spec_enc_msg(v) + rest;
    assert(whole[0] == 0);
    let t = whole.skip(1);
    assert(t =~= f1 + (f2 + (f3 + rest)));
    lemma_bytes_round_trip(enc_token, f2 + (f3 + rest));
    assert(t.skip(f1.len() as int) =~= f2 + (f3 + rest));
    lemma_str_round_trip(client_id, f3 + rest);
    assert(t.skip((f1.len() + f2.len()) as int) =~= f3 + rest);
    lemma_opt_str_round_trip(name, rest);
}

#[verifier::rlimit(100)]
#[verifier::spinoff_prover]
proof fn lemma_dec_auth_response_fields(
    success: bool, session_key: Option<Seq<u8>>, name: Option<Seq<char>>,
    error: Option<Seq<char>>, rest: Seq<u8>,
)
    ensures
        ({
            let f1 = spec_enc_bool(success);
            let f2 = spec_enc_opt_bytes(session_key);
            let f3 = spec_enc_opt_str(name);
            let f4 = spec_enc_opt_str(error);
            let v = MessageView::AuthResponse { success, session_key, name, error };
            spec_dec_auth_response(f1 + (f2 + (f3 + (f4 + rest))))
                == Ok::<(MessageView, int), DecodeError>((
                    v, (f1.len() + f2.len() + f3.len() + f4.len()) as int))
        }),
{
    let f1 = spec_enc_bool(success);
    let f2 = spec_enc_opt_bytes(session_key);
    let f3 = spec_enc_opt_str(name);
    let f4 = spec_enc_opt_str(error);
    let t = f1 + (f2 + (f3 + (f4 + rest)));
    lemma_bool_round_trip(success, f2 + (f3 + (f4 + rest)));
    assert(t.skip(1) =~= f2 + (f3 + (f4 + rest)));
    lemma_opt_bytes_round_trip(session_key, f3 + (f4 + rest));
    assert(t.skip((1 + f2.len()) as int) =~= f3 + (f4 + rest));
    lemma_opt_str_round_trip(name, f4 + rest);
    assert(t.skip((1 + f2.len() + f3.len()) as int) =~= f4 + rest);
    lemma_opt_str_round_trip(error, rest);
}

/// Shape of a tagged four-field encoding: the first byte is the tag and the
/// rest regroups to the right.
proof fn lemma_tag4_shape(x: u8, a: Seq<u8>, b: Seq<u8>, c: Seq<u8>, d: Seq<u8>, rest: Seq<u8>)
    ensures
        ((seq![x] + a + b + c + d) + rest)[0] == x,
        ((seq![x] + a + b + c + d) + rest).skip(1) == a + (b + (c + (d + rest))),
{
    assert(((seq![x] + a + b + c + d) + rest).skip(1) =~= a + (b + (c + (d + rest))));
}

#[verifier::rlimit(100)]
#[verifier::spinoff_prover]
proof fn lemma_rt_auth_response(
    success: bool, session_key: Option<Seq<u8>>, name: Option<Seq<char>>,
    error: Option<Seq<char>>, rest: Seq<u8>,
)
    ensures
        ({
            let v = MessageView::AuthResponse { success, session_key, name, error };
            spec_dec_msg(spec_enc_msg(v) + rest)
                == Ok::<(MessageView, int), DecodeError>((v, spec_enc_msg(v).len() as int))
        }),
{
    let v = MessageView::AuthResponse { success, session_key, name, error };
    let f1 = spec_enc_bool(success);
    let f2 = spec_enc_opt_bytes(session_key);
    let f3 = spec_enc_opt_str(name);
    let f4 = spec_enc_opt_str(error);
    lemma_tag4_shape(1u8, f1, f2, f3, f4, rest);
    lemma_dec_auth_response_fields(success, session_key, name, error, rest);
}

#[verifier::rlimit(100)]
#[verifier::spinoff_prover]
proof fn lemma_rt_proxy_config(
    local_ip: Seq<char>, local_port: u16, remote_port: u16, rest: Seq<u8>,
)
    ensures
        ({
            let v = MessageView::ProxyConfig { local_ip, local_port, remote_port };
            spec_dec_msg(spec_enc_msg(v) + rest)
                == Ok::<(MessageView, int), DecodeError>((v, spec_enc_msg(v).len() as int))
        }),
{
    let v = MessageView::ProxyConfig { local_ip, local_port, remote_port };
    let f1 = spec_enc_str(local_ip);
    let f2 = spec_enc_le(local_port as nat, 2);
    let f3 = spec_enc_le(remote_port as nat, 2);
    let whole = spec_enc_msg(v) + rest;
    assert(whole[0] == 2);
    let t = whole.skip(1);
    assert(t =~= f1 + (f2 + (f3 + rest)));
    lemma_str_round_trip(local_ip, f2 + (f3 + rest));
    reveal_with_fuel(pow256, 3);
    lemma_le_round_trip(local_port as nat, 2, f3 + rest);
    assert(t.skip(f1.len() as int) =~= f2 + (f3 + rest));
    assert(spec_dec_le(t.skip(f1.len() as int), 2)
        == Ok::<(nat, int), DecodeError>((local_port as nat, 2)));
    lemma_le_round_trip(remote_port as nat, 2, rest);
    assert(t.skip((f1.len() + 2) as int) =~= f3 + rest);
}

#[verifier::rlimit(100)]
#[verifier::spinoff_prover]
proof fn lemma_rt_proxy_config_response(
    success: bool, proxy_id: Option<Seq<char>>, error: Option<Seq<char>>, rest: Seq<u8>,
)
    ensures
        ({
            let v = MessageView::ProxyConfigResponse { success, proxy_id, error };
            spec_dec_msg(spec_enc_msg(v) + rest)
                == Ok::<(MessageView, int), DecodeError>((v, spec_enc_msg(v).len() as int))
        }),
{
    let v = MessageView::ProxyConfigResponse { success, proxy_id, error };
    let f1 = spec_enc_bool(success);
    let f2 = spec_enc_opt_str(proxy_id);
    let f3 = spec_enc_opt_str(error);
    let whole = spec_enc_msg(v) + rest;
    assert(whole[0] == 3);
    let t = whole.skip(1);
    assert(t =~= f1 + (f2 + (f3 + rest)));
    lemma_bool_round_trip(success, f2 + (f3 + rest));
    assert(t.skip(f1.len() as int) =~= f2 + (f3 + rest));
    lemma_opt_str_round_trip(proxy_id, f3 + rest);
    assert(t.skip((f1.len() + f2.len()) as int) =~= f3 + rest);
    lemma_opt_str_round_trip(error, rest);
}

#[verifier::rlimit(100)]
#[verifier::spinoff_prover]
proof fn lemma_rt_heartbeat(timestamp: u64, response: bool, rest: Seq<u8>)
    ensures
        ({
            let v = if response {
                MessageView::HeartbeatResponse { timestamp }
            } else {
                MessageView::Heartbeat { timestamp }
            };
            spec_dec_msg(spec_enc_msg(v) + rest)
                == Ok::<(MessageView, int), DecodeError>((v, spec_enc_msg(v).len() as int))
        }),
{
    let v = if response {
        MessageView::HeartbeatResponse { timestamp }
    } else {
        MessageView::Heartbeat { timestamp }
    };
    let f1 = spec_enc_le(timestamp as nat, 8);
    let whole = spec_enc_msg(v) + rest;
    assert(whole[0] == if response { 5u8 } else { 4u8 });
    let t = whole.skip(1);
    assert(t =~= f1 + rest);
    reveal_with_fuel(pow256, 9);
    lemma_le_round_trip(timestamp as nat, 8, rest);
}

#[verifier::rlimit(100)]
#[verifier::spinoff_prover]
proof fn lemma_rt_new_connection(proxy_id: Seq<char>, connection_id: Seq<char>, rest: Seq<u8>)
    ensures
        ({
            let v = MessageView::NewConnection { proxy_id, connection_id };
            spec_dec_msg(spec_enc_msg(v) + rest)
                == Ok::<(MessageView, int), DecodeError>((v, spec_enc_msg(v).len() as int))
        }),
{
    let v = MessageView::NewConnection { proxy_id, connection_id };
    let f1 = spec_enc_str(proxy_id);
    let f2 = spec_enc_str(connection_id);
    let whole = spec_enc_msg(v) + rest;
    assert(whole[0] == 6);
    let t = whole.skip(1);
    assert(t =~= f1 + (f2 + rest));
    lemma_str_round_trip(proxy_id, f2 + rest);
    assert(t.skip(f1.len() as int) =~= f2 + rest);
    lemma_str_round_trip(connection_id, rest);
}

#[verifier::rlimit(100)]
#[verifier::spinoff_prover]
proof fn lemma_rt_connection_response(
    connection_id: Seq<char>, success: bool, error: Option<Seq<char>>, rest: Seq<u8>,
)
    ensures
        ({
            let v = MessageView::ConnectionResponse { connection_id, success, error };
            spec_dec_msg(spec_enc_msg(v) + rest)
                == Ok::<(MessageView, int), DecodeError>((v, spec_enc_msg(v).len() as int))
        }),
{
    let v = MessageView::ConnectionResponse { connection_id, success, error };
    let f1 = spec_enc_str(connection_id);
    let f2 = spec_enc_bool(success);
    let f3 = spec_enc_opt_str(error);
    let whole = spec_enc_msg(v) + rest;
    assert(whole[0] == 7);
    let t = whole.skip(1);
    assert(t =~= f1 + (f2 + (f3 + rest)));
    lemma_str_round_trip(connection_id, f2 + (f3 + rest));
    assert(t.skip(f1.len() as int) =~= f2 + (f3 + rest));
    lemma_bool_round_trip(success, f3 + rest);
    assert(t.skip((f1.len() + f2.len()) as int) =~= f3 + rest);
    lemma_opt_str_round_trip(error, rest);
}

#[verifier::rlimit(100)]
#[verifier::spinoff_prover]
proof fn lemma_rt_data(connection_id: Seq<char>, data: Seq<u8>, rest: Seq<u8>)
    ensures
        ({
            let v = MessageView::Data { connection_id, data };
            spec_dec_msg(spec_enc_msg(v) + rest)
                == Ok::<(MessageView, int), DecodeError>((v, spec_enc_msg(v).len() as int))
        }),
{
    let v = MessageView::Data { connection_id, data };
    let f1 = spec_enc_str(connection_id);
    let f2 = spec_enc_bytes(data);
    let whole = spec_enc_msg(v) + rest;
    assert(whole[0] == 8);
    let t = whole.skip(1);
    assert(t =~= f1 + (f2 + rest));
    lemma_str_round_trip(connection_id, f2 + rest);
    assert(t.skip(f1.len() as int) =~= f2 + rest);
    lemma_bytes_round_trip(data, rest);
}

#[verifier::rlimit(100)]
#[verifier::spinoff_prover]
proof fn lemma_rt_one_string(tag: u8, text: Seq<char>, rest: Seq<u8>)
    requires
        tag == 9 || tag == 10,
    ensures
        ({
            let v = if tag == 9 {
                MessageView::CloseConnection { connection_id: text }
            } else {
                MessageView::Error { message: text }
            };
            spec_dec_msg(spec_enc_msg(v) + rest)
                == Ok::<(MessageView, int), DecodeError>((v, spec_enc_msg(v).len() as int))
        }),
{
    let v = if tag == 9 {
        MessageView::CloseConnection { connection_id: text }
    } else {
        MessageView::Error { message: text }
    };
    let f1 = spec_enc_str(text);
    let whole = spec_enc_msg(v) + rest;
    assert(whole[0] == tag);
    let t = whole.skip(1);
    assert(t =~= f1 + rest);
    lemma_str_round_trip(text, rest);
}

/// Decoding inverts encoding: for every message value, decoding its encoding
/// returns the same value and consumes exactly the encoding, whatever bytes
/// follow it.
#[verifier::rlimit(100)]
#[verifier::spinoff_prover]
pub proof fn lemma_msg_round_trip(v: MessageView, rest: Seq<u8>)
    ensures
        spec_dec_msg(spec_enc_msg(v) + rest)
            == Ok::<(MessageView, int), DecodeError>((v, spec_enc_msg(v).len() as int)),
{
    match v {
        MessageView::Auth { enc_token, client_id, name } =>
            lemma_rt_auth(enc_token, client_id, name, rest),
        MessageView::AuthResponse { success, session_key, name, error } =>
            lemma_rt_auth_response(success, session_key, name, error, rest),
        MessageView::ProxyConfig { local_ip, local_port, remote_port } =>
            lemma_rt_proxy_config(local_ip, local_port, remote_port, rest),
        MessageView::ProxyConfigResponse { success, proxy_id, error } =>
            lemma_rt_proxy_config_response(success, proxy_id, error, rest),
        MessageView::Heartbeat { timestamp } => lemma_rt_heartbeat(timestamp, false, rest),
        MessageView::HeartbeatResponse { timestamp } =>
            lemma_rt_heartbeat(timestamp, true, rest),
        MessageView::NewConnection { proxy_id, connection_id } =>
            lemma_rt_new_connection(proxy_id, connection_id, rest),
        MessageView::ConnectionResponse { connection_id, success, error } =>
            lemma_rt_connection_response(connection_id, success, error, rest),
        MessageView::Data { connection_id, data } => lemma_rt_data(connection_id, data, rest),
        MessageView::CloseConnection { connection_id } =>
            lemma_rt_one_string(9, connection_id, rest),
        MessageView::Error { message } => lemma_rt_one_string(10, message, rest),
    }
}

} // verus!

verus! {

/// An error from framing a message for the wire.
#[derive(Debug, Clone, Copy, PartialEq, Eq, Structural)]
pub enum EncodeError {
    /// The encoded payload does not fit the 4-byte length prefix.
    Oversize,
}

/// Frame format for message serialization: a 4-byte big-endian payload
/// length, then the payload.
#[derive(Debug)]
pub struct Frame {
    pub length: u32,
    pub message: Message,
}

/// The bytes of a full frame for one message.
pub open spec fn spec_frame_bytes(m: MessageView) -> Seq<u8> {
    spec_enc_be32(spec_enc_msg(m).len()) + spec_enc_msg(m)
}

/// Total decoder for a frame: the message, the payload length, and the count
/// of bytes consumed.
pub open spec fn spec_dec_frame(s: Seq<u8>) -> Result<(MessageView, nat, int), DecodeError> {
    match spec_dec_be32(s) {
        Err(e) => Err(e),
        Ok((l, _)) => if s.len() < 4 + l {
            Err(DecodeError::Truncated)
        } else {
            match spec_dec_msg(s.subrange(4, 4 + l as int)) {
                Err(e) => Err(e),
                Ok((m, _)) => Ok((m, l, 4 + l as int)),
            }
        },
    }
}

/// A serialized frame deserializes to the message it was built from,
/// whatever bytes follow it on the wire.
#[verifier::rlimit(100)]
#[verifier::spinoff_prover]
pub proof fn lemma_frame_round_trip(m: MessageView, rest: Seq<u8>)
    requires
        spec_enc_msg(m).len() <= u32::MAX,
    ensures
        spec_dec_frame(spec_frame_bytes(m) + rest)
            == Ok::<(MessageView, nat, int), DecodeError>((
                m, spec_enc_msg(m).len(), 4 + spec_enc_msg(m).len() as int)),
{
    let enc = spec_enc_msg(m);
    let whole = spec_frame_bytes(m) + rest;
    reveal_with_fuel(pow256, 5);
    lemma_be32_round_trip(enc.len(), enc + rest);
    assert(whole =~= spec_enc_be32(enc.len()) + (enc + rest));
    assert(whole.subrange(4, 4 + enc.len() as int) =~= enc + Seq::<u8>::empty());
    lemma_msg_round_trip(m, Seq::empty());
}

impl Frame {
    /// Wraps a message; the length is filled in when serializing.
    pub fn new(message: Message) -> (r: Frame)
        ensures
            r.length == 0,
            r.message == message,
    {
        Frame { length: 0, message }
    }

    /// Serializes the frame: 4-byte big-endian payload length, then the
    /// encoded message. Fails exactly when the payload is longer than the
    /// length prefix can say.
    pub fn serialize(&self) -> (r: Result<Vec<u8>, EncodeError>)
        ensures
            spec_enc_msg(self.message@).len() <= u32::MAX
                ==> (r matches Ok(out) && out@ == spec_frame_bytes(self.message@)),
            spec_enc_msg(self.message@).len() > u32::MAX
                ==> r == Err::<Vec<u8>, EncodeError>(EncodeError::Oversize),
    {
        let payload = encode_message(&self.message);
        if payload.len() > u32::MAX as usize {
            return Err(EncodeError::Oversize);
        }
        let mut out: Vec<u8> = Vec::new();
        enc_be32_append(&mut out, payload.len() as u32);
        let ghost header = out@;
        let mut p = payload;
        let ghost payload_view = p@;
        out.append(&mut p);
        proof {
            assert(out@ =~= header + payload_view);
        }
        Ok(out)
    }

    /// Reads one frame from the start of `data`: the frame and the count of
    /// bytes consumed, exactly as `spec_dec_frame` says.
    pub fn deserialize(data: &[u8]) -> (r: Result<(Frame, usize), DecodeError>)
        ensures
            match spec_dec_frame(data@) {
                Ok((m, l, c)) => r matches Ok((f, consumed)) && f.message@ == m
                    && f.length == l && consumed == c,
                Err(e) => r == Err::<(Frame, usize), DecodeError>(e),
            },
            r matches Ok(p) ==> p.1 <= data@.len(),
    {
        proof {
            assert(data@.skip(0) =~= data@);
        }
        match dec_be32(data, 0) {
            Err(e) => Err(e),
            Ok((l, _after)) => {
                let l_us = l as usize;
                if data.len() - 4 < l_us {
                    return Err(DecodeError::Truncated);
                }
                let payload: &[u8] = &data[4..4 + l_us];
                proof {
                    assert(payload@.skip(0) =~= data@.subrange(4, 4 + l as int));
                }
                match decode_message(payload, 0) {
                    Err(e) => Err(e),
                    Ok((message, _consumed)) => Ok((
                        Frame { length: l, message },
                        4 + l_us,
                    )),
                }
            },
        }
    }
}

/// Seconds of the system clock since the Unix epoch; zero if the clock reads
/// earlier than the epoch.
///
/// Relies on std::time's `SystemTime::now` and `duration_since`. Nothing is
/// assumed of the value.
#[verifier::external_body]
fn unix_now_secs() -> u64 {
    match std::time::SystemTime::now().duration_since(std::time::UNIX_EPOCH) {
        Ok(d) => d.as_secs(),
        Err(_) => 0,
    }
}

impl Message {
    /// Builds an authentication request: the salted token hash, the client
    /// id, and an optional client name.
    pub fn new_auth(token: &str, client_id: &str, name: Option<String>) -> (r: Message)
        ensures
            r@ == (MessageView::Auth {
                enc_token: sha256_of(
                    vstd::utf8::encode_utf8(token@) + spec_magic_salt()),
                client_id: client_id@,
                name: view_opt_str(name),
            }),
    {
        let salt = magic_salt();
        Message::Auth {
            enc_token: sha256_with_salt(token.as_bytes(), salt.as_slice()),
            client_id: client_id.to_owned(),
            name,
        }
    }

    /// Builds a heartbeat carrying the current Unix time in seconds.
    pub fn new_heartbeat() -> (r: Message)
        ensures
            r@ is Heartbeat,
    {
        Message::Heartbeat { timestamp: unix_now_secs() }
    }

    /// Builds a data message for one logical stream.
    pub fn new_data(connection_id: &str, data: Vec<u8>) -> (r: Message)
        ensures
            r@ == (MessageView::Data { connection_id: connection_id@, data: data@ }),
    {
        Message::Data { connection_id: connection_id.to_owned(), data }
    }

    /// Builds a close notice for one logical stream.
    pub fn new_close_connection(connection_id: &str) -> (r: Message)
        ensures
            r@ == (MessageView::CloseConnection { connection_id: connection_id@ }),
    {
        Message::CloseConnection { connection_id: connection_id.to_owned() }
    }
}

} // verus!
