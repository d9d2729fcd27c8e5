//! Runtime configuration for the two roles, and the parsing and merging
//! rules that produce it: the `local_ip:local_port:remote_port` service
//! grammar, defaults, and how command-line values override file values.

use vstd::prelude::*;

verus! {

/// An error in configuration input.
#[derive(Debug, Clone, Copy, PartialEq, Eq, Structural)]
pub enum ConfigError {
    /// A service string does not have exactly three colon-separated fields.
    InvalidServiceFormat,
    /// A port field is not a decimal number up to 65535.
    InvalidPort,
    /// No token was given on the command line or in the file.
    MissingToken,
}

/// Main configuration structure that can contain either server or client
/// configuration.
#[derive(Debug, Clone)]
pub struct Config {
    pub server: Option<ServerConfig>,
    pub client: Option<ClientConfig>,
}

/// Configuration for server mode operation.
#[derive(Debug, Clone)]
pub struct ServerConfig {
    /// Server name for humans to identify; not unique.
    pub name: Option<String>,
    /// Address the control listener binds.
    pub listen_addr: String,
    /// Host that public service listeners bind.
    pub bind_host: String,
    /// Shared secret for authentication and key derivation.
    pub token: String,
    /// Upper bound on concurrently connected clients.
    pub max_clients: usize,
    /// Log file path.
    pub log_file: Option<String>,
}

/// Configuration for client mode operation.
#[derive(Debug, Clone)]
pub struct ClientConfig {
    /// Client name for humans to identify; not unique.
    pub name: Option<String>,
    /// Server addresses to connect to.
    pub servers: Vec<String>,
    /// Shared secret for authentication and key derivation.
    pub token: String,
    /// Services to publish to every server.
    pub services: Vec<ServiceConfig>,
    /// Seconds between reconnect attempts.
    pub reconnect_interval: u64,
    /// Seconds between heartbeats.
    pub heartbeat_interval: u64,
    /// Log file path.
    pub log_file: Option<String>,
}

/// One service to forward: where it lives locally and which public port
/// exposes it.
#[derive(Debug, Clone)]
pub struct ServiceConfig {
    pub name: String,
    pub local_ip: String,
    pub local_port: u16,
    pub remote_port: u16,
}

impl Default for ServerConfig {
    /// Listens on every interface, port 7000; the token must be provided.
    fn default() -> (r: Self)
        ensures
            r.name is None,
            r.listen_addr@ == "0.0.0.0:7000"@,
            r.bind_host@ == "0.0.0.0"@,
            r.token@ == Seq::<char>::empty(),
            r.max_clients == 100,
            r.log_file is None,
    {
        ServerConfig {
            name: None,
            listen_addr: "0.0.0.0:7000".to_owned(),
            bind_host: "0.0.0.0".to_owned(),
            token: String::new(),
            max_clients: 100,
            log_file: None,
        }
    }
}

impl Default for ClientConfig {
    /// No servers and no services; the token and at least one server must
    /// be provided.
    fn default() -> (r: Self)
        ensures
            r.name is None,
            r.servers@ == Seq::<String>::empty(),
            r.token@ == Seq::<char>::empty(),
            r.services@ == Seq::<ServiceConfig>::empty(),
            r.reconnect_interval == 5,
            r.heartbeat_interval == 30,
            r.log_file is None,
    {
        ClientConfig {
            name: None,
            servers: Vec::new(),
            token: String::new(),
            services: Vec::new(),
            reconnect_interval: 5,
            heartbeat_interval: 30,
            log_file: None,
        }
    }
}

// ---------------------------------------------------------------------------
// The service-string grammar
// ---------------------------------------------------------------------------

/// `p1` and `p2` are the positions of the only two colons in `s`.
pub open spec fn is_colon_pair(s: Seq<char>, p1: int, p2: int) -> bool {
    &&& 0 <= p1 < p2 < s.len()
    &&& s[p1] == ':'
    &&& s[p2] == ':'
    &&& forall|j: int| 0 <= j < s.len() && j != p1 && j != p2 ==> s[j] != ':'
}

/// Every character is a decimal digit and there is at least one.
pub open spec fn all_digits(s: Seq<char>) -> bool {
    s.len() > 0 && forall|i: int| 0 <= i < s.len() ==> 48 <= #[trigger] (s[i] as u32) <= 57
}

/// The decimal value of a digit string.
pub open spec fn spec_dec_val(s: Seq<char>) -> nat
    decreases s.len(),
{
    if s.len() == 0 {
        0
    } else {
        (spec_dec_val(s.drop_last()) * 10 + (s.last() as u32 - 48)) as nat
    }
}

/// A digit string naming a port: decimal, at most 65535.
pub open spec fn is_port(s: Seq<char>) -> bool {
    all_digits(s) && spec_dec_val(s) <= 65535
}

/// A prefix of a digit string never exceeds the whole string's value.
proof fn lemma_dec_val_prefix(s: Seq<char>, i: int)
    requires
        0 <= i <= s.len(),
        forall|j: int| 0 <= j < s.len() ==> 48 <= #[trigger] (s[j] as u32) <= 57,
    ensures
        spec_dec_val(s.take(i)) <= spec_dec_val(s),
    decreases s.len() - i,
{
    if i < s.len() {
        lemma_dec_val_prefix(s, i + 1);
        assert(s.take(i + 1).drop_last() =~= s.take(i));
        assert(s.take(i + 1).last() == s[i]);
        assert(spec_dec_val(s.take(i + 1)) == spec_dec_val(s.take(i)) * 10
            + (s.take(i + 1).last() as u32 - 48));
    } else {
        assert(s.take(i) =~= s);
    }
}

/// Reads a decimal port number; fails on a non-digit, an empty string, or a
/// value above 65535.
fn parse_port(seg: &str) -> (r: Result<u16, ConfigError>)
    ensures
        is_port(seg@) ==> r == Ok::<u16, ConfigError>((spec_dec_val(seg@) as u16)),
        !is_port(seg@) ==> r == Err::<u16, ConfigError>(ConfigError::InvalidPort),
{
    let n = seg.unicode_len();
    if n == 0 {
        return Err(ConfigError::InvalidPort);
    }
    let mut i: usize = 0;
    let mut val: u32 = 0;
    while i < n
        invariant
            0 <= i <= n,
            n == seg@.len(),
            val <= 65535,
            val as nat == spec_dec_val(seg@.take(i as int)),
            forall|j: int| 0 <= j < i ==> 48 <= #[trigger] (seg@[j] as u32) <= 57,
        decreases n - i,
    {
        let c = seg.get_char(i);
        let d = c as u32;
        if d < 48 || d > 57 {
            return Err(ConfigError::InvalidPort);
        }
        let next = val * 10 + (d - 48);
        proof {
            assert(seg@.take(i as int + 1).drop_last() =~= seg@.take(i as int));
            assert(spec_dec_val(seg@.take(i as int + 1)) == next as nat);
        }
        if next > 65535 {
            proof {
                if all_digits(seg@) {
                    lemma_dec_val_prefix(seg@, i as int + 1);
                }
            }
            return Err(ConfigError::InvalidPort);
        }
        val = next;
        i = i + 1;
    }
    proof {
        assert(seg@.take(n as int) =~= seg@);
    }
    Ok(val as u16)
}

/// The string has exactly two colons and both port fields are decimal
/// numbers at most 65535.
pub open spec fn parseable_service(s: Seq<char>) -> bool {
    exists|p1: int, p2: int| #[trigger] is_colon_pair(s, p1, p2)
        && is_port(s.subrange(p1 + 1, p2))
        && is_port(s.subrange(p2 + 1, s.len() as int))
}

/// `cfg` is what parsing the service string `s` yields: the text before the
/// first colon as the local address, the two port fields read as decimal,
/// and the whole string kept as the name.
pub open spec fn service_of(s: Seq<char>, cfg: ServiceConfig) -> bool {
    exists|p1: int, p2: int|
        {
            &&& #[trigger] is_colon_pair(s, p1, p2)
            &&& cfg.name@ == s
            &&& cfg.local_ip@ == s.subrange(0, p1)
            &&& is_port(s.subrange(p1 + 1, p2))
            &&& cfg.local_port == spec_dec_val(s.subrange(p1 + 1, p2))
            &&& is_port(s.subrange(p2 + 1, s.len() as int))
            &&& cfg.remote_port == spec_dec_val(s.subrange(p2 + 1, s.len() as int))
        }
}

impl ServiceConfig {
    /// Parses `local_ip:local_port:remote_port`: exactly three
    /// colon-separated fields, ports decimal and at most 65535.
    pub fn parse(service_str: &str) -> (r: Result<ServiceConfig, ConfigError>)
        ensures
            r matches Ok(cfg) ==> service_of(service_str@, cfg),
            (forall|p1: int, p2: int| !is_colon_pair(service_str@, p1, p2))
                ==> r == Err::<ServiceConfig, ConfigError>(ConfigError::InvalidServiceFormat),
            forall|p1: int, p2: int| is_colon_pair(service_str@, p1, p2)
                && !(is_port(service_str@.subrange(p1 + 1, p2))
                    && is_port(service_str@.subrange(p2 + 1, service_str@.len() as int)))
                ==> r == Err::<ServiceConfig, ConfigError>(ConfigError::InvalidPort),
            forall|p1: int, p2: int| is_colon_pair(service_str@, p1, p2)
                && is_port(service_str@.subrange(p1 + 1, p2))
                && is_port(service_str@.subrange(p2 + 1, service_str@.len() as int))
                ==> r is Ok,
    {
        let ghost s = service_str@;
        let n = service_str.unicode_len();
        let mut i: usize = 0;
        let mut count: usize = 0;
        let mut c1: usize = 0;
        let mut c2: usize = 0;
        while i < n
            invariant
                0 <= i <= n,
                n == s.len(),
                s == service_str@,
                count <= 2,
                count == 0 ==> forall|j: int| 0 <= j < i ==> s[j] != ':',
                count >= 1 ==> c1 < i && s[c1 as int] == ':',
                count == 1 ==> forall|j: int| 0 <= j < i && j != c1 ==> s[j] != ':',
                count == 2 ==> c1 < c2 < i && s[c2 as int] == ':',
                count == 2 ==> forall|j: int| 0 <= j < i && j != c1 && j != c2 ==> s[j] != ':',
            decreases n - i,
        {
            let c = service_str.get_char(i);
            if c == ':' {
                if count == 0 {
                    c1 = i;
                } else if count == 1 {
                    c2 = i;
                } else {
                    // a third colon: no two-colon split exists
                    return Err(ConfigError::InvalidServiceFormat);
                }
                count = count + 1;
            }
            i = i + 1;
        }
        if count != 2 {
            return Err(ConfigError::InvalidServiceFormat);
        }
        proof {
            assert(is_colon_pair(s, c1 as int, c2 as int));
        }
        let local_port = match parse_port(service_str.substring_char(c1 + 1, c2)) {
            Ok(p) => p,
            Err(e) => {
                return Err(e);
            },
        };
        let remote_port = match parse_port(service_str.substring_char(c2 + 1, n)) {
            Ok(p) => p,
            Err(e) => {
                return Err(e);
            },
        };
        let cfg = ServiceConfig {
            name: service_str.to_owned(),
            local_ip: service_str.substring_char(0, c1).to_owned(),
            local_port,
            remote_port,
        };
        proof {
            assert(is_colon_pair(s, c1 as int, c2 as int)
                && cfg.name@ == s
                && cfg.local_ip@ == s.subrange(0, c1 as int)
                && is_port(s.subrange(c1 as int + 1, c2 as int))
                && cfg.local_port == spec_dec_val(s.subrange(c1 as int + 1, c2 as int))
                && is_port(s.subrange(c2 as int + 1, s.len() as int))
                && cfg.remote_port == spec_dec_val(s.subrange(c2 as int + 1, s.len() as int)));
        }
        Ok(cfg)
    }

    /// Parses a service given on the command line; the same grammar as
    /// `parse`.
    pub fn parse_cli(service_str: &str) -> (r: Result<ServiceConfig, ConfigError>)
        ensures
            r matches Ok(cfg) ==> service_of(service_str@, cfg),
            (forall|p1: int, p2: int| !is_colon_pair(service_str@, p1, p2))
                ==> r == Err::<ServiceConfig, ConfigError>(ConfigError::InvalidServiceFormat),
            forall|p1: int, p2: int| is_colon_pair(service_str@, p1, p2)
                && !(is_port(service_str@.subrange(p1 + 1, p2))
                    && is_port(service_str@.subrange(p2 + 1, service_str@.len() as int)))
                ==> r == Err::<ServiceConfig, ConfigError>(ConfigError::InvalidPort),
            forall|p1: int, p2: int| is_colon_pair(service_str@, p1, p2)
                && is_port(service_str@.subrange(p1 + 1, p2))
                && is_port(service_str@.subrange(p2 + 1, service_str@.len() as int))
                ==> r is Ok,
    {
        ServiceConfig::parse(service_str)
    }
}

/// Parses every service string; fails on the first bad one.
pub fn parse_services(service_strs: &Vec<String>) -> (r: Result<Vec<ServiceConfig>, ConfigError>)
    ensures
        r matches Ok(v) ==> v@.len() == service_strs@.len()
            && forall|i: int| 0 <= i < v@.len()
                ==> service_of(#[trigger] service_strs@[i]@, v@[i]),
        r is Err ==> exists|i: int| 0 <= i < service_strs@.len()
            && !(#[trigger] parseable_service(service_strs@[i]@)),
{
    let mut out: Vec<ServiceConfig> = Vec::new();
    let mut i: usize = 0;
    while i < service_strs.len()
        invariant
            0 <= i <= service_strs@.len(),
            out@.len() == i,
            forall|j: int| 0 <= j < i ==> service_of(#[trigger] service_strs@[j]@, out@[j]),
        decreases service_strs@.len() - i,
    {
        match ServiceConfig::parse(service_strs[i].as_str()) {
            Ok(cfg) => {
                out.push(cfg);
            },
            Err(e) => {
                proof {
                    assert(!parseable_service(service_strs@[i as int]@));
                }
                return Err(e);
            },
        }
        i = i + 1;
    }
    Ok(out)
}

} // verus!

verus! {

/// The view of an optional string, used to state which value wins a merge.
pub open spec fn opt_text(o: Option<String>) -> Option<Seq<char>> {
    match o {
        Option::None => Option::None,
        Option::Some(s) => Option::Some(s@),
    }
}

/// Applies command-line overrides to a server configuration read from a
/// file or defaulted: each given value replaces the base value, and a token
/// must be present somewhere.
pub fn resolve_server_config(
    base: ServerConfig,
    address: Option<String>,
    bind: Option<String>,
    token: Option<String>,
    name: Option<String>,
    log_file: Option<String>,
) -> (r: Result<ServerConfig, ConfigError>)
    ensures
        token is None && base.token@.len() == 0 ==> r == Err::<ServerConfig, ConfigError>(
            ConfigError::MissingToken),
        token is Some || base.token@.len() > 0 ==> (r matches Ok(c)
            && c.listen_addr@ == (match address {
                Option::Some(a) => a@,
                Option::None => base.listen_addr@,
            })
            && c.bind_host@ == (match bind {
                Option::Some(b) => b@,
                Option::None => base.bind_host@,
            })
            && c.token@ == (match token {
                Option::Some(t) => t@,
                Option::None => base.token@,
            })
            && opt_text(c.name) == (match name {
                Option::Some(n) => Option::Some(n@),
                Option::None => opt_text(base.name),
            })
            && opt_text(c.log_file) == (match log_file {
                Option::Some(l) => Option::Some(l@),
                Option::None => opt_text(base.log_file),
            })
            && c.max_clients == base.max_clients),
{
    let mut cfg = base;
    if let Some(a) = address {
        cfg.listen_addr = a;
    }
    if let Some(b) = bind {
        cfg.bind_host = b;
    }
    match token {
        Some(t) => {
            cfg.token = t;
        },
        None => {
            if cfg.token.as_str().is_empty() {
                return Err(ConfigError::MissingToken);
            }
        },
    }
    if let Some(n) = name {
        cfg.name = Some(n);
    }
    if let Some(l) = log_file {
        cfg.log_file = Some(l);
    }
    Ok(cfg)
}

/// Applies command-line overrides to a client configuration: a non-empty
/// server list replaces the base list, given service strings are parsed and
/// replace the base services, and a token must be present somewhere. The
/// token is checked before the services are parsed.
pub fn resolve_client_config(
    base: ClientConfig,
    servers: Vec<String>,
    token: Option<String>,
    service_strs: &Vec<String>,
    name: Option<String>,
    log_file: Option<String>,
) -> (r: Result<ClientConfig, ConfigError>)
    ensures
        token is None && base.token@.len() == 0 ==> r == Err::<ClientConfig, ConfigError>(
            ConfigError::MissingToken),
        (token is Some || base.token@.len() > 0) && r is Err
            ==> service_strs@.len() > 0 && exists|i: int| 0 <= i < service_strs@.len()
                && !(#[trigger] parseable_service(service_strs@[i]@)),
        r matches Ok(c) ==> {
            &&& (token is Some || base.token@.len() > 0)
            &&& c.servers@ == (if servers@.len() > 0 { servers@ } else { base.servers@ })
            &&& c.token@ == (match token {
                Option::Some(t) => t@,
                Option::None => base.token@,
            })
            &&& (service_strs@.len() == 0 ==> c.services@ == base.services@)
            &&& (service_strs@.len() > 0 ==> c.services@.len() == service_strs@.len()
                && forall|i: int| 0 <= i < c.services@.len()
                    ==> service_of(#[trigger] service_strs@[i]@, c.services@[i]))
            &&& opt_text(c.name) == (match name {
                Option::Some(n) => Option::Some(n@),
                Option::None => opt_text(base.name),
            })
            &&& opt_text(c.log_file) == (match log_file {
                Option::Some(l) => Option::Some(l@),
                Option::None => opt_text(base.log_file),
            })
            &&& c.reconnect_interval == base.reconnect_interval
            &&& c.heartbeat_interval == base.heartbeat_interval
        },
{
    let mut cfg = base;
    if servers.len() > 0 {
        cfg.servers = servers;
    }
    match token {
        Some(t) => {
            cfg.token = t;
        },
        None => {
            if cfg.token.as_str().is_empty() {
                return Err(ConfigError::MissingToken);
            }
        },
    }
    if service_strs.len() > 0 {
        match parse_services(service_strs) {
            Ok(services) => {
                cfg.services = services;
            },
            Err(e) => {
                return Err(e);
            },
        }
    }
    if let Some(n) = name {
        cfg.name = Some(n);
    }
    if let Some(l) = log_file {
        cfg.log_file = Some(l);
    }
    Ok(cfg)
}

} // verus!
