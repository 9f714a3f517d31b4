//! The client's configuration: its records, and the rules a loaded value
//! has to meet.

use crate::net::frame::{byte_len, PSK_LIMIT};
use std::collections::HashMap;
use vstd::prelude::*;
use vstd::std_specs::hash::group_hash_axioms;
use vstd::string::StringExecFns;

verus! {

/// The MTU that a configuration without one gets.
pub const DEFAULT_MTU: u16 = 1500;

/// Why a configuration is turned down.
#[derive(Clone, Copy, Debug, PartialEq, Eq, Hash, Structural)]
pub enum ConfigError {
    /// The pre-shared key is empty or longer than `PSK_LIMIT` bytes.
    InvalidPsk,
    /// The SNI name is neither a DNS name nor an IP address.
    InvalidSniName,
    /// The CA file that the configuration names does not exist.
    MissingCaFile,
}

/// How the client checks a TLS server.
#[derive(Clone, Debug, PartialEq, Eq)]
pub struct CryptoConfig {
    /// The name to ask the server for.
    pub sni_name: String,
    /// Path of a PEM file with the CA certificates to trust.
    pub ca: Option<String>,
}

/// What a `CryptoConfig` stands for.
pub struct CryptoConfigView {
    pub sni_name: Seq<char>,
    pub ca: Option<Seq<char>>,
}

impl View for CryptoConfig {
    type V = CryptoConfigView;

    open spec fn view(&self) -> CryptoConfigView {
        CryptoConfigView {
            sni_name: self.sni_name@,
            ca: match self.ca {
                Some(path) => Some(path@),
                None => None,
            },
        }
    }
}

impl CryptoConfig {
    /// A copy of this record.
    pub fn duplicate(&self) -> (copy: CryptoConfig)
        ensures
            copy@ == self@,
    {
        CryptoConfig {
            sni_name: self.sni_name.clone(),
            ca: match &self.ca {
                Some(path) => Some(path.clone()),
                None => None,
            },
        }
    }
}

/// One published port and the local service behind it.
#[derive(Clone, Debug, PartialEq, Eq)]
pub struct Tunnel {
    /// The port that the server publishes.
    pub remote_port: u16,
    /// Host of the local service.
    pub local_hostname: String,
    /// Port of the local service.
    pub local_port: u16,
    /// Set where the local service is reached over TLS.
    pub crypto: Option<CryptoConfig>,
}

/// What a `Tunnel` stands for.
pub struct TunnelView {
    pub remote_port: u16,
    pub local_hostname: Seq<char>,
    pub local_port: u16,
    pub crypto: Option<CryptoConfigView>,
}

impl View for Tunnel {
    type V = TunnelView;

    open spec fn view(&self) -> TunnelView {
        TunnelView {
            remote_port: self.remote_port,
            local_hostname: self.local_hostname@,
            local_port: self.local_port,
            crypto: match self.crypto {
                Some(c) => Some(c@),
                None => None,
            },
        }
    }
}

impl TunnelView {
    /// The name that a TLS backend is asked for: the host of the local
    /// service, where the tunnel runs over TLS.
    pub open spec fn server_name(self) -> Option<Seq<char>> {
        if self.crypto is Some {
            Some(self.local_hostname)
        } else {
            None
        }
    }
}

impl Tunnel {
    /// The name that a TLS backend is asked for: the host of the local
    /// service, where the tunnel runs over TLS, and none where it does not.
    pub fn server_name(&self) -> (name: Option<String>)
        ensures
            name is Some <==> self@.server_name() is Some,
            name matches Some(n) ==> self@.server_name() == Some(n@),
    {
        match &self.crypto {
            Some(_) => Some(self.local_hostname.clone()),
            None => None,
        }
    }

    /// A copy of this record.
    pub fn duplicate(&self) -> (copy: Tunnel)
        ensures
            copy@ == self@,
    {
        Tunnel {
            remote_port: self.remote_port,
            local_hostname: self.local_hostname.clone(),
            local_port: self.local_port,
            crypto: match &self.crypto {
                Some(c) => Some(c.duplicate()),
                None => None,
            },
        }
    }
}

/// Settings of the socket under the control connection.
#[derive(Clone, Copy, Debug, PartialEq, Eq, Structural)]
pub struct TransportTimeouts {
    /// Whether the socket probes an idle peer; unset leaves the socket as
    /// the system made it.
    pub keepalive: Option<bool>,
}

/// Sizes of the queues between the client and its redirectors.
#[derive(Clone, Copy, Debug, PartialEq, Eq, Structural)]
pub struct ChannelLimits {
    /// Capacity of every queue.
    pub core: usize,
}

/// All that a client is told.
#[derive(Clone, Debug)]
pub struct Config {
    /// The pre-shared key, 1 to `PSK_LIMIT` bytes.
    pub psk: String,
    /// Host of the server.
    pub addr: String,
    /// Port of the server's control listener.
    pub port: u16,
    /// Advisory; the size of a datagram does not follow it.
    pub mtu: u16,
    /// The published ports, each with its local service.
    pub tunnels: HashMap<u16, Tunnel>,
    /// Settings of the socket under the control connection.
    pub timeouts: TransportTimeouts,
    /// Sizes of the queues.
    pub channel_limits: ChannelLimits,
    /// Set where the control connection runs over TLS.
    pub crypto: Option<CryptoConfig>,
}

/// What a `Config` stands for.
pub struct ConfigView {
    pub psk: Seq<char>,
    pub addr: Seq<char>,
    pub port: u16,
    pub mtu: u16,
    pub tunnels: Map<u16, TunnelView>,
    pub timeouts: TransportTimeouts,
    pub channel_limits: ChannelLimits,
    pub crypto: Option<CryptoConfigView>,
}

impl View for Config {
    type V = ConfigView;

    open spec fn view(&self) -> ConfigView {
        ConfigView {
            psk: self.psk@,
            addr: self.addr@,
            port: self.port,
            mtu: self.mtu,
            tunnels: self.tunnels@.map_values(|t: Tunnel| t@),
            timeouts: self.timeouts,
            channel_limits: self.channel_limits,
            crypto: match self.crypto {
                Some(c) => Some(c@),
                None => None,
            },
        }
    }
}

/// A pre-shared key is accepted where it has 1 to `PSK_LIMIT` bytes.
pub open spec fn psk_accepted(psk: Seq<char>) -> bool {
    1 <= byte_len(psk) <= PSK_LIMIT
}

/// The ports below `bound` that `published` holds, in rising order.
pub open spec fn ports_below(published: Set<u16>, bound: nat) -> Seq<u16>
    decreases bound,
{
    if bound == 0 {
        Seq::empty()
    } else {
        let lower = ports_below(published, (bound - 1) as nat);
        if published.contains((bound - 1) as u16) {
            lower.push((bound - 1) as u16)
        } else {
            lower
        }
    }
}

/// The ports of a set in rising order.
pub open spec fn rising(published: Set<u16>) -> Seq<u16> {
    ports_below(published, 0x1_0000)
}

/// `ports_below` lists exactly the ports below its bound, each once, in
/// rising order.
pub proof fn lemma_ports_below(published: Set<u16>, bound: nat)
    requires
        bound <= 0x1_0000,
    ensures
        forall|i: int|
            0 <= i < ports_below(published, bound).len() ==> published.contains(
                #[trigger] ports_below(published, bound)[i],
            ) && ports_below(published, bound)[i] < bound,
        forall|i: int, j: int|
            0 <= i < j < ports_below(published, bound).len() ==> ports_below(published, bound)[i]
                < ports_below(published, bound)[j],
        forall|p: u16|
            published.contains(p) && p < bound ==> #[trigger] ports_below(
                published,
                bound,
            ).contains(p),
    decreases bound,
{
    if bound > 0 {
        let lower = ports_below(published, (bound - 1) as nat);
        let all = ports_below(published, bound);
        lemma_ports_below(published, (bound - 1) as nat);
        assert forall|p: u16| published.contains(p) && p < bound implies #[trigger] all.contains(
            p,
        ) by {
            if p < bound - 1 {
                assert(lower.contains(p));
                let i = choose|i: int| 0 <= i < lower.len() && lower[i] == p;
                assert(all[i] == p);
            } else {
                assert(all[all.len() - 1] == p);
            }
        }
    }
}

/// The map that a list of tunnels is read as: keyed by the remote port,
/// and where a port comes twice, the later entry stands.
pub open spec fn tunnel_map(entries: Seq<Tunnel>) -> Map<u16, Tunnel>
    decreases entries.len(),
{
    if entries.len() == 0 {
        Map::empty()
    } else {
        tunnel_map(entries.drop_last()).insert(entries.last().remote_port, entries.last())
    }
}

/// `tunnel_map` holds a port exactly where an entry names it, and under it
/// the last such entry.
pub proof fn lemma_tunnel_map(entries: Seq<Tunnel>)
    ensures
        forall|p: u16| #[trigger]
            tunnel_map(entries).contains_key(p) <==> exists|i: int|
                0 <= i < entries.len() && #[trigger] entries[i].remote_port == p,
        forall|i: int|
            0 <= i < entries.len() && (forall|j: int|
                i < j < entries.len() ==> #[trigger] entries[j].remote_port
                    != entries[i].remote_port) ==> tunnel_map(entries)[#[trigger] entries[i].remote_port]
                == entries[i],
    decreases entries.len(),
{
    if entries.len() > 0 {
        let init = entries.drop_last();
        let last = entries.last();
        lemma_tunnel_map(init);
        assert forall|p: u16| #[trigger]
            tunnel_map(entries).contains_key(p) <==> exists|i: int|
                0 <= i < entries.len() && #[trigger] entries[i].remote_port == p by {
            let named = exists|i: int|
                0 <= i < entries.len() && #[trigger] entries[i].remote_port == p;
            if tunnel_map(entries).contains_key(p) {
                if p == last.remote_port {
                    assert(entries[entries.len() - 1].remote_port == p);
                } else {
                    assert(tunnel_map(init).contains_key(p));
                    let i = choose|i: int|
                        0 <= i < init.len() && #[trigger] init[i].remote_port == p;
                    assert(entries[i].remote_port == p);
                }
                assert(named);
            }
            if named {
                let i = choose|i: int|
                    0 <= i < entries.len() && #[trigger] entries[i].remote_port == p;
                if i < init.len() {
                    assert(init[i].remote_port == p);
                    assert(tunnel_map(init).contains_key(p));
                }
                assert(tunnel_map(entries).contains_key(p));
            }
        }
        assert forall|i: int|
            0 <= i < entries.len() && (forall|j: int|
                i < j < entries.len() ==> #[trigger] entries[j].remote_port
                    != entries[i].remote_port) implies tunnel_map(entries)[#[trigger] entries[i].remote_port]
            == entries[i] by {
            if i < init.len() {
                assert(entries[entries.len() - 1].remote_port != entries[i].remote_port);
                assert forall|j: int| i < j < init.len() implies #[trigger] init[j].remote_port
                    != init[i].remote_port by {
                    assert(entries[j].remote_port != entries[i].remote_port);
                }
                assert(init[i] == entries[i]);
            }
        }
    }
}

/// The MTU of a configuration that names none.
pub fn default_mtu() -> (mtu: u16)
    ensures
        mtu == DEFAULT_MTU,
{
    DEFAULT_MTU
}

/// The host of a tunnel, and the SNI name, where the configuration names none.
pub fn localhost_ipv4() -> (host: String)
    ensures
        host@ == "127.0.0.1"@,
{
    String::from_str("127.0.0.1")
}

/// Accepts a pre-shared key of 1 to `PSK_LIMIT` bytes and hands it back;
/// turns down every other.
pub fn de_psk(psk: String) -> (r: Result<String, ConfigError>)
    ensures
        psk_accepted(psk@) ==> r == Ok::<String, ConfigError>(psk),
        !psk_accepted(psk@) ==> r == Err::<String, ConfigError>(ConfigError::InvalidPsk),
{
    let n = psk.as_str().as_bytes().len();
    if n == 0 || n > PSK_LIMIT {
        Err(ConfigError::InvalidPsk)
    } else {
        Ok(psk)
    }
}

/// Whether `ServerName::try_from` of rustls-pki-types takes the text for a
/// DNS name or an IP address.
pub uninterp spec fn server_name_accepts(name: Seq<char>) -> bool;

/// Calls `rustls_pki_types::ServerName::try_from` on a copy of `name` and
/// says whether it returned `Ok`. The call parses the text and nothing else,
/// so the answer is a function of the text: `server_name_accepts`.
#[verifier::external_body]
fn server_name_parses(name: &String) -> (ok: bool)
    ensures
        ok == server_name_accepts(name@),
{
    rustls_pki_types::ServerName::try_from(name.clone()).is_ok()
}

/// Hands an SNI name back where the parser took it (`parses`), and turns it
/// down where not.
pub fn sni_name_checked(sni_name: String, parses: bool) -> (r: Result<String, ConfigError>)
    ensures
        parses ==> r == Ok::<String, ConfigError>(sni_name),
        !parses ==> r == Err::<String, ConfigError>(ConfigError::InvalidSniName),
{
    if parses {
        Ok(sni_name)
    } else {
        Err(ConfigError::InvalidSniName)
    }
}

/// Accepts an SNI name that is a DNS name or an IP address and hands it
/// back; turns down every other.
pub fn de_sni_name(sni_name: String) -> (r: Result<String, ConfigError>)
    ensures
        server_name_accepts(sni_name@) ==> r == Ok::<String, ConfigError>(sni_name),
        !server_name_accepts(sni_name@) ==> r == Err::<String, ConfigError>(
            ConfigError::InvalidSniName,
        ),
{
    let parses = server_name_parses(&sni_name);
    sni_name_checked(sni_name, parses)
}

/// Accepts the path of a CA file that exists, and the absence of one; turns
/// down a path where `exists` says that nothing is there.
pub fn de_ca_file(path: Option<String>, exists: bool) -> (r: Result<Option<String>, ConfigError>)
    ensures
        path is Some && !exists ==> r == Err::<Option<String>, ConfigError>(
            ConfigError::MissingCaFile,
        ),
        path is None || exists ==> r == Ok::<Option<String>, ConfigError>(path),
{
    if path.is_some() && !exists {
        Err(ConfigError::MissingCaFile)
    } else {
        Ok(path)
    }
}

/// Reads a list of tunnels as a map keyed by the remote port. Where a port
/// comes twice, the later entry stands.
pub fn de_tunnels(tunnels: Vec<Tunnel>) -> (map: HashMap<u16, Tunnel>)
    ensures
        map@ == tunnel_map(tunnels@),
        forall|p: u16| #[trigger]
            map@.contains_key(p) <==> exists|i: int|
                0 <= i < tunnels@.len() && #[trigger] tunnels@[i].remote_port == p,
        forall|i: int|
            0 <= i < tunnels@.len() && (forall|j: int|
                i < j < tunnels@.len() ==> #[trigger] tunnels@[j].remote_port
                    != tunnels@[i].remote_port) ==> map@[#[trigger] tunnels@[i].remote_port]
                == tunnels@[i],
{
    broadcast use group_hash_axioms;

    let ghost all = tunnels@;
    let mut map: HashMap<u16, Tunnel> = HashMap::new();
    assert(all.take(0) =~= Seq::empty());
    for tunnel in it: tunnels
        invariant
            it.seq() == all,
            map@ == tunnel_map(all.take(it.index() as int)),
    {
        assert(all.take(it.index() + 1).drop_last() =~= all.take(it.index() as int));
        map.insert(tunnel.remote_port, tunnel);
    }
    proof {
        assert(all.take(all.len() as int) =~= all);
        lemma_tunnel_map(all);
    }
    map
}

impl Config {
    /// The tunnel behind a published port.
    pub fn tunnel(&self, remote_port: u16) -> (found: Option<&Tunnel>)
        ensures
            found is Some <==> self@.tunnels.contains_key(remote_port),
            found matches Some(t) ==> t@ == self@.tunnels[remote_port] && self.tunnels@[remote_port]
                == *t,
    {
        broadcast use group_hash_axioms;

        self.tunnels.get(&remote_port)
    }

    /// The ports to publish, in rising order: every port that has a tunnel,
    /// once.
    pub fn published_ports(&self) -> (ports: Vec<u16>)
        ensures
            ports@ == rising(self@.tunnels.dom()),
            forall|i: int, j: int| 0 <= i < j < ports@.len() ==> ports@[i] < ports@[j],
            forall|p: u16| #[trigger] ports@.contains(p) <==> self@.tunnels.contains_key(p),
    {
        broadcast use group_hash_axioms;

        let ghost published = self@.tunnels.dom();
        let mut ports: Vec<u16> = Vec::new();
        let mut port: u16 = 0;
        loop
            invariant_except_break
                ports@ == ports_below(published, port as nat),
                published == self@.tunnels.dom(),
            ensures
                ports@ == rising(published),
            decreases 0xffff - port,
        {
            if self.tunnels.contains_key(&port) {
                ports.push(port);
            }
            if port == 0xffff {
                break ;
            }
            port = port + 1;
        }
        proof {
            lemma_ports_below(published, 0x1_0000);
        }
        ports
    }
}

/// The CA certificates that a client trusts, each in DER.
#[derive(Clone, Debug, PartialEq, Eq)]
pub struct Crypto {
    /// The certificates, in the order of the file.
    pub ca: Vec<Vec<u8>>,
}

/// The sections that were read, in order, without the failed ones.
pub open spec fn readable(sections: Seq<Option<Vec<u8>>>) -> Seq<Vec<u8>>
    decreases sections.len(),
{
    if sections.len() == 0 {
        Seq::empty()
    } else {
        match sections.last() {
            Some(der) => readable(sections.drop_last()).push(der),
            None => readable(sections.drop_last()),
        }
    }
}

impl Crypto {
    /// The trust set from the certificate sections of a PEM file: each
    /// section that could be decoded, in the order of the file. A section
    /// that could not (`None`) is passed over. No file gives no sections and
    /// an empty set.
    pub fn new(sections: Vec<Option<Vec<u8>>>) -> (crypto: Crypto)
        ensures
            crypto.ca@ == readable(sections@),
    {
        let ghost all = sections@;
        let mut ca: Vec<Vec<u8>> = Vec::new();
        assert(all.take(0) =~= Seq::empty());
        for section in it: sections
            invariant
                it.seq() == all,
                ca@ == readable(all.take(it.index() as int)),
        {
            assert(all.take(it.index() + 1).drop_last() =~= all.take(it.index() as int));
            match section {
                Some(der) => ca.push(der),
                None => {},
            }
        }
        assert(all.take(all.len() as int) =~= all);
        Crypto { ca }
    }
}

} // verus!
