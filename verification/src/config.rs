//! What the server offers while a connection is set up.
use vstd::prelude::*;

verus! {

/// A key exchange, or an extension that is announced in the same list.
#[derive(Debug, Clone, Copy, PartialEq, Eq, Structural)]
pub enum KexAlgorithm {
    Curve25519,
    Curve25519PreRfc8731,
    DhGexSha256,
    ExtensionSupportAsClient,
    ExtensionSupportAsServer,
    StrictKexAsClient,
    StrictKexAsServer,
}

/// A kind of host key.
#[derive(Debug, Clone, Copy, PartialEq, Eq, Structural)]
pub enum HostKeyAlgorithm {
    Ed25519,
}

/// A way to compress.
#[derive(Debug, Clone, Copy, PartialEq, Eq, Structural)]
pub enum CompressionAlgorithm {
    Uncompressed,
}

impl KexAlgorithm {
    /// The name on the wire.
    pub open spec fn wire(self) -> Seq<char> {
        match self {
            KexAlgorithm::Curve25519 => "curve25519-sha256"@,
            KexAlgorithm::Curve25519PreRfc8731 => "curve25519-sha256@libssh.org"@,
            KexAlgorithm::DhGexSha256 => "diffie-hellman-group-exchange-sha256"@,
            KexAlgorithm::ExtensionSupportAsClient => "ext-info-c"@,
            KexAlgorithm::ExtensionSupportAsServer => "ext-info-s"@,
            KexAlgorithm::StrictKexAsClient => "kex-strict-c-v00@openssh.com"@,
            KexAlgorithm::StrictKexAsServer => "kex-strict-s-v00@openssh.com"@,
        }
    }

    /// The name on the wire.
    pub fn wire_name(&self) -> (name: &'static str)
        ensures
            name@ == self.wire(),
    {
        match self {
            KexAlgorithm::Curve25519 => "curve25519-sha256",
            KexAlgorithm::Curve25519PreRfc8731 => "curve25519-sha256@libssh.org",
            KexAlgorithm::DhGexSha256 => "diffie-hellman-group-exchange-sha256",
            KexAlgorithm::ExtensionSupportAsClient => "ext-info-c",
            KexAlgorithm::ExtensionSupportAsServer => "ext-info-s",
            KexAlgorithm::StrictKexAsClient => "kex-strict-c-v00@openssh.com",
            KexAlgorithm::StrictKexAsServer => "kex-strict-s-v00@openssh.com",
        }
    }
}

impl HostKeyAlgorithm {
    /// The name on the wire.
    pub open spec fn wire(self) -> Seq<char> {
        match self {
            HostKeyAlgorithm::Ed25519 => "ssh-ed25519"@,
        }
    }

    /// The name on the wire.
    pub fn wire_name(&self) -> (name: &'static str)
        ensures
            name@ == self.wire(),
    {
        match self {
            HostKeyAlgorithm::Ed25519 => "ssh-ed25519",
        }
    }
}

impl CompressionAlgorithm {
    /// The name on the wire.
    pub open spec fn wire(self) -> Seq<char> {
        match self {
            CompressionAlgorithm::Uncompressed => "none"@,
        }
    }

    /// The name on the wire.
    pub fn wire_name(&self) -> (name: &'static str)
        ensures
            name@ == self.wire(),
    {
        match self {
            CompressionAlgorithm::Uncompressed => "none",
        }
    }
}

/// Settings of the SSH server, as plain values; `K` is the type of its keys.
#[derive(Debug)]
pub struct ServerConfig<K> {
    /// Seconds after which an idle connection is dropped.
    pub inactivity_timeout_secs: Option<u64>,
    /// Seconds that a rejected login is made to wait.
    pub auth_rejection_secs: u64,
    /// Milliseconds that the first probe of a client is made to wait.
    pub auth_rejection_initial_millis: Option<u64>,
    /// The host keys.
    pub keys: Vec<K>,
    /// Key exchanges on offer, most preferred first.
    pub kex: Vec<KexAlgorithm>,
    /// Kinds of host key on offer, most preferred first.
    pub host_key_algorithms: Vec<HostKeyAlgorithm>,
    /// Compressions on offer, most preferred first.
    pub compression: Vec<CompressionAlgorithm>,
}

/// KEX algorithms offered to clients. ML-KEM is omitted because some OpenSSH
/// + russh combinations fail with `SshEncoding: length invalid` when it is
/// negotiated.
pub open spec fn compatible_kex() -> Seq<KexAlgorithm> {
    seq![
        KexAlgorithm::Curve25519,
        KexAlgorithm::Curve25519PreRfc8731,
        KexAlgorithm::DhGexSha256,
        KexAlgorithm::ExtensionSupportAsClient,
        KexAlgorithm::ExtensionSupportAsServer,
        KexAlgorithm::StrictKexAsClient,
        KexAlgorithm::StrictKexAsServer,
    ]
}

/// Kinds of host key offered to clients.
pub open spec fn compatible_host_keys() -> Seq<HostKeyAlgorithm> {
    seq![HostKeyAlgorithm::Ed25519]
}

/// Compressions offered to clients.
pub open spec fn compatible_compression() -> Seq<CompressionAlgorithm> {
    seq![CompressionAlgorithm::Uncompressed]
}

/// The settings of a server with these host keys.
pub fn server_config<K>(host_keys: Vec<K>) -> (config: ServerConfig<K>)
    ensures
        config.inactivity_timeout_secs == Some(3600u64),
        config.auth_rejection_secs == 1,
        config.auth_rejection_initial_millis == Some(0u64),
        config.keys == host_keys,
        config.kex@ == compatible_kex(),
        config.host_key_algorithms@ == compatible_host_keys(),
        config.compression@ == compatible_compression(),
{
    let config = ServerConfig {
        inactivity_timeout_secs: Some(3600),
        auth_rejection_secs: 1,
        auth_rejection_initial_millis: Some(0),
        keys: host_keys,
        kex: vec![
            KexAlgorithm::Curve25519,
            KexAlgorithm::Curve25519PreRfc8731,
            KexAlgorithm::DhGexSha256,
            KexAlgorithm::ExtensionSupportAsClient,
            KexAlgorithm::ExtensionSupportAsServer,
            KexAlgorithm::StrictKexAsClient,
            KexAlgorithm::StrictKexAsServer,
        ],
        host_key_algorithms: vec![HostKeyAlgorithm::Ed25519],
        compression: vec![CompressionAlgorithm::Uncompressed],
    };
    assert(config.kex@ =~= compatible_kex());
    assert(config.host_key_algorithms@ =~= compatible_host_keys());
    assert(config.compression@ =~= compatible_compression());
    config
}

/// Nothing that is offered goes by the name of the ML-KEM hybrid exchange.
pub proof fn law_no_ml_kem(i: int)
    requires
        0 <= i < compatible_kex().len(),
    ensures
        compatible_kex()[i].wire() != "mlkem768x25519-sha256"@,
{
    reveal_strlit("mlkem768x25519-sha256");
    reveal_strlit("curve25519-sha256");
    reveal_strlit("curve25519-sha256@libssh.org");
    reveal_strlit("diffie-hellman-group-exchange-sha256");
    reveal_strlit("ext-info-c");
    reveal_strlit("ext-info-s");
    reveal_strlit("kex-strict-c-v00@openssh.com");
    reveal_strlit("kex-strict-s-v00@openssh.com");
    assert(compatible_kex()[i].wire()[0] != "mlkem768x25519-sha256"@[0]);
}

/// No compression is offered but `none`; zlib goes by neither of its names.
pub proof fn law_no_zlib(i: int)
    requires
        0 <= i < compatible_compression().len(),
    ensures
        compatible_compression()[i].wire() == "none"@,
        compatible_compression()[i].wire() != "zlib"@,
        compatible_compression()[i].wire() != "zlib@openssh.com"@,
{
    reveal_strlit("none");
    reveal_strlit("zlib");
    reveal_strlit("zlib@openssh.com");
    assert("none"@[0] != "zlib"@[0]);
    assert("none"@[0] != "zlib@openssh.com"@[0]);
}

/// Every server, whatever its keys, keeps them as they are, prefers
/// `curve25519-sha256`, offers host keys of `ssh-ed25519` alone and no
/// compression, drops a connection that is idle for an hour, and lets a rejected
/// login wait for a second, but not the first probe.
pub proof fn law_what_a_server_offers<K>(host_keys: Vec<K>, config: ServerConfig<K>)
    requires
        call_ensures(server_config::<K>, (host_keys,), config),
    ensures
        config.keys@ == host_keys@,
        config.inactivity_timeout_secs == Some(3600u64),
        config.auth_rejection_secs == 1,
        config.auth_rejection_initial_millis == Some(0u64),
        config.kex@.map_values(|kex: KexAlgorithm| kex.wire()) == seq![
            "curve25519-sha256"@,
            "curve25519-sha256@libssh.org"@,
            "diffie-hellman-group-exchange-sha256"@,
            "ext-info-c"@,
            "ext-info-s"@,
            "kex-strict-c-v00@openssh.com"@,
            "kex-strict-s-v00@openssh.com"@,
        ],
        config.host_key_algorithms@.map_values(|key: HostKeyAlgorithm| key.wire()) == seq![
            "ssh-ed25519"@,
        ],
        config.compression@.map_values(|name: CompressionAlgorithm| name.wire()) == seq!["none"@],
{
}

} // verus!
