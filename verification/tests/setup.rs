use rollingpanda::config::{server_config, CompressionAlgorithm, HostKeyAlgorithm, KexAlgorithm};
use rollingpanda::hint::{
    message_hint, session_error_hint, HINT_COMPRESSION, HINT_DECODE, HINT_KEX, HINT_OTHER,
};
use rollingpanda::hostkey::{generate_in_memory, generated_keys, loaded_keys, HostKeyError};
use russh::keys::ssh_key;

#[test]
fn wire_names_are_those_of_the_protocol_library() {
    let pairs = [
        (KexAlgorithm::Curve25519, russh::kex::CURVE25519),
        (KexAlgorithm::Curve25519PreRfc8731, russh::kex::CURVE25519_PRE_RFC_8731),
        (KexAlgorithm::DhGexSha256, russh::kex::DH_GEX_SHA256),
        (KexAlgorithm::ExtensionSupportAsClient, russh::kex::EXTENSION_SUPPORT_AS_CLIENT),
        (KexAlgorithm::ExtensionSupportAsServer, russh::kex::EXTENSION_SUPPORT_AS_SERVER),
        (KexAlgorithm::StrictKexAsClient, russh::kex::EXTENSION_OPENSSH_STRICT_KEX_AS_CLIENT),
        (KexAlgorithm::StrictKexAsServer, russh::kex::EXTENSION_OPENSSH_STRICT_KEX_AS_SERVER),
    ];
    for (own, outside) in pairs {
        let name: &str = outside.as_ref();
        assert_eq!(own.wire_name(), name);
    }
    assert_eq!(HostKeyAlgorithm::Ed25519.wire_name(), ssh_key::Algorithm::Ed25519.as_str());
    let none: &str = russh::compression::NONE.as_ref();
    assert_eq!(CompressionAlgorithm::Uncompressed.wire_name(), none);
}

#[test]
fn config_of_a_server() {
    let config = server_config(vec![7u8]);
    assert_eq!(config.inactivity_timeout_secs, Some(3600));
    assert_eq!(config.auth_rejection_secs, 1);
    assert_eq!(config.auth_rejection_initial_millis, Some(0));
    assert_eq!(config.keys, vec![7u8]);
    assert_eq!(
        config.kex,
        vec![
            KexAlgorithm::Curve25519,
            KexAlgorithm::Curve25519PreRfc8731,
            KexAlgorithm::DhGexSha256,
            KexAlgorithm::ExtensionSupportAsClient,
            KexAlgorithm::ExtensionSupportAsServer,
            KexAlgorithm::StrictKexAsClient,
            KexAlgorithm::StrictKexAsServer,
        ]
    );
    assert_eq!(config.host_key_algorithms, vec![HostKeyAlgorithm::Ed25519]);
    assert_eq!(config.compression, vec![CompressionAlgorithm::Uncompressed]);
}

#[test]
fn neither_ml_kem_nor_zlib_is_offered() {
    let config = server_config(Vec::<u8>::new());
    let ml_kem: &str = russh::kex::MLKEM768X25519_SHA256.as_ref();
    assert!(config.kex.iter().all(|k| k.wire_name() != ml_kem));
    assert!(config.compression.iter().all(|c| !c.wire_name().contains("zlib")));
}

#[test]
fn generated_host_key_is_ed25519() {
    let keys = generate_in_memory().unwrap();
    assert_eq!(keys.len(), 1);
    assert_eq!(keys[0].algorithm, "ssh-ed25519");
    assert_eq!(keys[0].key.algorithm(), ssh_key::Algorithm::Ed25519);
    let others = generate_in_memory().unwrap();
    assert_ne!(
        keys[0].key.fingerprint(ssh_key::HashAlg::Sha256),
        others[0].key.fingerprint(ssh_key::HashAlg::Sha256)
    );
}

#[test]
fn host_key_outcomes() {
    let key = generate_in_memory().unwrap().remove(0);
    let print = key.key.fingerprint(ssh_key::HashAlg::Sha256);
    let loaded = loaded_keys(Ok(key)).unwrap();
    assert_eq!(loaded.len(), 1);
    assert_eq!(loaded[0].key.fingerprint(ssh_key::HashAlg::Sha256), print);
    let unread = loaded_keys(Err(ssh_key::Error::Encrypted)).unwrap_err();
    assert!(matches!(unread, HostKeyError::Read(ssh_key::Error::Encrypted)));
    assert_eq!(unread.context("/etc/key"), "reading host key /etc/key");
    let unmade = generated_keys(Err(ssh_key::Error::AlgorithmUnknown)).unwrap_err();
    assert!(matches!(unmade, HostKeyError::Generate(ssh_key::Error::AlgorithmUnknown)));
    assert_eq!(unmade.context(""), "generating Ed25519 host key");
}

#[test]
fn hints_by_message() {
    assert_eq!(message_hint("SshEncoding: length invalid"), HINT_DECODE);
    assert_eq!(message_hint("SshEncoding only"), HINT_OTHER);
    assert_eq!(message_hint("length invalid"), HINT_OTHER);
    assert_eq!(message_hint("no common Kex algorithm"), HINT_KEX);
    assert_eq!(message_hint("kex"), HINT_KEX);
    assert_eq!(message_hint("KEX"), HINT_OTHER);
    assert_eq!(message_hint("compression"), HINT_COMPRESSION);
    assert_eq!(message_hint("bad zlib data"), HINT_COMPRESSION);
    assert_eq!(message_hint("zlib kex"), HINT_KEX);
    assert_eq!(message_hint(""), HINT_OTHER);
    assert_eq!(
        HINT_DECODE,
        "protocol decode failed — often caused by mlkem768 KEX or zlib compression mismatch; RollingPanda now disables both server-side"
    );
    assert_eq!(HINT_KEX, "key exchange failed — try: ssh -o KexAlgorithms=curve25519-sha256");
    assert_eq!(HINT_COMPRESSION, "compression negotiation failed — try: ssh -o Compression=no");
    assert_eq!(HINT_OTHER, "see RUST_LOG=russh=debug,rollingpanda=debug for details");
}

#[test]
fn hints_see_the_causes_of_an_error() {
    let error = anyhow::Error::msg("length invalid").context("SshEncoding");
    assert_eq!(session_error_hint(&error), HINT_DECODE);
    let error = anyhow::Error::msg("zlib").context("session");
    assert_eq!(session_error_hint(&error), HINT_COMPRESSION);
    assert_eq!(session_error_hint(&anyhow::Error::msg("disconnected")), HINT_OTHER);
}
