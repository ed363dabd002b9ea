//! The server's host key.
use vstd::prelude::*;

use russh::keys::ssh_key;
use russh::keys::PrivateKey;

use crate::config::HostKeyAlgorithm;

verus! {

/// `PrivateKey` of `russh`'s key library; carried through, never looked into.
#[verifier::external_type_specification]
#[verifier::external_body]
pub struct ExPrivateKey(russh::keys::PrivateKey);

/// `Error` of `russh`'s key library; carried through, never looked into.
#[verifier::external_type_specification]
#[verifier::external_body]
pub struct ExKeyError(russh::keys::ssh_key::Error);

/// A host key, and the SSH name of its algorithm.
#[derive(Debug)]
pub struct HostKey {
    pub key: PrivateKey,
    pub algorithm: String,
}

/// Clients are offered keys of an algorithm of this name.
pub open spec fn is_offered(algorithm: Seq<char>) -> bool {
    exists|i: int|
        0 <= i < crate::config::compatible_host_keys().len() && algorithm
            == #[trigger] crate::config::compatible_host_keys()[i].wire()
}

/// Why there is no host key.
#[derive(Debug)]
pub enum HostKeyError {
    /// None could be generated.
    Generate(ssh_key::Error),
    /// None could be read.
    Read(ssh_key::Error),
}

impl HostKeyError {
    /// What was being done when it happened; `path` is the key file, if there is one.
    pub fn context(&self, path: &str) -> (text: String)
        ensures
            text@ == match *self {
                HostKeyError::Generate(_) => "generating Ed25519 host key"@,
                HostKeyError::Read(_) => "reading host key "@ + path@,
            },
    {
        match self {
            HostKeyError::Generate(_) => "generating Ed25519 host key".to_owned(),
            HostKeyError::Read(_) => {
                let mut text = "reading host key ".to_owned();
                text.append(path);
                text
            },
        }
    }
}

/// Generate a fresh Ed25519 host key in memory (new fingerprint every process start).
pub fn generate_in_memory() -> (keys: Result<Vec<HostKey>, HostKeyError>)
    ensures
        keys matches Ok(list) ==> {
            &&& list@.len() == 1
            &&& list@[0].algorithm@ == HostKeyAlgorithm::Ed25519.wire()
            &&& is_offered(list@[0].algorithm@)
        },
        keys matches Err(error) ==> error is Generate,
{
    let keys = generated_keys(random_key(HostKeyAlgorithm::Ed25519));
    assert(crate::config::compatible_host_keys()[0].wire() == HostKeyAlgorithm::Ed25519.wire());
    keys
}

/// The host keys of a server whose key was to be generated.
pub fn generated_keys(key: Result<HostKey, ssh_key::Error>) -> (keys: Result<
    Vec<HostKey>,
    HostKeyError,
>)
    ensures
        match key {
            Ok(key) => keys matches Ok(list) && list@ == seq![key],
            Err(error) => keys == Err::<Vec<HostKey>, HostKeyError>(HostKeyError::Generate(error)),
        },
{
    match key {
        Ok(key) => Ok(vec![key]),
        Err(error) => Err(HostKeyError::Generate(error)),
    }
}

/// The host keys of a server whose key was to be read from a file (stable
/// fingerprint across restarts).
pub fn loaded_keys(key: Result<HostKey, ssh_key::Error>) -> (keys: Result<
    Vec<HostKey>,
    HostKeyError,
>)
    ensures
        match key {
            Ok(key) => keys matches Ok(list) && list@ == seq![key],
            Err(error) => keys == Err::<Vec<HostKey>, HostKeyError>(HostKeyError::Read(error)),
        },
{
    match key {
        Ok(key) => Ok(vec![key]),
        Err(error) => Err(HostKeyError::Read(error)),
    }
}

/// `PrivateKey::random` of `russh`'s key library, fed by `rand::rng`: a new key
/// of the algorithm that was asked for, along with that algorithm's name as
/// the key tells it. Which key it is rests on chance, so nothing more is
/// claimed of it; `rand::rng` needs the operating system's entropy.
#[verifier::external_body]
fn random_key(algorithm: HostKeyAlgorithm) -> (key: Result<HostKey, ssh_key::Error>)
    ensures
        key matches Ok(made) ==> made.algorithm@ == algorithm.wire(),
{
    let algorithm = match algorithm {
        HostKeyAlgorithm::Ed25519 => ssh_key::Algorithm::Ed25519,
    };
    let key = PrivateKey::random(&mut rand::rng(), algorithm)?;
    Ok(HostKey { algorithm: key.algorithm().as_str().to_string(), key })
}

/// A server has the one key that was made or read for it, that very key, or none
/// at all, and then the reason is kept, along with what was being done.
pub proof fn law_one_key_or_the_reason(
    key: Result<HostKey, ssh_key::Error>,
    made: Result<Vec<HostKey>, HostKeyError>,
    read: Result<Vec<HostKey>, HostKeyError>,
)
    requires
        call_ensures(generated_keys, (key,), made),
        call_ensures(loaded_keys, (key,), read),
    ensures
        made is Ok <==> key is Ok,
        read is Ok <==> key is Ok,
        made matches Ok(list) ==> list@.len() == 1 && key == Ok::<HostKey, ssh_key::Error>(list@[0]),
        read matches Ok(list) ==> list@.len() == 1 && key == Ok::<HostKey, ssh_key::Error>(list@[0]),
        made matches Err(error) ==> error is Generate && key == Err::<HostKey, ssh_key::Error>(
            error->Generate_0,
        ),
        read matches Err(error) ==> error is Read && key == Err::<HostKey, ssh_key::Error>(
            error->Read_0,
        ),
{
}

/// A host key that is generated is one, and it is an Ed25519 key.
pub proof fn law_generated_key_is_ed25519(keys: Result<Vec<HostKey>, HostKeyError>)
    requires
        call_ensures(generate_in_memory, (), keys),
    ensures
        keys matches Ok(list) ==> list@.len() == 1 && list@[0].algorithm@ == "ssh-ed25519"@,
        keys matches Err(error) ==> error is Generate,
{
}

} // verus!
