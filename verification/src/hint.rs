//! Advice for the log when a session breaks down.
use vstd::prelude::*;

verus! {

/// Advice for a message that could not be decoded.
pub const HINT_DECODE: &'static str = "protocol decode failed — often caused by mlkem768 KEX or zlib compression mismatch; RollingPanda now disables both server-side";

/// Advice for a failed key exchange.
pub const HINT_KEX: &'static str = "key exchange failed — try: ssh -o KexAlgorithms=curve25519-sha256";

/// Advice for failed compression.
pub const HINT_COMPRESSION: &'static str = "compression negotiation failed — try: ssh -o Compression=no";

/// Advice for everything else.
pub const HINT_OTHER: &'static str = "see RUST_LOG=russh=debug,rollingpanda=debug for details";

/// `anyhow::Error`; looked into only by printing it.
#[verifier::external_type_specification]
#[verifier::external_body]
pub struct ExAnyhowError(anyhow::Error);

/// The advice for an error with this message.
pub open spec fn advice(message: Seq<char>) -> Seq<char> {
    if crate::text::occurs("SshEncoding"@, message) && crate::text::occurs("length invalid"@, message) {
        HINT_DECODE@
    } else if crate::text::occurs("Kex"@, message) || crate::text::occurs("kex"@, message) {
        HINT_KEX@
    } else if crate::text::occurs("compression"@, message) || crate::text::occurs("zlib"@, message) {
        HINT_COMPRESSION@
    } else {
        HINT_OTHER@
    }
}

/// Picks the advice for an error with this message.
pub fn message_hint(message: &str) -> (hint: &'static str)
    ensures
        hint@ == advice(message@),
{
    let message = crate::text::chars_of(message);
    if crate::text::contains(&message, "SshEncoding") && crate::text::contains(
        &message,
        "length invalid",
    ) {
        HINT_DECODE
    } else if crate::text::contains(&message, "Kex") || crate::text::contains(&message, "kex") {
        HINT_KEX
    } else if crate::text::contains(&message, "compression") || crate::text::contains(
        &message,
        "zlib",
    ) {
        HINT_COMPRESSION
    } else {
        HINT_OTHER
    }
}

/// Picks the advice for an error: the one for its message, causes included.
///
/// The message is what [`error_message`] gives for the error, which may depend
/// on the machine's language; the advice is the one for that message.
pub fn session_error_hint(error: &anyhow::Error) -> (hint: &'static str)
    ensures
        exists|message: String|
            #[trigger] call_ensures(error_message, (error,), message) && hint@ == advice(message@),
{
    let message = error_message(error);
    message_hint(message.as_str())
}

/// `anyhow::Error` printed with `{:#}`: its own message, then `: ` and the
/// message of each cause in turn. The messages are printed by the error types
/// themselves, so nothing is claimed of the text. It is public because the
/// contracts of its callers speak of what it returned.
#[verifier::external_body]
pub fn error_message(error: &anyhow::Error) -> (message: String) {
    format!("{error:#}")
}

/// The advice goes by what stands anywhere in the message. Trouble with decoding
/// comes first, and both of its marks must stand there; then the key exchange,
/// then compression.
pub proof fn law_advice_by_content(message: Seq<char>)
    ensures
        ({
            let hint = advice(message);
            let holds = |p: Seq<char>|
                exists|a: Seq<char>, b: Seq<char>| message == #[trigger] (a + p + b);
            let decode = holds("SshEncoding"@) && holds("length invalid"@);
            let kex = holds("Kex"@) || holds("kex"@);
            let compression = holds("compression"@) || holds("zlib"@);
            &&& decode ==> hint
                == "protocol decode failed — often caused by mlkem768 KEX or zlib compression mismatch; RollingPanda now disables both server-side"@
            &&& !decode && kex ==> hint
                == "key exchange failed — try: ssh -o KexAlgorithms=curve25519-sha256"@
            &&& !decode && !kex && compression ==> hint
                == "compression negotiation failed — try: ssh -o Compression=no"@
            &&& !decode && !kex && !compression ==> hint
                == "see RUST_LOG=russh=debug,rollingpanda=debug for details"@
        }),
{
    crate::text::law_occurs("SshEncoding"@, message);
    crate::text::law_occurs("length invalid"@, message);
    crate::text::law_occurs("Kex"@, message);
    crate::text::law_occurs("kex"@, message);
    crate::text::law_occurs("compression"@, message);
    crate::text::law_occurs("zlib"@, message);
}

/// The advice that is picked for a message is the one that goes by its content.
pub proof fn law_hint_for_a_message(message: &str, hint: &'static str)
    requires
        call_ensures(message_hint, (message,), hint),
    ensures
        hint@ == advice(message@),
{
}

} // verus!
