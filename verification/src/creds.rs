//! Credentials and listen port compiled into the binary (not read from the OS).
//!
//! A build may override each of the three; what it does not override keeps the
//! default below.
use vstd::prelude::*;

use subtle::ConstantTimeEq;

verus! {

/// SSH username of a build that names no other.
pub const DEFAULT_USERNAME: &'static str = "panda";

/// SSH password of a build that names no other.
pub const DEFAULT_PASSWORD: &'static str = "rolling";

/// TCP listen port of a build that names no other.
pub const DEFAULT_PORT: u16 = 2222;

/// Why a text is not a port.
#[derive(Debug, Clone, Copy, PartialEq, Eq, Structural)]
pub enum PortError {
    /// Something that is not a digit stands in it.
    NotDigits,
    /// It is empty, or its number is not in `1..=65535`.
    OutOfRange,
}

impl PortError {
    /// The complaint, as a build reports it.
    pub fn message(&self) -> (text: &'static str)
        ensures
            text@ == match *self {
                PortError::NotDigits => "ROLLINGPANDA_PORT must contain only digits"@,
                PortError::OutOfRange => "ROLLINGPANDA_PORT must be 1..=65535"@,
            },
    {
        match self {
            PortError::NotDigits => "ROLLINGPANDA_PORT must contain only digits",
            PortError::OutOfRange => "ROLLINGPANDA_PORT must be 1..=65535",
        }
    }
}

/// `s` is the decimal text of a port.
pub open spec fn is_port_text(s: Seq<char>) -> bool {
    &&& s.len() > 0
    &&& crate::text::all_digits(s)
    &&& 1 <= crate::text::decimal_value(s) <= u16::MAX
}

/// `s` has a character that is no digit, at `i`, behind digits whose number is
/// still that of a port or 0.
pub open spec fn stray_at(s: Seq<char>, i: int) -> bool {
    &&& 0 <= i < s.len()
    &&& !crate::text::is_digit(s[i])
    &&& crate::text::all_digits(s.take(i))
    &&& crate::text::decimal_value(s.take(i)) <= u16::MAX
}

/// Reading `s` from the left meets a character that is no digit before the
/// number grows too large.
pub open spec fn has_stray(s: Seq<char>) -> bool {
    exists|i: int| stray_at(s, i)
}

/// What reading `s` as a port gives.
pub open spec fn port_of(s: Seq<char>) -> Result<u16, PortError> {
    if is_port_text(s) {
        Ok(crate::text::decimal_value(s) as u16)
    } else if has_stray(s) {
        Err(PortError::NotDigits)
    } else {
        Err(PortError::OutOfRange)
    }
}

/// Reads a port, or says what is wrong with the text.
pub fn try_parse_port(s: &str) -> (port: Result<u16, PortError>)
    ensures
        port == port_of(s@),
{
    let chars = crate::text::chars_of(s);
    let mut n: u32 = 0;
    let mut i: usize = 0;
    assert(s@.take(0) =~= Seq::<char>::empty());
    while i < chars.len()
        invariant
            chars@ == s@,
            i <= s@.len(),
            crate::text::all_digits(s@.take(i as int)),
            n == crate::text::decimal_value(s@.take(i as int)),
            n <= u16::MAX,
        decreases s@.len() - i,
    {
        let c = chars[i];
        if c < '0' || c > '9' {
            assert(stray_at(s@, i as int));
            assert(!crate::text::is_digit(s@[i as int]));
            return Err(PortError::NotDigits);
        }
        proof {
            assert(s@.take(i + 1).drop_last() =~= s@.take(i as int));
            assert forall|k: int| 0 <= k < i + 1 implies crate::text::is_digit(#[trigger] s@.take(i + 1)[k]) by {
                if k < i {
                    assert(crate::text::is_digit(s@.take(i as int)[k]));
                }
            }
        }
        n = n * 10 + (c as u32 - '0' as u32);
        if n > 0xffff {
            proof {
                lemma_too_large(s@, i + 1);
            }
            return Err(PortError::OutOfRange);
        }
        i += 1;
    }
    assert(s@.take(i as int) =~= s@);
    if i == 0 || n == 0 {
        proof {
            lemma_no_stray(s@);
        }
        return Err(PortError::OutOfRange);
    }
    Ok(n as u16)
}

proof fn lemma_no_stray(s: Seq<char>)
    requires
        crate::text::all_digits(s),
    ensures
        !has_stray(s),
{
}

proof fn lemma_too_large(s: Seq<char>, n: int)
    requires
        0 <= n <= s.len(),
        crate::text::all_digits(s.take(n)),
        crate::text::decimal_value(s.take(n)) > u16::MAX,
    ensures
        !has_stray(s),
        !is_port_text(s),
{
    if has_stray(s) {
        let i = choose|i: int| stray_at(s, i);
        if i < n {
            assert(crate::text::is_digit(s.take(n)[i]));
        } else {
            crate::text::lemma_prefix_value(s, n, i);
        }
    }
    if is_port_text(s) {
        assert(s.take(s.len() as int) =~= s);
        crate::text::lemma_prefix_value(s, n, s.len() as int);
    }
}

/// Reads a port from a text that is one.
pub fn parse_port(s: &str) -> (port: u16)
    requires
        is_port_text(s@),
    ensures
        port == crate::text::decimal_value(s@),
{
    match try_parse_port(s) {
        Ok(port) => port,
        Err(_) => vstd::pervasive::unreached(),
    }
}

/// The SSH user that a build knows.
pub struct Credentials {
    pub username: String,
    pub password: String,
}

/// What a build knows of itself: the user, and the port to listen on.
pub struct BakedSettings {
    pub credentials: Credentials,
    pub port: u16,
}

/// An override, or else the default.
pub open spec fn chosen(choice: Option<&str>, default: Seq<char>) -> Seq<char> {
    match choice {
        Some(text) => text@,
        None => default,
    }
}

/// The port that an override names, or else the default.
pub open spec fn chosen_port(choice: Option<&str>) -> Result<u16, PortError> {
    match choice {
        Some(text) => port_of(text@),
        None => Ok(DEFAULT_PORT),
    }
}

impl Credentials {
    /// `user` and `password` are the ones that the build knows.
    pub open spec fn admits(&self, user: Seq<char>, password: Seq<char>) -> bool {
        user == self.username@ && password == self.password@
    }
}

impl Clone for Credentials {
    fn clone(&self) -> (copy: Self)
        ensures
            copy.username@ == self.username@,
            copy.password@ == self.password@,
    {
        Credentials { username: self.username.clone(), password: self.password.clone() }
    }
}

impl BakedSettings {
    /// The settings of a build with the given overrides.
    pub fn new(user: Option<&str>, password: Option<&str>, port: Option<&str>) -> (settings: Result<
        BakedSettings,
        PortError,
    >)
        ensures
            match chosen_port(port) {
                Ok(number) => settings matches Ok(baked) && {
                    &&& baked.credentials.username@ == chosen(user, DEFAULT_USERNAME@)
                    &&& baked.credentials.password@ == chosen(password, DEFAULT_PASSWORD@)
                    &&& baked.port == number
                },
                Err(error) => settings == Err::<BakedSettings, PortError>(error),
            },
    {
        let username = match user {
            Some(user) => user.to_owned(),
            None => DEFAULT_USERNAME.to_owned(),
        };
        let password = match password {
            Some(pass) => pass.to_owned(),
            None => DEFAULT_PASSWORD.to_owned(),
        };
        let port = match port {
            Some(port) => try_parse_port(port),
            None => Ok(DEFAULT_PORT),
        };
        match port {
            Ok(port) => Ok(
                BakedSettings { credentials: Credentials { username, password }, port },
            ),
            Err(error) => Err(error),
        }
    }
}

/// Returns true when `user` / `password` match the credentials that are baked
/// into the build.
pub fn verify(baked: &Credentials, user: &str, password: &str) -> (known: bool)
    ensures
        known == baked.admits(user@, password@),
{
    ct_eq_str(user, baked.username.as_str()) && ct_eq_str(password, baked.password.as_str())
}

/// Compares two texts without telling, by the time it takes, where they differ.
pub fn ct_eq_str(a: &str, b: &str) -> (equal: bool)
    ensures
        equal == (a@ == b@),
{
    proof {
        vstd::utf8::encode_utf8_decode_utf8(a@);
        vstd::utf8::encode_utf8_decode_utf8(b@);
    }
    if a.len() != b.len() {
        return false;
    }
    ct_eq_bytes(a.as_bytes(), b.as_bytes())
}

/// `subtle`'s `ConstantTimeEq::ct_eq` on byte slices, with its `Choice` turned
/// into a `bool`: true when the slices have the same length and the same
/// bytes. That its running time does not depend on the bytes is left unsaid.
#[verifier::external_body]
fn ct_eq_bytes(a: &[u8], b: &[u8]) -> (equal: bool)
    ensures
        equal == (a@ == b@),
{
    a.ct_eq(b).into()
}

/// Every port but 0 can be chosen: its decimal text reads back as the port.
pub proof fn law_every_port_can_be_written(port: u16)
    requires
        port >= 1,
    ensures
        port_of(crate::text::decimal(port as nat)) == Ok::<u16, PortError>(port),
{
    crate::text::law_decimal_reads_back(port as nat);
}

/// No build listens on port 0.
pub proof fn law_port_is_never_zero(s: Seq<char>)
    ensures
        port_of(s) != Ok::<u16, PortError>(0),
{
}

/// A client is known if and only if it gives the very username and the very
/// password of the build, whatever they are.
pub proof fn law_only_the_baked_credentials(
    baked: &Credentials,
    user: &str,
    password: &str,
    known: bool,
)
    requires
        call_ensures(verify, (baked, user, password), known),
    ensures
        known <==> user@ == baked.username@ && password@ == baked.password@,
{
}

/// Two texts are found equal if and only if they are.
pub proof fn law_texts_compare(a: &str, b: &str, equal: bool)
    requires
        call_ensures(ct_eq_str, (a, b), equal),
    ensures
        equal <==> a@ == b@,
{
}

/// Every setting that a build overrides is what the override says, and every
/// other is the default, each for itself.
pub proof fn law_settings_of_a_build(
    user: Option<&str>,
    password: Option<&str>,
    port: Option<&str>,
    settings: Result<BakedSettings, PortError>,
)
    requires
        call_ensures(BakedSettings::new, (user, password, port), settings),
    ensures
        settings matches Ok(baked) ==> {
            &&& user matches Some(name) ==> baked.credentials.username@ == name@
            &&& user is None ==> baked.credentials.username@ == "panda"@
            &&& password matches Some(secret) ==> baked.credentials.password@ == secret@
            &&& password is None ==> baked.credentials.password@ == "rolling"@
            &&& port matches Some(text) ==> port_of(text@) == Ok::<u16, PortError>(baked.port)
            &&& port is None ==> baked.port == 2222
        },
        settings matches Err(error) ==> (port matches Some(text) && port_of(text@) == Err::<
            u16,
            PortError,
        >(error)),
{
}

/// What reading a port gives is what the laws on ports speak of.
pub proof fn law_port_is_read(s: &str, port: Result<u16, PortError>)
    requires
        call_ensures(try_parse_port, (s,), port),
    ensures
        port == port_of(s@),
{
}

/// A text that is a port is read without complaint as the same port.
pub proof fn law_good_port_is_read(s: &str, port: u16, read: Result<u16, PortError>)
    requires
        call_ensures(try_parse_port, (s,), read),
        read is Ok,
        call_ensures(parse_port, (s,), port),
    ensures
        read == Ok::<u16, PortError>(port),
{
}

/// Ports are read digit by digit. No character is no port. Behind a port, or
/// behind nothing but zeros, another digit makes ten times the number plus the
/// digit, as long as that is in `1..=65535`; a character that is no digit is
/// complained of. What is wrong stays wrong, for the same reason.
pub proof fn law_port_digit_by_digit(s: Seq<char>, c: char)
    ensures
        port_of(Seq::<char>::empty()) == Err::<u16, PortError>(PortError::OutOfRange),
        ({
            let zeros = forall|i: int| 0 <= i < s.len() ==> #[trigger] s[i] == '0';
            let longer = port_of(s + seq![c]);
            let digit = c as int - '0' as int;
            let n = if zeros {
                digit
            } else {
                10 * port_of(s)->Ok_0 + digit
            };
            if !zeros && port_of(s) is Err {
                longer == port_of(s)
            } else if !('0' <= c <= '9') {
                longer == Err::<u16, PortError>(PortError::NotDigits)
            } else if 1 <= n <= 65535 {
                longer is Ok && longer->Ok_0 == n
            } else {
                longer == Err::<u16, PortError>(PortError::OutOfRange)
            }
        }),
{
    let none = Seq::<char>::empty();
    assert(!has_stray(none));
    let zeros = forall|i: int| 0 <= i < s.len() ==> #[trigger] s[i] == '0';
    let t = s + seq![c];
    let n = s.len() as int;
    assert(t.drop_last() =~= s);
    assert(t.last() == c);
    assert(t[n] == c);
    lemma_stray_longer(s, c);
    if zeros {
        lemma_zeros(s);
    }
    assert(s.take(n) =~= s);
    if crate::text::all_digits(s) {
        crate::text::lemma_prefix_value(s, n, n);
        assert(crate::text::is_digit(c) ==> crate::text::all_digits(t)) by {
            assert forall|i: int| 0 <= i < t.len() && crate::text::is_digit(c) implies crate::text::is_digit(
                #[trigger] t[i],
            ) by {
                if i < n {
                    assert(crate::text::is_digit(s[i]));
                }
            }
        }
        lemma_no_stray(s);
        if crate::text::decimal_value(s) == 0 && !zeros {
            lemma_value_of_zero(s);
        }
    } else {
        assert(!crate::text::all_digits(t)) by {
            let i = choose|i: int| 0 <= i < s.len() && !crate::text::is_digit(s[i]);
            assert(t[i] == s[i]);
        }
    }
}

proof fn lemma_zeros(s: Seq<char>)
    requires
        forall|i: int| 0 <= i < s.len() ==> #[trigger] s[i] == '0',
    ensures
        crate::text::all_digits(s),
        crate::text::decimal_value(s) == 0,
    decreases s.len(),
{
    if s.len() > 0 {
        lemma_zeros(s.drop_last());
    }
}

/// Digits that write 0 are zeros.
proof fn lemma_value_of_zero(s: Seq<char>)
    requires
        crate::text::all_digits(s),
        crate::text::decimal_value(s) == 0,
    ensures
        forall|i: int| 0 <= i < s.len() ==> #[trigger] s[i] == '0',
    decreases s.len(),
{
    if s.len() > 0 {
        let front = s.drop_last();
        assert(crate::text::all_digits(front)) by {
            assert forall|i: int| 0 <= i < front.len() implies crate::text::is_digit(
                #[trigger] front[i],
            ) by {
                assert(crate::text::is_digit(s[i]));
            }
        }
        assert(front.take(front.len() as int) =~= front);
        crate::text::lemma_prefix_value(front, front.len() as int, front.len() as int);
        assert(crate::text::is_digit(s[s.len() - 1]));
        lemma_value_of_zero(front);
        assert forall|i: int| 0 <= i < s.len() implies #[trigger] s[i] == '0' by {
            if i < front.len() {
                assert(front[i] == '0');
            }
        }
    }
}

/// A longer text has the strays of the shorter one, and its last character can
/// be one.
proof fn lemma_stray_longer(s: Seq<char>, c: char)
    ensures
        has_stray(s + seq![c]) == (has_stray(s) || (!crate::text::is_digit(c)
            && crate::text::all_digits(s) && crate::text::decimal_value(s) <= u16::MAX)),
{
    let t = s + seq![c];
    let n = s.len() as int;
    assert(t.take(n) =~= s);
    if has_stray(s) {
        let i = choose|i: int| stray_at(s, i);
        assert(t.take(i) =~= s.take(i));
        assert(t[i] == s[i]);
        assert(stray_at(t, i));
    }
    if !crate::text::is_digit(c) && crate::text::all_digits(s) && crate::text::decimal_value(s)
        <= u16::MAX {
        assert(t[n] == c);
        assert(stray_at(t, n));
    }
    if has_stray(t) {
        let i = choose|i: int| stray_at(t, i);
        if i < n {
            assert(t.take(i) =~= s.take(i));
            assert(t[i] == s[i]);
            assert(stray_at(s, i));
        }
    }
}

} // verus!
