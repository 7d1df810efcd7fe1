//! Authentication providers: the offline provider that derives a version-3
//! UUID from the username, and the Mojang provider that runs the RSA
//! challenge and prepares the session-service verification. The session
//! service itself is reached by the host; this module computes everything
//! around that call.

use vstd::pervasive::VecAdditionalExecFns;
use vstd::prelude::*;
use vstd::string::{StrSliceExecFns, StringExecFns};
use vstd::utf8::encode_utf8;

use crate::packets::{EncryptionRequest, EncryptionResponse};

verus! {

/// The rsa crate's error type, carried through as the cause of an `Rsa`
/// authentication failure. Opaque to the proof.
#[verifier::external_type_specification]
#[verifier::external_body]
pub struct ExRsaError(rsa::errors::Error);

/// The rsa crate's private key, held by the Mojang provider. Opaque to the
/// proof.
#[verifier::external_type_specification]
#[verifier::external_body]
pub struct ExRsaPrivateKey(rsa::RsaPrivateKey);

/// An authentication failure. Fatal to the login attempt.
#[derive(Debug)]
pub enum AuthError {
    /// The decrypted verify token differs from the one issued.
    BadVerifyToken,
    /// An RSA operation failed.
    Rsa(rsa::errors::Error),
    /// The decrypted shared secret is not exactly sixteen bytes.
    BadSharedSecret,
    /// A provider that never asks for encryption was handed a response.
    Unsupported,
    /// The session service could not be reached or answered nonsense.
    Transport(String),
}

/// A successfully authenticated user.
pub struct AuthSucceeded {
    pub username: String,
    pub uuid: String,
}

/// What a provider answers to a login start: immediate success, or an
/// encryption challenge together with the provider's private handle.
pub enum EncryptionStartResult<D> {
    BeginEncryption(EncryptionRequest, D),
    Skip(AuthSucceeded),
}

/// The handle a provider that never challenges carries: nothing.
pub struct NoAuthData;

/// The authentication capability: turns a claimed name into either an
/// immediate success or an encryption challenge, and judges the eventual
/// response. Each provider states its own behavior through the two
/// postcondition predicates.
pub trait AuthPlugin: Sized {
    type AuthData;

    /// What this provider's `encryption_start` guarantees.
    spec fn start_post(&self, name: Seq<char>, r: EncryptionStartResult<Self::AuthData>) -> bool;

    /// What this provider's `encryption_response` guarantees.
    spec fn response_post(&self, r: Result<AuthSucceeded, AuthError>) -> bool;

    fn encryption_start(&self, name: String) -> (r: EncryptionStartResult<Self::AuthData>)
        ensures
            self.start_post(name@, r),
    ;

    fn encryption_response(&self, data: Self::AuthData, res: EncryptionResponse) -> (r: Result<
        AuthSucceeded,
        AuthError,
    >)
        ensures
            self.response_post(r),
    ;
}

/// The hexadecimal digit of a value below sixteen, lower case.
pub open spec fn hex_digit(n: u8) -> char {
    if n == 0 {
        '0'
    } else if n == 1 {
        '1'
    } else if n == 2 {
        '2'
    } else if n == 3 {
        '3'
    } else if n == 4 {
        '4'
    } else if n == 5 {
        '5'
    } else if n == 6 {
        '6'
    } else if n == 7 {
        '7'
    } else if n == 8 {
        '8'
    } else if n == 9 {
        '9'
    } else if n == 10 {
        'a'
    } else if n == 11 {
        'b'
    } else if n == 12 {
        'c'
    } else if n == 13 {
        'd'
    } else if n == 14 {
        'e'
    } else {
        'f'
    }
}

/// The two hexadecimal digits of a byte.
pub open spec fn hex_byte(b: u8) -> Seq<char> {
    seq![hex_digit(b / 16), hex_digit(b % 16)]
}

/// The hexadecimal rendering of a byte string, two digits per byte.
pub open spec fn hex_of(bytes: Seq<u8>) -> Seq<char>
    decreases bytes.len(),
{
    if bytes.len() == 0 {
        Seq::empty()
    } else {
        hex_of(bytes.drop_last()) + hex_byte(bytes.last())
    }
}

/// The canonical 36-character hyphenated rendering of sixteen UUID bytes.
pub open spec fn uuid_hyphenated(d: Seq<u8>) -> Seq<char> {
    hex_of(d.subrange(0, 4)) + seq!['-'] + hex_of(d.subrange(4, 6)) + seq!['-'] + hex_of(
        d.subrange(6, 8),
    ) + seq!['-'] + hex_of(d.subrange(8, 10)) + seq!['-'] + hex_of(d.subrange(10, 16))
}

/// Reinterprets a digest as a version-3 UUID: the version nibble of byte
/// six becomes three, the variant bits of byte eight become the RFC form.
pub open spec fn v3_mix(d: Seq<u8>) -> Seq<u8> {
    d.update(6, ((d[6] & 0x0f) | 0x30) as u8).update(8, ((d[8] & 0x3f) | 0x80) as u8)
}

/// What `md5_digest` returns: the MD5 digest of the input, a function of
/// the input bytes alone.
pub uninterp spec fn md5_of(b: Seq<u8>) -> Seq<u8>;

/// Relies on `md5::compute`: the digest is a function of the input alone
/// and is sixteen bytes long.
#[verifier::external_body]
fn md5_digest(data: &[u8]) -> (r: Vec<u8>)
    ensures
        r@ == md5_of(data@),
        r@.len() == 16,
{
    md5::compute(data).0.to_vec()
}

/// What `sha1_digest` returns: the SHA-1 digest of the input, a function of
/// the input bytes alone.
pub uninterp spec fn sha1_of(b: Seq<u8>) -> Seq<u8>;

/// Relies on `sha1::Sha1` through the digest traits: the digest is a
/// function of the input alone and is twenty bytes long.
#[verifier::external_body]
fn sha1_digest(data: &[u8]) -> (r: Vec<u8>)
    ensures
        r@ == sha1_of(data@),
        r@.len() == 20,
{
    let mut h = <sha1::Sha1 as sha1::Digest>::new();
    sha1::Digest::update(&mut h, data);
    sha1::Digest::finalize(h).to_vec()
}

/// Relies on `rand::thread_rng`: four bytes of randomness for a verify
/// token. Nothing is promised of their values.
#[verifier::external_body]
fn random_token() -> (r: Vec<u8>)
    ensures
        r@.len() == 4,
{
    let bytes: [u8; 4] = rand::Rng::gen(&mut rand::thread_rng());
    bytes.to_vec()
}

/// Relies on `rsa::RsaPrivateKey::new` with the operating-system generator:
/// a fresh 1024-bit key pair, or the library's error. Nothing is promised
/// of the key.
#[verifier::external_body]
fn generate_rsa_key() -> (r: Result<rsa::RsaPrivateKey, rsa::errors::Error>)
{
    rsa::RsaPrivateKey::new(&mut rand::rngs::OsRng, 1024)
}

/// Relies on `rsa_der::public_key_to_der`: the DER encoding of the key's
/// public half, from its big-endian modulus and exponent. Nothing is
/// promised of the bytes.
#[verifier::external_body]
fn public_key_der(key: &rsa::RsaPrivateKey) -> (r: Vec<u8>)
{
    let n = num_bigint_dig::BigInt::from_biguint(
        num_bigint_dig::Sign::Plus,
        rsa::traits::PublicKeyParts::n(key).clone(),
    );
    let e = num_bigint_dig::BigInt::from_biguint(
        num_bigint_dig::Sign::Plus,
        rsa::traits::PublicKeyParts::e(key).clone(),
    );
    rsa_der::public_key_to_der(&n.to_signed_bytes_be(), &e.to_signed_bytes_be())
}

/// Relies on `rsa::RsaPrivateKey::decrypt` with PKCS#1 v1.5 padding.
/// Nothing is promised of the plaintext: the proof treats the key as
/// opaque, and every caller handles every outcome.
#[verifier::external_body]
fn rsa_decrypt(key: &rsa::RsaPrivateKey, ciphertext: &[u8]) -> (r: Result<
    Vec<u8>,
    rsa::errors::Error,
>)
{
    key.decrypt(rsa::Pkcs1v15Encrypt, ciphertext)
}

/// Appends one hexadecimal digit.
fn push_hex_digit(s: &mut String, n: u8)
    requires
        n < 16,
    ensures
        final(s)@ == old(s)@ + seq![hex_digit(n)],
{
    let d: &str = if n == 0 {
        "0"
    } else if n == 1 {
        "1"
    } else if n == 2 {
        "2"
    } else if n == 3 {
        "3"
    } else if n == 4 {
        "4"
    } else if n == 5 {
        "5"
    } else if n == 6 {
        "6"
    } else if n == 7 {
        "7"
    } else if n == 8 {
        "8"
    } else if n == 9 {
        "9"
    } else if n == 10 {
        "a"
    } else if n == 11 {
        "b"
    } else if n == 12 {
        "c"
    } else if n == 13 {
        "d"
    } else if n == 14 {
        "e"
    } else {
        "f"
    };
    proof {
        reveal_strlit("0");
        reveal_strlit("1");
        reveal_strlit("2");
        reveal_strlit("3");
        reveal_strlit("4");
        reveal_strlit("5");
        reveal_strlit("6");
        reveal_strlit("7");
        reveal_strlit("8");
        reveal_strlit("9");
        reveal_strlit("a");
        reveal_strlit("b");
        reveal_strlit("c");
        reveal_strlit("d");
        reveal_strlit("e");
        reveal_strlit("f");
        assert(d@ =~= seq![hex_digit(n)]);
    }
    s.append(d);
}

/// Appends the two hexadecimal digits of one byte.
fn push_hex_byte(s: &mut String, b: u8)
    ensures
        final(s)@ == old(s)@ + hex_byte(b),
{
    push_hex_digit(s, b / 16);
    push_hex_digit(s, b % 16);
    proof {
        assert(s@ =~= old(s)@ + hex_byte(b));
    }
}

/// Appends the hexadecimal rendering of `bytes[from..to]`.
fn push_hex_range(s: &mut String, bytes: &Vec<u8>, from: usize, to: usize)
    requires
        from <= to <= bytes@.len(),
    ensures
        final(s)@ == old(s)@ + hex_of(bytes@.subrange(from as int, to as int)),
{
    let mut i = from;
    proof {
        assert(bytes@.subrange(from as int, from as int) =~= Seq::<u8>::empty());
    }
    while i < to
        invariant
            from <= i <= to <= bytes.len(),
            s@ == old(s)@ + hex_of(bytes@.subrange(from as int, i as int)),
        decreases to - i,
    {
        let b = bytes[i];
        push_hex_byte(s, b);
        proof {
            assert(bytes@.subrange(from as int, (i + 1) as int).drop_last() =~= bytes@.subrange(
                from as int,
                i as int,
            ));
            assert(bytes@.subrange(from as int, (i + 1) as int).last() == bytes@[i as int]);
        }
        i = i + 1;
    }
}

/// Appends one hyphen.
fn push_hyphen(s: &mut String)
    ensures
        final(s)@ == old(s)@ + seq!['-'],
{
    proof {
        reveal_strlit("-");
        assert("-"@ =~= seq!['-']);
    }
    s.append("-");
}

/// Renders sixteen UUID bytes in the canonical hyphenated form.
pub fn uuid_to_string(d: &Vec<u8>) -> (r: String)
    requires
        d@.len() == 16,
    ensures
        r@ == uuid_hyphenated(d@),
        r@.len() == 36,
{
    let mut s = String::new();
    push_hex_range(&mut s, d, 0, 4);
    push_hyphen(&mut s);
    push_hex_range(&mut s, d, 4, 6);
    push_hyphen(&mut s);
    push_hex_range(&mut s, d, 6, 8);
    push_hyphen(&mut s);
    push_hex_range(&mut s, d, 8, 10);
    push_hyphen(&mut s);
    push_hex_range(&mut s, d, 10, 16);
    proof {
        assert(s@ =~= uuid_hyphenated(d@));
        lemma_hex_of_len(d@.subrange(0, 4));
        lemma_hex_of_len(d@.subrange(4, 6));
        lemma_hex_of_len(d@.subrange(6, 8));
        lemma_hex_of_len(d@.subrange(8, 10));
        lemma_hex_of_len(d@.subrange(10, 16));
    }
    s
}

/// A hexadecimal rendering has two characters per byte.
pub proof fn lemma_hex_of_len(bytes: Seq<u8>)
    ensures
        hex_of(bytes).len() == 2 * bytes.len(),
    decreases bytes.len(),
{
    if bytes.len() > 0 {
        lemma_hex_of_len(bytes.drop_last());
    }
}

/// The UUID the offline provider derives from a name: the MD5 digest of
/// `OfflinePlayer:` and the name, reinterpreted as a version-3 UUID and
/// rendered hyphenated.
pub open spec fn offline_uuid(name: Seq<char>) -> Seq<char> {
    uuid_hyphenated(v3_mix(md5_of(encode_utf8("OfflinePlayer:"@ + name))))
}

/// The offline provider: every user is accepted immediately under a UUID
/// derived from the name alone.
pub struct OfflineAuthPlugin;

impl AuthPlugin for OfflineAuthPlugin {
    type AuthData = NoAuthData;

    open spec fn start_post(&self, name: Seq<char>, r: EncryptionStartResult<NoAuthData>) -> bool {
        r matches EncryptionStartResult::Skip(s) && s.username@ == name && s.uuid@ == offline_uuid(
            name,
        )
    }

    open spec fn response_post(&self, r: Result<AuthSucceeded, AuthError>) -> bool {
        r matches Err(AuthError::Unsupported)
    }

    fn encryption_start(&self, name: String) -> (r: EncryptionStartResult<NoAuthData>) {
        let mut input = "OfflinePlayer:".to_owned();
        input.append(name.as_str());
        let bytes = input.as_str().as_bytes_vec();
        let mut digest = md5_digest(bytes.as_slice());
        let b6 = digest[6];
        let b8 = digest[8];
        digest.set(6, (b6 & 0x0f) | 0x30);
        digest.set(8, (b8 & 0x3f) | 0x80);
        proof {
            assert(digest@ =~= v3_mix(md5_of(encode_utf8("OfflinePlayer:"@ + name@))));
        }
        let uuid = uuid_to_string(&digest);
        EncryptionStartResult::Skip(AuthSucceeded { username: name, uuid })
    }

    fn encryption_response(&self, data: NoAuthData, res: EncryptionResponse) -> (r: Result<
        AuthSucceeded,
        AuthError,
    >) {
        Err(AuthError::Unsupported)
    }
}

/// The two's complement of a byte string, with the carry that leaves its
/// front: each byte inverted, one added at the right end.
pub open spec fn neg_suffix(d: Seq<u8>) -> (Seq<u8>, bool)
    decreases d.len(),
{
    if d.len() == 0 {
        (Seq::empty(), true)
    } else {
        let (tail, carry) = neg_suffix(d.skip(1));
        let x = (255 - d[0]) as u8;
        if carry {
            if x == 255 {
                (seq![0u8] + tail, true)
            } else {
                (seq![(x + 1) as u8] + tail, false)
            }
        } else {
            (seq![x] + tail, false)
        }
    }
}

/// The two's complement of a byte string, same width.
pub open spec fn neg_bytes(d: Seq<u8>) -> Seq<u8> {
    neg_suffix(d).0
}

/// Drops the leading zero digits of a hexadecimal rendering.
pub open spec fn strip_zeros(s: Seq<char>) -> Seq<char>
    decreases s.len(),
{
    if s.len() > 0 && s[0] == '0' {
        strip_zeros(s.skip(1))
    } else {
        s
    }
}

/// A magnitude's hexadecimal digits without leading zeros; zero itself
/// renders as one zero digit.
pub open spec fn magnitude_hex(s: Seq<char>) -> Seq<char> {
    if strip_zeros(s).len() == 0 {
        seq!['0']
    } else {
        strip_zeros(s)
    }
}

/// The session protocol's rendering of a digest: the digest read as a
/// big-endian two's-complement signed number, written in hexadecimal with
/// no leading zeros, with a minus sign when the sign bit is set (the
/// magnitude then being the number's two's complement).
pub open spec fn minecraft_digest(d: Seq<u8>) -> Seq<char> {
    if d.len() > 0 && d[0] >= 128 {
        seq!['-'] + magnitude_hex(hex_of(neg_bytes(d)))
    } else {
        magnitude_hex(hex_of(d))
    }
}

/// Computes the two's complement of the bytes, mirroring `neg_suffix`.
fn negate_bytes(d: &[u8]) -> (r: (Vec<u8>, bool))
    ensures
        (r.0@, r.1) == neg_suffix(d@),
        r.0@.len() == d@.len(),
    decreases d@.len(),
{
    if d.len() == 0 {
        proof {
            assert(Seq::<u8>::empty() =~= neg_suffix(d@).0);
        }
        (Vec::new(), true)
    } else {
        let rest = vstd::slice::slice_subrange(d, 1, d.len());
        let (mut tail, carry) = negate_bytes(rest);
        proof {
            assert(rest@ =~= d@.skip(1));
        }
        let x = 255 - d[0];
        let first: u8 = if carry {
            if x == 255 {
                0
            } else {
                x + 1
            }
        } else {
            x
        };
        let carry_out = carry && x == 255;
        let mut v: Vec<u8> = Vec::new();
        v.push(first);
        v.append(&mut tail);
        proof {
            assert(v@ =~= seq![first] + neg_suffix(d@.skip(1)).0);
            assert(v@ =~= neg_suffix(d@).0);
        }
        (v, carry_out)
    }
}

/// Dropping the zeros in front is the same as skipping past them.
proof fn lemma_strip_zeros_skip(s: Seq<char>, i: int)
    requires
        0 <= i <= s.len(),
        forall|j: int| 0 <= j < i ==> s[j] == '0',
        i == s.len() || s[i] != '0',
    ensures
        strip_zeros(s) == s.skip(i),
    decreases i,
{
    if i == 0 {
        assert(s.skip(0) =~= s);
    } else {
        assert(s[0] == '0');
        lemma_strip_zeros_skip(s.skip(1), i - 1);
        assert(s.skip(1).skip(i - 1) =~= s.skip(i));
    }
}

/// Renders a digest the way the Mojang session protocol does: as a signed
/// two's-complement hexadecimal number.
pub fn minecraft_hex_digest(d: &Vec<u8>) -> (r: String)
    requires
        d@.len() >= 1,
    ensures
        r@ == minecraft_digest(d@),
{
    let negative = d[0] >= 128;
    let mag: Vec<u8> = if negative {
        let (m, _) = negate_bytes(d.as_slice());
        m
    } else {
        vstd::slice::slice_to_vec(d.as_slice())
    };
    let ghost mags = if negative {
        neg_bytes(d@)
    } else {
        d@
    };
    let mut hexs = String::new();
    push_hex_range(&mut hexs, &mag, 0, mag.len());
    proof {
        assert(mag@.subrange(0, mag@.len() as int) =~= mags);
        lemma_hex_of_len(mags);
    }
    let n = hexs.as_str().unicode_len();
    let mut i: usize = 0;
    while i < n && hexs.as_str().get_char(i) == '0'
        invariant
            i <= n,
            n == hexs@.len(),
            hexs@ == hex_of(mags),
            forall|j: int| 0 <= j < i ==> hexs@[j] == '0',
        decreases n - i,
    {
        i = i + 1;
    }
    proof {
        lemma_strip_zeros_skip(hexs@, i as int);
    }
    if i == n {
        proof {
            assert(hexs@.skip(i as int) =~= Seq::<char>::empty());
            reveal_strlit("0");
            reveal_strlit("-0");
            assert("0"@ =~= magnitude_hex(hex_of(mags)));
            assert("-0"@ =~= seq!['-'] + magnitude_hex(hex_of(mags)));
        }
        if negative {
            "-0".to_owned()
        } else {
            "0".to_owned()
        }
    } else {
        let stripped = hexs.as_str().substring_char(i, n);
        proof {
            assert(stripped@ == strip_zeros(hexs@));
            assert(strip_zeros(hexs@).len() > 0);
        }
        if negative {
            let mut out = "-".to_owned();
            proof {
                reveal_strlit("-");
                assert("-"@ =~= seq!['-']);
            }
            out.append(stripped);
            out
        } else {
            stripped.to_owned()
        }
    }
}

/// Compares two byte strings.
fn bytes_eq(a: &[u8], b: &[u8]) -> (r: bool)
    ensures
        r == (a@ == b@),
{
    if a.len() != b.len() {
        proof {
            assert(a@.len() != b@.len());
        }
        return false;
    }
    let mut i: usize = 0;
    while i < a.len()
        invariant
            a@.len() == b@.len(),
            i <= a@.len(),
            forall|j: int| 0 <= j < i ==> a@[j] == b@[j],
        decreases a@.len() - i,
    {
        if a[i] != b[i] {
            return false;
        }
        i = i + 1;
    }
    proof {
        assert(a@ =~= b@);
    }
    true
}

/// The private handle of the Mojang provider: the token it issued and the
/// name it was issued for.
pub struct AuthlibAuthData {
    pub verify_token: Vec<u8>,
    pub name: String,
}

/// The query the session service is asked to verify: the user's name and
/// the hexadecimal server-id digest.
pub struct SessionQuery {
    pub username: String,
    pub server_id: String,
}

/// The raw fields of the session service's answer.
pub struct HasJoinedResponse {
    pub id: String,
    pub name: String,
}

/// The Mojang provider: challenges every client with RSA and verifies the
/// response against the session service. The service call itself is the
/// host's; everything before and after it is computed here.
pub struct MojangAuthPlugin {
    private: rsa::RsaPrivateKey,
    public_der: Vec<u8>,
}

impl MojangAuthPlugin {
    /// The DER encoding of the key pair's public half.
    pub closed spec fn der(&self) -> Seq<u8> {
        self.public_der@
    }

    fn new(private: rsa::RsaPrivateKey) -> (r: MojangAuthPlugin) {
        let public_der = public_key_der(&private);
        MojangAuthPlugin { private, public_der }
    }

    /// Builds a provider around a freshly generated 1024-bit key pair.
    pub fn with_generated_keypair() -> (r: Result<MojangAuthPlugin, AuthError>)
        ensures
            r matches Err(e) ==> e is Rsa,
    {
        match generate_rsa_key() {
            Ok(key) => Ok(MojangAuthPlugin::new(key)),
            Err(e) => Err(AuthError::Rsa(e)),
        }
    }

    /// Issues the encryption challenge for a claimed name: an empty server
    /// id, the public key, and a fresh four-byte verify token, which the
    /// returned handle remembers together with the name.
    pub fn encryption_start(&self, name: String) -> (r: EncryptionStartResult<AuthlibAuthData>)
        ensures
            r matches EncryptionStartResult::BeginEncryption(req, d) && req.server_id@
                == Seq::<char>::empty() && req.public@ == self.der() && req.verify_token@.len()
                == 4 && d.verify_token@ == req.verify_token@ && d.name@ == name@,
    {
        let token = random_token();
        let token2 = vstd::slice::slice_to_vec(token.as_slice());
        let req = EncryptionRequest {
            public: vstd::slice::slice_to_vec(self.public_der.as_slice()),
            server_id: String::new(),
            verify_token: token2,
        };
        EncryptionStartResult::BeginEncryption(
            req,
            AuthlibAuthData { verify_token: token, name },
        )
    }

    /// Judges the decrypted halves of an encryption response: the verify
    /// token must be the one issued, the shared secret must be sixteen
    /// bytes, and the resulting query carries the session digest of the
    /// shared secret followed by the public key.
    pub fn check_encryption_response(
        &self,
        name: String,
        expected_token: &Vec<u8>,
        verify_token: &Vec<u8>,
        shared_secret: &Vec<u8>,
    ) -> (r: Result<SessionQuery, AuthError>)
        ensures
            (if verify_token@ != expected_token@ {
                r matches Err(AuthError::BadVerifyToken)
            } else if shared_secret@.len() != 16 {
                r matches Err(AuthError::BadSharedSecret)
            } else {
                r matches Ok(q) && q.username == name && q.server_id@ == minecraft_digest(
                    sha1_of(shared_secret@ + self.der()),
                )
            }),
    {
        if !bytes_eq(verify_token.as_slice(), expected_token.as_slice()) {
            return Err(AuthError::BadVerifyToken);
        }
        if shared_secret.len() != 16 {
            return Err(AuthError::BadSharedSecret);
        }
        let mut input: Vec<u8> = Vec::new();
        input.extend_from_slice(shared_secret.as_slice());
        input.extend_from_slice(self.public_der.as_slice());
        proof {
            assert(input@ =~= shared_secret@ + self.der());
        }
        let digest = sha1_digest(input.as_slice());
        let server_id = minecraft_hex_digest(&digest);
        Ok(SessionQuery { username: name, server_id })
    }

    /// Decrypts an encryption response with the provider's key and judges
    /// it. What the judgement returns for each decrypted value is pinned by
    /// `check_encryption_response`; the decryption itself can only be
    /// trusted to the rsa crate, so a failed decryption surfaces as `Rsa`
    /// and a success carries the digest of some sixteen-byte secret.
    pub fn encryption_response_query(
        &self,
        data: AuthlibAuthData,
        res: &EncryptionResponse,
    ) -> (r: Result<SessionQuery, AuthError>)
        ensures
            r matches Ok(q) ==> q.username@ == data.name@ && (exists|s: Seq<u8>|
                s.len() == 16 && q.server_id@ == minecraft_digest(
                    #[trigger] sha1_of(s + self.der()),
                )),
            r matches Err(e) ==> (e is Rsa || e is BadVerifyToken || e is BadSharedSecret),
    {
        let verify_token = match rsa_decrypt(&self.private, res.verify_token.as_slice()) {
            Ok(v) => v,
            Err(e) => {
                return Err(AuthError::Rsa(e));
            },
        };
        let shared_secret = match rsa_decrypt(&self.private, res.shared_secret.as_slice()) {
            Ok(v) => v,
            Err(e) => {
                return Err(AuthError::Rsa(e));
            },
        };
        let r = self.check_encryption_response(
            data.name,
            &data.verify_token,
            &verify_token,
            &shared_secret,
        );
        proof {
            if r is Ok {
                assert(shared_secret@.len() == 16 && r->Ok_0.server_id@ == minecraft_digest(
                    sha1_of(shared_secret@ + self.der()),
                ));
            }
        }
        r
    }
}

/// What `json_string_field` returns: the named field of a text parsed as a
/// JSON object, when the text is JSON and the field is a string. A function
/// of the text and the key alone.
pub uninterp spec fn json_str_field(s: Seq<char>, key: Seq<char>) -> Option<Seq<char>>;

/// Relies on `serde_json::from_str`, `Value::get` and `Value::as_str`: the
/// named string field of a JSON text, when there is one.
#[verifier::external_body]
fn json_string_field(s: &str, key: &str) -> (r: Option<String>)
    ensures
        match r {
            Some(v) => json_str_field(s@, key@) == Some(v@),
            None => json_str_field(s@, key@) is None,
        },
{
    serde_json::from_str::<serde_json::Value>(s)
        .ok()
        .as_ref()
        .and_then(|v| v.get(key))
        .and_then(serde_json::Value::as_str)
        .map(str::to_owned)
}

/// The canonical hyphenation of a 32-digit UUID text: groups of 8, 4, 4, 4
/// and 12 digits.
pub open spec fn hyphenate32(id: Seq<char>) -> Seq<char> {
    id.subrange(0, 8) + seq!['-'] + id.subrange(8, 12) + seq!['-'] + id.subrange(12, 16)
        + seq!['-'] + id.subrange(16, 20) + seq!['-'] + id.subrange(20, 32)
}

/// Inserts the canonical hyphens into a 32-character UUID text; any other
/// length is refused.
pub fn hyphenate_uuid(id: &str) -> (r: Option<String>)
    ensures
        (if id@.len() == 32 {
            r matches Some(u) && u@ == hyphenate32(id@) && u@.len() == 36
        } else {
            r is None
        }),
{
    let n = id.unicode_len();
    if n != 32 {
        return None;
    }
    let mut out = String::new();
    out.append(id.substring_char(0, 8));
    push_hyphen(&mut out);
    out.append(id.substring_char(8, 12));
    push_hyphen(&mut out);
    out.append(id.substring_char(12, 16));
    push_hyphen(&mut out);
    out.append(id.substring_char(16, 20));
    push_hyphen(&mut out);
    out.append(id.substring_char(20, 32));
    proof {
        assert(out@ =~= hyphenate32(id@));
    }
    Some(out)
}

/// Extracts the session service's two fields from its JSON answer: exactly
/// the `id` and `name` string fields of the body, and a transport-level
/// failure when either is missing.
pub fn parse_has_joined(body: &str) -> (r: Result<HasJoinedResponse, AuthError>)
    ensures
        match r {
            Ok(h) => json_str_field(body@, "id"@) == Some(h.id@) && json_str_field(
                body@,
                "name"@,
            ) == Some(h.name@),
            Err(e) => e matches AuthError::Transport(_) && (json_str_field(body@, "id"@) is None
                || json_str_field(body@, "name"@) is None),
        },
{
    let id = match json_string_field(body, "id") {
        Some(id) => id,
        None => {
            return Err(AuthError::Transport("session response lacks an id".to_owned()));
        },
    };
    let name = match json_string_field(body, "name") {
        Some(name) => name,
        None => {
            return Err(AuthError::Transport("session response lacks a name".to_owned()));
        },
    };
    Ok(HasJoinedResponse { id, name })
}

/// Turns the session service's fields into the authenticated user: the
/// 32-digit id becomes the canonical hyphenated UUID.
pub fn auth_from_has_joined(h: HasJoinedResponse) -> (r: Result<AuthSucceeded, AuthError>)
    ensures
        (if h.id@.len() == 32 {
            r matches Ok(a) && a.username == h.name && a.uuid@ == hyphenate32(h.id@)
        } else {
            r matches Err(AuthError::Transport(_))
        }),
{
    match hyphenate_uuid(h.id.as_str()) {
        Some(uuid) => Ok(AuthSucceeded { username: h.name, uuid }),
        None => Err(AuthError::Transport("session id is not 32 digits".to_owned())),
    }
}

} // verus!
