//! Remote control of the gateway from paired devices: device and credential
//! checks, keyed hashes, opaque session rooms, and session keys wrapped at rest.
use vstd::prelude::*;
use vstd::utf8::{decode_utf8, encode_utf8, valid_utf8};
use aes_gcm::aead::{Aead, KeyInit};
use hmac::Mac;
use rand::{Rng, RngCore};
use crate::redaction::AppError;
use crate::json_text::{json_int, json_member, json_string, push_json_int, push_json_key, push_json_string};
use crate::telemetry::{member, JsonValue};
use crate::text::{
    bytes_of, chars_eq_str, chars_of, is_ascii_alnum_char, char_is_ascii_alnum, owned, push_char,
    split_on, split_on_exec, string_from_utf8, trim, trim_bounds, trim_chars, lemma_index_of_is,
    index_of, digit_char,
};

verus! {

/// Longest device name, in characters.
pub const MAX_DEVICE_NAME_LEN: usize = 80;

/// Length of a session key: 256 bits in unpadded base64url.
pub const SESSION_KEY_LEN: usize = 43;

/// The hosted Cloud Gateway used unless another one is configured.
pub open spec fn hosted_gateway_url() -> Seq<char> {
    "https://choruz-remote-control-gateway.jiachengguo778.workers.dev"@
}

// ── Device material ───────────────────────────────────────────────────

/// A character of unpadded base64url text.
pub open spec fn url_safe_char(c: char) -> bool {
    is_ascii_alnum_char(c) || c == '-' || c == '_'
}

/// The refusal of a device's name and session key, if any. A session key
/// counts its bytes; when every character is ASCII that is its length.
pub open spec fn device_error(name: Seq<char>, session_key: Seq<char>) -> Option<Seq<char>> {
    let n = trim(name);
    if n.len() == 0 || n.len() > MAX_DEVICE_NAME_LEN {
        Some("device_name must contain 1 to 80 characters"@)
    } else if !(session_key.len() == SESSION_KEY_LEN && forall|i: int|
        0 <= i < session_key.len() ==> url_safe_char(#[trigger] session_key[i])) {
        Some("session_key must be a 256-bit base64url value"@)
    } else {
        None
    }
}

fn all_url_safe(v: &[char]) -> (r: bool)
    ensures
        r == forall|i: int| 0 <= i < v@.len() ==> url_safe_char(#[trigger] v@[i]),
{
    let mut i: usize = 0;
    while i < v.len()
        invariant
            i <= v.len(),
            forall|j: int| 0 <= j < i ==> url_safe_char(#[trigger] v@[j]),
        decreases v.len() - i,
    {
        let c = v[i];
        if !(char_is_ascii_alnum(c) || c == '-' || c == '_') {
            return false;
        }
        i = i + 1;
    }
    true
}

/// Checks the name and session key a device pairs with.
pub fn validate_device(name: &str, session_key: &str) -> (r: Result<(), AppError>)
    ensures
        match device_error(name@, session_key@) {
            None => r is Ok,
            Some(m) => r matches Err(e) && e matches AppError::Validation(x) && x@ == m,
        },
{
    let v = chars_of(name);
    let t = trim_chars(v.as_slice());
    if t.len() == 0 || t.len() > MAX_DEVICE_NAME_LEN {
        return Err(AppError::Validation(owned("device_name must contain 1 to 80 characters")));
    }
    let k = chars_of(session_key);
    if !(k.len() == SESSION_KEY_LEN && all_url_safe(k.as_slice())) {
        return Err(AppError::Validation(owned("session_key must be a 256-bit base64url value")));
    }
    Ok(())
}

/// One random part of a pairing credential: 22 base64url characters (128 bits).
pub open spec fn credential_part(p: Seq<char>) -> bool {
    p.len() == 22 && forall|i: int| 0 <= i < p.len() ==> url_safe_char(#[trigger] p[i])
}

/// `v1.<id>.<secret>`, both random parts well formed.
pub open spec fn pairing_credential_ok(v: Seq<char>) -> bool {
    let parts = split_on(v, '.');
    parts.len() == 3 && parts[0] == "v1"@ && credential_part(parts[1]) && credential_part(parts[2])
}

/// Is `value` shaped like a pairing credential?
pub fn valid_pairing_credential(value: &str) -> (r: bool)
    ensures
        r == pairing_credential_ok(value@),
{
    let v = chars_of(value);
    let parts = split_on_exec(v.as_slice(), '.');
    if parts.len() != 3 {
        return false;
    }
    chars_eq_str(parts[0].as_slice(), "v1") && parts[1].len() == 22 && all_url_safe(
        parts[1].as_slice(),
    ) && parts[2].len() == 22 && all_url_safe(parts[2].as_slice())
}

// ── Encodings ─────────────────────────────────────────────────────────

/// A lowercase hexadecimal digit for `v < 16`.
pub open spec fn hex_digit(v: int) -> char {
    if v < 10 {
        ((('0' as u32) as int) + v) as char
    } else {
        ((('a' as u32) as int) + v - 10) as char
    }
}

/// Lowercase hexadecimal text of `b`, two digits per byte.
pub open spec fn hex_lower(b: Seq<u8>) -> Seq<char>
    decreases b.len(),
{
    if b.len() == 0 {
        seq![]
    } else {
        hex_lower(b.drop_last()) + seq![hex_digit((b.last() as int) / 16), hex_digit((b.last() as int) % 16)]
    }
}

pub open spec fn is_hex_lower_char(c: char) -> bool {
    ('0' <= c && c <= '9') || ('a' <= c && c <= 'f')
}

/// Hex text is twice as long as its bytes and made of lowercase hex digits.
pub proof fn lemma_hex_lower(b: Seq<u8>)
    ensures
        hex_lower(b).len() == 2 * b.len(),
        forall|i: int| 0 <= i < hex_lower(b).len() ==> is_hex_lower_char(#[trigger] hex_lower(b)[i]),
    decreases b.len(),
{
    if b.len() > 0 {
        lemma_hex_lower(b.drop_last());
        let h = hex_lower(b.drop_last());
        let x = b.last() as int;
        assert(is_hex_lower_char(hex_digit(x / 16)));
        assert(is_hex_lower_char(hex_digit(x % 16)));
        assert forall|i: int| 0 <= i < hex_lower(b).len() implies is_hex_lower_char(
            #[trigger] hex_lower(b)[i],
        ) by {
            if i < h.len() {
                assert(hex_lower(b)[i] == h[i]);
            }
        }
    }
}

/// `hex::encode`: lowercase hexadecimal, two digits per byte.
#[verifier::external_body]
pub(crate) fn hex_encode(bytes: &[u8]) -> (r: String)
    ensures
        r@ == hex_lower(bytes@),
{
    hex::encode(bytes)
}

/// A character of the base64url alphabet for `v < 64`.
pub open spec fn b64url_char(v: int) -> char {
    if v < 26 {
        ((('A' as u32) as int) + v) as char
    } else if v < 52 {
        ((('a' as u32) as int) + v - 26) as char
    } else if v < 62 {
        ((('0' as u32) as int) + v - 52) as char
    } else if v == 62 {
        '-'
    } else {
        '_'
    }
}

/// Unpadded base64url text of `b`: each group of three bytes gives four
/// characters, a final one or two bytes give two or three.
pub open spec fn base64url_nopad(b: Seq<u8>) -> Seq<char>
    decreases b.len(),
{
    if b.len() == 0 {
        seq![]
    } else {
        let x0 = b[0] as int;
        let x1 = if b.len() > 1 { b[1] as int } else { 0 };
        let x2 = if b.len() > 2 { b[2] as int } else { 0 };
        if b.len() == 1 {
            seq![b64url_char(x0 / 4), b64url_char((x0 % 4) * 16)]
        } else if b.len() == 2 {
            seq![
                b64url_char(x0 / 4),
                b64url_char((x0 % 4) * 16 + x1 / 16),
                b64url_char((x1 % 16) * 4),
            ]
        } else {
            seq![
                b64url_char(x0 / 4),
                b64url_char((x0 % 4) * 16 + x1 / 16),
                b64url_char((x1 % 16) * 4 + x2 / 64),
                b64url_char(x2 % 64),
            ] + base64url_nopad(b.skip(3))
        }
    }
}

/// Unpadded base64url text has `ceil(4n/3)` characters, all of the url-safe alphabet.
pub proof fn lemma_base64url_nopad(b: Seq<u8>)
    ensures
        base64url_nopad(b).len() == (4 * b.len() + 2) / 3,
        forall|i: int| 0 <= i < base64url_nopad(b).len() ==> url_safe_char(
            #[trigger] base64url_nopad(b)[i],
        ),
    decreases b.len(),
{
    let e = base64url_nopad(b);
    if b.len() >= 3 {
        lemma_base64url_nopad(b.skip(3));
        let rest = base64url_nopad(b.skip(3));
        assert forall|i: int| 0 <= i < e.len() implies url_safe_char(#[trigger] e[i]) by {
            if i >= 4 {
                assert(e[i] == rest[i - 4]);
            }
        }
    }
}

/// What base64url decoding without padding gives for `text`, none when it is not such text.
pub uninterp spec fn base64url_decoded(text: Seq<char>) -> Option<Seq<u8>>;

/// `URL_SAFE_NO_PAD.encode`: unpadded base64url text, which decodes back to the bytes.
#[verifier::external_body]
pub(crate) fn encode_base64url(bytes: &[u8]) -> (r: String)
    ensures
        r@ == base64url_nopad(bytes@),
        base64url_decoded(r@) == Some(bytes@),
{
    base64::Engine::encode(&base64::engine::general_purpose::URL_SAFE_NO_PAD, bytes)
}

/// `URL_SAFE_NO_PAD.decode(..).ok()`: named `base64url_decoded` of the text.
#[verifier::external_body]
pub(crate) fn decode_base64url(text: &str) -> (r: Option<Vec<u8>>)
    ensures
        match r {
            Some(b) => base64url_decoded(text@) == Some(b@),
            None => base64url_decoded(text@) is None,
        },
{
    match base64::Engine::decode(&base64::engine::general_purpose::URL_SAFE_NO_PAD, text) {
        Ok(b) => Some(b),
        Err(_) => None,
    }
}

// ── Keyed hashes ──────────────────────────────────────────────────────

/// The HMAC-SHA256 tag of `message` under `key`.
pub uninterp spec fn hmac_sha256_tag(key: Seq<u8>, message: Seq<u8>) -> Seq<u8>;

/// HMAC-SHA256 (`Hmac::<Sha256>::new_from_slice`, `update`, `finalize`):
/// the tag is named `hmac_sha256_tag` of key and message and has 32 bytes.
#[verifier::external_body]
pub(crate) fn hmac_sha256(key: &[u8], message: &[u8]) -> (r: Vec<u8>)
    ensures
        r@ == hmac_sha256_tag(key@, message@),
        r@.len() == 32,
{
    let mut mac = <hmac::Hmac<sha2::Sha256> as Mac>::new_from_slice(key).expect(
        "HMAC accepts any key",
    );
    mac.update(message);
    mac.finalize().into_bytes().to_vec()
}

/// The message of a keyed hash: the purpose, a NUL byte, then the value.
pub open spec fn purpose_message(purpose: Seq<char>, value: Seq<char>) -> Seq<u8> {
    encode_utf8(purpose) + seq![0u8] + encode_utf8(value)
}

pub open spec fn keyed_hash_spec(secret: Seq<char>, purpose: Seq<char>, value: Seq<char>) -> Seq<char> {
    hex_lower(hmac_sha256_tag(encode_utf8(secret), purpose_message(purpose, value)))
}

/// Lowercase hex HMAC-SHA256 of `value` under `secret`, bound to `purpose`.
pub fn keyed_hash(secret: &str, purpose: &str, value: &str) -> (r: String)
    ensures
        r@ == keyed_hash_spec(secret@, purpose@, value@),
        r@.len() == 64,
        forall|i: int| 0 <= i < r@.len() ==> is_hex_lower_char(#[trigger] r@[i]),
{
    let key = bytes_of(secret);
    let mut message = bytes_of(purpose);
    message.push(0u8);
    let v = bytes_of(value);
    let mut i: usize = 0;
    let ghost head = message@;
    while i < v.len()
        invariant
            i <= v@.len(),
            message@ == head + v@.take(i as int),
        decreases v.len() - i,
    {
        message.push(v[i]);
        assert(head + v@.take(i + 1) =~= (head + v@.take(i as int)).push(v@[i as int]));
        i = i + 1;
    }
    assert(v@.take(v@.len() as int) =~= v@);
    assert(message@ =~= purpose_message(purpose@, value@));
    let tag = hmac_sha256(key.as_slice(), message.as_slice());
    proof {
        lemma_hex_lower(tag@);
    }
    hex_encode(tag.as_slice())
}

/// The Gateway room of a session: a keyed hash of the session key, so the
/// room never reveals the key.
pub fn session_room(session_key: &str) -> (r: String)
    ensures
        r@ == keyed_hash_spec("choruz.remote-control.session-room.v1"@, "room"@, session_key@),
        r@.len() == 64,
        forall|i: int| 0 <= i < r@.len() ==> is_hex_lower_char(#[trigger] r@[i]),
{
    keyed_hash("choruz.remote-control.session-room.v1", "room", session_key)
}

/// The secret pairing hashes are keyed with: the configured pairing secret,
/// else the session-signing secret.
pub fn pairing_secret(configured: Option<String>, session_secret: &str) -> (r: String)
    ensures
        r@ == (match configured {
            Some(s) => s@,
            None => session_secret@,
        }),
{
    match configured {
        Some(s) => s,
        None => owned(session_secret),
    }
}

/// The issuer the hosted Gateway knows this installation by: a keyed hash of
/// its URL, so no local secret leaves the machine.
pub fn gateway_issuer(pairing_secret: &str) -> (r: String)
    ensures
        r@ == keyed_hash_spec(pairing_secret@, "remote-control-gateway-issuer"@, hosted_gateway_url()),
        r@.len() == 64,
{
    keyed_hash(
        pairing_secret,
        "remote-control-gateway-issuer",
        "https://choruz-remote-control-gateway.jiachengguo778.workers.dev",
    )
}

// ── Pairing credentials ───────────────────────────────────────────────

/// `OsRng.fill_bytes`: `n` bytes from the operating system's generator.
#[verifier::external_body]
fn os_random_bytes(n: usize) -> (r: Vec<u8>)
    ensures
        r@.len() == n,
{
    let mut b = vec![0u8; n];
    rand::rngs::OsRng.fill_bytes(&mut b);
    b
}

/// The pairing id and the full credential `v1.<id>.<secret>` made from two random 128-bit values.
pub fn pairing_credential_from(id_bytes: &[u8], secret_bytes: &[u8]) -> (r: (String, String))
    requires
        id_bytes@.len() == 16,
        secret_bytes@.len() == 16,
    ensures
        r.0@ == base64url_nopad(id_bytes@),
        r.1@ == "v1."@ + r.0@ + "."@ + base64url_nopad(secret_bytes@),
        r.0@.len() == 22,
        pairing_credential_ok(r.1@),
{
    let id = encode_base64url(id_bytes);
    let secret = encode_base64url(secret_bytes);
    let mut credential = owned("v1.");
    credential.append(id.as_str());
    credential.append(".");
    credential.append(secret.as_str());
    proof {
        reveal_strlit("v1.");
        reveal_strlit("v1");
        reveal_strlit(".");
        lemma_base64url_nopad(id_bytes@);
        lemma_base64url_nopad(secret_bytes@);
        assert(no_dot(id@));
        assert(no_dot(secret@));
        lemma_split_three("v1"@, id@, secret@);
        assert(credential@ =~= "v1"@ + "."@ + id@ + "."@ + secret@);
    }
    (id, credential)
}

/// A fresh pairing id and credential.
pub fn generate_pairing_credential() -> (r: (String, String))
    ensures
        r.0@.len() == 22,
        pairing_credential_ok(r.1@),
        r.1@ == "v1."@ + r.0@ + "."@ + split_on(r.1@, '.')[2],
{
    let id = os_random_bytes(16);
    let secret = os_random_bytes(16);
    let r = pairing_credential_from(id.as_slice(), secret.as_slice());
    proof {
        reveal_strlit("v1.");
        reveal_strlit("v1");
        reveal_strlit(".");
        lemma_base64url_nopad(secret@);
        lemma_base64url_nopad(id@);
        assert(no_dot(r.0@));
        assert(no_dot(base64url_nopad(secret@)));
        lemma_split_three("v1"@, r.0@, base64url_nopad(secret@));
        assert(r.1@ =~= "v1"@ + "."@ + r.0@ + "."@ + base64url_nopad(secret@));
    }
    r
}

/// Text without a `.`.
pub open spec fn no_dot(s: Seq<char>) -> bool {
    forall|i: int| 0 <= i < s.len() ==> s[i] != '.'
}

proof fn lemma_split_no_dot(s: Seq<char>)
    requires
        no_dot(s),
    ensures
        split_on(s, '.') == seq![s],
{
    lemma_index_of_is(s, '.', s.len() as int);
}

proof fn lemma_split_dot(a: Seq<char>, b: Seq<char>)
    requires
        no_dot(a),
    ensures
        split_on(a + "."@ + b, '.') == seq![a] + split_on(b, '.'),
{
    reveal_strlit(".");
    let s = a + "."@ + b;
    assert(s[a.len() as int] == '.');
    assert forall|j: int| 0 <= j < a.len() implies s[j] != '.' by {
        assert(s[j] == a[j]);
    }
    lemma_index_of_is(s, '.', a.len() as int);
    assert(s.take(a.len() as int) =~= a);
    assert(s.skip(a.len() + 1 as int) =~= b);
}

/// Three dot-free parts joined by dots split back into those three parts.
pub proof fn lemma_split_three(a: Seq<char>, b: Seq<char>, c: Seq<char>)
    requires
        no_dot(a),
        no_dot(b),
        no_dot(c),
    ensures
        split_on(a + "."@ + b + "."@ + c, '.') == seq![a, b, c],
{
    lemma_split_no_dot(c);
    lemma_split_dot(b, c);
    assert(a + "."@ + b + "."@ + c =~= a + "."@ + (b + "."@ + c));
    lemma_split_dot(a, b + "."@ + c);
    assert(seq![a] + (seq![b] + seq![c]) =~= seq![a, b, c]);
}

/// `n` as exactly `width` decimal digits, zero-padded (higher digits dropped).
pub open spec fn padded_digits(n: nat, width: nat) -> Seq<char>
    decreases width,
{
    if width == 0 {
        seq![]
    } else {
        padded_digits(n / 10, (width - 1) as nat).push(digit_char(n % 10))
    }
}

/// The eight-digit pairing code for `n < 100_000_000`, zero-padded.
pub fn pairing_code_from(n: u32) -> (r: String)
    requires
        n < 100_000_000,
    ensures
        r@ == padded_digits(n as nat, 8),
{
    let mut out = String::new();
    proof {
        reveal_with_fuel(padded_digits, 9);
    }
    let d7 = n / 10000000;
    let d6 = n / 1000000 % 10;
    let d5 = n / 100000 % 10;
    let d4 = n / 10000 % 10;
    let d3 = n / 1000 % 10;
    let d2 = n / 100 % 10;
    let d1 = n / 10 % 10;
    let d0 = n % 10;
    push_char(&mut out, digit_exec(d7));
    push_char(&mut out, digit_exec(d6));
    push_char(&mut out, digit_exec(d5));
    push_char(&mut out, digit_exec(d4));
    push_char(&mut out, digit_exec(d3));
    push_char(&mut out, digit_exec(d2));
    push_char(&mut out, digit_exec(d1));
    push_char(&mut out, digit_exec(d0));
    proof {
        let n0 = n as nat;
        assert(n0 / 10 / 10 == n0 / 100);
        assert(n0 / 100 / 10 == n0 / 1000);
        assert(n0 / 1000 / 10 == n0 / 10000);
        assert(n0 / 10000 / 10 == n0 / 100000);
        assert(n0 / 100000 / 10 == n0 / 1000000);
        assert(n0 / 1000000 / 10 == n0 / 10000000);
        assert(n0 / 10000000 % 10 == n0 / 10000000);
        assert(out@ =~= padded_digits(n0, 8));
    }
    out
}

fn digit_exec(d: u32) -> (c: char)
    requires
        d < 10,
    ensures
        c == digit_char(d as nat),
{
    if d == 0 { '0' } else if d == 1 { '1' } else if d == 2 { '2' } else if d == 3 { '3' } else if d
        == 4 { '4' } else if d == 5 { '5' } else if d == 6 { '6' } else if d == 7 { '7' } else if d
        == 8 { '8' } else { '9' }
}

/// `thread_rng().gen_range(0..bound)`: a value below `bound`.
#[verifier::external_body]
fn random_below(bound: u32) -> (r: u32)
    requires
        bound > 0,
    ensures
        r < bound,
{
    rand::thread_rng().gen_range(0..bound)
}

/// A fresh eight-digit pairing code.
pub fn generate_pairing_code() -> (r: String)
    ensures
        exists|n: nat| n < 100_000_000 && r@ == padded_digits(n, 8),
{
    let n = random_below(100_000_000);
    pairing_code_from(n)
}

// ── Session keys at rest ──────────────────────────────────────────────

/// The 32 bytes HKDF-SHA256 expands from `salt`, `ikm` and `info`, none when it refuses.
pub uninterp spec fn hkdf_sha256_okm32(salt: Seq<u8>, ikm: Seq<u8>, info: Seq<u8>) -> Option<Seq<u8>>;

/// `Hkdf::<Sha256>::new(Some(salt), ikm).expand(info, &mut [0u8; 32])`:
/// named `hkdf_sha256_okm32` of its inputs; the key has 32 bytes. `expand`
/// refuses only outputs longer than 255 hash blocks (8160 bytes), so 32
/// bytes always come back.
#[verifier::external_body]
fn hkdf_sha256_expand32(salt: &[u8], ikm: &[u8], info: &[u8]) -> (r: Option<Vec<u8>>)
    ensures
        r is Some,
        match r {
            Some(k) => hkdf_sha256_okm32(salt@, ikm@, info@) == Some(k@) && k@.len() == 32,
            None => hkdf_sha256_okm32(salt@, ikm@, info@) is None,
        },
{
    let mut key = [0u8; 32];
    match hkdf::Hkdf::<sha2::Sha256>::new(Some(salt), ikm).expand(info, &mut key) {
        Ok(()) => Some(key.to_vec()),
        Err(_) => None,
    }
}

/// Longest plaintext AES-GCM seals, in bytes (2^36).
pub const MAX_SEALED_PLAINTEXT: u64 = 68719476736;

/// AES-256-GCM sealing of `plaintext` (no associated data), none when it refuses.
pub uninterp spec fn aes256gcm_sealed(key: Seq<u8>, nonce: Seq<u8>, plaintext: Seq<u8>) -> Option<Seq<u8>>;

/// AES-256-GCM opening of `ciphertext`, none when it does not authenticate.
pub uninterp spec fn aes256gcm_opened(key: Seq<u8>, nonce: Seq<u8>, ciphertext: Seq<u8>) -> Option<Seq<u8>>;

/// `Aes256Gcm::new_from_slice(key)` then `encrypt(Nonce::from_slice(nonce), plaintext)`:
/// named `aes256gcm_sealed`; what it seals opens again under the same key and
/// nonce. Sealing refuses only a plaintext longer than 2^36 bytes (there is
/// no associated data).
#[verifier::external_body]
fn aes256gcm_encrypt(key: &[u8], nonce: &[u8], plaintext: &[u8]) -> (r: Option<Vec<u8>>)
    requires
        key@.len() == 32,
        nonce@.len() == 12,
    ensures
        plaintext@.len() <= MAX_SEALED_PLAINTEXT ==> r is Some,
        match r {
            Some(c) => aes256gcm_sealed(key@, nonce@, plaintext@) == Some(c@) && aes256gcm_opened(
                key@,
                nonce@,
                c@,
            ) == Some(plaintext@),
            None => aes256gcm_sealed(key@, nonce@, plaintext@) is None,
        },
{
    let cipher = aes_gcm::Aes256Gcm::new_from_slice(key).expect("a 32-byte key");
    match cipher.encrypt(aes_gcm::Nonce::from_slice(nonce), plaintext) {
        Ok(c) => Some(c),
        Err(_) => None,
    }
}

/// `Aes256Gcm::new_from_slice(key)` then `decrypt(Nonce::from_slice(nonce), ciphertext)`:
/// named `aes256gcm_opened`.
#[verifier::external_body]
fn aes256gcm_decrypt(key: &[u8], nonce: &[u8], ciphertext: &[u8]) -> (r: Option<Vec<u8>>)
    requires
        key@.len() == 32,
        nonce@.len() == 12,
    ensures
        match r {
            Some(p) => aes256gcm_opened(key@, nonce@, ciphertext@) == Some(p@),
            None => aes256gcm_opened(key@, nonce@, ciphertext@) is None,
        },
{
    let cipher = aes_gcm::Aes256Gcm::new_from_slice(key).expect("a 32-byte key");
    match cipher.decrypt(aes_gcm::Nonce::from_slice(nonce), ciphertext) {
        Ok(p) => Some(p),
        Err(_) => None,
    }
}

/// The key that wraps session keys at rest, derived from the pairing secret.
pub open spec fn storage_key(secret: Seq<char>) -> Option<Seq<u8>> {
    hkdf_sha256_okm32(
        encode_utf8("choruz.remote-control.storage.v1"@),
        encode_utf8(secret),
        encode_utf8("session-key"@),
    )
}

/// Derives the storage key; derivation always succeeds.
pub fn wrapping_key(secret: &str) -> (r: Result<Vec<u8>, AppError>)
    ensures
        r is Ok,
        storage_key(secret@) is Some,
        match storage_key(secret@) {
            Some(k) => r matches Ok(x) && x@ == k && x@.len() == 32,
            None => r matches Err(e) && e matches AppError::Internal(m) && m@
                == "derive remote-control storage key"@,
        },
{
    let salt = bytes_of("choruz.remote-control.storage.v1");
    let ikm = bytes_of(secret);
    let info = bytes_of("session-key");
    match hkdf_sha256_expand32(salt.as_slice(), ikm.as_slice(), info.as_slice()) {
        Some(k) => Ok(k),
        None => Err(AppError::Internal(owned("derive remote-control storage key"))),
    }
}

/// `v1.<nonce>.<ciphertext>` of a session key sealed under the storage key with `nonce`.
pub open spec fn wrap_outcome(secret: Seq<char>, session_key: Seq<char>, nonce: Seq<u8>) -> Result<Seq<char>, Seq<char>> {
    match storage_key(secret) {
        None => Err("derive remote-control storage key"@),
        Some(k) => match aes256gcm_sealed(k, nonce, encode_utf8(session_key)) {
            None => Err("wrap remote-control session key"@),
            Some(c) => Ok("v1."@ + base64url_nopad(nonce) + "."@ + base64url_nopad(c)),
        },
    }
}

/// What a stored wrapped key opens to, or why it does not.
pub open spec fn unwrap_outcome(secret: Seq<char>, wrapped: Seq<char>) -> Result<Seq<char>, Seq<char>> {
    let parts = split_on(wrapped, '.');
    if parts.len() != 3 {
        Err("invalid wrapped remote-control session key"@)
    } else if parts[0] != "v1"@ {
        Err("unsupported wrapped remote-control session key"@)
    } else {
        match base64url_decoded(parts[1]) {
            None => Err("decode wrapped key nonce"@),
            Some(nonce) => match base64url_decoded(parts[2]) {
                None => Err("decode wrapped session key"@),
                Some(ct) => if nonce.len() != 12 {
                    Err("invalid wrapped key nonce length"@)
                } else {
                    match storage_key(secret) {
                        None => Err("derive remote-control storage key"@),
                        Some(k) => match aes256gcm_opened(k, nonce, ct) {
                            None => Err("unwrap remote-control session key"@),
                            Some(pt) => if valid_utf8(pt) {
                                Ok(decode_utf8(pt))
                            } else {
                                Err("decode remote-control session key"@)
                            },
                        },
                    }
                },
            },
        }
    }
}

/// Wraps a session key for storage with the given 96-bit nonce. What it
/// produces unwraps to the same session key under the same secret.
pub fn wrap_session_key_with_nonce(secret: &str, session_key: &str, nonce: &[u8]) -> (r: Result<String, AppError>)
    requires
        nonce@.len() == 12,
    ensures
        match wrap_outcome(secret@, session_key@, nonce@) {
            Ok(w) => r matches Ok(x) && x@ == w,
            Err(m) => r matches Err(e) && e matches AppError::Internal(x) && x@ == m,
        },
        r matches Ok(w) ==> unwrap_outcome(secret@, w@) == Ok::<Seq<char>, Seq<char>>(session_key@),
        encode_utf8(session_key@).len() <= MAX_SEALED_PLAINTEXT ==> r is Ok,
{
    let key = wrapping_key(secret)?;
    let plaintext = bytes_of(session_key);
    let sealed = aes256gcm_encrypt(key.as_slice(), nonce, plaintext.as_slice());
    match sealed {
        None => Err(AppError::Internal(owned("wrap remote-control session key"))),
        Some(c) => {
            let n = encode_base64url(nonce);
            let t = encode_base64url(c.as_slice());
            let mut w = owned("v1.");
            w.append(n.as_str());
            w.append(".");
            w.append(t.as_str());
            proof {
                reveal_strlit("v1.");
                reveal_strlit("v1");
                reveal_strlit(".");
                lemma_base64url_nopad(nonce@);
                lemma_base64url_nopad(c@);
                assert(no_dot(n@));
                assert(no_dot(t@));
                lemma_split_three("v1"@, n@, t@);
                assert(w@ =~= "v1"@ + "."@ + n@ + "."@ + t@);
                assert(w@ =~= "v1."@ + base64url_nopad(nonce@) + "."@ + base64url_nopad(c@));
                vstd::utf8::encode_utf8_valid_utf8(session_key@);
                vstd::utf8::encode_utf8_decode_utf8(session_key@);
            }
            Ok(w)
        },
    }
}

/// Wraps a session key for storage under a fresh random nonce: the result
/// is the wrapping of the key under some 96-bit nonce, and it succeeds for
/// any key AES-GCM can seal. What it produces unwraps to the same session
/// key under the same secret.
pub fn wrap_session_key(secret: &str, session_key: &str) -> (r: Result<String, AppError>)
    ensures
        exists|n: Seq<u8>|
            n.len() == 12 && #[trigger] wrap_outcome(secret@, session_key@, n) == (match r {
                Ok(x) => Ok::<Seq<char>, Seq<char>>(x@),
                Err(AppError::Internal(x)) => Err::<Seq<char>, Seq<char>>(x@),
                Err(_) => Err::<Seq<char>, Seq<char>>(Seq::empty()),
            }),
        encode_utf8(session_key@).len() <= MAX_SEALED_PLAINTEXT ==> r is Ok,
        r matches Ok(w) ==> unwrap_outcome(secret@, w@) == Ok::<Seq<char>, Seq<char>>(session_key@),
        r matches Err(e) ==> (e matches AppError::Internal(m) && (m@ == "derive remote-control storage key"@
            || m@ == "wrap remote-control session key"@)),
{
    let nonce = os_random_bytes(12);
    let r = wrap_session_key_with_nonce(secret, session_key, nonce.as_slice());
    assert(nonce@.len() == 12 && wrap_outcome(secret@, session_key@, nonce@) == (match r {
        Ok(x) => Ok::<Seq<char>, Seq<char>>(x@),
        Err(AppError::Internal(x)) => Err::<Seq<char>, Seq<char>>(x@),
        Err(_) => Err::<Seq<char>, Seq<char>>(Seq::empty()),
    }));
    r
}

/// Opens a stored session key; every failure is an internal error.
pub fn unwrap_session_key(secret: &str, wrapped: &str) -> (r: Result<String, AppError>)
    ensures
        match unwrap_outcome(secret@, wrapped@) {
            Ok(k) => r matches Ok(x) && x@ == k,
            Err(m) => r matches Err(e) && e matches AppError::Internal(x) && x@ == m,
        },
{
    let v = chars_of(wrapped);
    let parts = split_on_exec(v.as_slice(), '.');
    if parts.len() != 3 {
        return Err(AppError::Internal(owned("invalid wrapped remote-control session key")));
    }
    if !chars_eq_str(parts[0].as_slice(), "v1") {
        return Err(AppError::Internal(owned("unsupported wrapped remote-control session key")));
    }
    let nonce_text = crate::text::string_from_chars(parts[1].as_slice());
    let nonce = match decode_base64url(nonce_text.as_str()) {
        Some(b) => b,
        None => return Err(AppError::Internal(owned("decode wrapped key nonce"))),
    };
    let ct_text = crate::text::string_from_chars(parts[2].as_slice());
    let ciphertext = match decode_base64url(ct_text.as_str()) {
        Some(b) => b,
        None => return Err(AppError::Internal(owned("decode wrapped session key"))),
    };
    if nonce.len() != 12 {
        return Err(AppError::Internal(owned("invalid wrapped key nonce length")));
    }
    let key = wrapping_key(secret)?;
    let plaintext = match aes256gcm_decrypt(key.as_slice(), nonce.as_slice(), ciphertext.as_slice()) {
        Some(p) => p,
        None => return Err(AppError::Internal(owned("unwrap remote-control session key"))),
    };
    match string_from_utf8(plaintext) {
        Some(s) => Ok(s),
        None => Err(AppError::Internal(owned("decode remote-control session key"))),
    }
}

// ── Gateway settings and tickets ──────────────────────────────────────

/// `s` without its trailing `/` characters.
pub open spec fn without_trailing_slashes(s: Seq<char>) -> Seq<char>
    decreases s.len(),
{
    if s.len() > 0 && s.last() == '/' {
        without_trailing_slashes(s.drop_last())
    } else {
        s
    }
}

/// The Cloud Gateway in use: the configured URL, trimmed and without
/// trailing slashes, or the hosted one when none (or a blank one) is configured.
pub open spec fn gateway_url_spec(configured: Option<Seq<char>>) -> Seq<char> {
    match configured {
        Some(v) => {
            let t = without_trailing_slashes(trim(v));
            if t.len() > 0 {
                t
            } else {
                hosted_gateway_url()
            }
        },
        None => hosted_gateway_url(),
    }
}

/// The Cloud Gateway URL; there is always one.
pub fn gateway_url(configured: Option<&str>) -> (r: Option<String>)
    ensures
        r matches Some(u) && u@ == gateway_url_spec(
            match configured {
                Some(v) => Some(v@),
                None => None,
            },
        ),
{
    let hosted = "https://choruz-remote-control-gateway.jiachengguo778.workers.dev";
    match configured {
        Some(v) => {
            let c = chars_of(v);
            let t = trim_chars(c.as_slice());
            let mut n: usize = t.len();
            assert(t@.take(t@.len() as int) =~= t@);
            while n > 0 && t[n - 1] == '/'
                invariant
                    n <= t@.len(),
                    without_trailing_slashes(t@.take(n as int)) == without_trailing_slashes(t@),
                decreases n,
            {
                assert(t@.take(n as int).drop_last() =~= t@.take(n - 1));
                n = n - 1;
            }
            if n == 0 {
                assert(without_trailing_slashes(t@.take(0)) == t@.take(0));
                Some(owned(hosted))
            } else {
                let kept = crate::text::sub_chars(t.as_slice(), 0, n);
                assert(kept@ =~= t@.take(n as int));
                Some(crate::text::string_from_chars(kept.as_slice()))
            }
        },
        None => Some(owned(hosted)),
    }
}

/// What the settings endpoint reports.
#[derive(Debug, Clone)]
pub struct RemoteControlSettings {
    pub gateway_url: Option<String>,
    pub gateway_ticket: Option<String>,
}

/// The settings of a principal: the Gateway URL; a ticket is issued only
/// once a bridge has loaded a session key, never here.
pub fn load_settings(principal_id: &str, configured_gateway_url: Option<&str>) -> (r: RemoteControlSettings)
    ensures
        r.gateway_url matches Some(u) && u@ == gateway_url_spec(
            match configured_gateway_url {
                Some(v) => Some(v@),
                None => None,
            },
        ),
        r.gateway_ticket is None,
{
    RemoteControlSettings { gateway_url: gateway_url(configured_gateway_url), gateway_ticket: None }
}

/// The claims of a Gateway ticket as JSON text, members in key order.
pub open spec fn ticket_payload_spec(
    room: Seq<char>,
    role: Seq<char>,
    scope: Seq<char>,
    exp: i64,
    device_id: Option<Seq<char>>,
    pairing_id: Option<Seq<char>>,
) -> Seq<char> {
    let device = match device_id {
        Some(d) => json_member("device_id"@, json_string(d)) + seq![','],
        None => seq![],
    };
    let pairing = match pairing_id {
        Some(p) => json_member("pairing_id"@, json_string(p)) + seq![','],
        None => seq![],
    };
    seq!['{'] + device + json_member("exp"@, json_int(exp as int)) + seq![','] + pairing
        + json_member("role"@, json_string(role)) + seq![','] + json_member(
        "room"@,
        json_string(room),
    ) + seq![','] + json_member("scope"@, json_string(scope)) + seq!['}']
}

pub open spec fn opt_str(o: Option<&str>) -> Option<Seq<char>> {
    match o {
        Some(v) => Some(v@),
        None => None,
    }
}

fn push_string_member(out: &mut String, key: &str, value: &str)
    ensures
        final(out)@ == old(out)@ + json_member(key@, json_string(value@)),
{
    push_json_key(out, key);
    push_json_string(out, value);
    assert(out@ =~= old(out)@ + json_member(key@, json_string(value@)));
}

fn push_optional_member(out: &mut String, key: &str, value: Option<&str>)
    ensures
        final(out)@ == old(out)@ + match value {
            Some(v) => json_member(key@, json_string(v@)) + seq![','],
            None => seq![],
        },
{
    if let Some(v) = value {
        push_string_member(out, key, v);
        push_char(out, ',');
        assert(out@ =~= old(out)@ + (json_member(key@, json_string(v@)) + seq![',']));
    } else {
        assert(out@ =~= old(out)@ + Seq::<char>::empty());
    }
}

/// The claims of a Gateway ticket, serialised.
pub fn ticket_payload_json(
    room: &str,
    role: &str,
    scope: &str,
    exp: i64,
    device_id: Option<&str>,
    pairing_id: Option<&str>,
) -> (r: String)
    ensures
        r@ == ticket_payload_spec(room@, role@, scope@, exp, opt_str(device_id), opt_str(pairing_id)),
{
    let mut out = String::new();
    push_char(&mut out, '{');
    let ghost p0 = out@;
    push_optional_member(&mut out, "device_id", device_id);
    let ghost p1 = out@;
    push_json_key(&mut out, "exp");
    push_json_int(&mut out, exp);
    push_char(&mut out, ',');
    let ghost p2 = out@;
    push_optional_member(&mut out, "pairing_id", pairing_id);
    let ghost p3 = out@;
    push_string_member(&mut out, "role", role);
    push_char(&mut out, ',');
    let ghost p4 = out@;
    push_string_member(&mut out, "room", room);
    push_char(&mut out, ',');
    let ghost p5 = out@;
    push_string_member(&mut out, "scope", scope);
    push_char(&mut out, '}');
    proof {
        let device = match opt_str(device_id) {
            Some(d) => json_member("device_id"@, json_string(d)) + seq![','],
            None => seq![],
        };
        let pairing = match opt_str(pairing_id) {
            Some(p) => json_member("pairing_id"@, json_string(p)) + seq![','],
            None => seq![],
        };
        assert(p1 =~= seq!['{'] + device);
        assert(p2 =~= p1 + json_member("exp"@, json_int(exp as int)) + seq![',']);
        assert(p3 =~= p2 + pairing);
        assert(p4 =~= p3 + json_member("role"@, json_string(role@)) + seq![',']);
        assert(p5 =~= p4 + json_member("room"@, json_string(room@)) + seq![',']);
        assert(out@ =~= p5 + json_member("scope"@, json_string(scope@)) + seq!['}']);
    }
    out
}

/// A ticket signed locally: the payload in base64url, a dot, and its keyed hash.
pub open spec fn signed_ticket_spec(secret: Seq<char>, payload: Seq<char>) -> Seq<char> {
    let encoded = base64url_nopad(encode_utf8(payload));
    encoded + "."@ + keyed_hash_spec(secret, "gateway-ticket"@, encoded)
}

pub fn signed_ticket(secret: &str, payload_json: &str) -> (r: String)
    ensures
        r@ == signed_ticket_spec(secret@, payload_json@),
{
    let bytes = bytes_of(payload_json);
    let encoded = encode_base64url(bytes.as_slice());
    let signature = keyed_hash(secret, "gateway-ticket", encoded.as_str());
    let mut r = encoded;
    r.append(".");
    r.append(signature.as_str());
    r
}

/// A signing secret is used only when it has at least 32 bytes.
pub fn ticket_signing_secret(configured: Option<String>) -> (r: Option<String>)
    ensures
        match configured {
            Some(s) => if encode_utf8(s@).len() >= 32 {
                r matches Some(x) && x@ == s@
            } else {
                r is None
            },
            None => r is None,
        },
{
    match configured {
        Some(s) => {
            let b = bytes_of(s.as_str());
            if b.len() >= 32 {
                Some(s)
            } else {
                None
            }
        },
        None => None,
    }
}

/// The request body asking the hosted Gateway for a capability.
pub open spec fn capability_body_spec(issuer: Seq<char>, payload: Seq<char>, pairing_id: Option<Seq<char>>) -> Seq<char> {
    let pairing = match pairing_id {
        Some(p) => json_member("pairing_id"@, json_string(p)) + seq![','],
        None => seq![],
    };
    seq!['{'] + json_member("issuer"@, json_string(issuer)) + seq![','] + pairing + json_member(
        "payload"@,
        payload,
    ) + seq!['}']
}

/// How a Gateway ticket is obtained.
#[derive(Debug, Clone)]
pub enum TicketPlan {
    /// Signed here with the configured secret.
    Signed(String),
    /// Asked of the hosted Gateway with this request body.
    Hosted(String),
    /// Neither a secret nor the hosted Gateway is available.
    Unavailable,
}

/// A configured signing secret signs locally; otherwise only the hosted
/// Gateway can issue the ticket, vouching for this installation's issuer.
pub fn plan_gateway_ticket(
    signing_secret: Option<String>,
    gateway_url: Option<&str>,
    pairing_secret: &str,
    payload_json: &str,
    pairing_id: Option<&str>,
) -> (r: TicketPlan)
    ensures
        match signing_secret {
            Some(s) => r matches TicketPlan::Signed(t) && t@ == signed_ticket_spec(s@, payload_json@),
            None => if opt_str(gateway_url) == Some(hosted_gateway_url()) {
                r matches TicketPlan::Hosted(b) && b@ == capability_body_spec(
                    keyed_hash_spec(pairing_secret@, "remote-control-gateway-issuer"@, hosted_gateway_url()),
                    payload_json@,
                    opt_str(pairing_id),
                )
            } else {
                r is Unavailable
            },
        },
{
    match signing_secret {
        Some(s) => TicketPlan::Signed(signed_ticket(s.as_str(), payload_json)),
        None => {
            let hosted = match gateway_url {
                Some(u) => {
                    let c = chars_of(u);
                    chars_eq_str(c.as_slice(), "https://choruz-remote-control-gateway.jiachengguo778.workers.dev")
                },
                None => false,
            };
            if !hosted {
                return TicketPlan::Unavailable;
            }
            let issuer = gateway_issuer(pairing_secret);
            let mut body = String::new();
            push_char(&mut body, '{');
            push_json_key(&mut body, "issuer");
            push_json_string(&mut body, issuer.as_str());
            push_char(&mut body, ',');
            if let Some(p) = pairing_id {
                push_json_key(&mut body, "pairing_id");
                push_json_string(&mut body, p);
                push_char(&mut body, ',');
            }
            push_json_key(&mut body, "payload");
            body.append(payload_json);
            push_char(&mut body, '}');
            assert(body@ =~= capability_body_spec(issuer@, payload_json@, opt_str(pairing_id)));
            TicketPlan::Hosted(body)
        },
    }
}

/// The ticket in the hosted Gateway's answer: the `ticket` string of a successful reply.
pub fn hosted_ticket(success: bool, reply: Option<JsonValue>) -> (r: Option<String>)
    ensures
        !success ==> r is None,
        success ==> match reply {
            Some(JsonValue::Object(fields)) => match member(fields@, "ticket"@) {
                Some(JsonValue::Str(t)) => r matches Some(x) && x@ == t@,
                _ => r is None,
            },
            _ => r is None,
        },
{
    if !success {
        return None;
    }
    match reply {
        Some(JsonValue::Object(fields)) => {
            match crate::telemetry::find_member(&fields, "ticket") {
                Some(i) => match &fields[i].1 {
                    JsonValue::Str(t) => Some(owned(t.as_str())),
                    _ => None,
                },
                None => None,
            }
        },
        _ => None,
    }
}

// ── Pairing redemption ────────────────────────────────────────────────

/// A redemption needs well-formed device material and credential.
pub fn check_redemption(credential: &str, device_name: &str, session_key: &str) -> (r: Result<(), AppError>)
    ensures
        match device_error(device_name@, session_key@) {
            Some(m) => r matches Err(e) && e matches AppError::Validation(x) && x@ == m,
            None => if pairing_credential_ok(credential@) {
                r is Ok
            } else {
                r matches Err(e) && e matches AppError::Validation(x) && x@
                    == "pairing credential is malformed"@
            },
        },
{
    validate_device(device_name, session_key)?;
    if !valid_pairing_credential(credential) {
        return Err(AppError::Validation(owned("pairing credential is malformed")));
    }
    Ok(())
}

/// No open pairing matched the credential.
pub fn pairing_not_found() -> (e: AppError)
    ensures
        e matches AppError::Unauthorized(m) && m@ == "invalid or expired pairing credential"@,
{
    AppError::Unauthorized(owned("invalid or expired pairing credential"))
}

/// A new device must bring the session key every active device already shares.
pub fn check_active_session_key(secret: &str, wrapped: &str, session_key: &str) -> (r: Result<(), AppError>)
    ensures
        match unwrap_outcome(secret@, wrapped@) {
            Err(m) => r matches Err(e) && e matches AppError::Internal(x) && x@ == m,
            Ok(k) => if k == session_key@ {
                r is Ok
            } else {
                r matches Err(e) && e matches AppError::Conflict(x) && x@
                    == "remote-control session key does not match active devices"@
            },
        },
{
    let k = unwrap_session_key(secret, wrapped)?;
    let a = chars_of(k.as_str());
    let b = chars_of(session_key);
    if crate::text::chars_eq(a.as_slice(), b.as_slice()) {
        Ok(())
    } else {
        Err(AppError::Conflict(owned("remote-control session key does not match active devices")))
    }
}

/// Folds one active device's key into the bridge's: all must agree.
pub fn merge_session_key(current: Option<String>, candidate: String) -> (r: Result<Option<String>, AppError>)
    ensures
        match current {
            Some(c) => if c@ == candidate@ {
                r matches Ok(Some(x)) && x@ == candidate@
            } else {
                r matches Err(e) && e matches AppError::Internal(m) && m@
                    == "active remote-control devices have inconsistent session keys"@
            },
            None => r matches Ok(Some(x)) && x@ == candidate@,
        },
{
    if let Some(c) = &current {
        let a = chars_of(c.as_str());
        let b = chars_of(candidate.as_str());
        if !crate::text::chars_eq(a.as_slice(), b.as_slice()) {
            return Err(
                AppError::Internal(owned("active remote-control devices have inconsistent session keys")),
            );
        }
    }
    Ok(Some(candidate))
}

/// Revoking or touching a device that matched no row.
pub fn device_change_result(changed: u64) -> (r: Result<(), AppError>)
    ensures
        r is Ok <==> changed > 0,
        r matches Err(e) ==> e matches AppError::NotFound(m) && m@ == "remote device not found"@,
{
    if changed == 0 {
        Err(AppError::NotFound(owned("remote device not found")))
    } else {
        Ok(())
    }
}

} // verus!
