//! The cryptographic calls of the library.
use hmac::Mac;
use ring::aead;
use sha2::Digest;
use vstd::prelude::*;
use zeroize::Zeroize;

verus! {

/// The bytes of an encryption key.
pub const KEY_BYTES: usize = 32;

pub const NONCE_BYTES: usize = 12;

/// The bytes that sealing adds.
pub const TAG_BYTES: usize = 16;

/// The most bytes that can be sealed with one nonce.
pub const MAX_SEALED_BYTES: u64 = 274_877_906_880;

/// What ChaCha20-Poly1305 makes of a plaintext under a key and a nonce, bound to further bytes.
pub uninterp spec fn sealed_bytes(key: Seq<u8>, nonce: Seq<u8>, bound: Seq<u8>, plaintext: Seq<u8>) -> Seq<u8>;

/// What ChaCha20-Poly1305 reads from sealed bytes; nothing where they are not authentic.
pub uninterp spec fn opened_bytes(key: Seq<u8>, nonce: Seq<u8>, bound: Seq<u8>, sealed: Seq<u8>) -> Option<Seq<u8>>;

/// The HMAC of a message with SHA-256.
pub uninterp spec fn hmac_sha256(key: Seq<u8>, message: Seq<u8>) -> Seq<u8>;

/// The SHA-256 of a message.
pub uninterp spec fn sha256(message: Seq<u8>) -> Seq<u8>;

/// `ring::aead::LessSafeKey::seal_in_place_append_tag` with `CHACHA20_POLY1305`. It fails on a
/// plaintext above the bound of the algorithm alone. The tag is appended to as many bytes as were
/// given, and `open_in_place` gives the plaintext back.
#[verifier::external_body]
pub(crate) fn seal(key: &Vec<u8>, nonce: &Vec<u8>, bound: &Vec<u8>, plaintext: Vec<u8>) -> (out: Option<Vec<u8>>)
    requires
        key@.len() == KEY_BYTES,
        nonce@.len() == NONCE_BYTES,
    ensures
        out is Some <==> plaintext@.len() <= MAX_SEALED_BYTES,
        out matches Some(sealed) ==> {
            &&& sealed@ == sealed_bytes(key@, nonce@, bound@, plaintext@)
            &&& sealed@.len() == plaintext@.len() + TAG_BYTES
            &&& opened_bytes(key@, nonce@, bound@, sealed@) == Some(plaintext@)
        },
{
    let mut in_out = plaintext;
    let unbound = aead::UnboundKey::new(&aead::CHACHA20_POLY1305, key).ok()?;
    let nonce = aead::Nonce::try_assume_unique_for_key(nonce).ok()?;
    let key = aead::LessSafeKey::new(unbound);
    key.seal_in_place_append_tag(nonce, aead::Aad::from(bound.as_slice()), &mut in_out).ok()?;
    Some(in_out)
}

/// `ring::aead::LessSafeKey::open_in_place` with `CHACHA20_POLY1305`.
#[verifier::external_body]
pub(crate) fn open(key: &Vec<u8>, nonce: &Vec<u8>, bound: &Vec<u8>, sealed: Vec<u8>) -> (out: Option<Vec<u8>>)
    requires
        key@.len() == KEY_BYTES,
        nonce@.len() == NONCE_BYTES,
    ensures
        match (out, opened_bytes(key@, nonce@, bound@, sealed@)) {
            (Some(plaintext), Some(meant)) => plaintext@ == meant,
            (None, None) => true,
            _ => false,
        },
{
    let mut in_out = sealed;
    let unbound = aead::UnboundKey::new(&aead::CHACHA20_POLY1305, key).ok()?;
    let nonce = aead::Nonce::try_assume_unique_for_key(nonce).ok()?;
    let key = aead::LessSafeKey::new(unbound);
    let length = key.open_in_place(nonce, aead::Aad::from(bound.as_slice()), &mut in_out).ok()?.len();
    in_out.truncate(length);
    Some(in_out)
}

/// `hmac::Hmac<sha2::Sha256>` over a message. A key of any length is accepted.
#[verifier::external_body]
pub(crate) fn authenticate(key: &[u8], message: &[u8]) -> (code: Vec<u8>)
    ensures
        code@ == hmac_sha256(key@, message@),
        code@.len() == 32,
{
    let mut mac = <hmac::Hmac<sha2::Sha256> as Mac>::new_from_slice(key).unwrap();
    mac.update(message);
    mac.finalize().into_bytes().to_vec()
}

/// `sha2::Sha256::digest` of a message.
#[verifier::external_body]
pub(crate) fn digest(message: &[u8]) -> (hash: Vec<u8>)
    ensures
        hash@ == sha256(message@),
        hash@.len() == 32,
{
    sha2::Sha256::digest(message).to_vec()
}

/// `getrandom::getrandom` fills a buffer with random bytes, or fails; which bytes is left to chance.
#[verifier::external_body]
pub(crate) fn random_bytes(count: usize) -> (out: Option<Vec<u8>>)
    ensures
        out matches Some(bytes) ==> bytes@.len() == count,
{
    let mut bytes = vec![0; count];
    getrandom::getrandom(&mut bytes).ok()?;
    Some(bytes)
}

/// `zeroize::Zeroize::zeroize` of a vector overwrites its bytes and empties it.
#[verifier::external_body]
pub(crate) fn wipe(bytes: &mut Vec<u8>)
    ensures
        final(bytes)@ == Seq::<u8>::empty(),
{
    bytes.zeroize()
}

/// `zeroize::Zeroize::zeroize` of a string overwrites its bytes and empties it.
#[verifier::external_body]
pub(crate) fn wipe_text(text: &mut String)
    ensures
        final(text)@ == Seq::<char>::empty(),
{
    text.zeroize()
}

/// A number below sixteen as a lower-case hexadecimal digit.
pub open spec fn hex_digit(n: int) -> char {
    if 0 <= n < 10 {
        (('0' as u32) + n) as char
    } else {
        (('a' as u32) + (n - 10)) as char
    }
}

/// Bytes as lower-case hexadecimal digits.
pub open spec fn hex(bytes: Seq<u8>) -> Seq<char>
    decreases bytes.len(),
{
    if bytes.len() == 0 {
        Seq::empty()
    } else {
        hex(bytes.drop_last()).push(hex_digit(bytes.last() as int / 16)).push(hex_digit(bytes.last() as int % 16))
    }
}

fn hex_char(n: u8) -> (c: char)
    requires
        n < 16,
    ensures
        c == hex_digit(n as int),
{
    if n < 10 {
        (48 + n) as char
    } else {
        (87 + n) as char
    }
}

/// Writes bytes as lower-case hexadecimal digits.
pub fn hex_bytes(bytes: &[u8]) -> (text: String)
    ensures
        text@ == hex(bytes@),
{
    let mut text = String::new();
    let mut i: usize = 0;
    while i < bytes.len()
        invariant
            i <= bytes@.len(),
            text@ == hex(bytes@.take(i as int)),
        decreases bytes@.len() - i,
    {
        assert(bytes@.take(i + 1).drop_last() =~= bytes@.take(i as int));
        let b: u8 = bytes[i];
        text.push(hex_char(b / 16));
        text.push(hex_char(b % 16));
        i = i + 1;
    }
    assert(bytes@.take(i as int) =~= bytes@);
    text
}

/// An integer as eight bytes, the most significant first.
pub open spec fn be_bytes(n: nat, count: nat) -> Seq<u8>
    decreases count,
{
    if count == 0 {
        Seq::empty()
    } else {
        be_bytes(n / 256, (count - 1) as nat).push((n % 256) as u8)
    }
}

fn push_be(out: &mut Vec<u8>, n: u64, count: usize)
    ensures
        final(out)@ == old(out)@ + be_bytes(n as nat, count as nat),
    decreases count,
{
    if count > 0 {
        let ghost before = out@;
        push_be(out, n / 256, count - 1);
        out.push((n % 256) as u8);
        assert(out@ =~= before + be_bytes(n as nat, count as nat));
    } else {
        assert(out@ =~= old(out)@ + be_bytes(n as nat, count as nat));
    }
}

/// A field with its length before it.
pub open spec fn field(value: Seq<u8>) -> Seq<u8> {
    be_bytes(value.len(), 8) + value
}

/// Appends a field with its length before it.
pub fn push_field(out: &mut Vec<u8>, value: &[u8])
    ensures
        final(out)@ == old(out)@ + field(value@),
{
    let ghost before = out@;
    push_be(out, value.len() as u64, 8);
    out.extend_from_slice(value);
    assert(out@ =~= before + field(value@));
}

} // verus!
