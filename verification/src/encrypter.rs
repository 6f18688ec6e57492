//! Sealing a message for one recipient: the message under a fresh key, and that key under
//! the recipient's public key.

use openssl::bn::BigNum;
use openssl::error::ErrorStack;
use openssl::rsa::{Padding, Rsa};
use openssl::symm::Cipher;
use vstd::prelude::*;

use crate::keys::has_private_half;

verus! {

/// The errors that OpenSSL reports.
#[verifier::external_type_specification]
#[verifier::external_body]
pub struct ExErrorStack(ErrorStack);

/// The longest input, in bytes, that OpenSSL takes.
pub const OPENSSL_LIMIT: usize = 0x7fff_ffff;

/// The size of a block of AES, in bytes: a message grows by one block at most when it is
/// encrypted.
pub const BLOCK_SIZE: usize = 16;

/// The public half of an RSA key: the modulus and the exponent, as big-endian numbers.
pub struct PublicKey {
    pub n: Vec<u8>,
    pub e: Vec<u8>,
}

impl PublicKey {
    /// Both numbers are short enough for OpenSSL.
    pub open spec fn wf(&self) -> bool {
        self.n@.len() <= OPENSSL_LIMIT && self.e@.len() <= OPENSSL_LIMIT
    }
}

/// A big-endian number without leading zeros.
pub open spec fn significant(number: Seq<u8>) -> Seq<u8>
    decreases number.len(),
{
    if number.len() > 0 && number[0] == 0 {
        significant(number.skip(1))
    } else {
        number
    }
}

/// `openssl::rand::rand_bytes`: fills a buffer with random bytes. Nothing is said about
/// the bytes but how many they are. The function panics on a buffer above the limit.
#[verifier::external_body]
fn random_bytes(count: usize) -> (res: Result<Vec<u8>, ErrorStack>)
    requires
        count <= OPENSSL_LIMIT,
    ensures
        match res {
            Ok(bytes) => bytes@.len() == count,
            Err(_) => true,
        },
{
    let mut bytes = vec![0; count];
    openssl::rand::rand_bytes(&mut bytes)?;
    Ok(bytes)
}

/// What AES-256 in CBC mode with padding makes of a message under a key and an
/// initialization vector.
pub uninterp spec fn aes_256_cbc(key: Seq<u8>, iv: Seq<u8>, message: Seq<u8>) -> Seq<u8>;

/// The message that AES-256 in CBC mode makes `sealed` of under a key and an initialization
/// vector.
pub open spec fn aes_opened(key: Seq<u8>, iv: Seq<u8>, sealed: Seq<u8>) -> Seq<u8> {
    choose|message: Seq<u8>| aes_256_cbc(key, iv, message) == sealed
}

/// How long a message is under AES with padding: as many whole blocks as it fills, and one
/// more.
pub open spec fn padded_len(len: nat) -> nat {
    (len / 16 + 1) * 16
}

/// `openssl::symm::encrypt` with `Cipher::aes_256_cbc`: what it gives depends on the key,
/// the vector and the message alone. Padding is enabled, so the result is the next whole
/// number of blocks above the length of the message, and only this message gives it under
/// the key and the vector: `openssl::symm::decrypt` gives the message back. The function
/// panics where the message and one block together are above the limit.
#[verifier::external_body]
fn encrypt_aes(key: &Vec<u8>, iv: &Vec<u8>, message: &[u8]) -> (res: Result<Vec<u8>, ErrorStack>)
    requires
        key@.len() == 32,
        iv@.len() == 16,
        message@.len() + BLOCK_SIZE <= OPENSSL_LIMIT,
    ensures
        match res {
            Ok(bytes) => bytes@ == aes_256_cbc(key@, iv@, message@) && bytes@.len() == padded_len(
                message@.len(),
            ) && aes_opened(key@, iv@, bytes@) == message@,
            Err(_) => true,
        },
{
    openssl::symm::encrypt(Cipher::aes_256_cbc(), key, Some(iv), message)
}

/// `RsaRef::size` of openssl: the size of the modulus in bytes. The key is made from its
/// two numbers, which fails only where there is no memory for it.
#[verifier::external_body]
fn rsa_size(key: &PublicKey) -> (res: Result<usize, ErrorStack>)
    requires
        key.wf(),
    ensures
        match res {
            Ok(size) => size == significant(key.n@).len(),
            Err(_) => true,
        },
{
    let (n, e) = (BigNum::from_slice(&key.n)?, BigNum::from_slice(&key.e)?);
    Ok(Rsa::from_public_components(n, e)?.size() as usize)
}

/// Whether RSA with PKCS#1 padding can make `sealed` of a message under the public key
/// with modulus `n` and exponent `e`. The padding is random, so a message has many such.
pub uninterp spec fn is_rsa_sealed(
    n: Seq<u8>,
    e: Seq<u8>,
    message: Seq<u8>,
    sealed: Seq<u8>,
) -> bool;

/// The message that RSA with PKCS#1 padding makes `sealed` of under the public key with
/// modulus `n` and exponent `e`.
pub open spec fn rsa_opened(n: Seq<u8>, e: Seq<u8>, sealed: Seq<u8>) -> Seq<u8> {
    choose|message: Seq<u8>| is_rsa_sealed(n, e, message, sealed)
}

/// `RsaRef::public_encrypt` of openssl with `Padding::PKCS1`: fills a buffer with the
/// message under the key. The padding is random, so which of the possible results comes
/// out is not said. Where the key is the public half of a private key, only this message
/// gives the result: `RsaRef::private_decrypt` with the private key gives the message back.
/// From how small a modulus on there is no room for the message is not said. The function
/// panics where the buffer is smaller than the modulus or the message is above the limit.
#[verifier::external_body]
fn encrypt_rsa(key: &PublicKey, message: &Vec<u8>, size: usize) -> (res: Result<
    Vec<u8>,
    ErrorStack,
>)
    requires
        key.wf(),
        message@.len() <= OPENSSL_LIMIT,
        size == significant(key.n@).len(),
    ensures
        match res {
            Ok(bytes) => bytes@.len() == size && is_rsa_sealed(key.n@, key.e@, message@, bytes@)
                && (has_private_half(key.n@, key.e@) ==> rsa_opened(key.n@, key.e@, bytes@)
                == message@),
            Err(_) => true,
        },
{
    let (n, e) = (BigNum::from_slice(&key.n)?, BigNum::from_slice(&key.e)?);
    let mut sealed = vec![0; size];
    Rsa::from_public_components(n, e)?.public_encrypt(message, &mut sealed, Padding::PKCS1)?;
    Ok(sealed)
}

/// Why a message could not be sealed.
pub enum EncryptError {
    /// There were no random bytes to be had.
    Random(ErrorStack),
    /// The message could not be encrypted.
    Cipher(ErrorStack),
    /// The recipient's key cannot be used.
    Key(ErrorStack),
}

/// The second lowest byte of a number.
pub open spec fn high_byte(n: nat) -> u8 {
    (n / 256 % 256) as u8
}

/// The lowest byte of a number.
pub open spec fn low_byte(n: nat) -> u8 {
    (n % 256) as u8
}

/// A sealed message: the sizes of its two parts in two bytes each, then the parts.
pub open spec fn framed(sealed_key: Seq<u8>, body: Seq<u8>) -> Seq<u8> {
    seq![
        high_byte(sealed_key.len()),
        low_byte(sealed_key.len()),
        high_byte(body.len()),
        low_byte(body.len()),
    ] + sealed_key + body
}

/// Puts the two parts of a sealed message together.
pub fn frame(sealed_key: Vec<u8>, body: Vec<u8>) -> (res: Vec<u8>)
    ensures
        res@ == framed(sealed_key@, body@),
{
    let size_key = sealed_key.len();
    let size_body = body.len();
    let ghost key_bytes = sealed_key@;
    let ghost body_bytes = body@;
    let mut sealed_key = sealed_key;
    let mut body = body;
    let mut res: Vec<u8> = Vec::new();
    res.push((size_key / 256 % 256) as u8);
    res.push((size_key % 256) as u8);
    res.push((size_body / 256 % 256) as u8);
    res.push((size_body % 256) as u8);
    res.append(&mut sealed_key);
    res.append(&mut body);
    assert(res@ =~= framed(key_bytes, body_bytes));
    res
}

/// The two parts that the sizes at the start of a sealed message mark off.
pub open spec fn parts_of(message: Seq<u8>) -> (Seq<u8>, Seq<u8>) {
    let size_key = message[0] as int * 256 + message[1];
    let size_body = message[2] as int * 256 + message[3];
    (
        message.subrange(4, 4 + size_key),
        message.subrange(4 + size_key, 4 + size_key + size_body),
    )
}

/// A sealed message whose parts are shorter than 65536 bytes comes apart into them again.
pub proof fn law_frame_comes_apart(sealed_key: Seq<u8>, body: Seq<u8>)
    requires
        sealed_key.len() < 0x10000,
        body.len() < 0x10000,
    ensures
        parts_of(framed(sealed_key, body)) == (sealed_key, body),
{
    let message = framed(sealed_key, body);
    let a = sealed_key.len() as int;
    let b = body.len() as int;
    assert(message[0] as int * 256 + message[1] == a);
    assert(message[2] as int * 256 + message[3] == b);
    assert(message.subrange(4, 4 + a) =~= sealed_key);
    assert(message.subrange(4 + a, 4 + a + b) =~= body);
}

/// A sealed message is four bytes and its two parts: each size, less what two bytes cannot
/// hold, with its higher byte first, that of the sealed key before that of the body.
pub proof fn law_frame_begins_with_sizes(sealed_key: Seq<u8>, body: Seq<u8>)
    ensures
        ({
            let message = framed(sealed_key, body);
            &&& message.len() == 4 + sealed_key.len() + body.len()
            &&& message[0] as int * 256 + message[1] as int == sealed_key.len() % 65536
            &&& message[2] as int * 256 + message[3] as int == body.len() % 65536
            &&& message.subrange(4, 4 + sealed_key.len() as int) == sealed_key
            &&& message.skip(4 + sealed_key.len() as int) == body
        }),
{
    let message = framed(sealed_key, body);
    assert(message.subrange(4, 4 + sealed_key.len() as int) =~= sealed_key);
    assert(message.skip(4 + sealed_key.len() as int) =~= body);
}

/// Whether `body` is a message under a key and a vector.
pub open spec fn is_body(secret: Seq<u8>, iv: Seq<u8>, encoded: Seq<u8>, body: Seq<u8>) -> bool {
    &&& body == aes_256_cbc(secret, iv, encoded)
    &&& body.len() == padded_len(encoded.len())
    &&& aes_opened(secret, iv, body) == encoded
}

/// Whether `sealed` is a key and a vector, one behind the other, under the recipient's
/// public key.
pub open spec fn is_sealed_key(
    key: PublicKey,
    secret: Seq<u8>,
    iv: Seq<u8>,
    sealed: Seq<u8>,
) -> bool {
    &&& sealed.len() == significant(key.n@).len()
    &&& is_rsa_sealed(key.n@, key.e@, secret + iv, sealed)
    &&& has_private_half(key.n@, key.e@) ==> rsa_opened(key.n@, key.e@, sealed) == secret + iv
}

/// Whether a message is a body behind some sealing of its key and its vector.
pub open spec fn is_sealed_body(
    key: PublicKey,
    body: Seq<u8>,
    secret: Seq<u8>,
    iv: Seq<u8>,
    message: Seq<u8>,
) -> bool {
    exists|sealed: Seq<u8>|
        is_sealed_key(key, secret, iv, sealed) && message == #[trigger] framed(sealed, body)
}

/// Whether a message is sealed for a key: the body is the message under a key and a vector,
/// and both stand, one behind the other, in the part that only the recipient can open.
pub open spec fn is_sealed_with(
    key: PublicKey,
    encoded: Seq<u8>,
    secret: Seq<u8>,
    iv: Seq<u8>,
    message: Seq<u8>,
) -> bool {
    let body = aes_256_cbc(secret, iv, encoded);
    is_body(secret, iv, encoded, body) && is_sealed_body(key, body, secret, iv, message)
}

/// A sealed message comes apart again where its sizes fit in two bytes each: into the key
/// and the vector for the recipient, and the message under both.
pub proof fn law_sealed_comes_apart(
    key: PublicKey,
    encoded: Seq<u8>,
    secret: Seq<u8>,
    iv: Seq<u8>,
    message: Seq<u8>,
)
    requires
        is_sealed_with(key, encoded, secret, iv, message),
        significant(key.n@).len() < 0x10000,
        padded_len(encoded.len()) < 0x10000,
    ensures
        is_rsa_sealed(key.n@, key.e@, secret + iv, parts_of(message).0),
        parts_of(message).1 == aes_256_cbc(secret, iv, encoded),
{
    let body = aes_256_cbc(secret, iv, encoded);
    let sealed = choose|sealed: Seq<u8>|
        is_sealed_key(key, secret, iv, sealed) && message == #[trigger] framed(sealed, body);
    law_frame_comes_apart(sealed, body);
}

/// A sealed message can be opened by whoever has the private half of the key: what stands
/// behind the sizes, as long as the modulus, holds the key and the vector, and what is left
/// holds the message under both.
pub proof fn law_sealed_opens(
    key: PublicKey,
    encoded: Seq<u8>,
    secret: Seq<u8>,
    iv: Seq<u8>,
    message: Seq<u8>,
)
    requires
        is_sealed_with(key, encoded, secret, iv, message),
        has_private_half(key.n@, key.e@),
    ensures
        ({
            let behind = 4 + significant(key.n@).len() as int;
            &&& rsa_opened(key.n@, key.e@, message.subrange(4, behind)) == secret + iv
            &&& aes_opened(secret, iv, message.skip(behind)) == encoded
        }),
{
    let body = aes_256_cbc(secret, iv, encoded);
    let sealed = choose|sealed: Seq<u8>|
        is_sealed_key(key, secret, iv, sealed) && message == #[trigger] framed(sealed, body);
    let behind = 4 + significant(key.n@).len() as int;
    assert(message.subrange(4, behind) =~= sealed);
    assert(message.skip(behind) =~= body);
}

/// The length and the first four bytes of a sealed message depend on the size of the key
/// and the length of the packet alone.
pub proof fn law_sizes_tell_no_more(
    keys: (PublicKey, PublicKey),
    encoded: (Seq<u8>, Seq<u8>),
    secrets: (Seq<u8>, Seq<u8>),
    ivs: (Seq<u8>, Seq<u8>),
    messages: (Seq<u8>, Seq<u8>),
)
    requires
        is_sealed_with(keys.0, encoded.0, secrets.0, ivs.0, messages.0),
        is_sealed_with(keys.1, encoded.1, secrets.1, ivs.1, messages.1),
        significant(keys.0.n@).len() == significant(keys.1.n@).len(),
        encoded.0.len() == encoded.1.len(),
    ensures
        messages.0.len() == 4 + significant(keys.0.n@).len() + padded_len(encoded.0.len()),
        messages.1.len() == messages.0.len(),
        messages.0.take(4) == messages.1.take(4),
{
    let body0 = aes_256_cbc(secrets.0, ivs.0, encoded.0);
    let body1 = aes_256_cbc(secrets.1, ivs.1, encoded.1);
    let sealed0 = choose|sealed: Seq<u8>|
        is_sealed_key(keys.0, secrets.0, ivs.0, sealed) && messages.0 == #[trigger] framed(
            sealed,
            body0,
        );
    let sealed1 = choose|sealed: Seq<u8>|
        is_sealed_key(keys.1, secrets.1, ivs.1, sealed) && messages.1 == #[trigger] framed(
            sealed,
            body1,
        );
    assert(framed(sealed0, body0).take(4) =~= framed(sealed1, body1).take(4));
}

/// Whether `outcome` may come of drawing a key of 32 bytes and then a vector of 16: both, or
/// the error of the first draw that failed.
pub closed spec fn draws(outcome: Result<(Vec<u8>, Vec<u8>), ErrorStack>) -> bool {
    exists|secret: Result<Vec<u8>, ErrorStack>| #[trigger]
        call_ensures(random_bytes, (32usize,), secret) && match secret {
            Ok(secret) => draws_vector(secret, outcome),
            Err(error) => outcome == Err::<(Vec<u8>, Vec<u8>), ErrorStack>(error),
        }
}

/// Whether `outcome` may come of drawing a vector of 16 bytes, once the key was drawn.
pub closed spec fn draws_vector(
    secret: Vec<u8>,
    outcome: Result<(Vec<u8>, Vec<u8>), ErrorStack>,
) -> bool {
    exists|iv: Result<Vec<u8>, ErrorStack>| #[trigger]
        call_ensures(random_bytes, (16usize,), iv) && outcome == match iv {
            Ok(iv) => Ok::<(Vec<u8>, Vec<u8>), ErrorStack>((secret, iv)),
            Err(error) => Err(error),
        }
}

/// Whether a key and a vector were drawn.
pub open spec fn is_drawn(secret: Seq<u8>, iv: Seq<u8>) -> bool {
    exists|a: Vec<u8>, b: Vec<u8>| a@ == secret && b@ == iv && #[trigger] draws(Ok((a, b)))
}

/// Whether some bytes may come of asking for so many random ones.
pub closed spec fn may_be_drawn(count: usize, bytes: Seq<u8>) -> bool {
    exists|drawn: Vec<u8>|
        drawn@ == bytes && #[trigger] call_ensures(
            random_bytes,
            (count,),
            Ok::<Vec<u8>, ErrorStack>(drawn),
        )
}

/// Whether asking for so many random bytes may fail.
pub closed spec fn may_not_be_drawn(count: usize, error: ErrorStack) -> bool {
    call_ensures(random_bytes, (count,), Err::<Vec<u8>, ErrorStack>(error))
}

/// A key and a vector are drawn separately: the key from 32 random bytes, the vector from 16
/// others. If there are none, it is because one of the two draws failed.
pub proof fn law_key_and_vector_are_drawn_apart(
    secret: Seq<u8>,
    iv: Seq<u8>,
    error: ErrorStack,
)
    ensures
        is_drawn(secret, iv) ==> may_be_drawn(32, secret) && may_be_drawn(16, iv),
        draws(Err(error)) ==> may_not_be_drawn(32, error) || may_not_be_drawn(16, error),
{
}

/// Whether `outcome` may come of encrypting a packet under a key and a vector.
pub closed spec fn makes_body(
    secret: Seq<u8>,
    iv: Seq<u8>,
    encoded: &[u8],
    outcome: Result<Vec<u8>, ErrorStack>,
) -> bool {
    exists|a: Vec<u8>, b: Vec<u8>|
        a@ == secret && b@ == iv && #[trigger] call_ensures(
            encrypt_aes,
            (&a, &b, encoded),
            outcome,
        )
}

/// Whether `outcome` may come of putting a key and a vector under the recipient's public
/// key, whose size is asked for first.
pub closed spec fn makes_sealed_key(
    key: &PublicKey,
    secret: Seq<u8>,
    iv: Seq<u8>,
    outcome: Result<Vec<u8>, ErrorStack>,
) -> bool {
    exists|size: Result<usize, ErrorStack>| #[trigger]
        call_ensures(rsa_size, (key,), size) && match size {
            Ok(size) => exists|both: Vec<u8>|
                both@ == secret + iv && #[trigger] call_ensures(
                    encrypt_rsa,
                    (key, &both, size),
                    outcome,
                ),
            Err(error) => outcome == Err::<Vec<u8>, ErrorStack>(error),
        }
}

/// Whether `res` is what a body and the outcome of sealing its key are put together to: the
/// message, or the error.
pub open spec fn is_assembled(
    body: Seq<u8>,
    sealed: Result<Vec<u8>, ErrorStack>,
    res: Result<Vec<u8>, EncryptError>,
) -> bool {
    match sealed {
        Ok(sealed) => res is Ok && res->Ok_0@ == framed(sealed@, body),
        Err(error) => res == Err::<Vec<u8>, EncryptError>(EncryptError::Key(error)),
    }
}

/// Whether `res` may come of the outcome of encrypting a packet: an error of the cipher, or
/// what the outcome of sealing the key makes of the body.
pub open spec fn seals_body(
    key: &PublicKey,
    body: Result<Vec<u8>, ErrorStack>,
    secret: Seq<u8>,
    iv: Seq<u8>,
    res: Result<Vec<u8>, EncryptError>,
) -> bool {
    match body {
        Ok(body) => exists|sealed: Result<Vec<u8>, ErrorStack>|
            makes_sealed_key(key, secret, iv, sealed) && #[trigger] is_assembled(
                body@,
                sealed,
                res,
            ),
        Err(error) => res == Err::<Vec<u8>, EncryptError>(EncryptError::Cipher(error)),
    }
}

/// Whether `res` may come of sealing a packet under a key and a vector: it is the error of
/// the first step that failed, or the sealed message if none did.
pub open spec fn encrypts_with(
    key: &PublicKey,
    encoded: &[u8],
    secret: Seq<u8>,
    iv: Seq<u8>,
    res: Result<Vec<u8>, EncryptError>,
) -> bool {
    &&& exists|body: Result<Vec<u8>, ErrorStack>|
        makes_body(secret, iv, encoded, body) && #[trigger] seals_body(key, body, secret, iv, res)
    &&& res is Ok ==> is_sealed_with(*key, encoded@, secret, iv, res->Ok_0@)
}

/// Whether `res` may come of the outcome of drawing a key and a vector: an error for want of
/// random bytes, or what sealing under both may give.
pub open spec fn encrypts_drawn(
    key: &PublicKey,
    encoded: &[u8],
    drawn: Result<(Vec<u8>, Vec<u8>), ErrorStack>,
    res: Result<Vec<u8>, EncryptError>,
) -> bool {
    match drawn {
        Ok((secret, iv)) => encrypts_with(key, encoded, secret@, iv@, res),
        Err(error) => res == Err::<Vec<u8>, EncryptError>(EncryptError::Random(error)),
    }
}

/// Sealing gives a message exactly where drawing, encrypting and sealing the key all work;
/// else it gives the error of the first of them that failed.
pub proof fn law_first_failure_is_told(
    key: &PublicKey,
    encoded: &[u8],
    drawn: Result<(Vec<u8>, Vec<u8>), ErrorStack>,
    res: Result<Vec<u8>, EncryptError>,
)
    requires
        encrypts_drawn(key, encoded, drawn, res),
    ensures
        match drawn {
            Err(error) => res == Err::<Vec<u8>, EncryptError>(EncryptError::Random(error)),
            Ok((secret, iv)) => match res {
                Err(EncryptError::Random(_)) => false,
                Err(EncryptError::Cipher(error)) => makes_body(secret@, iv@, encoded, Err(error)),
                Err(EncryptError::Key(error)) => {
                    &&& exists|body: Vec<u8>| makes_body(secret@, iv@, encoded, Ok(body))
                    &&& makes_sealed_key(key, secret@, iv@, Err(error))
                },
                Ok(message) => exists|body: Vec<u8>, sealed: Vec<u8>|
                    {
                        &&& #[trigger] makes_body(secret@, iv@, encoded, Ok(body))
                        &&& #[trigger] makes_sealed_key(key, secret@, iv@, Ok(sealed))
                        &&& message@ == framed(sealed@, body@)
                    },
            },
        },
{
}

/// Puts a key and a vector under the recipient's public key.
fn seal_key(key: &PublicKey, secret: Vec<u8>, iv: Vec<u8>) -> (res: Result<Vec<u8>, ErrorStack>)
    requires
        key.wf(),
        secret@.len() == 32,
        iv@.len() == 16,
    ensures
        match res {
            Ok(sealed) => is_sealed_key(*key, secret@, iv@, sealed@),
            Err(_) => true,
        },
        makes_sealed_key(key, secret@, iv@, res),
{
    let size = match rsa_size(key) {
        Ok(size) => size,
        Err(error) => {
            return Err(error);
        },
    };
    let mut both = secret;
    let mut iv = iv;
    both.append(&mut iv);
    encrypt_rsa(key, &both, size)
}

/// Puts a sealed message together, given what came of sealing its key: without a sealed key
/// there is no message, and the recipient's key is to blame.
pub fn assemble(body: Vec<u8>, sealed: Result<Vec<u8>, ErrorStack>) -> (res: Result<
    Vec<u8>,
    EncryptError,
>)
    ensures
        is_assembled(body@, sealed, res),
{
    match sealed {
        Ok(sealed) => Ok(frame(sealed, body)),
        Err(error) => Err(EncryptError::Key(error)),
    }
}

/// Seals a message, given what came of encrypting it under a key and a vector: without a
/// body there is no message, and the cipher is to blame; else only the recipient's key can
/// be.
pub fn seal_body(
    key: &PublicKey,
    body: Result<Vec<u8>, ErrorStack>,
    secret: Vec<u8>,
    iv: Vec<u8>,
) -> (res: Result<Vec<u8>, EncryptError>)
    requires
        key.wf(),
        secret@.len() == 32,
        iv@.len() == 16,
    ensures
        seals_body(key, body, secret@, iv@, res),
        match body {
            Ok(body) => match res {
                Ok(message) => is_sealed_body(*key, body@, secret@, iv@, message@),
                Err(error) => error is Key,
            },
            Err(_) => true,
        },
{
    match body {
        Ok(body) => assemble(body, seal_key(key, secret, iv)),
        Err(error) => Err(EncryptError::Cipher(error)),
    }
}

/// Seals an encoded packet under the key and vector given.
pub fn encrypt_with(key: &PublicKey, encoded: &[u8], secret: Vec<u8>, iv: Vec<u8>) -> (res: Result<
    Vec<u8>,
    EncryptError,
>)
    requires
        key.wf(),
        encoded@.len() + BLOCK_SIZE <= OPENSSL_LIMIT,
        secret@.len() == 32,
        iv@.len() == 16,
    ensures
        encrypts_with(key, encoded, secret@, iv@, res),
{
    let body = encrypt_aes(&secret, &iv, encoded);
    seal_body(key, body, secret, iv)
}

/// Draws a fresh random key and vector.
fn draw() -> (res: Result<(Vec<u8>, Vec<u8>), ErrorStack>)
    ensures
        match res {
            Ok((secret, iv)) => secret@.len() == 32 && iv@.len() == 16,
            Err(_) => true,
        },
        draws(res),
{
    let secret = match random_bytes(32) {
        Ok(bytes) => bytes,
        Err(error) => {
            return Err(error);
        },
    };
    match random_bytes(16) {
        Ok(iv) => Ok((secret, iv)),
        Err(error) => Err(error),
    }
}

/// Seals an encoded packet, given what came of drawing a key and a vector: without them
/// there is no message, for want of random bytes and for no other reason.
pub fn encrypt_drawn(
    key: &PublicKey,
    encoded: &[u8],
    drawn: Result<(Vec<u8>, Vec<u8>), ErrorStack>,
) -> (res: Result<Vec<u8>, EncryptError>)
    requires
        key.wf(),
        encoded@.len() + BLOCK_SIZE <= OPENSSL_LIMIT,
        drawn is Ok ==> drawn->Ok_0.0@.len() == 32 && drawn->Ok_0.1@.len() == 16,
    ensures
        encrypts_drawn(key, encoded, drawn, res),
{
    match drawn {
        Ok((secret, iv)) => encrypt_with(key, encoded, secret, iv),
        Err(error) => Err(EncryptError::Random(error)),
    }
}

/// Seals an encoded packet under a fresh random key and vector. Whether that works is left
/// to OpenSSL.
pub fn encrypt(key: &PublicKey, encoded: &[u8]) -> (res: Result<Vec<u8>, EncryptError>)
    requires
        key.wf(),
        encoded@.len() + BLOCK_SIZE <= OPENSSL_LIMIT,
    ensures
        exists|drawn: Result<(Vec<u8>, Vec<u8>), ErrorStack>|
            draws(drawn) && #[trigger] encrypts_drawn(key, encoded, drawn, res),
        match res {
            Ok(message) => exists|secret: Seq<u8>, iv: Seq<u8>|
                {
                    &&& secret.len() == 32
                    &&& iv.len() == 16
                    &&& is_drawn(secret, iv)
                    &&& #[trigger] is_sealed_with(*key, encoded@, secret, iv, message@)
                },
            Err(_) => true,
        },
{
    encrypt_drawn(key, encoded, draw())
}

} // verus!
