//! Key pairs for private messages.

use openssl::error::ErrorStack;
use openssl::rsa::Rsa;
use vstd::prelude::*;

use crate::encrypter::{significant, PublicKey, OPENSSL_LIMIT};

verus! {

/// A private key and its public half, both as PEM texts.
pub struct KeyPair {
    pub private: Vec<u8>,
    pub public: Vec<u8>,
}

/// The public half of an RSA private key, both as PEM texts. For a text that is no private
/// key it is empty.
pub uninterp spec fn public_pem_of(private: Seq<u8>) -> Seq<u8>;

/// Whether OpenSSL may make a private key and its public half when it is asked for a given
/// length.
pub closed spec fn may_make(bits: u32, private: Seq<u8>, public: Seq<u8>) -> bool {
    exists|pair: KeyPair|
        pair.private@ == private && pair.public@ == public && #[trigger] call_ensures(
            generate_pair,
            (bits,),
            Ok::<KeyPair, ErrorStack>(pair),
        )
}

/// Whether two PEM texts are a private key, of a given length where that is even, and its
/// public half, made for that length.
pub open spec fn is_new_pair(private: Seq<u8>, public: Seq<u8>, bits: u32) -> bool {
    &&& may_make(bits, private, public)
    &&& public == public_pem_of(private)
    &&& bits % 2 == 0 ==> modulus_bits_of(private) == bits
}

/// How many bits the modulus of a private key in a PEM text has.
pub uninterp spec fn modulus_bits_of(private: Seq<u8>) -> nat;

/// `Rsa::generate` of openssl, with `private_key_to_pem` and `public_key_to_pem` to write
/// the new key down. Which key comes out is left to chance. Where the length asked for is
/// even, the modulus has it; of an odd one nothing is said, as it cannot be halved between
/// the two factors. The public text belongs to the private one, as both are written from one
/// key. A failure to write the key down is reported like a failure to make it.
#[verifier::external_body]
fn generate_pair(bits: u32) -> (res: Result<KeyPair, ErrorStack>)
    ensures
        match res {
            Ok(pair) => pair.public@ == public_pem_of(pair.private@) && (bits % 2 == 0
                ==> modulus_bits_of(pair.private@) == bits),
            Err(_) => true,
        },
{
    let rsa = Rsa::generate(bits)?;
    Ok(KeyPair { private: rsa.private_key_to_pem()?, public: rsa.public_key_to_pem()? })
}

/// Whether a PEM text can be read as the public key with modulus `n` and exponent `e`.
pub uninterp spec fn reads_as_public_key(pem: Seq<u8>, n: Seq<u8>, e: Seq<u8>) -> bool;

/// Whether a modulus `n` and an exponent `e` are the public half of a private key.
pub open spec fn has_private_half(n: Seq<u8>, e: Seq<u8>) -> bool {
    exists|private: Seq<u8>| reads_as_public_key(#[trigger] public_pem_of(private), n, e)
}

/// Whether a PEM text can be read as some public key.
pub open spec fn is_public_key(pem: Seq<u8>) -> bool {
    exists|n: Seq<u8>, e: Seq<u8>| reads_as_public_key(pem, n, e)
}

/// `Rsa::public_key_from_pem` of openssl: the numbers of a public key, without leading
/// zeros. A PEM text may be protected by a passphrase, for which OpenSSL asks at the
/// terminal, so the text alone does not tell what comes out. The function panics on a text
/// above the limit.
#[verifier::external_body]
fn read_public_pem(pem: &[u8]) -> (res: Result<PublicKey, ErrorStack>)
    requires
        pem@.len() <= OPENSSL_LIMIT,
    ensures
        match res {
            Ok(key) => key.wf() && significant(key.n@) == key.n@ && significant(key.e@) == key.e@
                && reads_as_public_key(pem@, key.n@, key.e@),
            Err(_) => true,
        },
{
    let rsa = Rsa::public_key_from_pem(pem)?;
    Ok(PublicKey { n: rsa.n().to_vec(), e: rsa.e().to_vec() })
}

/// The text that `ErrorStack` of openssl is displayed as. Nothing is said about it.
#[verifier::external_body]
fn describe(error: &ErrorStack) -> (res: String) {
    format!("{}", error)
}

/// Whether a text is what an error of OpenSSL may be displayed as.
pub closed spec fn describes(error: ErrorStack, text: Seq<char>) -> bool {
    exists|shown: String| shown@ == text && #[trigger] call_ensures(describe, (&error,), shown)
}

/// Whether OpenSSL may fail to make a key pair of a given length, and `why` says so.
pub closed spec fn may_not_make(bits: u32, why: Seq<char>) -> bool {
    exists|error: ErrorStack| #[trigger]
        call_ensures(generate_pair, (bits,), Err::<KeyPair, ErrorStack>(error)) && describes(
            error,
            why,
        )
}

/// Whether OpenSSL may refuse to read a PEM text as a public key, and `why` says so.
pub closed spec fn may_refuse(pem: Seq<u8>, why: Seq<char>) -> bool {
    exists|bytes: &[u8], error: ErrorStack|
        bytes@ == pem && #[trigger] call_ensures(
            read_public_pem,
            (bytes,),
            Err::<PublicKey, ErrorStack>(error),
        ) && describes(error, why)
}

/// Gives on what OpenSSL made, or says in its words why it made nothing.
pub fn reported<T>(made: Result<T, ErrorStack>) -> (res: Result<T, String>)
    ensures
        match made {
            Ok(value) => res == Ok::<T, String>(value),
            Err(error) => res is Err && describes(error, res->Err_0@),
        },
{
    match made {
        Ok(value) => Ok(value),
        Err(error) => Err(describe(&error)),
    }
}

/// Makes a key pair, or says why there is none. Which of the two is left to OpenSSL.
pub fn new_pair(bits: u32) -> (res: Result<KeyPair, String>)
    ensures
        match res {
            Ok(pair) => is_new_pair(pair.private@, pair.public@, bits),
            Err(why) => may_not_make(bits, why@),
        },
{
    reported(generate_pair(bits))
}

impl PublicKey {
    /// Reads a public key from a PEM text, or says why it cannot be read. Which of the two
    /// is left to OpenSSL.
    pub fn from_pem(pem: &[u8]) -> (res: Result<PublicKey, String>)
        requires
            pem@.len() <= OPENSSL_LIMIT,
        ensures
            match res {
                Ok(key) => key.wf() && significant(key.n@) == key.n@ && significant(key.e@)
                    == key.e@ && reads_as_public_key(pem@, key.n@, key.e@),
                Err(why) => may_refuse(pem@, why@),
            },
    {
        reported(read_public_pem(pem))
    }
}

} // verus!
