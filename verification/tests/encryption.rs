use openssl::bn::BigNum;
use openssl::error::ErrorStack;
use openssl::rsa::{Padding, Rsa};
use openssl::symm::{decrypt, Cipher};

use synac_client::encrypter::{
    assemble, encrypt, encrypt_drawn, encrypt_with, frame, seal_body, EncryptError, PublicKey,
};
use synac_client::keys::{new_pair, reported};

fn key_of(rsa: &Rsa<openssl::pkey::Private>) -> PublicKey {
    PublicKey { n: rsa.n().to_vec(), e: rsa.e().to_vec() }
}

/// Takes a sealed message apart: the key, the vector and the message.
fn open(rsa: &Rsa<openssl::pkey::Private>, sealed: &[u8]) -> (Vec<u8>, Vec<u8>, Vec<u8>) {
    let size_key = sealed[0] as usize * 256 + sealed[1] as usize;
    let size_body = sealed[2] as usize * 256 + sealed[3] as usize;
    assert_eq!(sealed.len(), 4 + size_key + size_body);
    assert_eq!(size_key, rsa.size() as usize);
    let mut both = vec![0; size_key];
    let n = rsa.private_decrypt(&sealed[4..4 + size_key], &mut both, Padding::PKCS1).unwrap();
    assert_eq!(n, 48);
    let message =
        decrypt(Cipher::aes_256_cbc(), &both[..32], Some(&both[32..48]), &sealed[4 + size_key..])
            .unwrap();
    (both[..32].to_vec(), both[32..48].to_vec(), message)
}

#[test]
fn a_sealed_message_can_be_opened_by_its_recipient() {
    let rsa = Rsa::generate(2048).unwrap();
    for message in [&b""[..], b"hello", &[7; 1000]].iter() {
        let sealed = encrypt(&key_of(&rsa), message).ok().unwrap();
        assert_eq!(open(&rsa, &sealed).2, message.to_vec());
    }
}

#[test]
fn every_message_gets_a_fresh_key() {
    let rsa = Rsa::generate(2048).unwrap();
    let a = open(&rsa, &encrypt(&key_of(&rsa), b"same").ok().unwrap());
    let b = open(&rsa, &encrypt(&key_of(&rsa), b"same").ok().unwrap());
    assert_ne!(a.0, b.0);
    assert_ne!(a.1, b.1);
    assert_eq!(a.2, b.2);
}

#[test]
fn the_key_and_the_vector_given_are_used() {
    let rsa = Rsa::generate(2048).unwrap();
    let sealed = encrypt_with(&key_of(&rsa), b"hello", vec![1; 32], vec![2; 16]).ok().unwrap();
    assert_eq!(open(&rsa, &sealed), (vec![1; 32], vec![2; 16], b"hello".to_vec()));
    let body = openssl::symm::encrypt(Cipher::aes_256_cbc(), &[1; 32], Some(&[2; 16]), b"hello");
    assert_eq!(&sealed[4 + 256..], &body.unwrap()[..]);
}

#[test]
fn leading_zeros_of_a_key_do_not_count() {
    let rsa = Rsa::generate(2048).unwrap();
    let mut n = vec![0, 0];
    n.extend(rsa.n().to_vec());
    let key = PublicKey { n, e: rsa.e().to_vec() };
    let sealed = encrypt(&key, b"hello").ok().unwrap();
    assert_eq!(&sealed[..2], &[1, 0]);
    assert_eq!(open(&rsa, &sealed).2, b"hello".to_vec());
}

#[test]
fn a_key_that_is_too_short_is_an_error() {
    let key = PublicKey { n: vec![0xc5], e: vec![3] };
    assert!(matches!(encrypt(&key, b"hello"), Err(EncryptError::Key(_))));
    let none = PublicKey { n: vec![], e: vec![] };
    assert!(matches!(encrypt(&none, b"hello"), Err(EncryptError::Key(_))));
}

#[test]
fn a_frame_begins_with_the_sizes() {
    assert_eq!(frame(vec![9, 8], vec![7]), vec![0, 2, 0, 1, 9, 8, 7]);
    let long = frame(vec![5; 256], vec![6; 515]);
    assert_eq!(&long[..4], &[1, 0, 2, 3]);
    assert_eq!(long.len(), 4 + 256 + 515);
}

#[test]
fn sizes_beyond_two_bytes_wrap() {
    let long = frame(vec![], vec![0; 0x1_0203]);
    assert_eq!(&long[..4], &[0, 0, 2, 3]);
}

#[test]
fn a_new_pair_belongs_together() {
    let pair = new_pair(1024).unwrap();
    let private = Rsa::private_key_from_pem(&pair.private).unwrap();
    assert_eq!(private.public_key_to_pem().unwrap(), pair.public);
    assert_eq!(private.n().num_bits(), 1024);
}

#[test]
fn a_pair_that_is_too_short_cannot_be_made() {
    let why = new_pair(1).err().unwrap();
    assert!(!why.is_empty());
}

#[test]
fn a_public_key_is_read_from_its_text() {
    let pair = new_pair(1024).unwrap();
    let key = PublicKey::from_pem(&pair.public).unwrap();
    let private = Rsa::private_key_from_pem(&pair.private).unwrap();
    assert_eq!(key.n, private.n().to_vec());
    assert_eq!(key.e, private.e().to_vec());
    assert_eq!(BigNum::from_slice(&key.n).unwrap().num_bits(), 1024);
    let sealed = encrypt(&key, b"hello").ok().unwrap();
    assert_eq!(open(&private, &sealed).2, b"hello".to_vec());
}

#[test]
fn a_text_that_is_no_key_is_refused() {
    let why = PublicKey::from_pem(b"not a key").err().unwrap();
    assert!(!why.is_empty());
    assert!(PublicKey::from_pem(b"").is_err());
}

#[test]
fn without_random_bytes_nothing_is_sealed() {
    let rsa = Rsa::generate(2048).unwrap();
    let sealed = encrypt_drawn(&key_of(&rsa), b"hello", Err(ErrorStack::get()));
    assert!(matches!(sealed, Err(EncryptError::Random(_))));
}

#[test]
fn the_bytes_that_were_drawn_are_used() {
    let rsa = Rsa::generate(2048).unwrap();
    let sealed = encrypt_drawn(&key_of(&rsa), b"hello", Ok((vec![3; 32], vec![4; 16])));
    assert_eq!(
        open(&rsa, &sealed.ok().unwrap()),
        (vec![3; 32], vec![4; 16], b"hello".to_vec())
    );
}

#[test]
fn a_message_needs_a_sealed_key() {
    assert_eq!(assemble(vec![7], Ok(vec![9, 8])).ok(), Some(vec![0, 2, 0, 1, 9, 8, 7]));
    assert!(matches!(assemble(vec![7], Err(ErrorStack::get())), Err(EncryptError::Key(_))));
}

#[test]
fn failures_are_reported_in_words() {
    assert_eq!(reported(Ok(5)), Ok(5));
    let failure = Rsa::public_key_from_pem(b"not a key").map(|_| ());
    let words = failure.as_ref().err().unwrap().to_string();
    assert_eq!(reported(failure), Err(words));
}

#[test]
fn a_new_pair_has_the_length_asked_for() {
    for bits in [2048, 3072].iter() {
        let pair = new_pair(*bits).unwrap();
        let private = Rsa::private_key_from_pem(&pair.private).unwrap();
        assert_eq!(private.n().num_bits(), *bits as i32);
        assert_eq!(private.public_key_to_pem().unwrap(), pair.public);
    }
}

#[test]
fn a_new_pair_of_an_odd_length_belongs_together() {
    let pair = new_pair(2049).unwrap();
    let private = Rsa::private_key_from_pem(&pair.private).unwrap();
    assert_eq!(private.public_key_to_pem().unwrap(), pair.public);
    let bits = private.n().num_bits();
    assert!(bits == 2048 || bits == 2049);
}

#[test]
fn without_a_body_nothing_is_sealed() {
    let rsa = Rsa::generate(2048).unwrap();
    let sealed = seal_body(&key_of(&rsa), Err(ErrorStack::get()), vec![1; 32], vec![2; 16]);
    assert!(matches!(sealed, Err(EncryptError::Cipher(_))));
}

#[test]
fn a_body_is_sealed_as_it_is() {
    let rsa = Rsa::generate(2048).unwrap();
    let body =
        openssl::symm::encrypt(Cipher::aes_256_cbc(), &[1; 32], Some(&[2; 16]), b"hello").unwrap();
    let sealed = seal_body(&key_of(&rsa), Ok(body.clone()), vec![1; 32], vec![2; 16]);
    let sealed = sealed.ok().unwrap();
    assert_eq!(&sealed[4 + 256..], &body[..]);
    assert_eq!(open(&rsa, &sealed), (vec![1; 32], vec![2; 16], b"hello".to_vec()));
    let short = PublicKey { n: vec![0xc5], e: vec![3] };
    assert!(matches!(
        seal_body(&short, Ok(body), vec![1; 32], vec![2; 16]),
        Err(EncryptError::Key(_))
    ));
}

#[test]
fn a_body_fills_the_next_whole_blocks() {
    let rsa = Rsa::generate(1024).unwrap();
    for n in 0..70 {
        let sealed = encrypt(&key_of(&rsa), &vec![n as u8; n]).ok().unwrap();
        assert_eq!(sealed.len(), 4 + 128 + 16 * (n / 16 + 1));
        assert_eq!(open(&rsa, &sealed).2, vec![n as u8; n]);
    }
}

#[test]
fn sizes_tell_nothing_but_sizes() {
    let a = encrypt(&key_of(&Rsa::generate(1024).unwrap()), b"0123456789").ok().unwrap();
    let b = encrypt(&key_of(&Rsa::generate(1024).unwrap()), b"abcdefghij").ok().unwrap();
    assert_eq!(a.len(), b.len());
    assert_eq!(&a[..4], &b[..4]);
    assert_eq!(&a[..4], &[0, 128, 0, 16]);
}

#[test]
fn a_key_needs_room_for_the_padding() {
    let key = |size: usize| PublicKey { n: vec![0xff; size], e: vec![3] };
    assert!(matches!(encrypt(&key(58), b"hello"), Err(EncryptError::Key(_))));
    assert_eq!(encrypt(&key(59), b"hello").ok().unwrap().len(), 4 + 59 + 16);
}
