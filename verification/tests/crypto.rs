use ngn::error::{Error, ErrorKind};
use ngn::protocol::encryption::{nonce_from, Keys, NonceSequence, SEAL_MAX_LEN};
use ngn::protocol::identity::{display_logical_id, new_own_id, LogicalPeerIdentity, OwnIdentity};
use ngn::protocol::key_exchange::{ExchangeStatus, KeyExchange, MaybeInvalidPublicKey as ExchangeKey};
use ngn::protocol::signing::{
    key_pair_from_generated, key_pair_from_pkcs8_bytes, new_key_pair, sign, verify,
    MaybeInvalidPublicKey, MaybeInvalidSignature,
};

#[test]
fn signature_verifies_against_the_public_key() {
    let (pair, pkcs8) = new_key_pair().unwrap();
    assert_eq!(pair.pkcs8(), &pkcs8);
    let msg = b"hello, world";
    let signature = sign(&pair, msg);
    let key = MaybeInvalidPublicKey(pair.public_key());
    assert_eq!(verify(&key, &MaybeInvalidSignature(signature.0), msg), Ok(()));
}

#[test]
fn signature_of_the_empty_message_verifies() {
    let (pair, _) = new_key_pair().unwrap();
    let signature = sign(&pair, &[]);
    let key = MaybeInvalidPublicKey(pair.public_key());
    assert_eq!(verify(&key, &MaybeInvalidSignature(signature.0), &[]), Ok(()));
}

#[test]
fn signing_is_deterministic() {
    let (pair, pkcs8) = new_key_pair().unwrap();
    let again = key_pair_from_pkcs8_bytes(&pkcs8).unwrap();
    assert_eq!(pair.public_key(), again.public_key());
    assert_eq!(sign(&pair, b"abc").0, sign(&again, b"abc").0);
    assert_ne!(sign(&pair, b"abc").0, sign(&pair, b"abd").0);
}

#[test]
fn signature_is_not_the_message() {
    let (pair, _) = new_key_pair().unwrap();
    let msg = [7u8; 64];
    assert_ne!(sign(&pair, &msg).0, msg);
}

#[test]
fn signature_of_another_key_is_refused() {
    let (pair, _) = new_key_pair().unwrap();
    let (other, _) = new_key_pair().unwrap();
    let signature = sign(&other, b"hi");
    let key = MaybeInvalidPublicKey(pair.public_key());
    assert_eq!(
        verify(&key, &MaybeInvalidSignature(signature.0), b"hi"),
        Err(Error::BadSignature)
    );
}

#[test]
fn signature_of_another_message_is_refused() {
    let (pair, _) = new_key_pair().unwrap();
    let signature = sign(&pair, b"hi");
    let key = MaybeInvalidPublicKey(pair.public_key());
    assert_eq!(
        verify(&key, &MaybeInvalidSignature(signature.0), b"ho"),
        Err(Error::BadSignature)
    );
    let mut bent = signature.0;
    bent[0] ^= 1;
    assert_eq!(verify(&key, &MaybeInvalidSignature(bent), b"hi"), Err(Error::BadSignature));
}

#[test]
fn bytes_that_are_no_key_pair_are_rejected() {
    assert!(matches!(key_pair_from_pkcs8_bytes(&[]), Err(Error::KeyRejected)));
    assert!(matches!(key_pair_from_pkcs8_bytes(&[1, 2, 3]), Err(Error::KeyRejected)));
    let (_, mut pkcs8) = new_key_pair().unwrap();
    pkcs8.truncate(20);
    assert!(matches!(key_pair_from_pkcs8_bytes(&pkcs8), Err(Error::KeyRejected)));
}

#[test]
fn failed_generation_is_handed_on() {
    assert!(matches!(key_pair_from_generated(None), Err(Error::Random)));
    assert!(matches!(key_pair_from_generated(Some(vec![0; 10])), Err(Error::KeyRejected)));
    let (_, pkcs8) = new_key_pair().unwrap();
    let (pair, document) = key_pair_from_generated(Some(pkcs8.clone())).unwrap();
    assert_eq!(document, pkcs8);
    assert_eq!(pair.pkcs8(), &pkcs8);
}

#[test]
fn logical_identity_is_shown_with_three_bytes_of_the_key() {
    assert_eq!(display_logical_id("alice", &[0x01, 0xab, 0xff, 0x10]), "alice#01abff");
    assert_eq!(display_logical_id("", &[0x00, 0x0f, 0xf0]), "#000ff0");
    assert_eq!(display_logical_id("bob", &[0x9a]), "bob#9a");
    assert_eq!(display_logical_id("bob", &[]), "bob#");
}

#[test]
fn own_identity_is_shown_like_its_public_form() {
    let id = new_own_id("carol".to_string()).unwrap();
    assert_eq!(id.nickname, "carol");
    let public = id.to_public();
    assert_eq!(public.nickname, "carol");
    assert_eq!(public.key.0, id.key_pair.public_key());
    assert_eq!(id.display(), public.display());
    let key = id.key_pair.public_key();
    assert_eq!(
        public.display(),
        format!("carol#{:02x}{:02x}{:02x}", key[0], key[1], key[2])
    );
}

#[test]
fn own_identity_holds_what_it_was_made_of() {
    let (pair, _) = new_key_pair().unwrap();
    let key = pair.public_key();
    let id = OwnIdentity::new("dave".to_string(), pair);
    assert_eq!(id.nickname, "dave");
    assert_eq!(id.key_pair.public_key(), key);
}

#[test]
fn logical_identities_compare_by_nickname_and_key() {
    let a = LogicalPeerIdentity { nickname: "a".to_string(), key: MaybeInvalidPublicKey([1; 32]) };
    let b = LogicalPeerIdentity { nickname: "b".to_string(), key: MaybeInvalidPublicKey([1; 32]) };
    let c = LogicalPeerIdentity { nickname: "a".to_string(), key: MaybeInvalidPublicKey([2; 32]) };
    assert!(a.same(&a.duplicate()));
    assert!(!a.same(&b));
    assert!(!a.same(&c));
}

#[test]
fn nonce_is_counter_then_random() {
    assert_eq!(
        nonce_from(0x01020304, &[9, 8, 7, 6, 5, 4, 3, 2]),
        [1, 2, 3, 4, 9, 8, 7, 6, 5, 4, 3, 2]
    );
    assert_eq!(nonce_from(0, &[0; 8]), [0; 12]);
    assert_eq!(nonce_from(u32::MAX, &[1; 8])[..4], [0xff; 4]);
}

#[test]
fn nonce_sequence_counts_up() {
    let mut seq = NonceSequence::default();
    assert_eq!(seq.counter(), 0);
    assert_eq!(seq.advance_with(Some([7; 8])), Ok([0, 0, 0, 0, 7, 7, 7, 7, 7, 7, 7, 7]));
    assert_eq!(seq.advance_with(Some([8; 8])), Ok([0, 0, 0, 1, 8, 8, 8, 8, 8, 8, 8, 8]));
    assert_eq!(seq.counter(), 2);
    let first = seq.advance().unwrap();
    let second = seq.advance().unwrap();
    assert_eq!(first[..4], [0, 0, 0, 2]);
    assert_eq!(second[..4], [0, 0, 0, 3]);
    assert_eq!(seq.counter(), 4);
}

#[test]
fn nonce_sequence_without_random_bytes_stays() {
    let mut seq = NonceSequence::starting_at(5);
    assert_eq!(seq.advance_with(None), Err(Error::Random));
    assert_eq!(seq.counter(), 5);
}

#[test]
fn nonce_sequence_ends() {
    let mut seq = NonceSequence::starting_at(u32::MAX - 1);
    assert_eq!(seq.advance_with(Some([0; 8])).unwrap()[..4], [0xff, 0xff, 0xff, 0xfe]);
    assert_eq!(seq.counter(), u32::MAX);
    assert_eq!(seq.advance_with(Some([0; 8])), Err(Error::NonceExhausted));
    assert_eq!(seq.advance(), Err(Error::NonceExhausted));
    assert_eq!(seq.counter(), u32::MAX);
}

#[test]
fn sealed_data_opens_under_the_same_key_and_nonce() {
    let keys = Keys::from_key_bytes([3; 32]);
    let nonce = nonce_from(0, &[1, 2, 3, 4, 5, 6, 7, 8]);
    let mut data = b"attack at dawn".to_vec();
    assert_eq!(keys.seal_with_nonce(&nonce, &mut data), Ok(()));
    assert_eq!(data.len(), 14 + 16);
    assert_ne!(&data[..14], b"attack at dawn");
    assert_eq!(keys.open_with_nonce(&nonce, &mut data), Ok(()));
    assert_eq!(data, b"attack at dawn");
}

#[test]
fn empty_data_seals_to_the_tag_alone() {
    let keys = Keys::from_key_bytes([3; 32]);
    let nonce = [0u8; 12];
    let mut data = Vec::new();
    assert_eq!(keys.seal_with_nonce(&nonce, &mut data), Ok(()));
    assert_eq!(data.len(), 16);
    assert_eq!(keys.open_with_nonce(&nonce, &mut data), Ok(()));
    assert!(data.is_empty());
}

#[test]
fn sealed_data_does_not_open_otherwise() {
    let keys = Keys::from_key_bytes([3; 32]);
    let nonce = nonce_from(1, &[0; 8]);
    let mut data = b"secret".to_vec();
    keys.seal_with_nonce(&nonce, &mut data).unwrap();
    let sealed = data.clone();

    let mut other_nonce = sealed.clone();
    assert_eq!(keys.open_with_nonce(&nonce_from(2, &[0; 8]), &mut other_nonce), Err(Error::Open));
    assert_eq!(other_nonce.len(), sealed.len());

    let mut other_key = sealed.clone();
    assert_eq!(
        Keys::from_key_bytes([4; 32]).open_with_nonce(&nonce, &mut other_key),
        Err(Error::Open)
    );

    let mut bent = sealed.clone();
    bent[0] ^= 1;
    assert_eq!(keys.open_with_nonce(&nonce, &mut bent), Err(Error::Open));

    let mut short = vec![1, 2, 3];
    assert_eq!(keys.open_with_nonce(&nonce, &mut short), Err(Error::Open));
}

#[test]
fn encrypting_appends_the_tag_and_counts() {
    let mut keys = Keys::from_key_bytes([9; 32]);
    let mut data = vec![1, 2, 3];
    assert_eq!(keys.encrypt_in_place_append_tag(&mut data), Ok(()));
    assert_eq!(data.len(), 3 + 16);
    let mut again = vec![1, 2, 3];
    assert_eq!(keys.encrypt_in_place_append_tag(&mut again), Ok(()));
    assert_ne!(data, again);
}

#[test]
fn keys_of_no_secret_fail() {
    assert!(matches!(Keys::from_agreement(None), Err(Error::Agreement)));
    assert!(Keys::from_agreement(Some([1; 32])).is_ok());
}

#[test]
fn key_exchange_gives_both_sides_the_same_keys() {
    let mut a = KeyExchange::new().unwrap();
    let mut b = KeyExchange::new().unwrap();
    assert_eq!(a.status(), ExchangeStatus::InProgress);
    assert!(a.encryption_keys().is_none());
    let a_key = a.export_public_key();
    let b_key = b.export_public_key();
    assert_ne!(a_key.0, b_key.0);
    assert_eq!(a.finish(&b_key), Ok(()));
    assert_eq!(b.finish(&a_key), Ok(()));
    assert_eq!(a.status(), ExchangeStatus::Completed);
    assert_eq!(b.status(), ExchangeStatus::Completed);
    assert_eq!(a.export_public_key().0, a_key.0);

    let nonce = nonce_from(0, &[5; 8]);
    let mut data = b"between us".to_vec();
    a.encryption_keys().unwrap().seal_with_nonce(&nonce, &mut data).unwrap();
    assert_eq!(b.encryption_keys().unwrap().open_with_nonce(&nonce, &mut data), Ok(()));
    assert_eq!(data, b"between us");
}

#[test]
fn key_exchange_finishes_once() {
    let mut a = KeyExchange::new().unwrap();
    let b = KeyExchange::new().unwrap();
    let c = KeyExchange::new().unwrap();
    assert_eq!(a.finish(&b.export_public_key()), Ok(()));
    assert_eq!(a.finish(&c.export_public_key()), Err(Error::ExchangeAlreadyCompleted));
    assert_eq!(a.finish(&b.export_public_key()), Err(Error::ExchangeAlreadyCompleted));
    assert_eq!(a.status(), ExchangeStatus::Completed);
    assert!(a.encryption_keys_mut().is_some());
}

#[test]
fn key_exchange_with_a_bad_key_fails_for_good() {
    let mut a = KeyExchange::new().unwrap();
    assert_eq!(a.finish(&ExchangeKey([0; 32])), Err(Error::Agreement));
    assert_eq!(a.status(), ExchangeStatus::Errored);
    assert!(a.encryption_keys().is_none());
    let b = KeyExchange::new().unwrap();
    assert_eq!(a.finish(&b.export_public_key()), Err(Error::ExchangeAlreadyCompleted));
    assert_eq!(a.status(), ExchangeStatus::Errored);
}

#[test]
fn errors_have_their_kinds() {
    assert_eq!(Error::WrongMagic.kind(), ErrorKind::Protocol);
    assert_eq!(Error::WrongVersion.kind(), ErrorKind::Protocol);
    assert_eq!(Error::Truncated.kind(), ErrorKind::Protocol);
    assert_eq!(Error::Decode.kind(), ErrorKind::Protocol);
    assert_eq!(Error::InvalidLength.kind(), ErrorKind::Protocol);
    assert_eq!(Error::HugeLength.kind(), ErrorKind::Protocol);
    assert_eq!(Error::OutOfMemory.kind(), ErrorKind::Resource);
    assert_eq!(Error::BadSignature.kind(), ErrorKind::Crypto);
    assert_eq!(Error::NonceExhausted.kind(), ErrorKind::Crypto);
    assert_eq!(Error::PeerLost.kind(), ErrorKind::State);
    assert_eq!(Error::NoAddress.kind(), ErrorKind::State);
    assert_eq!(Error::GroupOwnerUnknown.kind(), ErrorKind::State);
}

#[test]
fn key_exchange_holds_the_keys_it_was_started_with() {
    let rng = ring::rand::SystemRandom::new();
    let private_key =
        ring::agreement::EphemeralPrivateKey::generate(&ring::agreement::X25519, &rng).unwrap();
    let public_key: [u8; 32] =
        private_key.compute_public_key().unwrap().as_ref().try_into().unwrap();
    let mut exchange = KeyExchange::with_keys(private_key, Some(public_key)).ok().unwrap();
    assert_eq!(exchange.status(), ExchangeStatus::InProgress);
    assert_eq!(exchange.export_public_key().0, public_key);
    assert!(exchange.encryption_keys().is_none());
    let peer = KeyExchange::new().ok().unwrap();
    assert_eq!(exchange.finish(&peer.export_public_key()), Ok(()));
    assert_eq!(exchange.status(), ExchangeStatus::Completed);
}

#[test]
fn key_exchange_without_a_public_key_is_none() {
    let rng = ring::rand::SystemRandom::new();
    let private_key =
        ring::agreement::EphemeralPrivateKey::generate(&ring::agreement::X25519, &rng).unwrap();
    assert!(matches!(KeyExchange::with_keys(private_key, None), Err(Error::Random)));
}

#[test]
fn sealing_takes_data_up_to_the_limit_of_the_algorithm() {
    assert_eq!(SEAL_MAX_LEN, ((1u64 << 32) - 2) * 16);
    let keys = Keys::from_key_bytes([1; 32]);
    let mut data = vec![7u8; 100_000];
    assert_eq!(keys.seal_with_nonce(&[0; 12], &mut data), Ok(()));
    assert_eq!(data.len(), 100_016);
}

#[test]
fn finished_key_exchange_has_keys() {
    let mut a = KeyExchange::new().ok().unwrap();
    let b = KeyExchange::new().ok().unwrap();
    assert!(a.encryption_keys().is_none());
    assert!(a.finish(&b.export_public_key()).is_ok());
    assert!(a.encryption_keys().is_some());
    let mut c = KeyExchange::new().ok().unwrap();
    assert!(c.finish(&ExchangeKey([0; 32])).is_err());
    assert!(c.encryption_keys().is_none());
    assert!(c.finish(&b.export_public_key()).is_err());
    assert!(c.encryption_keys().is_none());
}
