use earendil::addr::{Fingerprint, IdentityPublic, IdentitySecret};
use earendil::dht::{
    closest_relays, first_valid_answer, is_closer, DhtStore, LookupAnswer, LOCATOR_REFRESH_SECS,
    LOCATOR_TTL_SECS,
};
use earendil::haven::HavenLocator;
use earendil_crypt::HavenIdentitySecret;

fn fp(fill: u8) -> Fingerprint {
    Fingerprint::from_bytes([fill; 20])
}

fn fp_last(last: u8) -> Fingerprint {
    let mut bytes = [0u8; 20];
    bytes[19] = last;
    Fingerprint::from_bytes(bytes)
}

fn key_of(secret: &HavenIdentitySecret) -> IdentityPublic {
    let mut bytes = [0u8; 32];
    bytes.copy_from_slice(secret.public().as_ref());
    IdentityPublic { bytes }
}

fn signed_locator(secret: &HavenIdentitySecret, onion: u8, rendezvous: Fingerprint) -> HavenLocator {
    let identity = key_of(secret).fingerprint();
    let mut locator =
        HavenLocator { identity, onion_pk: [onion; 32], rendezvous_point: rendezvous, signature: vec![] };
    locator.signature = secret.sign(&locator.to_sign()).to_vec();
    locator
}

#[test]
fn closeness_is_xor_distance() {
    let key = fp_last(0b1010);
    // distances: 0b1011 ^ 0b1010 = 1, 0b0010 ^ 0b1010 = 8
    assert!(is_closer(&key, &fp_last(0b1011), &fp_last(0b0010)));
    assert!(!is_closer(&key, &fp_last(0b0010), &fp_last(0b1011)));
    assert!(!is_closer(&key, &fp_last(0b1011), &fp_last(0b1011)));
    // an earlier byte weighs more than a later one
    let mut high = [0u8; 20];
    high[0] = 1;
    assert!(is_closer(&key, &fp_last(0xff), &Fingerprint::from_bytes(high)));
    assert!(is_closer(&key, &key, &fp_last(0b1011)));
}

#[test]
fn the_k_closest_relays_come_closest_first() {
    let key = fp_last(0);
    let relays = vec![fp_last(9), fp_last(3), fp_last(200), fp_last(1), fp_last(3), fp_last(7)];
    assert_eq!(closest_relays(&key, &relays, 3), vec![fp_last(1), fp_last(3), fp_last(3)]);
    assert_eq!(closest_relays(&key, &relays, 0), Vec::<Fingerprint>::new());
    assert_eq!(
        closest_relays(&key, &relays, 10),
        vec![fp_last(1), fp_last(3), fp_last(3), fp_last(7), fp_last(9), fp_last(200)]
    );
    assert_eq!(closest_relays(&fp_last(201), &relays, 1), vec![fp_last(200)]);
    assert_eq!(closest_relays(&key, &vec![], 4), Vec::<Fingerprint>::new());
}

#[test]
fn fingerprint_of_a_key_is_the_one_of_the_crypt_crate() {
    let secret = HavenIdentitySecret::from_bytes(&[7; 32]);
    let expected = *secret.public().fingerprint().as_bytes();
    assert_eq!(key_of(&secret).fingerprint(), Fingerprint::from_bytes(expected));
    assert_ne!(expected.to_vec(), secret.public().as_ref()[..20].to_vec());
}

#[test]
fn locator_verifies_only_under_its_own_key_and_content() {
    let secret = HavenIdentitySecret::from_bytes(&[7; 32]);
    let other = HavenIdentitySecret::from_bytes(&[8; 32]);
    let locator = signed_locator(&secret, 1, fp(3));
    assert_eq!(locator.to_sign().len(), 72);
    assert!(locator.verify(&key_of(&secret)));
    assert!(!locator.verify(&key_of(&other)));
    let mut moved = locator.clone();
    moved.rendezvous_point = fp(4);
    assert!(!moved.verify(&key_of(&secret)));
    let mut cut = locator.clone();
    cut.signature.pop();
    assert!(!cut.verify(&key_of(&secret)));
    let mut forged = signed_locator(&other, 1, fp(3));
    forged.identity = locator.identity;
    assert!(!forged.verify(&key_of(&other)));
}

#[test]
fn lookup_takes_the_first_valid_answer() {
    let secret = HavenIdentitySecret::from_bytes(&[7; 32]);
    let other = HavenIdentitySecret::from_bytes(&[8; 32]);
    let wanted = key_of(&secret).fingerprint();
    let good = signed_locator(&secret, 1, fp(3));
    let mut bad = good.clone();
    bad.onion_pk = [2; 32];
    let responses = vec![
        None,
        Some(LookupAnswer { locator: bad, key: key_of(&secret) }),
        Some(LookupAnswer { locator: signed_locator(&other, 1, fp(3)), key: key_of(&other) }),
        Some(LookupAnswer { locator: good.clone(), key: key_of(&secret) }),
        Some(LookupAnswer { locator: good, key: key_of(&secret) }),
    ];
    assert_eq!(first_valid_answer(&responses, &wanted), Some(3));
    assert_eq!(first_valid_answer(&responses, &fp(1)), None);
    assert_eq!(first_valid_answer(&vec![None, None], &wanted), None);
}

#[test]
fn stored_locators_live_for_an_hour() {
    let secret = HavenIdentitySecret::from_bytes(&[7; 32]);
    let identity = key_of(&secret).fingerprint();
    let mut store = DhtStore::new();
    assert!(store.get(&identity, 0).is_none());
    assert!(store.insert(signed_locator(&secret, 1, fp(3)), key_of(&secret), 1000));
    assert_eq!(store.len(), 1);
    assert_eq!(store.get(&identity, 1000).unwrap().rendezvous_point, fp(3));
    assert_eq!(store.get(&identity, 1000 + LOCATOR_TTL_SECS).unwrap().onion_pk, [1; 32]);
    assert!(store.get(&identity, 1001 + LOCATOR_TTL_SECS).is_none());
    assert!(store.get(&identity, 5).is_some());
    assert_eq!(LOCATOR_TTL_SECS, 3600);
    assert!(LOCATOR_REFRESH_SECS < LOCATOR_TTL_SECS);

    // a refresh replaces the record and renews it
    assert!(store.insert(signed_locator(&secret, 2, fp(4)), key_of(&secret), 4000));
    assert_eq!(store.len(), 1);
    assert_eq!(store.get(&identity, 7600).unwrap().rendezvous_point, fp(4));
}

#[test]
fn invalid_locator_is_not_stored() {
    let secret = HavenIdentitySecret::from_bytes(&[7; 32]);
    let other = HavenIdentitySecret::from_bytes(&[8; 32]);
    let mut store = DhtStore::new();
    assert!(!store.insert(signed_locator(&secret, 1, fp(3)), key_of(&other), 0));
    assert_eq!(store.len(), 0);
}

#[test]
fn eviction_keeps_what_is_alive() {
    let a = HavenIdentitySecret::from_bytes(&[1; 32]);
    let b = HavenIdentitySecret::from_bytes(&[2; 32]);
    let c = HavenIdentitySecret::from_bytes(&[3; 32]);
    let mut store = DhtStore::new();
    assert!(store.insert(signed_locator(&a, 1, fp(3)), key_of(&a), 100));
    assert!(store.insert(signed_locator(&b, 1, fp(3)), key_of(&b), 2000));
    assert!(store.insert(signed_locator(&c, 1, fp(3)), key_of(&c), 150));
    store.evict(3750);
    assert_eq!(store.len(), 2);
    assert!(store.get(&key_of(&a).fingerprint(), 3750).is_none());
    assert!(store.get(&key_of(&b).fingerprint(), 3750).is_some());
    assert!(store.get(&key_of(&c).fingerprint(), 3750).is_some());
    store.evict(3751);
    assert_eq!(store.len(), 1);
    store.evict(u64::MAX);
    assert_eq!(store.len(), 0);
}

#[test]
fn new_locator_is_signed_by_its_identity() {
    let secret = HavenIdentitySecret::from_bytes(&[7; 32]);
    let signer = IdentitySecret { bytes: [7; 32] };
    assert_eq!(signer.public(), key_of(&secret));
    assert_ne!(signer.public().bytes, [7; 32]);
    let locator = HavenLocator::new(&signer, [5; 32], fp(3));
    assert_eq!(locator.identity, key_of(&secret).fingerprint());
    assert_eq!(locator.onion_pk, [5; 32]);
    assert_eq!(locator.rendezvous_point, fp(3));
    assert_eq!(locator.signature, secret.sign(&locator.to_sign()).to_vec());
    assert_eq!(locator.signature.len(), 64);
    assert!(locator.verify(&signer.public()));
    assert!(!locator.verify(&IdentitySecret { bytes: [8; 32] }.public()));

    let message = b"adjacent".to_vec();
    let signature = signer.sign(&message);
    assert!(signer.public().verify(&message, &signature));
    assert!(!signer.public().verify(b"adjacenu", &signature));
    assert_ne!(signature, message);
}
