use ironfish_frost::frost::frost::keys::reconstruct;
use ironfish_frost::frost::JubjubBlake2b512;
use ironfish_frost::participant::Secret;
use split_secret::split_secret;
use split_secret::ErrorKind;
use split_secret::Identity;
use split_secret::SecretShareConfig;
use split_secret::SplitSecretError;

fn create_multisig_participants(n: usize) -> Vec<ironfish_frost::participant::Identity> {
    (0..n)
        .map(|_| Secret::random(rand::thread_rng()).to_identity())
        .collect()
}

fn create_multisig_identities(n: usize) -> Vec<Identity> {
    create_multisig_participants(n)
        .iter()
        .map(|participant| Identity::new(participant.serialize()))
        .collect()
}

fn generate_key() -> [u8; 32] {
    let key = ironfish_frost::frost::SigningKey::new(&mut rand::thread_rng());
    key.serialize().try_into().expect("a signing key has 32 bytes")
}

fn key_parts(
    packages: &split_secret::ShareMapping,
) -> Vec<ironfish_frost::frost::keys::KeyPackage> {
    packages
        .entry_list()
        .iter()
        .map(|entry| entry.key_package.inner.clone())
        .collect()
}

#[test]
fn test_split_secret() {
    let identities = create_multisig_identities(10);
    let identities_length = identities.len();

    let rng = rand::thread_rng();
    let key = generate_key();

    let config = SecretShareConfig {
        min_signers: 2,
        identities,
        spender_key: key,
    };

    let (key_packages, _) = split_secret(&config, rng).unwrap();
    assert_eq!(key_packages.len(), identities_length);

    let key_parts: Vec<_> = key_parts(&key_packages);

    let signing_key =
        reconstruct::<JubjubBlake2b512>(&key_parts).expect("key reconstruction failed");

    let scalar = signing_key.to_scalar();

    assert_eq!(scalar.to_bytes(), config.spender_key);
}

#[test]
fn any_two_of_ten_shares_recover_the_key() {
    let config = SecretShareConfig {
        min_signers: 2,
        identities: create_multisig_identities(10),
        spender_key: generate_key(),
    };
    let (key_packages, _) = split_secret(&config, rand::thread_rng()).unwrap();
    let parts = key_parts(&key_packages);
    assert_eq!(parts.len(), 10);
    for a in 0..parts.len() {
        for b in (a + 1)..parts.len() {
            let pair = vec![parts[a].clone(), parts[b].clone()];
            let signing_key =
                reconstruct::<JubjubBlake2b512>(&pair).expect("key reconstruction failed");
            assert_eq!(signing_key.to_scalar().to_bytes(), config.spender_key);
        }
    }
}

#[test]
fn threshold_of_three_needs_three_shares() {
    let config = SecretShareConfig {
        min_signers: 3,
        identities: create_multisig_identities(5),
        spender_key: generate_key(),
    };
    let (key_packages, _) = split_secret(&config, rand::thread_rng()).unwrap();
    let parts = key_parts(&key_packages);

    let three = vec![parts[4].clone(), parts[0].clone(), parts[2].clone()];
    let signing_key = reconstruct::<JubjubBlake2b512>(&three).expect("key reconstruction failed");
    assert_eq!(signing_key.to_scalar().to_bytes(), config.spender_key);

    let all = reconstruct::<JubjubBlake2b512>(&parts).expect("key reconstruction failed");
    assert_eq!(all.to_scalar().to_bytes(), config.spender_key);

    let two = vec![parts[1].clone(), parts[3].clone()];
    match reconstruct::<JubjubBlake2b512>(&two) {
        Ok(signing_key) => assert_ne!(signing_key.to_scalar().to_bytes(), config.spender_key),
        Err(_) => {}
    }
}

#[test]
fn key_packages_carry_the_threshold() {
    let config = SecretShareConfig {
        min_signers: 4,
        identities: create_multisig_identities(6),
        spender_key: generate_key(),
    };
    let (key_packages, public) = split_secret(&config, rand::thread_rng()).unwrap();
    for entry in key_packages.entry_list() {
        assert_eq!(*entry.key_package.inner.min_signers(), 4);
    }
    assert_eq!(public.min_signers(), 4);
}

#[test]
fn two_splits_of_one_key_differ() {
    let config = SecretShareConfig {
        min_signers: 2,
        identities: create_multisig_identities(4),
        spender_key: generate_key(),
    };
    let (first, _) = split_secret(&config, rand::thread_rng()).unwrap();
    let (second, _) = split_secret(&config, rand::thread_rng()).unwrap();
    assert_eq!(first.len(), 4);
    assert_eq!(second.len(), 4);
    for identity in &config.identities {
        let a = first.get(identity).expect("every identity has a package");
        let b = second.get(identity).expect("every identity has a package");
        assert_eq!(a.inner.identifier(), b.inner.identifier());
        assert!(a.inner.signing_share() != b.inner.signing_share());
    }
    for packages in [&first, &second] {
        let signing_key =
            reconstruct::<JubjubBlake2b512>(&key_parts(packages)).expect("reconstruction failed");
        assert_eq!(signing_key.to_scalar().to_bytes(), config.spender_key);
    }
}

#[test]
fn every_identity_has_exactly_one_package() {
    let config = SecretShareConfig {
        min_signers: 3,
        identities: create_multisig_identities(7),
        spender_key: generate_key(),
    };
    let (key_packages, _) = split_secret(&config, rand::thread_rng()).unwrap();
    assert_eq!(key_packages.len(), 7);
    for identity in &config.identities {
        assert!(key_packages.get(identity).is_some());
        let count = key_packages
            .entry_list()
            .iter()
            .filter(|entry| entry.identity == *identity)
            .count();
        assert_eq!(count, 1);
    }
    let stranger = create_multisig_identities(1).remove(0);
    assert!(key_packages.get(&stranger).is_none());
}

#[test]
fn each_package_belongs_to_the_identity_it_is_filed_under() {
    let participants = create_multisig_participants(6);
    let config = SecretShareConfig {
        min_signers: 2,
        identities: participants
            .iter()
            .map(|participant| Identity::new(participant.serialize()))
            .collect(),
        spender_key: generate_key(),
    };
    let (key_packages, _) = split_secret(&config, rand::thread_rng()).unwrap();
    for participant in &participants {
        let identity = Identity::new(participant.serialize());
        let package = key_packages.get(&identity).expect("every identity has a package");
        assert_eq!(*package.inner.identifier(), participant.to_frost_identifier());
    }
}

#[test]
fn public_package_names_the_identities() {
    let config = SecretShareConfig {
        min_signers: 2,
        identities: create_multisig_identities(5),
        spender_key: generate_key(),
    };
    let (key_packages, public) = split_secret(&config, rand::thread_rng()).unwrap();
    assert_eq!(public.identities(), &config.identities);
    for identity in &config.identities {
        assert!(public.has_member(identity));
    }
    let stranger = create_multisig_identities(1).remove(0);
    assert!(!public.has_member(&stranger));
    let group = public.frost_public_key_package();
    assert_eq!(group.inner.verifying_shares().len(), 5);
    for entry in key_packages.entry_list() {
        assert_eq!(entry.key_package.inner.verifying_key(), group.inner.verifying_key());
    }
}

#[test]
fn threshold_below_two_is_refused() {
    for min_signers in [0u16, 1] {
        let config = SecretShareConfig {
            min_signers,
            identities: create_multisig_identities(3),
            spender_key: generate_key(),
        };
        let error = split_secret(&config, rand::thread_rng()).err().unwrap();
        assert!(matches!(error, SplitSecretError::InvalidMinSigners));
        assert_eq!(error.kind(), ErrorKind::Configuration);
    }
}

#[test]
fn threshold_above_the_number_of_identities_is_refused() {
    let config = SecretShareConfig {
        min_signers: 4,
        identities: create_multisig_identities(3),
        spender_key: generate_key(),
    };
    let error = split_secret(&config, rand::thread_rng()).err().unwrap();
    assert!(matches!(error, SplitSecretError::InvalidMinSigners));
}

#[test]
fn threshold_equal_to_the_number_of_identities_is_accepted() {
    let config = SecretShareConfig {
        min_signers: 3,
        identities: create_multisig_identities(3),
        spender_key: generate_key(),
    };
    let (key_packages, _) = split_secret(&config, rand::thread_rng()).unwrap();
    let signing_key =
        reconstruct::<JubjubBlake2b512>(&key_parts(&key_packages)).expect("reconstruction failed");
    assert_eq!(signing_key.to_scalar().to_bytes(), config.spender_key);
}

#[test]
fn no_identities_are_refused() {
    let config = SecretShareConfig {
        min_signers: 2,
        identities: Vec::new(),
        spender_key: generate_key(),
    };
    let error = split_secret(&config, rand::thread_rng()).err().unwrap();
    assert!(matches!(error, SplitSecretError::InvalidMinSigners));
}

#[test]
fn too_many_identities_are_refused() {
    let identity = Identity::new([7u8; 129]);
    let config = SecretShareConfig {
        min_signers: 2,
        identities: vec![identity; 65536],
        spender_key: generate_key(),
    };
    let error = split_secret(&config, rand::thread_rng()).err().unwrap();
    assert!(matches!(error, SplitSecretError::TooManyParticipants));
    assert_eq!(error.kind(), ErrorKind::Configuration);
    assert_eq!(config.max_signers().err().unwrap().kind(), ErrorKind::Configuration);
}

#[test]
fn repeated_identity_is_refused() {
    let mut identities = create_multisig_identities(4);
    identities.push(identities[1]);
    let config = SecretShareConfig {
        min_signers: 2,
        identities,
        spender_key: generate_key(),
    };
    let error = split_secret(&config, rand::thread_rng()).err().unwrap();
    assert!(matches!(error, SplitSecretError::DuplicateIdentity));
    assert_eq!(error.kind(), ErrorKind::Configuration);
}

#[test]
fn repeated_identity_is_refused_before_the_key_is_read() {
    let mut identities = create_multisig_identities(2);
    identities.push(identities[0]);
    let config = SecretShareConfig {
        min_signers: 2,
        identities,
        spender_key: [0xff; 32],
    };
    let error = split_secret(&config, rand::thread_rng()).err().unwrap();
    assert!(matches!(error, SplitSecretError::DuplicateIdentity));
}

#[test]
fn key_that_is_no_scalar_is_refused() {
    let config = SecretShareConfig {
        min_signers: 2,
        identities: create_multisig_identities(3),
        spender_key: [0xff; 32],
    };
    let error = split_secret(&config, rand::thread_rng()).err().unwrap();
    assert!(matches!(error, SplitSecretError::InvalidSecretKey(_)));
    assert_eq!(error.kind(), ErrorKind::KeyDerivation);
}

#[test]
fn zero_key_is_refused() {
    let config = SecretShareConfig {
        min_signers: 2,
        identities: create_multisig_identities(3),
        spender_key: [0; 32],
    };
    let error = split_secret(&config, rand::thread_rng()).err().unwrap();
    assert!(matches!(error, SplitSecretError::InvalidSecretKey(_)));
}

#[test]
fn max_signers_counts_the_identities() {
    let config = SecretShareConfig {
        min_signers: 2,
        identities: create_multisig_identities(3),
        spender_key: [1; 32],
    };
    assert_eq!(config.max_signers().ok(), Some(3));
}

const SCALAR_MODULUS: [u8; 32] = [
    0xb7, 0x2c, 0xf7, 0xd6, 0x5e, 0x0e, 0x97, 0xd0, 0x82, 0x10, 0xc8, 0xcc, 0x93, 0x20, 0x68,
    0xa6, 0x00, 0x3b, 0x34, 0x01, 0x01, 0x3b, 0x67, 0x06, 0xa9, 0xaf, 0x33, 0x65, 0xea, 0xb4,
    0x7d, 0x0e,
];

#[test]
fn key_equal_to_the_modulus_is_refused() {
    let config = SecretShareConfig {
        min_signers: 2,
        identities: create_multisig_identities(3),
        spender_key: SCALAR_MODULUS,
    };
    let error = split_secret(&config, rand::thread_rng()).err().unwrap();
    assert!(matches!(error, SplitSecretError::InvalidSecretKey(_)));
}

#[test]
fn key_above_the_modulus_is_refused() {
    let mut key = SCALAR_MODULUS;
    key[0] = 0xb8;
    let config = SecretShareConfig {
        min_signers: 2,
        identities: create_multisig_identities(3),
        spender_key: key,
    };
    let error = split_secret(&config, rand::thread_rng()).err().unwrap();
    assert!(matches!(error, SplitSecretError::InvalidSecretKey(_)));

    let mut key = SCALAR_MODULUS;
    key[31] = 0x0f;
    let config = SecretShareConfig {
        min_signers: 2,
        identities: create_multisig_identities(3),
        spender_key: key,
    };
    let error = split_secret(&config, rand::thread_rng()).err().unwrap();
    assert!(matches!(error, SplitSecretError::InvalidSecretKey(_)));
}

#[test]
fn greatest_scalar_is_split() {
    let mut key = SCALAR_MODULUS;
    key[0] = 0xb6;
    let config = SecretShareConfig {
        min_signers: 2,
        identities: create_multisig_identities(3),
        spender_key: key,
    };
    let (key_packages, _) = split_secret(&config, rand::thread_rng()).unwrap();
    let signing_key =
        reconstruct::<JubjubBlake2b512>(&key_parts(&key_packages)).expect("reconstruction failed");
    assert_eq!(signing_key.to_scalar().to_bytes(), key);
}

#[test]
fn least_scalar_is_split() {
    let mut key = [0u8; 32];
    key[0] = 1;
    let config = SecretShareConfig {
        min_signers: 2,
        identities: create_multisig_identities(3),
        spender_key: key,
    };
    let (key_packages, _) = split_secret(&config, rand::thread_rng()).unwrap();
    let signing_key =
        reconstruct::<JubjubBlake2b512>(&key_parts(&key_packages)).expect("reconstruction failed");
    assert_eq!(signing_key.to_scalar().to_bytes(), key);
}

#[test]
fn valid_configuration_and_key_always_split() {
    for participants in 2..7usize {
        for min_signers in 2..=(participants as u16) {
            let config = SecretShareConfig {
                min_signers,
                identities: create_multisig_identities(participants),
                spender_key: generate_key(),
            };
            let (key_packages, public) = split_secret(&config, rand::thread_rng()).unwrap();
            assert_eq!(key_packages.len(), participants);
            assert_eq!(public.identities(), &config.identities);
        }
    }
}
