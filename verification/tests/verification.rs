use chocolate::account::AccountId;
use chocolate::crypto::is_well_formed_signature;
use chocolate::records::{Error, VerifyDetails};
use chocolate::registry::Chocolate;
use secp256k1::{Message, PublicKey, Secp256k1, SecretKey};

fn alice() -> AccountId {
    AccountId::from([1u8; 32])
}

fn bob() -> AccountId {
    AccountId::from([2u8; 32])
}

/// The account of the key made of 32 bytes `seed`, and the key.
fn holder(seed: u8) -> (AccountId, SecretKey) {
    let secret = SecretKey::from_slice(&[seed; 32]).unwrap();
    let public = PublicKey::from_secret_key(&Secp256k1::new(), &secret);
    let account = AccountId::from(Chocolate::hash_vec(public.serialize().to_vec()));
    (account, secret)
}

/// The signature of `secret` over the wrapped and hashed `message`.
fn sign(message: &[u8], secret: &SecretKey) -> [u8; 65] {
    let digest = Chocolate::hash_vec(Chocolate::wrap_message(message.to_vec()));
    let signed = Secp256k1::new()
        .sign_ecdsa_recoverable(&Message::from_slice(&digest).unwrap(), secret);
    let (recovery, compact) = signed.serialize_compact();
    let mut signature = [0u8; 65];
    signature[..64].copy_from_slice(&compact);
    signature[64] = recovery.to_i32() as u8;
    signature
}

const GROUP_ORDER: [u8; 32] = [
    0xff, 0xff, 0xff, 0xff, 0xff, 0xff, 0xff, 0xff, 0xff, 0xff, 0xff, 0xff, 0xff, 0xff, 0xff, 0xfe,
    0xba, 0xae, 0xdc, 0xe6, 0xaf, 0x48, 0xa0, 0x3b, 0xbf, 0xd2, 0x5e, 0x8c, 0xd0, 0x36, 0x41, 0x41,
];

#[test]
fn verify_signature_works() {
    // Given
    let account: [u8; 32] = [
        143, 155, 234, 70, 218, 2, 174, 129, 205, 227, 158, 209, 53, 212, 224, 116, 8, 169, 252,
        94, 138, 7, 33, 174, 18, 183, 153, 90, 50, 61, 179, 31,
    ];
    let msg: [u8; 38] = [
        0, 144, 143, 155, 234, 70, 218, 2, 174, 129, 205, 227, 158, 209, 53, 212, 224, 116, 8, 169,
        252, 94, 138, 7, 33, 174, 18, 183, 153, 90, 50, 61, 179, 31, 0, 0, 0, 1,
    ];
    let sig: [u8; 65] = [
        4, 57, 253, 82, 44, 200, 18, 93, 199, 231, 124, 16, 136, 222, 120, 218, 156, 153, 76, 94,
        148, 29, 23, 233, 67, 170, 114, 59, 148, 152, 35, 246, 13, 169, 190, 60, 107, 30, 59, 237,
        106, 45, 29, 180, 180, 250, 139, 178, 251, 16, 216, 194, 69, 38, 98, 154, 84, 12, 207, 70,
        138, 248, 209, 241, 1,
    ];

    // And
    let caller = alice();
    let mut flipper = Chocolate::new();
    let account_as_account_id = AccountId::from(account);
    flipper
        .initiate_verfication_flow(account_as_account_id)
        .unwrap();
    flipper.add_authorizer(caller).unwrap();
    let signer = Chocolate::recover_signer(&sig, msg.into());
    assert_eq!(signer, Some(account_as_account_id));
    // Then
    assert_eq!(
        flipper.conclude_verification(caller, account_as_account_id, signer),
        Ok(())
    );
}

#[test]
fn challenge_is_issued_once() {
    let mut chocolate = Chocolate::new();
    let first = chocolate.initiate_verfication_flow(bob()).unwrap();
    let second = chocolate.initiate_verfication_flow(bob()).unwrap();
    assert_eq!(first, second);
    assert_eq!(chocolate.verifications_count(), 1);
    let mut expected = vec![2u8; 32];
    expected.extend_from_slice(&[0, 0, 0, 1]);
    assert_eq!(first, expected);
}

#[test]
fn challenges_carry_the_count() {
    let mut chocolate = Chocolate::new();
    for n in 0..258u32 {
        let mut bytes = [7u8; 32];
        bytes[0] = (n / 256) as u8;
        bytes[1] = (n % 256) as u8;
        chocolate
            .initiate_verfication_flow(AccountId::from(bytes))
            .unwrap();
    }
    let message = chocolate.initiate_verfication_flow(alice()).unwrap();
    let mut expected = vec![1u8; 32];
    expected.extend_from_slice(&[0, 0, 1, 3]);
    assert_eq!(message, expected);
    assert_eq!(chocolate.verifications_count(), 259);
    assert_eq!(
        chocolate.verification_details(alice()),
        Some(VerifyDetails {
            index: 259,
            message: expected,
        })
    );
    let mut early = [7u8; 32];
    early[0] = 0;
    early[1] = 4;
    assert_eq!(
        chocolate
            .verification_details(AccountId::from(early))
            .unwrap()
            .index,
        5
    );
    assert_eq!(chocolate.verification_details(bob()), None);
}

#[test]
fn verification_round_trip() {
    let (subject, secret) = holder(0x42);
    let mut chocolate = Chocolate::new();
    chocolate.add_authorizer(alice()).unwrap();
    let message = chocolate.initiate_verfication_flow(subject).unwrap();
    let signature = sign(&message, &secret);
    assert!(is_well_formed_signature(&signature));
    assert_eq!(
        Chocolate::recover_signer(&signature, message.clone()),
        Some(subject)
    );
    assert_eq!(
        chocolate.verify_identity_response(alice(), signature, subject),
        Ok(())
    );
    assert_eq!(chocolate.verification_details(subject), None);
    assert_eq!(chocolate.verified_accounts(), vec![subject]);
    assert_eq!(
        chocolate.verify_identity_response(alice(), signature, subject),
        Err(Error::VerificationFlowNotInitiated)
    );
    assert_eq!(chocolate.verified_accounts(), vec![subject]);
    // A new verification gets a new challenge.
    let again = chocolate.initiate_verfication_flow(subject).unwrap();
    assert_ne!(again, message);
    assert_eq!(chocolate.verifications_count(), 2);
}

#[test]
fn recovery_byte_may_be_offset_by_27() {
    let (subject, secret) = holder(0x17);
    let mut chocolate = Chocolate::new();
    chocolate.add_authorizer(alice()).unwrap();
    let message = chocolate.initiate_verfication_flow(subject).unwrap();
    let mut signature = sign(&message, &secret);
    signature[64] += 27;
    assert_eq!(
        chocolate.verify_identity_response(alice(), signature, subject),
        Ok(())
    );
}

#[test]
fn only_an_authorizer_may_conclude() {
    let (subject, secret) = holder(0x42);
    let mut chocolate = Chocolate::new();
    chocolate.add_authorizer(alice()).unwrap();
    let message = chocolate.initiate_verfication_flow(subject).unwrap();
    let signature = sign(&message, &secret);
    assert!(!chocolate.is_authorizer(bob()));
    assert!(!chocolate.is_authorizer(subject));
    assert_eq!(
        chocolate.verify_identity_response(bob(), signature, subject),
        Err(Error::NotAuthorized)
    );
    assert_eq!(
        chocolate.verify_identity_response(subject, signature, subject),
        Err(Error::NotAuthorized)
    );
    assert_eq!(
        chocolate.verify_identity_response(bob(), [0u8; 65], bob()),
        Err(Error::NotAuthorized)
    );
    assert_eq!(
        chocolate.conclude_verification(bob(), subject, Some(subject)),
        Err(Error::NotAuthorized)
    );
    assert!(chocolate.verification_details(subject).is_some());
    assert_eq!(chocolate.verified_accounts(), vec![]);
    assert_eq!(
        chocolate.verify_identity_response(alice(), signature, subject),
        Ok(())
    );
}

#[test]
fn authorizers_are_added_once() {
    let mut chocolate = Chocolate::new();
    assert!(!chocolate.is_authorizer(alice()));
    assert_eq!(chocolate.add_authorizer(bob()), Ok(()));
    assert_eq!(chocolate.add_authorizer(alice()), Ok(()));
    assert_eq!(chocolate.add_authorizer(bob()), Ok(()));
    assert!(chocolate.is_authorizer(alice()));
    assert!(chocolate.is_authorizer(bob()));
    assert!(!chocolate.is_authorizer(AccountId::from([3u8; 32])));
}

#[test]
fn verification_without_a_challenge_is_refused() {
    let (subject, secret) = holder(0x42);
    let mut chocolate = Chocolate::new();
    chocolate.add_authorizer(alice()).unwrap();
    let signature = sign(&[1, 2, 3], &secret);
    assert_eq!(
        chocolate.verify_identity_response(alice(), signature, subject),
        Err(Error::VerificationFlowNotInitiated)
    );
    assert_eq!(
        chocolate.conclude_verification(alice(), subject, None),
        Err(Error::VerificationFlowNotInitiated)
    );
}

#[test]
fn signature_of_another_account_fails_and_keeps_the_challenge() {
    let (subject, secret) = holder(0x42);
    let (_, other_secret) = holder(0x43);
    let mut chocolate = Chocolate::new();
    chocolate.add_authorizer(alice()).unwrap();
    let message = chocolate.initiate_verfication_flow(subject).unwrap();
    assert_eq!(
        chocolate.verify_identity_response(alice(), sign(&message, &other_secret), subject),
        Err(Error::VerificationFailed)
    );
    // A signature of the right account over other bytes.
    assert_eq!(
        chocolate.verify_identity_response(alice(), sign(&[0; 36], &secret), subject),
        Err(Error::VerificationFailed)
    );
    assert_eq!(
        chocolate.verification_details(subject),
        Some(VerifyDetails {
            index: 1,
            message: message.clone(),
        })
    );
    assert_eq!(chocolate.verified_accounts(), vec![]);
    assert_eq!(
        chocolate.verify_identity_response(alice(), sign(&message, &secret), subject),
        Ok(())
    );
}

#[test]
fn malformed_signatures_are_invalid() {
    let (subject, secret) = holder(0x42);
    let mut chocolate = Chocolate::new();
    chocolate.add_authorizer(alice()).unwrap();
    let message = chocolate.initiate_verfication_flow(subject).unwrap();
    let good = sign(&message, &secret);

    let mut recovery_out_of_range = good;
    recovery_out_of_range[64] = 4;
    let mut first_number_is_the_order = good;
    first_number_is_the_order[..32].copy_from_slice(&GROUP_ORDER);
    let mut second_number_is_above_the_order = good;
    second_number_is_above_the_order[32..64].copy_from_slice(&[0xff; 32]);
    let zeros = [0u8; 65];

    for signature in [
        recovery_out_of_range,
        first_number_is_the_order,
        second_number_is_above_the_order,
        zeros,
    ] {
        assert_eq!(
            chocolate.verify_identity_response(alice(), signature, subject),
            Err(Error::InvalidSignature)
        );
        assert_eq!(Chocolate::recover_signer(&signature, message.clone()), None);
    }
    assert_eq!(
        chocolate.conclude_verification(alice(), subject, None),
        Err(Error::InvalidSignature)
    );
    assert!(chocolate.verification_details(subject).is_some());
}

#[test]
fn well_formed_signatures() {
    let mut signature = [0u8; 65];
    assert!(is_well_formed_signature(&signature));
    for last in 0..=255u8 {
        signature[64] = last;
        assert_eq!(
            is_well_formed_signature(&signature),
            last <= 3 || (27..=30).contains(&last)
        );
    }
    signature[64] = 0;
    let mut below = GROUP_ORDER;
    below[31] -= 1;
    signature[..32].copy_from_slice(&below);
    signature[32..64].copy_from_slice(&below);
    assert!(is_well_formed_signature(&signature));
    signature[32..64].copy_from_slice(&GROUP_ORDER);
    assert!(!is_well_formed_signature(&signature));
    signature[32..64].copy_from_slice(&below);
    signature[..32].copy_from_slice(&GROUP_ORDER);
    assert!(!is_well_formed_signature(&signature));
    signature[15] = 0xfd;
    signature[16] = 0xff;
    assert!(is_well_formed_signature(&signature));
    signature[15] = 0xff;
    assert!(!is_well_formed_signature(&signature));
}

#[test]
fn concluding_with_a_given_signer() {
    let mut chocolate = Chocolate::new();
    chocolate.add_authorizer(alice()).unwrap();
    chocolate.initiate_verfication_flow(bob()).unwrap();
    assert_eq!(
        chocolate.conclude_verification(alice(), bob(), Some(alice())),
        Err(Error::VerificationFailed)
    );
    assert!(chocolate.verification_details(bob()).is_some());
    assert_eq!(
        chocolate.conclude_verification(alice(), bob(), Some(bob())),
        Ok(())
    );
    assert_eq!(chocolate.verification_details(bob()), None);
    assert_eq!(chocolate.verified_accounts(), vec![bob()]);
    assert_eq!(
        chocolate.conclude_verification(alice(), bob(), Some(bob())),
        Err(Error::VerificationFlowNotInitiated)
    );
}
