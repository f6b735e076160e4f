//! Signed artifacts.

use retinue::artifact::{create, validate, Error, MAX_ARTIFACT_LEN};
use retinue::hash::ADDRESS_HASH_LEN;
use retinue::identity::{IDENTITY_LEN, SIGNATURE_LEN};
use retinue::msgpack::{self, Value};
use retinue::{AddressHash, PrivateIdentity};

/// The identity the oracle capture uses. Fixed so the vectors are reproducible.
fn oracle_identity() -> PrivateIdentity {
    let mut secret = [0u8; IDENTITY_LEN];
    secret[..32].fill(0x22);
    secret[32..].fill(0x11);
    PrivateIdentity::from_secret_bytes(&secret)
}

#[test]
fn a_detached_artifact_round_trips() {
    let signer = oracle_identity();
    let artifact = create(&signer, b"payload", false, &[]).unwrap();
    let validated = validate(&artifact, Some(b"payload"), None).unwrap();
    assert_eq!(validated.signer.hash(), signer.hash());
    assert!(validated.embedded_message.is_none());
    assert!(validated.metadata.is_empty());
    // Detached means detached: without the message there is nothing to check the hash
    // against, and guessing is not an option.
    assert_eq!(validate(&artifact, None, None), Err(Error::MessageRequired));
}

#[test]
fn an_embedded_artifact_carries_its_message_and_metadata() {
    let signer = oracle_identity();
    let metadata = [
        ("name", Value::Str("retinue".to_string())),
        ("version", Value::Uint(2)),
    ];
    let artifact = create(&signer, b"payload", true, &metadata).unwrap();
    let validated = validate(&artifact, None, None).unwrap();
    assert_eq!(
        validated.embedded_message.as_deref(),
        Some(b"payload".as_slice())
    );
    assert_eq!(
        validated.metadata,
        vec![
            ("name".to_string(), Value::Str("retinue".to_string())),
            ("version".to_string(), Value::Uint(2)),
        ]
    );
}

#[test]
fn reserved_metadata_keys_cannot_be_supplied_by_the_caller() {
    let signer = oracle_identity();
    // A caller trying to name a different signer gets their key dropped, not honoured.
    let artifact = create(
        &signer,
        b"payload",
        true,
        &[("signer", Value::Bin(vec![0x55; ADDRESS_HASH_LEN]))],
    )
    .unwrap();
    let validated = validate(&artifact, None, None).unwrap();
    assert_eq!(validated.signer.hash(), signer.hash());
    assert!(validated.metadata.is_empty());
}

#[test]
fn a_required_signer_is_enforced() {
    let signer = oracle_identity();
    let artifact = create(&signer, b"payload", true, &[]).unwrap();
    assert!(validate(&artifact, None, Some(signer.hash())).is_ok());
    assert_eq!(
        validate(
            &artifact,
            None,
            Some(AddressHash::from_bytes([0x55; ADDRESS_HASH_LEN]))
        ),
        Err(Error::UnexpectedSigner)
    );
}

#[test]
fn the_wrong_message_is_refused() {
    let signer = oracle_identity();
    let artifact = create(&signer, b"payload", false, &[]).unwrap();
    assert_eq!(
        validate(&artifact, Some(b"other"), None),
        Err(Error::MessageMismatch)
    );
}

#[test]
fn a_supplied_message_outranks_the_embedded_one() {
    // An .rsm that also gets an explicit message must agree with it. Preferring the
    // embedded copy here would let a caller believe it had checked its own bytes.
    let signer = oracle_identity();
    let artifact = create(&signer, b"payload", true, &[]).unwrap();
    assert_eq!(
        validate(&artifact, Some(b"different"), None),
        Err(Error::MessageMismatch)
    );
}

#[test]
fn tampering_with_the_envelope_breaks_the_signature() {
    let signer = oracle_identity();
    let mut artifact = create(&signer, b"payload", true, &[("n", Value::Uint(1))]).unwrap();
    // Flip a bit in the metadata value, well past the signature and the message hash.
    let last = artifact.len() - 1;
    artifact[last] ^= 0x01;
    assert!(matches!(
        validate(&artifact, None, None),
        Err(Error::MessageMismatch | Error::BadSignature)
    ));
}

#[test]
fn an_envelope_whose_two_signer_fields_disagree_is_refused() {
    let signer = oracle_identity();
    let artifact = create(&signer, b"payload", true, &[]).unwrap();
    let (signature, envelope) = artifact.split_at(SIGNATURE_LEN);
    let Value::Dict(mut fields) = msgpack::decode(envelope).unwrap() else {
        panic!("envelope is a map");
    };
    for (key, value) in &mut fields {
        if key.as_str() == Some("meta") {
            if let Value::Dict(meta) = value {
                for (name, entry) in meta.iter_mut() {
                    if name.as_str() == Some("signer") {
                        *entry = Value::Bin(vec![0x55; ADDRESS_HASH_LEN]);
                    }
                }
            }
        }
    }
    let mut forged = signature.to_vec();
    forged.extend_from_slice(&msgpack::encode(&Value::Dict(fields)));
    assert_eq!(validate(&forged, None, None), Err(Error::SignerMismatch));
}

#[test]
fn a_truncated_artifact_is_refused_rather_than_indexed() {
    let signer = oracle_identity();
    let artifact = create(&signer, b"payload", true, &[]).unwrap();
    assert_eq!(
        validate(&artifact[..SIGNATURE_LEN], None, None),
        Err(Error::TooShort)
    );
    assert_eq!(validate(&[], None, None), Err(Error::TooShort));
    for cut in [SIGNATURE_LEN + 1, SIGNATURE_LEN + 8, artifact.len() - 1] {
        // Every truncation is an error and none is a panic, which is the whole claim.
        assert!(validate(&artifact[..cut], None, None).is_err());
    }
}

/// Sign an envelope with the test identity, whatever it says.
fn signed(fields: Vec<(Value, Value)>) -> Vec<u8> {
    let envelope = msgpack::encode(&Value::Dict(fields));
    let mut artifact = oracle_identity().sign(&envelope).to_vec();
    artifact.extend_from_slice(&envelope);
    artifact
}

/// The fields of a good envelope.
fn good_fields() -> Vec<(Value, Value)> {
    let artifact = create(&oracle_identity(), b"payload", true, &[]).unwrap();
    match msgpack::decode(&artifact[SIGNATURE_LEN..]).unwrap() {
        Value::Dict(fields) => fields,
        _ => panic!("envelope is a map"),
    }
}

#[test]
fn every_refusal_has_its_cause() {
    assert!(validate(&signed(good_fields()), None, None).is_ok());
    assert_eq!(
        validate(&vec![0u8; MAX_ARTIFACT_LEN + 1], None, None),
        Err(Error::TooLarge)
    );
    assert_eq!(
        create(
            &oracle_identity(),
            &vec![0u8; MAX_ARTIFACT_LEN],
            true,
            &[]
        ),
        Err(Error::TooLarge)
    );
    assert_eq!(
        validate(&[0xc1; 65], None, None),
        Err(Error::BadEnvelope(msgpack::Error::Unsupported))
    );
    assert_eq!(
        validate(&signed(vec![]), None, None),
        Err(Error::MissingField)
    );

    let mut fields = good_fields();
    fields[0].1 = Value::Str("sha512".to_string());
    assert_eq!(
        validate(&signed(fields), None, None),
        Err(Error::UnsupportedHash)
    );

    let mut fields = good_fields();
    if let Value::Dict(meta) = &mut fields[2].1 {
        meta[1].1 = Value::Bin(vec![0u8; 63]);
    }
    assert_eq!(validate(&signed(fields), None, None), Err(Error::BadKey));

    let mut fields = good_fields();
    fields[3].1 = Value::Nil;
    assert_eq!(
        validate(&signed(fields), Some(b"payload"), None),
        Err(Error::MissingField)
    );

    let mut fields = good_fields();
    if let Value::Dict(meta) = &mut fields[2].1 {
        meta.push((Value::Uint(1), Value::Nil));
    }
    assert_eq!(
        validate(&signed(fields), None, None),
        Err(Error::MissingField)
    );

    let mut forged = signed(good_fields());
    forged[0] ^= 1;
    assert_eq!(validate(&forged, None, None), Err(Error::BadSignature));
    assert_eq!(
        Error::BadSignature.message(),
        "signature did not verify"
    );
}
