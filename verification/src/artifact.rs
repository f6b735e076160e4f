//! Signed artifacts: the detached signature (`.rsg`) and the signed message (`.rsm`).
//!
//! An artifact binds a message to an identity without a link, a session, or a live peer. It
//! is the interoperable way to hand someone a service description, an invitation, a
//! distribution record, or a firmware manifest and let them check who stands behind it.
//!
//! ```text
//! artifact = ed25519_signature(64) || envelope
//! envelope = msgpack {
//!     "hashtype": "sha256",
//!     "hash":     sha256(message),          // 32 bytes
//!     "meta":     { "signer": identity_hash(16), "pubkey": public_identity(64), .. },
//!     "message":  message,                  // present in an .rsm, absent in an .rsg
//! }
//! ```
//!
//! The signature covers the encoded envelope, not the message: the message is reached
//! through the hash the envelope commits to. An `.rsg` therefore travels beside the file it
//! signs, and an `.rsm` carries its own.
//!
//! This is a carrier, not an authorization policy. Verifying an artifact tells you which
//! identity signed which bytes. It says nothing about whether that identity may command this
//! node, whether the message is fresh, or whether it has been seen before.

use vstd::prelude::*;
use vstd::string::StringExecFns;

use crate::bytes;
use crate::hash::{address_of, full_hash, sha256, AddressHash};
use crate::identity::{
    commits_to_nothing, ed25519_point, ed25519_signature, ed25519_verifies, public_of, Identity,
    PrivateIdentity, SIGNATURE_LEN,
};
use crate::msgpack;
use crate::msgpack::{decoded, encoding, pairs_of, Model, Value};

verus! {

/// The largest artifact this module will parse.
///
/// A node that accepts artifacts over the air needs a number, and 64 KiB is far above any
/// plausible manifest while staying inside what a host can hold without thought.
pub const MAX_ARTIFACT_LEN: usize = 65_536;

/// What a validated artifact turned out to say.
#[derive(Debug, Clone, PartialEq, Eq)]
pub struct Validated {
    /// The identity that signed, recovered from the envelope's own `pubkey` field and
    /// checked against the `signer` hash beside it.
    pub signer: Identity,
    /// Operator metadata, with the two reserved keys removed. Order is as signed.
    pub metadata: Vec<(String, Value)>,
    /// The message, when the artifact carried one (an `.rsm`).
    pub embedded_message: Option<Vec<u8>>,
}

/// A [`Validated`] with its strings and lists as sequences.
pub struct ValidatedModel {
    pub signer: Seq<u8>,
    pub metadata: Seq<(Seq<char>, Model)>,
    pub embedded_message: Option<Seq<u8>>,
}

/// Metadata with its keys and values as models.
pub open spec fn named_models(metadata: Seq<(String, Value)>) -> Seq<(Seq<char>, Model)> {
    Seq::new(metadata.len(), |i: int| (metadata[i].0@, metadata[i].1@))
}

impl View for Validated {
    type V = ValidatedModel;

    open spec fn view(&self) -> ValidatedModel {
        ValidatedModel {
            signer: self.signer@,
            metadata: named_models(self.metadata@),
            embedded_message: match self.embedded_message {
                Some(m) => Some(m@),
                None => None,
            },
        }
    }
}

/// Why an artifact did not validate.
#[derive(Debug, Clone, Copy, PartialEq, Eq, Structural)]
pub enum Error {
    /// Shorter than a bare signature, so there is no envelope at all.
    TooShort,
    /// Larger than [`MAX_ARTIFACT_LEN`].
    TooLarge,
    /// The envelope is not the map this format defines.
    BadEnvelope(msgpack::Error),
    /// A required field was missing, or held the wrong type.
    MissingField,
    /// `hashtype` named something other than `sha256`.
    UnsupportedHash,
    /// The `pubkey` field is not a valid identity.
    BadKey,
    /// `pubkey` does not hash to the `signer` beside it: the envelope contradicts itself.
    SignerMismatch,
    /// The signer is not the identity the caller required.
    UnexpectedSigner,
    /// An `.rsg` was validated without supplying the message it signs.
    MessageRequired,
    /// The message does not hash to the value the envelope committed to.
    MessageMismatch,
    /// The Ed25519 signature over the envelope did not verify.
    BadSignature,
}

impl Error {
    /// What went wrong, in words.
    pub open spec fn words(self) -> Seq<char> {
        match self {
            Error::TooShort => "artifact is shorter than a signature"@,
            Error::TooLarge => "artifact exceeds the size bound"@,
            Error::BadEnvelope(_) => "envelope is not well-formed MessagePack"@,
            Error::MissingField => "envelope is missing a required field"@,
            Error::UnsupportedHash => "envelope names a hash other than sha256"@,
            Error::BadKey => "envelope carries an invalid public key"@,
            Error::SignerMismatch => "envelope's public key does not match its signer hash"@,
            Error::UnexpectedSigner => "artifact was signed by a different identity"@,
            Error::MessageRequired => "detached artifact needs the message it signs"@,
            Error::MessageMismatch => "message does not match the envelope's hash"@,
            Error::BadSignature => "signature did not verify"@,
        }
    }

    /// What went wrong, in words.
    pub fn message(&self) -> (text: &'static str)
        ensures
            text@ == self.words(),
    {
        match self {
            Error::TooShort => "artifact is shorter than a signature",
            Error::TooLarge => "artifact exceeds the size bound",
            Error::BadEnvelope(_) => "envelope is not well-formed MessagePack",
            Error::MissingField => "envelope is missing a required field",
            Error::UnsupportedHash => "envelope names a hash other than sha256",
            Error::BadKey => "envelope carries an invalid public key",
            Error::SignerMismatch => "envelope's public key does not match its signer hash",
            Error::UnexpectedSigner => "artifact was signed by a different identity",
            Error::MessageRequired => "detached artifact needs the message it signs",
            Error::MessageMismatch => "message does not match the envelope's hash",
            Error::BadSignature => "signature did not verify",
        }
    }
}

// ---------------------------------------------------------------------------------------
// The format.
/// The two metadata keys the envelope owns. An operator cannot set them, because forging them
/// is exactly how a signer would claim to be someone else.
pub open spec fn is_reserved(key: Seq<char>) -> bool {
    key == "signer"@ || key == "pubkey"@
}

/// The metadata of a caller that is taken: what is not reserved, in order.
pub open spec fn own_entries(metadata: Seq<(Seq<char>, Model)>) -> Seq<(Model, Model)>
    decreases metadata.len(),
{
    if metadata.len() == 0 {
        Seq::empty()
    } else {
        let rest = own_entries(metadata.drop_last());
        let (key, value) = metadata.last();
        if is_reserved(key) {
            rest
        } else {
            rest.push((Model::Str(key), value))
        }
    }
}

/// The metadata map of an envelope.
pub open spec fn meta_entries(secret: Seq<u8>, metadata: Seq<(Seq<char>, Model)>) -> Seq<
    (Model, Model),
> {
    seq![
        (Model::Str("signer"@), Model::Bin(address_of(public_of(secret)))),
        (Model::Str("pubkey"@), Model::Bin(public_of(secret))),
    ] + own_entries(metadata)
}

/// The fields of an envelope.
pub open spec fn envelope_fields(
    secret: Seq<u8>,
    message: Seq<u8>,
    embed: bool,
    metadata: Seq<(Seq<char>, Model)>,
) -> Seq<(Model, Model)> {
    let bound = seq![
        (Model::Str("hashtype"@), Model::Str("sha256"@)),
        (Model::Str("hash"@), Model::Bin(sha256(message)@)),
        (Model::Str("meta"@), Model::Dict(meta_entries(secret, metadata))),
    ];
    if embed {
        bound.push((Model::Str("message"@), Model::Bin(message)))
    } else {
        bound
    }
}

/// The encoded envelope.
pub open spec fn envelope_of(
    secret: Seq<u8>,
    message: Seq<u8>,
    embed: bool,
    metadata: Seq<(Seq<char>, Model)>,
) -> Seq<u8> {
    encoding(Model::Dict(envelope_fields(secret, message, embed, metadata)))
}

/// The artifact: the signature over the envelope, and the envelope.
pub open spec fn artifact_of(
    secret: Seq<u8>,
    message: Seq<u8>,
    embed: bool,
    metadata: Seq<(Seq<char>, Model)>,
) -> Seq<u8> {
    let envelope = envelope_of(secret, message, embed, metadata);
    ed25519_signature(secret.subrange(32, 64), envelope)@ + envelope
}

/// The text under a key.
pub open spec fn text_under(m: Model, key: Seq<char>) -> Option<Seq<char>> {
    match m.under(key) {
        Some(Model::Str(text)) => Some(text),
        _ => None,
    }
}

/// The bytes under a key.
pub open spec fn bytes_under(m: Model, key: Seq<char>) -> Option<Seq<u8>> {
    match m.under(key) {
        Some(Model::Bin(blob)) => Some(blob),
        _ => None,
    }
}

/// Whether every key is text.
pub open spec fn all_named(entries: Seq<(Model, Model)>) -> bool {
    forall|i: int| 0 <= i < entries.len() ==> (#[trigger] entries[i]).0 is Str
}

/// The entries that are not reserved, by their names.
pub open spec fn unreserved(entries: Seq<(Model, Model)>) -> Seq<(Seq<char>, Model)>
    decreases entries.len(),
{
    if entries.len() == 0 {
        Seq::empty()
    } else {
        let rest = unreserved(entries.drop_last());
        match entries.last().0 {
            Model::Str(key) if !is_reserved(key) => rest.push((key, entries.last().1)),
            _ => rest,
        }
    }
}

/// The signature an artifact carries.
pub open spec fn signature_part(artifact: Seq<u8>) -> Seq<u8> {
    artifact.subrange(0, 64)
}

/// The envelope an artifact carries.
pub open spec fn envelope_part(artifact: Seq<u8>) -> Seq<u8> {
    artifact.subrange(64, artifact.len() as int)
}

/// The message an envelope is bound to: the caller's copy comes first, so a mismatched pair
/// is caught rather than silently resolved in the artifact's favour.
pub open spec fn bound_message(fields: Model, message: Option<Seq<u8>>) -> Option<Seq<u8>> {
    match message {
        Some(m) => Some(m),
        None => bytes_under(fields, "message"@),
    }
}

/// Why an envelope's fields do not name who signed, if they do not.
pub open spec fn signer_fault(fields: Model, required: Option<AddressHash>) -> Option<Error> {
    match (text_under(fields, "hashtype"@), bytes_under(fields, "hash"@), fields.under("meta"@)) {
        (None, _, _) => Some(Error::MissingField),
        (Some(hash_type), hash, meta) => if hash_type != "sha256"@ {
            Some(Error::UnsupportedHash)
        } else if hash is None || meta is None {
            Some(Error::MissingField)
        } else {
            match (bytes_under(meta->0, "signer"@), bytes_under(meta->0, "pubkey"@)) {
                (Some(signer), Some(public)) => if signer.len() != 16 {
                    Some(Error::MissingField)
                } else if public.len() != 64 || !ed25519_point(public.subrange(32, 64)) {
                    Some(Error::BadKey)
                } else if address_of(public) != signer {
                    Some(Error::SignerMismatch)
                } else if required is Some && (required->0)@ != signer {
                    Some(Error::UnexpectedSigner)
                } else {
                    None
                },
                _ => Some(Error::MissingField),
            }
        },
    }
}

/// The public identity an envelope names.
pub open spec fn signer_part(fields: Model) -> Seq<u8> {
    bytes_under(fields.under("meta"@)->0, "pubkey"@)->0
}

/// Why an artifact is not valid, if it is not: the first of the checks that fails.
pub open spec fn refusal(
    artifact: Seq<u8>,
    message: Option<Seq<u8>>,
    required: Option<AddressHash>,
) -> Option<Error> {
    if artifact.len() <= 64 {
        Some(Error::TooShort)
    } else if artifact.len() > MAX_ARTIFACT_LEN {
        Some(Error::TooLarge)
    } else {
        match decoded(envelope_part(artifact)) {
            Err(e) => Some(Error::BadEnvelope(e)),
            Ok(fields) => match signer_fault(fields, required) {
                Some(e) => Some(e),
                None => if fields.under("message"@) is Some && bytes_under(
                    fields,
                    "message"@,
                ) is None {
                    Some(Error::MissingField)
                } else {
                    match bound_message(fields, message) {
                        None => Some(Error::MessageRequired),
                        Some(bound) => if sha256(bound)@ != bytes_under(fields, "hash"@)->0 {
                            Some(Error::MessageMismatch)
                        } else if !ed25519_verifies(
                            signer_part(fields).subrange(32, 64),
                            envelope_part(artifact),
                            signature_part(artifact),
                        ) {
                            Some(Error::BadSignature)
                        } else if !all_named(fields.under("meta"@)->0->Dict_0) {
                            Some(Error::MissingField)
                        } else {
                            None
                        },
                    }
                },
            },
        }
    }
}

/// What a valid artifact says.
pub open spec fn said(artifact: Seq<u8>) -> ValidatedModel {
    let fields = decoded(envelope_part(artifact))->Ok_0;
    ValidatedModel {
        signer: signer_part(fields),
        metadata: unreserved(fields.under("meta"@)->0->Dict_0),
        embedded_message: bytes_under(fields, "message"@),
    }
}

// ---------------------------------------------------------------------------------------
// Making and checking artifacts.
/// A text value.
fn text(s: &str) -> (value: Value)
    ensures
        value@ == Model::Str(s@),
{
    Value::Str(String::from_str(s))
}

/// A blob value.
fn blob(source: &[u8]) -> (value: Value)
    ensures
        value@ == Model::Bin(source@),
{
    Value::Bin(bytes::copy_all(source))
}

/// Whether a metadata key is the envelope's own.
fn reserved(key: &str) -> (own: bool)
    ensures
        own == is_reserved(key@),
{
    bytes::same_text(key, "signer") || bytes::same_text(key, "pubkey")
}

/// A caller's metadata as models.
pub open spec fn given_models(metadata: Seq<(&str, Value)>) -> Seq<(Seq<char>, Model)> {
    Seq::new(metadata.len(), |i: int| (metadata[i].0@, metadata[i].1@))
}

/// Whether an artifact is valid for everyone it is meant for, and says what was put in: for
/// whoever holds the message it carries or is supplied with it, and requires no signer or the
/// one that signed.
pub open spec fn holds_up(
    artifact: Seq<u8>,
    secret: Seq<u8>,
    message: Seq<u8>,
    embed: bool,
    metadata: Seq<(Seq<char>, Model)>,
) -> bool {
    &&& said(artifact) == (ValidatedModel {
        signer: public_of(secret),
        metadata: taken(metadata),
        embedded_message: if embed {
            Some(message)
        } else {
            None
        },
    })
    &&& forall|supplied: Option<Seq<u8>>, required: Option<AddressHash>|
        (supplied == Some(message) || (embed && supplied is None)) && (required is None || (
        required->0)@ == address_of(public_of(secret))) ==> #[trigger] refusal(
            artifact,
            supplied,
            required,
        ) is None
}

/// Build a signed artifact over `message`.
///
/// With `embed` set the message travels inside the artifact (an `.rsm`); without it the
/// artifact is a detached signature (an `.rsg`) and the verifier must be handed the message
/// separately. Reserved metadata keys supplied by the caller are dropped rather than
/// honoured: the envelope names its own signer.
pub fn create(
    signer: &PrivateIdentity,
    message: &[u8],
    embed: bool,
    metadata: &[(&str, Value)],
) -> (result: Result<Vec<u8>, Error>)
    ensures
        ({
            let envelope = envelope_of(signer@, message@, embed, given_models(metadata@));
            match result {
                Ok(artifact) => {
                    &&& envelope.len() + 64 <= MAX_ARTIFACT_LEN
                    &&& artifact@ == artifact_of(
                        signer@,
                        message@,
                        embed,
                        given_models(metadata@),
                    )
                    &&& msgpack::fits(
                        Model::Dict(
                            envelope_fields(signer@, message@, embed, given_models(metadata@)),
                        ),
                        0,
                    ) && !commits_to_nothing(signature_part(artifact@)) ==> holds_up(
                        artifact@,
                        signer@,
                        message@,
                        embed,
                        given_models(metadata@),
                    )
                },
                Err(e) => envelope.len() + 64 > MAX_ARTIFACT_LEN && e == Error::TooLarge,
            }
        }),
{
    let ghost given = given_models(metadata@);
    let mut meta: Vec<(Value, Value)> = Vec::new();
    let hash = signer.hash();
    let public = signer.public().to_public_bytes();
    let signer_entry = (text("signer"), blob(hash.as_slice()));
    let pubkey_entry = (text("pubkey"), blob(&public));
    proof {
        msgpack::lemma_pairs_push(meta@, signer_entry);
        msgpack::lemma_pairs_push(meta@.push(signer_entry), pubkey_entry);
    }
    meta.push(signer_entry);
    meta.push(pubkey_entry);
    let ghost owned = seq![
        (Model::Str("signer"@), Model::Bin(address_of(public_of(signer@)))),
        (Model::Str("pubkey"@), Model::Bin(public_of(signer@))),
    ];
    let mut i: usize = 0;
    assert(given.subrange(0, 0) =~= Seq::<(Seq<char>, Model)>::empty());
    assert(pairs_of(meta@) =~= owned + own_entries(given.subrange(0, 0)));
    while i < metadata.len()
        invariant
            i <= metadata@.len(),
            given == given_models(metadata@),
            pairs_of(meta@) == owned + own_entries(given.subrange(0, i as int)),
        decreases metadata@.len() - i,
    {
        let key: &str = metadata[i].0;
        proof {
            let next = given.subrange(0, i + 1);
            assert(next.drop_last() =~= given.subrange(0, i as int));
            assert(next.last() == given[i as int]);
        }
        if !reserved(key) {
            let entry = (text(key), metadata[i].1.clone());
            let ghost before = meta@;
            proof {
                msgpack::lemma_pairs_push(before, entry);
            }
            meta.push(entry);
            assert(pairs_of(meta@) =~= owned + own_entries(given.subrange(0, i + 1)));
        }
        i += 1;
    }
    assert(given.subrange(0, i as int) =~= given);
    let digest = full_hash(message);
    let mut fields: Vec<(Value, Value)> = Vec::new();
    let hash_type = (text("hashtype"), text("sha256"));
    let committed = (text("hash"), blob(&digest));
    let described = (text("meta"), Value::Dict(meta));
    proof {
        msgpack::lemma_pairs_push(fields@, hash_type);
        msgpack::lemma_pairs_push(fields@.push(hash_type), committed);
        msgpack::lemma_pairs_push(fields@.push(hash_type).push(committed), described);
    }
    fields.push(hash_type);
    fields.push(committed);
    fields.push(described);
    if embed {
        let carried = (text("message"), blob(message));
        proof {
            msgpack::lemma_pairs_push(fields@, carried);
        }
        fields.push(carried);
    }
    assert(pairs_of(fields@) =~= envelope_fields(signer@, message@, embed, given));
    let envelope = msgpack::encode(&Value::Dict(fields));
    if envelope.len() > MAX_ARTIFACT_LEN - SIGNATURE_LEN {
        return Err(Error::TooLarge);
    }
    let signature = signer.sign(envelope.as_slice());
    let mut artifact: Vec<u8> = Vec::new();
    bytes::append(&mut artifact, &signature);
    bytes::append(&mut artifact, envelope.as_slice());
    proof {
        assert(artifact@ =~= artifact_of(signer@, message@, embed, given));
        assert(signature_part(artifact@) =~= signature@);
        if msgpack::fits(Model::Dict(envelope_fields(signer@, message@, embed, given)), 0)
            && !commits_to_nothing(signature@) {
            law_created_artifact_validates(
                signer@,
                message@,
                embed,
                given,
                Some(message@),
                None,
            );
            assert forall|supplied: Option<Seq<u8>>, required: Option<AddressHash>|
                (supplied == Some(message@) || (embed && supplied is None)) && (required is None
                    || (required->0)@ == address_of(public_of(signer@))) implies #[trigger] refusal(
                artifact@,
                supplied,
                required,
            ) is None by {
                law_created_artifact_validates(
                    signer@,
                    message@,
                    embed,
                    given,
                    supplied,
                    required,
                );
            }
        }
    }
    Ok(artifact)
}

/// The text under a key of a map.
fn get_text<'a>(value: &'a Value, key: &str) -> (found: Option<&'a str>)
    ensures
        match text_under(value@, key@) {
            Some(t) => found matches Some(s) && s@ == t,
            None => found is None,
        },
{
    match value.get(key) {
        Some(inner) => inner.as_str(),
        None => None,
    }
}

/// The bytes under a key of a map.
fn get_bytes<'a>(value: &'a Value, key: &str) -> (found: Option<&'a [u8]>)
    ensures
        match bytes_under(value@, key@) {
            Some(b) => found matches Some(s) && s@ == b,
            None => found is None,
        },
{
    match value.get(key) {
        Some(inner) => inner.as_bin(),
        None => None,
    }
}

/// Who signed an envelope, by its own account.
fn named_signer(fields: &Value, required: Option<AddressHash>) -> (result: Result<Identity, Error>)
    ensures
        match result {
            Ok(signer) => signer_fault(fields@, required) is None && signer@ == signer_part(
                fields@,
            ),
            Err(e) => signer_fault(fields@, required) == Some(e),
        },
{
    let hash_type = match get_text(fields, "hashtype") {
        Some(found) => found,
        None => {
            return Err(Error::MissingField);
        },
    };
    if !bytes::same_text(hash_type, "sha256") {
        return Err(Error::UnsupportedHash);
    }
    if get_bytes(fields, "hash").is_none() {
        return Err(Error::MissingField);
    }
    let meta = match fields.get("meta") {
        Some(meta) => meta,
        None => {
            return Err(Error::MissingField);
        },
    };
    let (claimed, public) = match (get_bytes(meta, "signer"), get_bytes(meta, "pubkey")) {
        (Some(claimed), Some(public)) => (claimed, public),
        _ => {
            return Err(Error::MissingField);
        },
    };
    if claimed.len() != 16 {
        return Err(Error::MissingField);
    }
    if public.len() != 64 {
        return Err(Error::BadKey);
    }
    let key = bytes::array_at::<64>(public, 0);
    assert(key@ =~= public@);
    let signer = match Identity::from_public_bytes(&key) {
        Ok(signer) => signer,
        Err(_) => {
            return Err(Error::BadKey);
        },
    };
    // The envelope states the signer twice. If the two disagree, the artifact is lying about
    // one of them, and which one hardly matters.
    let hash = signer.hash();
    if !bytes::equal(hash.as_slice(), claimed) {
        return Err(Error::SignerMismatch);
    }
    if let Some(required) = required {
        if !bytes::equal(required.as_slice(), hash.as_slice()) {
            return Err(Error::UnexpectedSigner);
        }
    }
    Ok(signer)
}

/// The operator metadata of an envelope, if every key is text.
fn operator_metadata(meta: &Value) -> (metadata: Option<Vec<(String, Value)>>)
    requires
        meta@ is Dict,
    ensures
        match metadata {
            Some(kept) => all_named(meta@->Dict_0) && named_models(kept@) == unreserved(
                meta@->Dict_0,
            ),
            None => !all_named(meta@->Dict_0),
        },
{
    let ghost pairs = meta@->Dict_0;
    let entries = match meta.as_map() {
        Some(entries) => entries,
        None => {
            return None;
        },
    };
    let mut kept: Vec<(String, Value)> = Vec::new();
    let mut i: usize = 0;
    proof {
        msgpack::lemma_models_of_entries(entries@);
    }
    assert(pairs.subrange(0, 0) =~= Seq::<(Model, Model)>::empty());
    assert(named_models(kept@) =~= Seq::<(Seq<char>, Model)>::empty());
    while i < entries.len()
        invariant
            i <= entries@.len(),
            pairs == pairs_of(entries@),
            pairs == meta@->Dict_0,
            pairs.len() == entries@.len(),
            forall|j: int|
                0 <= j < pairs.len() ==> #[trigger] pairs[j] == (entries@[j].0@, entries@[j].1@),
            forall|j: int| 0 <= j < i ==> (#[trigger] pairs[j]).0 is Str,
            named_models(kept@) == unreserved(pairs.subrange(0, i as int)),
        decreases entries@.len() - i,
    {
        proof {
            let next = pairs.subrange(0, i + 1);
            assert(next.drop_last() =~= pairs.subrange(0, i as int));
            assert(next.last() == pairs[i as int]);
        }
        let key = match entries[i].0.as_str() {
            Some(key) => key,
            None => {
                assert(!(pairs[i as int].0 is Str));
                return None;
            },
        };
        if !reserved(key) {
            let entry = (String::from_str(key), entries[i].1.clone());
            let ghost before = kept@;
            kept.push(entry);
            assert(named_models(before.push(entry)) =~= named_models(before).push(
                (entry.0@, entry.1@),
            ));
        }
        i += 1;
    }
    assert(pairs.subrange(0, i as int) =~= pairs);
    Some(kept)
}

/// Validate an artifact, returning what it says only if every check passes.
///
/// `message` supplies the bytes for a detached artifact; for an embedded one it is optional,
/// and when both are present the caller's copy is the one checked. `required_signer`, when
/// given, is checked before the signature: an artifact from the wrong identity is refused as
/// such rather than as a bad signature.
pub fn validate(artifact: &[u8], message: Option<&[u8]>, required_signer: Option<AddressHash>) -> (result:
    Result<Validated, Error>)
    ensures
        ({
            let supplied = match message {
                Some(m) => Some(m@),
                None => None,
            };
            match result {
                Ok(validated) => refusal(artifact@, supplied, required_signer) is None
                    && validated@ == said(artifact@),
                Err(e) => refusal(artifact@, supplied, required_signer) == Some(e),
            }
        }),
{
    if artifact.len() <= SIGNATURE_LEN {
        return Err(Error::TooShort);
    }
    if artifact.len() > MAX_ARTIFACT_LEN {
        return Err(Error::TooLarge);
    }
    let signature = bytes::array_at::<64>(artifact, 0);
    let envelope = bytes::copy_range(artifact, SIGNATURE_LEN, artifact.len());
    let fields = match msgpack::decode(envelope.as_slice()) {
        Ok(fields) => fields,
        Err(e) => {
            return Err(Error::BadEnvelope(e));
        },
    };
    let signer = match named_signer(&fields, required_signer) {
        Ok(signer) => signer,
        Err(e) => {
            return Err(e);
        },
    };
    let embedded: Option<Vec<u8>> = match fields.get("message") {
        Some(value) => match value.as_bin() {
            Some(carried) => Some(bytes::copy_all(carried)),
            None => {
                return Err(Error::MissingField);
            },
        },
        None => None,
    };
    let digest = match message {
        Some(supplied) => full_hash(supplied),
        None => match &embedded {
            Some(carried) => full_hash(carried.as_slice()),
            None => {
                return Err(Error::MessageRequired);
            },
        },
    };
    match get_bytes(&fields, "hash") {
        Some(committed) => {
            if !bytes::equal(&digest, committed) {
                return Err(Error::MessageMismatch);
            }
        },
        None => {
            return Err(Error::MissingField);
        },
    }
    if !signer.verify(envelope.as_slice(), &signature) {
        return Err(Error::BadSignature);
    }
    let meta = match fields.get("meta") {
        Some(meta) => meta,
        None => {
            return Err(Error::MissingField);
        },
    };
    match operator_metadata(meta) {
        Some(metadata) => Ok(Validated { signer, metadata, embedded_message: embedded }),
        None => Err(Error::MissingField),
    }
}

// ---------------------------------------------------------------------------------------
// Laws.
/// The metadata of a caller that survives: what is not reserved, in order.
pub open spec fn taken(metadata: Seq<(Seq<char>, Model)>) -> Seq<(Seq<char>, Model)>
    decreases metadata.len(),
{
    if metadata.len() == 0 {
        metadata
    } else {
        let rest = taken(metadata.drop_last());
        if is_reserved(metadata.last().0) {
            rest
        } else {
            rest.push(metadata.last())
        }
    }
}

/// The keys of the format are different texts.
proof fn lemma_keys_differ()
    ensures
        "hashtype"@ != "hash"@,
        "hashtype"@ != "meta"@,
        "hashtype"@ != "message"@,
        "hash"@ != "meta"@,
        "hash"@ != "message"@,
        "meta"@ != "message"@,
        "signer"@ != "pubkey"@,
{
    reveal_strlit("hashtype");
    reveal_strlit("hash");
    reveal_strlit("meta");
    reveal_strlit("message");
    reveal_strlit("signer");
    reveal_strlit("pubkey");
    assert("hashtype"@.len() == 8);
    assert("hash"@.len() == 4 && "hash"@[0] == 'h');
    assert("meta"@.len() == 4 && "meta"@[0] == 'm');
    assert("message"@.len() == 7);
    assert("signer"@[0] == 's');
    assert("pubkey"@[0] == 'p');
}

/// What a caller's metadata becomes in an envelope reads back as what of it survives.
proof fn lemma_own_entries(owned: Seq<(Model, Model)>, metadata: Seq<(Seq<char>, Model)>)
    requires
        all_named(owned),
        unreserved(owned).len() == 0,
    ensures
        all_named(owned + own_entries(metadata)),
        unreserved(owned + own_entries(metadata)) == taken(metadata),
    decreases metadata.len(),
{
    let all = owned + own_entries(metadata);
    if metadata.len() == 0 {
        assert(all =~= owned);
        assert(unreserved(owned) =~= taken(metadata));
    } else {
        let front = metadata.drop_last();
        lemma_own_entries(owned, front);
        let (key, value) = metadata.last();
        if is_reserved(key) {
            assert(own_entries(metadata) == own_entries(front));
        } else {
            let before = owned + own_entries(front);
            assert(all =~= before.push((Model::Str(key), value)));
            assert(all.drop_last() =~= before);
            assert forall|i: int| 0 <= i < all.len() implies (#[trigger] all[i]).0 is Str by {
                if i < before.len() {
                    assert(before[i] == all[i]);
                }
            }
        }
    }
}

/// What is signed is what is read: a created artifact is valid for whoever holds its message,
/// wherever its signature stands, and it says who signed, the metadata that was given less
/// what is reserved, and the message if it carries one. Whoever requires a signer gets it from
/// that signer alone: any other is refused as such. Without its message a detached artifact
/// is refused for want of one, and with another message any is refused, as far as the two have
/// different digests.
pub proof fn law_created_artifact_validates(
    secret: Seq<u8>,
    message: Seq<u8>,
    embed: bool,
    metadata: Seq<(Seq<char>, Model)>,
    supplied: Option<Seq<u8>>,
    required: Option<AddressHash>,
)
    requires
        msgpack::fits(Model::Dict(envelope_fields(secret, message, embed, metadata)), 0),
        envelope_of(secret, message, embed, metadata).len() + 64 <= MAX_ARTIFACT_LEN,
        ed25519_point(public_of(secret).subrange(32, 64)),
    ensures
        ({
            let artifact = artifact_of(secret, message, embed, metadata);
            let envelope = envelope_of(secret, message, embed, metadata);
            let public = public_of(secret);
            let held = supplied == Some(message) || (embed && supplied is None);
            let wanted = required is None || (required->0)@ == address_of(public);
            &&& held && wanted && ed25519_verifies(
                public.subrange(32, 64),
                envelope,
                ed25519_signature(secret.subrange(32, 64), envelope)@,
            ) ==> refusal(artifact, supplied, required) is None
            &&& !wanted ==> refusal(artifact, supplied, required) == Some(Error::UnexpectedSigner)
            &&& wanted && !embed && supplied is None ==> refusal(artifact, supplied, required)
                == Some(Error::MessageRequired)
            &&& wanted && supplied is Some && sha256(supplied->0)@ != sha256(message)@ ==> refusal(
                artifact,
                supplied,
                required,
            ) == Some(Error::MessageMismatch)
            &&& said(artifact) == (ValidatedModel {
                signer: public,
                metadata: taken(metadata),
                embedded_message: if embed {
                    Some(message)
                } else {
                    None
                },
            })
        }),
{
    let artifact = artifact_of(secret, message, embed, metadata);
    let envelope = envelope_of(secret, message, embed, metadata);
    let fields = envelope_fields(secret, message, embed, metadata);
    let entries = meta_entries(secret, metadata);
    let public = public_of(secret);
    lemma_keys_differ();
    msgpack::law_decode_inverts_encode(Model::Dict(fields));
    assert(envelope_part(artifact) =~= envelope);
    assert(signature_part(artifact) =~= ed25519_signature(secret.subrange(32, 64), envelope)@);
    assert(envelope.len() > 0) by {
        assert(encoding(Model::Dict(fields)).len() > 0);
    }
    assert(fields[0].0 == Model::Str("hashtype"@));
    assert(fields[1].0 == Model::Str("hash"@));
    assert(fields[2].0 == Model::Str("meta"@));
    msgpack::lemma_key_found(fields, "hashtype"@, 0);
    msgpack::lemma_key_found(fields, "hash"@, 1);
    msgpack::lemma_key_found(fields, "meta"@, 2);
    if embed {
        msgpack::lemma_key_found(fields, "message"@, 3);
    } else {
        msgpack::lemma_key_absent(fields, "message"@);
    }
    assert(entries[0].0 == Model::Str("signer"@));
    assert(entries[1].0 == Model::Str("pubkey"@));
    msgpack::lemma_key_found(entries, "signer"@, 0);
    msgpack::lemma_key_found(entries, "pubkey"@, 1);
    let owned = seq![
        (Model::Str("signer"@), Model::Bin(address_of(public))),
        (Model::Str("pubkey"@), Model::Bin(public)),
    ];
    assert(unreserved(owned).len() == 0) by {
        reveal_with_fuel(unreserved, 3);
        assert(owned.drop_last() =~= seq![owned[0]]);
        assert(owned.drop_last().drop_last() =~= Seq::<(Model, Model)>::empty());
    }
    lemma_own_entries(owned, metadata);
    assert(address_of(public).len() == 16);
    assert(public.len() == 64);
}

/// A caller cannot name another signer: reserved keys in the metadata change nothing.
pub proof fn law_reserved_keys_are_dropped(
    secret: Seq<u8>,
    message: Seq<u8>,
    embed: bool,
    metadata: Seq<(Seq<char>, Model)>,
    key: Seq<char>,
    value: Model,
)
    requires
        is_reserved(key),
    ensures
        artifact_of(secret, message, embed, metadata.push((key, value))) == artifact_of(
            secret,
            message,
            embed,
            metadata,
        ),
{
    assert(metadata.push((key, value)).drop_last() =~= metadata);
}

/// A supplied message outranks the embedded one: an artifact is refused wherever the caller's
/// own bytes do not match what it commits to, whatever it carries.
pub proof fn law_supplied_message_is_the_one_checked(
    artifact: Seq<u8>,
    supplied: Seq<u8>,
    required: Option<AddressHash>,
)
    requires
        refusal(artifact, Some(supplied), required) is None,
    ensures
        decoded(envelope_part(artifact)) matches Ok(fields) && bytes_under(fields, "hash"@)
            == Some(sha256(supplied)@),
{
}

/// A valid artifact is bound to its signer and its message: its signature stands under the
/// public key it carries, that key is the signer's and the required one's where one is
/// required, and the digest it carries is that of the message, the caller's where one was
/// given and else its own.
pub proof fn law_valid_artifact_is_genuine(
    artifact: Seq<u8>,
    message: Option<Seq<u8>>,
    required: Option<AddressHash>,
)
    requires
        refusal(artifact, message, required) is None,
    ensures
        64 < artifact.len() <= 65_536,
        ({
            let envelope = artifact.subrange(64, artifact.len() as int);
            let signature = artifact.subrange(0, 64);
            let fields = decoded(envelope)->Ok_0;
            let meta = fields.under("meta"@)->0;
            let public = said(artifact).signer;
            let carried = fields.under("message"@);
            &&& decoded(envelope) is Ok
            &&& fields.under("hashtype"@) == Some(Model::Str("sha256"@))
            &&& fields.under("meta"@) is Some
            &&& meta.under("pubkey"@) == Some(Model::Bin(public))
            &&& meta.under("signer"@) == Some(Model::Bin(address_of(public)))
            &&& public.len() == 64
            &&& ed25519_point(public.subrange(32, 64))
            &&& ed25519_verifies(public.subrange(32, 64), envelope, signature)
            &&& required matches Some(wanted) ==> wanted@ == address_of(public)
            &&& message matches Some(given) ==> fields.under("hash"@) == Some(
                Model::Bin(sha256(given)@),
            )
            &&& message is None ==> carried is Some && fields.under("hash"@) == Some(
                Model::Bin(sha256(carried->0->Bin_0)@),
            )
            &&& carried is Some ==> carried == Some(
                Model::Bin(said(artifact).embedded_message->0),
            ) && said(artifact).embedded_message is Some
            &&& carried is None ==> said(artifact).embedded_message is None
        }),
{
}

/// An artifact is refused for what is wrong with it: whatever the error, its cause is there.
pub proof fn law_refusal_has_its_cause(
    artifact: Seq<u8>,
    message: Option<Seq<u8>>,
    required: Option<AddressHash>,
)
    ensures
        ({
            let why = refusal(artifact, message, required);
            let envelope = artifact.subrange(64, artifact.len() as int);
            let fields = decoded(envelope)->Ok_0;
            let meta = fields.under("meta"@)->0;
            let public = meta.under("pubkey"@)->0->Bin_0;
            &&& why == Some(Error::TooShort) <==> artifact.len() <= 64
            &&& why == Some(Error::TooLarge) <==> artifact.len() > 65_536
            &&& why matches Some(Error::BadEnvelope(e)) ==> decoded(envelope) == Err::<
                Model,
                msgpack::Error,
            >(e)
            &&& 64 < artifact.len() <= 65_536 && decoded(envelope) is Err ==> why is Some && why->0
                is BadEnvelope
            &&& why == Some(Error::UnsupportedHash) ==> fields.under("hashtype"@) is Some
                && fields.under("hashtype"@) != Some(Model::Str("sha256"@))
            &&& why == Some(Error::SignerMismatch) ==> meta.under("signer"@) is Some
                && meta.under("signer"@) != Some(Model::Bin(address_of(public)))
            &&& why == Some(Error::UnexpectedSigner) ==> required is Some && (required->0)@
                != address_of(public)
            &&& why == Some(Error::MessageRequired) ==> message is None && fields.under(
                "message"@,
            ) is None
            &&& why == Some(Error::MessageMismatch) ==> {
                let bound = if message is Some {
                    message->0
                } else {
                    fields.under("message"@)->0->Bin_0
                };
                fields.under("hash"@) is Some && fields.under("hash"@) != Some(
                    Model::Bin(sha256(bound)@),
                )
            }
            &&& why == Some(Error::BadSignature) ==> !ed25519_verifies(
                public.subrange(32, 64),
                envelope,
                artifact.subrange(0, 64),
            )
            &&& why == Some(Error::BadKey) ==> public.len() != 64 || !ed25519_point(
                public.subrange(32, 64),
            )
        }),
{
}

/// Of the metadata the caller's own entries are written, and read back, in their order; only
/// the two reserved names are left out.
pub proof fn law_own_metadata_is_kept(metadata: Seq<(Seq<char>, Model)>)
    ensures
        own_entries(metadata) == metadata.filter(
            |entry: (Seq<char>, Model)| entry.0 != "signer"@ && entry.0 != "pubkey"@,
        ).map_values(|entry: (Seq<char>, Model)| (Model::Str(entry.0), entry.1)),
        taken(metadata) == metadata.filter(
            |entry: (Seq<char>, Model)| entry.0 != "signer"@ && entry.0 != "pubkey"@,
        ),
    decreases metadata.len(),
{
    reveal(Seq::filter);
    let own = |entry: (Seq<char>, Model)| entry.0 != "signer"@ && entry.0 != "pubkey"@;
    let named = |entry: (Seq<char>, Model)| (Model::Str(entry.0), entry.1);
    if metadata.len() > 0 {
        let front = metadata.drop_last();
        law_own_metadata_is_kept(front);
        assert(front.filter(own).push(metadata.last()).map_values(named) =~= front.filter(
            own,
        ).map_values(named).push(named(metadata.last())));
    }
    assert(own_entries(metadata) =~= metadata.filter(own).map_values(named));
}

} // verus!
