//! Destination names and their hashes.
//!
//! A destination is named by an app name and a list of aspects. They join with `.` into an
//! *expanded name*, e.g. `("retinue", ["test"])` becomes `retinue.test`. Two hashes fall
//! out of it, and they are not interchangeable:
//!
//! ```text
//! name_hash        = trunc10(SHA256(expanded_name))
//! destination_hash = trunc16(SHA256(name_hash || identity_hash))
//! ```
//!
//! Note the second is a hash of two hashes, and that the identity participates only
//! through its own hash.

use vstd::prelude::*;
use vstd::string::StringExecFns;

use crate::bytes;
use crate::hash::{address_of, name_of, AddressHash, NameHash};
use crate::identity::Identity;

verus! {

/// The app name followed by each aspect, with a dot before every aspect.
pub open spec fn dotted(app_name: Seq<char>, aspects: Seq<&str>) -> Seq<char>
    decreases aspects.len(),
{
    if aspects.len() == 0 {
        app_name
    } else {
        dotted(app_name, aspects.drop_last()) + seq!['.'] + aspects.last()@
    }
}

/// The destination hash that a name hash and an identity hash imply.
pub open spec fn destination_of(name_hash: Seq<u8>, identity_hash: Seq<u8>) -> Seq<u8> {
    address_of(name_hash + identity_hash)
}

/// The name of a destination: an app name plus dotted aspects.
#[derive(Debug)]
pub struct DestinationName {
    expanded: String,
    name_hash: NameHash,
}

impl View for DestinationName {
    type V = Seq<char>;

    /// The dotted name.
    closed spec fn view(&self) -> Seq<char> {
        self.expanded@
    }
}

/// The name hash of a dotted name: `trunc10(SHA256(utf8(name)))`.
pub open spec fn name_hash_of(name: Seq<char>) -> Seq<u8> {
    name_of(vstd::utf8::encode_utf8(name))
}

impl DestinationName {
    /// The stored hash is the stored name's.
    #[verifier::type_invariant]
    spec fn hash_matches(self) -> bool {
        self.name_hash@ == name_hash_of(self.expanded@)
    }

    /// Build from an app name and aspects. They are joined with `.`.
    ///
    /// `DestinationName::new("retinue", &["test"])` expands to `retinue.test`.
    pub fn new(app_name: &str, aspects: &[&str]) -> (name: Self)
        ensures
            name@ == dotted(app_name@, aspects@),
    {
        let mut expanded = String::from_str(app_name);
        let mut i: usize = 0;
        assert(aspects@.subrange(0, 0) =~= Seq::<&str>::empty());
        while i < aspects.len()
            invariant
                i <= aspects@.len(),
                expanded@ == dotted(app_name@, aspects@.subrange(0, i as int)),
            decreases aspects@.len() - i,
        {
            proof {
                let next = aspects@.subrange(0, i + 1);
                assert(next.drop_last() =~= aspects@.subrange(0, i as int));
                assert(next.last() == aspects@[i as int]);
                reveal_strlit(".");
                assert("."@ =~= seq!['.']);
            }
            expanded.append(".");
            expanded.append(aspects[i]);
            i += 1;
        }
        assert(aspects@.subrange(0, i as int) =~= aspects@);
        let name_hash = NameHash::of(expanded.as_str().as_bytes());
        DestinationName { expanded, name_hash }
    }

    /// The dotted name, e.g. `retinue.test`.
    pub fn expanded(&self) -> (name: &str)
        ensures
            name@ == self@,
    {
        self.expanded.as_str()
    }

    /// `trunc10(SHA256(expanded_name))`. This, not the full digest, is what the wire
    /// carries and what lookups must key on.
    pub fn name_hash(&self) -> (hash: NameHash)
        ensures
            hash@ == name_hash_of(self@),
    {
        proof {
            use_type_invariant(self);
        }
        self.name_hash
    }

    /// The destination hash for this name under a given identity.
    pub fn destination_hash(&self, identity: &Identity) -> (hash: AddressHash)
        ensures
            hash@ == destination_of(name_hash_of(self@), address_of(identity@)),
    {
        destination_hash(self.name_hash(), identity.hash())
    }

    /// The hash of a *plain* destination: one with no identity, like the well-known
    /// `rnstransport.path.request`. It is `trunc16(SHA256(name_hash))`, the identity-bearing
    /// form with an empty identity.
    pub fn plain_hash(&self) -> (hash: AddressHash)
        ensures
            hash@ == destination_of(name_hash_of(self@), Seq::empty()),
    {
        let name_hash = self.name_hash();
        assert(name_hash@ + Seq::<u8>::empty() =~= name_hash@);
        AddressHash::of(name_hash.as_slice())
    }
}

impl Clone for DestinationName {
    fn clone(&self) -> (copy: Self)
        ensures
            copy@ == self@,
    {
        proof {
            use_type_invariant(self);
        }
        DestinationName { expanded: self.expanded.clone(), name_hash: self.name_hash }
    }
}

/// `trunc16(SHA256(name_hash || identity_hash))`.
///
/// Exposed separately from [`DestinationName::destination_hash`] because a receiver
/// validating an announce has the two hashes but not the name they came from: the wire
/// carries the name *hash*, and the plaintext name is unrecoverable.
pub fn destination_hash(name_hash: NameHash, identity_hash: AddressHash) -> (hash: AddressHash)
    ensures
        hash@ == destination_of(name_hash@, identity_hash@),
{
    let mut buf: Vec<u8> = Vec::new();
    bytes::append(&mut buf, name_hash.as_slice());
    bytes::append(&mut buf, identity_hash.as_slice());
    assert(buf@ =~= name_hash@ + identity_hash@);
    AddressHash::of(buf.as_slice())
}

/// A name is the app's name and its aspects behind it, each after a dot.
pub proof fn law_name_is_dotted(app_name: Seq<char>, aspects: Seq<&str>, last: &str)
    ensures
        dotted(app_name, Seq::<&str>::empty()) == app_name,
        dotted(app_name, aspects.push(last)) == dotted(app_name, aspects) + seq!['.'] + last@,
{
    assert(aspects.push(last).drop_last() =~= aspects);
}

/// A destination is the address of its name hash followed by its identity's hash, and a name
/// hash the first ten bytes of the digest of the name.
pub proof fn law_destination_is_name_and_identity(
    name: Seq<char>,
    name_hash: Seq<u8>,
    identity_hash: Seq<u8>,
)
    ensures
        destination_of(name_hash, identity_hash) == crate::hash::sha256(
            name_hash + identity_hash,
        )@.subrange(0, 16),
        name_hash_of(name) == crate::hash::sha256(vstd::utf8::encode_utf8(name))@.subrange(0, 10),
{
}

} // verus!
