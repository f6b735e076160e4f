//! The signed command envelope.
//!
//! A field node holds operator *public* keys and nothing that authorizes anything. A command
//! is therefore a signed statement that travels as data, verified against a stored allowlist,
//! and valid however it arrived. Serial, LoRa, BLE, and a foreign mesh bearer all hand the
//! same bytes to the same verifier, because [`Verifier::accept`] takes bytes and nothing
//! else. There is deliberately no entry point that accepts a link, a session, or a peer: a
//! hijacked session cannot become authority it never had.
//!
//! ```text
//! command  = envelope || ed25519_signature(64)
//! envelope = version(1) || class(1) || key_id(16) || target(16)
//!            || counter(8, big-endian) || opcode(1) || payload_len(2) || payload
//! signed   = DOMAIN || envelope
//! ```
//!
//! # Freshness without a clock
//!
//! A field node has no RTC, no trustworthy time at reboot, and sits on a mesh with hour-scale
//! delivery, so wall-clock expiry is the wrong primitive. Freshness is a per-operator
//! monotonic counter instead. Acceptance is a *window*: strictly greater than the last
//! accepted value, and no more than [`COUNTER_WINDOW`] beyond it. Without the upper bound, one
//! intercepted command carrying a counter near `u64::MAX` would lock its operator out of that
//! node permanently.
//!
//! The counter advances only after a signature verifies, and [`Verifier::ledger`] exposes it
//! so that it can be made durable; [`Verifier::restore`] is the way back in.

use vstd::prelude::*;

use crate::bounded::BoundedVec;
use crate::bytes;
use crate::bytes::{be_bytes, be_value};
use crate::hash::{address_of, AddressHash};
use crate::identity::{
    commits_to_nothing, ed25519_signature, ed25519_verifies, public_of, Identity, PrivateIdentity, SIGNATURE_LEN,
};

verus! {

/// Envelope version. A node refuses anything else rather than guessing at the layout.
pub const VERSION: u8 = 1;

/// Domain separation, prefixed to the signed bytes and never sent: `retinue-command-v1`.
///
/// Signatures elsewhere in this crate cover announces and link proofs. Without a domain
/// prefix, bytes that happened to validate in one context could be replayed into another;
/// with it, a command signature is only ever a command signature.
pub const DOMAIN: [u8; 18] = [
    0x72, 0x65, 0x74, 0x69, 0x6e, 0x75, 0x65, 0x2d, 0x63, 0x6f, 0x6d, 0x6d, 0x61, 0x6e, 0x64, 0x2d,
    0x76, 0x31,
];

/// Fixed-offset header length: version, class, key id, target, counter, opcode, length.
pub const HEADER_LEN: usize = 45;

/// Largest payload a command may carry.
///
/// A command is an instruction, not a transfer. Anything that needs bulk should be a resource
/// the command *names*. This keeps a whole command inside a single Reticulum packet and inside
/// a LoRa frame, so authorization never depends on reassembly.
pub const MAX_PAYLOAD: usize = 256;

/// Largest complete command, envelope plus signature.
pub const MAX_COMMAND_LEN: usize = 365;

/// Most bytes that are signed: the domain and the largest envelope.
pub const MAX_SIGNED_LEN: usize = 319;

/// How far ahead of the last accepted counter a command may be.
///
/// Generous on purpose: an operator's counter is theirs, not this node's, so a node that has
/// been unreachable while the operator commanded the rest of the fleet must still be able to
/// catch up.
pub const COUNTER_WINDOW: u64 = 4096;

/// Who a command is addressed to.
#[derive(Debug, Clone, Copy, PartialEq, Eq, Structural)]
pub enum TargetClass {
    /// The target field holds one node's address hash. Nobody else acts on it.
    Node,
    /// The target field holds a fleet id. Every node configured with that id acts on it.
    Fleet,
}

impl TargetClass {
    /// The byte a class is written as.
    pub open spec fn spelled(self) -> u8 {
        match self {
            TargetClass::Node => 0,
            TargetClass::Fleet => 1,
        }
    }

    /// The byte a class is written as.
    fn code(self) -> (code: u8)
        ensures
            code == self.spelled(),
    {
        match self {
            TargetClass::Node => 0,
            TargetClass::Fleet => 1,
        }
    }

    /// The class a byte names.
    fn from_code(code: u8) -> (class: Option<TargetClass>)
        ensures
            match class {
                Some(c) => c.spelled() == code,
                None => code > 1,
            },
    {
        match code {
            0 => Some(TargetClass::Node),
            1 => Some(TargetClass::Fleet),
            _ => None,
        }
    }
}

/// Why a node refused to act.
///
/// Every variant is a counted refusal rather than a panic. On the RF path a loud assert is a
/// remote reset button, so this path returns and increments.
#[derive(Debug, Clone, Copy, PartialEq, Eq, Structural)]
pub enum Refusal {
    /// Too short, wrong length for its declared payload, or an unknown target class.
    Malformed,
    /// A version this node does not implement.
    UnknownVersion,
    /// The payload exceeds [`MAX_PAYLOAD`].
    PayloadTooLong,
    /// The key id is not on this node's allowlist. Not an error: it is the ordinary fate of a
    /// fleet command from an operator this node does not answer to.
    UnknownKey,
    /// Addressed to another node, or to a fleet this node is not in.
    WrongTarget,
    /// The counter is at or behind the last accepted one: a replay.
    CounterReplayed,
    /// The counter is further ahead than [`COUNTER_WINDOW`] allows.
    CounterTooFar,
    /// The signature did not verify against the allowlisted key.
    BadSignature,
    /// The allowlist is full.
    AllowlistFull,
}

/// A command, either about to be signed or just verified.
#[derive(Clone, PartialEq, Eq)]
pub struct Command<'a> {
    /// The operator identity hash that signed, or will sign. On [`Command::sign`] this field
    /// is overwritten with the signer's own hash, so the two can never disagree on the wire.
    pub key_id: AddressHash,
    pub class: TargetClass,
    /// A node address hash or a fleet id, according to `class`.
    pub target: AddressHash,
    pub counter: u64,
    /// What to do. Opcode semantics belong to the consuming firmware, not to this module.
    pub opcode: u8,
    pub payload: &'a [u8],
}

/// A [`Command`] with its byte strings as sequences.
pub struct CommandModel {
    pub key_id: Seq<u8>,
    pub class: TargetClass,
    pub target: Seq<u8>,
    pub counter: u64,
    pub opcode: u8,
    pub payload: Seq<u8>,
}

impl<'a> View for Command<'a> {
    type V = CommandModel;

    open spec fn view(&self) -> CommandModel {
        CommandModel {
            key_id: self.key_id@,
            class: self.class,
            target: self.target@,
            counter: self.counter,
            opcode: self.opcode,
            payload: self.payload@,
        }
    }
}

impl CommandModel {
    /// The bytes of the envelope.
    pub open spec fn envelope(self) -> Seq<u8> {
        seq![VERSION, self.class.spelled()] + self.key_id + self.target + be_bytes(
            self.counter as nat,
            8,
        ) + seq![self.opcode] + be_bytes(self.payload.len(), 2) + self.payload
    }

    /// The command as a signer sends it.
    pub open spec fn from_signer(self, secret: Seq<u8>) -> CommandModel {
        CommandModel { key_id: address_of(public_of(secret)), ..self }
    }
}

/// What is signed for an envelope.
pub open spec fn signed_bytes(envelope: Seq<u8>) -> Seq<u8> {
    DOMAIN@ + envelope
}

/// A command as it is sent: its envelope and the signature under it.
pub open spec fn sent_form(command: CommandModel, secret: Seq<u8>) -> Seq<u8> {
    let envelope = command.from_signer(secret).envelope();
    envelope + ed25519_signature(secret.subrange(32, 64), signed_bytes(envelope))@
}

/// How long a command says its payload is.
pub open spec fn declared_len(b: Seq<u8>) -> nat {
    be_value(b.subrange(43, 45))
}

/// Why bytes are not a command, if they are not.
pub open spec fn shape_fault(b: Seq<u8>) -> Option<Refusal> {
    if b.len() < HEADER_LEN + 64 {
        Some(Refusal::Malformed)
    } else if b[0] != VERSION {
        Some(Refusal::UnknownVersion)
    } else if b[1] > 1 {
        Some(Refusal::Malformed)
    } else if declared_len(b) > MAX_PAYLOAD {
        Some(Refusal::PayloadTooLong)
    } else if b.len() != HEADER_LEN + declared_len(b) + 64 {
        Some(Refusal::Malformed)
    } else {
        None
    }
}

/// The command bytes spell.
pub open spec fn spelled_command(b: Seq<u8>) -> CommandModel {
    CommandModel {
        key_id: b.subrange(2, 18),
        class: if b[1] == 0 {
            TargetClass::Node
        } else {
            TargetClass::Fleet
        },
        target: b.subrange(18, 34),
        counter: be_value(b.subrange(34, 42)) as u64,
        opcode: b[42],
        payload: b.subrange(45, b.len() - 64),
    }
}

/// The envelope a command carries.
pub open spec fn envelope_part(b: Seq<u8>) -> Seq<u8> {
    b.subrange(0, b.len() - 64)
}

/// The signature a command carries.
pub open spec fn signature_part(b: Seq<u8>) -> Seq<u8> {
    b.subrange(b.len() - 64, b.len() as int)
}

impl<'a> Command<'a> {
    /// Sign and serialize.
    ///
    /// The returned bytes are the whole command: envelope then signature.
    pub fn sign(&self, signer: &PrivateIdentity) -> (result: Result<
        BoundedVec<u8, MAX_COMMAND_LEN>,
        Refusal,
    >)
        ensures
            match result {
                Ok(out) => {
                    &&& self.payload@.len() <= MAX_PAYLOAD
                    &&& out.view() == sent_form(self@, signer@)
                    &&& out.view().len() == HEADER_LEN + self.payload@.len() + SIGNATURE_LEN
                    &&& shape_fault(out.view()) is None
                    &&& spelled_command(out.view()) == self@.from_signer(signer@)
                    &&& commits_to_nothing(signature_part(out.view())) || forall|
                        verifier: VerifierModel,
                    |
                        verifier.awaits(self@, signer@) ==> #[trigger] verifier.refusal(
                            out.view(),
                        ) is None
                },
                Err(e) => self.payload@.len() > MAX_PAYLOAD && e == Refusal::PayloadTooLong,
            },
    {
        if self.payload.len() > MAX_PAYLOAD {
            return Err(Refusal::PayloadTooLong);
        }
        let hash = signer.hash();
        let mut header: Vec<u8> = Vec::new();
        header.push(VERSION);
        header.push(self.class.code());
        bytes::append(&mut header, hash.as_slice());
        bytes::append(&mut header, self.target.as_slice());
        bytes::append_be(&mut header, self.counter, 8);
        header.push(self.opcode);
        bytes::append_be(&mut header, self.payload.len() as u64, 2);
        let ghost envelope = self@.from_signer(signer@).envelope();
        proof {
            AddressHash::lemma_bytes_decide(hash, self.target);
            AddressHash::lemma_bytes_decide(self.target, hash);
            bytes::lemma_be_bytes(self.counter as nat, 8);
            bytes::lemma_be_bytes(self.payload@.len(), 2);
            assert(header@.len() == HEADER_LEN);
            assert(header@ + self.payload@ =~= envelope);
        }
        let mut out: BoundedVec<u8, MAX_COMMAND_LEN> = BoundedVec::new();
        let _ = out.extend(header.as_slice());
        let _ = out.extend(self.payload);
        assert(out.view() =~= envelope);
        let mut signed: BoundedVec<u8, MAX_SIGNED_LEN> = BoundedVec::new();
        let _ = signed.extend(&DOMAIN);
        let _ = signed.extend(out.as_slice());
        assert(signed.view() =~= signed_bytes(envelope));
        let signature = signer.sign(signed.as_slice());
        let _ = out.extend(&signature);
        proof {
            let sent = out.view();
            assert(signature_part(sent) =~= signature@);
            let none = VerifierModel {
                node: self.target,
                fleet: None,
                operators: Seq::empty(),
                refusals: 0,
                accepted: 0,
            };
            law_signed_command_is_accepted(none, *self, signer@);
            if !commits_to_nothing(signature@) {
                assert forall|verifier: VerifierModel|
                    verifier.awaits(self@, signer@) implies #[trigger] verifier.refusal(
                    sent,
                ) is None by {
                    law_signed_command_is_accepted(verifier, *self, signer@);
                }
            }
        }
        Ok(out)
    }

    /// Parse without verifying anything. Private on purpose: an unverified command is not a
    /// command, and a public parser is an invitation to act on one.
    fn parse(source: &'a [u8]) -> (result: Result<Command<'a>, Refusal>)
        ensures
            match result {
                Ok(command) => shape_fault(source@) is None && command@ == spelled_command(
                    source@,
                ),
                Err(e) => shape_fault(source@) == Some(e),
            },
    {
        if source.len() < HEADER_LEN + SIGNATURE_LEN {
            return Err(Refusal::Malformed);
        }
        if source[0] != VERSION {
            return Err(Refusal::UnknownVersion);
        }
        let class = match TargetClass::from_code(source[1]) {
            Some(class) => class,
            None => {
                return Err(Refusal::Malformed);
            },
        };
        let key_id = AddressHash::from_bytes(bytes::array_at::<16>(source, 2));
        let target = AddressHash::from_bytes(bytes::array_at::<16>(source, 18));
        let counter: u64 = bytes::read_be(source, 34, 8);
        let opcode: u8 = source[42];
        let declared: u64 = bytes::read_be(source, 43, 2);
        if declared > MAX_PAYLOAD as u64 {
            return Err(Refusal::PayloadTooLong);
        }
        let payload_len: usize = declared as usize;
        // The declared length has to account for every byte: envelope, payload, signature,
        // and nothing over. A command with a tail is not the command that was signed.
        if source.len() != HEADER_LEN + payload_len + SIGNATURE_LEN {
            return Err(Refusal::Malformed);
        }
        let payload = vstd::slice::slice_subrange(source, HEADER_LEN, HEADER_LEN + payload_len);
        Ok(Command { key_id, class, target, counter, opcode, payload })
    }
}

/// A command whose target, signer, counter window, and signature have all been checked.
///
/// Only [`Verifier::verify`] constructs this witness. Its borrowed payload is still the
/// caller's input, but its metadata is authenticated and its counter has already advanced in
/// the verifier's ledger. Carrier adapters can inspect it or project it as a read-only
/// [`Command`], but cannot manufacture authority by constructing one themselves.
pub struct VerifiedCommand<'a> {
    command: Command<'a>,
}

impl<'a> View for VerifiedCommand<'a> {
    type V = CommandModel;

    closed spec fn view(&self) -> CommandModel {
        self.command@
    }
}

impl<'a> VerifiedCommand<'a> {
    /// The allowlisted operator that signed this command.
    pub fn key_id(&self) -> (key_id: AddressHash)
        ensures
            key_id@ == self@.key_id,
    {
        self.command.key_id
    }

    /// Whether this was addressed to one node or to its configured fleet.
    pub fn class(&self) -> (class: TargetClass)
        ensures
            class == self@.class,
    {
        self.command.class
    }

    /// The authenticated node or fleet target.
    pub fn target(&self) -> (target: AddressHash)
        ensures
            target@ == self@.target,
    {
        self.command.target
    }

    /// The accepted, monotonic operator counter.
    pub fn counter(&self) -> (counter: u64)
        ensures
            counter == self@.counter,
    {
        self.command.counter
    }

    /// The authenticated firmware-defined operation code.
    pub fn opcode(&self) -> (opcode: u8)
        ensures
            opcode == self@.opcode,
    {
        self.command.opcode
    }

    /// The authenticated operation body.
    pub fn payload(&self) -> (payload: &'a [u8])
        ensures
            payload@ == self@.payload,
    {
        self.command.payload
    }

    /// Project the authenticated command for read-only consumers.
    pub fn as_command(&self) -> (command: &Command<'a>)
        ensures
            command@ == self@,
    {
        &self.command
    }

    /// The command itself.
    fn into_command(self) -> (command: Command<'a>)
        ensures
            command@ == self@,
    {
        self.command
    }
}

/// One allowlisted operator and the highest counter this node has accepted from them.
#[derive(Debug, Clone, Copy)]
pub struct Operator {
    pub key_id: AddressHash,
    pub identity: Identity,
    pub counter: u64,
}

/// The state of a verifier.
pub struct VerifierModel {
    pub node: AddressHash,
    pub fleet: Option<AddressHash>,
    pub operators: Seq<Operator>,
    pub refusals: u32,
    pub accepted: u32,
}

/// Where an operator stands in the allowlist.
pub open spec fn operator_index(operators: Seq<Operator>, key_id: Seq<u8>) -> Option<int>
    decreases operators.len(),
{
    if operators.len() == 0 {
        None
    } else {
        match operator_index(operators.drop_last(), key_id) {
            Some(i) => Some(i),
            None => if operators.last().key_id@ == key_id {
                Some(operators.len() - 1)
            } else {
                None
            },
        }
    }
}

/// A count one higher, as far as its type holds it.
pub open spec fn counted(n: u32) -> u32 {
    if n < u32::MAX {
        (n + 1) as u32
    } else {
        n
    }
}

impl VerifierModel {
    /// The target a class of command has to name here.
    pub open spec fn expected_target(self, class: TargetClass) -> Option<AddressHash> {
        match class {
            TargetClass::Node => Some(self.node),
            TargetClass::Fleet => self.fleet,
        }
    }

    /// Whether this node would act on a command from a signer: the signer is on its allowlist,
    /// the command is addressed to it, and its counter is in the signer's window.
    pub open spec fn awaits(self, command: CommandModel, secret: Seq<u8>) -> bool {
        let at = operator_index(self.operators, address_of(public_of(secret)));
        &&& at is Some
        &&& self.operators[at->0].identity@ == public_of(secret)
        &&& self.expected_target(command.class) is Some
        &&& (self.expected_target(command.class)->0)@ == command.target
        &&& self.operators[at->0].counter < command.counter
            <= self.operators[at->0].counter + COUNTER_WINDOW
    }

    /// Why this node does not act on a command, if it does not. Checks run cheapest first:
    /// shape and version, then the allowlist, then addressing, then the counter window, and
    /// only then the signature.
    pub open spec fn refusal(self, b: Seq<u8>) -> Option<Refusal> {
        let command = spelled_command(b);
        match (shape_fault(b), operator_index(self.operators, command.key_id)) {
            (Some(e), _) => Some(e),
            (None, None) => Some(Refusal::UnknownKey),
            (None, Some(i)) => {
                let operator = self.operators[i];
                let target = self.expected_target(command.class);
                if target is None || command.target != (target->0)@ {
                    Some(Refusal::WrongTarget)
                } else if command.counter <= operator.counter {
                    Some(Refusal::CounterReplayed)
                } else if command.counter - operator.counter > COUNTER_WINDOW {
                    Some(Refusal::CounterTooFar)
                } else if !ed25519_verifies(
                    operator.identity@.subrange(32, 64),
                    signed_bytes(envelope_part(b)),
                    signature_part(b),
                ) {
                    Some(Refusal::BadSignature)
                } else {
                    None
                }
            },
        }
    }

    /// With an operator's counter at a value.
    pub open spec fn with_counter(self, i: int, counter: u64) -> VerifierModel {
        VerifierModel {
            operators: self.operators.update(i, Operator { counter, ..self.operators[i] }),
            ..self
        }
    }

    /// After a command was judged: an accepted one advances its operator's counter, and a
    /// refused one changes nothing but the count.
    pub open spec fn after(self, b: Seq<u8>) -> VerifierModel {
        let command = spelled_command(b);
        match (self.refusal(b), operator_index(self.operators, command.key_id)) {
            (None, Some(i)) => VerifierModel {
                accepted: counted(self.accepted),
                ..self.with_counter(i, command.counter)
            },
            _ => VerifierModel { refusals: counted(self.refusals), ..self },
        }
    }
}

/// The one verifier every transport hands bytes to.
///
/// `N` bounds the allowlist at compile time, because a field node's tables are all bounded and
/// an allowlist that can grow is a table an attacker can grow.
pub struct Verifier<const N: usize> {
    node: AddressHash,
    fleet: Option<AddressHash>,
    operators: BoundedVec<Operator, N>,
    refusals: u32,
    accepted: u32,
}

impl<const N: usize> View for Verifier<N> {
    type V = VerifierModel;

    closed spec fn view(&self) -> VerifierModel {
        VerifierModel {
            node: self.node,
            fleet: self.fleet,
            operators: self.operators.view(),
            refusals: self.refusals,
            accepted: self.accepted,
        }
    }
}

/// The first operator with a key is within the part looked at, or after it.
proof fn lemma_operator_index(operators: Seq<Operator>, key_id: Seq<u8>, n: int)
    requires
        0 <= n <= operators.len(),
        operator_index(operators.subrange(0, n), key_id) is Some,
    ensures
        operator_index(operators, key_id) == operator_index(operators.subrange(0, n), key_id),
    decreases operators.len() - n,
{
    if n < operators.len() {
        let next = operators.subrange(0, n + 1);
        assert(next.drop_last() =~= operators.subrange(0, n));
        lemma_operator_index(operators, key_id, n + 1);
    } else {
        assert(operators.subrange(0, n) =~= operators);
    }
}

impl<const N: usize> Verifier<N> {
    /// A verifier for one node, in no fleet, trusting nobody yet.
    pub fn new(node: AddressHash) -> (verifier: Self)
        ensures
            verifier@ == (VerifierModel {
                node,
                fleet: None,
                operators: Seq::empty(),
                refusals: 0,
                accepted: 0,
            }),
    {
        Verifier { node, fleet: None, operators: BoundedVec::new(), refusals: 0, accepted: 0 }
    }

    /// Join a fleet, making [`TargetClass::Fleet`] commands for that id acceptable.
    pub fn join_fleet(&mut self, fleet: AddressHash)
        ensures
            final(self)@ == (VerifierModel { fleet: Some(fleet), ..old(self)@ }),
    {
        self.fleet = Some(fleet);
    }

    /// Where an operator stands in the allowlist.
    fn find(&self, key_id: AddressHash) -> (at: Option<usize>)
        ensures
            match at {
                Some(i) => i < self@.operators.len() && operator_index(
                    self@.operators,
                    key_id@,
                ) == Some(i as int),
                None => operator_index(self@.operators, key_id@) is None,
            },
    {
        let list = self.operators.items();
        let ghost all = self@.operators;
        let mut i: usize = 0;
        assert(all.subrange(0, 0) =~= Seq::<Operator>::empty());
        while i < list.len()
            invariant
                i <= list@.len(),
                list@ == all,
                all == self@.operators,
                operator_index(all.subrange(0, i as int), key_id@) is None,
            decreases list@.len() - i,
        {
            proof {
                let next = all.subrange(0, i + 1);
                assert(next.drop_last() =~= all.subrange(0, i as int));
                assert(next.last() == all[i as int]);
                AddressHash::lemma_bytes_decide(all[i as int].key_id, key_id);
            }
            if list[i].key_id == key_id {
                proof {
                    lemma_operator_index(all, key_id@, i + 1);
                }
                return Some(i);
            }
            i += 1;
        }
        assert(all.subrange(0, i as int) =~= all);
        None
    }

    /// Add an operator public key to the allowlist.
    ///
    /// Re-authorizing a key already present is idempotent and leaves its counter alone, so a
    /// configuration replay cannot reopen a replay window.
    pub fn authorize(&mut self, identity: Identity) -> (result: Result<(), Refusal>)
        ensures
            ({
                let known = operator_index(
                    old(self)@.operators,
                    address_of(identity@),
                ) is Some;
                match result {
                    Ok(()) => if known {
                        final(self)@ == old(self)@
                    } else {
                        old(self)@.operators.len() < N && final(self)@ == (VerifierModel {
                            operators: old(self)@.operators.push(
                                Operator {
                                    key_id: AddressHash::with(address_of(identity@)),
                                    identity,
                                    counter: 0,
                                },
                            ),
                            ..old(self)@
                        })
                    },
                    Err(e) => !known && e == Refusal::AllowlistFull && old(self)@.operators.len()
                        >= N && final(self)@ == old(self)@,
                }
            }),
    {
        let key_id = identity.hash();
        proof {
            AddressHash::lemma_with(key_id);
        }
        if self.find(key_id).is_some() {
            return Ok(());
        }
        match self.operators.push(Operator { key_id, identity, counter: 0 }) {
            Ok(()) => Ok(()),
            Err(_) => Err(Refusal::AllowlistFull),
        }
    }

    /// Drop an operator key. Returns whether it was there.
    pub fn revoke(&mut self, key_id: AddressHash) -> (known: bool)
        ensures
            match operator_index(old(self)@.operators, key_id@) {
                Some(i) => known && final(self)@ == (VerifierModel {
                    operators: old(self)@.operators.update(
                        i,
                        old(self)@.operators.last(),
                    ).drop_last(),
                    ..old(self)@
                }),
                None => !known && final(self)@ == old(self)@,
            },
    {
        match self.find(key_id) {
            Some(i) => {
                let _ = self.operators.swap_remove(i);
                true
            },
            None => false,
        }
    }

    /// The allowlist with its counters: what has to be made durable.
    pub fn ledger(&self) -> (operators: core::slice::Iter<'_, Operator>)
        ensures
            vstd::std_specs::slice::into_iter_elts(operators) == self@.operators,
    {
        let items = self.operators.items();
        let operators = items.iter();
        proof {
            vstd::std_specs::slice::axiom_spec_slice_iter(items);
            assert(vstd::std_specs::slice::into_iter_elts(operators) =~= items@);
        }
        operators
    }

    /// Restore a counter read back from durable storage. Returns whether the key is known.
    ///
    /// Only ever moves forward. A restore that tried to lower a counter would be a replay
    /// window handed out by the storage layer, so it is refused silently rather than obeyed.
    pub fn restore(&mut self, key_id: AddressHash, counter: u64) -> (known: bool)
        ensures
            match operator_index(old(self)@.operators, key_id@) {
                Some(i) => known && final(self)@ == old(self)@.with_counter(
                    i,
                    if counter > old(self)@.operators[i].counter {
                        counter
                    } else {
                        old(self)@.operators[i].counter
                    },
                ),
                None => !known && final(self)@ == old(self)@,
            },
    {
        match self.find(key_id) {
            Some(i) => {
                let mut operator = self.operators.items()[i];
                if counter > operator.counter {
                    operator.counter = counter;
                }
                self.operators.set(i, operator);
                true
            },
            None => false,
        }
    }

    /// Commands refused, for the counters-not-panics posture.
    pub fn refusals(&self) -> (n: u32)
        ensures
            n == self@.refusals,
    {
        self.refusals
    }

    /// Commands accepted.
    pub fn accepted(&self) -> (n: u32)
        ensures
            n == self@.accepted,
    {
        self.accepted
    }

    /// Verify a command and return the proof that may authorize a consumer to act.
    ///
    /// An unsigned flood costs lookups rather than curve operations. It cannot be made free:
    /// an attacker who knows a live key id and a plausible counter still forces one
    /// verification per attempt, which is a rate-limiting problem for the interface admission
    /// layer.
    pub fn verify<'a>(&mut self, source: &'a [u8]) -> (result: Result<
        VerifiedCommand<'a>,
        Refusal,
    >)
        ensures
            final(self)@ == old(self)@.after(source@),
            match result {
                Ok(command) => old(self)@.refusal(source@) is None && command@
                    == spelled_command(source@),
                Err(e) => old(self)@.refusal(source@) == Some(e),
            },
    {
        match self.check(source) {
            Ok(command) => {
                self.accepted = self.accepted.saturating_add(1);
                Ok(VerifiedCommand { command })
            },
            Err(refusal) => {
                self.refusals = self.refusals.saturating_add(1);
                Err(refusal)
            },
        }
    }

    /// Verify a command and project it into the command itself.
    ///
    /// This follows [`Self::verify`]'s single verification path; it does not parse, validate,
    /// or advance the counter a second time.
    pub fn accept<'a>(&mut self, source: &'a [u8]) -> (result: Result<Command<'a>, Refusal>)
        ensures
            final(self)@ == old(self)@.after(source@),
            match result {
                Ok(command) => old(self)@.refusal(source@) is None && command@
                    == spelled_command(source@),
                Err(e) => old(self)@.refusal(source@) == Some(e),
            },
    {
        match self.verify(source) {
            Ok(verified) => Ok(verified.into_command()),
            Err(e) => Err(e),
        }
    }

    /// Judge a command, and advance its operator's counter if it is accepted.
    fn check<'a>(&mut self, source: &'a [u8]) -> (result: Result<Command<'a>, Refusal>)
        ensures
            match result {
                Ok(command) => {
                    let at = operator_index(
                        old(self)@.operators,
                        spelled_command(source@).key_id,
                    );
                    &&& old(self)@.refusal(source@) is None
                    &&& command@ == spelled_command(source@)
                    &&& at is Some
                    &&& final(self)@ == old(self)@.with_counter(at->0, command.counter)
                },
                Err(e) => old(self)@.refusal(source@) == Some(e) && final(self)@ == old(self)@,
            },
    {
        let command = match Command::parse(source) {
            Ok(command) => command,
            Err(e) => {
                return Err(e);
            },
        };
        let at: usize = match self.find(command.key_id) {
            Some(at) => at,
            None => {
                return Err(Refusal::UnknownKey);
            },
        };
        let expected = match command.class {
            TargetClass::Node => self.node,
            TargetClass::Fleet => match self.fleet {
                Some(fleet) => fleet,
                None => {
                    return Err(Refusal::WrongTarget);
                },
            },
        };
        proof {
            AddressHash::lemma_bytes_decide(command.target, expected);
        }
        if command.target != expected {
            return Err(Refusal::WrongTarget);
        }
        let mut operator = self.operators.items()[at];
        if command.counter <= operator.counter {
            return Err(Refusal::CounterReplayed);
        }
        if command.counter - operator.counter > COUNTER_WINDOW {
            return Err(Refusal::CounterTooFar);
        }
        let split: usize = source.len() - SIGNATURE_LEN;
        let signature = bytes::array_at::<64>(source, split);
        let mut signed: BoundedVec<u8, MAX_SIGNED_LEN> = BoundedVec::new();
        let _ = signed.extend(&DOMAIN);
        let envelope = vstd::slice::slice_subrange(source, 0, split);
        let _ = signed.extend(envelope);
        assert(signed.view() =~= signed_bytes(envelope_part(source@)));
        if !operator.identity.verify(signed.as_slice(), &signature) {
            return Err(Refusal::BadSignature);
        }
        // Only now. A counter that advanced on an unverified command would let anyone
        // desynchronize an operator by shouting.
        operator.counter = command.counter;
        self.operators.set(at, operator);
        Ok(command)
    }
}

// ---------------------------------------------------------------------------------------
// Laws.
/// An operator that is found is in the allowlist, under that key.
proof fn lemma_operator_found(operators: Seq<Operator>, key_id: Seq<u8>)
    ensures
        operator_index(operators, key_id) matches Some(i) ==> 0 <= i < operators.len()
            && operators[i].key_id@ == key_id,
    decreases operators.len(),
{
    if operators.len() > 0 {
        lemma_operator_found(operators.drop_last(), key_id);
    }
}

/// Where operators stand depends on their keys alone.
proof fn lemma_index_by_keys(a: Seq<Operator>, b: Seq<Operator>, key_id: Seq<u8>)
    requires
        a.len() == b.len(),
        forall|i: int| 0 <= i < a.len() ==> (#[trigger] a[i]).key_id == b[i].key_id,
    ensures
        operator_index(a, key_id) == operator_index(b, key_id),
    decreases a.len(),
{
    if a.len() > 0 {
        assert forall|i: int| 0 <= i < a.len() - 1 implies (#[trigger] a.drop_last()[i]).key_id
            == b.drop_last()[i].key_id by {
            assert(a[i].key_id == b[i].key_id);
        }
        lemma_index_by_keys(a.drop_last(), b.drop_last(), key_id);
    }
}

/// What a signer sends spells the command, under the signer's own hash, whatever key the
/// command named before; and an operator's node with that operator on its allowlist, that is
/// its target, and whose window holds the counter, accepts it wherever the signature stands.
pub proof fn law_signed_command_is_accepted(
    verifier: VerifierModel,
    command: Command,
    secret: Seq<u8>,
)
    requires
        command.payload@.len() <= MAX_PAYLOAD,
    ensures
        ({
            let sent = sent_form(command@, secret);
            let envelope = command@.from_signer(secret).envelope();
            &&& sent.len() == HEADER_LEN + command.payload@.len() + SIGNATURE_LEN
            &&& shape_fault(sent) is None
            &&& spelled_command(sent) == command@.from_signer(secret)
            &&& verifier.awaits(command@, secret) && ed25519_verifies(
                public_of(secret).subrange(32, 64),
                signed_bytes(envelope),
                ed25519_signature(secret.subrange(32, 64), signed_bytes(envelope))@,
            ) ==> verifier.refusal(sent) is None
        }),
{
    let model = command@.from_signer(secret);
    let sent = sent_form(command@, secret);
    let envelope = model.envelope();
    let n = command.payload@.len();
    AddressHash::lemma_bytes_decide(command.target, command.target);
    bytes::lemma_be_bytes(command.counter as nat, 8);
    bytes::lemma_be_bytes(n, 2);
    bytes::lemma_pow256_widths();
    assert(model.key_id.len() == 16);
    assert(envelope.len() == HEADER_LEN + n);
    assert(sent.len() == HEADER_LEN + n + 64);
    assert(envelope_part(sent) =~= envelope);
    assert(signature_part(sent) =~= ed25519_signature(
        secret.subrange(32, 64),
        signed_bytes(envelope),
    )@);
    assert(sent.subrange(43, 45) =~= be_bytes(n, 2));
    assert(sent.subrange(34, 42) =~= be_bytes(command.counter as nat, 8));
    assert(sent.subrange(2, 18) =~= model.key_id);
    assert(sent.subrange(18, 34) =~= model.target);
    assert(sent[42] == model.opcode);
    assert(sent.subrange(45, sent.len() - 64) =~= model.payload);
    assert(sent[1] == model.class.spelled());
}

/// No replay: once a command was accepted, the same bytes are refused, and so is any other
/// command of that operator whose counter is not above it.
pub proof fn law_accepted_counter_is_spent(verifier: VerifierModel, b: Seq<u8>, again: Seq<u8>)
    requires
        verifier.refusal(b) is None,
        spelled_command(again).key_id == spelled_command(b).key_id,
        spelled_command(again).counter <= spelled_command(b).counter,
    ensures
        verifier.after(b).refusal(again) is Some,
        again == b ==> verifier.after(b).refusal(again) == Some(Refusal::CounterReplayed),
{
    let key_id = spelled_command(b).key_id;
    lemma_operator_found(verifier.operators, key_id);
    lemma_index_by_keys(verifier.operators, verifier.after(b).operators, key_id);
}

/// A refused command changes nothing but the count of refusals: nobody can desynchronize an
/// operator by shouting.
pub proof fn law_refusal_changes_nothing(verifier: VerifierModel, b: Seq<u8>)
    requires
        verifier.refusal(b) is Some,
    ensures
        verifier.after(b) == (VerifierModel { refusals: counted(verifier.refusals), ..verifier }),
{
}

/// An operator's counter never goes back, and one command moves it by at most the window, so
/// no single command can lock its operator out.
pub proof fn law_counters_only_advance(verifier: VerifierModel, b: Seq<u8>, i: int)
    requires
        0 <= i < verifier.operators.len(),
    ensures
        verifier.after(b).operators.len() == verifier.operators.len(),
        verifier.operators[i].counter <= verifier.after(b).operators[i].counter
            <= verifier.operators[i].counter + COUNTER_WINDOW,
        verifier.after(b).operators[i].key_id == verifier.operators[i].key_id,
        verifier.after(b).operators[i].identity == verifier.operators[i].identity,
{
    lemma_operator_found(verifier.operators, spelled_command(b).key_id);
}

/// The first operator with a key id.
pub open spec fn first_operator(operators: Seq<Operator>, key_id: Seq<u8>, i: int) -> bool {
    &&& 0 <= i < operators.len()
    &&& operators[i].key_id@ == key_id
    &&& forall|j: int| 0 <= j < i ==> (#[trigger] operators[j]).key_id@ != key_id
}

/// An operator is found where the first with its key id stands.
pub proof fn law_operator_is_found(operators: Seq<Operator>, key_id: Seq<u8>)
    ensures
        match operator_index(operators, key_id) {
            Some(i) => first_operator(operators, key_id, i),
            None => forall|j: int|
                0 <= j < operators.len() ==> (#[trigger] operators[j]).key_id@ != key_id,
        },
    decreases operators.len(),
{
    if operators.len() > 0 {
        let front = operators.drop_last();
        law_operator_is_found(front, key_id);
        assert forall|j: int| 0 <= j < front.len() implies #[trigger] operators[j] == front[j] by {}
        match operator_index(front, key_id) {
            Some(i) => {
                assert(operators[i] == front[i]);
            },
            None => {
                assert forall|j: int| 0 <= j < front.len() implies (
                #[trigger] operators[j]).key_id@ != key_id by {
                    assert(front[j].key_id@ != key_id);
                }
            },
        }
    }
}

/// A command is refused for the first thing wrong with it, in this order: its shape, its
/// version, its class, its length, its key, its target, its counter and its signature. Anything
/// with nothing wrong is accepted.
pub proof fn law_command_is_refused_for_its_first_fault(verifier: VerifierModel, b: Seq<u8>, i: int)
    requires
        b.len() >= 45 + 64,
    ensures
        ({
            let len = be_value(b.subrange(43, 45));
            let counter = be_value(b.subrange(34, 42));
            let shaped = b[0] == 1 && b[1] <= 1 && len <= 256 && b.len() == 45 + len + 64;
            let key = b.subrange(2, 18);
            let operator = verifier.operators[i];
            let known = first_operator(verifier.operators, key, i);
            let target = if b[1] == 0 {
                Some(verifier.node)
            } else {
                verifier.fleet
            };
            let aimed = target is Some && (target->0)@ == b.subrange(18, 34);
            let signed = ed25519_verifies(
                operator.identity@.subrange(32, 64),
                DOMAIN@ + b.subrange(0, b.len() - 64),
                b.subrange(b.len() - 64, b.len() as int),
            );
            let refusal = verifier.refusal(b);
            &&& b[0] != 1 ==> refusal == Some(Refusal::UnknownVersion)
            &&& b[0] == 1 && b[1] > 1 ==> refusal == Some(Refusal::Malformed)
            &&& b[0] == 1 && b[1] <= 1 && len > 256 ==> refusal == Some(Refusal::PayloadTooLong)
            &&& b[0] == 1 && b[1] <= 1 && len <= 256 && b.len() != 45 + len + 64 ==> refusal
                == Some(Refusal::Malformed)
            &&& shaped && (forall|j: int|
                0 <= j < verifier.operators.len() ==> (#[trigger] verifier.operators[j]).key_id@
                    != key) ==> refusal == Some(Refusal::UnknownKey)
            &&& shaped && known && !aimed ==> refusal == Some(Refusal::WrongTarget)
            &&& shaped && known && aimed && counter <= operator.counter ==> refusal == Some(
                Refusal::CounterReplayed,
            )
            &&& shaped && known && aimed && counter > operator.counter + 4096 ==> refusal == Some(
                Refusal::CounterTooFar,
            )
            &&& shaped && known && aimed && operator.counter < counter <= operator.counter + 4096
                && !signed ==> refusal == Some(Refusal::BadSignature)
            &&& shaped && known && aimed && operator.counter < counter <= operator.counter + 4096
                && signed ==> refusal is None
        }),
{
    let key = b.subrange(2, 18);
    law_operator_is_found(verifier.operators, key);
    bytes::lemma_be_value_bound(b.subrange(34, 42));
    bytes::lemma_pow256_widths();
    if first_operator(verifier.operators, key, i) {
        let at = operator_index(verifier.operators, key);
        if at is Some && at->0 != i {
            if at->0 < i {
                assert(verifier.operators[at->0].key_id@ != key);
            } else {
                assert(verifier.operators[i].key_id@ != key);
            }
        }
    }
}

/// An accepted command spends its counter and is counted; every other operator keeps theirs,
/// and nothing else changes. A refused one is only counted.
pub proof fn law_acceptance_spends_one_counter(verifier: VerifierModel, b: Seq<u8>, i: int)
    requires
        verifier.accepted < u32::MAX,
        verifier.refusals < u32::MAX,
        first_operator(verifier.operators, b.subrange(2, 18), i),
    ensures
        ({
            let after = verifier.after(b);
            let operator = verifier.operators[i];
            &&& verifier.refusal(b) is None ==> {
                &&& after.operators.len() == verifier.operators.len()
                &&& after.operators[i].counter == be_value(b.subrange(34, 42))
                &&& after.operators[i].key_id == operator.key_id
                &&& after.operators[i].identity == operator.identity
                &&& forall|j: int|
                    0 <= j < verifier.operators.len() && j != i ==> #[trigger] after.operators[j]
                        == verifier.operators[j]
                &&& after.accepted == verifier.accepted + 1
                &&& after.refusals == verifier.refusals
            }
            &&& verifier.refusal(b) is Some ==> after.operators == verifier.operators
                && after.accepted == verifier.accepted && after.refusals == verifier.refusals + 1
            &&& after.node == verifier.node
            &&& after.fleet == verifier.fleet
        }),
{
    let key = b.subrange(2, 18);
    law_operator_is_found(verifier.operators, key);
    bytes::lemma_be_value_bound(b.subrange(34, 42));
    bytes::lemma_pow256_widths();
    let at = operator_index(verifier.operators, key);
    if at is Some && at->0 != i {
        if at->0 < i {
            assert(verifier.operators[at->0].key_id@ != key);
        } else {
            assert(verifier.operators[i].key_id@ != key);
        }
    }
}

/// Where everything stands in a command: the version, the class, sixteen bytes each of the key
/// id and the target, eight of the counter, the opcode, two of the payload's length, and the
/// payload. The signature behind it covers the domain and all of that.
pub proof fn law_command_layout(command: CommandModel, secret: Seq<u8>)
    requires
        command.key_id.len() == 16,
        command.target.len() == 16,
        command.payload.len() <= 256,
    ensures
        ({
            let e = command.envelope();
            &&& e.len() == 45 + command.payload.len()
            &&& e[0] == 1
            &&& e[1] == (if command.class == TargetClass::Node {
                0int
            } else {
                1
            })
            &&& e.subrange(2, 18) == command.key_id
            &&& e.subrange(18, 34) == command.target
            &&& be_value(e.subrange(34, 42)) == command.counter
            &&& e[42] == command.opcode
            &&& be_value(e.subrange(43, 45)) == command.payload.len()
            &&& e.subrange(45, e.len() as int) == command.payload
            &&& signed_bytes(e) == DOMAIN@ + e
            &&& command.key_id == address_of(public_of(secret)) ==> sent_form(command, secret) == e
                + ed25519_signature(secret.subrange(32, 64), DOMAIN@ + e)@
        }),
{
    let e = command.envelope();
    let counter = bytes::be_bytes(command.counter as nat, 8);
    let len = bytes::be_bytes(command.payload.len(), 2);
    bytes::lemma_be_bytes(command.counter as nat, 8);
    bytes::lemma_be_bytes(command.payload.len(), 2);
    bytes::lemma_pow256_widths();
    assert(e.subrange(2, 18) =~= command.key_id);
    assert(e.subrange(18, 34) =~= command.target);
    assert(e.subrange(34, 42) =~= counter);
    assert(e.subrange(43, 45) =~= len);
    assert(e.subrange(45, e.len() as int) =~= command.payload);
}

/// An operator is authorized once: a new one starts at counter zero while there is room, a
/// known one stays as it is, and a full list refuses a new one.
pub proof fn law_operator_is_authorized_once<const N: usize>(
    verifier: &mut Verifier<N>,
    identity: Identity,
    result: Result<(), Refusal>,
    hash: AddressHash,
)
    requires
        call_ensures(Verifier::<N>::authorize, (verifier, identity), result),
        hash@ == address_of(identity@),
    ensures
        ({
            let before = old(verifier)@;
            let after = final(verifier)@;
            let known = exists|i: int| first_operator(before.operators, hash@, i);
            &&& known ==> result is Ok && after == before
            &&& !known && before.operators.len() >= N ==> result == Err::<(), Refusal>(
                Refusal::AllowlistFull,
            ) && after == before
            &&& !known && before.operators.len() < N ==> {
                &&& result is Ok
                &&& after.operators == before.operators.push(
                    Operator { key_id: hash, identity, counter: 0 },
                )
                &&& after == (VerifierModel { operators: after.operators, ..before })
            }
        }),
{
    AddressHash::lemma_with(hash);
    let operators = old(verifier)@.operators;
    law_operator_is_found(operators, hash@);
    match operator_index(operators, hash@) {
        Some(i) => {
            assert(first_operator(operators, hash@, i));
        },
        None => {
            assert forall|i: int| !first_operator(operators, hash@, i) by {
                if 0 <= i < operators.len() {
                    assert(operators[i].key_id@ != hash@);
                }
            }
        },
    }
}

/// Restoring an operator's counter never moves it back, and touches no other.
pub proof fn law_restored_counter_never_moves_back<const N: usize>(
    verifier: &mut Verifier<N>,
    key_id: AddressHash,
    counter: u64,
    known: bool,
    i: int,
)
    requires
        call_ensures(Verifier::<N>::restore, (verifier, key_id, counter), known),
        first_operator(old(verifier)@.operators, key_id@, i),
    ensures
        known,
        final(verifier)@.operators.len() == old(verifier)@.operators.len(),
        final(verifier)@.operators[i].counter >= old(verifier)@.operators[i].counter,
        final(verifier)@.operators[i].counter >= counter,
        final(verifier)@.operators[i].counter == old(verifier)@.operators[i].counter
            || final(verifier)@.operators[i].counter == counter,
        forall|j: int|
            0 <= j < old(verifier)@.operators.len() && j != i
                ==> #[trigger] final(verifier)@.operators[j] == old(verifier)@.operators[j],
{
    lemma_first_is_found(old(verifier)@.operators, key_id@, i);
}

/// Revoking an operator takes that one out and leaves every other.
pub proof fn law_revoked_operator_is_gone<const N: usize>(
    verifier: &mut Verifier<N>,
    key_id: AddressHash,
    known: bool,
    i: int,
    j: int,
)
    requires
        call_ensures(Verifier::<N>::revoke, (verifier, key_id), known),
        first_operator(old(verifier)@.operators, key_id@, i),
    ensures
        known,
        final(verifier)@.operators.len() == old(verifier)@.operators.len() - 1,
        0 <= j < old(verifier)@.operators.len() && j != i
            ==> final(verifier)@.operators.contains(old(verifier)@.operators[j]),
{
    lemma_first_is_found(old(verifier)@.operators, key_id@, i);
    let before = old(verifier)@.operators;
    let after = final(verifier)@.operators;
    if 0 <= j < before.len() && j != i {
        let at = if j == before.len() - 1 {
            i
        } else {
            j
        };
        assert(after[at] == before[j]);
    }
}

/// The first operator is the one found.
proof fn lemma_first_is_found(operators: Seq<Operator>, key_id: Seq<u8>, i: int)
    requires
        first_operator(operators, key_id, i),
    ensures
        operator_index(operators, key_id) == Some(i),
{
    law_operator_is_found(operators, key_id);
    let at = operator_index(operators, key_id);
    if at is Some && at->0 != i {
        if at->0 < i {
            assert(operators[at->0].key_id@ != key_id);
        } else {
            assert(operators[i].key_id@ != key_id);
        }
    }
}

} // verus!
