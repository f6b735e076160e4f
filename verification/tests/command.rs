//! Signed commands.

use retinue::command::{Command, Refusal, TargetClass, Verifier, COUNTER_WINDOW, MAX_PAYLOAD};
use retinue::{AddressHash, PrivateIdentity};

fn operator() -> PrivateIdentity {
    PrivateIdentity::from_secret_bytes(&[0x51; 64])
}

fn node() -> AddressHash {
    AddressHash::from_bytes([0x0A; 16])
}

fn fleet() -> AddressHash {
    AddressHash::from_bytes([0x0F; 16])
}

fn command(counter: u64, payload: &[u8]) -> Command<'_> {
    Command {
        key_id: AddressHash::from_bytes([0; 16]),
        class: TargetClass::Node,
        target: node(),
        counter,
        opcode: 7,
        payload,
    }
}

fn signed(counter: u64) -> Vec<u8> {
    command(counter, b"go")
        .sign(&operator())
        .unwrap()
        .as_slice()
        .to_vec()
}

fn trusting() -> Verifier<2> {
    let mut v: Verifier<2> = Verifier::new(node());
    v.authorize(*operator().public()).unwrap();
    v
}

#[test]
fn a_signed_command_is_accepted_once() {
    let mut v = trusting();
    let raw = signed(1);
    assert_eq!(raw.len(), 45 + 2 + 64);
    assert_eq!(&raw[..2], &[1, 0], "version and class");
    assert_eq!(&raw[2..18], operator().hash().as_slice());
    assert_eq!(&raw[18..34], node().as_slice());
    assert_eq!(&raw[34..42], &1u64.to_be_bytes());
    assert_eq!(&raw[42..47], &[7, 0, 2, b'g', b'o']);

    let accepted = v.verify(&raw).map(|c| {
        (
            c.key_id(),
            c.class(),
            c.target(),
            c.counter(),
            c.opcode(),
            c.payload().to_vec(),
        )
    });
    assert_eq!(
        accepted.ok(),
        Some((
            operator().hash(),
            TargetClass::Node,
            node(),
            1,
            7,
            b"go".to_vec()
        ))
    );
    assert_eq!(v.accept(&raw).err(), Some(Refusal::CounterReplayed));
    assert_eq!(v.accepted(), 1);
    assert_eq!(v.refusals(), 1);
    assert_eq!(v.ledger().map(|o| o.counter).collect::<Vec<_>>(), vec![1]);
}

#[test]
fn the_counter_has_a_window() {
    let mut v = trusting();
    assert_eq!(
        v.accept(&signed(COUNTER_WINDOW + 1)).err(),
        Some(Refusal::CounterTooFar)
    );
    assert!(v.accept(&signed(COUNTER_WINDOW)).is_ok());
    assert_eq!(
        v.accept(&signed(COUNTER_WINDOW)).err(),
        Some(Refusal::CounterReplayed)
    );
    assert!(v.accept(&signed(COUNTER_WINDOW + 1)).is_ok());
}

#[test]
fn a_refused_signature_does_not_advance_the_counter() {
    let mut v = trusting();
    let mut raw = signed(5);
    let last = raw.len() - 1;
    raw[last] ^= 1;
    assert_eq!(v.accept(&raw).err(), Some(Refusal::BadSignature));
    let mut changed = signed(5);
    changed[42] = 8;
    assert_eq!(v.accept(&changed).err(), Some(Refusal::BadSignature));
    assert!(v.accept(&signed(5)).is_ok());
}

#[test]
fn the_allowlist_is_asked_before_the_address() {
    let mut stranger: Verifier<2> = Verifier::new(AddressHash::from_bytes([0x0B; 16]));
    assert_eq!(stranger.accept(&signed(1)).err(), Some(Refusal::UnknownKey));
    stranger.authorize(*operator().public()).unwrap();
    assert_eq!(
        stranger.accept(&signed(1)).err(),
        Some(Refusal::WrongTarget)
    );
}

#[test]
fn a_fleet_command_is_for_members() {
    let mut v = trusting();
    let raw = Command {
        class: TargetClass::Fleet,
        target: fleet(),
        ..command(1, b"")
    }
    .sign(&operator())
    .unwrap();
    assert_eq!(v.accept(raw.as_slice()).err(), Some(Refusal::WrongTarget));
    v.join_fleet(AddressHash::from_bytes([1; 16]));
    assert_eq!(v.accept(raw.as_slice()).err(), Some(Refusal::WrongTarget));
    v.join_fleet(fleet());
    let accepted = v.accept(raw.as_slice()).unwrap();
    assert_eq!(accepted.class, TargetClass::Fleet);
    assert_eq!(accepted.payload, b"");
}

#[test]
fn malformed_commands_are_counted() {
    let mut v = trusting();
    let raw = signed(1);
    assert_eq!(v.accept(&raw[..108]).err(), Some(Refusal::Malformed));
    let mut version = raw.clone();
    version[0] = 2;
    assert_eq!(v.accept(&version).err(), Some(Refusal::UnknownVersion));
    let mut class = raw.clone();
    class[1] = 2;
    assert_eq!(v.accept(&class).err(), Some(Refusal::Malformed));
    let mut long = raw.clone();
    long[43] = 2;
    assert_eq!(v.accept(&long).err(), Some(Refusal::PayloadTooLong));
    let mut tail = raw.clone();
    tail.push(0);
    assert_eq!(v.accept(&tail).err(), Some(Refusal::Malformed));
    assert_eq!(v.refusals(), 5);
    assert!(v.accept(&raw).is_ok());
}

#[test]
fn payloads_are_bounded_when_signing() {
    let most = vec![0u8; MAX_PAYLOAD];
    assert!(command(1, &most).sign(&operator()).is_ok());
    let over = vec![0u8; MAX_PAYLOAD + 1];
    assert_eq!(
        command(1, &over).sign(&operator()).err(),
        Some(Refusal::PayloadTooLong)
    );
}

#[test]
fn the_allowlist_is_bounded_and_keeps_counters() {
    let mut v = trusting();
    assert!(v.accept(&signed(9)).is_ok());
    assert!(v.authorize(*operator().public()).is_ok(), "idempotent");
    assert_eq!(
        v.accept(&signed(9)).err(),
        Some(Refusal::CounterReplayed),
        "the counter stayed"
    );
    let second = PrivateIdentity::from_secret_bytes(&[0x52; 64]);
    let third = PrivateIdentity::from_secret_bytes(&[0x53; 64]);
    assert!(v.authorize(*second.public()).is_ok());
    assert_eq!(
        v.authorize(*third.public()).err(),
        Some(Refusal::AllowlistFull)
    );
    assert!(v.revoke(operator().hash()));
    assert!(!v.revoke(operator().hash()));
    assert!(v.authorize(*third.public()).is_ok());
    assert_eq!(v.accept(&signed(10)).err(), Some(Refusal::UnknownKey));
}

#[test]
fn a_restore_only_moves_forward() {
    let mut v = trusting();
    assert!(v.restore(operator().hash(), 50));
    assert!(v.restore(operator().hash(), 10));
    assert_eq!(v.accept(&signed(50)).err(), Some(Refusal::CounterReplayed));
    assert!(v.accept(&signed(51)).is_ok());
    assert!(!v.restore(node(), 1));
}
