//! The decisions of link setup, reliable streams and resource sessions.
//!
//! Each session is driven by its owner: it waits for a packet, a timer or the application,
//! has the link layer read what came in, and does what these functions say. Nothing here
//! waits or sends.

use std::time::Duration;
use vstd::prelude::*;
use vstd::string::StringExecFns;

use crate::bytes;
use crate::endpoint::router::hash_of;
use crate::hash::AddressHash;
use crate::identity::Identity;
use crate::packet::{Packet, PacketModel, PacketType, ENCRYPTED_MDU, HEADER_MIN_LEN, MDU};
use crate::text::{append_decimal, decimal};
use crate::time::whole_millis;

verus! {

/// What a context byte says of channel data.
pub const CTX_CHANNEL: u8 = 0x0e;

/// What a context byte says of a peer that identifies itself.
pub const CTX_LINKIDENTIFY: u8 = 0xfb;

/// What a context byte says of a link that closes.
pub const CTX_LINKCLOSE: u8 = 0xfc;

/// What encrypting a token adds to its padded plaintext: the initialization vector and the
/// HMAC.
pub const TOKEN_OVERHEAD: usize = 48;

/// Largest plaintext chunk per link data packet. Kept under the most one packet encrypts, so
/// the encrypted token plus header always fits the MTU.
pub const WRITE_CHUNK: usize = 367;

/// The reliable driver's clock period in milliseconds.
pub const RELIABLE_TICK_MS: u64 = 50;

/// How many times an initiator sends its IDENTIFY over the opening ticks. A single drop would
/// leave the responder unable to validate our proofs, and the wire protocol has no IDENTIFY
/// ack, so it is re-sent a bounded few times.
pub const IDENTIFY_MAX_SENDS: u32 = 4;

/// How many copies of a completed resource receipt are queued beyond the first. Resource
/// proofs have no acknowledgement of their own, so a single lost proof otherwise leaves the
/// publisher waiting after the receiver has already recovered the data.
pub const RESOURCE_PROOF_REPLAYS: u32 = 3;

/// How long link setup waits for a proof before giving up, in milliseconds.
pub const LINK_SETUP_TIMEOUT_MS: u64 = 15_000;

/// Maximum resource parts one hash map names.
pub const HASHMAP_MAX_PARTS: usize = 74;

// ---------------------------------------------------------------------------------------
// Payload sizes.
/// The most plaintext of a stream that one packet carries at an MTU.
pub open spec fn chunk_for(mtu: u32) -> int {
    let room = if mtu < HEADER_MIN_LEN {
        0
    } else if mtu - HEADER_MIN_LEN > MDU {
        MDU as int
    } else {
        mtu - HEADER_MIN_LEN
    };
    let blocks = (if room < TOKEN_OVERHEAD {
        0
    } else {
        room - TOKEN_OVERHEAD
    }) / 16;
    if blocks * 16 - 1 < 1 {
        1
    } else if blocks * 16 - 1 > WRITE_CHUNK {
        WRITE_CHUNK as int
    } else {
        blocks * 16 - 1
    }
}

/// Largest best-effort stream plaintext whose padded encrypted token and Reticulum header fit
/// the MTU negotiated for a link.
///
/// CBC always adds at least one padding byte and rounds to a 16-byte block. The ordinary
/// 500-byte path keeps its conservative ceiling, while radio links shrink enough that an
/// interface never has to reject a packet whose bytes were already accepted.
pub fn write_chunk_for_mtu(mtu: u32) -> (chunk: usize)
    ensures
        chunk == chunk_for(mtu),
        1 <= chunk <= WRITE_CHUNK,
{
    let above: usize = (mtu as usize).saturating_sub(HEADER_MIN_LEN);
    let payload_room: usize = if above > MDU {
        MDU
    } else {
        above
    };
    let ciphertext_room: usize = payload_room.saturating_sub(TOKEN_OVERHEAD);
    let padded_plaintext: usize = (ciphertext_room / 16) * 16;
    let plaintext: usize = padded_plaintext.saturating_sub(1);
    if plaintext < 1 {
        1
    } else if plaintext > WRITE_CHUNK {
        WRITE_CHUNK
    } else {
        plaintext
    }
}

/// What a chunk becomes on the wire fits the MTU it was sized for: padded to whole blocks,
/// with the token's overhead and the shortest header. The one byte that is always allowed
/// fits wherever one block does.
pub proof fn law_chunk_fits_its_mtu(mtu: u32, len: int)
    requires
        HEADER_MIN_LEN + TOKEN_OVERHEAD + 16 <= mtu,
        0 <= len <= chunk_for(mtu),
    ensures
        HEADER_MIN_LEN + TOKEN_OVERHEAD + (len / 16 + 1) * 16 <= mtu,
        len <= ENCRYPTED_MDU,
{
}

/// The wire form selected for one payload on a link.
#[derive(Clone, Copy, Debug, PartialEq, Eq, Structural)]
pub enum PayloadMode {
    /// One encrypted link data packet.
    Data,
    /// A segmented, proved Resource transfer.
    Resource,
}

/// The form that fits the negotiated link: a payload that fits one encrypted packet takes the
/// low-overhead path, and a larger one a Resource. A logical message is never split into
/// several independent packets.
pub fn payload_mode(len: usize, mtu: u32) -> (mode: PayloadMode)
    ensures
        mode == (if len <= chunk_for(mtu) {
            PayloadMode::Data
        } else {
            PayloadMode::Resource
        }),
{
    if len <= write_chunk_for_mtu(mtu) {
        PayloadMode::Data
    } else {
        PayloadMode::Resource
    }
}

/// Runtime policy for an endpoint-driven resource transfer.
#[derive(Clone, Copy, Debug)]
pub struct ResourceTransferConfig {
    /// Maximum time allowed for the complete transfer.
    pub timeout: Duration,
    /// Interval between advertisement or request retransmissions.
    pub retry_interval: Duration,
    /// Maximum resource parts requested in one half-duplex turn.
    pub request_window: usize,
}

impl Default for ResourceTransferConfig {
    fn default() -> (config: Self)
        ensures
            whole_millis(config.timeout) == 30_000,
            whole_millis(config.retry_interval) == 500,
            config.request_window == HASHMAP_MAX_PARTS,
    {
        ResourceTransferConfig {
            timeout: Duration::from_secs(30),
            retry_interval: Duration::from_millis(500),
            request_window: HASHMAP_MAX_PARTS,
        }
    }
}

// ---------------------------------------------------------------------------------------
// Reliable streams.
/// What a reliable driver does with a packet for its link.
#[derive(Clone, Copy, Debug, PartialEq, Eq, Structural)]
pub enum PacketAction {
    /// Release the sequence it proves.
    TakeProof,
    /// Prove it and deliver what it completes.
    TakeData,
    /// Learn the peer's identity.
    TakeIdentify,
    /// End the stream.
    Close,
    /// Nothing.
    Ignore,
}

/// What a reliable driver does with a packet.
pub open spec fn action_for(packet: PacketModel) -> PacketAction {
    if packet.packet_type == PacketType::Proof {
        PacketAction::TakeProof
    } else if packet.context == CTX_CHANNEL {
        PacketAction::TakeData
    } else if packet.context == CTX_LINKIDENTIFY {
        PacketAction::TakeIdentify
    } else if packet.context == CTX_LINKCLOSE {
        PacketAction::Close
    } else {
        PacketAction::Ignore
    }
}

/// What a reliable driver does with a packet for its link.
pub fn packet_action(packet: &Packet) -> (action: PacketAction)
    ensures
        action == action_for(packet@),
{
    if packet.packet_type == PacketType::Proof {
        PacketAction::TakeProof
    } else if packet.context == CTX_CHANNEL {
        PacketAction::TakeData
    } else if packet.context == CTX_LINKIDENTIFY {
        PacketAction::TakeIdentify
    } else if packet.context == CTX_LINKCLOSE {
        PacketAction::Close
    } else {
        PacketAction::Ignore
    }
}

/// What a reliable stream's driver keeps between events: application bytes the bounded send
/// queue has not accepted yet, whether the end of the stream still needs queueing, which
/// sides are done, the clock, and how often it identified itself.
///
/// Holding the bytes is what keeps backpressure from silently becoming data loss.
pub struct ReliableDriver {
    pending: Vec<u8>,
    finish_pending: bool,
    writer_open: bool,
    peer_done: bool,
    clock: u64,
    identifies: bool,
    identify_sends: u32,
}

/// The state of a reliable stream's driver.
pub struct DriverModel {
    pub pending: Seq<u8>,
    pub finish_pending: bool,
    pub writer_open: bool,
    pub peer_done: bool,
    pub clock: u64,
    pub identifies: bool,
    pub identify_sends: u32,
}

impl DriverModel {
    /// A driver that has just begun. An initiator has identified itself once.
    pub open spec fn begun(initiator: bool) -> DriverModel {
        DriverModel {
            pending: Seq::empty(),
            finish_pending: false,
            writer_open: true,
            peer_done: false,
            clock: 0,
            identifies: initiator,
            identify_sends: 1,
        }
    }

    /// Whether the application is to be read: its side is open, and what it wrote last was
    /// accepted in full.
    pub open spec fn wants_read(self) -> bool {
        self.writer_open && self.pending.len() == 0
    }

    /// After the application closed its side.
    pub open spec fn after_app_closed(self) -> DriverModel {
        DriverModel { finish_pending: true, writer_open: false, ..self }
    }

    /// After the application wrote a chunk of which some bytes were accepted.
    pub open spec fn after_app_wrote(self, chunk: Seq<u8>, accepted: int) -> DriverModel {
        DriverModel {
            pending: self.pending + chunk.subrange(accepted, chunk.len() as int),
            ..self
        }
    }

    /// After some of the pending bytes were accepted.
    pub open spec fn after_accepted(self, accepted: int) -> DriverModel {
        DriverModel {
            pending: self.pending.subrange(accepted, self.pending.len() as int),
            ..self
        }
    }

    /// Whether the end of the stream is to be queued now: behind every byte.
    pub open spec fn wants_finish(self) -> bool {
        self.finish_pending && self.pending.len() == 0
    }

    /// Whether a tick identifies this side again.
    pub open spec fn identifies_again(self) -> bool {
        self.identifies && self.identify_sends < IDENTIFY_MAX_SENDS
    }

    /// After a tick of the clock.
    pub open spec fn after_tick(self) -> DriverModel {
        DriverModel {
            clock: if self.clock + RELIABLE_TICK_MS <= u64::MAX {
                (self.clock + RELIABLE_TICK_MS) as u64
            } else {
                u64::MAX
            },
            identify_sends: if self.identifies_again() {
                (self.identify_sends + 1) as u32
            } else {
                self.identify_sends
            },
            ..self
        }
    }

    /// Whether the stream is fully done: our side finished sending, with everything including
    /// its end queued and proven, and the peer finished sending. This preserves half-close:
    /// after our write closes we keep delivering the peer's reply until it, too, ends.
    pub open spec fn is_done(self, send_idle: bool) -> bool {
        !self.writer_open && self.pending.len() == 0 && !self.finish_pending && self.peer_done
            && send_idle
    }
}

impl View for ReliableDriver {
    type V = DriverModel;

    closed spec fn view(&self) -> DriverModel {
        DriverModel {
            pending: self.pending@,
            finish_pending: self.finish_pending,
            writer_open: self.writer_open,
            peer_done: self.peer_done,
            clock: self.clock,
            identifies: self.identifies,
            identify_sends: self.identify_sends,
        }
    }
}

impl ReliableDriver {
    /// Begin to drive a stream. An initiator identifies itself, so the responder can validate
    /// its proofs.
    pub fn new(initiator: bool) -> (driver: Self)
        ensures
            driver@ == DriverModel::begun(initiator),
    {
        let driver = ReliableDriver {
            pending: Vec::new(),
            finish_pending: false,
            writer_open: true,
            peer_done: false,
            clock: 0,
            identifies: initiator,
            identify_sends: 1,
        };
        assert(driver@.pending =~= Seq::<u8>::empty());
        driver
    }

    /// Whether the application is to be read.
    pub fn wants_read(&self) -> (wants: bool)
        ensures
            wants == self@.wants_read(),
    {
        self.writer_open && self.pending.len() == 0
    }

    /// Note that the application closed its side.
    pub fn app_closed(&mut self)
        ensures
            final(self)@ == old(self)@.after_app_closed(),
    {
        self.finish_pending = true;
        self.writer_open = false;
    }

    /// Note how much of a chunk the application wrote was accepted. The rest is kept.
    pub fn app_wrote(&mut self, chunk: &[u8], accepted: usize)
        requires
            accepted <= chunk@.len(),
        ensures
            final(self)@ == old(self)@.after_app_wrote(chunk@, accepted as int),
    {
        let rest = bytes::copy_range(chunk, accepted, chunk.len());
        bytes::append(&mut self.pending, rest.as_slice());
    }

    /// The bytes to offer again before anything else is sent.
    pub fn pending(&self) -> (pending: &[u8])
        ensures
            pending@ == self@.pending,
    {
        self.pending.as_slice()
    }

    /// Note how many of the pending bytes were accepted.
    pub fn pending_accepted(&mut self, accepted: usize)
        requires
            accepted <= old(self)@.pending.len(),
        ensures
            final(self)@ == old(self)@.after_accepted(accepted as int),
    {
        let n: usize = self.pending.len();
        self.pending = bytes::copy_range(self.pending.as_slice(), accepted, n);
    }

    /// Whether the end of the stream is to be queued now.
    pub fn wants_finish(&self) -> (wants: bool)
        ensures
            wants == self@.wants_finish(),
    {
        self.finish_pending && self.pending.len() == 0
    }

    /// Note that the end of the stream was queued.
    pub fn finish_queued(&mut self)
        ensures
            final(self)@ == (DriverModel { finish_pending: false, ..old(self)@ }),
    {
        self.finish_pending = false;
    }

    /// Note that the peer's stream ended.
    pub fn peer_finished(&mut self)
        ensures
            final(self)@ == (DriverModel { peer_done: true, ..old(self)@ }),
    {
        self.peer_done = true;
    }

    /// Advance the clock. Returns whether to identify this side again, which survives early
    /// loss without ever spinning.
    pub fn tick(&mut self) -> (identify: bool)
        ensures
            identify == old(self)@.identifies_again(),
            final(self)@ == old(self)@.after_tick(),
    {
        self.clock = self.clock.saturating_add(RELIABLE_TICK_MS);
        if self.identifies && self.identify_sends < IDENTIFY_MAX_SENDS {
            self.identify_sends = self.identify_sends + 1;
            return true;
        }
        false
    }

    /// The clock, in milliseconds since the stream began.
    pub fn clock(&self) -> (clock: u64)
        ensures
            clock == self@.clock,
    {
        self.clock
    }

    /// Whether the stream is fully done and its link is to be closed.
    pub fn is_done(&self, send_idle: bool) -> (done: bool)
        ensures
            done == self@.is_done(send_idle),
    {
        !self.writer_open && self.pending.len() == 0 && !self.finish_pending && self.peer_done
            && send_idle
    }
}

/// Backpressure loses nothing and reorders nothing: what the application wrote is what was
/// accepted of it followed by what is pending, and accepting pending bytes takes them from
/// the front.
pub proof fn law_backpressure_loses_nothing(
    driver: DriverModel,
    chunk: Seq<u8>,
    accepted: int,
    again: int,
)
    requires
        driver.wants_read(),
        0 <= accepted <= chunk.len(),
        0 <= again <= chunk.len() - accepted,
    ensures
        ({
            let kept = driver.after_app_wrote(chunk, accepted);
            let later = kept.after_accepted(again);
            &&& chunk.subrange(0, accepted) + kept.pending == chunk
            &&& kept.pending.subrange(0, again) + later.pending == kept.pending
            &&& kept.pending.len() > 0 ==> !kept.wants_read()
        }),
{
    let kept = driver.after_app_wrote(chunk, accepted);
    let rest = chunk.subrange(accepted, chunk.len() as int);
    assert(driver.pending =~= Seq::<u8>::empty());
    assert(kept.pending =~= rest);
    assert(chunk.subrange(0, accepted) + rest =~= chunk);
    assert(rest.subrange(0, again) + rest.subrange(again, rest.len() as int) =~= rest);
}

/// Identifying is bounded: however long the stream lives, this side identifies itself at most
/// four times, the first included.
pub proof fn law_identify_is_bounded(driver: DriverModel)
    requires
        driver.identify_sends <= IDENTIFY_MAX_SENDS,
    ensures
        driver.after_tick().identify_sends <= IDENTIFY_MAX_SENDS,
        DriverModel::begun(driver.identifies).identify_sends <= IDENTIFY_MAX_SENDS,
{
}

/// The writer closing is not the same as everything being sent: a stream is not done while a
/// byte or its end waits, or while the peer still sends.
pub proof fn law_done_means_nothing_is_owed(driver: DriverModel, send_idle: bool)
    requires
        driver.is_done(send_idle),
    ensures
        driver.pending.len() == 0,
        !driver.finish_pending,
        !driver.writer_open,
        driver.peer_done,
        send_idle,
{
}

// ---------------------------------------------------------------------------------------
// Link setup.
/// What can happen while a link request awaits its proof.
#[derive(Clone, Copy, Debug, PartialEq, Eq, Structural)]
pub enum SetupEvent {
    /// The proof arrived and the link stands.
    Proved,
    /// Whoever would have handed the proof over is gone.
    Dropped,
    /// The retry interval passed.
    RetryDue,
    /// The setup timeout passed.
    DeadlinePassed,
    /// The endpoint ended.
    EndpointClosed,
}

/// What link setup does.
#[derive(Clone, Copy, Debug, PartialEq, Eq, Structural)]
pub enum SetupStep {
    /// Report the round trip time, so the responder activates the link, and use the link.
    Activate,
    /// Close the link that was proved: the endpoint takes no new work.
    CloseAndFail,
    /// Send the same request again.
    Resend,
    /// Give up: the setup was dropped.
    FailDropped,
    /// Give up: the setup timed out.
    FailTimedOut,
    /// Give up: the endpoint is closed.
    FailClosed,
}

/// What link setup does on an event.
pub open spec fn setup_step_for(event: SetupEvent, running: bool) -> SetupStep {
    match event {
        SetupEvent::Proved => if running {
            SetupStep::Activate
        } else {
            SetupStep::CloseAndFail
        },
        SetupEvent::Dropped => SetupStep::FailDropped,
        SetupEvent::RetryDue => SetupStep::Resend,
        SetupEvent::DeadlinePassed => SetupStep::FailTimedOut,
        SetupEvent::EndpointClosed => SetupStep::FailClosed,
    }
}

/// What link setup does on an event, while the endpoint runs or not.
pub fn setup_step(event: SetupEvent, running: bool) -> (step: SetupStep)
    ensures
        step == setup_step_for(event, running),
{
    match event {
        SetupEvent::Proved => if running {
            SetupStep::Activate
        } else {
            SetupStep::CloseAndFail
        },
        SetupEvent::Dropped => SetupStep::FailDropped,
        SetupEvent::RetryDue => SetupStep::Resend,
        SetupEvent::DeadlinePassed => SetupStep::FailTimedOut,
        SetupEvent::EndpointClosed => SetupStep::FailClosed,
    }
}

// ---------------------------------------------------------------------------------------
// Resource sessions.
/// Why a transfer or a request failed.
#[derive(Clone, Copy, Debug, PartialEq, Eq, Structural)]
pub enum TransferError {
    /// The link is closed.
    LinkClosed,
    /// The link that a request or its response goes over is closed.
    RequestLinkClosed,
    /// The receiver canceled a publish.
    CanceledByReceiver,
    /// The sender canceled a fetch.
    CanceledBySender,
    /// The sender canceled a response resource.
    ResponseCanceled,
    /// A response's envelope does not read.
    InvalidResponse,
    /// A response resource does not read.
    InvalidResource,
    /// A response resource answers another request than it was advertised for.
    RequestIdMismatch,
    /// A publish timed out after this many parts were served.
    TimedOutServing { parts: usize },
    /// A publish timed out after a request that matched no parts.
    TimedOutUnmatched,
    /// A publish timed out before any request.
    TimedOutUnrequested,
}

impl TransferError {
    /// What the error says.
    pub open spec fn words(self) -> Seq<char> {
        match self {
            TransferError::LinkClosed => "resource link closed"@,
            TransferError::RequestLinkClosed => "request link closed"@,
            TransferError::CanceledByReceiver => "resource publish canceled by receiver"@,
            TransferError::CanceledBySender => "resource fetch canceled by sender"@,
            TransferError::ResponseCanceled => "response resource canceled by sender"@,
            TransferError::InvalidResponse => "invalid response envelope"@,
            TransferError::InvalidResource => "invalid response resource"@,
            TransferError::RequestIdMismatch => "response Resource request id mismatch"@,
            TransferError::TimedOutServing { parts } => "resource publish timed out after serving "@
                + decimal(parts as nat) + " requested part(s)"@,
            TransferError::TimedOutUnmatched =>
                "resource publish timed out after receiver request matched no parts"@,
            TransferError::TimedOutUnrequested =>
                "resource publish timed out before receiver request"@,
        }
    }

    /// What went wrong, in words.
    pub fn message(&self) -> (text: String)
        ensures
            text@ == self.words(),
    {
        match self {
            TransferError::LinkClosed => String::from_str("resource link closed"),
            TransferError::RequestLinkClosed => String::from_str("request link closed"),
            TransferError::CanceledByReceiver => String::from_str(
                "resource publish canceled by receiver",
            ),
            TransferError::CanceledBySender => String::from_str(
                "resource fetch canceled by sender",
            ),
            TransferError::ResponseCanceled => String::from_str(
                "response resource canceled by sender",
            ),
            TransferError::InvalidResponse => String::from_str("invalid response envelope"),
            TransferError::InvalidResource => String::from_str("invalid response resource"),
            TransferError::RequestIdMismatch => String::from_str(
                "response Resource request id mismatch",
            ),
            TransferError::TimedOutServing { parts } => {
                let mut text = String::from_str("resource publish timed out after serving ");
                append_decimal(&mut text, *parts);
                text.append(" requested part(s)");
                text
            },
            TransferError::TimedOutUnmatched => String::from_str(
                "resource publish timed out after receiver request matched no parts",
            ),
            TransferError::TimedOutUnrequested => String::from_str(
                "resource publish timed out before receiver request",
            ),
        }
    }
}

/// One request received over a resource-capable link, before an application interprets its
/// MessagePack value.
#[derive(Clone, Debug)]
pub struct ReceivedRawRequest {
    /// Complete decrypted request structure.
    pub packed: Vec<u8>,
    /// Hash of the encrypted request packet, echoed by the response.
    pub request_id: AddressHash,
    /// Identity proven by a preceding link IDENTIFY, when present.
    pub peer: Option<Identity>,
}

/// One decrypted response before an application interprets its MessagePack value.
#[derive(Clone, Debug)]
pub struct ReceivedRawResponse {
    /// Complete decrypted response structure.
    pub packed: Vec<u8>,
    /// Request id read from the first response item.
    pub request_id: AddressHash,
}

/// One payload received over a resource-capable link.
#[derive(Clone, Debug)]
pub enum ReceivedPayload {
    /// One decrypted best-effort link packet.
    Data(Vec<u8>),
    /// One fully received, verified Resource.
    Resource(Vec<u8>),
}

/// What the link layer read in a packet for a link.
#[derive(Clone, Debug)]
pub enum Inbound {
    /// Plain link data.
    Data(Vec<u8>),
    /// A request.
    Request(Vec<u8>),
    /// A response, and the request id in its envelope if that reads.
    Response(Vec<u8>, Option<AddressHash>),
    /// The peer closes the link.
    Close,
    /// Anything else, or nothing that decrypts.
    Other,
}

/// Whether a publish has ended, after the sender handled a packet.
pub fn publish_progress(done: bool, canceled: bool) -> (end: Option<Result<(), TransferError>>)
    ensures
        end == (if done {
            Some(Ok::<(), TransferError>(()))
        } else if canceled {
            Some(Err::<(), TransferError>(TransferError::CanceledByReceiver))
        } else {
            None
        }),
{
    if done {
        Some(Ok(()))
    } else if canceled {
        Some(Err(TransferError::CanceledByReceiver))
    } else {
        None
    }
}

/// Whether a publish advertises again when its retry interval passed: until a request came.
pub fn publish_readvertises(has_started: bool) -> (again: bool)
    ensures
        again == !has_started,
{
    !has_started
}

/// Why a publish timed out: how far it came.
pub fn publish_timeout(served_parts: usize, has_started: bool) -> (error: TransferError)
    ensures
        error == (if served_parts > 0 {
            TransferError::TimedOutServing { parts: served_parts }
        } else if has_started {
            TransferError::TimedOutUnmatched
        } else {
            TransferError::TimedOutUnrequested
        }),
{
    if served_parts > 0 {
        TransferError::TimedOutServing { parts: served_parts }
    } else if has_started {
        TransferError::TimedOutUnmatched
    } else {
        TransferError::TimedOutUnrequested
    }
}

/// What comes next after a resource receiver handled a packet.
pub enum FetchStep {
    /// Wait for more.
    Continue,
    /// The data is complete: queue the proof again a few times, and return it.
    Complete(Vec<u8>),
    /// The transfer failed.
    Fail(TransferError),
}

/// What comes next in a fetch after the receiver handled a packet: complete data wins over a
/// cancellation.
pub fn fetch_progress(data: Option<Vec<u8>>, canceled: bool) -> (step: FetchStep)
    ensures
        match data {
            Some(d) => step matches FetchStep::Complete(out) && out@ == d@,
            None => if canceled {
                step == FetchStep::Fail(TransferError::CanceledBySender)
            } else {
                step == FetchStep::Continue
            },
        },
{
    match data {
        Some(d) => FetchStep::Complete(d),
        None => if canceled {
            FetchStep::Fail(TransferError::CanceledBySender)
        } else {
            FetchStep::Continue
        },
    }
}

/// What comes next in receiving one payload, after a packet was read.
pub enum ReceiveStep {
    /// Wait for the next packet: this one identified the peer.
    Continue,
    /// Return one data packet's plaintext.
    Deliver(Vec<u8>),
    /// Fail: the link is closed.
    Closed,
    /// Have the resource receiver handle the packet.
    HandToResource,
}

/// The wait for one payload, or for one request, on a link: who the peer has proved to be.
///
/// An IDENTIFY on a link is the sender telling us who it is, signed under the link. It is
/// what lets a receiver authenticate a first message from somebody it has never heard
/// announce.
pub struct PayloadWait {
    pub identified: Option<Identity>,
}

impl PayloadWait {
    /// Note what was read in a packet while waiting for a payload.
    pub fn on_packet(&mut self, identify: Option<Identity>, inbound: Inbound) -> (step: ReceiveStep)
        ensures
            final(self).identified == (if identify is Some {
                identify
            } else {
                old(self).identified
            }),
            match (identify, inbound) {
                (Some(_), _) => step == ReceiveStep::Continue,
                (None, Inbound::Data(d)) => step matches ReceiveStep::Deliver(out) && out@ == d@,
                (None, Inbound::Close) => step == ReceiveStep::Closed,
                _ => step == ReceiveStep::HandToResource,
            },
    {
        if identify.is_some() {
            self.identified = identify;
            return ReceiveStep::Continue;
        }
        match inbound {
            Inbound::Data(data) => ReceiveStep::Deliver(data),
            Inbound::Close => ReceiveStep::Closed,
            _ => ReceiveStep::HandToResource,
        }
    }

    /// Note what was read in a packet while waiting for a request. A request carries the
    /// packet's hash as its id, and who the peer has proved to be.
    pub fn on_request_packet(
        &mut self,
        packet: &Packet,
        identify: Option<Identity>,
        inbound: Inbound,
    ) -> (end: Option<Result<ReceivedRawRequest, TransferError>>)
        ensures
            final(self).identified == (if identify is Some {
                identify
            } else {
                old(self).identified
            }),
            match (identify, inbound) {
                (None, Inbound::Request(packed)) => end matches Some(Ok(request))
                    && request.packed@ == packed@ && request.request_id == hash_of(packet@)
                    && request.peer == old(self).identified,
                (None, Inbound::Close) => end == Some(
                    Err::<ReceivedRawRequest, TransferError>(TransferError::RequestLinkClosed),
                ),
                _ => end is None,
            },
    {
        if identify.is_some() {
            self.identified = identify;
            return None;
        }
        match inbound {
            Inbound::Request(packed) => {
                let request_id = packet.hash();
                proof {
                    AddressHash::lemma_with(request_id);
                }
                Some(Ok(ReceivedRawRequest { packed, request_id, peer: self.identified }))
            },
            Inbound::Close => Some(Err(TransferError::RequestLinkClosed)),
            _ => None,
        }
    }
}

/// What comes next in awaiting a response, after a packet was read.
pub enum ResponseStep {
    /// Return this response.
    Complete(ReceivedRawResponse),
    /// The request failed.
    Fail(TransferError),
    /// Have the resource receiver handle the packet.
    HandToResource,
}

/// What comes next in awaiting a response, after the resource receiver handled a packet.
pub enum ResourceResponseStep {
    /// Wait for more.
    Continue,
    /// Return this response.
    Complete(ReceivedRawResponse),
    /// It answers another request: start a new receiver and wait on.
    Restart,
    /// The request failed.
    Fail(TransferError),
}

/// The wait for the response to one request.
pub struct ResponseWait {
    pub request_id: AddressHash,
}

impl ResponseWait {
    /// Note what was read in a packet. A response to this request is the answer; one to
    /// another is no end.
    pub fn on_packet(&self, inbound: Inbound) -> (step: ResponseStep)
        ensures
            match inbound {
                Inbound::Response(packed, None) => step == ResponseStep::Fail(
                    TransferError::InvalidResponse,
                ),
                Inbound::Response(packed, Some(id)) => if id == self.request_id {
                    step matches ResponseStep::Complete(response) && response.packed@ == packed@
                        && response.request_id == id
                } else {
                    step == ResponseStep::HandToResource
                },
                Inbound::Close => step == ResponseStep::Fail(TransferError::RequestLinkClosed),
                _ => step == ResponseStep::HandToResource,
            },
    {
        match inbound {
            Inbound::Response(packed, response_id) => match response_id {
                Some(id) => if id == self.request_id {
                    ResponseStep::Complete(ReceivedRawResponse { packed, request_id: id })
                } else {
                    ResponseStep::HandToResource
                },
                None => ResponseStep::Fail(TransferError::InvalidResponse),
            },
            Inbound::Close => ResponseStep::Fail(TransferError::RequestLinkClosed),
            _ => ResponseStep::HandToResource,
        }
    }

    /// Note what the resource receiver has: its complete data with the request id that data
    /// reads as, and the request id it was advertised for.
    pub fn on_resource(
        &self,
        data: Option<Vec<u8>>,
        response_id: Option<AddressHash>,
        advertised: Option<AddressHash>,
        canceled: bool,
    ) -> (step: ResourceResponseStep)
        ensures
            match data {
                None => if canceled {
                    step == ResourceResponseStep::Fail(TransferError::ResponseCanceled)
                } else {
                    step == ResourceResponseStep::Continue
                },
                Some(packed) => match (response_id, advertised) {
                    (None, _) => step == ResourceResponseStep::Fail(
                        TransferError::InvalidResource,
                    ),
                    (Some(id), Some(promised)) if promised != id => step
                        == ResourceResponseStep::Fail(TransferError::RequestIdMismatch),
                    (Some(id), _) => if id == self.request_id {
                        step matches ResourceResponseStep::Complete(response)
                            && response.packed@ == packed@ && response.request_id == id
                    } else {
                        step == ResourceResponseStep::Restart
                    },
                },
            },
    {
        let packed = match data {
            Some(packed) => packed,
            None => {
                return if canceled {
                    ResourceResponseStep::Fail(TransferError::ResponseCanceled)
                } else {
                    ResourceResponseStep::Continue
                };
            },
        };
        let id = match response_id {
            Some(id) => id,
            None => {
                return ResourceResponseStep::Fail(TransferError::InvalidResource);
            },
        };
        if let Some(promised) = advertised {
            if promised != id {
                return ResourceResponseStep::Fail(TransferError::RequestIdMismatch);
            }
        }
        if id == self.request_id {
            ResourceResponseStep::Complete(ReceivedRawResponse { packed, request_id: id })
        } else {
            ResourceResponseStep::Restart
        }
    }
}

/// What became of a packet handed to the router's bounded queue.
#[derive(Clone, Copy, Debug, PartialEq, Eq, Structural)]
pub enum Handover {
    /// It is queued.
    Taken,
    /// The queue is momentarily full.
    Full,
    /// The endpoint is gone.
    Gone,
}

/// The account of one interface's inbound side.
pub struct DeliveryAccount {
    pub dropped: u64,
}

impl DeliveryAccount {
    /// Note what became of a packet. Returns whether the endpoint is still there, not whether
    /// the packet was queued: a full queue is backpressure, and dropping is the correct
    /// response, since upper layers retransmit. The drop is counted rather than silent.
    pub fn deliver(&mut self, handover: Handover) -> (alive: bool)
        ensures
            alive == (handover != Handover::Gone),
            final(self).dropped == (if handover == Handover::Full {
                old(self).dropped.wrapping_add(1)
            } else {
                old(self).dropped
            }),
    {
        match handover {
            Handover::Taken => true,
            Handover::Full => {
                self.dropped = self.dropped.wrapping_add(1);
                true
            },
            Handover::Gone => false,
        }
    }
}

} // verus!
