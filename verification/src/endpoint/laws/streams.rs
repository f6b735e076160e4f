//! What an endpoint's streams, link setups and carrier frames do.

use vstd::prelude::*;

use crate::channel::laws::{law_envelope_is_taken_by_its_place, law_write_only_adds};
use crate::channel::FrameModel;
use crate::endpoint::reliable::{EventModel, StreamModel};
use crate::endpoint::sessions::{
    action_for, chunk_for, fetch_progress, payload_mode, publish_progress, publish_timeout,
    setup_step_for, DeliveryAccount, DriverModel, FetchStep, Handover, Inbound, PacketAction,
    PayloadMode, PayloadWait, ReceiveStep, ReceivedRawRequest, ResourceResponseStep, ResponseStep,
    ResponseWait, SetupEvent, SetupStep, TransferError,
};
use crate::endpoint::wire::{frame_error, frame_of, heard, logical};
use crate::hash::AddressHash;
use crate::identity::Identity;
use crate::ifac::IfacModel;
use crate::packet::{decode_error, Packet, PacketModel, PacketType};
use crate::Error;

verus! {

/// How many bytes a plaintext takes in a packet: padded by at least one byte to whole blocks,
/// with the token's overhead and the shortest header.
pub open spec fn takes(len: int) -> int {
    (len / 16 + 1) * 16 + 48 + 19
}

/// A chunk is as long as it can be: one byte more would not fit the link, nor the most that a
/// packet carries, unless it is at the ceiling.
pub proof fn law_chunk_is_the_longest_that_fits(mtu: u32)
    ensures
        1 <= chunk_for(mtu) <= 367,
        chunk_for(mtu) > 1 ==> takes(chunk_for(mtu)) <= mtu,
        chunk_for(mtu) < 367 ==> takes(chunk_for(mtu) + 1) > mtu,
        mtu >= 435 ==> chunk_for(mtu) == 367,
{
}

/// A driver tells packets apart: a proof is one whatever its context, and of the others the
/// context says whether they carry data, identify the peer or close the link.
pub proof fn law_packet_is_told_by_type_and_context(packet: PacketModel)
    ensures
        action_for(packet) == PacketAction::TakeProof <==> packet.packet_type == PacketType::Proof,
        packet.packet_type != PacketType::Proof ==> {
            &&& action_for(packet) == PacketAction::TakeData <==> packet.context == 0x0e
            &&& action_for(packet) == PacketAction::TakeIdentify <==> packet.context == 0xfb
            &&& action_for(packet) == PacketAction::Close <==> packet.context == 0xfc
            &&& action_for(packet) == PacketAction::Ignore <==> packet.context != 0x0e
                && packet.context != 0xfb && packet.context != 0xfc
        },
{
}

/// A driver begins with an open side, nothing pending and one identify sent. A tick moves its
/// clock by fifty and, of an initiator that has sent fewer than four, identifies it again. The
/// application closing its side leaves the end of the stream to queue. Nothing else changes.
pub proof fn law_driver_moves_step_by_step(driver: DriverModel, initiator: bool)
    requires
        driver.clock <= u64::MAX - 50,
    ensures
        ({
            let first = DriverModel::begun(initiator);
            let ticked = driver.after_tick();
            let closed = driver.after_app_closed();
            let again = driver.identifies && driver.identify_sends < 4;
            &&& first.pending.len() == 0 && !first.finish_pending && first.writer_open
            &&& !first.peer_done && first.clock == 0 && first.identify_sends == 1
            &&& first.identifies == initiator
            &&& driver.identifies_again() == again
            &&& ticked == (DriverModel {
                clock: (driver.clock + 50) as u64,
                identify_sends: if again {
                    (driver.identify_sends + 1) as u32
                } else {
                    driver.identify_sends
                },
                ..driver
            })
            &&& closed == (DriverModel { finish_pending: true, writer_open: false, ..driver })
            &&& driver.wants_read() <==> driver.writer_open && driver.pending.len() == 0
            &&& driver.wants_finish() <==> driver.finish_pending && driver.pending.len() == 0
            &&& driver.is_done(true) <==> !driver.writer_open && driver.pending.len() == 0
                && !driver.finish_pending && driver.peer_done
            &&& !driver.is_done(false)
        }),
{
}

/// Link setup goes on only while nothing is decided: a proof activates the link where the
/// endpoint runs and closes it where it does not, a retry sends the request again, and
/// anything else gives up, each for its own reason.
pub proof fn law_setup_ends_by_what_happened(event: SetupEvent, running: bool)
    ensures
        setup_step_for(event, running) == SetupStep::Activate <==> event == SetupEvent::Proved
            && running,
        setup_step_for(event, running) == SetupStep::CloseAndFail <==> event == SetupEvent::Proved
            && !running,
        setup_step_for(event, running) == SetupStep::Resend <==> event == SetupEvent::RetryDue,
        setup_step_for(event, running) == SetupStep::FailDropped <==> event == SetupEvent::Dropped,
        setup_step_for(event, running) == SetupStep::FailTimedOut <==> event
            == SetupEvent::DeadlinePassed,
        setup_step_for(event, running) == SetupStep::FailClosed <==> event
            == SetupEvent::EndpointClosed,
{
}

/// What events ask at once: only an arrival is proved, delivered or ends the peer's stream, and
/// only a tick identifies this side. An arrival is proved where its place in the sequence lets
/// it be taken.
pub proof fn law_event_asks_for_what_it_is(m: StreamModel, event: EventModel)
    ensures
        ({
            let out = m.outcome(event);
            let after = m.after_event(event);
            let channel = m.buffer.channel;
            &&& !(event is Arrived) ==> !out.prove && out.deliver.len() == 0 && !out.peer_ended
                && after.driver.peer_done == m.driver.peer_done && after.buffer.read_buf
                == m.buffer.read_buf
            &&& out.identify <==> event is Ticked && m.driver.identifies
                && m.driver.identify_sends < 4
            &&& event matches EventModel::Arrived { sequence, payload } ==> {
                let ahead = (sequence - channel.recv_next) % 65536;
                let held = exists|j: int|
                    0 <= j < channel.reorder.len() && (#[trigger] channel.reorder[j]).0 == sequence;
                &&& ahead == 0 ==> out.prove == (channel.inbox.len() < m.sizes.queue)
                &&& 0 < ahead < 32768 ==> out.prove == (held || channel.reorder.len()
                    < m.sizes.reorder)
                &&& ahead >= 32768 ==> out.prove
                &&& out.peer_ended == after.buffer.recv_eof
                &&& out.peer_ended ==> after.driver.peer_done
                &&& !out.peer_ended ==> after.driver == m.driver
                &&& after.driver == (DriverModel { peer_done: after.driver.peer_done, ..m.driver })
            }
            &&& event matches EventModel::Proved { sequence } ==> after.driver == m.driver
                && after.buffer.channel == channel.after_proof(sequence, m.driver.clock)
            &&& event is Ticked ==> after.buffer == m.buffer && after.driver
                == m.driver.after_tick()
            &&& event is Closed ==> after.buffer == m.buffer && after.driver.finish_pending
                && !after.driver.writer_open && after.driver.pending == m.driver.pending
            &&& after.sizes == m.sizes
        }),
{
    if let EventModel::Arrived { sequence, payload } = event {
        law_envelope_is_taken_by_its_place(
            m.buffer.channel,
            sequence,
            payload,
            m.sizes.queue,
            m.sizes.reorder,
        );
    }
    if let EventModel::Wrote { chunk } = event {
        law_write_only_adds(m.buffer, chunk, m.sizes.queue);
    }
}

/// The end of a stream is queued behind its last byte and only once: as a frame without data
/// that ends the stream, when every byte was taken and there is room for it.
pub proof fn law_end_is_queued_behind_every_byte(m: StreamModel)
    requires
        m.driver.pending.len() == 0,
    ensures
        ({
            let after = m.flushed();
            let queued = m.buffer.channel.outgoing;
            let room = queued.len() < m.sizes.queue;
            let end = FrameModel {
                stream_id: m.buffer.send_stream_id,
                eof: true,
                compressed: false,
                data: Seq::empty(),
            };
            &&& m.driver.finish_pending && room ==> !after.driver.finish_pending
                && after.buffer.channel.outgoing == queued.push(end.wire())
            &&& !m.driver.finish_pending || !room ==> after.driver.finish_pending
                == m.driver.finish_pending && after.buffer.channel.outgoing == queued
            &&& after.driver.pending.len() == 0
            &&& after.driver.writer_open == m.driver.writer_open
            &&& after.driver.peer_done == m.driver.peer_done
        }),
{
    let n = m.buffer.accepted(0, m.sizes.queue);
    assert(n == 0) by {
        let room = if m.buffer.channel.outgoing.len() < m.sizes.queue {
            m.sizes.queue - m.buffer.channel.outgoing.len()
        } else {
            0
        };
        assert(room * m.buffer.max_chunk >= 0) by (nonlinear_arith)
            requires
                room >= 0,
        ;
    }
    assert(m.driver.pending.subrange(0, 0) =~= m.driver.pending);
}

/// A stream that holds back bytes does not end: while some are refused, the end waits.
pub proof fn law_end_waits_for_refused_bytes(m: StreamModel)
    requires
        m.flushed().driver.pending.len() > 0,
    ensures
        m.flushed().driver.finish_pending == m.driver.finish_pending,
{
}

/// A turn puts on the wire what is ready after what was refused was offered again, by the
/// stream's own clock.
pub proof fn law_turn_transmits_what_is_ready(m: StreamModel)
    ensures
        m.after_turn().driver == m.flushed().driver,
        m.after_turn().buffer.channel == m.flushed().buffer.channel.after_transmit(
            m.sizes.window,
            m.driver.clock,
        ),
        m.after_turn().buffer.read_buf == m.flushed().buffer.read_buf,
        m.send_idle() <==> m.buffer.channel.outgoing.len() == 0
            && m.buffer.channel.outstanding.len() == 0,
{
}

/// What is heard of a list of frames is the packets in those that hold one, in their order.
pub proof fn law_frames_are_heard_in_order(ifac: Option<IfacModel>, frames: Seq<Seq<u8>>)
    ensures
        heard(ifac, frames) == frames.filter(
            |frame: Seq<u8>| frame_error(ifac, frame) is None,
        ).map_values(|frame: Seq<u8>| logical(ifac, frame)),
    decreases frames.len(),
{
    reveal(Seq::filter);
    let pass = |frame: Seq<u8>| frame_error(ifac, frame) is None;
    let open = |frame: Seq<u8>| logical(ifac, frame);
    if frames.len() > 0 {
        law_frames_are_heard_in_order(ifac, frames.drop_last());
        let rest = frames.drop_last().filter(pass);
        assert(rest.push(frames.last()).map_values(open) =~= rest.map_values(open).push(
            open(frames.last()),
        ));
    }
    assert(heard(ifac, frames) =~= frames.filter(pass).map_values(open));
}

/// An open interface carries packets as they are. One with credentials carries them sealed,
/// refuses what its code does not cover, and takes no packet that is longer than the MTU.
pub proof fn law_frames_are_sealed_where_there_are_credentials(
    ifac: IfacModel,
    packet: PacketModel,
    frame: Seq<u8>,
)
    ensures
        frame_of(None, packet) == Ok::<Seq<u8>, Error>(packet.wire()),
        packet.wire().len() <= 500 ==> frame_of(Some(ifac), packet) == Ok::<Seq<u8>, Error>(
            ifac.sealed(packet.wire()),
        ),
        packet.wire().len() > 500 ==> frame_of(Some(ifac), packet) == Err::<Seq<u8>, Error>(
            Error::Oversize,
        ),
        logical(None, frame) == frame,
        logical(Some(ifac), frame) == ifac.inner(frame),
        frame_error(None, frame) == decode_error(frame),
        ifac.refusal(frame) is Some ==> frame_error(Some(ifac), frame) == ifac.refusal(frame),
        ifac.refusal(frame) is None ==> frame_error(Some(ifac), frame) == decode_error(
            ifac.inner(frame),
        ),
{
}

/// A payload goes in one packet wherever it fits one, and else as a resource; nothing that does
/// not fit is sent as data.
pub proof fn law_payload_goes_in_one_packet_where_it_fits(len: usize, mtu: u32, mode: PayloadMode)
    requires
        call_ensures(payload_mode, (len, mtu), mode),
    ensures
        mode == PayloadMode::Data <==> len <= chunk_for(mtu),
        mode == PayloadMode::Data && len > 1 ==> takes(len as int) <= mtu,
        mode == PayloadMode::Resource && len <= 367 ==> takes(len as int) > mtu,
{
    law_chunk_is_the_longest_that_fits(mtu);
}

/// The wait for a response ends by the response to its own request and no other.
pub proof fn law_response_is_the_requests_own(
    wait: ResponseWait,
    inbound: Inbound,
    step: ResponseStep,
)
    requires
        call_ensures(ResponseWait::on_packet, (&wait, inbound), step),
    ensures
        step matches ResponseStep::Complete(response) ==> response.request_id == wait.request_id,
        inbound matches Inbound::Response(packed, Some(id)) ==> (id == wait.request_id <==> step
            is Complete),
        step matches ResponseStep::Complete(response) ==> inbound matches Inbound::Response(
            packed,
            _,
        ) && response.packed@ == packed@,
        inbound is Close ==> step == ResponseStep::Fail(TransferError::RequestLinkClosed),
{
}

/// A publish ends by its proof or by the receiver's cancel, and a proof counts first. One that
/// timed out says how far it came.
pub proof fn law_publish_ends_for_one_reason(
    done: bool,
    canceled: bool,
    end: Option<Result<(), TransferError>>,
    served_parts: usize,
    has_started: bool,
    error: TransferError,
)
    requires
        call_ensures(publish_progress, (done, canceled), end),
        call_ensures(publish_timeout, (served_parts, has_started), error),
    ensures
        end is None <==> !done && !canceled,
        done <==> end == Some(Ok::<(), TransferError>(())),
        canceled && !done <==> end == Some(
            Err::<(), TransferError>(TransferError::CanceledByReceiver),
        ),
        error matches TransferError::TimedOutServing { parts } ==> parts == served_parts && parts
            > 0,
        served_parts > 0 <==> error is TimedOutServing,
        served_parts == 0 && has_started <==> error == TransferError::TimedOutUnmatched,
        served_parts == 0 && !has_started <==> error == TransferError::TimedOutUnrequested,
{
}

/// A fetch is complete with its data, whatever else happened; without it a cancel ends it.
pub proof fn law_fetch_is_complete_with_its_data(
    data: Option<Vec<u8>>,
    canceled: bool,
    step: FetchStep,
)
    requires
        call_ensures(fetch_progress, (data, canceled), step),
    ensures
        data is Some <==> step is Complete,
        step matches FetchStep::Complete(out) ==> data is Some && out@ == (data->0)@,
        data is None && canceled <==> step == FetchStep::Fail(TransferError::CanceledBySender),
        data is None && !canceled <==> step == FetchStep::Continue,
{
}

/// A response that came as a resource is taken where it answers this request and is what it was
/// advertised to be. One that answers another request is passed over, one that contradicts its
/// advertisement is refused, and so is one that does not read.
pub proof fn law_response_resource_is_the_requests_own(
    wait: ResponseWait,
    data: Option<Vec<u8>>,
    response_id: Option<AddressHash>,
    advertised: Option<AddressHash>,
    canceled: bool,
    step: ResourceResponseStep,
)
    requires
        call_ensures(
            ResponseWait::on_resource,
            (&wait, data, response_id, advertised, canceled),
            step,
        ),
    ensures
        step matches ResourceResponseStep::Complete(response) ==> {
            &&& response.request_id == wait.request_id
            &&& response_id == Some(wait.request_id)
            &&& advertised is None || advertised == response_id
            &&& data is Some && response.packed@ == (data->0)@
        },
        data is Some && response_id == Some(wait.request_id) && (advertised is None || advertised
            == response_id) ==> step is Complete,
        data is None && !canceled <==> step == ResourceResponseStep::Continue,
        data is None && canceled <==> step == ResourceResponseStep::Fail(
            TransferError::ResponseCanceled,
        ),
        data is Some && response_id is None <==> step == ResourceResponseStep::Fail(
            TransferError::InvalidResource,
        ),
        data is Some && response_id is Some && advertised is Some && advertised != response_id
            <==> step == ResourceResponseStep::Fail(TransferError::RequestIdMismatch),
        step == ResourceResponseStep::Restart ==> response_id is Some && response_id != Some(
            wait.request_id,
        ),
{
}

/// While waiting for a payload, an identify is noted and the wait goes on; else data is handed
/// over as it came, a close ends the wait, and anything else may be a resource's.
pub proof fn law_payload_wait_tells_packets_apart(
    wait: &mut PayloadWait,
    identify: Option<Identity>,
    inbound: Inbound,
    step: ReceiveStep,
)
    requires
        call_ensures(PayloadWait::on_packet, (wait, identify, inbound), step),
    ensures
        identify is Some <==> step == ReceiveStep::Continue,
        identify is Some ==> final(wait).identified == identify,
        identify is None ==> final(wait).identified == old(wait).identified,
        step matches ReceiveStep::Deliver(out) ==> inbound matches Inbound::Data(data) && out@
            == data@,
        identify is None && inbound is Data ==> step is Deliver,
        identify is None && inbound is Close <==> step == ReceiveStep::Closed,
{
}

/// A request carries the hash of its packet as its id and whoever the peer had proved to be
/// before it. A close ends the wait, and nothing else does.
pub proof fn law_request_names_its_packet_and_peer(
    wait: &mut PayloadWait,
    packet: Packet,
    identify: Option<Identity>,
    inbound: Inbound,
    end: Option<Result<ReceivedRawRequest, TransferError>>,
    hash: AddressHash,
)
    requires
        call_ensures(PayloadWait::on_request_packet, (wait, &packet, identify, inbound), end),
        hash@ == packet@.address(),
    ensures
        identify is Some ==> end is None && final(wait).identified == identify,
        identify is None ==> final(wait).identified == old(wait).identified,
        identify is None && inbound is Request ==> end is Some && end->0 is Ok,
        end matches Some(Ok(request)) ==> {
            &&& request.request_id == hash
            &&& request.peer == old(wait).identified
            &&& inbound matches Inbound::Request(packed) && request.packed@ == packed@
        },
        identify is None && inbound is Close <==> end == Some(
            Err::<ReceivedRawRequest, TransferError>(TransferError::RequestLinkClosed),
        ),
{
    AddressHash::lemma_with(hash);
}

/// A packet that finds the queue full is counted as dropped, and only the endpoint's end is
/// told as such.
pub proof fn law_full_queue_is_counted(
    account: &mut DeliveryAccount,
    handover: Handover,
    alive: bool,
)
    requires
        call_ensures(DeliveryAccount::deliver, (account, handover), alive),
        old(account).dropped < u64::MAX,
    ensures
        !alive <==> handover == Handover::Gone,
        final(account).dropped == old(account).dropped + (if handover == Handover::Full {
            1int
        } else {
            0
        }),
{
}

} // verus!
