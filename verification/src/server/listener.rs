//! Routing of received packets: from the bytes of a frame to the bytes of
//! the responses.

use crate::protocol::builder::{build_response, response_bytes, ResponseData};
use crate::protocol::error::AoeError;
use crate::bytes::{be16, read_be16};
use crate::protocol::parse::{frame_failure, frame_matches, parse_frame};
use crate::protocol::types::AoeFrame;
use crate::server::target::{routed, TargetAddr, TargetManager};
use crate::storage::BlockStorage;
use vstd::prelude::*;

verus! {

/// True for the broadcast MAC address, six bytes of `0xFF`.
pub fn is_broadcast_mac(mac: &[u8; 6]) -> (b: bool)
    ensures
        b == (forall|i: int| 0 <= i < 6 ==> mac@[i] == 0xFF),
{
    mac[0] == 0xFF && mac[1] == 0xFF && mac[2] == 0xFF && mac[3] == 0xFF && mac[4] == 0xFF
        && mac[5] == 0xFF
}

/// A packet that is dropped before parsing: it is shorter than an Ethernet
/// header or its EtherType is not the AoE one.
pub open spec fn not_aoe(packet: Seq<u8>) -> bool {
    packet.len() < 14 || be16(packet[12], packet[13]) != 0x88A2
}

/// `frames` are the response frames for `responses` to `request`, one each
/// and in the same order.
pub open spec fn frames_for(
    frames: Seq<Vec<u8>>,
    request: AoeFrame,
    responses: Seq<(TargetAddr, ResponseData)>,
) -> bool {
    &&& frames.len() == responses.len()
    &&& forall|j: int|
        0 <= j < frames.len() ==> (#[trigger] frames[j])@ == response_bytes(request, responses[j].1)
}

/// `frames` are what is transmitted for the parsed frame `request`: nothing
/// for a frame that is itself a response, with the targets as before;
/// otherwise the frames of the `responses` that the targets give.
pub open spec fn answered<S: BlockStorage>(
    before: TargetManager<S>,
    after: TargetManager<S>,
    request: AoeFrame,
    responses: Seq<(TargetAddr, ResponseData)>,
    frames: Seq<Vec<u8>>,
) -> bool {
    if request.header.flags.response {
        after == before && frames.len() == 0
    } else {
        routed(before, after, request, responses) && frames_for(frames, request, responses)
    }
}

/// Handles one received packet and returns the frames to transmit.
///
/// A packet that is not AoE, and a frame that is itself a response, are
/// dropped: nothing is returned and the targets are as before. A frame that
/// does not parse gives the parse error. Any other frame is routed to the
/// targets it addresses and every response comes back as the frame that
/// carries it.
pub fn handle_packet<S: BlockStorage>(targets: &mut TargetManager<S>, packet: &[u8]) -> (r: Result<
    Vec<Vec<u8>>,
    AoeError,
>)
    requires
        old(targets).wf(),
    ensures
        final(targets).wf(),
        not_aoe(packet@) ==> *final(targets) == *old(targets) && (r matches Ok(frames)
            && frames@.len() == 0),
        !not_aoe(packet@) && frame_failure(packet@) is Some ==> *final(targets) == *old(targets)
            && r is Err && r->Err_0 == AoeError::Parse(frame_failure(packet@)->Some_0),
        !not_aoe(packet@) && frame_failure(packet@) is None ==> r is Ok,
        !not_aoe(packet@) && frame_failure(packet@) is None ==> exists|
            request: AoeFrame,
            responses: Seq<(TargetAddr, ResponseData)>,
        |
            frame_matches(request, packet@) && #[trigger] answered(
                *old(targets),
                *final(targets),
                request,
                responses,
                r->Ok_0@,
            ),
{
    let mut frames: Vec<Vec<u8>> = Vec::new();
    if packet.len() < 14 {
        return Ok(frames);
    }
    let ethertype = read_be16(packet[12], packet[13]);
    if ethertype != 0x88A2 {
        return Ok(frames);
    }
    let frame = match parse_frame(packet) {
        Ok(f) => f,
        Err(e) => {
            return Err(AoeError::Parse(e));
        },
    };
    if frame.header.flags.response {
        let out: Result<Vec<Vec<u8>>, AoeError> = Ok(frames);
        proof {
            let none = Seq::<(TargetAddr, ResponseData)>::empty();
            assert(frame_matches(frame, packet@) && answered(
                *old(targets),
                *final(targets),
                frame,
                none,
                out->Ok_0@,
            ));
        }
        return out;
    }
    let responses = match targets.handle_frame(&frame) {
        Ok(responses) => responses,
        Err(e) => {
            return Err(e);
        },
    };
    let ghost given = responses@;
    let mut j: usize = 0;
    let n: usize = responses.len();
    let mut rest = responses;
    while j < n
        invariant
            j <= n,
            n == given.len(),
            rest@.len() == n - j,
            frames@.len() == j,
            forall|k: int| 0 <= k < rest@.len() ==> (#[trigger] rest@[k]) == given[j + k],
            forall|k: int|
                0 <= k < j ==> (#[trigger] frames@[k])@ == response_bytes(frame, given[k].1),
        decreases n - j,
    {
        let (_addr, response) = rest.remove(0);
        let out = build_response(&frame, response);
        frames.push(out);
        j += 1;
    }
    let out: Result<Vec<Vec<u8>>, AoeError> = Ok(frames);
    proof {
        assert(frames_for(out->Ok_0@, frame, given));
        assert(frame_matches(frame, packet@) && answered(
            *old(targets),
            *final(targets),
            frame,
            given,
            out->Ok_0@,
        ));
    }
    out
}

} // verus!
