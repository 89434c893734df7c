//! Target manager: maps shelf/slot addresses to storage devices and routes
//! frames to them.

use crate::protocol::ata::{command_answer, handle_ata_command};
use crate::protocol::builder::{ConfigResponse, ResponseData};
use crate::protocol::error::AoeError;
use crate::protocol::types::{
    address_match, AoeCommand, AoeFrame, AoePayload, ConfigCommand, BROADCAST_SHELF,
    BROADCAST_SLOT, MAX_SECTORS_STANDARD,
};
use crate::storage::BlockStorage;
use vstd::prelude::*;
use vstd::slice::slice_to_vec;
use vstd::string::StringSliceAdditionalSpecFns;

verus! {

/// Address of a target: shelf and slot.
#[derive(Debug, Clone, Copy, PartialEq, Eq, Structural, Hash)]
pub struct TargetAddr {
    pub shelf: u16,
    pub slot: u8,
}

impl TargetAddr {
    /// The address `(shelf, slot)`.
    pub fn new(shelf: u16, slot: u8) -> (a: TargetAddr)
        ensures
            a.shelf == shelf,
            a.slot == slot,
    {
        TargetAddr { shelf, slot }
    }
}

/// One exported device.
pub struct Target<S: BlockStorage> {
    /// Where the target is found.
    pub addr: TargetAddr,
    /// The device behind it.
    pub storage: S,
    /// The config string that discovery reports.
    pub config_string: String,
}

/// The targets of a server, at most one per address.
pub struct TargetManager<S: BlockStorage> {
    /// The targets, in the order in which their addresses were first added.
    pub targets: Vec<Target<S>>,
    /// Firmware version that Config responses report.
    pub firmware_version: u16,
}

/// Buffer count that Config responses advertise.
pub const CONFIG_BUFFER_COUNT: u16 = 16;

/// The bytes of a target's config string.
pub open spec fn config_bytes<S: BlockStorage>(target: Target<S>) -> Seq<u8> {
    vstd::utf8::encode_utf8(target.config_string@)
}

/// `out` is the Config response that reports `config`: buffer count 16, the
/// firmware version, two sectors per command and the config string.
pub open spec fn is_config_reply(out: Option<ResponseData>, config: Seq<u8>, firmware: u16) -> bool {
    out matches Some(ResponseData::Config(c)) && c.buffer_count == 16 && c.firmware_version
        == firmware && c.sector_count == 2 && c.config_string@ == config
}

/// What a Config request gets from a target whose config string is
/// `config`: a read gets the string; a test gets it when the request's
/// string equals it (TestExact) or is a prefix of it (TestPrefix) and no
/// response otherwise; an attempt to set it is refused with code 4; an
/// unknown sub-command is refused with code 1; a payload of the wrong class
/// is refused with code 2.
pub open spec fn config_answer(
    payload: AoePayload,
    config: Seq<u8>,
    firmware: u16,
    out: Option<ResponseData>,
) -> bool {
    match payload {
        AoePayload::Ata { .. } => out == Some(ResponseData::Error { code: 2 }),
        AoePayload::Config(h) => match ConfigCommand::of_code(h.aoe_ccmd % 16) {
            None => out == Some(ResponseData::Error { code: 1 }),
            Some(ConfigCommand::Read) => is_config_reply(out, config, firmware),
            Some(ConfigCommand::TestExact) => if h.config_string@ == config {
                is_config_reply(out, config, firmware)
            } else {
                out is None
            },
            Some(ConfigCommand::TestPrefix) => if h.config_string@.is_prefix_of(config) {
                is_config_reply(out, config, firmware)
            } else {
                out is None
            },
            Some(ConfigCommand::SetConfig) | Some(ConfigCommand::ForceSet) => out == Some(
                ResponseData::Error { code: 4 },
            ),
        },
    }
}

/// What a frame gets from one target that it addresses. `before` and
/// `after` are the target around the request and `out` is the response, if
/// there is one. An ATA frame is answered by the device as `command_answer`
/// says; a Config frame leaves the device alone and is answered as
/// `config_answer` says.
pub open spec fn target_answer<S: BlockStorage>(
    before: Target<S>,
    after: Target<S>,
    frame: AoeFrame,
    firmware: u16,
    out: Option<ResponseData>,
) -> bool {
    &&& after.addr == before.addr
    &&& after.config_string == before.config_string
    &&& after.storage.device() == before.storage.device()
    &&& match frame.header.command {
        AoeCommand::Ata => match frame.payload {
            AoePayload::Ata { header, data } => out matches Some(ResponseData::Ata(a))
                && command_answer(&before.storage, &after.storage, header, data@, a),
            AoePayload::Config(_) => out == Some(ResponseData::Error { code: 2 })
                && after.storage == before.storage,
        },
        AoeCommand::Config => after.storage == before.storage && config_answer(
            frame.payload,
            config_bytes(before),
            firmware,
            out,
        ),
    }
}

/// What a target hands back for a result: the response, nothing when the
/// target is not available for the request, and otherwise an error response
/// with the code of the error.
pub open spec fn outcome(r: Result<ResponseData, AoeError>) -> Option<ResponseData> {
    match r {
        Ok(response) => Some(response),
        Err(AoeError::DeviceUnavailable) => None,
        Err(e) => Some(ResponseData::Error { code: e.code() }),
    }
}

/// Turns the result of a target into the response to send, if any.
pub fn outcome_of(r: Result<ResponseData, AoeError>) -> (out: Option<ResponseData>)
    ensures
        out == outcome(r),
{
    match r {
        Ok(response) => Some(response),
        Err(AoeError::DeviceUnavailable) => None,
        Err(e) => Some(ResponseData::Error { code: e.to_error_code() }),
    }
}

/// True when `a` and `b` hold the same bytes.
fn bytes_equal(a: &[u8], b: &[u8]) -> (eq: bool)
    ensures
        eq == (a@ == b@),
{
    if a.len() != b.len() {
        return false;
    }
    let mut i: usize = 0;
    while i < a.len()
        invariant
            i <= a@.len(),
            a@.len() == b@.len(),
            forall|k: int| 0 <= k < i ==> a@[k] == b@[k],
        decreases a@.len() - i,
    {
        if a[i] != b[i] {
            return false;
        }
        i += 1;
    }
    assert(a@ =~= b@);
    true
}

/// True when `text` starts with `prefix`.
fn starts_with(text: &[u8], prefix: &[u8]) -> (yes: bool)
    ensures
        yes == prefix@.is_prefix_of(text@),
{
    if prefix.len() > text.len() {
        return false;
    }
    let mut i: usize = 0;
    while i < prefix.len()
        invariant
            i <= prefix@.len(),
            prefix@.len() <= text@.len(),
            forall|k: int| 0 <= k < i ==> prefix@[k] == text@[k],
        decreases prefix@.len() - i,
    {
        if prefix[i] != text[i] {
            assert(prefix@[i as int] != text@.subrange(0, prefix@.len() as int)[i as int]);
            return false;
        }
        i += 1;
    }
    assert(prefix@ =~= text@.subrange(0, prefix@.len() as int));
    true
}

impl<S: BlockStorage> Default for TargetManager<S> {
    fn default() -> (m: TargetManager<S>)
        ensures
            m.wf(),
            m.targets@.len() == 0,
            m.firmware_version == 0x4019,
    {
        TargetManager::new()
    }
}

impl<S: BlockStorage> TargetManager<S> {
    /// Every device is in order and no two targets share an address.
    pub open spec fn wf(&self) -> bool {
        &&& forall|i: int| 0 <= i < self.targets@.len() ==> (#[trigger] self.targets@[i]).storage.inv()
        &&& forall|i: int, j: int|
            0 <= i < j < self.targets@.len() ==> (#[trigger] self.targets@[i]).addr != (
            #[trigger] self.targets@[j]).addr
    }

    /// There is a target at `addr`.
    pub open spec fn has_target(&self, addr: TargetAddr) -> bool {
        exists|i: int| 0 <= i < self.targets@.len() && (#[trigger] self.targets@[i]).addr == addr
    }

    /// A manager without targets.
    pub fn new() -> (m: TargetManager<S>)
        ensures
            m.wf(),
            m.targets@.len() == 0,
            m.firmware_version == 0x4019,
    {
        TargetManager { targets: Vec::new(), firmware_version: 0x4019 }
    }

    /// The position of the target at `addr`.
    fn position(&self, addr: TargetAddr) -> (r: Option<usize>)
        ensures
            match r {
                Some(i) => i < self.targets@.len() && self.targets@[i as int].addr == addr,
                None => !self.has_target(addr),
            },
    {
        let mut i: usize = 0;
        while i < self.targets.len()
            invariant
                i <= self.targets@.len(),
                forall|k: int| 0 <= k < i ==> (#[trigger] self.targets@[k]).addr != addr,
            decreases self.targets@.len() - i,
        {
            if self.targets[i].addr.shelf == addr.shelf && self.targets[i].addr.slot == addr.slot {
                return Some(i);
            }
            i += 1;
        }
        None
    }

    /// Adds a target at `(shelf, slot)`. A target that was at that address
    /// is replaced in its place; otherwise the new target comes last.
    pub fn add_target(&mut self, shelf: u16, slot: u8, storage: S, config_string: String)
        requires
            old(self).wf(),
            storage.inv(),
        ensures
            final(self).wf(),
            final(self).firmware_version == old(self).firmware_version,
            final(self).has_target(TargetAddr { shelf, slot }),
            old(self).has_target(TargetAddr { shelf, slot }) ==> final(self).targets@.len() == old(
                self,
            ).targets@.len(),
            !old(self).has_target(TargetAddr { shelf, slot }) ==> final(self).targets@ == old(
                self,
            ).targets@.push(Target { addr: TargetAddr { shelf, slot }, storage, config_string }),
            forall|i: int|
                0 <= i < old(self).targets@.len() ==> (#[trigger] final(self).targets@[i]) == (
                if old(self).targets@[i].addr == (TargetAddr { shelf, slot }) {
                    Target { addr: TargetAddr { shelf, slot }, storage, config_string }
                } else {
                    old(self).targets@[i]
                }),
    {
        let addr = TargetAddr::new(shelf, slot);
        let target = Target { addr, storage, config_string };
        match self.position(addr) {
            Some(i) => {
                self.targets[i] = target;
                assert(final(self).targets@[i as int].addr == addr);
            },
            None => {
                self.targets.push(target);
                assert(self.targets@[self.targets@.len() - 1].addr == addr);
            },
        }
    }

    /// The number of targets.
    pub fn target_count(&self) -> (n: usize)
        ensures
            n == self.targets@.len(),
    {
        self.targets.len()
    }

    /// True when `frame` addresses the target at `addr`: each of shelf and
    /// slot is equal or is the broadcast value.
    pub fn address_matches(&self, frame: &AoeFrame, addr: &TargetAddr) -> (m: bool)
        ensures
            m == address_match(frame.header.shelf, frame.header.slot, addr.shelf, addr.slot),
    {
        let shelf_match = frame.header.shelf == addr.shelf || frame.header.shelf
            == BROADCAST_SHELF;
        let slot_match = frame.header.slot == addr.slot || frame.header.slot == BROADCAST_SLOT;
        shelf_match && slot_match
    }

    /// Hands an ATA frame to the device of target `index`.
    fn handle_ata(&mut self, frame: &AoeFrame, index: usize) -> (r: Result<ResponseData, AoeError>)
        requires
            old(self).wf(),
            index < old(self).targets@.len(),
            frame.header.command == AoeCommand::Ata,
        ensures
            final(self).wf(),
            final(self).firmware_version == old(self).firmware_version,
            final(self).targets@.len() == old(self).targets@.len(),
            forall|k: int|
                0 <= k < final(self).targets@.len() && k != index ==> final(self).targets@[k]
                    == old(self).targets@[k],
            target_answer(
                old(self).targets@[index as int],
                final(self).targets@[index as int],
                *frame,
                old(self).firmware_version,
                outcome(r),
            ),
    {
        match &frame.payload {
            AoePayload::Ata { header, data } => {
                let target = &mut self.targets[index];
                let response = handle_ata_command(&mut target.storage, header, data.as_slice());
                Ok(ResponseData::Ata(response))
            },
            AoePayload::Config(_) => Err(AoeError::BadArgument("expected ATA payload".to_owned())),
        }
    }

    /// Answers a Config frame for target `index`.
    fn handle_config(&self, frame: &AoeFrame, index: usize) -> (r: Result<ResponseData, AoeError>)
        requires
            index < self.targets@.len(),
        ensures
            config_answer(
                frame.payload,
                config_bytes(self.targets@[index as int]),
                self.firmware_version,
                outcome(r),
            ),
    {
        let target = &self.targets[index];
        let config_header = match &frame.payload {
            AoePayload::Config(header) => header,
            AoePayload::Ata { .. } => {
                return Err(AoeError::BadArgument("expected Config payload".to_owned()));
            },
        };
        let ccmd = match config_header.config_command() {
            Ok(c) => c,
            Err(c) => {
                return Err(AoeError::UnrecognizedCommand(c));
            },
        };
        let own = target.config_string.as_str().as_bytes();
        let accepted = match ccmd {
            ConfigCommand::Read => true,
            ConfigCommand::TestExact => bytes_equal(config_header.config_string.as_slice(), own),
            ConfigCommand::TestPrefix => starts_with(own, config_header.config_string.as_slice()),
            ConfigCommand::SetConfig | ConfigCommand::ForceSet => {
                return Err(AoeError::ConfigStringPresent);
            },
        };
        if accepted {
            Ok(
                ResponseData::Config(
                    ConfigResponse {
                        buffer_count: CONFIG_BUFFER_COUNT,
                        firmware_version: self.firmware_version,
                        sector_count: MAX_SECTORS_STANDARD,
                        config_string: slice_to_vec(own),
                    },
                ),
            )
        } else {
            Err(AoeError::DeviceUnavailable)
        }
    }

    /// Handles a frame for target `index`.
    fn handle_target_frame(&mut self, frame: &AoeFrame, index: usize) -> (r: Result<
        ResponseData,
        AoeError,
    >)
        requires
            old(self).wf(),
            index < old(self).targets@.len(),
        ensures
            final(self).wf(),
            final(self).firmware_version == old(self).firmware_version,
            final(self).targets@.len() == old(self).targets@.len(),
            forall|k: int|
                0 <= k < final(self).targets@.len() && k != index ==> final(self).targets@[k]
                    == old(self).targets@[k],
            target_answer(
                old(self).targets@[index as int],
                final(self).targets@[index as int],
                *frame,
                old(self).firmware_version,
                outcome(r),
            ),
    {
        match frame.header.command {
            AoeCommand::Ata => self.handle_ata(frame, index),
            AoeCommand::Config => self.handle_config(frame, index),
        }
    }

    /// Handles a frame: every target that the frame addresses answers it, in
    /// the order of the targets, and the responses that are due come back
    /// with the address of their target.
    ///
    /// The result is always `Ok`; `routed` says which responses it holds.
    pub fn handle_frame(&mut self, frame: &AoeFrame) -> (r: Result<
        Vec<(TargetAddr, ResponseData)>,
        AoeError,
    >)
        requires
            old(self).wf(),
        ensures
            final(self).wf(),
            final(self).firmware_version == old(self).firmware_version,
            final(self).targets@.len() == old(self).targets@.len(),
            r matches Ok(responses) && routed(*old(self), *final(self), *frame, responses@),
    {
        let mut responses: Vec<(TargetAddr, ResponseData)> = Vec::new();
        let n: usize = self.targets.len();
        let mut i: usize = 0;
        while i < n
            invariant
                i <= n,
                n == self.targets@.len(),
                n == old(self).targets@.len(),
                self.wf(),
                old(self).wf(),
                self.firmware_version == old(self).firmware_version,
                forall|k: int|
                    i <= k < n ==> (#[trigger] self.targets@[k]) == old(self).targets@[k],
                forall|k: int|
                    0 <= k < n ==> (#[trigger] self.targets@[k]).addr == old(self).targets@[k].addr,
                forall|k: int|
                    0 <= k < i ==> {
                        let before = #[trigger] old(self).targets@[k];
                        let after = self.targets@[k];
                        if address_match(
                            frame.header.shelf,
                            frame.header.slot,
                            before.addr.shelf,
                            before.addr.slot,
                        ) {
                            target_answer(
                                before,
                                after,
                                *frame,
                                old(self).firmware_version,
                                response_for(responses@, before.addr),
                            )
                        } else {
                            after == before && response_for(responses@, before.addr) is None
                        }
                    },
                forall|j: int|
                    0 <= j < responses@.len() ==> exists|k: int|
                        0 <= k < i && old(self).targets@[k].addr == (#[trigger] responses@[j]).0,
                forall|j: int, k: int|
                    0 <= j < k < responses@.len() ==> (#[trigger] responses@[j]).0 != (
                    #[trigger] responses@[k]).0,
            decreases n - i,
        {
            let addr = self.targets[i].addr;
            let ghost earlier = responses@;
            let ghost targets_then = self.targets@;
            proof {
                assert forall|j: int| 0 <= j < earlier.len() implies (#[trigger] earlier[j]).0
                    != addr by {
                    let w = choose|w: int|
                        0 <= w < i && old(self).targets@[w].addr == earlier[j].0;
                    assert(targets_then[w].addr != targets_then[i as int].addr);
                }
                lemma_no_response(earlier, addr);
                assert(targets_then[i as int] == old(self).targets@[i as int]);
            }
            if self.address_matches(frame, &addr) {
                let result = self.handle_target_frame(frame, i);
                match outcome_of(result) {
                    Some(response) => {
                        responses.push((addr, response));
                        proof {
                            lemma_response_added(earlier, addr, response);
                            assert(response_for(responses@, addr) == Some(response));
                            assert forall|k: int| 0 <= k < i implies response_for(
                                responses@,
                                (#[trigger] old(self).targets@[k]).addr,
                            ) == response_for(earlier, old(self).targets@[k].addr) by {
                                assert(targets_then[k].addr == old(self).targets@[k].addr);
                                assert(targets_then[k].addr != targets_then[i as int].addr);
                            }
                            assert forall|j: int| 0 <= j < responses@.len() implies exists|k: int|
                                0 <= k < i + 1 && old(self).targets@[k].addr == (
                                #[trigger] responses@[j]).0 by {
                                if j < earlier.len() {
                                    assert(responses@[j] == earlier[j]);
                                    let k = choose|k: int|
                                        0 <= k < i && old(self).targets@[k].addr == earlier[j].0;
                                    assert(old(self).targets@[k].addr == responses@[j].0);
                                } else {
                                    assert(old(self).targets@[i as int].addr == responses@[j].0);
                                }
                            }
                            assert forall|j: int, k: int|
                                0 <= j < k < responses@.len() implies (#[trigger] responses@[j]).0
                                != (#[trigger] responses@[k]).0 by {
                                assert(responses@[j] == earlier[j]);
                                if k < earlier.len() {
                                    assert(responses@[k] == earlier[k]);
                                }
                            }
                        }
                    },
                    None => {},
                }
            }
            proof {
                assert forall|k: int| 0 <= k < i + 1 implies {
                    let before = #[trigger] old(self).targets@[k];
                    let after = self.targets@[k];
                    if address_match(
                        frame.header.shelf,
                        frame.header.slot,
                        before.addr.shelf,
                        before.addr.slot,
                    ) {
                        target_answer(
                            before,
                            after,
                            *frame,
                            old(self).firmware_version,
                            response_for(responses@, before.addr),
                        )
                    } else {
                        after == before && response_for(responses@, before.addr) is None
                    }
                } by {
                    if k < i {
                        assert(self.targets@[k] == targets_then[k]);
                        assert(response_for(responses@, old(self).targets@[k].addr)
                            == response_for(earlier, old(self).targets@[k].addr));
                    }
                }
            }
            i += 1;
        }
        proof {
            assert forall|j: int| 0 <= j < responses@.len() implies old(self).has_target(
                (#[trigger] responses@[j]).0,
            ) by {
                let k = choose|k: int|
                    0 <= k < n && old(self).targets@[k].addr == responses@[j].0;
                assert(old(self).targets@[k].addr == responses@[j].0);
            }
        }
        Ok(responses)
    }
}

/// `responses` is what the targets of a manager answer to `frame`, and
/// `after` is the manager afterwards.
///
/// A target that the frame does not address is left as it was and gets no
/// response. For a target that it addresses, `target_answer` relates the
/// target before and after to its response, or to the absence of one. Every
/// response belongs to a target and no target has two.
pub open spec fn routed<S: BlockStorage>(
    before: TargetManager<S>,
    after: TargetManager<S>,
    frame: AoeFrame,
    responses: Seq<(TargetAddr, ResponseData)>,
) -> bool {
    &&& after.targets@.len() == before.targets@.len()
    &&& after.firmware_version == before.firmware_version
    &&& forall|i: int|
        0 <= i < before.targets@.len() ==> {
            let b = #[trigger] before.targets@[i];
            let a = after.targets@[i];
            if address_match(frame.header.shelf, frame.header.slot, b.addr.shelf, b.addr.slot) {
                target_answer(b, a, frame, before.firmware_version, response_for(responses, b.addr))
            } else {
                a == b && response_for(responses, b.addr) is None
            }
        }
    &&& forall|j: int| 0 <= j < responses.len() ==> before.has_target((#[trigger] responses[j]).0)
    &&& forall|j: int, k: int|
        0 <= j < k < responses.len() ==> (#[trigger] responses[j]).0 != (#[trigger] responses[k]).0
}

/// The response that a list holds for the target at `addr`: that of the
/// first entry with this address.
pub open spec fn response_for(responses: Seq<(TargetAddr, ResponseData)>, addr: TargetAddr)
    -> Option<ResponseData>
    decreases responses.len(),
{
    if responses.len() == 0 {
        None
    } else if responses[0].0 == addr {
        Some(responses[0].1)
    } else {
        response_for(responses.subrange(1, responses.len() as int), addr)
    }
}

/// A list without an entry for `addr` holds no response for it.
pub proof fn lemma_no_response(responses: Seq<(TargetAddr, ResponseData)>, addr: TargetAddr)
    requires
        forall|j: int| 0 <= j < responses.len() ==> (#[trigger] responses[j]).0 != addr,
    ensures
        response_for(responses, addr) is None,
    decreases responses.len(),
{
    if responses.len() > 0 {
        let rest = responses.subrange(1, responses.len() as int);
        assert forall|j: int| 0 <= j < rest.len() implies (#[trigger] rest[j]).0 != addr by {
            assert(rest[j] == responses[j + 1]);
        }
        lemma_no_response(rest, addr);
    }
}

/// After an entry for `addr` is appended to a list without one, the list
/// holds that response for `addr` and what it held for every other address.
pub proof fn lemma_response_added(
    responses: Seq<(TargetAddr, ResponseData)>,
    addr: TargetAddr,
    response: ResponseData,
)
    ensures
        response_for(responses, addr) is None ==> response_for(
            responses.push((addr, response)),
            addr,
        ) == Some(response),
        forall|other: TargetAddr|
            other != addr ==> #[trigger] response_for(responses.push((addr, response)), other)
                == response_for(responses, other),
    decreases responses.len(),
{
    let added = responses.push((addr, response));
    if responses.len() == 0 {
        assert(added.subrange(1, added.len() as int) =~= Seq::empty());
        assert forall|other: TargetAddr| other != addr implies #[trigger] response_for(
            added,
            other,
        ) == response_for(responses, other) by {
            assert(response_for(added.subrange(1, added.len() as int), other) is None);
        }
    } else {
        let rest = responses.subrange(1, responses.len() as int);
        assert(added.subrange(1, added.len() as int) =~= rest.push((addr, response)));
        lemma_response_added(rest, addr, response);
        assert(added[0] == responses[0]);
        assert forall|other: TargetAddr| other != addr implies #[trigger] response_for(
            added,
            other,
        ) == response_for(responses, other) by {
            if responses[0].0 != other {
                assert(response_for(rest.push((addr, response)), other) == response_for(
                    rest,
                    other,
                ));
            }
        }
    }
}

} // verus!
