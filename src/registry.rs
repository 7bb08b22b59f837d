//! Devices we are connected to, their outstanding requests, and the correlation of
//! replies with those requests.
use vstd::prelude::*;
use crate::address::Address;
use crate::codec::{decode, result_model, decode_spec, DecodeError, EnumNames};
use crate::value::BACnetValue;

verus! {

/// Identifier of a confirmed request, assigned when it is sent.
pub type RequestInvokeId = u8;

/// Identifier of a device.
pub type DeviceId = u32;

/// Why a device refused or failed a request.
#[allow(inconsistent_fields)]
#[derive(Debug)]
pub enum BACnetErr {
    /// Request was rejected with the given reason code.
    Rejected { code: u8 },
    /// Request was aborted with the given reason code and text.
    Aborted { text: String, code: u8 },
    /// Request resulted in an error of the given class and code.
    Error { class_text: String, class: u32, text: String, code: u32 },
}

/// Abort reason: the device cannot send a reply in segments.
pub const ABORT_SEGMENTATION_NOT_SUPPORTED: u8 = 4;
/// Error class of property errors.
pub const ERROR_CLASS_PROPERTY: u32 = 2;
/// Error code of an unknown property.
pub const ERROR_CODE_UNKNOWN_PROPERTY: u32 = 32;

impl BACnetErr {
    /// The reply says that the property does not exist.
    pub open spec fn is_unknown_property(&self) -> bool {
        self matches BACnetErr::Error { class, code, .. } && class == ERROR_CLASS_PROPERTY && code
            == ERROR_CODE_UNKNOWN_PROPERTY
    }

    /// The reply says that the device cannot send the reply in segments.
    pub open spec fn is_segmentation_not_supported(&self) -> bool {
        self matches BACnetErr::Aborted { code, .. } && code == ABORT_SEGMENTATION_NOT_SUPPORTED
    }
}

/// Status of a request.
#[derive(Debug)]
pub enum RequestStatus {
    /// No reply has been received yet.
    Ongoing,
    /// An acknowledgement arrived; it holds the decoded value, or why it did not decode.
    Done(Result<BACnetValue, DecodeError>),
    /// The request failed.
    Error(BACnetErr),
}

/// A device we are connected to.
#[derive(Debug)]
pub struct TargetDevice {
    pub device_id: DeviceId,
    /// The address that replies from the device come from.
    pub addr: Address,
    /// The request that is outstanding, if any, and its status.
    pub request: Option<(RequestInvokeId, RequestStatus)>,
}

/// The devices we are connected to, one entry per device.
pub struct Registry {
    pub devices: Vec<TargetDevice>,
}

/// The content of a read-property acknowledgement.
pub struct ReadPropertyData {
    pub object_type: u32,
    pub object_instance: u32,
    pub object_property: u32,
    pub array_index: u32,
    /// The application-tagged value.
    pub application_data: Vec<u8>,
}

impl TargetDevice {
    /// The device has a request outstanding under `invoke_id`.
    pub open spec fn awaits(&self, invoke_id: RequestInvokeId) -> bool {
        self.request matches Some((id, _)) && id == invoke_id
    }
}

impl Registry {
    /// Each device has at most one entry.
    pub open spec fn wf(&self) -> bool {
        forall|i: int, j: int|
            0 <= i < j < self.devices@.len() ==> self.devices@[i].device_id
                != self.devices@[j].device_id
    }

    /// The device has an entry.
    pub open spec fn connected(&self, device_id: DeviceId) -> bool {
        exists|i: int| 0 <= i < self.devices@.len() && self.devices@[i].device_id == device_id
    }

    /// Entry `i` is the one of `device_id`.
    pub open spec fn entry_of(&self, device_id: DeviceId, i: int) -> bool {
        0 <= i < self.devices@.len() && self.devices@[i].device_id == device_id
    }

    /// Entry `i` matches a reply from `src` to the request `invoke_id`.
    pub open spec fn matches_reply(&self, i: int, src: Address, invoke_id: RequestInvokeId) -> bool {
        &&& 0 <= i < self.devices@.len()
        &&& self.devices@[i].addr.same_as(src)
        &&& self.devices@[i].awaits(invoke_id)
    }

    /// Entry `i` is the first to match a reply from `src` to the request `invoke_id`.
    pub open spec fn first_match(&self, i: int, src: Address, invoke_id: RequestInvokeId) -> bool {
        &&& self.matches_reply(i, src, invoke_id)
        &&& forall|j: int| 0 <= j < i ==> !self.matches_reply(j, src, invoke_id)
    }

    /// An empty registry.
    pub fn new() -> (r: Self)
        ensures
            r.wf(),
            r.devices@.len() == 0,
    {
        Registry { devices: Vec::new() }
    }

    /// Index of the entry of `device_id`.
    pub fn find(&self, device_id: DeviceId) -> (r: Option<usize>)
        requires
            self.wf(),
        ensures
            r matches Some(i) ==> self.entry_of(device_id, i as int),
            r is None <==> !self.connected(device_id),
    {
        let mut i: usize = 0;
        while i < self.devices.len()
            invariant
                i <= self.devices@.len(),
                forall|j: int| 0 <= j < i ==> self.devices@[j].device_id != device_id,
            decreases self.devices@.len() - i,
        {
            if self.devices[i].device_id == device_id {
                return Some(i);
            }
            i = i + 1;
        }
        None
    }

    /// Whether `device_id` has an entry.
    pub fn is_connected(&self, device_id: DeviceId) -> (r: bool)
        requires
            self.wf(),
        ensures
            r == self.connected(device_id),
    {
        self.find(device_id).is_some()
    }

    /// Add an entry for a device reached at `addr`, with no request outstanding. An entry
    /// that the device had is replaced.
    pub fn connect(&mut self, device_id: DeviceId, addr: Address)
        requires
            old(self).wf(),
        ensures
            final(self).wf(),
            final(self).connected(device_id),
            forall|i: int|
                final(self).entry_of(device_id, i) ==> final(self).devices@[i].addr == addr
                    && final(self).devices@[i].request is None,
            forall|d: DeviceId| d != device_id ==> (final(self).connected(d) <==> old(self).connected(d)),
            forall|i: int|
                0 <= i < old(self).devices@.len() && old(self).devices@[i].device_id != device_id
                    ==> final(self).devices@.contains(old(self).devices@[i]),
    {
        let entry = TargetDevice { device_id, addr, request: None };
        match self.find(device_id) {
            Some(i) => {
                let ghost before = self.devices@;
                let _ = self.devices.remove(i);
                self.devices.insert(i, entry);
                assert(self.devices@ =~= before.update(i as int, entry));
                assert forall|j: int|
                    0 <= j < before.len() && before[j].device_id != device_id implies self.devices@.contains(
                    before[j]) by {
                    assert(self.devices@[j] == before[j]);
                }
                assert forall|d: DeviceId| d != device_id && old(self).connected(d) implies self.connected(d) by {
                    let k = choose|k: int| 0 <= k < before.len() && before[k].device_id == d;
                    assert(self.devices@[k] == before[k]);
                }
                assert forall|d: DeviceId| d != device_id && self.connected(d) implies old(self).connected(d) by {
                    let k = choose|k: int| 0 <= k < self.devices@.len() && self.devices@[k].device_id == d;
                    assert(before[k] == self.devices@[k]);
                }
                assert(self.entry_of(device_id, i as int));
            },
            None => {
                let ghost before = self.devices@;
                self.devices.push(entry);
                assert(self.devices@.last() == entry);
                assert forall|j: int|
                    0 <= j < before.len() && before[j].device_id != device_id implies self.devices@.contains(
                    before[j]) by {
                    assert(self.devices@[j] == before[j]);
                }
                assert forall|d: DeviceId| d != device_id && old(self).connected(d) implies self.connected(d) by {
                    let k = choose|k: int| 0 <= k < before.len() && before[k].device_id == d;
                    assert(self.devices@[k] == before[k]);
                }
                assert forall|d: DeviceId| d != device_id && self.connected(d) implies old(self).connected(d) by {
                    let k = choose|k: int| 0 <= k < self.devices@.len() && self.devices@[k].device_id == d;
                    assert(before[k] == self.devices@[k]);
                }
                assert(self.entry_of(device_id, before.len() as int));
            },
        }
    }

    /// Remove the entry of a device.
    pub fn disconnect(&mut self, device_id: DeviceId)
        requires
            old(self).wf(),
        ensures
            final(self).wf(),
            !final(self).connected(device_id),
            forall|d: DeviceId| d != device_id ==> (final(self).connected(d) <==> old(self).connected(d)),
    {
        if let Some(i) = self.find(device_id) {
            let ghost before = self.devices@;
            let _ = self.devices.remove(i);
            assert(self.devices@ =~= before.remove(i as int));
            assert forall|d: DeviceId| d != device_id && old(self).connected(d) implies self.connected(d) by {
                let k = choose|k: int| 0 <= k < before.len() && before[k].device_id == d;
                if k < i {
                    assert(self.devices@[k] == before[k]);
                } else {
                    assert(self.devices@[k - 1] == before[k]);
                }
            }
            assert forall|d: DeviceId| self.connected(d) implies old(self).connected(d) && d != device_id by {
                let k = choose|k: int| 0 <= k < self.devices@.len() && self.devices@[k].device_id == d;
                if k < i {
                    assert(before[k] == self.devices@[k]);
                } else {
                    assert(before[k + 1] == self.devices@[k]);
                }
            }
        }
    }
}

/// Why reading a property failed.
#[derive(Debug)]
pub enum ReadError {
    /// No entry for the device: it is not connected.
    NotConnected,
    /// No reply came before the deadline.
    ApduTimeout,
    /// The transport gave up on the request.
    TransportTimeout,
    /// The transport completed the request, but no reply was recorded for it.
    NoReply,
    /// The device rejected, aborted or failed the request.
    Protocol(BACnetErr),
    /// The acknowledgement did not decode.
    Decode(DecodeError),
}

/// What the wait loop does next.
#[derive(Debug)]
pub enum WaitStep {
    /// Receive and dispatch another datagram.
    Continue,
    /// The request is over, with this result.
    Finished(Result<BACnetValue, ReadError>),
}

/// The result that a request ends with, given its entry's request (already taken out).
pub open spec fn outcome_spec(request: Option<(RequestInvokeId, RequestStatus)>, result: Result<BACnetValue, ReadError>) -> bool {
    match request {
        Some((_, RequestStatus::Done(Ok(v)))) => result == Ok::<BACnetValue, ReadError>(v),
        Some((_, RequestStatus::Done(Err(e)))) => result == Err::<BACnetValue, ReadError>(ReadError::Decode(e)),
        Some((_, RequestStatus::Error(e))) => result == Err::<BACnetValue, ReadError>(ReadError::Protocol(e)),
        _ => result == Err::<BACnetValue, ReadError>(ReadError::NoReply),
    }
}

/// The value recorded for an acknowledgement: its application data, decoded in the context
/// of the property it was read from.
pub open spec fn ack_status_spec(data: Option<ReadPropertyData>, names: EnumNames, r: RequestStatus) -> bool {
    match data {
        Some(d) => r matches RequestStatus::Done(res) && result_model(res) == decode_spec(
            d.application_data@,
            names,
            d.object_property,
            d.object_type,
        ),
        None => r matches RequestStatus::Done(Err(e)) && e == DecodeError::Truncated,
    }
}

impl Registry {
    /// Mark a request as sent to `device_id` under `invoke_id`. A request that the device
    /// had outstanding is replaced.
    pub fn register_pending(&mut self, device_id: DeviceId, invoke_id: RequestInvokeId) -> (r: Result<(), ReadError>)
        requires
            old(self).wf(),
        ensures
            final(self).wf(),
            r is Ok <==> old(self).connected(device_id),
            r matches Err(e) ==> e is NotConnected && *final(self) == *old(self),
            final(self).devices@.len() == old(self).devices@.len(),
            forall|i: int|
                #![trigger final(self).devices@[i]]
                0 <= i < old(self).devices@.len() ==> {
                    let (a, b) = (old(self).devices@[i], final(self).devices@[i]);
                    &&& b.device_id == a.device_id
                    &&& b.addr == a.addr
                    &&& if a.device_id == device_id {
                        b.request matches Some((id, RequestStatus::Ongoing)) && id == invoke_id
                    } else {
                        b == a
                    }
                },
    {
        match self.find(device_id) {
            Some(i) => {
                let ghost before = self.devices@;
                let old_entry = self.devices.remove(i);
                let entry = TargetDevice {
                    device_id: old_entry.device_id,
                    addr: old_entry.addr,
                    request: Some((invoke_id, RequestStatus::Ongoing)),
                };
                self.devices.insert(i, entry);
                assert(self.devices@ =~= before.update(i as int, entry));
                Ok(())
            },
            None => Err(ReadError::NotConnected),
        }
    }

    /// Record the status that a reply from `src` to the request `invoke_id` brings. The
    /// first entry whose address matches `src` and that awaits `invoke_id` takes it; no
    /// other entry changes, so a reply never resolves a request of a device at another
    /// address, whatever its invoke id. Returns whether an entry matched.
    pub fn record_outcome(&mut self, src: &Address, invoke_id: RequestInvokeId, status: RequestStatus) -> (r: bool)
        requires
            old(self).wf(),
        ensures
            final(self).wf(),
            r <==> exists|i: int| old(self).matches_reply(i, *src, invoke_id),
            final(self).devices@.len() == old(self).devices@.len(),
            forall|i: int|
                #![trigger final(self).devices@[i]]
                0 <= i < old(self).devices@.len() ==> {
                    let (a, b) = (old(self).devices@[i], final(self).devices@[i]);
                    if old(self).first_match(i, *src, invoke_id) {
                        &&& b.device_id == a.device_id
                        &&& b.addr == a.addr
                        &&& b.request == Some((invoke_id, status))
                    } else {
                        b == a
                    }
                },
            forall|i: int|
                0 <= i < old(self).devices@.len() && !old(self).devices@[i].addr.same_as(*src)
                    ==> final(self).devices@[i] == old(self).devices@[i],
    {
        let mut i: usize = 0;
        while i < self.devices.len()
            invariant
                *self == *old(self),
                self.wf(),
                i <= self.devices@.len(),
                forall|j: int| 0 <= j < i ==> !self.matches_reply(j, *src, invoke_id),
            decreases self.devices@.len() - i,
        {
            let hit = match &self.devices[i].request {
                Some((id, _)) => *id == invoke_id && self.devices[i].addr.matches(src),
                None => false,
            };
            if hit {
                let ghost before = self.devices@;
                let old_entry = self.devices.remove(i);
                let entry = TargetDevice {
                    device_id: old_entry.device_id,
                    addr: old_entry.addr,
                    request: Some((invoke_id, status)),
                };
                self.devices.insert(i, entry);
                assert(self.devices@ =~= before.update(i as int, entry));
                assert(old(self).first_match(i as int, *src, invoke_id));
                assert forall|k: int| 0 <= k < before.len() && k != i implies !old(self).first_match(k, *src, invoke_id) by {
                    if k > i {
                        assert(old(self).matches_reply(i as int, *src, invoke_id));
                    }
                }
                return true;
            }
            i = i + 1;
        }
        false
    }

    /// An acknowledgement from `src` to the request `invoke_id` arrived, with its content
    /// if that decoded. The value is decoded and recorded as done; content that did not
    /// decode is recorded as a decoding error, so the request does not stay outstanding.
    pub fn on_ack(
        &mut self,
        src: &Address,
        invoke_id: RequestInvokeId,
        data: Option<ReadPropertyData>,
        names: &EnumNames,
    ) -> (r: bool)
        requires
            old(self).wf(),
        ensures
            final(self).wf(),
            r <==> exists|i: int| old(self).matches_reply(i, *src, invoke_id),
            final(self).devices@.len() == old(self).devices@.len(),
            forall|i: int|
                #![trigger final(self).devices@[i]]
                0 <= i < old(self).devices@.len() ==> {
                    let (a, b) = (old(self).devices@[i], final(self).devices@[i]);
                    if old(self).first_match(i, *src, invoke_id) {
                        &&& b.device_id == a.device_id
                        &&& b.addr == a.addr
                        &&& b.request matches Some((id, st)) && id == invoke_id && ack_status_spec(data, *names, st)
                    } else {
                        b == a
                    }
                },
    {
        let status = match &data {
            Some(d) => RequestStatus::Done(
                decode(d.application_data.as_slice(), names, d.object_property, d.object_type),
            ),
            None => RequestStatus::Done(Err(DecodeError::Truncated)),
        };
        self.record_outcome(src, invoke_id, status)
    }

    /// An error reply from `src` to the request `invoke_id` arrived, with its class and code
    /// and their names.
    pub fn on_error(
        &mut self,
        src: &Address,
        invoke_id: RequestInvokeId,
        class: u32,
        class_text: String,
        code: u32,
        code_text: String,
    ) -> (r: bool)
        requires
            old(self).wf(),
        ensures
            final(self).wf(),
            r <==> exists|i: int| old(self).matches_reply(i, *src, invoke_id),
            final(self).devices@.len() == old(self).devices@.len(),
            forall|i: int|
                #![trigger final(self).devices@[i]]
                0 <= i < old(self).devices@.len() ==> {
                    let (a, b) = (old(self).devices@[i], final(self).devices@[i]);
                    if old(self).first_match(i, *src, invoke_id) {
                        &&& b.device_id == a.device_id
                        &&& b.addr == a.addr
                        &&& b.request == Some((invoke_id, RequestStatus::Error(BACnetErr::Error { class_text, class, text: code_text, code })))
                    } else {
                        b == a
                    }
                },
    {
        let err = BACnetErr::Error { class_text, class, text: code_text, code };
        self.record_outcome(src, invoke_id, RequestStatus::Error(err))
    }

    /// An abort from `src` of the request `invoke_id` arrived, with its reason and the
    /// reason's name.
    pub fn on_abort(&mut self, src: &Address, invoke_id: RequestInvokeId, reason: u8, text: String) -> (r: bool)
        requires
            old(self).wf(),
        ensures
            final(self).wf(),
            r <==> exists|i: int| old(self).matches_reply(i, *src, invoke_id),
            final(self).devices@.len() == old(self).devices@.len(),
            forall|i: int|
                #![trigger final(self).devices@[i]]
                0 <= i < old(self).devices@.len() ==> {
                    let (a, b) = (old(self).devices@[i], final(self).devices@[i]);
                    if old(self).first_match(i, *src, invoke_id) {
                        &&& b.device_id == a.device_id
                        &&& b.addr == a.addr
                        &&& b.request == Some((invoke_id, RequestStatus::Error(BACnetErr::Aborted { text, code: reason })))
                    } else {
                        b == a
                    }
                },
    {
        self.record_outcome(src, invoke_id, RequestStatus::Error(BACnetErr::Aborted { text, code: reason }))
    }

    /// A rejection from `src` of the request `invoke_id` arrived, with its reason.
    pub fn on_reject(&mut self, src: &Address, invoke_id: RequestInvokeId, reason: u8) -> (r: bool)
        requires
            old(self).wf(),
        ensures
            final(self).wf(),
            r <==> exists|i: int| old(self).matches_reply(i, *src, invoke_id),
            final(self).devices@.len() == old(self).devices@.len(),
            forall|i: int|
                #![trigger final(self).devices@[i]]
                0 <= i < old(self).devices@.len() ==> {
                    let (a, b) = (old(self).devices@[i], final(self).devices@[i]);
                    if old(self).first_match(i, *src, invoke_id) {
                        &&& b.device_id == a.device_id
                        &&& b.addr == a.addr
                        &&& b.request == Some((invoke_id, RequestStatus::Error(BACnetErr::Rejected { code: reason })))
                    } else {
                        b == a
                    }
                },
    {
        self.record_outcome(src, invoke_id, RequestStatus::Error(BACnetErr::Rejected { code: reason }))
    }

    /// Take the request of `device_id` out of its entry and turn its status into the result
    /// of the read.
    pub fn take_outcome(&mut self, device_id: DeviceId) -> (r: Result<BACnetValue, ReadError>)
        requires
            old(self).wf(),
        ensures
            final(self).wf(),
            final(self).devices@.len() == old(self).devices@.len(),
            !old(self).connected(device_id) ==> r is Err && r->Err_0 is NotConnected && *final(self) == *old(self),
            forall|i: int|
                #![trigger final(self).devices@[i]]
                0 <= i < old(self).devices@.len() ==> {
                    let (a, b) = (old(self).devices@[i], final(self).devices@[i]);
                    if a.device_id == device_id {
                        &&& b.device_id == a.device_id
                        &&& b.addr == a.addr
                        &&& b.request is None
                        &&& outcome_spec(a.request, r)
                    } else {
                        b == a
                    }
                },
    {
        match self.find(device_id) {
            Some(i) => {
                let ghost before = self.devices@;
                let old_entry = self.devices.remove(i);
                let TargetDevice { device_id: id, addr, request } = old_entry;
                let entry = TargetDevice { device_id: id, addr, request: None };
                self.devices.insert(i, entry);
                assert(self.devices@ =~= before.update(i as int, entry));
                match request {
                    Some((_, RequestStatus::Done(Ok(v)))) => Ok(v),
                    Some((_, RequestStatus::Done(Err(e)))) => Err(ReadError::Decode(e)),
                    Some((_, RequestStatus::Error(e))) => Err(ReadError::Protocol(e)),
                    _ => Err(ReadError::NoReply),
                }
            },
            None => Err(ReadError::NotConnected),
        }
    }

    /// One turn of the wait for the request `invoke_id` of `device_id`, after a datagram
    /// was received and dispatched (or none came). `invoke_id_free` says the transport
    /// no longer tracks the request, `invoke_id_failed` that it gave up on it, and
    /// `elapsed_ms` how long the wait has lasted.
    ///
    /// When the transport is done with the request its result is taken out of the registry.
    /// When the deadline has passed first, the wait gives up with `ApduTimeout` and leaves
    /// the registry as it was, so that a late reply can still match the request.
    pub fn wait_step(
        &mut self,
        device_id: DeviceId,
        invoke_id_free: bool,
        invoke_id_failed: bool,
        elapsed_ms: u64,
        deadline_ms: u64,
    ) -> (r: WaitStep)
        requires
            old(self).wf(),
        ensures
            final(self).wf(),
            invoke_id_free ==> (r matches WaitStep::Finished(res) && {
                ||| (!old(self).connected(device_id) && res is Err && res->Err_0 is NotConnected && *final(self) == *old(self))
                ||| exists|i: int|
                    old(self).entry_of(device_id, i) && outcome_spec(old(self).devices@[i].request, res)
                        && final(self).devices@[i].request is None
                        && final(self).devices@ == old(self).devices@.update(i, final(self).devices@[i])
            }),
            !invoke_id_free ==> *final(self) == *old(self),
            !invoke_id_free && invoke_id_failed ==> (r matches WaitStep::Finished(Err(e)) && e is TransportTimeout),
            !invoke_id_free && !invoke_id_failed && elapsed_ms > deadline_ms ==> (r matches WaitStep::Finished(Err(e))
                && e is ApduTimeout),
            !invoke_id_free && !invoke_id_failed && elapsed_ms <= deadline_ms ==> r is Continue,
    {
        if invoke_id_free {
            let ghost before = *self;
            let res = self.take_outcome(device_id);
            proof {
                if before.connected(device_id) {
                    let i = choose|i: int| 0 <= i < before.devices@.len() && before.devices@[i].device_id == device_id;
                    assert(self.devices@ =~= before.devices@.update(i, self.devices@[i]));
                    assert(outcome_spec(before.devices@[i].request, res));
                    assert(before.entry_of(device_id, i));
                }
            }
            WaitStep::Finished(res)
        } else if invoke_id_failed {
            WaitStep::Finished(Err(ReadError::TransportTimeout))
        } else if elapsed_ms > deadline_ms {
            WaitStep::Finished(Err(ReadError::ApduTimeout))
        } else {
            WaitStep::Continue
        }
    }
}

} // verus!
