//! A snapshot of a device: its own properties and those of every object it lists.
use vstd::prelude::*;
use std::collections::HashMap;
use crate::interrogation::{ReadRequest, PROP_OBJECT_LIST, MAX_ARRAY_LEN};
use crate::registry::ReadError;
use crate::value::BACnetValue;

verus! {

/// Every property of a device and of its objects, by property name.
#[derive(Debug)]
pub struct Epics {
    pub device: HashMap<String, BACnetValue>,
    pub object_list: Vec<HashMap<String, BACnetValue>>,
}

/// Why the object list of a device could not be read.
#[derive(Debug)]
pub enum EpicsError {
    /// A read of the object list failed.
    Read(ReadError),
    /// The length of the object list was not an unsigned integer that fits an array index.
    NotALength,
}

/// Where the reading of the object list stands.
#[derive(Debug, Clone, Copy, PartialEq, Eq, Structural)]
pub enum ScanPhase {
    /// Reading the number of elements (element 0).
    Length,
    /// Reading element `k` of `n`.
    Element(u32, u32),
    /// Every read is done.
    Finished,
}

/// The reading of a device's object list, element by element, from element 2 on.
pub struct ObjectListScan {
    pub phase: ScanPhase,
    /// The objects found so far, as (object type, instance).
    pub object_ids: Vec<(u32, u32)>,
}

impl ObjectListScan {
    pub open spec fn wf(&self) -> bool {
        self.phase matches ScanPhase::Element(k, n) ==> 2 <= k <= n && n <= MAX_ARRAY_LEN
    }

    /// Start with the length of the list.
    pub fn new() -> (r: Self)
        ensures
            r.wf(),
            r.phase == ScanPhase::Length,
            r.object_ids@.len() == 0,
    {
        ObjectListScan { phase: ScanPhase::Length, object_ids: Vec::new() }
    }

    /// The read of the device's object list that comes next, or `None` when every read is done.
    pub fn next_request(&self) -> (r: Option<ReadRequest>)
        ensures
            match self.phase {
                ScanPhase::Length => r == Some(ReadRequest { property: PROP_OBJECT_LIST, index: 0 }),
                ScanPhase::Element(k, _) => r == Some(ReadRequest { property: PROP_OBJECT_LIST, index: k }),
                ScanPhase::Finished => r is None,
            },
    {
        match self.phase {
            ScanPhase::Length => Some(ReadRequest { property: PROP_OBJECT_LIST, index: 0 }),
            ScanPhase::Element(k, _) => Some(ReadRequest { property: PROP_OBJECT_LIST, index: k }),
            ScanPhase::Finished => None,
        }
    }

    /// Take in the result of the read that [`next_request`](Self::next_request) asked for.
    ///
    /// A failed read ends the scan with its error. An element that is an object identifier
    /// is kept; any other element is passed over.
    pub fn on_result(&mut self, result: Result<BACnetValue, ReadError>) -> (r: Result<(), EpicsError>)
        requires
            old(self).wf(),
            !(old(self).phase is Finished),
        ensures
            final(self).wf(),
            match (old(self).phase, result) {
                (_, Err(e)) => r == Err::<(), EpicsError>(EpicsError::Read(e)) && final(self).phase
                    == ScanPhase::Finished && final(self).object_ids@ == old(self).object_ids@,
                (ScanPhase::Length, Ok(BACnetValue::Uint(n))) => (r is Ok <==> n <= MAX_ARRAY_LEN) && (r is Err ==> r->Err_0 is NotALength) && final(self).object_ids@
                    == old(self).object_ids@ && if n < 2 {
                    final(self).phase == ScanPhase::Finished
                } else if n <= MAX_ARRAY_LEN {
                    final(self).phase == ScanPhase::Element(2, n as u32)
                } else {
                    final(self).phase == ScanPhase::Finished
                },
                (ScanPhase::Length, Ok(_)) => r == Err::<(), EpicsError>(EpicsError::NotALength)
                    && final(self).phase == ScanPhase::Finished && final(self).object_ids@
                    == old(self).object_ids@,
                (ScanPhase::Element(k, n), Ok(v)) => {
                    &&& r is Ok
                    &&& final(self).object_ids@ == match v {
                        BACnetValue::ObjectId { object_type, object_instance } => old(self).object_ids@.push(
                            (object_type, object_instance),
                        ),
                        _ => old(self).object_ids@,
                    }
                    &&& final(self).phase == if k == n {
                        ScanPhase::Finished
                    } else {
                        ScanPhase::Element((k + 1) as u32, n)
                    }
                },
                _ => true,
            },
    {
        match result {
            Err(e) => {
                self.phase = ScanPhase::Finished;
                Err(EpicsError::Read(e))
            },
            Ok(v) => match self.phase {
                ScanPhase::Length => match v {
                    BACnetValue::Uint(n) => {
                        if n < 2 {
                            self.phase = ScanPhase::Finished;
                            Ok(())
                        } else if n <= MAX_ARRAY_LEN {
                            self.phase = ScanPhase::Element(2, n as u32);
                            Ok(())
                        } else {
                            self.phase = ScanPhase::Finished;
                            Err(EpicsError::NotALength)
                        }
                    },
                    _ => {
                        self.phase = ScanPhase::Finished;
                        Err(EpicsError::NotALength)
                    },
                },
                ScanPhase::Element(k, n) => {
                    if let BACnetValue::ObjectId { object_type, object_instance } = v {
                        self.object_ids.push((object_type, object_instance));
                    }
                    if k == n {
                        self.phase = ScanPhase::Finished;
                    } else {
                        self.phase = ScanPhase::Element(k + 1, n);
                    }
                    Ok(())
                },
                ScanPhase::Finished => Ok(()),
            },
        }
    }

    /// The objects found, as (object type, instance).
    pub fn into_object_ids(self) -> (r: Vec<(u32, u32)>)
        ensures
            r@ == self.object_ids@,
    {
        self.object_ids
    }
}

} // verus!
