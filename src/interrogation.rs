//! Reading every property of an object, one correlated read at a time.
//!
//! An [`Interrogation`] decides which read comes next and what each result adds to the
//! snapshot; whoever holds the transport performs the reads and hands the results back.
use vstd::prelude::*;
use std::collections::HashMap;
use crate::registry::{BACnetErr, ReadError};
use crate::value::BACnetValue;

verus! {

broadcast use vstd::std_specs::hash::group_hash_axioms;

/// The object-list property, read an element at a time elsewhere.
pub const PROP_OBJECT_LIST: u32 = 76;
/// Array index that reads a property whole.
pub const BACNET_ARRAY_ALL: u32 = 0xFFFF_FFFF;
/// Most properties that one interrogation reads.
pub const MAX_PROPERTIES: usize = 130;
/// Longest array read an element at a time: every index must stay below `BACNET_ARRAY_ALL`.
pub const MAX_ARRAY_LEN: u64 = 0xFFFF_FFFE;

/// One read: a property of the object, whole or at one array index (index 0 is the
/// array's length).
#[derive(Debug, Clone, Copy, PartialEq, Eq, Structural)]
pub struct ReadRequest {
    pub property: u32,
    pub index: u32,
}

/// Where an interrogation stands.
#[derive(Debug, Clone, Copy, PartialEq, Eq, Structural)]
pub enum Phase {
    /// Reading required property `i`.
    Required(usize),
    /// Reading optional property `i`.
    Optional(usize),
    /// Reading the length of optional property `i`, an array that must be read by element.
    ArrayLength(usize),
    /// Reading element `k` (counting from 1) of the `n` of optional property `i`.
    ArrayElement(usize, u32, u32),
    /// Every read is done.
    Finished,
}

/// The reads of one object's properties and the values they gave.
pub struct Interrogation {
    pub required: Vec<u32>,
    pub optional: Vec<u32>,
    pub phase: Phase,
    /// Elements read so far of the array in progress.
    pub elements: Vec<BACnetValue>,
    /// Values read, by property.
    pub results: HashMap<u32, BACnetValue>,
}

/// The first required property from `i` on that is read whole (all but the object list).
pub open spec fn next_required(req: Seq<u32>, i: int) -> int
    decreases req.len() - i,
{
    if i >= req.len() || req[i] != PROP_OBJECT_LIST {
        i
    } else {
        next_required(req, i + 1)
    }
}

/// The phase that reading optional properties from `i` on starts with.
pub open spec fn optional_from(opt: Seq<u32>, i: int) -> Phase {
    if 0 <= i < opt.len() {
        Phase::Optional(i as usize)
    } else {
        Phase::Finished
    }
}

/// The phase that reading required properties from `i` on starts with.
pub open spec fn required_from(req: Seq<u32>, opt: Seq<u32>, i: int) -> Phase {
    if next_required(req, i) < req.len() {
        Phase::Required(next_required(req, i) as usize)
    } else {
        optional_from(opt, 0)
    }
}

/// At most `n` first items of `s`.
pub open spec fn first_n(s: Seq<u32>, n: int) -> Seq<u32> {
    if s.len() <= n {
        s
    } else {
        s.subrange(0, n)
    }
}

pub proof fn lemma_next_required(req: Seq<u32>, i: int)
    requires
        0 <= i,
    ensures
        i <= next_required(req, i),
        next_required(req, i) < req.len() ==> req[next_required(req, i)] != PROP_OBJECT_LIST,
        forall|j: int| i <= j < next_required(req, i) && j < req.len() ==> req[j] == PROP_OBJECT_LIST,
    decreases req.len() - i,
{
    if i < req.len() && req[i] == PROP_OBJECT_LIST {
        lemma_next_required(req, i + 1);
    }
}

/// Copy of at most `n` first items of `s`.
fn take_first(s: &Vec<u32>, n: usize) -> (r: Vec<u32>)
    ensures
        r@ == first_n(s@, n as int),
{
    let mut r: Vec<u32> = Vec::new();
    let mut i: usize = 0;
    while i < s.len() && i < n
        invariant
            i <= s@.len(),
            i <= n,
            r@ == s@.subrange(0, i as int),
        decreases s@.len() - i,
    {
        r.push(s[i]);
        i = i + 1;
        assert(r@ =~= s@.subrange(0, i as int));
    }
    assert(s@.len() <= n ==> s@.subrange(0, i as int) =~= s@);
    r
}

impl Interrogation {
    /// The phase is one that the lists allow, and no array is in progress outside
    /// the reading of one.
    pub open spec fn wf(&self) -> bool {
        &&& match self.phase {
            Phase::Required(i) => i < self.required@.len() && self.required@[i as int] != PROP_OBJECT_LIST,
            Phase::Optional(i) => i < self.optional@.len(),
            Phase::ArrayLength(i) => i < self.optional@.len(),
            Phase::ArrayElement(i, k, n) => i < self.optional@.len() && 1 <= k <= n && n <= MAX_ARRAY_LEN,
            Phase::Finished => true,
        }
        &&& !(self.phase is ArrayElement) ==> self.elements@.len() == 0
        &&& self.required@.len() <= MAX_PROPERTIES
        &&& self.optional@.len() <= MAX_PROPERTIES
    }

    /// Plan the reads of an object whose required and optional properties are listed. At
    /// most `MAX_PROPERTIES` properties are read, the required ones first; the object list
    /// is not read whole, and counts as one of them.
    pub fn new(required: &Vec<u32>, optional: &Vec<u32>) -> (r: Self)
        ensures
            r.wf(),
            r.required@ == first_n(required@, MAX_PROPERTIES as int),
            r.optional@ == first_n(optional@, MAX_PROPERTIES - r.required@.len()),
            r.phase == required_from(r.required@, r.optional@, 0),
            r.results@ == Map::<u32, BACnetValue>::empty(),
            r.elements@.len() == 0,
    {
        let req = take_first(required, MAX_PROPERTIES);
        let opt = take_first(optional, MAX_PROPERTIES - req.len());
        let phase = Self::settle_required(&req, &opt, 0);
        Interrogation { required: req, optional: opt, phase, elements: Vec::new(), results: HashMap::new() }
    }

    /// The phase that reading required properties from `i` on starts with.
    fn settle_required(req: &Vec<u32>, opt: &Vec<u32>, i: usize) -> (r: Phase)
        ensures
            r == required_from(req@, opt@, i as int),
            r matches Phase::Required(j) ==> j < req@.len() && req@[j as int] != PROP_OBJECT_LIST,
            r matches Phase::Optional(j) ==> j < opt@.len(),
            !(r is ArrayLength) && !(r is ArrayElement),
    {
        let mut j: usize = i;
        proof {
            lemma_next_required(req@, i as int);
        }
        while j < req.len() && req[j] == PROP_OBJECT_LIST
            invariant
                i <= j,
                next_required(req@, j as int) == next_required(req@, i as int),
            decreases req@.len() - j,
        {
            j = j + 1;
        }
        proof {
            lemma_next_required(req@, j as int);
        }
        if j < req.len() {
            Phase::Required(j)
        } else {
            Self::settle_optional(opt, 0)
        }
    }

    /// The phase that reading optional properties from `i` on starts with.
    fn settle_optional(opt: &Vec<u32>, i: usize) -> (r: Phase)
        ensures
            r == optional_from(opt@, i as int),
    {
        if i < opt.len() {
            Phase::Optional(i)
        } else {
            Phase::Finished
        }
    }

    /// The read that comes next, or `None` when every read is done.
    pub fn next_request(&self) -> (r: Option<ReadRequest>)
        requires
            self.wf(),
        ensures
            match self.phase {
                Phase::Required(i) => r == Some(ReadRequest { property: self.required@[i as int], index: BACNET_ARRAY_ALL }),
                Phase::Optional(i) => r == Some(ReadRequest { property: self.optional@[i as int], index: BACNET_ARRAY_ALL }),
                Phase::ArrayLength(i) => r == Some(ReadRequest { property: self.optional@[i as int], index: 0 }),
                Phase::ArrayElement(i, k, _) => r == Some(ReadRequest { property: self.optional@[i as int], index: k }),
                Phase::Finished => r is None,
            },
    {
        match self.phase {
            Phase::Required(i) => Some(ReadRequest { property: self.required[i], index: BACNET_ARRAY_ALL }),
            Phase::Optional(i) => Some(ReadRequest { property: self.optional[i], index: BACNET_ARRAY_ALL }),
            Phase::ArrayLength(i) => Some(ReadRequest { property: self.optional[i], index: 0 }),
            Phase::ArrayElement(i, k, _) => Some(ReadRequest { property: self.optional[i], index: k }),
            Phase::Finished => None,
        }
    }

    /// Whether every read is done.
    pub fn is_finished(&self) -> (r: bool)
        ensures
            r == (self.phase is Finished),
    {
        matches!(self.phase, Phase::Finished)
    }

    /// Take in the result of the read that [`next_request`](Self::next_request) asked for.
    ///
    /// A value that was read is kept under its property. A failed read of a required
    /// property, or of an optional one, is passed over, except an optional property that
    /// the device cannot send in one reply: that one is then read an element at a time,
    /// starting from its length (element 0). Elements that fail are left out of the array;
    /// a length that is not an unsigned integer leaves the property out.
    pub fn on_result(&mut self, result: Result<BACnetValue, ReadError>)
        requires
            old(self).wf(),
            !(old(self).phase is Finished),
        ensures
            final(self).wf(),
            final(self).required@ == old(self).required@,
            final(self).optional@ == old(self).optional@,
            ({
                let req = old(self).required@;
                let opt = old(self).optional@;
                let (before, after) = (old(self).results@, final(self).results@);
                match old(self).phase {
                    Phase::Required(i) => {
                        &&& final(self).phase == required_from(req, opt, i + 1)
                        &&& after == match result {
                            Ok(v) => before.insert(req[i as int], v),
                            Err(_) => before,
                        }
                    },
                    Phase::Optional(i) => match result {
                        Ok(v) => final(self).phase == optional_from(opt, i + 1) && after == before.insert(
                            opt[i as int],
                            v,
                        ),
                        Err(ReadError::Protocol(e)) => after == before && if e.is_segmentation_not_supported() {
                            final(self).phase == Phase::ArrayLength(i)
                        } else {
                            final(self).phase == optional_from(opt, i + 1)
                        },
                        Err(_) => after == before && final(self).phase == optional_from(opt, i + 1),
                    },
                    Phase::ArrayLength(i) => match result {
                        Ok(BACnetValue::Uint(n)) => if n == 0 {
                            &&& final(self).phase == optional_from(opt, i + 1)
                            &&& after.dom() == before.dom().insert(opt[i as int])
                            &&& forall|p: u32| p != opt[i as int] && before.contains_key(p) ==> after[p] == before[p]
                            &&& after[opt[i as int]] matches BACnetValue::Array(items) && items@.len() == 0
                        } else if n <= MAX_ARRAY_LEN {
                            &&& final(self).phase == Phase::ArrayElement(i, 1, n as u32)
                            &&& after == before
                        } else {
                            final(self).phase == optional_from(opt, i + 1) && after == before
                        },
                        _ => final(self).phase == optional_from(opt, i + 1) && after == before,
                    },
                    Phase::ArrayElement(i, k, n) => {
                        let elements = match result {
                            Ok(v) => old(self).elements@.push(v),
                            Err(_) => old(self).elements@,
                        };
                        if k == n {
                            &&& final(self).phase == optional_from(opt, i + 1)
                            &&& after.dom() == before.dom().insert(opt[i as int])
                            &&& forall|p: u32| p != opt[i as int] && before.contains_key(p) ==> after[p] == before[p]
                            &&& after[opt[i as int]] matches BACnetValue::Array(items) && items@ == elements
                        } else {
                            &&& final(self).phase == Phase::ArrayElement(i, (k + 1) as u32, n)
                            &&& after == before
                            &&& final(self).elements@ == elements
                        }
                    },
                    Phase::Finished => true,
                }
            }),
    {
        match self.phase {
            Phase::Required(i) => {
                if let Ok(v) = result {
                    self.results.insert(self.required[i], v);
                }
                self.phase = Self::settle_required(&self.required, &self.optional, i + 1);
            },
            Phase::Optional(i) => {
                match result {
                    Ok(v) => {
                        self.results.insert(self.optional[i], v);
                        self.phase = Self::settle_optional(&self.optional, i + 1);
                    },
                    Err(ReadError::Protocol(BACnetErr::Aborted { code, .. })) => {
                        if code == crate::registry::ABORT_SEGMENTATION_NOT_SUPPORTED {
                            self.phase = Phase::ArrayLength(i);
                        } else {
                            self.phase = Self::settle_optional(&self.optional, i + 1);
                        }
                    },
                    Err(_) => {
                        self.phase = Self::settle_optional(&self.optional, i + 1);
                    },
                }
            },
            Phase::ArrayLength(i) => {
                match result {
                    Ok(BACnetValue::Uint(n)) => {
                        if n == 0 {
                            self.results.insert(self.optional[i], BACnetValue::Array(Vec::new()));
                            self.phase = Self::settle_optional(&self.optional, i + 1);
                        } else if n <= MAX_ARRAY_LEN {
                            self.phase = Phase::ArrayElement(i, 1, n as u32);
                        } else {
                            self.phase = Self::settle_optional(&self.optional, i + 1);
                        }
                    },
                    _ => {
                        self.phase = Self::settle_optional(&self.optional, i + 1);
                    },
                }
            },
            Phase::ArrayElement(i, k, n) => {
                if let Ok(v) = result {
                    self.elements.push(v);
                }
                if k == n {
                    let mut items: Vec<BACnetValue> = Vec::new();
                    std::mem::swap(&mut items, &mut self.elements);
                    self.results.insert(self.optional[i], BACnetValue::Array(items));
                    self.phase = Self::settle_optional(&self.optional, i + 1);
                } else {
                    self.phase = Phase::ArrayElement(i, k + 1, n);
                }
            },
            Phase::Finished => {},
        }
    }

    /// The values read, by property.
    pub fn into_results(self) -> (r: HashMap<u32, BACnetValue>)
        ensures
            r@ == self.results@,
    {
        self.results
    }
}

} // verus!
