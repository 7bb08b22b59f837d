use vstd::prelude::*;

verus! {

/// Largest number of octets in a routed sub-address.
pub const MAX_DADR_LEN: usize = 6;

/// A routed sub-address: up to six octets, of which the first `len` are used.
#[derive(Debug, Clone, Copy)]
pub struct Dadr {
    pub adr: [u8; 6],
    pub len: usize,
}

impl Dadr {
    /// Well-formed: between one and six octets are used.
    pub open spec fn wf(&self) -> bool {
        1 <= self.len <= MAX_DADR_LEN
    }

    /// The octets in use.
    pub open spec fn octets(&self) -> Seq<u8> {
        self.adr@.subrange(0, self.len as int)
    }

    /// Build a sub-address from its octets.
    pub fn new(dadr: &[u8]) -> (r: Self)
        requires
            1 <= dadr@.len() <= MAX_DADR_LEN,
        ensures
            r.wf(),
            r.len == dadr@.len(),
            r.octets() == dadr@,
            forall|i: int| dadr@.len() <= i < 6 ==> r.adr@[i] == 0,
    {
        let len = dadr.len();
        let mut adr: [u8; 6] = [0u8; 6];
        let mut i: usize = 0;
        while i < len
            invariant
                len == dadr@.len(),
                len <= 6,
                i <= len,
                forall|j: int| 0 <= j < i ==> adr@[j] == dadr@[j],
                forall|j: int| len <= j < 6 ==> adr@[j] == 0,
            decreases len - i,
        {
            adr[i] = dadr[i];
            i = i + 1;
        }
        let r = Dadr { adr, len };
        assert(r.octets() =~= dadr@);
        r
    }

    /// Build a sub-address from the first `len` octets of `dadr`.
    pub fn from_parts(dadr: &[u8], len: usize) -> (r: Self)
        requires
            1 <= len <= MAX_DADR_LEN,
            len <= dadr@.len(),
        ensures
            r.wf(),
            r.len == len,
            r.octets() == dadr@.subrange(0, len as int),
    {
        let mut head: Vec<u8> = Vec::new();
        let mut i: usize = 0;
        while i < len
            invariant
                i <= len,
                len <= dadr@.len(),
                head@ == dadr@.subrange(0, i as int),
            decreases len - i,
        {
            head.push(dadr[i]);
            i = i + 1;
            assert(head@ =~= dadr@.subrange(0, i as int));
        }
        Self::new(head.as_slice())
    }
}

/// Largest number of octets in a link-layer address.
pub const MAX_MAC_LEN: usize = 7;

/// A device's network address: its link-layer address, its network number (0 for the local
/// network) and, on a remote network, its address there.
#[derive(Debug, Clone, Copy)]
pub struct Address {
    pub mac_len: u8,
    pub mac: [u8; 7],
    pub net: u16,
    pub len: u8,
    pub adr: [u8; 7],
}

/// The first `len` octets of `a`, at most all seven.
pub open spec fn used(a: [u8; 7], len: u8) -> Seq<u8> {
    a@.subrange(0, if len > 7 { 7 } else { len as int })
}

impl Address {
    /// Two addresses match when their link-layer addresses and network numbers agree and,
    /// off the local network, their remote addresses agree too.
    pub open spec fn same_as(&self, other: Address) -> bool {
        &&& self.mac_len == other.mac_len
        &&& used(self.mac, self.mac_len) == used(other.mac, other.mac_len)
        &&& self.net == other.net
        &&& (self.net == 0 || (self.len == other.len && used(self.adr, self.len) == used(
            other.adr,
            other.len,
        )))
    }

    /// Whether a reply from `other` comes from this address.
    pub fn matches(&self, other: &Address) -> (r: bool)
        ensures
            r == self.same_as(*other),
    {
        if self.mac_len != other.mac_len {
            return false;
        }
        if !prefix_equal(&self.mac, &other.mac, self.mac_len) {
            return false;
        }
        if self.net != other.net {
            return false;
        }
        if self.net == 0 {
            return true;
        }
        if self.len != other.len {
            return false;
        }
        prefix_equal(&self.adr, &other.adr, self.len)
    }
}

/// Whether the first `len` octets (at most seven) of `a` and `b` agree.
fn prefix_equal(a: &[u8; 7], b: &[u8; 7], len: u8) -> (r: bool)
    ensures
        r == (used(*a, len) == used(*b, len)),
{
    let n: usize = if len > 7 { 7 } else { len as usize };
    let mut i: usize = 0;
    while i < n
        invariant
            n <= 7,
            n == (if len > 7 { 7 } else { len as int }),
            i <= n,
            forall|j: int| 0 <= j < i ==> a@[j] == b@[j],
        decreases n - i,
    {
        if a[i] != b[i] {
            assert(used(*a, len)[i as int] != used(*b, len)[i as int]);
            return false;
        }
        i = i + 1;
    }
    assert(used(*a, len) =~= used(*b, len));
    true
}

} // verus!
