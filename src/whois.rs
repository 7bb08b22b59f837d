//! Discovery of devices: a Who-Is broadcast, and the I-Am replies it brings.
use vstd::prelude::*;
use std::time::Duration;
use crate::address::{Address, Dadr};
use crate::codec::{decode_first, decode_spec, value_len_spec, DecodeError, EnumNames};
use crate::value::{BACnetValue, ValueModel};

verus! {

/// Object type of devices.
pub const OBJECT_DEVICE: u32 = 8;

/// Relies on `Duration::from_secs` to build a duration; nothing is assumed of its value.
pub assume_specification[ core::time::Duration::from_secs ](secs: u64) -> core::time::Duration;

/// A BACnet device that responded with I-Am in response to the Who-Is we sent out.
#[derive(Debug)]
pub struct IAmDevice {
    pub device_id: u32,
    pub max_apdu: u32,
    pub vendor_id: u16,
    pub mac_addr: [u8; 6],
    pub network_number: u16,
    pub addr: Dadr,
}

/// Settings of a discovery.
pub struct WhoIs {
    /// How long to wait until we stop listening for I-Am requests.
    timeout: Duration,
    /// Restrict whois query to the given subnet, default is `None` which means a global broadcast.
    subnet: Option<u16>,
}

/// The devices that replied to a Who-Is, in the order their replies came.
pub struct Discovery {
    pub devices: Vec<IAmDevice>,
}

/// The value at the start of `b`, read where no enumeration is named.
pub open spec fn field_spec(b: Seq<u8>) -> Result<ValueModel, DecodeError> {
    decode_spec(b, arbitrary(), 0, 0)
}

/// What follows the value at the start of `b`.
pub open spec fn rest_spec(b: Seq<u8>) -> Seq<u8> {
    b.subrange(value_len_spec(b), b.len() as int)
}

/// The device instance, largest reply size and vendor of an I-Am request: a device's object
/// identifier, an unsigned integer, the segmentation it supports (an enumeration) and a
/// vendor identifier that fits 16 bits.
pub open spec fn i_am_spec(b: Seq<u8>) -> Option<(u32, u32, u16)> {
    let b2 = rest_spec(b);
    let b3 = rest_spec(b2);
    let b4 = rest_spec(b3);
    match (field_spec(b), field_spec(b2), field_spec(b3), field_spec(b4)) {
        (
            Ok(ValueModel::ObjectId { object_type, object_instance }),
            Ok(ValueModel::Uint(max_apdu)),
            Ok(ValueModel::Enum(_, _)),
            Ok(ValueModel::Uint(vendor)),
        ) => if object_type == OBJECT_DEVICE && max_apdu <= u32::MAX && vendor <= u16::MAX {
            Some((object_instance, max_apdu as u32, vendor as u16))
        } else {
            None
        },
        _ => None,
    }
}

/// The first (up to six) octets of the link-layer address of `src`, then zeros.
pub open spec fn mac_of(mac: [u8; 6], src: Address) -> bool {
    forall|i: int|
        0 <= i < 6 ==> mac@[i] == if i < src.mac_len {
            src.mac@[i]
        } else {
            0u8
        }
}

/// The remote address of `src`: its own off the local network when it has one to six
/// octets, else the single octet 0.
pub open spec fn remote_of(src: Address) -> Seq<u8> {
    if src.net > 0 && 1 <= src.len <= 6 {
        src.adr@.subrange(0, src.len as int)
    } else {
        seq![0u8]
    }
}

/// Where no enumeration is named, the name tables make no difference.
proof fn lemma_names_unused(b: Seq<u8>, names: EnumNames)
    ensures
        decode_spec(b, names, 0, 0) == field_spec(b),
{
}

/// Decode the value at the start of `b`, where no enumeration is named.
fn read_field(b: &[u8], names: &EnumNames) -> (r: Result<(BACnetValue, usize), DecodeError>)
    ensures
        match r {
            Ok((v, n)) => field_spec(b@) == Ok::<ValueModel, DecodeError>(v.model()) && n == value_len_spec(b@)
                && n <= b@.len(),
            Err(e) => field_spec(b@) is Err,
        },
{
    proof {
        lemma_names_unused(b@, *names);
    }
    decode_first(b, names, 0, 0)
}

impl IAmDevice {
    /// The device that an I-Am request from `src` announces, or `None` where the request
    /// does not decode. Up to six octets of the link-layer address are kept; the remote
    /// address is kept off the local network when it has one to six octets.
    pub fn from_reply(request: &[u8], src: &Address) -> (r: Option<IAmDevice>)
        ensures
            match i_am_spec(request@) {
                Some((device_id, max_apdu, vendor_id)) => r matches Some(d) && d.device_id == device_id
                    && d.max_apdu == max_apdu && d.vendor_id == vendor_id && d.network_number == src.net
                    && d.addr.wf() && mac_of(d.mac_addr, *src) && d.addr.octets() == remote_of(*src),
                None => r is None,
            },
    {
        let names = EnumNames { units: Vec::new(), object_types: Vec::new(), binary_states: Vec::new() };
        let (v1, n1) = match read_field(request, &names) {
            Ok(x) => x,
            Err(_) => return None,
        };
        let b2 = &request[n1..request.len()];
        let (v2, n2) = match read_field(b2, &names) {
            Ok(x) => x,
            Err(_) => return None,
        };
        let b3 = &b2[n2..b2.len()];
        let (v3, n3) = match read_field(b3, &names) {
            Ok(x) => x,
            Err(_) => return None,
        };
        let b4 = &b3[n3..b3.len()];
        let (v4, _) = match read_field(b4, &names) {
            Ok(x) => x,
            Err(_) => return None,
        };
        let device_id = match v1 {
            BACnetValue::ObjectId { object_type, object_instance } => {
                if object_type != OBJECT_DEVICE {
                    return None;
                }
                object_instance
            },
            _ => return None,
        };
        let max_apdu = match v2 {
            BACnetValue::Uint(m) => {
                if m > 0xffff_ffff {
                    return None;
                }
                m as u32
            },
            _ => return None,
        };
        match v3 {
            BACnetValue::Enum(_, _) => {},
            _ => return None,
        }
        let vendor_id = match v4 {
            BACnetValue::Uint(m) => {
                if m > 0xffff {
                    return None;
                }
                m as u16
            },
            _ => return None,
        };
        let mut mac_addr: [u8; 6] = [0u8; 6];
        let mac_len: usize = if src.mac_len > 6 { 6 } else { src.mac_len as usize };
        let mut i: usize = 0;
        while i < mac_len
            invariant
                mac_len <= 6,
                mac_len == (if src.mac_len > 6 { 6 } else { src.mac_len as int }),
                i <= mac_len,
                forall|j: int| 0 <= j < i ==> mac_addr@[j] == src.mac@[j],
                forall|j: int| mac_len <= j < 6 ==> mac_addr@[j] == 0,
            decreases mac_len - i,
        {
            mac_addr[i] = src.mac[i];
            i = i + 1;
        }
        let addr = if src.net > 0 && 1 <= src.len && src.len <= 6 {
            Dadr::from_parts(&src.adr, src.len as usize)
        } else {
            let d = Dadr::new(&[0u8]);
            assert(d.octets() =~= seq![0u8]);
            d
        };
        Some(IAmDevice { device_id, max_apdu, vendor_id, mac_addr, network_number: src.net, addr })
    }
}

impl Discovery {
    /// No device has replied yet.
    pub fn new() -> (r: Self)
        ensures
            r.devices@.len() == 0,
    {
        Discovery { devices: Vec::new() }
    }

    /// An I-Am request from `src` arrived: the device it announces is added, if it decodes.
    pub fn on_i_am(&mut self, request: &[u8], src: &Address) -> (r: bool)
        ensures
            r == i_am_spec(request@) is Some,
            r ==> final(self).devices@.len() == old(self).devices@.len() + 1
                && final(self).devices@.subrange(0, old(self).devices@.len() as int) == old(self).devices@
                && final(self).devices@.last().device_id == i_am_spec(request@)->Some_0.0,
            !r ==> final(self).devices@ == old(self).devices@,
    {
        match IAmDevice::from_reply(request, src) {
            Some(d) => {
                self.devices.push(d);
                assert(self.devices@.subrange(0, old(self).devices@.len() as int) =~= old(self).devices@);
                true
            },
            None => false,
        }
    }
}

impl WhoIs {
    /// How long to listen for replies.
    pub closed spec fn spec_timeout(&self) -> Duration {
        self.timeout
    }

    /// The network the query goes to, or `None` for a global broadcast.
    pub closed spec fn spec_subnet(&self) -> Option<u16> {
        self.subnet
    }

    /// A global broadcast, listening for three seconds.
    pub fn new() -> (r: WhoIs)
        ensures
            r.spec_subnet() is None,
    {
        WhoIs { timeout: Duration::from_secs(3), subnet: None }
    }

    /// Set the amount of time to wait for I-Am requests to come in.
    pub fn timeout(self, timeout: Duration) -> (r: Self)
        ensures
            r.spec_timeout() == timeout,
            r.spec_subnet() == self.spec_subnet(),
    {
        WhoIs { timeout, subnet: self.subnet }
    }

    /// Restrict the query to a network, or (with `None`) broadcast it globally.
    pub fn subnet(self, subnet: Option<u16>) -> (r: Self)
        ensures
            r.spec_timeout() == self.spec_timeout(),
            r.spec_subnet() == subnet,
    {
        WhoIs { timeout: self.timeout, subnet }
    }

    /// How long to listen for replies.
    pub fn listen_timeout(&self) -> (r: Duration)
        ensures
            r == self.spec_timeout(),
    {
        self.timeout
    }

    /// The network the query goes to, or `None` for a global broadcast.
    pub fn target_network(&self) -> (r: Option<u16>)
        ensures
            r == self.spec_subnet(),
    {
        self.subnet
    }

    /// End the discovery: the devices that replied, in the order their replies came.
    pub fn execute(self, discovery: Discovery) -> (r: Result<Vec<IAmDevice>, ()>)
        ensures
            r matches Ok(d) && d@ == discovery.devices@,
    {
        Ok(discovery.devices)
    }
}

} // verus!
