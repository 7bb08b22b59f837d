//! A remote device to talk to, and the builder that sets up its address.
use vstd::prelude::*;
use crate::address::{Address, Dadr, used};
use crate::registry::DeviceId;

verus! {

/// The standard BACnet/IP port, 0xBAC0.
pub const DEFAULT_PORT: u16 = 0xBAC0;

/// A remote device, by identifier and address.
#[derive(Debug)]
pub struct BACnetDevice {
    pub device_id: DeviceId,
    pub max_apdu: u32,
    pub addr: Address,
}

/// Settings of a device to connect to.
#[derive(Debug)]
pub struct BACnetDeviceBuilder {
    /// IPv4 address, as its four octets.
    pub ip: [u8; 4],
    pub dnet: u16,
    pub dadr: Dadr,
    pub port: u16,
    pub device_id: DeviceId,
}

/// The address of a device at `ip` and `port` on network `dnet`, where it has the routed
/// sub-address `dadr`: the link-layer address is the four octets of the IP address followed
/// by the port, most significant octet first.
pub open spec fn device_address(ip: [u8; 4], port: u16, dnet: u16, dadr: Dadr, a: Address) -> bool {
    &&& a.mac_len == 6
    &&& used(a.mac, 6) == ip@ + seq![(port / 256) as u8, (port % 256) as u8]
    &&& a.net == dnet
    &&& a.len == dadr.len
    &&& used(a.adr, a.len) == dadr.octets()
}

impl BACnetDevice {
    /// A builder with the default settings.
    pub fn builder() -> (r: BACnetDeviceBuilder)
        ensures
            r.ip@ == seq![127u8, 0, 0, 1],
            r.dnet == 0,
            r.dadr.octets() == seq![0u8],
            r.port == DEFAULT_PORT,
            r.device_id == 0,
    {
        BACnetDeviceBuilder::default()
    }
}

impl Default for BACnetDeviceBuilder {
    /// The local host on the standard port, on the local network, device 0.
    fn default() -> (r: Self)
        ensures
            r.ip@ == seq![127u8, 0, 0, 1],
            r.dnet == 0,
            r.dadr.octets() == seq![0u8],
            r.port == DEFAULT_PORT,
            r.device_id == 0,
    {
        let dadr = Dadr::new(&[0u8]);
        let r = BACnetDeviceBuilder { ip: [127u8, 0, 0, 1], dnet: 0, dadr, port: DEFAULT_PORT, device_id: 0 };
        assert(r.ip@ =~= seq![127u8, 0, 0, 1]);
        assert(dadr.octets() =~= seq![0u8]);
        r
    }
}

impl BACnetDeviceBuilder {
    pub fn ip(self, ip: [u8; 4]) -> (r: Self)
        ensures
            r == (BACnetDeviceBuilder { ip, ..self }),
    {
        BACnetDeviceBuilder { ip, ..self }
    }

    pub fn dnet(self, dnet: u16) -> (r: Self)
        ensures
            r == (BACnetDeviceBuilder { dnet, ..self }),
    {
        BACnetDeviceBuilder { dnet, ..self }
    }

    pub fn dadr(self, dadr: Dadr) -> (r: Self)
        ensures
            r == (BACnetDeviceBuilder { dadr, ..self }),
    {
        BACnetDeviceBuilder { dadr, ..self }
    }

    pub fn port(self, port: u16) -> (r: Self)
        ensures
            r == (BACnetDeviceBuilder { port, ..self }),
    {
        BACnetDeviceBuilder { port, ..self }
    }

    pub fn device_id(self, device_id: DeviceId) -> (r: Self)
        ensures
            r == (BACnetDeviceBuilder { device_id, ..self }),
    {
        BACnetDeviceBuilder { device_id, ..self }
    }

    /// The device these settings describe.
    pub fn build(self) -> (r: BACnetDevice)
        requires
            self.dadr.wf(),
        ensures
            r.device_id == self.device_id,
            r.max_apdu == 0,
            device_address(self.ip, self.port, self.dnet, self.dadr, r.addr),
    {
        let mut mac: [u8; 7] = [0u8; 7];
        mac[0] = self.ip[0];
        mac[1] = self.ip[1];
        mac[2] = self.ip[2];
        mac[3] = self.ip[3];
        mac[4] = (self.port / 256) as u8;
        mac[5] = (self.port % 256) as u8;
        let mut adr: [u8; 7] = [0u8; 7];
        let n = self.dadr.len;
        let mut i: usize = 0;
        while i < n
            invariant
                n == self.dadr.len,
                n <= 6,
                i <= n,
                forall|j: int| 0 <= j < i ==> adr@[j] == self.dadr.adr@[j],
            decreases n - i,
        {
            adr[i] = self.dadr.adr[i];
            i = i + 1;
        }
        let addr = Address { mac_len: 6, mac, net: self.dnet, len: n as u8, adr };
        assert(used(addr.mac, 6) =~= self.ip@ + seq![(self.port / 256) as u8, (self.port % 256) as u8]);
        assert(used(addr.adr, addr.len) =~= self.dadr.octets());
        BACnetDevice { device_id: self.device_id, max_apdu: 0, addr }
    }
}

} // verus!
