use bacnet::address::{Address, Dadr};
use bacnet::device::BACnetDevice;
use bacnet::epics::{EpicsError, ObjectListScan};
use bacnet::interrogation::{ReadRequest, PROP_OBJECT_LIST};
use bacnet::registry::ReadError;
use bacnet::value::BACnetValue;
use bacnet::whois::{Discovery, IAmDevice, WhoIs};
use std::time::Duration;

#[test]
fn dadr_keeps_its_octets() {
    let d = Dadr::new(&[14, 15]);
    assert_eq!(d.len, 2);
    assert_eq!(d.adr, [14, 15, 0, 0, 0, 0]);
    let d = Dadr::from_parts(&[1, 2, 3, 4, 5, 6, 7], 3);
    assert_eq!(d.len, 3);
    assert_eq!(d.adr, [1, 2, 3, 0, 0, 0]);
}

#[test]
fn builder_sets_up_the_address() {
    let dev = BACnetDevice::builder()
        .ip([192, 168, 10, 96])
        .port(0xBAC1)
        .dnet(5)
        .dadr(Dadr::new(&[14]))
        .device_id(1025)
        .build();
    assert_eq!(dev.device_id, 1025);
    assert_eq!(dev.max_apdu, 0);
    assert_eq!(dev.addr.mac_len, 6);
    assert_eq!(&dev.addr.mac[..6], &[192, 168, 10, 96, 0xBA, 0xC1]);
    assert_eq!(dev.addr.net, 5);
    assert_eq!(dev.addr.len, 1);
    assert_eq!(dev.addr.adr[0], 14);
}

#[test]
fn builder_defaults() {
    let dev = BACnetDevice::builder().build();
    assert_eq!(&dev.addr.mac[..6], &[127, 0, 0, 1, 0xBA, 0xC0]);
    assert_eq!(dev.addr.net, 0);
    assert_eq!(dev.addr.len, 1);
    assert_eq!(dev.device_id, 0);
}

fn i_am_request() -> Vec<u8> {
    vec![0xC4, 0x02, 0x00, 0x00, 0x7B, 0x22, 0x01, 0xE0, 0x91, 0x00, 0x21, 0x0F]
}

fn source() -> Address {
    Address { mac_len: 6, mac: [10, 0, 0, 7, 0xBA, 0xC0, 0], net: 5, len: 2, adr: [3, 4, 0, 0, 0, 0, 0] }
}

#[test]
fn i_am_reply_is_decoded() {
    let d = IAmDevice::from_reply(&i_am_request(), &source()).unwrap();
    assert_eq!(d.device_id, 123);
    assert_eq!(d.max_apdu, 480);
    assert_eq!(d.vendor_id, 15);
    assert_eq!(d.mac_addr, [10, 0, 0, 7, 0xBA, 0xC0]);
    assert_eq!(d.network_number, 5);
    assert_eq!(d.addr.len, 2);
    assert_eq!(&d.addr.adr[..2], &[3, 4]);
}

#[test]
fn i_am_reply_that_does_not_decode() {
    let mut bad = i_am_request();
    bad[1] = 0x00; // object type 0 is not a device
    assert!(IAmDevice::from_reply(&bad, &source()).is_none());
    assert!(IAmDevice::from_reply(&i_am_request()[..9], &source()).is_none());
    let mut big_vendor = i_am_request();
    big_vendor.truncate(10);
    big_vendor.extend([0x23, 0x01, 0x00, 0x00]);
    assert!(IAmDevice::from_reply(&big_vendor, &source()).is_none());
}

#[test]
fn discovery_collects_replies() {
    let mut disc = Discovery::new();
    assert!(disc.on_i_am(&i_am_request(), &source()));
    assert!(!disc.on_i_am(&[0x00], &source()));
    let whois = WhoIs::new().timeout(Duration::from_millis(500)).subnet(Some(5));
    assert_eq!(whois.target_network(), Some(5));
    assert_eq!(whois.listen_timeout(), Duration::from_millis(500));
    let devices = whois.execute(disc).unwrap();
    assert_eq!(devices.len(), 1);
    assert_eq!(devices[0].device_id, 123);
}

#[test]
fn whois_defaults() {
    let whois = WhoIs::new();
    assert_eq!(whois.target_network(), None);
    assert_eq!(whois.listen_timeout(), Duration::from_secs(3));
}

#[test]
fn object_list_is_read_from_element_two() {
    let mut scan = ObjectListScan::new();
    assert_eq!(scan.next_request(), Some(ReadRequest { property: PROP_OBJECT_LIST, index: 0 }));
    assert!(scan.on_result(Ok(BACnetValue::Uint(4))).is_ok());
    let mut asked = Vec::new();
    while let Some(req) = scan.next_request() {
        asked.push(req.index);
        let v = if req.index == 3 {
            BACnetValue::Null
        } else {
            BACnetValue::ObjectId { object_type: 0, object_instance: req.index }
        };
        assert!(scan.on_result(Ok(v)).is_ok());
    }
    assert_eq!(asked, vec![2, 3, 4]);
    assert_eq!(scan.into_object_ids(), vec![(0, 2), (0, 4)]);
}

#[test]
fn object_list_failures() {
    let mut scan = ObjectListScan::new();
    assert!(matches!(scan.on_result(Ok(BACnetValue::Int(3))), Err(EpicsError::NotALength)));
    assert_eq!(scan.next_request(), None);
    let mut scan = ObjectListScan::new();
    assert!(scan.on_result(Ok(BACnetValue::Uint(3))).is_ok());
    assert!(matches!(scan.on_result(Err(ReadError::ApduTimeout)), Err(EpicsError::Read(ReadError::ApduTimeout))));
    assert_eq!(scan.next_request(), None);
    let mut scan = ObjectListScan::new();
    assert!(scan.on_result(Ok(BACnetValue::Uint(1))).is_ok());
    assert_eq!(scan.next_request(), None);
}
