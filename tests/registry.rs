use bacnet::address::Address;
use bacnet::codec::{DecodeError, EnumNames};
use bacnet::registry::{BACnetErr, ReadError, ReadPropertyData, Registry, RequestStatus, WaitStep};
use bacnet::value::BACnetValue;

fn addr(last: u8) -> Address {
    Address { mac_len: 6, mac: [192, 168, 1, last, 0xBA, 0xC0, 0], net: 0, len: 0, adr: [0; 7] }
}

fn no_names() -> EnumNames {
    EnumNames { units: Vec::new(), object_types: Vec::new(), binary_states: Vec::new() }
}

fn request_of(r: &Registry, device_id: u32) -> Option<&(u8, RequestStatus)> {
    r.devices.iter().find(|d| d.device_id == device_id).and_then(|d| d.request.as_ref())
}

#[test]
fn reply_from_one_address_never_resolves_another() {
    let mut r = Registry::new();
    r.connect(1, addr(10));
    r.connect(2, addr(20));
    r.register_pending(1, 5).unwrap();
    r.register_pending(2, 5).unwrap();
    assert!(r.on_reject(&addr(10), 5, 9));
    assert!(matches!(request_of(&r, 1), Some((5, RequestStatus::Error(BACnetErr::Rejected { code: 9 })))));
    assert!(matches!(request_of(&r, 2), Some((5, RequestStatus::Ongoing))));
    assert!(r.on_reject(&addr(20), 5, 3));
    assert!(matches!(request_of(&r, 2), Some((5, RequestStatus::Error(BACnetErr::Rejected { code: 3 })))));
}

#[test]
fn reply_that_matches_nothing_is_dropped() {
    let mut r = Registry::new();
    r.connect(1, addr(10));
    r.register_pending(1, 5).unwrap();
    assert!(!r.on_reject(&addr(11), 5, 1));
    assert!(!r.on_reject(&addr(10), 6, 1));
    assert!(matches!(request_of(&r, 1), Some((5, RequestStatus::Ongoing))));
}

#[test]
fn register_pending_requires_a_connection() {
    let mut r = Registry::new();
    assert!(matches!(r.register_pending(7, 1), Err(ReadError::NotConnected)));
    r.connect(7, addr(1));
    assert!(r.is_connected(7));
    assert!(r.register_pending(7, 1).is_ok());
    r.disconnect(7);
    assert!(!r.is_connected(7));
    assert!(matches!(r.register_pending(7, 1), Err(ReadError::NotConnected)));
}

#[test]
fn connect_replaces_an_entry() {
    let mut r = Registry::new();
    r.connect(7, addr(1));
    r.register_pending(7, 3).unwrap();
    r.connect(7, addr(2));
    assert_eq!(r.devices.len(), 1);
    assert!(r.devices[0].request.is_none());
    assert!(r.devices[0].addr.matches(&addr(2)));
}

#[test]
fn ack_is_decoded_and_recorded() {
    let mut r = Registry::new();
    r.connect(1, addr(10));
    r.register_pending(1, 4).unwrap();
    let data = ReadPropertyData {
        object_type: 0,
        object_instance: 1,
        object_property: 85,
        array_index: 0xFFFF_FFFF,
        application_data: vec![0x21, 0x2A],
    };
    assert!(r.on_ack(&addr(10), 4, Some(data), &no_names()));
    assert!(matches!(request_of(&r, 1), Some((4, RequestStatus::Done(Ok(BACnetValue::Uint(42)))))));
    assert!(matches!(r.take_outcome(1), Ok(BACnetValue::Uint(42))));
    assert!(request_of(&r, 1).is_none());
}

#[test]
fn ack_that_does_not_decode_still_completes() {
    let mut r = Registry::new();
    r.connect(1, addr(10));
    r.register_pending(1, 4).unwrap();
    let data = ReadPropertyData {
        object_type: 0,
        object_instance: 1,
        object_property: 85,
        array_index: 0xFFFF_FFFF,
        application_data: vec![0x62, 0x01, 0x02],
    };
    assert!(r.on_ack(&addr(10), 4, Some(data), &no_names()));
    assert!(matches!(r.take_outcome(1), Err(ReadError::Decode(DecodeError::UnsupportedTag { tag: 6 }))));
    r.register_pending(1, 8).unwrap();
    assert!(r.on_ack(&addr(10), 8, None, &no_names()));
    assert!(matches!(r.take_outcome(1), Err(ReadError::Decode(DecodeError::Truncated))));
}

#[test]
fn error_and_abort_are_recorded() {
    let mut r = Registry::new();
    r.connect(1, addr(10));
    r.register_pending(1, 4).unwrap();
    assert!(r.on_error(&addr(10), 4, 2, "property".to_string(), 32, "unknown-property".to_string()));
    match r.take_outcome(1) {
        Err(ReadError::Protocol(BACnetErr::Error { class, class_text, code, text })) => {
            assert_eq!((class, code), (2, 32));
            assert_eq!(class_text, "property");
            assert_eq!(text, "unknown-property");
        }
        other => panic!("unexpected {:?}", other),
    }
    r.register_pending(1, 5).unwrap();
    assert!(r.on_abort(&addr(10), 5, 4, "segmentation-not-supported".to_string()));
    assert!(matches!(r.take_outcome(1), Err(ReadError::Protocol(BACnetErr::Aborted { code: 4, .. }))));
}

#[test]
fn take_outcome_of_unknown_or_unanswered_request() {
    let mut r = Registry::new();
    assert!(matches!(r.take_outcome(1), Err(ReadError::NotConnected)));
    r.connect(1, addr(10));
    assert!(matches!(r.take_outcome(1), Err(ReadError::NoReply)));
    r.register_pending(1, 2).unwrap();
    assert!(matches!(r.take_outcome(1), Err(ReadError::NoReply)));
}

#[test]
fn deadline_gives_apdu_timeout_and_keeps_the_request() {
    let mut r = Registry::new();
    r.connect(1, addr(10));
    r.register_pending(1, 9).unwrap();
    assert!(matches!(r.wait_step(1, false, false, 100, 3000), WaitStep::Continue));
    assert!(matches!(r.wait_step(1, false, false, 3001, 3000), WaitStep::Finished(Err(ReadError::ApduTimeout))));
    assert!(matches!(request_of(&r, 1), Some((9, RequestStatus::Ongoing))));
    // A late reply still finds the request.
    assert!(r.on_reject(&addr(10), 9, 1));
}

#[test]
fn transport_completion_and_failure() {
    let mut r = Registry::new();
    r.connect(1, addr(10));
    r.register_pending(1, 9).unwrap();
    assert!(matches!(r.wait_step(1, false, true, 0, 3000), WaitStep::Finished(Err(ReadError::TransportTimeout))));
    let data = ReadPropertyData {
        object_type: 0,
        object_instance: 1,
        object_property: 77,
        array_index: 0xFFFF_FFFF,
        application_data: vec![0x10],
    };
    assert!(r.on_ack(&addr(10), 9, Some(data), &no_names()));
    assert!(matches!(r.wait_step(1, true, false, 10, 3000), WaitStep::Finished(Ok(BACnetValue::Bool(false)))));
    assert!(request_of(&r, 1).is_none());
    assert!(matches!(r.wait_step(2, true, false, 10, 3000), WaitStep::Finished(Err(ReadError::NotConnected))));
}

#[test]
fn addresses_match_on_link_and_network() {
    let local = addr(10);
    assert!(local.matches(&addr(10)));
    assert!(!local.matches(&addr(11)));
    let mut routed = Address { mac_len: 6, mac: [10, 0, 0, 1, 0xBA, 0xC0, 0], net: 5, len: 1, adr: [14, 0, 0, 0, 0, 0, 0] };
    let mut other = routed;
    assert!(routed.matches(&other));
    other.adr[0] = 15;
    assert!(!routed.matches(&other));
    other.net = 6;
    other.adr[0] = 14;
    assert!(!routed.matches(&other));
    // On the local network the remote address is ignored.
    routed.net = 0;
    let mut local_other = routed;
    local_other.adr[0] = 99;
    local_other.len = 3;
    assert!(routed.matches(&local_other));
    // Octets past the link-layer length are ignored.
    let mut short = addr(10);
    short.mac_len = 4;
    let mut short_other = short;
    short_other.mac[5] = 0;
    assert!(short.matches(&short_other));
}
