use bacnet::interrogation::{Interrogation, ReadRequest, BACNET_ARRAY_ALL, PROP_OBJECT_LIST};
use bacnet::registry::{BACnetErr, ReadError};
use bacnet::value::BACnetValue;

fn unknown_property() -> ReadError {
    ReadError::Protocol(BACnetErr::Error {
        class_text: "property".to_string(),
        class: 2,
        text: "unknown-property".to_string(),
        code: 32,
    })
}

fn segmentation_not_supported() -> ReadError {
    ReadError::Protocol(BACnetErr::Aborted { text: "segmentation-not-supported".to_string(), code: 4 })
}

#[test]
fn unknown_required_property_is_left_out() {
    let (a, b, c) = (75u32, 28u32, 77u32);
    let mut it = Interrogation::new(&vec![a, b, c], &vec![]);
    assert_eq!(it.next_request(), Some(ReadRequest { property: a, index: BACNET_ARRAY_ALL }));
    it.on_result(Ok(BACnetValue::Uint(1)));
    assert_eq!(it.next_request(), Some(ReadRequest { property: b, index: BACNET_ARRAY_ALL }));
    it.on_result(Err(unknown_property()));
    assert_eq!(it.next_request(), Some(ReadRequest { property: c, index: BACNET_ARRAY_ALL }));
    it.on_result(Ok(BACnetValue::String("room".to_string())));
    assert!(it.is_finished());
    assert_eq!(it.next_request(), None);
    let results = it.into_results();
    assert_eq!(results.len(), 2);
    assert!(results.contains_key(&a));
    assert!(results.contains_key(&c));
    assert!(!results.contains_key(&b));
}

#[test]
fn any_failed_read_is_passed_over() {
    let mut it = Interrogation::new(&vec![1, 2], &vec![3]);
    it.on_result(Err(ReadError::ApduTimeout));
    it.on_result(Ok(BACnetValue::Null));
    it.on_result(Err(ReadError::Protocol(BACnetErr::Rejected { code: 1 })));
    assert!(it.is_finished());
    let results = it.into_results();
    assert_eq!(results.len(), 1);
    assert!(results.contains_key(&2));
}

#[test]
fn segmented_optional_property_is_read_by_element() {
    let p = 87u32;
    let mut it = Interrogation::new(&vec![], &vec![p]);
    assert_eq!(it.next_request(), Some(ReadRequest { property: p, index: BACNET_ARRAY_ALL }));
    it.on_result(Err(segmentation_not_supported()));
    assert_eq!(it.next_request(), Some(ReadRequest { property: p, index: 0 }));
    it.on_result(Ok(BACnetValue::Uint(3)));
    let mut asked = Vec::new();
    while let Some(req) = it.next_request() {
        asked.push(req.index);
        if req.index == 2 {
            it.on_result(Err(ReadError::ApduTimeout));
        } else {
            it.on_result(Ok(BACnetValue::Uint(req.index as u64 * 10)));
        }
    }
    assert_eq!(asked, vec![1, 2, 3]);
    let results = it.into_results();
    match results.get(&p) {
        Some(BACnetValue::Array(items)) => {
            assert_eq!(items.len(), 2);
            assert!(matches!(items[0], BACnetValue::Uint(10)));
            assert!(matches!(items[1], BACnetValue::Uint(30)));
        }
        other => panic!("unexpected {:?}", other),
    }
}

#[test]
fn empty_array_and_bad_length() {
    let mut it = Interrogation::new(&vec![], &vec![5, 6, 7]);
    it.on_result(Err(segmentation_not_supported()));
    it.on_result(Ok(BACnetValue::Uint(0)));
    it.on_result(Err(segmentation_not_supported()));
    it.on_result(Ok(BACnetValue::Int(3)));
    it.on_result(Err(ReadError::Protocol(BACnetErr::Aborted { text: "other".to_string(), code: 5 })));
    assert!(it.is_finished());
    let results = it.into_results();
    assert_eq!(results.len(), 1);
    assert!(matches!(results.get(&5), Some(BACnetValue::Array(items)) if items.is_empty()));
}

#[test]
fn required_segmentation_abort_is_not_retried() {
    let mut it = Interrogation::new(&vec![9], &vec![]);
    it.on_result(Err(segmentation_not_supported()));
    assert!(it.is_finished());
    assert!(it.into_results().is_empty());
}

#[test]
fn object_list_is_not_read_whole() {
    let mut it = Interrogation::new(&vec![PROP_OBJECT_LIST, 75, PROP_OBJECT_LIST], &vec![28]);
    assert_eq!(it.next_request(), Some(ReadRequest { property: 75, index: BACNET_ARRAY_ALL }));
    it.on_result(Ok(BACnetValue::Null));
    assert_eq!(it.next_request(), Some(ReadRequest { property: 28, index: BACNET_ARRAY_ALL }));
    it.on_result(Ok(BACnetValue::Null));
    assert!(it.is_finished());
}

#[test]
fn at_most_130_properties_are_read() {
    let required: Vec<u32> = (1000..1100).collect();
    let optional: Vec<u32> = (2000..2100).collect();
    let mut it = Interrogation::new(&required, &optional);
    let mut count = 0;
    let mut last = 0;
    while let Some(req) = it.next_request() {
        count += 1;
        last = req.property;
        it.on_result(Ok(BACnetValue::Null));
    }
    assert_eq!(count, 130);
    assert_eq!(last, 2029);
    assert_eq!(it.into_results().len(), 130);
}
