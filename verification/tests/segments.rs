use zenoh_shm::common::ZError;
use zenoh_shm::link::{key_form, secret_source, KeyForm, SecretSource};
use zenoh_shm::runtime::{ZRuntime, ZRuntimeConfig};
use zenoh_shm::segment::{
    after_refusal, AfterRefusal, MappingError, Segment, SEGMENT_DEDICATE_TRIES,
};

#[test]
fn segment_names_are_prefix_underscore_id() {
    assert_eq!(Segment::os_id(0, "p"), "p_0");
    assert_eq!(Segment::os_id(7, "watchdog"), "watchdog_7");
    assert_eq!(Segment::os_id(10, "x"), "x_10");
    assert_eq!(Segment::os_id(1_234_567_890, "data"), "data_1234567890");
    assert_eq!(Segment::os_id(u32::MAX, ""), "_4294967295");
}

#[test]
fn created_segment_can_be_opened_by_id() {
    let prefix = "zenoh_shm_test_segments_open";
    let created = Segment::create(4096, prefix).unwrap();
    assert_eq!(created.len(), 4096);
    assert_eq!(created.name(), Segment::os_id(created.id(), prefix));
    assert_ne!(created.as_ptr(), 0);
    assert_eq!(created.as_ptr(), created.as_ptr());
    let opened = Segment::open(created.id(), prefix).unwrap();
    assert_eq!(opened.id(), created.id());
    assert_eq!(opened.name(), created.name());
    assert!(opened.len() >= 4096);
}

#[test]
fn segments_of_one_prefix_have_different_names() {
    let prefix = "zenoh_shm_test_segments_unique";
    let mut live = vec![];
    for _ in 0..16 {
        let segment = Segment::create(64, prefix).unwrap();
        assert!(live.iter().all(|other: &Segment| other.id() != segment.id()));
        live.push(segment);
    }
}

#[test]
fn opening_a_segment_that_is_not_there() {
    let prefix = "zenoh_shm_test_segments_absent";
    let created = Segment::create(64, prefix).unwrap();
    let id = created.id();
    drop(created);
    assert!(matches!(Segment::open(id, prefix), Err(ZError::SegmentNotFound)));
}

#[test]
fn a_segment_of_no_bytes_is_refused() {
    assert!(matches!(
        Segment::create(0, "zenoh_shm_test_segments_empty"),
        Err(ZError::Other(_))
    ));
}

#[test]
fn only_name_collisions_are_tried_again() {
    assert_eq!(SEGMENT_DEDICATE_TRIES, 100);
    assert_eq!(after_refusal(MappingError::MappingIdExists, 1), AfterRefusal::TryAnotherId);
    assert_eq!(after_refusal(MappingError::LinkExists, 99), AfterRefusal::TryAnotherId);
    assert_eq!(after_refusal(MappingError::MappingIdExists, 100), AfterRefusal::OutOfIds);
    assert_eq!(after_refusal(MappingError::LinkExists, 100), AfterRefusal::OutOfIds);
    assert_eq!(after_refusal(MappingError::MapSizeZero, 1), AfterRefusal::Fatal);
    assert_eq!(after_refusal(MappingError::MapCreateFailed(13), 1), AfterRefusal::Fatal);
    assert_eq!(after_refusal(MappingError::UnknownOsError(5), 100), AfterRefusal::Fatal);
}

#[test]
fn runtimes_and_their_worker_threads() {
    assert_eq!(
        ZRuntime::iter(),
        vec![
            ZRuntime::TX,
            ZRuntime::RX,
            ZRuntime::Accept,
            ZRuntime::Application,
            ZRuntime::Net
        ]
    );
    let config = ZRuntimeConfig::default();
    for runtime in ZRuntime::iter() {
        assert_eq!(runtime.worker_threads(&config), 2);
    }
    let custom = ZRuntimeConfig {
        tx_threads: 1,
        rx_threads: 2,
        accept_threads: 3,
        application_threads: 4,
        net_threads: 5,
    };
    assert_eq!(ZRuntime::TX.worker_threads(&custom), 1);
    assert_eq!(ZRuntime::RX.worker_threads(&custom), 2);
    assert_eq!(ZRuntime::Accept.worker_threads(&custom), 3);
    assert_eq!(ZRuntime::Application.worker_threads(&custom), 4);
    assert_eq!(ZRuntime::Net.worker_threads(&custom), 5);
    assert_eq!(ZRuntime::TX.name(), "TX");
    assert_eq!(ZRuntime::Application.name(), "Application");
    assert_eq!(ZRuntime::Net.name(), "Net");
}

#[test]
fn secrets_come_from_the_first_source_that_is_set() {
    assert_eq!(secret_source(true, true, true), SecretSource::Raw);
    assert_eq!(secret_source(true, false, false), SecretSource::Raw);
    assert_eq!(secret_source(false, true, true), SecretSource::Base64);
    assert_eq!(secret_source(false, false, true), SecretSource::File);
    assert_eq!(secret_source(false, false, false), SecretSource::Missing);
    assert_eq!(key_form(1, 1, 1), Some(KeyForm::Rsa));
    assert_eq!(key_form(0, 2, 1), Some(KeyForm::Pkcs8));
    assert_eq!(key_form(0, 0, 1), Some(KeyForm::Ec));
    assert_eq!(key_form(0, 0, 0), None);
}
